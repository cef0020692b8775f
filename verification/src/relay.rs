//! The decisions of one direction of a relayed connection. Reading and
//! writing are the caller's; after each of them it reports what happened and
//! is told what to do next.

use vstd::prelude::*;
use crate::color::{ColorError, Pick};
use crate::colorer::Gradient;
use crate::proxy::{handled, is_chat, ClientReader, ServerReader};

verus! {

/// Why a direction of the connection ends.
#[derive(Clone, Copy, Debug, PartialEq, Eq, Structural)]
pub enum Halt {
    /// The peer has closed the connection: an ordinary end.
    ConnectionClosed,
    /// Reading failed.
    ReadFailed,
    /// Writing failed for another reason.
    WriteFailed,
    /// A chat message needed an interpolation that is not available.
    UnsupportedInterpolation,
}

/// What happened in the step that was asked for.
#[derive(Debug, PartialEq, Eq)]
pub enum Event {
    /// These bytes were read.
    Received(Vec<u8>),
    /// Reading failed.
    ReceiveFailed,
    /// The bytes were written and flushed.
    Sent,
    /// Writing found the connection closed by the peer.
    PeerClosed,
    /// Writing failed for another reason.
    SendFailed,
}

/// What to do next.
#[derive(Debug, PartialEq, Eq)]
pub enum Action {
    /// Read what the source has.
    Receive,
    /// Write these bytes to the destination and flush it.
    Send(Vec<u8>),
    /// End this direction.
    Stop(Halt),
}

/// An `Event` with its bytes as a sequence.
pub enum EventView {
    Received(Seq<u8>),
    ReceiveFailed,
    Sent,
    PeerClosed,
    SendFailed,
}

/// An `Action` with its bytes as a sequence.
pub enum ActionView {
    Receive,
    Send(Seq<u8>),
    Stop(Halt),
}

impl View for Event {
    type V = EventView;

    open spec fn view(&self) -> EventView {
        match self {
            Event::Received(bytes) => EventView::Received(bytes@),
            Event::ReceiveFailed => EventView::ReceiveFailed,
            Event::Sent => EventView::Sent,
            Event::PeerClosed => EventView::PeerClosed,
            Event::SendFailed => EventView::SendFailed,
        }
    }
}

impl View for Action {
    type V = ActionView;

    open spec fn view(&self) -> ActionView {
        match self {
            Action::Receive => ActionView::Receive,
            Action::Send(bytes) => ActionView::Send(bytes@),
            Action::Stop(halt) => ActionView::Stop(*halt),
        }
    }
}

/// One direction of a connection.
pub enum Pump {
    /// From the client to the server: chat packets are recoloured.
    FromClient(ClientReader),
    /// From the server to the client: nothing is changed.
    FromServer(ServerReader),
}

/// A `Pump` by what it does to the bytes: the gradient that it recolours with,
/// if it recolours at all.
pub enum PumpView {
    FromClient(Gradient),
    FromServer,
}

impl View for Pump {
    type V = PumpView;

    open spec fn view(&self) -> PumpView {
        match self {
            Pump::FromClient(reader) => PumpView::FromClient(reader@),
            Pump::FromServer(_) => PumpView::FromServer,
        }
    }
}

/// What bytes that were read become on their way through `pump`.
pub open spec fn transformed(pump: PumpView, bytes: Seq<u8>, picks: Seq<Pick>) -> Result<
    Seq<u8>,
    ColorError,
> {
    match pump {
        PumpView::FromClient(gradient) => handled(gradient, bytes, picks),
        PumpView::FromServer => Ok(bytes),
    }
}

/// What follows an event. Bytes that were read are sent on as the pump
/// transforms them, or the direction ends if they cannot be. After a write the
/// next read follows. A failed read or write ends the direction.
pub open spec fn decided(pump: PumpView, event: EventView, picks: Seq<Pick>) -> ActionView {
    match event {
        EventView::Received(bytes) => match transformed(pump, bytes, picks) {
            Ok(out) => ActionView::Send(out),
            Err(_) => ActionView::Stop(Halt::UnsupportedInterpolation),
        },
        EventView::ReceiveFailed => ActionView::Stop(Halt::ReadFailed),
        EventView::Sent => ActionView::Receive,
        EventView::PeerClosed => ActionView::Stop(Halt::ConnectionClosed),
        EventView::SendFailed => ActionView::Stop(Halt::WriteFailed),
    }
}

/// Whether `after` is `before` with, at most, a new phase shift in a gradient
/// that recolours.
pub open spec fn pump_follows(after: PumpView, before: PumpView) -> bool {
    match (after, before) {
        (PumpView::FromClient(new), PumpView::FromClient(old)) => new.redrawn_from(old),
        (PumpView::FromServer, PumpView::FromServer) => true,
        _ => false,
    }
}

impl Pump {
    /// The first action of a pump: to read.
    pub fn start(&self) -> (action: Action)
        ensures
            action@ == ActionView::Receive,
    {
        Action::Receive
    }

    /// Decides what follows `event`.
    pub fn step(&mut self, event: Event) -> (action: Action)
        ensures
            pump_follows(final(self)@, old(self)@),
            !(event@ matches EventView::Received(bytes) && is_chat(bytes)) ==> final(self)@ == old(
                self,
            )@,
            exists|picks: Seq<Pick>| action@ == #[trigger] decided(final(self)@, event@, picks),
    {
        match event {
            Event::Received(bytes) => match self {
                Pump::FromClient(reader) => match reader.handle_buffer(bytes.as_slice()) {
                    Ok(out) => {
                        proof {
                            let picks = choose|picks: Seq<Pick>| #[trigger]
                                handled(reader@, bytes@, picks) == Ok::<Seq<u8>, ColorError>(out@);
                            assert(decided(PumpView::FromClient(reader@), event@, picks)
                                == ActionView::Send(out@));
                        }
                        Action::Send(out)
                    },
                    Err(e) => {
                        proof {
                            let picks = choose|picks: Seq<Pick>| #[trigger]
                                handled(reader@, bytes@, picks) == Err::<Seq<u8>, ColorError>(e);
                            assert(decided(PumpView::FromClient(reader@), event@, picks)
                                == ActionView::Stop(Halt::UnsupportedInterpolation));
                        }
                        Action::Stop(Halt::UnsupportedInterpolation)
                    },
                },
                Pump::FromServer(reader) => {
                    let out = reader.handle_buffer(bytes.as_slice());
                    assert(decided(PumpView::FromServer, event@, Seq::<Pick>::empty())
                        == ActionView::Send(out@));
                    Action::Send(out)
                },
            },
            Event::ReceiveFailed => {
                assert(decided(self@, event@, Seq::<Pick>::empty()) == ActionView::Stop(
                    Halt::ReadFailed,
                ));
                Action::Stop(Halt::ReadFailed)
            },
            Event::Sent => {
                assert(decided(self@, event@, Seq::<Pick>::empty()) == ActionView::Receive);
                Action::Receive
            },
            Event::PeerClosed => {
                assert(decided(self@, event@, Seq::<Pick>::empty()) == ActionView::Stop(
                    Halt::ConnectionClosed,
                ));
                Action::Stop(Halt::ConnectionClosed)
            },
            Event::SendFailed => {
                assert(decided(self@, event@, Seq::<Pick>::empty()) == ActionView::Stop(
                    Halt::WriteFailed,
                ));
                Action::Stop(Halt::WriteFailed)
            },
        }
    }
}

} // verus!
