//! The two directions of a relayed connection: chat packets from the client
//! are recoloured, everything else passes unchanged.

use vstd::prelude::*;
use vstd::slice::{slice_subrange, slice_to_vec};
use vstd::utf8::{decode_utf8, encode_utf8, valid_utf8};
use crate::color::{ColorError, Pick};
use crate::colorer::{Colorer, Gradient};
use crate::varint::{encoded_length, terraria_type};

verus! {

/// The shortest buffer that can hold a chat packet.
pub const MINIMUM_SIZE: usize = 10;

/// Where the length field of a chat packet begins.
pub const MESSAGE_POS: usize = 9;

/// The seven bytes that mark a packet as a chat message.
pub open spec fn chat_message_header() -> Seq<u8> {
    seq![0x52u8, 0x01u8, 0x00u8, 0x03u8, 0x53u8, 0x61u8, 0x79u8]
}

/// Whether a buffer is taken for a chat packet: it is long enough and holds
/// the header behind its two length bytes.
pub open spec fn is_chat(buffer: Seq<u8>) -> bool {
    buffer.len() >= MINIMUM_SIZE && buffer.subrange(2, 9) == chat_message_header()
}

/// The width that the length field of a chat packet is taken to have, judged
/// by the size of the buffer alone.
pub open spec fn length_width(buffer: Seq<u8>) -> int {
    if buffer.len() - MESSAGE_POS > 128 {
        2
    } else {
        1
    }
}

/// The bytes of the message in a chat packet: all that follows the length
/// field.
pub open spec fn message_bytes(buffer: Seq<u8>) -> Seq<u8> {
    buffer.skip(MESSAGE_POS + length_width(buffer))
}

/// The text that bytes which are not UTF-8 are read as.
pub uninterp spec fn lossy_text(bytes: Seq<u8>) -> Seq<char>;

/// The text that bytes are read as: what they encode where they are UTF-8,
/// else the lossy reading.
pub open spec fn read_text(bytes: Seq<u8>) -> Seq<char> {
    if valid_utf8(bytes) {
        decode_utf8(bytes)
    } else {
        lossy_text(bytes)
    }
}

/// The text of the message in a chat packet.
pub open spec fn chat_text(buffer: Seq<u8>) -> Seq<char> {
    read_text(message_bytes(buffer))
}

/// The two bytes of a length, low byte first; bits above the sixteenth are
/// lost.
pub open spec fn little_endian(length: nat) -> Seq<u8> {
    seq![(length % 256) as u8, ((length / 256) % 256) as u8]
}

/// The length field for a message of `length` bytes; bits above the
/// thirty-second are lost before it is encoded.
pub open spec fn length_field(length: nat) -> Seq<u8> {
    encoded_length(length % 0x1_0000_0000)
}

/// The chat packet that carries `text`: the length of the whole packet in two
/// bytes, the header, the length field of the text, and the text in UTF-8.
pub open spec fn chat_packet(text: Seq<char>) -> Seq<u8> {
    let body = encode_utf8(text);
    let field = length_field(body.len());
    little_endian(MESSAGE_POS as nat + field.len() + body.len()) + chat_message_header() + field
        + body
}

/// What becomes of a buffer from the client: a chat packet is rebuilt around
/// its recoloured text, any other buffer stays as it is.
pub open spec fn handled(gradient: Gradient, buffer: Seq<u8>, picks: Seq<Pick>) -> Result<
    Seq<u8>,
    ColorError,
> {
    if is_chat(buffer) {
        match gradient.recolored(chat_text(buffer), picks) {
            Ok(text) => Ok(chat_packet(text)),
            Err(e) => Err(e),
        }
    } else {
        Ok(buffer)
    }
}

/// A chat packet built around a text is taken for a chat packet, with a length
/// field as wide as the one it was built with, and its text is read back as it
/// was. Where the length of the packet fits in its first two bytes, they hold
/// it: nine, the width of the length field and the bytes of the text.
pub proof fn lemma_chat_packet_round_trip(text: Seq<char>)
    requires
        MESSAGE_POS + length_field(encode_utf8(text).len()).len() + encode_utf8(text).len()
            <= 0xFFFF,
    ensures
        is_chat(chat_packet(text)),
        length_width(chat_packet(text)) == length_field(encode_utf8(text).len()).len(),
        chat_text(chat_packet(text)) == text,
        chat_packet(text)[0] + 256 * chat_packet(text)[1] == MESSAGE_POS + length_width(
            chat_packet(text),
        ) + encode_utf8(text).len(),
        chat_packet(text)[0] + 256 * chat_packet(text)[1] == chat_packet(text).len(),
{
    broadcast use vstd::utf8::encode_utf8_valid_utf8, vstd::utf8::encode_utf8_decode_utf8;

    let body = encode_utf8(text);
    let field = length_field(body.len());
    let packet = chat_packet(text);
    let total = MESSAGE_POS as nat + field.len() + body.len();
    assert(packet.subrange(2, 9) =~= chat_message_header());
    assert(message_bytes(packet) =~= body);
    assert(packet[0] == little_endian(total)[0]);
    assert(packet[1] == little_endian(total)[1]);
}

/// A chat packet built around a text is handled as the text is recoloured: the
/// packet built around the new text comes out. Where recolouring leaves the
/// text as it is, the packet comes out as it went in.
pub proof fn lemma_built_packet_handled(gradient: Gradient, text: Seq<char>, picks: Seq<Pick>)
    requires
        MESSAGE_POS + length_field(encode_utf8(text).len()).len() + encode_utf8(text).len()
            <= 0xFFFF,
    ensures
        handled(gradient, chat_packet(text), picks) == match gradient.recolored(text, picks) {
            Ok(new_text) => Ok::<Seq<u8>, ColorError>(chat_packet(new_text)),
            Err(e) => Err::<Seq<u8>, ColorError>(e),
        },
        gradient.recolored(text, picks) == Ok::<Seq<char>, ColorError>(text) ==> handled(
            gradient,
            chat_packet(text),
            picks,
        ) == Ok::<Seq<u8>, ColorError>(chat_packet(text)),
{
    lemma_chat_packet_round_trip(text);
}

/// The client's side of a connection: it recolours the chat packets that the
/// client sends.
pub struct ClientReader {
    colorer: Colorer,
}

impl View for ClientReader {
    type V = Gradient;

    closed spec fn view(&self) -> Gradient {
        self.colorer@
    }
}

/// The server's side of a connection: it changes nothing.
pub struct ServerReader {}

/// `String::from_utf8_lossy`, made an owned string: bytes that are UTF-8 give
/// the text that they encode; in other bytes each invalid sequence is replaced,
/// and the text depends on the bytes alone.
#[verifier::external_body]
fn decode_lossy(bytes: &[u8]) -> (text: String)
    ensures
        text@ == read_text(bytes@),
        !valid_utf8(bytes@) ==> text@ == lossy_text(bytes@),
{
    String::from_utf8_lossy(bytes).into_owned()
}

/// Whether the chat header stands behind the two length bytes.
fn has_header(buffer: &[u8]) -> (found: bool)
    requires
        buffer@.len() >= 9,
    ensures
        found == (buffer@.subrange(2, 9) == chat_message_header()),
{
    let found: bool = buffer[2] == 0x52 && buffer[3] == 0x01 && buffer[4] == 0x00 && buffer[5]
        == 0x03 && buffer[6] == 0x53 && buffer[7] == 0x61 && buffer[8] == 0x79;
    proof {
        let part = buffer@.subrange(2, 9);
        if found {
            assert(part =~= chat_message_header());
        } else {
            assert(part[0] == buffer@[2] && part[1] == buffer@[3] && part[2] == buffer@[4]
                && part[3] == buffer@[5] && part[4] == buffer@[6] && part[5] == buffer@[7]
                && part[6] == buffer@[8]);
        }
    }
    found
}

/// Whether a buffer is taken for a chat packet.
pub fn is_chat_packet(buffer: &[u8]) -> (chat: bool)
    ensures
        chat == is_chat(buffer@),
{
    buffer.len() >= MINIMUM_SIZE && has_header(buffer)
}

/// The text of the message in a chat packet, with each invalid sequence of
/// bytes replaced.
pub fn chat_message(buffer: &[u8]) -> (text: String)
    requires
        buffer@.len() >= MINIMUM_SIZE,
    ensures
        text@ == chat_text(buffer@),
{
    let full_length: usize = buffer.len() - MESSAGE_POS;
    let length_length: usize = if full_length > 128 {
        2
    } else {
        1
    };
    let real_msg_pos: usize = MESSAGE_POS + length_length;
    let message = slice_subrange(buffer, real_msg_pos, buffer.len());
    assert(message@ =~= message_bytes(buffer@));
    decode_lossy(message)
}

/// Builds the chat packet that carries `text`.
pub fn build_chat(text: &str) -> (packet: Vec<u8>)
    ensures
        packet@ == chat_packet(text@),
{
    let body = text.as_bytes();
    let new_length: usize = body.len();
    let mut encoded_length = terraria_type((new_length as u64 % 0x1_0000_0000) as u32);
    let ghost field = encoded_length@;
    assert(field == length_field(body@.len()));
    let payload_length: u128 = MESSAGE_POS as u128 + encoded_length.len() as u128
        + new_length as u128;
    let mut out_vec: Vec<u8> = Vec::new();
    out_vec.push((payload_length % 256) as u8);
    out_vec.push(((payload_length / 256) % 256) as u8);
    assert(out_vec@ =~= little_endian(payload_length as nat));
    out_vec.push(0x52);
    out_vec.push(0x01);
    out_vec.push(0x00);
    out_vec.push(0x03);
    out_vec.push(0x53);
    out_vec.push(0x61);
    out_vec.push(0x79);
    assert(out_vec@ =~= little_endian(payload_length as nat) + chat_message_header());
    out_vec.append(&mut encoded_length);
    out_vec.extend_from_slice(body);
    assert(out_vec@ == little_endian(payload_length as nat) + chat_message_header() + field
        + body@);
    out_vec
}

impl ClientReader {
    /// A reader that recolours with `colorer`.
    pub fn spawn(colorer: Colorer) -> (reader: Self)
        ensures
            reader@ == colorer@,
    {
        ClientReader { colorer }
    }

    /// Rebuilds a chat packet around its recoloured text.
    fn change_chat(&mut self, buffer: &[u8]) -> (out: Result<Vec<u8>, ColorError>)
        requires
            is_chat(buffer@),
        ensures
            final(self)@.redrawn_from(old(self)@),
            old(self)@.solid() ==> final(self)@ == old(self)@,
            exists|picks: Seq<Pick>|
                match out {
                    Ok(packet) => #[trigger] handled(final(self)@, buffer@, picks) == Ok::<
                        Seq<u8>,
                        ColorError,
                    >(packet@),
                    Err(e) => handled(final(self)@, buffer@, picks) == Err::<Seq<u8>, ColorError>(
                        e,
                    ),
                },
    {
        let message = chat_message(buffer);
        match self.colorer.color_text(message.as_str()) {
            Ok(new_message) => {
                let packet = build_chat(new_message.as_str());
                proof {
                    let picks = choose|picks: Seq<Pick>| #[trigger]
                        self@.recolored(message@, picks) == Ok::<Seq<char>, ColorError>(
                            new_message@,
                        );
                    assert(handled(self@, buffer@, picks) == Ok::<Seq<u8>, ColorError>(packet@));
                }
                Ok(packet)
            },
            Err(e) => {
                proof {
                    let picks = choose|picks: Seq<Pick>| #[trigger]
                        self@.recolored(message@, picks) == Err::<Seq<char>, ColorError>(e);
                    assert(handled(self@, buffer@, picks) == Err::<Seq<u8>, ColorError>(e));
                }
                Err(e)
            },
        }
    }

    /// What is sent on for a buffer read from the client: a chat packet is
    /// rebuilt around its recoloured text, any other buffer is copied. A
    /// gradient of several colours draws its phase shift anew for each chat
    /// packet.
    pub fn handle_buffer(&mut self, buffer: &[u8]) -> (out: Result<Vec<u8>, ColorError>)
        ensures
            final(self)@.redrawn_from(old(self)@),
            !is_chat(buffer@) || old(self)@.solid() ==> final(self)@ == old(self)@,
            exists|picks: Seq<Pick>|
                match out {
                    Ok(packet) => #[trigger] handled(final(self)@, buffer@, picks) == Ok::<
                        Seq<u8>,
                        ColorError,
                    >(packet@),
                    Err(e) => handled(final(self)@, buffer@, picks) == Err::<Seq<u8>, ColorError>(
                        e,
                    ),
                },
    {
        if is_chat_packet(buffer) {
            self.change_chat(buffer)
        } else {
            let copy = slice_to_vec(buffer);
            assert(handled(self@, buffer@, Seq::<Pick>::empty()) == Ok::<Seq<u8>, ColorError>(
                copy@,
            ));
            Ok(copy)
        }
    }
}

impl ServerReader {
    /// A reader for the server's side.
    pub fn spawn() -> (reader: Self) {
        ServerReader {  }
    }

    /// What is sent on for a buffer read from the server: the same bytes.
    pub fn handle_buffer(&mut self, buffer: &[u8]) -> (out: Vec<u8>)
        ensures
            out@ == buffer@,
    {
        slice_to_vec(buffer)
    }
}

} // verus!
