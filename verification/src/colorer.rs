//! Gradients, and the recolouring of a message with colour tags.

use vstd::prelude::*;
use crate::color::{draw_pick, random_word, Color, ColorError, Interpolation, Pick, UNIT};
use crate::text::{chars_of, string_of};

verus! {

/// What a `Colorer` holds: the colours in their order along the gradient, the
/// phase shift if shifting is on, the way of mixing, and the repeat factor in
/// fixed point (`UNIT` is one cycle over a message).
pub struct Gradient {
    pub colors: Seq<Color>,
    pub shift: Option<u32>,
    pub interpolation: Interpolation,
    pub repeat: u32,
}

/// The start of a colour tag: `[c/`, the colour in hexadecimal, and a colon.
pub open spec fn tag_open(color: Color) -> Seq<char> {
    seq!['[', 'c', '/'] + color.hex() + seq![':']
}

/// One character inside a colour tag of its own.
pub open spec fn tag(color: Color, c: char) -> Seq<char> {
    tag_open(color).push(c).push(']')
}

/// The pick for the character at `at`; past the end of `picks`, all channels
/// stay with the first colour.
pub open spec fn pick_at(picks: Seq<Pick>, at: int) -> Pick {
    if 0 <= at < picks.len() {
        picks[at]
    } else {
        Pick { r: false, g: false, b: false }
    }
}

/// In a one-colour message: whether no colour tag is open once the first
/// `upto` characters are written. A `[` closes the tag; a `]` that the text
/// follows with anything but a `[` opens one.
pub open spec fn solid_closed(text: Seq<char>, upto: nat) -> bool
    decreases upto,
{
    if upto == 0 {
        text.len() == 0 || text[0] == '['
    } else {
        let c = text[upto - 1];
        if c == '[' {
            true
        } else if c == ']' && upto < text.len() && text[upto as int] != '[' {
            false
        } else {
            solid_closed(text, (upto - 1) as nat)
        }
    }
}

/// In a one-colour message: what the character at `at` adds to the output.
pub open spec fn solid_piece(color: Color, text: Seq<char>, at: int) -> Seq<char> {
    let c = text[at];
    if c == '[' {
        if solid_closed(text, at as nat) {
            seq!['[']
        } else {
            seq![']', '[']
        }
    } else if c == ']' && at + 1 < text.len() && text[at + 1] != '[' {
        seq![']'] + tag_open(color)
    } else {
        seq![c]
    }
}

/// In a one-colour message: the output once the first `upto` characters are
/// written. A tag is opened at the start unless the text is empty or begins
/// with `[`.
pub open spec fn solid_output(color: Color, text: Seq<char>, upto: nat) -> Seq<char>
    decreases upto,
{
    if upto == 0 {
        if solid_closed(text, 0) {
            Seq::empty()
        } else {
            tag_open(color)
        }
    } else {
        solid_output(color, text, (upto - 1) as nat) + solid_piece(color, text, upto - 1)
    }
}

/// A message recoloured in one colour: the text is copied, in one tag that is
/// closed before each bracketed span and opened again after it.
pub open spec fn solid_text(color: Color, text: Seq<char>) -> Seq<char> {
    let body = solid_output(color, text, text.len());
    if solid_closed(text, text.len()) {
        body
    } else {
        body.push(']')
    }
}

/// In a gradient message: whether a bracketed span is still open once the first
/// `upto` characters are read.
pub open spec fn span_open(text: Seq<char>, upto: nat) -> bool
    decreases upto,
{
    if upto == 0 {
        false
    } else {
        let c = text[upto - 1];
        c != ']' && (c == '[' || span_open(text, (upto - 1) as nat))
    }
}

/// In a gradient message: whether the character at `at` is copied as it is,
/// being a `[` or inside a bracketed span.
pub open spec fn verbatim(text: Seq<char>, at: int) -> bool {
    text[at] == '[' || span_open(text, at as nat)
}

/// In a gradient message: how many of the first `upto` characters are not
/// copied as they are. This is the running index of the next character.
pub open spec fn rank(text: Seq<char>, upto: nat) -> nat
    decreases upto,
{
    if upto == 0 {
        0
    } else if verbatim(text, upto - 1) {
        rank(text, (upto - 1) as nat)
    } else {
        rank(text, (upto - 1) as nat) + 1
    }
}

/// In a gradient message: whether the character at `at` gets a colour tag,
/// being neither copied as it is nor a space.
pub open spec fn tagged(text: Seq<char>, at: int) -> bool {
    !verbatim(text, at) && text[at] != ' '
}

/// Whether `text` holds neither `[` nor `]`.
pub open spec fn bracket_free(text: Seq<char>) -> bool {
    forall|i: int| 0 <= i < text.len() ==> text[i] != '[' && text[i] != ']'
}

impl Gradient {
    /// Whether `self` is `before` after a redraw of its phase shift: nothing
    /// but the shift may differ, and a shift is on in both or in neither.
    pub open spec fn redrawn_from(self, before: Gradient) -> bool {
        &&& self.colors == before.colors
        &&& self.interpolation == before.interpolation
        &&& self.repeat == before.repeat
        &&& self.shift is Some <==> before.shift is Some
    }

    /// Whether the gradient is a single colour.
    pub open spec fn solid(self) -> bool {
        self.colors.len() == 1
    }

    /// The number of colour steps that one cycle runs through: with a shift the
    /// gradient is a ring of all its colours, without one it ends on the last.
    pub open spec fn span(self) -> int {
        if self.shift is None {
            self.colors.len() - 1
        } else {
            self.colors.len() as int
        }
    }

    /// The place of character `index` of `total` along the message, in fixed
    /// point: its share of the message times the repeat factor (rounded down),
    /// plus the shift, less the repeat factor once if it is reached.
    pub open spec fn phase(self, index: nat, total: nat) -> int {
        let scaled = (index * self.repeat) / (total as int);
        let moved = match self.shift {
            Some(s) => scaled + s,
            None => scaled,
        };
        if moved >= self.repeat {
            moved - self.repeat
        } else {
            moved
        }
    }

    /// The place of character `index` of `total` among the colours, in fixed
    /// point.
    pub open spec fn coordinate(self, index: nat, total: nat) -> int {
        self.span() * self.phase(index, total)
    }

    /// The colour at or below the coordinate.
    pub open spec fn left(self, index: nat, total: nat) -> int {
        (self.coordinate(index, total) / (UNIT as int)) % (self.colors.len() as int)
    }

    /// The colour at or above the coordinate.
    pub open spec fn right(self, index: nat, total: nat) -> int {
        ((self.coordinate(index, total) + UNIT - 1) / (UNIT as int)) % (self.colors.len() as int)
    }

    /// How far the coordinate lies beyond the colour below it.
    pub open spec fn amount(self, index: nat, total: nat) -> u32 {
        (self.coordinate(index, total) % (UNIT as int)) as u32
    }

    /// The colour of character `index` of `total`.
    pub open spec fn color_at(self, index: nat, total: nat, pick: Pick) -> Result<
        Color,
        ColorError,
    > {
        if self.solid() {
            Ok(self.colors[0])
        } else {
            self.colors[self.left(index, total)].mixed(
                self.colors[self.right(index, total)],
                self.amount(index, total),
                self.interpolation,
                pick,
            )
        }
    }

    /// What stands for the character `c`, being number `index` of `total`: a
    /// space stays a bare space, any other character gets a tag of its colour.
    pub open spec fn token(self, c: char, index: nat, total: nat, pick: Pick) -> Result<
        Seq<char>,
        ColorError,
    > {
        if c == ' ' {
            Ok(seq![' '])
        } else {
            match self.color_at(index, total, pick) {
                Ok(color) => Ok(tag(color, c)),
                Err(e) => Err(e),
            }
        }
    }

    /// In a gradient message: what the character at `at` adds to the output.
    pub open spec fn piece(self, text: Seq<char>, at: int, picks: Seq<Pick>) -> Result<
        Seq<char>,
        ColorError,
    > {
        if verbatim(text, at) {
            Ok(seq![text[at]])
        } else {
            self.token(text[at], rank(text, at as nat), text.len(), pick_at(picks, at))
        }
    }

    /// In a gradient message: the output once the first `upto` characters are
    /// written, or the failure of the first character that has no colour.
    pub open spec fn gradient_output(self, text: Seq<char>, upto: nat, picks: Seq<Pick>) -> Result<
        Seq<char>,
        ColorError,
    >
        decreases upto,
    {
        if upto == 0 {
            Ok(Seq::empty())
        } else {
            match self.gradient_output(text, (upto - 1) as nat, picks) {
                Err(e) => Err(e),
                Ok(before) => match self.piece(text, upto - 1, picks) {
                    Err(e) => Err(e),
                    Ok(added) => Ok(before + added),
                },
            }
        }
    }

    /// The message recoloured: in one colour where the gradient is solid, else
    /// character by character along the gradient.
    pub open spec fn recolored(self, text: Seq<char>, picks: Seq<Pick>) -> Result<
        Seq<char>,
        ColorError,
    > {
        if self.solid() {
            Ok(solid_text(self.colors[0], text))
        } else {
            self.gradient_output(text, text.len(), picks)
        }
    }
}

/// A gradient at work: it recolours the messages that it is given, and draws
/// a new phase shift for each message if shifting is on.
pub struct Colorer {
    colors: Vec<Color>,
    shift: Option<u32>,
    interpolation: Interpolation,
    repeat: u32,
}

impl View for Colorer {
    type V = Gradient;

    closed spec fn view(&self) -> Gradient {
        Gradient {
            colors: self.colors@,
            shift: self.shift,
            interpolation: self.interpolation,
            repeat: self.repeat,
        }
    }
}

/// Tosses the coins for `count` characters.
pub fn draw_picks(count: usize) -> (picks: Vec<Pick>)
    ensures
        picks@.len() == count,
{
    let mut picks: Vec<Pick> = Vec::new();
    while picks.len() < count
        invariant
            picks@.len() <= count,
        decreases count - picks@.len(),
    {
        picks.push(draw_pick());
    }
    picks
}

/// Appends the start of a colour tag.
fn push_tag_open(out: &mut Vec<char>, color: &Color)
    ensures
        final(out)@ == old(out)@ + tag_open(*color),
{
    out.push('[');
    out.push('c');
    out.push('/');
    let hex = chars_of(color.to_string().as_str());
    let mut at: usize = 0;
    while at < hex.len()
        invariant
            at <= hex.len(),
            hex@ == color.hex(),
            out@ == old(out)@ + seq!['[', 'c', '/'] + hex@.take(at as int),
        decreases hex.len() - at,
    {
        out.push(hex[at]);
        assert(hex@.take(at as int + 1) =~= hex@.take(at as int).push(hex@[at as int]));
        at += 1;
    }
    out.push(':');
    assert(hex@.take(hex.len() as int) =~= hex@);
    assert(out@ =~= old(out)@ + tag_open(*color));
}

/// Recolours a message in one colour.
fn paint_solid(color: &Color, text: &Vec<char>) -> (out: Vec<char>)
    ensures
        out@ == solid_text(*color, text@),
{
    let mut out: Vec<char> = Vec::new();
    let mut closed: bool = text.len() == 0 || text[0] == '[';
    if !closed {
        push_tag_open(&mut out, color);
    }
    let mut at: usize = 0;
    while at < text.len()
        invariant
            at <= text.len(),
            closed == solid_closed(text@, at as nat),
            out@ == solid_output(*color, text@, at as nat),
        decreases text.len() - at,
    {
        let c: char = text[at];
        let ghost before = out@;
        if c == '[' {
            if !closed {
                out.push(']');
            }
            out.push(c);
            closed = true;
        } else {
            out.push(c);
            if c == ']' && at + 1 < text.len() && text[at + 1] != '[' {
                push_tag_open(&mut out, color);
                closed = false;
            }
        }
        assert(out@ =~= before + solid_piece(*color, text@, at as int));
        at += 1;
    }
    if !closed {
        out.push(']');
    }
    out
}

impl Colorer {
    /// There is at least one colour, and the shift is a fraction below one.
    #[verifier::type_invariant]
    spec fn well_formed(&self) -> bool {
        &&& self.colors@.len() > 0
        &&& self.shift matches Some(s) ==> s < UNIT
    }

    /// A gradient of `colors`, in this order. With `shift` a phase shift is
    /// drawn at once, and again for each message. `repeat` says in fixed point
    /// how many cycles of the gradient span one message.
    pub fn new(colors: Vec<Color>, shift: bool, interpolation: Interpolation, repeat: u32) -> (colorer:
        Self)
        requires
            colors@.len() > 0,
        ensures
            colorer@.colors == colors@,
            colorer@.interpolation == interpolation,
            colorer@.repeat == repeat,
            colorer@.shift is Some <==> shift,
            colorer@.shift matches Some(s) ==> s < UNIT,
    {
        let shift: Option<u32> = if shift {
            Some(0)
        } else {
            None
        };
        let mut out = Colorer { colors, shift, interpolation, repeat };
        out.word();
        out
    }

    /// Draws a new phase shift, if shifting is on.
    pub fn word(&mut self)
        ensures
            final(self)@.redrawn_from(old(self)@),
            final(self)@.shift matches Some(s) ==> s < UNIT,
    {
        if self.shift.is_some() {
            self.shift_to(random_word());
        }
    }

    /// Sets the phase shift, if shifting is on, to the upper 24 bits of `word`
    /// taken as a fraction.
    pub fn shift_to(&mut self, word: u32)
        ensures
            final(self)@.colors == old(self)@.colors,
            final(self)@.interpolation == old(self)@.interpolation,
            final(self)@.repeat == old(self)@.repeat,
            final(self)@.shift == (if old(self)@.shift is Some {
                Some((word / 256) as u32)
            } else {
                None
            }),
    {
        proof {
            use_type_invariant(&*self);
        }
        if self.shift.is_some() {
            self.shift = Some(word / 256);
        }
    }

    /// The phase shift in use, if shifting is on.
    pub fn shift(&self) -> (shift: Option<u32>)
        ensures
            shift == self@.shift,
            shift matches Some(s) ==> s < UNIT,
    {
        proof {
            use_type_invariant(self);
        }
        self.shift
    }

    /// Recolours a message along the gradient, character by character.
    fn paint_gradient(&self, text: &Vec<char>, picks: &Vec<Pick>) -> (out: Result<
        Vec<char>,
        ColorError,
    >)
        ensures
            match out {
                Ok(chars) => self@.gradient_output(text@, text@.len(), picks@) == Ok::<
                    Seq<char>,
                    ColorError,
                >(chars@),
                Err(e) => self@.gradient_output(text@, text@.len(), picks@) == Err::<
                    Seq<char>,
                    ColorError,
                >(e),
            },
    {
        let mut out: Vec<char> = Vec::new();
        let mut index: usize = 0;
        let mut ignore: bool = false;
        let mut at: usize = 0;
        while at < text.len()
            invariant
                at <= text.len(),
                index <= at,
                index == rank(text@, at as nat),
                ignore == span_open(text@, at as nat),
                self@.gradient_output(text@, at as nat, picks@) == Ok::<Seq<char>, ColorError>(
                    out@,
                ),
            decreases text.len() - at,
        {
            let c: char = text[at];
            let ghost before = out@;
            if c == '[' {
                ignore = true;
            }
            assert(ignore == verbatim(text@, at as int));
            if !ignore {
                let pick: Pick = if at < picks.len() {
                    picks[at]
                } else {
                    Pick { r: false, g: false, b: false }
                };
                match self.token(c, index, text.len(), pick) {
                    Ok(mut token) => {
                        let ghost added = token@;
                        out.append(&mut token);
                        assert(self@.piece(text@, at as int, picks@) == Ok::<Seq<char>, ColorError>(
                            out@.skip(before.len() as int),
                        )) by {
                            assert(out@.skip(before.len() as int) =~= added);
                        }
                    },
                    Err(e) => {
                        proof {
                            assert(self@.gradient_output(text@, (at + 1) as nat, picks@) is Err);
                            self@.lemma_failure_stays(text@, (at + 1) as nat, text@.len(), picks@);
                        }
                        return Err(e);
                    },
                }
                index += 1;
            } else {
                out.push(c);
                assert(out@.skip(before.len() as int) =~= seq![c]);
            }
            assert(out@ =~= before + out@.skip(before.len() as int));
            if c == ']' {
                ignore = false;
            }
            at += 1;
        }
        Ok(out)
    }

    /// Recolours a message with the phase shift in use. `picks` holds, for each
    /// character of the message, the channels that a random mix takes from the
    /// second colour; only a random gradient reads them.
    pub fn color_text_with(&self, text: &str, picks: &Vec<Pick>) -> (out: Result<
        String,
        ColorError,
    >)
        ensures
            match out {
                Ok(new_text) => self@.recolored(text@, picks@) == Ok::<Seq<char>, ColorError>(
                    new_text@,
                ),
                Err(e) => self@.recolored(text@, picks@) == Err::<Seq<char>, ColorError>(e),
            },
    {
        let chars = chars_of(text);
        self.paint(&chars, picks)
    }

    /// Recolours a message given as characters.
    fn paint(&self, text: &Vec<char>, picks: &Vec<Pick>) -> (out: Result<String, ColorError>)
        ensures
            match out {
                Ok(new_text) => self@.recolored(text@, picks@) == Ok::<Seq<char>, ColorError>(
                    new_text@,
                ),
                Err(e) => self@.recolored(text@, picks@) == Err::<Seq<char>, ColorError>(e),
            },
    {
        match self.solid() {
            Some(color) => Ok(string_of(&paint_solid(&color, text))),
            None => match self.paint_gradient(text, picks) {
                Ok(chars) => Ok(string_of(&chars)),
                Err(e) => Err(e),
            },
        }
    }

    /// Recolours a message. A solid gradient wraps the text in its one colour
    /// and draws nothing. Any other gradient first draws a new phase shift, if
    /// shifting is on, and a random one tosses its coins.
    pub fn color_text(&mut self, text: &str) -> (out: Result<String, ColorError>)
        ensures
            final(self)@.redrawn_from(old(self)@),
            final(self)@.shift matches Some(s) ==> s < UNIT,
            old(self)@.solid() ==> final(self)@ == old(self)@,
            exists|picks: Seq<Pick>|
                match out {
                    Ok(new_text) => #[trigger] final(self)@.recolored(text@, picks) == Ok::<
                        Seq<char>,
                        ColorError,
                    >(new_text@),
                    Err(e) => final(self)@.recolored(text@, picks) == Err::<Seq<char>, ColorError>(
                        e,
                    ),
                },
    {
        proof {
            use_type_invariant(&*self);
        }
        let chars = chars_of(text);
        let mut picks: Vec<Pick> = Vec::new();
        if self.colors.len() != 1 {
            self.word();
            if self.interpolation == Interpolation::Random {
                picks = draw_picks(chars.len());
            }
        }
        proof {
            use_type_invariant(&*self);
        }
        self.paint(&chars, &picks)
    }

    /// The single colour of a solid gradient.
    pub fn solid(&self) -> (color: Option<Color>)
        ensures
            color == (if self@.solid() {
                Some(self@.colors[0])
            } else {
                None
            }),
    {
        if self.colors.len() == 1 {
            Some(self.colors[0])
        } else {
            None
        }
    }

    /// Where character `index` of `total` lies among the colours: the colour
    /// below, the colour above, and the amount between them.
    fn place(&self, index: usize, total: usize) -> (place: (usize, usize, u32))
        requires
            index < total,
        ensures
            place.0 == self@.left(index as nat, total as nat),
            place.1 == self@.right(index as nat, total as nat),
            place.2 == self@.amount(index as nat, total as nat),
            place.0 < self@.colors.len(),
            place.1 < self@.colors.len(),
    {
        proof {
            use_type_invariant(self);
        }
        let count: u128 = self.colors.len() as u128;
        let repeat: u128 = self.repeat as u128;
        assert(index * repeat <= total * repeat) by (nonlinear_arith)
            requires
                index < total,
                repeat >= 0,
        ;
        assert(total * repeat <= 0x1_0000_0000_0000_0000 * 0x1_0000_0000) by (nonlinear_arith)
            requires
                0 <= total <= 0x1_0000_0000_0000_0000,
                0 <= repeat <= 0x1_0000_0000,
        ;
        let scaled: u128 = (index as u128 * repeat) / total as u128;
        assert(scaled <= repeat) by (nonlinear_arith)
            requires
                scaled == (index * repeat) / (total as int),
                index * repeat <= total * repeat,
                total > 0,
                repeat >= 0,
        ;
        let moved: u128 = match self.shift {
            Some(s) => scaled + s as u128,
            None => scaled,
        };
        let phase: u128 = if moved >= repeat {
            moved - repeat
        } else {
            moved
        };
        let span: u128 = if self.shift.is_none() {
            count - 1
        } else {
            count
        };
        assert(span * phase <= 0x1_0000_0000_0000_0000 * 0x2_0000_0000) by (nonlinear_arith)
            requires
                0 <= span <= 0x1_0000_0000_0000_0000,
                0 <= phase <= 0x2_0000_0000,
        ;
        let coordinate: u128 = span * phase;
        assert(coordinate == self@.coordinate(index as nat, total as nat));
        let left: u128 = (coordinate / UNIT as u128) % count;
        let right: u128 = ((coordinate + (UNIT - 1) as u128) / UNIT as u128) % count;
        let amount: u128 = coordinate % UNIT as u128;
        (left as usize, right as usize, amount as u32)
    }

    /// Mixes the colours numbered `left` and `right`; a `right` past the last
    /// colour stands for the first.
    fn interpolate(&self, left: usize, right: usize, amount: u32, pick: Pick) -> (color: Result<
        Color,
        ColorError,
    >)
        requires
            left < self@.colors.len(),
        ensures
            color == self@.colors[left as int].mixed(
                self@.colors[if right < self@.colors.len() {
                    right as int
                } else {
                    0
                }],
                amount,
                self@.interpolation,
                pick,
            ),
    {
        proof {
            use_type_invariant(self);
        }
        let right: usize = if right >= self.colors.len() {
            0
        } else {
            right
        };
        self.colors[left].interpolate_with(&self.colors[right], amount, &self.interpolation, pick)
    }

    /// The characters that stand for `c`, being number `index` of `total`.
    fn token(&self, c: char, index: usize, total: usize, pick: Pick) -> (token: Result<
        Vec<char>,
        ColorError,
    >)
        requires
            index < total,
        ensures
            match token {
                Ok(chars) => self@.token(c, index as nat, total as nat, pick) == Ok::<
                    Seq<char>,
                    ColorError,
                >(chars@),
                Err(e) => self@.token(c, index as nat, total as nat, pick) == Err::<
                    Seq<char>,
                    ColorError,
                >(e),
            },
    {
        proof {
            use_type_invariant(self);
        }
        let mut chars: Vec<char> = Vec::new();
        if c == ' ' {
            chars.push(c);
            assert(chars@ =~= seq![' ']);
            return Ok(chars);
        }
        let color: Color = if self.colors.len() == 1 {
            self.colors[0]
        } else {
            let (left, right, amount) = self.place(index, total);
            match self.interpolate(left, right, amount, pick) {
                Ok(color) => color,
                Err(e) => {
                    return Err(e);
                },
            }
        };
        push_tag_open(&mut chars, &color);
        chars.push(c);
        chars.push(']');
        assert(chars@ =~= tag(color, c));
        Ok(chars)
    }

    /// The colour token for the character `c`, being number `index` of `total`
    /// in its message. `pick` decides the channels of a random mix.
    pub fn color(&self, c: char, index: usize, total: usize, pick: Pick) -> (token: Result<
        String,
        ColorError,
    >)
        requires
            index < total,
        ensures
            match token {
                Ok(text) => self@.token(c, index as nat, total as nat, pick) == Ok::<
                    Seq<char>,
                    ColorError,
                >(text@),
                Err(e) => self@.token(c, index as nat, total as nat, pick) == Err::<
                    Seq<char>,
                    ColorError,
                >(e),
            },
    {
        match self.token(c, index, total, pick) {
            Ok(chars) => Ok(string_of(&chars)),
            Err(e) => Err(e),
        }
    }
}

/// What holds of every gradient.
impl Gradient {
    /// The colours on both sides of a character are colours of the gradient,
    /// and the amount between them is a fraction below one.
    pub proof fn lemma_place_in_range(self, index: nat, total: nat)
        requires
            self.colors.len() > 0,
            index < total,
        ensures
            0 <= self.left(index, total) < self.colors.len(),
            0 <= self.right(index, total) < self.colors.len(),
            self.amount(index, total) < UNIT,
    {
        let coordinate = self.coordinate(index, total);
        assert(index * self.repeat >= 0) by (nonlinear_arith)
            requires
                index >= 0,
                self.repeat >= 0,
        ;
        assert((index * self.repeat) / (total as int) >= 0) by (nonlinear_arith)
            requires
                index * self.repeat >= 0,
                total > 0,
        ;
        assert(self.phase(index, total) >= 0);
        assert(coordinate >= 0) by (nonlinear_arith)
            requires
                coordinate == self.span() * self.phase(index, total),
                self.span() >= 0,
                self.phase(index, total) >= 0,
        ;
    }

    /// Without a shift the gradient begins on its first colour: the first
    /// character of a message has that colour, whatever the repeat factor and
    /// the picks, unless the interpolation is the reserved one.
    pub proof fn lemma_unshifted_start(self, total: nat, pick: Pick)
        requires
            self.colors.len() > 0,
            self.shift is None,
            self.interpolation != Interpolation::Cubic,
            total > 0,
        ensures
            self.color_at(0, total, pick) == Ok::<Color, ColorError>(self.colors[0]),
    {
        assert(self.phase(0, total) == 0);
        assert(self.coordinate(0, total) == 0) by (nonlinear_arith)
            requires
                self.coordinate(0, total) == self.span() * self.phase(0, total),
                self.phase(0, total) == 0,
        ;
    }

    /// Once a character has had no colour, the output stays that failure.
    pub proof fn lemma_failure_stays(self, text: Seq<char>, from: nat, upto: nat, picks: Seq<Pick>)
        requires
            from <= upto,
            self.gradient_output(text, from, picks) is Err,
        ensures
            self.gradient_output(text, upto, picks) == self.gradient_output(text, from, picks),
        decreases upto - from,
    {
        if from < upto {
            self.lemma_failure_stays(text, from, (upto - 1) as nat, picks);
        }
    }

    /// The output so far is a failure exactly when the interpolation is the
    /// reserved one and a character read so far gets a colour tag.
    pub proof fn lemma_gradient_failure(self, text: Seq<char>, upto: nat, picks: Seq<Pick>)
        requires
            !self.solid(),
            upto <= text.len(),
        ensures
            self.gradient_output(text, upto, picks) is Err <==> self.interpolation
                == Interpolation::Cubic && exists|j: int| 0 <= j < upto && tagged(text, j),
        decreases upto,
    {
        if upto > 0 {
            self.lemma_gradient_failure(text, (upto - 1) as nat, picks);
            let last = upto - 1;
            if self.gradient_output(text, (upto - 1) as nat, picks) is Err {
                let j = choose|j: int| 0 <= j < upto - 1 && tagged(text, j);
                assert(0 <= j < upto && tagged(text, j));
            } else if self.piece(text, last, picks) is Err {
                assert(0 <= last < upto && tagged(text, last));
            } else {
                if self.interpolation == Interpolation::Cubic && exists|j: int|
                    0 <= j < upto && tagged(text, j) {
                    let j = choose|j: int| 0 <= j < upto && tagged(text, j);
                    if j < upto - 1 {
                        assert(0 <= j < upto - 1 && tagged(text, j));
                    }
                }
            }
        }
    }

    /// Unless the interpolation is the random one, the picks change nothing in
    /// the output so far.
    pub proof fn lemma_picks_only_random_so_far(
        self,
        text: Seq<char>,
        upto: nat,
        first: Seq<Pick>,
        second: Seq<Pick>,
    )
        requires
            self.interpolation != Interpolation::Random,
        ensures
            self.gradient_output(text, upto, first) == self.gradient_output(text, upto, second),
        decreases upto,
    {
        if upto > 0 {
            self.lemma_picks_only_random_so_far(text, (upto - 1) as nat, first, second);
        }
    }

    /// Unless the interpolation is the random one, the picks change nothing in
    /// the recoloured message.
    pub proof fn lemma_picks_only_random(self, text: Seq<char>, first: Seq<Pick>, second: Seq<Pick>)
        requires
            self.interpolation != Interpolation::Random,
        ensures
            self.recolored(text, first) == self.recolored(text, second),
    {
        self.lemma_picks_only_random_so_far(text, text.len(), first, second);
    }

    /// A message fails to be recoloured exactly when the gradient has several
    /// colours, its interpolation is the reserved one, and some character of
    /// the message gets a colour tag.
    pub proof fn lemma_recolored_failure(self, text: Seq<char>, picks: Seq<Pick>)
        ensures
            self.recolored(text, picks) is Err <==> !self.solid() && self.interpolation
                == Interpolation::Cubic && exists|j: int| 0 <= j < text.len() && tagged(text, j),
    {
        if !self.solid() {
            self.lemma_gradient_failure(text, text.len(), picks);
        }
    }
}

/// While a one-colour message holds no bracket, its tag stays open and the
/// output is the opening of the tag and the text so far.
proof fn lemma_solid_plain_prefix(color: Color, text: Seq<char>, upto: nat)
    requires
        0 < text.len(),
        upto <= text.len(),
        bracket_free(text),
    ensures
        !solid_closed(text, upto),
        solid_output(color, text, upto) == tag_open(color) + text.take(upto as int),
    decreases upto,
{
    if upto == 0 {
        assert(solid_output(color, text, 0) =~= tag_open(color) + text.take(0));
    } else {
        lemma_solid_plain_prefix(color, text, (upto - 1) as nat);
        assert(solid_piece(color, text, upto - 1) == seq![text[upto - 1]]);
        assert(solid_output(color, text, upto) =~= tag_open(color) + text.take(upto as int));
    }
}

/// A message without brackets, not empty, recoloured in one colour is the
/// whole message in exactly one tag of that colour.
pub proof fn lemma_solid_plain(color: Color, text: Seq<char>)
    requires
        0 < text.len(),
        bracket_free(text),
    ensures
        solid_text(color, text) == (tag_open(color) + text).push(']'),
{
    lemma_solid_plain_prefix(color, text, text.len());
    assert(text.take(text.len() as int) =~= text);
}

/// In a one-colour message that is one bracketed span, no tag is ever open and
/// the output is the text so far.
proof fn lemma_solid_span_prefix(color: Color, text: Seq<char>, upto: nat)
    requires
        text.len() >= 2,
        text[0] == '[',
        text.last() == ']',
        bracket_free(text.subrange(1, text.len() - 1)),
        upto <= text.len(),
    ensures
        solid_closed(text, upto),
        solid_output(color, text, upto) == text.take(upto as int),
    decreases upto,
{
    if upto == 0 {
        assert(solid_output(color, text, 0) =~= text.take(0));
    } else {
        lemma_solid_span_prefix(color, text, (upto - 1) as nat);
        let at = upto - 1;
        if 0 < at < text.len() - 1 {
            assert(text[at] == text.subrange(1, text.len() - 1)[at - 1]);
        }
        assert(solid_piece(color, text, at) == seq![text[at]]);
        assert(solid_output(color, text, upto) =~= text.take(upto as int));
    }
}

/// A message that is one bracketed span, with no further bracket inside,
/// stays as it is when recoloured in one colour; so does the empty message.
pub proof fn lemma_solid_keeps_span(color: Color, text: Seq<char>)
    requires
        text.len() == 0 || (text.len() >= 2 && text[0] == '[' && text.last() == ']' && bracket_free(
            text.subrange(1, text.len() - 1),
        )),
    ensures
        solid_text(color, text) == text,
{
    if text.len() == 0 {
        assert(solid_text(color, text) =~= text);
    } else {
        lemma_solid_span_prefix(color, text, text.len());
        assert(text.take(text.len() as int) =~= text);
    }
}

/// A gradient of a single colour recolours as the solid colour does, whatever
/// its interpolation, shift, repeat factor and picks.
pub proof fn lemma_single_color_is_solid(gradient: Gradient, text: Seq<char>, picks: Seq<Pick>)
    requires
        gradient.colors.len() == 1,
    ensures
        gradient.recolored(text, picks) == Ok::<Seq<char>, ColorError>(
            solid_text(gradient.colors[0], text),
        ),
{
}

} // verus!
