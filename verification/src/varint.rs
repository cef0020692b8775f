//! The protocol's one- or two-byte length field.

use vstd::prelude::*;

verus! {

/// The largest length that the two-byte form of the field holds without loss:
/// fifteen bits.
pub const MAX_LENGTH: u32 = 32767;

/// The bytes of the length field for `value`: the value itself where it fits in
/// seven bits, else the low seven bits with the continuation bit set, followed
/// by the remaining bits cut to one byte.
pub open spec fn encoded_length(value: nat) -> Seq<u8> {
    if value <= 127 {
        seq![value as u8]
    } else {
        seq![(value % 128 + 128) as u8, ((value / 128) % 256) as u8]
    }
}

/// The length that a field of one or two bytes stands for: the first byte
/// where its continuation bit is clear, else its low seven bits below the
/// second byte.
pub open spec fn decoded_length(field: Seq<u8>) -> nat
    recommends
        field.len() >= 1,
        field[0] >= 128 ==> field.len() >= 2,
{
    if field[0] < 128 {
        field[0] as nat
    } else {
        (field[0] - 128 + 128 * field[1]) as nat
    }
}

/// Encodes a length as the protocol's length field. A length above
/// `MAX_LENGTH` loses the bits that the second byte has no room for.
pub fn terraria_type(value: u32) -> (field: Vec<u8>)
    ensures
        field@ == encoded_length(value as nat),
{
    let low: u32 = value % 128;
    if value > 127 {
        let high: u32 = (value / 128) % 256;
        let field = vec![(low + 128) as u8, high as u8];
        assert(field@ =~= encoded_length(value as nat));
        field
    } else {
        let field = vec![low as u8];
        assert(field@ =~= encoded_length(value as nat));
        field
    }
}

/// A length of at most 127 is encoded as the one byte equal to it; a greater
/// one of at most `MAX_LENGTH` as two bytes, its remainder by 128 with the top
/// bit set and its quotient by 128.
pub proof fn lemma_encoded_length_forms(value: nat)
    requires
        value <= MAX_LENGTH,
    ensures
        value <= 127 ==> encoded_length(value) == seq![value as u8],
        value > 127 ==> encoded_length(value) == seq![
            (value % 128 + 128) as u8,
            (value / 128) as u8,
        ],
{
}

/// Decoding the field of a length of at most `MAX_LENGTH` gives the length
/// back.
pub proof fn lemma_decoded_length_inverts(value: nat)
    requires
        value <= MAX_LENGTH,
    ensures
        decoded_length(encoded_length(value)) == value,
{
}

} // verus!
