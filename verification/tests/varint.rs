use chat_colorer::varint::{terraria_type, MAX_LENGTH};

#[test]
fn short_lengths_take_one_byte() {
    assert_eq!(terraria_type(0), vec![0]);
    assert_eq!(terraria_type(5), vec![5]);
    assert_eq!(terraria_type(127), vec![127]);
}

#[test]
fn longer_lengths_take_two_bytes() {
    assert_eq!(terraria_type(128), vec![128, 1]);
    assert_eq!(terraria_type(129), vec![129, 1]);
    assert_eq!(terraria_type(300), vec![172, 2]);
    assert_eq!(terraria_type(16383), vec![255, 127]);
    assert_eq!(terraria_type(16384), vec![128, 128]);
    assert_eq!(terraria_type(MAX_LENGTH), vec![255, 255]);
}

#[test]
fn every_length_in_range_decodes_to_itself() {
    for value in 0..=MAX_LENGTH {
        let field = terraria_type(value);
        let decoded = if field[0] < 128 {
            assert_eq!(field.len(), 1);
            field[0] as u32
        } else {
            assert_eq!(field.len(), 2);
            (field[0] as u32 - 128) + 128 * field[1] as u32
        };
        assert_eq!(decoded, value);
    }
}

#[test]
fn lengths_out_of_range_lose_their_high_bits() {
    assert_eq!(terraria_type(32768), vec![128, 0]);
    assert_eq!(terraria_type(40000), vec![192, 56]);
    assert_eq!(terraria_type(u32::MAX), vec![255, 255]);
}
