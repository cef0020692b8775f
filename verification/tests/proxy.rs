use chat_colorer::color::{Color, ColorError, Interpolation, UNIT};
use chat_colorer::colorer::Colorer;
use chat_colorer::proxy::{
    build_chat, chat_message, is_chat_packet, ClientReader, ServerReader, MESSAGE_POS,
    MINIMUM_SIZE,
};

const HEADER: [u8; 7] = [0x52, 0x01, 0x00, 0x03, 0x53, 0x61, 0x79];

fn red_reader() -> ClientReader {
    ClientReader::spawn(Colorer::new(
        vec![Color::new(255, 0, 0)],
        true,
        Interpolation::Linear,
        UNIT,
    ))
}

fn packet(total: u16, field: &[u8], text: &[u8]) -> Vec<u8> {
    let mut out = total.to_le_bytes().to_vec();
    out.extend_from_slice(&HEADER);
    out.extend_from_slice(field);
    out.extend_from_slice(text);
    out
}

#[test]
fn layout_constants() {
    assert_eq!(MINIMUM_SIZE, 10);
    assert_eq!(MESSAGE_POS, 9);
}

#[test]
fn other_packets_pass_unchanged() {
    let mut wrong = packet(15, &[5], b"hello");
    wrong[4] = 0x01;
    assert_eq!(red_reader().handle_buffer(&wrong), Ok(wrong.clone()));
    let short = vec![9, 0, 0x52, 0x01, 0x00, 0x03, 0x53, 0x61, 0x79];
    assert_eq!(red_reader().handle_buffer(&short), Ok(short.clone()));
    assert_eq!(red_reader().handle_buffer(&[]), Ok(Vec::new()));
    let handshake = b"\x0f\x00\x01\x0bTerraria279".to_vec();
    assert_eq!(red_reader().handle_buffer(&handshake), Ok(handshake.clone()));
}

#[test]
fn chat_packets_are_told_by_size_and_header() {
    assert!(is_chat_packet(&packet(15, &[5], b"hello")));
    assert!(is_chat_packet(&packet(10, &[0], b"")));
    assert!(!is_chat_packet(&packet(9, &[], b"")));
    assert!(!is_chat_packet(&[0; 32]));
    let mut late = vec![0];
    late.extend_from_slice(&packet(15, &[5], b"hello"));
    assert!(!is_chat_packet(&late));
}

#[test]
fn chat_packet_is_recoloured_and_measured_anew() {
    let input = packet(15, &[5], b"hello");
    let expected = packet(26, &[16], b"[c/ff0000:hello]");
    assert_eq!(red_reader().handle_buffer(&input), Ok(expected));
}

#[test]
fn total_length_is_not_copied_from_the_input() {
    let input = packet(0xbeef, &[5], b"hello");
    let expected = packet(26, &[16], b"[c/ff0000:hello]");
    assert_eq!(red_reader().handle_buffer(&input), Ok(expected));
}

#[test]
fn unchanged_text_gives_the_packet_back() {
    let input = build_chat("[hi]");
    assert_eq!(input, packet(14, &[4], b"[hi]"));
    assert_eq!(red_reader().handle_buffer(&input), Ok(input.clone()));
    let empty = build_chat("");
    assert_eq!(empty, packet(10, &[0], b""));
    assert_eq!(red_reader().handle_buffer(&empty), Ok(empty.clone()));
}

#[test]
fn built_packets_hold_their_own_length() {
    for text in ["", "a", "[hi]", "h\u{e9}llo", &"x".repeat(127), &"x".repeat(128), &"y".repeat(5000)] {
        let built = build_chat(text);
        let width = if text.len() > 127 { 2 } else { 1 };
        assert_eq!(built.len(), 9 + width + text.len());
        assert_eq!(built[0] as usize + 256 * built[1] as usize, built.len());
        assert_eq!(&built[2..9], &HEADER);
        assert!(is_chat_packet(&built));
        assert_eq!(chat_message(&built), text);
    }
}

#[test]
fn long_messages_get_a_two_byte_length_field() {
    let text = "a".repeat(200);
    let input = packet(211, &[200, 1], text.as_bytes());
    let new_text = format!("[c/ff0000:{}]", text);
    let expected = packet(222, &[211, 1], new_text.as_bytes());
    assert_eq!(red_reader().handle_buffer(&input), Ok(expected));
}

#[test]
fn field_width_is_judged_by_the_size_of_the_buffer() {
    let text = "a".repeat(127);
    assert_eq!(chat_message(&packet(137, &[127], text.as_bytes())), text);
    let text = "a".repeat(128);
    let with_short_field = packet(138, &[128], text.as_bytes());
    assert_eq!(chat_message(&with_short_field), "a".repeat(127));
    let with_long_field = packet(139, &[128, 1], text.as_bytes());
    assert_eq!(chat_message(&with_long_field), text);
    let text = "a".repeat(126);
    let with_long_field = packet(137, &[254, 0], text.as_bytes());
    assert_eq!(chat_message(&with_long_field), format!("\0{}", text));
}

#[test]
fn invalid_bytes_are_replaced() {
    let input = packet(12, &[2], &[0xff, b'a']);
    assert_eq!(chat_message(&input), "\u{fffd}a");
    let expected = packet(25, &[15], "[c/ff0000:\u{fffd}a]".as_bytes());
    assert_eq!(red_reader().handle_buffer(&input), Ok(expected));
    let cut = packet(12, &[2], &[b'a', 0xe2, 0x82]);
    assert_eq!(chat_message(&cut), "a\u{fffd}");
}

#[test]
fn valid_text_is_read_as_it_is() {
    let input = packet(0, &[7], "h\u{e9} \u{4e16}".as_bytes());
    assert_eq!(chat_message(&input), "h\u{e9} \u{4e16}");
}

#[test]
fn oversized_text_loses_high_bits_of_its_lengths() {
    let text = format!("[{}]", "x".repeat(39998));
    let built = build_chat(&text);
    assert_eq!(&built[0..2], &[75, 156]);
    assert_eq!(&built[9..11], &[192, 56]);
    assert_eq!(&built[11..], text.as_bytes());
    let text = format!("[{}]", "x".repeat(69998));
    let built = build_chat(&text);
    assert_eq!(&built[0..2], &[123, 17]);
    assert_eq!(&built[9..11], &[240, 34]);
    assert_eq!(built.len(), 70011);
}

#[test]
fn gradient_reader_recolours_each_character() {
    let colorer = Colorer::new(
        vec![Color::new(255, 0, 0), Color::new(0, 255, 0), Color::new(0, 0, 255)],
        false,
        Interpolation::Linear,
        UNIT,
    );
    let mut reader = ClientReader::spawn(colorer);
    let input = packet(13, &[3], b"abc");
    let new_text = "[c/ff0000:a][c/55aa00:b][c/00aa55:c]";
    let expected = packet(46, &[36], new_text.as_bytes());
    assert_eq!(reader.handle_buffer(&input), Ok(expected.clone()));
    assert_eq!(reader.handle_buffer(&input), Ok(expected));
}

#[test]
fn cubic_reader_reports_the_missing_interpolation() {
    let colorer = Colorer::new(
        vec![Color::new(255, 0, 0), Color::new(0, 255, 0)],
        true,
        Interpolation::Cubic,
        UNIT,
    );
    let mut reader = ClientReader::spawn(colorer);
    assert_eq!(
        reader.handle_buffer(&packet(13, &[3], b"abc")),
        Err(ColorError::UnsupportedInterpolation)
    );
    let other = vec![1, 2, 3];
    assert_eq!(reader.handle_buffer(&other), Ok(other.clone()));
    let bare = packet(13, &[3], b"[x]");
    assert_eq!(reader.handle_buffer(&bare), Ok(bare.clone()));
}

#[test]
fn server_side_changes_nothing() {
    let mut reader = ServerReader::spawn();
    let chat = packet(15, &[5], b"hello");
    assert_eq!(reader.handle_buffer(&chat), chat);
    assert_eq!(reader.handle_buffer(&[]), Vec::<u8>::new());
    assert_eq!(reader.handle_buffer(&[1, 2, 3]), vec![1, 2, 3]);
}
