use chat_colorer::color::{Color, ColorError, Interpolation, Pick, UNIT};
use chat_colorer::colorer::{draw_picks, Colorer};

const NO_PICK: Pick = Pick { r: false, g: false, b: false };

fn red() -> Colorer {
    Colorer::new(vec![Color::new(255, 0, 0)], true, Interpolation::Linear, UNIT)
}

fn rainbow(shift: bool, interpolation: Interpolation, repeat: u32) -> Colorer {
    Colorer::new(
        vec![Color::new(255, 0, 0), Color::new(0, 255, 0), Color::new(0, 0, 255)],
        shift,
        interpolation,
        repeat,
    )
}

#[test]
fn solid_wraps_a_plain_message_once() {
    assert_eq!(red().color_text("hello"), Ok("[c/ff0000:hello]".to_string()));
    assert_eq!(red().color_text("a b  c"), Ok("[c/ff0000:a b  c]".to_string()));
    assert_eq!(red().color_text(" "), Ok("[c/ff0000: ]".to_string()));
    assert_eq!(red().color_text("h\u{e9}"), Ok("[c/ff0000:h\u{e9}]".to_string()));
}

#[test]
fn solid_closes_before_a_span_and_reopens_after_it() {
    assert_eq!(
        red().color_text("a[b]c"),
        Ok("[c/ff0000:a][b][c/ff0000:c]".to_string())
    );
}

#[test]
fn solid_leaves_an_empty_message_empty() {
    assert_eq!(red().color_text(""), Ok(String::new()));
}

#[test]
fn solid_opens_no_tag_before_a_leading_span() {
    assert_eq!(red().color_text("[x]"), Ok("[x]".to_string()));
    assert_eq!(red().color_text("[a]b"), Ok("[a][c/ff0000:b]".to_string()));
    assert_eq!(red().color_text("[a][b]"), Ok("[a][b]".to_string()));
    assert_eq!(
        red().color_text("[c/00ff00:x]y[i:1]"),
        Ok("[c/00ff00:x][c/ff0000:y][i:1]".to_string())
    );
}

#[test]
fn solid_bears_unbalanced_brackets() {
    assert_eq!(red().color_text("[a"), Ok("[a".to_string()));
    assert_eq!(red().color_text("a[b"), Ok("[c/ff0000:a][b".to_string()));
    assert_eq!(red().color_text("a]b"), Ok("[c/ff0000:a][c/ff0000:b]".to_string()));
    assert_eq!(red().color_text("a]"), Ok("[c/ff0000:a]]".to_string()));
    assert_eq!(red().color_text("]"), Ok("[c/ff0000:]]".to_string()));
    assert_eq!(
        red().color_text("[[a]]b"),
        Ok("[[a][c/ff0000:][c/ff0000:b]".to_string())
    );
}

#[test]
fn one_colour_is_solid_whatever_the_settings() {
    let text = "say [it] twice";
    let expected = Ok("[c/0a0b0c:say ][it][c/0a0b0c: twice]".to_string());
    for interpolation in [
        Interpolation::Random,
        Interpolation::Nearest,
        Interpolation::Linear,
        Interpolation::Cubic,
    ] {
        for shift in [false, true] {
            for repeat in [0, 1, UNIT, 3 * UNIT] {
                let mut colorer =
                    Colorer::new(vec![Color::new(10, 11, 12)], shift, interpolation, repeat);
                assert_eq!(colorer.color_text(text), expected);
                assert_eq!(colorer.color_text_with(text, &Vec::new()), expected);
            }
        }
    }
}

#[test]
fn solid_mode_draws_no_new_shift() {
    let mut colorer = red();
    colorer.shift_to(0x1234_5600);
    assert_eq!(colorer.shift(), Some(0x12_3456));
    colorer.color_text("hello").unwrap();
    colorer.color_text("again").unwrap();
    assert_eq!(colorer.shift(), Some(0x12_3456));
}

#[test]
fn solid_returns_the_single_colour() {
    assert_eq!(red().solid(), Some(Color::new(255, 0, 0)));
    assert_eq!(rainbow(false, Interpolation::Linear, UNIT).solid(), None);
}

#[test]
fn gradient_runs_from_the_first_colour_towards_the_last() {
    let mut colorer = rainbow(false, Interpolation::Linear, UNIT);
    assert_eq!(
        colorer.color_text("abc"),
        Ok("[c/ff0000:a][c/55aa00:b][c/00aa55:c]".to_string())
    );
    assert_eq!(colorer.shift(), None);
}

#[test]
fn gradient_leaves_spaces_and_spans_bare() {
    let mut colorer = rainbow(false, Interpolation::Linear, UNIT);
    assert_eq!(
        colorer.color_text("a [x] b"),
        Ok("[c/ff0000:a] [x] [c/24db00:b]".to_string())
    );
    assert_eq!(colorer.color_text("[tag]"), Ok("[tag]".to_string()));
    assert_eq!(colorer.color_text("   "), Ok("   ".to_string()));
    assert_eq!(colorer.color_text(""), Ok(String::new()));
}

#[test]
fn gradient_bears_unbalanced_brackets() {
    let mut colorer = rainbow(false, Interpolation::Linear, UNIT);
    assert_eq!(
        colorer.color_text("a]b[c"),
        Ok("[c/ff0000:a][c/996600:]][c/33cc00:b][c".to_string())
    );
}

#[test]
fn nearest_gradient_takes_whole_colours() {
    let mut colorer = rainbow(false, Interpolation::Nearest, UNIT);
    assert_eq!(
        colorer.color_text("abcd"),
        Ok("[c/ff0000:a][c/00ff00:b][c/00ff00:c][c/0000ff:d]".to_string())
    );
}

#[test]
fn repeat_factor_stretches_the_gradient() {
    let mut colorer = rainbow(false, Interpolation::Linear, UNIT / 2);
    assert_eq!(
        colorer.color_text("abcd"),
        Ok("[c/ff0000:a][c/bf4000:b][c/808000:c][c/40bf00:d]".to_string())
    );
}

#[test]
fn shift_moves_the_start_and_wraps_once() {
    let mut colorer = Colorer::new(
        vec![Color::new(255, 0, 0), Color::new(0, 0, 255)],
        true,
        Interpolation::Linear,
        UNIT,
    );
    colorer.shift_to(0x8000_0000);
    assert_eq!(colorer.shift(), Some(UNIT / 2));
    assert_eq!(
        colorer.color_text_with("ab", &Vec::new()),
        Ok("[c/0000ff:a][c/ff0000:b]".to_string())
    );
}

#[test]
fn shifted_gradient_is_a_ring_of_its_colours() {
    let mut colorer = rainbow(true, Interpolation::Linear, 2 * UNIT);
    colorer.shift_to(0x1234_56ff);
    assert_eq!(colorer.shift(), Some(0x12_3456));
    assert_eq!(
        colorer.color_text_with("hello world", &Vec::new()),
        Ok(
            "[c/c93600:h][c/3ec100:e][c/00b14e:l][c/0026d9:l][c/65009a:o] \
             [c/837c00:w][c/00f708:o][c/006c93:r][c/1f00e0:l][c/aa0055:d]"
                .to_string()
        )
    );
}

#[test]
fn shift_is_left_off_when_it_was_not_asked_for() {
    let mut colorer = rainbow(false, Interpolation::Linear, UNIT);
    colorer.shift_to(0xffff_ffff);
    assert_eq!(colorer.shift(), None);
    colorer.word();
    assert_eq!(colorer.shift(), None);
}

#[test]
fn shift_is_redrawn_below_one() {
    let mut colorer = rainbow(true, Interpolation::Linear, UNIT);
    let mut seen = Vec::new();
    for _ in 0..20 {
        colorer.color_text("x").unwrap();
        let shift = colorer.shift().unwrap();
        assert!(shift < UNIT);
        seen.push(shift);
    }
    seen.dedup();
    assert!(seen.len() > 1);
}

#[test]
fn random_gradient_takes_channels_as_picked() {
    let colorer = rainbow(false, Interpolation::Random, UNIT);
    let picks = vec![
        Pick { r: true, g: false, b: true },
        Pick { r: false, g: true, b: false },
        Pick { r: true, g: true, b: true },
    ];
    assert_eq!(
        colorer.color_text_with("abc", &picks),
        Ok("[c/ff0000:a][c/ffff00:b][c/0000ff:c]".to_string())
    );
    assert_eq!(
        colorer.color_text_with("abc", &Vec::new()),
        Ok("[c/ff0000:a][c/ff0000:b][c/00ff00:c]".to_string())
    );
}

#[test]
fn random_gradient_keeps_the_shape_of_the_message() {
    let mut colorer = rainbow(true, Interpolation::Random, UNIT);
    let out = colorer.color_text("ab [c] d").unwrap();
    let chars: Vec<char> = out.chars().collect();
    assert_eq!(chars.len(), 12 + 12 + 5 + 12);
    assert_eq!(&out[0..3], "[c/");
    assert_eq!(&out[9..12], ":a]");
    assert_eq!(&out[21..24], ":b]");
    assert_eq!(&out[24..32], " [c] [c/");
    assert!(out.ends_with(":d]"));
}

#[test]
fn picks_are_ignored_unless_random() {
    let colorer = rainbow(false, Interpolation::Linear, UNIT);
    let picks = draw_picks(3);
    assert_eq!(picks.len(), 3);
    assert_eq!(
        colorer.color_text_with("abc", &picks),
        colorer.color_text_with("abc", &Vec::new())
    );
}

#[test]
fn cubic_gradient_fails_where_a_character_needs_a_colour() {
    let mut colorer = rainbow(true, Interpolation::Cubic, UNIT);
    assert_eq!(colorer.color_text("a"), Err(ColorError::UnsupportedInterpolation));
    assert_eq!(colorer.color_text("[x] y"), Err(ColorError::UnsupportedInterpolation));
    assert_eq!(colorer.color_text("[x]  "), Ok("[x]  ".to_string()));
    assert_eq!(colorer.color_text(""), Ok(String::new()));
    assert_eq!(
        colorer.color('a', 0, 1, NO_PICK),
        Err(ColorError::UnsupportedInterpolation)
    );
}

#[test]
fn color_of_one_character() {
    let colorer = rainbow(false, Interpolation::Linear, UNIT);
    assert_eq!(colorer.color(' ', 1, 3, NO_PICK), Ok(" ".to_string()));
    assert_eq!(colorer.color('b', 1, 3, NO_PICK), Ok("[c/55aa00:b]".to_string()));
    assert_eq!(colorer.color('[', 0, 3, NO_PICK), Ok("[c/ff0000:[]".to_string()));
    assert_eq!(red().color('x', 2, 3, NO_PICK), Ok("[c/ff0000:x]".to_string()));
    assert_eq!(red().color(' ', 2, 3, NO_PICK), Ok(" ".to_string()));
}
