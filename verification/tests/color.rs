use chat_colorer::color::{
    draw_pick, pick_from_words, Color, ColorError, Interpolation, Pick, UNIT,
};

const NO_PICK: Pick = Pick { r: false, g: false, b: false };

#[test]
fn new_keeps_the_channels() {
    let c = Color::new(1, 2, 3);
    assert_eq!((c.r, c.g, c.b), (1, 2, 3));
}

#[test]
fn hex_is_lower_case_and_padded() {
    assert_eq!(Color::new(255, 0, 0).to_string(), "ff0000");
    assert_eq!(Color::new(1, 2, 3).to_string(), "010203");
    assert_eq!(Color::new(0, 171, 205).to_string(), "00abcd");
    assert_eq!(Color::new(0, 0, 0).to_string(), "000000");
    assert_eq!(Color::new(255, 255, 255).to_string(), "ffffff");
    assert_eq!(Color::new(16, 159, 240).to_string(), "109ff0");
}

#[test]
fn decimal_tokens_render_as_hex() {
    let c = Color::try_from(["255", "0", "0"]).unwrap();
    assert_eq!(c, Color::new(255, 0, 0));
    assert_eq!(c.to_string(), "ff0000");
}

#[test]
fn tokens_are_trimmed() {
    let c = Color::try_from([" 12 ", "\t7\n", "+3"]).unwrap();
    assert_eq!(c, Color::new(12, 7, 3));
    let c = Color::try_from(["\u{2003}9\u{a0}", "\r\n010", " 255"]).unwrap();
    assert_eq!(c, Color::new(9, 10, 255));
}

#[test]
fn inner_white_space_is_not_trimmed() {
    assert_eq!(Color::try_from(["1 2", "0", "0"]), Err("error parsing 1 2".to_string()));
}

#[test]
fn first_bad_token_is_reported_untrimmed() {
    assert_eq!(Color::try_from(["256", "0", "0"]), Err("error parsing 256".to_string()));
    assert_eq!(Color::try_from(["1", " x ", "y"]), Err("error parsing  x ".to_string()));
    assert_eq!(Color::try_from(["1", "2", ""]), Err("error parsing ".to_string()));
    assert_eq!(Color::try_from(["-1", "2", "3"]), Err("error parsing -1".to_string()));
    assert_eq!(Color::try_from(["1", "2", "  "]), Err("error parsing   ".to_string()));
    assert_eq!(Color::try_from(["1", "2.5", "3"]), Err("error parsing 2.5".to_string()));
}

#[test]
fn linear_is_exact_at_both_ends() {
    let a = Color::new(12, 200, 99);
    let b = Color::new(250, 3, 100);
    assert_eq!(a.interpolate(&b, 0, &Interpolation::Linear), Ok(a));
    assert_eq!(a.interpolate(&b, UNIT, &Interpolation::Linear), Ok(b));
    assert_eq!(a.interpolate(&a, 0, &Interpolation::Linear), Ok(a));
    assert_eq!(a.interpolate(&a, UNIT, &Interpolation::Linear), Ok(a));
    assert_eq!(a.interpolate(&a, 12345, &Interpolation::Linear), Ok(a));
}

#[test]
fn linear_rounds_to_nearest() {
    let lin = |l: u8, r: u8, amount: u32| {
        Color::new(l, l, l)
            .interpolate_with(&Color::new(r, r, r), amount, &Interpolation::Linear, NO_PICK)
            .unwrap()
            .r
    };
    assert_eq!(lin(10, 20, UNIT / 4), 13);
    assert_eq!(lin(0, 255, UNIT / 2), 128);
    assert_eq!(lin(255, 0, UNIT / 2), 128);
    assert_eq!(lin(0, 100, UNIT / 4), 25);
    assert_eq!(lin(200, 100, UNIT / 4 * 3), 125);
    assert_eq!(lin(0, 255, 1), 0);
}

#[test]
fn linear_stays_within_a_channel() {
    let a = Color::new(0, 255, 7);
    let b = Color::new(255, 0, 7);
    assert_eq!(
        a.interpolate(&b, 2 * UNIT, &Interpolation::Linear),
        Ok(Color::new(255, 0, 7))
    );
    assert_eq!(
        a.interpolate(&b, u32::MAX, &Interpolation::Linear),
        Ok(Color::new(255, 0, 7))
    );
}

#[test]
fn nearest_switches_at_one_half() {
    let a = Color::new(1, 2, 3);
    let b = Color::new(4, 5, 6);
    assert_eq!(a.interpolate(&b, 0, &Interpolation::Nearest), Ok(a));
    assert_eq!(a.interpolate(&b, UNIT / 2 - 1, &Interpolation::Nearest), Ok(a));
    assert_eq!(a.interpolate(&b, UNIT / 2, &Interpolation::Nearest), Ok(b));
    assert_eq!(a.interpolate(&b, UNIT - 1, &Interpolation::Nearest), Ok(b));
}

#[test]
fn random_takes_each_channel_as_picked() {
    let a = Color::new(1, 2, 3);
    let b = Color::new(4, 5, 6);
    let pick = Pick { r: true, g: false, b: true };
    assert_eq!(
        a.interpolate_with(&b, 99, &Interpolation::Random, pick),
        Ok(Color::new(4, 2, 6))
    );
    assert_eq!(a.interpolate_with(&b, 0, &Interpolation::Random, NO_PICK), Ok(a));
}

#[test]
fn random_takes_each_channel_from_one_of_the_two() {
    let a = Color::new(1, 2, 3);
    let b = Color::new(4, 5, 6);
    let mut seen_first = false;
    let mut seen_second = false;
    for _ in 0..200 {
        let c = a.interpolate(&b, 0, &Interpolation::Random).unwrap();
        assert!(c.r == 1 || c.r == 4);
        assert!(c.g == 2 || c.g == 5);
        assert!(c.b == 3 || c.b == 6);
        seen_first |= c.r == 1;
        seen_second |= c.r == 4;
    }
    assert!(seen_first && seen_second);
}

#[test]
fn coins_fall_on_both_sides() {
    let mut heads = 0;
    for _ in 0..300 {
        if draw_pick().g {
            heads += 1;
        }
    }
    assert!(heads > 0 && heads < 300);
}

#[test]
fn cubic_is_refused() {
    let a = Color::new(1, 2, 3);
    let b = Color::new(4, 5, 6);
    assert_eq!(
        a.interpolate(&b, 0, &Interpolation::Cubic),
        Err(ColorError::UnsupportedInterpolation)
    );
    assert_eq!(
        a.interpolate_with(&b, UNIT, &Interpolation::Cubic, NO_PICK),
        Err(ColorError::UnsupportedInterpolation)
    );
}

#[test]
fn inner_combines_channel_by_channel() {
    let a = Color::new(1, 20, 3);
    let b = Color::new(4, 5, 60);
    assert_eq!(a.interpolate_inner(&b, |l, r| l.max(r)), Color::new(4, 20, 60));
    assert_eq!(a.interpolate_inner(&b, |l, _| l), a);
    assert_eq!(a.interpolate_inner(&b, |_, r| r), b);
}

#[test]
fn words_in_the_upper_half_pick_the_second_colour() {
    assert_eq!(
        pick_from_words(0, 0x8000_0000, 0xffff_ffff),
        Pick { r: false, g: true, b: true }
    );
    assert_eq!(
        pick_from_words(0x8000_0000, 0x7fff_ffff, 1),
        Pick { r: true, g: false, b: false }
    );
}
