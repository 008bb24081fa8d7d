use sim_replay::text::{
    append_decimal, append_fixed, append_seconds_exactly, append_seconds_to_millis,
    append_trimmed, magnitude_of,
};

fn written(write: impl Fn(&mut String)) -> String {
    let mut text = String::from(">");
    write(&mut text);
    text
}

#[test]
fn decimal_has_no_leading_zeros() {
    assert_eq!(written(|t| append_decimal(t, 0)), ">0");
    assert_eq!(written(|t| append_decimal(t, 7)), ">7");
    assert_eq!(written(|t| append_decimal(t, 10)), ">10");
    assert_eq!(written(|t| append_decimal(t, 1_234_567_890)), ">1234567890");
    assert_eq!(written(|t| append_decimal(t, u64::MAX)), ">18446744073709551615");
}

#[test]
fn fixed_keeps_its_width() {
    assert_eq!(written(|t| append_fixed(t, 5, 3)), ">005");
    assert_eq!(written(|t| append_fixed(t, 120, 3)), ">120");
    assert_eq!(written(|t| append_fixed(t, 98_765, 3)), ">765");
    assert_eq!(written(|t| append_fixed(t, 98_765, 0)), ">");
    assert_eq!(written(|t| append_fixed(t, 0, 6)), ">000000");
}

#[test]
fn trimmed_drops_trailing_zeros_but_keeps_one_digit() {
    assert_eq!(written(|t| append_trimmed(t, 0, 6)), ">0");
    assert_eq!(written(|t| append_trimmed(t, 10_000, 6)), ">01");
    assert_eq!(written(|t| append_trimmed(t, 500_000, 6)), ">5");
    assert_eq!(written(|t| append_trimmed(t, 123_456, 6)), ">123456");
    assert_eq!(written(|t| append_trimmed(t, 1, 6)), ">000001");
    assert_eq!(written(|t| append_trimmed(t, 120, 3)), ">12");
    assert_eq!(written(|t| append_trimmed(t, 7, 1)), ">7");
}

#[test]
fn magnitude_drops_the_sign() {
    assert_eq!(magnitude_of(0), 0);
    assert_eq!(magnitude_of(-5), 5);
    assert_eq!(magnitude_of(5), 5);
    assert_eq!(magnitude_of(i64::MAX), 9_223_372_036_854_775_807);
    assert_eq!(magnitude_of(i64::MIN), 9_223_372_036_854_775_808);
}

#[test]
fn seconds_in_both_forms() {
    assert_eq!(written(|t| append_seconds_to_millis(t, 1_250_400)), ">1.250");
    assert_eq!(written(|t| append_seconds_exactly(t, 1_250_400)), ">1.2504");
    assert_eq!(written(|t| append_seconds_to_millis(t, -10_000)), ">-0.010");
    assert_eq!(written(|t| append_seconds_exactly(t, -10_000)), ">-0.01");
    assert_eq!(written(|t| append_seconds_exactly(t, 60_000_000)), ">60.0");
}
