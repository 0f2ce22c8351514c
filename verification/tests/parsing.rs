use image_processor::params::{parse_axis, parse_params, MirrorAxis};

#[test]
fn parse_params_test() {
    assert_eq!(parse_params(""), (0, 0));
    assert_eq!(parse_params("radius=1"), (1, 0));
    assert_eq!(parse_params("radius=1;iterations=2"), (1, 2));
    assert_eq!(parse_params("iterations=2"), (0, 2));
}

#[test]
fn parse_params_neutral_on_empty_or_blank() {
    assert_eq!(parse_params("   "), (0, 0));
    assert_eq!(parse_params("\t\n"), (0, 0));
}

#[test]
fn parse_params_unparseable_value_resolves_to_zero() {
    assert_eq!(parse_params("radius=abc"), (0, 0));
    assert_eq!(parse_params("radius=;iterations=2"), (0, 2));
    assert_eq!(parse_params("radius=12x"), (0, 0));
    assert_eq!(parse_params("radius=-3"), (0, 0));
}

#[test]
fn parse_params_unknown_keys_ignored() {
    assert_eq!(parse_params("foo=9;radius=3;bar;iterations=2;baz=1"), (3, 2));
    assert_eq!(parse_params("unknown=1"), (0, 0));
}

#[test]
fn parse_params_trims_outer_whitespace_only() {
    assert_eq!(parse_params("  radius=3;iterations=2  "), (3, 2));
    // An inner space makes the segment unrecognizable, as str::split gives
    // it: only the outside of the whole string is trimmed.
    assert_eq!(parse_params("radius=3; iterations=2"), (3, 0));
}

#[test]
fn parse_params_trims_unicode_whitespace() {
    assert_eq!(parse_params("\u{a0}radius=2;iterations=1\u{a0}\r\n"), (2, 1));
}

#[test]
fn parse_params_accepts_leading_zeros() {
    assert_eq!(parse_params("radius=007;iterations=010"), (7, 10));
}

#[test]
fn parse_params_first_matching_segment_wins() {
    assert_eq!(parse_params("radius=4;radius=9"), (4, 0));
}

#[test]
fn parse_params_accepts_leading_plus() {
    assert_eq!(parse_params("radius=+5;iterations=+1"), (5, 1));
    assert_eq!(parse_params("radius=++5"), (0, 0));
}

#[test]
fn parse_params_overflow_resolves_to_zero() {
    assert_eq!(parse_params("radius=99999999999999999999999999;iterations=2"), (0, 2));
}

#[test]
fn parse_axis_literals() {
    assert_eq!(parse_axis("horizontal"), MirrorAxis::Horizontal);
    assert_eq!(parse_axis("vertical"), MirrorAxis::Vertical);
}

#[test]
fn parse_axis_anything_else_is_neutral() {
    assert_eq!(parse_axis(""), MirrorAxis::Neutral);
    assert_eq!(parse_axis("diagonal"), MirrorAxis::Neutral);
    assert_eq!(parse_axis("Horizontal"), MirrorAxis::Neutral);
    assert_eq!(parse_axis("horizontal "), MirrorAxis::Neutral);
    assert_eq!(parse_axis("axis=horizontal"), MirrorAxis::Neutral);
}
