//! Group token parsing and rendering.

use unifac_mixture::group::{encode_group_token, parse_group_token, FunctionalGroupSpec};
use unifac_mixture::numeric::is_real_token;

#[test]
fn parse_simple_token() {
    let g = parse_group_token("1:2", "ethanole").unwrap();
    assert_eq!(g.id, 1);
    assert_eq!(g.count, "2");
}

#[test]
fn parse_fractional_count() {
    let g = parse_group_token("14:1.5", "x").unwrap();
    assert_eq!(g.id, 14);
    assert_eq!(g.count, "1.5");
}

#[test]
fn parse_keeps_first_two_fields() {
    let g = parse_group_token("1:2:3", "x").unwrap();
    assert_eq!(g.id, 1);
    assert_eq!(g.count, "2");
}

#[test]
fn parse_missing_separator_fails() {
    let e = parse_group_token("12", "water").unwrap_err();
    assert_eq!(e.substance, "water");
}

#[test]
fn parse_non_numeric_id_fails() {
    let e = parse_group_token("x:1", "a").unwrap_err();
    assert_eq!(e.substance, "a");
}

#[test]
fn parse_non_numeric_count_fails() {
    let e = parse_group_token("1:z", "b").unwrap_err();
    assert_eq!(e.substance, "b");
}

#[test]
fn parse_empty_count_fails() {
    assert!(parse_group_token("1:", "s").is_err());
}

#[test]
fn parse_id_bounds() {
    assert_eq!(parse_group_token("255:1", "s").unwrap().id, 255);
    assert!(parse_group_token("256:1", "s").is_err());
    assert!(parse_group_token("-1:1", "s").is_err());
    assert_eq!(parse_group_token("+7:1", "s").unwrap().id, 7);
    assert_eq!(parse_group_token("007:1", "s").unwrap().id, 7);
}

#[test]
fn parse_count_grammar() {
    assert_eq!(parse_group_token("1:.5", "s").unwrap().count, ".5");
    assert_eq!(parse_group_token("1:5.", "s").unwrap().count, "5.");
    assert_eq!(parse_group_token("1:1e3", "s").unwrap().count, "1e3");
    assert_eq!(parse_group_token("1:1E-3", "s").unwrap().count, "1E-3");
    assert_eq!(parse_group_token("1:-2.5", "s").unwrap().count, "-2.5");
    assert_eq!(parse_group_token("1:inf", "s").unwrap().count, "inf");
    assert_eq!(parse_group_token("1:Infinity", "s").unwrap().count, "Infinity");
    assert_eq!(parse_group_token("1:NaN", "s").unwrap().count, "NaN");
    assert!(parse_group_token("1:.", "s").is_err());
    assert!(parse_group_token("1:1e", "s").is_err());
    assert!(parse_group_token("1:1.2.3", "s").is_err());
    assert!(parse_group_token("1:infx", "s").is_err());
}

#[test]
fn real_token_matches_float_parser() {
    let cases = [
        "0", "1", "-1", "+1", "1.5", ".5", "5.", "1e3", "1E-3", "+1.25e+10", "inf", "-inf",
        "infinity", "NaN", "nan", "", ".", "e3", "1e", "1.2.3", "--1", "1,5", "abc", " 1", "1 ",
        "0x1", "1_000",
    ];
    for c in cases {
        assert_eq!(
            is_real_token(c),
            c.parse::<f64>().is_ok(),
            "disagreement on {:?}",
            c
        );
    }
}

#[test]
fn encode_token_round_trip() {
    let g = FunctionalGroupSpec { id: 9, count: String::from("6") };
    let t = encode_group_token(&g);
    assert_eq!(t, "9:6");
    let back = parse_group_token(&t, "s").unwrap();
    assert_eq!(back.id, 9);
    assert_eq!(back.count, "6");
}

#[test]
fn parse_then_reserialize_is_equivalent() {
    for t in ["1:2", "2:1", "14:1", "9:6", "200:0.25", "+08:1e2"] {
        let g = parse_group_token(t, "s").unwrap();
        let u = encode_group_token(&g);
        let h = parse_group_token(&u, "s").unwrap();
        assert_eq!(g.id, h.id);
        assert_eq!(g.count, h.count);
    }
}
