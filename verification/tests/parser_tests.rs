use graph_rs::equation::{Polynomial, Term};
use graph_rs::fixed::Fixed;
use graph_rs::parser::{parse_equation, ParseErrorKind};

fn term(raw: i64, power: u32) -> Term {
    Term::new(Fixed::from_raw(raw), power)
}

#[test]
fn normal_polynomial() {
    let input = String::from("0.5x^6 +1.234x^7 - 4x^4 + 3x^2 +x - 1");
    let expected = Polynomial::new(vec![
        term(500_000, 6),
        term(1_234_000, 7),
        term(-4_000_000, 4),
        term(3_000_000, 2),
        term(1_000_000, 1),
        term(-1_000_000, 0),
    ]);

    let result = parse_equation(&input).unwrap();

    assert_eq!(result, expected);
}

#[test]
fn leading_sign_neg() {
    let neg = String::from("-2.1x^3 - 1");
    let expected = Polynomial::new(vec![term(-2_100_000, 3), term(-1_000_000, 0)]);

    let result = parse_equation(&neg).unwrap();

    assert_eq!(result, expected);
}

#[test]
fn leading_sign_pos() {
    let pos = String::from("+1.3x^2 + 2");
    let expected = Polynomial::new(vec![term(1_300_000, 2), term(2_000_000, 0)]);

    let result = parse_equation(&pos).unwrap();

    assert_eq!(result, expected);
}

#[test]
fn handles_whitespace() {
    let input = String::from("   - \t  4.2x^3 +2x^2  - 3.7 ");
    let expected = Polynomial::new(vec![
        term(-4_200_000, 3),
        term(2_000_000, 2),
        term(-3_700_000, 0),
    ]);

    let result = parse_equation(&input).unwrap();

    assert_eq!(result, expected);
}

#[test]
fn no_whitespace() {
    let input = String::from("5.2x^3-2x^2+1.9x-3");
    let expected = Polynomial::new(vec![
        term(5_200_000, 3),
        term(-2_000_000, 2),
        term(1_900_000, 1),
        term(-3_000_000, 0),
    ]);

    let result = parse_equation(&input).unwrap();

    assert_eq!(result, expected);
}

#[test]
fn empty_input_is_empty_polynomial() {
    let result = parse_equation("").unwrap();
    assert_eq!(result, Polynomial::new(vec![]));
}

#[test]
fn bare_x_and_bare_signs() {
    // A lone `x` has coefficient one; a sign with no digits is a
    // constant of magnitude one.
    let result = parse_equation("x").unwrap();
    assert_eq!(result, Polynomial::new(vec![term(1_000_000, 1)]));

    let result = parse_equation("-x^2").unwrap();
    assert_eq!(result, Polynomial::new(vec![term(-1_000_000, 2)]));

    let result = parse_equation("+-1").unwrap();
    assert_eq!(
        result,
        Polynomial::new(vec![term(1_000_000, 0), term(-1_000_000, 0)])
    );
}

#[test]
fn maximal_munch_splits_terms() {
    // `x` not followed by `^` ends its term: the digit starts a new
    // constant term.
    let result = parse_equation("2x3").unwrap();
    assert_eq!(
        result,
        Polynomial::new(vec![term(2_000_000, 1), term(3_000_000, 0)])
    );
}

#[test]
fn fractional_digits_round_half_away() {
    // The seventh fractional digit rounds the millionths.
    let result = parse_equation("1.2345678").unwrap();
    assert_eq!(result, Polynomial::new(vec![term(1_234_568, 0)]));

    let result = parse_equation("1.0000004").unwrap();
    assert_eq!(result, Polynomial::new(vec![term(1_000_000, 0)]));
}

#[test]
fn unexpected_character_fails() {
    let err = parse_equation("2x + y").unwrap_err();
    assert_eq!(err.kind, ParseErrorKind::UnexpectedChar);
    assert_eq!(err.offending, b"y".to_vec());
    assert_eq!(err.term, b"y".to_vec());
}

#[test]
fn dangling_caret_fails() {
    let err = parse_equation("3x^").unwrap_err();
    assert_eq!(err.kind, ParseErrorKind::InvalidExponent);
    assert!(err.offending.is_empty());
    assert_eq!(err.term, b"3x^".to_vec());
}

#[test]
fn oversized_exponent_fails() {
    let err = parse_equation("2x^99999999999").unwrap_err();
    assert_eq!(err.kind, ParseErrorKind::InvalidExponent);
    assert_eq!(err.offending, b"99999999999".to_vec());
}

#[test]
fn oversized_coefficient_fails() {
    let err = parse_equation("99999999999999x").unwrap_err();
    assert_eq!(err.kind, ParseErrorKind::InvalidCoefficient);
    assert_eq!(err.offending, b"99999999999999".to_vec());
}

#[test]
fn stray_dot_fails() {
    // A dot with no digits before it cannot begin a term.
    let err = parse_equation("4.x").unwrap_err();
    assert_eq!(err.kind, ParseErrorKind::UnexpectedChar);
    assert_eq!(err.offending, b".".to_vec());
}
