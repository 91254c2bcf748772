use graph_rs::equation::{Calculate, CouldBeLinear, Polynomial, PolynomialBuilder, Term};
use graph_rs::fixed::Fixed;

fn fx(raw: i64) -> Fixed {
    Fixed::from_raw(raw)
}

#[test]
fn builder_merges_terms_by_power() {
    // 0.5x^2 + 1x^2 - 1 must yield one term of power 2 with
    // coefficient 1.5, and the constant -1.
    let p = PolynomialBuilder::new()
        .plus_x_squared_times(fx(500_000))
        .plus_x_squared_times(fx(1_000_000))
        .plus_const(fx(-1_000_000))
        .build();

    assert_eq!(p.terms.len(), 2);
    assert_eq!(p.terms[0], Term::new(fx(1_500_000), 2));
    assert_eq!(p.terms[1], Term::new(fx(-1_000_000), 0));
}

#[test]
fn builder_keeps_net_zero_terms() {
    // A power whose coefficients cancel keeps its zero term.
    let p = PolynomialBuilder::new()
        .plus_x_times(fx(1_000_000))
        .plus_x_times(fx(-1_000_000))
        .plus_const(fx(2_000_000))
        .build();

    assert_eq!(p.terms.len(), 2);
    assert_eq!(p.terms[0], Term::new(fx(0), 1));
    assert_eq!(p.terms[1], Term::new(fx(2_000_000), 0));
}

#[test]
fn builder_rounds_to_default_precision() {
    // 0.00004 + 0.00004 = 0.00008 rounds to 0.0001 at four decimal
    // digits, half away from zero.
    let p = PolynomialBuilder::new()
        .plus_const(fx(40))
        .plus_const(fx(40))
        .build();
    assert_eq!(p.terms[0], Term::new(fx(100), 0));

    let n = PolynomialBuilder::new()
        .plus_const(fx(-40))
        .plus_const(fx(-40))
        .build();
    assert_eq!(n.terms[0], Term::new(fx(-100), 0));

    // 0.00004 alone rounds down to zero.
    let z = PolynomialBuilder::new().plus_const(fx(40)).build();
    assert_eq!(z.terms[0], Term::new(fx(0), 0));
}

#[test]
fn builder_keeps_first_occurrence_order() {
    let p = PolynomialBuilder::new()
        .plus_const(fx(1_000_000))
        .plus_x_cubed_times(fx(2_000_000))
        .plus_const(fx(1_000_000))
        .plus_x_times(fx(3_000_000))
        .build();

    assert_eq!(p.terms.len(), 3);
    assert_eq!(p.terms[0], Term::new(fx(2_000_000), 0));
    assert_eq!(p.terms[1], Term::new(fx(2_000_000), 3));
    assert_eq!(p.terms[2], Term::new(fx(3_000_000), 1));
}

#[test]
fn evaluate_uses_integer_exponentiation() {
    // 0.5x^2 + x - 1 at x = 3: 4.5 + 3 - 1 = 6.5.
    let p = Polynomial::new(vec![
        Term::new(fx(500_000), 2),
        Term::new(fx(1_000_000), 1),
        Term::new(fx(-1_000_000), 0),
    ]);
    let y = p.calc(fx(3_000_000));
    assert_eq!(y, fx(6_500_000));

    // x^4 at x = -2 is 16.
    let q = Polynomial::new(vec![Term::new(fx(1_000_000), 4)]);
    assert_eq!(q.calc(fx(-2_000_000)), fx(16_000_000));
}

#[test]
fn is_linear_looks_at_powers() {
    let line = Polynomial::new(vec![Term::new(fx(500_000), 1), Term::new(fx(1_000_000), 0)]);
    assert!(line.is_linear());

    let quad = Polynomial::new(vec![Term::new(fx(500_000), 2)]);
    assert!(!quad.is_linear());

    let empty = Polynomial::new(vec![]);
    assert!(empty.is_linear());
}

#[test]
fn term_builders() {
    let t = Term::x_to_the(6).times(fx(500_000));
    assert_eq!(t, Term::new(fx(500_000), 6));
}

#[test]
fn term_display_strings() {
    assert_eq!(Term::new(fx(1_500_000), 2).display(), "+ 1.5x^2");
    assert_eq!(Term::new(fx(-4_000_000), 4).display(), "- 4x^4");
    assert_eq!(Term::new(fx(1_000_000), 1).display(), "+ 1x");
    assert_eq!(Term::new(fx(0), 0).display(), "+ 0");
    assert_eq!(Term::new(fx(-3_700_000), 0).display(), "- 3.7");
    assert_eq!(Term::new(fx(1_234_568), 7).display(), "+ 1.234568x^7");
}

#[test]
fn polynomial_display_string() {
    let p = Polynomial::new(vec![
        Term::new(fx(500_000), 1),
        Term::new(fx(-1_000_000), 0),
    ]);
    assert_eq!(p.display(), "y = + 0.5x - 1 ");
}

#[test]
fn simplify_returns_default_precision() {
    let p = Polynomial::new(vec![Term::new(fx(1_000_000), 2)]);
    let s = p.simplify();
    assert_eq!(s.precision, 4);
    assert_eq!(s.terms.len(), 1);
}
