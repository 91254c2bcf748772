use graph_rs::demo::demo_equations;
use graph_rs::equation::{CouldBeLinear, Term};
use graph_rs::fixed::Fixed;
use graph_rs::menu::{classify_next, classify_start, NextChoice, StartChoice};

fn fx(raw: i64) -> Fixed {
    Fixed::from_raw(raw)
}

#[test]
fn demo_set_holds_five_built_equations() {
    let eqs = demo_equations();
    assert_eq!(eqs.len(), 5);

    // The line 0.5x + 1.
    assert_eq!(eqs[0].terms.len(), 2);
    assert_eq!(eqs[0].terms[0], Term::new(fx(500_000), 1));
    assert_eq!(eqs[0].terms[1], Term::new(fx(1_000_000), 0));
    assert!(eqs[0].is_linear());
    assert!(!eqs[1].is_linear());

    // The duplicate-power sample merges to -2.5x^4 + 3x^3 + 0.1.
    assert_eq!(eqs[4].terms.len(), 3);
    assert_eq!(eqs[4].terms[0], Term::new(fx(-2_500_000), 4));
    assert_eq!(eqs[4].terms[1], Term::new(fx(3_000_000), 3));
    assert_eq!(eqs[4].terms[2], Term::new(fx(100_000), 0));
}

#[test]
fn prompt_choices() {
    assert_eq!(classify_start(Some('d')), StartChoice::Demo);
    assert_eq!(classify_start(Some('e')), StartChoice::Custom);
    assert_eq!(classify_start(Some('q')), StartChoice::Invalid);
    assert_eq!(classify_start(None), StartChoice::Invalid);

    assert_eq!(classify_next(Some('e')), NextChoice::Another);
    assert_eq!(classify_next(Some('g')), NextChoice::Graph);
    assert_eq!(classify_next(Some('x')), NextChoice::Invalid);
    assert_eq!(classify_next(None), NextChoice::Invalid);
}
