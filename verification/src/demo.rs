//! A built-in catalog of sample equations for demonstration runs.

use vstd::prelude::*;

use crate::equation::{simplify_terms, views_of, Polynomial, PolynomialBuilder, Term, TermV,
    DEFAULT_PRECISION};
use crate::fixed::Fixed;

verus! {

/// The term list of the sample line `0.5x + 1`.
pub open spec fn demo_linear_terms() -> Seq<TermV> {
    seq![(TermV { c: 500_000, power: 1 }), (TermV { c: 1_000_000, power: 0 })]
}

/// The term list of the sample parabola `0.5x^2 + x - 1`.
pub open spec fn demo_quad_terms() -> Seq<TermV> {
    seq![
        (TermV { c: 500_000, power: 2 }),
        (TermV { c: 1_000_000, power: 1 }),
        (TermV { c: -1_000_000, power: 0 }),
    ]
}

/// The term list of the sample parabola `-0.5x^2 + x - 1`.
pub open spec fn demo_neg_quad_terms() -> Seq<TermV> {
    seq![
        (TermV { c: -500_000, power: 2 }),
        (TermV { c: 1_000_000, power: 1 }),
        (TermV { c: -1_000_000, power: 0 }),
    ]
}

/// The term list of the sample cubic `0.01x^3 - 0.2x^2 + x + 0`.
pub open spec fn demo_cubic_terms() -> Seq<TermV> {
    seq![
        (TermV { c: 10_000, power: 3 }),
        (TermV { c: -200_000, power: 2 }),
        (TermV { c: 1_000_000, power: 1 }),
        (TermV { c: 0, power: 0 }),
    ]
}

/// The term list of a sample with duplicate powers, merged on build:
/// `x^4 - 1.5x^4 - 2x^4 + x^3 + 2x^3 + 99.9 - 99.8`.
pub open spec fn demo_merge_terms() -> Seq<TermV> {
    seq![
        (TermV { c: 1_000_000, power: 4 }),
        (TermV { c: -1_500_000, power: 4 }),
        (TermV { c: -2_000_000, power: 4 }),
        (TermV { c: 1_000_000, power: 3 }),
        (TermV { c: 2_000_000, power: 3 }),
        (TermV { c: 99_900_000, power: 0 }),
        (TermV { c: -99_800_000, power: 0 }),
    ]
}

/// The demonstration set: a line, two parabolas, a cubic, and a
/// duplicate-power sample, each built (merged and rounded) from the term
/// lists above.
pub fn demo_equations() -> (r: Vec<Polynomial>)
    ensures
        r@.len() == 5,
        r@[0]@.terms == simplify_terms(demo_linear_terms(), DEFAULT_PRECISION as nat),
        r@[1]@.terms == simplify_terms(demo_quad_terms(), DEFAULT_PRECISION as nat),
        r@[2]@.terms == simplify_terms(demo_neg_quad_terms(), DEFAULT_PRECISION as nat),
        r@[3]@.terms == simplify_terms(demo_cubic_terms(), DEFAULT_PRECISION as nat),
        r@[4]@.terms == simplify_terms(demo_merge_terms(), DEFAULT_PRECISION as nat),
        forall|k: int| 0 <= k < 5 ==> (#[trigger] r@[k])@.precision == DEFAULT_PRECISION as nat,
{
    let linear = PolynomialBuilder::new().plus_x_times(Fixed::from_raw(500_000)).plus_const(
        Fixed::from_raw(1_000_000),
    ).build();
    proof {
        assert(views_of(
            Seq::<Term>::empty().push((Term { c: (Fixed { raw: 500_000 }), power: 1 })).push(
                (Term { c: (Fixed { raw: 1_000_000 }), power: 0 }),
            ),
        ) =~= demo_linear_terms());
    }

    let quad = PolynomialBuilder::new().plus_x_squared_times(Fixed::from_raw(500_000)).plus_x_times(
        Fixed::from_raw(1_000_000),
    ).plus_const(Fixed::from_raw(-1_000_000)).build();

    proof {
        assert(views_of(
            Seq::<Term>::empty().push((Term { c: (Fixed { raw: 500_000 }), power: 2 })).push(
                (Term { c: (Fixed { raw: 1_000_000 }), power: 1 }),
            ).push((Term { c: (Fixed { raw: -1_000_000i64 }), power: 0 })),
        ) =~= demo_quad_terms());
    }

    let neg_quad = PolynomialBuilder::new().plus_x_squared_times(
        Fixed::from_raw(-500_000),
    ).plus_x_times(Fixed::from_raw(1_000_000)).plus_const(Fixed::from_raw(-1_000_000)).build();
    proof {
        assert(views_of(
            Seq::<Term>::empty().push((Term { c: (Fixed { raw: -500_000i64 }), power: 2 })).push(
                (Term { c: (Fixed { raw: 1_000_000 }), power: 1 }),
            ).push((Term { c: (Fixed { raw: -1_000_000i64 }), power: 0 })),
        ) =~= demo_neg_quad_terms());
    }

    let cubic = PolynomialBuilder::new().plus_x_cubed_times(
        Fixed::from_raw(10_000),
    ).plus_x_squared_times(Fixed::from_raw(-200_000)).plus_x_times(
        Fixed::from_raw(1_000_000),
    ).plus_const(Fixed::from_raw(0)).build();
    proof {
        assert(views_of(
            Seq::<Term>::empty().push((Term { c: (Fixed { raw: 10_000 }), power: 3 })).push(
                (Term { c: (Fixed { raw: -200_000i64 }), power: 2 }),
            ).push((Term { c: (Fixed { raw: 1_000_000 }), power: 1 })).push(
                (Term { c: (Fixed { raw: 0 }), power: 0 }),
            ),
        ) =~= demo_cubic_terms());
    }

    let merged = PolynomialBuilder::new().plus_x_4th_times(
        Fixed::from_raw(1_000_000),
    ).plus_x_4th_times(Fixed::from_raw(-1_500_000)).plus_x_4th_times(
        Fixed::from_raw(-2_000_000),
    ).plus_x_cubed_times(Fixed::from_raw(1_000_000)).plus_x_cubed_times(
        Fixed::from_raw(2_000_000),
    ).plus_const(Fixed::from_raw(99_900_000)).plus_const(Fixed::from_raw(-99_800_000)).build();
    proof {
        assert(views_of(
            Seq::<Term>::empty().push((Term { c: (Fixed { raw: 1_000_000 }), power: 4 })).push(
                (Term { c: (Fixed { raw: -1_500_000i64 }), power: 4 }),
            ).push((Term { c: (Fixed { raw: -2_000_000i64 }), power: 4 })).push(
                (Term { c: (Fixed { raw: 1_000_000 }), power: 3 }),
            ).push((Term { c: (Fixed { raw: 2_000_000 }), power: 3 })).push(
                (Term { c: (Fixed { raw: 99_900_000 }), power: 0 }),
            ).push((Term { c: (Fixed { raw: -99_800_000i64 }), power: 0 })),
        ) =~= demo_merge_terms());
    }

    let mut r: Vec<Polynomial> = Vec::new();
    r.push(linear);
    r.push(quad);
    r.push(neg_quad);
    r.push(cubic);
    r.push(merged);
    r
}

} // verus!
