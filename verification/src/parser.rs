//! The equation text parser.
//!
//! Free-form text such as `"0.5x^6 +1.234x^7 - 4x^4 + 3x^2 +x - 1"`
//! becomes a [`Polynomial`]. ASCII whitespace is stripped anywhere, then
//! the text is split left to right into maximal term substrings of the
//! grammar `sign? coefficient? ('x' ('^' exponent)?)?`: a missing
//! coefficient next to an `x` (or a bare sign with no digits) counts as
//! one, a term without `x` is a constant, `x` without an exponent has
//! power one. The parse fails — never silently defaults — on a byte
//! that cannot begin a term, on a coefficient too large to represent,
//! and on a missing or oversized exponent; the error carries the
//! offending token and the whole failing term.

use vstd::prelude::*;
use vstd::string::StrSliceExecFns;
use vstd::string::StringSliceAdditionalSpecFns;

use crate::equation::{pow10, views_of, Polynomial, Term, TermV, DEFAULT_PRECISION};
use crate::fixed::{Fixed, UNIT};

verus! {

/// The largest whole part a coefficient may have: any more would leave
/// the fixed-point range.
pub const COEFF_INT_LIMIT: u64 = 9_223_372_036_853;

/// ASCII whitespace: space, tab, line feed, carriage return.
pub open spec fn is_ws(b: u8) -> bool {
    b == 32 || b == 9 || b == 10 || b == 13
}

/// An ASCII decimal digit.
pub open spec fn is_digit(b: u8) -> bool {
    48 <= b <= 57
}

/// A leading sign.
pub open spec fn is_sign(b: u8) -> bool {
    b == 43 || b == 45
}

/// A byte that may begin a term: a sign, a digit, or `x`.
pub open spec fn can_start_term(b: u8) -> bool {
    is_sign(b) || is_digit(b) || b == 120
}

/// The input with every whitespace byte removed.
pub open spec fn strip_ws(s: Seq<u8>) -> Seq<u8>
    decreases s.len(),
{
    if s.len() == 0 {
        Seq::empty()
    } else {
        let rest = strip_ws(s.drop_last());
        if is_ws(s.last()) {
            rest
        } else {
            rest.push(s.last())
        }
    }
}

/// The first position at or after `i` holding no digit.
pub open spec fn digits_end(t: Seq<u8>, i: int) -> int
    decreases t.len() - i,
{
    if i < t.len() && is_digit(t[i]) {
        digits_end(t, i + 1)
    } else {
        i
    }
}

/// Where the coefficient number starting at `i` ends: a digit run,
/// optionally followed by a dot and a further digit run (a dot not
/// followed by a digit belongs to no number).
pub open spec fn coeff_end(t: Seq<u8>, i: int) -> int {
    let d = digits_end(t, i);
    if i < d && d < t.len() && t[d] == 46 && d + 1 < t.len() && is_digit(t[d + 1]) {
        digits_end(t, d + 1)
    } else {
        d
    }
}

/// The value of a digit run read in base ten.
pub open spec fn digits_val(d: Seq<u8>) -> int
    decreases d.len(),
{
    if d.len() == 0 {
        0
    } else {
        digits_val(d.drop_last()) * 10 + (d.last() - 48)
    }
}

/// The fractional digits as a count of millionths, rounded half away
/// from zero at the sixth place: the seventh digit, when there is one,
/// decides the rounding.
pub open spec fn frac_val_micros(d: Seq<u8>) -> int {
    if d.len() <= 6 {
        digits_val(d) * pow10((6 - d.len()) as nat)
    } else {
        digits_val(d.take(6)) + (if d[6] >= 53 {
            1int
        } else {
            0int
        })
    }
}

/// Kinds of parse failure.
#[derive(Clone, Copy, Debug, PartialEq, Eq, Structural)]
pub enum ParseErrorKind {
    /// A coefficient too large to represent.
    InvalidCoefficient,
    /// An exponent marker with no digits, or an exponent too large.
    InvalidExponent,
    /// A byte that cannot begin a term.
    UnexpectedChar,
}

/// Ghost image of a parse error: its kind, the offending token, and the
/// whole failing term, as byte strings of the stripped input.
pub struct ParseErrV {
    pub kind: ParseErrorKind,
    pub offending: Seq<u8>,
    pub term: Seq<u8>,
}

/// A parse failure, carrying the offending token and the whole failing
/// term for diagnostics.
#[derive(Debug)]
pub struct ParseError {
    pub kind: ParseErrorKind,
    pub offending: Vec<u8>,
    pub term: Vec<u8>,
}

impl View for ParseError {
    type V = ParseErrV;

    open spec fn view(&self) -> ParseErrV {
        ParseErrV { kind: self.kind, offending: self.offending@, term: self.term@ }
    }
}

/// Where the maximal term starting at `i` ends (also in the failing
/// cases, for diagnostics): sign, coefficient, and the `x` part with
/// its exponent digits.
pub open spec fn munch_end(t: Seq<u8>, i: int) -> int {
    let se = if is_sign(t[i]) {
        i + 1
    } else {
        i
    };
    let ce = coeff_end(t, se);
    if ce < t.len() && t[ce] == 120 {
        if ce + 1 < t.len() && t[ce + 1] == 94 {
            digits_end(t, ce + 2)
        } else {
            ce + 1
        }
    } else {
        ce
    }
}

/// The term beginning at `i` (which can start a term), or the failure
/// it raises. Checked left to right: first the coefficient's size, then
/// the exponent's presence and size.
pub open spec fn munch_term(t: Seq<u8>, i: int) -> Result<TermV, ParseErrV> {
    let se = if is_sign(t[i]) {
        i + 1
    } else {
        i
    };
    let de = digits_end(t, se);
    let ce = coeff_end(t, se);
    let int_digits = t.subrange(se, de);
    let frac_digits = if ce > de {
        t.subrange(de + 1, ce)
    } else {
        Seq::empty()
    };
    let has_x = ce < t.len() && t[ce] == 120;
    let has_caret = has_x && ce + 1 < t.len() && t[ce + 1] == 94;
    let ee = digits_end(t, ce + 2);
    if de > se && digits_val(int_digits) > COEFF_INT_LIMIT {
        Err(
            ParseErrV {
                kind: ParseErrorKind::InvalidCoefficient,
                offending: t.subrange(se, ce),
                term: t.subrange(i, munch_end(t, i)),
            },
        )
    } else if has_caret && ee == ce + 2 {
        Err(
            ParseErrV {
                kind: ParseErrorKind::InvalidExponent,
                offending: Seq::empty(),
                term: t.subrange(i, ce + 2),
            },
        )
    } else if has_caret && digits_val(t.subrange(ce + 2, ee)) > u32::MAX {
        Err(
            ParseErrV {
                kind: ParseErrorKind::InvalidExponent,
                offending: t.subrange(ce + 2, ee),
                term: t.subrange(i, ee),
            },
        )
    } else {
        let mag = if ce == se {
            UNIT as int
        } else {
            digits_val(int_digits) * (UNIT as int) + frac_val_micros(frac_digits)
        };
        let c = if t[i] == 45 {
            -mag
        } else {
            mag
        };
        let power = if has_caret {
            digits_val(t.subrange(ce + 2, ee)) as nat
        } else if has_x {
            1
        } else {
            0
        };
        Ok(TermV { c, power })
    }
}

/// The terms of the stripped input from `i` on, munched left to right;
/// the first failure wins.
pub open spec fn parse_terms(t: Seq<u8>, i: int) -> Result<Seq<TermV>, ParseErrV>
    decreases t.len() - i,
{
    if i >= t.len() {
        Ok(Seq::empty())
    } else if !can_start_term(t[i]) {
        Err(
            ParseErrV {
                kind: ParseErrorKind::UnexpectedChar,
                offending: seq![t[i]],
                term: seq![t[i]],
            },
        )
    } else {
        let e = munch_end(t, i);
        let next = if i < e <= t.len() {
            e
        } else {
            i + 1
        };
        match munch_term(t, i) {
            Err(er) => Err(er),
            Ok(tv) => match parse_terms(t, next) {
                Err(er) => Err(er),
                Ok(rest) => Ok(seq![tv] + rest),
            },
        }
    }
}

/// What parsing an input means: strip whitespace, then munch maximal
/// terms left to right.
pub open spec fn parse_spec(s: Seq<u8>) -> Result<Seq<TermV>, ParseErrV> {
    parse_terms(strip_ws(s), 0)
}

/// A digit-run value is nonnegative and below ten to its length.
pub proof fn lemma_digits_val_bound(d: Seq<u8>)
    requires
        forall|k: int| 0 <= k < d.len() ==> is_digit(#[trigger] d[k]),
    ensures
        0 <= digits_val(d) < pow10(d.len()),
    decreases d.len(),
{
    if d.len() == 0 {
    } else {
        lemma_digits_val_bound(d.drop_last());
        assert(digits_val(d) == digits_val(d.drop_last()) * 10 + (d.last() - 48));
        assert(pow10(d.len()) == 10 * pow10((d.len() - 1) as nat));
    }
}

/// Everything before `digits_end` is a digit; what stands there is not.
pub proof fn lemma_digits_end(t: Seq<u8>, i: int)
    requires
        0 <= i <= t.len(),
    ensures
        i <= digits_end(t, i) <= t.len(),
        forall|j: int| i <= j < digits_end(t, i) ==> is_digit(#[trigger] t[j]),
        digits_end(t, i) < t.len() ==> !is_digit(t[digits_end(t, i)]),
    decreases t.len() - i,
{
    if i < t.len() && is_digit(t[i]) {
        lemma_digits_end(t, i + 1);
    }
}

/// A term starting at a byte that can start one consumes at least one
/// byte and ends inside the text.
pub proof fn lemma_munch_end_bounds(t: Seq<u8>, i: int)
    requires
        0 <= i < t.len(),
        can_start_term(t[i]),
    ensures
        i < munch_end(t, i) <= t.len(),
{
    let se = if is_sign(t[i]) {
        i + 1
    } else {
        i
    };
    lemma_digits_end(t, se);
    let de = digits_end(t, se);
    if se < de && de < t.len() && t[de] == 46 && de + 1 < t.len() && is_digit(t[de + 1]) {
        lemma_digits_end(t, de + 1);
    }
    let ce = coeff_end(t, se);
    if ce < t.len() && t[ce] == 120 && ce + 1 < t.len() && t[ce + 1] == 94 {
        lemma_digits_end(t, ce + 2);
    }
}

/// Ten to the zeroth through sixth power.
pub proof fn lemma_pow10_small()
    ensures
        pow10(0) == 1,
        pow10(1) == 10,
        pow10(2) == 100,
        pow10(3) == 1000,
        pow10(4) == 10000,
        pow10(5) == 100000,
        pow10(6) == 1000000,
{
    reveal_with_fuel(pow10, 7);
}

/// An ASCII decimal digit, executably.
fn is_digit_exec(b: u8) -> (r: bool)
    ensures
        r == is_digit(b),
{
    48 <= b && b <= 57
}

/// The first position at or after `from` holding no digit.
fn scan_digits(t: &Vec<u8>, from: usize) -> (r: usize)
    requires
        from <= t@.len(),
    ensures
        r as int == digits_end(t@, from as int),
        from <= r <= t@.len(),
{
    proof {
        lemma_digits_end(t@, from as int);
    }
    let mut j: usize = from;
    while j < t.len() && is_digit_exec(t[j])
        invariant
            from <= j <= t@.len(),
            digits_end(t@, from as int) == digits_end(t@, j as int),
        decreases t@.len() - j,
    {
        j = j + 1;
    }
    j
}

/// The value of the digit run `t[from..to]`, unless it exceeds `cap`.
fn digits_value_capped(t: &Vec<u8>, from: usize, to: usize, cap: u64) -> (r: Option<u64>)
    requires
        from <= to <= t@.len(),
        forall|k: int| from <= k < to ==> is_digit(#[trigger] t@[k]),
        cap <= 0x10_0000_0000_0000,
    ensures
        r matches Some(v) ==> v as int == digits_val(t@.subrange(from as int, to as int)) && v
            <= cap,
        r is None ==> digits_val(t@.subrange(from as int, to as int)) > cap,
{
    let mut val: u64 = 0;
    let mut over = false;
    let mut k: usize = from;
    while k < to
        invariant
            from <= k <= to <= t@.len(),
            cap <= 0x10_0000_0000_0000,
            forall|w: int| from <= w < to ==> is_digit(#[trigger] t@[w]),
            !over ==> val as int == digits_val(t@.subrange(from as int, k as int)) && val <= cap,
            over ==> digits_val(t@.subrange(from as int, k as int)) > cap,
        decreases to - k,
    {
        proof {
            assert(t@.subrange(from as int, k + 1).drop_last() =~= t@.subrange(
                from as int,
                k as int,
            ));
            assert(t@.subrange(from as int, k + 1).last() == t@[k as int]);
            lemma_digits_val_bound(t@.subrange(from as int, k as int));
        }
        let d: u8 = t[k] - 48;
        if !over {
            let nv: u64 = val * 10 + (d as u64);
            if nv > cap {
                over = true;
            } else {
                val = nv;
            }
        }
        k = k + 1;
    }
    if over {
        None
    } else {
        Some(val)
    }
}

/// Ten to a small power, executably.
fn pow10_exec(n: usize) -> (r: u64)
    requires
        n <= 6,
    ensures
        r as int == pow10(n as nat),
{
    proof {
        lemma_pow10_small();
    }
    if n == 0 {
        1
    } else if n == 1 {
        10
    } else if n == 2 {
        100
    } else if n == 3 {
        1_000
    } else if n == 4 {
        10_000
    } else if n == 5 {
        100_000
    } else {
        1_000_000
    }
}

/// A copy of the byte range `t[from..to]`, for error diagnostics.
fn copy_range(t: &Vec<u8>, from: usize, to: usize) -> (r: Vec<u8>)
    requires
        from <= to <= t@.len(),
    ensures
        r@ == t@.subrange(from as int, to as int),
{
    let mut r: Vec<u8> = Vec::new();
    let mut k: usize = from;
    while k < to
        invariant
            from <= k <= to <= t@.len(),
            r@ == t@.subrange(from as int, k as int),
        decreases to - k,
    {
        r.push(t[k]);
        proof {
            assert(r@ =~= t@.subrange(from as int, k + 1));
        }
        k = k + 1;
    }
    r
}

/// Munch the maximal term at `i` of the stripped text: its parsed term
/// and end position, or the failure it raises.
#[verifier::rlimit(100)]
#[verifier::spinoff_prover]
fn munch_exec(t: &Vec<u8>, i: usize) -> (r: Result<(Term, usize), ParseError>)
    requires
        i < t@.len(),
        can_start_term(t@[i as int]),
    ensures
        r matches Ok(pair) ==> munch_term(t@, i as int) == Ok::<TermV, ParseErrV>(pair.0@)
            && pair.1 as int == munch_end(t@, i as int) && i < pair.1 <= t@.len(),
        r matches Err(e) ==> munch_term(t@, i as int) == Err::<TermV, ParseErrV>(e@),
{
    proof {
        lemma_munch_end_bounds(t@, i as int);
    }
    let n: usize = t.len();
    let neg = t[i] == 45;
    let se: usize = if t[i] == 43 || t[i] == 45 {
        i + 1
    } else {
        i
    };
    let de: usize = scan_digits(t, se);
    proof {
        lemma_digits_end(t@, se as int);
    }
    let ce: usize = if de > se && de < t.len() && t[de] == 46 && de + 1 < t.len() && is_digit_exec(
        t[de + 1],
    ) {
        proof {
            lemma_digits_end(t@, de + 1);
        }
        scan_digits(t, de + 1)
    } else {
        de
    };
    proof {
        assert(ce as int == coeff_end(t@, se as int));
    }
    let has_x = ce < t.len() && t[ce] == 120;
    let has_caret = has_x && ce + 1 < t.len() && t[ce + 1] == 94;
    let ee: usize = if has_caret {
        scan_digits(t, ce + 2)
    } else {
        0
    };
    let end: usize = if has_caret {
        ee
    } else if has_x {
        ce + 1
    } else {
        ce
    };
    proof {
        assert(end as int == munch_end(t@, i as int));
    }

    // The coefficient's whole part.
    let mut int_val: u64 = 0;
    if de > se {
        match digits_value_capped(t, se, de, COEFF_INT_LIMIT) {
            None => {
                return Err(
                    ParseError {
                        kind: ParseErrorKind::InvalidCoefficient,
                        offending: copy_range(t, se, ce),
                        term: copy_range(t, i, end),
                    },
                );
            },
            Some(v) => {
                int_val = v;
            },
        }
    }
    proof {
        assert(int_val as int == digits_val(t@.subrange(se as int, de as int)));
        assert(!(de > se && digits_val(t@.subrange(se as int, de as int)) > COEFF_INT_LIMIT));
    }

    // The coefficient's fractional part, as millionths.
    let mut frac_val: u64 = 0;
    if ce > de {
        let fstart: usize = de + 1;
        let cnt: usize = ce - fstart;
        let take_end: usize = if cnt > 6 {
            fstart + 6
        } else {
            ce
        };
        proof {
            lemma_digits_end(t@, fstart as int);
            lemma_digits_val_bound(t@.subrange(fstart as int, take_end as int));
            lemma_pow10_small();
            if cnt <= 6 {
                lemma_pow10_le(t@.subrange(fstart as int, take_end as int).len(), 6);
            } else {
                assert(t@.subrange(fstart as int, take_end as int) =~= t@.subrange(
                    fstart as int,
                    ce as int,
                ).take(6));
            }
        }
        let head = digits_value_capped(t, fstart, take_end, 999_999);
        let mut fv: u64 = head.unwrap();
        if cnt <= 6 {
            let m: u64 = pow10_exec(6 - cnt);
            proof {
                let d = t@.subrange(fstart as int, ce as int);
                lemma_digits_val_bound(d);
                lemma_pow10_mul_bound(d.len(), (6 - cnt) as nat);
                lemma_pow10_pos((6 - cnt) as nat);
                vstd::arithmetic::mul::lemma_mul_inequality(
                    fv as int,
                    pow10(d.len()) - 1,
                    pow10((6 - cnt) as nat),
                );
                lemma_pow10_small();
                assert((fv as int) * (m as int) <= pow10(6) - pow10((6 - cnt) as nat));
            }
            fv = fv * m;
        } else {
            if t[fstart + 6] >= 53 {
                fv = fv + 1;
            }
        }
        frac_val = fv;
        proof {
            assert(frac_val as int == frac_val_micros(t@.subrange(de + 1, ce as int)));
        }
    }
    proof {
        if ce > de {
            assert(frac_val as int == frac_val_micros(t@.subrange(de + 1, ce as int)));
        } else {
            assert(frac_val as int == 0);
        }
        assert(0 <= frac_val <= 1_000_000);
    }

    // The exponent.
    let mut power: u32 = 0;
    if has_caret {
        if ee == ce + 2 {
            return Err(
                ParseError {
                    kind: ParseErrorKind::InvalidExponent,
                    offending: Vec::new(),
                    term: copy_range(t, i, ce + 2),
                },
            );
        }
        proof {
            lemma_digits_end(t@, ce + 2);
        }
        match digits_value_capped(t, ce + 2, ee, 4_294_967_295) {
            None => {
                return Err(
                    ParseError {
                        kind: ParseErrorKind::InvalidExponent,
                        offending: copy_range(t, ce + 2, ee),
                        term: copy_range(t, i, ee),
                    },
                );
            },
            Some(v) => {
                power = v as u32;
            },
        }
    } else if has_x {
        power = 1;
    }

    // The coefficient.
    let mag: i64 = if ce == se {
        UNIT
    } else {
        proof {
            assert(int_val * 1_000_000 + frac_val <= 9_223_372_036_854_000_000u64) by (nonlinear_arith)
                requires
                    int_val <= 9_223_372_036_853u64,
                    frac_val <= 1_000_000u64,
            ;
        }
        (int_val * 1_000_000 + frac_val) as i64
    };
    let c: i64 = if neg {
        -mag
    } else {
        mag
    };
    let term = Term { c: Fixed::from_raw(c), power };
    proof {
        assert(munch_term(t@, i as int) == Ok::<TermV, ParseErrV>(term@));
    }
    Ok((term, end))
}

/// Ten to a smaller power is no larger.
proof fn lemma_pow10_le(a: nat, b: nat)
    requires
        a <= b,
    ensures
        pow10(a) <= pow10(b),
    decreases b,
{
    if a < b {
        lemma_pow10_le(a, (b - 1) as nat);
        lemma_pow10_pos((b - 1) as nat);
    }
}

/// Ten to any power is positive.
proof fn lemma_pow10_pos(n: nat)
    ensures
        pow10(n) >= 1,
    decreases n,
{
    if n > 0 {
        lemma_pow10_pos((n - 1) as nat);
    }
}

/// A digit run of length `a`, padded by ten to the `b`, stays under ten
/// to the `a + b`.
proof fn lemma_pow10_mul_bound(a: nat, b: nat)
    ensures
        (pow10(a) - 1) * pow10(b) <= pow10(a + b) - pow10(b),
        pow10(a + b) == pow10(a) * pow10(b),
    decreases a,
{
    if a == 0 {
        vstd::arithmetic::mul::lemma_mul_basics(pow10(b));
    } else {
        lemma_pow10_mul_bound((a - 1) as nat, b);
        vstd::arithmetic::mul::lemma_mul_is_associative(10, pow10((a - 1) as nat), pow10(b));
        vstd::arithmetic::mul::lemma_mul_is_distributive_sub_other_way(pow10(b), pow10(a), 1);
        vstd::arithmetic::mul::lemma_mul_basics(pow10(b));
    }
}

/// The whole parse, given the part already read: failures pass through,
/// further terms are appended.
pub open spec fn glue(acc: Seq<TermV>, r: Result<Seq<TermV>, ParseErrV>) -> Result<
    Seq<TermV>,
    ParseErrV,
> {
    match r {
        Ok(rest) => Ok(acc + rest),
        Err(e) => Err(e),
    }
}

/// Parse an equation: strip ASCII whitespace, munch maximal terms left
/// to right, and collect them — unsimplified, in encounter order — into
/// a polynomial with the default precision. Exactly the inputs whose
/// stripped text matches the term grammar parse; any other input
/// returns the error that `parse_spec` names, never a silent default.
pub fn parse_equation(input: &str) -> (r: Result<Polynomial, ParseError>)
    ensures
        r matches Ok(p) ==> parse_spec(input.spec_bytes()) == Ok::<Seq<TermV>, ParseErrV>(p@.terms)
            && p@.precision == DEFAULT_PRECISION as nat,
        r matches Err(e) ==> parse_spec(input.spec_bytes()) == Err::<Seq<TermV>, ParseErrV>(e@),
{
    let bytes = input.as_bytes_vec();
    let mut t: Vec<u8> = Vec::new();
    let mut j: usize = 0;
    while j < bytes.len()
        invariant
            0 <= j <= bytes@.len(),
            bytes@ == input.spec_bytes(),
            t@ == strip_ws(bytes@.take(j as int)),
        decreases bytes@.len() - j,
    {
        proof {
            assert(bytes@.take(j + 1).drop_last() =~= bytes@.take(j as int));
            assert(bytes@.take(j + 1).last() == bytes@[j as int]);
        }
        let b = bytes[j];
        if !(b == 32 || b == 9 || b == 10 || b == 13) {
            t.push(b);
        }
        j = j + 1;
    }
    proof {
        assert(bytes@.take(bytes@.len() as int) =~= bytes@);
    }
    let ghost tv = t@;

    let mut terms: Vec<Term> = Vec::new();
    proof {
        assert(views_of(terms@) =~= Seq::<TermV>::empty());
        if parse_terms(tv, 0) is Ok {
            let rest = parse_terms(tv, 0)->Ok_0;
            assert(views_of(terms@) + rest =~= rest);
        }
    }
    let mut i: usize = 0;
    while i < t.len()
        invariant
            t@ == tv,
            tv == strip_ws(input.spec_bytes()),
            0 <= i <= tv.len(),
            parse_terms(tv, 0) == glue(views_of(terms@), parse_terms(tv, i as int)),
        decreases tv.len() - i,
    {
        let b = t[i];
        if !(b == 43 || b == 45 || (48 <= b && b <= 57) || b == 120) {
            let mut off: Vec<u8> = Vec::new();
            off.push(b);
            let mut whole: Vec<u8> = Vec::new();
            whole.push(b);
            let err = ParseError { kind: ParseErrorKind::UnexpectedChar, offending: off, term: whole };
            proof {
                assert(err@.offending =~= seq![tv[i as int]]);
                assert(err@.term =~= seq![tv[i as int]]);
                assert(parse_terms(tv, i as int) == Err::<Seq<TermV>, ParseErrV>(err@));
            }
            return Err(err);
        }
        match munch_exec(&t, i) {
            Err(e) => {
                proof {
                    assert(parse_terms(tv, i as int) == Err::<Seq<TermV>, ParseErrV>(e@));
                }
                return Err(e);
            },
            Ok((term, end)) => {
                let ghost acc0 = views_of(terms@);
                let ghost tvv = term@;
                terms.push(term);
                proof {
                    assert(views_of(terms@) =~= acc0.push(tvv));
                    let e = munch_end(tv, i as int);
                    assert(end as int == e);
                    assert((i as int) < e <= tv.len());
                    if parse_terms(tv, e) is Ok {
                        let rest = parse_terms(tv, e)->Ok_0;
                        assert(parse_terms(tv, i as int) == Ok::<Seq<TermV>, ParseErrV>(
                            seq![tvv] + rest,
                        ));
                        assert(acc0 + (seq![tvv] + rest) =~= acc0.push(tvv) + rest);
                    }
                    assert(glue(acc0, parse_terms(tv, i as int)) == glue(
                        acc0.push(tvv),
                        parse_terms(tv, e),
                    ));
                }
                i = end;
            },
        }
    }
    proof {
        assert(parse_terms(tv, i as int) == Ok::<Seq<TermV>, ParseErrV>(Seq::empty()));
        assert(views_of(terms@) + Seq::empty() =~= views_of(terms@));
        assert(parse_terms(tv, 0) == Ok::<Seq<TermV>, ParseErrV>(views_of(terms@)));
    }
    Ok(Polynomial::new(terms))
}

} // verus!
