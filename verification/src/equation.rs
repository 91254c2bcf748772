//! The algebraic value model: terms, polynomials, and the simplifying
//! builder.
//!
//! A [`Term`] is one `coefficient * x^power` summand; a [`Polynomial`] is an
//! ordered sequence of terms plus the decimal precision used when merged
//! terms are rounded. The builder groups terms by power, sums each group,
//! and rounds the sum to the configured precision; a power whose net
//! coefficient is zero keeps its (zero) term, so display logic sees one
//! entry per declared power.

use vstd::prelude::*;

use crate::fixed::{fadd, fmul, sat64, Fixed, UNIT};

verus! {

/// Ghost image of a term: the coefficient in raw millionths, and the power.
pub struct TermV {
    pub c: int,
    pub power: nat,
}

/// Ghost image of a polynomial.
pub struct PolyV {
    pub terms: Seq<TermV>,
    pub precision: nat,
}

/// A point in math space (Cartesian, y up).
#[derive(Clone, Copy, Debug, PartialEq, Eq, Structural)]
pub struct Point {
    pub x: Fixed,
    pub y: Fixed,
}

impl Point {
    /// The math-space point with the given whole coordinates.
    pub fn from_ints(x: i32, y: i32) -> (r: Point)
        ensures
            r.x@ == x * (UNIT as int),
            r.y@ == y * (UNIT as int),
    {
        proof {
            assert(x * (UNIT as int) == sat64(x * (UNIT as int)) && y * (UNIT as int) == sat64(
                y * (UNIT as int),
            )) by (nonlinear_arith)
                requires
                    -0x80000000 <= x <= 0x7fffffff,
                    -0x80000000 <= y <= 0x7fffffff,
            ;
        }
        Point { x: Fixed::from_int(x as i64), y: Fixed::from_int(y as i64) }
    }
}

/// One `coefficient * x^power` summand.
#[derive(Clone, Copy, Debug, PartialEq, Eq, Structural)]
pub struct Term {
    pub c: Fixed,
    pub power: u32,
}

impl View for Term {
    type V = TermV;

    open spec fn view(&self) -> TermV {
        TermV { c: self.c@, power: self.power as nat }
    }
}

impl Term {
    /// A term with the given coefficient and power.
    pub fn new(c: Fixed, power: u32) -> (r: Term)
        ensures
            r@.c == c@,
            r@.power == power as nat,
    {
        Term { c, power }
    }

    /// The term `1.0 * x^power`.
    pub fn x_to_the(power: u32) -> (r: Term)
        ensures
            r@.c == UNIT as int,
            r@.power == power as nat,
    {
        Term { c: Fixed::from_raw(UNIT), power }
    }

    /// The same power with the coefficient replaced.
    pub fn times(self, c: Fixed) -> (r: Term)
        ensures
            r@.c == c@,
            r@.power == self@.power,
    {
        Term { c, power: self.power }
    }
}

/// The fixed-point value of `x^p`: `1.0` times `x`, `p` times over, each
/// product rounded toward zero to a count of millionths and clamped.
pub open spec fn pow_fixed(x: int, p: nat) -> int
    decreases p,
{
    if p == 0 {
        UNIT as int
    } else {
        fmul(pow_fixed(x, (p - 1) as nat), x)
    }
}

/// The fixed-point value of a term at `x`.
pub open spec fn term_value(t: TermV, x: int) -> int {
    fmul(t.c, pow_fixed(x, t.power))
}

/// Left-to-right saturating sum of the term values at `x`.
pub open spec fn eval_terms(ts: Seq<TermV>, x: int) -> int
    decreases ts.len(),
{
    if ts.len() == 0 {
        0
    } else {
        fadd(eval_terms(ts.drop_last(), x), term_value(ts.last(), x))
    }
}

/// True when no term has a power above 1.
pub open spec fn all_linear(ts: Seq<TermV>) -> bool {
    forall|i: int| 0 <= i < ts.len() ==> #[trigger] ts[i].power <= 1
}

/// Anything that can be evaluated at a fixed-point `x`.
pub trait Calculate {
    /// The value this equation takes at `x` (raw millionths).
    spec fn calc_spec(&self, x: int) -> int;

    /// Evaluate at `x`.
    fn calc(&self, x: Fixed) -> (r: Fixed)
        ensures
            r@ == self.calc_spec(x@),
    ;
}

/// Anything that knows whether it is a straight line.
pub trait CouldBeLinear {
    /// Whether two samples fully determine this equation's curve.
    spec fn is_linear_spec(&self) -> bool;

    /// Report whether the equation is linear.
    fn is_linear(&self) -> (r: bool)
        ensures
            r == self.is_linear_spec(),
    ;
}

/// The ghost images of a list of terms.
pub open spec fn views_of(ts: Seq<Term>) -> Seq<TermV> {
    ts.map_values(|t: Term| t@)
}

/// Powers of ten.
pub open spec fn pow10(n: nat) -> int
    decreases n,
{
    if n == 0 {
        1
    } else {
        10 * pow10((n - 1) as nat)
    }
}

/// The rounding granularity in raw millionths that corresponds to keeping
/// `prec` decimal digits; beyond six digits nothing is rounded away.
pub open spec fn prec_step(prec: nat) -> int {
    if prec >= 6 {
        1
    } else {
        pow10((6 - prec) as nat)
    }
}

/// `v` rounded to the nearest multiple of `m` (`m > 0`), halves away from
/// zero.
pub open spec fn round_half_away(v: int, m: int) -> int {
    if v >= 0 {
        ((v + m / 2) / m) * m
    } else {
        -((((-v) + m / 2) / m) * m)
    }
}

/// A merged coefficient after rounding to `prec` decimal digits, clamped
/// to the representable range.
pub open spec fn round_coeff(v: int, prec: nat) -> int {
    sat64(round_half_away(v, prec_step(prec)))
}

/// Left-to-right saturating sum of the coefficients of the terms with
/// power `p`.
pub open spec fn sum_for_power(ts: Seq<TermV>, p: nat) -> int
    decreases ts.len(),
{
    if ts.len() == 0 {
        0
    } else {
        let s = sum_for_power(ts.drop_last(), p);
        if ts.last().power == p {
            fadd(s, ts.last().c)
        } else {
            s
        }
    }
}

/// The distinct powers of `ts` in order of first occurrence.
pub open spec fn first_powers(ts: Seq<TermV>) -> Seq<nat>
    decreases ts.len(),
{
    if ts.len() == 0 {
        Seq::empty()
    } else {
        let d = first_powers(ts.drop_last());
        if d.contains(ts.last().power) {
            d
        } else {
            d.push(ts.last().power)
        }
    }
}

/// One merged term for each listed power: the rounded sum of all of
/// `ts`'s coefficients at that power.
pub open spec fn simplified_for(ts: Seq<TermV>, powers: Seq<nat>, prec: nat) -> Seq<TermV> {
    Seq::new(
        powers.len(),
        |k: int| TermV { c: round_coeff(sum_for_power(ts, powers[k]), prec), power: powers[k] },
    )
}

/// The simplified form of `ts`: one term per distinct power, in order of
/// first occurrence, coefficients summed and rounded to `prec` digits.
/// A power whose summed coefficient is zero keeps its zero term.
pub open spec fn simplify_terms(ts: Seq<TermV>, prec: nat) -> Seq<TermV> {
    simplified_for(ts, first_powers(ts), prec)
}

/// The distinct powers of a term list never repeat.
proof fn lemma_first_powers_distinct(ts: Seq<TermV>)
    ensures
        forall|k1: int, k2: int|
            0 <= k1 < k2 < first_powers(ts).len() ==> first_powers(ts)[k1] != first_powers(
                ts,
            )[k2],
    decreases ts.len(),
{
    if ts.len() > 0 {
        lemma_first_powers_distinct(ts.drop_last());
        let d = first_powers(ts.drop_last());
        if !d.contains(ts.last().power) {
            assert forall|k: int| 0 <= k < d.len() implies d[k] != ts.last().power by {
                if d[k] == ts.last().power {
                    assert(d.contains(ts.last().power));
                }
            }
        }
    }
}

/// After building, at most one term exists per distinct power: any two
/// positions of the simplified form carry different powers.
pub proof fn lemma_one_term_per_power(ts: Seq<TermV>, prec: nat)
    ensures
        forall|k1: int, k2: int|
            0 <= k1 < k2 < simplify_terms(ts, prec).len() ==> simplify_terms(ts, prec)[k1].power
                != simplify_terms(ts, prec)[k2].power,
{
    lemma_first_powers_distinct(ts);
}

/// The character of one decimal digit.
pub open spec fn digit_char(d: int) -> char {
    if d == 0 {
        '0'
    } else if d == 1 {
        '1'
    } else if d == 2 {
        '2'
    } else if d == 3 {
        '3'
    } else if d == 4 {
        '4'
    } else if d == 5 {
        '5'
    } else if d == 6 {
        '6'
    } else if d == 7 {
        '7'
    } else if d == 8 {
        '8'
    } else {
        '9'
    }
}

/// The decimal digits of `n`, most significant first, no leading zeros
/// (zero itself is one digit).
pub open spec fn dec_digits(n: nat) -> Seq<char>
    decreases n,
{
    if n < 10 {
        seq![digit_char(n as int)]
    } else {
        dec_digits(n / 10) + seq![digit_char((n % 10) as int)]
    }
}

/// The last `width` decimal digits of `n`, zero padded.
pub open spec fn dec_digits_pad(n: nat, width: nat) -> Seq<char>
    decreases width,
{
    if width == 0 {
        Seq::empty()
    } else {
        dec_digits_pad(n / 10, (width - 1) as nat) + seq![digit_char((n % 10) as int)]
    }
}

/// The same digits with every trailing zero removed.
pub open spec fn trim_trailing_zeros(s: Seq<char>) -> Seq<char>
    decreases s.len(),
{
    if s.len() > 0 && s.last() == '0' {
        trim_trailing_zeros(s.drop_last())
    } else {
        s
    }
}

/// The decimal rendering of a nonnegative fixed-point magnitude: the
/// whole part, then — only if the fractional part is not zero — a dot
/// and the fractional digits with trailing zeros trimmed.
pub open spec fn fixed_abs_chars(mag: nat) -> Seq<char> {
    let whole = mag / 1_000_000;
    let frac = mag % 1_000_000;
    if frac == 0 {
        dec_digits(whole)
    } else {
        dec_digits(whole) + seq!['.'] + trim_trailing_zeros(dec_digits_pad(frac, 6))
    }
}

/// The power suffix: nothing for a constant, a bare `x` for power one,
/// `x^power` otherwise.
pub open spec fn xpow_chars(p: nat) -> Seq<char> {
    if p == 0 {
        Seq::empty()
    } else if p == 1 {
        seq!['x']
    } else {
        seq!['x', '^'] + dec_digits(p)
    }
}

/// How one term renders: its sign (`+` for a nonnegative coefficient),
/// a space, the absolute coefficient, and the power suffix.
pub open spec fn term_chars(tv: TermV) -> Seq<char> {
    let sign = if tv.c >= 0 {
        seq!['+']
    } else {
        seq!['-']
    };
    let mag = if tv.c >= 0 {
        tv.c as nat
    } else {
        (-tv.c) as nat
    };
    sign + seq![' '] + fixed_abs_chars(mag) + xpow_chars(tv.power)
}

/// How a term list renders: each term followed by one space.
pub open spec fn terms_chars(ts: Seq<TermV>) -> Seq<char>
    decreases ts.len(),
{
    if ts.len() == 0 {
        Seq::empty()
    } else {
        terms_chars(ts.drop_last()) + term_chars(ts.last()) + seq![' ']
    }
}

/// How a polynomial renders: `y = ` and its terms.
pub open spec fn poly_chars(ts: Seq<TermV>) -> Seq<char> {
    seq!['y', ' ', '=', ' '] + terms_chars(ts)
}

/// A sum of terms, with the decimal precision used when merged
/// coefficients are rounded.
#[derive(Debug)]
pub struct Polynomial {
    pub terms: Vec<Term>,
    pub precision: u32,
}

/// The default rounding precision: four decimal digits.
pub const DEFAULT_PRECISION: u32 = 4;

impl View for Polynomial {
    type V = PolyV;

    open spec fn view(&self) -> PolyV {
        PolyV { terms: views_of(self.terms@), precision: self.precision as nat }
    }
}

impl Polynomial {
    /// A polynomial holding exactly the given terms, in order, with the
    /// default precision.
    pub fn new(terms: Vec<Term>) -> (r: Polynomial)
        ensures
            r@.terms == views_of(terms@),
            r@.precision == DEFAULT_PRECISION as nat,
    {
        Polynomial { terms, precision: DEFAULT_PRECISION }
    }

    /// The simplified form: one term per distinct power, in order of first
    /// occurrence, each coefficient the rounded sum of every coefficient
    /// at that power. Powers with a net-zero sum keep their zero term.
    pub fn simplify(&self) -> (r: Polynomial)
        ensures
            r@.terms == simplify_terms(self@.terms, self@.precision),
            r@.precision == DEFAULT_PRECISION as nat,
    {
        let ghost tsv = self@.terms;
        let ghost prec = self@.precision;
        let mut out: Vec<Term> = Vec::new();
        let mut i: usize = 0;
        while i < self.terms.len()
            invariant
                tsv == self@.terms,
                prec == self@.precision,
                tsv.len() == self.terms.len(),
                0 <= i <= self.terms.len(),
                views_of(out@) == simplified_for(tsv, first_powers(tsv.take(i as int)), prec),
            decreases self.terms.len() - i,
        {
            let ghost fp = first_powers(tsv.take(i as int));
            let p = self.terms[i].power;
            proof {
                assert(tsv.take(i + 1).drop_last() =~= tsv.take(i as int));
                assert(tsv.take(i + 1).last() == tsv[i as int]);
                assert(views_of(out@).len() == fp.len());
            }
            let mut seen = false;
            let mut j: usize = 0;
            while j < out.len()
                invariant
                    0 <= j <= out.len(),
                    views_of(out@) == simplified_for(tsv, fp, prec),
                    fp.len() == out.len(),
                    seen ==> fp.contains(p as nat),
                    !seen ==> forall|jj: int| 0 <= jj < j ==> fp[jj] != p as nat,
                decreases out.len() - j,
            {
                proof {
                    assert(views_of(out@)[j as int] == simplified_for(tsv, fp, prec)[j as int]);
                    assert(views_of(out@)[j as int].power == out@[j as int]@.power);
                }
                if out[j].power == p {
                    proof {
                        assert(fp[j as int] == p as nat);
                    }
                    seen = true;
                } else {
                    proof {
                        assert(fp[j as int] != p as nat);
                    }
                }
                j = j + 1;
            }
            if seen {
                proof {
                    assert(first_powers(tsv.take(i + 1)) == fp);
                }
            } else {
                proof {
                    if fp.contains(p as nat) {
                        let w = choose|w: int| 0 <= w < fp.len() && fp[w] == p as nat;
                        assert(fp[w] == p as nat);
                    }
                    assert(!fp.contains(p as nat));
                    assert(first_powers(tsv.take(i + 1)) == fp.push(p as nat));
                }
                let mut acc = Fixed::zero();
                let mut k: usize = 0;
                while k < self.terms.len()
                    invariant
                        tsv == self@.terms,
                        tsv.len() == self.terms.len(),
                        0 <= k <= self.terms.len(),
                        acc@ == sum_for_power(tsv.take(k as int), p as nat),
                    decreases self.terms.len() - k,
                {
                    proof {
                        assert(tsv.take(k + 1).drop_last() =~= tsv.take(k as int));
                        assert(tsv.take(k + 1).last() == tsv[k as int]);
                    }
                    let t = self.terms[k];
                    if t.power == p {
                        acc = acc.plus(t.c);
                    }
                    k = k + 1;
                }
                proof {
                    assert(tsv.take(tsv.len() as int) =~= tsv);
                    assert(acc@ == sum_for_power(tsv, p as nat));
                }
                let ghost out_before = out@;
                let rc = round_coeff_exec(acc, self.precision);
                out.push(Term { c: rc, power: p });
                proof {
                    let newv = views_of(out@);
                    let tgt = simplified_for(tsv, fp.push(p as nat), prec);
                    assert(out@ == out_before.push((Term { c: rc, power: p })));
                    assert(newv.len() == tgt.len());
                    assert forall|w: int| 0 <= w < newv.len() implies newv[w] == tgt[w] by {
                        if w < fp.len() {
                            assert(out@[w] == out_before[w]);
                            assert(newv[w] == views_of(out_before)[w]);
                            assert(views_of(out_before)[w] == simplified_for(tsv, fp, prec)[w]);
                            assert(fp.push(p as nat)[w] == fp[w]);
                        } else {
                            assert(out@[w] == (Term { c: rc, power: p }));
                            assert(fp.push(p as nat)[w] == p as nat);
                        }
                    }
                    assert(newv =~= tgt);
                }
            }
            i = i + 1;
        }
        proof {
            assert(tsv.take(tsv.len() as int) =~= tsv);
        }
        Polynomial::new(out)
    }
}

/// The one-character string of a digit.
fn digit_str(d: u64) -> (r: &'static str)
    requires
        d < 10,
    ensures
        r@ == seq![digit_char(d as int)],
{
    proof {
        reveal_strlit("0");
        reveal_strlit("1");
        reveal_strlit("2");
        reveal_strlit("3");
        reveal_strlit("4");
        reveal_strlit("5");
        reveal_strlit("6");
        reveal_strlit("7");
        reveal_strlit("8");
        reveal_strlit("9");
        assert("0"@ =~= seq!['0']);
        assert("1"@ =~= seq!['1']);
        assert("2"@ =~= seq!['2']);
        assert("3"@ =~= seq!['3']);
        assert("4"@ =~= seq!['4']);
        assert("5"@ =~= seq!['5']);
        assert("6"@ =~= seq!['6']);
        assert("7"@ =~= seq!['7']);
        assert("8"@ =~= seq!['8']);
        assert("9"@ =~= seq!['9']);
    }
    if d == 0 {
        "0"
    } else if d == 1 {
        "1"
    } else if d == 2 {
        "2"
    } else if d == 3 {
        "3"
    } else if d == 4 {
        "4"
    } else if d == 5 {
        "5"
    } else if d == 6 {
        "6"
    } else if d == 7 {
        "7"
    } else if d == 8 {
        "8"
    } else {
        "9"
    }
}

/// Append the decimal digits of `n`.
fn append_dec(out: &mut String, n: u64)
    ensures
        final(out)@ == old(out)@ + dec_digits(n as nat),
    decreases n,
{
    if n < 10 {
        out.append(digit_str(n));
    } else {
        proof {
            vstd::arithmetic::div_mod::lemma_div_is_ordered_by_denominator(n as int, 1, 10);
            vstd::arithmetic::div_mod::lemma_div_basics(n as int);
            vstd::arithmetic::div_mod::lemma_div_decreases(n as int, 10);
        }
        append_dec(out, n / 10);
        out.append(digit_str(n % 10));
        proof {
            assert((old(out)@ + dec_digits((n / 10) as nat)) + seq![digit_char((n % 10) as int)]
                =~= old(out)@ + dec_digits(n as nat));
        }
    }
}

/// Append the last `width` decimal digits of `n`, zero padded.
fn append_dec_pad(out: &mut String, n: u64, width: u64)
    ensures
        final(out)@ == old(out)@ + dec_digits_pad(n as nat, width as nat),
    decreases width,
{
    if width == 0 {
        proof {
            assert(old(out)@ + Seq::<char>::empty() =~= old(out)@);
        }
    } else {
        append_dec_pad(out, n / 10, width - 1);
        out.append(digit_str(n % 10));
        proof {
            assert((old(out)@ + dec_digits_pad((n / 10) as nat, (width - 1) as nat)) + seq![
                digit_char((n % 10) as int),
            ] =~= old(out)@ + dec_digits_pad(n as nat, width as nat));
        }
    }
}

/// Append the fractional digits of `frac` millionths, trailing zeros
/// trimmed.
fn append_frac(out: &mut String, frac: u64)
    requires
        1 <= frac <= 999_999,
    ensures
        final(out)@ == old(out)@ + trim_trailing_zeros(dec_digits_pad(frac as nat, 6)),
{
    proof {
        reveal_with_fuel(pow10, 7);
    }
    let mut f: u64 = frac;
    let mut w: u64 = 6;
    while f % 10 == 0
        invariant
            1 <= f,
            1 <= w <= 6,
            (f as int) < pow10(w as nat),
            trim_trailing_zeros(dec_digits_pad(frac as nat, 6)) == trim_trailing_zeros(
                dec_digits_pad(f as nat, w as nat),
            ),
        decreases w,
    {
        proof {
            reveal_with_fuel(pow10, 7);
            assert(f >= 10);
            assert(w >= 2);
            assert(dec_digits_pad(f as nat, w as nat).last() == digit_char((f % 10) as int));
            assert(dec_digits_pad(f as nat, w as nat).drop_last() =~= dec_digits_pad(
                (f / 10) as nat,
                (w - 1) as nat,
            ));
            let p = pow10((w - 1) as nat);
            vstd::arithmetic::div_mod::lemma_fundamental_div_mod_converse(
                10 * p - 1,
                10,
                p - 1,
                9,
            );
            vstd::arithmetic::div_mod::lemma_div_is_ordered(f as int, 10 * p - 1, 10);
            assert((f as int) / 10 <= p - 1);
        }
        f = f / 10;
        w = w - 1;
    }
    proof {
        assert(dec_digits_pad(f as nat, w as nat).last() == digit_char((f % 10) as int));
        assert(trim_trailing_zeros(dec_digits_pad(f as nat, w as nat)) == dec_digits_pad(
            f as nat,
            w as nat,
        ));
    }
    append_dec_pad(out, f, w);
}

impl Term {
    /// Render the term as text: its sign, a space, the absolute
    /// coefficient, and the power suffix.
    pub fn display(&self) -> (r: String)
        ensures
            r@ == term_chars(self@),
    {
        proof {
            reveal_strlit("+");
            reveal_strlit("-");
            reveal_strlit(" ");
            reveal_strlit(".");
            reveal_strlit("x");
            reveal_strlit("x^");
        }
        let mut out = String::new();
        if self.c.raw >= 0 {
            out.append("+");
            proof {
                assert(out@ =~= seq!['+']);
            }
        } else {
            out.append("-");
            proof {
                assert(out@ =~= seq!['-']);
            }
        }
        out.append(" ");
        let ghost head = out@;
        proof {
            assert(head =~= (if self.c.raw >= 0 {
                seq!['+']
            } else {
                seq!['-']
            }) + seq![' ']);
        }
        let mag: u64 = if self.c.raw >= 0 {
            self.c.raw as u64
        } else {
            (-(self.c.raw as i128)) as u64
        };
        let whole: u64 = mag / 1_000_000;
        let frac: u64 = mag % 1_000_000;
        append_dec(&mut out, whole);
        if frac != 0 {
            out.append(".");
            append_frac(&mut out, frac);
            proof {
                assert(out@ =~= head + fixed_abs_chars(mag as nat));
            }
        } else {
            proof {
                assert(out@ =~= head + fixed_abs_chars(mag as nat));
            }
        }
        let ghost mid = out@;
        if self.power == 0 {
            proof {
                assert(out@ =~= mid + xpow_chars(self@.power));
            }
        } else if self.power == 1 {
            out.append("x");
            proof {
                assert(out@ =~= mid + xpow_chars(self@.power));
            }
        } else {
            out.append("x^");
            append_dec(&mut out, self.power as u64);
            proof {
                assert((mid + "x^"@) + dec_digits(self@.power) =~= mid + xpow_chars(self@.power));
            }
        }
        proof {
            assert(out@ =~= term_chars(self@));
        }
        out
    }
}

/// The rounding granularity for `prec` decimal digits, executably.
fn prec_step_exec(prec: u32) -> (m: u64)
    ensures
        m as int == prec_step(prec as nat),
        1 <= m <= 1_000_000,
{
    proof {
        reveal_with_fuel(pow10, 7);
    }
    if prec == 0 {
        1_000_000
    } else if prec == 1 {
        100_000
    } else if prec == 2 {
        10_000
    } else if prec == 3 {
        1_000
    } else if prec == 4 {
        100
    } else if prec == 5 {
        10
    } else {
        1
    }
}

/// A coefficient rounded to `prec` decimal digits, halves away from zero.
fn round_coeff_exec(c: Fixed, prec: u32) -> (r: Fixed)
    ensures
        r@ == round_coeff(c@, prec as nat),
{
    let m: u64 = prec_step_exec(prec);
    let half: u64 = m / 2;
    if c.raw >= 0 {
        let mag: u64 = c.raw as u64;
        proof {
            lemma_round_mag_bound(mag as int, half as int, m as int);
        }
        let q: u64 = ((mag + half) / m) * m;
        if q > i64::MAX as u64 {
            Fixed { raw: i64::MAX }
        } else {
            Fixed { raw: q as i64 }
        }
    } else {
        let mag: u64 = (-(c.raw as i128)) as u64;
        proof {
            assert(mag as int == -(c.raw as int));
            lemma_round_mag_bound(mag as int, half as int, m as int);
        }
        let q: u64 = ((mag + half) / m) * m;
        if q >= 9_223_372_036_854_775_808u64 {
            proof {
                assert(-(q as int) <= i64::MIN);
            }
            Fixed { raw: i64::MIN }
        } else {
            Fixed { raw: -(q as i64) }
        }
    }
}

/// Rounding a magnitude up to a multiple of `m` moves it by less than `m`.
proof fn lemma_round_mag_bound(mag: int, half: int, m: int)
    requires
        0 <= mag,
        m >= 1,
        half == m / 2,
    ensures
        0 <= ((mag + half) / m) * m <= mag + half,
{
    let x = mag + half;
    vstd::arithmetic::div_mod::lemma_fundamental_div_mod(x, m);
    vstd::arithmetic::div_mod::lemma_mod_bound(x, m);
    vstd::arithmetic::div_mod::lemma_div_pos_is_pos(x, m);
    assert((x / m) * m == x - x % m);
}

impl PartialEq for Polynomial {
    fn eq(&self, o: &Polynomial) -> (r: bool) {
        if self.precision != o.precision {
            return false;
        }
        if self.terms.len() != o.terms.len() {
            return false;
        }
        let mut i: usize = 0;
        while i < self.terms.len()
            invariant
                0 <= i <= self.terms.len(),
                self.terms@.len() == o.terms@.len(),
                self.precision == o.precision,
                forall|j: int| 0 <= j < i ==> self.terms@[j] == o.terms@[j],
            decreases self.terms.len() - i,
        {
            if self.terms[i] != o.terms[i] {
                return false;
            }
            i = i + 1;
        }
        proof {
            assert(self.terms@ =~= o.terms@);
        }
        true
    }
}

impl vstd::std_specs::cmp::PartialEqSpecImpl for Polynomial {
    open spec fn obeys_eq_spec() -> bool {
        true
    }

    open spec fn eq_spec(&self, o: &Polynomial) -> bool {
        self.terms@ == o.terms@ && self.precision == o.precision
    }
}

/// Accumulates terms one at a time; `build` merges and rounds them.
pub struct PolynomialBuilder {
    pub terms: Vec<Term>,
}

impl PolynomialBuilder {
    /// An accumulator holding no terms yet.
    pub fn new() -> (r: PolynomialBuilder)
        ensures
            r.terms@ == Seq::<Term>::empty(),
    {
        PolynomialBuilder { terms: Vec::new() }
    }

    /// Append one term.
    pub fn add_term(self, term: Term) -> (r: PolynomialBuilder)
        ensures
            r.terms@ == self.terms@.push(term),
    {
        let mut s = self;
        s.terms.push(term);
        s
    }

    /// Merge the accumulated terms into a polynomial: one term per
    /// distinct power, coefficients summed and rounded to the default
    /// precision.
    pub fn build(self) -> (r: Polynomial)
        ensures
            r@.terms == simplify_terms(views_of(self.terms@), DEFAULT_PRECISION as nat),
            r@.precision == DEFAULT_PRECISION as nat,
    {
        Polynomial::new(self.terms).simplify()
    }

    /// Append the constant term `c`.
    pub fn plus_const(self, c: Fixed) -> (r: PolynomialBuilder)
        ensures
            r.terms@ == self.terms@.push((Term { c, power: 0 })),
    {
        self.add_term(Term { c, power: 0 })
    }

    /// Append the term `c * x`.
    pub fn plus_x_times(self, c: Fixed) -> (r: PolynomialBuilder)
        ensures
            r.terms@ == self.terms@.push((Term { c, power: 1 })),
    {
        self.add_term(Term { c, power: 1 })
    }

    /// Append the term `c * x^2`.
    pub fn plus_x_squared_times(self, c: Fixed) -> (r: PolynomialBuilder)
        ensures
            r.terms@ == self.terms@.push((Term { c, power: 2 })),
    {
        self.add_term(Term { c, power: 2 })
    }

    /// Append the term `c * x^3`.
    pub fn plus_x_cubed_times(self, c: Fixed) -> (r: PolynomialBuilder)
        ensures
            r.terms@ == self.terms@.push((Term { c, power: 3 })),
    {
        self.add_term(Term { c, power: 3 })
    }

    /// Append the term `c * x^4`.
    pub fn plus_x_4th_times(self, c: Fixed) -> (r: PolynomialBuilder)
        ensures
            r.terms@ == self.terms@.push((Term { c, power: 4 })),
    {
        self.add_term(Term { c, power: 4 })
    }
}

impl Polynomial {
    /// Render the polynomial as `y = ` followed by each term and one
    /// space.
    pub fn display(&self) -> (r: String)
        ensures
            r@ == poly_chars(self@.terms),
    {
        let mut out = String::from_str("y = ");
        proof {
            reveal_strlit("y = ");
            reveal_strlit(" ");
            assert(out@ =~= seq!['y', ' ', '=', ' ']);
            assert(self@.terms.take(0) =~= Seq::<TermV>::empty());
            assert(out@ =~= poly_chars(self@.terms.take(0)));
        }
        let mut i: usize = 0;
        while i < self.terms.len()
            invariant
                0 <= i <= self.terms.len(),
                self@.terms.len() == self.terms.len(),
                out@ == poly_chars(self@.terms.take(i as int)),
            decreases self.terms.len() - i,
        {
            let ts = self.terms[i].display();
            out.append(ts.as_str());
            out.append(" ");
            proof {
                reveal_strlit(" ");
                assert(" "@ =~= seq![' ']);
                assert(self@.terms[i as int] == self.terms@[i as int]@);
                assert(self@.terms.take(i + 1).drop_last() =~= self@.terms.take(i as int));
                assert(self@.terms.take(i + 1).last() == self@.terms[i as int]);
                assert(out@ =~= poly_chars(self@.terms.take(i + 1)));
            }
            i = i + 1;
        }
        proof {
            assert(self@.terms.take(self@.terms.len() as int) =~= self@.terms);
        }
        out
    }
}

impl Calculate for Polynomial {
    open spec fn calc_spec(&self, x: int) -> int {
        eval_terms(self@.terms, x)
    }

    fn calc(&self, x: Fixed) -> (r: Fixed) {
        let ghost tsv = self@.terms;
        let mut sum = Fixed::zero();
        let mut i: usize = 0;
        while i < self.terms.len()
            invariant
                0 <= i <= self.terms.len(),
                tsv == self@.terms,
                tsv.len() == self.terms.len(),
                sum@ == eval_terms(tsv.take(i as int), x@),
            decreases self.terms.len() - i,
        {
            let t = self.terms[i];
            let mut acc = Fixed::from_raw(UNIT);
            let mut k: u32 = 0;
            while k < t.power
                invariant
                    0 <= k <= t.power,
                    acc@ == pow_fixed(x@, k as nat),
                decreases t.power - k,
            {
                acc = acc.times(x);
                k = k + 1;
            }
            let tv = t.c.times(acc);
            assert(tv@ == term_value(tsv[i as int], x@));
            sum = sum.plus(tv);
            proof {
                assert(tsv.take(i + 1).drop_last() =~= tsv.take(i as int));
                assert(tsv.take(i + 1).last() == tsv[i as int]);
            }
            i = i + 1;
        }
        proof {
            assert(tsv.take(tsv.len() as int) =~= tsv);
        }
        sum
    }
}

impl CouldBeLinear for Polynomial {
    open spec fn is_linear_spec(&self) -> bool {
        all_linear(self@.terms)
    }

    fn is_linear(&self) -> (r: bool) {
        let mut i: usize = 0;
        while i < self.terms.len()
            invariant
                0 <= i <= self.terms.len(),
                forall|j: int| 0 <= j < i ==> #[trigger] self@.terms[j].power <= 1,
            decreases self.terms.len() - i,
        {
            if self.terms[i].power > 1 {
                assert(self@.terms[i as int].power > 1);
                return false;
            }
            i = i + 1;
        }
        true
    }
}

} // verus!
