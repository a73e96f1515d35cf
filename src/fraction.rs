use num::rational::Rational64;
use num::traits::{CheckedAdd, CheckedDiv, CheckedMul, CheckedSub};
use vstd::prelude::*;

verus! {

/// Greatest common divisor, by Euclid's algorithm; `gcd(a, 0) == a`.
pub open spec fn gcd(a: nat, b: nat) -> nat
    decreases b,
{
    if b == 0 {
        a
    } else {
        gcd(b, a % b)
    }
}

pub open spec fn abs(x: int) -> nat {
    if x < 0 {
        (-x) as nat
    } else {
        x as nat
    }
}

/// The rational `n / d` (for `d != 0`) written in lowest terms with a positive denominator.
pub open spec fn lowest_terms(n: int, d: int) -> (int, int) {
    let g = gcd(abs(n), abs(d)) as int;
    if d > 0 {
        (n / g, d / g)
    } else {
        ((-n) / g, (-d) / g)
    }
}

/// The fraction whose parts are the two integers of `p` (each within 64 bits).
pub open spec fn fraction_of(p: (int, int)) -> Fraction {
    Fraction { numer: p.0 as i64, denom: p.1 as i64 }
}

/// An exact rational number `numer / denom`.
#[derive(Clone, Copy, Debug, PartialEq, Eq, Structural)]
pub struct Fraction {
    pub numer: i64,
    pub denom: i64,
}

impl View for Fraction {
    type V = (int, int);

    open spec fn view(&self) -> (int, int) {
        (self.numer as int, self.denom as int)
    }
}

impl Fraction {
    /// The fraction is in lowest terms and its denominator is positive.
    pub open spec fn wf(self) -> bool {
        self.denom > 0 && gcd(abs(self.numer as int), self.denom as nat) == 1
    }

    pub open spec fn spec_from_integer(n: i64) -> Fraction {
        Fraction { numer: n, denom: 1 }
    }

    /// The integer `n` as the fraction `n / 1`.
    #[verifier::when_used_as_spec(spec_from_integer)]
    pub fn from_integer(n: i64) -> (r: Fraction)
        ensures
            r == Fraction::spec_from_integer(n),
            r.wf(),
    {
        proof {
            reveal_with_fuel(gcd, 3);
        }
        Fraction { numer: n, denom: 1 }
    }

    /// The fraction `numer / denom` in lowest terms.
    pub fn new(numer: i64, denom: i64) -> (r: Fraction)
        requires
            denom > 0,
        ensures
            r.wf(),
            r@ == lowest_terms(numer as int, denom as int),
    {
        ratio_new(numer, denom)
    }

    pub fn is_integer(&self) -> (r: bool)
        ensures
            r == (self.denom == 1),
    {
        self.denom == 1
    }
}

/// Whether `CheckedAdd::checked_add` on `Ratio<i64>` returns a sum for the two fractions.
pub uninterp spec fn checked_add_succeeds(a: Fraction, b: Fraction) -> bool;

/// Whether `CheckedSub::checked_sub` on `Ratio<i64>` returns a difference for the two fractions.
pub uninterp spec fn checked_sub_succeeds(a: Fraction, b: Fraction) -> bool;

/// Whether `CheckedMul::checked_mul` on `Ratio<i64>` returns a product for the two fractions.
pub uninterp spec fn checked_mul_succeeds(a: Fraction, b: Fraction) -> bool;

/// Whether `CheckedDiv::checked_div` on `Ratio<i64>` returns a quotient for the two fractions.
pub uninterp spec fn checked_div_succeeds(a: Fraction, b: Fraction) -> bool;

/// Relies on `Ratio::<i64>::new`: it divides both parts by their gcd and keeps the
/// denominator positive. With a positive denominator it does not panic.
#[verifier::external_body]
fn ratio_new(numer: i64, denom: i64) -> (r: Fraction)
    requires
        denom > 0,
    ensures
        r.wf(),
        r@ == lowest_terms(numer as int, denom as int),
{
    let q = Rational64::new(numer, denom);
    Fraction { numer: *q.numer(), denom: *q.denom() }
}

/// Relies on `CheckedAdd::checked_add` for `Ratio<i64>`: `None` when an intermediate
/// product or the sum overflows, else the exact sum in lowest terms.
#[verifier::external_body]
pub(crate) fn ratio_checked_add(a: Fraction, b: Fraction) -> (r: Option<Fraction>)
    requires
        a.wf(),
        b.wf(),
    ensures
        r is Some <==> checked_add_succeeds(a, b),
        r matches Some(s) ==> s.wf() && s@ == lowest_terms(
            a.numer * b.denom + b.numer * a.denom,
            a.denom * b.denom,
        ),
{
    let x = Rational64::new_raw(a.numer, a.denom);
    let y = Rational64::new_raw(b.numer, b.denom);
    x.checked_add(&y).map(|q| Fraction { numer: *q.numer(), denom: *q.denom() })
}

/// Relies on `CheckedSub::checked_sub` for `Ratio<i64>`: `None` when an intermediate
/// product or the difference overflows, else the exact difference in lowest terms.
#[verifier::external_body]
pub(crate) fn ratio_checked_sub(a: Fraction, b: Fraction) -> (r: Option<Fraction>)
    requires
        a.wf(),
        b.wf(),
    ensures
        r is Some <==> checked_sub_succeeds(a, b),
        r matches Some(s) ==> s.wf() && s@ == lowest_terms(
            a.numer * b.denom - b.numer * a.denom,
            a.denom * b.denom,
        ),
{
    let x = Rational64::new_raw(a.numer, a.denom);
    let y = Rational64::new_raw(b.numer, b.denom);
    x.checked_sub(&y).map(|q| Fraction { numer: *q.numer(), denom: *q.denom() })
}

/// Relies on `CheckedMul::checked_mul` for `Ratio<i64>`: `None` when a cross-reduced
/// product overflows, else the exact product in lowest terms.
#[verifier::external_body]
pub(crate) fn ratio_checked_mul(a: Fraction, b: Fraction) -> (r: Option<Fraction>)
    requires
        a.wf(),
        b.wf(),
    ensures
        r is Some <==> checked_mul_succeeds(a, b),
        r matches Some(s) ==> s.wf() && s@ == lowest_terms(
            a.numer * b.numer,
            a.denom * b.denom,
        ),
{
    let x = Rational64::new_raw(a.numer, a.denom);
    let y = Rational64::new_raw(b.numer, b.denom);
    x.checked_mul(&y).map(|q| Fraction { numer: *q.numer(), denom: *q.denom() })
}

/// Relies on `CheckedDiv::checked_div` for `Ratio<i64>`: `None` when a cross-reduced
/// product or the sign normalisation overflows, else the exact quotient in lowest
/// terms. A zero dividend is left out: its gcd with an `i64::MIN` divisor panics.
#[verifier::external_body]
pub(crate) fn ratio_checked_div(a: Fraction, b: Fraction) -> (r: Option<Fraction>)
    requires
        a.wf(),
        b.wf(),
        a.numer != 0,
        b.numer != 0,
    ensures
        r is Some <==> checked_div_succeeds(a, b),
        r matches Some(s) ==> s.wf() && s@ == lowest_terms(
            a.numer * b.denom,
            a.denom * b.numer,
        ),
{
    let x = Rational64::new_raw(a.numer, a.denom);
    let y = Rational64::new_raw(b.numer, b.denom);
    x.checked_div(&y).map(|q| Fraction { numer: *q.numer(), denom: *q.denom() })
}

} // verus!
