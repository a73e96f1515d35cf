use crate::error::ParseError;
use crate::error::{Error, EvalError};
use crate::fraction::{
    abs, checked_add_succeeds, checked_div_succeeds, checked_mul_succeeds, checked_sub_succeeds,
    fraction_of,
    lowest_terms, ratio_checked_add, ratio_checked_div, ratio_checked_mul, ratio_checked_sub,
    Fraction,
};
use crate::text::{
    all_digits, decimal_digits, digit_of, digits_value, first_dot, fraction_digits, int_text,
    lemma_first_dot, pow10, power_of_ten, push_decimal, push_fraction_digits, push_int,
    read_magnitude, string_from_chars, chars_of, push_digits,
};
use vstd::prelude::*;

verus! {

/// How many digits after the point a non-integral fraction is written with, at most.
/// With a denominator below `10^19` the first nineteen digits are never all zero.
pub const FRACTION_DIGITS: usize = 19;

/// A number on the calculator's stack: an exact integer or an exact fraction.
#[derive(Clone, Copy, Debug, PartialEq, Eq, Structural)]
pub enum Value {
    Integer(i64),
    Fraction(Fraction),
}

pub open spec fn in_i64(x: int) -> bool {
    i64::MIN <= x <= i64::MAX
}

pub open spec fn signed(negative: bool, m: nat) -> int {
    if negative {
        -m
    } else {
        m as int
    }
}

/// Length of the leading sign of a numeral, if it has one.
pub open spec fn sign_len(s: Seq<char>) -> int {
    if s.len() > 0 && (s[0] == '-' || s[0] == '+') {
        1
    } else {
        0
    }
}

pub open spec fn is_negative(s: Seq<char>) -> bool {
    s.len() > 0 && s[0] == '-'
}

/// The value a token denotes. Without a point it is an integer: an optional sign and
/// at least one digit. With a point it is a decimal: an optional sign, digits, the
/// point and digits, with at least one digit in all; it is read as
/// `digits / 10^(digits after the point)` in lowest terms. A numeral whose value
/// (before reduction) does not fit in 64 bits is out of range.
pub open spec fn parse_spec(s: Seq<char>) -> Result<Value, ParseError> {
    let body = s.skip(sign_len(s));
    let neg = is_negative(s);
    if !body.contains('.') {
        if body.len() == 0 || !all_digits(body) {
            Err(ParseError::Malformed)
        } else if !in_i64(signed(neg, digits_value(body))) {
            Err(ParseError::OutOfRange)
        } else {
            Ok(Value::Integer(signed(neg, digits_value(body)) as i64))
        }
    } else {
        let p = first_dot(body);
        let whole = body.take(p);
        let frac = body.skip(p + 1);
        let n = signed(neg, digits_value(whole + frac));
        if !all_digits(whole) || !all_digits(frac) || whole.len() + frac.len() == 0 {
            Err(ParseError::Malformed)
        } else if !in_i64(n) || frac.len() > 18 {
            Err(ParseError::OutOfRange)
        } else {
            Ok(Value::Fraction(fraction_of(lowest_terms(n, pow10(frac.len()) as int))))
        }
    }
}

impl Value {
    /// A fraction is kept in lowest terms with a positive denominator.
    pub open spec fn wf(self) -> bool {
        match self {
            Value::Integer(_) => true,
            Value::Fraction(f) => f.wf(),
        }
    }

    /// The value as a fraction; an integer `n` is `n / 1`.
    pub open spec fn as_fraction(self) -> Fraction {
        match self {
            Value::Integer(n) => Fraction::spec_from_integer(n),
            Value::Fraction(f) => f,
        }
    }

    pub open spec fn is_zero(self) -> bool {
        self.as_fraction().numer == 0
    }

    /// The canonical text: an integer, or a fraction with denominator 1, as its
    /// digits; any other fraction as a decimal, cut (toward zero) after at most
    /// `FRACTION_DIGITS` digits and ending where the expansion ends.
    pub open spec fn text(self) -> Seq<char> {
        match self {
            Value::Integer(n) => int_text(n as int),
            Value::Fraction(f) => if f.denom == 1 {
                int_text(f.numer as int)
            } else {
                (if f.numer < 0 {
                    seq!['-']
                } else {
                    seq![]
                }) + decimal_digits(abs(f.numer as int) / (f.denom as nat)) + seq!['.']
                    + fraction_digits(
                    abs(f.numer as int) % (f.denom as nat),
                    f.denom as nat,
                    FRACTION_DIGITS as nat,
                )
            },
        }
    }

    /// Result of a fraction operation: the rational `p` when the operation
    /// succeeded (which it can only where `p` fits in 64 bits), else an overflow.
    pub open spec fn from_checked(ok: bool, p: (int, int)) -> Result<Value, Error> {
        if ok && in_i64(p.0) && in_i64(p.1) {
            Ok(Value::Fraction(fraction_of(p)))
        } else {
            Err(Error::Eval(EvalError::Overflow))
        }
    }

    pub open spec fn from_int(x: int) -> Result<Value, Error> {
        if in_i64(x) {
            Ok(Value::Integer(x as i64))
        } else {
            Err(Error::Eval(EvalError::Overflow))
        }
    }

    pub open spec fn sum_spec(self, rhs: Value) -> Result<Value, Error> {
        match (self, rhs) {
            (Value::Integer(a), Value::Integer(b)) => Value::from_int(a + b),
            _ => {
                let (x, y) = (self.as_fraction(), rhs.as_fraction());
                Value::from_checked(
                    checked_add_succeeds(x, y),
                    lowest_terms(x.numer * y.denom + y.numer * x.denom, x.denom * y.denom),
                )
            },
        }
    }

    pub open spec fn difference_spec(self, rhs: Value) -> Result<Value, Error> {
        match (self, rhs) {
            (Value::Integer(a), Value::Integer(b)) => Value::from_int(a - b),
            _ => {
                let (x, y) = (self.as_fraction(), rhs.as_fraction());
                Value::from_checked(
                    checked_sub_succeeds(x, y),
                    lowest_terms(x.numer * y.denom - y.numer * x.denom, x.denom * y.denom),
                )
            },
        }
    }

    pub open spec fn product_spec(self, rhs: Value) -> Result<Value, Error> {
        match (self, rhs) {
            (Value::Integer(a), Value::Integer(b)) => Value::from_int(a * b),
            _ => {
                let (x, y) = (self.as_fraction(), rhs.as_fraction());
                Value::from_checked(
                    checked_mul_succeeds(x, y),
                    lowest_terms(x.numer * y.numer, x.denom * y.denom),
                )
            },
        }
    }

    /// Division always yields a fraction, never a truncated integer.
    pub open spec fn quotient_spec(self, rhs: Value) -> Result<Value, Error> {
        if rhs.is_zero() {
            Err(Error::Eval(EvalError::DivisionByZero))
        } else if self.is_zero() {
            Ok(Value::Fraction(Fraction::spec_from_integer(0)))
        } else {
            let (x, y) = (self.as_fraction(), rhs.as_fraction());
            Value::from_checked(
                checked_div_succeeds(x, y),
                lowest_terms(x.numer * y.denom, x.denom * y.numer),
            )
        }
    }

    /// Reads a number from a token: see `parse_spec` for the grammar.
    pub fn parse(s: &str) -> (r: Result<Value, ParseError>)
        ensures
            r == parse_spec(s@),
            r matches Ok(v) ==> v.wf(),
    {
        let cs = chars_of(s);
        let n = cs.len();
        let start: usize = if n > 0 && (cs[0] == '-' || cs[0] == '+') {
            1
        } else {
            0
        };
        let neg = n > 0 && cs[0] == '-';
        let ghost body = s@.skip(start as int);
        assert(start == sign_len(s@) && neg == is_negative(s@));
        let mut p: usize = start;
        while p < n && cs[p] != '.'
            invariant
                start <= p <= n,
                n == cs@.len(),
                forall|j: int| start <= j < p ==> cs@[j] != '.',
            decreases n - p,
        {
            p = p + 1;
        }
        proof {
            assert(body =~= cs@.subrange(start as int, n as int));
            lemma_first_dot(body, p - start);
            if p < n {
                assert(body[p - start] == '.');
            } else {
                assert forall|j: int| 0 <= j < body.len() implies body[j] != '.' by {
                    assert(body[j] == cs@[j + start]);
                }
            }
            assert(body.take(p - start) =~= cs@.subrange(start as int, p as int));
        }
        let mut ds: Vec<char> = Vec::new();
        if !push_digits(&cs, start, p, &mut ds) {
            return Err(ParseError::Malformed);
        }
        if p < n {
            if !push_digits(&cs, p + 1, n, &mut ds) {
                assert(body.skip(p - start + 1) =~= cs@.subrange(p + 1, n as int));
                return Err(ParseError::Malformed);
            }
        }
        proof {
            if p < n {
                assert(body.skip(p - start + 1) =~= cs@.subrange(p + 1, n as int));
                assert(ds@ =~= body.take(p - start) + body.skip(p - start + 1));
            } else {
                assert(ds@ =~= body);
            }
        }
        if ds.len() == 0 {
            return Err(ParseError::Malformed);
        }
        let m = match read_magnitude(&ds) {
            Some(m) => m,
            None => {
                return Err(ParseError::OutOfRange);
            },
        };
        let x: i128 = if neg {
            -(m as i128)
        } else {
            m as i128
        };
        if x < i64::MIN as i128 || x > i64::MAX as i128 {
            return Err(ParseError::OutOfRange);
        }
        if p == n {
            return Ok(Value::Integer(x as i64));
        }
        let k = n - p - 1;
        if k > 18 {
            return Err(ParseError::OutOfRange);
        }
        let f = Fraction::new(x as i64, power_of_ten(k));
        Ok(Value::Fraction(f))
    }

    /// The canonical text of the value: see `text`.
    pub fn to_text(&self) -> (r: String)
        requires
            self.wf(),
        ensures
            r@ == self.text(),
    {
        let mut out: Vec<char> = Vec::new();
        match *self {
            Value::Integer(n) => push_int(&mut out, n),
            Value::Fraction(f) => {
                if f.is_integer() {
                    push_int(&mut out, f.numer);
                } else {
                    let m: u128 = if f.numer < 0 {
                        (-(f.numer as i128)) as u128
                    } else {
                        f.numer as u128
                    };
                    let d = f.denom as u128;
                    if f.numer < 0 {
                        out.push('-');
                    }
                    push_decimal(&mut out, m / d);
                    out.push('.');
                    push_fraction_digits(&mut out, m % d, d, FRACTION_DIGITS);
                    assert(out@ =~= self.text());
                }
            },
        }
        string_from_chars(&out)
    }

    /// The value as a fraction; an integer `n` is `n / 1`.
    pub fn to_fraction(self) -> (r: Fraction)
        requires
            self.wf(),
        ensures
            r == self.as_fraction(),
            r.wf(),
    {
        match self {
            Value::Integer(n) => Fraction::from_integer(n),
            Value::Fraction(f) => f,
        }
    }

    fn checked(r: Option<Fraction>, Ghost(ok): Ghost<bool>, Ghost(p): Ghost<(int, int)>) -> (v:
        Result<Value, Error>)
        requires
            r is Some <==> ok,
            r matches Some(f) ==> f.wf() && f@ == p,
        ensures
            v == Value::from_checked(ok, p),
            v matches Ok(x) ==> x.wf(),
    {
        match r {
            Some(f) => Ok(Value::Fraction(f)),
            None => Err(Error::Eval(EvalError::Overflow)),
        }
    }

    fn integer(x: i128) -> (v: Result<Value, Error>)
        ensures
            v == Value::from_int(x as int),
    {
        if i64::MIN as i128 <= x && x <= i64::MAX as i128 {
            Ok(Value::Integer(x as i64))
        } else {
            Err(Error::Eval(EvalError::Overflow))
        }
    }

    /// `self + rhs`: integers add as integers, failing on overflow; otherwise exact
    /// rational addition.
    pub fn add(self, rhs: Value) -> (r: Result<Value, Error>)
        requires
            self.wf(),
            rhs.wf(),
        ensures
            r == self.sum_spec(rhs),
            r matches Ok(v) ==> v.wf(),
    {
        match (self, rhs) {
            (Value::Integer(a), Value::Integer(b)) => Value::integer(a as i128 + b as i128),
            _ => {
                let (a, b) = (self.to_fraction(), rhs.to_fraction());
                Value::checked(
                    ratio_checked_add(a, b),
                    Ghost(checked_add_succeeds(a, b)),
                    Ghost(lowest_terms(a.numer * b.denom + b.numer * a.denom, a.denom * b.denom)),
                )
            },
        }
    }

    /// `self - rhs`: integers subtract as integers, failing on overflow; otherwise
    /// exact rational subtraction.
    pub fn sub(self, rhs: Value) -> (r: Result<Value, Error>)
        requires
            self.wf(),
            rhs.wf(),
        ensures
            r == self.difference_spec(rhs),
            r matches Ok(v) ==> v.wf(),
    {
        match (self, rhs) {
            (Value::Integer(a), Value::Integer(b)) => Value::integer(a as i128 - b as i128),
            _ => {
                let (a, b) = (self.to_fraction(), rhs.to_fraction());
                Value::checked(
                    ratio_checked_sub(a, b),
                    Ghost(checked_sub_succeeds(a, b)),
                    Ghost(lowest_terms(a.numer * b.denom - b.numer * a.denom, a.denom * b.denom)),
                )
            },
        }
    }

    /// `self * rhs`: integers multiply as integers, failing on overflow; otherwise
    /// exact rational multiplication.
    pub fn mul(self, rhs: Value) -> (r: Result<Value, Error>)
        requires
            self.wf(),
            rhs.wf(),
        ensures
            r == self.product_spec(rhs),
            r matches Ok(v) ==> v.wf(),
    {
        match (self, rhs) {
            (Value::Integer(a), Value::Integer(b)) => {
                assert(-0x4000_0000_0000_0000_0000_0000_0000_0000 <= a as i128 * b as i128
                    <= 0x4000_0000_0000_0000_0000_0000_0000_0000) by (nonlinear_arith)
                    requires
                        i64::MIN <= a <= i64::MAX,
                        i64::MIN <= b <= i64::MAX,
                ;
                Value::integer(a as i128 * b as i128)
            },
            _ => {
                let (a, b) = (self.to_fraction(), rhs.to_fraction());
                Value::checked(
                    ratio_checked_mul(a, b),
                    Ghost(checked_mul_succeeds(a, b)),
                    Ghost(lowest_terms(a.numer * b.numer, a.denom * b.denom)),
                )
            },
        }
    }

    /// `self / rhs`, always as an exact fraction; a zero divisor is an error.
    pub fn div(self, rhs: Value) -> (r: Result<Value, Error>)
        requires
            self.wf(),
            rhs.wf(),
        ensures
            r == self.quotient_spec(rhs),
            r matches Ok(v) ==> v.wf(),
    {
        let a = self.to_fraction();
        let b = rhs.to_fraction();
        if b.numer == 0 {
            return Err(Error::Eval(EvalError::DivisionByZero));
        }
        if a.numer == 0 {
            return Ok(Value::Fraction(Fraction::from_integer(0)));
        }
        Value::checked(
            ratio_checked_div(a, b),
            Ghost(checked_div_succeeds(a, b)),
            Ghost(lowest_terms(a.numer * b.denom, a.denom * b.numer)),
        )
    }
}

} // verus!
