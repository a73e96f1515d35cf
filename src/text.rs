use vstd::prelude::*;

verus! {

/// The value of a decimal digit character, `None` for any other character.
pub open spec fn digit_value(c: char) -> Option<nat> {
    match c {
        '0' => Some(0),
        '1' => Some(1),
        '2' => Some(2),
        '3' => Some(3),
        '4' => Some(4),
        '5' => Some(5),
        '6' => Some(6),
        '7' => Some(7),
        '8' => Some(8),
        '9' => Some(9),
        _ => None,
    }
}

/// The character of a decimal digit `d < 10`.
pub open spec fn digit_char(d: nat) -> char {
    if d == 0 {
        '0'
    } else if d == 1 {
        '1'
    } else if d == 2 {
        '2'
    } else if d == 3 {
        '3'
    } else if d == 4 {
        '4'
    } else if d == 5 {
        '5'
    } else if d == 6 {
        '6'
    } else if d == 7 {
        '7'
    } else if d == 8 {
        '8'
    } else {
        '9'
    }
}

pub open spec fn all_digits(s: Seq<char>) -> bool {
    forall|i: int| 0 <= i < s.len() ==> (#[trigger] digit_value(s[i])) is Some
}

/// The number that a string of decimal digits denotes (0 for the empty string).
pub open spec fn digits_value(s: Seq<char>) -> nat
    decreases s.len(),
{
    if s.len() == 0 {
        0
    } else {
        digits_value(s.drop_last()) * 10 + digit_value(s.last()).unwrap_or(0)
    }
}

/// The shortest decimal digits of `n`: no leading zero, `"0"` for zero.
pub open spec fn decimal_digits(n: nat) -> Seq<char>
    decreases n,
{
    if n < 10 {
        seq![digit_char(n)]
    } else {
        decimal_digits(n / 10).push(digit_char(n % 10))
    }
}

/// The canonical text of an integer: its digits, after a `-` when it is negative.
pub open spec fn int_text(n: int) -> Seq<char> {
    if n < 0 {
        seq!['-'] + decimal_digits((-n) as nat)
    } else {
        decimal_digits(n as nat)
    }
}

/// The digits after the point of the quotient `r / d` (with `r < d`), by long division:
/// at most `k` of them, and none once the remainder is zero.
pub open spec fn fraction_digits(r: nat, d: nat, k: nat) -> Seq<char>
    decreases k,
{
    if k == 0 || r == 0 || d == 0 {
        seq![]
    } else {
        seq![digit_char((r * 10) / d)] + fraction_digits((r * 10) % d, d, (k - 1) as nat)
    }
}

pub open spec fn pow10(k: nat) -> nat
    decreases k,
{
    if k == 0 {
        1
    } else {
        10 * pow10((k - 1) as nat)
    }
}

/// The position of the first `.` in `s`, or its length when there is none.
pub open spec fn first_dot(s: Seq<char>) -> int
    decreases s.len(),
{
    if s.len() == 0 || s[0] == '.' {
        0
    } else {
        1 + first_dot(s.drop_first())
    }
}

pub proof fn lemma_digit_char(d: nat)
    requires
        d < 10,
    ensures
        digit_value(digit_char(d)) == Some(d),
{
}

pub proof fn lemma_decimal_digits(n: nat)
    ensures
        all_digits(decimal_digits(n)),
        digits_value(decimal_digits(n)) == n,
        decimal_digits(n).len() >= 1,
        decimal_digits(n)[0] != '-' && decimal_digits(n)[0] != '+',
        !decimal_digits(n).contains('.'),
    decreases n,
{
    let s = decimal_digits(n);
    lemma_digit_char(n % 10);
    if n < 10 {
        assert(n % 10 == n);
        assert(s.drop_last() =~= seq![]);
        assert(digits_value(s) == digits_value(s.drop_last()) * 10 + digit_value(s.last()).unwrap_or(0));
    } else {
        assert(n == (n / 10) * 10 + n % 10);
        lemma_decimal_digits(n / 10);
        let t = decimal_digits(n / 10);
        assert(s.drop_last() =~= t);
        assert(digits_value(s) == digits_value(t) * 10 + n % 10);
        assert forall|i: int| 0 <= i < s.len() implies (#[trigger] digit_value(s[i])) is Some by {
            if i < t.len() {
                assert(s[i] == t[i]);
            }
        }
        assert(s[0] == t[0]);
        if s.contains('.') {
            let i = choose|i: int| 0 <= i < s.len() && s[i] == '.';
            assert(digit_value(s[i]) is Some);
        }
    }
}

pub proof fn lemma_digits_value_prefix(s: Seq<char>, k: int)
    requires
        0 <= k <= s.len(),
    ensures
        digits_value(s.take(k)) <= digits_value(s),
    decreases s.len() - k,
{
    if k < s.len() {
        lemma_digits_value_prefix(s, k + 1);
        assert(s.take(k + 1).drop_last() =~= s.take(k));
    } else {
        assert(s.take(k) =~= s);
    }
}

pub proof fn lemma_pow10_monotone(j: nat, k: nat)
    requires
        j <= k,
    ensures
        pow10(j) <= pow10(k),
    decreases k,
{
    if j < k {
        lemma_pow10_monotone(j, (k - 1) as nat);
    }
}

pub proof fn lemma_first_dot(s: Seq<char>, p: int)
    requires
        0 <= p <= s.len(),
        forall|j: int| 0 <= j < p ==> s[j] != '.',
        p < s.len() ==> s[p] == '.',
    ensures
        first_dot(s) == p,
    decreases p,
{
    if p > 0 {
        lemma_first_dot(s.drop_first(), p - 1);
    }
}

/// Relies on `String`'s `FromIterator<char>`: the string holds the characters in order.
#[verifier::external_body]
pub(crate) fn string_from_chars(cs: &Vec<char>) -> (r: String)
    ensures
        r@ == cs@,
{
    cs.iter().collect()
}

pub fn digit_of(c: char) -> (r: Option<u8>)
    ensures
        r matches Some(d) ==> digit_value(c) == Some(d as nat),
        r is None ==> digit_value(c) is None,
{
    match c {
        '0' => Some(0),
        '1' => Some(1),
        '2' => Some(2),
        '3' => Some(3),
        '4' => Some(4),
        '5' => Some(5),
        '6' => Some(6),
        '7' => Some(7),
        '8' => Some(8),
        '9' => Some(9),
        _ => None,
    }
}

pub fn char_of_digit(d: u128) -> (c: char)
    requires
        d < 10,
    ensures
        c == digit_char(d as nat),
{
    if d == 0 {
        '0'
    } else if d == 1 {
        '1'
    } else if d == 2 {
        '2'
    } else if d == 3 {
        '3'
    } else if d == 4 {
        '4'
    } else if d == 5 {
        '5'
    } else if d == 6 {
        '6'
    } else if d == 7 {
        '7'
    } else if d == 8 {
        '8'
    } else {
        '9'
    }
}

/// Appends the decimal digits of `n`.
pub fn push_decimal(out: &mut Vec<char>, n: u128)
    ensures
        final(out)@ == old(out)@ + decimal_digits(n as nat),
    decreases n,
{
    if n >= 10 {
        push_decimal(out, n / 10);
    }
    out.push(char_of_digit(n % 10));
    proof {
        if n >= 10 {
            assert(final(out)@ =~= old(out)@ + decimal_digits(n as nat));
        } else {
            assert(final(out)@ =~= old(out)@ + decimal_digits(n as nat));
        }
    }
}

/// Appends the canonical text of the integer `n`.
pub fn push_int(out: &mut Vec<char>, n: i64)
    ensures
        final(out)@ == old(out)@ + int_text(n as int),
{
    if n < 0 {
        out.push('-');
        push_decimal(out, (-(n as i128)) as u128);
        assert(final(out)@ =~= old(out)@ + int_text(n as int));
    } else {
        push_decimal(out, n as u128);
    }
}

/// The characters of `s`, in order.
pub fn chars_of(s: &str) -> (cs: Vec<char>)
    ensures
        cs@ == s@,
{
    let n = s.unicode_len();
    let mut cs: Vec<char> = Vec::new();
    let mut i: usize = 0;
    while i < n
        invariant
            i <= n,
            n == s@.len(),
            cs@ == s@.take(i as int),
        decreases n - i,
    {
        cs.push(s.get_char(i));
        assert(cs@ =~= s@.take(i + 1));
        i = i + 1;
    }
    assert(s@.take(n as int) =~= s@);
    cs
}

/// Appends `cs[lo..hi]` to `ds` when all of it is digits; says whether it is.
pub fn push_digits(cs: &Vec<char>, lo: usize, hi: usize, ds: &mut Vec<char>) -> (ok: bool)
    requires
        lo <= hi <= cs@.len(),
    ensures
        ok == all_digits(cs@.subrange(lo as int, hi as int)),
        ok ==> final(ds)@ == old(ds)@ + cs@.subrange(lo as int, hi as int),
{
    let ghost start = ds@;
    let mut i: usize = lo;
    while i < hi
        invariant
            lo <= i <= hi <= cs@.len(),
            ds@ == start + cs@.subrange(lo as int, i as int),
            all_digits(cs@.subrange(lo as int, i as int)),
        decreases hi - i,
    {
        let c = cs[i];
        match digit_of(c) {
            None => {
                assert(cs@.subrange(lo as int, hi as int)[i - lo] == c);
                return false;
            },
            Some(_) => {
                ds.push(c);
            },
        }
        i = i + 1;
        assert(ds@ =~= start + cs@.subrange(lo as int, i as int));
        assert forall|j: int| 0 <= j < i - lo implies (#[trigger] digit_value(
            cs@.subrange(lo as int, i as int)[j],
        )) is Some by {
            if j < i - 1 - lo {
                assert(cs@.subrange(lo as int, i as int)[j] == cs@.subrange(lo as int, i - 1)[j]);
            }
        }
    }
    true
}

/// Appends the digits after the point of `r / d`, by long division.
pub fn push_fraction_digits(out: &mut Vec<char>, r: u128, d: u128, k: usize)
    requires
        r < d,
        d <= 0x8000_0000_0000_0000,
    ensures
        final(out)@ == old(out)@ + fraction_digits(r as nat, d as nat, k as nat),
    decreases k,
{
    if k == 0 || r == 0 {
        assert(fraction_digits(r as nat, d as nat, k as nat) =~= seq![]);
        assert(final(out)@ =~= old(out)@ + seq![]);
        return;
    }
    let t = r * 10;
    assert(t / d < 10) by (nonlinear_arith)
        requires
            t == r * 10,
            r < d,
    ;
    out.push(char_of_digit(t / d));
    push_fraction_digits(out, t % d, d, k - 1);
    assert(final(out)@ =~= old(out)@ + fraction_digits(r as nat, d as nat, k as nat));
}

/// Reads a string of decimal digits whose value is at most `2^63`, the largest
/// magnitude of a 64-bit signed integer; `None` when it is larger.
pub fn read_magnitude(ds: &Vec<char>) -> (r: Option<u128>)
    requires
        all_digits(ds@),
    ensures
        r matches Some(m) ==> m == digits_value(ds@) && m <= 0x8000_0000_0000_0000,
        r is None ==> digits_value(ds@) > 0x8000_0000_0000_0000,
{
    let mut acc: u128 = 0;
    let mut i: usize = 0;
    while i < ds.len()
        invariant
            i <= ds.len(),
            all_digits(ds@),
            acc == digits_value(ds@.take(i as int)),
            acc <= 0x8000_0000_0000_0000,
        decreases ds.len() - i,
    {
        let c = ds[i];
        assert(digit_value(ds@[i as int]) is Some);
        let d = digit_of(c).unwrap();
        assert(ds@.take(i + 1).drop_last() =~= ds@.take(i as int));
        let next = acc * 10 + d as u128;
        if next > 0x8000_0000_0000_0000 {
            proof {
                lemma_digits_value_prefix(ds@, i + 1);
            }
            return None;
        }
        acc = next;
        i = i + 1;
    }
    assert(ds@.take(i as int) =~= ds@);
    Some(acc)
}

/// `10^k`, for the `k <= 18` whose power fits in a signed 64-bit integer.
pub fn power_of_ten(k: usize) -> (r: i64)
    requires
        k <= 18,
    ensures
        r == pow10(k as nat),
        r >= 1,
{
    proof {
        reveal_with_fuel(pow10, 19);
        assert(pow10(18) == 1_000_000_000_000_000_000);
    }
    let mut p: i64 = 1;
    let mut i: usize = 0;
    while i < k
        invariant
            i <= k <= 18,
            p == pow10(i as nat),
            p >= 1,
            pow10(18) == 1_000_000_000_000_000_000,
        decreases k - i,
    {
        proof {
            lemma_pow10_monotone((i + 1) as nat, 18);
        }
        p = p * 10;
        i = i + 1;
    }
    p
}

} // verus!
