//! Decimal formatting and parsing of integers, with the exact results and
//! error kinds of `Display` and `str::parse` for the integer types.

use vstd::prelude::*;
use crate::text::{chars_of, char_from_ascii, push_all};

verus! {

pub open spec fn digit_char(d: nat) -> char {
    ((d + 48) as u8) as char
}

pub open spec fn is_digit(c: char) -> bool {
    48 <= (c as u32) <= 57
}

pub open spec fn digit_value(c: char) -> nat {
    ((c as u32) - 48) as nat
}

/// The decimal spelling of `n`, as `Display` writes it.
pub open spec fn decimal(n: nat) -> Seq<char>
    decreases n,
{
    if n < 10 {
        seq![digit_char(n)]
    } else {
        decimal(n / 10).push(digit_char(n % 10))
    }
}

/// The decimal spelling of a signed integer.
pub open spec fn signed_decimal(v: int) -> Seq<char> {
    if v < 0 {
        seq!['-'] + decimal((-v) as nat)
    } else {
        decimal(v as nat)
    }
}

pub proof fn lemma_digit_roundtrip(d: nat)
    requires
        d < 10,
    ensures
        is_digit(digit_char(d)),
        digit_value(digit_char(d)) == d,
{
}

pub proof fn lemma_decimal_shape(n: nat)
    ensures
        decimal(n).len() >= 1,
        is_digit(decimal(n)[0]),
        forall|i: int| 0 <= i < decimal(n).len() ==> is_digit(#[trigger] decimal(n)[i]),
    decreases n,
{
    if n >= 10 {
        lemma_decimal_shape(n / 10);
    }
}

/// Why `str::parse` refused a number; the `Display` text of each kind is
/// `int_error_text`.
#[derive(Clone, Copy, Debug, PartialEq, Eq)]
pub enum IntErrorKind {
    Empty,
    InvalidDigit,
    PosOverflow,
    NegOverflow,
}

pub open spec fn int_error_text(e: IntErrorKind) -> Seq<char> {
    match e {
        IntErrorKind::Empty => "cannot parse integer from empty string"@,
        IntErrorKind::InvalidDigit => "invalid digit found in string"@,
        IntErrorKind::PosOverflow => "number too large to fit in target type"@,
        IntErrorKind::NegOverflow => "number too small to fit in target type"@,
    }
}

pub fn int_error_message(e: IntErrorKind) -> (out: Vec<char>)
    ensures
        out@ == int_error_text(e),
{
    match e {
        IntErrorKind::Empty => chars_of("cannot parse integer from empty string"),
        IntErrorKind::InvalidDigit => chars_of("invalid digit found in string"),
        IntErrorKind::PosOverflow => chars_of("number too large to fit in target type"),
        IntErrorKind::NegOverflow => chars_of("number too small to fit in target type"),
    }
}

/// Reads the digits of `s` from left to right, stopping at the first
/// non-digit or at the first prefix whose value exceeds `bound`.
pub open spec fn fold_digits(s: Seq<char>, bound: nat) -> Result<nat, IntErrorKind>
    decreases s.len(),
{
    if s.len() == 0 {
        Ok(0)
    } else {
        match fold_digits(s.drop_last(), bound) {
            Err(e) => Err(e),
            Ok(a) => if !is_digit(s.last()) {
                Err(IntErrorKind::InvalidDigit)
            } else if a * 10 + digit_value(s.last()) > bound {
                Err(IntErrorKind::PosOverflow)
            } else {
                Ok(a * 10 + digit_value(s.last()))
            },
        }
    }
}

/// `str::parse` for an unsigned type whose largest value is `bound`.
pub open spec fn parse_unsigned(s: Seq<char>, bound: nat) -> Result<nat, IntErrorKind> {
    if s.len() == 0 {
        Err(IntErrorKind::Empty)
    } else if s[0] == '+' {
        if s.len() == 1 {
            Err(IntErrorKind::InvalidDigit)
        } else {
            fold_digits(s.drop_first(), bound)
        }
    } else {
        fold_digits(s, bound)
    }
}

/// `str::parse::<i32>`.
pub open spec fn parse_i32_spec(s: Seq<char>) -> Result<int, IntErrorKind> {
    if s.len() == 0 {
        Err(IntErrorKind::Empty)
    } else if s.len() == 1 && (s[0] == '+' || s[0] == '-') {
        Err(IntErrorKind::InvalidDigit)
    } else if s[0] == '-' {
        match fold_digits(s.drop_first(), 2147483648) {
            Ok(m) => Ok(-m),
            Err(IntErrorKind::PosOverflow) => Err(IntErrorKind::NegOverflow),
            Err(e) => Err(e),
        }
    } else if s[0] == '+' {
        match fold_digits(s.drop_first(), 2147483647) {
            Ok(m) => Ok(m as int),
            Err(e) => Err(e),
        }
    } else {
        match fold_digits(s, 2147483647) {
            Ok(m) => Ok(m as int),
            Err(e) => Err(e),
        }
    }
}

proof fn lemma_fold_bound(s: Seq<char>, bound: nat)
    ensures
        fold_digits(s, bound) matches Ok(v) ==> v <= bound,
    decreases s.len(),
{
    if s.len() > 0 {
        lemma_fold_bound(s.drop_last(), bound);
    }
}

fn fold_digits_exec(s: &[char], lo: usize, bound: u64) -> (r: Result<u64, IntErrorKind>)
    requires
        lo <= s@.len(),
    ensures
        match fold_digits(s@.subrange(lo as int, s@.len() as int), bound as nat) {
            Ok(v) => r == Ok::<u64, IntErrorKind>(v as u64),
            Err(e) => r == Err::<u64, IntErrorKind>(e),
        },
{
    let mut acc: u64 = 0;
    let mut i = lo;
    assert(s@.subrange(lo as int, lo as int) =~= Seq::<char>::empty());
    while i < s.len()
        invariant
            lo <= i <= s@.len(),
            fold_digits(s@.subrange(lo as int, i as int), bound as nat) == Ok::<
                nat,
                IntErrorKind,
            >(acc as nat),
            acc <= bound,
        decreases s@.len() - i,
    {
        let c = s[i];
        assert(s@.subrange(lo as int, i + 1).drop_last() =~= s@.subrange(lo as int, i as int));
        let u = c as u32;
        if u < 48 || u > 57 {
            proof {
                lemma_fold_error_sticks(s@, lo as int, i + 1, bound as nat);
            }
            return Err(IntErrorKind::InvalidDigit);
        }
        let d = (u - 48) as u64;
        if d > bound || acc > (bound - d) / 10 {
            assert(acc * 10 + d > bound) by (nonlinear_arith)
                requires
                    d > bound || acc > (bound - d) / 10,
                    d <= bound ==> acc > (bound - d) / 10 || d > bound,
            ;
            proof {
                lemma_fold_error_sticks(s@, lo as int, i + 1, bound as nat);
            }
            return Err(IntErrorKind::PosOverflow);
        }
        assert(acc * 10 + d <= bound) by (nonlinear_arith)
            requires
                acc <= (bound - d) / 10,
                d <= 9,
                acc <= bound,
        ;
        acc = acc * 10 + d;
        i += 1;
    }
    assert(s@.subrange(lo as int, s@.len() as int) =~= s@.subrange(lo as int, i as int));
    Ok(acc)
}

/// Once the fold has failed on a prefix, it fails the same way on `s`.
proof fn lemma_fold_error_sticks(s: Seq<char>, lo: int, j: int, bound: nat)
    requires
        0 <= lo <= j <= s.len(),
        fold_digits(s.subrange(lo, j), bound) is Err,
    ensures
        fold_digits(s.subrange(lo, s.len() as int), bound) == fold_digits(
            s.subrange(lo, j),
            bound,
        ),
    decreases s.len() - j,
{
    if j < s.len() {
        assert(s.subrange(lo, j + 1).drop_last() =~= s.subrange(lo, j));
        lemma_fold_error_sticks(s, lo, j + 1, bound);
    }
}

/// `str::parse` for an unsigned type whose largest value is `bound`.
pub fn parse_unsigned_chars(s: &[char], bound: u64) -> (r: Result<u64, IntErrorKind>)
    ensures
        match parse_unsigned(s@, bound as nat) {
            Ok(v) => r == Ok::<u64, IntErrorKind>(v as u64),
            Err(e) => r == Err::<u64, IntErrorKind>(e),
        },
{
    if s.len() == 0 {
        return Err(IntErrorKind::Empty);
    }
    if s[0] == '+' {
        if s.len() == 1 {
            return Err(IntErrorKind::InvalidDigit);
        }
        assert(s@.drop_first() =~= s@.subrange(1, s@.len() as int));
        fold_digits_exec(s, 1, bound)
    } else {
        assert(s@ =~= s@.subrange(0, s@.len() as int));
        fold_digits_exec(s, 0, bound)
    }
}

/// `str::parse::<i32>`.
pub fn parse_i32_chars(s: &[char]) -> (r: Result<i32, IntErrorKind>)
    ensures
        match parse_i32_spec(s@) {
            Ok(v) => r == Ok::<i32, IntErrorKind>(v as i32),
            Err(e) => r == Err::<i32, IntErrorKind>(e),
        },
{
    if s.len() == 0 {
        return Err(IntErrorKind::Empty);
    }
    if s.len() == 1 && (s[0] == '+' || s[0] == '-') {
        return Err(IntErrorKind::InvalidDigit);
    }
    assert(s@.drop_first() =~= s@.subrange(1, s@.len() as int));
    assert(s@ =~= s@.subrange(0, s@.len() as int));
    if s[0] == '-' {
        match fold_digits_exec(s, 1, 2147483648) {
            Ok(m) => {
                proof {
                    lemma_fold_bound(s@.drop_first(), 2147483648);
                }
                if m == 2147483648 {
                    Ok(-2147483648i32)
                } else {
                    Ok(-(m as i32))
                }
            },
            Err(IntErrorKind::PosOverflow) => Err(IntErrorKind::NegOverflow),
            Err(e) => Err(e),
        }
    } else {
        let lo: usize = if s[0] == '+' {
            1
        } else {
            0
        };
        match fold_digits_exec(s, lo, 2147483647) {
            Ok(m) => {
                proof {
                    lemma_fold_bound(s@.subrange(lo as int, s@.len() as int), 2147483647);
                }
                Ok(m as i32)
            },
            Err(e) => Err(e),
        }
    }
}

pub fn digit_char_exec(d: u64) -> (c: char)
    requires
        d < 10,
    ensures
        c == digit_char(d as nat),
{
    char_from_ascii((d + 48) as u8)
}

/// The decimal spelling of `n`.
pub fn decimal_chars(n: u64) -> (out: Vec<char>)
    ensures
        out@ == decimal(n as nat),
    decreases n,
{
    if n < 10 {
        let mut v: Vec<char> = Vec::new();
        v.push(digit_char_exec(n));
        v
    } else {
        let mut v = decimal_chars(n / 10);
        v.push(digit_char_exec(n % 10));
        v
    }
}

/// The decimal spelling of a signed 32-bit integer.
pub fn signed_decimal_chars(v: i32) -> (out: Vec<char>)
    ensures
        out@ == signed_decimal(v as int),
{
    if v < 0 {
        let m: u64 = (0i64 - v as i64) as u64;
        let mut out: Vec<char> = Vec::new();
        out.push('-');
        let digits = decimal_chars(m);
        push_all(&mut out, digits.as_slice());
        out
    } else {
        decimal_chars(v as u64)
    }
}

/// Reading back what `decimal` wrote gives the number again.
pub proof fn lemma_fold_decimal(n: nat, bound: nat)
    requires
        n <= bound,
    ensures
        fold_digits(decimal(n), bound) == Ok::<nat, IntErrorKind>(n),
    decreases n,
{
    lemma_digit_roundtrip(n % 10);
    if n < 10 {
        let s = decimal(n);
        assert(s.drop_last() =~= Seq::<char>::empty());
        assert(fold_digits(Seq::<char>::empty(), bound) == Ok::<nat, IntErrorKind>(0));
    } else {
        lemma_fold_decimal(n / 10, bound);
        let s = decimal(n);
        assert(s.drop_last() =~= decimal(n / 10));
        assert((n / 10) * 10 + n % 10 == n) by (nonlinear_arith);
    }
}

/// `str::parse` reads back every number that `Display` writes.
pub proof fn lemma_parse_decimal(n: nat, bound: nat)
    requires
        n <= bound,
    ensures
        parse_unsigned(decimal(n), bound) == Ok::<nat, IntErrorKind>(n),
{
    lemma_decimal_shape(n);
    lemma_fold_decimal(n, bound);
}

} // verus!
