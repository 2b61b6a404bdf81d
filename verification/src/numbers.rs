//! Decimal numbers as text, in both directions.

use vstd::prelude::*;

use crate::text::{chars_of, is_digit};

verus! {

// ---- reading ------------------------------------------------------------------

/// The value of one decimal digit.
pub open spec fn digit_of(c: char) -> nat {
    (c as int - '0' as int) as nat
}

/// Every character of `s` is a decimal digit.
pub open spec fn all_digits(s: Seq<char>) -> bool {
    forall|i: int| 0 <= i < s.len() ==> is_digit(#[trigger] s[i])
}

/// The number that the digits of `s` write.
pub open spec fn nat_of(s: Seq<char>) -> nat
    decreases s.len(),
{
    if s.len() == 0 {
        0
    } else {
        nat_of(s.drop_last()) * 10 + digit_of(s.last())
    }
}

/// The number that `s` writes as one or more digits, if it does.
pub open spec fn unsigned_of(s: Seq<char>) -> Option<nat> {
    if s.len() > 0 && all_digits(s) {
        Some(nat_of(s))
    } else {
        None
    }
}

/// The integer that `s` writes: an optional sign, then one or more digits. A
/// minus sign counts only where `signed` allows it.
pub open spec fn integer_of(s: Seq<char>, signed: bool) -> Option<int> {
    if s.len() > 0 && (s[0] == '+' || (signed && s[0] == '-')) {
        match unsigned_of(s.drop_first()) {
            Some(n) => Some(
                if s[0] == '-' {
                    -(n as int)
                } else {
                    n as int
                },
            ),
            None => None,
        }
    } else {
        match unsigned_of(s) {
            Some(n) => Some(n as int),
            None => None,
        }
    }
}

/// Reads characters `from` to `to` of `v` as digits. `None` where there are
/// none, where one is no digit, or where the number does not fit.
fn read_digits(v: &Vec<char>, from: usize, to: usize) -> (r: Option<u64>)
    requires
        from <= to <= v@.len(),
    ensures
        r == (match unsigned_of(v@.subrange(from as int, to as int)) {
            Some(n) => if n <= u64::MAX {
                Some(n as u64)
            } else {
                None
            },
            None => None,
        }),
{
    let ghost s = v@.subrange(from as int, to as int);
    if from == to {
        return None;
    }
    let mut n: u64 = 0;
    let mut fits: bool = true;
    let mut i: usize = from;
    while i < to
        invariant
            from <= i <= to <= v@.len(),
            s == v@.subrange(from as int, to as int),
            forall|k: int| 0 <= k < i - from ==> is_digit(#[trigger] s[k]),
            fits ==> n == nat_of(s.take(i - from)),
            !fits ==> nat_of(s.take(i - from)) > u64::MAX,
        decreases to - i,
    {
        let c = v[i];
        assert(s[i - from] == c);
        if !is_digit(c) {
            assert(!all_digits(s));
            return None;
        }
        let d: u64 = c as u64 - '0' as u64;
        assert(s.take(i - from + 1).drop_last() =~= s.take(i - from));
        if fits {
            if n > (u64::MAX - d) / 10 {
                fits = false;
            } else {
                n = n * 10 + d;
            }
        }
        i = i + 1;
    }
    assert(s.take(to - from) =~= s);
    if fits {
        Some(n)
    } else {
        None
    }
}

/// Reads an unsigned number.
pub fn parse_u32(s: &str) -> (r: Option<u32>)
    ensures
        r == (match integer_of(s@, false) {
            Some(n) => if n <= u32::MAX {
                Some(n as u32)
            } else {
                None
            },
            None => None,
        }),
{
    let v = chars_of(s);
    assert(v@.subrange(0, v@.len() as int) =~= v@);
    parse_u32_chars(&v, 0, v.len())
}

/// Reads characters `from` to `to` of `v` as an unsigned number.
pub fn parse_u32_chars(v: &Vec<char>, from: usize, to: usize) -> (r: Option<u32>)
    requires
        from <= to <= v@.len(),
    ensures
        r == (match integer_of(v@.subrange(from as int, to as int), false) {
            Some(n) => if n <= u32::MAX {
                Some(n as u32)
            } else {
                None
            },
            None => None,
        }),
{
    let ghost s = v@.subrange(from as int, to as int);
    let mut start: usize = from;
    if from < to && v[from] == '+' {
        assert(s.drop_first() =~= v@.subrange(from + 1, to as int));
        start = from + 1;
    }
    match read_digits(v, start, to) {
        Some(n) => if n <= u32::MAX as u64 {
            Some(n as u32)
        } else {
            None
        },
        None => None,
    }
}

/// Reads characters `from` to `to` of `v` as a signed number.
pub fn parse_i64_chars(v: &Vec<char>, from: usize, to: usize) -> (r: Option<i64>)
    requires
        from <= to <= v@.len(),
    ensures
        r == (match integer_of(v@.subrange(from as int, to as int), true) {
            Some(n) => if i64::MIN <= n <= i64::MAX {
                Some(n as i64)
            } else {
                None
            },
            None => None,
        }),
{
    let ghost s = v@.subrange(from as int, to as int);
    let mut start: usize = from;
    let mut negative: bool = false;
    if from < to && (v[from] == '+' || v[from] == '-') {
        assert(s.drop_first() =~= v@.subrange(from + 1, to as int));
        negative = v[from] == '-';
        start = from + 1;
    }
    match read_digits(v, start, to) {
        Some(n) => if negative {
            if n <= 0x7fff_ffff_ffff_ffff {
                Some(-(n as i64))
            } else if n == 0x8000_0000_0000_0000 {
                Some(i64::MIN)
            } else {
                None
            }
        } else if n <= 0x7fff_ffff_ffff_ffff {
            Some(n as i64)
        } else {
            None
        },
        None => None,
    }
}

/// Reads a signed number.
pub fn parse_i64(s: &str) -> (r: Option<i64>)
    ensures
        r == (match integer_of(s@, true) {
            Some(n) => if i64::MIN <= n <= i64::MAX {
                Some(n as i64)
            } else {
                None
            },
            None => None,
        }),
{
    let v = chars_of(s);
    assert(v@.subrange(0, v@.len() as int) =~= v@);
    parse_i64_chars(&v, 0, v.len())
}

/// Reads a signed number of 32 bits.
pub fn parse_i32(s: &str) -> (r: Option<i32>)
    ensures
        r == (match integer_of(s@, true) {
            Some(n) => if i32::MIN <= n <= i32::MAX {
                Some(n as i32)
            } else {
                None
            },
            None => None,
        }),
{
    match parse_i64(s) {
        Some(n) => if i32::MIN as i64 <= n && n <= i32::MAX as i64 {
            Some(n as i32)
        } else {
            None
        },
        None => None,
    }
}

// ---- writing ------------------------------------------------------------------

/// The digit that stands for `d`.
pub open spec fn digit_char(d: nat) -> char {
    (d + '0' as nat) as char
}

/// The digits of `n`, most significant first, without leading zeros.
pub open spec fn digits(n: nat) -> Seq<char>
    decreases n,
{
    if n < 10 {
        seq![digit_char(n)]
    } else {
        digits(n / 10).push(digit_char(n % 10))
    }
}

/// The decimal text of `n`.
pub open spec fn decimal(n: int) -> Seq<char> {
    if n < 0 {
        seq!['-'] + digits((-n) as nat)
    } else {
        digits(n as nat)
    }
}

/// Appends the digits of `n`.
fn push_digits(s: &mut String, n: u64)
    ensures
        final(s)@ == old(s)@ + digits(n as nat),
    decreases n,
{
    if n >= 10 {
        push_digits(s, n / 10);
    }
    let d: u8 = (n % 10) as u8;
    s.push((d + 48) as char);
    assert(s@ =~= old(s)@ + digits(n as nat));
}

/// The decimal text of a signed number.
pub fn i64_to_text(n: i64) -> (r: String)
    ensures
        r@ == decimal(n as int),
{
    let mut s = String::new();
    if n < 0 {
        s.push('-');
        let m: u64 = if n == i64::MIN {
            0x8000_0000_0000_0000
        } else {
            (-n) as u64
        };
        push_digits(&mut s, m);
        assert(s@ =~= decimal(n as int));
    } else {
        push_digits(&mut s, n as u64);
        assert(s@ =~= decimal(n as int));
    }
    s
}

/// The decimal text of a size.
pub fn usize_to_text(n: usize) -> (r: String)
    ensures
        r@ == decimal(n as int),
{
    let mut s = String::new();
    push_digits(&mut s, n as u64);
    assert(s@ =~= decimal(n as int));
    s
}

// ---- laws -----------------------------------------------------------------------

/// The digits of a number are digits, and read back as that number.
pub proof fn law_digits_read_back(n: nat)
    ensures
        digits(n).len() > 0,
        all_digits(digits(n)),
        nat_of(digits(n)) == n,
    decreases n,
{
    if n >= 10 {
        law_digits_read_back(n / 10);
        let s = digits(n);
        assert(s.drop_last() =~= digits(n / 10));
        assert forall|i: int| 0 <= i < s.len() implies is_digit(#[trigger] s[i]) by {
            if i < s.len() - 1 {
                assert(s[i] == digits(n / 10)[i]);
            }
        }
    } else {
        reveal_with_fuel(nat_of, 2);
        let s = digits(n);
        assert(s.drop_last() =~= Seq::<char>::empty());
    }
}

/// A number written in decimal reads back as itself.
pub proof fn law_decimal_reads_back(n: int)
    ensures
        integer_of(decimal(n), true) == Some(n),
        n >= 0 ==> integer_of(decimal(n), false) == Some(n),
{
    if n < 0 {
        law_digits_read_back((-n) as nat);
        assert(decimal(n).drop_first() =~= digits((-n) as nat));
    } else {
        law_digits_read_back(n as nat);
        assert(is_digit(decimal(n)[0]));
    }
}

} // verus!
