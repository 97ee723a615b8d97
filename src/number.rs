//! Decimal numbers as a user types them and as a cell holds them: ratings
//! are whole numbers, sleep figures are kept in tenths.

use vstd::prelude::*;

verus! {

/// Counting stops here: any larger value is out of every range in use.
pub const VALUE_CAP: u64 = 1000000;

pub open spec fn is_digit(c: char) -> bool {
    '0' <= c && c <= '9'
}

pub open spec fn digit_value(c: char) -> nat {
    ((c as u32) - 48) as nat
}

pub open spec fn digit_char(d: nat) -> char {
    ((d + 48) as u8) as char
}

pub open spec fn all_digits(s: Seq<char>) -> bool {
    forall|i: int| 0 <= i < s.len() ==> is_digit(#[trigger] s[i])
}

/// The value of a string of decimal digits.
pub open spec fn digits_value(s: Seq<char>) -> nat
    decreases s.len(),
{
    if s.len() == 0 {
        0
    } else {
        digits_value(s.drop_last()) * 10 + digit_value(s.last())
    }
}

/// The text with one leading '+' removed, as Rust's number parsing allows it.
pub open spec fn unsigned_part(s: Seq<char>) -> Seq<char> {
    if s.len() > 0 && s[0] == '+' {
        s.drop_first()
    } else {
        s
    }
}

/// A whole rating: an unsigned decimal in 1..=10.
pub open spec fn rating_of(s: Seq<char>) -> Option<u8> {
    let t = unsigned_part(s);
    if t.len() > 0 && all_digits(t) && 1 <= digits_value(t) <= 10 {
        Some(digits_value(t) as u8)
    } else {
        None
    }
}

/// A non-negative decimal with at most one fractional digit, in tenths.
pub open spec fn tenths_of(s: Seq<char>) -> Option<nat> {
    let t = unsigned_part(s);
    let n = t.len();
    if n > 0 && all_digits(t) {
        Some(digits_value(t) * 10)
    } else if n >= 3 && t[n - 2] == '.' && is_digit(t[n - 1]) && all_digits(t.subrange(0, n - 2)) {
        Some(digits_value(t.subrange(0, n - 2)) * 10 + digit_value(t[n - 1]))
    } else {
        None
    }
}

/// Hours of sleep, in tenths, from 0 to 12 hours.
pub open spec fn sleep_hours_of(s: Seq<char>) -> Option<u32> {
    match tenths_of(s) {
        Some(v) if v <= 120 => Some(v as u32),
        _ => None,
    }
}

/// Sleep quality, in tenths, from 1.0 to 10.0.
pub open spec fn sleep_quality_of(s: Seq<char>) -> Option<u32> {
    match tenths_of(s) {
        Some(v) if 10 <= v <= 100 => Some(v as u32),
        _ => None,
    }
}

/// The shortest decimal text of `n`.
pub open spec fn decimal_text(n: nat) -> Seq<char>
    decreases n,
{
    if n < 10 {
        seq![digit_char(n)]
    } else {
        decimal_text(n / 10).push(digit_char(n % 10))
    }
}

/// Tenths as a decimal: whole numbers bare, others with one fractional digit.
pub open spec fn tenths_text(t: nat) -> Seq<char> {
    if t % 10 == 0 {
        decimal_text(t / 10)
    } else {
        decimal_text(t / 10).push('.').push(digit_char(t % 10))
    }
}

pub open spec fn min_cap(v: nat) -> nat {
    if v < VALUE_CAP {
        v
    } else {
        VALUE_CAP as nat
    }
}

proof fn lemma_digits_step(s: Seq<char>, from: int, k: int)
    requires
        0 <= from <= k < s.len(),
    ensures
        digits_value(s.subrange(from, k + 1)) == digits_value(s.subrange(from, k)) * 10
            + digit_value(s[k]),
{
    assert(s.subrange(from, k + 1).drop_last() =~= s.subrange(from, k));
}

/// Whether `s[from..to]` is all digits, and its value, capped at `VALUE_CAP`.
fn scan_digits(s: &str, from: usize, to: usize) -> (r: (bool, u64))
    requires
        from <= to <= s@.len(),
    ensures
        r.0 == all_digits(s@.subrange(from as int, to as int)),
        r.0 ==> r.1 == min_cap(digits_value(s@.subrange(from as int, to as int))),
{
    let mut k: usize = from;
    let mut acc: u64 = 0;
    while k < to
        invariant
            from <= k <= to <= s@.len(),
            all_digits(s@.subrange(from as int, k as int)),
            acc == min_cap(digits_value(s@.subrange(from as int, k as int))),
        decreases to - k,
    {
        let c = s.get_char(k);
        if !('0' <= c && c <= '9') {
            assert(!is_digit(s@.subrange(from as int, to as int)[k - from]));
            return (false, 0);
        }
        let d = (c as u32 - 48) as u64;
        proof {
            lemma_digits_step(s@, from as int, k as int);
        }
        acc = if acc >= VALUE_CAP {
            VALUE_CAP
        } else if acc * 10 + d >= VALUE_CAP {
            VALUE_CAP
        } else {
            acc * 10 + d
        };
        k = k + 1;
        assert(all_digits(s@.subrange(from as int, k as int))) by {
            assert forall|i: int| 0 <= i < k - from implies is_digit(
                #[trigger] s@.subrange(from as int, k as int)[i],
            ) by {
                if i < k - 1 - from {
                    assert(s@.subrange(from as int, k as int)[i] == s@.subrange(
                        from as int,
                        k - 1,
                    )[i]);
                }
            }
        }
    }
    (true, acc)
}

/// Where the unsigned part of `s` starts.
fn unsigned_start(s: &str) -> (r: usize)
    ensures
        r <= s@.len(),
        unsigned_part(s@) == s@.subrange(r as int, s@.len() as int),
{
    let n = s.unicode_len();
    if n > 0 && s.get_char(0) == '+' {
        assert(s@.drop_first() =~= s@.subrange(1, n as int));
        1
    } else {
        assert(s@ =~= s@.subrange(0, n as int));
        0
    }
}

/// Reads a rating of 1 to 10; `None` for anything else.
pub fn parse_rating(s: &str) -> (r: Option<u8>)
    ensures
        r == rating_of(s@),
{
    let n = s.unicode_len();
    let a = unsigned_start(s);
    if a == n {
        return None;
    }
    let (ok, v) = scan_digits(s, a, n);
    if ok && 1 <= v && v <= 10 {
        Some(v as u8)
    } else {
        None
    }
}

/// Reads a decimal with at most one fractional digit, in tenths; the value is
/// capped at `VALUE_CAP`.
fn parse_tenths_capped(s: &str) -> (r: Option<u64>)
    ensures
        match tenths_of(s@) {
            Some(v) => r == Some(if v < VALUE_CAP { v as u64 } else { VALUE_CAP }),
            None => r is None,
        },
{
    let n = s.unicode_len();
    let a = unsigned_start(s);
    let ghost t = s@.subrange(a as int, n as int);
    if a == n {
        return None;
    }
    let (ok, v) = scan_digits(s, a, n);
    if ok {
        return Some(if v >= VALUE_CAP / 10 { VALUE_CAP } else { v * 10 });
    }
    if n - a >= 3 && s.get_char(n - 2) == '.' {
        let c = s.get_char(n - 1);
        if '0' <= c && c <= '9' {
            let (ok2, w) = scan_digits(s, a, n - 2);
            assert(t.subrange(0, t.len() - 2) =~= s@.subrange(a as int, n - 2));
            if ok2 {
                let d = (c as u32 - 48) as u64;
                return Some(if w >= VALUE_CAP / 10 { VALUE_CAP } else { w * 10 + d });
            }
        }
    }
    None
}

/// Reads hours of sleep, in tenths, from 0 to 12; `None` for anything else.
pub fn parse_sleep_hours(s: &str) -> (r: Option<u32>)
    ensures
        r == sleep_hours_of(s@),
{
    match parse_tenths_capped(s) {
        Some(v) if v <= 120 => Some(v as u32),
        _ => None,
    }
}

/// Reads sleep quality, in tenths, from 1.0 to 10.0; `None` for anything else.
pub fn parse_sleep_quality(s: &str) -> (r: Option<u32>)
    ensures
        r == sleep_quality_of(s@),
{
    match parse_tenths_capped(s) {
        Some(v) if 10 <= v && v <= 100 => Some(v as u32),
        _ => None,
    }
}

fn digit_str(d: u64) -> (r: &'static str)
    requires
        d < 10,
    ensures
        r@ == seq![digit_char(d as nat)],
{
    proof {
        reveal_strlit("0");
        reveal_strlit("1");
        reveal_strlit("2");
        reveal_strlit("3");
        reveal_strlit("4");
        reveal_strlit("5");
        reveal_strlit("6");
        reveal_strlit("7");
        reveal_strlit("8");
        reveal_strlit("9");
    }
    if d == 0 {
        "0"
    } else if d == 1 {
        "1"
    } else if d == 2 {
        "2"
    } else if d == 3 {
        "3"
    } else if d == 4 {
        "4"
    } else if d == 5 {
        "5"
    } else if d == 6 {
        "6"
    } else if d == 7 {
        "7"
    } else if d == 8 {
        "8"
    } else {
        "9"
    }
}

/// The decimal text of `n`.
pub fn format_decimal(n: u64) -> (r: String)
    ensures
        r@ == decimal_text(n as nat),
    decreases n,
{
    if n < 10 {
        String::from_str(digit_str(n))
    } else {
        let mut s = format_decimal(n / 10);
        s.append(digit_str(n % 10));
        s
    }
}

/// Tenths written as a decimal ("7", "7.5").
pub fn format_tenths(t: u32) -> (r: String)
    ensures
        r@ == tenths_text(t as nat),
{
    let mut s = format_decimal((t / 10) as u64);
    if t % 10 != 0 {
        proof {
            reveal_strlit(".");
        }
        s.append(".");
        s.append(digit_str((t % 10) as u64));
    }
    s
}

} // verus!
