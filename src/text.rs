//! Cell text: trimming, literal comparison, and the decimal numbers a user
//! types or a cell holds.

use vstd::prelude::*;

verus! {

/// Unicode `White_Space`, the set that `str::trim` removes.
pub open spec fn is_white_space(c: char) -> bool {
    let u = c as u32;
    (0x09 <= u && u <= 0x0d) || u == 0x20 || u == 0x85 || u == 0xa0 || u == 0x1680
        || (0x2000 <= u && u <= 0x200a) || u == 0x2028 || u == 0x2029 || u == 0x202f
        || u == 0x205f || u == 0x3000
}

pub open spec fn trim_start(s: Seq<char>) -> Seq<char>
    decreases s.len(),
{
    if s.len() > 0 && is_white_space(s[0]) {
        trim_start(s.drop_first())
    } else {
        s
    }
}

pub open spec fn trim_end(s: Seq<char>) -> Seq<char>
    decreases s.len(),
{
    if s.len() > 0 && is_white_space(s.last()) {
        trim_end(s.drop_last())
    } else {
        s
    }
}

pub open spec fn trim(s: Seq<char>) -> Seq<char> {
    trim_end(trim_start(s))
}

pub open spec fn ascii_lower(c: char) -> char {
    if 'A' <= c && c <= 'Z' {
        ((c as u8) + 32) as char
    } else {
        c
    }
}

pub open spec fn header_literal() -> Seq<char> {
    seq!['t', 'i', 'm', 'e', 's', 't', 'a', 'm', 'p']
}

pub open spec fn true_literal() -> Seq<char> {
    seq!['t', 'r', 'u', 'e']
}

/// A cell that holds the timestamp column's name, blanks aside.
pub open spec fn header_cell(s: Seq<char>) -> bool {
    trim(s) == header_literal()
}

/// A cell that reads as boolean true: blanks aside, "true" in any ASCII case.
pub open spec fn true_cell(s: Seq<char>) -> bool {
    trim(s).map_values(|c: char| ascii_lower(c)) == true_literal()
}

fn white_space(c: char) -> (r: bool)
    ensures
        r == is_white_space(c),
{
    let u = c as u32;
    (0x09 <= u && u <= 0x0d) || u == 0x20 || u == 0x85 || u == 0xa0 || u == 0x1680
        || (0x2000 <= u && u <= 0x200a) || u == 0x2028 || u == 0x2029 || u == 0x202f
        || u == 0x205f || u == 0x3000
}

proof fn lemma_trim_start_skip(s: Seq<char>, i: int)
    requires
        0 <= i < s.len(),
        is_white_space(s[i]),
    ensures
        trim_start(s.subrange(i, s.len() as int)) == trim_start(s.subrange(i + 1, s.len() as int)),
{
    let t = s.subrange(i, s.len() as int);
    assert(t.drop_first() =~= s.subrange(i + 1, s.len() as int));
}

proof fn lemma_trim_end_skip(s: Seq<char>, j: int)
    requires
        0 < j <= s.len(),
        is_white_space(s[j - 1]),
    ensures
        trim_end(s.subrange(0, j)) == trim_end(s.subrange(0, j - 1)),
{
    let t = s.subrange(0, j);
    assert(t.drop_last() =~= s.subrange(0, j - 1));
}

/// The bounds `(a, b)` of the trimmed part of `s`, in characters.
fn trim_bounds(s: &str) -> (r: (usize, usize))
    ensures
        r.0 <= r.1 <= s@.len(),
        trim(s@) == s@.subrange(r.0 as int, r.1 as int),
{
    let n = s.unicode_len();
    let mut i: usize = 0;
    assert(s@.subrange(0, n as int) =~= s@);
    while i < n && white_space(s.get_char(i))
        invariant
            n == s@.len(),
            i <= n,
            trim_start(s@) == trim_start(s@.subrange(i as int, n as int)),
        decreases n - i,
    {
        proof {
            lemma_trim_start_skip(s@, i as int);
        }
        i = i + 1;
    }
    let ghost front = s@.subrange(i as int, n as int);
    assert(trim_start(front) == front);
    assert(s@.subrange(0, n as int) =~= s@);
    let mut j: usize = n;
    while j > i && white_space(s.get_char(j - 1))
        invariant
            n == s@.len(),
            i <= j <= n,
            front == s@.subrange(i as int, n as int),
            trim_end(front) == trim_end(s@.subrange(i as int, j as int)),
        decreases j - i,
    {
        proof {
            let t = s@.subrange(i as int, n as int);
            lemma_trim_end_skip(s@.subrange(i as int, n as int), (j - i) as int);
            assert(t.subrange(0, (j - i) as int) =~= s@.subrange(i as int, j as int));
            assert(t.subrange(0, (j - i - 1) as int) =~= s@.subrange(i as int, (j - 1) as int));
        }
        j = j - 1;
    }
    let ghost mid = s@.subrange(i as int, j as int);
    assert(trim_end(mid) == mid);
    (i, j)
}

/// Whether `s`, trimmed, is the timestamp column's name.
pub fn is_header_cell(s: &str) -> (r: bool)
    ensures
        r == header_cell(s@),
{
    let (a, b) = trim_bounds(s);
    let lit = ['t', 'i', 'm', 'e', 's', 't', 'a', 'm', 'p'];
    if b - a != 9 {
        assert(trim(s@).len() != header_literal().len());
        return false;
    }
    let mut k: usize = 0;
    while k < 9
        invariant
            a <= b <= s@.len(),
            b - a == 9,
            trim(s@) == s@.subrange(a as int, b as int),
            lit@ == header_literal(),
            k <= 9,
            forall|m: int| 0 <= m < k ==> s@[a + m] == header_literal()[m],
        decreases 9 - k,
    {
        if s.get_char(a + k) != lit[k] {
            let ghost t = s@.subrange(a as int, b as int);
            assert(t[k as int] != header_literal()[k as int]);
            assert(t != header_literal());
            return false;
        }
        k = k + 1;
    }
    assert(s@.subrange(a as int, b as int) =~= header_literal());
    true
}

/// Whether `s`, trimmed, is "true" in any ASCII case.
pub fn is_true_cell(s: &str) -> (r: bool)
    ensures
        r == true_cell(s@),
{
    let (a, b) = trim_bounds(s);
    let ghost low = trim(s@).map_values(|c: char| ascii_lower(c));
    let lit = ['t', 'r', 'u', 'e'];
    if b - a != 4 {
        assert(low.len() != true_literal().len());
        return false;
    }
    let mut k: usize = 0;
    while k < 4
        invariant
            a <= b <= s@.len(),
            b - a == 4,
            trim(s@) == s@.subrange(a as int, b as int),
            lit@ == true_literal(),
            low == s@.subrange(a as int, b as int).map_values(|c: char| ascii_lower(c)),
            k <= 4,
            forall|m: int| 0 <= m < k ==> low[m] == true_literal()[m],
        decreases 4 - k,
    {
        let c = s.get_char(a + k);
        let l = if 'A' <= c && c <= 'Z' {
            ((c as u8) + 32) as char
        } else {
            c
        };
        assert(low[k as int] == ascii_lower(c));
        assert(l == ascii_lower(c));
        if l != lit[k] {
            assert(low[k as int] != true_literal()[k as int]);
            assert(low != true_literal());
            return false;
        }
        k = k + 1;
    }
    assert(low =~= true_literal());
    true
}

} // verus!
