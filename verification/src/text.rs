//! Character-level helpers shared by the parsers: Unicode whitespace,
//! trimming, literal comparison and unsigned decimal numbers.

use vstd::prelude::*;

verus! {

/// Unicode `White_Space`, the property that `char::is_whitespace` tests.
pub open spec fn is_ws(c: char) -> bool {
    ||| ('\u{9}' <= c && c <= '\u{d}')
    ||| c == ' '
    ||| c == '\u{85}'
    ||| c == '\u{a0}'
    ||| c == '\u{1680}'
    ||| ('\u{2000}' <= c && c <= '\u{200a}')
    ||| c == '\u{2028}'
    ||| c == '\u{2029}'
    ||| c == '\u{202f}'
    ||| c == '\u{205f}'
    ||| c == '\u{3000}'
}

/// Whether `c` is Unicode whitespace.
pub fn is_whitespace(c: char) -> (r: bool)
    ensures
        r == is_ws(c),
{
    ('\u{9}' <= c && c <= '\u{d}') || c == ' ' || c == '\u{85}' || c == '\u{a0}' || c == '\u{1680}'
        || ('\u{2000}' <= c && c <= '\u{200a}') || c == '\u{2028}' || c == '\u{2029}' || c
        == '\u{202f}' || c == '\u{205f}' || c == '\u{3000}'
}

/// The characters of `s`, in order.
pub fn chars_of(s: &str) -> (r: Vec<char>)
    ensures
        r@ == s@,
{
    let mut out: Vec<char> = Vec::new();
    for c in it: s.chars()
        invariant
            out@ == it.seq().take(it.index() as int),
    {
        out.push(c);
    }
    proof {
        assert(out@ =~= s@);
    }
    out
}

/// `a` is where the leading whitespace of `s` ends.
pub open spec fn trim_start_at(s: Seq<char>, a: int) -> bool {
    &&& 0 <= a <= s.len()
    &&& forall|i: int| 0 <= i < a ==> is_ws(#[trigger] s[i])
    &&& a < s.len() ==> !is_ws(s[a])
}

/// `b` is where the trailing whitespace of `s` begins, given that the leading
/// whitespace ends at `a`.
pub open spec fn trim_end_at(s: Seq<char>, a: int, b: int) -> bool {
    &&& a <= b <= s.len()
    &&& forall|i: int| b <= i < s.len() ==> is_ws(#[trigger] s[i])
    &&& b > a ==> !is_ws(s[b - 1])
}

/// `s` without leading and trailing whitespace, as `str::trim` gives it.
pub open spec fn trim(s: Seq<char>) -> Seq<char> {
    let a = choose|a: int| trim_start_at(s, a);
    let b = choose|b: int| trim_end_at(s, a, b);
    s.subrange(a, b)
}

/// The bounds of the trimmed part of `s[lo..hi]`.
pub fn trim_range(s: &Vec<char>, lo: usize, hi: usize) -> (r: (usize, usize))
    requires
        lo <= hi <= s@.len(),
    ensures
        lo <= r.0 <= r.1 <= hi,
        s@.subrange(r.0 as int, r.1 as int) == trim(s@.subrange(lo as int, hi as int)),
{
    let ghost t = s@.subrange(lo as int, hi as int);
    let mut a = lo;
    while a < hi && is_whitespace(s[a])
        invariant
            lo <= a <= hi <= s@.len(),
            t == s@.subrange(lo as int, hi as int),
            forall|i: int| lo <= i < a ==> is_ws(#[trigger] s@[i]),
        decreases hi - a,
    {
        a = a + 1;
    }
    let mut b = hi;
    while b > a && is_whitespace(s[b - 1])
        invariant
            lo <= a <= b <= hi <= s@.len(),
            t == s@.subrange(lo as int, hi as int),
            forall|i: int| b <= i < hi ==> is_ws(#[trigger] s@[i]),
        decreases b - a,
    {
        b = b - 1;
    }
    proof {
        let ra = a - lo;
        let rb = b - lo;
        assert(trim_start_at(t, ra)) by {
            assert forall|i: int| 0 <= i < ra implies is_ws(#[trigger] t[i]) by {
                assert(t[i] == s@[lo + i]);
            }
        }
        assert(trim_end_at(t, ra, rb)) by {
            assert forall|i: int| rb <= i < t.len() implies is_ws(#[trigger] t[i]) by {
                assert(t[i] == s@[lo + i]);
            }
        }
        lemma_trim_unique(t, ra, rb);
        assert(s@.subrange(a as int, b as int) =~= t.subrange(ra, rb));
    }
    (a, b)
}

/// The trim bounds are unique, so `trim` is what any pair of bounds gives.
pub proof fn lemma_trim_unique(s: Seq<char>, a: int, b: int)
    requires
        trim_start_at(s, a),
        trim_end_at(s, a, b),
    ensures
        trim(s) == s.subrange(a, b),
{
    let a2 = choose|a2: int| trim_start_at(s, a2);
    assert(trim_start_at(s, a2));
    if a2 < a {
        assert(is_ws(s[a2]));
    } else if a2 > a {
        assert(is_ws(s[a]));
    }
    let b2 = choose|b2: int| trim_end_at(s, a, b2);
    assert(trim_end_at(s, a, b2));
    if b2 < b {
        assert(is_ws(s[b - 1]));
    } else if b2 > b {
        assert(is_ws(s[b2 - 1]));
    }
}

proof fn lemma_trim_start_exists(s: Seq<char>, i: int)
    requires
        0 <= i <= s.len(),
        forall|j: int| 0 <= j < i ==> is_ws(#[trigger] s[j]),
    ensures
        exists|a: int| trim_start_at(s, a),
    decreases s.len() - i,
{
    if i == s.len() || !is_ws(s[i]) {
        assert(trim_start_at(s, i));
    } else {
        lemma_trim_start_exists(s, i + 1);
    }
}

proof fn lemma_trim_end_exists(s: Seq<char>, a: int, b: int)
    requires
        0 <= a <= b <= s.len(),
        forall|j: int| b <= j < s.len() ==> is_ws(#[trigger] s[j]),
    ensures
        exists|e: int| trim_end_at(s, a, e),
    decreases b - a,
{
    if b == a || !is_ws(s[b - 1]) {
        assert(trim_end_at(s, a, b));
    } else {
        lemma_trim_end_exists(s, a, b - 1);
    }
}

/// Trimming twice is trimming once.
pub proof fn lemma_trim_idempotent(s: Seq<char>)
    ensures
        trim(trim(s)) == trim(s),
{
    lemma_trim_start_exists(s, 0);
    let a = choose|a: int| trim_start_at(s, a);
    lemma_trim_end_exists(s, a, s.len() as int);
    let b = choose|b: int| trim_end_at(s, a, b);
    lemma_trim_unique(s, a, b);
    let t = s.subrange(a, b);
    assert(trim_start_at(t, 0)) by {
        if 0 < t.len() {
            assert(t[0] == s[a]);
        }
    }
    assert(trim_end_at(t, 0, t.len() as int)) by {
        if t.len() > 0 {
            assert(t[t.len() - 1] == s[b - 1]);
        }
    }
    lemma_trim_unique(t, 0, t.len() as int);
    assert(t.subrange(0, t.len() as int) =~= t);
}

/// The characters of `s[from..to]`, as an owned string.
pub fn substring(s: &str, from: usize, to: usize) -> (r: String)
    requires
        from <= to <= s@.len(),
    ensures
        r@ == s@.subrange(from as int, to as int),
{
    s.substring_char(from, to).to_owned()
}

/// Whether `s[lo..hi]` is exactly the characters of `lit`.
pub fn range_eq(s: &Vec<char>, lo: usize, hi: usize, lit: &str) -> (r: bool)
    requires
        lo <= hi <= s@.len(),
    ensures
        r == (s@.subrange(lo as int, hi as int) == lit@),
{
    let n = lit.unicode_len();
    if hi - lo != n {
        return false;
    }
    let mut i: usize = 0;
    while i < n
        invariant
            lo <= hi <= s@.len(),
            hi - lo == n,
            n == lit@.len(),
            i <= n,
            forall|j: int| 0 <= j < i ==> s@[lo + j] == lit@[j],
        decreases n - i,
    {
        if s[lo + i] != lit.get_char(i) {
            proof {
                assert(s@.subrange(lo as int, hi as int)[i as int] != lit@[i as int]);
            }
            return false;
        }
        i = i + 1;
    }
    proof {
        assert(s@.subrange(lo as int, hi as int) =~= lit@);
    }
    true
}

/// Whether two strings hold the same characters.
pub fn str_eq(a: &str, b: &str) -> (r: bool)
    ensures
        r == (a@ == b@),
{
    let cs = chars_of(a);
    let r = range_eq(&cs, 0, cs.len(), b);
    proof {
        assert(cs@.subrange(0, cs@.len() as int) =~= a@);
    }
    r
}

/// ASCII lowercase of one character; other characters are kept.
pub open spec fn ascii_lower(c: char) -> char {
    if 'A' <= c && c <= 'Z' {
        ((c as u8) + 32u8) as char
    } else {
        c
    }
}

/// Whether the ASCII lowercase of `s[lo..hi]` is exactly `lit`.
pub fn range_ascii_lower_eq(s: &Vec<char>, lo: usize, hi: usize, lit: &str) -> (r: bool)
    requires
        lo <= hi <= s@.len(),
    ensures
        r == (s@.subrange(lo as int, hi as int).map_values(|c: char| ascii_lower(c)) == lit@),
{
    let ghost low = s@.subrange(lo as int, hi as int).map_values(|c: char| ascii_lower(c));
    let n = lit.unicode_len();
    if hi - lo != n {
        return false;
    }
    let mut i: usize = 0;
    while i < n
        invariant
            lo <= hi <= s@.len(),
            hi - lo == n,
            n == lit@.len(),
            i <= n,
            low == s@.subrange(lo as int, hi as int).map_values(|c: char| ascii_lower(c)),
            forall|j: int| 0 <= j < i ==> low[j] == lit@[j],
        decreases n - i,
    {
        let c = s[lo + i];
        let lc = if 'A' <= c && c <= 'Z' {
            ((c as u8) + 32u8) as char
        } else {
            c
        };
        assert(lc == ascii_lower(c));
        assert(low[i as int] == lc);
        if lc != lit.get_char(i) {
            return false;
        }
        i = i + 1;
    }
    proof {
        assert(low =~= lit@);
    }
    true
}

// ---------------------------------------------------------------------------
// Unsigned decimal numbers, as `str::parse` reads them for unsigned types
// ---------------------------------------------------------------------------

pub open spec fn is_digit(c: char) -> bool {
    '0' <= c && c <= '9'
}

pub open spec fn digit_value(c: char) -> nat {
    (c as int - '0' as int) as nat
}

pub open spec fn all_digits(s: Seq<char>) -> bool {
    forall|i: int| 0 <= i < s.len() ==> is_digit(#[trigger] s[i])
}

/// The value of a string of decimal digits.
pub open spec fn decimal_value(s: Seq<char>) -> nat
    decreases s.len(),
{
    if s.len() == 0 {
        0
    } else {
        decimal_value(s.drop_last()) * 10 + digit_value(s.last())
    }
}

/// The digits of an unsigned number: one leading `+` is allowed.
pub open spec fn unsigned_digits(s: Seq<char>) -> Seq<char> {
    if s.len() > 0 && s[0] == '+' {
        s.drop_first()
    } else {
        s
    }
}

/// An optional `+` and one or more decimal digits whose value is at most `max`.
pub open spec fn parse_unsigned(s: Seq<char>, max: nat) -> Option<nat> {
    let d = unsigned_digits(s);
    if d.len() > 0 && all_digits(d) && decimal_value(d) <= max {
        Some(decimal_value(d))
    } else {
        None
    }
}

proof fn lemma_decimal_value_monotone(s: Seq<char>, i: int, j: int)
    requires
        0 <= i <= j <= s.len(),
        all_digits(s),
    ensures
        decimal_value(s.take(i)) <= decimal_value(s.take(j)),
    decreases j - i,
{
    if i < j {
        lemma_decimal_value_monotone(s, i, j - 1);
        assert(s.take(j).drop_last() =~= s.take(j - 1));
    }
}

/// Read `s[lo..hi]` as an unsigned decimal number no greater than `max`.
pub fn parse_unsigned_range(s: &Vec<char>, lo: usize, hi: usize, max: u64) -> (r: Option<u64>)
    requires
        lo <= hi <= s@.len(),
    ensures
        r matches Some(v) ==> parse_unsigned(s@.subrange(lo as int, hi as int), max as nat) == Some(
            v as nat,
        ),
        r is None <==> parse_unsigned(s@.subrange(lo as int, hi as int), max as nat) is None,
{
    let ghost t = s@.subrange(lo as int, hi as int);
    let start = if lo < hi && s[lo] == '+' {
        lo + 1
    } else {
        lo
    };
    let ghost d = s@.subrange(start as int, hi as int);
    assert(d =~= unsigned_digits(t));
    if start == hi {
        return None;
    }
    let mut acc: u64 = 0;
    let mut i = start;
    while i < hi
        invariant
            lo <= start <= i <= hi <= s@.len(),
            d == s@.subrange(start as int, hi as int),
            t == s@.subrange(lo as int, hi as int),
            d == unsigned_digits(t),
            forall|j: int| start <= j < i ==> is_digit(#[trigger] s@[j]),
            acc as nat == decimal_value(d.take(i - start)),
            acc <= max,
        decreases hi - i,
    {
        let c = s[i];
        if !('0' <= c && c <= '9') {
            proof {
                assert(!is_digit(d[i - start]));
            }
            return None;
        }
        let dv = ((c as u32) - ('0' as u32)) as u64;
        proof {
            assert(d.take(i - start + 1).drop_last() =~= d.take(i - start));
            assert(d.take(i - start + 1).last() == c);
        }
        if dv > max || acc > (max - dv) / 10 {
            proof {
                assert(acc * 10 + dv > max) by (nonlinear_arith)
                    requires
                        dv > max || acc > (max - dv) / 10,
                        dv <= 9,
                ;
                if all_digits(d) {
                    lemma_decimal_value_monotone(d, i - start + 1, d.len() as int);
                    assert(d.take(d.len() as int) =~= d);
                }
            }
            return None;
        }
        proof {
            assert(acc * 10 + dv <= max) by (nonlinear_arith)
                requires
                    acc <= (max - dv) / 10,
                    dv <= 9,
                    dv <= max,
            ;
        }
        acc = acc * 10 + dv;
        i = i + 1;
    }
    proof {
        assert(d.take(d.len() as int) =~= d);
        assert(all_digits(d));
    }
    Some(acc)
}

/// `String::push`: appends one character (as std documents it).
#[verifier::external_body]
pub(crate) fn push_char(s: &mut String, c: char)
    ensures
        final(s)@ == old(s)@.push(c),
{
    s.push(c);
}

} // verus!
