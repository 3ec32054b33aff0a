//! Unbounded decimal numbers as little-endian digit vectors: reading a
//! numeral, adding a machine integer, and comparing two numbers.

use vstd::prelude::*;
use crate::text::{decimal_value, digit_value, is_digit};

verus! {

/// The value of a digit character, 0 for any other character.
pub open spec fn digit_or_zero(c: char) -> nat {
    if is_digit(c) {
        digit_value(c)
    } else {
        0
    }
}

/// The value of a numeral, reading any non-digit character as 0.
pub open spec fn numeral_value(s: Seq<char>) -> nat
    decreases s.len(),
{
    if s.len() == 0 {
        0
    } else {
        numeral_value(s.drop_last()) * 10 + digit_or_zero(s.last())
    }
}

/// For a string of digits this is its decimal value.
pub proof fn lemma_numeral_value_digits(s: Seq<char>)
    requires
        forall|i: int| 0 <= i < s.len() ==> is_digit(#[trigger] s[i]),
    ensures
        numeral_value(s) == decimal_value(s),
    decreases s.len(),
{
    if s.len() > 0 {
        lemma_numeral_value_digits(s.drop_last());
        assert(is_digit(s[s.len() - 1]));
    }
}

/// The value of little-endian decimal digits.
pub open spec fn le_value(ds: Seq<u8>) -> nat
    decreases ds.len(),
{
    if ds.len() == 0 {
        0
    } else {
        ds[0] as nat + 10 * le_value(ds.drop_first())
    }
}

/// Every entry is a decimal digit.
pub open spec fn all_small(ds: Seq<u8>) -> bool {
    forall|i: int| 0 <= i < ds.len() ==> #[trigger] ds[i] < 10
}

/// The little-endian digits of a numeral (non-digits read as 0).
pub open spec fn le_digits(s: Seq<char>) -> Seq<u8>
    decreases s.len(),
{
    if s.len() == 0 {
        Seq::empty()
    } else {
        seq![digit_or_zero(s.last()) as u8] + le_digits(s.drop_last())
    }
}

proof fn lemma_le_digits(s: Seq<char>)
    ensures
        le_digits(s).len() == s.len(),
        le_value(le_digits(s)) == numeral_value(s),
        all_small(le_digits(s)),
        forall|k: int|
            0 <= k < s.len() ==> #[trigger] le_digits(s)[k] == digit_or_zero(s[s.len() - 1 - k]) as u8,
    decreases s.len(),
{
    if s.len() > 0 {
        let d = s.drop_last();
        lemma_le_digits(d);
        let c = s.last();
        assert(digit_or_zero(c) < 10) by {
            if is_digit(c) {
                assert(digit_value(c) <= 9);
            }
        }
        let l = le_digits(s);
        assert(l.drop_first() =~= le_digits(d));
        assert forall|k: int| 0 <= k < s.len() implies #[trigger] l[k] == digit_or_zero(
            s[s.len() - 1 - k],
        ) as u8 by {
            if k > 0 {
                assert(l[k] == le_digits(d)[k - 1]);
                assert(d[d.len() - 1 - (k - 1)] == s[s.len() - 1 - k]);
            }
        }
        assert forall|i: int| 0 <= i < l.len() implies #[trigger] l[i] < 10 by {
            if i > 0 {
                assert(l[i] == le_digits(d)[i - 1]);
            }
        }
    }
}

/// Read `s[lo..hi]` as little-endian digits (non-digits read as 0).
pub fn to_le_digits(s: &Vec<char>, lo: usize, hi: usize) -> (r: Vec<u8>)
    requires
        lo <= hi <= s@.len(),
    ensures
        r@ == le_digits(s@.subrange(lo as int, hi as int)),
        le_value(r@) == numeral_value(s@.subrange(lo as int, hi as int)),
        all_small(r@),
{
    let ghost t = s@.subrange(lo as int, hi as int);
    proof {
        lemma_le_digits(t);
    }
    let n = hi - lo;
    let mut out: Vec<u8> = Vec::new();
    let mut k: usize = 0;
    while k < n
        invariant
            n == hi - lo,
            lo <= hi <= s@.len(),
            t == s@.subrange(lo as int, hi as int),
            k <= n,
            out@.len() == k,
            forall|j: int| 0 <= j < k ==> #[trigger] out@[j] == le_digits(t)[j],
            le_digits(t).len() == t.len(),
            forall|j: int|
                0 <= j < t.len() ==> #[trigger] le_digits(t)[j] == digit_or_zero(t[t.len() - 1 - j]) as u8,
        decreases n - k,
    {
        let c = s[hi - 1 - k];
        let d: u8 = if '0' <= c && c <= '9' {
            ((c as u32) - ('0' as u32)) as u8
        } else {
            0
        };
        proof {
            assert(t[t.len() - 1 - k] == c);
        }
        out.push(d);
        k = k + 1;
    }
    proof {
        assert(out@ =~= le_digits(t));
    }
    out
}

/// `ds + c`, digit by digit with a carry.
pub open spec fn add_small(ds: Seq<u8>, c: nat) -> Seq<u8>
    decreases ds.len(), c,
{
    if ds.len() == 0 {
        if c == 0 {
            Seq::empty()
        } else {
            seq![(c % 10) as u8] + add_small(ds, c / 10)
        }
    } else {
        let sum = ds[0] as nat + c;
        seq![(sum % 10) as u8] + add_small(ds.drop_first(), sum / 10)
    }
}

proof fn lemma_add_small(ds: Seq<u8>, c: nat)
    requires
        all_small(ds),
    ensures
        le_value(add_small(ds, c)) == le_value(ds) + c,
        all_small(add_small(ds, c)),
    decreases ds.len(), c,
{
    let r = add_small(ds, c);
    if ds.len() == 0 {
        if c > 0 {
            lemma_add_small(ds, c / 10);
            let rest = add_small(ds, c / 10);
            assert(r.drop_first() =~= rest);
            assert forall|i: int| 0 <= i < r.len() implies #[trigger] r[i] < 10 by {
                if i > 0 {
                    assert(r[i] == rest[i - 1]);
                }
            }
        }
    } else {
        let sum = ds[0] as nat + c;
        let t = ds.drop_first();
        assert(all_small(t)) by {
            assert forall|i: int| 0 <= i < t.len() implies #[trigger] t[i] < 10 by {
                assert(t[i] == ds[i + 1]);
            }
        }
        lemma_add_small(t, sum / 10);
        let rest = add_small(t, sum / 10);
        assert(r.drop_first() =~= rest);
        assert forall|i: int| 0 <= i < r.len() implies #[trigger] r[i] < 10 by {
            if i > 0 {
                assert(r[i] == rest[i - 1]);
            }
        }
    }
}

/// `ds[i..] + c` as little-endian digits.
fn add_small_from(ds: &Vec<u8>, i: usize, c: u64) -> (r: Vec<u8>)
    requires
        i <= ds@.len(),
        c <= u64::MAX - 256,
    ensures
        r@ == add_small(ds@.skip(i as int), c as nat),
    decreases ds@.len() - i, c,
{
    if i == ds.len() {
        if c == 0 {
            proof {
                assert(ds@.skip(i as int) =~= Seq::<u8>::empty());
            }
            Vec::new()
        } else {
            let mut r = add_small_from(ds, i, c / 10);
            r.insert(0, (c % 10) as u8);
            proof {
                assert(ds@.skip(i as int) =~= Seq::<u8>::empty());
                assert(r@ =~= seq![(c % 10) as u8] + add_small(ds@.skip(i as int), (c / 10) as nat));
            }
            r
        }
    } else {
        let sum = ds[i] as u64 + c;
        let mut r = add_small_from(ds, i + 1, sum / 10);
        r.insert(0, (sum % 10) as u8);
        proof {
            assert(ds@.skip(i as int).drop_first() =~= ds@.skip(i + 1));
            assert(ds@.skip(i as int)[0] == ds@[i as int]);
            assert(r@ =~= seq![(sum % 10) as u8] + add_small(ds@.skip(i + 1), (sum / 10) as nat));
        }
        r
    }
}

/// `ds + c` as little-endian digits.
pub fn add_small_digits(ds: &Vec<u8>, c: u64) -> (r: Vec<u8>)
    requires
        all_small(ds@),
        c <= u64::MAX - 256,
    ensures
        le_value(r@) == le_value(ds@) + c,
        all_small(r@),
{
    let r = add_small_from(ds, 0, c);
    proof {
        assert(ds@.skip(0) =~= ds@);
        lemma_add_small(ds@, c as nat);
    }
    r
}

/// The digits of `ds` from position `i` on (none past its end).
pub open spec fn suffix(ds: Seq<u8>, i: int) -> Seq<u8> {
    if 0 <= i <= ds.len() {
        ds.skip(i)
    } else {
        Seq::empty()
    }
}

/// The lowest digit, 0 for no digits.
pub open spec fn low_digit(ds: Seq<u8>) -> nat {
    if ds.len() == 0 {
        0
    } else {
        ds[0] as nat
    }
}

/// All but the lowest digit.
pub open spec fn high_digits(ds: Seq<u8>) -> Seq<u8> {
    if ds.len() == 0 {
        ds
    } else {
        ds.drop_first()
    }
}

/// Three-way comparison of two little-endian numbers: -1, 0 or 1.
pub open spec fn order_digits(x: Seq<u8>, y: Seq<u8>) -> int
    decreases x.len() + y.len(),
{
    if x.len() == 0 && y.len() == 0 {
        0
    } else {
        let r = order_digits(high_digits(x), high_digits(y));
        if r != 0 {
            r
        } else if low_digit(x) < low_digit(y) {
            -1
        } else if low_digit(x) > low_digit(y) {
            1
        } else {
            0
        }
    }
}

proof fn lemma_small_high(ds: Seq<u8>)
    requires
        all_small(ds),
    ensures
        all_small(high_digits(ds)),
        low_digit(ds) < 10,
        le_value(ds) == low_digit(ds) + 10 * le_value(high_digits(ds)),
{
    if ds.len() > 0 {
        assert forall|i: int| 0 <= i < high_digits(ds).len() implies #[trigger] high_digits(ds)[i] < 10 by {
            assert(high_digits(ds)[i] == ds[i + 1]);
        }
    }
}

/// The comparison orders the values.
pub proof fn lemma_order_digits(x: Seq<u8>, y: Seq<u8>)
    requires
        all_small(x),
        all_small(y),
    ensures
        order_digits(x, y) < 0 <==> le_value(x) < le_value(y),
        order_digits(x, y) == 0 <==> le_value(x) == le_value(y),
        order_digits(x, y) > 0 <==> le_value(x) > le_value(y),
        -1 <= order_digits(x, y) <= 1,
    decreases x.len() + y.len(),
{
    if !(x.len() == 0 && y.len() == 0) {
        lemma_small_high(x);
        lemma_small_high(y);
        lemma_order_digits(high_digits(x), high_digits(y));
    }
}

/// Compare `x[i..]` and `y[i..]`.
fn order_from(x: &Vec<u8>, y: &Vec<u8>, i: usize) -> (r: i8)
    requires
        i <= x@.len() || i <= y@.len(),
    ensures
        r as int == order_digits(suffix(x@, i as int), suffix(y@, i as int)),
    decreases (if x@.len() > y@.len() {
        x@.len()
    } else {
        y@.len()
    }) - i,
{
    let xn = x.len();
    let yn = y.len();
    let ghost sx = suffix(x@, i as int);
    let ghost sy = suffix(y@, i as int);
    if i >= xn && i >= yn {
        proof {
            assert(sx.len() == 0 && sy.len() == 0);
        }
        return 0;
    }
    proof {
        assert(high_digits(sx) =~= suffix(x@, i + 1));
        assert(high_digits(sy) =~= suffix(y@, i + 1));
    }
    let r = order_from(x, y, i + 1);
    if r != 0 {
        return r;
    }
    let dx: u8 = if i < xn {
        x[i]
    } else {
        0
    };
    let dy: u8 = if i < yn {
        y[i]
    } else {
        0
    };
    proof {
        assert(low_digit(sx) == dx as nat);
        assert(low_digit(sy) == dy as nat);
    }
    if dx < dy {
        -1
    } else if dx > dy {
        1
    } else {
        0
    }
}

/// Compare two little-endian numbers: -1, 0 or 1 as `x` is smaller, equal
/// or larger.
pub fn compare_digits(x: &Vec<u8>, y: &Vec<u8>) -> (r: i8)
    requires
        all_small(x@),
        all_small(y@),
    ensures
        r < 0 <==> le_value(x@) < le_value(y@),
        r == 0 <==> le_value(x@) == le_value(y@),
        r > 0 <==> le_value(x@) > le_value(y@),
{
    let r = order_from(x, y, 0);
    proof {
        assert(suffix(x@, 0) =~= x@);
        assert(suffix(y@, 0) =~= y@);
        lemma_order_digits(x@, y@);
    }
    r
}

} // verus!
