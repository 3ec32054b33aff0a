//! Synced lyrics: the LRC format.
//!
//! Each line may start with bracket groups. `[mm:ss]`, `[mm:ss.x]` and
//! `[mm:ss.xx]` are timestamps (any number of fraction digits is read); a
//! group whose label before the colon is an ID tag (`ti`, `ar`, `al`, `by`,
//! `length`, `offset`, `re`, `ve`) makes the whole line metadata, which is
//! skipped; other groups are ignored. The text after the groups is the lyric.
//! A line with N timestamps gives N lyric lines with the same text; a line
//! with none but with text gives one untimed lyric line. The result is sorted
//! by time, stably, untimed lines last.
//!
//! Times are kept exactly, as whole seconds plus the decimal fraction digits
//! as written, so that ordering them needs no floating point.

use vstd::prelude::*;
use crate::decimal::{
    add_small_digits, all_small, compare_digits, le_value, lemma_numeral_value_digits,
    numeral_value, to_le_digits,
};
use crate::text::{
    all_digits, ascii_lower, chars_of, decimal_value, is_ws, parse_unsigned, parse_unsigned_range,
    range_ascii_lower_eq, substring, trim, trim_range, unsigned_digits,
};

verus! {

// ---------------------------------------------------------------------------
// Types
// ---------------------------------------------------------------------------

/// A timestamp `[mm:ss.fff]`: minutes, the digits of the whole seconds and
/// of the fraction of a second, as written (either possibly empty; the
/// whole seconds may be of any size).
#[derive(Debug, Clone, PartialEq)]
pub struct LrcTime {
    pub minutes: u32,
    pub seconds: String,
    pub fraction: String,
}

/// One line of lyrics, optionally timestamped.
#[derive(Debug, Clone, PartialEq)]
pub struct LyricLine {
    pub time: Option<LrcTime>,
    pub text: String,
}

/// A full set of lyrics: synced (from LRC) or unsynced (embedded).
#[derive(Debug, Clone)]
pub struct Lyrics {
    pub synced: bool,
    pub lines: Vec<LyricLine>,
}

pub struct LrcTimeView {
    pub minutes: nat,
    pub seconds: nat,
    pub fraction: Seq<char>,
}

pub struct LyricLineView {
    pub time: Option<LrcTimeView>,
    pub text: Seq<char>,
}

impl View for LrcTime {
    type V = LrcTimeView;

    open spec fn view(&self) -> LrcTimeView {
        LrcTimeView {
            minutes: self.minutes as nat,
            seconds: numeral_value(self.seconds@),
            fraction: self.fraction@,
        }
    }
}

impl View for LyricLine {
    type V = LyricLineView;

    open spec fn view(&self) -> LyricLineView {
        LyricLineView {
            time: match self.time {
                Some(t) => Some(t@),
                None => None,
            },
            text: self.text@,
        }
    }
}

// ---------------------------------------------------------------------------
// Searching for a character
// ---------------------------------------------------------------------------

/// The first position at or after `i` where `s` holds `c`, or `s.len()`.
pub open spec fn find_from(s: Seq<char>, c: char, i: int) -> int
    decreases s.len() - i,
{
    if i < 0 || i >= s.len() {
        s.len() as int
    } else if s[i] == c {
        i
    } else {
        find_from(s, c, i + 1)
    }
}

pub proof fn lemma_find_from(s: Seq<char>, c: char, i: int)
    requires
        0 <= i <= s.len(),
    ensures
        i <= find_from(s, c, i) <= s.len(),
        find_from(s, c, i) < s.len() ==> s[find_from(s, c, i)] == c,
        forall|j: int| i <= j < find_from(s, c, i) ==> s[j] != c,
    decreases s.len() - i,
{
    if i < s.len() && s[i] != c {
        lemma_find_from(s, c, i + 1);
    }
}

/// The first position in `s[lo..hi]` (absolute) holding `c`, or `hi`.
fn find_char(s: &Vec<char>, lo: usize, hi: usize, c: char) -> (r: usize)
    requires
        lo <= hi <= s@.len(),
    ensures
        r - lo == find_from(s@.subrange(lo as int, hi as int), c, 0),
        lo <= r <= hi,
{
    let ghost t = s@.subrange(lo as int, hi as int);
    let mut k = lo;
    while k < hi && s[k] != c
        invariant
            lo <= k <= hi <= s@.len(),
            t == s@.subrange(lo as int, hi as int),
            find_from(t, c, k - lo) == find_from(t, c, 0),
        decreases hi - k,
    {
        assert(t[k - lo] == s@[k as int]);
        k = k + 1;
    }
    proof {
        if k < hi {
            assert(t[k - lo] == s@[k as int]);
        }
    }
    k
}

// ---------------------------------------------------------------------------
// Timestamps
// ---------------------------------------------------------------------------

/// The seconds field: an optional `+`, decimal digits with at most one `.`,
/// at least one digit. Gives the whole seconds and the fraction digits.
pub open spec fn parse_seconds(s: Seq<char>) -> Option<(nat, Seq<char>)> {
    let d = unsigned_digits(s);
    let dot = find_from(d, '.', 0);
    let whole = d.take(dot);
    let frac = if dot < d.len() {
        d.skip(dot + 1)
    } else {
        Seq::empty()
    };
    if whole.len() + frac.len() > 0 && all_digits(whole) && all_digits(frac) {
        Some((decimal_value(whole), frac))
    } else {
        None
    }
}

/// A timestamp from its minutes text and seconds text.
pub open spec fn parse_time(mm: Seq<char>, ss: Seq<char>) -> Option<LrcTimeView> {
    match parse_unsigned(mm, u32::MAX as nat) {
        Some(m) => match parse_seconds(ss) {
            Some((w, f)) => Some(LrcTimeView { minutes: m, seconds: w, fraction: f }),
            None => None,
        },
        None => None,
    }
}

proof fn lemma_all_digits_subrange(s: Seq<char>, a: int, b: int)
    requires
        0 <= a <= b <= s.len(),
        forall|j: int| a <= j < b ==> crate::text::is_digit(#[trigger] s[j]),
    ensures
        all_digits(s.subrange(a, b)),
{
    assert forall|j: int| 0 <= j < b - a implies crate::text::is_digit(#[trigger] s.subrange(a, b)[j]) by {
        assert(s.subrange(a, b)[j] == s[a + j]);
    }
}

/// Whether every character of `s[lo..hi]` is a decimal digit.
fn range_all_digits(s: &Vec<char>, lo: usize, hi: usize) -> (r: bool)
    requires
        lo <= hi <= s@.len(),
    ensures
        r == all_digits(s@.subrange(lo as int, hi as int)),
{
    let mut k = lo;
    while k < hi
        invariant
            lo <= k <= hi <= s@.len(),
            forall|j: int| lo <= j < k ==> crate::text::is_digit(#[trigger] s@[j]),
        decreases hi - k,
    {
        let c = s[k];
        if !('0' <= c && c <= '9') {
            proof {
                assert(s@.subrange(lo as int, hi as int)[k - lo] == c);
            }
            return false;
        }
        k = k + 1;
    }
    proof {
        lemma_all_digits_subrange(s@, lo as int, hi as int);
    }
    true
}

/// Read the seconds field `s[lo..hi]`; gives the absolute bounds of the
/// whole-second digits and of the fraction digits.
fn parse_seconds_range(s: &Vec<char>, lo: usize, hi: usize) -> (r: Option<(usize, usize, usize, usize)>)
    requires
        lo <= hi <= s@.len(),
    ensures
        r is None <==> parse_seconds(s@.subrange(lo as int, hi as int)) is None,
        r matches Some((wa, wb, fa, fb)) ==> lo <= wa <= wb <= fa <= fb <= hi && all_digits(
            s@.subrange(wa as int, wb as int),
        ) && parse_seconds(s@.subrange(lo as int, hi as int)) == Some(
            (decimal_value(s@.subrange(wa as int, wb as int)), s@.subrange(fa as int, fb as int)),
        ),
{
    let ghost t = s@.subrange(lo as int, hi as int);
    let start = if lo < hi && s[lo] == '+' {
        lo + 1
    } else {
        lo
    };
    let ghost d = s@.subrange(start as int, hi as int);
    assert(d =~= unsigned_digits(t));
    let dot = find_char(s, start, hi, '.');
    let (fa, fb) = if dot < hi {
        (dot + 1, hi)
    } else {
        (hi, hi)
    };
    proof {
        lemma_find_from(d, '.', 0);
        assert(d.take(dot - start) =~= s@.subrange(start as int, dot as int));
        if dot < hi {
            assert(d.skip(dot - start + 1) =~= s@.subrange(fa as int, fb as int));
        } else {
            assert(s@.subrange(fa as int, fb as int) =~= Seq::<char>::empty());
        }
    }
    if (dot - start) + (fb - fa) == 0 {
        return None;
    }
    if !range_all_digits(s, start, dot) || !range_all_digits(s, fa, fb) {
        return None;
    }
    Some((start, dot, fa, fb))
}

// ---------------------------------------------------------------------------
// Bracket groups
// ---------------------------------------------------------------------------

/// Whether a lowercased label names an LRC ID tag.
pub open spec fn is_id_tag(label: Seq<char>) -> bool {
    ||| label == "ti"@
    ||| label == "ar"@
    ||| label == "al"@
    ||| label == "by"@
    ||| label == "length"@
    ||| label == "offset"@
    ||| label == "re"@
    ||| label == "ve"@
}

/// The outcome of reading the leading bracket groups of a line.
pub enum BracketScan {
    /// The line is metadata (an ID tag): skip it.
    IdTag,
    /// The text after the groups, and the timestamps read, in order.
    Done(Seq<char>, Seq<LrcTimeView>),
}

/// Read the leading bracket groups of `s`, having read `acc` so far.
pub open spec fn scan_brackets(s: Seq<char>, acc: Seq<LrcTimeView>) -> BracketScan
    decreases s.len(),
{
    let close = find_from(s, ']', 0);
    if close >= s.len() || s[0] != '[' {
        BracketScan::Done(s, acc)
    } else {
        proof {
            lemma_find_from(s, ']', 0);
        }
        let inner = s.subrange(1, close);
        let rest = s.skip(close + 1);
        let colon = find_from(inner, ':', 0);
        if colon >= inner.len() || colon < 0 {
            scan_brackets(rest, acc)
        } else {
            let label = trim(inner.take(colon));
            if is_id_tag(label.map_values(|c: char| ascii_lower(c))) {
                BracketScan::IdTag
            } else {
                match parse_time(label, trim(inner.skip(colon + 1))) {
                    Some(t) => scan_brackets(rest, acc.push(t)),
                    None => scan_brackets(rest, acc),
                }
            }
        }
    }
}

/// The lyric lines one raw line of text gives.
pub open spec fn line_entries(raw: Seq<char>) -> Seq<LyricLineView> {
    let line = trim(raw);
    if line.len() == 0 {
        Seq::empty()
    } else {
        match scan_brackets(line, Seq::empty()) {
            BracketScan::IdTag => Seq::empty(),
            BracketScan::Done(rest, stamps) => {
                let body = trim(rest);
                if stamps.len() == 0 {
                    if body.len() == 0 {
                        Seq::empty()
                    } else {
                        seq![LyricLineView { time: None, text: body }]
                    }
                } else {
                    stamps.map_values(|t: LrcTimeView| LyricLineView { time: Some(t), text: body })
                }
            },
        }
    }
}

/// Whether the ASCII lowercase of `s[lo..hi]` is an ID tag label.
fn is_id_label(s: &Vec<char>, lo: usize, hi: usize) -> (r: bool)
    requires
        lo <= hi <= s@.len(),
    ensures
        r == is_id_tag(s@.subrange(lo as int, hi as int).map_values(|c: char| ascii_lower(c))),
{
    range_ascii_lower_eq(s, lo, hi, "ti") || range_ascii_lower_eq(s, lo, hi, "ar")
        || range_ascii_lower_eq(s, lo, hi, "al") || range_ascii_lower_eq(s, lo, hi, "by")
        || range_ascii_lower_eq(s, lo, hi, "length") || range_ascii_lower_eq(s, lo, hi, "offset")
        || range_ascii_lower_eq(s, lo, hi, "re") || range_ascii_lower_eq(s, lo, hi, "ve")
}

/// The views of a list of timestamps.
pub open spec fn times_view(v: Seq<LrcTime>) -> Seq<LrcTimeView> {
    v.map_values(|t: LrcTime| t@)
}

/// Read the leading bracket groups of the line `s[lo..hi]` (the characters
/// of `text`): `None` for an ID tag line, otherwise where the lyric text
/// starts and the timestamps read.
fn scan_line(text: &str, s: &Vec<char>, lo: usize, hi: usize) -> (r: Option<(usize, Vec<LrcTime>)>)
    requires
        s@ == text@,
        lo <= hi <= s@.len(),
    ensures
        r is None <==> scan_brackets(s@.subrange(lo as int, hi as int), Seq::empty()) is IdTag,
        r matches Some((start, stamps)) ==> lo <= start <= hi && scan_brackets(
            s@.subrange(lo as int, hi as int),
            Seq::empty(),
        ) == BracketScan::Done(s@.subrange(start as int, hi as int), times_view(stamps@)),
{
    let ghost goal = scan_brackets(s@.subrange(lo as int, hi as int), Seq::empty());
    let mut stamps: Vec<LrcTime> = Vec::new();
    let mut cur = lo;
    proof {
        assert(times_view(stamps@) =~= Seq::<LrcTimeView>::empty());
    }
    loop
        invariant
            s@ == text@,
            lo <= cur <= hi <= s@.len(),
            goal == scan_brackets(s@.subrange(lo as int, hi as int), Seq::empty()),
            scan_brackets(s@.subrange(cur as int, hi as int), times_view(stamps@)) == goal,
        decreases hi - cur,
    {
        let ghost t = s@.subrange(cur as int, hi as int);
        let close = find_char(s, cur, hi, ']');
        proof {
            lemma_find_from(t, ']', 0);
        }
        if close >= hi || s[cur] != '[' {
            return Some((cur, stamps));
        }
        assert(t[0] == s@[cur as int]);
        let ilo = cur + 1;
        let ihi = close;
        assert(t[close - cur] == s@[close as int]);
        let ghost inner = t.subrange(1, close - cur);
        assert(inner =~= s@.subrange(ilo as int, ihi as int));
        assert(t.skip(close - cur + 1) =~= s@.subrange(close + 1, hi as int));
        let colon = find_char(s, ilo, ihi, ':');
        proof {
            lemma_find_from(inner, ':', 0);
        }
        if colon < ihi {
            assert(inner.take(colon - ilo) =~= s@.subrange(ilo as int, colon as int));
            assert(inner.skip(colon - ilo + 1) =~= s@.subrange(colon + 1, ihi as int));
            let (la, lb) = trim_range(s, ilo, colon);
            if is_id_label(s, la, lb) {
                return None;
            }
            let (ta, tb) = trim_range(s, colon + 1, ihi);
            match parse_unsigned_range(s, la, lb, 0xffff_ffffu64) {
                Some(m) => match parse_seconds_range(s, ta, tb) {
                    Some((wa, wb, fa, fb)) => {
                        let whole = substring(text, wa, wb);
                        let frac = substring(text, fa, fb);
                        let ghost old_stamps = stamps@;
                        proof {
                            lemma_numeral_value_digits(s@.subrange(wa as int, wb as int));
                        }
                        stamps.push(LrcTime { minutes: m as u32, seconds: whole, fraction: frac });
                        proof {
                            assert(times_view(stamps@) =~= times_view(old_stamps).push(
                                stamps@.last()@,
                            ));
                        }
                    },
                    None => {},
                },
                None => {},
            }
        }
        cur = close + 1;
    }
}

/// The views of a list of lyric lines.
pub open spec fn lines_view(v: Seq<LyricLine>) -> Seq<LyricLineView> {
    v.map_values(|l: LyricLine| l@)
}

/// The lyric lines of the raw line `s[lo..hi]` (the characters of `text`).
fn line_lyrics(text: &str, s: &Vec<char>, lo: usize, hi: usize) -> (r: Vec<LyricLine>)
    requires
        s@ == text@,
        lo <= hi <= s@.len(),
    ensures
        lines_view(r@) == line_entries(s@.subrange(lo as int, hi as int)),
{
    let mut out: Vec<LyricLine> = Vec::new();
    let (a, b) = trim_range(s, lo, hi);
    if a == b {
        proof {
            assert(lines_view(out@) =~= Seq::<LyricLineView>::empty());
        }
        return out;
    }
    match scan_line(text, s, a, b) {
        None => {
            proof {
                assert(lines_view(out@) =~= Seq::<LyricLineView>::empty());
            }
            out
        },
        Some((start, stamps)) => {
            let (ba, bb) = trim_range(s, start, b);
            if stamps.len() == 0 {
                if ba != bb {
                    out.push(LyricLine { time: None, text: substring(text, ba, bb) });
                }
                proof {
                    if ba == bb {
                        assert(lines_view(out@) =~= Seq::<LyricLineView>::empty());
                    } else {
                        assert(lines_view(out@) =~= seq![
                            LyricLineView { time: None, text: s@.subrange(ba as int, bb as int) },
                        ]);
                    }
                }
                out
            } else {
                let ghost body = s@.subrange(ba as int, bb as int);
                let ghost want = times_view(stamps@).map_values(
                    |t: LrcTimeView| LyricLineView { time: Some(t), text: body },
                );
                let mut i: usize = 0;
                while i < stamps.len()
                    invariant
                        s@ == text@,
                        ba <= bb <= s@.len(),
                        body == s@.subrange(ba as int, bb as int),
                        want == times_view(stamps@).map_values(
                            |t: LrcTimeView| LyricLineView { time: Some(t), text: body },
                        ),
                        i <= stamps@.len(),
                        lines_view(out@) =~= want.take(i as int),
                    decreases stamps@.len() - i,
                {
                    let st = &stamps[i];
                    let t = LrcTime {
                        minutes: st.minutes,
                        seconds: st.seconds.clone(),
                        fraction: st.fraction.clone(),
                    };
                    out.push(LyricLine { time: Some(t), text: substring(text, ba, bb) });
                    proof {
                        assert(want.take(i + 1) =~= want.take(i as int).push(want[i as int]));
                    }
                    i = i + 1;
                }
                proof {
                    assert(want.take(stamps@.len() as int) =~= want);
                }
                out
            }
        },
    }
}

/// The lyric lines of `t`, reading its lines from position `i` on; lines
/// end at `\n` (a `\r` before it is whitespace and so trimmed away).
pub open spec fn entries_from(t: Seq<char>, i: int) -> Seq<LyricLineView>
    decreases t.len() + 1 - i,
{
    if i < 0 || i > t.len() {
        Seq::empty()
    } else {
        proof {
            lemma_find_from(t, '\n', i);
        }
        let j = find_from(t, '\n', i);
        line_entries(t.subrange(i, j)) + entries_from(t, j + 1)
    }
}

// ---------------------------------------------------------------------------
// Ordering
// ---------------------------------------------------------------------------

/// The `i`th fraction digit of `f`, zero past its end.
pub open spec fn frac_digit(f: Seq<char>, i: int) -> nat {
    if 0 <= i < f.len() && crate::text::is_digit(f[i]) {
        crate::text::digit_value(f[i])
    } else {
        0
    }
}

/// The fractions agree before digit `i` and `f` is smaller at `i`.
pub open spec fn frac_lt_at(f: Seq<char>, g: Seq<char>, i: int) -> bool {
    &&& forall|j: int| 0 <= j < i ==> #[trigger] frac_digit(f, j) == frac_digit(g, j)
    &&& frac_digit(f, i) < frac_digit(g, i)
}

/// The decimal fraction `0.f` is smaller than `0.g`.
pub open spec fn frac_lt(f: Seq<char>, g: Seq<char>) -> bool {
    exists|i: int| 0 <= i && #[trigger] frac_lt_at(f, g, i)
}

/// Whole seconds of a timestamp.
pub open spec fn whole_seconds(t: LrcTimeView) -> int {
    (t.minutes * 60 + t.seconds) as int
}

/// Timestamp `a` is strictly earlier than `b`.
pub open spec fn time_lt(a: LrcTimeView, b: LrcTimeView) -> bool {
    ||| whole_seconds(a) < whole_seconds(b)
    ||| (whole_seconds(a) == whole_seconds(b) && frac_lt(a.fraction, b.fraction))
}

/// Line `a` sorts strictly after line `b`: later time, or untimed after timed.
pub open spec fn goes_after(a: LyricLineView, b: LyricLineView) -> bool {
    match (a.time, b.time) {
        (Some(x), Some(y)) => time_lt(y, x),
        (None, Some(_)) => true,
        _ => false,
    }
}

/// Insert `x` into `s` before the first element that sorts after it.
pub open spec fn insert_stable(s: Seq<LyricLineView>, x: LyricLineView) -> Seq<LyricLineView>
    decreases s.len(),
{
    if s.len() == 0 {
        seq![x]
    } else if goes_after(s[0], x) {
        seq![x] + s
    } else {
        seq![s[0]] + insert_stable(s.drop_first(), x)
    }
}

/// The stable sort of `s` by time, untimed lines last.
pub open spec fn sort_stable(s: Seq<LyricLineView>) -> Seq<LyricLineView>
    decreases s.len(),
{
    if s.len() == 0 {
        s
    } else {
        insert_stable(sort_stable(s.drop_last()), s.last())
    }
}

/// The lyric lines of an LRC text, sorted.
pub open spec fn parse_lrc_spec(t: Seq<char>) -> Seq<LyricLineView> {
    sort_stable(entries_from(t, 0))
}

/// The digit at `i` of a fraction, zero past its end.
fn frac_digit_at(f: &Vec<char>, i: usize) -> (r: u32)
    ensures
        r as nat == frac_digit(f@, i as int),
{
    if i < f.len() {
        let c = f[i];
        if '0' <= c && c <= '9' {
            (c as u32) - ('0' as u32)
        } else {
            0
        }
    } else {
        0
    }
}

/// Whether the fraction `0.f` is smaller than `0.g`.
fn frac_less(f: &str, g: &str) -> (r: bool)
    ensures
        r == frac_lt(f@, g@),
{
    let fs = chars_of(f);
    let gs = chars_of(g);
    let m = if fs.len() >= gs.len() {
        fs.len()
    } else {
        gs.len()
    };
    let mut i: usize = 0;
    while i < m
        invariant
            fs@ == f@,
            gs@ == g@,
            m >= fs@.len(),
            m >= gs@.len(),
            i <= m,
            forall|j: int| 0 <= j < i ==> #[trigger] frac_digit(f@, j) == frac_digit(g@, j),
        decreases m - i,
    {
        let a = frac_digit_at(&fs, i);
        let b = frac_digit_at(&gs, i);
        if a < b {
            assert(frac_lt_at(f@, g@, i as int));
            return true;
        }
        if a > b {
            proof {
                assert forall|k: int| 0 <= k implies !#[trigger] frac_lt_at(f@, g@, k) by {
                    if k > i {
                        assert(frac_digit(f@, i as int) != frac_digit(g@, i as int));
                    }
                }
            }
            return false;
        }
        i = i + 1;
    }
    proof {
        assert forall|k: int| 0 <= k implies !#[trigger] frac_lt_at(f@, g@, k) by {
            if k >= m {
                assert(frac_digit(f@, k) == 0);
                assert(frac_digit(g@, k) == 0);
            }
        }
    }
    false
}

/// The whole seconds of a timestamp (minutes included) as little-endian
/// digits.
fn whole_seconds_digits(t: &LrcTime) -> (r: Vec<u8>)
    ensures
        le_value(r@) == whole_seconds(t@),
        all_small(r@),
{
    let cs = chars_of(t.seconds.as_str());
    let le = to_le_digits(&cs, 0, cs.len());
    proof {
        assert(cs@.subrange(0, cs@.len() as int) =~= t.seconds@);
    }
    let m = (t.minutes as u64) * 60;
    add_small_digits(&le, m)
}

/// Whether timestamp `a` is strictly earlier than `b`.
fn time_less(a: &LrcTime, b: &LrcTime) -> (r: bool)
    ensures
        r == time_lt(a@, b@),
{
    let ka = whole_seconds_digits(a);
    let kb = whole_seconds_digits(b);
    let c = compare_digits(&ka, &kb);
    if c < 0 {
        true
    } else if c == 0 {
        frac_less(a.fraction.as_str(), b.fraction.as_str())
    } else {
        false
    }
}

/// Whether line `a` sorts strictly after line `b`.
fn sorts_after(a: &LyricLine, b: &LyricLine) -> (r: bool)
    ensures
        r == goes_after(a@, b@),
{
    match (&a.time, &b.time) {
        (Some(x), Some(y)) => time_less(y, x),
        (None, Some(_)) => true,
        _ => false,
    }
}

proof fn lemma_insert_stable_at(s: Seq<LyricLineView>, x: LyricLineView, k: int)
    requires
        0 <= k <= s.len(),
        forall|j: int| 0 <= j < k ==> !goes_after(#[trigger] s[j], x),
        k < s.len() ==> goes_after(s[k], x),
    ensures
        insert_stable(s, x) == s.insert(k, x),
    decreases s.len(),
{
    if s.len() == 0 {
        assert(s.insert(k, x) =~= seq![x]);
    } else if k == 0 {
        assert(s.insert(k, x) =~= seq![x] + s);
    } else {
        assert(!goes_after(s[0], x));
        let t = s.drop_first();
        assert forall|j: int| 0 <= j < k - 1 implies !goes_after(#[trigger] t[j], x) by {
            assert(t[j] == s[j + 1]);
        }
        if k - 1 < t.len() {
            assert(t[k - 1] == s[k]);
        }
        lemma_insert_stable_at(t, x, k - 1);
        assert(s.insert(k, x) =~= seq![s[0]] + t.insert(k - 1, x));
    }
}

/// Parse an LRC text into lyric lines, sorted by time (stably, untimed
/// lines last). Never fails: unrecognised bracket groups are ignored.
pub fn parse_lrc(text: &str) -> (r: Vec<LyricLine>)
    ensures
        lines_view(r@) == parse_lrc_spec(text@),
{
    let s = chars_of(text);
    let n = s.len();
    let ghost all = entries_from(s@, 0);
    let mut entries: Vec<LyricLine> = Vec::new();
    let mut i: usize = 0;
    loop
        invariant_except_break
            lines_view(entries@) + entries_from(s@, i as int) == all,
        invariant
            s@ == text@,
            n == s@.len(),
            i <= n,
            all == entries_from(s@, 0),
        ensures
            lines_view(entries@) == all,
        decreases n - i,
    {
        let j = find_char(&s, i, n, '\n');
        proof {
            lemma_find_from(s@, '\n', i as int);
            lemma_find_from(s@.subrange(i as int, n as int), '\n', 0);
            let sub = s@.subrange(i as int, n as int);
            let f = find_from(s@, '\n', i as int);
            if f < j {
                assert(sub[f - i] == s@[f]);
            } else if j < f {
                if j < n {
                    assert(sub[j - i] == s@[j as int]);
                }
            }
        }
        let mut line = line_lyrics(text, &s, i, j);
        let ghost before = entries@;
        entries.append(&mut line);
        proof {
            assert(lines_view(entries@) =~= lines_view(before) + line_entries(
                s@.subrange(i as int, j as int),
            ));
            assert(lines_view(entries@) + entries_from(s@, j + 1) =~= lines_view(before)
                + entries_from(s@, i as int));
        }
        if j >= n {
            proof {
                assert(entries_from(s@, j + 1) =~= Seq::<LyricLineView>::empty());
                assert(lines_view(entries@) =~= all);
            }
            break;
        }
        i = j + 1;
    }
    let ghost unsorted = lines_view(entries@);
    let mut sorted: Vec<LyricLine> = Vec::new();
    let total = entries.len();
    let mut k: usize = 0;
    let mut rest = entries;
    proof {
        assert(lines_view(sorted@) =~= sort_stable(unsorted.take(0)));
    }
    while rest.len() > 0
        invariant
            k + rest@.len() == total,
            unsorted.len() == total,
            lines_view(rest@) =~= unsorted.skip(k as int),
            lines_view(sorted@) == sort_stable(unsorted.take(k as int)),
        decreases rest@.len(),
    {
        let ghost old_rest = rest@;
        let x = rest.remove(0);
        proof {
            assert(x@ == lines_view(old_rest)[0]);
            assert(lines_view(old_rest)[0] == unsorted[k as int]);
            assert(lines_view(rest@) =~= lines_view(old_rest).drop_first());
            assert(unsorted.skip(k + 1) =~= unsorted.skip(k as int).drop_first());
        }
        let mut p: usize = 0;
        while p < sorted.len() && !sorts_after(&sorted[p], &x)
            invariant
                p <= sorted@.len(),
                forall|j: int| 0 <= j < p ==> !goes_after(#[trigger] lines_view(sorted@)[j], x@),
            decreases sorted@.len() - p,
        {
            p = p + 1;
        }
        proof {
            lemma_insert_stable_at(lines_view(sorted@), x@, p as int);
            assert(unsorted.take(k + 1).drop_last() =~= unsorted.take(k as int));
            assert(unsorted.take(k + 1).last() == x@);
        }
        let ghost old_sorted = sorted@;
        sorted.insert(p, x);
        proof {
            assert(lines_view(sorted@) =~= lines_view(old_sorted).insert(p as int, x@));
        }
        k = k + 1;
    }
    proof {
        assert(unsorted.take(k as int) =~= unsorted);
    }
    sorted
}

// ---------------------------------------------------------------------------
// Laws of the ordering
// ---------------------------------------------------------------------------

/// No line of `s` sorts after a line that comes later in `s`.
pub open spec fn is_sorted(s: Seq<LyricLineView>) -> bool {
    forall|i: int, j: int| 0 <= i < j < s.len() ==> !goes_after(#[trigger] s[i], #[trigger] s[j])
}

proof fn lemma_frac_lt_transitive(f: Seq<char>, g: Seq<char>, h: Seq<char>)
    requires
        frac_lt(f, g),
        frac_lt(g, h),
    ensures
        frac_lt(f, h),
{
    let i = choose|i: int| 0 <= i && #[trigger] frac_lt_at(f, g, i);
    let j = choose|j: int| 0 <= j && #[trigger] frac_lt_at(g, h, j);
    let m = if i < j {
        i
    } else {
        j
    };
    assert forall|k: int| 0 <= k < m implies #[trigger] frac_digit(f, k) == frac_digit(h, k) by {
        assert(frac_digit(f, k) == frac_digit(g, k));
        assert(frac_digit(g, k) == frac_digit(h, k));
    }
    if i < j {
        assert(frac_digit(g, i) == frac_digit(h, i));
    } else if j < i {
        assert(frac_digit(f, j) == frac_digit(g, j));
    }
    assert(frac_lt_at(f, h, m));
}

/// Sorting after is a strict order: irreflexive and transitive.
pub proof fn lemma_goes_after_strict_order(a: LyricLineView, b: LyricLineView, c: LyricLineView)
    ensures
        !goes_after(a, a),
        goes_after(a, b) && goes_after(b, c) ==> goes_after(a, c),
{
    if let (Some(x), Some(y), Some(z)) = (a.time, b.time, c.time) {
        if goes_after(a, b) && goes_after(b, c) {
            if whole_seconds(z) == whole_seconds(y) && whole_seconds(y) == whole_seconds(x) {
                lemma_frac_lt_transitive(z.fraction, y.fraction, x.fraction);
            }
        }
    }
}

proof fn lemma_insert_stable_sorted(s: Seq<LyricLineView>, x: LyricLineView)
    requires
        is_sorted(s),
    ensures
        is_sorted(insert_stable(s, x)),
        insert_stable(s, x).to_multiset() =~= s.to_multiset().insert(x),
    decreases s.len(),
{
    broadcast use vstd::seq_lib::group_to_multiset_ensures;

    if s.len() == 0 {
        assert(insert_stable(s, x) =~= seq![x]);
        assert(seq![x] =~= Seq::<LyricLineView>::empty().push(x));
    } else if goes_after(s[0], x) {
        let r = seq![x] + s;
        assert forall|i: int, j: int| 0 <= i < j < r.len() implies !goes_after(
            #[trigger] r[i],
            #[trigger] r[j],
        ) by {
            if i == 0 {
                lemma_goes_after_strict_order(s[0], x, s[j - 1]);
                lemma_goes_after_strict_order(x, s[0], s[j - 1]);
                if j - 1 > 0 {
                    assert(!goes_after(s[0], s[j - 1]));
                }
                lemma_goes_after_strict_order(s[0], s[0], s[0]);
            } else {
                assert(r[i] == s[i - 1] && r[j] == s[j - 1]);
            }
        }
        vstd::seq_lib::lemma_multiset_commutative(seq![x], s);
        assert(seq![x] =~= Seq::<LyricLineView>::empty().push(x));
    } else {
        let t = s.drop_first();
        assert(is_sorted(t)) by {
            assert forall|i: int, j: int| 0 <= i < j < t.len() implies !goes_after(
                #[trigger] t[i],
                #[trigger] t[j],
            ) by {
                assert(t[i] == s[i + 1] && t[j] == s[j + 1]);
            }
        }
        lemma_insert_stable_sorted(t, x);
        let it = insert_stable(t, x);
        let r = seq![s[0]] + it;
        assert forall|i: int, j: int| 0 <= i < j < r.len() implies !goes_after(
            #[trigger] r[i],
            #[trigger] r[j],
        ) by {
            if i == 0 {
                let e = it[j - 1];
                assert(it.to_multiset().count(e) > 0);
                assert(t.to_multiset().insert(x).count(e) > 0);
                if e != x {
                    assert(t.to_multiset().count(e) > 0);
                    assert(t.contains(e));
                    let w = choose|w: int| 0 <= w < t.len() && t[w] == e;
                    assert(s[w + 1] == e);
                }
            } else {
                assert(r[i] == it[i - 1] && r[j] == it[j - 1]);
            }
        }
        vstd::seq_lib::lemma_multiset_commutative(seq![s[0]], it);
        vstd::seq_lib::lemma_multiset_commutative(seq![s[0]], t);
        assert(s =~= seq![s[0]] + t);
    }
}

/// The sort puts lines in order of time, untimed lines last, and neither
/// loses nor duplicates a line.
pub proof fn lemma_sort_stable_sorted_permutation(s: Seq<LyricLineView>)
    ensures
        is_sorted(sort_stable(s)),
        sort_stable(s).to_multiset() =~= s.to_multiset(),
    decreases s.len(),
{
    broadcast use vstd::seq_lib::group_to_multiset_ensures;

    if s.len() > 0 {
        lemma_sort_stable_sorted_permutation(s.drop_last());
        lemma_insert_stable_sorted(sort_stable(s.drop_last()), s.last());
        assert(s =~= s.drop_last().push(s.last()));
    }
}

/// The lines `parse_lrc` returns are in time order, untimed lines last, and
/// are exactly the lines the text holds.
pub proof fn lemma_parse_lrc_sorted(t: Seq<char>)
    ensures
        is_sorted(parse_lrc_spec(t)),
        parse_lrc_spec(t).to_multiset() =~= entries_from(t, 0).to_multiset(),
{
    lemma_sort_stable_sorted_permutation(entries_from(t, 0));
}

/// Neither line sorts after the other: they share a time (or are both
/// untimed).
pub open spec fn ties(a: LyricLineView, b: LyricLineView) -> bool {
    !goes_after(a, b) && !goes_after(b, a)
}

/// The lines that tie with `k`.
pub open spec fn ties_with(k: LyricLineView) -> spec_fn(LyricLineView) -> bool {
    |x: LyricLineView| ties(x, k)
}

proof fn lemma_frac_lt_negative_transitive(y: Seq<char>, x: Seq<char>, z: Seq<char>, i: int, j: int)
    requires
        0 <= j <= i,
        frac_lt_at(y, x, i),
        forall|m: int| 0 <= m < j ==> #[trigger] frac_digit(z, m) == frac_digit(y, m),
    ensures
        frac_lt(z, x) || frac_lt(y, z),
    decreases i - j,
{
    if j == i {
        if frac_digit(z, i) < frac_digit(x, i) {
            assert forall|m: int| 0 <= m < i implies #[trigger] frac_digit(z, m) == frac_digit(x, m) by {
                assert(frac_digit(y, m) == frac_digit(x, m));
            }
            assert(frac_lt_at(z, x, i));
        } else {
            assert(frac_lt_at(y, z, i));
        }
    } else if frac_digit(z, j) == frac_digit(y, j) {
        lemma_frac_lt_negative_transitive(y, x, z, i, j + 1);
    } else if frac_digit(z, j) < frac_digit(y, j) {
        assert(frac_digit(y, j) == frac_digit(x, j));
        assert forall|m: int| 0 <= m < j implies #[trigger] frac_digit(z, m) == frac_digit(x, m) by {
            assert(frac_digit(y, m) == frac_digit(x, m));
        }
        assert(frac_lt_at(z, x, j));
    } else {
        assert forall|m: int| 0 <= m < j implies #[trigger] frac_digit(y, m) == frac_digit(z, m) by {
        }
        assert(frac_lt_at(y, z, j));
    }
}

/// If `a` sorts after `b`, then any `c` sorts before `a` or after `b`.
proof fn lemma_goes_after_negative_transitive(a: LyricLineView, b: LyricLineView, c: LyricLineView)
    requires
        goes_after(a, b),
    ensures
        goes_after(a, c) || goes_after(c, b),
{
    if let (Some(x), Some(y), Some(z)) = (a.time, b.time, c.time) {
        if whole_seconds(z) < whole_seconds(x) || whole_seconds(y) < whole_seconds(z) {
        } else {
            let i = choose|i: int| 0 <= i && #[trigger] frac_lt_at(y.fraction, x.fraction, i);
            lemma_frac_lt_negative_transitive(y.fraction, x.fraction, z.fraction, i, 0);
        }
    }
}

proof fn lemma_insert_stable_keeps_ties(t: Seq<LyricLineView>, x: LyricLineView, k: LyricLineView)
    requires
        is_sorted(t),
    ensures
        insert_stable(t, x).filter(ties_with(k)) == if ties(x, k) {
            t.filter(ties_with(k)).push(x)
        } else {
            t.filter(ties_with(k))
        },
    decreases t.len(),
{
    let p = ties_with(k);
    if t.len() == 0 {
        Seq::<LyricLineView>::empty().lemma_filter_push(x, p);
        assert(seq![x] =~= Seq::<LyricLineView>::empty().push(x));
        reveal(Seq::filter);
    } else if goes_after(t[0], x) {
        t.lemma_filter_prepend(x, p);
        if ties(x, k) {
            assert(t.filter(p) =~= Seq::<LyricLineView>::empty()) by {
                assert forall|j: int| 0 <= j < t.len() implies !p(#[trigger] t[j]) by {
                    if j > 0 {
                        assert(!goes_after(t[0], t[j]));
                    } else {
                        lemma_goes_after_strict_order(t[0], t[0], t[0]);
                    }
                    lemma_goes_after_negative_transitive(t[0], x, t[j]);
                    lemma_goes_after_negative_transitive(t[j], x, k);
                }
                if t.filter(p).len() > 0 {
                    let e = t.filter(p)[0];
                    t.lemma_filter_pred(p, 0);
                    assert(t.filter(p).contains(e));
                    t.lemma_filter_contains_rev(p, e);
                    assert(t.contains(e));
                    let w = choose|w: int| 0 <= w < t.len() && t[w] == e;
                    assert(p(t[w]));
                }
            }
            assert(seq![x] + Seq::<LyricLineView>::empty() =~= Seq::<LyricLineView>::empty().push(x));
        } else {
            assert(Seq::<LyricLineView>::empty() + t.filter(p) =~= t.filter(p));
        }
    } else {
        let u = t.drop_first();
        assert(is_sorted(u)) by {
            assert forall|i: int, j: int| 0 <= i < j < u.len() implies !goes_after(
                #[trigger] u[i],
                #[trigger] u[j],
            ) by {
                assert(u[i] == t[i + 1] && u[j] == t[j + 1]);
            }
        }
        lemma_insert_stable_keeps_ties(u, x, k);
        let iu = insert_stable(u, x);
        iu.lemma_filter_prepend(t[0], p);
        u.lemma_filter_prepend(t[0], p);
        assert(t =~= seq![t[0]] + u);
        let head = if p(t[0]) {
            seq![t[0]]
        } else {
            Seq::empty()
        };
        if ties(x, k) {
            assert(head + u.filter(p).push(x) =~= (head + u.filter(p)).push(x));
        }
    }
}

/// The sort is stable: the lines that tie with any line `k` come out in the
/// order they went in.
pub proof fn lemma_sort_stable_keeps_ties_in_order(s: Seq<LyricLineView>, k: LyricLineView)
    ensures
        sort_stable(s).filter(ties_with(k)) == s.filter(ties_with(k)),
    decreases s.len(),
{
    if s.len() > 0 {
        lemma_sort_stable_keeps_ties_in_order(s.drop_last(), k);
        lemma_sort_stable_sorted_permutation(s.drop_last());
        lemma_insert_stable_keeps_ties(sort_stable(s.drop_last()), s.last(), k);
        s.drop_last().lemma_filter_push(s.last(), ties_with(k));
        assert(s.drop_last().push(s.last()) =~= s);
    }
}

/// `parse_lrc` keeps lines with equal times (and the untimed lines) in the
/// order of the text.
pub proof fn lemma_parse_lrc_keeps_equal_times_in_order(t: Seq<char>, k: LyricLineView)
    ensures
        parse_lrc_spec(t).filter(ties_with(k)) == entries_from(t, 0).filter(ties_with(k)),
{
    lemma_sort_stable_keeps_ties_in_order(entries_from(t, 0), k);
}

} // verus!
