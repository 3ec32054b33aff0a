//! The command language of the interactive shell: one line in, one
//! `Command` out, with no I/O and no state.

use vstd::prelude::*;
use crate::text::{
    ascii_lower, lemma_trim_idempotent, push_char, chars_of, is_whitespace, is_ws, parse_unsigned, parse_unsigned_range, str_eq, substring, trim,
    trim_range,
};

verus! {

/// What `str::to_lowercase` gives for a string (full Unicode lowercasing).
pub uninterp spec fn spec_to_lowercase(s: Seq<char>) -> Seq<char>;

/// `str::to_lowercase`: the claim is only that the result is a fixed
/// function of the characters of `s`, named `spec_to_lowercase`.
#[verifier::external_body]
pub(crate) fn to_lowercase(s: &str) -> (r: String)
    ensures
        r@ == spec_to_lowercase(s@),
{
    s.to_lowercase()
}

/// What `format!("{:?}", s)` gives for a string: the quoted, escaped form.
pub uninterp spec fn spec_debug_str(s: Seq<char>) -> Seq<char>;

/// `<str as Debug>::fmt` through `format!`: the claim is only that the
/// result is a fixed function of the characters of `s`, named `spec_debug_str`.
#[verifier::external_body]
pub(crate) fn debug_str(s: &str) -> (r: String)
    ensures
        r@ == spec_debug_str(s@),
{
    format!("{:?}", s)
}

/// A parsed shell command.
#[derive(Debug, PartialEq)]
pub enum Command {
    /// `scan [dir]`
    Scan(Option<String>),
    /// `list [n]`
    List(usize),
    /// `search <query>`
    Search(String),
    /// `play <i>` (1-based index)
    Play(usize),
    Pause,
    Resume,
    Stop,
    Next,
    Prev,
    Status,
    Help,
    Quit,
    Unknown(String),
}

/// A command with its strings as character sequences.
pub enum CommandView {
    Scan(Option<Seq<char>>),
    List(nat),
    Search(Seq<char>),
    Play(nat),
    Pause,
    Resume,
    Stop,
    Next,
    Prev,
    Status,
    Help,
    Quit,
    Unknown(Seq<char>),
}

impl View for Command {
    type V = CommandView;

    open spec fn view(&self) -> CommandView {
        match self {
            Command::Scan(d) => CommandView::Scan(
                match d {
                    Some(s) => Some(s@),
                    None => None,
                },
            ),
            Command::List(n) => CommandView::List(*n as nat),
            Command::Search(q) => CommandView::Search(q@),
            Command::Play(i) => CommandView::Play(*i as nat),
            Command::Pause => CommandView::Pause,
            Command::Resume => CommandView::Resume,
            Command::Stop => CommandView::Stop,
            Command::Next => CommandView::Next,
            Command::Prev => CommandView::Prev,
            Command::Status => CommandView::Status,
            Command::Help => CommandView::Help,
            Command::Quit => CommandView::Quit,
            Command::Unknown(s) => CommandView::Unknown(s@),
        }
    }
}

/// Default count for `list`.
pub const DEFAULT_LIST_COUNT: usize = 30usize;

/// The command named by the lowercased verb `verb` with argument text `rest`.
pub open spec fn command_for(verb: Seq<char>, rest: Seq<char>) -> CommandView {
    if verb == "scan"@ {
        CommandView::Scan(
            if rest.len() == 0 {
                None
            } else {
                Some(rest)
            },
        )
    } else if verb == "list"@ {
        CommandView::List(
            if rest.len() == 0 {
                30
            } else {
                match parse_unsigned(rest, usize::MAX as nat) {
                    Some(n) => n,
                    None => 30,
                }
            },
        )
    } else if verb == "search"@ {
        if rest.len() == 0 {
            CommandView::Unknown("search requires a query"@)
        } else {
            CommandView::Search(rest)
        }
    } else if verb == "play"@ {
        match parse_unsigned(rest, usize::MAX as nat) {
            Some(i) if i > 0 => CommandView::Play(i),
            _ => CommandView::Unknown(
                "play requires a positive integer, got "@ + spec_debug_str(rest),
            ),
        }
    } else if verb == "pause"@ {
        CommandView::Pause
    } else if verb == "resume"@ {
        CommandView::Resume
    } else if verb == "stop"@ {
        CommandView::Stop
    } else if verb == "next"@ {
        CommandView::Next
    } else if verb == "prev"@ || verb == "previous"@ {
        CommandView::Prev
    } else if verb == "status"@ {
        CommandView::Status
    } else if verb == "help"@ || verb == "?"@ {
        CommandView::Help
    } else if verb == "quit"@ || verb == "exit"@ || verb == "q"@ {
        CommandView::Quit
    } else {
        CommandView::Unknown(verb)
    }
}

/// `k` is the first whitespace position of `t`.
pub open spec fn first_ws_at(t: Seq<char>, k: int) -> bool {
    &&& 0 <= k < t.len()
    &&& is_ws(t[k])
    &&& forall|j: int| 0 <= j < k ==> !is_ws(#[trigger] t[j])
}

/// Split a trimmed line at its first whitespace into the verb and the
/// trimmed rest; a line without whitespace is all verb.
pub open spec fn split_verb(t: Seq<char>) -> (Seq<char>, Seq<char>) {
    if exists|k: int| first_ws_at(t, k) {
        let k = choose|k: int| first_ws_at(t, k);
        (t.take(k), trim(t.skip(k)))
    } else {
        (t, Seq::empty())
    }
}

/// All characters are ASCII.
pub open spec fn is_ascii_text(s: Seq<char>) -> bool {
    forall|i: int| 0 <= i < s.len() ==> (#[trigger] s[i] as u32) < 128
}

/// `s` with its ASCII letters folded to lowercase, other characters kept.
pub open spec fn ascii_fold(s: Seq<char>) -> Seq<char> {
    s.map_values(|c: char| ascii_lower(c))
}

/// The lowercase form of a text, as `str::to_lowercase` gives it: ASCII
/// text is folded letter by letter; other text has its ASCII letters folded
/// first and then goes through `str::to_lowercase` (which lowercases ASCII
/// letters to the same letters, and whose context rules treat an ASCII
/// letter as cased in either case, so folding first changes nothing).
pub open spec fn lowercase_spec(v: Seq<char>) -> Seq<char> {
    if is_ascii_text(v) {
        ascii_fold(v)
    } else {
        spec_to_lowercase(ascii_fold(v))
    }
}

/// The verb as it is matched.
pub open spec fn verb_lowercase(v: Seq<char>) -> Seq<char> {
    lowercase_spec(v)
}

/// The command a line denotes.
pub open spec fn parse_spec(line: Seq<char>) -> CommandView {
    let (verb, rest) = split_verb(trim(line));
    command_for(verb_lowercase(verb), rest)
}

/// Lowercase a text (see `lowercase_spec`).
pub(crate) fn lowercase(text: &str) -> (r: String)
    ensures
        r@ == lowercase_spec(text@),
{
    let cs = chars_of(text);
    let mut ascii = true;
    let mut folded = String::new();
    let mut k: usize = 0;
    while k < cs.len()
        invariant
            cs@ == text@,
            k <= cs@.len(),
            folded@ == ascii_fold(cs@.take(k as int)),
            ascii == forall|j: int| 0 <= j < k ==> (#[trigger] cs@[j] as u32) < 128,
        decreases cs@.len() - k,
    {
        let c = cs[k];
        if (c as u32) >= 128 {
            ascii = false;
        }
        let lc = if 'A' <= c && c <= 'Z' {
            ((c as u8) + 32u8) as char
        } else {
            c
        };
        push_char(&mut folded, lc);
        proof {
            assert(folded@ =~= ascii_fold(cs@.take(k + 1)));
        }
        k = k + 1;
    }
    proof {
        assert(cs@.take(cs@.len() as int) =~= cs@);
    }
    if ascii {
        folded
    } else {
        to_lowercase(folded.as_str())
    }
}

proof fn lemma_fold_keeps_ascii(v: Seq<char>)
    ensures
        is_ascii_text(ascii_fold(v)) == is_ascii_text(v),
{
    assert forall|i: int| 0 <= i < v.len() implies ((#[trigger] ascii_fold(v)[i] as u32) < 128) == (
    (v[i] as u32) < 128) by {
        let c = v[i];
        if 'A' <= c && c <= 'Z' {
            assert((c as u8) as u32 == c as u32);
        }
    }
    if !is_ascii_text(v) {
        let i = choose|i: int| 0 <= i < v.len() && !((v[i] as u32) < 128);
        assert(!((ascii_fold(v)[i] as u32) < 128));
    }
    if !is_ascii_text(ascii_fold(v)) {
        let i = choose|i: int| 0 <= i < ascii_fold(v).len() && !((ascii_fold(v)[i] as u32) < 128);
        assert(!((v[i] as u32) < 128));
    }
}

/// Texts that differ only in the case of ASCII letters lowercase alike.
pub proof fn lemma_lowercase_ignores_ascii_case(v1: Seq<char>, v2: Seq<char>)
    requires
        ascii_fold(v1) == ascii_fold(v2),
    ensures
        lowercase_spec(v1) == lowercase_spec(v2),
{
    lemma_fold_keeps_ascii(v1);
    lemma_fold_keeps_ascii(v2);
}

/// A command does not depend on whitespace around the line, nor on the
/// case of the ASCII letters of its verb: lines whose trimmed verbs differ
/// only in that case and whose argument texts agree give the same command
/// (the argument keeps its case).
pub proof fn lemma_parse_ignores_spacing_and_verb_case(l1: Seq<char>, l2: Seq<char>)
    requires
        ascii_fold(split_verb(trim(l1)).0) == ascii_fold(split_verb(trim(l2)).0),
        split_verb(trim(l1)).1 == split_verb(trim(l2)).1,
    ensures
        parse_spec(l1) == parse_spec(l2),
        parse_spec(trim(l1)) == parse_spec(l1),
{
    lemma_trim_idempotent(l1);
    lemma_lowercase_ignores_ascii_case(split_verb(trim(l1)).0, split_verb(trim(l2)).0);
}

/// The command named by an already lowercased verb and its argument text.
pub fn command_from_verb(verb: &str, rest: &str) -> (c: Command)
    ensures
        c@ == command_for(verb@, rest@),
{
    if str_eq(verb, "scan") {
        let dir = if rest.unicode_len() == 0 {
            None
        } else {
            Some(rest.to_owned())
        };
        Command::Scan(dir)
    } else if str_eq(verb, "list") {
        let n = if rest.unicode_len() == 0 {
            DEFAULT_LIST_COUNT
        } else {
            let cs = chars_of(rest);
            proof {
                assert(cs@.subrange(0, cs@.len() as int) =~= rest@);
            }
            match parse_unsigned_range(&cs, 0, cs.len(), usize::MAX as u64) {
                Some(v) => v as usize,
                None => DEFAULT_LIST_COUNT,
            }
        };
        Command::List(n)
    } else if str_eq(verb, "search") {
        if rest.unicode_len() == 0 {
            Command::Unknown("search requires a query".to_owned())
        } else {
            Command::Search(rest.to_owned())
        }
    } else if str_eq(verb, "play") {
        let cs = chars_of(rest);
        proof {
            assert(cs@.subrange(0, cs@.len() as int) =~= rest@);
        }
        match parse_unsigned_range(&cs, 0, cs.len(), usize::MAX as u64) {
            Some(i) if i > 0 => Command::Play(i as usize),
            _ => {
                let mut msg = "play requires a positive integer, got ".to_owned();
                let quoted = debug_str(rest);
                msg.append(quoted.as_str());
                Command::Unknown(msg)
            },
        }
    } else if str_eq(verb, "pause") {
        Command::Pause
    } else if str_eq(verb, "resume") {
        Command::Resume
    } else if str_eq(verb, "stop") {
        Command::Stop
    } else if str_eq(verb, "next") {
        Command::Next
    } else if str_eq(verb, "prev") || str_eq(verb, "previous") {
        Command::Prev
    } else if str_eq(verb, "status") {
        Command::Status
    } else if str_eq(verb, "help") || str_eq(verb, "?") {
        Command::Help
    } else if str_eq(verb, "quit") || str_eq(verb, "exit") || str_eq(verb, "q") {
        Command::Quit
    } else {
        Command::Unknown(verb.to_owned())
    }
}

/// Parse an input line into a `Command`: the line is trimmed, split at its
/// first whitespace into a verb (matched case-insensitively) and a trimmed
/// argument text.
pub fn parse(line: &str) -> (c: Command)
    ensures
        c@ == parse_spec(line@),
{
    let cs = chars_of(line);
    let (a, b) = trim_range(&cs, 0, cs.len());
    proof {
        assert(cs@.subrange(0, cs@.len() as int) =~= line@);
    }
    let ghost t = cs@.subrange(a as int, b as int);
    let mut k = a;
    while k < b && !is_whitespace(cs[k])
        invariant
            a <= k <= b <= cs@.len(),
            t == cs@.subrange(a as int, b as int),
            forall|j: int| a <= j < k ==> !is_ws(#[trigger] cs@[j]),
        decreases b - k,
    {
        k = k + 1;
    }
    let (ra, rb) = if k < b {
        trim_range(&cs, k, b)
    } else {
        (b, b)
    };
    proof {
        if k < b {
            let kk = k - a;
            assert(first_ws_at(t, kk)) by {
                assert forall|j: int| 0 <= j < kk implies !is_ws(#[trigger] t[j]) by {
                    assert(t[j] == cs@[a + j]);
                }
            }
            let c = choose|c: int| first_ws_at(t, c);
            if c < kk {
                assert(t[c] == cs@[a + c]);
            } else if c > kk {
                assert(!is_ws(t[kk]));
            }
            assert(t.take(kk) =~= cs@.subrange(a as int, k as int));
            assert(t.skip(kk) =~= cs@.subrange(k as int, b as int));
        } else {
            assert(t =~= cs@.subrange(a as int, k as int));
            assert forall|c: int| !first_ws_at(t, c) by {
                if 0 <= c < t.len() {
                    assert(t[c] == cs@[a + c]);
                }
            }
        }
        assert(cs@.subrange(ra as int, rb as int) =~= line@.subrange(ra as int, rb as int));
    }
    let verb = substring(line, a, k);
    let rest = substring(line, ra, rb);
    proof {
        assert(trim(line@) == t);
        assert(split_verb(t).0 == verb@);
        assert(split_verb(t).1 == rest@);
    }
    let lower = lowercase(verb.as_str());
    command_from_verb(lower.as_str(), rest.as_str())
}

} // verus!
