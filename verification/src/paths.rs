//! Where Lyra keeps its files: joining path components, expanding `~`, and
//! choosing the data and cache directories from the environment's values
//! (which are read around these functions).

use vstd::prelude::*;

verus! {

/// A path is absolute when it starts with `/`.
pub open spec fn is_absolute(p: Seq<char>) -> bool {
    p.len() > 0 && p[0] == '/'
}

/// `base` joined with `rel`: an absolute `rel` replaces `base`; otherwise a
/// separator is put between them unless `base` is empty or already ends
/// with one.
pub open spec fn join_spec(base: Seq<char>, rel: Seq<char>) -> Seq<char> {
    if is_absolute(rel) {
        rel
    } else if base.len() == 0 || base.last() == '/' {
        base + rel
    } else {
        base + seq!['/'] + rel
    }
}

/// Join two path components, as a Unix path buffer does.
pub fn path_join(base: &str, rel: &str) -> (r: String)
    ensures
        r@ == join_spec(base@, rel@),
{
    let rn = rel.unicode_len();
    if rn > 0 && rel.get_char(0) == '/' {
        return rel.to_owned();
    }
    let bn = base.unicode_len();
    let mut out = base.to_owned();
    if bn > 0 && base.get_char(bn - 1) != '/' {
        out.append("/");
        proof {
            reveal_strlit("/");
            assert("/"@ =~= seq!['/']);
        }
    }
    out.append(rel);
    out
}

/// `s` with a leading `~` (alone, or followed by `/`) replaced by `home`.
pub open spec fn expand_tilde_spec(s: Seq<char>, home: Seq<char>) -> Seq<char> {
    if s == seq!['~'] || (s.len() >= 2 && s[0] == '~' && s[1] == '/') {
        home + s.subrange(1, s.len() as int)
    } else {
        s
    }
}

/// Expand a leading `~` to the home directory.
pub fn expand_tilde(s: &str, home: &str) -> (r: String)
    ensures
        r@ == expand_tilde_spec(s@, home@),
{
    let n = s.unicode_len();
    let tilde = n >= 1 && s.get_char(0) == '~' && (n == 1 || s.get_char(1) == '/');
    proof {
        if n == 1 && s@[0] == '~' {
            assert(s@ =~= seq!['~']);
        }
    }
    if tilde {
        let mut out = home.to_owned();
        out.append(s.substring_char(1, n));
        out
    } else {
        s.to_owned()
    }
}

/// The value of an environment variable, or `fallback` when it is unset.
pub open spec fn or_fallback(v: Option<Seq<char>>, fallback: Seq<char>) -> Seq<char> {
    match v {
        Some(s) => s,
        None => fallback,
    }
}

fn owned_or(v: &Option<String>, fallback: &str) -> (r: String)
    ensures
        r@ == or_fallback(
            match v {
                Some(s) => Some(s@),
                None => None,
            },
            fallback@,
        ),
{
    match v {
        Some(s) => s.clone(),
        None => fallback.to_owned(),
    }
}

/// The view of an optional string.
pub open spec fn opt_view(v: Option<String>) -> Option<Seq<char>> {
    match v {
        Some(s) => Some(s@),
        None => None,
    }
}

/// The command line's data directory: `$XDG_DATA_HOME/lyra` when that is an
/// absolute path, else `$HOME/.local/share/lyra` (home falling back to `/tmp`).
pub open spec fn cli_data_dir_spec(xdg_data_home: Option<Seq<char>>, home: Option<Seq<char>>) -> Seq<char> {
    match xdg_data_home {
        Some(x) if is_absolute(x) => join_spec(x, "lyra"@),
        _ => join_spec(or_fallback(home, "/tmp"@), ".local/share/lyra"@),
    }
}

/// Choose the command line's data directory.
pub fn cli_data_dir(xdg_data_home: &Option<String>, home: &Option<String>) -> (r: String)
    ensures
        r@ == cli_data_dir_spec(opt_view(*xdg_data_home), opt_view(*home)),
{
    match xdg_data_home {
        Some(x) => {
            if x.unicode_len() > 0 && x.as_str().get_char(0) == '/' {
                return path_join(x.as_str(), "lyra");
            }
        },
        None => {},
    }
    let h = owned_or(home, "/tmp");
    path_join(h.as_str(), ".local/share/lyra")
}

/// A base directory from an environment variable: the variable when set and
/// non-empty, else `$HOME` (or `.`) joined with `fallback_rel`.
pub open spec fn base_dir_spec(var: Option<Seq<char>>, home: Option<Seq<char>>, fallback_rel: Seq<char>) -> Seq<char> {
    match var {
        Some(v) if v.len() > 0 => v,
        _ => join_spec(or_fallback(home, "."@), fallback_rel),
    }
}

fn base_dir(var: &Option<String>, home: &Option<String>, fallback_rel: &str) -> (r: String)
    ensures
        r@ == base_dir_spec(opt_view(*var), opt_view(*home), fallback_rel@),
{
    match var {
        Some(v) => {
            if v.unicode_len() > 0 {
                return v.clone();
            }
        },
        None => {},
    }
    let h = owned_or(home, ".");
    path_join(h.as_str(), fallback_rel)
}

/// The library database: `<data home>/lyra/library.db`, where the data home
/// is `$XDG_DATA_HOME` when set and non-empty, else `$HOME/.local/share`.
pub open spec fn library_db_path_spec(xdg_data_home: Option<Seq<char>>, home: Option<Seq<char>>) -> Seq<char> {
    join_spec(
        join_spec(base_dir_spec(xdg_data_home, home, ".local/share"@), "lyra"@),
        "library.db"@,
    )
}

/// The database file, from the environment's values.
pub fn library_db_path(xdg_data_home: &Option<String>, home: &Option<String>) -> (r: String)
    ensures
        r@ == library_db_path_spec(opt_view(*xdg_data_home), opt_view(*home)),
{
    let base = base_dir(xdg_data_home, home, ".local/share");
    let dir = path_join(base.as_str(), "lyra");
    path_join(dir.as_str(), "library.db")
}

/// The thumbnail cache: `<cache home>/lyra/art`, where the cache home is
/// `$XDG_CACHE_HOME` when set and non-empty, else `$HOME/.cache`.
pub open spec fn art_cache_dir_spec(xdg_cache_home: Option<Seq<char>>, home: Option<Seq<char>>) -> Seq<char> {
    join_spec(join_spec(base_dir_spec(xdg_cache_home, home, ".cache"@), "lyra"@), "art"@)
}

/// The thumbnail cache directory, from the environment's values.
pub fn art_cache_dir(xdg_cache_home: &Option<String>, home: &Option<String>) -> (r: String)
    ensures
        r@ == art_cache_dir_spec(opt_view(*xdg_cache_home), opt_view(*home)),
{
    let base = base_dir(xdg_cache_home, home, ".cache");
    let dir = path_join(base.as_str(), "lyra");
    path_join(dir.as_str(), "art")
}

/// Joining a relative name onto a directory keeps the directory as a prefix
/// and the name as a suffix.
pub proof fn lemma_join_keeps_parts(base: Seq<char>, rel: Seq<char>)
    requires
        !is_absolute(rel),
    ensures
        join_spec(base, rel).subrange(0, base.len() as int) == base,
        join_spec(base, rel).subrange(
            join_spec(base, rel).len() - rel.len(),
            join_spec(base, rel).len() as int,
        ) == rel,
{
    let j = join_spec(base, rel);
    assert(j.subrange(0, base.len() as int) =~= base);
    assert(j.subrange(j.len() - rel.len(), j.len() as int) =~= rel);
}

} // verus!
