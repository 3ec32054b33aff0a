//! The library's records: tracks, albums, artists, genres and playlists,
//! and the conversions between stored rows and these records.

use vstd::prelude::*;
use crate::text::{chars_of, push_char};

verus! {

/// An album with its artist's name and aggregate track information.
#[derive(Debug, Clone)]
pub struct Album {
    pub id: i64,
    pub title: String,
    pub artist: Option<String>,
    pub year: Option<i32>,
    pub track_count: i64,
    pub cover_thumb: Option<String>,
}

/// An artist with aggregate album and track counts.
#[derive(Debug, Clone)]
pub struct Artist {
    pub id: i64,
    pub name: String,
    pub album_count: i64,
    pub track_count: i64,
}

/// A genre with its track count.
#[derive(Debug, Clone)]
pub struct Genre {
    pub name: String,
    pub track_count: i64,
}

/// What is needed to insert or update a track.
#[derive(Debug, Clone)]
pub struct NewTrack {
    pub path: String,
    pub title: String,
    pub artist: Option<String>,
    pub album: Option<String>,
    pub album_artist: Option<String>,
    pub track_no: Option<u32>,
    pub disc_no: Option<u32>,
    pub year: Option<i32>,
    pub duration_ms: Option<u64>,
    pub mtime: i64,
    pub cover_thumb: Option<String>,
    pub genre: Option<String>,
}

/// A playlist with its track count.
#[derive(Debug, Clone)]
pub struct Playlist {
    pub id: i64,
    pub name: String,
    pub track_count: i64,
}

/// A smart playlist: a name and its rules, stored as JSON.
#[derive(Debug, Clone)]
pub struct SmartPlaylist {
    pub id: i64,
    pub name: String,
    pub rules_json: String,
    pub match_all: bool,
}

/// A track as read back from the library.
#[derive(Debug, Clone)]
pub struct Track {
    pub id: i64,
    pub path: String,
    pub title: String,
    pub artist: Option<String>,
    pub album: Option<String>,
    pub track_no: Option<u32>,
    pub duration_ms: Option<u64>,
    pub cover_thumb: Option<String>,
}

/// A track from the columns of a stored row. Track and duration numbers are
/// stored as signed 64-bit integers and converted with `as`, which truncates
/// (track number) or reinterprets (duration).
pub fn track_from_row(
    id: i64,
    path: String,
    title: String,
    artist: Option<String>,
    album: Option<String>,
    track_no: Option<i64>,
    duration_ms: Option<i64>,
    cover_thumb: Option<String>,
) -> (t: Track)
    ensures
        t.id == id,
        t.path == path,
        t.title == title,
        t.artist == artist,
        t.album == album,
        t.track_no == (match track_no {
            Some(v) => Some(v as u32),
            None => None,
        }),
        t.duration_ms == (match duration_ms {
            Some(v) => Some(v as u64),
            None => None,
        }),
        t.cover_thumb == cover_thumb,
{
    Track {
        id,
        path,
        title,
        artist,
        album,
        track_no: match track_no {
            Some(v) => Some(v as u32),
            None => None,
        },
        duration_ms: match duration_ms {
            Some(v) => Some(v as u64),
            None => None,
        },
        cover_thumb,
    }
}

/// `q` with every double quote doubled.
pub open spec fn double_quotes(q: Seq<char>) -> Seq<char>
    decreases q.len(),
{
    if q.len() == 0 {
        Seq::empty()
    } else if q.last() == '"' {
        double_quotes(q.drop_last()) + seq!['"', '"']
    } else {
        double_quotes(q.drop_last()).push(q.last())
    }
}

/// The full-text query that matches `q` as a quoted prefix: `"q"*`.
pub open spec fn fts_prefix_query_spec(q: Seq<char>) -> Seq<char> {
    seq!['"'] + double_quotes(q) + seq!['"', '*']
}

/// The full-text search term for a user query: the query quoted, with its
/// double quotes doubled, followed by `*` for prefix matching.
pub fn fts_prefix_query(query: &str) -> (r: String)
    ensures
        r@ == fts_prefix_query_spec(query@),
{
    let cs = chars_of(query);
    let mut out = String::new();
    push_char(&mut out, '"');
    let mut i: usize = 0;
    while i < cs.len()
        invariant
            cs@ == query@,
            i <= cs@.len(),
            out@ == seq!['"'] + double_quotes(cs@.take(i as int)),
        decreases cs@.len() - i,
    {
        let c = cs[i];
        proof {
            assert(cs@.take(i + 1).drop_last() =~= cs@.take(i as int));
            assert(cs@.take(i + 1).last() == c);
        }
        if c == '"' {
            push_char(&mut out, '"');
            push_char(&mut out, '"');
            proof {
                assert(out@ =~= seq!['"'] + double_quotes(cs@.take(i + 1)));
            }
        } else {
            push_char(&mut out, c);
            proof {
                assert(out@ =~= seq!['"'] + double_quotes(cs@.take(i + 1)));
            }
        }
        i = i + 1;
    }
    push_char(&mut out, '"');
    push_char(&mut out, '*');
    proof {
        assert(cs@.take(cs@.len() as int) =~= cs@);
        assert(out@ =~= fts_prefix_query_spec(query@));
    }
    out
}

} // verus!
