//! The command line's state and decisions: the cache of the last listed or
//! searched tracks (with its id → path lookup for next/prev), choosing the
//! track to play by its 1-based number, how much of the cache to print,
//! and the labels it prints. Reading lines and printing happen around it.

use vstd::prelude::*;
use std::collections::HashMap;
use crate::engine::PlaybackState;
use crate::model::Track;

verus! {

broadcast use vstd::std_specs::hash::group_hash_axioms;

/// The id → path lookup of a track list: later tracks with the same id win.
pub open spec fn path_map(s: Seq<Track>) -> Map<i64, String>
    decreases s.len(),
{
    if s.len() == 0 {
        Map::empty()
    } else {
        path_map(s.drop_last()).insert(s.last().id, s.last().path)
    }
}

/// The last listed or searched tracks, the source of truth for play numbers.
pub struct TrackCache {
    tracks: Vec<Track>,
    paths: HashMap<i64, String>,
}

impl TrackCache {
    /// The cached tracks.
    pub closed spec fn tracks_view(&self) -> Seq<Track> {
        self.tracks@
    }

    /// The lookup agrees with the tracks.
    #[verifier::type_invariant]
    spec fn wf(&self) -> bool {
        self.paths@ == path_map(self.tracks@)
    }

    /// An empty cache.
    pub fn new() -> (c: Self)
        ensures
            c.tracks_view() == Seq::<Track>::empty(),
    {
        let tracks: Vec<Track> = Vec::new();
        let paths: HashMap<i64, String> = HashMap::new();
        proof {
            assert(paths@ =~= path_map(tracks@));
        }
        TrackCache { tracks, paths }
    }

    /// Replace the cache with a new result list.
    pub fn load(&mut self, tracks: Vec<Track>)
        ensures
            final(self).tracks_view() == tracks@,
    {
        let mut paths: HashMap<i64, String> = HashMap::new();
        let mut i: usize = 0;
        proof {
            assert(paths@ =~= path_map(tracks@.take(0)));
        }
        while i < tracks.len()
            invariant
                i <= tracks@.len(),
                paths@ == path_map(tracks@.take(i as int)),
            decreases tracks@.len() - i,
        {
            let t = &tracks[i];
            paths.insert(t.id, t.path.clone());
            proof {
                assert(tracks@.take(i + 1).drop_last() =~= tracks@.take(i as int));
                assert(tracks@.take(i + 1).last() == tracks@[i as int]);
            }
            i = i + 1;
        }
        proof {
            assert(tracks@.take(tracks@.len() as int) =~= tracks@);
        }
        *self = TrackCache { tracks, paths };
    }

    /// Number of cached tracks.
    pub fn len(&self) -> (n: usize)
        ensures
            n == self.tracks_view().len(),
    {
        self.tracks.len()
    }

    /// The cached track at a 0-based position.
    pub fn get(&self, i: usize) -> (t: &Track)
        requires
            i < self.tracks_view().len(),
        ensures
            *t == self.tracks_view()[i as int],
    {
        &self.tracks[i]
    }

    /// The path of the track with this id, for next/prev.
    pub fn path_for(&self, id: i64) -> (p: Option<String>)
        ensures
            match p {
                Some(s) => path_map(self.tracks_view()).contains_key(id) && s == path_map(
                    self.tracks_view(),
                )[id],
                None => !path_map(self.tracks_view()).contains_key(id),
            },
    {
        proof {
            use_type_invariant(self);
        }
        match self.paths.get(&id) {
            Some(s) => Some(s.clone()),
            None => None,
        }
    }

    /// The first cached track with this id.
    pub fn find(&self, id: i64) -> (t: Option<&Track>)
        ensures
            match t {
                Some(tr) => exists|i: int|
                    0 <= i < self.tracks_view().len() && self.tracks_view()[i] == *tr && tr.id == id
                        && forall|j: int| 0 <= j < i ==> self.tracks_view()[j].id != id,
                None => forall|i: int|
                    0 <= i < self.tracks_view().len() ==> self.tracks_view()[i].id != id,
            },
    {
        let mut i: usize = 0;
        while i < self.tracks.len()
            invariant
                i <= self.tracks@.len(),
                forall|j: int| 0 <= j < i ==> self.tracks@[j].id != id,
            decreases self.tracks@.len() - i,
        {
            if self.tracks[i].id == id {
                return Some(&self.tracks[i]);
            }
            i = i + 1;
        }
        None
    }
}

/// Every track in a list can be looked up by its id.
pub proof fn lemma_path_map_covers(s: Seq<Track>, k: int)
    requires
        0 <= k < s.len(),
    ensures
        path_map(s).contains_key(s[k].id),
    decreases s.len(),
{
    if k < s.len() - 1 {
        lemma_path_map_covers(s.drop_last(), k);
    }
}

/// Why `play <n>` cannot play.
#[derive(Debug, Clone, Copy, PartialEq, Eq, Structural)]
pub enum PlayIndexError {
    /// Nothing was listed or searched yet.
    NoResults,
    /// The number is outside 1..=len.
    OutOfRange,
}

/// The 0-based position for `play <n>` over `cache_len` cached tracks.
pub fn play_index(cache_len: usize, n: usize) -> (r: Result<usize, PlayIndexError>)
    ensures
        cache_len == 0 ==> r == Err::<usize, PlayIndexError>(PlayIndexError::NoResults),
        cache_len > 0 && (n == 0 || n > cache_len) ==> r == Err::<usize, PlayIndexError>(
            PlayIndexError::OutOfRange,
        ),
        cache_len > 0 && 1 <= n <= cache_len ==> r == Ok::<usize, PlayIndexError>((n - 1) as usize),
{
    if cache_len == 0 {
        Err(PlayIndexError::NoResults)
    } else if n == 0 || n > cache_len {
        Err(PlayIndexError::OutOfRange)
    } else {
        Ok(n - 1)
    }
}

/// How many of `len` cached tracks to print for a limit of `n`, and how
/// many are left over.
pub fn print_range(n: usize, len: usize) -> (r: (usize, usize))
    ensures
        r.0 == (if n < len {
            n
        } else {
            len
        }),
        r.0 + r.1 == len,
{
    let limit = if n < len {
        n
    } else {
        len
    };
    (limit, len - limit)
}

/// The word printed for a playback state.
pub fn state_label(s: PlaybackState) -> (l: &'static str)
    ensures
        s == PlaybackState::Playing ==> l@ == "Playing"@,
        s == PlaybackState::Paused ==> l@ == "Paused"@,
        s == PlaybackState::Stopped ==> l@ == "Stopped"@,
{
    match s {
        PlaybackState::Playing => "Playing",
        PlaybackState::Paused => "Paused",
        PlaybackState::Stopped => "Stopped",
    }
}

/// The artist printed for a track: its artist, or "Unknown Artist".
pub fn artist_label(artist: &Option<String>) -> (s: String)
    ensures
        s@ == match artist {
            Some(a) => a@,
            None => "Unknown Artist"@,
        },
{
    match artist {
        Some(a) => a.clone(),
        None => "Unknown Artist".to_owned(),
    }
}

} // verus!
