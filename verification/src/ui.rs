//! The player window's decisions: the cached playlist and what plays
//! around the current track, choosing a row from a list, restoring a saved
//! session, the repeat button, the media-key status, and the demo
//! controller's "next" index.
//!
//! JSON, the Qt properties, D-Bus and the engine are handled around these
//! functions.

use vstd::prelude::*;
use crate::model::Track;
use crate::queue::PlayQueue;
use crate::repeat::{next_index, spec_next_index, RepeatMode};
use crate::text::{chars_of, str_eq, trim, trim_range};

verus! {

// ---------------------------------------------------------------------------
// The cached playlist
// ---------------------------------------------------------------------------

/// One row of the playlist the queue was built from.
#[derive(Debug, Clone, PartialEq)]
pub struct TrackRow {
    pub id: i64,
    pub title: String,
    pub artist: String,
    pub path: String,
    pub cover_thumb: String,
    pub duration_ms: u64,
}

impl TrackRow {
    /// A field-by-field copy.
    pub fn copy(&self) -> (r: TrackRow)
        ensures
            r == *self,
    {
        TrackRow {
            id: self.id,
            title: self.title.clone(),
            artist: self.artist.clone(),
            path: self.path.clone(),
            cover_thumb: self.cover_thumb.clone(),
            duration_ms: self.duration_ms,
        }
    }
}

/// Index of the first row with this id, or `None`.
pub open spec fn first_row_with(rows: Seq<TrackRow>, id: i64) -> Option<int> {
    if exists|i: int| 0 <= i < rows.len() && rows[i].id == id {
        Some(
            choose|i: int|
                0 <= i < rows.len() && rows[i].id == id && forall|j: int|
                    0 <= j < i ==> rows[j].id != id,
        )
    } else {
        None
    }
}

/// There is exactly one "first" index, which is what `first_row_with` picks.
pub proof fn lemma_first_row_with(rows: Seq<TrackRow>, id: i64, i: int)
    requires
        0 <= i < rows.len(),
        rows[i].id == id,
        forall|j: int| 0 <= j < i ==> rows[j].id != id,
    ensures
        first_row_with(rows, id) == Some(i),
{
    assert(exists|k: int| 0 <= k < rows.len() && rows[k].id == id);
    let c = choose|k: int|
        0 <= k < rows.len() && rows[k].id == id && forall|j: int| 0 <= j < k ==> rows[j].id != id;
    assert(0 <= c < rows.len() && rows[c].id == id && forall|j: int| 0 <= j < c ==> rows[j].id != id)
        by {
        assert(0 <= i < rows.len() && rows[i].id == id && forall|j: int|
            0 <= j < i ==> rows[j].id != id);
    }
    if c < i {
        assert(rows[c].id != id);
    }
    if i < c {
        assert(rows[i].id != id);
    }
}

/// Position of the first row with `id`.
pub fn row_position(playlist: &[TrackRow], id: i64) -> (r: Option<usize>)
    ensures
        r matches Some(i) ==> i < playlist@.len() && playlist@[i as int].id == id,
        match r {
            Some(i) => first_row_with(playlist@, id) == Some(i as int),
            None => first_row_with(playlist@, id) is None,
        },
{
    let mut i: usize = 0;
    while i < playlist.len()
        invariant
            i <= playlist@.len(),
            forall|j: int| 0 <= j < i ==> playlist@[j].id != id,
        decreases playlist@.len() - i,
    {
        if playlist[i].id == id {
            proof {
                lemma_first_row_with(playlist@, id, i as int);
            }
            return Some(i);
        }
        i = i + 1;
    }
    None
}

/// The row for a track id (the first one with that id).
pub fn find_row(playlist: &[TrackRow], id: i64) -> (r: Option<&TrackRow>)
    ensures
        match first_row_with(playlist@, id) {
            Some(i) => r == Some(&playlist@[i]),
            None => r is None,
        },
{
    match row_position(playlist, id) {
        Some(i) => Some(&playlist[i]),
        None => None,
    }
}

/// The playlist rows of some track ids, in the order of the ids (each id's
/// first row; an id the playlist has no row for is skipped).
pub open spec fn rows_for_ids(rows: Seq<TrackRow>, ids: Seq<i64>) -> Seq<TrackRow>
    decreases ids.len(),
{
    if ids.len() == 0 {
        Seq::empty()
    } else {
        let before = rows_for_ids(rows, ids.drop_last());
        match first_row_with(rows, ids.last()) {
            Some(i) => before.push(rows[i]),
            None => before,
        }
    }
}

/// When every id has a row, the rows carry exactly those ids, in order.
pub proof fn lemma_rows_for_ids_keep_ids(rows: Seq<TrackRow>, ids: Seq<i64>)
    requires
        forall|k: int| 0 <= k < ids.len() ==> #[trigger] first_row_with(rows, ids[k]) is Some,
    ensures
        rows_for_ids(rows, ids).len() == ids.len(),
        forall|k: int| 0 <= k < ids.len() ==> #[trigger] rows_for_ids(rows, ids)[k].id == ids[k],
    decreases ids.len(),
{
    if ids.len() > 0 {
        let d = ids.drop_last();
        assert forall|k: int| 0 <= k < d.len() implies #[trigger] first_row_with(rows, d[k]) is Some by {
            assert(d[k] == ids[k]);
            assert(first_row_with(rows, ids[k]) is Some);
        }
        lemma_rows_for_ids_keep_ids(rows, d);
        assert(first_row_with(rows, ids[ids.len() - 1]) is Some);
        let i = first_row_with(rows, ids.last())->0;
        lemma_first_row_with_found(rows, ids.last());
        assert forall|k: int| 0 <= k < ids.len() implies #[trigger] rows_for_ids(rows, ids)[k].id
            == ids[k] by {
            if k < ids.len() - 1 {
                assert(rows_for_ids(rows, d)[k].id == d[k]);
            }
        }
    }
}

/// A row with the id at `k` means there is a first such row.
proof fn lemma_first_row_exists(rows: Seq<TrackRow>, id: i64, k: int)
    requires
        0 <= k < rows.len(),
        rows[k].id == id,
    ensures
        exists|i: int|
            0 <= i < rows.len() && rows[i].id == id && forall|j: int| 0 <= j < i ==> rows[j].id != id,
    decreases k,
{
    if exists|j: int| 0 <= j < k && rows[j].id == id {
        let j = choose|j: int| 0 <= j < k && rows[j].id == id;
        lemma_first_row_exists(rows, id, j);
    } else {
        assert(forall|j: int| 0 <= j < k ==> rows[j].id != id);
    }
}

/// A first row that exists is a row with that id.
pub proof fn lemma_first_row_with_found(rows: Seq<TrackRow>, id: i64)
    ensures
        first_row_with(rows, id) matches Some(i) ==> 0 <= i < rows.len() && rows[i].id == id,
{
    if exists|k: int| 0 <= k < rows.len() && rows[k].id == id {
        let k = choose|k: int| 0 <= k < rows.len() && rows[k].id == id;
        lemma_first_row_exists(rows, id, k);
    }
}

/// The rows shown as "Up Next": the rows of the ids that will play after the
/// current track, in play order.
pub fn upcoming_rows(playlist: &[TrackRow], upcoming_ids: &[i64]) -> (r: Vec<TrackRow>)
    ensures
        r@ == rows_for_ids(playlist@, upcoming_ids@),
{
    let mut out: Vec<TrackRow> = Vec::new();
    let mut k: usize = 0;
    while k < upcoming_ids.len()
        invariant
            k <= upcoming_ids@.len(),
            out@ == rows_for_ids(playlist@, upcoming_ids@.take(k as int)),
        decreases upcoming_ids@.len() - k,
    {
        proof {
            assert(upcoming_ids@.take(k + 1).drop_last() =~= upcoming_ids@.take(k as int));
            assert(upcoming_ids@.take(k + 1).last() == upcoming_ids@[k as int]);
        }
        match find_row(playlist, upcoming_ids[k]) {
            Some(row) => {
                out.push(row.copy());
            },
            None => {},
        }
        k = k + 1;
    }
    proof {
        assert(upcoming_ids@.take(upcoming_ids@.len() as int) =~= upcoming_ids@);
    }
    out
}

/// What the player needs to start a track: its row, the path of the track
/// that plays after it (prepared for the crossfade), and the Up Next rows.
#[derive(Debug, Clone)]
pub struct TrackChoice {
    pub row: TrackRow,
    pub next_path: Option<String>,
    pub upcoming: Vec<TrackRow>,
}

/// `c` is the choice for track `id`, given the ids that play after it: its
/// row, the rows of those ids, and the first of them as the next path.
pub open spec fn choice_for(playlist: Seq<TrackRow>, id: i64, upcoming_ids: Seq<i64>, c: TrackChoice) -> bool {
    match first_row_with(playlist, id) {
        None => false,
        Some(i) => {
            &&& c.row == playlist[i]
            &&& c.upcoming@ == rows_for_ids(playlist, upcoming_ids)
            &&& match c.next_path {
                Some(p) => c.upcoming@.len() > 0 && p@ == c.upcoming@[0].path@,
                None => c.upcoming@.len() == 0,
            }
        },
    }
}

/// Resolve a queue id against the playlist, with the ids that play after it;
/// `None` when the playlist has no row for it (the player then does nothing).
pub fn choose_track(playlist: &[TrackRow], id: i64, upcoming_ids: &[i64]) -> (r: Option<TrackChoice>)
    ensures
        match first_row_with(playlist@, id) {
            None => r is None,
            Some(i) => (r matches Some(c) && choice_for(playlist@, id, upcoming_ids@, c)),
        },
{
    match find_row(playlist, id) {
        None => None,
        Some(row) => {
            let row = row.copy();
            let upcoming = upcoming_rows(playlist, upcoming_ids);
            let next_path = if upcoming.len() > 0 {
                Some(upcoming[0].path.clone())
            } else {
                None
            };
            Some(TrackChoice { row, next_path, upcoming })
        },
    }
}

/// The result of pressing next or previous.
#[derive(Debug, Clone)]
pub enum Navigation {
    /// The queue did not move: its end (next) or its start (previous).
    Edge,
    /// The queue moved to an id the playlist has no row for; nothing plays.
    NotInPlaylist,
    /// Play this track.
    Play(TrackChoice),
}

/// The status text shown when the queue cannot move.
pub fn edge_message(forward: bool) -> (s: &'static str)
    ensures
        forward ==> s@ == "End of queue"@,
        !forward ==> s@ == "Beginning of queue"@,
{
    if forward {
        "End of queue"
    } else {
        "Beginning of queue"
    }
}

/// Step the queue forward or back and resolve the track to play.
pub fn navigate(queue: &mut PlayQueue, playlist: &[TrackRow], forward: bool) -> (n: Navigation)
    requires
        old(queue).wf(),
    ensures
        final(queue).wf(),
        forward ==> final(queue)@ == old(queue)@.after_next(),
        !forward ==> final(queue)@ == old(queue)@.after_prev(),
        (n is Edge) <==> (if forward {
            old(queue)@.next_pos() is None
        } else {
            old(queue)@.prev_pos() is None
        }),
        !(n is Edge) ==> (final(queue)@.current() matches Some(id) && match n {
            Navigation::NotInPlaylist => first_row_with(playlist@, id) is None,
            Navigation::Play(c) => choice_for(
                playlist@,
                id,
                final(queue)@.upcoming(usize::MAX as nat),
                c,
            ),
            Navigation::Edge => false,
        }),
{
    let moved = if forward {
        queue.next()
    } else {
        queue.prev()
    };
    match moved {
        None => Navigation::Edge,
        Some(id) => {
            let upcoming_ids = queue.upcoming(usize::MAX);
            match choose_track(playlist, id, upcoming_ids.as_slice()) {
                None => Navigation::NotInPlaylist,
                Some(c) => Navigation::Play(c),
            }
        },
    }
}

/// The queue's current track, resolved against the playlist (what the play
/// button starts when a restored track is loaded but stopped).
pub fn current_track(queue: &PlayQueue, playlist: &[TrackRow]) -> (r: Option<TrackChoice>)
    requires
        queue.wf(),
    ensures
        match queue@.current() {
            None => r is None,
            Some(id) => match r {
                None => first_row_with(playlist@, id) is None,
                Some(c) => choice_for(playlist@, id, queue@.upcoming(usize::MAX as nat), c),
            },
        },
{
    match queue.current() {
        None => None,
        Some(id) => {
            let upcoming_ids = queue.upcoming(usize::MAX);
            choose_track(playlist, id, upcoming_ids.as_slice())
        },
    }
}

// ---------------------------------------------------------------------------
// Building the playlist
// ---------------------------------------------------------------------------

/// One entry of a results list as it arrived, before validation: a missing
/// or mistyped field is `None`.
#[derive(Debug, Clone)]
pub struct PlaylistEntry {
    pub id: Option<i64>,
    pub title: Option<String>,
    pub artist: Option<String>,
    pub path: Option<String>,
    pub cover_thumb: Option<String>,
    pub duration_ms: Option<u64>,
}

/// Text of an optional field, empty when missing.
pub open spec fn text_or_empty(s: Option<String>) -> Seq<char> {
    match s {
        Some(t) => t@,
        None => Seq::empty(),
    }
}

/// An entry is kept when it has an id and a non-empty path.
pub open spec fn entry_kept(e: PlaylistEntry) -> bool {
    e.id is Some && text_or_empty(e.path).len() > 0
}

/// The row an entry becomes: missing text is empty, a missing duration is 0.
pub open spec fn entry_matches_row(e: PlaylistEntry, r: TrackRow) -> bool {
    &&& e.id == Some(r.id)
    &&& r.title@ == text_or_empty(e.title)
    &&& r.artist@ == text_or_empty(e.artist)
    &&& r.path@ == text_or_empty(e.path)
    &&& r.cover_thumb@ == text_or_empty(e.cover_thumb)
    &&& r.duration_ms == match e.duration_ms {
        Some(d) => d,
        None => 0,
    }
}

/// The kept entries, in order.
pub open spec fn kept_entries(s: Seq<PlaylistEntry>) -> Seq<PlaylistEntry>
    decreases s.len(),
{
    if s.len() == 0 {
        Seq::empty()
    } else if entry_kept(s.last()) {
        kept_entries(s.drop_last()).push(s.last())
    } else {
        kept_entries(s.drop_last())
    }
}

fn text_of(s: &Option<String>) -> (r: String)
    ensures
        r@ == text_or_empty(*s),
{
    match s {
        Some(t) => t.clone(),
        None => String::new(),
    }
}

/// The playlist made of the valid entries of a results list, in order.
pub fn playlist_from_entries(entries: &[PlaylistEntry]) -> (rows: Vec<TrackRow>)
    ensures
        rows@.len() == kept_entries(entries@).len(),
        forall|k: int|
            0 <= k < rows@.len() ==> entry_matches_row(#[trigger] kept_entries(entries@)[k], rows@[k]),
{
    let mut rows: Vec<TrackRow> = Vec::new();
    let mut i: usize = 0;
    while i < entries.len()
        invariant
            i <= entries@.len(),
            rows@.len() == kept_entries(entries@.take(i as int)).len(),
            forall|k: int|
                0 <= k < rows@.len() ==> entry_matches_row(
                    #[trigger] kept_entries(entries@.take(i as int))[k],
                    rows@[k],
                ),
        decreases entries@.len() - i,
    {
        proof {
            assert(entries@.take(i + 1).drop_last() =~= entries@.take(i as int));
            assert(entries@.take(i + 1).last() == entries@[i as int]);
        }
        let e = &entries[i];
        let path = text_of(&e.path);
        match e.id {
            Some(id) => {
                if path.unicode_len() > 0 {
                    let row = TrackRow {
                        id,
                        title: text_of(&e.title),
                        artist: text_of(&e.artist),
                        path,
                        cover_thumb: text_of(&e.cover_thumb),
                        duration_ms: match e.duration_ms {
                            Some(d) => d,
                            None => 0,
                        },
                    };
                    rows.push(row);
                }
            },
            None => {},
        }
        i = i + 1;
    }
    proof {
        assert(entries@.take(entries@.len() as int) =~= entries@);
    }
    rows
}

/// The row shown for a library track when no session exists: missing
/// artist and cover are empty, a missing duration is 0.
pub fn row_from_track(t: &Track) -> (r: TrackRow)
    ensures
        r.id == t.id,
        r.title == t.title,
        r.path == t.path,
        r.artist@ == text_or_empty(t.artist),
        r.cover_thumb@ == text_or_empty(t.cover_thumb),
        r.duration_ms == match t.duration_ms {
            Some(d) => d,
            None => 0,
        },
{
    TrackRow {
        id: t.id,
        title: t.title.clone(),
        artist: text_of(&t.artist),
        path: t.path.clone(),
        cover_thumb: text_of(&t.cover_thumb),
        duration_ms: match t.duration_ms {
            Some(d) => d,
            None => 0,
        },
    }
}

/// The ids of the rows, in order (what the play queue is loaded with).
pub fn row_ids(playlist: &[TrackRow]) -> (ids: Vec<i64>)
    ensures
        ids@.len() == playlist@.len(),
        forall|k: int| 0 <= k < ids@.len() ==> ids@[k] == playlist@[k].id,
{
    let mut ids: Vec<i64> = Vec::new();
    let mut i: usize = 0;
    while i < playlist.len()
        invariant
            i <= playlist@.len(),
            ids@.len() == i,
            forall|k: int| 0 <= k < i ==> ids@[k] == playlist@[k].id,
        decreases playlist@.len() - i,
    {
        ids.push(playlist[i].id);
        i = i + 1;
    }
    ids
}

/// The ids of the rows, in order.
pub open spec fn ids_of(rows: Seq<TrackRow>) -> Seq<i64> {
    rows.map_values(|r: TrackRow| r.id)
}

/// Load the queue with every row of a list and make row `idx` current
/// (what playing from a results list does before it starts the track).
pub fn load_list(queue: &mut PlayQueue, playlist: &[TrackRow], idx: usize)
    requires
        old(queue).wf(),
        idx < playlist@.len(),
    ensures
        final(queue).wf(),
        final(queue)@.items == ids_of(playlist@),
        final(queue)@.current() == Some(playlist@[idx as int].id),
        final(queue)@.shuffle == old(queue)@.shuffle,
        final(queue)@.repeat == old(queue)@.repeat,
{
    let ids = row_ids(playlist);
    proof {
        assert(ids@ =~= ids_of(playlist@));
    }
    queue.set_items(ids);
    let _ = queue.jump_to(idx);
}

/// Rebuild the queue from a restored session: every row, positioned on the
/// saved index (clamped as `restore_index` does), with the saved shuffle and
/// repeat modes. Returns the row index that is current.
pub fn restore_queue(
    queue: &mut PlayQueue,
    playlist: &[TrackRow],
    index: i32,
    shuffle: bool,
    repeat: RepeatMode,
) -> (idx: usize)
    requires
        old(queue).wf(),
        playlist@.len() > 0,
    ensures
        final(queue).wf(),
        index >= 0 && index < playlist@.len() ==> idx == index,
        (index < 0 || index >= playlist@.len()) ==> idx == playlist@.len() - 1,
        final(queue)@.items == ids_of(playlist@),
        final(queue)@.current() == Some(playlist@[idx as int].id),
        final(queue)@.shuffle == shuffle,
        final(queue)@.repeat == repeat,
{
    let n = playlist.len();
    let idx = restore_index(index, n);
    load_list(queue, playlist, idx);
    queue.set_shuffle(shuffle);
    queue.set_repeat(repeat);
    idx
}

// ---------------------------------------------------------------------------
// Choosing a row from a list, restoring a session
// ---------------------------------------------------------------------------

/// Why a row could not be played from a list.
#[derive(Debug, Clone, Copy, PartialEq, Eq, Structural)]
pub enum ListError {
    EmptyPlaylist,
    IndexOutOfRange,
}

impl ListError {
    /// The status text shown for the error.
    pub fn message(&self) -> (s: &'static str)
        ensures
            *self == ListError::EmptyPlaylist ==> s@ == "Play error: empty playlist"@,
            *self == ListError::IndexOutOfRange ==> s@ == "Play error: index out of range"@,
    {
        match self {
            ListError::EmptyPlaylist => "Play error: empty playlist",
            ListError::IndexOutOfRange => "Play error: index out of range",
        }
    }
}

/// The row index to play from a list of `len` rows at `index`: an empty
/// list and an index outside it (a negative one included) are refused.
pub fn list_selection(len: usize, index: i32) -> (r: Result<usize, ListError>)
    ensures
        len == 0 ==> r == Err::<usize, ListError>(ListError::EmptyPlaylist),
        len > 0 && (index < 0 || index >= len) ==> r == Err::<usize, ListError>(
            ListError::IndexOutOfRange,
        ),
        len > 0 && 0 <= index < len ==> r == Ok::<usize, ListError>(index as usize),
{
    if len == 0 {
        return Err(ListError::EmptyPlaylist);
    }
    if index < 0 {
        return Err(ListError::IndexOutOfRange);
    }
    let i = index as usize;
    if i >= len {
        Err(ListError::IndexOutOfRange)
    } else {
        Ok(i)
    }
}

/// The row a restored session starts on: the saved index, clamped to the
/// last row (a negative index, which does not fit, also lands on the last row).
pub fn restore_index(index: i32, len: usize) -> (r: usize)
    requires
        len > 0,
    ensures
        index >= 0 && index < len ==> r == index,
        (index < 0 || index >= len) ==> r == len - 1,
{
    if index < 0 {
        return len - 1;
    }
    let i = index as usize;
    if i < len - 1 {
        i
    } else {
        len - 1
    }
}

/// The index saved with a session: the position of the current track in
/// the playlist, or 0 when there is none (saved as an `i32`, truncating).
pub fn session_index(playlist: &[TrackRow], current: Option<i64>) -> (r: i32)
    ensures
        match current {
            None => r == 0,
            Some(id) => match first_row_with(playlist@, id) {
                None => r == 0,
                Some(i) => r == (i as usize) as i32,
            },
        },
{
    match current {
        None => 0,
        Some(id) => match row_position(playlist, id) {
            None => 0,
            Some(i) => i as i32,
        },
    }
}

// ---------------------------------------------------------------------------
// Repeat button, media keys, metadata
// ---------------------------------------------------------------------------

/// The repeat button cycles off → all → one → off.
pub open spec fn cycle_repeat_spec(m: RepeatMode) -> RepeatMode {
    match m {
        RepeatMode::Off => RepeatMode::All,
        RepeatMode::All => RepeatMode::One,
        RepeatMode::One => RepeatMode::Off,
    }
}

/// The mode after one press of the repeat button.
pub fn cycle_repeat(m: RepeatMode) -> (r: RepeatMode)
    ensures
        r == cycle_repeat_spec(m),
{
    match m {
        RepeatMode::Off => RepeatMode::All,
        RepeatMode::All => RepeatMode::One,
        RepeatMode::One => RepeatMode::Off,
    }
}

/// The label of a repeat mode.
pub open spec fn repeat_label_spec(m: RepeatMode) -> Seq<char> {
    match m {
        RepeatMode::Off => "off"@,
        RepeatMode::All => "all"@,
        RepeatMode::One => "one"@,
    }
}

/// The label stored and shown for a repeat mode.
pub fn repeat_label(m: RepeatMode) -> (s: &'static str)
    ensures
        s@ == repeat_label_spec(m),
{
    match m {
        RepeatMode::Off => "off",
        RepeatMode::All => "all",
        RepeatMode::One => "one",
    }
}

/// The mode a stored label names: "all" and "one", anything else is off.
pub open spec fn repeat_from_label_spec(s: Seq<char>) -> RepeatMode {
    if s == "all"@ {
        RepeatMode::All
    } else if s == "one"@ {
        RepeatMode::One
    } else {
        RepeatMode::Off
    }
}

/// Read a stored repeat label.
pub fn repeat_from_label(s: &str) -> (m: RepeatMode)
    ensures
        m == repeat_from_label_spec(s@),
{
    if str_eq(s, "all") {
        RepeatMode::All
    } else if str_eq(s, "one") {
        RepeatMode::One
    } else {
        RepeatMode::Off
    }
}

/// Three presses of the repeat button come back to the start, and a saved
/// label reads back as the mode it was saved from.
pub proof fn lemma_repeat_button_and_labels(m: RepeatMode)
    ensures
        cycle_repeat_spec(cycle_repeat_spec(cycle_repeat_spec(m))) == m,
        cycle_repeat_spec(m) != m,
        repeat_from_label_spec(repeat_label_spec(m)) == m,
{
    reveal_strlit("off");
    reveal_strlit("all");
    reveal_strlit("one");
    assert("off"@ =~= seq!['o', 'f', 'f']);
    assert("all"@ =~= seq!['a', 'l', 'l']);
    assert("one"@ =~= seq!['o', 'n', 'e']);
}

/// Playback status as media controls see it.
#[derive(Debug, Clone, Copy, PartialEq, Eq, Structural)]
pub enum PlayStatus {
    Playing,
    Paused,
    Stopped,
}

/// The status for the player's state text: "Playing" and "Paused" are
/// themselves, everything else (errors too) counts as stopped.
pub open spec fn status_from_text_spec(s: Seq<char>) -> PlayStatus {
    if s == "Playing"@ {
        PlayStatus::Playing
    } else if s == "Paused"@ {
        PlayStatus::Paused
    } else {
        PlayStatus::Stopped
    }
}

/// Media-control status for a state text.
pub fn status_from_text(s: &str) -> (r: PlayStatus)
    ensures
        r == status_from_text_spec(s@),
{
    if str_eq(s, "Playing") {
        PlayStatus::Playing
    } else if str_eq(s, "Paused") {
        PlayStatus::Paused
    } else {
        PlayStatus::Stopped
    }
}

/// What the play/pause media key does.
#[derive(Debug, Clone, Copy, PartialEq, Eq, Structural)]
pub enum MediaAction {
    Pause,
    Resume,
    Nothing,
}

/// Play/pause toggles: playing pauses, paused resumes, stopped does nothing.
pub fn play_pause_action(s: PlayStatus) -> (a: MediaAction)
    ensures
        s == PlayStatus::Playing ==> a == MediaAction::Pause,
        s == PlayStatus::Paused ==> a == MediaAction::Resume,
        s == PlayStatus::Stopped ==> a == MediaAction::Nothing,
{
    match s {
        PlayStatus::Playing => MediaAction::Pause,
        PlayStatus::Paused => MediaAction::Resume,
        PlayStatus::Stopped => MediaAction::Nothing,
    }
}

/// The now-playing fields published to media controls; a field that is
/// empty (or a length that is not positive) is left out.
#[derive(Debug, Clone)]
pub struct MetadataFields {
    pub title: Option<String>,
    pub artist: Option<String>,
    pub length_us: Option<i64>,
    pub art_url: Option<String>,
}

/// Which metadata fields to publish for a track.
pub fn metadata_fields(title: &str, artist: &str, cover_path: &str, duration_us: i64) -> (m: MetadataFields)
    ensures
        title@.len() == 0 ==> m.title is None,
        title@.len() > 0 ==> (m.title matches Some(t) && t@ == title@),
        artist@.len() == 0 ==> m.artist is None,
        artist@.len() > 0 ==> (m.artist matches Some(a) && a@ == artist@),
        m.length_us == (if duration_us > 0 {
            Some(duration_us)
        } else {
            None
        }),
        cover_path@.len() == 0 ==> m.art_url is None,
        cover_path@.len() > 0 ==> (m.art_url matches Some(u) && u@ == "file://"@ + cover_path@),
{
    let t = if title.unicode_len() > 0 {
        Some(title.to_owned())
    } else {
        None
    };
    let a = if artist.unicode_len() > 0 {
        Some(artist.to_owned())
    } else {
        None
    };
    let l = if duration_us > 0 {
        Some(duration_us)
    } else {
        None
    };
    let u = if cover_path.unicode_len() > 0 {
        let mut url = String::from_str("file://");
        url.append(cover_path);
        Some(url)
    } else {
        None
    };
    MetadataFields { title: t, artist: a, length_us: l, art_url: u }
}

/// The EQ band a slider index names: 0 to 9; anything else is ignored.
pub fn eq_band(band: i32) -> (r: Option<usize>)
    ensures
        0 <= band < 10 ==> r == Some(band as usize),
        (band < 0 || band >= 10) ==> r is None,
{
    if band < 0 || band >= 10 {
        None
    } else {
        Some(band as usize)
    }
}

/// A search box holding only whitespace lists the whole library instead of
/// searching.
pub fn is_blank_query(q: &str) -> (r: bool)
    ensures
        r == (trim(q@).len() == 0),
{
    let cs = chars_of(q);
    let (a, b) = trim_range(&cs, 0, cs.len());
    proof {
        assert(cs@.subrange(0, cs@.len() as int) =~= cs@);
    }
    a == b
}

// ---------------------------------------------------------------------------
// The demo controller
// ---------------------------------------------------------------------------

/// The welcome screen's controller: a current index into a list of `len`.
#[derive(Debug, Clone, Copy, PartialEq, Eq, Structural)]
pub struct LibraryController {
    pub current: i32,
    pub len: i32,
}

impl LibraryController {
    /// The index after the current one, wrapping around (negative values
    /// count as 0); -1 for an empty list.
    pub fn next_index(&self) -> (r: i32)
        ensures
            ({
                let cur: int = if self.current < 0 {
                    0
                } else {
                    self.current as int
                };
                let len: int = if self.len < 0 {
                    0
                } else {
                    self.len as int
                };
                match spec_next_index(cur, len, RepeatMode::All) {
                    Some(i) => r == i,
                    None => r == -1,
                }
            }),
    {
        let cur: usize = if self.current < 0 {
            0
        } else {
            self.current as usize
        };
        let len: usize = if self.len < 0 {
            0
        } else {
            self.len as usize
        };
        match next_index(cur, len, RepeatMode::All) {
            Some(i) => {
                proof {
                    vstd::arithmetic::div_mod::lemma_mod_bound((cur + 1) as int, len as int);
                }
                i as i32
            },
            None => -1,
        }
    }
}

} // verus!
