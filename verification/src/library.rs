//! Library scanning: which files to read, how tags become a track record,
//! and how the outcome of a scan is counted.
//!
//! Walking the directory tree, reading modification times and tags, and
//! storing tracks are I/O and happen around these functions.

use vstd::prelude::*;
use crate::command::{ascii_fold, lemma_lowercase_ignores_ascii_case, lowercase, lowercase_spec};
use crate::model::NewTrack;
use crate::text::str_eq;

verus! {

// ---------------------------------------------------------------------------
// Tags
// ---------------------------------------------------------------------------

/// The tag fields of one audio file.
#[derive(Debug, Clone, PartialEq)]
pub struct TrackTags {
    pub title: Option<String>,
    pub artist: Option<String>,
    pub album: Option<String>,
    pub album_artist: Option<String>,
    pub track_no: Option<u32>,
    pub disc_no: Option<u32>,
    pub year: Option<i32>,
    pub genre: Option<String>,
    pub duration_ms: Option<u64>,
}

impl Default for TrackTags {
    fn default() -> (t: Self)
        ensures
            t.title is None && t.artist is None && t.album is None && t.album_artist is None,
            t.track_no is None && t.disc_no is None && t.year is None && t.genre is None,
            t.duration_ms is None,
    {
        TrackTags {
            title: None,
            artist: None,
            album: None,
            album_artist: None,
            track_no: None,
            disc_no: None,
            year: None,
            genre: None,
            duration_ms: None,
        }
    }
}

/// An embedded cover image extracted from an audio file.
#[derive(Debug, Clone)]
pub struct Cover {
    pub mime: String,
    pub data: Vec<u8>,
}

/// What a tag reader reports for one tag: its text fields, track and disc
/// numbers, and the year of its date.
#[derive(Debug, Clone, PartialEq)]
pub struct RawTag {
    pub title: Option<String>,
    pub artist: Option<String>,
    pub album: Option<String>,
    pub album_artist: Option<String>,
    pub track: Option<u32>,
    pub disk: Option<u32>,
    pub date_year: Option<u16>,
    pub genre: Option<String>,
}

/// The fields of one tag as `TrackTags`: the date contributes its year;
/// the duration is not part of a tag.
pub open spec fn tags_from_tag_spec(tag: RawTag) -> TrackTags {
    TrackTags {
        title: tag.title,
        artist: tag.artist,
        album: tag.album,
        album_artist: tag.album_artist,
        track_no: tag.track,
        disc_no: tag.disk,
        year: match tag.date_year {
            Some(y) => Some(y as i32),
            None => None,
        },
        genre: tag.genre,
        duration_ms: None,
    }
}

/// Map one tag to `TrackTags` (no I/O; the duration is not part of a tag).
pub fn tags_from_tag(tag: &RawTag) -> (t: TrackTags)
    ensures
        t == tags_from_tag_spec(*tag),
        t.title == tag.title,
        t.artist == tag.artist,
        t.album == tag.album,
        t.album_artist == tag.album_artist,
        t.track_no == tag.track,
        t.disc_no == tag.disk,
        tag.date_year is None ==> t.year is None,
        tag.date_year matches Some(y) ==> t.year == Some(y as i32),
        t.genre == tag.genre,
        t.duration_ms is None,
{
    TrackTags {
        title: tag.title.clone(),
        artist: tag.artist.clone(),
        album: tag.album.clone(),
        album_artist: tag.album_artist.clone(),
        track_no: tag.track,
        disc_no: tag.disk,
        year: match tag.date_year {
            Some(y) => Some(y as i32),
            None => None,
        },
        genre: tag.genre.clone(),
        duration_ms: None,
    }
}

/// Each field of a tag lands in its own field of `TrackTags`: title,
/// artist, album and album artist, genre, the track number as `track_no`, the
/// disc number as `disc_no`, the date's year as `year`; no duration.
pub proof fn lemma_tag_fields_map_to_their_own(tag: RawTag)
    ensures
        tags_from_tag_spec(tag).title == tag.title,
        tags_from_tag_spec(tag).artist == tag.artist,
        tags_from_tag_spec(tag).album == tag.album,
        tags_from_tag_spec(tag).album_artist == tag.album_artist,
        tags_from_tag_spec(tag).track_no == tag.track,
        tags_from_tag_spec(tag).disc_no == tag.disk,
        tag.date_year is None ==> tags_from_tag_spec(tag).year is None,
        tag.date_year matches Some(y) ==> tags_from_tag_spec(tag).year == Some(y as i32),
        tags_from_tag_spec(tag).genre == tag.genre,
        tags_from_tag_spec(tag).duration_ms is None,
{
}

/// The tags of a file: from its primary tag, else its first tag, else all
/// empty; the duration always comes from the file's audio properties.
pub fn tags_from_file(primary: Option<&RawTag>, first: Option<&RawTag>, duration_ms: u64) -> (t: TrackTags)
    ensures
        t.duration_ms == Some(duration_ms),
        match (primary, first) {
            (Some(tag), _) => t == (TrackTags { duration_ms: Some(duration_ms), ..tags_from_tag_spec(*tag) }),
            (None, Some(tag)) => t == (TrackTags { duration_ms: Some(duration_ms), ..tags_from_tag_spec(*tag) }),
            (None, None) => t.title is None && t.artist is None && t.album is None
                && t.album_artist is None && t.track_no is None && t.disc_no is None
                && t.year is None && t.genre is None,
        },
{
    let mut t = match primary {
        Some(tag) => tags_from_tag(tag),
        None => match first {
            Some(tag) => tags_from_tag(tag),
            None => TrackTags::default(),
        },
    };
    t.duration_ms = Some(duration_ms);
    t
}

/// Title used when a file has none in its tags and no readable file stem.
pub open spec fn unknown_title() -> Seq<char> {
    "Unknown"@
}

/// The record to store for a scanned file: its tags, with the title falling
/// back to the file stem (or "Unknown" when the stem is unreadable).
pub fn new_track_from_tags(
    path: String,
    mtime: i64,
    tags: TrackTags,
    stem: Option<String>,
    cover_thumb: Option<String>,
) -> (t: NewTrack)
    ensures
        t.path == path,
        t.mtime == mtime,
        t.title@ == (match tags.title {
            Some(s) => s@,
            None => match stem {
                Some(s) => s@,
                None => unknown_title(),
            },
        }),
        t.artist == tags.artist,
        t.album == tags.album,
        t.album_artist == tags.album_artist,
        t.track_no == tags.track_no,
        t.disc_no == tags.disc_no,
        t.year == tags.year,
        t.duration_ms == tags.duration_ms,
        t.genre == tags.genre,
        t.cover_thumb == cover_thumb,
{
    let stem_text = match stem {
        Some(s) => s,
        None => "Unknown".to_owned(),
    };
    let title = match tags.title {
        Some(t) => t,
        None => stem_text,
    };
    NewTrack {
        path,
        title,
        artist: tags.artist,
        album: tags.album,
        album_artist: tags.album_artist,
        track_no: tags.track_no,
        disc_no: tags.disc_no,
        year: tags.year,
        duration_ms: tags.duration_ms,
        mtime,
        cover_thumb,
        genre: tags.genre,
    }
}

// ---------------------------------------------------------------------------
// Which files are audio
// ---------------------------------------------------------------------------

/// The file extensions of audio formats, lowercase.
pub open spec fn is_audio_ext(e: Seq<char>) -> bool {
    ||| e == "mp3"@
    ||| e == "flac"@
    ||| e == "m4a"@
    ||| e == "aac"@
    ||| e == "ogg"@
    ||| e == "opus"@
    ||| e == "wav"@
    ||| e == "aiff"@
    ||| e == "alac"@
    ||| e == "wv"@
}

/// Whether a file extension names an audio format, ignoring case.
pub fn is_audio_extension(ext: &str) -> (r: bool)
    ensures
        r == is_audio_ext(lowercase_spec(ext@)),
        r <==> {
            let e = lowercase_spec(ext@);
            ||| e == "mp3"@
            ||| e == "flac"@
            ||| e == "m4a"@
            ||| e == "aac"@
            ||| e == "ogg"@
            ||| e == "opus"@
            ||| e == "wav"@
            ||| e == "aiff"@
            ||| e == "alac"@
            ||| e == "wv"@
        },
{
    let lower = lowercase(ext);
    let e = lower.as_str();
    str_eq(e, "mp3") || str_eq(e, "flac") || str_eq(e, "m4a") || str_eq(e, "aac") || str_eq(
        e,
        "ogg",
    ) || str_eq(e, "opus") || str_eq(e, "wav") || str_eq(e, "aiff") || str_eq(e, "alac")
        || str_eq(e, "wv")
}

/// Whether an extension is audio does not depend on the case of its ASCII
/// letters: `MP3`, `Mp3` and `mp3` are alike.
pub proof fn lemma_audio_extension_ignores_case(e1: Seq<char>, e2: Seq<char>)
    requires
        ascii_fold(e1) == ascii_fold(e2),
    ensures
        is_audio_ext(lowercase_spec(e1)) == is_audio_ext(lowercase_spec(e2)),
{
    lemma_lowercase_ignores_ascii_case(e1, e2);
}

// ---------------------------------------------------------------------------
// Planning and counting a scan
// ---------------------------------------------------------------------------

/// Counts of what a scan did.
#[derive(Debug, Clone, Copy, PartialEq, Eq)]
pub struct ScanSummary {
    pub added: usize,
    pub updated: usize,
    pub unchanged: usize,
    pub failed: usize,
}

impl Default for ScanSummary {
    fn default() -> (s: Self)
        ensures
            s.added == 0 && s.updated == 0 && s.unchanged == 0 && s.failed == 0,
    {
        ScanSummary { added: 0, updated: 0, unchanged: 0, failed: 0 }
    }
}

/// A file found by the scan: its path, its modification time in seconds
/// (`None` when it could not be read), and the time stored for it in the
/// library (`None` when the library does not know it).
#[derive(Debug, Clone)]
pub struct ScanCandidate {
    pub path: String,
    pub mtime: Option<i64>,
    pub known_mtime: Option<i64>,
}

/// A file whose tags must be (re-)read.
#[derive(Debug, Clone)]
pub struct ParseJob {
    pub path: String,
    pub mtime: i64,
    /// The library already held this path.
    pub was_known: bool,
}

/// Files to read, and the files counted already.
#[derive(Debug, Clone)]
pub struct ScanPlan {
    pub jobs: Vec<ParseJob>,
    pub unchanged: usize,
    pub failed: usize,
}

/// The file is unchanged since it was stored.
pub open spec fn is_unchanged(c: ScanCandidate) -> bool {
    c.mtime is Some && c.known_mtime == c.mtime
}

/// The file needs its tags read.
pub open spec fn needs_parse(c: ScanCandidate) -> bool {
    c.mtime is Some && c.known_mtime != c.mtime
}

pub open spec fn count_unchanged(s: Seq<ScanCandidate>) -> nat
    decreases s.len(),
{
    if s.len() == 0 {
        0
    } else {
        count_unchanged(s.drop_last()) + if is_unchanged(s.last()) {
            1nat
        } else {
            0nat
        }
    }
}

pub open spec fn count_unreadable(s: Seq<ScanCandidate>) -> nat
    decreases s.len(),
{
    if s.len() == 0 {
        0
    } else {
        count_unreadable(s.drop_last()) + if s.last().mtime is None {
            1nat
        } else {
            0nat
        }
    }
}

/// The parse jobs for the candidates, in order.
pub open spec fn jobs_for(s: Seq<ScanCandidate>) -> Seq<(Seq<char>, i64, bool)>
    decreases s.len(),
{
    if s.len() == 0 {
        Seq::empty()
    } else if needs_parse(s.last()) {
        jobs_for(s.drop_last()).push(
            (s.last().path@, s.last().mtime->0, s.last().known_mtime is Some),
        )
    } else {
        jobs_for(s.drop_last())
    }
}

/// The view of a parse job.
pub open spec fn job_view(j: ParseJob) -> (Seq<char>, i64, bool) {
    (j.path@, j.mtime, j.was_known)
}

/// Every file found by a scan is counted exactly once: as unchanged, as
/// unreadable, or as a file whose tags are read (whose outcome the summary
/// then counts as added, updated or failed).
pub proof fn lemma_candidates_partition(s: Seq<ScanCandidate>)
    ensures
        count_unchanged(s) + count_unreadable(s) + jobs_for(s).len() == s.len(),
    decreases s.len(),
{
    if s.len() > 0 {
        lemma_candidates_partition(s.drop_last());
    }
}

/// A rescan of files that all kept their stored modification time reads
/// no tags at all and counts every file as unchanged.
pub proof fn lemma_unchanged_scan_reads_nothing(s: Seq<ScanCandidate>)
    requires
        forall|i: int| 0 <= i < s.len() ==> is_unchanged(#[trigger] s[i]),
    ensures
        jobs_for(s).len() == 0,
        count_unchanged(s) == s.len(),
        count_unreadable(s) == 0,
    decreases s.len(),
{
    if s.len() > 0 {
        assert forall|i: int| 0 <= i < s.drop_last().len() implies is_unchanged(
            #[trigger] s.drop_last()[i],
        ) by {
            assert(s.drop_last()[i] == s[i]);
        }
        lemma_unchanged_scan_reads_nothing(s.drop_last());
        assert(is_unchanged(s[s.len() - 1]));
    }
}

/// Split the found files into unchanged ones, unreadable ones (counted as
/// failed), and those whose tags must be read.
pub fn plan_scan(files: Vec<ScanCandidate>) -> (p: ScanPlan)
    ensures
        p.jobs@.map_values(|j: ParseJob| job_view(j)) == jobs_for(files@),
        p.unchanged as nat == count_unchanged(files@),
        p.failed as nat == count_unreadable(files@),
{
    let mut jobs: Vec<ParseJob> = Vec::new();
    let mut unchanged: usize = 0;
    let mut failed: usize = 0;
    let n = files.len();
    let mut i: usize = 0;
    while i < n
        invariant
            n == files@.len(),
            i <= n,
            jobs@.map_values(|j: ParseJob| job_view(j)) == jobs_for(files@.take(i as int)),
            unchanged as nat == count_unchanged(files@.take(i as int)),
            failed as nat == count_unreadable(files@.take(i as int)),
            unchanged + failed + jobs@.len() <= i,
        decreases n - i,
    {
        let f = &files[i];
        proof {
            assert(files@.take(i + 1).drop_last() =~= files@.take(i as int));
            assert(files@.take(i + 1).last() == files@[i as int]);
            lemma_candidates_partition(files@.take(i as int));
        }
        let ghost old_jobs = jobs@;
        match f.mtime {
            None => {
                failed = failed + 1;
            },
            Some(m) => {
                let same = match f.known_mtime {
                    Some(k) => k == m,
                    None => false,
                };
                if same {
                    unchanged = unchanged + 1;
                } else {
                    jobs.push(
                        ParseJob { path: f.path.clone(), mtime: m, was_known: f.known_mtime.is_some() },
                    );
                    proof {
                        assert(jobs@.map_values(|j: ParseJob| job_view(j)) =~= old_jobs.map_values(
                            |j: ParseJob| job_view(j),
                        ).push(job_view(jobs@.last())));
                    }
                }
            },
        }
        i = i + 1;
    }
    proof {
        assert(files@.take(n as int) =~= files@);
    }
    ScanPlan { jobs, unchanged, failed }
}

/// What became of one file whose tags were read.
#[derive(Debug, Clone, Copy, PartialEq, Eq)]
pub enum ParseOutcome {
    /// Its tags could not be read.
    TagsFailed,
    /// Storing it failed.
    StoreFailed,
    /// It was stored.
    Stored,
}

/// Count one read file into the summary: a stored file is added when the
/// library did not know it and updated when it did; a failure counts as failed.
pub fn record_outcome(summary: &mut ScanSummary, was_known: bool, outcome: ParseOutcome)
    requires
        old(summary).added < usize::MAX,
        old(summary).updated < usize::MAX,
        old(summary).failed < usize::MAX,
    ensures
        final(summary).unchanged == old(summary).unchanged,
        final(summary).added == old(summary).added + if outcome == ParseOutcome::Stored
            && !was_known {
            1int
        } else {
            0int
        },
        final(summary).updated == old(summary).updated + if outcome == ParseOutcome::Stored
            && was_known {
            1int
        } else {
            0int
        },
        final(summary).failed == old(summary).failed + if outcome != ParseOutcome::Stored {
            1int
        } else {
            0int
        },
{
    match outcome {
        ParseOutcome::Stored => {
            if was_known {
                summary.updated = summary.updated + 1;
            } else {
                summary.added = summary.added + 1;
            }
        },
        _ => {
            summary.failed = summary.failed + 1;
        },
    }
}

/// The summary of a scan: the plan's counts, plus one count for the outcome
/// of each job, in order.
pub fn summarize_scan(plan: &ScanPlan, outcomes: &Vec<ParseOutcome>) -> (s: ScanSummary)
    requires
        outcomes@.len() == plan.jobs@.len(),
        plan.unchanged + plan.failed + plan.jobs@.len() < usize::MAX,
    ensures
        s.unchanged == plan.unchanged,
        s.added + s.updated + s.unchanged + s.failed == plan.unchanged + plan.failed
            + plan.jobs@.len(),
        s.added as int == count_where(plan.jobs@, outcomes@, true, false),
        s.updated as int == count_where(plan.jobs@, outcomes@, true, true),
{
    let mut s = ScanSummary { added: 0, updated: 0, unchanged: plan.unchanged, failed: plan.failed };
    let n = outcomes.len();
    let mut i: usize = 0;
    while i < n
        invariant
            n == outcomes@.len(),
            n == plan.jobs@.len(),
            plan.unchanged + plan.failed + n < usize::MAX,
            i <= n,
            s.unchanged == plan.unchanged,
            s.added + s.updated + s.failed == plan.failed + i,
            s.added as int == count_where(plan.jobs@.take(i as int), outcomes@.take(i as int), true, false),
            s.updated as int == count_where(plan.jobs@.take(i as int), outcomes@.take(i as int), true, true),
        decreases n - i,
    {
        proof {
            assert(plan.jobs@.take(i + 1).drop_last() =~= plan.jobs@.take(i as int));
            assert(outcomes@.take(i + 1).drop_last() =~= outcomes@.take(i as int));
        }
        record_outcome(&mut s, plan.jobs[i].was_known, outcomes[i]);
        i = i + 1;
    }
    proof {
        assert(plan.jobs@.take(n as int) =~= plan.jobs@);
        assert(outcomes@.take(n as int) =~= outcomes@);
    }
    s
}

/// How many jobs were stored (when `stored`) and had `was_known` equal to `known`.
pub open spec fn count_where(jobs: Seq<ParseJob>, outcomes: Seq<ParseOutcome>, stored: bool, known: bool) -> int
    decreases jobs.len(),
{
    if jobs.len() == 0 || outcomes.len() == 0 {
        0
    } else {
        count_where(jobs.drop_last(), outcomes.drop_last(), stored, known) + if (outcomes.last()
            == ParseOutcome::Stored) == stored && jobs.last().was_known == known {
            1int
        } else {
            0int
        }
    }
}

} // verus!
