use lyra::artcache::{make_thumbnail_png, thumb_file_name, to_hex, ArtCache, ArtError};
use lyra::library::{
    is_audio_extension, new_track_from_tags, plan_scan, record_outcome, summarize_scan,
    tags_from_file, tags_from_tag, ParseOutcome, RawTag, ScanCandidate, ScanSummary, TrackTags,
};
use lyra::model::{fts_prefix_query, track_from_row};

fn raw(title: Option<&str>) -> RawTag {
    RawTag {
        title: title.map(|s| s.to_string()),
        artist: Some("Tycho".to_string()),
        album: Some("Blue Hour".to_string()),
        album_artist: None,
        track: Some(3),
        disk: None,
        date_year: Some(2016),
        genre: Some("Ambient".to_string()),
    }
}

#[test]
fn maps_primary_tag_fields() {
    let tt = tags_from_tag(&raw(Some("Awake")));
    assert_eq!(tt.title.as_deref(), Some("Awake"));
    assert_eq!(tt.artist.as_deref(), Some("Tycho"));
    assert_eq!(tt.album.as_deref(), Some("Blue Hour"));
    assert_eq!(tt.track_no, Some(3));
    assert_eq!(tt.year, Some(2016));
    assert_eq!(tt.genre.as_deref(), Some("Ambient"));
    assert_eq!(tt.duration_ms, None);
}

#[test]
fn file_tags_prefer_primary_then_first_and_always_carry_duration() {
    let p = raw(Some("P"));
    let f = raw(Some("F"));
    assert_eq!(tags_from_file(Some(&p), Some(&f), 42).title.as_deref(), Some("P"));
    assert_eq!(tags_from_file(None, Some(&f), 42).title.as_deref(), Some("F"));
    let none = tags_from_file(None, None, 42);
    assert_eq!(none, TrackTags { duration_ms: Some(42), ..TrackTags::default() });
}

#[test]
fn title_falls_back_to_stem_then_unknown() {
    let tags = TrackTags { title: None, ..TrackTags::default() };
    let t = new_track_from_tags("/m/a.flac".to_string(), 7, tags.clone(), Some("a".to_string()), None);
    assert_eq!(t.title, "a");
    assert_eq!(t.path, "/m/a.flac");
    assert_eq!(t.mtime, 7);
    let t = new_track_from_tags("/m/x".to_string(), 7, tags, None, Some("/c.png".to_string()));
    assert_eq!(t.title, "Unknown");
    assert_eq!(t.cover_thumb.as_deref(), Some("/c.png"));
    let tagged = TrackTags { title: Some("Tagged".to_string()), genre: Some("Jazz".to_string()), ..TrackTags::default() };
    let t = new_track_from_tags("/m/y".to_string(), 1, tagged, Some("y".to_string()), None);
    assert_eq!(t.title, "Tagged");
    assert_eq!(t.genre.as_deref(), Some("Jazz"));
}

#[test]
fn audio_extensions_ignore_case() {
    assert!(is_audio_extension("flac"));
    assert!(is_audio_extension("MP3"));
    assert!(is_audio_extension("Ogg"));
    assert!(is_audio_extension("wv"));
    assert!(!is_audio_extension("jpg"));
    assert!(!is_audio_extension("txt"));
    assert!(!is_audio_extension(""));
}

fn cand(path: &str, mtime: Option<i64>, known: Option<i64>) -> ScanCandidate {
    ScanCandidate { path: path.to_string(), mtime, known_mtime: known }
}

#[test]
fn scan_is_incremental() {
    // First scan: nothing known, both files are read and added.
    let first = plan_scan(vec![cand("/a.wav", Some(100), None), cand("/b.wav", Some(100), None)]);
    assert_eq!(first.jobs.len(), 2);
    let s1 = summarize_scan(&first, &vec![ParseOutcome::Stored, ParseOutcome::Stored]);
    assert_eq!((s1.added, s1.updated), (2, 0));
    // Second scan: nothing changed.
    let second = plan_scan(vec![cand("/a.wav", Some(100), Some(100)), cand("/b.wav", Some(100), Some(100))]);
    assert!(second.jobs.is_empty());
    let s2 = summarize_scan(&second, &vec![]);
    assert_eq!((s2.added, s2.updated, s2.unchanged), (0, 0, 2));
    // Third scan: a.wav changed.
    let third = plan_scan(vec![cand("/a.wav", Some(101), Some(100)), cand("/b.wav", Some(100), Some(100))]);
    assert_eq!(third.jobs.len(), 1);
    assert_eq!(third.jobs[0].path, "/a.wav");
    assert_eq!(third.jobs[0].mtime, 101);
    assert!(third.jobs[0].was_known);
    let s3 = summarize_scan(&third, &vec![ParseOutcome::Stored]);
    assert!(s3.updated >= 1);
    assert_eq!((s3.added, s3.updated, s3.unchanged, s3.failed), (0, 1, 1, 0));
}

#[test]
fn unreadable_and_failed_files_count_as_failed() {
    let plan = plan_scan(vec![
        cand("/x", None, Some(5)),
        cand("/y", Some(1), None),
        cand("/z", Some(2), Some(1)),
        cand("/w", Some(3), None),
    ]);
    assert_eq!(plan.failed, 1);
    assert_eq!(plan.unchanged, 0);
    assert_eq!(plan.jobs.len(), 3);
    let s = summarize_scan(
        &plan,
        &vec![ParseOutcome::TagsFailed, ParseOutcome::Stored, ParseOutcome::StoreFailed],
    );
    assert_eq!((s.added, s.updated, s.unchanged, s.failed), (0, 1, 0, 3));
}

#[test]
fn record_outcome_counts_one_file() {
    let mut s = ScanSummary::default();
    record_outcome(&mut s, false, ParseOutcome::Stored);
    record_outcome(&mut s, true, ParseOutcome::Stored);
    record_outcome(&mut s, true, ParseOutcome::TagsFailed);
    assert_eq!(s, ScanSummary { added: 1, updated: 1, unchanged: 0, failed: 1 });
}

#[test]
fn hex_is_lowercase_two_digits_per_byte() {
    assert_eq!(to_hex(&[0x00, 0x0f, 0xa0, 0xff]), "000fa0ff");
    assert_eq!(to_hex(&[]), "");
}

#[test]
fn thumb_name_is_blake3_hex_png() {
    // BLAKE3 of the empty input.
    assert_eq!(
        thumb_file_name(&[]),
        "af1349b9f5f9a1a6a0404dea36dcc9499bcb25c9adc112b7cc9a93cae41f3262.png"
    );
    let a = thumb_file_name(b"cover");
    assert_eq!(a, thumb_file_name(b"cover"));
    assert_ne!(a, thumb_file_name(b"cover2"));
    assert_eq!(a.len(), 68);
    let cache = ArtCache::new("/cache/art".to_string());
    assert_eq!(cache.dir(), "/cache/art");
    assert_eq!(cache.thumb_path(&[]), format!("/cache/art/{}", thumb_file_name(&[])));
}

fn png_bytes(w: u32, h: u32) -> Vec<u8> {
    let img = image::RgbImage::from_fn(w, h, |x, _| image::Rgb([(x % 256) as u8, 0, 0]));
    let mut buf = std::io::Cursor::new(Vec::new());
    image::DynamicImage::ImageRgb8(img).write_to(&mut buf, image::ImageFormat::Png).unwrap();
    buf.into_inner()
}

#[test]
fn stores_thumbnail_and_dedups_by_hash() {
    let src = png_bytes(512, 400);
    let png = make_thumbnail_png(&src).unwrap();
    let thumb = image::load_from_memory(&png).unwrap();
    let (w, h) = (thumb.width(), thumb.height());
    assert!(w <= 256 && h <= 256 && (w == 256 || h == 256));
    let cache = ArtCache::new("/tmp/art".to_string());
    assert_eq!(cache.thumb_path(&src), cache.thumb_path(&src));
}

#[test]
fn thumbnail_of_garbage_is_a_decode_error() {
    assert!(matches!(make_thumbnail_png(b"not an image"), Err(ArtError::Decode(_))));
}

#[test]
fn stored_rows_convert_with_casts() {
    let t = track_from_row(1, "/p".to_string(), "T".to_string(), None, None, Some(4), Some(-1), None);
    assert_eq!(t.track_no, Some(4));
    assert_eq!(t.duration_ms, Some(u64::MAX));
    let t = track_from_row(1, "/p".to_string(), "T".to_string(), None, None, Some(1 << 32), None, None);
    assert_eq!(t.track_no, Some(0));
    assert_eq!(t.duration_ms, None);
}

#[test]
fn fts_query_quotes_and_prefixes() {
    assert_eq!(fts_prefix_query("tycho"), "\"tycho\"*");
    assert_eq!(fts_prefix_query("say \"hi\""), "\"say \"\"hi\"\"\"*");
    assert_eq!(fts_prefix_query(""), "\"\"*");
}
