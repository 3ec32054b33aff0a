use lyra::model::Track;
use lyra::queue::PlayQueue;
use lyra::repeat::RepeatMode;
use lyra::ui::{
    choose_track, current_track, cycle_repeat, edge_message, eq_band, navigate, Navigation, is_blank_query, load_list, restore_queue, find_row, list_selection, metadata_fields,
    play_pause_action, playlist_from_entries, repeat_from_label, repeat_label, restore_index,
    row_from_track, row_ids, row_position, session_index, status_from_text, upcoming_rows,
    LibraryController, ListError, MediaAction, PlayStatus, PlaylistEntry, TrackRow,
};

fn row(id: i64, path: &str) -> TrackRow {
    TrackRow {
        id,
        title: format!("T{id}"),
        artist: "A".to_string(),
        path: path.to_string(),
        cover_thumb: String::new(),
        duration_ms: 1000 * id as u64,
    }
}

fn playlist() -> Vec<TrackRow> {
    vec![row(1, "/a"), row(2, "/b"), row(3, "/c"), row(2, "/b2")]
}

#[test]
fn find_row_takes_the_first_match() {
    let p = playlist();
    assert_eq!(find_row(&p, 2).map(|r| r.path.as_str()), Some("/b"));
    assert_eq!(find_row(&p, 9), None);
    assert_eq!(row_position(&p, 3), Some(2));
    assert_eq!(row_position(&p, 9), None);
}

#[test]
fn upcoming_rows_follow_the_given_ids() {
    let p = playlist();
    let rows = upcoming_rows(&p, &[3, 2, 1]);
    let up: Vec<&str> = rows.iter().map(|r| r.path.as_str()).collect();
    // Each id's first row, in the order of the ids.
    assert_eq!(up, vec!["/c", "/b", "/a"]);
    // Ids without a row are skipped.
    let up: Vec<i64> = upcoming_rows(&p, &[9, 1]).iter().map(|r| r.id).collect();
    assert_eq!(up, vec![1]);
    assert!(upcoming_rows(&p, &[]).is_empty());
}

#[test]
fn choose_track_bundles_row_next_and_upcoming() {
    let p = playlist();
    let c = choose_track(&p, 3, &[1, 2]).expect("row 3 exists");
    assert_eq!(c.row, row(3, "/c"));
    assert_eq!(c.next_path, Some("/a".to_string()));
    assert_eq!(c.upcoming, vec![row(1, "/a"), row(2, "/b")]);
    let c = choose_track(&p, 1, &[]).expect("row 1 exists");
    assert_eq!(c.next_path, None);
    assert!(choose_track(&p, 42, &[1]).is_none());
}

#[test]
fn up_next_follows_the_shuffled_play_order() {
    let p = vec![row(10, "/a"), row(20, "/b"), row(30, "/c"), row(40, "/d"), row(50, "/e")];
    let mut q = PlayQueue::new();
    q.set_shuffle(true);
    load_list(&mut q, &p, 0);
    let expected = q.upcoming(usize::MAX);
    match navigate(&mut q, &p, true) {
        Navigation::Play(c) => {
            assert_eq!(Some(c.row.id), q.current());
            assert_eq!(Some(c.row.id), Some(expected[0]));
            let shown: Vec<i64> = c.upcoming.iter().map(|r| r.id).collect();
            assert_eq!(shown, q.upcoming(usize::MAX));
            // Up Next is what `next` really plays, in order.
            let mut played = Vec::new();
            while let Some(id) = q.next() {
                played.push(id);
            }
            assert_eq!(shown, played);
        }
        other => panic!("expected a track, got {other:?}"),
    }
}

#[test]
fn playlist_keeps_entries_with_id_and_path() {
    let entries = vec![
        PlaylistEntry {
            id: Some(7),
            title: Some("Seven".to_string()),
            artist: None,
            path: Some("/7.flac".to_string()),
            cover_thumb: None,
            duration_ms: Some(1234),
        },
        PlaylistEntry { id: None, title: None, artist: None, path: Some("/x".to_string()), cover_thumb: None, duration_ms: None },
        PlaylistEntry { id: Some(8), title: None, artist: None, path: Some(String::new()), cover_thumb: None, duration_ms: None },
        PlaylistEntry { id: Some(9), title: None, artist: None, path: None, cover_thumb: None, duration_ms: None },
        PlaylistEntry {
            id: Some(10),
            title: None,
            artist: Some("Ten".to_string()),
            path: Some("/10.mp3".to_string()),
            cover_thumb: Some("/c.png".to_string()),
            duration_ms: None,
        },
    ];
    let rows = playlist_from_entries(&entries);
    assert_eq!(rows.len(), 2);
    assert_eq!(
        rows[0],
        TrackRow {
            id: 7,
            title: "Seven".to_string(),
            artist: String::new(),
            path: "/7.flac".to_string(),
            cover_thumb: String::new(),
            duration_ms: 1234
        }
    );
    assert_eq!(rows[1].id, 10);
    assert_eq!(rows[1].title, "");
    assert_eq!(rows[1].artist, "Ten");
    assert_eq!(rows[1].cover_thumb, "/c.png");
    assert_eq!(rows[1].duration_ms, 0);
    assert_eq!(row_ids(&rows), vec![7, 10]);
}

#[test]
fn fallback_row_from_library_track() {
    let t = Track {
        id: 4,
        path: "/4.ogg".to_string(),
        title: "Four".to_string(),
        artist: None,
        album: Some("Al".to_string()),
        track_no: Some(1),
        duration_ms: None,
        cover_thumb: Some("/4.png".to_string()),
    };
    let r = row_from_track(&t);
    assert_eq!(r.id, 4);
    assert_eq!(r.title, "Four");
    assert_eq!(r.artist, "");
    assert_eq!(r.path, "/4.ogg");
    assert_eq!(r.cover_thumb, "/4.png");
    assert_eq!(r.duration_ms, 0);
}

#[test]
fn list_selection_errors() {
    assert_eq!(list_selection(0, 0), Err(ListError::EmptyPlaylist));
    assert_eq!(list_selection(3, 3), Err(ListError::IndexOutOfRange));
    assert_eq!(list_selection(3, -1), Err(ListError::IndexOutOfRange));
    assert_eq!(list_selection(3, 2), Ok(2));
    assert_eq!(ListError::EmptyPlaylist.message(), "Play error: empty playlist");
    assert_eq!(ListError::IndexOutOfRange.message(), "Play error: index out of range");
}

#[test]
fn restore_index_clamps_to_the_last_row() {
    assert_eq!(restore_index(1, 3), 1);
    assert_eq!(restore_index(7, 3), 2);
    assert_eq!(restore_index(-1, 3), 2);
    assert_eq!(restore_index(0, 1), 0);
}

#[test]
fn session_index_is_position_of_current() {
    let p = playlist();
    assert_eq!(session_index(&p, Some(3)), 2);
    assert_eq!(session_index(&p, Some(9)), 0);
    assert_eq!(session_index(&p, None), 0);
}

#[test]
fn repeat_button_cycles_and_labels_round_trip() {
    assert_eq!(cycle_repeat(RepeatMode::Off), RepeatMode::All);
    assert_eq!(cycle_repeat(RepeatMode::All), RepeatMode::One);
    assert_eq!(cycle_repeat(RepeatMode::One), RepeatMode::Off);
    for m in [RepeatMode::Off, RepeatMode::All, RepeatMode::One] {
        assert_eq!(repeat_from_label(repeat_label(m)), m);
        assert_eq!(cycle_repeat(cycle_repeat(cycle_repeat(m))), m);
    }
    assert_eq!(repeat_label(RepeatMode::All), "all");
    assert_eq!(repeat_from_label("ALL"), RepeatMode::Off);
    assert_eq!(repeat_from_label("one"), RepeatMode::One);
}

#[test]
fn status_text_and_media_key() {
    assert_eq!(status_from_text("Playing"), PlayStatus::Playing);
    assert_eq!(status_from_text("Paused"), PlayStatus::Paused);
    assert_eq!(status_from_text("Play error: boom"), PlayStatus::Stopped);
    assert_eq!(play_pause_action(PlayStatus::Playing), MediaAction::Pause);
    assert_eq!(play_pause_action(PlayStatus::Paused), MediaAction::Resume);
    assert_eq!(play_pause_action(PlayStatus::Stopped), MediaAction::Nothing);
}

#[test]
fn metadata_fields_skip_empty_values() {
    let m = metadata_fields("Song", "", "/art/x.png", 0);
    assert_eq!(m.title, Some("Song".to_string()));
    assert_eq!(m.artist, None);
    assert_eq!(m.length_us, None);
    assert_eq!(m.art_url, Some("file:///art/x.png".to_string()));
    let m = metadata_fields("", "Band", "", 5_000_000);
    assert_eq!(m.title, None);
    assert_eq!(m.artist, Some("Band".to_string()));
    assert_eq!(m.length_us, Some(5_000_000));
    assert_eq!(m.art_url, None);
}

#[test]
fn library_controller_next_index_wraps() {
    assert_eq!(LibraryController { current: 0, len: 3 }.next_index(), 1);
    assert_eq!(LibraryController { current: 2, len: 3 }.next_index(), 0);
    assert_eq!(LibraryController { current: -5, len: 3 }.next_index(), 1);
    assert_eq!(LibraryController { current: 0, len: 0 }.next_index(), -1);
    assert_eq!(LibraryController { current: 1, len: -2 }.next_index(), -1);
}

#[test]
fn eq_band_and_blank_query() {
    assert_eq!(eq_band(0), Some(0));
    assert_eq!(eq_band(9), Some(9));
    assert_eq!(eq_band(10), None);
    assert_eq!(eq_band(-1), None);
    assert!(is_blank_query(""));
    assert!(is_blank_query(" \t\n"));
    assert!(!is_blank_query("  tycho "));
}

#[test]
fn playing_from_a_list_makes_the_chosen_row_current() {
    let p = playlist();
    let mut q = PlayQueue::new();
    load_list(&mut q, &p, 2);
    assert_eq!(q.current(), Some(3));
    assert_eq!(q.next(), Some(2));
}

#[test]
fn restoring_a_session_reopens_on_the_saved_track() {
    let p = vec![row(10, "/a"), row(20, "/b"), row(30, "/c"), row(40, "/d")];
    let mut q = PlayQueue::new();
    let idx = restore_queue(&mut q, &p, 2, true, RepeatMode::All);
    assert_eq!(idx, 2);
    assert_eq!(q.current(), Some(30));
    assert!(q.shuffle());
    assert_eq!(q.repeat(), RepeatMode::All);
    let mut q = PlayQueue::new();
    let idx = restore_queue(&mut q, &p, 99, false, RepeatMode::Off);
    assert_eq!(idx, 3);
    assert_eq!(q.current(), Some(40));
}

#[test]
fn next_and_prev_resolve_rows_or_report_the_edge() {
    let p = vec![row(10, "/a"), row(20, "/b"), row(30, "/c")];
    let mut q = PlayQueue::new();
    load_list(&mut q, &p, 1);
    match navigate(&mut q, &p, true) {
        Navigation::Play(c) => {
            assert_eq!(c.row.id, 30);
            assert_eq!(c.next_path, None);
            assert!(c.upcoming.is_empty());
        }
        other => panic!("expected a track, got {other:?}"),
    }
    assert!(matches!(navigate(&mut q, &p, true), Navigation::Edge));
    assert_eq!(q.current(), Some(30));
    match navigate(&mut q, &p, false) {
        Navigation::Play(c) => assert_eq!(c.row.id, 20),
        other => panic!("expected a track, got {other:?}"),
    }
    assert_eq!(current_track(&q, &p).map(|c| c.row.id), Some(20));
    // A queue id the playlist does not hold plays nothing.
    assert!(matches!(navigate(&mut q, &[row(99, "/z")], false), Navigation::NotInPlaylist));
    assert_eq!(edge_message(true), "End of queue");
    assert_eq!(edge_message(false), "Beginning of queue");
    assert!(current_track(&PlayQueue::new(), &p).is_none());
}
