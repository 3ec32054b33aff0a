use lyra::cli::{artist_label, play_index, print_range, state_label, PlayIndexError, TrackCache};
use lyra::engine::PlaybackState;
use lyra::model::Track;

fn track(id: i64, path: &str) -> Track {
    Track {
        id,
        path: path.to_string(),
        title: format!("T{id}"),
        artist: None,
        album: None,
        track_no: None,
        duration_ms: None,
        cover_thumb: None,
    }
}

#[test]
fn cache_looks_up_paths_by_id() {
    let mut c = TrackCache::new();
    assert_eq!(c.len(), 0);
    assert_eq!(c.path_for(1), None);
    c.load(vec![track(1, "/a"), track(2, "/b"), track(1, "/a2")]);
    assert_eq!(c.len(), 3);
    // A later track with the same id wins the lookup; `find` gives the first.
    assert_eq!(c.path_for(1), Some("/a2".to_string()));
    assert_eq!(c.path_for(2), Some("/b".to_string()));
    assert_eq!(c.path_for(3), None);
    assert_eq!(c.find(1).map(|t| t.path.as_str()), Some("/a"));
    assert!(c.find(3).is_none());
    assert_eq!(c.get(1).id, 2);
    c.load(vec![]);
    assert_eq!(c.path_for(2), None);
}

#[test]
fn play_numbers_are_one_based() {
    assert_eq!(play_index(0, 1), Err(PlayIndexError::NoResults));
    assert_eq!(play_index(3, 0), Err(PlayIndexError::OutOfRange));
    assert_eq!(play_index(3, 4), Err(PlayIndexError::OutOfRange));
    assert_eq!(play_index(3, 1), Ok(0));
    assert_eq!(play_index(3, 3), Ok(2));
}

#[test]
fn print_range_limits_and_counts_the_rest() {
    assert_eq!(print_range(30, 100), (30, 70));
    assert_eq!(print_range(30, 5), (5, 0));
}

#[test]
fn labels() {
    assert_eq!(state_label(PlaybackState::Playing), "Playing");
    assert_eq!(state_label(PlaybackState::Paused), "Paused");
    assert_eq!(state_label(PlaybackState::Stopped), "Stopped");
    assert_eq!(artist_label(&None), "Unknown Artist");
    assert_eq!(artist_label(&Some("Tycho".to_string())), "Tycho");
}
