use lyra::repeat::{next_index, RepeatMode};

#[test]
fn advances_within_queue() {
    assert_eq!(next_index(0, 3, RepeatMode::Off), Some(1));
    assert_eq!(next_index(1, 3, RepeatMode::Off), Some(2));
}

#[test]
fn stops_at_end_when_repeat_off() {
    assert_eq!(next_index(2, 3, RepeatMode::Off), None);
}

#[test]
fn wraps_when_repeat_all() {
    assert_eq!(next_index(2, 3, RepeatMode::All), Some(0));
}

#[test]
fn repeat_one_holds_position() {
    assert_eq!(next_index(1, 3, RepeatMode::One), Some(1));
}

#[test]
fn empty_queue_yields_none() {
    assert_eq!(next_index(0, 0, RepeatMode::All), None);
}

#[test]
fn repeat_all_cycles_back_after_len_steps() {
    let len = 4;
    let mut cur = 1;
    for _ in 0..len {
        cur = next_index(cur, len, RepeatMode::All).unwrap();
    }
    assert_eq!(cur, 1);
}

#[test]
fn repeat_one_on_empty_queue_is_none() {
    assert_eq!(next_index(5, 0, RepeatMode::One), None);
}
