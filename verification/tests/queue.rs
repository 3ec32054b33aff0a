use lyra::queue::PlayQueue;
use lyra::repeat::RepeatMode;
use std::collections::HashSet;

#[test]
fn empty_current_is_none() {
    let q = PlayQueue::new();
    assert_eq!(q.current(), None);
}

#[test]
fn upcoming_follows_play_order() {
    let mut q = PlayQueue::new();
    q.set_items(vec![10i64, 20, 30, 40, 50]);
    q.jump_to(0);
    assert_eq!(q.upcoming(2), vec![20, 30]);
    q.set_shuffle(true);
    let up = q.upcoming(3);
    let mut walk = Vec::new();
    for _ in 0..3 {
        if let Some(id) = q.next() {
            walk.push(id);
        }
    }
    assert_eq!(up, walk, "upcoming() must match the order next() plays");
}

#[test]
fn shuffle_off_then_next_is_sequential() {
    let items = vec![10i64, 20, 30, 40, 50];
    let mut q = PlayQueue::new();
    q.set_items(items.clone());
    q.set_shuffle(true);
    q.jump_to(0);
    q.next();
    q.next();
    let cur = q.current().unwrap();

    q.set_shuffle(false);
    assert_eq!(q.current(), Some(cur), "current track changed on shuffle-off");

    let cur_idx = items.iter().position(|&x| x == cur).unwrap();
    let expected = items.get(cur_idx + 1).copied();
    assert_eq!(q.next(), expected, "next after shuffle-off is not sequential");
}

#[test]
fn empty_next_is_none() {
    let mut q = PlayQueue::new();
    assert_eq!(q.next(), None);
}

#[test]
fn set_items_current_is_first() {
    let mut q = PlayQueue::new();
    q.set_items(vec![10, 20, 30]);
    assert_eq!(q.current(), Some(10));
}

#[test]
fn next_walks_linear() {
    let mut q = PlayQueue::new();
    q.set_items(vec![10, 20, 30]);
    assert_eq!(q.current(), Some(10));
    assert_eq!(q.next(), Some(20));
    assert_eq!(q.next(), Some(30));
}

#[test]
fn repeat_off_past_end_is_none() {
    let mut q = PlayQueue::new();
    q.set_items(vec![10, 20, 30]);
    q.set_repeat(RepeatMode::Off);
    q.next();
    q.next();
    assert_eq!(q.next(), None);
}

#[test]
fn repeat_all_wraps_to_first() {
    let mut q = PlayQueue::new();
    q.set_items(vec![10, 20, 30]);
    q.set_repeat(RepeatMode::All);
    q.next();
    q.next();
    assert_eq!(q.next(), Some(10));
}

#[test]
fn prev_goes_back() {
    let mut q = PlayQueue::new();
    q.set_items(vec![10, 20, 30]);
    q.next();
    assert_eq!(q.prev(), Some(10));
}

#[test]
fn prev_at_start_stays_at_first_when_off() {
    let mut q = PlayQueue::new();
    q.set_items(vec![10, 20, 30]);
    q.set_repeat(RepeatMode::Off);
    assert_eq!(q.prev(), Some(10));
}

#[test]
fn jump_to_positions_correctly() {
    let mut q = PlayQueue::new();
    q.set_items(vec![10, 20, 30]);
    q.jump_to(2);
    assert_eq!(q.current(), Some(30));
}

#[test]
fn append_is_reachable() {
    let mut q = PlayQueue::new();
    q.set_items(vec![10, 20, 30]);
    q.append(40);
    q.next();
    q.next();
    assert_eq!(q.next(), Some(40));
}

#[test]
fn shuffle_visits_all_items_no_repeats() {
    let mut q = PlayQueue::new();
    q.set_items(vec![10, 20, 30]);
    q.set_shuffle_seeded(true, 42);

    let mut visited: Vec<i64> = Vec::new();
    if let Some(id) = q.current() {
        visited.push(id);
    }
    for _ in 0..2 {
        q.set_repeat(RepeatMode::Off);
        if let Some(id) = q.next() {
            visited.push(id);
        }
    }

    assert_eq!(visited.len(), 3, "should visit exactly 3 items");
    let set: HashSet<i64> = visited.iter().copied().collect();
    assert!(set.contains(&10));
    assert!(set.contains(&20));
    assert!(set.contains(&30));
    assert_eq!(set.len(), 3, "each item visited exactly once");
}

#[test]
fn clear_resets_queue() {
    let mut q = PlayQueue::new();
    q.set_items(vec![10, 20, 30]);
    q.clear();
    assert_eq!(q.current(), None);
    assert_eq!(q.next(), None);
}

// ── further cases ───────────────────────────────────────────────────────────

#[test]
fn prev_undoes_next_with_repeat_all_wrap() {
    let mut q = PlayQueue::new();
    q.set_items(vec![1, 2, 3]);
    q.set_repeat(RepeatMode::All);
    q.jump_to(2);
    assert_eq!(q.next(), Some(1));
    assert_eq!(q.prev(), Some(3));
}

#[test]
fn prev_wraps_to_last_with_repeat_all() {
    let mut q = PlayQueue::new();
    q.set_items(vec![1, 2, 3]);
    q.set_repeat(RepeatMode::All);
    assert_eq!(q.prev(), Some(3));
}

#[test]
fn repeat_one_next_stays_on_current() {
    let mut q = PlayQueue::new();
    q.set_items(vec![1, 2, 3]);
    q.set_repeat(RepeatMode::One);
    q.jump_to(1);
    assert_eq!(q.next(), Some(2));
    assert_eq!(q.repeat(), RepeatMode::One);
}

#[test]
fn jump_out_of_range_is_none_and_keeps_current() {
    let mut q = PlayQueue::new();
    q.set_items(vec![1, 2, 3]);
    q.jump_to(1);
    assert_eq!(q.jump_to(3), None);
    assert_eq!(q.current(), Some(2));
}

#[test]
fn jump_to_in_shuffle_mode_targets_linear_index() {
    let mut q = PlayQueue::new();
    q.set_items(vec![10, 20, 30, 40, 50, 60, 70]);
    q.set_shuffle_seeded(true, 7);
    for i in 0..7 {
        assert_eq!(q.jump_to(i), Some(10 * (i as i64 + 1)));
        assert_eq!(q.current(), Some(10 * (i as i64 + 1)));
    }
}

#[test]
fn shuffle_is_deterministic_for_a_seed() {
    let items: Vec<i64> = (1..=20).collect();
    let mut a = PlayQueue::new();
    a.set_items(items.clone());
    a.set_shuffle_seeded(true, 99);
    let mut b = PlayQueue::new();
    b.set_items(items);
    b.set_shuffle_seeded(true, 99);
    assert_eq!(a.upcoming(100), b.upcoming(100));
    assert!(a.shuffle());
}

#[test]
fn shuffled_walk_is_a_permutation() {
    let items: Vec<i64> = (1..=25).collect();
    let mut q = PlayQueue::new();
    q.set_shuffle_seeded(true, 12345);
    q.set_items(items.clone());
    let mut seen = vec![q.current().unwrap()];
    while let Some(id) = q.next() {
        seen.push(id);
    }
    seen.sort();
    assert_eq!(seen, items);
}

#[test]
fn upcoming_is_empty_on_empty_queue_and_capped() {
    let mut q = PlayQueue::new();
    assert!(q.upcoming(5).is_empty());
    q.set_items(vec![1, 2, 3]);
    assert_eq!(q.upcoming(10), vec![2, 3]);
    assert_eq!(q.upcoming(0), Vec::<i64>::new());
}

#[test]
fn append_to_empty_queue_becomes_current() {
    let mut q = PlayQueue::default();
    q.append(5);
    assert_eq!(q.current(), Some(5));
}
