//! Repeat modes and the pure "which index plays next" rule.

use vstd::prelude::*;

verus! {

/// How a play queue behaves when it runs past its end.
#[derive(Debug, Clone, Copy, PartialEq, Eq, Structural)]
pub enum RepeatMode {
    Off,
    All,
    One,
}

/// The index that plays after `current` in a queue of `len` items.
/// `None` means "stop": the queue is empty, or it ended with repeat off.
pub open spec fn spec_next_index(current: int, len: int, mode: RepeatMode) -> Option<int> {
    if len == 0 {
        None
    } else {
        match mode {
            RepeatMode::One => Some(current),
            RepeatMode::All => Some((current + 1) % len),
            RepeatMode::Off => if current + 1 < len {
                Some(current + 1)
            } else {
                None
            },
        }
    }
}

/// Next index in a play queue. `None` means "stop" (end of queue with
/// `Off`, or an empty queue). Same inputs give the same output.
pub fn next_index(current: usize, len: usize, mode: RepeatMode) -> (r: Option<usize>)
    requires
        len > 0 && mode != RepeatMode::One ==> current < usize::MAX,
    ensures
        r matches Some(i) ==> spec_next_index(current as int, len as int, mode) == Some(i as int),
        r is None <==> spec_next_index(current as int, len as int, mode) is None,
{
    if len == 0 {
        return None;
    }
    match mode {
        RepeatMode::One => Some(current),
        RepeatMode::All => Some((current + 1) % len),
        RepeatMode::Off => {
            let next = current + 1;
            if next < len {
                Some(next)
            } else {
                None
            }
        },
    }
}

/// Whenever the rule names an index, that index is inside the queue,
/// provided the current one was.
pub proof fn lemma_next_index_in_range(current: int, len: int, mode: RepeatMode)
    requires
        0 <= current < len,
    ensures
        spec_next_index(current, len, mode) matches Some(i) ==> 0 <= i < len,
{
}

/// With repeat on (all or one), a non-empty queue never stops.
pub proof fn lemma_repeat_never_stops(current: int, len: int, mode: RepeatMode)
    requires
        0 <= current < len,
        mode != RepeatMode::Off,
    ensures
        spec_next_index(current, len, mode) is Some,
{
}

/// With repeat all, stepping `k` times from `current` lands on `(current + k) % len`.
pub open spec fn spec_step_all(current: int, len: int, k: nat) -> int
    decreases k,
{
    if k == 0 {
        current
    } else {
        (spec_step_all(current, len, (k - 1) as nat) + 1) % len
    }
}

/// Repeat-all walks the queue cyclically: after `len` steps it is back where it started.
pub proof fn lemma_repeat_all_cycles(current: int, len: int, k: nat)
    requires
        0 <= current < len,
    ensures
        spec_step_all(current, len, k) == (current + k) % len,
    decreases k,
{
    if k == 0 {
        vstd::arithmetic::div_mod::lemma_small_mod(current as nat, len as nat);
    } else {
        lemma_repeat_all_cycles(current, len, (k - 1) as nat);
        vstd::arithmetic::div_mod::lemma_add_mod_noop_right(1, current + (k - 1), len);
    }
}

} // verus!
