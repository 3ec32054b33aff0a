//! `PlayQueue`: an ordered list of track ids with repeat and a deterministic,
//! seeded shuffle.
//!
//! In linear mode the items are walked in insertion order; in shuffle mode an
//! explicit permutation `order` of the item indices is built once from a seed
//! and walked instead. The position always indexes `order`.

use vstd::prelude::*;
use crate::repeat::{next_index, spec_next_index, RepeatMode};

verus! {

/// Seed used by `set_shuffle`, fixed so that shuffling is reproducible.
pub const DEFAULT_SEED: u64 = 0xdead_beef_cafe_1234u64;

// ---------------------------------------------------------------------------
// SplitMix64 and the Fisher–Yates shuffle it drives
// ---------------------------------------------------------------------------

/// One SplitMix64 step on `state`: the new state and the output word.
pub open spec fn splitmix_step(state: u64) -> (u64, u64) {
    let s = vstd::wrapping::u64_specs::wrapping_add(state, 0x9e37_79b9_7f4a_7c15u64);
    let z1 = vstd::wrapping::u64_specs::wrapping_mul(s ^ (s >> 30u64), 0xbf58_476d_1ce4_e5b9u64);
    let z2 = vstd::wrapping::u64_specs::wrapping_mul(z1 ^ (z1 >> 27u64), 0x94d0_49bb_1331_11ebu64);
    (s, z2 ^ (z2 >> 31u64))
}

struct SplitMix64(u64);

impl SplitMix64 {
    fn next(&mut self) -> (r: u64)
        ensures
            (final(self).0, r) == splitmix_step(old(self).0),
    {
        self.0 = self.0.wrapping_add(0x9e37_79b9_7f4a_7c15u64);
        let mut z = self.0;
        z = (z ^ (z >> 30u64)).wrapping_mul(0xbf58_476d_1ce4_e5b9u64);
        z = (z ^ (z >> 27u64)).wrapping_mul(0x94d0_49bb_1331_11ebu64);
        z ^ (z >> 31u64)
    }
}

/// `s` with the elements at `i` and `j` exchanged.
pub open spec fn swap_spec(s: Seq<usize>, i: int, j: int) -> Seq<usize> {
    s.update(i, s[j]).update(j, s[i])
}

/// Fisher–Yates from index `i` down to 1, drawing from SplitMix64 state `state`.
pub open spec fn shuffle_from(s: Seq<usize>, state: u64, i: nat) -> Seq<usize>
    decreases i,
{
    if i == 0 {
        s
    } else {
        let (next_state, out) = splitmix_step(state);
        let j = (out as int) % ((i + 1) as int);
        shuffle_from(swap_spec(s, i as int, j), next_state, (i - 1) as nat)
    }
}

/// The permutation that a Fisher–Yates shuffle seeded with `seed` makes of `s`.
pub open spec fn seeded_shuffle_spec(s: Seq<usize>, seed: u64) -> Seq<usize> {
    if s.len() <= 1 {
        s
    } else {
        shuffle_from(s, seed, (s.len() - 1) as nat)
    }
}

/// Fisher–Yates shuffle driven by the SplitMix64 generator.
fn seeded_shuffle(indices: &mut Vec<usize>, seed: u64)
    ensures
        final(indices)@ == seeded_shuffle_spec(old(indices)@, seed),
{
    let n = indices.len();
    if n <= 1 {
        return;
    }
    let ghost target = seeded_shuffle_spec(old(indices)@, seed);
    let mut rng = SplitMix64(seed);
    let mut i: usize = n - 1;
    while i >= 1
        invariant
            indices@.len() == n,
            i < n,
            shuffle_from(indices@, rng.0, i as nat) == target,
        decreases i,
    {
        let r = rng.next();
        let j = (r % ((i + 1) as u64)) as usize;
        let a = indices[i];
        let b = indices[j];
        indices.set(i, b);
        indices.set(j, a);
        i = i - 1;
    }
}

// ---------------------------------------------------------------------------
// Permutations
// ---------------------------------------------------------------------------

/// `k` occurs somewhere in `order`.
pub open spec fn occurs(order: Seq<usize>, k: int) -> bool {
    exists|i: int| 0 <= i < order.len() && order[i] == k
}

/// `order` lists every index `0..n` exactly once.
pub open spec fn is_permutation(order: Seq<usize>, n: nat) -> bool {
    &&& order.len() == n
    &&& forall|i: int| 0 <= i < n ==> #[trigger] order[i] < n
    &&& forall|i: int, j: int| 0 <= i < n && 0 <= j < n && i != j ==> order[i] != order[j]
    &&& forall|k: int| 0 <= k < n ==> #[trigger] occurs(order, k)
}

/// The identity permutation `0, 1, ..., n - 1`.
pub open spec fn identity(n: nat) -> Seq<usize> {
    Seq::new(n, |i: int| i as usize)
}

/// The order a queue of `n` items walks: linear, or shuffled from `seed`.
pub open spec fn built_order(n: nat, shuffle: bool, seed: u64) -> Seq<usize> {
    if shuffle {
        seeded_shuffle_spec(identity(n), seed)
    } else {
        identity(n)
    }
}

proof fn lemma_identity_is_permutation(n: nat)
    requires
        n <= usize::MAX + 1,
    ensures
        is_permutation(identity(n), n),
{
    assert forall|k: int| 0 <= k < n implies #[trigger] occurs(identity(n), k) by {
        assert(identity(n)[k] == k);
    }
}

proof fn lemma_swap_is_permutation(s: Seq<usize>, n: nat, i: int, j: int)
    requires
        is_permutation(s, n),
        0 <= i < n,
        0 <= j < n,
    ensures
        is_permutation(swap_spec(s, i, j), n),
{
    let t = swap_spec(s, i, j);
    assert forall|k: int| 0 <= k < n implies #[trigger] occurs(t, k) by {
        assert(occurs(s, k));
        let w = choose|w: int| 0 <= w < s.len() && s[w] == k;
        if w == i {
            assert(t[j] == k);
        } else if w == j {
            assert(t[i] == k);
        } else {
            assert(t[w] == k);
        }
    }
}

proof fn lemma_shuffle_from_is_permutation(s: Seq<usize>, n: nat, state: u64, i: nat)
    requires
        is_permutation(s, n),
        i < n,
    ensures
        is_permutation(shuffle_from(s, state, i), n),
    decreases i,
{
    if i > 0 {
        let (next_state, out) = splitmix_step(state);
        let j = (out as int) % ((i + 1) as int);
        lemma_swap_is_permutation(s, n, i as int, j);
        lemma_shuffle_from_is_permutation(swap_spec(s, i as int, j), n, next_state, (i - 1) as nat);
    }
}

/// Whatever the seed, the order a queue walks visits every item exactly once.
pub proof fn lemma_built_order_is_permutation(n: nat, shuffle: bool, seed: u64)
    requires
        n <= usize::MAX,
    ensures
        is_permutation(built_order(n, shuffle, seed), n),
{
    lemma_identity_is_permutation(n);
    if shuffle && n > 1 {
        lemma_shuffle_from_is_permutation(identity(n), n, seed, (n - 1) as nat);
    }
}

/// Steps of the walk below the last index leave the last element in place:
/// walking `s` equals walking all but its last element and putting that
/// element back at the end.
proof fn lemma_shuffle_from_keeps_last(s: Seq<usize>, state: u64, i: nat)
    requires
        i + 1 < s.len(),
    ensures
        shuffle_from(s, state, i) == shuffle_from(s.take(s.len() - 1), state, i).push(s.last()),
    decreases i,
{
    if i == 0 {
        assert(s =~= s.take(s.len() - 1).push(s.last()));
    } else {
        let (next_state, out) = splitmix_step(state);
        let j = (out as int) % ((i + 1) as int);
        let t = swap_spec(s, i as int, j);
        assert(swap_spec(s.take(s.len() - 1), i as int, j) =~= t.take(t.len() - 1));
        assert(t.last() == s.last());
        lemma_shuffle_from_keeps_last(t, next_state, (i - 1) as nat);
    }
}

/// The shuffle is the Fisher–Yates walk driven by SplitMix64: a sequence of
/// at most one element stays as it is; otherwise the first output of the
/// generator seeded with `seed`, taken modulo the length `n`, picks the
/// element that goes to the last place (it trades places with the element
/// there), and the first `n - 1` places are then shuffled the same way from
/// the generator's next state.
pub proof fn lemma_seeded_shuffle_is_fisher_yates(s: Seq<usize>, seed: u64)
    ensures
        s.len() <= 1 ==> seeded_shuffle_spec(s, seed) == s,
        s.len() >= 2 ==> {
            let n = s.len();
            let (next_state, out) = splitmix_step(seed);
            let j = (out as int) % (n as int);
            let t = s.update(n - 1, s[j]).update(j, s[n - 1]);
            &&& seeded_shuffle_spec(s, seed) == seeded_shuffle_spec(t.take(n - 1), next_state).push(
                s[j],
            )
            &&& seeded_shuffle_spec(s, seed)[n - 1] == s[j]
            &&& seeded_shuffle_spec(s, seed).len() == n
        },
{
    if s.len() >= 2 {
        let n = s.len();
        let (next_state, out) = splitmix_step(seed);
        let j = (out as int) % (n as int);
        let t = swap_spec(s, n - 1, j);
        assert(t == s.update(n - 1, s[j]).update(j, s[n - 1]));
        assert(t[n - 1] == s[j]);
        assert(shuffle_from(s, seed, (n - 1) as nat) == shuffle_from(t, next_state, (n - 2) as nat));
        if n == 2 {
            assert(t =~= t.take(1).push(t[1]));
        } else {
            lemma_shuffle_from_keeps_last(t, next_state, (n - 2) as nat);
        }
        lemma_shuffle_from_len(t.take(n - 1), next_state, (n - 2) as nat);
    }
}

proof fn lemma_shuffle_from_len(s: Seq<usize>, state: u64, i: nat)
    requires
        i < s.len(),
    ensures
        shuffle_from(s, state, i).len() == s.len(),
    decreases i,
{
    if i > 0 {
        let (next_state, out) = splitmix_step(state);
        let j = (out as int) % ((i + 1) as int);
        lemma_shuffle_from_len(swap_spec(s, i as int, j), next_state, (i - 1) as nat);
    }
}

/// One SplitMix64 step, checked stage by stage.
proof fn lemma_splitmix_step_at(state: u64, s: u64, a: u64, z1: u64, b: u64, z2: u64, out: u64)
    requires
        s == vstd::wrapping::u64_specs::wrapping_add(state, 0x9e37_79b9_7f4a_7c15u64),
        a == s ^ (s >> 30u64),
        z1 == vstd::wrapping::u64_specs::wrapping_mul(a, 0xbf58_476d_1ce4_e5b9u64),
        b == z1 ^ (z1 >> 27u64),
        z2 == vstd::wrapping::u64_specs::wrapping_mul(b, 0x94d0_49bb_1331_11ebu64),
        out == z2 ^ (z2 >> 31u64),
    ensures
        splitmix_step(state) == (s, out),
{
}

/// The first SplitMix64 step from the default seed.
proof fn lemma_default_seed_step_1()
    ensures
        splitmix_step(DEFAULT_SEED) == (0x7ce538a94a488e49u64, 0x3a6ca87389f2e7u64),
{
    assert(vstd::wrapping::u64_specs::wrapping_add(DEFAULT_SEED, 0x9e37_79b9_7f4a_7c15u64) == 0x7ce538a94a488e49u64);
    assert(0x7ce538a94a488e49u64 ^ (0x7ce538a94a488e49u64 >> 30u64) == 0x7ce538a8b9dc6cecu64) by (bit_vector);
    assert(vstd::wrapping::u64_specs::wrapping_mul(0x7ce538a8b9dc6cecu64, 0xbf58_476d_1ce4_e5b9u64) == 0x21e58e74fe9d28cu64);
    assert(0x21e58e74fe9d28cu64 ^ (0x21e58e74fe9d28cu64 >> 27u64) == 0x21e58e70c22ce65u64) by (bit_vector);
    assert(vstd::wrapping::u64_specs::wrapping_mul(0x21e58e70c22ce65u64, 0x94d0_49bb_1331_11ebu64) == 0x3a6ca873fd2bb7u64);
    assert(0x3a6ca873fd2bb7u64 ^ (0x3a6ca873fd2bb7u64 >> 31u64) == 0x3a6ca87389f2e7u64) by (bit_vector);
    lemma_splitmix_step_at(DEFAULT_SEED, 0x7ce538a94a488e49u64, 0x7ce538a8b9dc6cecu64, 0x21e58e74fe9d28cu64, 0x21e58e70c22ce65u64, 0x3a6ca873fd2bb7u64, 0x3a6ca87389f2e7u64);
}

/// The second SplitMix64 step from the default seed.
proof fn lemma_default_seed_step_2()
    ensures
        splitmix_step(0x7ce538a94a488e49u64) == (0x1b1cb262c9930a5eu64, 0xb09c1ab85716e846u64),
{
    assert(vstd::wrapping::u64_specs::wrapping_add(0x7ce538a94a488e49u64, 0x9e37_79b9_7f4a_7c15u64) == 0x1b1cb262c9930a5eu64);
    assert(0x1b1cb262c9930a5eu64 ^ (0x1b1cb262c9930a5eu64 >> 30u64) == 0x1b1cb262a5e1c3d5u64) by (bit_vector);
    assert(vstd::wrapping::u64_specs::wrapping_mul(0x1b1cb262a5e1c3d5u64, 0xbf58_476d_1ce4_e5b9u64) == 0x67f80adb8a080dedu64);
    assert(0x67f80adb8a080dedu64 ^ (0x67f80adb8a080dedu64 >> 27u64) == 0x67f80ad77509569cu64) by (bit_vector);
    assert(vstd::wrapping::u64_specs::wrapping_mul(0x67f80ad77509569cu64, 0x94d0_49bb_1331_11ebu64) == 0xb09c1ab9362edd34u64);
    assert(0xb09c1ab9362edd34u64 ^ (0xb09c1ab9362edd34u64 >> 31u64) == 0xb09c1ab85716e846u64) by (bit_vector);
    lemma_splitmix_step_at(0x7ce538a94a488e49u64, 0x1b1cb262c9930a5eu64, 0x1b1cb262a5e1c3d5u64, 0x67f80adb8a080dedu64, 0x67f80ad77509569cu64, 0xb09c1ab9362edd34u64, 0xb09c1ab85716e846u64);
}

/// The third SplitMix64 step from the default seed.
proof fn lemma_default_seed_step_3()
    ensures
        splitmix_step(0x1b1cb262c9930a5eu64) == (0xb9542c1c48dd8673u64, 0xe7e2ffcdef988ba9u64),
{
    assert(vstd::wrapping::u64_specs::wrapping_add(0x1b1cb262c9930a5eu64, 0x9e37_79b9_7f4a_7c15u64) == 0xb9542c1c48dd8673u64);
    assert(0xb9542c1c48dd8673u64 ^ (0xb9542c1c48dd8673u64 >> 30u64) == 0xb9542c1ead8d3602u64) by (bit_vector);
    assert(vstd::wrapping::u64_specs::wrapping_mul(0xb9542c1ead8d3602u64, 0xbf58_476d_1ce4_e5b9u64) == 0xfd63e3f10e23d172u64);
    assert(0xfd63e3f10e23d172u64 ^ (0xfd63e3f10e23d172u64 >> 27u64) == 0xfd63e3eea25faf53u64) by (bit_vector);
    assert(vstd::wrapping::u64_specs::wrapping_mul(0xfd63e3eea25faf53u64, 0x94d0_49bb_1331_11ebu64) == 0xe7e2ffcc205d7431u64);
    assert(0xe7e2ffcc205d7431u64 ^ (0xe7e2ffcc205d7431u64 >> 31u64) == 0xe7e2ffcdef988ba9u64) by (bit_vector);
    lemma_splitmix_step_at(0x1b1cb262c9930a5eu64, 0xb9542c1c48dd8673u64, 0xb9542c1ead8d3602u64, 0xfd63e3f10e23d172u64, 0xfd63e3eea25faf53u64, 0xe7e2ffcc205d7431u64, 0xe7e2ffcdef988ba9u64);
}

/// The fourth SplitMix64 step from the default seed.
proof fn lemma_default_seed_step_4()
    ensures
        splitmix_step(0xb9542c1c48dd8673u64) == (0x578ba5d5c8280288u64, 0x73f23b9afc5fcce2u64),
{
    assert(vstd::wrapping::u64_specs::wrapping_add(0xb9542c1c48dd8673u64, 0x9e37_79b9_7f4a_7c15u64) == 0x578ba5d5c8280288u64);
    assert(0x578ba5d5c8280288u64 ^ (0x578ba5d5c8280288u64 >> 30u64) == 0x578ba5d4960695dfu64) by (bit_vector);
    assert(vstd::wrapping::u64_specs::wrapping_mul(0x578ba5d4960695dfu64, 0xbf58_476d_1ce4_e5b9u64) == 0xbb0700092d6ec927u64);
    assert(0xbb0700092d6ec927u64 ^ (0xbb0700092d6ec927u64 >> 27u64) == 0xbb07001e4d8ec802u64) by (bit_vector);
    assert(vstd::wrapping::u64_specs::wrapping_mul(0xbb07001e4d8ec802u64, 0x94d0_49bb_1331_11ebu64) == 0x73f23b9a1bbbbbd6u64);
    assert(0x73f23b9a1bbbbbd6u64 ^ (0x73f23b9a1bbbbbd6u64 >> 31u64) == 0x73f23b9afc5fcce2u64) by (bit_vector);
    lemma_splitmix_step_at(0xb9542c1c48dd8673u64, 0x578ba5d5c8280288u64, 0x578ba5d4960695dfu64, 0xbb0700092d6ec927u64, 0xbb07001e4d8ec802u64, 0x73f23b9a1bbbbbd6u64, 0x73f23b9afc5fcce2u64);
}

/// With the default seed, a queue of five items in shuffle mode plays the
/// second, first, fourth, third and fifth item in that order.
pub proof fn lemma_default_shuffle_of_five()
    ensures
        built_order(5, true, DEFAULT_SEED) == seq![1usize, 0, 3, 2, 4],
{
    let s0: Seq<usize> = seq![0usize, 1, 2, 3, 4];
    assert(identity(5) =~= s0);
    let s1 = swap_spec(s0, 4, 4);
    let s2 = swap_spec(s1, 3, 2);
    let s3 = swap_spec(s2, 2, 2);
    let s4 = swap_spec(s3, 1, 0);
    assert(shuffle_from(s0, DEFAULT_SEED, 4) == shuffle_from(s1, 0x7ce538a94a488e49u64, 3)) by {
        lemma_default_seed_step_1();
        assert((0x3a6ca87389f2e7u64 as int) % 5 == 4);
    }
    assert(shuffle_from(s1, 0x7ce538a94a488e49u64, 3) == shuffle_from(s2, 0x1b1cb262c9930a5eu64, 2)) by {
        lemma_default_seed_step_2();
        assert((0xb09c1ab85716e846u64 as int) % 4 == 2);
    }
    assert(shuffle_from(s2, 0x1b1cb262c9930a5eu64, 2) == shuffle_from(s3, 0xb9542c1c48dd8673u64, 1)) by {
        lemma_default_seed_step_3();
        assert((0xe7e2ffcdef988ba9u64 as int) % 3 == 2);
    }
    assert(shuffle_from(s3, 0xb9542c1c48dd8673u64, 1) == shuffle_from(s4, 0x578ba5d5c8280288u64, 0)) by {
        lemma_default_seed_step_4();
        assert((0x73f23b9afc5fcce2u64 as int) % 2 == 0);
    }
    assert(s4 =~= seq![1usize, 0, 3, 2, 4]);
}

proof fn lemma_push_is_permutation(s: Seq<usize>, n: nat)
    requires
        is_permutation(s, n),
        n <= usize::MAX,
    ensures
        is_permutation(s.push(n as usize), n + 1),
{
    let t = s.push(n as usize);
    assert forall|k: int| 0 <= k < n + 1 implies #[trigger] occurs(t, k) by {
        if k == n {
            assert(t[n as int] == k);
        } else {
            assert(occurs(s, k));
            let w = choose|w: int| 0 <= w < s.len() && s[w] == k;
            assert(t[w] == k);
        }
    }
}

// ---------------------------------------------------------------------------
// The queue and its model
// ---------------------------------------------------------------------------

/// What a `PlayQueue` holds, as mathematical values.
pub struct QueueView {
    /// The track ids, in insertion order.
    pub items: Seq<i64>,
    /// The order in which item indices are played.
    pub order: Seq<usize>,
    /// The current position in `order`.
    pub pos: Option<usize>,
    pub repeat: RepeatMode,
    pub shuffle: bool,
    /// The seed `order` was last built from.
    pub seed: u64,
}

impl QueueView {
    /// The queue's invariant: `order` is a permutation of the item indices,
    /// and there is a current position exactly when there are items.
    pub open spec fn inv(self) -> bool {
        &&& is_permutation(self.order, self.items.len())
        &&& self.items.len() <= usize::MAX
        &&& (self.pos is Some <==> self.items.len() > 0)
        &&& (self.pos matches Some(p) ==> p < self.items.len())
    }

    /// The id of the track at the current position.
    pub open spec fn current(self) -> Option<i64> {
        match self.pos {
            Some(p) => Some(self.items[self.order[p as int] as int]),
            None => None,
        }
    }

    /// The ids that play after the current one, in play order, at most `max`, without wrapping.
    pub open spec fn upcoming(self, max: nat) -> Seq<i64> {
        match self.pos {
            Some(p) => {
                let start = p + 1;
                let end = if start + max <= self.order.len() {
                    start + max
                } else {
                    self.order.len() as int
                };
                self.order.subrange(start, end).map_values(|i: usize| self.items[i as int])
            },
            None => Seq::empty(),
        }
    }

    /// The same queue with another position.
    pub open spec fn with_pos(self, pos: Option<usize>) -> QueueView {
        QueueView {
            items: self.items,
            order: self.order,
            pos: pos,
            repeat: self.repeat,
            shuffle: self.shuffle,
            seed: self.seed,
        }
    }

    /// The position `next` moves to, if it moves.
    pub open spec fn next_pos(self) -> Option<usize> {
        match self.pos {
            Some(p) => match spec_next_index(p as int, self.items.len() as int, self.repeat) {
                Some(q) => Some(q as usize),
                None => None,
            },
            None => None,
        }
    }

    /// The queue after `next`.
    pub open spec fn after_next(self) -> QueueView {
        if self.next_pos() is Some {
            self.with_pos(self.next_pos())
        } else {
            self
        }
    }

    /// The position `prev` moves to: one back, clamped at 0, or wrapping to
    /// the last item with repeat all.
    pub open spec fn prev_pos(self) -> Option<usize> {
        match self.pos {
            Some(p) => if self.items.len() == 0 {
                None
            } else if p == 0 {
                if self.repeat == RepeatMode::All {
                    Some((self.items.len() - 1) as usize)
                } else {
                    Some(0usize)
                }
            } else {
                Some((p - 1) as usize)
            },
            None => None,
        }
    }

    /// The queue after `prev`.
    pub open spec fn after_prev(self) -> QueueView {
        if self.prev_pos() is Some {
            self.with_pos(self.prev_pos())
        } else {
            self
        }
    }
}

/// A play queue over track database ids.
///
/// In linear mode the items are walked in insertion order using `next_index`.
/// In shuffle mode an explicit permutation is built once, deterministically
/// from a seed, and walked; the walk starts at position 0 of the shuffled
/// order, not necessarily at the item with index 0.
pub struct PlayQueue {
    items: Vec<i64>,
    pos: Option<usize>,
    repeat: RepeatMode,
    shuffle: bool,
    order: Vec<usize>,
    shuffle_seed: u64,
}

impl View for PlayQueue {
    type V = QueueView;

    closed spec fn view(&self) -> QueueView {
        QueueView {
            items: self.items@,
            order: self.order@,
            pos: self.pos,
            repeat: self.repeat,
            shuffle: self.shuffle,
            seed: self.shuffle_seed,
        }
    }
}

impl PlayQueue {
    /// The queue's invariant holds.
    pub open spec fn wf(&self) -> bool {
        self@.inv()
    }

    /// An empty queue: repeat off, shuffle off, default seed.
    pub fn new() -> (q: Self)
        ensures
            q.wf(),
            q@ == (QueueView {
                items: Seq::empty(),
                order: Seq::empty(),
                pos: None,
                repeat: RepeatMode::Off,
                shuffle: false,
                seed: DEFAULT_SEED,
            }),
    {
        let q = PlayQueue {
            items: Vec::new(),
            pos: None,
            repeat: RepeatMode::Off,
            shuffle: false,
            order: Vec::new(),
            shuffle_seed: DEFAULT_SEED,
        };
        proof {
            lemma_identity_is_permutation(0);
            assert(q.order@ =~= identity(0));
        }
        q
    }

    fn rebuild_order(&mut self)
        ensures
            final(self).order@ == built_order(old(self).items@.len(), old(self).shuffle, old(self).shuffle_seed),
            is_permutation(final(self).order@, old(self).items@.len()),
            final(self).items == old(self).items,
            final(self).pos == old(self).pos,
            final(self).repeat == old(self).repeat,
            final(self).shuffle == old(self).shuffle,
            final(self).shuffle_seed == old(self).shuffle_seed,
    {
        let n = self.items.len();
        let mut order: Vec<usize> = Vec::new();
        let mut i: usize = 0;
        while i < n
            invariant
                i <= n,
                order@ =~= identity(i as nat),
            decreases n - i,
        {
            order.push(i);
            i = i + 1;
        }
        if self.shuffle {
            seeded_shuffle(&mut order, self.shuffle_seed);
        }
        self.order = order;
        proof {
            lemma_built_order_is_permutation(n as nat, self.shuffle, self.shuffle_seed);
        }
    }

    /// Replace the queue with new items; the first item in play order becomes current.
    pub fn set_items(&mut self, ids: Vec<i64>)
        ensures
            final(self).wf(),
            final(self)@.items == ids@,
            final(self)@.order == built_order(ids@.len(), old(self)@.shuffle, old(self)@.seed),
            final(self)@.pos == (if ids@.len() == 0 { None } else { Some(0usize) }),
            final(self)@.repeat == old(self)@.repeat,
            final(self)@.shuffle == old(self)@.shuffle,
            final(self)@.seed == old(self)@.seed,
    {
        self.items = ids;
        self.rebuild_order();
        self.pos = if self.items.len() == 0 {
            None
        } else {
            Some(0)
        };
    }

    /// The id of the track at the current position, or `None`.
    pub fn current(&self) -> (r: Option<i64>)
        requires
            self.wf(),
        ensures
            r == self@.current(),
    {
        match self.pos {
            Some(p) => {
                let idx = self.order[p];
                Some(self.items[idx])
            },
            None => None,
        }
    }

    /// Ids of the tracks that play after the current one, in actual play
    /// order (shuffle-aware), at most `max`; does not wrap.
    pub fn upcoming(&self, max: usize) -> (r: Vec<i64>)
        requires
            self.wf(),
        ensures
            r@ == self@.upcoming(max as nat),
    {
        let mut out: Vec<i64> = Vec::new();
        match self.pos {
            None => out,
            Some(pos) => {
                let n = self.order.len();
                let start = pos + 1;
                let end = if max <= n - start {
                    start + max
                } else {
                    n
                };
                let ghost spec_out = self@.upcoming(max as nat);
                let mut k = start;
                while k < end
                    invariant
                        self.wf(),
                        self.pos == Some(pos),
                        n == self.order@.len(),
                        start == pos + 1,
                        start <= k <= end,
                        end <= n,
                        spec_out == self@.upcoming(max as nat),
                        spec_out.len() == end - start,
                        out@ =~= spec_out.subrange(0, k - start),
                    decreases end - k,
                {
                    let i = self.order[k];
                    out.push(self.items[i]);
                    k = k + 1;
                }
                out
            },
        }
    }

    /// Advance to the next track and return its id, or `None` when the queue
    /// is exhausted (respecting the repeat mode); the position is then kept.
    pub fn next(&mut self) -> (r: Option<i64>)
        requires
            old(self).wf(),
        ensures
            final(self).wf(),
            final(self)@ == old(self)@.after_next(),
            r == (if old(self)@.next_pos() is Some { final(self)@.current() } else { None }),
    {
        let pos = match self.pos {
            Some(p) => p,
            None => return None,
        };
        let len = self.items.len();
        let new_pos = match next_index(pos, len, self.repeat) {
            Some(q) => q,
            None => return None,
        };
        self.pos = Some(new_pos);
        self.current()
    }

    /// Step back to the previous track and return its id: clamps at the
    /// first item with repeat off or one, wraps to the last with repeat all.
    pub fn prev(&mut self) -> (r: Option<i64>)
        requires
            old(self).wf(),
        ensures
            final(self).wf(),
            final(self)@ == old(self)@.after_prev(),
            r == (if old(self)@.prev_pos() is Some { final(self)@.current() } else { None }),
    {
        let pos = match self.pos {
            Some(p) => p,
            None => return None,
        };
        let len = self.items.len();
        if len == 0 {
            return None;
        }
        let new_pos = if pos == 0 {
            match self.repeat {
                RepeatMode::All => len - 1,
                _ => 0,
            }
        } else {
            pos - 1
        };
        self.pos = Some(new_pos);
        self.current()
    }

    /// Where item index `index` stands in the play order.
    fn position_in_order(&self, index: usize) -> (r: usize)
        requires
            self.wf(),
            index < self.items@.len(),
        ensures
            r < self.order@.len(),
            self.order@[r as int] == index,
    {
        proof {
            assert(occurs(self.order@, index as int));
        }
        let n = self.order.len();
        let mut k: usize = 0;
        while k < n
            invariant
                self.wf(),
                index < self.items@.len(),
                n == self.order@.len(),
                k <= n,
                forall|w: int| 0 <= w < k ==> self.order@[w] != index,
            decreases n - k,
        {
            if self.order[k] == index {
                return k;
            }
            k = k + 1;
        }
        proof {
            let w = choose|w: int| 0 <= w < self.order@.len() && self.order@[w] == index;
            assert(self.order@[w] != index);
        }
        0
    }

    /// Jump to an explicit (linear) index in the items, so that the current
    /// track becomes `items[index]`; `None` and no change when out of range.
    pub fn jump_to(&mut self, index: usize) -> (r: Option<i64>)
        requires
            old(self).wf(),
        ensures
            final(self).wf(),
            index >= old(self)@.items.len() ==> final(self)@ == old(self)@ && r is None,
            index < old(self)@.items.len() ==> {
                &&& final(self)@ == old(self)@.with_pos(final(self)@.pos)
                &&& final(self)@.pos matches Some(q) && old(self)@.order[q as int] == index
                &&& r == Some(old(self)@.items[index as int])
            },
    {
        if index >= self.items.len() {
            return None;
        }
        let order_pos = self.position_in_order(index);
        self.pos = Some(order_pos);
        self.current()
    }

    /// Set the repeat mode.
    pub fn set_repeat(&mut self, mode: RepeatMode)
        requires
            old(self).wf(),
        ensures
            final(self).wf(),
            final(self)@ == (QueueView { repeat: mode, ..old(self)@ }),
    {
        self.repeat = mode;
    }

    /// Enable or disable shuffle with the default seed.
    pub fn set_shuffle(&mut self, on: bool)
        requires
            old(self).wf(),
        ensures
            final(self).wf(),
            final(self)@.items == old(self)@.items,
            final(self)@.repeat == old(self)@.repeat,
            final(self)@.shuffle == on,
            final(self)@.seed == DEFAULT_SEED,
            final(self)@.order == built_order(old(self)@.items.len(), on, DEFAULT_SEED),
            old(self)@.pos matches Some(p) ==> final(self)@.pos matches Some(q)
                && final(self)@.order[q as int] == old(self)@.order[p as int],
    {
        self.set_shuffle_seeded(on, DEFAULT_SEED);
    }

    /// Enable or disable shuffle with an explicit seed. Rebuilds the play
    /// order at once and keeps the same item current.
    pub fn set_shuffle_seeded(&mut self, on: bool, seed: u64)
        requires
            old(self).wf(),
        ensures
            final(self).wf(),
            final(self)@.items == old(self)@.items,
            final(self)@.repeat == old(self)@.repeat,
            final(self)@.shuffle == on,
            final(self)@.seed == seed,
            final(self)@.order == built_order(old(self)@.items.len(), on, seed),
            old(self)@.pos matches Some(p) ==> final(self)@.pos matches Some(q)
                && final(self)@.order[q as int] == old(self)@.order[p as int],
    {
        let current_idx: Option<usize> = match self.pos {
            Some(p) => Some(self.order[p]),
            None => None,
        };
        self.shuffle = on;
        self.shuffle_seed = seed;
        self.rebuild_order();
        self.pos = match current_idx {
            Some(idx) => if idx < self.items.len() {
                Some(self.position_in_order(idx))
            } else {
                None
            },
            None => None,
        };
        if self.pos.is_none() && self.items.len() != 0 {
            self.pos = Some(0);
        }
    }

    /// The current repeat mode.
    pub fn repeat(&self) -> (r: RepeatMode)
        ensures
            r == self@.repeat,
    {
        self.repeat
    }

    /// Whether shuffle is enabled.
    pub fn shuffle(&self) -> (r: bool)
        ensures
            r == self@.shuffle,
    {
        self.shuffle
    }

    /// Append a track id at the end of the queue and of the play order, in
    /// both linear and shuffle mode; an empty queue gets a current position.
    pub fn append(&mut self, id: i64)
        requires
            old(self).wf(),
        ensures
            final(self).wf(),
            final(self)@.items == old(self)@.items.push(id),
            final(self)@.order == old(self)@.order.push(old(self)@.items.len() as usize),
            final(self)@.pos == (if old(self)@.pos is None { Some(0usize) } else { old(self)@.pos }),
            final(self)@.repeat == old(self)@.repeat,
            final(self)@.shuffle == old(self)@.shuffle,
            final(self)@.seed == old(self)@.seed,
            final(self)@ == after_append(old(self)@, id),
    {
        let new_idx = self.items.len();
        self.items.push(id);
        self.order.push(new_idx);
        if self.pos.is_none() {
            self.pos = Some(0);
        }
        proof {
            lemma_push_is_permutation(old(self).order@, new_idx as nat);
            assert(self.items@.len() == self.items.len());
        }
    }

    /// Empty the queue.
    pub fn clear(&mut self)
        requires
            old(self).wf(),
        ensures
            final(self).wf(),
            final(self)@ == (QueueView {
                items: Seq::empty(),
                order: Seq::empty(),
                pos: None,
                ..old(self)@
            }),
    {
        self.items.clear();
        self.order.clear();
        self.pos = None;
        proof {
            assert(self.order@ =~= identity(0));
            lemma_identity_is_permutation(0);
        }
    }
}

impl Default for PlayQueue {
    fn default() -> (q: Self)
        ensures
            q.wf(),
            q@ == (QueueView {
                items: Seq::empty(),
                order: Seq::empty(),
                pos: None,
                repeat: RepeatMode::Off,
                shuffle: false,
                seed: DEFAULT_SEED,
            }),
    {
        Self::new()
    }
}

// ---------------------------------------------------------------------------
// Laws of the queue
// ---------------------------------------------------------------------------

/// "Up next" shows what will really play: unless repeat is one, the first
/// upcoming id is what `next` moves to, and the rest of the list is what is
/// upcoming afterwards.
pub proof fn lemma_upcoming_matches_next(v: QueueView, m: nat)
    requires
        v.inv(),
        v.repeat != RepeatMode::One,
        v.upcoming(m + 1).len() > 0,
    ensures
        v.next_pos() is Some,
        v.after_next().current() == Some(v.upcoming(m + 1)[0]),
        v.after_next().upcoming(m) =~= v.upcoming(m + 1).drop_first(),
{
    let p = v.pos->0;
    assert(p + 1 < v.items.len());
    assert(v.next_pos() == Some((p + 1) as usize)) by {
        if v.repeat == RepeatMode::All {
            vstd::arithmetic::div_mod::lemma_small_mod((p + 1) as nat, v.items.len());
        }
    }
}

/// Unless repeat is one, `prev` undoes a `next` that moved.
pub proof fn lemma_prev_undoes_next(v: QueueView)
    requires
        v.inv(),
        v.repeat != RepeatMode::One,
        v.next_pos() is Some,
    ensures
        v.after_next().after_prev() == v,
{
    let p = v.pos->0;
    let n = v.items.len();
    if v.repeat == RepeatMode::All {
        if p + 1 < n {
            vstd::arithmetic::div_mod::lemma_small_mod((p + 1) as nat, n);
        } else {
            vstd::arithmetic::div_mod::lemma_mod_self_0(n as int);
        }
    }
}

/// Walking the play order visits every item exactly once: each item index
/// stands at exactly one position of the order.
pub proof fn lemma_play_order_visits_each_item_once(v: QueueView, k: int)
    requires
        v.inv(),
        0 <= k < v.items.len(),
    ensures
        exists|j: int| 0 <= j < v.order.len() && v.order[j] == k,
        forall|j1: int, j2: int|
            0 <= j1 < v.order.len() && 0 <= j2 < v.order.len() && v.order[j1] == k && v.order[j2] == k
                ==> j1 == j2,
{
    assert(occurs(v.order, k));
}

/// In linear order, `next` plays the item that follows the current one in
/// insertion order (unless repeat is one).
pub proof fn lemma_linear_next_is_sequential(v: QueueView)
    requires
        v.inv(),
        v.order == identity(v.items.len()),
        v.repeat != RepeatMode::One,
        v.pos matches Some(p) && p + 1 < v.items.len(),
    ensures
        v.after_next().current() == Some(v.items[v.pos->0 + 1]),
{
    let p = v.pos->0;
    if v.repeat == RepeatMode::All {
        vstd::arithmetic::div_mod::lemma_small_mod((p + 1) as nat, v.items.len());
    }
}

/// The ids in the order the queue plays them.
pub open spec fn play_sequence(v: QueueView) -> Seq<i64> {
    v.order.map_values(|i: usize| v.items[i as int])
}

/// What `set_items` leaves behind plays every id exactly once: the current
/// track followed by all that is upcoming is the whole play sequence, which
/// takes each item index exactly once (the order is a permutation), and is
/// the ids themselves in their given order when shuffle is off. An empty
/// list leaves no current track and nothing upcoming.
pub proof fn lemma_set_items_plays_all(v: QueueView)
    requires
        v.inv(),
        v.order == built_order(v.items.len(), v.shuffle, v.seed),
        v.pos == (if v.items.len() == 0 {
            None
        } else {
            Some(0usize)
        }),
    ensures
        v.items.len() == 0 ==> v.current() is None && v.upcoming(usize::MAX as nat).len() == 0,
        v.items.len() > 0 ==> seq![v.current()->0] + v.upcoming(usize::MAX as nat) == play_sequence(v),
        is_permutation(v.order, v.items.len()),
        forall|k: int| 0 <= k < v.items.len() ==> #[trigger] play_sequence(v)[k] == v.items[v.order[k] as int],
        !v.shuffle ==> play_sequence(v) == v.items,
{
    if v.items.len() > 0 {
        let n = v.order.len();
        assert(1 + (usize::MAX as nat) >= n);
        assert(seq![v.current()->0] + v.upcoming(usize::MAX as nat) =~= play_sequence(v));
    }
    if !v.shuffle {
        assert(play_sequence(v) =~= v.items);
    }
}

/// A queue of five items just set in shuffle mode with the default seed
/// starts on the second item and then plays the first, fourth, third and
/// fifth.
pub proof fn lemma_default_shuffle_plays_five(v: QueueView)
    requires
        v.inv(),
        v.items.len() == 5,
        v.shuffle,
        v.seed == DEFAULT_SEED,
        v.order == built_order(v.items.len(), v.shuffle, v.seed),
        v.pos == Some(0usize),
    ensures
        v.current() == Some(v.items[1]),
        v.upcoming(10) == seq![v.items[0], v.items[3], v.items[2], v.items[4]],
        play_sequence(v) == seq![v.items[1], v.items[0], v.items[3], v.items[2], v.items[4]],
{
    lemma_default_shuffle_of_five();
    assert(v.upcoming(10) =~= seq![v.items[0], v.items[3], v.items[2], v.items[4]]);
    assert(play_sequence(v) =~= seq![v.items[1], v.items[0], v.items[3], v.items[2], v.items[4]]);
}

/// `v` after `k` presses of next.
pub open spec fn after_nexts(v: QueueView, k: nat) -> QueueView
    decreases k,
{
    if k == 0 {
        v
    } else {
        after_nexts(v, (k - 1) as nat).after_next()
    }
}

proof fn lemma_after_nexts_pos(v: QueueView, j: nat)
    requires
        v.inv(),
        v.repeat != RepeatMode::One,
        v.pos matches Some(p) && p + j < v.items.len(),
    ensures
        after_nexts(v, j) == v.with_pos(Some((v.pos->0 + j) as usize)),
    decreases j,
{
    let p = v.pos->0;
    if j == 0 {
        assert(v.with_pos(Some(p)) == v);
    } else {
        lemma_after_nexts_pos(v, (j - 1) as nat);
        let w = v.with_pos(Some((p + j - 1) as usize));
        assert(w.next_pos() == Some((p + j) as usize)) by {
            if v.repeat == RepeatMode::All {
                vstd::arithmetic::div_mod::lemma_small_mod((p + j) as nat, v.items.len());
            }
        }
    }
}

/// Up Next lists exactly what the following presses of next play, in order
/// (unless repeat is one): the `i`-th upcoming id is current after `i + 1`
/// presses of next.
pub proof fn lemma_upcoming_is_what_next_plays(v: QueueView, m: nat, i: int)
    requires
        v.inv(),
        v.repeat != RepeatMode::One,
        0 <= i < v.upcoming(m).len(),
    ensures
        after_nexts(v, (i + 1) as nat).current() == Some(v.upcoming(m)[i]),
{
    let p = v.pos->0;
    lemma_after_nexts_pos(v, (i + 1) as nat);
}

/// The queue after appending `id`, as `append` leaves it.
pub open spec fn after_append(v: QueueView, id: i64) -> QueueView {
    QueueView {
        items: v.items.push(id),
        order: v.order.push(v.items.len() as usize),
        pos: if v.pos is None {
            Some(0usize)
        } else {
            v.pos
        },
        ..v
    }
}

/// Appending goes to the tail of the play order in both modes: an empty
/// queue makes the new id current with nothing upcoming; otherwise the
/// current track stays and the new id is added at the end of Up Next.
pub proof fn lemma_append_goes_last(v: QueueView, id: i64)
    requires
        v.inv(),
    ensures
        v.current() is None ==> after_append(v, id).current() == Some(id) && after_append(
            v,
            id,
        ).upcoming(usize::MAX as nat).len() == 0,
        v.current() is Some ==> after_append(v, id).current() == v.current() && after_append(
            v,
            id,
        ).upcoming(usize::MAX as nat) == v.upcoming(usize::MAX as nat).push(id),
{
    let w = after_append(v, id);
    let n = v.items.len();
    if v.pos is None {
        assert(n == 0);
        assert(w.order[0] == 0);
    } else {
        let p = v.pos->0;
        assert(w.order[p as int] == v.order[p as int]);
        assert(v.order[p as int] < n);
        assert(w.items[v.order[p as int] as int] == v.items[v.order[p as int] as int]);
        assert(w.upcoming(usize::MAX as nat) =~= v.upcoming(usize::MAX as nat).push(id)) by {
            assert forall|k: int| p + 1 <= k < n implies #[trigger] v.order[k] < n by {}
        }
    }
}

} // verus!
