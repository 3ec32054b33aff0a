//! The decode thread's decisions: what each loop iteration does, when a
//! crossfade into the next track starts and ends, which processing a chunk
//! gets, how interleaved channels are adapted to the device, and what the
//! output callback does with the buffered samples.

use vstd::prelude::*;

verus! {

/// Interleaved samples to pre-fill after a seek before the output stops
/// flushing.
pub const SEEK_PREFILL_SAMPLES: usize = 8192;

/// Frames mixed per crossfade step.
pub const CROSSFADE_CHUNK_FRAMES: usize = 512;

// ---------------------------------------------------------------------------
// One loop iteration
// ---------------------------------------------------------------------------

/// What one iteration of the decode loop does.
#[derive(Debug, Clone, Copy, PartialEq, Eq, Structural)]
pub enum DecodeStep {
    /// The engine asked the thread to stop.
    Exit,
    /// A seek is pending: cancel any crossfade and seek the decoder.
    Seek,
    /// Paused: sleep briefly and look again.
    Wait,
    /// A crossfade is running: mix the outgoing and incoming tracks.
    Mix,
    /// Decode and push the next chunk of the current track.
    Decode,
}

/// The decision, in priority order: stop, then seek, then pause, then mix.
pub open spec fn decode_step_spec(stop: bool, seek_pending: bool, paused: bool, mixing: bool) -> DecodeStep {
    if stop {
        DecodeStep::Exit
    } else if seek_pending {
        DecodeStep::Seek
    } else if paused {
        DecodeStep::Wait
    } else if mixing {
        DecodeStep::Mix
    } else {
        DecodeStep::Decode
    }
}

/// Decide what the decode loop does next.
pub fn decode_step(stop: bool, seek_pending: bool, paused: bool, mixing: bool) -> (s: DecodeStep)
    ensures
        s == decode_step_spec(stop, seek_pending, paused, mixing),
        stop ==> s == DecodeStep::Exit,
        !stop && seek_pending ==> s == DecodeStep::Seek,
        !stop && !seek_pending && paused ==> s == DecodeStep::Wait,
        !stop && !seek_pending && !paused && mixing ==> s == DecodeStep::Mix,
        !stop && !seek_pending && !paused && !mixing ==> s == DecodeStep::Decode,
{
    if stop {
        DecodeStep::Exit
    } else if seek_pending {
        DecodeStep::Seek
    } else if paused {
        DecodeStep::Wait
    } else if mixing {
        DecodeStep::Mix
    } else {
        DecodeStep::Decode
    }
}

/// The decode loop's priorities: a stop request wins over everything; a
/// pending seek wins over pause and crossfade; while paused the thread only
/// waits, whether or not a crossfade is running; a running crossfade is mixed;
/// otherwise the current track is decoded.
pub proof fn lemma_decode_step_priority(stop: bool, seek_pending: bool, paused: bool, mixing: bool)
    ensures
        stop ==> decode_step_spec(stop, seek_pending, paused, mixing) == DecodeStep::Exit,
        !stop && seek_pending ==> decode_step_spec(stop, seek_pending, paused, mixing)
            == DecodeStep::Seek,
        !stop && !seek_pending && paused ==> decode_step_spec(stop, seek_pending, paused, mixing)
            == DecodeStep::Wait,
        !stop && !seek_pending && !paused && mixing ==> decode_step_spec(
            stop,
            seek_pending,
            paused,
            mixing,
        ) == DecodeStep::Mix,
        !stop && !seek_pending && !paused && !mixing ==> decode_step_spec(
            stop,
            seek_pending,
            paused,
            mixing,
        ) == DecodeStep::Decode,
        decode_step_spec(stop, seek_pending, paused, mixing) == DecodeStep::Wait <==> (!stop
            && !seek_pending && paused),
{
}

/// Number of whole frames in `samples` interleaved samples (a channel count
/// of zero counts as one).
pub open spec fn frames_in_spec(samples: nat, channels: nat) -> nat {
    if channels == 0 {
        samples
    } else {
        samples / channels
    }
}

/// What the pre-fill after a seek does next.
#[derive(Debug, Clone, Copy, PartialEq, Eq, Structural)]
pub enum PrefillStep {
    /// A stop was requested: leave the thread at once.
    Abort,
    /// Enough is buffered, or a newer seek arrived: stop pre-filling; the
    /// output then stops flushing.
    Done,
    /// Decode and push another chunk.
    More,
}

/// Stop first, then a newer seek or a full pre-fill ends it.
pub fn prefill_step(prefilled: usize, stop: bool, newer_seek: bool) -> (r: PrefillStep)
    ensures
        stop ==> r == PrefillStep::Abort,
        !stop && (newer_seek || prefilled >= SEEK_PREFILL_SAMPLES) ==> r == PrefillStep::Done,
        !stop && !newer_seek && prefilled < SEEK_PREFILL_SAMPLES ==> r == PrefillStep::More,
{
    if stop {
        PrefillStep::Abort
    } else if newer_seek || prefilled >= SEEK_PREFILL_SAMPLES {
        PrefillStep::Done
    } else {
        PrefillStep::More
    }
}

/// Whole frames in `samples` interleaved samples of `channels` channels.
pub fn frames_in(samples: usize, channels: u16) -> (r: usize)
    ensures
        r == frames_in_spec(samples as nat, channels as nat),
{
    if channels == 0 {
        samples
    } else {
        samples / (channels as usize)
    }
}

// ---------------------------------------------------------------------------
// Crossfade bookkeeping
// ---------------------------------------------------------------------------

/// The decode thread's counters: frames pushed to the ring buffer, and the
/// crossfade window when one is running.
#[derive(Debug, Clone, Copy, PartialEq, Eq, Structural)]
pub struct Crossfade {
    /// Device frames pushed since the track started (or since the last seek).
    pub frames_pushed: u64,
    /// A crossfade into the next track is running.
    pub active: bool,
    /// Length of the crossfade window in frames.
    pub total_frames: u64,
    /// Frames of the window already mixed.
    pub elapsed_frames: u64,
}

/// No crossfade, nothing pushed.
pub open spec fn idle_crossfade() -> Crossfade {
    Crossfade { frames_pushed: 0, active: false, total_frames: 0, elapsed_frames: 0 }
}

/// `a - b`, or zero when `b` is larger.
pub open spec fn saturating_sub(a: u64, b: u64) -> u64 {
    if a >= b {
        (a - b) as u64
    } else {
        0
    }
}

/// The crossfade starts once crossfading is enabled, none is running, more
/// than a window's worth has been pushed, and no more than a window's worth
/// is buffered ahead of the playback head.
pub open spec fn should_start_spec(x: Crossfade, enabled: bool, window_frames: u64, played: u64) -> bool {
    &&& enabled
    &&& !x.active
    &&& x.frames_pushed > window_frames
    &&& saturating_sub(x.frames_pushed, played) <= window_frames
}

impl Crossfade {
    /// Counters at the start of a track.
    pub fn new() -> (x: Self)
        ensures
            x == idle_crossfade(),
    {
        Crossfade { frames_pushed: 0, active: false, total_frames: 0, elapsed_frames: 0 }
    }

    /// A seek cancels any crossfade and clears the counters.
    pub fn cancel_for_seek(&mut self)
        ensures
            *final(self) == idle_crossfade(),
    {
        *self = Crossfade::new();
    }

    /// After a seek lands, the pushed counter is re-synchronised to the
    /// landing frame.
    pub fn resync(&mut self, landed_frames: u64)
        ensures
            *final(self) == (Crossfade { frames_pushed: landed_frames, ..*old(self) }),
    {
        self.frames_pushed = landed_frames;
    }

    /// Whether to open the next track and start crossfading now.
    pub fn should_start(&self, enabled: bool, window_frames: u64, played: u64) -> (r: bool)
        ensures
            r == should_start_spec(*self, enabled, window_frames, played),
    {
        if !enabled || self.active {
            return false;
        }
        let ahead = if self.frames_pushed >= played {
            self.frames_pushed - played
        } else {
            0
        };
        self.frames_pushed > window_frames && ahead <= window_frames
    }

    /// The next track opened: a window of `window_frames` begins.
    pub fn start(&mut self, window_frames: u64)
        ensures
            *final(self) == (Crossfade {
                active: true,
                total_frames: window_frames,
                elapsed_frames: 0,
                ..*old(self)
            }),
    {
        self.active = true;
        self.total_frames = window_frames;
        self.elapsed_frames = 0;
    }

    /// Count `samples` interleaved samples as pushed.
    pub fn record_pushed(&mut self, samples: usize, channels: u16)
        requires
            old(self).frames_pushed + frames_in_spec(samples as nat, channels as nat) <= u64::MAX,
        ensures
            *final(self) == (Crossfade {
                frames_pushed: (old(self).frames_pushed + frames_in_spec(
                    samples as nat,
                    channels as nat,
                )) as u64,
                ..*old(self)
            }),
    {
        let f = frames_in(samples, channels);
        self.frames_pushed = self.frames_pushed + f as u64;
    }

    /// Where frame `frame_idx` of the current mix step falls in the window,
    /// as the fraction `num / den` running from 0 at the start to 1 at the
    /// end (an empty window counts as finished).
    pub fn mix_position(&self, frame_idx: u64) -> (r: (u64, u64))
        requires
            self.elapsed_frames + frame_idx <= u64::MAX,
        ensures
            self.total_frames == 0 ==> r == (1u64, 1u64),
            self.total_frames > 0 ==> r.1 == self.total_frames && r.0 as int == if self.elapsed_frames
                + frame_idx <= self.total_frames {
                self.elapsed_frames + frame_idx
            } else {
                self.total_frames as int
            },
            r.0 <= r.1,
            r.1 > 0,
    {
        if self.total_frames == 0 {
            return (1, 1);
        }
        let pos = self.elapsed_frames + frame_idx;
        let num = if pos <= self.total_frames {
            pos
        } else {
            self.total_frames
        };
        (num, self.total_frames)
    }

    /// A mix step of `frames` frames was pushed; returns whether the window
    /// is now exhausted, in which case the crossfade ends.
    pub fn finish_mix_step(&mut self, frames: u64) -> (done: bool)
        requires
            old(self).elapsed_frames + frames <= u64::MAX,
            old(self).frames_pushed + frames <= u64::MAX,
        ensures
            final(self).elapsed_frames == old(self).elapsed_frames + frames,
            final(self).frames_pushed == old(self).frames_pushed + frames,
            final(self).total_frames == old(self).total_frames,
            done == (old(self).elapsed_frames + frames >= old(self).total_frames),
            final(self).active == (old(self).active && !done),
    {
        self.elapsed_frames = self.elapsed_frames + frames;
        self.frames_pushed = self.frames_pushed + frames;
        let done = self.elapsed_frames >= self.total_frames;
        if done {
            self.active = false;
        }
        done
    }
}

/// A running crossfade is never started again, and a seek always leaves
/// nothing running.
pub proof fn lemma_crossfade_starts_once(x: Crossfade, enabled: bool, window: u64, played: u64)
    requires
        x.active,
    ensures
        !should_start_spec(x, enabled, window, played),
        !idle_crossfade().active,
{
}

// ---------------------------------------------------------------------------
// The incoming track's buffered samples
// ---------------------------------------------------------------------------

/// Device-format samples of the incoming track waiting to be mixed: a
/// buffer and a read cursor into it.
pub struct PendingSamples<T> {
    buf: Vec<T>,
    cursor: usize,
}

impl<T> PendingSamples<T> {
    #[verifier::type_invariant]
    spec fn cursor_in_buffer(&self) -> bool {
        self.cursor <= self.buf@.len()
    }

    /// The samples not yet taken, in order.
    pub closed spec fn pending(&self) -> Seq<T> {
        self.buf@.subrange(self.cursor as int, self.buf@.len() as int)
    }

    /// Everything the buffer holds, taken samples included.
    pub closed spec fn held(&self) -> Seq<T> {
        self.buf@
    }
}

impl<T: Copy> PendingSamples<T> {
    /// Nothing buffered.
    pub fn new() -> (p: Self)
        ensures
            p.pending() == Seq::<T>::empty(),
    {
        let p = PendingSamples { buf: Vec::new(), cursor: 0 };
        proof {
            assert(p.pending() =~= Seq::<T>::empty());
        }
        p
    }

    /// Number of samples not yet taken.
    pub fn available(&self) -> (n: usize)
        ensures
            n == self.pending().len(),
    {
        proof {
            use_type_invariant(self);
        }
        self.buf.len() - self.cursor
    }

    /// Drop the already-taken prefix so the buffer does not grow without
    /// bound: afterwards the buffer holds exactly what is pending, which is
    /// unchanged.
    pub fn compact(&mut self)
        ensures
            final(self).pending() == old(self).pending(),
            final(self).held() == old(self).pending(),
    {
        proof {
            use_type_invariant(&*self);
        }
        let mut kept: Vec<T> = Vec::new();
        let mut i = self.cursor;
        while i < self.buf.len()
            invariant
                self.cursor <= i <= self.buf@.len(),
                kept@ == self.buf@.subrange(self.cursor as int, i as int),
            decreases self.buf@.len() - i,
        {
            kept.push(self.buf[i]);
            i = i + 1;
            proof {
                assert(kept@ =~= self.buf@.subrange(self.cursor as int, i as int));
            }
        }
        *self = PendingSamples { buf: kept, cursor: 0 };
        proof {
            assert(self.pending() =~= self.buf@);
        }
    }

    /// Whether fewer than `want` samples are pending, so that more must be
    /// decoded before mixing.
    pub fn needs_more(&self, want: usize) -> (r: bool)
        ensures
            r == (self.pending().len() < want),
    {
        self.available() < want
    }

    /// Append freshly decoded samples.
    pub fn extend(&mut self, more: &[T])
        ensures
            final(self).pending() == old(self).pending() + more@,
    {
        proof {
            use_type_invariant(&*self);
        }
        let mut whole = PendingSamples { buf: Vec::new(), cursor: 0 };
        std::mem::swap(self, &mut whole);
        proof {
            use_type_invariant(&whole);
        }
        let PendingSamples { buf: mut buf, cursor } = whole;
        let ghost before = buf@;
        let mut i: usize = 0;
        while i < more.len()
            invariant
                i <= more@.len(),
                buf@ == before + more@.take(i as int),
            decreases more@.len() - i,
        {
            buf.push(more[i]);
            i = i + 1;
            proof {
                assert(buf@ =~= before + more@.take(i as int));
            }
        }
        proof {
            assert(more@.take(more@.len() as int) =~= more@);
        }
        *self = PendingSamples { buf, cursor };
        proof {
            assert(self.pending() =~= old(self).pending() + more@);
        }
    }

    /// Take up to `n` samples from the front of what is pending (fewer when
    /// fewer are pending).
    pub fn take(&mut self, n: usize) -> (out: Vec<T>)
        ensures
            out@ == old(self).pending().take(
                if n < old(self).pending().len() {
                    n as int
                } else {
                    old(self).pending().len() as int
                },
            ),
            final(self).pending() == old(self).pending().skip(out@.len() as int),
    {
        proof {
            use_type_invariant(&*self);
        }
        let blen = self.buf.len();
        let avail = blen - self.cursor;
        let count = if n < avail {
            n
        } else {
            avail
        };
        let start = self.cursor;
        let mut out: Vec<T> = Vec::new();
        let mut i: usize = 0;
        while i < count
            invariant
                start == self.cursor,
                blen == self.buf@.len(),
                count <= avail,
                avail == self.buf@.len() - start,
                i <= count,
                out@ == self.buf@.subrange(start as int, start + i),
            decreases count - i,
        {
            out.push(self.buf[start + i]);
            i = i + 1;
            proof {
                assert(out@ =~= self.buf@.subrange(start as int, start + i));
            }
        }
        let mut whole = PendingSamples { buf: Vec::new(), cursor: 0 };
        std::mem::swap(self, &mut whole);
        let PendingSamples { buf, cursor: _ } = whole;
        *self = PendingSamples { buf, cursor: start + count };
        proof {
            assert(out@ =~= old(self).pending().take(count as int));
            assert(self.pending() =~= old(self).pending().skip(count as int));
        }
        out
    }
}

/// Whatever is taken and what is left make up exactly what was pending.
pub proof fn lemma_take_splits_pending<T>(pending: Seq<T>, k: int)
    requires
        0 <= k <= pending.len(),
    ensures
        pending.take(k) + pending.skip(k) == pending,
{
    assert(pending.take(k) + pending.skip(k) =~= pending);
}

// ---------------------------------------------------------------------------
// Per-chunk processing
// ---------------------------------------------------------------------------

/// Which processing a decoded chunk gets.
#[derive(Debug, Clone, Copy, PartialEq, Eq, Structural)]
pub struct ChunkPlan {
    /// Rebuild the equalizer from the current settings first.
    pub rebuild_eq: bool,
    /// Run the equalizer, if one is built.
    pub run_eq: bool,
    /// Run the resampler.
    pub resample: bool,
}

/// Bit-perfect mode bypasses the equalizer entirely; the equalizer is
/// rebuilt whenever its settings changed since it was last built; the
/// resampler runs exactly when there is one (there is one exactly when the
/// file and device rates differ).
pub open spec fn chunk_plan_spec(bit_perfect: bool, eq_generation: u64, eq_seen: u64, has_resampler: bool) -> ChunkPlan {
    ChunkPlan {
        rebuild_eq: !bit_perfect && eq_generation != eq_seen,
        run_eq: !bit_perfect,
        resample: has_resampler,
    }
}

/// Plan the processing of one chunk.
pub fn chunk_plan(bit_perfect: bool, eq_generation: u64, eq_seen: u64, has_resampler: bool) -> (p: ChunkPlan)
    ensures
        p == chunk_plan_spec(bit_perfect, eq_generation, eq_seen, has_resampler),
        p.resample == has_resampler,
        p.run_eq == !bit_perfect,
        p.rebuild_eq == (!bit_perfect && eq_generation != eq_seen),
{
    ChunkPlan {
        rebuild_eq: !bit_perfect && eq_generation != eq_seen,
        run_eq: !bit_perfect,
        resample: has_resampler,
    }
}

/// Bit-perfect mode bypasses the whole equalizer, and the resampler only
/// runs when the file's rate differs from the device's.
pub proof fn lemma_bit_perfect_bypass(eq_generation: u64, eq_seen: u64, file_rate: u32, device_rate: u32)
    ensures
        !chunk_plan_spec(true, eq_generation, eq_seen, file_rate != device_rate).run_eq,
        !chunk_plan_spec(true, eq_generation, eq_seen, file_rate != device_rate).rebuild_eq,
        chunk_plan_spec(true, eq_generation, eq_seen, file_rate != device_rate).resample == (
        file_rate != device_rate),
{
}

/// In every mode the resampler runs exactly when the stream has one; the
/// equalizer runs exactly outside bit-perfect mode, and is rebuilt exactly
/// when it runs and its settings changed since it was last built.
pub proof fn lemma_chunk_plan_stages(bit_perfect: bool, eq_generation: u64, eq_seen: u64, has_resampler: bool)
    ensures
        chunk_plan_spec(bit_perfect, eq_generation, eq_seen, has_resampler).resample == has_resampler,
        chunk_plan_spec(bit_perfect, eq_generation, eq_seen, has_resampler).run_eq == !bit_perfect,
        chunk_plan_spec(bit_perfect, eq_generation, eq_seen, has_resampler).rebuild_eq == (
        !bit_perfect && eq_generation != eq_seen),
        chunk_plan_spec(bit_perfect, eq_generation, eq_seen, has_resampler).rebuild_eq ==> chunk_plan_spec(
            bit_perfect,
            eq_generation,
            eq_seen,
            has_resampler,
        ).run_eq,
{
}

/// Adapting channels yields whole frames of the target width, one per whole
/// source frame, and a mono source fills every channel with its sample.
pub proof fn lemma_adapt_channels_shape<T>(input: Seq<T>, from: nat, to: nat, silence: T, f: int, c: int)
    requires
        from > 0,
        from != to,
        0 <= f < input.len() / from,
        0 <= c < to,
    ensures
        adapt_channels_spec(input, from, to, silence).len() == (input.len() / from) * to,
        from == 1 ==> adapt_channels_spec(input, from, to, silence)[f * to + c] == input[f],
{
    assert(f * to + c < (input.len() / from) * to) by (nonlinear_arith)
        requires
            0 <= f < input.len() / from,
            0 <= c < to,
    ;
    vstd::arithmetic::div_mod::lemma_fundamental_div_mod_converse(f * to + c, to as int, f, c);
}

/// A track needs a resampler exactly when its rate differs from the device's.
pub fn needs_resampler(file_rate: u32, device_rate: u32) -> (r: bool)
    ensures
        r == (file_rate != device_rate),
{
    file_rate != device_rate
}

// ---------------------------------------------------------------------------
// Channel adaptation
// ---------------------------------------------------------------------------

/// Sample `k` of the adapted buffer: channels the source has are copied, a
/// mono source is duplicated into every channel, and other missing channels
/// are silent.
pub open spec fn adapted_sample<T>(input: Seq<T>, from: nat, to: nat, silence: T, k: int) -> T {
    let f = k / (to as int);
    let c = k % (to as int);
    if c < from {
        input[f * from + c]
    } else if from == 1 {
        input[f * from]
    } else {
        silence
    }
}

/// Adapt interleaved samples from `from` channels to `to` channels. Equal
/// counts leave the buffer unchanged; otherwise every whole source frame
/// becomes one frame of `to` channels (a trailing partial frame is dropped).
pub open spec fn adapt_channels_spec<T>(input: Seq<T>, from: nat, to: nat, silence: T) -> Seq<T> {
    if from == to {
        input
    } else {
        Seq::new(
            ((input.len() / from) * to) as nat,
            |k: int| adapted_sample(input, from, to, silence, k),
        )
    }
}

/// Adapt an interleaved buffer from `from_ch` to `to_ch` channels.
pub fn adapt_channels<T: Copy>(input: &[T], from_ch: u16, to_ch: u16, silence: T) -> (out: Vec<T>)
    requires
        from_ch == to_ch || from_ch > 0,
    ensures
        out@ == adapt_channels_spec(input@, from_ch as nat, to_ch as nat, silence),
{
    if from_ch == to_ch {
        let mut same: Vec<T> = Vec::new();
        let mut i: usize = 0;
        while i < input.len()
            invariant
                i <= input@.len(),
                same@ == input@.take(i as int),
            decreases input@.len() - i,
        {
            same.push(input[i]);
            i = i + 1;
            proof {
                assert(same@ =~= input@.take(i as int));
            }
        }
        proof {
            assert(input@.take(input@.len() as int) =~= input@);
        }
        return same;
    }
    let from = from_ch as usize;
    let to = to_ch as usize;
    let n = input.len();
    let frames = n / from;
    proof {
        assert(frames * from <= input@.len()) by (nonlinear_arith)
            requires
                frames == input@.len() / (from as nat),
                from > 0,
        ;
    }
    let ghost spec_out = adapt_channels_spec(input@, from as nat, to as nat, silence);
    let mut out: Vec<T> = Vec::new();
    let mut f: usize = 0;
    while f < frames
        invariant
            from_ch != to_ch,
            from == from_ch as usize,
            to == to_ch as usize,
            from > 0,
            frames == input@.len() / (from as nat),
            frames * from <= input@.len(),
            n == input@.len(),
            f <= frames,
            spec_out == adapt_channels_spec(input@, from as nat, to as nat, silence),
            out@.len() == f * to,
            forall|k: int| 0 <= k < out@.len() ==> out@[k] == spec_out[k],
        decreases frames - f,
    {
        let mut c: usize = 0;
        while c < to
            invariant
                from_ch != to_ch,
                from == from_ch as usize,
                to == to_ch as usize,
                from > 0,
                frames == input@.len() / (from as nat),
                frames * from <= input@.len(),
                n == input@.len(),
                f < frames,
                c <= to,
                spec_out == adapt_channels_spec(input@, from as nat, to as nat, silence),
                out@.len() == f * to + c,
                forall|k: int| 0 <= k < out@.len() ==> out@[k] == spec_out[k],
            decreases to - c,
        {
            proof {
                assert(f * from + from <= frames * from) by (nonlinear_arith)
                    requires
                        f < frames,
                        from > 0,
                ;
                assert(f * from + from <= input@.len());
                assert(f * to + c < frames * to) by (nonlinear_arith)
                    requires
                        f < frames,
                        c < to,
                ;
                vstd::arithmetic::div_mod::lemma_fundamental_div_mod_converse(
                    (f * to + c) as int,
                    to as int,
                    f as int,
                    c as int,
                );
            }
            let base = f * from;
            let v = if c < from {
                input[base + c]
            } else if from == 1 {
                input[base]
            } else {
                silence
            };
            let ghost k = (f * to + c) as int;
            proof {
                assert(input@.len() / (from as nat) == frames);
                assert(spec_out.len() == frames * to);
                assert(spec_out[k] == adapted_sample(input@, from as nat, to as nat, silence, k));
            }
            out.push(v);
            c = c + 1;
        }
        proof {
            assert((f + 1) * to == f * to + to) by (nonlinear_arith);
        }
        f = f + 1;
    }
    proof {
        assert(out@ =~= spec_out);
    }
    out
}

// ---------------------------------------------------------------------------
// Output callback accounting
// ---------------------------------------------------------------------------

/// What one output callback does with the ring buffer.
#[derive(Debug, Clone, Copy, PartialEq, Eq, Structural)]
pub struct CallbackPlan {
    /// Write silence to the whole device buffer.
    pub silence: bool,
    /// Pop and discard everything buffered (a seek is flushing).
    pub discard_all: bool,
    /// Samples to pop into the device buffer (the rest is silence-filled).
    pub pop: usize,
    /// Frames to add to the played-frames counter.
    pub frames_played: u64,
    /// The track has finished: decoding is done and nothing was left to play.
    pub finished: bool,
}

/// Paused: silence without touching the buffer. Flushing: discard what is
/// buffered and play silence. Otherwise play what is buffered (up to the
/// device buffer), count only real frames, and report the end of the track
/// once decoding is done and nothing came out.
pub open spec fn callback_plan_spec(
    paused: bool,
    flushing: bool,
    available: nat,
    buf_len: nat,
    channels: nat,
    decode_done: bool,
) -> CallbackPlan {
    if paused {
        CallbackPlan { silence: true, discard_all: false, pop: 0, frames_played: 0, finished: false }
    } else if flushing {
        CallbackPlan { silence: true, discard_all: true, pop: 0, frames_played: 0, finished: false }
    } else {
        let played_now: nat = if available < buf_len {
            available
        } else {
            buf_len
        };
        CallbackPlan {
            silence: false,
            discard_all: false,
            pop: played_now as usize,
            frames_played: if channels > 0 {
                (played_now / channels) as u64
            } else {
                0
            },
            finished: played_now == 0 && decode_done,
        }
    }
}

/// Plan one output callback.
pub fn callback_plan(
    paused: bool,
    flushing: bool,
    available: usize,
    buf_len: usize,
    channels: u16,
    decode_done: bool,
) -> (p: CallbackPlan)
    ensures
        p == callback_plan_spec(
            paused,
            flushing,
            available as nat,
            buf_len as nat,
            channels as nat,
            decode_done,
        ),
{
    if paused {
        return CallbackPlan { silence: true, discard_all: false, pop: 0, frames_played: 0, finished: false };
    }
    if flushing {
        return CallbackPlan { silence: true, discard_all: true, pop: 0, frames_played: 0, finished: false };
    }
    let played_now = if available < buf_len {
        available
    } else {
        buf_len
    };
    let frames = if channels > 0 {
        (played_now / (channels as usize)) as u64
    } else {
        0
    };
    CallbackPlan { silence: false, discard_all: false, pop: played_now, frames_played: frames, finished: played_now == 0 && decode_done }
}

/// The position never moves while paused or flushing, and a callback never
/// plays more than is buffered or than the device asked for.
pub proof fn lemma_callback_bounds(
    paused: bool,
    flushing: bool,
    available: nat,
    buf_len: nat,
    channels: nat,
    decode_done: bool,
)
    requires
        available <= usize::MAX,
        buf_len <= usize::MAX,
    ensures
        (paused || flushing) ==> callback_plan_spec(paused, flushing, available, buf_len, channels, decode_done).frames_played == 0,
        (paused || flushing) ==> !callback_plan_spec(paused, flushing, available, buf_len, channels, decode_done).finished,
        callback_plan_spec(paused, flushing, available, buf_len, channels, decode_done).pop <= available,
        callback_plan_spec(paused, flushing, available, buf_len, channels, decode_done).pop <= buf_len,
{
}

} // verus!
