//! Playback engine decisions: the transport state machine, the decode
//! thread's per-iteration choices, crossfade bookkeeping, channel adaptation
//! and the output callback's accounting.
//!
//! The audio device, threads, atomics, decoding and all sample arithmetic
//! (gain, mixing curves, resampling, EQ) live around these functions; they
//! hand these functions plain flags and counts and act on what comes back.

use vstd::prelude::*;

verus! {

/// Playback state of the engine.
#[derive(Debug, Clone, Copy, PartialEq, Eq, Structural)]
pub enum PlaybackState {
    Stopped,
    Playing,
    Paused,
}

/// Audio specification: sample rate and channel count.
#[derive(Debug, Clone, Copy, PartialEq, Eq, Structural)]
pub struct AudioSpec {
    pub sample_rate: u32,
    pub channels: u16,
}

/// The transport state that the engine shares with its decode thread and
/// output callback: what is playing, the pause flag, a pending seek, the
/// flushing flag and the seek generation counter.
#[derive(Debug, Clone, Copy, PartialEq, Eq, Structural)]
pub struct Transport {
    pub state: PlaybackState,
    /// The decode thread and the output callback hold still while set.
    pub paused: bool,
    /// Seek target in milliseconds, `None` when no seek is pending.
    pub seek_ms: Option<u64>,
    /// The output callback discards buffered audio while set.
    pub flushing: bool,
    /// Bumped on every seek request.
    pub seek_generation: u64,
    /// Frames handed to the device since the track started.
    pub frames_played: u64,
}

/// The transport after stopping: nothing plays and every flag is reset.
pub open spec fn stopped_transport() -> Transport {
    Transport {
        state: PlaybackState::Stopped,
        paused: false,
        seek_ms: None,
        flushing: false,
        seek_generation: 0,
        frames_played: 0,
    }
}

/// The transport right after a new track starts.
pub open spec fn started_transport() -> Transport {
    Transport { state: PlaybackState::Playing, ..stopped_transport() }
}

/// Pausing: only a playing engine pauses.
pub open spec fn after_pause(t: Transport) -> Transport {
    if t.state == PlaybackState::Playing {
        Transport { state: PlaybackState::Paused, paused: true, ..t }
    } else {
        t
    }
}

/// Resuming: only a paused engine resumes.
pub open spec fn after_resume(t: Transport) -> Transport {
    if t.state == PlaybackState::Paused {
        Transport { state: PlaybackState::Playing, paused: false, ..t }
    } else {
        t
    }
}

/// Requesting a seek: ignored when stopped; otherwise the output flushes,
/// the target is recorded and the generation counter moves on (wrapping).
pub open spec fn after_seek(t: Transport, target_ms: u64) -> Transport {
    if t.state == PlaybackState::Stopped {
        t
    } else {
        Transport {
            flushing: true,
            seek_ms: Some(target_ms),
            seek_generation: vstd::wrapping::u64_specs::wrapping_add(t.seek_generation, 1),
            ..t
        }
    }
}

/// A seek completed: the target is cleared, the position is the landing
/// frame, and flushing ends.
pub open spec fn after_seek_done(t: Transport, landed_frames: u64) -> Transport {
    Transport { seek_ms: None, flushing: false, frames_played: landed_frames, ..t }
}

/// The flags agree with the state: the pause flag is set exactly when
/// paused, and a stopped engine has no seek in flight.
pub open spec fn consistent(t: Transport) -> bool {
    &&& t.paused <==> t.state == PlaybackState::Paused
    &&& t.state == PlaybackState::Stopped ==> t.seek_ms is None && !t.flushing
}

impl Transport {
    /// A fresh engine: stopped.
    pub fn new() -> (t: Self)
        ensures
            t == stopped_transport(),
    {
        Transport {
            state: PlaybackState::Stopped,
            paused: false,
            seek_ms: None,
            flushing: false,
            seek_generation: 0,
            frames_played: 0,
        }
    }

    /// The current playback state.
    pub fn state(&self) -> (s: PlaybackState)
        ensures
            s == self.state,
    {
        self.state
    }

    /// Stop playback and reset every shared flag.
    pub fn stop(&mut self)
        ensures
            *final(self) == stopped_transport(),
    {
        *self = Transport::new();
    }

    /// A new track has started: any previous playback was stopped, the
    /// position counter is zero and the state is playing.
    pub fn start_track(&mut self)
        ensures
            *final(self) == started_transport(),
    {
        self.stop();
        self.state = PlaybackState::Playing;
    }

    /// Pause playback (only a playing engine pauses).
    pub fn pause(&mut self)
        ensures
            *final(self) == after_pause(*old(self)),
    {
        if self.state == PlaybackState::Playing {
            self.paused = true;
            self.state = PlaybackState::Paused;
        }
    }

    /// Resume playback (only a paused engine resumes).
    pub fn resume(&mut self)
        ensures
            *final(self) == after_resume(*old(self)),
    {
        if self.state == PlaybackState::Paused {
            self.paused = false;
            self.state = PlaybackState::Playing;
        }
    }

    /// Request a seek to `target_ms` (a no-op when stopped).
    pub fn seek(&mut self, target_ms: u64)
        ensures
            *final(self) == after_seek(*old(self), target_ms),
    {
        if self.state == PlaybackState::Stopped {
            return;
        }
        self.flushing = true;
        self.seek_ms = Some(target_ms);
        self.seek_generation = self.seek_generation.wrapping_add(1);
    }

    /// The decode thread finished a seek at `landed_frames`.
    pub fn seek_done(&mut self, landed_frames: u64)
        ensures
            *final(self) == after_seek_done(*old(self), landed_frames),
    {
        self.seek_ms = None;
        self.flushing = false;
        self.frames_played = landed_frames;
    }
}

/// Pausing and then resuming a playing engine gives back exactly the
/// transport it had.
pub proof fn lemma_pause_resume_roundtrip(t: Transport)
    requires
        consistent(t),
        t.state == PlaybackState::Playing,
    ensures
        after_resume(after_pause(t)) == t,
{
}

/// Seeking never changes whether the engine is stopped, playing or paused.
pub proof fn lemma_seek_keeps_state(t: Transport, target_ms: u64, landed: u64)
    ensures
        after_seek(t, target_ms).state == t.state,
        after_seek_done(t, landed).state == t.state,
{
}

/// Every transport operation keeps the flags consistent with the state.
pub proof fn lemma_transport_consistent(t: Transport, target_ms: u64)
    requires
        consistent(t),
    ensures
        consistent(stopped_transport()),
        consistent(started_transport()),
        consistent(after_pause(t)),
        consistent(after_resume(t)),
        consistent(after_seek(t, target_ms)),
{
}

/// Pausing twice is pausing once; resuming twice is resuming once.
pub proof fn lemma_pause_resume_idempotent(t: Transport)
    ensures
        after_pause(after_pause(t)) == after_pause(t),
        after_resume(after_resume(t)) == after_resume(t),
{
}

} // verus!
