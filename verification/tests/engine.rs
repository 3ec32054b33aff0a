use lyra::decode::{prefill_step, PrefillStep};
use lyra::decode::PendingSamples;
use lyra::decode::{
    adapt_channels, callback_plan, chunk_plan, decode_step, frames_in, needs_resampler,
    CallbackPlan, ChunkPlan, Crossfade, DecodeStep,
};
use lyra::engine::{PlaybackState, Transport};

#[test]
fn engine_initial_state_is_stopped() {
    let t = Transport::new();
    assert_eq!(t.state(), PlaybackState::Stopped);
}

#[test]
fn pause_then_resume_restores_playing() {
    let mut t = Transport::new();
    t.start_track();
    assert_eq!(t.state(), PlaybackState::Playing);
    let before = t;
    t.pause();
    assert_eq!(t.state(), PlaybackState::Paused);
    assert!(t.paused);
    t.resume();
    assert_eq!(t, before);
}

#[test]
fn pause_and_resume_are_ignored_in_the_wrong_state() {
    let mut t = Transport::new();
    t.pause();
    assert_eq!(t.state(), PlaybackState::Stopped);
    t.start_track();
    t.resume();
    assert_eq!(t.state(), PlaybackState::Playing);
    assert!(!t.paused);
}

#[test]
fn seek_is_a_no_op_when_stopped() {
    let mut t = Transport::new();
    t.seek(5000);
    assert_eq!(t, Transport::new());
}

#[test]
fn seek_sets_target_flushing_and_generation() {
    let mut t = Transport::new();
    t.start_track();
    t.pause();
    t.seek(12_345);
    assert_eq!(t.seek_ms, Some(12_345));
    assert!(t.flushing);
    assert_eq!(t.seek_generation, 1);
    assert_eq!(t.state(), PlaybackState::Paused);
    t.seek_done(44_100);
    assert_eq!(t.seek_ms, None);
    assert!(!t.flushing);
    assert_eq!(t.frames_played, 44_100);
}

#[test]
fn seek_generation_wraps() {
    let mut t = Transport::new();
    t.start_track();
    t.seek_generation = u64::MAX;
    t.seek(1);
    assert_eq!(t.seek_generation, 0);
}

#[test]
fn stop_and_start_reset_everything() {
    let mut t = Transport::new();
    t.start_track();
    t.seek(10);
    t.frames_played = 99;
    t.stop();
    assert_eq!(t, Transport::new());
    t.seek(10);
    t.start_track();
    assert_eq!(t.state(), PlaybackState::Playing);
    assert_eq!(t.frames_played, 0);
    assert_eq!(t.seek_ms, None);
}

#[test]
fn decode_step_priorities() {
    assert_eq!(decode_step(true, true, true, true), DecodeStep::Exit);
    assert_eq!(decode_step(false, true, true, true), DecodeStep::Seek);
    assert_eq!(decode_step(false, false, true, true), DecodeStep::Wait);
    assert_eq!(decode_step(false, false, false, true), DecodeStep::Mix);
    assert_eq!(decode_step(false, false, false, false), DecodeStep::Decode);
}

#[test]
fn frames_in_counts_whole_frames() {
    assert_eq!(frames_in(1024, 2), 512);
    assert_eq!(frames_in(7, 2), 3);
    assert_eq!(frames_in(7, 0), 7);
}

#[test]
fn crossfade_trigger_and_window() {
    let mut x = Crossfade::new();
    // Nothing pushed yet: never starts.
    assert!(!x.should_start(true, 100, 0));
    x.record_pushed(2 * 150, 2);
    assert_eq!(x.frames_pushed, 150);
    // 150 pushed, 40 played: 110 ahead > 100.
    assert!(!x.should_start(true, 100, 40));
    // 60 played: 90 ahead <= 100.
    assert!(x.should_start(true, 100, 60));
    // Disabled: never.
    assert!(!x.should_start(false, 100, 60));
    // Played ahead of pushed saturates to 0 ahead.
    assert!(x.should_start(true, 100, 1000));
    x.start(100);
    assert!(x.active);
    assert!(!x.should_start(true, 100, 60));
    assert_eq!(x.mix_position(10), (10, 100));
    assert!(!x.finish_mix_step(60));
    assert_eq!(x.mix_position(50), (100, 100));
    assert!(x.finish_mix_step(40));
    assert!(!x.active);
    assert_eq!(x.frames_pushed, 250);
    x.cancel_for_seek();
    assert_eq!(x, Crossfade::new());
    x.resync(4800);
    assert_eq!(x.frames_pushed, 4800);
}

#[test]
fn empty_crossfade_window_is_finished() {
    let mut x = Crossfade::new();
    x.start(0);
    assert_eq!(x.mix_position(3), (1, 1));
    assert!(x.finish_mix_step(0));
}

#[test]
fn chunk_plan_bit_perfect_bypasses_eq() {
    assert_eq!(
        chunk_plan(true, 5, 4, false),
        ChunkPlan { rebuild_eq: false, run_eq: false, resample: false }
    );
    assert_eq!(
        chunk_plan(false, 5, 4, true),
        ChunkPlan { rebuild_eq: true, run_eq: true, resample: true }
    );
    assert_eq!(
        chunk_plan(false, 4, 4, false),
        ChunkPlan { rebuild_eq: false, run_eq: true, resample: false }
    );
    assert!(needs_resampler(44_100, 48_000));
    assert!(!needs_resampler(48_000, 48_000));
}

#[test]
fn adapt_same_channels_is_identity() {
    let v = vec![1i32, 2, 3, 4, 5];
    assert_eq!(adapt_channels(&v, 2, 2, 0), v);
}

#[test]
fn adapt_mono_to_stereo_duplicates() {
    let v = vec![1i32, 2, 3];
    assert_eq!(adapt_channels(&v, 1, 2, 0), vec![1, 1, 2, 2, 3, 3]);
}

#[test]
fn adapt_stereo_to_mono_keeps_first_channel_and_drops_partial_frame() {
    let v = vec![1i32, 2, 3, 4, 5];
    assert_eq!(adapt_channels(&v, 2, 1, 0), vec![1, 3]);
}

#[test]
fn adapt_stereo_to_quad_fills_silence() {
    let v = vec![1i32, 2, 3, 4];
    assert_eq!(adapt_channels(&v, 2, 4, -9), vec![1, 2, -9, -9, 3, 4, -9, -9]);
}

#[test]
fn adapt_to_zero_channels_is_empty() {
    let v = vec![1i32, 2, 3, 4];
    assert_eq!(adapt_channels(&v, 2, 0, 0), Vec::<i32>::new());
}

#[test]
fn callback_paused_flushing_and_playing() {
    assert_eq!(
        callback_plan(true, true, 100, 64, 2, true),
        CallbackPlan { silence: true, discard_all: false, pop: 0, frames_played: 0, finished: false }
    );
    assert_eq!(
        callback_plan(false, true, 100, 64, 2, true),
        CallbackPlan { silence: true, discard_all: true, pop: 0, frames_played: 0, finished: false }
    );
    assert_eq!(
        callback_plan(false, false, 100, 64, 2, false),
        CallbackPlan { silence: false, discard_all: false, pop: 64, frames_played: 32, finished: false }
    );
    assert_eq!(
        callback_plan(false, false, 10, 64, 2, true),
        CallbackPlan { silence: false, discard_all: false, pop: 10, frames_played: 5, finished: false }
    );
    assert_eq!(
        callback_plan(false, false, 0, 64, 2, true),
        CallbackPlan { silence: false, discard_all: false, pop: 0, frames_played: 0, finished: true }
    );
    assert_eq!(
        callback_plan(false, false, 0, 64, 2, false).finished,
        false
    );
    assert_eq!(callback_plan(false, false, 9, 64, 0, false).frames_played, 0);
}

#[test]
fn pending_samples_take_extend_compact() {
    let mut p: PendingSamples<i32> = PendingSamples::new();
    assert_eq!(p.available(), 0);
    assert!(p.needs_more(1));
    p.extend(&[1, 2, 3, 4, 5]);
    assert_eq!(p.available(), 5);
    assert_eq!(p.take(2), vec![1, 2]);
    assert_eq!(p.available(), 3);
    p.compact();
    assert_eq!(p.available(), 3);
    p.extend(&[6]);
    assert!(!p.needs_more(4));
    assert!(p.needs_more(5));
    assert_eq!(p.take(10), vec![3, 4, 5, 6]);
    assert_eq!(p.take(1), Vec::<i32>::new());
}

#[test]
fn prefill_after_seek() {
    assert_eq!(prefill_step(0, true, true), PrefillStep::Abort);
    assert_eq!(prefill_step(0, false, true), PrefillStep::Done);
    assert_eq!(prefill_step(8192, false, false), PrefillStep::Done);
    assert_eq!(prefill_step(100, false, false), PrefillStep::More);
}
