//! Behaviour of the streaming driver: clock advance, buffer layout, and the
//! fixed-duration lifecycle.

use tonegen::select::chord_from_picks;
use tonegen::stream::{
    fill_frames, lifecycle_step, SampleClock, StreamAction, StreamEvent, StreamPhase,
    PLAYBACK_SECONDS,
};
use tonegen::synth::{sample_at, AMP_ONE};

#[test]
fn clock_advances_by_exactly_one_per_frame() {
    let chord = chord_from_picks(3, &vec![0usize, 3, 5]).unwrap();
    let mut clock = SampleClock::new();
    assert_eq!(clock.ticks, 0);
    // A fake sink asks for five consecutive buffers of 480 frames each; the
    // one buffer is reused across the calls, as the streaming callback does.
    let mut buf: Vec<u64> = Vec::new();
    for i in 1..=5u64 {
        fill_frames(&mut clock, &chord, 48000, 480, 2, &mut buf);
        assert_eq!(buf.len(), 960);
        assert_eq!(clock.ticks, i * 480);
    }
}

#[test]
fn frames_duplicate_one_value_across_channels() {
    let chord = chord_from_picks(3, &vec![0usize, 3, 5]).unwrap();
    let mut clock = SampleClock::new();
    let mut buf: Vec<u64> = Vec::new();
    fill_frames(&mut clock, &chord, 48000, 16, 3, &mut buf);
    assert_eq!(buf.len(), 48);
    for frame in 0..16u64 {
        let expected = sample_at(frame + 1, 48000, &chord.freqs);
        for c in 0..3usize {
            assert_eq!(buf[frame as usize * 3 + c], expected);
        }
    }
}

#[test]
fn buffers_continue_in_clock_order() {
    let chord = chord_from_picks(3, &vec![0usize, 3, 5]).unwrap();
    let mut clock = SampleClock::new();
    let mut first: Vec<u64> = Vec::new();
    let mut second: Vec<u64> = Vec::new();
    fill_frames(&mut clock, &chord, 48000, 480, 1, &mut first);
    fill_frames(&mut clock, &chord, 48000, 480, 1, &mut second);
    for k in 0..480u64 {
        assert_eq!(first[k as usize], sample_at(k + 1, 48000, &chord.freqs));
        assert_eq!(second[k as usize], sample_at(481 + k, 48000, &chord.freqs));
    }
}

#[test]
fn first_sample_of_scenario_buffer_matches_reference() {
    // A stubbed random source fixes the chord; a fake 48000 Hz mono sink asks
    // for one 480-frame buffer.
    let chord = chord_from_picks(3, &vec![0usize, 3, 5]).unwrap();
    assert_eq!(chord.freqs, vec![261626u64, 329628, 391995]);
    let mut clock = SampleClock::new();
    let mut buf: Vec<u64> = Vec::new();
    fill_frames(&mut clock, &chord, 48000, 480, 1, &mut buf);
    assert_eq!(buf[0], sample_at(1, 48000, &chord.freqs));
    let t = 1.0f64 / 48000.0;
    let mut y = 0.0f64;
    for f in [261.626f64, 329.628, 391.995] {
        let decay = (-0.0015 * f * t).exp();
        let a = 0.6 * (2.0 * std::f64::consts::PI * f * t).sin() * decay;
        let b = a + 0.4 * (2.0 * std::f64::consts::PI * 2.0 * f * t).sin() * decay;
        y += b * b * b * (1.0 + 16.0 * t * (-6.0 * t).exp());
    }
    let expected = (y * 0.5 + 0.5).clamp(0.0, 1.0);
    let got = buf[0] as f64 / AMP_ONE as f64;
    assert!((got - expected).abs() < 1e-6);
}

#[test]
fn stream_stops_exactly_at_the_configured_duration() {
    // Setup starts the stream.
    assert_eq!(
        lifecycle_step(StreamPhase::Idle, StreamEvent::SetupDone),
        (StreamPhase::Streaming, StreamAction::Start)
    );
    // A fake timer drives the lifecycle: no stop before the duration is up.
    let mut phase = StreamPhase::Streaming;
    for elapsed in 0..PLAYBACK_SECONDS {
        let (next, action) = lifecycle_step(phase, StreamEvent::TimerTick(elapsed));
        assert_eq!(next, StreamPhase::Streaming);
        assert_eq!(action, StreamAction::Wait);
        phase = next;
    }
    // At exactly the configured duration the stream is torn down.
    let (next, action) = lifecycle_step(phase, StreamEvent::TimerTick(PLAYBACK_SECONDS));
    assert_eq!(next, StreamPhase::Stopped);
    assert_eq!(action, StreamAction::Stop);
    // Once stopped, every further event is ignored.
    assert_eq!(
        lifecycle_step(next, StreamEvent::TimerTick(PLAYBACK_SECONDS + 1)),
        (StreamPhase::Stopped, StreamAction::Ignore)
    );
    assert_eq!(
        lifecycle_step(next, StreamEvent::SetupDone),
        (StreamPhase::Stopped, StreamAction::Ignore)
    );
}
