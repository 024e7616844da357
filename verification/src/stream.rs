//! The streaming driver's verified half: the monotonic sample clock, the
//! buffer-fill computation that the audio sink's callback runs, and the
//! lifecycle state machine that starts the stream and stops it after the
//! fixed playback duration.

use crate::select::ChordSelection;
use crate::synth::{fx_amplitude, sample_at, MAX_RATE, MAX_TICKS, MAX_VOICES};
use vstd::arithmetic::div_mod::lemma_div_multiples_vanish_fancy;
use vstd::arithmetic::mul::lemma_mul_inequality;
use vstd::prelude::*;

verus! {

/// How long a run plays, in seconds.
pub const PLAYBACK_SECONDS: u64 = 10;

/// The sample clock: a monotonically increasing counter, advanced by exactly
/// one per produced frame, never reset.
pub struct SampleClock {
    /// Number of frames produced so far.
    pub ticks: u64,
}

impl SampleClock {
    /// A clock at zero: no sample has been produced.
    pub fn new() -> (c: SampleClock)
        ensures
            c.ticks == 0,
    {
        SampleClock { ticks: 0 }
    }
}

/// Fills one interleaved buffer of `frames * channels` samples into `buf`:
/// per frame the clock advances by exactly one, the synthesizer runs once,
/// and the value is written into every channel slot of that frame.  Samples
/// appear in strictly increasing clock order.  The caller's buffer is
/// overwritten and may be reused across calls, so a steady-state callback
/// allocates nothing once the buffer has reached its working size.
pub fn fill_frames(
    clock: &mut SampleClock,
    chord: &ChordSelection,
    rate: u64,
    frames: usize,
    channels: usize,
    buf: &mut Vec<u64>,
)
    requires
        chord.freqs@.len() <= MAX_VOICES,
        forall|i: int|
            0 <= i < chord.freqs@.len() ==> #[trigger] chord.freqs@[i]
                <= crate::scale::MAX_FREQ_MILLIHZ,
        1 <= rate <= MAX_RATE,
        old(clock).ticks + frames <= MAX_TICKS,
        1 <= channels,
        frames * channels <= usize::MAX,
    ensures
        final(clock).ticks == old(clock).ticks + frames,
        final(buf)@.len() == frames * channels,
        forall|k: int|
            0 <= k < final(buf)@.len() ==> #[trigger] final(buf)@[k] == fx_amplitude(
                chord.freqs@,
                old(clock).ticks + 1 + k / (channels as int),
                rate as int,
            ),
{
    let ghost t0: int = clock.ticks as int;
    buf.clear();
    let mut f: usize = 0;
    while f < frames
        invariant
            f <= frames,
            chord.freqs@.len() <= MAX_VOICES,
            forall|i: int|
                0 <= i < chord.freqs@.len() ==> #[trigger] chord.freqs@[i]
                    <= crate::scale::MAX_FREQ_MILLIHZ,
            1 <= rate <= MAX_RATE,
            t0 + frames <= MAX_TICKS,
            1 <= channels,
            frames * channels <= usize::MAX,
            clock.ticks == t0 + f,
            buf@.len() == f * channels,
            forall|k: int|
                0 <= k < buf@.len() ==> #[trigger] buf@[k] == fx_amplitude(chord.freqs@,
                    t0 + 1 + k / (channels as int), rate as int),
        decreases frames - f,
    {
        proof {
            lemma_mul_inequality(f as int + 1, frames as int, channels as int);
            lemma_mul_inequality(f as int, frames as int, channels as int);
            assert((f + 1) * channels == f * channels + channels) by (nonlinear_arith);
        }
        clock.ticks = clock.ticks + 1;
        let value: u64 = sample_at(clock.ticks, rate, &chord.freqs);
        let mut c: usize = 0;
        while c < channels
            invariant
                c <= channels,
                1 <= channels,
                buf@.len() == f * channels + c,
                f * channels + channels <= usize::MAX,
                value == fx_amplitude(chord.freqs@, t0 + 1 + f, rate as int),
                clock.ticks == t0 + f + 1,
                forall|k: int|
                    0 <= k < buf@.len() ==> #[trigger] buf@[k] == fx_amplitude(chord.freqs@,
                        t0 + 1 + k / (channels as int), rate as int),
            decreases channels - c,
        {
            buf.push(value);
            proof {
                lemma_div_multiples_vanish_fancy(f as int, c as int, channels as int);
                assert((channels as int) * (f as int) == (f as int) * (channels as int)) by (
                nonlinear_arith);
            }
            c = c + 1;
        }
        f = f + 1;
    }
    proof {
        lemma_mul_inequality(frames as int, frames as int, channels as int);
    }
}

/// The driver's lifecycle.
#[derive(Clone, Copy, Debug, PartialEq, Eq, Structural)]
pub enum StreamPhase {
    /// Nothing negotiated yet.
    Idle,
    /// The sink is pulling buffers.
    Streaming,
    /// Playback is over; no further callback runs.
    Stopped,
}

/// What the surrounding process must do after a step.
#[derive(Clone, Copy, Debug, PartialEq, Eq, Structural)]
pub enum StreamAction {
    /// Start the negotiated stream.
    Start,
    /// Keep waiting; playback time is not up.
    Wait,
    /// Tear the stream down, immediately and unconditionally.
    Stop,
    /// Nothing: the event does not apply to the phase.
    Ignore,
}

/// What happened outside the driver.
#[derive(Clone, Copy, Debug, PartialEq, Eq, Structural)]
pub enum StreamEvent {
    /// Device, format and callbacks are in place.
    SetupDone,
    /// `elapsed` seconds of playback have passed.
    TimerTick(u64),
}

/// Whether playback is over at `elapsed` seconds.
pub open spec fn playback_over(elapsed: int) -> bool {
    elapsed >= PLAYBACK_SECONDS
}

/// One step of the lifecycle: setup starts the stream, and the stream stops
/// exactly when the fixed playback duration has elapsed — never earlier, and
/// at the first timer event no later.
pub fn lifecycle_step(phase: StreamPhase, event: StreamEvent) -> (r: (StreamPhase, StreamAction))
    ensures
        phase is Idle && event is SetupDone ==> r == (StreamPhase::Streaming, StreamAction::Start),
        phase is Streaming ==> (event matches StreamEvent::TimerTick(elapsed) ==> r == (
        if playback_over(elapsed as int) {
            (StreamPhase::Stopped, StreamAction::Stop)
        } else {
            (StreamPhase::Streaming, StreamAction::Wait)
        })),
        phase is Stopped ==> r == (StreamPhase::Stopped, StreamAction::Ignore),
        phase is Idle ==> (event matches StreamEvent::TimerTick(_) ==> r == (
        StreamPhase::Idle,
        StreamAction::Ignore,
        )),
        phase is Streaming && event is SetupDone ==> r == (
        StreamPhase::Streaming,
        StreamAction::Ignore,
        ),
{
    match (phase, event) {
        (StreamPhase::Idle, StreamEvent::SetupDone) => (
            StreamPhase::Streaming,
            StreamAction::Start,
        ),
        (StreamPhase::Streaming, StreamEvent::TimerTick(elapsed)) => {
            if elapsed >= PLAYBACK_SECONDS {
                (StreamPhase::Stopped, StreamAction::Stop)
            } else {
                (StreamPhase::Streaming, StreamAction::Wait)
            }
        },
        (StreamPhase::Stopped, _) => (StreamPhase::Stopped, StreamAction::Ignore),
        (StreamPhase::Idle, StreamEvent::TimerTick(_)) => (StreamPhase::Idle, StreamAction::Ignore),
        (StreamPhase::Streaming, StreamEvent::SetupDone) => (
            StreamPhase::Streaming,
            StreamAction::Ignore,
        ),
    }
}

/// Why startup failed; each aborts the run before any audio state exists.
#[derive(Clone, Copy, Debug, PartialEq, Eq, Structural)]
pub enum SetupFailure {
    /// No output device was found.
    NoDevice,
    /// The device offers a sample format the run does not support.
    UnsupportedFormat,
    /// The stream could not be opened or started.
    StreamOpenFailed,
}

} // verus!
