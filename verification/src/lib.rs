//! A procedural tone generator.
//!
//! The library picks a small chord at random from a fixed twelve-tone
//! equal-tempered scale, synthesizes a decaying two-harmonic waveform for it
//! sample by sample, and drives a monotonic sample clock that fills
//! interleaved audio buffers in strict clock order.  All signal values are
//! Q32 fixed-point integers: an amplitude of one unit is `FX_ONE`, and a
//! caller converts to its device's native sample type outside the library.

pub mod math;
pub mod scale;
pub mod select;
pub mod stream;
pub mod synth;
