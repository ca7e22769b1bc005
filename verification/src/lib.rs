//! A verified MIDI-to-PCM rendering core.
//!
//! The pipeline is strictly linear: bytes are decoded into timed events,
//! events are reconstructed into notes with absolute times, and the
//! resulting samples are packaged as an uncompressed RIFF/WAVE container.
//! All timing is carried in integer microseconds so that every stage has
//! an exact mathematical specification.

pub mod midi;
pub mod playback;
pub mod ringbuf;
pub mod staff;
pub mod timeline;
pub mod vlq;
pub mod wav;
