//! A minimal runtime for composing independent audio-processing units into a
//! directed signal-flow graph and executing one fixed-size block of samples
//! through the whole graph per call.
//!
//! The graph owns all processing modules, all port storage and the connection
//! table. Samples travel as opaque 32-bit words (hosts usually put IEEE 754
//! single-precision bit patterns in them); the engine broadcasts, copies and
//! zeroes those words but never interprets them, so every transform between
//! blocks belongs to the processing units behind [`audio_processor::AudioProcessor`].

pub mod arena;
pub mod audio_processor;
pub mod graph;
