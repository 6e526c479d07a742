//! The contract every signal-processing algorithm implements to become a
//! graph node.

use vstd::prelude::*;

verus! {

/// One audio sample, carried as an opaque 32-bit word. Hosts usually store
/// IEEE 754 single-precision bit patterns here; the graph engine never
/// interprets the word.
pub type Sample = u32;

/// A reusable signal transform over one block of samples.
///
/// `process` receives one input buffer per declared input port and one output
/// buffer per declared output port, each `block_size` samples long, and is
/// expected to rewrite every output buffer in place, keeping the buffer count
/// and lengths as given; the engine checks the shape of what comes back and
/// discards a block that violates it. The port counts are queried once, when
/// the unit is bound into a graph, and the sample rate (another opaque 32-bit
/// word) is passed anew on every block.
///
/// Implementations live outside the engine and carry no verified contract:
/// the graph proves nothing about the sample words a unit writes.
pub trait AudioProcessor {
    /// How many input ports the unit declares.
    fn n_inputs(&self) -> usize;

    /// How many output ports the unit declares.
    fn n_outputs(&self) -> usize;

    /// A human-readable label for input port `idx`.
    fn input_name(&self, idx: usize) -> String;

    /// A human-readable label for output port `idx`.
    fn output_name(&self, idx: usize) -> String;

    /// Transform one block: read `inputs`, rewrite every buffer in `outputs`.
    fn process(&mut self, inputs: &Vec<Vec<Sample>>, outputs: &mut Vec<Vec<Sample>>, sample_rate: Sample);
}

} // verus!
