use vstd::prelude::*;

verus! {

/// Why a bulk load of training data was aborted. Loading is fail-fast: the
/// first offending line stops the whole load, and `committed` reports how many
/// samples had been ingested before that line.
#[derive(Clone, Copy, PartialEq, Eq, Structural, Debug)]
pub enum LoadError {
    /// The line at index `line` (the header is line 0) has no separator or a
    /// label field that does not parse as a small non-negative integer.
    MalformedLine { line: usize, committed: usize },
    /// The compressor rejected the text of the line at index `line`.
    Compression { line: usize, committed: usize },
}

/// The compressor could not accept or finalize its input. Callers must treat
/// the whole step as failed rather than fall back to a length of zero.
#[derive(Clone, Copy, PartialEq, Eq, Structural, Debug)]
pub struct CompressionError;

/// Why a single classification call failed. A failure is local to the call:
/// the sample store is never affected.
#[derive(Clone, Copy, PartialEq, Eq, Structural, Debug)]
pub enum ClassifyError {
    /// The compressor could not accept or finalize an input of this call.
    Compression,
    /// A compressed length of this call is too large for the exact distance
    /// arithmetic.
    Oversize,
}

} // verus!
