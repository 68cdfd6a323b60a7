use vstd::prelude::*;

verus! {

/// Why a configuration was rejected.
#[derive(Clone, Copy, Debug, PartialEq, Eq, Structural)]
pub enum ConfigError {
    /// The network was asked to take zero inputs.
    EmptyInput,
    /// The network was asked to produce zero outputs.
    EmptyOutput,
    /// The data was to be split into zero mini-batches.
    ZeroBatchCount,
    /// Features and labels differ in number.
    LengthMismatch,
}

} // verus!
