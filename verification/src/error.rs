//! What can go wrong with the text that a caller hands in.

use vstd::prelude::*;

verus! {

/// Each error ends the operation that met it; none is recovered from half-way.
#[derive(Clone, Copy, Debug, PartialEq, Eq, Structural)]
pub enum LifeError {
    /// A rule is not two runs of the digits `0` to `8` around one `-`.
    RuleFormat,
    /// A file name ends in none of `txt`, `lif`, `cells`, `rle`.
    UnsupportedFormat,
    /// A pattern holds a byte that its format has no meaning for: the byte,
    /// and how many bytes of the text come before it.
    UnrecognizedSymbol { symbol: u8, offset: usize },
}

} // verus!
