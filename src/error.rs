use vstd::prelude::*;

verus! {

/// The rule that a header sequence broke. Every one of them ends the run.
#[derive(Debug, Clone, Copy, PartialEq, Eq, Structural)]
pub enum ChainError {
    /// A record is not exactly 80 bytes long, or is not valid hexadecimal text.
    MalformedHeader,
    /// The version field is not the single accepted value 1.
    UnsupportedVersion,
    /// The previous-hash field does not match the hash of the preceding header.
    BrokenChain,
    /// The exponent of the compact difficulty is out of the accepted range.
    InvalidDifficultyEncoding,
    /// The header's double hash exceeds its expanded target.
    InsufficientWork,
    /// The timestamp is earlier than the preceding header's.
    TimeNotMonotonic,
    /// The timestamp exceeds twice the median of the trailing window.
    ExcessiveTimeDrift,
}

} // verus!
