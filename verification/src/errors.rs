//! Error taxonomy of the record codecs and of mapping construction.

use vstd::prelude::*;

verus! {

/// Why decoding a record failed.
///
/// A mapping-lookup miss is not an error: an unknown symbol falls back to
/// identity translation by design.
#[derive(Clone, Copy, Debug, PartialEq, Eq, Structural)]
pub enum DecodeError {
    /// A price or quantity field is not a finite decimal string, or its
    /// canonical value does not fit the internal representation.
    InvalidNumber,
    /// The side field is not exactly `"ask"` or `"bid"`.
    InvalidEnumValue,
    /// Structural parse failure: the text is not a JSON object, or a field
    /// is missing or not a string.
    MalformedRecord,
}

/// Why building a mapping table failed.
#[derive(Clone, Copy, Debug, PartialEq, Eq, Structural)]
pub enum BuildError {
    /// Two entries of the configured symbol list coincide, so two keys of
    /// the forward mapping would collide.
    DuplicateMapping,
}

} // verus!
