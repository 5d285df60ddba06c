use vstd::prelude::*;

verus! {

/// A decode failure.
///
/// Every error that the codec can report is one of these three: the
/// input ended too early, a varint carried a value wider than its
/// target, or a field key declared a wire type the format does not
/// have.
#[derive(Clone, Copy, Debug, PartialEq, Eq, Structural)]
pub enum Error {
    /// The stream ended before a varint terminated or before a
    /// declared sized length was fully available.
    Truncated,
    /// A decoded varint exceeds the width of the target scalar.
    Overflow,
    /// A field key carried a wire type outside the two known kinds;
    /// the offending tag and wire type are recorded.
    Malformed { tag: u16, wire_type: u8 },
}

} // verus!
