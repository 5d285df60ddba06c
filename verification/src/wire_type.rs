use vstd::prelude::*;

verus! {

/// Wire type of a self-delimiting scalar: the payload is one varint.
pub const WIRE_TYPE_VARINT: u8 = 0;

/// Wire type of a length-delimited blob: a length varint, then that
/// many payload bytes.
pub const WIRE_TYPE_SIZED: u8 = 2;

/// An encodable kind declares the fixed wire type of its payload.
pub trait WireType {
    spec fn wire_type_spec() -> u8;

    /// Every kind's wire type is one of the two known ones.
    proof fn wire_type_valid()
        ensures
            Self::wire_type_spec() == WIRE_TYPE_VARINT || Self::wire_type_spec()
                == WIRE_TYPE_SIZED,
    ;

    fn wire_type() -> (r: u8)
        ensures
            r == Self::wire_type_spec(),
    ;
}

/// The key packing a field tag and a wire type into one integer:
/// the tag in the high bits, the wire type in the low three.
pub open spec fn key_spec(tag: u16, wire_type: u8) -> nat {
    (tag as nat) * 8 + wire_type as nat
}

/// Packs `tag` and `wire_type` into a key value.
pub fn key(tag: u16, wire_type: u8) -> (r: u32)
    requires
        wire_type < 8,
    ensures
        r as nat == key_spec(tag, wire_type),
{
    (tag as u32) * 8 + wire_type as u32
}

/// Splits a key back into its tag and wire type.
pub fn split_key(k: u32) -> (r: (u16, u8))
    requires
        k < 0x80000,
    ensures
        r.0 as nat == (k as nat) / 8,
        r.1 as nat == (k as nat) % 8,
        k as nat == key_spec(r.0, r.1),
{
    let tag: u16 = (k / 8) as u16;
    let wire_type: u8 = (k % 8) as u8;
    (tag, wire_type)
}

} // verus!
