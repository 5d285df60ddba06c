use crate::de::Deserialize;
use crate::error::Error;
use crate::reader::Reader;
use crate::ser::Serialize;
use crate::varint::{
    lemma_varint_enc_len_le_10, read_varint_u16, read_varint_u32, read_varint_u64, read_varint_u8,
    size_varint_u64, varint_enc, varint_size, varint_terminated, varint_value, write_varint_u64,
};
use crate::wire_type::{WireType, WIRE_TYPE_VARINT};
use vstd::prelude::*;

verus! {

// ---------------------------------------------------------------------------
// The varint scalar kinds.  One codec does the work for every width:
// encoding goes through the value widened to `u64`, decoding reads a
// `u64`-wide varint and rejects values beyond the target's width.
// Booleans ride the same path as 0 and 1.
// ---------------------------------------------------------------------------

/// What merging a varint scalar bounded by `max` yields.
pub open spec fn scalar_merge_spec(avail: Seq<u8>, max: nat) -> Result<(nat, nat), Error> {
    if !varint_terminated(avail) {
        Err(Error::Truncated)
    } else if varint_value(avail) > max {
        Err(Error::Overflow)
    } else {
        Ok((varint_value(avail), varint_size(avail)))
    }
}

/// Round trip for the widest scalar: decoding the encoding of any
/// `u64`, whatever follows it, merges to that value and consumes
/// exactly its encoding.
pub proof fn lemma_u64_round_trip(v: u64, pre: u64, rest: Seq<u8>)
    ensures
        u64::merge_spec(pre, v.encoding() + rest) == Ok::<(u64, nat), Error>(
            (v, v.encoding().len()),
        ),
{
    crate::varint::lemma_varint_round_trip(v as nat, rest);
}

/// Round trip for tags and other 16-bit scalars.
pub proof fn lemma_u16_round_trip(v: u16, pre: u16, rest: Seq<u8>)
    ensures
        u16::merge_spec(pre, v.encoding() + rest) == Ok::<(u16, nat), Error>(
            (v, v.encoding().len()),
        ),
{
    crate::varint::lemma_varint_round_trip(v as nat, rest);
}

/// Round trip for booleans riding the scalar path as 0 and 1.
pub proof fn lemma_bool_round_trip(v: bool, pre: bool, rest: Seq<u8>)
    ensures
        bool::merge_spec(pre, v.encoding() + rest) == Ok::<(bool, nat), Error>(
            (v, v.encoding().len()),
        ),
{
    if v {
        crate::varint::lemma_varint_round_trip(1nat, rest);
    } else {
        crate::varint::lemma_varint_round_trip(0nat, rest);
    }
}

impl WireType for u64 {
    open spec fn wire_type_spec() -> u8 {
        WIRE_TYPE_VARINT
    }

    proof fn wire_type_valid() {
    }

    fn wire_type() -> u8 {
        WIRE_TYPE_VARINT
    }
}

impl Serialize for u64 {
    open spec fn encoding(&self) -> Seq<u8> {
        varint_enc(*self as nat)
    }

    open spec fn ser_wf(&self) -> bool {
        true
    }

    proof fn ser_wf_bound(&self) {
        lemma_varint_enc_len_le_10(*self as nat);
    }

    fn compute_size(&self) -> u32 {
        size_varint_u64(*self)
    }

    fn serialize_with_cached_size(&self, writer: &mut Vec<u8>) -> Result<(), Error> {
        write_varint_u64(writer, *self);
        Ok(())
    }
}

impl Deserialize for u64 {
    open spec fn default_spec() -> u64 {
        0u64
    }

    open spec fn merge_spec(pre: u64, avail: Seq<u8>) -> Result<(u64, nat), Error> {
        match scalar_merge_spec(avail, u64::MAX as nat) {
            Ok((v, n)) => Ok((v as u64, n)),
            Err(e) => Err(e),
        }
    }

    proof fn merge_spec_consumes(pre: u64, avail: Seq<u8>) {
        if varint_terminated(avail) {
            crate::varint::lemma_varint_size_le_len(avail);
        }
    }

    fn default_value() -> u64 {
        0u64
    }

    fn merge(&mut self, reader: &mut Reader) -> Result<(), Error> {
        match read_varint_u64(reader) {
            Ok(v) => {
                *self = v;
                Ok(())
            },
            Err(e) => Err(e),
        }
    }
}

impl WireType for u32 {
    open spec fn wire_type_spec() -> u8 {
        WIRE_TYPE_VARINT
    }

    proof fn wire_type_valid() {
    }

    fn wire_type() -> u8 {
        WIRE_TYPE_VARINT
    }
}

impl Serialize for u32 {
    open spec fn encoding(&self) -> Seq<u8> {
        varint_enc(*self as nat)
    }

    open spec fn ser_wf(&self) -> bool {
        true
    }

    proof fn ser_wf_bound(&self) {
        lemma_varint_enc_len_le_10(*self as nat);
    }

    fn compute_size(&self) -> u32 {
        size_varint_u64(*self as u64)
    }

    fn serialize_with_cached_size(&self, writer: &mut Vec<u8>) -> Result<(), Error> {
        write_varint_u64(writer, *self as u64);
        Ok(())
    }
}

impl Deserialize for u32 {
    open spec fn default_spec() -> u32 {
        0u32
    }

    open spec fn merge_spec(pre: u32, avail: Seq<u8>) -> Result<(u32, nat), Error> {
        match scalar_merge_spec(avail, u32::MAX as nat) {
            Ok((v, n)) => Ok((v as u32, n)),
            Err(e) => Err(e),
        }
    }

    proof fn merge_spec_consumes(pre: u32, avail: Seq<u8>) {
        if varint_terminated(avail) {
            crate::varint::lemma_varint_size_le_len(avail);
        }
    }

    fn default_value() -> u32 {
        0u32
    }

    fn merge(&mut self, reader: &mut Reader) -> Result<(), Error> {
        match read_varint_u32(reader) {
            Ok(v) => {
                *self = v;
                Ok(())
            },
            Err(e) => Err(e),
        }
    }
}

impl WireType for u16 {
    open spec fn wire_type_spec() -> u8 {
        WIRE_TYPE_VARINT
    }

    proof fn wire_type_valid() {
    }

    fn wire_type() -> u8 {
        WIRE_TYPE_VARINT
    }
}

impl Serialize for u16 {
    open spec fn encoding(&self) -> Seq<u8> {
        varint_enc(*self as nat)
    }

    open spec fn ser_wf(&self) -> bool {
        true
    }

    proof fn ser_wf_bound(&self) {
        lemma_varint_enc_len_le_10(*self as nat);
    }

    fn compute_size(&self) -> u32 {
        size_varint_u64(*self as u64)
    }

    fn serialize_with_cached_size(&self, writer: &mut Vec<u8>) -> Result<(), Error> {
        write_varint_u64(writer, *self as u64);
        Ok(())
    }
}

impl Deserialize for u16 {
    open spec fn default_spec() -> u16 {
        0u16
    }

    open spec fn merge_spec(pre: u16, avail: Seq<u8>) -> Result<(u16, nat), Error> {
        match scalar_merge_spec(avail, u16::MAX as nat) {
            Ok((v, n)) => Ok((v as u16, n)),
            Err(e) => Err(e),
        }
    }

    proof fn merge_spec_consumes(pre: u16, avail: Seq<u8>) {
        if varint_terminated(avail) {
            crate::varint::lemma_varint_size_le_len(avail);
        }
    }

    fn default_value() -> u16 {
        0u16
    }

    fn merge(&mut self, reader: &mut Reader) -> Result<(), Error> {
        match read_varint_u16(reader) {
            Ok(v) => {
                *self = v;
                Ok(())
            },
            Err(e) => Err(e),
        }
    }
}

impl WireType for u8 {
    open spec fn wire_type_spec() -> u8 {
        WIRE_TYPE_VARINT
    }

    proof fn wire_type_valid() {
    }

    fn wire_type() -> u8 {
        WIRE_TYPE_VARINT
    }
}

impl Serialize for u8 {
    open spec fn encoding(&self) -> Seq<u8> {
        varint_enc(*self as nat)
    }

    open spec fn ser_wf(&self) -> bool {
        true
    }

    proof fn ser_wf_bound(&self) {
        lemma_varint_enc_len_le_10(*self as nat);
    }

    fn compute_size(&self) -> u32 {
        size_varint_u64(*self as u64)
    }

    fn serialize_with_cached_size(&self, writer: &mut Vec<u8>) -> Result<(), Error> {
        write_varint_u64(writer, *self as u64);
        Ok(())
    }
}

impl Deserialize for u8 {
    open spec fn default_spec() -> u8 {
        0u8
    }

    open spec fn merge_spec(pre: u8, avail: Seq<u8>) -> Result<(u8, nat), Error> {
        match scalar_merge_spec(avail, u8::MAX as nat) {
            Ok((v, n)) => Ok((v as u8, n)),
            Err(e) => Err(e),
        }
    }

    proof fn merge_spec_consumes(pre: u8, avail: Seq<u8>) {
        if varint_terminated(avail) {
            crate::varint::lemma_varint_size_le_len(avail);
        }
    }

    fn default_value() -> u8 {
        0u8
    }

    fn merge(&mut self, reader: &mut Reader) -> Result<(), Error> {
        match read_varint_u8(reader) {
            Ok(v) => {
                *self = v;
                Ok(())
            },
            Err(e) => Err(e),
        }
    }
}

impl WireType for bool {
    open spec fn wire_type_spec() -> u8 {
        WIRE_TYPE_VARINT
    }

    proof fn wire_type_valid() {
    }

    fn wire_type() -> u8 {
        WIRE_TYPE_VARINT
    }
}

impl Serialize for bool {
    open spec fn encoding(&self) -> Seq<u8> {
        if *self {
            varint_enc(1nat)
        } else {
            varint_enc(0nat)
        }
    }

    open spec fn ser_wf(&self) -> bool {
        true
    }

    proof fn ser_wf_bound(&self) {
    }

    fn compute_size(&self) -> u32 {
        1
    }

    fn serialize_with_cached_size(&self, writer: &mut Vec<u8>) -> Result<(), Error> {
        if *self {
            write_varint_u64(writer, 1u64);
        } else {
            write_varint_u64(writer, 0u64);
        }
        Ok(())
    }
}

impl Deserialize for bool {
    open spec fn default_spec() -> bool {
        false
    }

    open spec fn merge_spec(pre: bool, avail: Seq<u8>) -> Result<(bool, nat), Error> {
        match scalar_merge_spec(avail, u8::MAX as nat) {
            Ok((v, n)) => Ok((v != 0, n)),
            Err(e) => Err(e),
        }
    }

    proof fn merge_spec_consumes(pre: bool, avail: Seq<u8>) {
        if varint_terminated(avail) {
            crate::varint::lemma_varint_size_le_len(avail);
        }
    }

    fn default_value() -> bool {
        false
    }

    fn merge(&mut self, reader: &mut Reader) -> Result<(), Error> {
        match read_varint_u8(reader) {
            Ok(v) => {
                *self = v != 0;
                Ok(())
            },
            Err(e) => Err(e),
        }
    }
}

} // verus!
