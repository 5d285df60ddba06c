use crate::error::Error;
use crate::varint::{
    lemma_varint_enc_len_bound, pow128, size_varint_u64, varint_enc, write_varint_u64,
};
use crate::wire_type::{key, key_spec, WireType, WIRE_TYPE_SIZED};
use vstd::prelude::*;

verus! {

/// The payload framed for nesting: a sized payload is preceded by its
/// length varint, a varint payload stands alone.
pub open spec fn framed_encoding(enc: Seq<u8>, wire_type: u8) -> Seq<u8> {
    if wire_type == WIRE_TYPE_SIZED {
        varint_enc(enc.len()) + enc
    } else {
        enc
    }
}

/// The bytes a nested field contributes: nothing at all when a tagged,
/// omittable field serializes to zero bytes; otherwise the key varint
/// (if a tag is given), the length prefix (if sized), and the payload.
pub open spec fn nested_encoding(
    enc: Seq<u8>,
    wire_type: u8,
    tag: Option<u16>,
    omittable: bool,
) -> Seq<u8> {
    if tag is Some && omittable && enc.len() == 0 {
        Seq::empty()
    } else {
        match tag {
            Some(t) => varint_enc(key_spec(t, wire_type)) + framed_encoding(enc, wire_type),
            None => framed_encoding(enc, wire_type),
        }
    }
}

/// An omitted field contributes no bytes at all.
pub proof fn lemma_omitted_field_is_empty(enc: Seq<u8>, wire_type: u8, tag: u16)
    requires
        enc.len() == 0,
    ensures
        nested_encoding(enc, wire_type, Some(tag), true).len() == 0,
{
}

/// Size consistency: the length the compute pass promises for a value
/// is exactly the byte count the cached-size write path appends for it,
/// for every value, always — both passes are pinned to the one
/// `encoding` of the value.
pub proof fn lemma_size_consistency<T: Serialize>(
    value: T,
    size: u32,
    before: Seq<u8>,
    after: Seq<u8>,
)
    requires
        size as nat == value.encoding().len(),
        after == before + value.encoding(),
    ensures
        after.len() == before.len() + size,
{
}

/// The serialize side of the codec contract.
///
/// `compute_size` must run before `serialize_with_cached_size`; the
/// write pass trusts whatever size bookkeeping the compute pass did and
/// never measures again.  Both are pinned to one spec-level byte
/// sequence, `encoding`, so the size returned and the bytes written can
/// never disagree.
pub trait Serialize: WireType {
    /// The bytes this value serializes to.
    spec fn encoding(&self) -> Seq<u8>;

    /// Inputs on which serialization is defined; at the least the
    /// encoded length must fit the size arithmetic.
    spec fn ser_wf(&self) -> bool;

    /// A well-formed value's encoding leaves room for its framing.
    proof fn ser_wf_bound(&self)
        requires
            self.ser_wf(),
        ensures
            self.encoding().len() + 16 <= u32::MAX,
    ;

    /// The encoded byte length of this value, computed from scratch.
    fn compute_size(&self) -> (r: u32)
        requires
            self.ser_wf(),
        ensures
            r as nat == self.encoding().len(),
    ;

    /// Writes this value's payload bytes, trusting any size cached by
    /// the compute pass.
    fn serialize_with_cached_size(&self, writer: &mut Vec<u8>) -> (r: Result<(), Error>)
        requires
            self.ser_wf(),
        ensures
            r == Ok::<(), Error>(()),
            final(writer)@ == old(writer)@ + self.encoding(),
    ;

    /// The size the write pass will rely on.  Kinds that memoize their
    /// size return the memo; by default the size is recomputed.
    fn cached_size(&self) -> (r: u32)
        requires
            self.ser_wf(),
        ensures
            r as nat == self.encoding().len(),
    {
        self.compute_size()
    }

    /// The two passes in their mandatory order: measure, then write.
    fn serialize(&self, writer: &mut Vec<u8>) -> (r: Result<(), Error>)
        requires
            self.ser_wf(),
        ensures
            r == Ok::<(), Error>(()),
            final(writer)@ == old(writer)@ + self.encoding(),
    {
        let _size: u32 = self.compute_size();
        self.serialize_with_cached_size(writer)
    }

    /// The key varint value announcing a field of this kind under `tag`.
    fn key(tag: u16) -> (r: u32)
        ensures
            r as nat == key_spec(tag, Self::wire_type_spec()),
    {
        proof {
            Self::wire_type_valid();
        }
        key(tag, Self::wire_type())
    }

    /// A field is treated as default exactly when it serializes to zero
    /// bytes; no true default-value comparison is attempted.
    fn is_default_nested_with_cached_size(&self) -> (r: bool)
        requires
            self.ser_wf(),
        ensures
            r == (self.encoding().len() == 0),
    {
        self.cached_size() == 0
    }

    /// The byte length this value contributes as a nested field.
    fn compute_size_nested_omittable(&self, tag: Option<u16>, omittable: bool) -> (r: u32)
        requires
            self.ser_wf(),
        ensures
            r as nat == nested_encoding(
                self.encoding(),
                Self::wire_type_spec(),
                tag,
                omittable,
            ).len(),
    {
        proof {
            Self::wire_type_valid();
            self.ser_wf_bound();
            assert(pow128(5nat) > u32::MAX) by {
                reveal_with_fuel(pow128, 6);
            }
            assert(pow128(3nat) == 2097152) by {
                reveal_with_fuel(pow128, 4);
            }
            lemma_varint_enc_len_bound(self.encoding().len(), 5nat);
            if let Some(t) = tag {
                lemma_varint_enc_len_bound(key_spec(t, Self::wire_type_spec()), 3nat);
            }
        }
        let mut size: u32 = self.compute_size();
        if tag.is_some() && omittable && self.is_default_nested_with_cached_size() {
            return 0;
        }
        if Self::wire_type() == WIRE_TYPE_SIZED {
            size = size + size_varint_u64(size as u64);
        }
        if let Some(t) = tag {
            size = size + size_varint_u64(Self::key(t) as u64);
        }
        size
    }

    /// Nested size with omission enabled, the common case.
    fn compute_size_nested(&self, tag: Option<u16>) -> (r: u32)
        requires
            self.ser_wf(),
        ensures
            r as nat == nested_encoding(
                self.encoding(),
                Self::wire_type_spec(),
                tag,
                true,
            ).len(),
    {
        self.compute_size_nested_omittable(tag, true)
    }

    /// Writes this value as a nested field: key varint if tagged,
    /// length prefix if sized, then the payload — or nothing at all
    /// when a tagged, omittable field serializes to zero bytes.
    fn serialize_nested_omittable_with_cached_size(
        &self,
        tag: Option<u16>,
        omittable: bool,
        writer: &mut Vec<u8>,
    ) -> (r: Result<(), Error>)
        requires
            self.ser_wf(),
        ensures
            r == Ok::<(), Error>(()),
            final(writer)@ == old(writer)@ + nested_encoding(
                self.encoding(),
                Self::wire_type_spec(),
                tag,
                omittable,
            ),
    {
        proof {
            Self::wire_type_valid();
            self.ser_wf_bound();
        }
        if tag.is_some() && omittable && self.is_default_nested_with_cached_size() {
            proof {
                assert(writer@ =~= old(writer)@ + Seq::<u8>::empty());
            }
            return Ok(());
        }
        if let Some(t) = tag {
            let k: u32 = Self::key(t);
            write_varint_u64(writer, k as u64);
        }
        if Self::wire_type() == WIRE_TYPE_SIZED {
            let size: u32 = self.cached_size();
            write_varint_u64(writer, size as u64);
        }
        let r = self.serialize_with_cached_size(writer);
        proof {
            assert(writer@ =~= old(writer)@ + nested_encoding(
                self.encoding(),
                Self::wire_type_spec(),
                tag,
                omittable,
            ));
        }
        r
    }

    /// Nested write with omission enabled, the common case.
    fn serialize_nested_with_cached_size(&self, tag: Option<u16>, writer: &mut Vec<u8>) -> (r:
        Result<(), Error>)
        requires
            self.ser_wf(),
        ensures
            r == Ok::<(), Error>(()),
            final(writer)@ == old(writer)@ + nested_encoding(
                self.encoding(),
                Self::wire_type_spec(),
                tag,
                true,
            ),
    {
        self.serialize_nested_omittable_with_cached_size(tag, true, writer)
    }
}

} // verus!
