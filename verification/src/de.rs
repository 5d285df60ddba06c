use crate::error::Error;
use crate::reader::Reader;
use crate::varint::{
    lemma_varint_size_le_len, read_varint_u64, skip_varint, varint_size, varint_terminated,
    varint_value,
};
use crate::wire_type::{WireType, WIRE_TYPE_SIZED, WIRE_TYPE_VARINT};
use vstd::prelude::*;

verus! {

/// The frame a sized kind is decoded from: the length-varint byte
/// count and the declared payload length, or the error when the length
/// varint itself cannot be read or the payload is not fully available.
pub open spec fn sized_frame_spec(avail: Seq<u8>) -> Result<(nat, nat), Error> {
    if !varint_terminated(avail) {
        Err(Error::Truncated)
    } else {
        let l = varint_value(avail);
        let n = varint_size(avail);
        if l > u64::MAX {
            Err(Error::Overflow)
        } else if avail.len() - n < l {
            Err(Error::Truncated)
        } else {
            Ok((n, l))
        }
    }
}

/// The decode side of the codec contract.
///
/// `merge` decodes into an existing value in place; decoding a fresh
/// value is merging into the kind's default.  A failed merge leaves the
/// target partially overwritten: the caller must discard it.
pub trait Deserialize: WireType + Sized {
    /// The value a fresh decode starts from.
    spec fn default_spec() -> Self;

    /// What merging from the readable bytes yields: the merged value
    /// and the bytes consumed, or the error.
    spec fn merge_spec(pre: Self, avail: Seq<u8>) -> Result<(Self, nat), Error>;

    /// A merge never consumes more bytes than were readable.
    proof fn merge_spec_consumes(pre: Self, avail: Seq<u8>)
        ensures
            Self::merge_spec(pre, avail) matches Ok((v, n)) ==> n <= avail.len(),
    ;

    /// The default value, the starting point of `deserialize`.
    fn default_value() -> (r: Self)
        ensures
            r == Self::default_spec(),
    ;

    /// Decodes from the readable bytes into `self` in place.
    fn merge(&mut self, reader: &mut Reader) -> (r: Result<(), Error>)
        requires
            old(reader).wf(),
        ensures
            final(reader).wf(),
            final(reader).spec_bytes() == old(reader).spec_bytes(),
            final(reader).spec_end() == old(reader).spec_end(),
            final(reader).spec_pos() >= old(reader).spec_pos(),
            match Self::merge_spec(*old(self), old(reader).avail()) {
                Ok((v, n)) => r == Ok::<(), Error>(()) && *final(self) == v
                    && final(reader).spec_pos() == old(reader).spec_pos() + n,
                Err(e) => r == Err::<(), Error>(e),
            },
    ;

    /// Merges one nested field.  A sized kind reads its length varint
    /// first and is decoded from a reader bounded to exactly that many
    /// bytes, so the outer cursor advances by the declared length no
    /// matter how much the inner merge consumed, and bytes inside the
    /// frame can never bleed into the next field.
    fn merge_nested(&mut self, reader: &mut Reader) -> (r: Result<(), Error>)
        requires
            old(reader).wf(),
        ensures
            final(reader).wf(),
            final(reader).spec_bytes() == old(reader).spec_bytes(),
            final(reader).spec_end() == old(reader).spec_end(),
            final(reader).spec_pos() >= old(reader).spec_pos(),
            Self::wire_type_spec() != WIRE_TYPE_SIZED ==> match Self::merge_spec(
                *old(self),
                old(reader).avail(),
            ) {
                Ok((v, n)) => r == Ok::<(), Error>(()) && *final(self) == v
                    && final(reader).spec_pos() == old(reader).spec_pos() + n,
                Err(e) => r == Err::<(), Error>(e),
            },
            Self::wire_type_spec() == WIRE_TYPE_SIZED ==> match sized_frame_spec(
                old(reader).avail(),
            ) {
                Ok((n, l)) => match Self::merge_spec(
                    *old(self),
                    old(reader).avail().subrange(n as int, (n + l) as int),
                ) {
                    Ok((v, _consumed)) => r == Ok::<(), Error>(()) && *final(self) == v
                        && final(reader).spec_pos() == old(reader).spec_pos() + n + l,
                    Err(e) => r == Err::<(), Error>(e),
                },
                Err(e) => r == Err::<(), Error>(e),
            },
    {
        proof {
            Self::wire_type_valid();
        }
        if Self::wire_type() == WIRE_TYPE_SIZED {
            proof {
                if varint_terminated(old(reader).avail()) {
                    lemma_varint_size_le_len(old(reader).avail());
                }
            }
            match read_varint_u64(reader) {
                Err(e) => Err(e),
                Ok(len) => {
                    let rem: usize = reader.remaining();
                    if (rem as u64) < len {
                        Err(Error::Truncated)
                    } else {
                        let prev: usize = reader.push_limit(len as usize);
                        let ghost inner_avail = reader.avail();
                        proof {
                            assert(inner_avail =~= old(reader).avail().subrange(
                                varint_size(old(reader).avail()) as int,
                                (varint_size(old(reader).avail()) + varint_value(
                                    old(reader).avail(),
                                )) as int,
                            ));
                        }
                        let res = self.merge(reader);
                        reader.pop_limit(prev);
                        res
                    }
                },
            }
        } else {
            self.merge(reader)
        }
    }

    /// Builds a default value and merges into it.
    fn deserialize(reader: &mut Reader) -> (r: Result<Self, Error>)
        requires
            old(reader).wf(),
        ensures
            final(reader).wf(),
            final(reader).spec_bytes() == old(reader).spec_bytes(),
            final(reader).spec_end() == old(reader).spec_end(),
            final(reader).spec_pos() >= old(reader).spec_pos(),
            match Self::merge_spec(Self::default_spec(), old(reader).avail()) {
                Ok((v, n)) => r == Ok::<Self, Error>(v)
                    && final(reader).spec_pos() == old(reader).spec_pos() + n,
                Err(e) => r == Err::<Self, Error>(e),
            },
    {
        let mut value: Self = Self::default_value();
        match value.merge(reader) {
            Ok(()) => Ok(value),
            Err(e) => Err(e),
        }
    }
}

/// What skipping an unknown field does to the cursor: a varint field is
/// one varint; a sized field is its length varint plus that many bytes;
/// any other wire type is a malformed-input error naming the offending
/// tag and wire type.
pub open spec fn exhaust_spec(tag: u16, wire_type: u8, avail: Seq<u8>) -> Result<nat, Error> {
    if wire_type == WIRE_TYPE_VARINT {
        if varint_terminated(avail) {
            Ok(varint_size(avail))
        } else {
            Err(Error::Truncated)
        }
    } else if wire_type == WIRE_TYPE_SIZED {
        if !varint_terminated(avail) {
            Err(Error::Truncated)
        } else {
            let l = varint_value(avail);
            let n = varint_size(avail);
            if l > u64::MAX {
                Err(Error::Overflow)
            } else if avail.len() - n < l {
                Err(Error::Truncated)
            } else {
                Ok((n + l) as nat)
            }
        }
    } else {
        Err(Error::Malformed { tag, wire_type })
    }
}

/// Skips one field whose tag the decoder does not recognize, leaving
/// the cursor exactly past it, so that every later field still decodes.
pub fn exhaust_nested(tag: u16, wire_type: u8, reader: &mut Reader) -> (r: Result<(), Error>)
    requires
        old(reader).wf(),
    ensures
        final(reader).wf(),
        final(reader).spec_bytes() == old(reader).spec_bytes(),
        final(reader).spec_end() == old(reader).spec_end(),
        final(reader).spec_pos() >= old(reader).spec_pos(),
        match exhaust_spec(tag, wire_type, old(reader).avail()) {
            Ok(n) => r == Ok::<(), Error>(())
                && final(reader).spec_pos() == old(reader).spec_pos() + n,
            Err(e) => r == Err::<(), Error>(e),
        },
{
    if wire_type == WIRE_TYPE_VARINT {
        skip_varint(reader)
    } else if wire_type == WIRE_TYPE_SIZED {
        proof {
            if varint_terminated(old(reader).avail()) {
                lemma_varint_size_le_len(old(reader).avail());
            }
        }
        match read_varint_u64(reader) {
            Err(e) => Err(e),
            Ok(len) => {
                let rem: usize = reader.remaining();
                if (rem as u64) < len {
                    Err(Error::Truncated)
                } else {
                    reader.advance(len as usize);
                    Ok(())
                }
            },
        }
    } else {
        Err(Error::Malformed { tag, wire_type })
    }
}

} // verus!
