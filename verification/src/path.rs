use crate::error::Error;
use crate::reader::Reader;
use crate::ser::Serialize;
use crate::varint::{
    lemma_varint_enc_len_bound, lemma_varint_round_trip, lemma_varint_size_le_len, pow128,
    read_varint_u16, size_varint_u64, varint_enc, varint_size, varint_terminated, varint_value,
    write_varint_u64,
};
use crate::wire_type::{WireType, WIRE_TYPE_SIZED};
use vstd::prelude::*;

verus! {

/// The raw encoding of a tag path: each tag as one varint, root-to-leaf
/// order, with no framing of its own.
pub open spec fn tags_encoding(tags: Seq<u16>) -> Seq<u8>
    decreases tags.len(),
{
    if tags.len() == 0 {
        Seq::empty()
    } else {
        varint_enc(tags[0] as nat) + tags_encoding(tags.drop_first())
    }
}

/// A tag fits three bytes, so a path encodes to at most three bytes per tag.
pub proof fn lemma_tags_encoding_len(tags: Seq<u16>)
    ensures
        tags_encoding(tags).len() <= 3 * tags.len(),
    decreases tags.len(),
{
    if tags.len() > 0 {
        assert(pow128(3nat) == 2097152) by {
            reveal_with_fuel(pow128, 4);
        }
        lemma_varint_enc_len_bound(tags[0] as nat, 3nat);
        lemma_tags_encoding_len(tags.drop_first());
    }
}

/// Appending one tag appends its varint to the encoding.
pub proof fn lemma_tags_encoding_push(tags: Seq<u16>, tag: u16)
    ensures
        tags_encoding(tags.push(tag)) == tags_encoding(tags) + varint_enc(tag as nat),
    decreases tags.len(),
{
    let p = tags.push(tag);
    assert(p.len() == tags.len() + 1);
    if tags.len() == 0 {
        assert(p[0] == tag);
        assert(p.drop_first() =~= Seq::<u16>::empty());
        assert(tags_encoding(p) == varint_enc(tag as nat) + tags_encoding(Seq::<u16>::empty()));
        assert(varint_enc(tag as nat) + Seq::<u8>::empty() =~= varint_enc(tag as nat));
        assert(Seq::<u8>::empty() + varint_enc(tag as nat) =~= varint_enc(tag as nat));
    } else {
        assert(p[0] == tags[0]);
        assert(p.drop_first() =~= tags.drop_first().push(tag));
        lemma_tags_encoding_push(tags.drop_first(), tag);
        assert(tags_encoding(p) == varint_enc(tags[0] as nat) + (tags_encoding(tags.drop_first())
            + varint_enc(tag as nat)));
        assert(varint_enc(tags[0] as nat) + (tags_encoding(tags.drop_first()) + varint_enc(
            tag as nat,
        )) =~= (varint_enc(tags[0] as nat) + tags_encoding(tags.drop_first())) + varint_enc(
            tag as nat,
        ));
    }
}

/// Reading raw tag varints until the readable bytes run out: the
/// decoded tags and the bytes consumed, or the error.
pub open spec fn tags_merge_spec(avail: Seq<u8>) -> Result<(Seq<u16>, nat), Error>
    decreases avail.len(),
    via tags_merge_spec_dec
{
    if avail.len() == 0 {
        Ok((Seq::empty(), 0nat))
    } else if !varint_terminated(avail) {
        Err(Error::Truncated)
    } else if varint_value(avail) > u16::MAX {
        Err(Error::Overflow)
    } else {
        let n = varint_size(avail);
        match tags_merge_spec(avail.skip(n as int)) {
            Ok((rest, m)) => Ok((seq![varint_value(avail) as u16] + rest, n + m)),
            Err(e) => Err(e),
        }
    }
}

#[via_fn]
proof fn tags_merge_spec_dec(avail: Seq<u8>) {
    if avail.len() != 0 && varint_terminated(avail) && varint_value(avail) <= u16::MAX {
        lemma_varint_size_le_len(avail);
    }
}

/// Round trip: decoding the encoding of any tag sequence yields that
/// sequence and consumes every byte of it.
pub proof fn lemma_tags_round_trip(tags: Seq<u16>)
    ensures
        tags_merge_spec(tags_encoding(tags)) == Ok::<(Seq<u16>, nat), Error>(
            (tags, tags_encoding(tags).len()),
        ),
    decreases tags.len(),
{
    if tags.len() > 0 {
        let enc0 = varint_enc(tags[0] as nat);
        let rest_enc = tags_encoding(tags.drop_first());
        let whole = tags_encoding(tags);
        lemma_varint_round_trip(tags[0] as nat, rest_enc);
        assert(whole == enc0 + rest_enc);
        assert(enc0.len() >= 1);
        assert(whole.len() > 0);
        assert(varint_value(whole) == tags[0] as nat);
        assert(varint_size(whole) == enc0.len());
        assert(whole.skip(varint_size(whole) as int) =~= rest_enc);
        lemma_tags_round_trip(tags.drop_first());
        assert(tags_merge_spec(whole.skip(varint_size(whole) as int)) == Ok::<
            (Seq<u16>, nat),
            Error,
        >((tags.drop_first(), rest_enc.len())));
        assert(tags_merge_spec(whole) == Ok::<(Seq<u16>, nat), Error>(
            (seq![varint_value(whole) as u16] + tags.drop_first(), varint_size(whole)
                + rest_enc.len()),
        ));
        assert(seq![varint_value(whole) as u16] =~= seq![tags[0]]);
        assert(seq![tags[0]] + tags.drop_first() =~= tags);
        assert(varint_size(whole) + rest_enc.len() == whole.len());
        assert(tags_merge_spec(whole) =~= Ok::<(Seq<u16>, nat), Error>((tags, whole.len())));
    } else {
        assert(tags =~= Seq::<u16>::empty());
        assert(tags_encoding(tags).len() == 0);
    }
}

/// A decoded tag path: the ordered tags from a scope's root down to one
/// node, as carried by a change-log entry.
#[derive(Debug)]
pub struct Path {
    tags: Vec<u16>,
}

impl View for Path {
    type V = Seq<u16>;

    closed spec fn view(&self) -> Seq<u16> {
        self.tags@
    }
}

impl Path {
    /// The empty path, addressing a root.
    pub fn new() -> (r: Path)
        ensures
            r@ == Seq::<u16>::empty(),
    {
        Path { tags: Vec::new() }
    }

    /// A path over the given tags.
    pub fn from_tags(tags: Vec<u16>) -> (r: Path)
        ensures
            r@ == tags@,
    {
        Path { tags }
    }

    /// The tags of this path, root to leaf.
    pub fn tags(&self) -> (r: &Vec<u16>)
        ensures
            r@ == self@,
    {
        &self.tags
    }

    /// Decodes raw tag varints from the readable bytes until they are
    /// exhausted, appending to the tags already held.
    pub fn merge(&mut self, reader: &mut Reader) -> (r: Result<(), Error>)
        requires
            old(reader).wf(),
        ensures
            final(reader).wf(),
            final(reader).spec_bytes() == old(reader).spec_bytes(),
            final(reader).spec_end() == old(reader).spec_end(),
            final(reader).spec_pos() >= old(reader).spec_pos(),
            match tags_merge_spec(old(reader).avail()) {
                Ok((ts, n)) => r == Ok::<(), Error>(()) && final(self)@ == old(self)@ + ts
                    && final(reader).spec_pos() == old(reader).spec_pos() + n,
                Err(e) => r == Err::<(), Error>(e),
            },
    {
        let ghost s = old(reader).avail();
        let ghost tags0 = old(self)@;
        proof {
            match tags_merge_spec(s) {
                Ok(p) => {
                    let (ts2, m2) = p;
                    assert((old(self)@ + ts2).skip(tags0.len() as int) =~= ts2);
                },
                Err(_) => {},
            }
            assert(tags0 =~= old(self)@.take(tags0.len() as int));
        }
        loop
            invariant
                reader.wf(),
                reader.spec_bytes() == old(reader).spec_bytes(),
                reader.spec_end() == old(reader).spec_end(),
                reader.spec_pos() >= old(reader).spec_pos(),
                s == old(reader).avail(),
                tags0 == old(self)@,
                tags0.len() <= self@.len(),
                tags0 == self@.take(tags0.len() as int),
                match tags_merge_spec(reader.avail()) {
                    Ok((ts, n)) => tags_merge_spec(s) == Ok::<(Seq<u16>, nat), Error>(
                        ((self@ + ts).skip(tags0.len() as int), (reader.spec_pos() - old(
                            reader,
                        ).spec_pos() + n) as nat),
                    ),
                    Err(e) => tags_merge_spec(s) == Err::<(Seq<u16>, nat), Error>(e),
                },
            decreases reader.spec_end() - reader.spec_pos(),
        {
            let ghost prev = reader.avail();
            if reader.is_exhausted() {
                proof {
                    assert(prev.len() == 0);
                    assert(tags_merge_spec(prev) == Ok::<(Seq<u16>, nat), Error>(
                        (Seq::<u16>::empty(), 0nat),
                    ));
                    assert((self@ + Seq::<u16>::empty()).skip(tags0.len() as int) =~= self@.skip(
                        tags0.len() as int,
                    ));
                    assert(self@ =~= tags0 + self@.skip(tags0.len() as int));
                }
                return Ok(());
            }
            proof {
                if varint_terminated(prev) {
                    lemma_varint_size_le_len(prev);
                }
            }
            match read_varint_u16(reader) {
                Err(e) => {
                    return Err(e);
                },
                Ok(tag) => {
                    let ghost old_view = self@;
                    self.tags.push(tag);
                    proof {
                        assert(reader.avail() =~= prev.skip(varint_size(prev) as int));
                        match tags_merge_spec(reader.avail()) {
                            Ok(p) => {
                                let (ts2, m2) = p;
                                assert(tags_merge_spec(prev) == Ok::<(Seq<u16>, nat), Error>(
                                    (seq![tag] + ts2, varint_size(prev) + m2),
                                ));
                                assert((self@ + ts2).skip(tags0.len() as int) =~= (old_view + (
                                seq![tag] + ts2)).skip(tags0.len() as int));
                            },
                            Err(_) => {},
                        }
                        assert(tags0 =~= self@.take(tags0.len() as int));
                    }
                },
            }
        }
    }

    /// Builds an empty path and merges into it: decodes a whole tag
    /// path from the readable bytes.
    pub fn deserialize(reader: &mut Reader) -> (r: Result<Path, Error>)
        requires
            old(reader).wf(),
        ensures
            final(reader).wf(),
            final(reader).spec_bytes() == old(reader).spec_bytes(),
            final(reader).spec_end() == old(reader).spec_end(),
            final(reader).spec_pos() >= old(reader).spec_pos(),
            match tags_merge_spec(old(reader).avail()) {
                Ok((ts, n)) => (r matches Ok(p) && p@ == ts) && final(reader).spec_pos() == old(
                    reader,
                ).spec_pos() + n,
                Err(e) => r matches Err(e2) && e2 == e,
            },
    {
        let mut value: Path = Path::new();
        match value.merge(reader) {
            Ok(()) => Ok(value),
            Err(e) => Err(e),
        }
    }
}

impl WireType for Path {
    open spec fn wire_type_spec() -> u8 {
        WIRE_TYPE_SIZED
    }

    proof fn wire_type_valid() {
    }

    fn wire_type() -> u8 {
        WIRE_TYPE_SIZED
    }
}

impl Serialize for Path {
    open spec fn encoding(&self) -> Seq<u8> {
        tags_encoding(self@)
    }

    open spec fn ser_wf(&self) -> bool {
        self@.len() <= 0x0FFF_FFFF
    }

    proof fn ser_wf_bound(&self) {
        lemma_tags_encoding_len(self@);
    }

    fn compute_size(&self) -> u32 {
        proof {
            lemma_tags_encoding_len(self@);
        }
        let mut total: u32 = 0;
        let mut i: usize = 0;
        loop
            invariant
                i <= self.tags@.len(),
                self.tags@.len() <= 0x0FFF_FFFF,
                total as nat == tags_encoding(self.tags@.take(i as int)).len(),
                total <= 3 * i,
            decreases self.tags@.len() - i,
        {
            if i == self.tags.len() {
                proof {
                    assert(self.tags@.take(i as int) =~= self@);
                }
                return total;
            }
            let tag: u16 = self.tags[i];
            let sz: u32 = size_varint_u64(tag as u64);
            proof {
                assert(pow128(3nat) == 2097152) by {
                    reveal_with_fuel(pow128, 4);
                }
                lemma_varint_enc_len_bound(tag as nat, 3nat);
                lemma_tags_encoding_push(self.tags@.take(i as int), tag);
                assert(self.tags@.take(i as int).push(tag) =~= self.tags@.take(i + 1));
            }
            total = total + sz;
            i = i + 1;
        }
    }

    fn serialize_with_cached_size(&self, writer: &mut Vec<u8>) -> Result<(), Error> {
        write_tags(&self.tags, writer);
        Ok(())
    }
}

/// Appends the raw tag varints of `tags` to `out`, root to leaf.
pub fn write_tags(tags: &Vec<u16>, out: &mut Vec<u8>)
    ensures
        final(out)@ == old(out)@ + tags_encoding(tags@),
{
    let mut i: usize = 0;
    loop
        invariant
            i <= tags@.len(),
            out@ == old(out)@ + tags_encoding(tags@.take(i as int)),
        decreases tags@.len() - i,
    {
        if i == tags.len() {
            proof {
                assert(tags@.take(i as int) =~= tags@);
            }
            return ;
        }
        let tag: u16 = tags[i];
        write_varint_u64(out, tag as u64);
        proof {
            lemma_tags_encoding_push(tags@.take(i as int), tag);
            assert(tags@.take(i as int).push(tag) =~= tags@.take(i + 1));
            assert(out@ =~= old(out)@ + tags_encoding(tags@.take(i + 1)));
        }
        i = i + 1;
    }
}

} // verus!
