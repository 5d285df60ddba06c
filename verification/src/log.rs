use crate::error::Error;
use crate::path::{lemma_tags_encoding_len, tags_encoding};
use crate::ser::Serialize;
use crate::varint::{varint_enc, write_varint_u64};
use vstd::prelude::*;

verus! {

/// The kind of one logged mutation.
#[derive(Clone, Copy, Debug, PartialEq, Eq, Structural)]
pub enum EntryKind {
    Update,
    Add,
    Remove,
}

/// The discriminant an entry kind writes on the wire.
pub open spec fn kind_code_spec(kind: EntryKind) -> u8 {
    match kind {
        EntryKind::Update => 0,
        EntryKind::Add => 1,
        EntryKind::Remove => 2,
    }
}

/// One logged mutation: the tag path from the scope's root to the
/// mutated position, the kind, and — for updates and additions — the
/// serialized new value.  A removal carries only its path.
#[derive(Debug)]
pub struct Entry {
    path: Vec<u16>,
    kind: EntryKind,
    payload: Option<Vec<u8>>,
}

/// The wire encoding of an entry: the path tags as varints, the kind
/// discriminant, then the payload bytes if the kind carries one.
pub open spec fn entry_encoding(path: Seq<u16>, kind: EntryKind, payload: Option<Seq<u8>>) -> Seq<
    u8,
> {
    tags_encoding(path) + varint_enc(kind_code_spec(kind) as nat) + (match payload {
        Some(p) => p,
        None => Seq::empty(),
    })
}

impl Entry {
    pub closed spec fn spec_path(&self) -> Seq<u16> {
        self.path@
    }

    pub closed spec fn spec_kind(&self) -> EntryKind {
        self.kind
    }

    pub closed spec fn spec_payload(&self) -> Option<Seq<u8>> {
        match self.payload {
            Some(p) => Some(p@),
            None => None,
        }
    }

    /// An update of the value at `path`, carrying its serialized bytes.
    pub fn new_update<V: Serialize>(path: Vec<u16>, value: &V) -> (r: Entry)
        requires
            value.ser_wf(),
        ensures
            r.spec_path() == path@,
            r.spec_kind() == EntryKind::Update,
            r.spec_payload() == Some(value.encoding()),
    {
        let mut buf: Vec<u8> = Vec::new();
        let _ok = value.serialize(&mut buf);
        Entry { path, kind: EntryKind::Update, payload: Some(buf) }
    }

    /// An addition at `path`, carrying the new item's serialized bytes.
    pub fn new_add<V: Serialize>(path: Vec<u16>, item: &V) -> (r: Entry)
        requires
            item.ser_wf(),
        ensures
            r.spec_path() == path@,
            r.spec_kind() == EntryKind::Add,
            r.spec_payload() == Some(item.encoding()),
    {
        let mut buf: Vec<u8> = Vec::new();
        let _ok = item.serialize(&mut buf);
        Entry { path, kind: EntryKind::Add, payload: Some(buf) }
    }

    /// A removal of the element at `path`; no payload.
    pub fn new_remove(path: Vec<u16>) -> (r: Entry)
        ensures
            r.spec_path() == path@,
            r.spec_kind() == EntryKind::Remove,
            r.spec_payload() is None,
    {
        Entry { path, kind: EntryKind::Remove, payload: None }
    }

    /// The path tags, root to leaf.
    pub fn path(&self) -> (r: &Vec<u16>)
        ensures
            r@ == self.spec_path(),
    {
        &self.path
    }

    /// The kind of mutation logged.
    pub fn kind(&self) -> (r: EntryKind)
        ensures
            r == self.spec_kind(),
    {
        self.kind
    }

    /// The serialized new value, for updates and additions.
    pub fn payload(&self) -> (r: &Option<Vec<u8>>)
        ensures
            match r {
                Some(p) => self.spec_payload() == Some(p@),
                None => self.spec_payload() is None,
            },
    {
        &self.payload
    }

    /// Appends this entry's wire record to `out`.
    pub fn write_to(&self, out: &mut Vec<u8>) -> (r: Result<(), Error>)
        requires
            self.spec_path().len() <= 0x0FFF_FFFF,
        ensures
            r == Ok::<(), Error>(()),
            final(out)@ == old(out)@ + entry_encoding(
                self.spec_path(),
                self.spec_kind(),
                self.spec_payload(),
            ),
    {
        proof {
            lemma_tags_encoding_len(self.spec_path());
        }
        crate::path::write_tags(&self.path, out);
        let code: u8 = match self.kind {
            EntryKind::Update => 0,
            EntryKind::Add => 1,
            EntryKind::Remove => 2,
        };
        write_varint_u64(out, code as u64);
        match &self.payload {
            None => {
                proof {
                    assert(out@ =~= old(out)@ + entry_encoding(
                        self.spec_path(),
                        self.spec_kind(),
                        self.spec_payload(),
                    ));
                }
            },
            Some(p) => {
                let mut i: usize = 0;
                while i < p.len()
                    invariant
                        i <= p@.len(),
                        self.spec_payload() == Some(p@),
                        out@ == old(out)@ + tags_encoding(self.spec_path()) + varint_enc(
                            kind_code_spec(self.spec_kind()) as nat,
                        ) + p@.take(i as int),
                    decreases p@.len() - i,
                {
                    out.push(p[i]);
                    proof {
                        assert(out@ =~= old(out)@ + tags_encoding(self.spec_path()) + varint_enc(
                            kind_code_spec(self.spec_kind()) as nat,
                        ) + p@.take(i + 1));
                    }
                    i = i + 1;
                }
                proof {
                    assert(p@.take(p@.len() as int) =~= p@);
                    assert(out@ =~= old(out)@ + entry_encoding(
                        self.spec_path(),
                        self.spec_kind(),
                        self.spec_payload(),
                    ));
                }
            },
        }
        Ok(())
    }
}

/// Append-only, in-order sink of entries for one synchronization scope.
/// Entries are appended in strict call order and drained by a transport.
#[derive(Debug)]
pub struct Logger {
    entries: Vec<Entry>,
}

impl Logger {
    pub closed spec fn entries_seq(&self) -> Seq<Entry> {
        self.entries@
    }

    /// An empty log.
    pub fn new() -> (r: Logger)
        ensures
            r.entries_seq().len() == 0,
    {
        Logger { entries: Vec::new() }
    }

    /// Appends one entry at the end of the log.
    pub fn log_entry(&mut self, entry: Entry) -> (r: Result<(), Error>)
        ensures
            r == Ok::<(), Error>(()),
            final(self).entries_seq() == old(self).entries_seq().push(entry),
    {
        self.entries.push(entry);
        Ok(())
    }

    /// The entries logged so far, oldest first.
    pub fn entries(&self) -> (r: &Vec<Entry>)
        ensures
            r@ == self.entries_seq(),
    {
        &self.entries
    }

    /// Consumes the log, handing every entry to the transport.
    pub fn into_entries(self) -> (r: Vec<Entry>)
        ensures
            r@ == self.entries_seq(),
    {
        self.entries
    }
}

} // verus!
