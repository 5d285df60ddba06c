//! A compact, self-describing binary object codec together with a
//! path-addressed object tree and a change log for incremental state
//! replication.
//!
//! Values are framed on the wire as `[key varint][length varint if
//! sized][payload]`, where the key packs a field tag and a wire type.
//! Every tree node memoizes the byte length of its serialized form, so
//! that length prefixes can be written without re-traversing the value.

pub mod cached_size;
pub mod de;
pub mod error;
pub mod log;
pub mod node;
pub mod path;
pub mod reader;
pub mod runtime;
pub mod scalars;
pub mod ser;
pub mod varint;
pub mod wire_type;
