//! A verified codec and incremental parser for an FLV-style tag container:
//! a fixed nine-byte header followed by size-prefixed audio, video and
//! metadata records, with a remuxer that extracts a filtered subset.

pub mod bytes;
pub mod header;
pub mod meta;
pub mod tag;
pub mod parser;
pub mod segment;
pub mod remux;

use vstd::prelude::*;

verus! {

/// A structural violation of the container format. Every variant is fatal
/// to the parse or remux operation that reported it.
#[derive(Debug, Clone, Copy, PartialEq, Eq, Structural)]
pub enum FlvError {
    /// The first three header bytes are not the container magic.
    MalformedSignature,
    /// The declared header size differs from the canonical nine bytes.
    UnexpectedHeaderSize,
    /// A tag carries a type byte that is not audio, video or metadata.
    UnknownTagType,
    /// A tag declares a payload of zero bytes.
    ZeroLengthTagData,
    /// A metadata payload does not decode as a value sequence.
    MalformedMetadata,
}

} // verus!
