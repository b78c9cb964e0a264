//! Plain values that the stages after the parser pass around: places in a
//! file, files, and paths of types.

use vstd::prelude::*;
use vstd::std_specs::convert::FromSpecImpl;

verus! {

/// A byte of a source file, counted from its start.
#[derive(Clone, Copy, Debug, PartialEq, Eq, Structural, PartialOrd, Ord, Hash)]
pub struct BytePos(pub u32);

/// The bytes of a source file from `lo` up to `hi`.
#[derive(Clone, Copy, Debug, PartialEq, Eq, Structural, PartialOrd, Ord, Hash)]
pub struct Span {
    /// The first byte.
    pub lo: BytePos,
    /// The byte after the last.
    pub hi: BytePos,
}

/// The number under which a file is known.
#[derive(Clone, Copy, Debug, PartialEq, Eq, Structural, PartialOrd, Ord, Hash)]
pub struct FileId(pub usize);

impl From<usize> for FileId {
    fn from(id: usize) -> (file: FileId) {
        FileId(id)
    }
}

impl FromSpecImpl<usize> for FileId {
    open spec fn obeys_from_spec() -> bool {
        true
    }

    open spec fn from_spec(id: usize) -> FileId {
        FileId(id)
    }
}

impl From<FileId> for usize {
    fn from(file: FileId) -> (id: usize) {
        file.0
    }
}

impl FromSpecImpl<FileId> for usize {
    open spec fn obeys_from_spec() -> bool {
        true
    }

    open spec fn from_spec(file: FileId) -> usize {
        file.0
    }
}

/// The path of a type. It holds nothing yet.
#[derive(Clone, Copy, Debug, PartialEq, Eq, Structural, PartialOrd, Ord, Hash)]
pub struct Path;

} // verus!
