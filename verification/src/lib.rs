//! Decoder for the AppleSingle container format: a single-file encoding of a
//! classic Macintosh file's data fork, resource fork, and filesystem metadata.
//!
//! The decoder consumes a byte-oriented input and yields an archive value
//! holding the decoded metadata; fork payloads are either handed to
//! caller-chosen sinks during a single forward pass or exposed as byte ranges
//! of the retained source.

use vstd::prelude::*;
use vstd::slice::slice_subrange;

pub mod bytes;
pub mod io;
mod finder;
mod archive;
mod date;
pub mod applesingle;
pub mod laws;

pub use crate::date::{Date, Dates, MAC_EPOCH};
pub use crate::finder::{
    FourCC,
    FileType,
    Creator,
    FinderFlags,
    FinderInfo,
    Point,
    Folder,
    MacInfo,
};
pub use crate::archive::{
    Format,
    Archive,
    ArchiveBuilder,
    ArchiveView,
    BuilderView,
    SeekableArchive,
    SeekableArchiveBuilder,
    SeekableArchiveView,
};

verus! {

/// Why a decode failed.
#[derive(Debug, Clone, Copy, PartialEq, Eq, Structural)]
pub enum DecodeError {
    /// The magic number or the version word does not match the AppleSingle
    /// constants.
    FormatMismatch,
    /// The input holds fewer bytes than the header or a segment descriptor
    /// implies.
    Truncated,
    /// A segment begins before the current read position of a forward-only
    /// source, which cannot rewind.
    OutOfOrder,
    /// The mandatory format tag was never set before the archive was built.
    MissingFormat,
}

/// The position and extent of one piece of content within the container.
#[derive(Debug, Clone, Copy, PartialEq, Eq, Structural)]
pub struct Entry {
    pub id: u32,
    pub offset: u32,
    pub len: u32,
}

impl Entry {
    /// Applies the length limit defined in this entry to the given bytes,
    /// which must already begin at the entry's offset. If the whole source
    /// is at hand, [`fixate`][Entry::fixate] captures the exact region that
    /// the entry represents.
    pub fn limit<'s>(&self, stream: &'s [u8]) -> (r: &'s [u8])
        ensures
            r@ == stream@.take(vstd::math::min(self.len as int, stream@.len() as int)),
    {
        if (self.len as u64) <= stream.len() as u64 {
            let r = slice_subrange(stream, 0, self.len as usize);
            assert(r@ =~= stream@.take(vstd::math::min(self.len as int, stream@.len() as int)));
            r
        } else {
            assert(stream@ =~= stream@.take(vstd::math::min(self.len as int, stream@.len() as int)));
            stream
        }
    }

    /// Applies the boundaries defined in this entry to the given source,
    /// capturing exactly the region that the entry represents, or failing
    /// when the source holds fewer bytes than the entry implies.
    pub fn fixate<'s>(&self, stream: &'s [u8]) -> (r: Result<&'s [u8], DecodeError>)
        ensures
            self.offset + self.len <= stream@.len()
                ==> (r matches Ok(b)
                    && b@ == stream@.subrange(
                        self.offset as int,
                        self.offset + self.len,
                    )),
            self.offset + self.len > stream@.len() ==> r === Err(DecodeError::Truncated),
    {
        let end: u64 = self.offset as u64 + self.len as u64;
        if end <= stream.len() as u64 {
            Ok(slice_subrange(stream, self.offset as usize, end as usize))
        } else {
            Err(DecodeError::Truncated)
        }
    }
}

/// A table of contents under construction, one entry per listed segment.
pub struct Header {
    pub entries: Vec<Entry>,
}

impl Header {
    /// A header with no entries yet.
    pub fn new() -> (r: Header)
        ensures
            r.entries@ == Seq::<Entry>::empty(),
    {
        Header { entries: Vec::new() }
    }

    /// Appends one entry to the table of contents.
    pub fn add_entry(&mut self, entry: Entry)
        ensures
            final(self).entries@ == old(self).entries@.push(entry),
    {
        self.entries.push(entry);
    }
}

/// The "Real Name" as mentioned in the AppleSingle specification: the file's
/// original name, as raw bytes that need not be valid text.
#[derive(Debug, Clone, PartialEq, Eq)]
pub struct Filename(pub Vec<u8>);

impl View for Filename {
    type V = Seq<u8>;

    open spec fn view(&self) -> Seq<u8> {
        self.0@
    }
}

/// The comment visible in the Mac Finder's Get Info window, as raw bytes that
/// need not be valid text.
#[derive(Debug, Clone, PartialEq, Eq)]
pub struct Comment(pub Vec<u8>);

impl View for Comment {
    type V = Seq<u8>;

    open spec fn view(&self) -> Seq<u8> {
        self.0@
    }
}

/// The raw data fork of a file.
#[derive(Debug)]
pub struct DataFork<R>(pub R);

/// The raw resource fork of a file.
#[derive(Debug)]
pub struct ResourceFork<R>(pub R);

/// Tags a payload carrier as one fork or the other.
pub trait ForkExt<R> {
    /// Assume this object is a data fork.
    fn data_fork(self) -> DataFork<R>;

    /// Assume this object is a resource fork.
    fn rsrc_fork(self) -> ResourceFork<R>;
}

impl ForkExt<Vec<u8>> for Vec<u8> {
    fn data_fork(self) -> (r: DataFork<Vec<u8>>)
        ensures
            r == DataFork(self),
    {
        DataFork(self)
    }

    fn rsrc_fork(self) -> (r: ResourceFork<Vec<u8>>)
        ensures
            r == ResourceFork(self),
    {
        ResourceFork(self)
    }
}

impl<'a> ForkExt<&'a [u8]> for &'a [u8] {
    fn data_fork(self) -> (r: DataFork<&'a [u8]>)
        ensures
            r == DataFork(self),
    {
        DataFork(self)
    }

    fn rsrc_fork(self) -> (r: ResourceFork<&'a [u8]>)
        ensures
            r == ResourceFork(self),
    {
        ResourceFork(self)
    }
}

} // verus!
