//! The decoded archive: a mandatory format tag plus the optional metadata
//! discovered during traversal, accumulated by a builder and finalized once.

use vstd::prelude::*;
use vstd::slice::slice_to_vec;

use crate::{Comment, DecodeError, Entry, Filename};
use crate::date::Dates;
use crate::finder::{FinderInfo, MacInfo};

verus! {

/// The name of the container format an archive was decoded from.
#[derive(Debug, Clone, Copy)]
pub struct Format(pub &'static str);

impl View for Format {
    type V = Seq<char>;

    open spec fn view(&self) -> Seq<char> {
        self.0@
    }
}

/// What an [`Archive`] holds, at the specification level.
pub struct ArchiveView {
    pub format: Seq<char>,
    pub finf: Option<FinderInfo>,
    pub minf: Option<MacInfo>,
    pub date: Option<Dates>,
    pub name: Option<Seq<u8>>,
    pub comment: Option<Seq<u8>>,
}

/// What an [`ArchiveBuilder`] holds, at the specification level.
pub struct BuilderView {
    pub format: Option<Seq<char>>,
    pub finf: Option<FinderInfo>,
    pub minf: Option<MacInfo>,
    pub date: Option<Dates>,
    pub name: Option<Seq<u8>>,
    pub comment: Option<Seq<u8>>,
}

impl BuilderView {
    /// A builder with every field still absent.
    pub open spec fn empty() -> BuilderView {
        BuilderView {
            format: None,
            finf: None,
            minf: None,
            date: None,
            name: None,
            comment: None,
        }
    }

    /// The archive that this builder state finalizes to, when the mandatory
    /// format tag was set.
    pub open spec fn finish(self) -> Option<ArchiveView> {
        match self.format {
            Some(f) => Some(ArchiveView {
                format: f,
                finf: self.finf,
                minf: self.minf,
                date: self.date,
                name: self.name,
                comment: self.comment,
            }),
            None => None,
        }
    }
}

/// Accumulates the optional metadata fields discovered during traversal.
pub struct ArchiveBuilder {
    format: Option<Format>,
    finf: Option<FinderInfo>,
    minf: Option<MacInfo>,
    name: Option<Filename>,
    date: Option<Dates>,
    comment: Option<Comment>,
}

impl View for ArchiveBuilder {
    type V = BuilderView;

    closed spec fn view(&self) -> BuilderView {
        BuilderView {
            format: match self.format {
                Some(f) => Some(f@),
                None => None,
            },
            finf: self.finf,
            minf: self.minf,
            date: self.date,
            name: match self.name {
                Some(ref n) => Some(n@),
                None => None,
            },
            comment: match self.comment {
                Some(ref c) => Some(c@),
                None => None,
            },
        }
    }
}

impl ArchiveBuilder {
    /// A builder with every field still absent.
    pub fn new() -> (r: Self)
        ensures
            r@ == BuilderView::empty(),
    {
        Self {
            format: None,
            finf: None,
            minf: None,
            name: None,
            date: None,
            comment: None,
        }
    }

    /// Sets the mandatory format tag.
    pub fn format(&mut self, format: Format)
        ensures
            final(self)@ == (BuilderView { format: Some(format@), ..old(self)@ }),
    {
        self.format = Some(format);
    }

    /// Sets the Finder information.
    pub fn finf(&mut self, finf: FinderInfo)
        ensures
            final(self)@ == (BuilderView { finf: Some(finf), ..old(self)@ }),
    {
        self.finf = Some(finf);
    }

    /// Sets the Macintosh file information.
    pub fn minf(&mut self, minf: MacInfo)
        ensures
            final(self)@ == (BuilderView { minf: Some(minf), ..old(self)@ }),
    {
        self.minf = Some(minf);
    }

    /// Sets the file dates.
    pub fn date(&mut self, date: Dates)
        ensures
            final(self)@ == (BuilderView { date: Some(date), ..old(self)@ }),
    {
        self.date = Some(date);
    }

    /// Sets the real name.
    pub fn name(&mut self, name: Filename)
        ensures
            final(self)@ == (BuilderView { name: Some(name@), ..old(self)@ }),
    {
        self.name = Some(name);
    }

    /// Sets the comment.
    pub fn comment(&mut self, comment: Comment)
        ensures
            final(self)@ == (BuilderView { comment: Some(comment@), ..old(self)@ }),
    {
        self.comment = Some(comment);
    }

    /// Finalizes the accumulated fields into an archive, or yields nothing
    /// when the mandatory format tag was never set.
    pub fn build(self) -> (r: Option<Archive>)
        ensures
            match r {
                Some(a) => self@.finish() == Some(a@),
                None => self@.finish() is None,
            },
    {
        let format = match self.format {
            Some(f) => f,
            None => {
                return None;
            },
        };
        Some(Archive {
            format,
            finf: self.finf,
            minf: self.minf,
            date: self.date,
            name: self.name,
            comment: self.comment,
        })
    }
}

/// The metadata decoded from one container: the format tag plus whatever
/// optional fields its segments supplied.
#[derive(Debug)]
pub struct Archive {
    format: Format,
    finf: Option<FinderInfo>,
    minf: Option<MacInfo>,
    date: Option<Dates>,
    name: Option<Filename>,
    comment: Option<Comment>,
}

impl View for Archive {
    type V = ArchiveView;

    closed spec fn view(&self) -> ArchiveView {
        ArchiveView {
            format: self.format@,
            finf: self.finf,
            minf: self.minf,
            date: self.date,
            name: match self.name {
                Some(ref n) => Some(n@),
                None => None,
            },
            comment: match self.comment {
                Some(ref c) => Some(c@),
                None => None,
            },
        }
    }
}

/// Copies an optional byte-string field out of an archive.
fn copy_filename(v: &Option<Filename>) -> (r: Option<Filename>)
    ensures
        match v {
            Some(n) => r matches Some(m) && m@ == n@,
            None => r is None,
        },
{
    match v {
        Some(n) => Some(Filename(slice_to_vec(n.0.as_slice()))),
        None => None,
    }
}

/// Copies an optional comment field out of an archive.
fn copy_comment(v: &Option<Comment>) -> (r: Option<Comment>)
    ensures
        match v {
            Some(c) => r matches Some(m) && m@ == c@,
            None => r is None,
        },
{
    match v {
        Some(c) => Some(Comment(slice_to_vec(c.0.as_slice()))),
        None => None,
    }
}

impl Archive {
    /// A builder with every field still absent.
    pub fn builder() -> (r: ArchiveBuilder)
        ensures
            r@ == BuilderView::empty(),
    {
        ArchiveBuilder::new()
    }

    /// The Finder information, when a segment supplied one.
    pub fn finder_info(&self) -> (r: Option<FinderInfo>)
        ensures
            r == self@.finf,
    {
        self.finf
    }

    /// The Macintosh file information, when a segment supplied one.
    pub fn mac_info(&self) -> (r: Option<MacInfo>)
        ensures
            r == self@.minf,
    {
        self.minf
    }

    /// The file dates, when a segment supplied them.
    pub fn dates(&self) -> (r: Option<Dates>)
        ensures
            r == self@.date,
    {
        self.date
    }

    /// The real name, when a segment supplied one.
    pub fn name(&self) -> (r: Option<Filename>)
        ensures
            match self@.name {
                Some(n) => r matches Some(m) && m@ == n,
                None => r is None,
            },
    {
        copy_filename(&self.name)
    }

    /// The comment, when a segment supplied one.
    pub fn comment(&self) -> (r: Option<Comment>)
        ensures
            match self@.comment {
                Some(c) => r matches Some(m) && m@ == c,
                None => r is None,
            },
    {
        copy_comment(&self.comment)
    }

    /// The format tag.
    pub fn format(&self) -> (r: Format)
        ensures
            r@ == self@.format,
    {
        self.format
    }
}

/// What a [`SeekableArchive`] holds, at the specification level.
pub struct SeekableArchiveView {
    pub meta: ArchiveView,
    pub data_fork: Option<Entry>,
    pub rsrc_fork: Option<Entry>,
    pub file: Seq<u8>,
}

/// Accumulates metadata like [`ArchiveBuilder`], and additionally the byte
/// ranges of the two named forks, over a retained random-access source.
pub struct SeekableArchiveBuilder {
    archive: ArchiveBuilder,
    rsrc_fork: Option<Entry>,
    data_fork: Option<Entry>,
    file: Vec<u8>,
}

impl SeekableArchiveBuilder {
    /// The metadata accumulated so far.
    pub closed spec fn builder_view(&self) -> BuilderView {
        self.archive@
    }

    /// The data-fork range recorded so far.
    pub closed spec fn data_fork_spec(&self) -> Option<Entry> {
        self.data_fork
    }

    /// The resource-fork range recorded so far.
    pub closed spec fn rsrc_fork_spec(&self) -> Option<Entry> {
        self.rsrc_fork
    }

    /// The retained source.
    pub closed spec fn file_spec(&self) -> Seq<u8> {
        self.file@
    }

    /// A builder with every field still absent, retaining the given source.
    pub fn new(file: Vec<u8>) -> (r: Self)
        ensures
            r.builder_view() == BuilderView::empty(),
            r.data_fork_spec() is None,
            r.rsrc_fork_spec() is None,
            r.file_spec() == file@,
    {
        Self {
            file,
            archive: ArchiveBuilder::new(),
            rsrc_fork: None,
            data_fork: None,
        }
    }

    /// Captures the region of the retained source that `entry` represents.
    pub fn entry(&self, entry: Entry) -> (r: Result<Vec<u8>, DecodeError>)
        ensures
            entry.offset + entry.len <= self.file_spec().len()
                ==> (r matches Ok(b)
                    && b@ == self.file_spec().subrange(
                        entry.offset as int,
                        entry.offset + entry.len,
                    )),
            entry.offset + entry.len > self.file_spec().len()
                ==> r === Err::<Vec<u8>, _>(DecodeError::Truncated),
    {
        match entry.fixate(self.file.as_slice()) {
            Ok(b) => Ok(slice_to_vec(b)),
            Err(e) => Err(e),
        }
    }

    /// The region of the retained source that `entry` represents, borrowed.
    pub(crate) fn entry_slice(&self, entry: Entry) -> (r: Result<&[u8], DecodeError>)
        ensures
            entry.offset + entry.len <= self.file_spec().len()
                ==> (r matches Ok(b)
                    && b@ == self.file_spec().subrange(
                        entry.offset as int,
                        entry.offset + entry.len,
                    )),
            entry.offset + entry.len > self.file_spec().len()
                ==> r === Err::<&[u8], _>(DecodeError::Truncated),
    {
        entry.fixate(self.file.as_slice())
    }

    /// Sets the mandatory format tag.
    pub fn format(&mut self, format: Format)
        ensures
            final(self).builder_view()
                == (BuilderView { format: Some(format@), ..old(self).builder_view() }),
            final(self).data_fork_spec() == old(self).data_fork_spec(),
            final(self).rsrc_fork_spec() == old(self).rsrc_fork_spec(),
            final(self).file_spec() == old(self).file_spec(),
    {
        self.archive.format(format);
    }

    /// Sets the Finder information.
    pub fn finf(&mut self, finf: FinderInfo)
        ensures
            final(self).builder_view()
                == (BuilderView { finf: Some(finf), ..old(self).builder_view() }),
            final(self).data_fork_spec() == old(self).data_fork_spec(),
            final(self).rsrc_fork_spec() == old(self).rsrc_fork_spec(),
            final(self).file_spec() == old(self).file_spec(),
    {
        self.archive.finf(finf);
    }

    /// Sets the Macintosh file information.
    pub fn minf(&mut self, minf: MacInfo)
        ensures
            final(self).builder_view()
                == (BuilderView { minf: Some(minf), ..old(self).builder_view() }),
            final(self).data_fork_spec() == old(self).data_fork_spec(),
            final(self).rsrc_fork_spec() == old(self).rsrc_fork_spec(),
            final(self).file_spec() == old(self).file_spec(),
    {
        self.archive.minf(minf);
    }

    /// Sets the file dates.
    pub fn date(&mut self, date: Dates)
        ensures
            final(self).builder_view()
                == (BuilderView { date: Some(date), ..old(self).builder_view() }),
            final(self).data_fork_spec() == old(self).data_fork_spec(),
            final(self).rsrc_fork_spec() == old(self).rsrc_fork_spec(),
            final(self).file_spec() == old(self).file_spec(),
    {
        self.archive.date(date);
    }

    /// Sets the real name.
    pub fn name(&mut self, name: Filename)
        ensures
            final(self).builder_view()
                == (BuilderView { name: Some(name@), ..old(self).builder_view() }),
            final(self).data_fork_spec() == old(self).data_fork_spec(),
            final(self).rsrc_fork_spec() == old(self).rsrc_fork_spec(),
            final(self).file_spec() == old(self).file_spec(),
    {
        self.archive.name(name);
    }

    /// Sets the comment.
    pub fn comment(&mut self, comment: Comment)
        ensures
            final(self).builder_view()
                == (BuilderView { comment: Some(comment@), ..old(self).builder_view() }),
            final(self).data_fork_spec() == old(self).data_fork_spec(),
            final(self).rsrc_fork_spec() == old(self).rsrc_fork_spec(),
            final(self).file_spec() == old(self).file_spec(),
    {
        self.archive.comment(comment);
    }

    /// Records the data-fork range.
    pub fn data_fork(&mut self, data: Entry)
        ensures
            final(self).builder_view() == old(self).builder_view(),
            final(self).data_fork_spec() == Some(data),
            final(self).rsrc_fork_spec() == old(self).rsrc_fork_spec(),
            final(self).file_spec() == old(self).file_spec(),
    {
        self.data_fork = Some(data);
    }

    /// Records the resource-fork range.
    pub fn rsrc_fork(&mut self, rsrc: Entry)
        ensures
            final(self).builder_view() == old(self).builder_view(),
            final(self).data_fork_spec() == old(self).data_fork_spec(),
            final(self).rsrc_fork_spec() == Some(rsrc),
            final(self).file_spec() == old(self).file_spec(),
    {
        self.rsrc_fork = Some(rsrc);
    }

    /// Finalizes the accumulated fields into a seekable archive, or yields
    /// nothing when the mandatory format tag was never set.
    pub fn build(self) -> (r: Option<SeekableArchive>)
        ensures
            match r {
                Some(a) => self.builder_view().finish() == Some(a@.meta)
                    && a@.data_fork == self.data_fork_spec()
                    && a@.rsrc_fork == self.rsrc_fork_spec()
                    && a@.file == self.file_spec(),
                None => self.builder_view().finish() is None,
            },
    {
        let archive = self.archive.build()?;
        let Archive { format, finf, minf, date, name, comment } = archive;
        Some(SeekableArchive {
            format,
            finf,
            minf,
            date,
            name,
            comment,
            file: self.file,
            rsrc_fork: self.rsrc_fork,
            data_fork: self.data_fork,
        })
    }
}

/// An archive decoded from a random-access source, which it retains so the
/// two named forks can be read on demand after the metadata pass.
#[derive(Debug)]
pub struct SeekableArchive {
    format: Format,
    finf: Option<FinderInfo>,
    minf: Option<MacInfo>,
    date: Option<Dates>,
    name: Option<Filename>,
    comment: Option<Comment>,
    rsrc_fork: Option<Entry>,
    data_fork: Option<Entry>,
    file: Vec<u8>,
}

impl View for SeekableArchive {
    type V = SeekableArchiveView;

    closed spec fn view(&self) -> SeekableArchiveView {
        SeekableArchiveView {
            meta: ArchiveView {
                format: self.format@,
                finf: self.finf,
                minf: self.minf,
                date: self.date,
                name: match self.name {
                    Some(ref n) => Some(n@),
                    None => None,
                },
                comment: match self.comment {
                    Some(ref c) => Some(c@),
                    None => None,
                },
            },
            data_fork: self.data_fork,
            rsrc_fork: self.rsrc_fork,
            file: self.file@,
        }
    }
}

impl SeekableArchive {
    /// A builder with every field still absent, retaining the given source.
    pub fn builder(file: Vec<u8>) -> (r: SeekableArchiveBuilder)
        ensures
            r.builder_view() == BuilderView::empty(),
            r.data_fork_spec() is None,
            r.rsrc_fork_spec() is None,
            r.file_spec() == file@,
    {
        SeekableArchiveBuilder::new(file)
    }

    /// The Finder information, when a segment supplied one.
    pub fn finder_info(&self) -> (r: Option<FinderInfo>)
        ensures
            r == self@.meta.finf,
    {
        self.finf
    }

    /// The Macintosh file information, when a segment supplied one.
    pub fn mac_info(&self) -> (r: Option<MacInfo>)
        ensures
            r == self@.meta.minf,
    {
        self.minf
    }

    /// The file dates, when a segment supplied them.
    pub fn dates(&self) -> (r: Option<Dates>)
        ensures
            r == self@.meta.date,
    {
        self.date
    }

    /// The real name, when a segment supplied one.
    pub fn name(&self) -> (r: Option<Filename>)
        ensures
            match self@.meta.name {
                Some(n) => r matches Some(m) && m@ == n,
                None => r is None,
            },
    {
        copy_filename(&self.name)
    }

    /// The comment, when a segment supplied one.
    pub fn comment(&self) -> (r: Option<Comment>)
        ensures
            match self@.meta.comment {
                Some(c) => r matches Some(m) && m@ == c,
                None => r is None,
            },
    {
        copy_comment(&self.comment)
    }

    /// The format tag.
    pub fn format(&self) -> (r: Format)
        ensures
            r@ == self@.meta.format,
    {
        self.format
    }

    /// The data fork's bytes, re-read from the retained source, when the
    /// metadata pass recorded a data-fork range.
    pub fn data_fork(&self) -> (r: Result<Option<Vec<u8>>, DecodeError>)
        ensures
            match self@.data_fork {
                None => r === Ok::<Option<Vec<u8>>, DecodeError>(None),
                Some(e) => {
                    if e.offset + e.len <= self@.file.len() {
                        r matches Ok(Some(b))
                            && b@ == self@.file.subrange(e.offset as int, e.offset + e.len)
                    } else {
                        r === Err::<Option<Vec<u8>>, _>(DecodeError::Truncated)
                    }
                },
            },
    {
        if let Some(entry) = self.data_fork {
            let b = entry.fixate(self.file.as_slice())?;
            Ok(Some(slice_to_vec(b)))
        } else {
            Ok(None)
        }
    }

    /// The resource fork's bytes, re-read from the retained source, when the
    /// metadata pass recorded a resource-fork range.
    pub fn rsrc_fork(&self) -> (r: Result<Option<Vec<u8>>, DecodeError>)
        ensures
            match self@.rsrc_fork {
                None => r === Ok::<Option<Vec<u8>>, DecodeError>(None),
                Some(e) => {
                    if e.offset + e.len <= self@.file.len() {
                        r matches Ok(Some(b))
                            && b@ == self@.file.subrange(e.offset as int, e.offset + e.len)
                    } else {
                        r === Err::<Option<Vec<u8>>, _>(DecodeError::Truncated)
                    }
                },
            },
    {
        if let Some(entry) = self.rsrc_fork {
            let b = entry.fixate(self.file.as_slice())?;
            Ok(Some(slice_to_vec(b)))
        } else {
            Ok(None)
        }
    }
}

} // verus!
