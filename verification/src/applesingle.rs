//! The AppleSingle container decoder: header and segment-table reading,
//! offset-ordered traversal, and the per-segment type dispatcher, shared by a
//! forward-only streaming engine and a random-access seekable engine.

use vstd::prelude::*;

use crate::{Comment, DecodeError, Entry, Filename};
use crate::archive::{
    Archive,
    ArchiveBuilder,
    ArchiveView,
    BuilderView,
    Format,
    SeekableArchive,
    SeekableArchiveView,
};
use crate::bytes::{be_u16_at, be_u32_at, read_be_u16, read_be_u32};
use crate::date::{Dates, spec_dates};
use crate::io::CountingReader;
use crate::finder::{FinderInfo, MacInfo, spec_finder_info, spec_mac_info};

verus! {

/// The magic number that opens every AppleSingle container.
pub const MAGIC: u32 = 0x0005_1600;

/// The version word that follows the magic number.
pub const VERSION: u32 = 0x0002_0000;

/// One entry of the container's table of contents, as read from the header:
/// which kind of content, where it lies, and how long it is.
#[derive(Debug, Clone, Copy, PartialEq, Eq, Structural)]
pub struct Segment {
    pub id: u32,
    pub offset: u32,
    pub len: u32,
}

impl Segment {
    /// The segment's type, when its id belongs to the closed set of known
    /// entry types.
    pub fn entry_type(&self) -> (r: Option<EntryType>)
        ensures
            r == spec_entry_type(self.id),
    {
        entry_type_of(self.id)
    }

    /// The segment's offset, widened for position arithmetic.
    pub fn offset_u64(&self) -> (r: u64)
        ensures
            r == self.offset,
    {
        self.offset as u64
    }

    /// The segment's length, widened for slicing.
    pub fn len_usize(&self) -> (r: usize)
        ensures
            r == self.len,
    {
        self.len as usize
    }

    /// The segment's length, widened for position arithmetic.
    pub fn len_u64(&self) -> (r: u64)
        ensures
            r == self.len,
    {
        self.len as u64
    }
}

impl From<Segment> for Entry {
    fn from(s: Segment) -> (r: Entry) {
        let Segment { id, offset, len } = s;
        Entry { id, offset, len }
    }
}

impl vstd::std_specs::convert::FromSpecImpl<Segment> for Entry {
    open spec fn obeys_from_spec() -> bool {
        true
    }

    open spec fn from_spec(s: Segment) -> Entry {
        spec_entry_of(s)
    }
}

/// The table-of-contents entry that stands for a segment.
pub open spec fn spec_entry_of(s: Segment) -> Entry {
    Entry { id: s.id, offset: s.offset, len: s.len }
}

/// The closed set of segment ids whose payloads this decoder understands.
/// Any other id is a valid segment whose raw bytes are preserved but whose
/// semantics are not interpreted.
#[derive(Debug, Clone, Copy, PartialEq, Eq, PartialOrd, Ord, Structural)]
pub enum EntryType {
    DataFork,
    ResourceFork,
    RealName,
    Comment,
    IconBW,
    IconColor,
    FileDates,
    FinderInfo,
    MacintoshFileInfo,
    ProDOSFileInfo,
    MSDOSFileInfo,
    AFPShortName,
    AFPFileInfo,
    AFPDirectoryID,
}

/// Which known entry type a segment id names, if any: data fork = 1,
/// resource fork = 2, real name = 3, comment = 4, icons = 5 and 6,
/// file dates = 8, Finder info = 9, Mac file info = 10, then the
/// ProDOS, MS-DOS and AFP variants at 11 to 15.
pub open spec fn spec_entry_type(id: u32) -> Option<EntryType> {
    if id == 1 {
        Some(EntryType::DataFork)
    } else if id == 2 {
        Some(EntryType::ResourceFork)
    } else if id == 3 {
        Some(EntryType::RealName)
    } else if id == 4 {
        Some(EntryType::Comment)
    } else if id == 5 {
        Some(EntryType::IconBW)
    } else if id == 6 {
        Some(EntryType::IconColor)
    } else if id == 8 {
        Some(EntryType::FileDates)
    } else if id == 9 {
        Some(EntryType::FinderInfo)
    } else if id == 10 {
        Some(EntryType::MacintoshFileInfo)
    } else if id == 11 {
        Some(EntryType::ProDOSFileInfo)
    } else if id == 12 {
        Some(EntryType::MSDOSFileInfo)
    } else if id == 13 {
        Some(EntryType::AFPShortName)
    } else if id == 14 {
        Some(EntryType::AFPFileInfo)
    } else if id == 15 {
        Some(EntryType::AFPDirectoryID)
    } else {
        None
    }
}

/// Checked conversion from a raw segment id into the closed entry-type set.
pub fn entry_type_of(id: u32) -> (r: Option<EntryType>)
    ensures
        r == spec_entry_type(id),
{
    match id {
        1 => Some(EntryType::DataFork),
        2 => Some(EntryType::ResourceFork),
        3 => Some(EntryType::RealName),
        4 => Some(EntryType::Comment),
        5 => Some(EntryType::IconBW),
        6 => Some(EntryType::IconColor),
        8 => Some(EntryType::FileDates),
        9 => Some(EntryType::FinderInfo),
        10 => Some(EntryType::MacintoshFileInfo),
        11 => Some(EntryType::ProDOSFileInfo),
        12 => Some(EntryType::MSDOSFileInfo),
        13 => Some(EntryType::AFPShortName),
        14 => Some(EntryType::AFPFileInfo),
        15 => Some(EntryType::AFPDirectoryID),
        _ => None,
    }
}

/// One decoded segment: either a parsed metadata value or, for fork payloads
/// and unrecognized types, the table entry that locates the opaque bytes.
#[derive(Debug)]
pub enum ArchiveMember {
    DataFork(Entry),
    ResourceFork(Entry),
    RealName(Filename),
    Comment(Comment),
    FileDates(Dates),
    FinderInfo(FinderInfo),
    MacInfo(MacInfo),
    Other(Entry),
}

/// What an [`ArchiveMember`] holds, at the specification level.
pub enum MemberView {
    DataFork(Entry),
    ResourceFork(Entry),
    RealName(Seq<u8>),
    Comment(Seq<u8>),
    FileDates(Dates),
    FinderInfo(FinderInfo),
    MacInfo(MacInfo),
    Other(Entry),
}

impl View for ArchiveMember {
    type V = MemberView;

    open spec fn view(&self) -> MemberView {
        match self {
            ArchiveMember::DataFork(e) => MemberView::DataFork(*e),
            ArchiveMember::ResourceFork(e) => MemberView::ResourceFork(*e),
            ArchiveMember::RealName(n) => MemberView::RealName(n@),
            ArchiveMember::Comment(c) => MemberView::Comment(c@),
            ArchiveMember::FileDates(d) => MemberView::FileDates(*d),
            ArchiveMember::FinderInfo(i) => MemberView::FinderInfo(*i),
            ArchiveMember::MacInfo(i) => MemberView::MacInfo(*i),
            ArchiveMember::Other(e) => MemberView::Other(*e),
        }
    }
}

/// What dispatching one segment yields from its scoped bytes `b` (exactly the
/// segment's `len` bytes): a parsed metadata value for the recognized
/// metadata types, the locating entry for fork and unrecognized payloads, or
/// a truncation error when a fixed-size block asks for more bytes than the
/// segment holds.
pub open spec fn spec_wrap(seg: Segment, b: Seq<u8>) -> Result<MemberView, DecodeError> {
    match spec_entry_type(seg.id) {
        Some(EntryType::RealName) => Ok(MemberView::RealName(b)),
        Some(EntryType::Comment) => Ok(MemberView::Comment(b)),
        Some(EntryType::FinderInfo) => if b.len() >= 16 {
            Ok(MemberView::FinderInfo(spec_finder_info(b)))
        } else {
            Err(DecodeError::Truncated)
        },
        Some(EntryType::FileDates) => if b.len() >= 16 {
            Ok(MemberView::FileDates(spec_dates(b)))
        } else {
            Err(DecodeError::Truncated)
        },
        Some(EntryType::MacintoshFileInfo) => if b.len() >= 4 {
            Ok(MemberView::MacInfo(spec_mac_info(b)))
        } else {
            Err(DecodeError::Truncated)
        },
        Some(EntryType::ResourceFork) => Ok(MemberView::ResourceFork(spec_entry_of(seg))),
        Some(EntryType::DataFork) => Ok(MemberView::DataFork(spec_entry_of(seg))),
        _ => Ok(MemberView::Other(spec_entry_of(seg))),
    }
}

impl Segment {
    /// Dispatches this segment on its entry type, decoding its scoped bytes
    /// `b` (exactly this segment's `len` bytes) into a typed member.
    pub fn wrap(&self, b: &[u8]) -> (r: Result<ArchiveMember, DecodeError>)
        requires
            b@.len() == self.len,
        ensures
            match r {
                Ok(m) => spec_wrap(*self, b@) == Ok::<MemberView, DecodeError>(m@),
                Err(e) => spec_wrap(*self, b@) == Err::<MemberView, DecodeError>(e),
            },
    {
        let entry = Entry::from(*self);
        let member = match self.entry_type() {
            Some(EntryType::RealName) => {
                ArchiveMember::RealName(Filename(vstd::slice::slice_to_vec(b)))
            },
            Some(EntryType::Comment) => {
                ArchiveMember::Comment(Comment(vstd::slice::slice_to_vec(b)))
            },
            Some(EntryType::FinderInfo) => {
                if b.len() < 16 {
                    return Err(DecodeError::Truncated);
                }
                ArchiveMember::FinderInfo(FinderInfo::from_bytes(b))
            },
            Some(EntryType::FileDates) => {
                if b.len() < 16 {
                    return Err(DecodeError::Truncated);
                }
                ArchiveMember::FileDates(Dates::from_bytes(b))
            },
            Some(EntryType::MacintoshFileInfo) => {
                if b.len() < 4 {
                    return Err(DecodeError::Truncated);
                }
                ArchiveMember::MacInfo(MacInfo::from_bytes(b))
            },
            Some(EntryType::ResourceFork) => ArchiveMember::ResourceFork(entry),
            Some(EntryType::DataFork) => ArchiveMember::DataFork(entry),
            _ => ArchiveMember::Other(entry),
        };
        Ok(member)
    }
}

/// A fork classification handed to a streaming handler: the data fork, the
/// resource fork, or any other uninterpreted segment tagged by its raw id.
#[derive(Debug, Clone, Copy, PartialEq, Eq, Structural)]
pub enum Fork {
    Data,
    Rsrc,
    Other(u32),
}

/// Chooses, during a streaming decode, which fork payloads to receive. For
/// each fork segment the engine first asks [`Handler::sink`]; when it answers
/// `true`, the engine hands the whole payload to [`Handler::write`] before
/// moving to the next segment.
pub trait Handler {
    /// Whether a sink exists for this fork.
    fn sink(&mut self, fork: Fork) -> bool;

    /// Receives the whole payload of a fork for which [`Handler::sink`]
    /// answered `true`.
    fn write(&mut self, fork: Fork, payload: &[u8]);
}

/// A handler that declines every fork.
struct NullHandler;

impl Handler for NullHandler {
    fn sink(&mut self, _fork: Fork) -> bool {
        false
    }

    fn write(&mut self, _fork: Fork, _payload: &[u8]) {
    }
}

/// The format tag that this decoder stamps on every archive.
pub open spec fn spec_format_name() -> Seq<char> {
    "AppleSingle"@
}

/// The format tag that this decoder stamps on every archive.
pub fn format_name() -> (r: &'static str)
    ensures
        r@ == spec_format_name(),
{
    "AppleSingle"
}

/// Whether the first eight bytes of `d` hold the AppleSingle magic number
/// and version word.
pub open spec fn spec_magic_ok(d: Seq<u8>) -> bool {
    be_u32_at(d, 0) == MAGIC && be_u32_at(d, 4) == VERSION
}

/// The segment count stated at byte 24 of the fixed preamble.
pub open spec fn spec_segment_count(d: Seq<u8>) -> int {
    be_u16_at(d, 24) as int
}

/// The `k`-th 12-byte segment descriptor, read from position `26 + 12k`.
pub open spec fn spec_desc_at(d: Seq<u8>, k: int) -> Segment {
    Segment {
        id: be_u32_at(d, 26 + 12 * k),
        offset: be_u32_at(d, 26 + 12 * k + 4),
        len: be_u32_at(d, 26 + 12 * k + 8),
    }
}

/// What reading the header yields: the descriptors in the order the table
/// lists them, or a failure — truncation when the preamble or a descriptor
/// lies beyond the end of `d`, checked read by read, and a format mismatch
/// when the magic number or version word is wrong.
pub open spec fn spec_header(d: Seq<u8>) -> Result<Seq<Segment>, DecodeError> {
    if d.len() < 26 {
        Err(DecodeError::Truncated)
    } else if !spec_magic_ok(d) {
        Err(DecodeError::FormatMismatch)
    } else if d.len() < 26 + 12 * spec_segment_count(d) {
        Err(DecodeError::Truncated)
    } else {
        Ok(Seq::new(spec_segment_count(d) as nat, |k: int| spec_desc_at(d, k)))
    }
}

/// Inserts one descriptor into a table held in ascending id order, replacing
/// any descriptor already keyed by the same id: later reads win.
pub open spec fn spec_table_insert(t: Seq<Segment>, s: Segment) -> Seq<Segment>
    decreases t.len(),
{
    if t.len() == 0 {
        seq![s]
    } else if s.id < t[0].id {
        seq![s] + t
    } else if s.id == t[0].id {
        seq![s] + t.drop_first()
    } else {
        seq![t[0]] + spec_table_insert(t.drop_first(), s)
    }
}

/// The table that reading the descriptors left to right builds: keyed by id,
/// in ascending id order, each id holding the last descriptor read for it.
pub open spec fn spec_table(descs: Seq<Segment>) -> Seq<Segment>
    decreases descs.len(),
{
    if descs.len() == 0 {
        Seq::empty()
    } else {
        spec_table_insert(spec_table(descs.drop_last()), descs.last())
    }
}

/// The last descriptor read with the given id, if any: the one the table
/// retains when several descriptors share an id.
pub open spec fn spec_last_desc(descs: Seq<Segment>, id: u32) -> Option<Segment>
    decreases descs.len(),
{
    if descs.len() == 0 {
        None
    } else if descs.last().id == id {
        Some(descs.last())
    } else {
        spec_last_desc(descs.drop_last(), id)
    }
}

/// Strict traversal order between two segments: by ascending offset, with
/// ties broken by ascending id.
pub open spec fn spec_key_lt(a: Segment, b: Segment) -> bool {
    a.offset < b.offset || (a.offset == b.offset && a.id < b.id)
}

/// Inserts one segment into a sequence held in traversal order.
pub open spec fn spec_order_insert(t: Seq<Segment>, s: Segment) -> Seq<Segment>
    decreases t.len(),
{
    if t.len() == 0 {
        seq![s]
    } else if spec_key_lt(s, t[0]) {
        seq![s] + t
    } else {
        seq![t[0]] + spec_order_insert(t.drop_first(), s)
    }
}

/// The table's segments in traversal order: ascending offset, ties broken by
/// ascending id.
pub open spec fn spec_order(t: Seq<Segment>) -> Seq<Segment>
    decreases t.len(),
{
    if t.len() == 0 {
        Seq::empty()
    } else {
        spec_order_insert(spec_order(t.drop_last()), t.last())
    }
}

/// The segments a decode of `d` visits, in order: the header's descriptors,
/// keyed by id with later reads winning, sorted by ascending offset.
pub open spec fn spec_segments_in_order(d: Seq<u8>) -> Seq<Segment> {
    spec_order(spec_table(match spec_header(d) {
        Ok(descs) => descs,
        Err(_) => Seq::empty(),
    }))
}

/// Inserts one descriptor into an id-keyed table, replacing any descriptor
/// with the same id.
fn table_insert(t: &[Segment], s: Segment) -> (r: Vec<Segment>)
    ensures
        r@ == spec_table_insert(t@, s),
    decreases t@.len(),
{
    if t.len() == 0 {
        let mut v: Vec<Segment> = Vec::new();
        v.push(s);
        proof {
            assert(v@ =~= seq![s]);
        }
        v
    } else {
        let h = t[0];
        if s.id < h.id {
            let mut v: Vec<Segment> = Vec::new();
            v.push(s);
            let mut i: usize = 1;
            v.push(h);
            while i < t.len()
                invariant
                    1 <= i <= t@.len(),
                    v@ == seq![s] + t@.subrange(0, i as int),
                decreases t@.len() - i,
            {
                v.push(t[i]);
                i = i + 1;
                proof {
                    assert(v@ =~= seq![s] + t@.subrange(0, i as int));
                }
            }
            proof {
                assert(t@.subrange(0, t@.len() as int) =~= t@);
                assert(v@ =~= seq![s] + t@);
            }
            v
        } else if s.id == h.id {
            let mut v: Vec<Segment> = Vec::new();
            v.push(s);
            let mut i: usize = 1;
            while i < t.len()
                invariant
                    1 <= i <= t@.len(),
                    v@ == seq![s] + t@.subrange(1, i as int),
                decreases t@.len() - i,
            {
                v.push(t[i]);
                i = i + 1;
                proof {
                    assert(v@ =~= seq![s] + t@.subrange(1, i as int));
                }
            }
            proof {
                assert(t@.subrange(1, t@.len() as int) =~= t@.drop_first());
                assert(v@ =~= seq![s] + t@.drop_first());
            }
            v
        } else {
            let rest = vstd::slice::slice_subrange(t, 1, t.len());
            let mut v = table_insert(rest, s);
            proof {
                assert(rest@ =~= t@.drop_first());
            }
            v.insert(0, h);
            proof {
                assert(v@ =~= seq![h] + spec_table_insert(t@.drop_first(), s));
            }
            v
        }
    }
}

/// Inserts one segment into a sequence held in traversal order.
fn order_insert(t: &[Segment], s: Segment) -> (r: Vec<Segment>)
    ensures
        r@ == spec_order_insert(t@, s),
    decreases t@.len(),
{
    if t.len() == 0 {
        let mut v: Vec<Segment> = Vec::new();
        v.push(s);
        proof {
            assert(v@ =~= seq![s]);
        }
        v
    } else {
        let h = t[0];
        let s_first = s.offset < h.offset || (s.offset == h.offset && s.id < h.id);
        if s_first {
            let mut v: Vec<Segment> = Vec::new();
            v.push(s);
            let mut i: usize = 0;
            while i < t.len()
                invariant
                    0 <= i <= t@.len(),
                    v@ == seq![s] + t@.subrange(0, i as int),
                decreases t@.len() - i,
            {
                v.push(t[i]);
                i = i + 1;
                proof {
                    assert(v@ =~= seq![s] + t@.subrange(0, i as int));
                }
            }
            proof {
                assert(t@.subrange(0, t@.len() as int) =~= t@);
                assert(v@ =~= seq![s] + t@);
            }
            v
        } else {
            let rest = vstd::slice::slice_subrange(t, 1, t.len());
            let mut v = order_insert(rest, s);
            proof {
                assert(rest@ =~= t@.drop_first());
            }
            v.insert(0, h);
            proof {
                assert(v@ =~= seq![h] + spec_order_insert(t@.drop_first(), s));
            }
            v
        }
    }
}

/// Reads the fixed 26-byte preamble and the following descriptors from a
/// source positioned at offset 0, yielding the table keyed by id (later
/// descriptors for an id replace earlier ones) and leaving the cursor just
/// past the last descriptor.
#[verifier::loop_isolation(false)]
fn read_header(r: &mut CountingReader) -> (res: Result<Vec<Segment>, DecodeError>)
    requires
        old(r).wf(),
        old(r).count_spec() == 0,
    ensures
        final(r).wf(),
        final(r).data_spec() == old(r).data_spec(),
        match res {
            Ok(t) => spec_header(old(r).data_spec()) matches Ok(descs)
                && t@ == spec_table(descs)
                && final(r).count_spec() == 26 + 12 * descs.len(),
            Err(e) => spec_header(old(r).data_spec()) == Err::<Seq<Segment>, _>(e),
        },
{
    let ghost d = old(r).data_spec();
    let pre = match r.take_slice(26) {
        Ok(b) => b,
        Err(e) => {
            return Err(e);
        },
    };
    if read_be_u32(pre, 0) != MAGIC || read_be_u32(pre, 4) != VERSION {
        proof {
            assert(be_u32_at(pre@, 0) == be_u32_at(d, 0) && be_u32_at(pre@, 4) == be_u32_at(d, 4));
        }
        return Err(DecodeError::FormatMismatch);
    }
    let n = read_be_u16(pre, 24);
    proof {
        assert(be_u16_at(pre@, 24) == be_u16_at(d, 24));
    }
    let ghost descs = Seq::new(spec_segment_count(d) as nat, |k: int| spec_desc_at(d, k));
    let mut table: Vec<Segment> = Vec::new();
    let mut k: usize = 0;
    while k < n as usize
        invariant
            r.wf(),
            r.data_spec() == d,
            0 <= k <= n,
            n == spec_segment_count(d),
            d.len() >= 26,
            spec_magic_ok(d),
            r.count_spec() == 26 + 12 * k,
            descs == Seq::new(spec_segment_count(d) as nat, |j: int| spec_desc_at(d, j)),
            table@ == spec_table(descs.subrange(0, k as int)),
        decreases n - k,
    {
        let db = match r.take_slice(12) {
            Ok(b) => b,
            Err(e) => {
                proof {
                    assert(d.len() < 26 + 12 * (k + 1) <= 26 + 12 * spec_segment_count(d));
                }
                return Err(e);
            },
        };
        let seg = Segment {
            id: read_be_u32(db, 0),
            offset: read_be_u32(db, 4),
            len: read_be_u32(db, 8),
        };
        proof {
            assert(be_u32_at(db@, 0) == be_u32_at(d, 26 + 12 * k)
                && be_u32_at(db@, 4) == be_u32_at(d, 26 + 12 * k + 4)
                && be_u32_at(db@, 8) == be_u32_at(d, 26 + 12 * k + 8));
            assert(seg == descs[k as int]);
        }
        table = table_insert(table.as_slice(), seg);
        k = k + 1;
        proof {
            let pre_k = descs.subrange(0, k as int);
            assert(pre_k.drop_last() =~= descs.subrange(0, k - 1));
            assert(pre_k.last() == descs[k - 1]);
        }
    }
    proof {
        assert(d.len() >= 26 + 12 * spec_segment_count(d));
        assert(spec_header(d) == Ok::<Seq<Segment>, DecodeError>(descs));
        assert(descs.subrange(0, n as int) =~= descs);
    }
    Ok(table)
}

/// Materializes the table's segments in traversal order: ascending offset,
/// ties broken by ascending id.
pub fn segments_by_offset(t: &Vec<Segment>) -> (r: Vec<Segment>)
    ensures
        r@ == spec_order(t@),
{
    let mut r: Vec<Segment> = Vec::new();
    let mut i: usize = 0;
    while i < t.len()
        invariant
            0 <= i <= t@.len(),
            r@ == spec_order(t@.subrange(0, i as int)),
        decreases t@.len() - i,
    {
        r = order_insert(r.as_slice(), t[i]);
        i = i + 1;
        proof {
            let pre = t@.subrange(0, i as int);
            assert(pre.drop_last() =~= t@.subrange(0, i - 1));
            assert(pre.last() == t@[i - 1]);
        }
    }
    proof {
        assert(t@.subrange(0, t@.len() as int) =~= t@);
    }
    r
}

/// The state a streaming traversal carries, at the specification level: the
/// metadata accumulated so far, the cursor position (monotonically
/// increasing), and the payloads of the two named forks seen so far.
pub struct StreamView {
    pub bv: BuilderView,
    pub pos: int,
    pub data: Option<Seq<u8>>,
    pub rsrc: Option<Seq<u8>>,
}

/// Folds one decoded member into the accumulated metadata: each metadata
/// member sets its field (last write wins); fork and unrecognized members
/// leave the metadata unchanged.
pub open spec fn spec_fold_member(bv: BuilderView, m: MemberView) -> BuilderView {
    match m {
        MemberView::RealName(n) => BuilderView { name: Some(n), ..bv },
        MemberView::Comment(c) => BuilderView { comment: Some(c), ..bv },
        MemberView::FileDates(dt) => BuilderView { date: Some(dt), ..bv },
        MemberView::FinderInfo(fi) => BuilderView { finf: Some(fi), ..bv },
        MemberView::MacInfo(mi) => BuilderView { minf: Some(mi), ..bv },
        MemberView::DataFork(_) => bv,
        MemberView::ResourceFork(_) => bv,
        MemberView::Other(_) => bv,
    }
}

/// One step of the streaming traversal over segment `seg`: out-of-order when
/// the segment starts before the cursor (the source cannot rewind), truncated
/// when it reaches past the end of `d`; otherwise the segment's scoped bytes
/// are dispatched, the cursor lands exactly at the segment's end, and a named
/// fork's payload is recorded.
pub open spec fn spec_stream_step(d: Seq<u8>, seg: Segment, sv: StreamView) -> Result<
    StreamView,
    DecodeError,
> {
    if seg.offset < sv.pos {
        Err(DecodeError::OutOfOrder)
    } else if seg.offset + seg.len > d.len() {
        Err(DecodeError::Truncated)
    } else {
        let b = d.subrange(seg.offset as int, seg.offset + seg.len);
        match spec_wrap(seg, b) {
            Err(e) => Err(e),
            Ok(m) => Ok(StreamView {
                bv: spec_fold_member(sv.bv, m),
                pos: seg.offset + seg.len,
                data: if m is DataFork {
                    Some(b)
                } else {
                    sv.data
                },
                rsrc: if m is ResourceFork {
                    Some(b)
                } else {
                    sv.rsrc
                },
            }),
        }
    }
}

/// The streaming traversal over `segs`, segment by segment, from state `sv`:
/// the final state, or the first failure, with no partial result.
pub open spec fn spec_stream_run(d: Seq<u8>, segs: Seq<Segment>, sv: StreamView) -> Result<
    StreamView,
    DecodeError,
>
    decreases segs.len(),
{
    if segs.len() == 0 {
        Ok(sv)
    } else {
        match spec_stream_step(d, segs[0], sv) {
            Err(e) => Err(e),
            Ok(sv2) => spec_stream_run(d, segs.drop_first(), sv2),
        }
    }
}

/// The streaming state a decode of `d` starts from: the format tag set, the
/// cursor just past the header, no fork seen.
pub open spec fn spec_stream_init(d: Seq<u8>) -> StreamView {
    StreamView {
        bv: BuilderView { format: Some(spec_format_name()), ..BuilderView::empty() },
        pos: 26 + 12 * spec_segment_count(d),
        data: None,
        rsrc: None,
    }
}

/// What decoding `d` through the streaming engine yields: header, table,
/// traversal in ascending-offset order over a forward-only cursor.
pub open spec fn spec_parse(d: Seq<u8>) -> Result<StreamView, DecodeError> {
    match spec_header(d) {
        Err(e) => Err(e),
        Ok(descs) => spec_stream_run(d, spec_order(spec_table(descs)), spec_stream_init(d)),
    }
}

/// The archive that a streaming decode of `d` yields, or its failure; a
/// traversal whose mandatory format tag was never set fails too.
pub open spec fn spec_parse_meta(d: Seq<u8>) -> Result<ArchiveView, DecodeError> {
    match spec_parse(d) {
        Err(e) => Err(e),
        Ok(sv) => match sv.bv.finish() {
            Some(av) => Ok(av),
            None => Err(DecodeError::MissingFormat),
        },
    }
}

/// The state a seekable traversal carries, at the specification level: the
/// metadata accumulated so far and the recorded ranges of the two named
/// forks. A random-access source needs no cursor.
pub struct SeekView {
    pub bv: BuilderView,
    pub data: Option<Entry>,
    pub rsrc: Option<Entry>,
}

/// One step of the seekable traversal over segment `seg`: truncated when the
/// segment reaches past the end of `d`; otherwise the segment's scoped bytes
/// are dispatched and a named fork's range is recorded instead of its bytes.
pub open spec fn spec_seek_step(d: Seq<u8>, seg: Segment, sv: SeekView) -> Result<
    SeekView,
    DecodeError,
> {
    if seg.offset + seg.len > d.len() {
        Err(DecodeError::Truncated)
    } else {
        let b = d.subrange(seg.offset as int, seg.offset + seg.len);
        match spec_wrap(seg, b) {
            Err(e) => Err(e),
            Ok(m) => Ok(SeekView {
                bv: spec_fold_member(sv.bv, m),
                data: if m is DataFork {
                    Some(spec_entry_of(seg))
                } else {
                    sv.data
                },
                rsrc: if m is ResourceFork {
                    Some(spec_entry_of(seg))
                } else {
                    sv.rsrc
                },
            }),
        }
    }
}

/// The seekable traversal over `segs`, segment by segment, from state `sv`.
pub open spec fn spec_seek_run(d: Seq<u8>, segs: Seq<Segment>, sv: SeekView) -> Result<
    SeekView,
    DecodeError,
>
    decreases segs.len(),
{
    if segs.len() == 0 {
        Ok(sv)
    } else {
        match spec_seek_step(d, segs[0], sv) {
            Err(e) => Err(e),
            Ok(sv2) => spec_seek_run(d, segs.drop_first(), sv2),
        }
    }
}

/// The seekable state a decode starts from: the format tag set, no fork
/// recorded.
pub open spec fn spec_seek_init() -> SeekView {
    SeekView {
        bv: BuilderView { format: Some(spec_format_name()), ..BuilderView::empty() },
        data: None,
        rsrc: None,
    }
}

/// What decoding `d` through the seekable engine yields: header, table,
/// traversal in ascending-offset order with each segment materialized
/// independently by seek-and-limit.
pub open spec fn spec_parse_seekable(d: Seq<u8>) -> Result<SeekView, DecodeError> {
    match spec_header(d) {
        Err(e) => Err(e),
        Ok(descs) => spec_seek_run(d, spec_order(spec_table(descs)), spec_seek_init()),
    }
}

/// The archive that a seekable decode of `d` yields — metadata, the recorded
/// fork ranges, and the retained source — or its failure.
pub open spec fn spec_parse_seekable_meta(d: Seq<u8>) -> Result<
    SeekableArchiveView,
    DecodeError,
> {
    match spec_parse_seekable(d) {
        Err(e) => Err(e),
        Ok(sv) => match sv.bv.finish() {
            Some(av) => Ok(SeekableArchiveView {
                meta: av,
                data_fork: sv.data,
                rsrc_fork: sv.rsrc,
                file: d,
            }),
            None => Err(DecodeError::MissingFormat),
        },
    }
}

/// The payload view of an optionally captured fork buffer.
pub open spec fn spec_opt_bytes(v: Option<Vec<u8>>) -> Option<Seq<u8>> {
    match v {
        Some(b) => Some(b@),
        None => None,
    }
}

/// Drives the streaming traversal over `segs` from the reader's current
/// position: each segment is reached by a forward-only skip, scoped to
/// exactly its length, dispatched, and folded into the builder; each fork
/// payload is offered to the handler, and the two named forks are captured
/// into buffers when asked.
#[verifier::loop_isolation(false)]
fn stream_segments<'a, H: Handler>(
    r: &mut CountingReader<'a>,
    segs: &Vec<Segment>,
    builder: &mut ArchiveBuilder,
    want_data: bool,
    want_rsrc: bool,
    handler: &mut H,
) -> (res: Result<(Option<Vec<u8>>, Option<Vec<u8>>), DecodeError>)
    requires
        old(r).wf(),
    ensures
        final(r).wf(),
        final(r).data_spec() == old(r).data_spec(),
        match res {
            Ok(forks) => {
                &&& spec_stream_run(
                    old(r).data_spec(),
                    segs@,
                    StreamView {
                        bv: old(builder)@,
                        pos: old(r).count_spec(),
                        data: None,
                        rsrc: None,
                    },
                ) matches Ok(sv)
                &&& final(builder)@ == sv.bv
                &&& (if want_data {
                    spec_opt_bytes(forks.0) == sv.data
                } else {
                    forks.0 is None
                })
                &&& (if want_rsrc {
                    spec_opt_bytes(forks.1) == sv.rsrc
                } else {
                    forks.1 is None
                })
            },
            Err(e) => spec_stream_run(
                old(r).data_spec(),
                segs@,
                StreamView {
                    bv: old(builder)@,
                    pos: old(r).count_spec(),
                    data: None,
                    rsrc: None,
                },
            ) == Err::<StreamView, _>(e),
        },
{
    let ghost d = old(r).data_spec();
    let ghost init = StreamView {
        bv: old(builder)@,
        pos: old(r).count_spec(),
        data: None,
        rsrc: None,
    };
    let mut df: Option<Vec<u8>> = None;
    let mut rf: Option<Vec<u8>> = None;
    let ghost mut gdata: Option<Seq<u8>> = None;
    let ghost mut grsrc: Option<Seq<u8>> = None;
    let mut i: usize = 0;
    proof {
        assert(segs@.subrange(0, segs@.len() as int) =~= segs@);
    }
    while i < segs.len()
        invariant
            0 <= i <= segs@.len(),
            r.wf(),
            r.data_spec() == d,
            spec_stream_run(d, segs@, init) == spec_stream_run(
                d,
                segs@.subrange(i as int, segs@.len() as int),
                StreamView { bv: builder@, pos: r.count_spec(), data: gdata, rsrc: grsrc },
            ),
            if want_data {
                spec_opt_bytes(df) == gdata
            } else {
                df is None
            },
            if want_rsrc {
                spec_opt_bytes(rf) == grsrc
            } else {
                rf is None
            },
        decreases segs@.len() - i,
    {
        let ghost cur = StreamView { bv: builder@, pos: r.count_spec(), data: gdata, rsrc: grsrc };
        let ghost rest = segs@.subrange(i as int, segs@.len() as int);
        proof {
            assert(rest[0] == segs@[i as int]);
            assert(rest.drop_first() =~= segs@.subrange(i + 1, segs@.len() as int));
        }
        let seg = segs[i];
        if let Err(e) = r.skip_to(seg.offset_u64()) {
            return Err(e);
        }
        let b = match r.take_slice(seg.len_usize()) {
            Ok(b) => b,
            Err(e) => {
                return Err(e);
            },
        };
        let member = match seg.wrap(b) {
            Ok(m) => m,
            Err(e) => {
                return Err(e);
            },
        };
        match member {
            ArchiveMember::RealName(n) => builder.name(n),
            ArchiveMember::Comment(c) => builder.comment(c),
            ArchiveMember::FileDates(dt) => builder.date(dt),
            ArchiveMember::FinderInfo(fi) => builder.finf(fi),
            ArchiveMember::MacInfo(mi) => builder.minf(mi),
            ArchiveMember::DataFork(_) => {
                if want_data {
                    df = Some(vstd::slice::slice_to_vec(b));
                }
                proof {
                    gdata = Some(b@);
                }
                if handler.sink(Fork::Data) {
                    handler.write(Fork::Data, b);
                }
            },
            ArchiveMember::ResourceFork(_) => {
                if want_rsrc {
                    rf = Some(vstd::slice::slice_to_vec(b));
                }
                proof {
                    grsrc = Some(b@);
                }
                if handler.sink(Fork::Rsrc) {
                    handler.write(Fork::Rsrc, b);
                }
            },
            ArchiveMember::Other(e) => {
                if handler.sink(Fork::Other(e.id)) {
                    handler.write(Fork::Other(e.id), b);
                }
            },
        }
        i = i + 1;
        proof {
            let next = StreamView {
                bv: builder@,
                pos: r.count_spec(),
                data: gdata,
                rsrc: grsrc,
            };
            assert(spec_stream_step(d, segs@[i - 1], cur) == Ok::<StreamView, DecodeError>(next));
        }
    }
    proof {
        assert(segs@.subrange(segs@.len() as int, segs@.len() as int) =~= Seq::<Segment>::empty());
    }
    Ok((df, rf))
}

/// Decodes an AppleSingle container through the streaming engine: one forward
/// pass, no rewinding, fork payloads handed to the handler's sinks as they
/// are encountered and never retained.
pub fn parse<H: Handler>(archive: &[u8], handler: &mut H) -> (r: Result<Archive, DecodeError>)
    ensures
        match r {
            Ok(a) => spec_parse_meta(archive@) == Ok::<ArchiveView, DecodeError>(a@),
            Err(e) => spec_parse_meta(archive@) == Err::<ArchiveView, _>(e),
        },
{
    let mut reader = CountingReader::new(archive);
    let table = read_header(&mut reader)?;
    let segs = segments_by_offset(&table);
    let mut builder = Archive::builder();
    builder.format(Format(format_name()));
    let _ = stream_segments(&mut reader, &segs, &mut builder, false, false, handler)?;
    match builder.build() {
        Some(a) => Ok(a),
        None => Err(DecodeError::MissingFormat),
    }
}

/// Decodes an AppleSingle container through the streaming engine, capturing
/// the payload of each named fork that was asked for into a buffer.
pub fn parse_captured(archive: &[u8], want_data: bool, want_rsrc: bool) -> (r: Result<
    (Archive, Option<Vec<u8>>, Option<Vec<u8>>),
    DecodeError,
>)
    ensures
        match r {
            Ok((a, df, rf)) => {
                &&& spec_parse_meta(archive@) == Ok::<ArchiveView, DecodeError>(a@)
                &&& spec_parse(archive@) matches Ok(sv)
                &&& (if want_data {
                    spec_opt_bytes(df) == sv.data
                } else {
                    df is None
                })
                &&& (if want_rsrc {
                    spec_opt_bytes(rf) == sv.rsrc
                } else {
                    rf is None
                })
            },
            Err(e) => spec_parse_meta(archive@) == Err::<ArchiveView, _>(e),
        },
{
    let mut reader = CountingReader::new(archive);
    let table = read_header(&mut reader)?;
    let segs = segments_by_offset(&table);
    let mut builder = Archive::builder();
    builder.format(Format(format_name()));
    let mut handler = NullHandler;
    let (df, rf) = stream_segments(
        &mut reader,
        &segs,
        &mut builder,
        want_data,
        want_rsrc,
        &mut handler,
    )?;
    match builder.build() {
        Some(a) => Ok((a, df, rf)),
        None => Err(DecodeError::MissingFormat),
    }
}

/// Decodes an AppleSingle container through the seekable engine: each segment
/// is materialized independently by seek-and-limit, the named forks are
/// recorded as byte ranges, and the source is retained so they can be read
/// lazily, any number of times, after the metadata pass completes.
pub fn parse_seekable(archive: Vec<u8>) -> (r: Result<SeekableArchive, DecodeError>)
    ensures
        match r {
            Ok(a) => spec_parse_seekable_meta(archive@) == Ok::<SeekableArchiveView, DecodeError>(
                a@,
            ),
            Err(e) => spec_parse_seekable_meta(archive@) == Err::<SeekableArchiveView, _>(e),
        },
{
    let ghost d = archive@;
    let segs = {
        let mut reader = CountingReader::new(archive.as_slice());
        let table = read_header(&mut reader)?;
        segments_by_offset(&table)
    };
    let mut builder = SeekableArchive::builder(archive);
    builder.format(Format(format_name()));
    let ghost init = spec_seek_init();
    proof {
        assert(builder.builder_view() == init.bv);
        assert(segs@.subrange(0, segs@.len() as int) =~= segs@);
    }
    let mut i: usize = 0;
    #[verifier::loop_isolation(false)]
    while i < segs.len()
        invariant
            0 <= i <= segs@.len(),
            builder.file_spec() == d,
            spec_seek_run(d, segs@, init) == spec_seek_run(
                d,
                segs@.subrange(i as int, segs@.len() as int),
                SeekView {
                    bv: builder.builder_view(),
                    data: builder.data_fork_spec(),
                    rsrc: builder.rsrc_fork_spec(),
                },
            ),
        decreases segs@.len() - i,
    {
        let ghost cur = SeekView {
            bv: builder.builder_view(),
            data: builder.data_fork_spec(),
            rsrc: builder.rsrc_fork_spec(),
        };
        let ghost rest = segs@.subrange(i as int, segs@.len() as int);
        proof {
            assert(rest[0] == segs@[i as int]);
            assert(rest.drop_first() =~= segs@.subrange(i + 1, segs@.len() as int));
        }
        let seg = segs[i];
        let member = {
            let b = match builder.entry_slice(Entry::from(seg)) {
                Ok(b) => b,
                Err(e) => {
                    return Err(e);
                },
            };
            match seg.wrap(b) {
                Ok(m) => m,
                Err(e) => {
                    return Err(e);
                },
            }
        };
        match member {
            ArchiveMember::RealName(n) => builder.name(n),
            ArchiveMember::Comment(c) => builder.comment(c),
            ArchiveMember::FileDates(dt) => builder.date(dt),
            ArchiveMember::FinderInfo(fi) => builder.finf(fi),
            ArchiveMember::MacInfo(mi) => builder.minf(mi),
            ArchiveMember::DataFork(e) => builder.data_fork(e),
            ArchiveMember::ResourceFork(e) => builder.rsrc_fork(e),
            ArchiveMember::Other(_) => (),
        }
        i = i + 1;
        proof {
            let next = SeekView {
                bv: builder.builder_view(),
                data: builder.data_fork_spec(),
                rsrc: builder.rsrc_fork_spec(),
            };
            assert(spec_seek_step(d, segs@[i - 1], cur) == Ok::<SeekView, DecodeError>(next));
        }
    }
    proof {
        assert(segs@.subrange(segs@.len() as int, segs@.len() as int) =~= Seq::<Segment>::empty());
    }
    match builder.build() {
        Some(a) => Ok(a),
        None => Err(DecodeError::MissingFormat),
    }
}

} // verus!
