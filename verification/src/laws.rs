//! The decoder's general laws, stated over the specification pipeline and
//! proved once for every input.

use vstd::prelude::*;

use crate::{DecodeError, Entry};
use crate::applesingle::{
    MAGIC,
    VERSION,
    Segment,
    SeekView,
    StreamView,
    spec_desc_at,
    spec_header,
    spec_key_lt,
    spec_last_desc,
    spec_magic_ok,
    spec_order,
    spec_order_insert,
    spec_parse,
    spec_parse_meta,
    spec_parse_seekable,
    spec_parse_seekable_meta,
    spec_seek_run,
    spec_seek_step,
    spec_segment_count,
    spec_segments_in_order,
    spec_stream_run,
    spec_stream_step,
    spec_table,
    spec_table_insert,
};
use crate::archive::{ArchiveView, SeekableArchiveView};
use crate::bytes::{be_i16_at, be_i32_at, be_u16_at, be_u32_at};
use crate::date::{Dates, spec_dates};
use crate::finder::{FinderInfo, MacInfo, spec_finder_info, spec_mac_info};

verus! {

/// A streaming traversal factors through any cut point: running the whole
/// sequence equals running the first `i` segments and then the rest from the
/// state they reached.
pub proof fn lemma_stream_run_decompose(d: Seq<u8>, segs: Seq<Segment>, sv: StreamView, i: int)
    requires
        0 <= i <= segs.len(),
    ensures
        spec_stream_run(d, segs, sv) == (match spec_stream_run(d, segs.take(i), sv) {
            Ok(svi) => spec_stream_run(d, segs.skip(i), svi),
            Err(e) => Err(e),
        }),
    decreases i,
{
    if i == 0 {
        assert(segs.take(0) =~= Seq::<Segment>::empty());
        assert(segs.skip(0) =~= segs);
    } else {
        let s0 = segs[0];
        assert(segs.take(i)[0] == s0);
        match spec_stream_step(d, s0, sv) {
            Err(e) => {},
            Ok(sv1) => {
                lemma_stream_run_decompose(d, segs.drop_first(), sv1, i - 1);
                assert(segs.take(i).drop_first() =~= segs.drop_first().take(i - 1));
                assert(segs.skip(i) =~= segs.drop_first().skip(i - 1));
            },
        }
    }
}

/// Every segment of a successful streaming traversal starts at or past the
/// initial cursor, and lies wholly within the input.
pub proof fn lemma_run_segment_bounds(d: Seq<u8>, segs: Seq<Segment>, sv: StreamView)
    requires
        spec_stream_run(d, segs, sv) is Ok,
    ensures
        forall|i: int| 0 <= i < segs.len() ==> #[trigger] segs[i].offset >= sv.pos,
        forall|i: int|
            0 <= i < segs.len() ==> #[trigger] segs[i].offset + segs[i].len <= d.len(),
    decreases segs.len(),
{
    if segs.len() > 0 {
        let sv1 = spec_stream_step(d, segs[0], sv)->Ok_0;
        lemma_run_segment_bounds(d, segs.drop_first(), sv1);
        assert forall|i: int| 1 <= i < segs.len() implies #[trigger] segs[i].offset >= sv.pos
            && segs[i].offset + segs[i].len <= d.len() by {
            assert(segs.drop_first()[i - 1] == segs[i]);
            assert(segs[i].offset >= sv1.pos);
        }
    }
}

/// Law: a successful streaming traversal visits every listed segment exactly
/// once, in order, and the bytes consumed while processing a segment equal
/// its declared length exactly: the cursor moves from at or before the
/// segment's offset to exactly the segment's offset plus its length, never
/// more, never less.
pub proof fn lemma_segment_consumed_exactly(
    d: Seq<u8>,
    segs: Seq<Segment>,
    sv: StreamView,
    i: int,
)
    requires
        0 <= i < segs.len(),
        spec_stream_run(d, segs, sv) is Ok,
    ensures
        ({
            &&& spec_stream_run(d, segs.take(i), sv) matches Ok(svi)
            &&& svi.pos <= segs[i].offset
            &&& spec_stream_step(d, segs[i], svi) matches Ok(svn)
            &&& svn.pos == segs[i].offset + segs[i].len
        }),
{
    lemma_stream_run_decompose(d, segs, sv, i);
    let run_i = spec_stream_run(d, segs.take(i), sv);
    if run_i is Err {
        assert(false);
    }
    let svi = run_i->Ok_0;
    let rest = segs.skip(i);
    assert(rest[0] == segs[i]);
    if spec_stream_step(d, segs[i], svi) is Err {
        assert(false);
    }
}

/// Law: segments reaching the streaming engine out of ascending-offset order
/// never decode successfully, and are never silently skipped or reread: a
/// traversal that completes had its segments in ascending offset order, each
/// consumed exactly once at its own position.
pub proof fn lemma_stream_needs_ascending_offsets(d: Seq<u8>, segs: Seq<Segment>, sv: StreamView)
    requires
        spec_stream_run(d, segs, sv) is Ok,
    ensures
        forall|i: int, j: int|
            0 <= i < j < segs.len() ==> #[trigger] segs[i].offset <= #[trigger] segs[j].offset,
    decreases segs.len(),
{
    if segs.len() > 0 {
        let sv1 = spec_stream_step(d, segs[0], sv)->Ok_0;
        lemma_stream_needs_ascending_offsets(d, segs.drop_first(), sv1);
        lemma_run_segment_bounds(d, segs.drop_first(), sv1);
        assert forall|i: int, j: int| 0 <= i < j < segs.len() implies #[trigger] segs[i].offset
            <= #[trigger] segs[j].offset by {
            if i == 0 {
                assert(segs.drop_first()[j - 1] == segs[j]);
                assert(segs[j].offset >= sv1.pos);
            } else {
                assert(segs.drop_first()[i - 1] == segs[i]);
                assert(segs.drop_first()[j - 1] == segs[j]);
            }
        }
    }
}

/// Law: an input too short for the fixed 26-byte preamble, or too short for
/// one of the descriptors the preamble declares, never yields an archive:
/// both engines fail with the truncation error before any traversal starts.
pub proof fn lemma_short_header_fails(d: Seq<u8>)
    requires
        d.len() < 26 || (spec_magic_ok(d) && d.len() < 26 + 12 * spec_segment_count(d)),
    ensures
        spec_parse_meta(d) == Err::<ArchiveView, DecodeError>(DecodeError::Truncated),
        spec_parse_seekable_meta(d) == Err::<SeekableArchiveView, DecodeError>(
            DecodeError::Truncated,
        ),
{
    assert(spec_header(d) == Err::<Seq<Segment>, DecodeError>(DecodeError::Truncated));
}

/// Law: a truncated container never decodes to an archive: a successful
/// streaming decode implies the input holds the whole preamble and
/// descriptor table, and every listed segment's byte range lies wholly
/// within the input.
pub proof fn lemma_success_needs_complete_input(d: Seq<u8>)
    requires
        spec_parse(d) is Ok,
    ensures
        spec_header(d) is Ok,
        d.len() >= 26 + 12 * spec_segment_count(d),
        forall|i: int|
            0 <= i < spec_segments_in_order(d).len()
                ==> #[trigger] spec_segments_in_order(d)[i].offset
                + spec_segments_in_order(d)[i].len <= d.len(),
{
    let segs = spec_segments_in_order(d);
    lemma_run_segment_bounds(d, segs, crate::applesingle::spec_stream_init(d));
}

/// Whether an optionally captured fork payload and an optionally recorded
/// fork range name the same bytes of `d`.
pub open spec fn fork_bytes_match(d: Seq<u8>, b: Option<Seq<u8>>, e: Option<Entry>) -> bool {
    match (b, e) {
        (Option::None, Option::None) => true,
        (Option::Some(bb), Option::Some(ee)) => ee.offset + ee.len <= d.len() && bb == d.subrange(
            ee.offset as int,
            ee.offset + ee.len,
        ),
        _ => false,
    }
}

/// A streaming run and a seekable run over the same segments, started from
/// agreeing states, stay in step: the seekable run succeeds too, accumulates
/// the same metadata, and its recorded fork ranges name exactly the bytes
/// the streaming run saw.
proof fn lemma_run_agree(d: Seq<u8>, segs: Seq<Segment>, sv: StreamView, kv: SeekView)
    requires
        spec_stream_run(d, segs, sv) is Ok,
        sv.bv == kv.bv,
        fork_bytes_match(d, sv.data, kv.data),
        fork_bytes_match(d, sv.rsrc, kv.rsrc),
    ensures
        spec_stream_run(d, segs, sv) matches Ok(sf)
            && spec_seek_run(d, segs, kv) matches Ok(kf)
            && sf.bv == kf.bv
            && fork_bytes_match(d, sf.data, kf.data)
            && fork_bytes_match(d, sf.rsrc, kf.rsrc),
    decreases segs.len(),
{
    if segs.len() > 0 {
        let sv1 = spec_stream_step(d, segs[0], sv)->Ok_0;
        let kv1 = spec_seek_step(d, segs[0], kv)->Ok_0;
        lemma_run_agree(d, segs.drop_first(), sv1, kv1);
    }
}

/// Law: decoding the same container through the streaming engine and through
/// the seekable engine yields identical metadata, and the fork ranges the
/// seekable engine records name exactly the fork bytes the streaming engine
/// hands out.
pub proof fn lemma_stream_seek_agree(d: Seq<u8>)
    requires
        spec_parse(d) is Ok,
    ensures
        spec_parse(d) matches Ok(sv)
            && spec_parse_seekable(d) matches Ok(kv)
            && sv.bv == kv.bv
            && fork_bytes_match(d, sv.data, kv.data)
            && fork_bytes_match(d, sv.rsrc, kv.rsrc),
{
    let segs = spec_segments_in_order(d);
    lemma_run_agree(
        d,
        segs,
        crate::applesingle::spec_stream_init(d),
        crate::applesingle::spec_seek_init(),
    );
}

/// Law: the archives the two engines yield agree field for field.
pub proof fn lemma_stream_seek_agree_meta(d: Seq<u8>)
    requires
        spec_parse_meta(d) is Ok,
    ensures
        spec_parse_meta(d) matches Ok(av)
            && spec_parse_seekable_meta(d) matches Ok(kav)
            && kav.meta == av,
{
    lemma_stream_seek_agree(d);
}

/// A table held in strictly ascending id order.
pub open spec fn sorted_by_id(t: Seq<Segment>) -> bool {
    forall|i: int, j: int| 0 <= i < j < t.len() ==> #[trigger] t[i].id < #[trigger] t[j].id
}

/// Inserting into an id-sorted table keeps it sorted, and its members are
/// exactly the inserted descriptor plus the old members whose id differs.
proof fn lemma_table_insert_props(t: Seq<Segment>, s: Segment)
    requires
        sorted_by_id(t),
    ensures
        sorted_by_id(spec_table_insert(t, s)),
        forall|x: Segment|
            #[trigger] spec_table_insert(t, s).contains(x) <==> (x == s || (t.contains(x)
                && x.id != s.id)),
    decreases t.len(),
{
    let r = spec_table_insert(t, s);
    if t.len() == 0 {
        assert(r == seq![s]);
        assert(r[0] == s);
        assert forall|x: Segment| #[trigger] r.contains(x) <==> (x == s || (t.contains(x)
            && x.id != s.id)) by {
            if x == s {
                assert(r[0] == x);
            }
        }
    } else if s.id < t[0].id {
        assert(r == seq![s] + t);
        assert forall|x: Segment| #[trigger] r.contains(x) <==> (x == s || (t.contains(x)
            && x.id != s.id)) by {
            if r.contains(x) {
                let i = choose|i: int| 0 <= i < r.len() && r[i] == x;
                if i == 0 {
                    assert(x == s);
                } else {
                    assert(t[i - 1] == x);
                    assert(t.contains(x));
                    if x.id == s.id {
                        if i - 1 > 0 {
                            assert(t[0].id < t[i - 1].id);
                        }
                        assert(false);
                    }
                }
            }
            if x == s {
                assert(r[0] == x);
            }
            if t.contains(x) && x.id != s.id {
                let i = choose|i: int| 0 <= i < t.len() && t[i] == x;
                assert(r[i + 1] == x);
            }
        }
        assert forall|i: int, j: int| 0 <= i < j < r.len() implies #[trigger] r[i].id
            < #[trigger] r[j].id by {
            if i == 0 {
                if j > 1 {
                    assert(t[0].id < t[j - 1].id);
                }
            }
        }
    } else if s.id == t[0].id {
        assert(r == seq![s] + t.drop_first());
        assert forall|x: Segment| #[trigger] r.contains(x) <==> (x == s || (t.contains(x)
            && x.id != s.id)) by {
            if r.contains(x) {
                let i = choose|i: int| 0 <= i < r.len() && r[i] == x;
                if i == 0 {
                    assert(x == s);
                } else {
                    assert(t[i] == x);
                    assert(t.contains(x));
                    assert(t[0].id < t[i].id);
                }
            }
            if x == s {
                assert(r[0] == x);
            }
            if t.contains(x) && x.id != s.id {
                let i = choose|i: int| 0 <= i < t.len() && t[i] == x;
                assert(i != 0);
                assert(r[i] == x);
            }
        }
        assert forall|i: int, j: int| 0 <= i < j < r.len() implies #[trigger] r[i].id
            < #[trigger] r[j].id by {
            if i == 0 {
                assert(r[j] == t[j]);
                assert(t[0].id < t[j].id);
            } else {
                assert(r[i] == t[i] && r[j] == t[j]);
            }
        }
    } else {
        let rest = spec_table_insert(t.drop_first(), s);
        assert(sorted_by_id(t.drop_first())) by {
            assert forall|i: int, j: int|
                0 <= i < j < t.drop_first().len() implies #[trigger] t.drop_first()[i].id
                < #[trigger] t.drop_first()[j].id by {
                assert(t.drop_first()[i] == t[i + 1] && t.drop_first()[j] == t[j + 1]);
            }
        }
        lemma_table_insert_props(t.drop_first(), s);
        assert(r == seq![t[0]] + rest);
        assert forall|x: Segment| #[trigger] r.contains(x) <==> (x == s || (t.contains(x)
            && x.id != s.id)) by {
            if r.contains(x) {
                let i = choose|i: int| 0 <= i < r.len() && r[i] == x;
                if i == 0 {
                    assert(x == t[0]);
                    assert(t.contains(x));
                } else {
                    assert(rest[i - 1] == x);
                    assert(rest.contains(x));
                    if x != s {
                        assert(t.drop_first().contains(x));
                        let k = choose|k: int|
                            0 <= k < t.drop_first().len() && t.drop_first()[k] == x;
                        assert(t[k + 1] == x);
                        assert(t.contains(x));
                    }
                }
            }
            if x == s {
                assert(rest.contains(x));
                let i = choose|i: int| 0 <= i < rest.len() && rest[i] == x;
                assert(r[i + 1] == x);
            }
            if t.contains(x) && x.id != s.id {
                let i = choose|i: int| 0 <= i < t.len() && t[i] == x;
                if i == 0 {
                    assert(r[0] == x);
                } else {
                    assert(t.drop_first()[i - 1] == x);
                    assert(t.drop_first().contains(x));
                    assert(rest.contains(x));
                    let k = choose|k: int| 0 <= k < rest.len() && rest[k] == x;
                    assert(r[k + 1] == x);
                }
            }
        }
        assert forall|i: int, j: int| 0 <= i < j < r.len() implies #[trigger] r[i].id
            < #[trigger] r[j].id by {
            if i == 0 {
                assert(rest[j - 1] == r[j]);
                assert(rest.contains(rest[j - 1]));
                if rest[j - 1] == s {
                    assert(r[j].id > t[0].id);
                } else {
                    assert(t.drop_first().contains(rest[j - 1]));
                    let k = choose|k: int|
                        0 <= k < t.drop_first().len() && t.drop_first()[k] == rest[j - 1];
                    assert(t[k + 1] == rest[j - 1]);
                    assert(t[0].id < t[k + 1].id);
                }
            } else {
                assert(r[i] == rest[i - 1] && r[j] == rest[j - 1]);
            }
        }
    }
}

/// The table a descriptor list builds is held in strictly ascending id order.
pub proof fn lemma_table_sorted(descs: Seq<Segment>)
    ensures
        sorted_by_id(spec_table(descs)),
    decreases descs.len(),
{
    if descs.len() > 0 {
        lemma_table_sorted(descs.drop_last());
        lemma_table_insert_props(spec_table(descs.drop_last()), descs.last());
    }
}

/// The last descriptor read with an id carries that id.
proof fn lemma_last_desc_id(descs: Seq<Segment>, id: u32)
    ensures
        spec_last_desc(descs, id) matches Some(s) ==> s.id == id,
    decreases descs.len(),
{
    if descs.len() > 0 && descs.last().id != id {
        lemma_last_desc_id(descs.drop_last(), id);
    }
}

/// Law: when descriptors share an id, the table retains exactly the last one
/// read: every table member carrying a given id is the last descriptor read
/// with that id, and that descriptor is in the table.
pub proof fn lemma_table_keeps_last(descs: Seq<Segment>, id: u32)
    ensures
        forall|k: int|
            0 <= k < spec_table(descs).len() && #[trigger] spec_table(descs)[k].id == id
                ==> spec_last_desc(descs, id) == Some(spec_table(descs)[k]),
        spec_last_desc(descs, id) matches Some(s) ==> spec_table(descs).contains(s),
    decreases descs.len(),
{
    let t = spec_table(descs);
    if descs.len() > 0 {
        let prev = spec_table(descs.drop_last());
        let s = descs.last();
        lemma_table_keeps_last(descs.drop_last(), id);
        lemma_table_sorted(descs.drop_last());
        lemma_table_insert_props(prev, s);
        assert forall|k: int|
            0 <= k < t.len() && #[trigger] t[k].id == id implies spec_last_desc(descs, id)
            == Some(t[k]) by {
            assert(t.contains(t[k]));
            if t[k] == s {
            } else {
                assert(prev.contains(t[k]) && t[k].id != s.id);
                let j = choose|j: int| 0 <= j < prev.len() && prev[j] == t[k];
                assert(prev[j].id == id);
            }
        }
        if spec_last_desc(descs, id) is Some {
            let w = spec_last_desc(descs, id)->Some_0;
            if s.id == id {
                assert(w == s);
                assert(t.contains(s));
            } else {
                assert(spec_last_desc(descs.drop_last(), id) == Some(w));
                assert(prev.contains(w));
                lemma_last_desc_id(descs.drop_last(), id);
                assert(w.id == id);
                assert(t.contains(w));
            }
        }
    }
}

/// Inserting into an id-sorted table keeps its size when the id was already
/// held, and grows it by one when the id is fresh.
proof fn lemma_table_insert_len(t: Seq<Segment>, s: Segment)
    requires
        sorted_by_id(t),
    ensures
        (exists|i: int| 0 <= i < t.len() && t[i].id == s.id) ==> spec_table_insert(t, s).len()
            == t.len(),
        !(exists|i: int| 0 <= i < t.len() && t[i].id == s.id) ==> spec_table_insert(t, s).len()
            == t.len() + 1,
    decreases t.len(),
{
    if t.len() == 0 {
    } else if s.id < t[0].id {
        if exists|i: int| 0 <= i < t.len() && t[i].id == s.id {
            let i = choose|i: int| 0 <= i < t.len() && t[i].id == s.id;
            if i > 0 {
                assert(t[0].id < t[i].id);
            }
            assert(false);
        }
    } else if s.id == t[0].id {
        assert(t[0].id == s.id);
    } else {
        let front = t.drop_first();
        assert(sorted_by_id(front)) by {
            assert forall|i: int, j: int| 0 <= i < j < front.len() implies #[trigger] front[i].id
                < #[trigger] front[j].id by {
                assert(front[i] == t[i + 1] && front[j] == t[j + 1]);
            }
        }
        lemma_table_insert_len(front, s);
        if exists|i: int| 0 <= i < t.len() && t[i].id == s.id {
            let i = choose|i: int| 0 <= i < t.len() && t[i].id == s.id;
            assert(i != 0);
            assert(front[i - 1].id == s.id);
            assert(exists|k: int| 0 <= k < front.len() && front[k].id == s.id);
        }
        if exists|k: int| 0 <= k < front.len() && front[k].id == s.id {
            let k = choose|k: int| 0 <= k < front.len() && front[k].id == s.id;
            assert(t[k + 1].id == s.id);
            assert(exists|i: int| 0 <= i < t.len() && t[i].id == s.id);
        }
    }
}

/// Law: a descriptor read for an id the table already holds replaces that
/// id's descriptor in place — the earlier descriptor's offset and length are
/// discarded before traversal begins, and the table's size is unchanged — and
/// a descriptor with a fresh id grows the table by one.
pub proof fn lemma_descriptor_replaces_earlier(descs: Seq<Segment>, s: Segment)
    ensures
        spec_table(descs.push(s)).contains(s),
        forall|x: Segment|
            #[trigger] spec_table(descs.push(s)).contains(x) && x.id == s.id ==> x == s,
        (exists|i: int| 0 <= i < spec_table(descs).len() && #[trigger] spec_table(descs)[i].id
            == s.id) ==> spec_table(descs.push(s)).len() == spec_table(descs).len(),
        !(exists|i: int| 0 <= i < spec_table(descs).len() && #[trigger] spec_table(descs)[i].id
            == s.id) ==> spec_table(descs.push(s)).len() == spec_table(descs).len() + 1,
{
    let t = spec_table(descs);
    assert(descs.push(s).drop_last() =~= descs);
    assert(descs.push(s).last() == s);
    assert(spec_table(descs.push(s)) == spec_table_insert(t, s));
    lemma_table_sorted(descs);
    lemma_table_insert_props(t, s);
    lemma_table_insert_len(t, s);
}

/// The big-endian bytes of a 16-bit word.
pub open spec fn be16(v: u16) -> Seq<u8> {
    seq![((v >> 8) & 0xFF) as u8, (v & 0xFF) as u8]
}

/// The big-endian bytes of a 32-bit word.
pub open spec fn be32(v: u32) -> Seq<u8> {
    seq![
        ((v >> 24) & 0xFF) as u8,
        ((v >> 16) & 0xFF) as u8,
        ((v >> 8) & 0xFF) as u8,
        (v & 0xFF) as u8,
    ]
}

/// Reading back the big-endian bytes of a 32-bit word gives the word.
proof fn lemma_be32_at(d: Seq<u8>, i: int, v: u32)
    requires
        0 <= i,
        i + 4 <= d.len(),
        d.subrange(i, i + 4) == be32(v),
    ensures
        be_u32_at(d, i) == v,
{
    assert(d[i] == ((v >> 24) & 0xFF) as u8 && d[i + 1] == ((v >> 16) & 0xFF) as u8
        && d[i + 2] == ((v >> 8) & 0xFF) as u8 && d[i + 3] == (v & 0xFF) as u8) by {
        assert(d.subrange(i, i + 4)[0] == d[i] && d.subrange(i, i + 4)[1] == d[i + 1]
            && d.subrange(i, i + 4)[2] == d[i + 2] && d.subrange(i, i + 4)[3] == d[i + 3]);
    }
    assert((((v >> 24) & 0xFF) as u8 as u32) * 0x100_0000 + (((v >> 16) & 0xFF) as u8 as u32)
        * 0x1_0000 + (((v >> 8) & 0xFF) as u8 as u32) * 0x100 + ((v & 0xFF) as u8 as u32)
        == v) by (bit_vector);
}

/// Reading back the big-endian bytes of a 16-bit word gives the word.
proof fn lemma_be16_at(d: Seq<u8>, i: int, v: u16)
    requires
        0 <= i,
        i + 2 <= d.len(),
        d.subrange(i, i + 2) == be16(v),
    ensures
        be_u16_at(d, i) == v,
{
    assert(d[i] == ((v >> 8) & 0xFF) as u8 && d[i + 1] == (v & 0xFF) as u8) by {
        assert(d.subrange(i, i + 2)[0] == d[i] && d.subrange(i, i + 2)[1] == d[i + 1]);
    }
    assert((((v >> 8) & 0xFF) as u8 as u16) * 0x100 + ((v & 0xFF) as u8 as u16) == v)
        by (bit_vector);
}

/// Reading back the big-endian bytes of a signed 32-bit count gives the count.
proof fn lemma_be32_at_signed(d: Seq<u8>, i: int, v: i32)
    requires
        0 <= i,
        i + 4 <= d.len(),
        d.subrange(i, i + 4) == be32(v as u32),
    ensures
        be_i32_at(d, i) == v,
{
    lemma_be32_at(d, i, v as u32);
    assert(v as u32 as i32 == v) by (bit_vector);
}

/// Reading back the big-endian bytes of a signed 16-bit count gives the count.
proof fn lemma_be16_at_signed(d: Seq<u8>, i: int, v: i16)
    requires
        0 <= i,
        i + 2 <= d.len(),
        d.subrange(i, i + 2) == be16(v as u16),
    ensures
        be_i16_at(d, i) == v,
{
    lemma_be16_at(d, i, v as u16);
    assert(v as u16 as i16 == v) by (bit_vector);
}

/// The encoded bytes of one 12-byte segment descriptor.
pub open spec fn enc_desc(s: Segment) -> Seq<u8> {
    be32(s.id) + be32(s.offset) + be32(s.len)
}

/// The encoded bytes of a 16-byte Finder information block.
pub open spec fn enc_finder_info(fi: FinderInfo) -> Seq<u8> {
    be32(fi.file_type.0.0) + be32(fi.creator.0.0) + be16(fi.flags.0) + be16(
        fi.location.vertical as u16,
    ) + be16(fi.location.horizontal as u16) + be16(fi.folder.0)
}

/// The encoded bytes of a 16-byte file-dates block.
pub open spec fn enc_dates(dt: Dates) -> Seq<u8> {
    be32(dt.create.0 as u32) + be32(dt.modify.0 as u32) + be32(dt.backup.0 as u32) + be32(
        dt.access.0 as u32,
    )
}

/// The encoded bytes of the 4-byte Macintosh file-information word.
pub open spec fn enc_mac_info(mi: MacInfo) -> Seq<u8> {
    be32(mi.0)
}

/// A descriptor whose 12 encoded bytes lie at table slot `k` of `d` is the
/// descriptor the header reader yields for slot `k`.
proof fn lemma_desc_at(d: Seq<u8>, k: int, s: Segment)
    requires
        0 <= k,
        26 + 12 * k + 12 <= d.len(),
        d.subrange(26 + 12 * k, 26 + 12 * k + 12) == enc_desc(s),
    ensures
        spec_desc_at(d, k) == s,
{
    let base = 26 + 12 * k;
    assert(be32(s.id).len() == 4 && be32(s.offset).len() == 4 && be32(s.len).len() == 4);
    assert forall|j: int| 0 <= j < 4 implies d.subrange(base, base + 4)[j] == be32(s.id)[j] by {
        assert(d.subrange(base, base + 12)[j] == d[base + j]);
        assert(d.subrange(base, base + 4)[j] == d[base + j]);
        assert(enc_desc(s)[j] == be32(s.id)[j]);
    }
    assert(d.subrange(base, base + 4) =~= be32(s.id));
    assert forall|j: int|
        0 <= j < 4 implies d.subrange(base + 4, base + 8)[j] == be32(s.offset)[j] by {
        assert(d.subrange(base, base + 12)[j + 4] == d[base + 4 + j]);
        assert(d.subrange(base + 4, base + 8)[j] == d[base + 4 + j]);
        assert(enc_desc(s)[j + 4] == be32(s.offset)[j]);
    }
    assert(d.subrange(base + 4, base + 8) =~= be32(s.offset));
    assert forall|j: int|
        0 <= j < 4 implies d.subrange(base + 8, base + 12)[j] == be32(s.len)[j] by {
        assert(d.subrange(base, base + 12)[j + 8] == d[base + 8 + j]);
        assert(d.subrange(base + 8, base + 12)[j] == d[base + 8 + j]);
        assert(enc_desc(s)[j + 8] == be32(s.len)[j]);
    }
    assert(d.subrange(base + 8, base + 12) =~= be32(s.len));
    lemma_be32_at(d, base, s.id);
    lemma_be32_at(d, base + 4, s.offset);
    lemma_be32_at(d, base + 8, s.len);
}

/// Decoding the encoded bytes of a Finder information block gives back the
/// block.
proof fn lemma_finder_info_round_trip(b: Seq<u8>, fi: FinderInfo)
    requires
        b == enc_finder_info(fi),
    ensures
        spec_finder_info(b) == fi,
{
    assert(b.len() == 16);
    assert(b.subrange(0, 4) =~= be32(fi.file_type.0.0));
    assert(b.subrange(4, 8) =~= be32(fi.creator.0.0));
    assert(b.subrange(8, 10) =~= be16(fi.flags.0));
    assert(b.subrange(10, 12) =~= be16(fi.location.vertical as u16));
    assert(b.subrange(12, 14) =~= be16(fi.location.horizontal as u16));
    assert(b.subrange(14, 16) =~= be16(fi.folder.0));
    lemma_be32_at(b, 0, fi.file_type.0.0);
    lemma_be32_at(b, 4, fi.creator.0.0);
    lemma_be16_at(b, 8, fi.flags.0);
    lemma_be16_at_signed(b, 10, fi.location.vertical);
    lemma_be16_at_signed(b, 12, fi.location.horizontal);
    lemma_be16_at(b, 14, fi.folder.0);
}

/// Decoding the encoded bytes of a file-dates block gives back the block.
proof fn lemma_dates_round_trip(b: Seq<u8>, dt: Dates)
    requires
        b == enc_dates(dt),
    ensures
        spec_dates(b) == dt,
{
    assert(b.len() == 16);
    assert(b.subrange(0, 4) =~= be32(dt.create.0 as u32));
    assert(b.subrange(4, 8) =~= be32(dt.modify.0 as u32));
    assert(b.subrange(8, 12) =~= be32(dt.backup.0 as u32));
    assert(b.subrange(12, 16) =~= be32(dt.access.0 as u32));
    lemma_be32_at_signed(b, 0, dt.create.0);
    lemma_be32_at_signed(b, 4, dt.modify.0);
    lemma_be32_at_signed(b, 8, dt.backup.0);
    lemma_be32_at_signed(b, 12, dt.access.0);
}

/// Decoding the encoded Macintosh file-information word gives back the word.
proof fn lemma_mac_info_round_trip(b: Seq<u8>, mi: MacInfo)
    requires
        b == enc_mac_info(mi),
    ensures
        spec_mac_info(b) == mi,
{
    assert(b.subrange(0, 4) =~= be32(mi.0));
    lemma_be32_at(b, 0, mi.0);
}

/// Inserting a descriptor whose id exceeds every id in a table appends it.
proof fn lemma_table_insert_append(t: Seq<Segment>, s: Segment)
    requires
        forall|i: int| 0 <= i < t.len() ==> #[trigger] t[i].id < s.id,
    ensures
        spec_table_insert(t, s) == t + seq![s],
    decreases t.len(),
{
    if t.len() == 0 {
        assert(spec_table_insert(t, s) =~= t + seq![s]);
    } else {
        assert forall|i: int| 0 <= i < t.drop_first().len() implies #[trigger] t.drop_first()[i].id
            < s.id by {
            assert(t.drop_first()[i] == t[i + 1]);
        }
        lemma_table_insert_append(t.drop_first(), s);
        assert(t[0].id < s.id);
        assert(spec_table_insert(t, s) == seq![t[0]] + (t.drop_first() + seq![s]));
        assert(seq![t[0]] + (t.drop_first() + seq![s]) =~= t + seq![s]);
    }
}

/// A descriptor list already in strictly ascending id order is its own table.
proof fn lemma_table_of_sorted(descs: Seq<Segment>)
    requires
        sorted_by_id(descs),
    ensures
        spec_table(descs) == descs,
    decreases descs.len(),
{
    if descs.len() > 0 {
        let front = descs.drop_last();
        assert(sorted_by_id(front)) by {
            assert forall|i: int, j: int| 0 <= i < j < front.len() implies #[trigger] front[i].id
                < #[trigger] front[j].id by {
                assert(front[i] == descs[i] && front[j] == descs[j]);
            }
        }
        lemma_table_of_sorted(front);
        assert forall|i: int| 0 <= i < front.len() implies #[trigger] front[i].id
            < descs.last().id by {
            assert(front[i] == descs[i]);
        }
        lemma_table_insert_append(front, descs.last());
        assert(front + seq![descs.last()] =~= descs);
    }
}

/// A sequence of segments in strictly ascending traversal order.
pub open spec fn sorted_by_key(t: Seq<Segment>) -> bool {
    forall|i: int, j: int| 0 <= i < j < t.len() ==> spec_key_lt(#[trigger] t[i], #[trigger] t[j])
}

/// Inserting a segment whose traversal key exceeds every key in an ordered
/// sequence appends it.
proof fn lemma_order_insert_append(t: Seq<Segment>, s: Segment)
    requires
        forall|i: int| 0 <= i < t.len() ==> spec_key_lt(#[trigger] t[i], s),
    ensures
        spec_order_insert(t, s) == t + seq![s],
    decreases t.len(),
{
    if t.len() == 0 {
        assert(spec_order_insert(t, s) =~= t + seq![s]);
    } else {
        assert forall|i: int| 0 <= i < t.drop_first().len() implies spec_key_lt(
            #[trigger] t.drop_first()[i],
            s,
        ) by {
            assert(t.drop_first()[i] == t[i + 1]);
        }
        lemma_order_insert_append(t.drop_first(), s);
        assert(spec_key_lt(t[0], s));
        assert(!spec_key_lt(s, t[0]));
        assert(spec_order_insert(t, s) == seq![t[0]] + (t.drop_first() + seq![s]));
        assert(seq![t[0]] + (t.drop_first() + seq![s]) =~= t + seq![s]);
    }
}

/// Splits one link of a concatenation chain: when `q` is a prefix of `d` and
/// `q` ends in the piece `x`, then the rest of `q` is a prefix of `d` too and
/// `x` lies at its position in `d`.
proof fn lemma_chain(d: Seq<u8>, q: Seq<u8>, p: Seq<u8>, x: Seq<u8>)
    requires
        q.len() <= d.len(),
        q == d.subrange(0, q.len() as int),
        q == p + x,
    ensures
        p == d.subrange(0, p.len() as int),
        x == d.subrange(p.len() as int, p.len() + x.len() as int),
{
    assert(p =~= d.subrange(0, p.len() as int));
    assert forall|m: int|
        0 <= m < x.len() implies x[m] == d.subrange(
        p.len() as int,
        p.len() + x.len() as int,
    )[m] by {
        assert(q[p.len() + m] == x[m]);
        assert(d.subrange(0, q.len() as int)[p.len() + m] == d[p.len() + m]);
    }
    assert(x =~= d.subrange(p.len() as int, p.len() + x.len() as int));
}

/// A table already in strictly ascending traversal order is its own
/// traversal sequence.
proof fn lemma_order_of_sorted(t: Seq<Segment>)
    requires
        sorted_by_key(t),
    ensures
        spec_order(t) == t,
    decreases t.len(),
{
    if t.len() > 0 {
        let front = t.drop_last();
        assert(sorted_by_key(front)) by {
            assert forall|i: int, j: int| 0 <= i < j < front.len() implies spec_key_lt(
                #[trigger] front[i],
                #[trigger] front[j],
            ) by {
                assert(front[i] == t[i] && front[j] == t[j]);
            }
        }
        lemma_order_of_sorted(front);
        assert forall|i: int| 0 <= i < front.len() implies spec_key_lt(
            #[trigger] front[i],
            t.last(),
        ) by {
            assert(front[i] == t[i]);
        }
        lemma_order_insert_append(front, t.last());
        assert(front + seq![t.last()] =~= t);
    }
}

/// The seven descriptors of a synthetic container holding every decoded
/// field, its payloads laid out contiguously behind the table in ascending
/// id order: data fork, resource fork, real name, comment, file dates,
/// Finder info, Mac info.
pub open spec fn synth_descs(dlen: int, rlen: int, nlen: int, clen: int) -> Seq<Segment> {
    seq![
        Segment { id: 1, offset: 110, len: dlen as u32 },
        Segment { id: 2, offset: (110 + dlen) as u32, len: rlen as u32 },
        Segment { id: 3, offset: (110 + dlen + rlen) as u32, len: nlen as u32 },
        Segment { id: 4, offset: (110 + dlen + rlen + nlen) as u32, len: clen as u32 },
        Segment { id: 8, offset: (110 + dlen + rlen + nlen + clen) as u32, len: 16 },
        Segment { id: 9, offset: (126 + dlen + rlen + nlen + clen) as u32, len: 16 },
        Segment { id: 10, offset: (142 + dlen + rlen + nlen + clen) as u32, len: 4 },
    ]
}

/// A synthetic container encoding the given set of fork payloads and
/// metadata fields.
#[verifier::opaque]
pub open spec fn enc_container(
    data: Seq<u8>,
    rsrc: Seq<u8>,
    name: Seq<u8>,
    comment: Seq<u8>,
    dt: Dates,
    fi: FinderInfo,
    mi: MacInfo,
) -> Seq<u8> {
    let t = synth_descs(data.len() as int, rsrc.len() as int, name.len() as int, comment.len() as int);
    be32(MAGIC) + be32(VERSION) + Seq::new(16, |i: int| 0u8) + be16(7) + enc_desc(t[0]) + enc_desc(
        t[1],
    ) + enc_desc(t[2]) + enc_desc(t[3]) + enc_desc(t[4]) + enc_desc(t[5]) + enc_desc(t[6]) + data
        + rsrc + name + comment + enc_dates(dt) + enc_finder_info(fi) + enc_mac_info(mi)
}

/// Each piece of a synthetic container lies at its own position of the
/// encoded bytes: the preamble fields, the seven descriptors, and the seven
/// payloads.
proof fn lemma_container_layout(
    data: Seq<u8>,
    rsrc: Seq<u8>,
    name: Seq<u8>,
    comment: Seq<u8>,
    dt: Dates,
    fi: FinderInfo,
    mi: MacInfo,
)
    requires
        146 + data.len() + rsrc.len() + name.len() + comment.len() <= 0xFFFF_FFFF,
    ensures
        ({
            let dlen = data.len() as int;
            let rlen = rsrc.len() as int;
            let nlen = name.len() as int;
            let clen = comment.len() as int;
            let t = synth_descs(dlen, rlen, nlen, clen);
            let d = enc_container(data, rsrc, name, comment, dt, fi, mi);
            &&& d.len() == 146 + dlen + rlen + nlen + clen
            &&& d.subrange(0, 4) == be32(MAGIC)
            &&& d.subrange(4, 8) == be32(VERSION)
            &&& d.subrange(24, 26) == be16(7)
            &&& d.subrange(26, 38) == enc_desc(t[0])
            &&& d.subrange(38, 50) == enc_desc(t[1])
            &&& d.subrange(50, 62) == enc_desc(t[2])
            &&& d.subrange(62, 74) == enc_desc(t[3])
            &&& d.subrange(74, 86) == enc_desc(t[4])
            &&& d.subrange(86, 98) == enc_desc(t[5])
            &&& d.subrange(98, 110) == enc_desc(t[6])
            &&& d.subrange(110, 110 + dlen) == data
            &&& d.subrange(110 + dlen, 110 + dlen + rlen) == rsrc
            &&& d.subrange(110 + dlen + rlen, 110 + dlen + rlen + nlen) == name
            &&& d.subrange(110 + dlen + rlen + nlen, 110 + dlen + rlen + nlen + clen) == comment
            &&& d.subrange(
                110 + dlen + rlen + nlen + clen,
                126 + dlen + rlen + nlen + clen,
            ) == enc_dates(dt)
            &&& d.subrange(
                126 + dlen + rlen + nlen + clen,
                142 + dlen + rlen + nlen + clen,
            ) == enc_finder_info(fi)
            &&& d.subrange(
                142 + dlen + rlen + nlen + clen,
                146 + dlen + rlen + nlen + clen,
            ) == enc_mac_info(mi)
        }),
{
    let dlen = data.len() as int;
    let rlen = rsrc.len() as int;
    let nlen = name.len() as int;
    let clen = comment.len() as int;
    let t = synth_descs(dlen, rlen, nlen, clen);
    let d = enc_container(data, rsrc, name, comment, dt, fi, mi);
    reveal(enc_container);

    let q1 = be32(MAGIC);
    let q2 = q1 + be32(VERSION);
    let q3 = q2 + Seq::new(16, |i: int| 0u8);
    let q4 = q3 + be16(7);
    let q5 = q4 + enc_desc(t[0]);
    let q6 = q5 + enc_desc(t[1]);
    let q7 = q6 + enc_desc(t[2]);
    let q8 = q7 + enc_desc(t[3]);
    let q9 = q8 + enc_desc(t[4]);
    let q10 = q9 + enc_desc(t[5]);
    let q11 = q10 + enc_desc(t[6]);
    let q12 = q11 + data;
    let q13 = q12 + rsrc;
    let q14 = q13 + name;
    let q15 = q14 + comment;
    let q16 = q15 + enc_dates(dt);
    let q17 = q16 + enc_finder_info(fi);
    assert(d == q17 + enc_mac_info(mi));

    assert(q4.len() == 26 && q11.len() == 110);
    assert(q17.len() == 142 + dlen + rlen + nlen + clen);
    assert(d.len() == 146 + dlen + rlen + nlen + clen);

    assert(d == d.subrange(0, d.len() as int)) by {
        assert(d =~= d.subrange(0, d.len() as int));
    }
    lemma_chain(d, d, q17, enc_mac_info(mi));
    lemma_chain(d, q17, q16, enc_finder_info(fi));
    lemma_chain(d, q16, q15, enc_dates(dt));
    lemma_chain(d, q15, q14, comment);
    lemma_chain(d, q14, q13, name);
    lemma_chain(d, q13, q12, rsrc);
    lemma_chain(d, q12, q11, data);
    lemma_chain(d, q11, q10, enc_desc(t[6]));
    lemma_chain(d, q10, q9, enc_desc(t[5]));
    lemma_chain(d, q9, q8, enc_desc(t[4]));
    lemma_chain(d, q8, q7, enc_desc(t[3]));
    lemma_chain(d, q7, q6, enc_desc(t[2]));
    lemma_chain(d, q6, q5, enc_desc(t[1]));
    lemma_chain(d, q5, q4, enc_desc(t[0]));
    lemma_chain(d, q4, q3, be16(7));
    lemma_chain(d, q3, q2, Seq::new(16, |i: int| 0u8));
    lemma_chain(d, q2, q1, be32(VERSION));
}

/// The synthetic descriptors are their own id-keyed table and their own
/// traversal order: ids ascend, and so do the traversal keys.
proof fn lemma_synth_order(dlen: int, rlen: int, nlen: int, clen: int)
    requires
        0 <= dlen,
        0 <= rlen,
        0 <= nlen,
        0 <= clen,
        146 + dlen + rlen + nlen + clen <= 0xFFFF_FFFF,
    ensures
        spec_table(synth_descs(dlen, rlen, nlen, clen)) == synth_descs(dlen, rlen, nlen, clen),
        spec_order(synth_descs(dlen, rlen, nlen, clen)) == synth_descs(dlen, rlen, nlen, clen),
{
    let t = synth_descs(dlen, rlen, nlen, clen);
    assert(t[0].offset == 110 && t[0].len == dlen && t[0].id == 1);
    assert(t[1].offset == 110 + dlen && t[1].len == rlen && t[1].id == 2);
    assert(t[2].offset == 110 + dlen + rlen && t[2].len == nlen && t[2].id == 3);
    assert(t[3].offset == 110 + dlen + rlen + nlen && t[3].len == clen && t[3].id == 4);
    assert(t[4].offset == 110 + dlen + rlen + nlen + clen && t[4].len == 16 && t[4].id == 8);
    assert(t[5].offset == 126 + dlen + rlen + nlen + clen && t[5].len == 16 && t[5].id == 9);
    assert(t[6].offset == 142 + dlen + rlen + nlen + clen && t[6].len == 4 && t[6].id == 10);
    assert(sorted_by_id(t));
    lemma_table_of_sorted(t);
    assert(sorted_by_key(t));
    lemma_order_of_sorted(t);
}

/// The header of a synthetic container decodes to the seven synthetic
/// descriptors.
proof fn lemma_synth_header(
    data: Seq<u8>,
    rsrc: Seq<u8>,
    name: Seq<u8>,
    comment: Seq<u8>,
    dt: Dates,
    fi: FinderInfo,
    mi: MacInfo,
)
    requires
        146 + data.len() + rsrc.len() + name.len() + comment.len() <= 0xFFFF_FFFF,
    ensures
        ({
            let t = synth_descs(
                data.len() as int,
                rsrc.len() as int,
                name.len() as int,
                comment.len() as int,
            );
            let d = enc_container(data, rsrc, name, comment, dt, fi, mi);
            &&& spec_header(d) matches Ok(descs)
            &&& descs == t
            &&& spec_segment_count(d) == 7
        }),
{
    let t = synth_descs(
        data.len() as int,
        rsrc.len() as int,
        name.len() as int,
        comment.len() as int,
    );
    let d = enc_container(data, rsrc, name, comment, dt, fi, mi);
    lemma_container_layout(data, rsrc, name, comment, dt, fi, mi);
    lemma_be32_at(d, 0, MAGIC);
    lemma_be32_at(d, 4, VERSION);
    lemma_be16_at(d, 24, 7);
    assert(spec_segment_count(d) == 7);
    assert(crate::applesingle::spec_magic_ok(d));
    lemma_desc_at(d, 0, t[0]);
    lemma_desc_at(d, 1, t[1]);
    lemma_desc_at(d, 2, t[2]);
    lemma_desc_at(d, 3, t[3]);
    lemma_desc_at(d, 4, t[4]);
    lemma_desc_at(d, 5, t[5]);
    lemma_desc_at(d, 6, t[6]);
    let descs = Seq::new(7 as nat, |k: int| spec_desc_at(d, k));
    assert(descs =~= t);
    assert(spec_header(d) == Ok::<Seq<Segment>, DecodeError>(descs));
}

/// Law (round trip): decoding a synthetic container that encodes a given set
/// of fields — data fork bytes, resource fork bytes, real name, comment,
/// file dates, Finder info, Mac info — reproduces every field and every fork
/// byte exactly; by the engine-agreement law the seekable engine reproduces
/// them too.
#[verifier::rlimit(100)]
pub proof fn lemma_round_trip(
    data: Seq<u8>,
    rsrc: Seq<u8>,
    name: Seq<u8>,
    comment: Seq<u8>,
    dt: Dates,
    fi: FinderInfo,
    mi: MacInfo,
)
    requires
        146 + data.len() + rsrc.len() + name.len() + comment.len() <= 0xFFFF_FFFF,
    ensures
        ({
            let d = enc_container(data, rsrc, name, comment, dt, fi, mi);
            &&& spec_parse(d) matches Ok(sv)
            &&& sv.data == Some(data)
            &&& sv.rsrc == Some(rsrc)
            &&& spec_parse_meta(d) matches Ok(av)
            &&& av.format == crate::applesingle::spec_format_name()
            &&& av.name == Some(name)
            &&& av.comment == Some(comment)
            &&& av.date == Some(dt)
            &&& av.finf == Some(fi)
            &&& av.minf == Some(mi)
        }),
{
    let dlen = data.len() as int;
    let rlen = rsrc.len() as int;
    let nlen = name.len() as int;
    let clen = comment.len() as int;
    let t = synth_descs(dlen, rlen, nlen, clen);
    let d = enc_container(data, rsrc, name, comment, dt, fi, mi);

    lemma_container_layout(data, rsrc, name, comment, dt, fi, mi);
    lemma_synth_header(data, rsrc, name, comment, dt, fi, mi);
    lemma_synth_order(dlen, rlen, nlen, clen);

    assert(t[0].offset == 110 && t[0].len == dlen && t[0].id == 1);
    assert(t[1].offset == 110 + dlen && t[1].len == rlen && t[1].id == 2);
    assert(t[2].offset == 110 + dlen + rlen && t[2].len == nlen && t[2].id == 3);
    assert(t[3].offset == 110 + dlen + rlen + nlen && t[3].len == clen && t[3].id == 4);
    assert(t[4].offset == 110 + dlen + rlen + nlen + clen && t[4].len == 16 && t[4].id == 8);
    assert(t[5].offset == 126 + dlen + rlen + nlen + clen && t[5].len == 16 && t[5].id == 9);
    assert(t[6].offset == 142 + dlen + rlen + nlen + clen && t[6].len == 4 && t[6].id == 10);

    let sv0 = crate::applesingle::spec_stream_init(d);
    assert(sv0.pos == 110);
    let bv0 = sv0.bv;
    let sv1 = StreamView { bv: bv0, pos: 110 + dlen, data: Some(data), rsrc: None };
    let sv2 = StreamView { bv: bv0, pos: 110 + dlen + rlen, data: Some(data), rsrc: Some(rsrc) };
    let bv3 = crate::archive::BuilderView { name: Some(name), ..bv0 };
    let sv3 = StreamView {
        bv: bv3,
        pos: 110 + dlen + rlen + nlen,
        data: Some(data),
        rsrc: Some(rsrc),
    };
    let bv4 = crate::archive::BuilderView { comment: Some(comment), ..bv3 };
    let sv4 = StreamView {
        bv: bv4,
        pos: 110 + dlen + rlen + nlen + clen,
        data: Some(data),
        rsrc: Some(rsrc),
    };
    let bv5 = crate::archive::BuilderView { date: Some(dt), ..bv4 };
    let sv5 = StreamView {
        bv: bv5,
        pos: 126 + dlen + rlen + nlen + clen,
        data: Some(data),
        rsrc: Some(rsrc),
    };
    let bv6 = crate::archive::BuilderView { finf: Some(fi), ..bv5 };
    let sv6 = StreamView {
        bv: bv6,
        pos: 142 + dlen + rlen + nlen + clen,
        data: Some(data),
        rsrc: Some(rsrc),
    };
    let bv7 = crate::archive::BuilderView { minf: Some(mi), ..bv6 };
    let sv7 = StreamView {
        bv: bv7,
        pos: 146 + dlen + rlen + nlen + clen,
        data: Some(data),
        rsrc: Some(rsrc),
    };

    assert(spec_stream_step(d, t[0], sv0) == Ok::<StreamView, DecodeError>(sv1));
    assert(spec_stream_step(d, t[1], sv1) == Ok::<StreamView, DecodeError>(sv2));
    assert(spec_stream_step(d, t[2], sv2) == Ok::<StreamView, DecodeError>(sv3));
    assert(spec_stream_step(d, t[3], sv3) == Ok::<StreamView, DecodeError>(sv4));
    assert(spec_stream_step(d, t[4], sv4) == Ok::<StreamView, DecodeError>(sv5)) by {
        lemma_dates_round_trip(
            d.subrange(110 + dlen + rlen + nlen + clen, 126 + dlen + rlen + nlen + clen),
            dt,
        );
    }
    assert(spec_stream_step(d, t[5], sv5) == Ok::<StreamView, DecodeError>(sv6)) by {
        lemma_finder_info_round_trip(
            d.subrange(126 + dlen + rlen + nlen + clen, 142 + dlen + rlen + nlen + clen),
            fi,
        );
    }
    assert(spec_stream_step(d, t[6], sv6) == Ok::<StreamView, DecodeError>(sv7)) by {
        lemma_mac_info_round_trip(
            d.subrange(142 + dlen + rlen + nlen + clen, 146 + dlen + rlen + nlen + clen),
            mi,
        );
    }

    let t1 = t.drop_first();
    let t2 = t1.drop_first();
    let t3 = t2.drop_first();
    let t4 = t3.drop_first();
    let t5 = t4.drop_first();
    let t6 = t5.drop_first();
    assert(t1[0] == t[1] && t2[0] == t[2] && t3[0] == t[3] && t4[0] == t[4] && t5[0] == t[5]
        && t6[0] == t[6]);
    assert(t6.drop_first() =~= Seq::<Segment>::empty());
    assert(spec_stream_run(d, t6.drop_first(), sv7) == Ok::<StreamView, DecodeError>(sv7));
    assert(spec_stream_run(d, t6, sv6) == Ok::<StreamView, DecodeError>(sv7));
    assert(spec_stream_run(d, t5, sv5) == Ok::<StreamView, DecodeError>(sv7));
    assert(spec_stream_run(d, t4, sv4) == Ok::<StreamView, DecodeError>(sv7));
    assert(spec_stream_run(d, t3, sv3) == Ok::<StreamView, DecodeError>(sv7));
    assert(spec_stream_run(d, t2, sv2) == Ok::<StreamView, DecodeError>(sv7));
    assert(spec_stream_run(d, t1, sv1) == Ok::<StreamView, DecodeError>(sv7));
    assert(spec_stream_run(d, t, sv0) == Ok::<StreamView, DecodeError>(sv7));

    assert(spec_parse(d) == Ok::<StreamView, DecodeError>(sv7));
    assert(sv7.bv.finish() is Some);
}

} // verus!
