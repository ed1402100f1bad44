use forkcordion::applesingle::{parse_captured, parse_seekable};
use forkcordion::{Date, DecodeError, Entry, FourCC};

/// Builds a container whose payloads follow the descriptor table
/// contiguously, in the order given.
fn synth(entries: &[(u32, Vec<u8>)]) -> Vec<u8> {
    let mut out = vec![0x00, 0x05, 0x16, 0x00, 0x00, 0x02, 0x00, 0x00];
    out.extend_from_slice(&[0u8; 16]);
    out.extend_from_slice(&(entries.len() as u16).to_be_bytes());
    let mut offset = 26 + 12 * entries.len() as u32;
    for (id, payload) in entries {
        out.extend_from_slice(&id.to_be_bytes());
        out.extend_from_slice(&offset.to_be_bytes());
        out.extend_from_slice(&(payload.len() as u32).to_be_bytes());
        offset += payload.len() as u32;
    }
    for (_, payload) in entries {
        out.extend_from_slice(payload);
    }
    out
}

/// Builds a container from explicit descriptors and an explicit body placed
/// right after the table.
fn synth_raw(descs: &[(u32, u32, u32)], body: &[u8]) -> Vec<u8> {
    let mut out = vec![0x00, 0x05, 0x16, 0x00, 0x00, 0x02, 0x00, 0x00];
    out.extend_from_slice(&[0u8; 16]);
    out.extend_from_slice(&(descs.len() as u16).to_be_bytes());
    for (id, offset, len) in descs {
        out.extend_from_slice(&id.to_be_bytes());
        out.extend_from_slice(&offset.to_be_bytes());
        out.extend_from_slice(&len.to_be_bytes());
    }
    out.extend_from_slice(body);
    out
}

fn finf_block() -> Vec<u8> {
    vec![
        b'T', b'E', b'X', b'T', b't', b't', b'x', b't', 0x80, 0x00, 0x00, 0x01, 0x00, 0x02, 0x00,
        0x07,
    ]
}

fn dates_block() -> Vec<u8> {
    let mut b = Vec::new();
    b.extend_from_slice(&0i32.to_be_bytes());
    b.extend_from_slice(&1i32.to_be_bytes());
    b.extend_from_slice(&(-1i32).to_be_bytes());
    b.extend_from_slice(&1000i32.to_be_bytes());
    b
}

#[test]
fn round_trip_reproduces_every_field_and_fork_byte() {
    let data_fork = b"the data fork bytes".to_vec();
    let rsrc_fork = b"resource!".to_vec();
    let container = synth(&[
        (3, b"file.txt".to_vec()),
        (4, b"a comment".to_vec()),
        (8, dates_block()),
        (9, finf_block()),
        (10, vec![0x00, 0x00, 0x00, 0x03]),
        (1, data_fork.clone()),
        (2, rsrc_fork.clone()),
    ]);

    let (archive, df, rf) = parse_captured(&container, true, true).expect("well-formed");
    assert_eq!(archive.format().0, "AppleSingle");
    assert_eq!(archive.name().unwrap().0, b"file.txt".to_vec());
    assert_eq!(archive.comment().unwrap().0, b"a comment".to_vec());
    let dates = archive.dates().unwrap();
    assert_eq!(dates.create, Date(0));
    assert_eq!(dates.modify, Date(1));
    assert_eq!(dates.backup, Date(-1));
    assert_eq!(dates.access, Date(1000));
    let finf = archive.finder_info().unwrap();
    assert_eq!(finf.file_type.0, FourCC(0x54455854));
    assert_eq!(finf.creator.0, FourCC(0x74747874));
    assert!(finf.flags.is_alias());
    assert_eq!(finf.location.vertical, 1);
    assert_eq!(finf.location.horizontal, 2);
    assert_eq!(finf.folder.0, 7);
    let minf = archive.mac_info().unwrap();
    assert!(minf.is_locked());
    assert!(minf.is_protected());
    assert_eq!(df.unwrap(), data_fork);
    assert_eq!(rf.unwrap(), rsrc_fork);
}

#[test]
fn both_engines_yield_identical_metadata_and_fork_bytes() {
    let container = synth(&[
        (3, b"name".to_vec()),
        (9, finf_block()),
        (1, b"data data".to_vec()),
        (2, b"rsrc rsrc rsrc".to_vec()),
    ]);

    let (streamed, df, rf) = parse_captured(&container, true, true).expect("well-formed");
    let seekable = parse_seekable(container.clone()).expect("well-formed");

    assert_eq!(streamed.format().0, seekable.format().0);
    assert_eq!(streamed.name(), seekable.name());
    assert_eq!(streamed.comment(), seekable.comment());
    assert_eq!(streamed.dates(), seekable.dates());
    assert_eq!(streamed.finder_info(), seekable.finder_info());
    assert_eq!(streamed.mac_info(), seekable.mac_info());
    assert_eq!(df.unwrap(), seekable.data_fork().unwrap().unwrap());
    assert_eq!(rf.unwrap(), seekable.rsrc_fork().unwrap().unwrap());
}

#[test]
fn seekable_forks_can_be_read_repeatedly() {
    let container = synth(&[(1, b"payload".to_vec())]);
    let archive = parse_seekable(container).expect("well-formed");
    assert_eq!(archive.data_fork().unwrap().unwrap(), b"payload".to_vec());
    assert_eq!(archive.data_fork().unwrap().unwrap(), b"payload".to_vec());
    assert!(archive.rsrc_fork().unwrap().is_none());
}

#[test]
fn empty_table_yields_only_the_format_tag() {
    let container = synth(&[]);
    let (archive, df, rf) = parse_captured(&container, true, true).expect("well-formed");
    assert_eq!(archive.format().0, "AppleSingle");
    assert!(archive.name().is_none());
    assert!(archive.comment().is_none());
    assert!(archive.dates().is_none());
    assert!(archive.finder_info().is_none());
    assert!(archive.mac_info().is_none());
    assert!(df.is_none());
    assert!(rf.is_none());
}

#[test]
fn bad_magic_is_a_format_mismatch() {
    let mut container = synth(&[]);
    container[0] = 0xFF;
    assert_eq!(parse_captured(&container, false, false).unwrap_err(), DecodeError::FormatMismatch);
}

#[test]
fn bad_version_is_a_format_mismatch() {
    let mut container = synth(&[]);
    container[5] = 0x03;
    assert_eq!(parse_captured(&container, false, false).unwrap_err(), DecodeError::FormatMismatch);
}

#[test]
fn short_preamble_is_truncated_even_with_bad_magic() {
    let container = vec![0xFFu8; 10];
    assert_eq!(parse_captured(&container, false, false).unwrap_err(), DecodeError::Truncated);
}

#[test]
fn short_descriptor_table_is_truncated() {
    let mut container = synth(&[(3, b"name".to_vec())]);
    container.truncate(30);
    assert_eq!(parse_captured(&container, false, false).unwrap_err(), DecodeError::Truncated);
}

#[test]
fn payload_past_the_end_is_truncated() {
    let mut container = synth(&[(1, b"0123456789".to_vec())]);
    container.truncate(container.len() - 3);
    assert_eq!(parse_captured(&container, true, true).unwrap_err(), DecodeError::Truncated);
    assert_eq!(parse_seekable(container).unwrap_err(), DecodeError::Truncated);
}

#[test]
fn unread_fork_past_the_end_still_fails() {
    // The fork is never asked for; its declared extent alone must fail the
    // decode.
    let mut container = synth(&[(1, b"0123456789".to_vec())]);
    container.truncate(container.len() - 3);
    assert_eq!(parse_captured(&container, false, false).unwrap_err(), DecodeError::Truncated);
}

#[test]
fn overlapping_segments_are_out_of_order() {
    // Two segments share an offset and both have bytes: whichever is visited
    // second would need the cursor to move backwards.
    let body = vec![0xAAu8; 10];
    let off = 26 + 24;
    let container = synth_raw(&[(3, off, 10), (4, off, 10)], &body);
    assert_eq!(parse_captured(&container, false, false).unwrap_err(), DecodeError::OutOfOrder);
}

#[test]
fn segment_inside_the_descriptor_table_is_out_of_order() {
    let container = synth_raw(&[(3, 4, 4)], &[]);
    assert_eq!(parse_captured(&container, false, false).unwrap_err(), DecodeError::OutOfOrder);
}

#[test]
fn later_descriptor_wins_for_a_shared_id() {
    let container = synth(&[(3, b"first".to_vec()), (3, b"second".to_vec())]);
    let (archive, _, _) = parse_captured(&container, false, false).expect("well-formed");
    assert_eq!(archive.name().unwrap().0, b"second".to_vec());
}

#[test]
fn finder_segment_longer_than_its_block_still_lands_at_its_end() {
    // The Finder block reads 16 of the segment's 20 bytes; the cursor must
    // land at the segment's declared end, so the next segment decodes.
    let mut finf = finf_block();
    finf.extend_from_slice(&[0xEE; 4]);
    let container = synth(&[(9, finf), (3, b"after".to_vec())]);
    let (archive, _, _) = parse_captured(&container, false, false).expect("well-formed");
    assert!(archive.finder_info().is_some());
    assert_eq!(archive.name().unwrap().0, b"after".to_vec());
}

#[test]
fn finder_segment_shorter_than_its_block_is_truncated() {
    let container = synth(&[(9, vec![0u8; 12])]);
    assert_eq!(parse_captured(&container, false, false).unwrap_err(), DecodeError::Truncated);
}

#[test]
fn dates_segment_shorter_than_its_block_is_truncated() {
    let container = synth(&[(8, vec![0u8; 15])]);
    assert_eq!(parse_captured(&container, false, false).unwrap_err(), DecodeError::Truncated);
}

#[test]
fn mac_info_segment_shorter_than_its_word_is_truncated() {
    let container = synth(&[(10, vec![0u8; 3])]);
    assert_eq!(parse_captured(&container, false, false).unwrap_err(), DecodeError::Truncated);
}

#[test]
fn icon_and_unknown_segments_are_preserved_opaquely() {
    // Icons and unrecognized ids decode as uninterpreted segments and leave
    // the metadata untouched.
    let container = synth(&[(5, vec![1, 2, 3]), (99, vec![4, 5, 6]), (3, b"n".to_vec())]);
    let (archive, df, rf) = parse_captured(&container, true, true).expect("well-formed");
    assert_eq!(archive.name().unwrap().0, b"n".to_vec());
    assert!(df.is_none());
    assert!(rf.is_none());
}

#[test]
fn entry_limit_caps_at_its_length() {
    let entry = Entry { id: 1, offset: 0, len: 4 };
    let stream = [1u8, 2, 3, 4, 5, 6];
    assert_eq!(entry.limit(&stream), &[1, 2, 3, 4]);
    let short = [1u8, 2];
    assert_eq!(entry.limit(&short), &[1, 2]);
}

#[test]
fn entry_fixate_captures_its_exact_region() {
    let entry = Entry { id: 1, offset: 2, len: 3 };
    let stream = [0u8, 1, 2, 3, 4, 5];
    assert_eq!(entry.fixate(&stream).unwrap(), &[2, 3, 4]);
    let short = [0u8, 1, 2, 3];
    assert_eq!(entry.fixate(&short).unwrap_err(), DecodeError::Truncated);
}
