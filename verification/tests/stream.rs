use forkcordion::applesingle::{parse, parse_seekable, Fork, Handler};
use forkcordion::io::CountingReader;
use forkcordion::{
    ArchiveBuilder, Comment, DataFork, DecodeError, Entry, Filename, Format, ForkExt, Header,
    ResourceFork,
};

/// A handler that accepts every fork and captures what it is handed.
struct CaptureAll {
    data: Option<Vec<u8>>,
    rsrc: Option<Vec<u8>>,
    others: Vec<(u32, Vec<u8>)>,
}

impl Handler for CaptureAll {
    fn sink(&mut self, _fork: Fork) -> bool {
        true
    }

    fn write(&mut self, fork: Fork, payload: &[u8]) {
        match fork {
            Fork::Data => self.data = Some(payload.to_vec()),
            Fork::Rsrc => self.rsrc = Some(payload.to_vec()),
            Fork::Other(id) => self.others.push((id, payload.to_vec())),
        }
    }
}

/// A handler that declines every fork.
struct DeclineAll;

impl Handler for DeclineAll {
    fn sink(&mut self, _fork: Fork) -> bool {
        false
    }

    fn write(&mut self, _fork: Fork, _payload: &[u8]) {
        panic!("write without a sink");
    }
}

fn synth(entries: &[(u32, Vec<u8>)]) -> Vec<u8> {
    let mut out = vec![0x00, 0x05, 0x16, 0x00, 0x00, 0x02, 0x00, 0x00];
    out.extend_from_slice(&[0u8; 16]);
    out.extend_from_slice(&(entries.len() as u16).to_be_bytes());
    let mut offset = 26 + 12 * entries.len() as u32;
    for (id, payload) in entries {
        out.extend_from_slice(&id.to_be_bytes());
        out.extend_from_slice(&offset.to_be_bytes());
        out.extend_from_slice(&(payload.len() as u32).to_be_bytes());
        offset += payload.len() as u32;
    }
    for (_, payload) in entries {
        out.extend_from_slice(payload);
    }
    out
}

#[test]
fn handler_receives_each_fork_it_asked_for() {
    let container = synth(&[
        (1, b"data bytes".to_vec()),
        (2, b"rsrc bytes".to_vec()),
        (5, vec![9, 9]),
        (99, vec![7]),
        (3, b"name".to_vec()),
    ]);
    let mut handler = CaptureAll { data: None, rsrc: None, others: Vec::new() };
    let archive = parse(&container, &mut handler).expect("well-formed");
    assert_eq!(archive.name().unwrap().0, b"name".to_vec());
    assert_eq!(handler.data.unwrap(), b"data bytes".to_vec());
    assert_eq!(handler.rsrc.unwrap(), b"rsrc bytes".to_vec());
    assert_eq!(handler.others, vec![(5, vec![9, 9]), (99, vec![7])]);
}

#[test]
fn declined_forks_are_drained_and_the_decode_completes() {
    let container = synth(&[(1, b"data".to_vec()), (3, b"name".to_vec())]);
    let mut handler = DeclineAll;
    let archive = parse(&container, &mut handler).expect("well-formed");
    assert_eq!(archive.name().unwrap().0, b"name".to_vec());
}

#[test]
fn streaming_handler_and_seekable_forks_agree() {
    let container = synth(&[
        (4, b"note".to_vec()),
        (1, b"the data".to_vec()),
        (2, b"the rsrc".to_vec()),
    ]);
    let mut handler = CaptureAll { data: None, rsrc: None, others: Vec::new() };
    let streamed = parse(&container, &mut handler).expect("well-formed");
    let seekable = parse_seekable(container).expect("well-formed");
    assert_eq!(streamed.comment(), seekable.comment());
    assert_eq!(handler.data.unwrap(), seekable.data_fork().unwrap().unwrap());
    assert_eq!(handler.rsrc.unwrap(), seekable.rsrc_fork().unwrap().unwrap());
}

#[test]
fn segments_are_visited_in_ascending_offset_order() {
    // The table lists the comment before the name, but the name's payload
    // lies first; the forward-only pass must reorder by offset, so both
    // decode and the metadata comes out right.
    let payloads = [b"name!".to_vec(), b"comment!".to_vec()];
    let name_off = 26 + 24u32;
    let comment_off = name_off + payloads[0].len() as u32;
    let mut container = vec![0x00, 0x05, 0x16, 0x00, 0x00, 0x02, 0x00, 0x00];
    container.extend_from_slice(&[0u8; 16]);
    container.extend_from_slice(&2u16.to_be_bytes());
    container.extend_from_slice(&4u32.to_be_bytes());
    container.extend_from_slice(&comment_off.to_be_bytes());
    container.extend_from_slice(&(payloads[1].len() as u32).to_be_bytes());
    container.extend_from_slice(&3u32.to_be_bytes());
    container.extend_from_slice(&name_off.to_be_bytes());
    container.extend_from_slice(&(payloads[0].len() as u32).to_be_bytes());
    container.extend_from_slice(&payloads[0]);
    container.extend_from_slice(&payloads[1]);

    let mut handler = DeclineAll;
    let archive = parse(&container, &mut handler).expect("well-formed");
    assert_eq!(archive.name().unwrap().0, b"name!".to_vec());
    assert_eq!(archive.comment().unwrap().0, b"comment!".to_vec());
}

#[test]
fn counting_reader_never_rewinds() {
    let bytes = [1u8, 2, 3, 4, 5, 6, 7, 8];
    let mut reader = CountingReader::new(&bytes);
    assert_eq!(reader.count(), 0);
    assert!(reader.skip_to(4).is_ok());
    assert_eq!(reader.count(), 4);
    assert_eq!(reader.skip_to(2).unwrap_err(), DecodeError::OutOfOrder);
    assert_eq!(reader.count(), 4);
    assert_eq!(reader.skip_to(9).unwrap_err(), DecodeError::Truncated);
    assert_eq!(reader.take_slice(2).unwrap(), &[5, 6]);
    assert_eq!(reader.take_slice(3).unwrap_err(), DecodeError::Truncated);
    assert_eq!(reader.take_slice(2).unwrap(), &[7, 8]);
}

#[test]
fn counting_reader_reads_big_endian_words() {
    let bytes = [0x12u8, 0x34, 0x56, 0x78, 0x9A, 0xBC];
    let mut reader = CountingReader::new(&bytes);
    assert_eq!(reader.read_u16().unwrap(), 0x1234);
    assert_eq!(reader.read_u32().unwrap(), 0x56789ABC);
    assert_eq!(reader.read_u16().unwrap_err(), DecodeError::Truncated);
}

#[test]
fn seekable_builder_hands_out_entry_regions() {
    let builder = forkcordion::SeekableArchive::builder(vec![0u8, 1, 2, 3, 4, 5]);
    let region = builder.entry(Entry { id: 1, offset: 2, len: 3 }).unwrap();
    assert_eq!(region, vec![2, 3, 4]);
    let past_end = builder.entry(Entry { id: 1, offset: 4, len: 3 });
    assert_eq!(past_end.unwrap_err(), DecodeError::Truncated);
}

#[test]
fn builder_without_a_format_yields_nothing() {
    let builder = ArchiveBuilder::new();
    assert!(builder.build().is_none());
}

#[test]
fn builder_with_a_format_yields_its_fields() {
    let mut builder = ArchiveBuilder::new();
    builder.format(Format("AppleSingle"));
    builder.name(Filename(b"n".to_vec()));
    builder.comment(Comment(b"c".to_vec()));
    let archive = builder.build().expect("format was set");
    assert_eq!(archive.format().0, "AppleSingle");
    assert_eq!(archive.name().unwrap().0, b"n".to_vec());
    assert_eq!(archive.comment().unwrap().0, b"c".to_vec());
    assert!(archive.dates().is_none());
}

#[test]
fn header_accumulates_entries() {
    let mut header = Header::new();
    header.add_entry(Entry { id: 1, offset: 26, len: 4 });
    header.add_entry(Entry { id: 2, offset: 30, len: 0 });
    assert_eq!(header.entries.len(), 2);
    assert_eq!(header.entries[0].id, 1);
    assert_eq!(header.entries[1].offset, 30);
}

#[test]
fn fork_ext_tags_a_carrier() {
    let data: DataFork<Vec<u8>> = vec![1u8, 2].data_fork();
    let rsrc: ResourceFork<Vec<u8>> = vec![3u8].rsrc_fork();
    assert_eq!(data.0, vec![1, 2]);
    assert_eq!(rsrc.0, vec![3]);
}
