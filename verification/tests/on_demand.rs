use riffu::chunk_id::ChunkIdDisk;
use riffu::error::RiffError;
use riffu::riff_disk::{Chunk, Riff, Span, Step};
use std::rc::Rc;

fn record(id: &[u8; 4], payload: &[u8]) -> Vec<u8> {
    let mut bytes = id.to_vec();
    bytes.extend_from_slice(&(payload.len() as u32).to_le_bytes());
    bytes.extend_from_slice(payload);
    if payload.len() % 2 == 1 {
        bytes.push(0);
    }
    bytes
}

fn four(source: &[u8], at: u64) -> Option<[u8; 4]> {
    let at = at as usize;
    let bytes = source.get(at..at + 4)?;
    Some([bytes[0], bytes[1], bytes[2], bytes[3]])
}

fn source() -> Rc<Vec<u8>> {
    let mut payload = b"smpl".to_vec();
    payload.extend_from_slice(&record(b"tst1", &[255]));
    payload.extend_from_slice(&record(b"tst2", &[238, 1]));
    Rc::new(record(b"RIFF", &payload))
}

#[test]
fn chunk_id_on_disk_keeps_offset_and_source() {
    let reader = Rc::new(vec![1u8, 2, 3]);
    let id = ChunkIdDisk::new(reader.clone(), 17);
    assert_eq!(id.pos(), 17);
    assert!(Rc::ptr_eq(id.reader(), &reader));
}

#[test]
fn header_on_demand() {
    let reader = source();
    assert_eq!(Chunk::<Vec<u8>>::header_offset(0), 4);
    assert_eq!(Chunk::<Vec<u8>>::header_offset(u32::MAX), u32::MAX as u64 + 4);
    let root = Chunk::from_header(reader.clone(), 0, four(&reader, 4).unwrap());
    assert_eq!(root.len(), 24);
    assert!(!root.is_empty());
    assert_eq!(root.offset(), 0);
    assert_eq!(root.id().pos(), 0);
    assert!(Rc::ptr_eq(root.id().reader(), &reader));
    let tag = root.get_child_id().unwrap();
    assert_eq!(tag.pos(), 8);
    assert!(Rc::ptr_eq(tag.reader(), &reader));
    let empty = Chunk::from_header(reader.clone(), 40, [0, 0, 0, 0]);
    assert!(empty.is_empty());
    assert_eq!(empty.offset(), 40);
    let big = Chunk::from_header(reader, 0, [0x78, 0x56, 0x34, 0x12]);
    assert_eq!(big.len(), 0x12345678);
}

#[test]
fn type_tag_on_demand_needs_room() {
    let reader = source();
    let short = Chunk::from_header(reader.clone(), 0, [3, 0, 0, 0]);
    assert_eq!(short.get_child_id().err(), Some(RiffError::InsufficientBytes));
    assert_eq!(
        short.content_span_typed(),
        Err(RiffError::InsufficientBytes)
    );
    let far = Chunk::from_header(reader, u32::MAX - 7, [4, 0, 0, 0]);
    assert_eq!(far.get_child_id().err(), Some(RiffError::InsufficientBytes));
}

#[test]
fn content_spans() {
    let reader = source();
    let root = Chunk::from_header(reader.clone(), 0, four(&reader, 4).unwrap());
    assert_eq!(
        root.content_span_typed(),
        Ok(Span { start: 12, len: 20 })
    );
    assert_eq!(root.content_span_untyped(), Span { start: 8, len: 24 });
    let far = Chunk::from_header(reader, u32::MAX, [4, 0, 0, 0]);
    assert_eq!(
        far.content_span_typed(),
        Ok(Span { start: u32::MAX as u64 + 12, len: 0 })
    );
}

#[test]
fn typed_walk_on_demand() {
    let reader = source();
    let riff = Riff::from_file(reader.to_vec());
    let root = riff.get_chunk(four(&reader, 4).unwrap());
    assert_eq!(root.offset(), 0);
    assert_eq!(root.len(), 24);
    let mut walk = root.iter_type();
    assert_eq!(walk.pending(), Step::ReadHeader(16));
    let first = walk.next(four(&reader, 16)).unwrap().unwrap();
    assert_eq!((first.offset(), first.len()), (12, 1));
    assert_eq!(walk.pending(), Step::ReadHeader(26));
    let second = walk.next(four(&reader, 26)).unwrap().unwrap();
    assert_eq!((second.offset(), second.len()), (22, 2));
    assert_eq!(walk.pending(), Step::Stop);
    assert!(walk.next(None).is_none());
    assert!(walk.next(Some([0, 0, 0, 0])).is_none());
    assert_eq!(first.content_span_untyped(), Span { start: 20, len: 1 });
}

#[test]
fn untyped_walk_on_demand() {
    let inner = [record(b"one ", &[1, 2, 3]), record(b"two ", &[])].concat();
    let reader = Rc::new(record(b"SEQT", &inner));
    let root = Chunk::from_header(reader.clone(), 0, four(&reader, 4).unwrap());
    let mut walk = root.iter_notype();
    assert_eq!(walk.pending(), Step::ReadHeader(12));
    let first = walk.next(four(&reader, 12)).unwrap().unwrap();
    assert_eq!((first.offset(), first.len()), (8, 3));
    assert_eq!(walk.pending(), Step::ReadHeader(24));
    let second = walk.next(four(&reader, 24)).unwrap().unwrap();
    assert_eq!((second.offset(), second.len()), (20, 0));
    assert_eq!(walk.pending(), Step::Stop);
    assert!(walk.next(None).is_none());
}

#[test]
fn walk_on_demand_ends_with_one_error() {
    let reader = source();
    let root = Chunk::from_header(reader.clone(), 0, four(&reader, 4).unwrap());
    let mut walk = root.iter_type();
    assert_eq!(
        walk.next(Some([200, 0, 0, 0])).unwrap().err(),
        Some(RiffError::InsufficientBytes)
    );
    assert_eq!(walk.pending(), Step::Stop);
    assert!(walk.next(four(&reader, 16)).is_none());

    let mut walk = root.iter_type();
    assert_eq!(
        walk.next(None).unwrap().err(),
        Some(RiffError::InsufficientBytes)
    );
    assert_eq!(walk.pending(), Step::Stop);
    assert!(walk.next(None).is_none());
}

#[test]
fn walk_on_demand_without_room_for_a_header() {
    let reader = Rc::new(record(b"SEQT", &[1, 2, 3, 4, 5, 6]));
    let root = Chunk::from_header(reader.clone(), 0, four(&reader, 4).unwrap());
    let mut walk = root.iter_notype();
    assert_eq!(walk.pending(), Step::Fail);
    assert_eq!(
        walk.next(None).unwrap().err(),
        Some(RiffError::InsufficientBytes)
    );
    assert_eq!(walk.pending(), Step::Stop);
    assert!(walk.next(None).is_none());
}

#[test]
fn walk_on_demand_of_short_containers() {
    let reader = source();
    for len in 0..=4u8 {
        let list = Chunk::from_header(reader.clone(), 0, [len, 0, 0, 0]);
        let mut walk = list.iter_type();
        assert_eq!(walk.pending(), Step::Stop);
        assert!(walk.next(None).is_none());
    }
    let seqt = Chunk::from_header(reader, 0, [0, 0, 0, 0]);
    assert_eq!(seqt.iter_notype().pending(), Step::Stop);
}

#[test]
fn child_on_demand_must_end_within_the_walk() {
    let reader = Rc::new(record(b"SEQT", &record(b"data", &[1, 2, 3, 4])));
    let root = Chunk::from_header(reader.clone(), 0, four(&reader, 4).unwrap());
    let mut walk = root.iter_notype();
    let child = walk.next(Some([4, 0, 0, 0])).unwrap().unwrap();
    assert_eq!((child.offset(), child.len()), (8, 4));
    let mut walk = root.iter_notype();
    assert_eq!(
        walk.next(Some([5, 0, 0, 0])).unwrap().err(),
        Some(RiffError::InsufficientBytes)
    );
    let mut walk = root.iter_notype();
    let child = walk.next(Some([3, 0, 0, 0])).unwrap().unwrap();
    assert_eq!(child.len(), 3);
    assert_eq!(walk.pending(), Step::Stop);
}
