use riffu::chunk_id::{ChunkId, ChunkType, LIST_ID, RIFF_ID, SEQT_ID};
use riffu::error::RiffError;

#[test]
fn chunkid_from_str() {
    assert_eq!(ChunkId::new("RIFF").unwrap(), ChunkId::new(RIFF_ID).unwrap());
    assert_eq!(ChunkId::new("LIST").unwrap(), ChunkId::new(LIST_ID).unwrap());
    assert_eq!(ChunkId::new("SEQT").unwrap(), ChunkId::new(SEQT_ID).unwrap());
    assert_ne!(ChunkId::new("seqt").unwrap(), ChunkId::new(SEQT_ID).unwrap());

    assert_eq!(
        ChunkId::new("123 ").unwrap(),
        ChunkId {
            value: [0x31, 0x32, 0x33, 0x20]
        }
    );

    assert_eq!(ChunkId::new("123"), None);
    assert_eq!(ChunkId::new("12345"), None);
}

#[test]
fn chunkid_to_str() {
    assert_eq!(ChunkId::new(RIFF_ID).unwrap().as_str().unwrap(), "RIFF");
    assert_eq!(ChunkId::new(LIST_ID).unwrap().as_str().unwrap(), "LIST");
    assert_eq!(ChunkId::new(SEQT_ID).unwrap().as_str().unwrap(), "SEQT");
    assert_eq!(ChunkId::new("seqt").unwrap().as_str().unwrap(), "seqt");
    assert_eq!(ChunkId::new("123 ").unwrap().as_str().unwrap(), "123 ");
}

#[test]
fn chunk_type_to_str() {
    let tag = ChunkType { value: *b"smpl" };
    assert_eq!(tag.as_str().unwrap(), "smpl");
}

#[test]
fn chunk_id_text_must_be_utf8() {
    let id = ChunkId { value: [0x41, 0x42, 0x43, 0x80] };
    assert_eq!(id.as_str(), Err(RiffError::InvalidIdentifier));
    let tag = ChunkType { value: [0xc3, 0x28, 0x41, 0x42] };
    assert_eq!(tag.as_str(), Err(RiffError::InvalidIdentifier));
    let id = ChunkId { value: [0xe2, 0x82, 0xac, 0x21] };
    assert_eq!(id.as_str(), Ok("\u{20ac}!"));
}

#[test]
fn chunk_id_takes_four_bytes_of_text() {
    assert_eq!(ChunkId::new(""), None);
    assert_eq!(ChunkId::new("\u{20ac}").map(|id| id.value), None);
    assert_eq!(
        ChunkId::new("\u{20ac}!").map(|id| id.value),
        Some([0xe2, 0x82, 0xac, 0x21])
    );
    assert_eq!(ChunkId::new("abcd").map(|id| id.value), Some(*b"abcd"));
}
