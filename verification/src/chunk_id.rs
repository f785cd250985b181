use crate::error::{RiffError, RiffResult};
use crate::layout::{list_tag, riff_tag, seqt_tag};
use crate::text::str_from_utf8;
use std::rc::Rc;
use vstd::prelude::*;
use vstd::string::StringSliceAdditionalSpecFns;
use vstd::utf8::{is_ascii_chars_encode_utf8, valid_utf8};

verus! {

/// The four-byte type tag that opens the payload of a typed container.
#[derive(Debug, Clone, Copy)]
pub struct ChunkType {
    pub value: [u8; 4],
}

impl ChunkType {
    /// The tag as text. Fails where the four bytes are not UTF-8.
    pub fn as_str(&self) -> (r: RiffResult<&str>)
        ensures
            match r {
                Ok(text) => valid_utf8(self.value@) && text.spec_bytes() == self.value@,
                Err(e) => !valid_utf8(self.value@) && e == RiffError::InvalidIdentifier,
            },
    {
        match str_from_utf8(self.value.as_slice()) {
            Some(text) => Ok(text),
            None => Err(RiffError::InvalidIdentifier),
        }
    }
}

/// The four-byte identifier of a chunk.
#[derive(Debug, Clone, Copy, Eq, Hash)]
pub struct ChunkId {
    pub value: [u8; 4],
}

impl PartialEq for ChunkId {
    fn eq(&self, other: &ChunkId) -> (r: bool) {
        let r = self.value[0] == other.value[0] && self.value[1] == other.value[1]
            && self.value[2] == other.value[2] && self.value[3] == other.value[3];
        assert(r <==> self.value@ =~= other.value@);
        r
    }
}

impl vstd::std_specs::cmp::PartialEqSpecImpl for ChunkId {
    open spec fn obeys_eq_spec() -> bool {
        true
    }

    open spec fn eq_spec(&self, other: &ChunkId) -> bool {
        self.value@ == other.value@
    }
}

impl ChunkId {
    /// The identifier that `text` spells, where it is exactly four bytes long.
    pub fn new(text: &str) -> (r: Option<ChunkId>)
        ensures
            r is Some <==> text.spec_bytes().len() == 4,
            r is Some ==> r.unwrap().value@ == text.spec_bytes(),
    {
        let bytes = text.as_bytes();
        if bytes.len() == 4 {
            let id = ChunkId { value: [bytes[0], bytes[1], bytes[2], bytes[3]] };
            assert(id.value@ =~= bytes@);
            Some(id)
        } else {
            None
        }
    }

    /// The identifier as text. Fails where the four bytes are not UTF-8.
    pub fn as_str(&self) -> (r: RiffResult<&str>)
        ensures
            match r {
                Ok(text) => valid_utf8(self.value@) && text.spec_bytes() == self.value@,
                Err(e) => !valid_utf8(self.value@) && e == RiffError::InvalidIdentifier,
            },
    {
        match str_from_utf8(self.value.as_slice()) {
            Some(text) => Ok(text),
            None => Err(RiffError::InvalidIdentifier),
        }
    }
}

/// Identifier of the outermost typed container.
pub const RIFF_ID: &'static str = "RIFF";

/// Identifier of a nested typed container.
pub const LIST_ID: &'static str = "LIST";

/// Identifier of a container whose children follow without a type tag.
pub const SEQT_ID: &'static str = "SEQT";

/// The three identifiers above spell the bytes by which a container is known.
pub proof fn lemma_marker_text()
    ensures
        RIFF_ID.spec_bytes() == riff_tag(),
        LIST_ID.spec_bytes() == list_tag(),
        SEQT_ID.spec_bytes() == seqt_tag(),
{
    reveal_strlit("RIFF");
    reveal_strlit("LIST");
    reveal_strlit("SEQT");
    is_ascii_chars_encode_utf8(RIFF_ID@);
    is_ascii_chars_encode_utf8(LIST_ID@);
    is_ascii_chars_encode_utf8(SEQT_ID@);
    assert(RIFF_ID.spec_bytes() =~= riff_tag());
    assert(LIST_ID.spec_bytes() =~= list_tag());
    assert(SEQT_ID.spec_bytes() =~= seqt_tag());
}

/// An identifier that still lies in its source: the offset of its four bytes, and a
/// shared handle on the source they are to be read from.
#[derive(Debug)]
pub struct ChunkIdDisk<R> {
    pos: u32,
    reader: Rc<R>,
}

impl<R> ChunkIdDisk<R> {
    /// The identifier at offset `pos` of `reader`.
    pub fn new(reader: Rc<R>, pos: u32) -> (id: ChunkIdDisk<R>)
        ensures
            id.pos() == pos,
            *id.reader() == reader,
    {
        ChunkIdDisk { pos, reader }
    }

    /// Offset of the identifier's first byte in the source.
    pub closed spec fn spec_pos(&self) -> u32 {
        self.pos
    }

    /// The source that holds the identifier.
    pub closed spec fn spec_reader(&self) -> &Rc<R> {
        &self.reader
    }

    /// Offset of the identifier's first byte in the source.
    #[verifier::when_used_as_spec(spec_pos)]
    pub fn pos(&self) -> (pos: u32)
        ensures
            pos == self.pos(),
    {
        self.pos
    }

    /// The source that holds the identifier.
    #[verifier::when_used_as_spec(spec_reader)]
    pub fn reader(&self) -> (reader: &Rc<R>)
        ensures
            reader == self.reader(),
    {
        &self.reader
    }
}

} // verus!
