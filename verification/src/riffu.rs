use crate::constants::{LIST_ID, RIFF_ID, SEQT_ID};
use crate::error::{RiffError, RiffResult};
use crate::fourcc::FourCC;
use crate::layout::{
    all_ok, child_region, children, chunk_at, content_of, content_start, declared_len,
    framed_total, has_content, has_frame, holds_payload, id_field, kind_of,
    lemma_children_fill_region, list_tag, read_u32_le, riff_tag, seqt_tag, well_formed,
    ChunkKind, ChunkView,
};
use memmap::Mmap;
use vstd::prelude::*;

verus! {

/// A read-only memory map of a file, as the `memmap` crate keeps it. Opaque here.
#[verifier::external_type_specification]
#[verifier::external_body]
pub struct ExMmap(memmap::Mmap);

/// The bytes that a map holds. A map is read-only, and `memmap` lets a file be mapped only
/// on the promise that it is not changed while the map lives: so the bytes are the same
/// at every look.
pub uninterp spec fn mapped(map: Mmap) -> Seq<u8>;

/// `<memmap::Mmap as Deref>::deref`: the mapped bytes as a slice. Trusted: the slice is
/// what the map holds.
#[verifier::external_body]
pub(crate) fn mapped_bytes(map: &Mmap) -> (bytes: &[u8])
    ensures
        bytes@ == mapped(*map),
{
    std::ops::Deref::deref(map)
}

/// A RIFF file held as a memory map. It owns the one buffer that every chunk read from it
/// looks into.
#[derive(Debug)]
pub struct Riff {
    inner: Mmap,
}

impl View for Riff {
    type V = Seq<u8>;

    closed spec fn view(&self) -> Seq<u8> {
        mapped(self.inner)
    }
}

impl Riff {
    /// Takes over the map of a RIFF file.
    pub fn new(inner: Mmap) -> (riff: Riff)
        ensures
            riff@ == mapped(inner),
    {
        Riff { inner }
    }

    /// Reads the root chunk, which starts at the first mapped byte. Fails where the map
    /// ends before the frame that the root's header declares.
    pub fn as_chunk(&self) -> (r: RiffResult<Chunk<'_>>)
        ensures
            match r {
                Ok(chunk) => has_frame(self@) && chunk@ == chunk_at(self@) && chunk.wf(),
                Err(e) => !has_frame(self@) && e == RiffError::InsufficientBytes,
            },
    {
        Chunk::from_bytes(mapped_bytes(&self.inner))
    }
}

/// One chunk of a RIFF buffer: a view of the bytes of its frame, sorted by what its
/// identifier says it holds.
#[derive(Debug)]
pub enum Chunk<'a> {
    Raw(&'a [u8]),
    List(&'a [u8]),
    Seqt(&'a [u8]),
}

impl<'a> View for Chunk<'a> {
    type V = ChunkView;

    open spec fn view(&self) -> ChunkView {
        match self {
            Chunk::Raw(data) => ChunkView { kind: ChunkKind::Raw, bytes: data@ },
            Chunk::List(data) => ChunkView { kind: ChunkKind::List, bytes: data@ },
            Chunk::Seqt(data) => ChunkView { kind: ChunkKind::Seqt, bytes: data@ },
        }
    }
}

/// Tells the kind of a chunk from the four bytes of its identifier.
fn classify(id: &[u8]) -> (kind: ChunkKind)
    requires
        id@.len() == 4,
    ensures
        kind == kind_of(id@),
{
    let is_riff = id[0] == RIFF_ID[0] && id[1] == RIFF_ID[1] && id[2] == RIFF_ID[2] && id[3]
        == RIFF_ID[3];
    let is_list = id[0] == LIST_ID[0] && id[1] == LIST_ID[1] && id[2] == LIST_ID[2] && id[3]
        == LIST_ID[3];
    let is_seqt = id[0] == SEQT_ID[0] && id[1] == SEQT_ID[1] && id[2] == SEQT_ID[2] && id[3]
        == SEQT_ID[3];
    proof {
        assert(is_riff <==> id@ =~= riff_tag());
        assert(is_list <==> id@ =~= list_tag());
        assert(is_seqt <==> id@ =~= seqt_tag());
    }
    if is_riff || is_list {
        ChunkKind::List
    } else if is_seqt {
        ChunkKind::Seqt
    } else {
        ChunkKind::Raw
    }
}

impl<'a> Chunk<'a> {
    /// The chunk is a frame as `from_bytes` cuts it.
    pub open spec fn wf(&self) -> bool {
        well_formed(self@)
    }

    /// Reads the chunk at the front of `data`: the header, then exactly the bytes that the
    /// header declares, pad byte included. Fails where `data` ends before that.
    pub fn from_bytes(data: &'a [u8]) -> (r: RiffResult<Chunk<'a>>)
        ensures
            match r {
                Ok(chunk) => has_frame(data@) && chunk@ == chunk_at(data@) && chunk.wf(),
                Err(e) => !has_frame(data@) && e == RiffError::InsufficientBytes,
            },
    {
        if data.len() < 8 {
            return Err(RiffError::InsufficientBytes);
        }
        let payload_len: u64 = read_u32_le(data, 4) as u64;
        let framed: u64 = 8 + payload_len + payload_len % 2;
        if framed > data.len() as u64 {
            return Err(RiffError::InsufficientBytes);
        }
        let frame = &data[0..framed as usize];
        let kind = classify(&data[0..4]);
        proof {
            assert(frame@.subrange(4, 8) =~= data@.subrange(4, 8));
            assert(frame@.subrange(0, 4) =~= data@.subrange(0, 4));
        }
        match kind {
            ChunkKind::List => Ok(Chunk::List(frame)),
            ChunkKind::Seqt => Ok(Chunk::Seqt(frame)),
            ChunkKind::Raw => Ok(Chunk::Raw(frame)),
        }
    }

    /// Reads the chunk that starts at offset `pos` of `data`, as `from_bytes` reads the one
    /// at the front. Fails where `data` ends before `pos` or within the chunk.
    pub fn from_raw_u8(data: &'a [u8], pos: u32) -> (r: RiffResult<Chunk<'a>>)
        ensures
            match r {
                Ok(chunk) => {
                    &&& pos <= data@.len()
                    &&& has_frame(data@.skip(pos as int))
                    &&& chunk@ == chunk_at(data@.skip(pos as int))
                    &&& chunk.wf()
                },
                Err(e) => !(pos <= data@.len() && has_frame(data@.skip(pos as int))) && e
                    == RiffError::InsufficientBytes,
            },
    {
        if pos as usize > data.len() {
            return Err(RiffError::InsufficientBytes);
        }
        let rest = &data[pos as usize..data.len()];
        assert(rest@ =~= data@.skip(pos as int));
        Chunk::from_bytes(rest)
    }

    /// The bytes of the frame.
    pub fn as_bytes(&self) -> (r: &'a [u8])
        ensures
            r@ == self@.bytes,
    {
        match self {
            Chunk::Raw(data) => data,
            Chunk::List(data) => data,
            Chunk::Seqt(data) => data,
        }
    }

    /// The identifier: the first four bytes of the frame.
    pub fn id(&self) -> (r: RiffResult<FourCC>)
        ensures
            match r {
                Ok(id) => self@.bytes.len() >= 4 && id@ == id_field(self@.bytes),
                Err(e) => self@.bytes.len() < 4 && e == RiffError::InsufficientBytes,
            },
    {
        let data = self.as_bytes();
        if data.len() < 4 {
            return Err(RiffError::InsufficientBytes);
        }
        match FourCC::new(&data[0..4]) {
            Some(id) => Ok(id),
            None => Err(RiffError::InsufficientBytes),
        }
    }

    /// The payload length that the header declares.
    pub fn payload_len(&self) -> (r: RiffResult<u32>)
        ensures
            match r {
                Ok(n) => self@.bytes.len() >= 8 && n == declared_len(self@.bytes),
                Err(e) => self@.bytes.len() < 8 && e == RiffError::InsufficientBytes,
            },
    {
        let data = self.as_bytes();
        if data.len() < 8 {
            return Err(RiffError::InsufficientBytes);
        }
        Ok(read_u32_le(data, 4))
    }

    /// The type tag of a typed container: the four bytes that open its payload. A chunk of
    /// another kind has none, and a payload shorter than the tag does not hold one.
    pub fn chunk_type(&self) -> (r: RiffResult<FourCC>)
        ensures
            match r {
                Ok(tag) => self@.kind == ChunkKind::List && has_content(self@) && tag@
                    == self@.bytes.subrange(8, 12),
                Err(e) => if self@.kind != ChunkKind::List {
                    e == RiffError::NoChunkType
                } else {
                    !has_content(self@) && e == RiffError::InsufficientBytes
                },
            },
    {
        match self {
            Chunk::List(data) => {
                let end = self.content_end()?;
                if end < 12 {
                    return Err(RiffError::InsufficientBytes);
                }
                match FourCC::new(&data[8..12]) {
                    Some(tag) => Ok(tag),
                    None => Err(RiffError::InsufficientBytes),
                }
            },
            _ => Err(RiffError::NoChunkType),
        }
    }

    /// Offset within the frame at which the declared payload ends, where the frame holds
    /// all of it.
    fn content_end(&self) -> (r: RiffResult<usize>)
        ensures
            match r {
                Ok(end) => holds_payload(self@) && end == 8 + declared_len(self@.bytes),
                Err(e) => !holds_payload(self@) && e == RiffError::InsufficientBytes,
            },
    {
        let data = self.as_bytes();
        if data.len() < 8 {
            return Err(RiffError::InsufficientBytes);
        }
        let end: u64 = 8 + read_u32_le(data, 4) as u64;
        if end > data.len() as u64 {
            return Err(RiffError::InsufficientBytes);
        }
        Ok(end as usize)
    }

    /// The content: the payload, less the type tag of a typed container. No byte is copied.
    pub fn content(&self) -> (r: RiffResult<&'a [u8]>)
        ensures
            match r {
                Ok(bytes) => has_content(self@) && bytes@ == content_of(self@),
                Err(e) => !has_content(self@) && e == RiffError::InsufficientBytes,
            },
    {
        let data = self.as_bytes();
        let end = self.content_end()?;
        let start = self.content_offset() as usize;
        if end < start {
            return Err(RiffError::InsufficientBytes);
        }
        Ok(&data[start..end])
    }

    /// The items that a walk over the children of this chunk yields.
    pub open spec fn spec_children(&self) -> Seq<Result<ChunkView, RiffError>> {
        children(child_region(self@))
    }

    /// `it` is a walk over the children of this chunk that has not yet begun.
    pub open spec fn starts(&self, it: ChunkIter<'a>) -> bool {
        &&& it.source() == self@.bytes
        &&& it.position() == content_start(self@.kind)
        &&& it.limit() == if self@.kind == ChunkKind::Raw {
            content_start(self@.kind)
        } else {
            8 + declared_len(self@.bytes)
        }
        &&& !it.poisoned()
        &&& it.region() == child_region(self@)
    }

    /// Two walks started on one chunk are alike: each has the children of the chunk to
    /// yield, in the same order, from the same place.
    pub proof fn lemma_walks_agree(self, a: ChunkIter<'a>, b: ChunkIter<'a>)
        requires
            self.starts(a),
            self.starts(b),
        ensures
            a.remaining() == self.spec_children(),
            a.remaining() == b.remaining(),
            a.source() == b.source(),
            a.position() == b.position(),
            a.limit() == b.limit(),
            a.poisoned() == b.poisoned(),
    {
    }

    /// In a container whose walk meets no error, the frames of the children add up to the
    /// declared payload, less the four bytes of the type tag where there is one.
    pub proof fn lemma_children_fill_payload(self)
        requires
            self.wf(),
            self@.kind != ChunkKind::Raw,
            has_content(self@),
            all_ok(self.spec_children()),
        ensures
            framed_total(self.spec_children()) == declared_len(self@.bytes) - (content_start(
                self@.kind,
            ) - 8),
    {
        lemma_children_fill_region(child_region(self@));
    }

    /// Starts a walk over the children. Each call starts afresh at the first child. A leaf
    /// has no children, and neither has a typed container too short for its type tag. Fails
    /// where the frame does not hold the payload that its header declares.
    pub fn iter(&self) -> (r: RiffResult<ChunkIter<'a>>)
        ensures
            match r {
                Ok(it) => self.starts(it) && holds_payload(self@),
                Err(e) => !holds_payload(self@) && e == RiffError::InsufficientBytes,
            },
    {
        let data = self.as_bytes();
        let cursor_end = self.content_end()?;
        let cursor = self.content_offset() as usize;
        let it = match self {
            Chunk::Raw(_) => ChunkIter { cursor, cursor_end: cursor, data, error_occurred: false },
            _ => ChunkIter { cursor, cursor_end, data, error_occurred: false },
        };
        assert(it.region() =~= child_region(self@));
        Ok(it)
    }

    /// Offset within the frame at which content or the first child begins.
    pub fn content_offset(&self) -> (r: u32)
        ensures
            r == content_start(self@.kind),
    {
        match self {
            Chunk::Raw(_) => 8,
            Chunk::List(_) => 12,
            Chunk::Seqt(_) => 8,
        }
    }
}

/// A walk over the children of a container, in the order in which they lie in its payload.
/// After the first child that cannot be read the walk yields that one error and then ends.
#[derive(Debug)]
pub struct ChunkIter<'a> {
    cursor: usize,
    cursor_end: usize,
    data: &'a [u8],
    error_occurred: bool,
}

impl<'a> ChunkIter<'a> {
    #[verifier::type_invariant]
    spec fn inv(self) -> bool {
        self.cursor_end <= self.data@.len()
    }

    /// The bytes of the frame that is walked.
    pub closed spec fn source(&self) -> Seq<u8> {
        self.data@
    }

    /// Offset within the frame of the next child.
    pub closed spec fn position(&self) -> int {
        self.cursor as int
    }

    /// Offset within the frame at which the children end.
    pub closed spec fn limit(&self) -> int {
        self.cursor_end as int
    }

    /// An error was yielded: the walk is over.
    pub closed spec fn poisoned(&self) -> bool {
        self.error_occurred
    }

    /// The bytes that are still to be walked: none once an error was yielded.
    pub open spec fn region(&self) -> Seq<u8> {
        if self.poisoned() || self.position() >= self.limit() {
            Seq::empty()
        } else {
            self.source().subrange(self.position(), self.limit())
        }
    }

    /// The items that are still to come, in order.
    pub open spec fn remaining(&self) -> Seq<Result<ChunkView, RiffError>> {
        children(self.region())
    }

    /// Yields the next item: the child at the cursor, or the error of reading it. Past a
    /// child the cursor stands behind its frame; an error ends the walk for good.
    pub fn next(&mut self) -> (r: Option<RiffResult<Chunk<'a>>>)
        ensures
            final(self).source() == old(self).source(),
            final(self).limit() == old(self).limit(),
            r is Some ==> final(self).remaining() == old(self).remaining().skip(1),
            match r {
                None => old(self).region().len() == 0 && *final(self) == *old(self),
                Some(Ok(chunk)) => {
                    &&& has_frame(old(self).region())
                    &&& chunk@ == chunk_at(old(self).region())
                    &&& chunk.wf()
                    &&& old(self).remaining()[0] == Ok::<ChunkView, RiffError>(chunk@)
                    &&& !final(self).poisoned()
                    &&& final(self).position() == old(self).position() + chunk@.bytes.len()
                    &&& final(self).region() == old(self).region().skip(
                        chunk@.bytes.len() as int,
                    )
                },
                Some(Err(e)) => {
                    &&& old(self).region().len() > 0
                    &&& !has_frame(old(self).region())
                    &&& e == RiffError::InsufficientBytes
                    &&& old(self).remaining()[0] == Err::<ChunkView, RiffError>(e)
                    &&& final(self).poisoned()
                    &&& final(self).position() == old(self).position()
                },
            },
    {
        proof {
            use_type_invariant(&*self);
        }
        if self.error_occurred || self.cursor >= self.cursor_end {
            return None;
        }
        let rest = &self.data[self.cursor..self.cursor_end];
        let ghost region = rest@;
        match Chunk::from_bytes(rest) {
            Ok(chunk) => {
                let framed = chunk.as_bytes().len();
                proof {
                    assert(region.skip(framed as int) =~= self.data@.subrange(
                        self.cursor + framed,
                        self.cursor_end as int,
                    ));
                    assert(children(region).skip(1) =~= children(region.skip(framed as int)));
                    if self.cursor + framed >= self.cursor_end {
                        assert(region.skip(framed as int).len() == 0);
                    }
                }
                self.cursor = self.cursor + framed;
                Some(Ok(chunk))
            },
            Err(err) => {
                proof {
                    assert(children(region).skip(1) =~= Seq::empty());
                }
                self.error_occurred = true;
                Some(Err(err))
            },
        }
    }

    /// Walks to the end and gathers what the walk yields, in order.
    pub fn collect(self) -> (items: Vec<RiffResult<Chunk<'a>>>)
        ensures
            items@.len() == self.remaining().len(),
            forall|i: int|
                0 <= i < items@.len() ==> item_view(#[trigger] items@[i]) == self.remaining()[i],
            forall|i: int|
                0 <= i < items@.len() && (#[trigger] items@[i]) is Ok ==> items@[i].unwrap().wf(),
    {
        let mut walk = self;
        let mut items: Vec<RiffResult<Chunk<'a>>> = Vec::new();
        loop
            invariant
                items@.len() + walk.remaining().len() == self.remaining().len(),
                walk.remaining() =~= self.remaining().skip(items@.len() as int),
                forall|i: int|
                    0 <= i < items@.len() ==> item_view(#[trigger] items@[i])
                        == self.remaining()[i],
                forall|i: int|
                    0 <= i < items@.len() && (#[trigger] items@[i]) is Ok
                        ==> items@[i].unwrap().wf(),
            ensures
                walk.remaining().len() == 0,
            decreases walk.remaining().len(),
        {
            let ghost before = walk.remaining();
            match walk.next() {
                None => {
                    break ;
                },
                Some(item) => {
                    assert(before[0] == self.remaining()[items@.len() as int]);
                    assert(before.skip(1) =~= self.remaining().skip(items@.len() as int + 1));
                    items.push(item);
                },
            }
        }
        items
    }
}

/// What an item of a walk is as a mathematical value.
pub open spec fn item_view(item: RiffResult<Chunk<'_>>) -> Result<ChunkView, RiffError> {
    match item {
        Ok(chunk) => Ok(chunk@),
        Err(e) => Err(e),
    }
}

} // verus!
