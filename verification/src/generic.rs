use crate::error::{RiffError, RiffResult};
use crate::fourcc::FourCC;
use crate::handle::share;
use crate::layout::{
    child_region, children, chunk_at, content_of, declared_len, has_content, has_frame, id_field,
    lemma_frame_parses, parse, ChunkKind, ChunkView,
};
use crate::riffu::{mapped, mapped_bytes};
use memmap::Mmap;
use std::rc::Rc;
use vstd::prelude::*;

verus! {

/// A chunk as a window into a shared map: nothing is read before it is asked for, and
/// every read stays within the window. The chunk keeps the map alive.
#[derive(Debug)]
pub struct Chunk {
    start: usize,
    end: usize,
    reader: Rc<Mmap>,
}

impl Chunk {
    #[verifier::type_invariant]
    spec fn inv(self) -> bool {
        self.start <= self.end <= mapped(*self.reader).len()
    }

    /// The bytes of the whole map.
    pub closed spec fn source(&self) -> Seq<u8> {
        mapped(*self.reader)
    }

    /// Offset in the map at which the window opens.
    pub closed spec fn offset(&self) -> int {
        self.start as int
    }

    /// The bytes that the chunk may look at: the chunk stands at their front.
    pub closed spec fn window(&self) -> Seq<u8> {
        mapped(*self.reader).subrange(self.start as int, self.end as int)
    }

    /// The chunk that stands at `offset` of `mmap` and may reach to the end of the map.
    /// An offset behind the end leaves it nothing to look at.
    pub fn with_mmap_and_offset(mmap: Rc<Mmap>, offset: u32) -> (chunk: Chunk)
        ensures
            chunk.source() == mapped(*mmap),
            offset <= mapped(*mmap).len() ==> chunk.offset() == offset && chunk.window() == mapped(
                *mmap,
            ).skip(offset as int),
            offset > mapped(*mmap).len() ==> chunk.window() == Seq::<u8>::empty(),
    {
        let len = mapped_bytes(&*mmap).len();
        let start = if offset as usize <= len {
            offset as usize
        } else {
            len
        };
        let chunk = Chunk { start, end: len, reader: mmap };
        assert(chunk.window() =~= if offset <= len {
            mapped(*mmap).skip(offset as int)
        } else {
            Seq::<u8>::empty()
        });
        chunk
    }

    /// Reads the chunk at the front of the window.
    fn load(&self) -> (r: RiffResult<crate::riffu::Chunk<'_>>)
        ensures
            match r {
                Ok(chunk) => has_frame(self.window()) && chunk@ == chunk_at(self.window())
                    && chunk.wf(),
                Err(e) => !has_frame(self.window()) && e == RiffError::InsufficientBytes,
            },
    {
        proof {
            use_type_invariant(self);
        }
        let bytes = mapped_bytes(&*self.reader);
        crate::riffu::Chunk::from_bytes(&bytes[self.start..self.end])
    }

    /// The identifier of the chunk.
    pub fn id(&self) -> (r: RiffResult<FourCC>)
        ensures
            match r {
                Ok(id) => has_frame(self.window()) && id@ == id_field(self.window()),
                Err(e) => !has_frame(self.window()) && e == RiffError::InsufficientBytes,
            },
    {
        let chunk = self.load()?;
        let id = chunk.id()?;
        assert(id_field(chunk@.bytes) =~= id_field(self.window()));
        Ok(id)
    }

    /// The payload length that the header declares.
    pub fn payload_len(&self) -> (r: RiffResult<u32>)
        ensures
            match r {
                Ok(n) => has_frame(self.window()) && n == declared_len(self.window()),
                Err(e) => !has_frame(self.window()) && e == RiffError::InsufficientBytes,
            },
    {
        let chunk = self.load()?;
        let n = chunk.payload_len()?;
        assert(chunk@.bytes.subrange(4, 8) =~= self.window().subrange(4, 8));
        Ok(n)
    }

    /// The type tag of a typed container. A chunk of another kind has none, and a payload
    /// shorter than the tag does not hold one.
    pub fn chunk_type(&self) -> (r: RiffResult<FourCC>)
        ensures
            match r {
                Ok(tag) => {
                    &&& has_frame(self.window())
                    &&& chunk_at(self.window()).kind == ChunkKind::List
                    &&& has_content(chunk_at(self.window()))
                    &&& tag@ == self.window().subrange(8, 12)
                },
                Err(e) => if !has_frame(self.window()) {
                    e == RiffError::InsufficientBytes
                } else if chunk_at(self.window()).kind != ChunkKind::List {
                    e == RiffError::NoChunkType
                } else {
                    !has_content(chunk_at(self.window())) && e == RiffError::InsufficientBytes
                },
            },
    {
        let chunk = self.load()?;
        let tag = chunk.chunk_type()?;
        assert(chunk@.bytes.subrange(8, 12) =~= self.window().subrange(8, 12));
        Ok(tag)
    }

    /// The content: the payload, less the type tag of a typed container. No byte is copied.
    pub fn get_raw_child(&self) -> (r: RiffResult<&[u8]>)
        ensures
            match r {
                Ok(bytes) => has_frame(self.window()) && has_content(chunk_at(self.window()))
                    && bytes@ == content_of(chunk_at(self.window())),
                Err(e) => !(has_frame(self.window()) && has_content(chunk_at(self.window())))
                    && e == RiffError::InsufficientBytes,
            },
    {
        let chunk = self.load()?;
        chunk.content()
    }

    /// Starts a walk over the children. Each call starts afresh at the first child. A leaf
    /// has no children, and neither has a typed container too short for its type tag.
    pub fn iter(&self) -> (r: RiffResult<ChunkDiskIter>)
        ensures
            match r {
                Ok(it) => {
                    &&& has_frame(self.window())
                    &&& it.source() == self.source()
                    &&& it.region() == child_region(chunk_at(self.window()))
                    &&& !it.poisoned()
                },
                Err(e) => !has_frame(self.window()) && e == RiffError::InsufficientBytes,
            },
    {
        proof {
            use_type_invariant(self);
        }
        let chunk = self.load()?;
        let payload_end = 8 + chunk.payload_len()? as usize;
        let first = chunk.content_offset() as usize;
        let cursor_end = self.start + payload_end;
        let cursor = match chunk {
            crate::riffu::Chunk::Raw(_) => cursor_end,
            _ => if first <= payload_end {
                self.start + first
            } else {
                cursor_end
            },
        };
        let it = ChunkDiskIter {
            cursor,
            cursor_end,
            reader: share(&self.reader),
            error_occurred: false,
        };
        assert(it.region() =~= child_region(chunk_at(self.window())));
        Ok(it)
    }
}

/// A walk over the children of a container in a shared map, in the order in which they
/// lie in its payload. After the first child that cannot be read the walk yields that one
/// error and then ends.
#[derive(Debug)]
pub struct ChunkDiskIter {
    cursor: usize,
    cursor_end: usize,
    reader: Rc<Mmap>,
    error_occurred: bool,
}

impl ChunkDiskIter {
    #[verifier::type_invariant]
    spec fn inv(self) -> bool {
        self.cursor_end <= mapped(*self.reader).len()
    }

    /// The bytes of the whole map.
    pub closed spec fn source(&self) -> Seq<u8> {
        mapped(*self.reader)
    }

    /// Offset in the map of the next child.
    pub closed spec fn position(&self) -> int {
        self.cursor as int
    }

    /// Offset in the map at which the children end.
    pub closed spec fn limit(&self) -> int {
        self.cursor_end as int
    }

    /// An error was yielded: the walk is over.
    pub closed spec fn poisoned(&self) -> bool {
        self.error_occurred
    }

    /// The bytes that are still to be walked: none once an error was yielded.
    pub open spec fn region(&self) -> Seq<u8> {
        if self.poisoned() || self.position() >= self.limit() {
            Seq::empty()
        } else {
            self.source().subrange(self.position(), self.limit())
        }
    }

    /// The items that are still to come, in order.
    pub open spec fn remaining(&self) -> Seq<Result<ChunkView, RiffError>> {
        children(self.region())
    }

    /// Yields the next item: the child at the cursor, or the error of reading it. Past a
    /// child the cursor stands behind its frame; an error ends the walk for good.
    pub fn next(&mut self) -> (r: Option<RiffResult<Chunk>>)
        ensures
            final(self).source() == old(self).source(),
            final(self).limit() == old(self).limit(),
            r is Some ==> final(self).remaining() == old(self).remaining().skip(1),
            match r {
                None => old(self).region().len() == 0 && *final(self) == *old(self),
                Some(Ok(chunk)) => {
                    &&& has_frame(old(self).region())
                    &&& chunk.source() == old(self).source()
                    &&& chunk.offset() == old(self).position()
                    &&& chunk.window() == chunk_at(old(self).region()).bytes
                    &&& old(self).remaining()[0] == parse(chunk.window())
                    &&& !final(self).poisoned()
                    &&& final(self).position() == old(self).position() + chunk.window().len()
                    &&& final(self).region() == old(self).region().skip(
                        chunk.window().len() as int,
                    )
                },
                Some(Err(e)) => {
                    &&& old(self).region().len() > 0
                    &&& !has_frame(old(self).region())
                    &&& e == RiffError::InsufficientBytes
                    &&& old(self).remaining()[0] == Err::<ChunkView, RiffError>(e)
                    &&& final(self).poisoned()
                    &&& final(self).position() == old(self).position()
                },
            },
    {
        proof {
            use_type_invariant(&*self);
        }
        if self.error_occurred || self.cursor >= self.cursor_end {
            return None;
        }
        let bytes = mapped_bytes(&*self.reader);
        let rest = &bytes[self.cursor..self.cursor_end];
        let ghost region = rest@;
        match crate::riffu::Chunk::from_bytes(rest) {
            Ok(found) => {
                let framed = found.as_bytes().len();
                let chunk = Chunk {
                    start: self.cursor,
                    end: self.cursor + framed,
                    reader: share(&self.reader),
                };
                proof {
                    assert(chunk.window() =~= found@.bytes);
                    assert(region.skip(framed as int) =~= bytes@.subrange(
                        self.cursor + framed,
                        self.cursor_end as int,
                    ));
                    assert(children(region).skip(1) =~= children(region.skip(framed as int)));
                    lemma_frame_parses(region);
                }
                self.cursor = self.cursor + framed;
                Some(Ok(chunk))
            },
            Err(err) => {
                proof {
                    assert(children(region).skip(1) =~= Seq::empty());
                }
                self.error_occurred = true;
                Some(Err(err))
            },
        }
    }
}

/// A chunk of a shared map, sorted by what its identifier says it holds.
#[derive(Debug)]
pub enum ChunkDiskType {
    RawData(Chunk),
    Children(Chunk),
    ChildrenNoType(Chunk),
}

impl ChunkDiskType {
    /// The chunk that was sorted.
    pub open spec fn chunk(&self) -> Chunk {
        match self {
            ChunkDiskType::RawData(chunk) => *chunk,
            ChunkDiskType::Children(chunk) => *chunk,
            ChunkDiskType::ChildrenNoType(chunk) => *chunk,
        }
    }

    /// The kind that it was found to be of.
    pub open spec fn kind(&self) -> ChunkKind {
        match self {
            ChunkDiskType::RawData(_) => ChunkKind::Raw,
            ChunkDiskType::Children(_) => ChunkKind::List,
            ChunkDiskType::ChildrenNoType(_) => ChunkKind::Seqt,
        }
    }

    /// Sorts `chunk` by its identifier. Fails where the window does not hold the frame
    /// that the header declares.
    pub fn from_chunk_disk(chunk: Chunk) -> (r: RiffResult<ChunkDiskType>)
        ensures
            match r {
                Ok(sorted) => has_frame(chunk.window()) && sorted.chunk() == chunk && sorted.kind()
                    == chunk_at(chunk.window()).kind,
                Err(e) => !has_frame(chunk.window()) && e == RiffError::InsufficientBytes,
            },
    {
        let kind = match chunk.load() {
            Ok(found) => match found {
                crate::riffu::Chunk::Raw(_) => ChunkKind::Raw,
                crate::riffu::Chunk::List(_) => ChunkKind::List,
                crate::riffu::Chunk::Seqt(_) => ChunkKind::Seqt,
            },
            Err(e) => {
                return Err(e);
            },
        };
        match kind {
            ChunkKind::Raw => Ok(ChunkDiskType::RawData(chunk)),
            ChunkKind::List => Ok(ChunkDiskType::Children(chunk)),
            ChunkKind::Seqt => Ok(ChunkDiskType::ChildrenNoType(chunk)),
        }
    }
}

} // verus!
