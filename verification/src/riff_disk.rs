use crate::chunk_id::ChunkIdDisk;
use crate::error::{RiffError, RiffResult};
use crate::handle::share;
use crate::layout::{
    children, chunk_at, declared_len, framed_len, framed_size, has_frame, le_u32, read_u32_le,
};
use std::rc::Rc;
use vstd::prelude::*;

verus! {

/// A stretch of a source: where it starts and how many bytes it holds.
#[derive(Debug, Clone, Copy, PartialEq, Eq, Structural)]
pub struct Span {
    pub start: u64,
    pub len: u32,
}

/// A chunk of a source that is read on demand: where its header starts, the payload
/// length that the header declares, and a shared handle on the source. The library
/// decides where to read and what the bytes mean; the caller does the reading.
#[derive(Debug)]
pub struct Chunk<R> {
    pos: u32,
    payload_len: u32,
    reader: Rc<R>,
}

impl<R> Chunk<R> {
    /// Offset in the source at which the header starts.
    pub closed spec fn spec_offset(&self) -> u32 {
        self.pos
    }

    /// The payload length that the header declares.
    pub closed spec fn spec_len(&self) -> u32 {
        self.payload_len
    }

    /// The handle on the source.
    pub closed spec fn spec_reader(&self) -> Rc<R> {
        self.reader
    }

    /// Offset in the source of the length field of the chunk whose header starts at `pos`:
    /// the four bytes that `from_header` is to be given.
    pub fn header_offset(pos: u32) -> (at: u64)
        ensures
            at == pos + 4,
    {
        pos as u64 + 4
    }

    /// The chunk whose header starts at `pos` of `reader` and whose length field holds
    /// `payload_buff`.
    pub fn from_header(reader: Rc<R>, pos: u32, payload_buff: [u8; 4]) -> (chunk: Chunk<R>)
        ensures
            chunk.offset() == pos,
            chunk.len() == le_u32(payload_buff@),
            chunk.spec_reader() == reader,
    {
        let payload_len = read_u32_le(payload_buff.as_slice(), 0);
        assert(payload_buff@.subrange(0, 4) =~= payload_buff@);
        Chunk { pos, payload_len, reader }
    }

    /// The identifier, still in the source: the four bytes at the chunk's offset.
    pub fn id(&self) -> (id: ChunkIdDisk<R>)
        ensures
            id.pos() == self.offset(),
            *id.reader() == self.spec_reader(),
    {
        ChunkIdDisk::new(share(&self.reader), self.pos)
    }

    /// The payload length that the header declares.
    #[verifier::when_used_as_spec(spec_len)]
    pub fn len(&self) -> (n: u32)
        ensures
            n == self.len(),
    {
        self.payload_len
    }

    /// The header declares no payload.
    pub fn is_empty(&self) -> (r: bool)
        ensures
            r == (self.len() == 0),
    {
        self.payload_len == 0
    }

    /// Offset in the source at which the header starts.
    #[verifier::when_used_as_spec(spec_offset)]
    pub fn offset(&self) -> (pos: u32)
        ensures
            pos == self.offset(),
    {
        self.pos
    }

    /// The type tag of a typed container, still in the source: the four bytes that open
    /// the payload. A payload shorter than the tag holds none, and neither does a source
    /// whose offsets end before it.
    pub fn get_child_id(&self) -> (r: RiffResult<ChunkIdDisk<R>>)
        ensures
            match r {
                Ok(id) => {
                    &&& self.len() >= 4
                    &&& id.pos() == self.offset() + 8
                    &&& *id.reader() == self.spec_reader()
                },
                Err(e) => (self.len() < 4 || self.offset() + 8 > u32::MAX) && e
                    == RiffError::InsufficientBytes,
            },
    {
        if self.payload_len < 4 || self.pos > u32::MAX - 8 {
            return Err(RiffError::InsufficientBytes);
        }
        Ok(ChunkIdDisk::new(share(&self.reader), self.pos + 8))
    }

    /// Where the content of a typed container lies: behind the type tag, to the end of
    /// the payload. Fails where the payload is shorter than the tag.
    pub fn content_span_typed(&self) -> (r: RiffResult<Span>)
        ensures
            match r {
                Ok(span) => self.len() >= 4 && span.start == self.offset() + 12 && span.len
                    == self.len() - 4,
                Err(e) => self.len() < 4 && e == RiffError::InsufficientBytes,
            },
    {
        if self.payload_len < 4 {
            return Err(RiffError::InsufficientBytes);
        }
        Ok(Span { start: self.pos as u64 + 12, len: self.payload_len - 4 })
    }

    /// Where the content of a chunk without a type tag lies: behind the header, to the
    /// end of the payload.
    pub fn content_span_untyped(&self) -> (span: Span)
        ensures
            span.start == self.offset() + 8,
            span.len == self.len(),
    {
        Span { start: self.pos as u64 + 8, len: self.payload_len }
    }

    /// Starts a walk over the children of a typed container: they begin behind the type
    /// tag and end with the payload.
    pub fn iter_type(&self) -> (it: ChunkIterType<R>)
        ensures
            it.state() == (WalkState {
                cursor: self.offset() + 12,
                end: self.offset() + 8 + self.len(),
                poisoned: false,
            }),
            it.spec_reader() == self.spec_reader(),
    {
        ChunkIterType {
            payload_cursor: self.pos as u64 + 12,
            payload_end: self.pos as u64 + 8 + self.payload_len as u64,
            poisoned: false,
            reader: share(&self.reader),
        }
    }

    /// Starts a walk over the children of a container without a type tag: they begin
    /// behind the header and end with the payload.
    pub fn iter_notype(&self) -> (it: ChunkIterNoType<R>)
        ensures
            it.state() == (WalkState {
                cursor: self.offset() + 8,
                end: self.offset() + 8 + self.len(),
                poisoned: false,
            }),
            it.spec_reader() == self.spec_reader(),
    {
        ChunkIterNoType {
            payload_cursor: self.pos as u64 + 8,
            payload_end: self.pos as u64 + 8 + self.payload_len as u64,
            poisoned: false,
            reader: share(&self.reader),
        }
    }
}

/// What a walk needs done before it can yield its next item.
#[derive(Debug, Clone, Copy, PartialEq, Eq, Structural)]
pub enum Step {
    /// Nothing: the walk is over.
    Stop,
    /// Nothing: the bytes that are left cannot hold a header, so the next item is an error.
    Fail,
    /// The four bytes of the length field at this offset of the source are to be read.
    ReadHeader(u64),
}

/// A walk as a mathematical value: where the next child starts, where the children end,
/// and whether an error was yielded.
pub struct WalkState {
    pub cursor: int,
    pub end: int,
    pub poisoned: bool,
}

/// What a walk in state `s` needs done next.
pub open spec fn pending_of(s: WalkState) -> Step {
    if s.poisoned || s.cursor >= s.end {
        Step::Stop
    } else if s.end - s.cursor < 8 || s.cursor > u32::MAX {
        Step::Fail
    } else {
        Step::ReadHeader((s.cursor + 4) as u64)
    }
}

/// A chunk with payload length `len` at the cursor of `s` ends within the walk.
pub open spec fn fits(s: WalkState, len: int) -> bool {
    s.cursor + framed_size(len) <= s.end
}

/// The item that a walk in state `s` yields when it is handed `header`: the length field
/// it asked for, or nothing where that could not be read. The item is the offset and the
/// payload length of a child, or the error that ends the walk.
pub open spec fn item_of(s: WalkState, header: Option<Seq<u8>>) -> Option<
    Result<(int, int), RiffError>,
> {
    match pending_of(s) {
        Step::Stop => None,
        Step::Fail => Some(Err(RiffError::InsufficientBytes)),
        Step::ReadHeader(_) => match header {
            Some(bytes) if fits(s, le_u32(bytes)) => Some(Ok((s.cursor, le_u32(bytes)))),
            _ => Some(Err(RiffError::InsufficientBytes)),
        },
    }
}

/// The state of a walk after it has yielded `item_of(s, header)`: behind the child, or
/// poisoned.
pub open spec fn state_after(s: WalkState, header: Option<Seq<u8>>) -> WalkState {
    match item_of(s, header) {
        None => s,
        Some(Ok((_, len))) => WalkState { cursor: s.cursor + framed_size(len), ..s },
        Some(Err(_)) => WalkState { poisoned: true, ..s },
    }
}

/// The header bytes as a mathematical value.
pub open spec fn header_view(header: Option<[u8; 4]>) -> Option<Seq<u8>> {
    match header {
        Some(bytes) => Some(bytes@),
        None => None,
    }
}

/// What an item of a walk is as a mathematical value.
pub open spec fn item_view<R>(item: Option<RiffResult<Chunk<R>>>) -> Option<
    Result<(int, int), RiffError>,
> {
    match item {
        None => None,
        Some(Ok(chunk)) => Some(Ok((chunk.offset() as int, chunk.len() as int))),
        Some(Err(e)) => Some(Err(e)),
    }
}

/// The bytes of `b` that a walk in state `s` has still to cover.
pub open spec fn region_of(b: Seq<u8>, s: WalkState) -> Seq<u8> {
    if s.poisoned || s.cursor >= s.end {
        Seq::empty()
    } else {
        b.subrange(s.cursor, s.end)
    }
}

/// A walk that is handed the length fields of a buffer yields what a walk over the bytes
/// themselves yields: nothing where the region is used up; the child at the cursor, with
/// its offset and payload length, where the region opens with a whole chunk; else the one
/// error. Behind a child it has the rest of the region to cover.
pub proof fn lemma_walk_follows_buffer(b: Seq<u8>, s: WalkState)
    requires
        0 <= s.cursor <= u32::MAX,
        s.end <= b.len(),
    ensures
        ({
            let region = region_of(b, s);
            let header = if region.len() >= 8 {
                Some(b.subrange(s.cursor + 4, s.cursor + 8))
            } else {
                None
            };
            &&& children(region).len() == 0 <==> item_of(s, header) is None
            &&& children(region).len() > 0 ==> match children(region)[0] {
                Ok(child) => {
                    &&& item_of(s, header) == Some(
                        Ok::<(int, int), RiffError>((s.cursor, declared_len(child.bytes))),
                    )
                    &&& region_of(b, state_after(s, header)) == region.skip(
                        child.bytes.len() as int,
                    )
                },
                Err(e) => item_of(s, header) == Some(Err::<(int, int), RiffError>(e))
                    && region_of(b, state_after(s, header)).len() == 0,
            }
        }),
{
    let region = region_of(b, s);
    if region.len() >= 8 {
        assert(region.subrange(4, 8) =~= b.subrange(s.cursor + 4, s.cursor + 8));
        if has_frame(region) {
            let n = framed_len(region);
            assert(chunk_at(region).bytes.subrange(4, 8) =~= region.subrange(4, 8));
            assert(region_of(b, WalkState { cursor: s.cursor + n, ..s }) =~= region.skip(n));
        }
    }
}

/// Tells what a walk needs done next.
fn pending(cursor: u64, end: u64, poisoned: bool) -> (step: Step)
    ensures
        step == pending_of(WalkState { cursor: cursor as int, end: end as int, poisoned }),
{
    if poisoned || cursor >= end {
        Step::Stop
    } else if end - cursor < 8 || cursor > u32::MAX as u64 {
        Step::Fail
    } else {
        Step::ReadHeader(cursor + 4)
    }
}

/// Takes one step of a walk: the payload length of the child at the cursor, or the error
/// that ends the walk, or nothing where the walk is over.
fn advance(cursor: u64, end: u64, poisoned: bool, header: Option<[u8; 4]>) -> (r: Option<
    RiffResult<u32>,
>)
    ensures
        ({
            let s = WalkState { cursor: cursor as int, end: end as int, poisoned };
            match r {
                None => item_of(s, header_view(header)) is None,
                Some(Ok(len)) => item_of(s, header_view(header)) == Some(
                    Ok::<(int, int), RiffError>((cursor as int, len as int)),
                ) && cursor <= u32::MAX && cursor + framed_size(len as int) <= end,
                Some(Err(e)) => item_of(s, header_view(header)) == Some(
                    Err::<(int, int), RiffError>(e),
                ),
            }
        }),
{
    match pending(cursor, end, poisoned) {
        Step::Stop => None,
        Step::Fail => Some(Err(RiffError::InsufficientBytes)),
        Step::ReadHeader(_) => match header {
            None => Some(Err(RiffError::InsufficientBytes)),
            Some(bytes) => {
                let len = read_u32_le(bytes.as_slice(), 0);
                assert(bytes@.subrange(0, 4) =~= bytes@);
                let framed: u64 = 8 + len as u64 + (len % 2) as u64;
                if framed <= end - cursor {
                    Some(Ok(len))
                } else {
                    Some(Err(RiffError::InsufficientBytes))
                }
            },
        },
    }
}

/// A walk over the children of a typed container in a source that is read on demand.
/// `pending` says what is to be read; `next` takes what was read and yields the item.
#[derive(Debug)]
pub struct ChunkIterType<R> {
    payload_cursor: u64,
    payload_end: u64,
    poisoned: bool,
    reader: Rc<R>,
}

impl<R> ChunkIterType<R> {
    /// The walk as a mathematical value.
    pub closed spec fn state(&self) -> WalkState {
        WalkState {
            cursor: self.payload_cursor as int,
            end: self.payload_end as int,
            poisoned: self.poisoned,
        }
    }

    /// The handle on the source.
    pub closed spec fn spec_reader(&self) -> Rc<R> {
        self.reader
    }

    /// What is to be done before `next` is called.
    pub fn pending(&self) -> (step: Step)
        ensures
            step == pending_of(self.state()),
    {
        pending(self.payload_cursor, self.payload_end, self.poisoned)
    }

    /// Yields the next item. `header` holds the bytes that `pending` asked for, or nothing
    /// where they could not be read or none were asked for. A child that would end behind
    /// the walk is an error, and an error ends the walk for good.
    pub fn next(&mut self, header: Option<[u8; 4]>) -> (r: Option<RiffResult<Chunk<R>>>)
        ensures
            item_view(r) == item_of(old(self).state(), header_view(header)),
            final(self).state() == state_after(old(self).state(), header_view(header)),
            final(self).spec_reader() == old(self).spec_reader(),
            r matches Some(Ok(chunk)) ==> chunk.spec_reader() == old(self).spec_reader(),
    {
        match advance(self.payload_cursor, self.payload_end, self.poisoned, header) {
            None => None,
            Some(Err(e)) => {
                self.poisoned = true;
                Some(Err(e))
            },
            Some(Ok(len)) => {
                let chunk = Chunk {
                    pos: self.payload_cursor as u32,
                    payload_len: len,
                    reader: share(&self.reader),
                };
                self.payload_cursor = self.payload_cursor + 8 + len as u64 + (len % 2) as u64;
                Some(Ok(chunk))
            },
        }
    }
}

/// A walk over the children of a container without a type tag in a source that is read
/// on demand. `pending` says what is to be read; `next` takes what was read and yields
/// the item.
#[derive(Debug)]
pub struct ChunkIterNoType<R> {
    payload_cursor: u64,
    payload_end: u64,
    poisoned: bool,
    reader: Rc<R>,
}

impl<R> ChunkIterNoType<R> {
    /// The walk as a mathematical value.
    pub closed spec fn state(&self) -> WalkState {
        WalkState {
            cursor: self.payload_cursor as int,
            end: self.payload_end as int,
            poisoned: self.poisoned,
        }
    }

    /// The handle on the source.
    pub closed spec fn spec_reader(&self) -> Rc<R> {
        self.reader
    }

    /// What is to be done before `next` is called.
    pub fn pending(&self) -> (step: Step)
        ensures
            step == pending_of(self.state()),
    {
        pending(self.payload_cursor, self.payload_end, self.poisoned)
    }

    /// Yields the next item. `header` holds the bytes that `pending` asked for, or nothing
    /// where they could not be read or none were asked for. A child that would end behind
    /// the walk is an error, and an error ends the walk for good.
    pub fn next(&mut self, header: Option<[u8; 4]>) -> (r: Option<RiffResult<Chunk<R>>>)
        ensures
            item_view(r) == item_of(old(self).state(), header_view(header)),
            final(self).state() == state_after(old(self).state(), header_view(header)),
            final(self).spec_reader() == old(self).spec_reader(),
            r matches Some(Ok(chunk)) ==> chunk.spec_reader() == old(self).spec_reader(),
    {
        match advance(self.payload_cursor, self.payload_end, self.poisoned, header) {
            None => None,
            Some(Err(e)) => {
                self.poisoned = true;
                Some(Err(e))
            },
            Some(Ok(len)) => {
                let chunk = Chunk {
                    pos: self.payload_cursor as u32,
                    payload_len: len,
                    reader: share(&self.reader),
                };
                self.payload_cursor = self.payload_cursor + 8 + len as u64 + (len % 2) as u64;
                Some(Ok(chunk))
            },
        }
    }
}

/// A RIFF source that is read on demand, behind a handle that its chunks share.
#[derive(Debug)]
pub struct Riff<R> {
    reader: Rc<R>,
}

impl<R> Riff<R> {
    /// The handle on the source.
    pub closed spec fn spec_reader(&self) -> Rc<R> {
        self.reader
    }

    /// Takes over the source of a RIFF file.
    pub fn from_file(reader: R) -> (riff: Riff<R>)
        ensures
            *riff.spec_reader() == reader,
    {
        Riff { reader: Rc::new(reader) }
    }

    /// One more handle on the source, for the caller to read with.
    pub fn reader(&self) -> (reader: Rc<R>)
        ensures
            reader == self.spec_reader(),
    {
        share(&self.reader)
    }

    /// The root chunk, whose header starts at the first byte of the source and whose
    /// length field holds `payload_buff`.
    pub fn get_chunk(&self, payload_buff: [u8; 4]) -> (chunk: Chunk<R>)
        ensures
            chunk.offset() == 0,
            chunk.len() == le_u32(payload_buff@),
            chunk.spec_reader() == self.spec_reader(),
    {
        Chunk::from_header(share(&self.reader), 0, payload_buff)
    }
}

} // verus!
