use crate::chunk_id::{ChunkId, ChunkType};
use crate::error::{RiffError, RiffResult};
use crate::layout::{
    child_region, chunk_at, content_of, declared_len, framed_len, has_content, has_frame,
    id_field, read_u32_le, ChunkKind, ChunkView,
};
pub use crate::riffu::{Chunk, ChunkIter};
use vstd::prelude::*;

verus! {

/// A tree of chunks as a mathematical value.
pub enum ContentsView {
    /// A leaf: its identifier and its content.
    RawData(Seq<u8>, Seq<u8>),
    /// A typed container: its identifier, its type tag and its children.
    Children(Seq<u8>, Seq<u8>, Seq<ContentsView>),
    /// A sequence: its identifier and its children.
    ChildrenNoType(Seq<u8>, Seq<ContentsView>),
}

/// A chunk with all that lies below it, read out into a tree. Leaves still look into the
/// buffer that they were read from.
#[derive(Debug)]
pub enum ChunkContents<'a> {
    RawData(ChunkId, &'a [u8]),
    Children(ChunkId, ChunkType, Vec<ChunkContents<'a>>),
    ChildrenNoType(ChunkId, Vec<ChunkContents<'a>>),
}

impl<'a> View for ChunkContents<'a> {
    type V = ContentsView;

    open spec fn view(&self) -> ContentsView
        decreases self,
    {
        match self {
            ChunkContents::RawData(id, data) => ContentsView::RawData(id.value@, data@),
            ChunkContents::Children(id, tag, kids) => ContentsView::Children(
                id.value@,
                tag.value@,
                Seq::new(
                    kids@.len(),
                    |i: int|
                        if 0 <= i < kids@.len() {
                            kids@[i]@
                        } else {
                            ContentsView::RawData(Seq::empty(), Seq::empty())
                        },
                ),
            ),
            ChunkContents::ChildrenNoType(id, kids) => ContentsView::ChildrenNoType(
                id.value@,
                Seq::new(
                    kids@.len(),
                    |i: int|
                        if 0 <= i < kids@.len() {
                            kids@[i]@
                        } else {
                            ContentsView::RawData(Seq::empty(), Seq::empty())
                        },
                ),
            ),
        }
    }
}

/// The trees of `kids`, in order.
pub open spec fn views(kids: Seq<ChunkContents<'_>>) -> Seq<ContentsView> {
    Seq::new(kids.len(), |i: int| kids[i]@)
}

/// The tree below a chunk. It is there where the chunk holds its content and every
/// container below it is walked to its end without an error.
pub open spec fn tree_of(c: ChunkView) -> Result<ContentsView, RiffError>
    decreases c.bytes.len(), 0int,
{
    if !has_content(c) {
        Err(RiffError::InsufficientBytes)
    } else {
        match c.kind {
            ChunkKind::Raw => Ok(ContentsView::RawData(id_field(c.bytes), content_of(c))),
            ChunkKind::List => match forest_of(content_of(c)) {
                Ok(kids) => Ok(
                    ContentsView::Children(id_field(c.bytes), c.bytes.subrange(8, 12), kids),
                ),
                Err(e) => Err(e),
            },
            ChunkKind::Seqt => match forest_of(content_of(c)) {
                Ok(kids) => Ok(ContentsView::ChildrenNoType(id_field(c.bytes), kids)),
                Err(e) => Err(e),
            },
        }
    }
}

/// The trees below the chunks that lie in `region`, one after the other.
pub open spec fn forest_of(region: Seq<u8>) -> Result<Seq<ContentsView>, RiffError>
    decreases region.len(), 1int,
{
    if region.len() == 0 {
        Ok(Seq::empty())
    } else if !has_frame(region) {
        Err(RiffError::InsufficientBytes)
    } else {
        match tree_of(chunk_at(region)) {
            Ok(tree) => prepend(tree, forest_of(region.skip(framed_len(region)))),
            Err(e) => Err(e),
        }
    }
}

/// `rest` with `tree` put before it, where `rest` is there.
pub open spec fn prepend(tree: ContentsView, rest: Result<Seq<ContentsView>, RiffError>) -> Result<
    Seq<ContentsView>,
    RiffError,
> {
    match rest {
        Ok(trees) => Ok(seq![tree] + trees),
        Err(e) => Err(e),
    }
}

/// `rest` with `done` put before it, where `rest` is there.
pub open spec fn join(done: Seq<ContentsView>, rest: Result<Seq<ContentsView>, RiffError>) -> Result<
    Seq<ContentsView>,
    RiffError,
> {
    match rest {
        Ok(trees) => Ok(done + trees),
        Err(e) => Err(e),
    }
}

impl<'a> ChunkContents<'a> {
    /// Reads out the whole tree below `chunk`: a leaf with its content, a container with
    /// the trees of its children in order. Fails where a chunk anywhere below does not
    /// hold what its header declares.
    pub fn try_from(chunk: Chunk<'a>) -> (r: RiffResult<ChunkContents<'a>>)
        ensures
            match r {
                Ok(tree) => tree_of(chunk@) == Ok::<ContentsView, RiffError>(tree@),
                Err(e) => tree_of(chunk@) == Err::<ContentsView, RiffError>(e),
            },
        decreases chunk@.bytes.len(),
    {
        let id = match chunk.id() {
            Ok(id) => ChunkId { value: *id.as_bytes() },
            Err(e) => {
                return Err(e);
            },
        };
        let tag = match chunk {
            Chunk::Raw(_) => {
                return match chunk.content() {
                    Ok(data) => Ok(ChunkContents::RawData(id, data)),
                    Err(e) => Err(e),
                };
            },
            Chunk::List(_) => match chunk.chunk_type() {
                Ok(tag) => Some(ChunkType { value: *tag.as_bytes() }),
                Err(e) => {
                    return Err(e);
                },
            },
            Chunk::Seqt(_) => None,
        };
        let mut walk = match chunk.iter() {
            Ok(walk) => walk,
            Err(e) => {
                return Err(e);
            },
        };
        let ghost whole = walk.region();
        let mut kids: Vec<ChunkContents<'a>> = Vec::new();
        assert(join(views(kids@), forest_of(whole)) == forest_of(whole)) by {
            assert(views(kids@) =~= Seq::empty());
            if let Ok(trees) = forest_of(whole) {
                assert(Seq::<ContentsView>::empty() + trees =~= trees);
            }
        }
        loop
            invariant
                has_content(chunk@),
                chunk@.kind != ChunkKind::Raw,
                id.value@ == id_field(chunk@.bytes),
                match tag {
                    Some(tag) => chunk@.kind == ChunkKind::List && tag.value@
                        == chunk@.bytes.subrange(8, 12),
                    None => chunk@.kind == ChunkKind::Seqt,
                },
                whole == content_of(chunk@),
                walk.region().len() <= whole.len(),
                forest_of(whole) == join(views(kids@), forest_of(walk.region())),
            ensures
                forest_of(whole) == Ok::<Seq<ContentsView>, RiffError>(views(kids@)),
            decreases walk.region().len(),
        {
            let ghost region = walk.region();
            let ghost done = views(kids@);
            match walk.next() {
                None => {
                    assert(done + Seq::<ContentsView>::empty() =~= done);
                    break ;
                },
                Some(Err(e)) => {
                    return Err(e);
                },
                Some(Ok(child)) => {
                    match ChunkContents::try_from(child) {
                        Err(e) => {
                            return Err(e);
                        },
                        Ok(kid) => {
                            kids.push(kid);
                            proof {
                                let rest = forest_of(region.skip(framed_len(region)));
                                assert(views(kids@) =~= done.push(kid@));
                                if let Ok(trees) = rest {
                                    assert(done + (seq![kid@] + trees) =~= done.push(kid@)
                                        + trees);
                                }
                            }
                        },
                    }
                },
            }
        }
        let ghost trees = views(kids@);
        let tree = match tag {
            Some(tag) => ChunkContents::Children(id, tag, kids),
            None => ChunkContents::ChildrenNoType(id, kids),
        };
        proof {
            match tree@ {
                ContentsView::Children(_, _, below) => {
                    assert(below =~= trees);
                },
                ContentsView::ChildrenNoType(_, below) => {
                    assert(below =~= trees);
                },
                _ => {},
            }
        }
        Ok(tree)
    }
}

/// A RIFF file read into memory. It owns the one buffer that every chunk read from it
/// looks into.
#[derive(Debug)]
pub struct Riff {
    data: Vec<u8>,
}

impl View for Riff {
    type V = Seq<u8>;

    closed spec fn view(&self) -> Seq<u8> {
        self.data@
    }
}

impl Riff {
    /// Takes over the bytes of a RIFF file.
    pub fn new(data: Vec<u8>) -> (riff: Riff)
        ensures
            riff@ == data@,
    {
        Riff { data }
    }

    /// Reads the root chunk, which starts at the first byte. Fails where the buffer ends
    /// before the frame that the root's header declares.
    pub fn as_chunk(&self) -> (r: RiffResult<Chunk<'_>>)
        ensures
            match r {
                Ok(chunk) => has_frame(self@) && chunk@ == chunk_at(self@) && chunk.wf(),
                Err(e) => !has_frame(self@) && e == RiffError::InsufficientBytes,
            },
    {
        Chunk::from_bytes(self.data.as_slice())
    }

    /// The identifier of the root chunk: the first four bytes.
    pub fn id(&self) -> (r: RiffResult<ChunkId>)
        ensures
            match r {
                Ok(id) => self@.len() >= 4 && id.value@ == id_field(self@),
                Err(e) => self@.len() < 4 && e == RiffError::InsufficientBytes,
            },
    {
        if self.data.len() < 4 {
            return Err(RiffError::InsufficientBytes);
        }
        let id = ChunkId { value: [self.data[0], self.data[1], self.data[2], self.data[3]] };
        assert(id.value@ =~= id_field(self@));
        Ok(id)
    }

    /// The payload length that the root's header declares.
    pub fn payload_len(&self) -> (r: RiffResult<u32>)
        ensures
            match r {
                Ok(n) => self@.len() >= 8 && n == declared_len(self@),
                Err(e) => self@.len() < 8 && e == RiffError::InsufficientBytes,
            },
    {
        if self.data.len() < 8 {
            return Err(RiffError::InsufficientBytes);
        }
        Ok(read_u32_le(self.data.as_slice(), 4))
    }

    /// Starts a walk over the children of the root chunk.
    pub fn iter(&self) -> (r: RiffResult<ChunkIter<'_>>)
        ensures
            match r {
                Ok(it) => has_frame(self@) && it.region() == child_region(chunk_at(self@))
                    && !it.poisoned(),
                Err(e) => !has_frame(self@) && e == RiffError::InsufficientBytes,
            },
    {
        match self.as_chunk() {
            Ok(chunk) => chunk.iter(),
            Err(e) => Err(e),
        }
    }
}

} // verus!
