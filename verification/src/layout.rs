use crate::error::RiffError;
use vstd::prelude::*;

verus! {

/// The three kinds of chunk, told apart by the identifier alone.
#[derive(Debug, Clone, Copy, PartialEq, Eq, Structural)]
pub enum ChunkKind {
    /// A leaf: opaque payload, no children.
    Raw,
    /// A container whose payload opens with a type tag.
    List,
    /// A container whose children follow the header directly.
    Seqt,
}

/// A chunk as a mathematical value: its kind and the bytes of its frame.
pub struct ChunkView {
    pub kind: ChunkKind,
    pub bytes: Seq<u8>,
}

/// Bytes of `RIFF`.
pub open spec fn riff_tag() -> Seq<u8> {
    seq![0x52u8, 0x49u8, 0x46u8, 0x46u8]
}

/// Bytes of `LIST`.
pub open spec fn list_tag() -> Seq<u8> {
    seq![0x4cu8, 0x49u8, 0x53u8, 0x54u8]
}

/// Bytes of `SEQT`.
pub open spec fn seqt_tag() -> Seq<u8> {
    seq![0x53u8, 0x45u8, 0x51u8, 0x54u8]
}

/// The kind that an identifier stands for.
pub open spec fn kind_of(id: Seq<u8>) -> ChunkKind {
    if id == riff_tag() || id == list_tag() {
        ChunkKind::List
    } else if id == seqt_tag() {
        ChunkKind::Seqt
    } else {
        ChunkKind::Raw
    }
}

/// The number that four bytes spell, least significant byte first.
pub open spec fn le_u32(b: Seq<u8>) -> int
    recommends
        b.len() == 4,
{
    b[0] as int + 256 * (b[1] as int) + 65536 * (b[2] as int) + 16777216 * (b[3] as int)
}

/// The identifier field of a header.
pub open spec fn id_field(b: Seq<u8>) -> Seq<u8>
    recommends
        b.len() >= 4,
{
    b.subrange(0, 4)
}

/// The payload length that a header declares.
pub open spec fn declared_len(b: Seq<u8>) -> int
    recommends
        b.len() >= 8,
{
    le_u32(b.subrange(4, 8))
}

/// Bytes that a chunk with payload length `n` takes up: header, payload and pad byte.
pub open spec fn framed_size(n: int) -> int {
    8 + n + n % 2
}

/// Bytes that the chunk at the front of `b` takes up.
pub open spec fn framed_len(b: Seq<u8>) -> int
    recommends
        b.len() >= 8,
{
    framed_size(declared_len(b))
}

/// `b` opens with a whole chunk: a header and all the bytes that it declares.
pub open spec fn has_frame(b: Seq<u8>) -> bool {
    b.len() >= 8 && framed_len(b) <= b.len()
}

/// The chunk at the front of `b`.
pub open spec fn chunk_at(b: Seq<u8>) -> ChunkView
    recommends
        has_frame(b),
{
    ChunkView { kind: kind_of(id_field(b)), bytes: b.subrange(0, framed_len(b)) }
}

/// What reading a chunk at the front of `b` gives.
pub open spec fn parse(b: Seq<u8>) -> Result<ChunkView, RiffError> {
    if has_frame(b) {
        Ok(chunk_at(b))
    } else {
        Err(RiffError::InsufficientBytes)
    }
}

/// Offset within a frame at which content or the first child begins.
pub open spec fn content_start(kind: ChunkKind) -> int {
    match kind {
        ChunkKind::List => 12,
        _ => 8,
    }
}

/// A frame as `parse` produces it: exactly as long as its header declares, and of the kind
/// that its identifier stands for.
pub open spec fn well_formed(c: ChunkView) -> bool {
    &&& c.bytes.len() >= 8
    &&& c.bytes.len() == framed_len(c.bytes)
    &&& c.kind == kind_of(id_field(c.bytes))
}

/// The items that a walk over `region` yields, one chunk after the other. The walk ends
/// when the region is used up, or with one error where no whole chunk is left.
pub open spec fn children(region: Seq<u8>) -> Seq<Result<ChunkView, RiffError>>
    decreases region.len(),
{
    if region.len() == 0 {
        Seq::empty()
    } else if has_frame(region) {
        seq![Ok(chunk_at(region))] + children(region.skip(framed_len(region)))
    } else {
        seq![Err(RiffError::InsufficientBytes)]
    }
}

/// The frame holds a header and the whole of the payload that the header declares.
pub open spec fn holds_payload(c: ChunkView) -> bool {
    c.bytes.len() >= 8 && 8 + declared_len(c.bytes) <= c.bytes.len()
}

/// The frame holds its payload, and the payload holds what stands before the content:
/// nothing in a leaf or a sequence, the type tag in a typed container.
pub open spec fn has_content(c: ChunkView) -> bool {
    holds_payload(c) && content_start(c.kind) <= 8 + declared_len(c.bytes)
}

/// The content of a chunk: its payload, less the type tag of a typed container. The pad
/// byte is no part of it.
pub open spec fn content_of(c: ChunkView) -> Seq<u8>
    recommends
        has_content(c),
{
    c.bytes.subrange(content_start(c.kind), 8 + declared_len(c.bytes))
}

/// The part of a frame in which a container keeps its children. A leaf has none, and so
/// has a typed container too short for its type tag.
pub open spec fn child_region(c: ChunkView) -> Seq<u8> {
    if c.kind != ChunkKind::Raw && has_content(c) {
        content_of(c)
    } else {
        Seq::empty()
    }
}

/// A frame cut from the front of a buffer reads as the chunk that it was cut as.
pub proof fn lemma_frame_parses(b: Seq<u8>)
    requires
        has_frame(b),
    ensures
        parse(chunk_at(b).bytes) == Ok::<ChunkView, RiffError>(chunk_at(b)),
        well_formed(chunk_at(b)),
{
    let frame = chunk_at(b).bytes;
    assert(frame.subrange(4, 8) =~= b.subrange(4, 8));
    assert(frame.subrange(0, 4) =~= b.subrange(0, 4));
    assert(frame.subrange(0, framed_len(frame)) =~= frame);
}

/// Every item of a walk is a chunk: the walk met no error.
pub open spec fn all_ok(items: Seq<Result<ChunkView, RiffError>>) -> bool {
    forall|i: int| 0 <= i < items.len() ==> (#[trigger] items[i]) is Ok
}

/// Bytes that the chunks among `items` take up, frame by frame.
pub open spec fn framed_total(items: Seq<Result<ChunkView, RiffError>>) -> int
    decreases items.len(),
{
    if items.len() == 0 {
        0
    } else {
        let first = match items[0] {
            Ok(c) => c.bytes.len() as int,
            Err(_) => 0,
        };
        first + framed_total(items.skip(1))
    }
}

/// A walk that meets no error uses its region up: the frames of the children add up to
/// the length of the region, with no gap between them and no byte beyond.
pub proof fn lemma_children_fill_region(region: Seq<u8>)
    requires
        all_ok(children(region)),
    ensures
        framed_total(children(region)) == region.len(),
    decreases region.len(),
{
    if region.len() == 0 {
    } else if has_frame(region) {
        let rest = region.skip(framed_len(region));
        let items = children(region);
        assert(items.skip(1) =~= children(rest));
        assert forall|i: int| 0 <= i < children(rest).len() implies (#[trigger] children(
            rest,
        )[i]) is Ok by {
            assert(items[i + 1] is Ok);
        }
        lemma_children_fill_region(rest);
    } else {
        assert(children(region)[0] is Err);
    }
}

/// In a walk an error comes last, and it is the error of bytes that ran out.
pub proof fn lemma_error_ends_walk(region: Seq<u8>)
    ensures
        forall|i: int|
            0 <= i < children(region).len() && (#[trigger] children(region)[i]) is Err ==> i
                == children(region).len() - 1 && children(region)[i] == Err::<
                ChunkView,
                RiffError,
            >(RiffError::InsufficientBytes),
    decreases region.len(),
{
    if region.len() > 0 && has_frame(region) {
        let rest = region.skip(framed_len(region));
        lemma_error_ends_walk(rest);
        assert forall|i: int|
            0 <= i < children(region).len() && (#[trigger] children(region)[i]) is Err implies i
            == children(region).len() - 1 && children(region)[i] == Err::<ChunkView, RiffError>(
            RiffError::InsufficientBytes,
        ) by {
            assert(children(region)[i] == children(rest)[i - 1]);
        }
    }
}

/// Cutting a buffer short leaves the chunk at its front as it was, where the cut lies
/// behind the chunk's frame; where it lies within, reading fails for want of bytes.
pub proof fn lemma_truncated_parse(b: Seq<u8>, cut: int)
    requires
        0 <= cut <= b.len(),
    ensures
        has_frame(b) && framed_len(b) <= cut ==> parse(b.take(cut)) == parse(b),
        !(has_frame(b) && framed_len(b) <= cut) ==> parse(b.take(cut)) == Err::<
            ChunkView,
            RiffError,
        >(RiffError::InsufficientBytes),
{
    let t = b.take(cut);
    if cut >= 8 {
        assert(t.subrange(4, 8) =~= b.subrange(4, 8));
        assert(t.subrange(0, 4) =~= b.subrange(0, 4));
        if has_frame(b) && framed_len(b) <= cut {
            assert(t.subrange(0, framed_len(t)) =~= b.subrange(0, framed_len(b)));
        }
    }
}

/// Cutting a region short at any byte changes a walk in one way only. The children that
/// lie wholly before the cut come out as before, in the same order; a child that the cut
/// runs through comes out as one error for want of bytes, and the walk ends there.
pub proof fn lemma_truncated_children(region: Seq<u8>, cut: int)
    requires
        0 <= cut <= region.len(),
    ensures
        children(region.take(cut)).len() <= children(region).len(),
        framed_total(children(region.take(cut))) <= cut,
        forall|i: int|
            0 <= i < children(region.take(cut)).len() && (#[trigger] children(
                region.take(cut),
            )[i]) is Ok ==> children(region.take(cut))[i] == children(region)[i],
        forall|i: int|
            0 <= i < children(region.take(cut)).len() && (#[trigger] children(
                region.take(cut),
            )[i]) is Err ==> i == children(region.take(cut)).len() - 1 && children(
                region.take(cut),
            )[i] == Err::<ChunkView, RiffError>(RiffError::InsufficientBytes),
    decreases region.len(),
{
    let t = region.take(cut);
    lemma_error_ends_walk(t);
    lemma_truncated_parse(region, cut);
    if cut == 0 {
    } else if has_frame(t) {
        let n = framed_len(region);
        assert(has_frame(region) && n <= cut && framed_len(t) == n) by {
            assert(t.subrange(4, 8) =~= region.subrange(4, 8));
        }
        let rest = region.skip(n);
        assert(t.skip(n) =~= rest.take(cut - n));
        lemma_truncated_children(rest, cut - n);
        let short = children(rest.take(cut - n));
        assert(children(t).skip(1) =~= short);
        assert(children(t)[0] == Ok::<ChunkView, RiffError>(chunk_at(t)));
        assert(framed_total(children(t)) == n + framed_total(short));
        assert forall|i: int|
            0 <= i < children(t).len() && (#[trigger] children(t)[i]) is Ok implies children(
            t,
        )[i] == children(region)[i] by {
            if i > 0 {
                assert(children(t)[i] == short[i - 1]);
                assert(children(region)[i] == children(rest)[i - 1]);
            }
        }
    } else {
        assert(children(t).skip(1) =~= Seq::empty());
        assert(framed_total(children(t)) == 0) by {
            reveal_with_fuel(framed_total, 2);
        }
    }
}

/// The next sibling begins right behind the frame: one pad byte behind an odd payload,
/// none behind an even one.
pub proof fn lemma_sibling_offset(region: Seq<u8>)
    requires
        has_frame(region),
        framed_len(region) < region.len(),
    ensures
        children(region).len() >= 2,
        children(region)[0] == Ok::<ChunkView, RiffError>(chunk_at(region)),
        declared_len(region) % 2 == 1 ==> children(region)[1] == parse(
            region.skip(8 + declared_len(region) + 1),
        ),
        declared_len(region) % 2 == 0 ==> children(region)[1] == parse(
            region.skip(8 + declared_len(region)),
        ),
{
    let rest = region.skip(framed_len(region));
    assert(children(rest).len() >= 1 && children(rest)[0] == parse(rest)) by {
        reveal_with_fuel(children, 2);
    }
    assert(children(region) == seq![Ok::<ChunkView, RiffError>(chunk_at(region))] + children(
        rest,
    ));
}

/// Reads four bytes at `at` as a little-endian number.
pub(crate) fn read_u32_le(data: &[u8], at: usize) -> (r: u32)
    requires
        at + 4 <= data@.len(),
    ensures
        r == le_u32(data@.subrange(at as int, at + 4)),
{
    let b0: u32 = data[at] as u32;
    let b1: u32 = data[at + 1] as u32;
    let b2: u32 = data[at + 2] as u32;
    let b3: u32 = data[at + 3] as u32;
    b0 + b1 * 256 + b2 * 65536 + b3 * 16777216
}

} // verus!
