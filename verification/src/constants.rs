use vstd::prelude::*;

verus! {

/// Identifier of the outermost typed container.
pub const RIFF_ID: [u8; 4] = [0x52, 0x49, 0x46, 0x46];

/// Identifier of a nested typed container.
pub const LIST_ID: [u8; 4] = [0x4c, 0x49, 0x53, 0x54];

/// Identifier of a container whose children follow without a type tag.
pub const SEQT_ID: [u8; 4] = [0x53, 0x45, 0x51, 0x54];

} // verus!
