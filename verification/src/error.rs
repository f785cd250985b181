use vstd::prelude::*;

verus! {

/// Why a read of a RIFF buffer was refused.
#[derive(Debug, Clone, Copy, PartialEq, Eq, Structural)]
pub enum RiffError {
    /// A field or a frame reaches past the end of the bytes at hand.
    InsufficientBytes,
    /// The four bytes of an identifier are not UTF-8 text.
    InvalidIdentifier,
    /// A type tag was asked of a chunk that carries none.
    NoChunkType,
}

/// A convenient `Result` type.
pub type RiffResult<T> = Result<T, RiffError>;

} // verus!
