pub mod chunk_id;
pub mod constants;
pub mod error;
pub mod fourcc;
pub mod generic;
mod handle;
pub mod layout;
pub mod riff_disk;
pub mod riff_ram;
pub mod riffu;
mod text;

pub use error::RiffError;
pub use fourcc::FourCC;
pub use riffu::{Chunk, ChunkIter, Riff};
