//! A streaming 64-bit xxHash engine.
//!
//! The digest of a byte sequence is defined once, as a mathematical function
//! over `Seq<u8>` (see [`digest::xxh64`]); the incremental engine
//! [`XxHash64`] is proved to compute exactly that function of everything
//! written to it, however the input is cut into pieces.

pub mod accumulator;
pub mod buffer;
pub mod digest;
pub mod file_hash;
pub mod mixing;
pub mod sixty_four;
pub mod words;

pub use crate::sixty_four::XxHash64;
