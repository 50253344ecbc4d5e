//! Decoder for the AIR container format: a fixed 24-byte signature followed by
//! an LLVM-style bitstream of nested blocks, abbreviation definitions and
//! records.

pub mod abbrev;
pub mod bits;
pub mod block;
pub mod char6;
pub mod cursor;
pub mod decode;
pub mod error;
pub mod frames;
pub mod header;
pub mod render;
pub mod tree;
pub mod vbr;
