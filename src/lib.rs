//! Music library organiser: track metadata inference from tags and file
//! names, and planning of moves into an artist/album folder hierarchy.

pub mod text;
pub mod sep;
pub mod meta;
pub mod infer;
pub mod sort;
pub mod rename;
pub mod common;

