//! Core logic of a folder-browsing image viewer.
//!
//! The viewer shows one image of a folder at a time, preloads the
//! neighbours of the current image, keeps a small texture cache, and
//! maintains a strip of thumbnails with distance-based eviction.  All of
//! that decision logic lives here, verified, on plain values: a path is a
//! `String`, a texture is represented by the path that keys it.  Decoding,
//! drawing and file I/O stay outside the library.

use vstd::prelude::*;

pub mod folder;
pub mod path_text;
pub mod thumbs;
pub mod viewer;

verus! {

/// How far apart two positions in a folder listing are.
pub fn index_distance(a: usize, b: usize) -> (d: usize)
    ensures
        d == if a >= b { (a - b) as int } else { (b - a) as int },
{
    if a >= b {
        a - b
    } else {
        b - a
    }
}

} // verus!
