//! Converts a heading-structured rendered fragment into a nested sectional
//! tree and serializes it back as indented wrapper markup, and derives a
//! hierarchical table of contents from the same heading stream. The tree
//! builder honours both the depth rule (an incoming heading closes every
//! open section of its level or deeper) and an explicit-close marker riding
//! inside the content; the renderer keeps preformatted blocks verbatim and
//! re-flows everything else.

use vstd::prelude::*;

pub mod bytes;
pub mod scan;
pub mod tree;
pub mod front;
pub mod laws;
pub mod page;
pub mod render;
pub mod toc;

verus! {

} // verus!
