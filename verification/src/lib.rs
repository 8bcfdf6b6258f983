//! A small heuristic state-space search library.
//!
//! The core is a pair of search engines over a grid-walking domain: a fixed
//! single-pass beam search and a multi-pass, depth-sliced chokudai search.
//! Both rank candidate states in a binary max-heap and propagate the first
//! action taken at the root through every descendant, so that a deep
//! evaluation can recommend an immediate move.
//!
//! Around the engines sit a few smaller verified pieces: the priority heap
//! itself (usable with any type that provides a rank order), helpers that
//! select directory or file names out of a listing, and name filtering by a
//! regular expression.

use vstd::prelude::*;

pub mod beam_search;
pub mod chokudai_search;
pub mod file_handling;
pub mod find_files;
pub mod heap;
pub mod node;
pub mod pattern;
pub mod state;
pub mod two_comparison;

verus! {

/// Sum of two counters.
pub fn add(left: usize, right: usize) -> (r: usize)
    requires
        left + right <= usize::MAX,
    ensures
        r == left + right,
{
    left + right
}

} // verus!
