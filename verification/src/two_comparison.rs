//! A point ranked by two keys, for use in the priority heap.
//!
//! A shorter distance ranks higher, so a shortest-path style search pops
//! the nearest point first; among equal distances the higher score ranks
//! higher.

use crate::heap::Rank;
use vstd::prelude::*;

verus! {

/// A point with a distance and a score.
#[derive(Clone, Copy)]
pub struct Point {
    pub id: usize,
    pub dist: usize,
    pub score: usize,
}

impl Point {
    pub fn new(id: usize, dist: usize, score: usize) -> (r: Self)
        ensures
            r.id == id,
            r.dist == dist,
            r.score == score,
    {
        Point { id, dist, score }
    }
}

impl View for Point {
    type V = Point;

    open spec fn view(&self) -> Point {
        *self
    }
}

impl Rank for Point {
    /// `a` ranks no higher than `b`: `b` is strictly nearer, or they are
    /// equally near and `a` scores no higher.
    open spec fn rank_le_spec(a: Point, b: Point) -> bool {
        b.dist < a.dist || (a.dist == b.dist && a.score <= b.score)
    }

    proof fn rank_le_total(a: Point, b: Point) {
    }

    proof fn rank_le_trans(a: Point, b: Point, c: Point) {
    }

    fn rank_le(&self, other: &Self) -> (r: bool) {
        if other.dist < self.dist {
            true
        } else if self.dist == other.dist {
            self.score <= other.score
        } else {
            false
        }
    }
}

} // verus!
