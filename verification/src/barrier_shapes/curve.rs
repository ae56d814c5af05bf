//! A freehand stroke: an accumulating sequence of rasterized line segments
//! between consecutive pointer positions, remembering the last position so
//! the stroke can be extended incrementally.

use vstd::prelude::*;

use crate::barrier_shapes::line::{line_points_spec, valid_endpoints, Line, MAX_DIM};
use crate::barrier_shapes::{
    insert_pt, set_extend, vec_insert_point, vec_set_extend, Shape, TaggedPoint,
};

verus! {

/// An in-progress freehand stroke.
pub struct Curve {
    pub points: Vec<TaggedPoint>,
    pub last_point: Option<(isize, isize)>,
}

impl Shape for Curve {
    open spec fn pts(&self) -> Seq<TaggedPoint> {
        self.points@
    }

    fn get_points(&self) -> (r: &Vec<TaggedPoint>) {
        &self.points
    }

    fn is_empty(&self) -> (r: bool) {
        self.points.len() == 0
    }
}

impl Curve {
    /// A curve with no points and no remembered position.
    pub fn new() -> (r: Curve)
        ensures
            r.points@ == Seq::<TaggedPoint>::empty(),
            r.last_point is None,
    {
        Curve { points: Vec::new(), last_point: None }
    }

    /// Extend the stroke with a present-tagged segment from the remembered
    /// position to `next`, or start it at `next` if nothing is remembered.
    pub fn add_segment(&mut self, next: (isize, isize), xdim: isize, ydim: isize)
        requires
            0 < xdim <= MAX_DIM,
            0 < ydim <= MAX_DIM,
            0 <= next.0 < xdim,
            0 <= next.1 < ydim,
            old(self).last_point matches Some(lp) ==> 0 <= lp.0 < xdim && 0 <= lp.1 < ydim,
        ensures
            final(self).last_point == Some(next),
            (old(self).last_point matches Some(lp) ==> final(self).points@ == set_extend(
                old(self).points@,
                line_points_spec(lp, next, xdim, ydim, true, 2),
            )),
            (old(self).last_point is None ==> final(self).points@ == insert_pt(
                old(self).points@,
                (next.0, next.1, true),
            )),
    {
        match self.last_point {
            Some(lp) => {
                let line = Line::new(lp, next, xdim, ydim).unwrap();
                vec_set_extend(&mut self.points, &line.points);
                self.last_point = Some(next);
            },
            None => {
                vec_insert_point(&mut self.points, (next.0, next.1, true));
                self.last_point = Some(next);
            },
        }
    }

    /// Extend the stroke with an absent-tagged (erasing) segment of
    /// brush thickness from the remembered position to `next`, or start it
    /// at `next` if nothing is remembered.
    pub fn erase_segment(&mut self, next: (isize, isize), xdim: isize, ydim: isize)
        requires
            0 < xdim <= MAX_DIM,
            0 < ydim <= MAX_DIM,
            0 <= next.0 < xdim,
            0 <= next.1 < ydim,
            old(self).last_point matches Some(lp) ==> 0 <= lp.0 < xdim && 0 <= lp.1 < ydim,
        ensures
            final(self).last_point == Some(next),
            (old(self).last_point matches Some(lp) ==> final(self).points@ == set_extend(
                old(self).points@,
                line_points_spec(lp, next, xdim, ydim, false, 30),
            )),
            (old(self).last_point is None ==> final(self).points@ == insert_pt(
                old(self).points@,
                (next.0, next.1, false),
            )),
    {
        match self.last_point {
            Some(lp) => {
                let line = Line::new_erased(lp, next, xdim, ydim).unwrap();
                vec_set_extend(&mut self.points, &line.points);
                self.last_point = Some(next);
            },
            None => {
                vec_insert_point(&mut self.points, (next.0, next.1, false));
                self.last_point = Some(next);
            },
        }
    }

    /// Clear both the point set and the remembered position.
    pub fn empty(&mut self)
        ensures
            final(self).points@ == Seq::<TaggedPoint>::empty(),
            final(self).last_point is None,
    {
        self.points.clear();
        self.last_point = None;
    }

    /// Merge every point of another shape into this curve's point set.
    pub fn join<S: Shape>(&mut self, shape: &S)
        ensures
            final(self).points@ == set_extend(old(self).points@, shape.pts()),
            final(self).last_point == old(self).last_point,
    {
        vec_set_extend(&mut self.points, shape.get_points());
    }
}

} // verus!
