//! A completed multi-segment curve: consecutive freehand strokes frozen
//! into one shape for the undo history.

use vstd::prelude::*;

use crate::barrier_shapes::curve::Curve;
use crate::barrier_shapes::{set_extend, vec_set_extend, Shape, TaggedPoint};

verus! {

/// A finished sequence of freehand strokes.
pub struct CurveCollection {
    pub last_point: Option<(isize, isize)>,
    pub points: Vec<TaggedPoint>,
}

impl Shape for CurveCollection {
    open spec fn pts(&self) -> Seq<TaggedPoint> {
        self.points@
    }

    fn get_points(&self) -> (r: &Vec<TaggedPoint>) {
        &self.points
    }

    fn is_empty(&self) -> (r: bool) {
        self.points.len() == 0
    }
}

impl CurveCollection {
    /// An empty collection.
    pub fn new() -> (r: CurveCollection)
        ensures
            r.points@ == Seq::<TaggedPoint>::empty(),
            r.last_point is None,
    {
        CurveCollection { last_point: None, points: Vec::new() }
    }

    /// Absorb a finished curve: its points are merged in and its last
    /// position taken over.
    pub fn add_curve(&mut self, curve: Curve)
        ensures
            final(self).points@ == set_extend(old(self).points@, curve.points@),
            final(self).last_point == curve.last_point,
    {
        self.last_point = curve.last_point;
        vec_set_extend(&mut self.points, &curve.points);
    }
}

} // verus!
