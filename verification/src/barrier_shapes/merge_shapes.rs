//! Merging shapes into blobs and flattening a shape into the packed
//! `(index, value)` word list the barrier-update scatter pass consumes.

use vstd::prelude::*;

use crate::barrier_shapes::blob::{seq_join, Blob};
use crate::barrier_shapes::{map_join, Shape, TaggedPoint};

verus! {

/// Merge two shapes into one blob, the second shape's tags overwriting the
/// first's at shared coordinates.
pub fn merge<S1: Shape, S2: Shape>(s1: &S1, s2: &S2) -> (b: Blob)
    ensures
        b.wf(),
        b.points@ == seq_join(seq_join(Seq::empty(), s1.pts()), s2.pts()),
        b@ == map_join(map_join(Map::empty(), s1.pts()), s2.pts()),
    {
    let mut b = Blob::new_empty();
    b.join(s1);
    b.join(s2);
    b
}

/// The packed index into the row-major lattice for a point.
pub fn get_index(point: &TaggedPoint, xdim: usize) -> (r: u32)
    requires
        0 <= point.0 < xdim,
        0 <= point.1,
        point.1 * xdim + point.0 < 0x1_0000_0000,
    ensures
        r == point.0 + point.1 * xdim,
{
    (((point.0 as u64) + (point.1 as u64) * (xdim as u64)) as u32)
}

/// The barrier word a tag stands for: one for present, zero for absent.
pub fn get_value(point: &TaggedPoint) -> (r: u32)
    ensures
        r == (if point.2 {
            1u32
        } else {
            0u32
        }),
{
    if point.2 {
        1
    } else {
        0
    }
}

/// Whether every point of `s` can be packed into an index word on an
/// `xdim`-wide lattice.
pub open spec fn packable(s: Seq<TaggedPoint>, xdim: usize) -> bool {
    forall|k: int| #![trigger s[k]]
        0 <= k < s.len() ==> 0 <= s[k].0 < xdim && 0 <= s[k].1 && s[k].1 * xdim + s[k].0
            < 0x1_0000_0000
}

/// Flatten a shape into the packed word list the barrier-update pass
/// consumes: for each point, its row-major lattice index followed by the
/// barrier value its tag stands for.
#[verifier::loop_isolation(false)]
pub fn get_points_vector<S: Shape>(shape: &S, xdim: usize) -> (r: Vec<u32>)
    requires
        packable(shape.pts(), xdim),
    ensures
        r@.len() == 2 * shape.pts().len(),
        forall|k: int| #![trigger r@[2 * k]]
            0 <= k < shape.pts().len() ==> r@[2 * k] == shape.pts()[k].0 + shape.pts()[k].1 * xdim
                && r@[2 * k + 1] == (if shape.pts()[k].2 {
                1u32
            } else {
                0u32
            }),
{
    let pts = shape.get_points();
    let mut out: Vec<u32> = Vec::new();
    let mut i: usize = 0;
    let n = pts.len();
    while i < n
        invariant
            i <= n,
            out@.len() == 2 * i,
            forall|k: int| #![trigger out@[2 * k]]
                0 <= k < i ==> out@[2 * k] == shape.pts()[k].0 + shape.pts()[k].1 * xdim && out@[2
                    * k + 1] == (if shape.pts()[k].2 {
                    1u32
                } else {
                    0u32
                }),
        decreases n - i,
    {
        let p = pts[i];
        out.push(get_index(&p, xdim));
        out.push(get_value(&p));
        proof {
            assert(pts@[i as int] == shape.pts()[i as int]);
            assert(out@[2 * (i as int)] == shape.pts()[i as int].0 + shape.pts()[i as int].1
                * xdim);
            assert(out@[2 * (i as int) + 1] == (if shape.pts()[i as int].2 {
                1u32
            } else {
                0u32
            }));
            assert forall|k: int| 0 <= k < i + 1 implies #[trigger] out@[2 * k] == shape.pts()[k].0
                + shape.pts()[k].1 * xdim && out@[2 * k + 1] == (if shape.pts()[k].2 {
                1u32
            } else {
                0u32
            }) by {
                if k < i {
                    assert(out@[2 * k] == out@.subrange(0, 2 * i as int)[2 * k]);
                }
            }
        }
        i = i + 1;
    }
    out
}

} // verus!
