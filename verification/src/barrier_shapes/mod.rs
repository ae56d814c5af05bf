//! Shapes that edit the barrier mask: each one produces a set of lattice
//! coordinates tagged with whether the barrier bit should be set (`true`) or
//! cleared (`false`) there.

use vstd::prelude::*;

pub mod blob;
pub mod curve;
pub mod curve_collection;
pub mod line;
pub mod merge_shapes;

use crate::barrier_shapes::blob::Blob;

verus! {

/// A lattice coordinate tagged with whether the barrier is present there.
pub type TaggedPoint = (isize, isize, bool);

/// The coordinate part of a tagged point.
pub open spec fn coord_of(p: TaggedPoint) -> (isize, isize) {
    (p.0, p.1)
}

/// Whether some entry of `s` lies at coordinate `c`.
pub open spec fn has_coord(s: Seq<TaggedPoint>, c: (isize, isize)) -> bool {
    exists|i: int| 0 <= i < s.len() && coord_of(s[i]) == c
}

/// The tag of the last entry of `s` at coordinate `c` (meaningful only when
/// `has_coord(s, c)` holds).
pub open spec fn last_tag(s: Seq<TaggedPoint>, c: (isize, isize)) -> bool
    decreases s.len(),
{
    if s.len() == 0 {
        false
    } else if coord_of(s.last()) == c {
        s.last().2
    } else {
        last_tag(s.drop_last(), c)
    }
}

/// No two entries of `s` share a coordinate.
pub open spec fn unique_coords(s: Seq<TaggedPoint>) -> bool {
    forall|i: int, j: int|
        0 <= i < j < s.len() ==> coord_of(s[i]) != coord_of(s[j])
}

/// Whether `p` lies inside the `xdim` by `ydim` lattice.
pub open spec fn point_in_bounds(p: TaggedPoint, xdim: u32, ydim: u32) -> bool {
    0 <= p.0 < xdim && 0 <= p.1 < ydim
}

/// Folding a sequence of tagged points into a coordinate-to-tag map, the
/// latest tag at each coordinate winning.
pub open spec fn map_join(
    m: Map<(isize, isize), bool>,
    s: Seq<TaggedPoint>,
) -> Map<(isize, isize), bool>
    decreases s.len(),
{
    if s.len() == 0 {
        m
    } else {
        map_join(m, s.drop_last()).insert(coord_of(s.last()), s.last().2)
    }
}

/// As `map_join`, but entries outside the `xdim` by `ydim` lattice are
/// dropped instead of merged.
pub open spec fn map_add(
    m: Map<(isize, isize), bool>,
    s: Seq<TaggedPoint>,
    xdim: u32,
    ydim: u32,
) -> Map<(isize, isize), bool>
    decreases s.len(),
{
    if s.len() == 0 {
        m
    } else {
        let r = map_add(m, s.drop_last(), xdim, ydim);
        if point_in_bounds(s.last(), xdim, ydim) {
            r.insert(coord_of(s.last()), s.last().2)
        } else {
            r
        }
    }
}

/// Appending one tagged point with set semantics: a point already present is
/// not repeated.
pub open spec fn insert_pt(s: Seq<TaggedPoint>, p: TaggedPoint) -> Seq<TaggedPoint> {
    if s.contains(p) {
        s
    } else {
        s.push(p)
    }
}

/// Appending a whole sequence of tagged points, in order, with set
/// semantics.
pub open spec fn set_extend(s: Seq<TaggedPoint>, t: Seq<TaggedPoint>) -> Seq<TaggedPoint>
    decreases t.len(),
{
    if t.len() == 0 {
        s
    } else {
        insert_pt(set_extend(s, t.drop_last()), t.last())
    }
}

/// `set_extend` holds exactly the points of its two arguments.
pub proof fn lemma_set_extend_membership(s: Seq<TaggedPoint>, t: Seq<TaggedPoint>)
    ensures
        forall|q: TaggedPoint| #[trigger]
            set_extend(s, t).contains(q) <==> s.contains(q) || t.contains(q),
    decreases t.len(),
{
    if t.len() == 0 {
    } else {
        lemma_set_extend_membership(s, t.drop_last());
        let e = set_extend(s, t.drop_last());
        assert forall|q: TaggedPoint| #[trigger]
            set_extend(s, t).contains(q) <==> s.contains(q) || t.contains(q) by {
            assert(t.contains(q) <==> t.drop_last().contains(q) || t.last() == q) by {
                if t.contains(q) {
                    let i = choose|i: int| 0 <= i < t.len() && t[i] == q;
                    if i < t.len() - 1 {
                        assert(t.drop_last()[i] == q);
                    }
                }
                if t.drop_last().contains(q) {
                    let i = choose|i: int| 0 <= i < t.drop_last().len() && t.drop_last()[i] == q;
                    assert(t[i] == q);
                }
            }
            if insert_pt(e, t.last()).contains(q) {
                if !e.contains(q) {
                    assert(e.push(t.last())[e.len() as int] == t.last());
                    assert(q == t.last());
                }
            }
            if e.contains(q) {
                let i = choose|i: int| 0 <= i < e.len() && e[i] == q;
                if !e.contains(t.last()) {
                    assert(e.push(t.last())[i] == q);
                }
            }
            if q == t.last() {
                if !e.contains(q) {
                    assert(e.push(t.last())[e.len() as int] == t.last());
                }
            }
        }
    }
}

/// Whether `v` holds the point `p`.
pub fn vec_contains_point(v: &Vec<TaggedPoint>, p: TaggedPoint) -> (r: bool)
    ensures
        r == v@.contains(p),
{
    let mut i: usize = 0;
    let n = v.len();
    while i < n
        invariant
            i <= n,
            n == v@.len(),
            forall|j: int| 0 <= j < i ==> v@[j] != p,
        decreases n - i,
    {
        let q = v[i];
        if q.0 == p.0 && q.1 == p.1 && q.2 == p.2 {
            proof {
                assert(v@[i as int] == p);
            }
            return true;
        }
        i = i + 1;
    }
    false
}

/// Append `p` to `v` unless it is already there.
pub fn vec_insert_point(v: &mut Vec<TaggedPoint>, p: TaggedPoint)
    ensures
        final(v)@ == insert_pt(old(v)@, p),
{
    if !vec_contains_point(v, p) {
        v.push(p);
    }
}

/// Append every point of `t` to `v` with set semantics, in order.
#[verifier::loop_isolation(false)]
pub fn vec_set_extend(v: &mut Vec<TaggedPoint>, t: &Vec<TaggedPoint>)
    ensures
        final(v)@ == set_extend(old(v)@, t@),
{
    let ghost s0 = v@;
    let mut i: usize = 0;
    let n = t.len();
    while i < n
        invariant
            i <= n,
            v@ == set_extend(s0, t@.subrange(0, i as int)),
        decreases n - i,
    {
        vec_insert_point(v, t[i]);
        proof {
            assert(t@.subrange(0, i + 1).drop_last() =~= t@.subrange(0, i as int));
            assert(t@.subrange(0, i + 1).last() == t@[i as int]);
        }
        i = i + 1;
    }
    proof {
        assert(t@.subrange(0, n as int) =~= t@);
    }
}

/// The capability every barrier shape offers: a sequence of tagged points,
/// an emptiness test, and a derived tag-inverting operation.
pub trait Shape: Sized {
    /// The tagged points the shape contributes, in a fixed order.
    spec fn pts(&self) -> Seq<TaggedPoint>;

    /// The shape's points as a vector.
    fn get_points(&self) -> (r: &Vec<TaggedPoint>)
        ensures
            r@ == self.pts(),
    ;

    /// Whether the shape contributes no points.
    fn is_empty(&self) -> (r: bool)
        ensures
            r == (self.pts().len() == 0),
    ;

    /// A blob holding this shape's points with every tag inverted.
    #[verifier::loop_isolation(false)]
    fn negate(&self) -> (r: Blob)
        ensures
            r.points@ == self.pts().map_values(
                |p: TaggedPoint| (p.0, p.1, !p.2),
            ),
    {
        let pts = self.get_points();
        let mut flipped: Vec<TaggedPoint> = Vec::new();
        let mut i: usize = 0;
        while i < pts.len()
            invariant
                i <= pts.len(),
                pts@ == self.pts(),
                flipped@ == self.pts().subrange(0, i as int).map_values(
                    |p: TaggedPoint| (p.0, p.1, !p.2),
                ),
            decreases pts.len() - i,
        {
            let p = pts[i];
            flipped.push((p.0, p.1, !p.2));
            proof {
                assert(self.pts().subrange(0, i + 1).drop_last()
                    =~= self.pts().subrange(0, i as int));
                assert(flipped@ =~= self.pts().subrange(0, i + 1).map_values(
                    |p: TaggedPoint| (p.0, p.1, !p.2),
                ));
            }
            i = i + 1;
        }
        proof {
            assert(self.pts().subrange(0, self.pts().len() as int) =~= self.pts());
        }
        Blob { points: flipped }
    }
}

} // verus!
