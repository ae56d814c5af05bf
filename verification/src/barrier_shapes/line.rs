//! Rasterized line segments.  A line is walked with Bresenham's algorithm;
//! wherever the walk takes a diagonal step the two "elbow" points completing
//! an L-shape are inserted as well, so the stroke is 4-connected and a fluid
//! barrier drawn from it has no diagonal leaks.  Thickness greater than one
//! is built from parallel offset bands, silently skipping bands whose
//! endpoints fall outside the lattice.

use vstd::prelude::*;

use crate::barrier_shapes::{insert_pt, vec_insert_point, Shape, TaggedPoint};

verus! {

/// The largest lattice dimension the rasterizer accepts; keeps every
/// coordinate handed to the walk well clear of machine-integer overflow.
pub const MAX_DIM: isize = 0x1000_0000;

/// A pair of segment endpoints.
pub type EndpointPair = ((isize, isize), (isize, isize));

/// The sequence of grid points that Bresenham's algorithm visits walking
/// from `a` to `b`, both included.
pub uninterp spec fn bresenham_walk(a: (isize, isize), b: (isize, isize)) -> Seq<(isize, isize)>;

/// The structural facts a walk sequence `w` from `a` to `b` satisfies: it
/// starts at `a`, ends at `b`, moves one unit king step at a time, and stays
/// inside the bounding box of the two endpoints.
pub open spec fn walk_shape(w: Seq<(isize, isize)>, a: (isize, isize), b: (isize, isize)) -> bool {
    &&& w.len() >= 1
    &&& w[0] == a
    &&& w[w.len() - 1] == b
    &&& forall|i: int| #![trigger w[i]]
        0 <= i < w.len() ==> (if a.0 <= b.0 {
            a.0 <= w[i].0 <= b.0
        } else {
            b.0 <= w[i].0 <= a.0
        }) && (if a.1 <= b.1 {
            a.1 <= w[i].1 <= b.1
        } else {
            b.1 <= w[i].1 <= a.1
        })
    &&& forall|i: int| #![trigger w[i]]
        1 <= i < w.len() ==> -1 <= w[i].0 - w[i - 1].0 <= 1 && -1 <= w[i].1 - w[i - 1].1 <= 1
            && w[i] != w[i - 1]
}

/// The structural facts of the named walk between `a` and `b`.
pub open spec fn walk_props(a: (isize, isize), b: (isize, isize)) -> bool {
    walk_shape(bresenham_walk(a, b), a, b)
}

/// Relies on `line_drawing::Bresenham`: the iterator yields the walk from
/// `a` to `b` inclusive, advancing its major axis every step, so the points
/// form unit king steps inside the endpoints' bounding box.
#[verifier::external_body]
fn bresenham_points(a: (isize, isize), b: (isize, isize)) -> (r: Vec<(isize, isize)>)
    requires
        -MAX_DIM <= a.0 <= MAX_DIM,
        -MAX_DIM <= a.1 <= MAX_DIM,
        -MAX_DIM <= b.0 <= MAX_DIM,
        -MAX_DIM <= b.1 <= MAX_DIM,
    ensures
        r@ == bresenham_walk(a, b),
        walk_shape(r@, a, b),
{
    line_drawing::Bresenham::new(a, b).collect()
}

/// Whether both endpoints lie inside the `xdim` by `ydim` lattice.
pub open spec fn valid_endpoints(
    ep1: (isize, isize),
    ep2: (isize, isize),
    xdim: isize,
    ydim: isize,
) -> bool {
    ep1.0 >= 0 && ep2.0 >= 0 && ep1.1 >= 0 && ep2.1 >= 0 && ep1.0 < xdim && ep2.0 < xdim && ep1.1
        < ydim && ep2.1 < ydim
}

/// Endpoint ordering used before offset generation: the endpoint with the
/// larger x coordinate comes first.
pub open spec fn order_spec(point1: (isize, isize), point2: (isize, isize)) -> EndpointPair {
    if point1.0 > point2.0 {
        (point1, point2)
    } else {
        (point2, point1)
    }
}

/// The first parallel band at offset `i` from the ordered pair `o`.
pub open spec fn band_pair_a(o: EndpointPair, i: int) -> EndpointPair {
    if o.0.1 > o.1.1 {
        ((o.0.0, (o.0.1 - i) as isize), ((o.1.0 - i) as isize, o.1.1))
    } else {
        ((o.0.0, (o.0.1 + i) as isize), ((o.1.0 - i) as isize, o.1.1))
    }
}

/// The second parallel band at offset `i` from the ordered pair `o`.
pub open spec fn band_pair_b(o: EndpointPair, i: int) -> EndpointPair {
    (((o.0.0 + i) as isize, o.0.1), (o.1.0, (o.1.1 - i) as isize))
}

/// The endpoint pairs a stroke of the given thickness rasterizes: the
/// ordered primary pair followed by two offset bands per extra unit of
/// thickness.
pub open spec fn endpoints_spec(
    point1: (isize, isize),
    point2: (isize, isize),
    thickness: int,
) -> Seq<EndpointPair> {
    let o = order_spec(point1, point2);
    Seq::new(
        (if thickness >= 1 {
            1 + 2 * (thickness - 1)
        } else {
            1
        }) as nat,
        |k: int|
            if k == 0 {
                o
            } else if k % 2 == 1 {
                band_pair_a(o, (k + 1) / 2)
            } else {
                band_pair_b(o, k / 2)
            },
    )
}

/// The points accumulated after processing the first `n` steps of the walk
/// `w`: each visited point, and on every diagonal step the two elbow points
/// completing the L-shape.
pub open spec fn elbow_fold(
    s: Seq<TaggedPoint>,
    w: Seq<(isize, isize)>,
    tag: bool,
    n: int,
) -> Seq<TaggedPoint>
    decreases n,
{
    if n <= 0 {
        s
    } else {
        let prev = elbow_fold(s, w, tag, n - 1);
        let cur = w[n - 1];
        let s1 = insert_pt(prev, (cur.0, cur.1, tag));
        if n >= 2 && w[n - 2].0 != cur.0 && w[n - 2].1 != cur.1 {
            let s2 = insert_pt(s1, (w[n - 2].0, cur.1, tag));
            insert_pt(s2, (cur.0, w[n - 2].1, tag))
        } else {
            s1
        }
    }
}

/// The points of one rasterized segment from `a` to `b` merged onto `s`.
pub open spec fn segment_fold(
    s: Seq<TaggedPoint>,
    a: (isize, isize),
    b: (isize, isize),
    tag: bool,
) -> Seq<TaggedPoint> {
    elbow_fold(s, bresenham_walk(a, b), tag, bresenham_walk(a, b).len() as int)
}

/// The points accumulated after rasterizing the first `n` endpoint pairs,
/// skipping pairs that fall outside the lattice.
pub open spec fn line_fold(
    s: Seq<TaggedPoint>,
    pairs: Seq<EndpointPair>,
    xdim: isize,
    ydim: isize,
    tag: bool,
    n: int,
) -> Seq<TaggedPoint>
    decreases n,
{
    if n <= 0 {
        s
    } else {
        let r = line_fold(s, pairs, xdim, ydim, tag, n - 1);
        let pr = pairs[n - 1];
        if valid_endpoints(pr.0, pr.1, xdim, ydim) {
            segment_fold(r, pr.0, pr.1, tag)
        } else {
            r
        }
    }
}

/// The full point sequence of a stroke between `point1` and `point2` of the
/// given thickness.
pub open spec fn line_points_spec(
    point1: (isize, isize),
    point2: (isize, isize),
    xdim: isize,
    ydim: isize,
    tag: bool,
    thickness: int,
) -> Seq<TaggedPoint> {
    let pairs = endpoints_spec(point1, point2, thickness);
    line_fold(Seq::empty(), pairs, xdim, ydim, tag, pairs.len() as int)
}

/// Every point of `s` lies inside the lattice and carries the tag `tag`.
pub open spec fn all_points_ok(s: Seq<TaggedPoint>, xdim: isize, ydim: isize, tag: bool) -> bool {
    forall|k: int| #![trigger s[k]]
        0 <= k < s.len() ==> 0 <= s[k].0 < xdim && 0 <= s[k].1 < ydim && s[k].2 == tag
}

/// Every point of the walk `w` appears in `pts` with tag `tag`.
pub open spec fn walk_contained(pts: Seq<TaggedPoint>, w: Seq<(isize, isize)>, tag: bool) -> bool {
    forall|i: int| #![trigger w[i]] 0 <= i < w.len() ==> pts.contains((w[i].0, w[i].1, tag))
}

/// Wherever the walk `w` steps diagonally, `pts` holds the two elbow points
/// completing the L-shape, so the stroke is 4-connected along the walk.
pub open spec fn stroke_covers(pts: Seq<TaggedPoint>, w: Seq<(isize, isize)>, tag: bool) -> bool {
    forall|i: int| #![trigger w[i]]
        1 <= i < w.len() && w[i].0 != w[i - 1].0 && w[i].1 != w[i - 1].1 ==> pts.contains(
            (w[i - 1].0, w[i].1, tag),
        ) && pts.contains((w[i].0, w[i - 1].1, tag))
}

proof fn lemma_insert_pt_contains(s: Seq<TaggedPoint>, p: TaggedPoint, q: TaggedPoint)
    ensures
        insert_pt(s, p).contains(q) <==> s.contains(q) || q == p,
{
    if s.contains(p) {
    } else {
        if s.contains(q) {
            let i = choose|i: int| 0 <= i < s.len() && s[i] == q;
            assert(s.push(p)[i] == q);
        }
        assert(s.push(p)[s.len() as int] == p);
        if s.push(p).contains(q) && q != p {
            let i = choose|i: int| 0 <= i < s.push(p).len() && s.push(p)[i] == q;
            assert(s[i] == q);
        }
    }
}

proof fn lemma_elbow_fold_monotone(s: Seq<TaggedPoint>, w: Seq<(isize, isize)>, tag: bool, n: int)
    ensures
        forall|q: TaggedPoint|
            s.contains(q) ==> #[trigger] elbow_fold(s, w, tag, n).contains(q),
    decreases n,
{
    if n <= 0 {
    } else {
        lemma_elbow_fold_monotone(s, w, tag, n - 1);
        let prev = elbow_fold(s, w, tag, n - 1);
        let cur = w[n - 1];
        assert forall|q: TaggedPoint| s.contains(q) implies #[trigger] elbow_fold(
            s,
            w,
            tag,
            n,
        ).contains(q) by {
            lemma_insert_pt_contains(prev, (cur.0, cur.1, tag), q);
            let s1 = insert_pt(prev, (cur.0, cur.1, tag));
            if n >= 2 && w[n - 2].0 != cur.0 && w[n - 2].1 != cur.1 {
                lemma_insert_pt_contains(s1, (w[n - 2].0, cur.1, tag), q);
                let s2 = insert_pt(s1, (w[n - 2].0, cur.1, tag));
                lemma_insert_pt_contains(s2, (cur.0, w[n - 2].1, tag), q);
            }
        }
    }
}

proof fn lemma_elbow_fold_ok(
    s: Seq<TaggedPoint>,
    w: Seq<(isize, isize)>,
    tag: bool,
    n: int,
    xdim: isize,
    ydim: isize,
)
    requires
        all_points_ok(s, xdim, ydim, tag),
        forall|i: int| #![trigger w[i]] 0 <= i < w.len() ==> 0 <= w[i].0 < xdim && 0 <= w[i].1 < ydim,
        n <= w.len(),
    ensures
        all_points_ok(elbow_fold(s, w, tag, n), xdim, ydim, tag),
    decreases n,
{
    if n <= 0 {
    } else {
        lemma_elbow_fold_ok(s, w, tag, n - 1, xdim, ydim);
    }
}

#[verifier::rlimit(60)]
proof fn lemma_elbow_fold_covers(s: Seq<TaggedPoint>, w: Seq<(isize, isize)>, tag: bool, n: int)
    requires
        n <= w.len(),
    ensures
        forall|i: int| #![trigger w[i]]
            0 <= i < n ==> elbow_fold(s, w, tag, n).contains((w[i].0, w[i].1, tag)),
        forall|i: int| #![trigger w[i]]
            1 <= i < n && w[i].0 != w[i - 1].0 && w[i].1 != w[i - 1].1 ==> elbow_fold(
                s,
                w,
                tag,
                n,
            ).contains((w[i - 1].0, w[i].1, tag)) && elbow_fold(s, w, tag, n).contains(
                (w[i].0, w[i - 1].1, tag),
            ),
    decreases n,
{
    if n <= 0 {
    } else {
        lemma_elbow_fold_covers(s, w, tag, n - 1);
        let prev = elbow_fold(s, w, tag, n - 1);
        let cur = w[n - 1];
        let s1 = insert_pt(prev, (cur.0, cur.1, tag));
        let full = elbow_fold(s, w, tag, n);
        assert forall|q: TaggedPoint| prev.contains(q) implies full.contains(q) by {
            lemma_insert_pt_contains(prev, (cur.0, cur.1, tag), q);
            if n >= 2 && w[n - 2].0 != cur.0 && w[n - 2].1 != cur.1 {
                lemma_insert_pt_contains(s1, (w[n - 2].0, cur.1, tag), q);
                lemma_insert_pt_contains(
                    insert_pt(s1, (w[n - 2].0, cur.1, tag)),
                    (cur.0, w[n - 2].1, tag),
                    q,
                );
            }
        }
        lemma_insert_pt_contains(prev, (cur.0, cur.1, tag), (cur.0, cur.1, tag));
        if n >= 2 && w[n - 2].0 != cur.0 && w[n - 2].1 != cur.1 {
            let s2 = insert_pt(s1, (w[n - 2].0, cur.1, tag));
            lemma_insert_pt_contains(s1, (w[n - 2].0, cur.1, tag), (cur.0, cur.1, tag));
            lemma_insert_pt_contains(s2, (cur.0, w[n - 2].1, tag), (cur.0, cur.1, tag));
            lemma_insert_pt_contains(s1, (w[n - 2].0, cur.1, tag), (w[n - 2].0, cur.1, tag));
            lemma_insert_pt_contains(s2, (cur.0, w[n - 2].1, tag), (w[n - 2].0, cur.1, tag));
            lemma_insert_pt_contains(s2, (cur.0, w[n - 2].1, tag), (cur.0, w[n - 2].1, tag));
        }
    }
}

/// One rasterized segment keeps every accumulated point, keeps all points
/// inside the lattice, and covers its walk 4-connectedly.
proof fn lemma_segment_props(
    s: Seq<TaggedPoint>,
    a: (isize, isize),
    b: (isize, isize),
    tag: bool,
    xdim: isize,
    ydim: isize,
)
    requires
        all_points_ok(s, xdim, ydim, tag),
        valid_endpoints(a, b, xdim, ydim),
        walk_props(a, b),
    ensures
        all_points_ok(segment_fold(s, a, b, tag), xdim, ydim, tag),
        walk_contained(segment_fold(s, a, b, tag), bresenham_walk(a, b), tag),
        stroke_covers(segment_fold(s, a, b, tag), bresenham_walk(a, b), tag),
        forall|q: TaggedPoint|
            s.contains(q) ==> #[trigger] segment_fold(s, a, b, tag).contains(q),
{
    let w = bresenham_walk(a, b);
    assert(forall|i: int| #![trigger w[i]]
        0 <= i < w.len() ==> 0 <= w[i].0 < xdim && 0 <= w[i].1 < ydim);
    lemma_elbow_fold_ok(s, w, tag, w.len() as int, xdim, ydim);
    lemma_elbow_fold_covers(s, w, tag, w.len() as int);
    lemma_elbow_fold_monotone(s, w, tag, w.len() as int);
}

proof fn lemma_line_fold_monotone(
    s: Seq<TaggedPoint>,
    pairs: Seq<EndpointPair>,
    xdim: isize,
    ydim: isize,
    tag: bool,
    n: int,
)
    ensures
        forall|q: TaggedPoint|
            s.contains(q) ==> #[trigger] line_fold(s, pairs, xdim, ydim, tag, n).contains(q),
    decreases n,
{
    if n <= 0 {
    } else {
        lemma_line_fold_monotone(s, pairs, xdim, ydim, tag, n - 1);
        let r = line_fold(s, pairs, xdim, ydim, tag, n - 1);
        let pr = pairs[n - 1];
        if valid_endpoints(pr.0, pr.1, xdim, ydim) {
            let w = bresenham_walk(pr.0, pr.1);
            lemma_elbow_fold_monotone(r, w, tag, w.len() as int);
        }
    }
}

/// A rasterized line stroke.
pub struct Line {
    pub points: Vec<TaggedPoint>,
}

impl Shape for Line {
    open spec fn pts(&self) -> Seq<TaggedPoint> {
        self.points@
    }

    fn get_points(&self) -> (r: &Vec<TaggedPoint>) {
        &self.points
    }

    fn is_empty(&self) -> (r: bool) {
        self.points.len() == 0
    }
}

/// The rejection a line constructor returns when an endpoint lies outside
/// the lattice.
#[derive(Clone, Copy, Debug, PartialEq, Eq)]
pub struct InvalidEndpoints {
    pub end_point_1: (isize, isize),
    pub end_point_2: (isize, isize),
    pub xdim: isize,
    pub ydim: isize,
}

impl Line {
    /// Whether both endpoints lie inside the `xdim` by `ydim` lattice.
    pub fn validate(ep1: (isize, isize), ep2: (isize, isize), xdim: isize, ydim: isize) -> (r:
        bool)
        ensures
            r == valid_endpoints(ep1, ep2, xdim, ydim),
    {
        ep1.0 >= 0 && ep2.0 >= 0 && ep1.1 >= 0 && ep2.1 >= 0 && ep1.0 < xdim && ep2.0 < xdim
            && ep1.1 < ydim && ep2.1 < ydim
    }

    /// Whether the walk stepped diagonally between these two points.
    pub fn diagonal_step(previous_point: (isize, isize), next_point: (isize, isize)) -> (r: bool)
        ensures
            r == (previous_point.0 != next_point.0 && previous_point.1 != next_point.1),
    {
        previous_point.0 != next_point.0 && previous_point.1 != next_point.1
    }

    /// Order two endpoints so the one with the larger x coordinate comes
    /// first.
    pub fn order(point1: (isize, isize), point2: (isize, isize)) -> (r: EndpointPair)
        ensures
            r == order_spec(point1, point2),
    {
        if point1.0 > point2.0 {
            (point1, point2)
        } else {
            (point2, point1)
        }
    }

    /// The endpoint pairs of a stroke of thickness two: the primary pair and
    /// one offset band on each side.
    pub fn generate_endpoints(end_point_1: (isize, isize), end_point_2: (isize, isize)) -> (r: Vec<
        EndpointPair,
    >)
        requires
            -MAX_DIM <= end_point_1.0 <= MAX_DIM,
            -MAX_DIM <= end_point_1.1 <= MAX_DIM,
            -MAX_DIM <= end_point_2.0 <= MAX_DIM,
            -MAX_DIM <= end_point_2.1 <= MAX_DIM,
        ensures
            r@ == endpoints_spec(end_point_1, end_point_2, 2),
    {
        Self::generate_endpoints_variable(end_point_1, end_point_2, 2)
    }

    /// The endpoint pairs of a stroke of the given thickness: the primary
    /// pair and `thickness - 1` offset bands on each side.
    #[verifier::loop_isolation(false)]
    pub fn generate_endpoints_variable(
        end_point_1: (isize, isize),
        end_point_2: (isize, isize),
        thickness: usize,
    ) -> (r: Vec<EndpointPair>)
        requires
            -MAX_DIM <= end_point_1.0 <= MAX_DIM,
            -MAX_DIM <= end_point_1.1 <= MAX_DIM,
            -MAX_DIM <= end_point_2.0 <= MAX_DIM,
            -MAX_DIM <= end_point_2.1 <= MAX_DIM,
            thickness <= 1000,
        ensures
            r@ == endpoints_spec(end_point_1, end_point_2, thickness as int),
    {
        let ghost pairs = endpoints_spec(end_point_1, end_point_2, thickness as int);
        let o = Self::order(end_point_1, end_point_2);
        let mut output: Vec<EndpointPair> = Vec::new();
        output.push(o);
        let mut i: usize = 1;
        while i < thickness
            invariant
                1 <= i,
                thickness >= 1 ==> i <= thickness,
                thickness < 1 ==> i == 1,
                output@.len() == 1 + 2 * (i - 1),
                forall|k: int| 0 <= k < output@.len() ==> output@[k] == pairs[k],
            decreases thickness - i,
        {
            let off = i as isize;
            let a: EndpointPair = if o.0.1 > o.1.1 {
                ((o.0.0, o.0.1 - off), (o.1.0 - off, o.1.1))
            } else {
                ((o.0.0, o.0.1 + off), (o.1.0 - off, o.1.1))
            };
            let b: EndpointPair = ((o.0.0 + off, o.0.1), (o.1.0, o.1.1 - off));
            output.push(a);
            output.push(b);
            proof {
                assert(output@[2 * i - 1] == band_pair_a(o, i as int));
                assert(output@[2 * i] == band_pair_b(o, i as int));
            }
            i = i + 1;
        }
        proof {
            assert(output@ =~= pairs);
        }
        output
    }

    /// Rasterize one validated segment onto the accumulated points.
    #[verifier::loop_isolation(false)]
    fn raster_segment(
        out: &mut Vec<TaggedPoint>,
        a: (isize, isize),
        b: (isize, isize),
        tag: bool,
    )
        requires
            -MAX_DIM <= a.0 <= MAX_DIM,
            -MAX_DIM <= a.1 <= MAX_DIM,
            -MAX_DIM <= b.0 <= MAX_DIM,
            -MAX_DIM <= b.1 <= MAX_DIM,
        ensures
            final(out)@ == segment_fold(old(out)@, a, b, tag),
            walk_props(a, b),
    {
        let ghost before = out@;
        let w = bresenham_points(a, b);
        let ghost wseq = w@;
        let m = w.len();
        let mut i: usize = 0;
        while i < m
            invariant
                i <= m,
                m == wseq.len(),
                w@ == wseq,
                out@ == elbow_fold(before, wseq, tag, i as int),
            decreases m - i,
        {
            let cur = w[i];
            vec_insert_point(out, (cur.0, cur.1, tag));
            if i > 0 {
                let prev = w[i - 1];
                if Self::diagonal_step(prev, cur) {
                    vec_insert_point(out, (prev.0, cur.1, tag));
                    vec_insert_point(out, (cur.0, prev.1, tag));
                }
            }
            i = i + 1;
        }
    }

    /// Rasterize every valid endpoint pair, merging the segments' points in
    /// order.
    #[verifier::loop_isolation(false)]
    #[verifier::rlimit(100)]
    fn rasterize(pairs: &Vec<EndpointPair>, xdim: isize, ydim: isize, tag: bool) -> (r: Vec<
        TaggedPoint,
    >)
        requires
            0 < xdim <= MAX_DIM,
            0 < ydim <= MAX_DIM,
        ensures
            r@ == line_fold(Seq::empty(), pairs@, xdim, ydim, tag, pairs@.len() as int),
            all_points_ok(r@, xdim, ydim, tag),
            forall|k: int|
                0 <= k < pairs@.len() && valid_endpoints(
                    (#[trigger] pairs@[k]).0,
                    pairs@[k].1,
                    xdim,
                    ydim,
                ) ==> walk_props(pairs@[k].0, pairs@[k].1) && walk_contained(
                    r@,
                    bresenham_walk(pairs@[k].0, pairs@[k].1),
                    tag,
                ) && stroke_covers(r@, bresenham_walk(pairs@[k].0, pairs@[k].1), tag),
    {
        let mut out: Vec<TaggedPoint> = Vec::new();
        let mut k: usize = 0;
        let n = pairs.len();
        while k < n
            invariant
                k <= n,
                out@ == line_fold(Seq::empty(), pairs@, xdim, ydim, tag, k as int),
                all_points_ok(out@, xdim, ydim, tag),
                forall|kk: int|
                    0 <= kk < k && valid_endpoints(
                        (#[trigger] pairs@[kk]).0,
                        pairs@[kk].1,
                        xdim,
                        ydim,
                    ) ==> walk_props(pairs@[kk].0, pairs@[kk].1) && walk_contained(
                        out@,
                        bresenham_walk(pairs@[kk].0, pairs@[kk].1),
                        tag,
                    ) && stroke_covers(out@, bresenham_walk(pairs@[kk].0, pairs@[kk].1), tag),
            decreases n - k,
        {
            let pr = pairs[k];
            if Self::validate(pr.0, pr.1, xdim, ydim) {
                let ghost before = out@;
                Self::raster_segment(&mut out, pr.0, pr.1, tag);
                proof {
                    lemma_segment_props(before, pr.0, pr.1, tag, xdim, ydim);
                    assert forall|kk: int|
                        0 <= kk < k && valid_endpoints(
                            (#[trigger] pairs@[kk]).0,
                            pairs@[kk].1,
                            xdim,
                            ydim,
                        ) implies walk_contained(
                        out@,
                        bresenham_walk(pairs@[kk].0, pairs@[kk].1),
                        tag,
                    ) && stroke_covers(out@, bresenham_walk(pairs@[kk].0, pairs@[kk].1), tag) by {
                        let wk = bresenham_walk(pairs@[kk].0, pairs@[kk].1);
                        assert(walk_contained(before, wk, tag));
                        assert(stroke_covers(before, wk, tag));
                    }
                }
            }
            k = k + 1;
        }
        out
    }

    /// Rasterize a present-tagged stroke of thickness two between the two
    /// endpoints, rejecting endpoints outside the lattice.
    pub fn new(
        end_point_1: (isize, isize),
        end_point_2: (isize, isize),
        xdim: isize,
        ydim: isize,
    ) -> (r: Result<Line, InvalidEndpoints>)
        requires
            0 < xdim <= MAX_DIM,
            0 < ydim <= MAX_DIM,
        ensures
            r is Err <==> !valid_endpoints(end_point_1, end_point_2, xdim, ydim),
            (r matches Err(e) ==> e.end_point_1 == end_point_1 && e.end_point_2 == end_point_2
                && e.xdim == xdim && e.ydim == ydim),
            (r matches Ok(l) ==> l.points@ == line_points_spec(
                end_point_1,
                end_point_2,
                xdim,
                ydim,
                true,
                2,
            )),
            (r matches Ok(l) ==> all_points_ok(l.points@, xdim, ydim, true)),
            (r matches Ok(l) ==> {
                let o = order_spec(end_point_1, end_point_2);
                &&& walk_props(o.0, o.1)
                &&& walk_contained(l.points@, bresenham_walk(o.0, o.1), true)
                &&& stroke_covers(l.points@, bresenham_walk(o.0, o.1), true)
            }),
    {
        Self::build(end_point_1, end_point_2, xdim, ydim, true, 2)
    }

    /// Rasterize an absent-tagged (erasing) stroke of thickness thirty
    /// between the two endpoints, rejecting endpoints outside the lattice.
    pub fn new_erased(
        end_point_1: (isize, isize),
        end_point_2: (isize, isize),
        xdim: isize,
        ydim: isize,
    ) -> (r: Result<Line, InvalidEndpoints>)
        requires
            0 < xdim <= MAX_DIM,
            0 < ydim <= MAX_DIM,
        ensures
            r is Err <==> !valid_endpoints(end_point_1, end_point_2, xdim, ydim),
            (r matches Err(e) ==> e.end_point_1 == end_point_1 && e.end_point_2 == end_point_2
                && e.xdim == xdim && e.ydim == ydim),
            (r matches Ok(l) ==> l.points@ == line_points_spec(
                end_point_1,
                end_point_2,
                xdim,
                ydim,
                false,
                30,
            )),
            (r matches Ok(l) ==> all_points_ok(l.points@, xdim, ydim, false)),
            (r matches Ok(l) ==> {
                let o = order_spec(end_point_1, end_point_2);
                &&& walk_props(o.0, o.1)
                &&& walk_contained(l.points@, bresenham_walk(o.0, o.1), false)
                &&& stroke_covers(l.points@, bresenham_walk(o.0, o.1), false)
            }),
    {
        Self::build(end_point_1, end_point_2, xdim, ydim, false, 30)
    }

    fn build(
        end_point_1: (isize, isize),
        end_point_2: (isize, isize),
        xdim: isize,
        ydim: isize,
        tag: bool,
        thickness: usize,
    ) -> (r: Result<Line, InvalidEndpoints>)
        requires
            0 < xdim <= MAX_DIM,
            0 < ydim <= MAX_DIM,
            1 <= thickness <= 1000,
        ensures
            r is Err <==> !valid_endpoints(end_point_1, end_point_2, xdim, ydim),
            (r matches Err(e) ==> e.end_point_1 == end_point_1 && e.end_point_2 == end_point_2
                && e.xdim == xdim && e.ydim == ydim),
            (r matches Ok(l) ==> l.points@ == line_points_spec(
                end_point_1,
                end_point_2,
                xdim,
                ydim,
                tag,
                thickness as int,
            )),
            (r matches Ok(l) ==> all_points_ok(l.points@, xdim, ydim, tag)),
            (r matches Ok(l) ==> {
                let o = order_spec(end_point_1, end_point_2);
                &&& walk_props(o.0, o.1)
                &&& walk_contained(l.points@, bresenham_walk(o.0, o.1), tag)
                &&& stroke_covers(l.points@, bresenham_walk(o.0, o.1), tag)
            }),
    {
        if !Self::validate(end_point_1, end_point_2, xdim, ydim) {
            return Err(
                InvalidEndpoints {
                    end_point_1,
                    end_point_2,
                    xdim,
                    ydim,
                },
            );
        }
        let pairs = Self::generate_endpoints_variable(end_point_1, end_point_2, thickness);
        let points = Self::rasterize(&pairs, xdim, ydim, tag);
        proof {
            assert(pairs@[0] == order_spec(end_point_1, end_point_2));
            assert(valid_endpoints(pairs@[0].0, pairs@[0].1, xdim, ydim));
        }
        Ok(Line { points })
    }

    /// Merge every point of another shape into this line's point set.
    pub fn join<S: Shape>(&mut self, shape: &S)
        ensures
            final(self).points@ == crate::barrier_shapes::set_extend(
                old(self).points@,
                shape.pts(),
            ),
    {
        crate::barrier_shapes::vec_set_extend(&mut self.points, shape.get_points());
    }
}

} // verus!
