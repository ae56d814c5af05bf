//! The canonical mergeable point set: at most one tag per coordinate, the
//! latest write winning.  Every shape is folded into a blob before it is
//! turned into barrier updates.

use vstd::prelude::*;

use crate::barrier_shapes::{
    coord_of, has_coord, last_tag, map_add, map_join, point_in_bounds, unique_coords, Shape,
    TaggedPoint,
};

verus! {

/// The index of the first entry of `s` at coordinate `c`, or `-1` if no
/// entry lies there.
pub open spec fn find_coord(s: Seq<TaggedPoint>, c: (isize, isize)) -> int
    decreases s.len(),
{
    if s.len() == 0 {
        -1
    } else if coord_of(s[0]) == c {
        0
    } else {
        let r = find_coord(s.skip(1), c);
        if r == -1 {
            -1
        } else {
            r + 1
        }
    }
}

/// Merging one tagged point into a sequence: an entry at the same coordinate
/// is overwritten, otherwise the point is appended.
pub open spec fn seq_put(s: Seq<TaggedPoint>, p: TaggedPoint) -> Seq<TaggedPoint> {
    let i = find_coord(s, coord_of(p));
    if i == -1 {
        s.push(p)
    } else {
        s.update(i, p)
    }
}

/// Merging a whole sequence of tagged points, in order, by `seq_put`.
pub open spec fn seq_join(s: Seq<TaggedPoint>, t: Seq<TaggedPoint>) -> Seq<TaggedPoint>
    decreases t.len(),
{
    if t.len() == 0 {
        s
    } else {
        seq_put(seq_join(s, t.drop_last()), t.last())
    }
}

/// As `seq_join`, but points outside the `xdim` by `ydim` lattice are
/// dropped instead of merged.
pub open spec fn seq_add(
    s: Seq<TaggedPoint>,
    t: Seq<TaggedPoint>,
    xdim: u32,
    ydim: u32,
) -> Seq<TaggedPoint>
    decreases t.len(),
{
    if t.len() == 0 {
        s
    } else {
        let r = seq_add(s, t.drop_last(), xdim, ydim);
        if point_in_bounds(t.last(), xdim, ydim) {
            seq_put(r, t.last())
        } else {
            r
        }
    }
}

proof fn lemma_find_coord_spec(s: Seq<TaggedPoint>, c: (isize, isize))
    ensures
        find_coord(s, c) == -1 ==> forall|j: int|
            0 <= j < s.len() ==> coord_of(s[j]) != c,
        find_coord(s, c) != -1 ==> {
            let f = find_coord(s, c);
            &&& 0 <= f < s.len()
            &&& coord_of(s[f]) == c
            &&& forall|j: int| 0 <= j < f ==> coord_of(s[j]) != c
        },
    decreases s.len(),
{
    if s.len() == 0 {
    } else if coord_of(s[0]) == c {
    } else {
        lemma_find_coord_spec(s.skip(1), c);
        let r = find_coord(s.skip(1), c);
        if r == -1 {
            assert forall|j: int| 0 <= j < s.len() implies coord_of(s[j]) != c by {
                if j > 0 {
                    assert(s.skip(1)[j - 1] == s[j]);
                }
            }
        } else {
            assert(s.skip(1)[r] == s[r + 1]);
            assert(find_coord(s, c) == r + 1);
            assert forall|j: int| 0 <= j < r + 1 implies coord_of(s[j]) != c by {
                if j > 0 {
                    assert(s.skip(1)[j - 1] == s[j]);
                }
            }
        }
    }
}

proof fn lemma_seq_put_wf(s: Seq<TaggedPoint>, p: TaggedPoint)
    requires
        unique_coords(s),
    ensures
        unique_coords(seq_put(s, p)),
{
    lemma_find_coord_spec(s, coord_of(p));
    let i = find_coord(s, coord_of(p));
    if i == -1 {
        assert forall|a: int, b: int|
            0 <= a < b < seq_put(s, p).len() implies coord_of(seq_put(s, p)[a])
            != coord_of(seq_put(s, p)[b]) by {
            if b == s.len() {
                assert(coord_of(s[a]) != coord_of(p));
            }
        }
    } else {
        assert forall|a: int, b: int|
            0 <= a < b < seq_put(s, p).len() implies coord_of(seq_put(s, p)[a])
            != coord_of(seq_put(s, p)[b]) by {
            assert(coord_of(seq_put(s, p)[a]) == coord_of(s[a]));
            assert(coord_of(seq_put(s, p)[b]) == coord_of(s[b]));
        }
    }
}

proof fn lemma_seq_put_map(m: Map<(isize, isize), bool>, s: Seq<TaggedPoint>, p: TaggedPoint)
    requires
        unique_coords(s),
    ensures
        map_join(m, seq_put(s, p)) == map_join(m, s).insert(coord_of(p), p.2),
    decreases s.len(),
{
    lemma_find_coord_spec(s, coord_of(p));
    let i = find_coord(s, coord_of(p));
    if i == -1 {
        assert(s.push(p).drop_last() =~= s);
    } else if i == s.len() - 1 {
        assert(s.update(i, p) =~= s.drop_last().push(p));
        assert(s.update(i, p).drop_last() =~= s.drop_last());
        assert(map_join(m, s.drop_last()).insert(coord_of(p), s.last().2).insert(coord_of(p), p.2)
            =~= map_join(m, s.drop_last()).insert(coord_of(p), p.2));
    } else {
        // the overwritten entry is not the last one: peel the last entry off
        // both sides and recurse
        let sd = s.drop_last();
        assert(coord_of(s[i]) == coord_of(p));
        assert(coord_of(s.last()) != coord_of(p));
        lemma_find_coord_spec(sd, coord_of(p));
        assert(sd[i] == s[i]);
        assert(find_coord(sd, coord_of(p)) != -1);
        let fd = find_coord(sd, coord_of(p));
        assert(coord_of(sd[fd]) == coord_of(p));
        assert(fd == i) by {
            if fd < i {
                assert(coord_of(s[fd]) == coord_of(sd[fd]));
            }
            if fd > i {
                assert(coord_of(sd[i]) != coord_of(p));
            }
        }
        assert(seq_put(sd, p) == sd.update(i, p));
        lemma_seq_put_map(m, sd, p);
        assert(s.update(i, p).drop_last() =~= sd.update(i, p));
        assert(s.update(i, p).last() == s.last());
        assert(map_join(m, s.update(i, p))
            == map_join(m, sd.update(i, p)).insert(coord_of(s.last()), s.last().2));
        assert(map_join(m, s.drop_last()).insert(coord_of(p), p.2).insert(
            coord_of(s.last()),
            s.last().2,
        ) =~= map_join(m, s).insert(coord_of(p), p.2));
    }
}

proof fn lemma_seq_join_props(
    m: Map<(isize, isize), bool>,
    s: Seq<TaggedPoint>,
    t: Seq<TaggedPoint>,
)
    requires
        unique_coords(s),
    ensures
        unique_coords(seq_join(s, t)),
        map_join(m, seq_join(s, t)) == map_join(map_join(m, s), t),
    decreases t.len(),
{
    if t.len() == 0 {
    } else {
        lemma_seq_join_props(m, s, t.drop_last());
        let j = seq_join(s, t.drop_last());
        lemma_seq_put_wf(j, t.last());
        lemma_seq_put_map(m, j, t.last());
    }
}

proof fn lemma_seq_add_props(
    m: Map<(isize, isize), bool>,
    s: Seq<TaggedPoint>,
    t: Seq<TaggedPoint>,
    xdim: u32,
    ydim: u32,
)
    requires
        unique_coords(s),
    ensures
        unique_coords(seq_add(s, t, xdim, ydim)),
        map_join(m, seq_add(s, t, xdim, ydim)) == map_add(map_join(m, s), t, xdim, ydim),
    decreases t.len(),
{
    if t.len() == 0 {
    } else {
        lemma_seq_add_props(m, s, t.drop_last(), xdim, ydim);
        let j = seq_add(s, t.drop_last(), xdim, ydim);
        if point_in_bounds(t.last(), xdim, ydim) {
            lemma_seq_put_wf(j, t.last());
            lemma_seq_put_map(m, j, t.last());
        }
    }
}

/// At every coordinate, the result of `map_join` carries the last tag the
/// joined sequence wrote there, and is untouched elsewhere.
pub proof fn lemma_join_lookup(m: Map<(isize, isize), bool>, t: Seq<TaggedPoint>)
    ensures
        forall|c: (isize, isize)|
            has_coord(t, c) ==> #[trigger] map_join(m, t).dom().contains(c) && map_join(m, t)[c]
                == last_tag(t, c),
        forall|c: (isize, isize)|
            !has_coord(t, c) ==> (#[trigger] map_join(m, t).dom().contains(c) <==> m.dom().contains(
                c,
            )) && (m.dom().contains(c) ==> map_join(m, t)[c] == m[c]),
    decreases t.len(),
{
    if t.len() == 0 {
    } else {
        lemma_join_lookup(m, t.drop_last());
        let td = t.drop_last();
        let cl = coord_of(t.last());
        assert(map_join(m, t) == map_join(m, td).insert(cl, t.last().2));
        assert forall|c: (isize, isize)| has_coord(t, c) implies #[trigger] map_join(m, t)
            .dom()
            .contains(c) && map_join(m, t)[c] == last_tag(t, c) by {
            if c == cl {
                assert(map_join(m, t)[c] == t.last().2);
            } else {
                let i = choose|i: int| 0 <= i < t.len() && coord_of(t[i]) == c;
                assert(td[i] == t[i]);
                assert(has_coord(td, c));
                assert(map_join(m, td).dom().contains(c) && map_join(m, td)[c] == last_tag(td, c));
                assert(last_tag(t, c) == last_tag(td, c));
            }
        }
        assert forall|c: (isize, isize)| !has_coord(t, c) implies (#[trigger] map_join(m, t)
            .dom()
            .contains(c) <==> m.dom().contains(c)) && (m.dom().contains(c) ==> map_join(m, t)[c]
            == m[c]) by {
            assert(coord_of(t[t.len() - 1]) != c);
            assert forall|i: int| 0 <= i < td.len() implies coord_of(td[i]) != c by {
                assert(td[i] == t[i]);
            }
            assert(!has_coord(td, c));
            assert((map_join(m, td).dom().contains(c) <==> m.dom().contains(c)) && (
            m.dom().contains(c) ==> map_join(m, td)[c] == m[c]));
        }
    }
}

/// Joining the same point sequence twice leaves the same coordinate map as
/// joining it once.
pub proof fn lemma_join_idempotent(m: Map<(isize, isize), bool>, t: Seq<TaggedPoint>)
    ensures
        map_join(map_join(m, t), t) == map_join(m, t),
{
    lemma_join_lookup(m, t);
    lemma_join_lookup(map_join(m, t), t);
    assert(map_join(map_join(m, t), t) =~= map_join(m, t));
}

/// A coordinate-unique point sequence never carries a coordinate both as
/// present and as absent.
pub proof fn lemma_wf_no_conflict(s: Seq<TaggedPoint>, x: isize, y: isize)
    requires
        unique_coords(s),
    ensures
        !(s.contains((x, y, true)) && s.contains((x, y, false))),
{
    if s.contains((x, y, true)) && s.contains((x, y, false)) {
        let i = choose|i: int| 0 <= i < s.len() && s[i] == (x, y, true);
        let j = choose|j: int| 0 <= j < s.len() && s[j] == (x, y, false);
        assert(coord_of(s[i]) == coord_of(s[j]));
    }
}

/// The mergeable point set.  `points` holds at most one entry per
/// coordinate whenever the blob was built through `new`, `add` and `join`.
pub struct Blob {
    pub points: Vec<TaggedPoint>,
}

impl View for Blob {
    type V = Map<(isize, isize), bool>;

    open spec fn view(&self) -> Map<(isize, isize), bool> {
        map_join(Map::empty(), self.points@)
    }
}

impl Shape for Blob {
    open spec fn pts(&self) -> Seq<TaggedPoint> {
        self.points@
    }

    fn get_points(&self) -> (r: &Vec<TaggedPoint>) {
        &self.points
    }

    fn is_empty(&self) -> (r: bool) {
        self.points.len() == 0
    }
}

impl Blob {
    /// Coordinate uniqueness: the representation holds at most one tag per
    /// coordinate.
    pub open spec fn wf(&self) -> bool {
        unique_coords(self.points@)
    }

    /// Merge one point into the representation.
    #[verifier::loop_isolation(false)]
    fn put_point(&mut self, p: TaggedPoint)
        requires
            old(self).wf(),
        ensures
            final(self).wf(),
            final(self).points@ == seq_put(old(self).points@, p),
            final(self)@ == old(self)@.insert(coord_of(p), p.2),
    {
        proof {
            lemma_find_coord_spec(self.points@, coord_of(p));
            lemma_seq_put_wf(self.points@, p);
            lemma_seq_put_map(Map::empty(), self.points@, p);
        }
        let ghost s = self.points@;
        let mut i: usize = 0;
        let n = self.points.len();
        while i < n
            invariant
                n == s.len(),
                self.points@ == s,
                i <= n,
                forall|j: int| 0 <= j < i ==> coord_of(s[j]) != coord_of(p),
            decreases n - i,
        {
            let q = self.points[i];
            if q.0 == p.0 && q.1 == p.1 {
                self.points[i] = p;
                proof {
                    let f = find_coord(s, coord_of(p));
                    assert(coord_of(s[i as int]) == coord_of(p));
                    assert(f != -1);
                    assert(coord_of(s[f]) == coord_of(p));
                    assert(f == i);
                }
                return ;
            }
            i = i + 1;
        }
        self.points.push(p);
        proof {
            assert(find_coord(s, coord_of(p)) == -1);
        }
    }

    /// A blob holding the given points, merged in order so that the latest
    /// tag at each coordinate wins.
    pub fn new(points: Vec<TaggedPoint>) -> (r: Blob)
        ensures
            r.wf(),
            r.points@ == seq_join(Seq::empty(), points@),
            r@ == map_join(Map::empty(), points@),
    {
        let mut b = Blob { points: Vec::new() };
        b.join_points(&points);
        proof {
            assert(map_join(Map::empty(), Seq::<TaggedPoint>::empty()) == Map::<(
                isize,
                isize,
            ), bool>::empty());
        }
        b
    }

    /// A blob with no points.
    pub fn new_empty() -> (r: Blob)
        ensures
            r.wf(),
            r.points@ == Seq::<TaggedPoint>::empty(),
            r@ == Map::<(isize, isize), bool>::empty(),
    {
        Blob { points: Vec::new() }
    }

    #[verifier::loop_isolation(false)]
    fn join_points(&mut self, points: &Vec<TaggedPoint>)
        requires
            old(self).wf(),
        ensures
            final(self).wf(),
            final(self).points@ == seq_join(old(self).points@, points@),
            final(self)@ == map_join(old(self)@, points@),
    {
        let ghost s0 = self.points@;
        let mut i: usize = 0;
        let n = points.len();
        while i < n
            invariant
                n == points@.len(),
                unique_coords(s0),
                self.wf(),
                self.points@ == seq_join(s0, points@.subrange(0, i as int)),
                i <= n,
            decreases n - i,
        {
            proof {
                lemma_seq_join_props(Map::empty(), s0, points@.subrange(0, i as int));
            }
            self.put_point(points[i]);
            proof {
                assert(points@.subrange(0, i + 1).drop_last() =~= points@.subrange(0, i as int));
                assert(points@.subrange(0, i + 1).last() == points@[i as int]);
            }
            i = i + 1;
        }
        proof {
            assert(points@.subrange(0, n as int) =~= points@);
            lemma_seq_join_props(Map::empty(), s0, points@);
        }
    }

    /// Merge the given points, dropping any that lie outside the `xdim` by
    /// `ydim` lattice; at each surviving coordinate the latest tag wins.
    #[verifier::loop_isolation(false)]
    pub fn add(&mut self, points: &Vec<TaggedPoint>, xdim: u32, ydim: u32)
        requires
            old(self).wf(),
        ensures
            final(self).wf(),
            final(self).points@ == seq_add(old(self).points@, points@, xdim, ydim),
            final(self)@ == map_add(old(self)@, points@, xdim, ydim),
    {
        let ghost s0 = self.points@;
        let mut i: usize = 0;
        let n = points.len();
        while i < n
            invariant
                n == points@.len(),
                unique_coords(s0),
                self.wf(),
                self.points@ == seq_add(s0, points@.subrange(0, i as int), xdim, ydim),
                i <= n,
            decreases n - i,
        {
            proof {
                lemma_seq_add_props(Map::empty(), s0, points@.subrange(0, i as int), xdim, ydim);
            }
            let p = points[i];
            let in_x = 0 <= p.0 && (p.0 as i128) < (xdim as i128);
            let in_y = 0 <= p.1 && (p.1 as i128) < (ydim as i128);
            if in_x && in_y {
                self.put_point(p);
            }
            proof {
                assert(points@.subrange(0, i + 1).drop_last() =~= points@.subrange(0, i as int));
                assert(points@.subrange(0, i + 1).last() == points@[i as int]);
            }
            i = i + 1;
        }
        proof {
            assert(points@.subrange(0, n as int) =~= points@);
            lemma_seq_add_props(Map::empty(), s0, points@, xdim, ydim);
        }
    }

    /// Merge every point of another shape into this blob, the shape's tags
    /// overwriting whatever was at the same coordinates.
    pub fn join<S: Shape>(&mut self, shape: &S)
        requires
            old(self).wf(),
        ensures
            final(self).wf(),
            final(self).points@ == seq_join(old(self).points@, shape.pts()),
            final(self)@ == map_join(old(self)@, shape.pts()),
    {
        let pts = shape.get_points();
        self.join_points(pts);
    }

    /// Remove every point.
    pub fn empty(&mut self)
        ensures
            final(self).wf(),
            final(self).points@ == Seq::<TaggedPoint>::empty(),
            final(self)@ == Map::<(isize, isize), bool>::empty(),
    {
        self.points.clear();
    }
}

} // verus!
