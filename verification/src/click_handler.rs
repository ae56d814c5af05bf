//! The stateful editor turning pointer gestures into shape operations.  It
//! owns the in-progress curve and blob, an undo stack of completed shapes,
//! and a history map from coordinate to the ordered tags past shapes wrote
//! there, which is what makes undo correct when strokes overlap.

use vstd::prelude::*;

use crate::barrier_shapes::blob::{seq_add, Blob};
use crate::barrier_shapes::curve::Curve;
use crate::barrier_shapes::curve_collection::CurveCollection;
use crate::barrier_shapes::line;
use crate::barrier_shapes::line::MAX_DIM;
use crate::barrier_shapes::{coord_of, has_coord, map_add, map_join, Shape, TaggedPoint};

verus! {

/// What a pointer press currently does.
#[derive(PartialEq, Eq, Structural, Clone, Copy, Debug)]
pub enum ClickType {
    Line,
    Erase,
    Draw,
    Inactive,
}

/// One coordinate's recorded tags, oldest first.
pub type HistEntry = ((isize, isize), Vec<bool>);

/// No two entries of `s` share a key.
pub open spec fn unique_keys(s: Seq<HistEntry>) -> bool {
    forall|i: int, j: int| 0 <= i < j < s.len() ==> (#[trigger] s[i]).0 != (#[trigger] s[j]).0
}

/// The index of the first entry of `s` with key `c`, or `-1` if there is
/// none.
pub open spec fn find_key(s: Seq<HistEntry>, c: (isize, isize)) -> int
    decreases s.len(),
{
    if s.len() == 0 {
        -1
    } else if s[0].0 == c {
        0
    } else {
        let r = find_key(s.skip(1), c);
        if r == -1 {
            -1
        } else {
            r + 1
        }
    }
}

/// The coordinate-to-tags map a sequence of entries represents; entries
/// whose tag list is empty are not part of the map.
pub open spec fn entries_map(s: Seq<HistEntry>) -> Map<(isize, isize), Seq<bool>>
    decreases s.len(),
{
    if s.len() == 0 {
        Map::empty()
    } else {
        let m = entries_map(s.drop_last());
        if s.last().1@.len() == 0 {
            m
        } else {
            m.insert(s.last().0, s.last().1@)
        }
    }
}

/// Recording one drawn point: its tag is pushed onto its coordinate's tag
/// list.
pub open spec fn hist_push(
    h: Map<(isize, isize), Seq<bool>>,
    p: TaggedPoint,
) -> Map<(isize, isize), Seq<bool>> {
    let c = coord_of(p);
    if h.dom().contains(c) {
        h.insert(c, h[c].push(p.2))
    } else {
        h.insert(c, seq![p.2])
    }
}

/// Recording the first `n` points of a drawn shape, in order.
pub open spec fn hist_push_seq(
    h: Map<(isize, isize), Seq<bool>>,
    s: Seq<TaggedPoint>,
    n: int,
) -> Map<(isize, isize), Seq<bool>>
    decreases n,
{
    if n <= 0 {
        h
    } else {
        hist_push(hist_push_seq(h, s, n - 1), s[n - 1])
    }
}

/// Un-recording one point at coordinate `c`: the last tag is popped, and the
/// coordinate leaves the map when nothing remains.
pub open spec fn hist_pop(
    h: Map<(isize, isize), Seq<bool>>,
    c: (isize, isize),
) -> Map<(isize, isize), Seq<bool>> {
    if !h.dom().contains(c) {
        h
    } else if h[c].len() <= 1 {
        h.remove(c)
    } else {
        h.insert(c, h[c].drop_last())
    }
}

/// The tag a coordinate returns to once its last record is popped: whatever
/// then sits on top of its history, or absent when none remains.
pub open spec fn restored_tag(h: Map<(isize, isize), Seq<bool>>, c: (isize, isize)) -> bool {
    if h.dom().contains(c) && h[c].len() >= 2 {
        h[c][h[c].len() - 2]
    } else {
        false
    }
}

/// Un-recording the first `n` points of an undone shape, in order.
pub open spec fn pop_hist_seq(
    h: Map<(isize, isize), Seq<bool>>,
    s: Seq<TaggedPoint>,
    n: int,
) -> Map<(isize, isize), Seq<bool>>
    decreases n,
{
    if n <= 0 {
        h
    } else {
        hist_pop(pop_hist_seq(h, s, n - 1), coord_of(s[n - 1]))
    }
}

/// The tagged points an undo emits while un-recording the first `n` points
/// of a shape: each coordinate paired with the tag it returns to.
pub open spec fn restored_points(
    h: Map<(isize, isize), Seq<bool>>,
    s: Seq<TaggedPoint>,
    n: int,
) -> Seq<TaggedPoint>
    decreases n,
{
    if n <= 0 {
        Seq::empty()
    } else {
        let prev = restored_points(h, s, n - 1);
        let hn = pop_hist_seq(h, s, n - 1);
        prev.push((s[n - 1].0, s[n - 1].1, restored_tag(hn, coord_of(s[n - 1]))))
    }
}

fn copy_tags(v: &Vec<bool>) -> (r: Vec<bool>)
    ensures
        r@ == v@,
{
    let mut out: Vec<bool> = Vec::new();
    let mut i: usize = 0;
    let n = v.len();
    while i < n
        invariant
            i <= n,
            n == v@.len(),
            out@ == v@.subrange(0, i as int),
        decreases n - i,
    {
        out.push(v[i]);
        proof {
            assert(out@ =~= v@.subrange(0, i + 1));
        }
        i = i + 1;
    }
    proof {
        assert(out@ =~= v@);
    }
    out
}

proof fn lemma_find_key_spec(s: Seq<HistEntry>, c: (isize, isize))
    ensures
        find_key(s, c) == -1 ==> forall|j: int| 0 <= j < s.len() ==> (#[trigger] s[j]).0 != c,
        find_key(s, c) != -1 ==> {
            let f = find_key(s, c);
            &&& 0 <= f < s.len()
            &&& s[f].0 == c
            &&& forall|j: int| 0 <= j < f ==> (#[trigger] s[j]).0 != c
        },
    decreases s.len(),
{
    if s.len() == 0 {
    } else if s[0].0 == c {
    } else {
        lemma_find_key_spec(s.skip(1), c);
        let r = find_key(s.skip(1), c);
        if r == -1 {
            assert forall|j: int| 0 <= j < s.len() implies (#[trigger] s[j]).0 != c by {
                if j > 0 {
                    assert(s.skip(1)[j - 1] == s[j]);
                }
            }
        } else {
            assert(s.skip(1)[r] == s[r + 1]);
            assert(find_key(s, c) == r + 1);
            assert forall|j: int| 0 <= j < r + 1 implies (#[trigger] s[j]).0 != c by {
                if j > 0 {
                    assert(s.skip(1)[j - 1] == s[j]);
                }
            }
        }
    }
}

proof fn lemma_entries_map_absent(s: Seq<HistEntry>, c: (isize, isize))
    requires
        forall|j: int| 0 <= j < s.len() ==> (#[trigger] s[j]).0 != c,
    ensures
        !entries_map(s).dom().contains(c),
    decreases s.len(),
{
    if s.len() == 0 {
    } else {
        assert(forall|j: int|
            0 <= j < s.drop_last().len() ==> (#[trigger] s.drop_last()[j]) == s[j]);
        lemma_entries_map_absent(s.drop_last(), c);
    }
}

proof fn lemma_entries_map_at(s: Seq<HistEntry>, i: int)
    requires
        unique_keys(s),
        0 <= i < s.len(),
    ensures
        s[i].1@.len() == 0 ==> !entries_map(s).dom().contains(s[i].0),
        s[i].1@.len() > 0 ==> entries_map(s).dom().contains(s[i].0) && entries_map(s)[s[i].0]
            == s[i].1@,
    decreases s.len(),
{
    if s.len() == 0 {
    } else if i == s.len() - 1 {
        assert forall|j: int| 0 <= j < s.drop_last().len() implies (#[trigger] s.drop_last()[j]).0
            != s[i].0 by {
            assert(s.drop_last()[j] == s[j]);
        }
        lemma_entries_map_absent(s.drop_last(), s[i].0);
    } else {
        assert(forall|j: int|
            0 <= j < s.drop_last().len() ==> (#[trigger] s.drop_last()[j]) == s[j]);
        lemma_entries_map_at(s.drop_last(), i);
        assert(s.last().0 != s[i].0);
    }
}

proof fn lemma_entries_map_update(s: Seq<HistEntry>, i: int, v: Vec<bool>)
    requires
        unique_keys(s),
        0 <= i < s.len(),
    ensures
        unique_keys(s.update(i, (s[i].0, v))),
        entries_map(s.update(i, (s[i].0, v))) == (if v@.len() == 0 {
            entries_map(s).remove(s[i].0)
        } else {
            entries_map(s).insert(s[i].0, v@)
        }),
    decreases s.len(),
{
    let c = s[i].0;
    let t = s.update(i, (c, v));
    assert forall|a: int, b: int| 0 <= a < b < t.len() implies (#[trigger] t[a]).0 != (
    #[trigger] t[b]).0 by {
        assert(t[a].0 == s[a].0);
        assert(t[b].0 == s[b].0);
    }
    if i == s.len() - 1 {
        assert(t.drop_last() =~= s.drop_last());
        assert forall|j: int| 0 <= j < s.drop_last().len() implies (#[trigger] s.drop_last()[j]).0
            != c by {
            assert(s.drop_last()[j] == s[j]);
        }
        lemma_entries_map_absent(s.drop_last(), c);
        if v@.len() == 0 {
            assert(entries_map(t) == entries_map(s.drop_last()));
            if s.last().1@.len() == 0 {
                assert(entries_map(s) == entries_map(s.drop_last()));
                assert(entries_map(s).remove(c) =~= entries_map(s));
            } else {
                assert(entries_map(s) == entries_map(s.drop_last()).insert(c, s.last().1@));
                assert(entries_map(s).remove(c) =~= entries_map(s.drop_last()));
            }
        } else {
            if s.last().1@.len() == 0 {
                assert(entries_map(s) == entries_map(s.drop_last()));
                assert(entries_map(s).insert(c, v@) =~= entries_map(s.drop_last()).insert(c, v@));
            } else {
                assert(entries_map(s).insert(c, v@) =~= entries_map(s.drop_last()).insert(c, v@));
            }
        }
    } else {
        assert(forall|j: int|
            0 <= j < s.drop_last().len() ==> (#[trigger] s.drop_last()[j]) == s[j]);
        lemma_entries_map_update(s.drop_last(), i, v);
        assert(t.drop_last() =~= s.drop_last().update(i, (c, v)));
        assert(t.last() == s.last());
        assert(s.last().0 != c);
        let md = entries_map(s.drop_last());
        if s.last().1@.len() == 0 {
            assert(entries_map(t) == entries_map(t.drop_last()));
            if v@.len() == 0 {
                assert(entries_map(s).remove(c) =~= md.remove(c));
            } else {
                assert(entries_map(s).insert(c, v@) =~= md.insert(c, v@));
            }
        } else {
            if v@.len() == 0 {
                assert(entries_map(s).remove(c) =~= md.remove(c).insert(s.last().0, s.last().1@));
            } else {
                assert(entries_map(s).insert(c, v@) =~= md.insert(c, v@).insert(
                    s.last().0,
                    s.last().1@,
                ));
            }
        }
    }
}

proof fn lemma_entries_map_push(s: Seq<HistEntry>, e: HistEntry)
    requires
        forall|j: int| 0 <= j < s.len() ==> (#[trigger] s[j]).0 != e.0,
        unique_keys(s),
        e.1@.len() > 0,
    ensures
        unique_keys(s.push(e)),
        entries_map(s.push(e)) == entries_map(s).insert(e.0, e.1@),
{
    assert(s.push(e).drop_last() =~= s);
    assert forall|a: int, b: int| 0 <= a < b < s.push(e).len() implies (#[trigger] s.push(e)[a]).0
        != (#[trigger] s.push(e)[b]).0 by {
        if b == s.len() {
            assert(s.push(e)[a] == s[a]);
            assert(s.push(e)[b] == e);
        } else {
            assert(s.push(e)[a] == s[a]);
            assert(s.push(e)[b] == s[b]);
        }
    }
}

/// The coordinate history: for every touched coordinate, the ordered tags
/// past shapes wrote there.
pub struct History {
    pub entries: Vec<HistEntry>,
}

impl View for History {
    type V = Map<(isize, isize), Seq<bool>>;

    open spec fn view(&self) -> Map<(isize, isize), Seq<bool>> {
        entries_map(self.entries@)
    }
}

impl History {
    /// Keys are stored at most once.
    pub open spec fn wf(&self) -> bool {
        unique_keys(self.entries@)
    }

    /// An empty history.
    pub fn new() -> (r: History)
        ensures
            r.wf(),
            r@ == Map::<(isize, isize), Seq<bool>>::empty(),
    {
        History { entries: Vec::new() }
    }

    /// Forget everything.
    pub fn clear(&mut self)
        ensures
            final(self).wf(),
            final(self)@ == Map::<(isize, isize), Seq<bool>>::empty(),
    {
        self.entries.clear();
    }

    #[verifier::loop_isolation(false)]
    fn find_entry(&self, c: (isize, isize)) -> (r: Option<usize>)
        ensures
            (r matches Some(i) ==> i < self.entries@.len() && find_key(self.entries@, c)
                == i as int),
            (r is None ==> find_key(self.entries@, c) == -1),
    {
        proof {
            lemma_find_key_spec(self.entries@, c);
        }
        let ghost s = self.entries@;
        let mut i: usize = 0;
        let n = self.entries.len();
        while i < n
            invariant
                i <= n,
                n == s.len(),
                self.entries@ == s,
                forall|j: int| 0 <= j < i ==> (#[trigger] s[j]).0 != c,
            decreases n - i,
        {
            let key = self.entries[i].0;
            if key.0 == c.0 && key.1 == c.1 {
                proof {
                    let f = find_key(s, c);
                    assert(s[i as int].0 == c);
                    assert(f != -1);
                    assert(s[f].0 == c);
                    assert(f == i);
                }
                return Some(i);
            }
            i = i + 1;
        }
        None
    }

    /// Record one drawn point.
    pub fn push_tag(&mut self, p: TaggedPoint)
        requires
            old(self).wf(),
        ensures
            final(self).wf(),
            final(self)@ == hist_push(old(self)@, p),
    {
        let c = (p.0, p.1);
        proof {
            lemma_find_key_spec(self.entries@, c);
        }
        match self.find_entry(c) {
            Some(i) => {
                let ghost s = self.entries@;
                let ghost i_ = i as int;
                let mut v = copy_tags(&self.entries[i].1);
                v.push(p.2);
                let ghost vnew = v;
                proof {
                    lemma_entries_map_at(s, i_);
                    lemma_entries_map_update(s, i_, vnew);
                }
                self.entries[i] = (c, v);
                proof {
                    assert(self.entries@ =~= s.update(i_, (s[i_].0, vnew)));
                    if s[i_].1@.len() == 0 {
                        assert(vnew@ =~= seq![p.2]);
                    }
                    assert(self@ =~= hist_push(entries_map(s), p));
                }
            },
            None => {
                let ghost s = self.entries@;
                let mut v: Vec<bool> = Vec::new();
                v.push(p.2);
                let ghost vnew = v;
                proof {
                    lemma_entries_map_absent(s, c);
                    lemma_entries_map_push(s, (c, vnew));
                    assert(vnew@ =~= seq![p.2]);
                }
                self.entries.push((c, v));
            },
        }
    }

    /// Un-record one point at coordinate `c`, returning the tag the
    /// coordinate goes back to.
    pub fn pop_tag(&mut self, c: (isize, isize)) -> (r: bool)
        requires
            old(self).wf(),
        ensures
            final(self).wf(),
            final(self)@ == hist_pop(old(self)@, c),
            r == restored_tag(old(self)@, c),
    {
        proof {
            lemma_find_key_spec(self.entries@, c);
        }
        match self.find_entry(c) {
            Some(i) => {
                let ghost s = self.entries@;
                let ghost i_ = i as int;
                let mut v = copy_tags(&self.entries[i].1);
                proof {
                    lemma_entries_map_at(s, i_);
                }
                if v.len() == 0 {
                    proof {
                        assert(!entries_map(s).dom().contains(c));
                    }
                    return false;
                }
                let restored = if v.len() >= 2 {
                    v[v.len() - 2]
                } else {
                    false
                };
                v.pop();
                let ghost vnew = v;
                proof {
                    assert(vnew@ == s[i_].1@.drop_last());
                    lemma_entries_map_update(s, i_, vnew);
                }
                self.entries[i] = (c, v);
                proof {
                    assert(self.entries@ =~= s.update(i_, (s[i_].0, vnew)));
                    assert(self@ =~= hist_pop(entries_map(s), c));
                }
                restored
            },
            None => {
                proof {
                    lemma_entries_map_absent(self.entries@, c);
                }
                false
            },
        }
    }
}


/// A completed shape as it sits on the undo stack.
pub enum DrawnShape {
    Line(line::Line),
    CurveCollection(CurveCollection),
    Blob(Blob),
}

impl Shape for DrawnShape {
    open spec fn pts(&self) -> Seq<TaggedPoint> {
        match self {
            DrawnShape::Line(l) => l.points@,
            DrawnShape::CurveCollection(c) => c.points@,
            DrawnShape::Blob(b) => b.points@,
        }
    }

    fn get_points(&self) -> (r: &Vec<TaggedPoint>) {
        match self {
            DrawnShape::Line(l) => &l.points,
            DrawnShape::CurveCollection(c) => &c.points,
            DrawnShape::Blob(b) => &b.points,
        }
    }

    fn is_empty(&self) -> (r: bool) {
        self.get_points().len() == 0
    }
}

/// How a freehand stroke grows when extended to `next`: a rasterized
/// segment from the remembered position, or a single starting point.
pub open spec fn curve_extended(
    old_c: Curve,
    new_c: Curve,
    next: (isize, isize),
    xdim: isize,
    ydim: isize,
    erase: bool,
) -> bool {
    &&& new_c.last_point == Some(next)
    &&& (old_c.last_point matches Some(lp) ==> new_c.points@
        == crate::barrier_shapes::set_extend(
        old_c.points@,
        line::line_points_spec(
            lp,
            next,
            xdim,
            ydim,
            !erase,
            if erase {
                30
            } else {
                2
            },
        ),
    ))
    &&& (old_c.last_point is None ==> new_c.points@ == crate::barrier_shapes::insert_pt(
        old_c.points@,
        (next.0, next.1, !erase),
    ))
}

/// The stateful pointer-gesture editor.
pub struct ClickHandler {
    pub current_type: ClickType,
    pub line_points: Vec<(isize, isize)>,
    pub current_blob: Blob,
    pub current_curve: Curve,
    pub contiguous_curve: CurveCollection,
    pub undo_stack: Vec<DrawnShape>,
    pub history: History,
    pub x: u32,
    pub y: u32,
}

impl ClickHandler {
    /// The handler's structural invariant: dimensions are positive and
    /// bounded, the blob and history are well formed, and every remembered
    /// pointer position lies on the lattice.
    pub open spec fn wf(&self) -> bool {
        &&& 0 < self.x && self.x as int <= MAX_DIM as int
        &&& 0 < self.y && self.y as int <= MAX_DIM as int
        &&& self.history.wf()
        &&& self.current_blob.wf()
        &&& (self.current_curve.last_point matches Some(lp) ==> 0 <= lp.0 < self.x && 0 <= lp.1
            < self.y)
        &&& self.line_points@.len() <= 1
        &&& forall|k: int|
            0 <= k < self.line_points@.len() ==> 0 <= (#[trigger] self.line_points@[k]).0 < self.x
                && 0 <= self.line_points@[k].1 < self.y
    }

    /// A fresh handler for an `x` by `y` lattice, in draw mode with nothing
    /// recorded.
    pub fn new(x: u32, y: u32) -> (r: ClickHandler)
        requires
            0 < x && x as int <= MAX_DIM as int,
            0 < y && y as int <= MAX_DIM as int,
        ensures
            r.wf(),
            r.current_type == ClickType::Draw,
            r.line_points@.len() == 0,
            r.current_blob@ == Map::<(isize, isize), bool>::empty(),
            r.current_curve.points@.len() == 0,
            r.current_curve.last_point is None,
            r.contiguous_curve.points@.len() == 0,
            r.undo_stack@.len() == 0,
            r.history@ == Map::<(isize, isize), Seq<bool>>::empty(),
            r.x == x,
            r.y == y,
    {
        ClickHandler {
            current_type: ClickType::Draw,
            current_blob: Blob::new_empty(),
            line_points: Vec::new(),
            undo_stack: Vec::new(),
            current_curve: Curve::new(),
            contiguous_curve: CurveCollection::new(),
            history: History::new(),
            x,
            y,
        }
    }

    /// Forget every shape, stroke and record: the editor state after a
    /// barrier preset wipes the lattice.
    pub fn clear_barrier(&mut self)
        requires
            old(self).wf(),
        ensures
            final(self).wf(),
            final(self).current_type == old(self).current_type,
            final(self).x == old(self).x,
            final(self).y == old(self).y,
            final(self).line_points@.len() == 0,
            final(self).current_blob@ == Map::<(isize, isize), bool>::empty(),
            final(self).current_curve.points@.len() == 0,
            final(self).current_curve.last_point is None,
            final(self).contiguous_curve.points@.len() == 0,
            final(self).undo_stack@.len() == 0,
            final(self).history@ == Map::<(isize, isize), Seq<bool>>::empty(),
    {
        self.current_curve = Curve::new();
        self.contiguous_curve = CurveCollection::new();
        self.undo_stack.clear();
        self.history.clear();
        self.current_blob.empty();
        self.line_points.clear();
    }

    /// Extend the current stroke while the pointer moves with the button
    /// held: draws in draw mode, erases in erase mode, does nothing
    /// otherwise.
    pub fn handle_movement(&mut self, location: (isize, isize))
        requires
            old(self).wf(),
            0 <= location.0 < old(self).x,
            0 <= location.1 < old(self).y,
        ensures
            final(self).wf(),
            final(self).current_type == old(self).current_type,
            final(self).x == old(self).x,
            final(self).y == old(self).y,
            final(self).line_points == old(self).line_points,
            final(self).current_blob == old(self).current_blob,
            final(self).contiguous_curve == old(self).contiguous_curve,
            final(self).undo_stack == old(self).undo_stack,
            final(self).history == old(self).history,
            (old(self).current_type == ClickType::Draw ==> curve_extended(
                old(self).current_curve,
                final(self).current_curve,
                location,
                old(self).x as isize,
                old(self).y as isize,
                false,
            )),
            (old(self).current_type == ClickType::Erase ==> curve_extended(
                old(self).current_curve,
                final(self).current_curve,
                location,
                old(self).x as isize,
                old(self).y as isize,
                true,
            )),
            (old(self).current_type == ClickType::Line || old(self).current_type
                == ClickType::Inactive ==> final(self).current_curve == old(self).current_curve),
    {
        match self.current_type {
            ClickType::Erase => {
                let x = self.x as isize;
                let y = self.y as isize;
                self.current_curve.erase_segment(location, x, y);
            },
            ClickType::Draw => {
                let x = self.x as isize;
                let y = self.y as isize;
                self.current_curve.add_segment(location, x, y);
            },
            _ => (),
        }
    }

    /// Record a completed shape: push each of its tags onto its
    /// coordinate's history and put the shape on the undo stack.
    #[verifier::loop_isolation(false)]
    fn add_to_history(&mut self, shape: DrawnShape)
        requires
            old(self).wf(),
        ensures
            final(self).wf(),
            final(self).current_type == old(self).current_type,
            final(self).x == old(self).x,
            final(self).y == old(self).y,
            final(self).line_points == old(self).line_points,
            final(self).current_blob == old(self).current_blob,
            final(self).current_curve == old(self).current_curve,
            final(self).contiguous_curve == old(self).contiguous_curve,
            final(self).history@ == hist_push_seq(
                old(self).history@,
                shape.pts(),
                shape.pts().len() as int,
            ),
            final(self).undo_stack@.len() == old(self).undo_stack@.len() + 1,
            forall|k: int|
                0 <= k < old(self).undo_stack@.len() ==> final(self).undo_stack@[k] == old(self).undo_stack@[k],
            final(self).undo_stack@.last() == shape,
    {
        let ghost h0 = self.history@;
        let ghost pts_g = shape.pts();
        let pts = shape.get_points();
        let n = pts.len();
        let mut i: usize = 0;
        while i < n
            invariant
                i <= n,
                n == pts_g.len(),
                pts@ == pts_g,
                self.history.wf(),
                self.history@ == hist_push_seq(h0, pts_g, i as int),
                self.current_type == old(self).current_type,
                self.x == old(self).x,
                self.y == old(self).y,
                self.line_points == old(self).line_points,
                self.current_blob == old(self).current_blob,
                self.current_curve == old(self).current_curve,
                self.contiguous_curve == old(self).contiguous_curve,
                self.undo_stack == old(self).undo_stack,
            decreases n - i,
        {
            let p = pts[i];
            self.history.push_tag(p);
            i = i + 1;
        }
        self.undo_stack.push(shape);
    }

    /// Un-record a shape: pop each coordinate's last tag and collect, as a
    /// blob, the tag every touched coordinate returns to.
    #[verifier::loop_isolation(false)]
    fn remove_shape(&mut self, shape: &DrawnShape) -> (b: Blob)
        requires
            old(self).wf(),
        ensures
            final(self).wf(),
            final(self).current_type == old(self).current_type,
            final(self).x == old(self).x,
            final(self).y == old(self).y,
            final(self).line_points == old(self).line_points,
            final(self).current_blob == old(self).current_blob,
            final(self).current_curve == old(self).current_curve,
            final(self).contiguous_curve == old(self).contiguous_curve,
            final(self).undo_stack == old(self).undo_stack,
            final(self).history@ == pop_hist_seq(
                old(self).history@,
                shape.pts(),
                shape.pts().len() as int,
            ),
            b.wf(),
            b.points@ == seq_add(
                Seq::empty(),
                restored_points(old(self).history@, shape.pts(), shape.pts().len() as int),
                old(self).x,
                old(self).y,
            ),
            b@ == map_add(
                Map::empty(),
                restored_points(old(self).history@, shape.pts(), shape.pts().len() as int),
                old(self).x,
                old(self).y,
            ),
    {
        let ghost h0 = self.history@;
        let ghost pts_g = shape.pts();
        let pts = shape.get_points();
        let n = pts.len();
        let mut out: Vec<TaggedPoint> = Vec::new();
        let mut i: usize = 0;
        while i < n
            invariant
                i <= n,
                n == pts_g.len(),
                pts@ == pts_g,
                self.history.wf(),
                self.history@ == pop_hist_seq(h0, pts_g, i as int),
                out@ == restored_points(h0, pts_g, i as int),
                self.current_type == old(self).current_type,
                self.x == old(self).x,
                self.y == old(self).y,
                self.line_points == old(self).line_points,
                self.current_blob == old(self).current_blob,
                self.current_curve == old(self).current_curve,
                self.contiguous_curve == old(self).contiguous_curve,
                self.undo_stack == old(self).undo_stack,
            decreases n - i,
        {
            let p = pts[i];
            let restored = self.history.pop_tag((p.0, p.1));
            out.push((p.0, p.1, restored));
            i = i + 1;
        }
        let mut blob = Blob::new_empty();
        blob.add(&out, self.x, self.y);
        blob
    }

    /// Handle a pointer press: in line mode collect endpoints and emit a
    /// completed line once two are buffered; in draw or erase mode extend
    /// the current stroke.
    pub fn handle_click(&mut self, click_location: (isize, isize))
        requires
            old(self).wf(),
            0 <= click_location.0 < old(self).x,
            0 <= click_location.1 < old(self).y,
        ensures
            final(self).wf(),
            final(self).current_type == old(self).current_type,
            final(self).x == old(self).x,
            final(self).y == old(self).y,
            (old(self).current_type == ClickType::Draw ==> curve_extended(
                old(self).current_curve,
                final(self).current_curve,
                click_location,
                old(self).x as isize,
                old(self).y as isize,
                false,
            ) && final(self).current_blob == old(self).current_blob && final(self).history == old(self).history && final(self).undo_stack == old(self).undo_stack && final(self).line_points
                == old(self).line_points),
            (old(self).current_type == ClickType::Erase ==> curve_extended(
                old(self).current_curve,
                final(self).current_curve,
                click_location,
                old(self).x as isize,
                old(self).y as isize,
                true,
            ) && final(self).current_blob == old(self).current_blob && final(self).history == old(self).history && final(self).undo_stack == old(self).undo_stack && final(self).line_points
                == old(self).line_points),
            (old(self).current_type == ClickType::Inactive ==> *final(self) == *old(self)),
            (old(self).current_type == ClickType::Line && old(self).line_points@.len() == 0
                ==> final(self).line_points@ == old(self).line_points@.push(click_location)
                && final(self).current_blob == old(self).current_blob && final(self).history == old(self).history && final(self).undo_stack == old(self).undo_stack && final(self).current_curve
                == old(self).current_curve),
            (old(self).current_type == ClickType::Line && old(self).line_points@.len() == 1 ==> {
                let lps = line::line_points_spec(
                    old(self).line_points@[0],
                    click_location,
                    old(self).x as isize,
                    old(self).y as isize,
                    true,
                    2,
                );
                &&& final(self).line_points@.len() == 0
                &&& final(self).current_blob@ == map_join(old(self).current_blob@, lps)
                &&& final(self).history@ == hist_push_seq(
                    old(self).history@,
                    lps,
                    lps.len() as int,
                )
                &&& final(self).undo_stack@.len() == old(self).undo_stack@.len() + 1
                &&& (final(self).undo_stack@.last() matches DrawnShape::Line(l) && l.points@
                    == lps)
                &&& final(self).current_curve == old(self).current_curve
            }),
    {
        match self.current_type {
            ClickType::Line => {
                self.line_click(click_location);
            },
            ClickType::Erase => {
                let x = self.x as isize;
                let y = self.y as isize;
                self.current_curve.erase_segment(click_location, x, y);
            },
            ClickType::Draw => {
                let x = self.x as isize;
                let y = self.y as isize;
                self.current_curve.add_segment(click_location, x, y);
            },
            _ => (),
        }
    }

    /// Build the line between two collected endpoints, fold it into the
    /// pending blob and record it.
    #[verifier::rlimit(60)]
    fn commit_line(&mut self, p0: (isize, isize), p1: (isize, isize))
        requires
            old(self).wf(),
            0 <= p0.0 < old(self).x,
            0 <= p0.1 < old(self).y,
            0 <= p1.0 < old(self).x,
            0 <= p1.1 < old(self).y,
        ensures
            final(self).wf(),
            final(self).current_type == old(self).current_type,
            final(self).x == old(self).x,
            final(self).y == old(self).y,
            final(self).line_points == old(self).line_points,
            final(self).current_curve == old(self).current_curve,
            final(self).contiguous_curve == old(self).contiguous_curve,
            ({
                let lps = line::line_points_spec(
                    p0,
                    p1,
                    old(self).x as isize,
                    old(self).y as isize,
                    true,
                    2,
                );
                &&& final(self).current_blob@ == map_join(old(self).current_blob@, lps)
                &&& final(self).history@ == hist_push_seq(
                    old(self).history@,
                    lps,
                    lps.len() as int,
                )
                &&& final(self).undo_stack@.len() == old(self).undo_stack@.len() + 1
                &&& (final(self).undo_stack@.last() matches DrawnShape::Line(l) && l.points@
                    == lps)
            }),
    {
        let x = self.x as isize;
        let y = self.y as isize;
        let shape = line::Line::new(p0, p1, x, y).unwrap();
        self.current_blob.join(&shape);
        self.add_to_history(DrawnShape::Line(shape));
    }

    #[verifier::rlimit(60)]
    fn line_click(&mut self, click_location: (isize, isize))
        requires
            old(self).wf(),
            0 <= click_location.0 < old(self).x,
            0 <= click_location.1 < old(self).y,
        ensures
            final(self).wf(),
            final(self).current_type == old(self).current_type,
            final(self).x == old(self).x,
            final(self).y == old(self).y,
            final(self).current_curve == old(self).current_curve,
            final(self).contiguous_curve == old(self).contiguous_curve,
            (old(self).line_points@.len() == 0 ==> final(self).line_points@ == old(self).line_points@.push(click_location) && final(self).current_blob == old(self).current_blob && final(self).history == old(self).history && final(self).undo_stack
                == old(self).undo_stack),
            (old(self).line_points@.len() == 1 ==> {
                let lps = line::line_points_spec(
                    old(self).line_points@[0],
                    click_location,
                    old(self).x as isize,
                    old(self).y as isize,
                    true,
                    2,
                );
                &&& final(self).line_points@.len() == 0
                &&& final(self).current_blob@ == map_join(old(self).current_blob@, lps)
                &&& final(self).history@ == hist_push_seq(
                    old(self).history@,
                    lps,
                    lps.len() as int,
                )
                &&& final(self).undo_stack@.len() == old(self).undo_stack@.len() + 1
                &&& (final(self).undo_stack@.last() matches DrawnShape::Line(l) && l.points@
                    == lps)
            }),
    {
        self.line_points.push(click_location);
        if self.line_points.len() >= 2 {
            let p0 = self.line_points[0];
            let p1 = self.line_points[1];
            self.line_points.clear();
            self.commit_line(p0, p1);
        }
    }

    /// Fold the finished stroke into the pending blob, freeze it into the
    /// contiguous curve, and record that collection in the history.
    fn release(&mut self)
        requires
            old(self).wf(),
        ensures
            final(self).wf(),
            final(self).current_type == old(self).current_type,
            final(self).x == old(self).x,
            final(self).y == old(self).y,
            final(self).line_points == old(self).line_points,
            final(self).current_blob@ == map_join(
                old(self).current_blob@,
                old(self).current_curve.points@,
            ),
            final(self).current_curve.points@.len() == 0,
            final(self).current_curve.last_point is None,
            final(self).contiguous_curve.points@.len() == 0,
            final(self).contiguous_curve.last_point is None,
            final(self).history@ == hist_push_seq(
                old(self).history@,
                crate::barrier_shapes::set_extend(
                    old(self).contiguous_curve.points@,
                    old(self).current_curve.points@,
                ),
                crate::barrier_shapes::set_extend(
                    old(self).contiguous_curve.points@,
                    old(self).current_curve.points@,
                ).len() as int,
            ),
            final(self).undo_stack@.len() == old(self).undo_stack@.len() + 1,
            (final(self).undo_stack@.last() matches DrawnShape::CurveCollection(cc) && cc.points@
                == crate::barrier_shapes::set_extend(
                old(self).contiguous_curve.points@,
                old(self).current_curve.points@,
            )),
    {
        self.current_blob.join(&self.current_curve);
        let mut temp = Curve::new();
        core::mem::swap(&mut self.current_curve, &mut temp);
        self.contiguous_curve.add_curve(temp);
        let mut temp2 = CurveCollection::new();
        core::mem::swap(&mut self.contiguous_curve, &mut temp2);
        self.add_to_history(DrawnShape::CurveCollection(temp2));
    }

    /// Handle the pointer button being released: a freehand stroke in draw
    /// or erase mode is completed and recorded.
    pub fn handle_release(&mut self)
        requires
            old(self).wf(),
        ensures
            final(self).wf(),
            final(self).current_type == old(self).current_type,
            final(self).x == old(self).x,
            final(self).y == old(self).y,
            (old(self).current_type == ClickType::Draw || old(self).current_type
                == ClickType::Erase ==> final(self).current_blob@ == map_join(
                old(self).current_blob@,
                old(self).current_curve.points@,
            ) && final(self).current_curve.points@.len() == 0 && final(self).contiguous_curve.points@.len() == 0 && final(self).undo_stack@.len() == old(self).undo_stack@.len() + 1),
            (old(self).current_type == ClickType::Line || old(self).current_type
                == ClickType::Inactive ==> *final(self) == *old(self)),
    {
        match self.current_type {
            ClickType::Erase => self.release(),
            ClickType::Draw => self.release(),
            _ => (),
        }
    }

    /// Drop the pending blob and the in-progress stroke.
    pub fn empty_all(&mut self)
        requires
            old(self).wf(),
        ensures
            final(self).wf(),
            final(self).current_type == old(self).current_type,
            final(self).x == old(self).x,
            final(self).y == old(self).y,
            final(self).line_points == old(self).line_points,
            final(self).current_blob@ == Map::<(isize, isize), bool>::empty(),
            final(self).current_curve.points@.len() == 0,
            final(self).current_curve.last_point is None,
            final(self).contiguous_curve == old(self).contiguous_curve,
            final(self).undo_stack == old(self).undo_stack,
            final(self).history == old(self).history,
    {
        self.current_blob.empty();
        self.current_curve.empty();
    }

    /// Change what a pointer press does; buffered line endpoints are
    /// discarded.
    pub fn switch_click_type(&mut self, click_type: ClickType)
        requires
            old(self).wf(),
        ensures
            final(self).wf(),
            final(self).current_type == click_type,
            final(self).x == old(self).x,
            final(self).y == old(self).y,
            final(self).line_points@.len() == 0,
            final(self).current_blob == old(self).current_blob,
            final(self).current_curve == old(self).current_curve,
            final(self).contiguous_curve == old(self).contiguous_curve,
            final(self).undo_stack == old(self).undo_stack,
            final(self).history == old(self).history,
    {
        self.current_type = click_type;
        self.line_points.clear();
    }

    /// After a frame consumed the pending blob: clear it, and in draw or
    /// erase mode with the button still held, freeze the stroke so far and
    /// restart it from the current pointer position.
    pub fn update(&mut self, pressed: bool, location: (isize, isize))
        requires
            old(self).wf(),
            0 <= location.0 < old(self).x,
            0 <= location.1 < old(self).y,
        ensures
            final(self).wf(),
            final(self).current_type == old(self).current_type,
            final(self).x == old(self).x,
            final(self).y == old(self).y,
            final(self).line_points == old(self).line_points,
            final(self).current_blob@ == Map::<(isize, isize), bool>::empty(),
            final(self).undo_stack == old(self).undo_stack,
            final(self).history == old(self).history,
            (pressed && old(self).current_type == ClickType::Draw ==> final(self).contiguous_curve.points@ == crate::barrier_shapes::set_extend(
                old(self).contiguous_curve.points@,
                old(self).current_curve.points@,
            ) && final(self).current_curve.points@ == seq![(location.0, location.1, true)] && final(self).current_curve.last_point == Some(location)),
            (pressed && old(self).current_type == ClickType::Erase ==> final(self).contiguous_curve.points@ == crate::barrier_shapes::set_extend(
                old(self).contiguous_curve.points@,
                old(self).current_curve.points@,
            ) && final(self).current_curve.points@ == seq![(location.0, location.1, false)]
                && final(self).current_curve.last_point == Some(location)),
            (!pressed || (old(self).current_type != ClickType::Draw && old(self).current_type
                != ClickType::Erase) ==> final(self).current_curve == old(self).current_curve
                && final(self).contiguous_curve == old(self).contiguous_curve),
    {
        self.current_blob.empty();
        if pressed && self.current_type == ClickType::Draw {
            self.draw_update(location);
        } else if pressed && self.current_type == ClickType::Erase {
            self.erase_update(location);
        }
    }

    fn draw_update(&mut self, click_location: (isize, isize))
        requires
            old(self).wf(),
            0 <= click_location.0 < old(self).x,
            0 <= click_location.1 < old(self).y,
        ensures
            final(self).wf(),
            final(self).current_type == old(self).current_type,
            final(self).x == old(self).x,
            final(self).y == old(self).y,
            final(self).line_points == old(self).line_points,
            final(self).current_blob == old(self).current_blob,
            final(self).undo_stack == old(self).undo_stack,
            final(self).history == old(self).history,
            final(self).contiguous_curve.points@ == crate::barrier_shapes::set_extend(
                old(self).contiguous_curve.points@,
                old(self).current_curve.points@,
            ),
            final(self).current_curve.points@ == seq![
                (click_location.0, click_location.1, true),
            ],
            final(self).current_curve.last_point == Some(click_location),
    {
        let mut temp = Curve::new();
        core::mem::swap(&mut self.current_curve, &mut temp);
        self.contiguous_curve.add_curve(temp);
        let x = self.x as isize;
        let y = self.y as isize;
        self.current_curve.add_segment(click_location, x, y);
    }

    fn erase_update(&mut self, click_location: (isize, isize))
        requires
            old(self).wf(),
            0 <= click_location.0 < old(self).x,
            0 <= click_location.1 < old(self).y,
        ensures
            final(self).wf(),
            final(self).current_type == old(self).current_type,
            final(self).x == old(self).x,
            final(self).y == old(self).y,
            final(self).line_points == old(self).line_points,
            final(self).current_blob == old(self).current_blob,
            final(self).undo_stack == old(self).undo_stack,
            final(self).history == old(self).history,
            final(self).contiguous_curve.points@ == crate::barrier_shapes::set_extend(
                old(self).contiguous_curve.points@,
                old(self).current_curve.points@,
            ),
            final(self).current_curve.points@ == seq![
                (click_location.0, click_location.1, false),
            ],
            final(self).current_curve.last_point == Some(click_location),
    {
        let mut temp = Curve::new();
        core::mem::swap(&mut self.current_curve, &mut temp);
        self.contiguous_curve.add_curve(temp);
        let x = self.x as isize;
        let y = self.y as isize;
        self.current_curve.erase_segment(click_location, x, y);
    }

    /// Undo one step.  While an uncommitted blob or stroke is pending it is
    /// merely discarded; otherwise the most recent shape is popped and the
    /// blob that repaints every touched coordinate with its pre-draw tag is
    /// returned.
    pub fn undo(&mut self) -> (r: Option<Blob>)
        requires
            old(self).wf(),
        ensures
            final(self).wf(),
            final(self).current_type == old(self).current_type,
            final(self).x == old(self).x,
            final(self).y == old(self).y,
            final(self).line_points == old(self).line_points,
            (old(self).current_blob.points@.len() == 0 && old(self).current_curve.points@.len()
                == 0 && old(self).undo_stack@.len() == 0 ==> r is None && final(self).current_blob
                == old(self).current_blob && final(self).current_curve == old(self).current_curve
                && final(self).contiguous_curve == old(self).contiguous_curve && final(self).undo_stack@ == old(self).undo_stack@ && final(self).history == old(self).history),
            (old(self).current_blob.points@.len() == 0 && old(self).current_curve.points@.len()
                == 0 && old(self).undo_stack@.len() > 0 ==> {
                let shp = old(self).undo_stack@.last();
                &&& final(self).undo_stack@ == old(self).undo_stack@.drop_last()
                &&& final(self).history@ == pop_hist_seq(
                    old(self).history@,
                    shp.pts(),
                    shp.pts().len() as int,
                )
                &&& (r matches Some(b) && b.wf() && b@ == map_add(
                    Map::empty(),
                    restored_points(old(self).history@, shp.pts(), shp.pts().len() as int),
                    old(self).x,
                    old(self).y,
                ))
                &&& final(self).current_blob == old(self).current_blob
                &&& final(self).current_curve == old(self).current_curve
            }),
            (old(self).current_blob.points@.len() > 0 || old(self).current_curve.points@.len() > 0
                ==> r is None && final(self).current_blob@ == Map::<(isize, isize), bool>::empty()
                && final(self).current_curve.points@.len() == 0 && final(self).undo_stack == old(self).undo_stack && final(self).history == old(self).history),
    {
        let blob_empty = self.current_blob.is_empty();
        let curve_empty = self.current_curve.is_empty();
        if blob_empty && curve_empty {
            match self.undo_stack.pop() {
                Some(s) => {
                    let b = self.remove_shape(&s);
                    return Some(b);
                },
                None => {
                    return None;
                },
            }
        } else {
            self.current_blob.empty();
            self.current_curve.empty();
        }
        None
    }

    /// Clamp or wrap a pointer position onto the lattice: negative
    /// coordinates wrap once by the dimension, too-large ones clamp to the
    /// far edge.
    pub fn validate_click(&self, click_location: (isize, isize)) -> (r: (isize, isize))
        requires
            self.wf(),
        ensures
            r.0 == (if click_location.0 < 0 {
                self.x + click_location.0
            } else if click_location.0 >= self.x {
                self.x - 1
            } else {
                click_location.0 as int
            }),
            r.1 == (if click_location.1 < 0 {
                self.y + click_location.1
            } else if click_location.1 >= self.y {
                self.y - 1
            } else {
                click_location.1 as int
            }),
            -(self.x as int) <= click_location.0 ==> 0 <= r.0 < self.x,
            -(self.y as int) <= click_location.1 ==> 0 <= r.1 < self.y,
    {
        let x = self.x as isize;
        let y = self.y as isize;
        let mut new_click: (isize, isize) = (0, 0);
        if click_location.0 < 0 {
            new_click.0 = x + click_location.0;
        } else if click_location.0 >= x {
            new_click.0 = x - 1;
        } else {
            new_click.0 = click_location.0;
        }
        if click_location.1 < 0 {
            new_click.1 = y + click_location.1;
        } else if click_location.1 >= y {
            new_click.1 = y - 1;
        } else {
            new_click.1 = click_location.1;
        }
        new_click
    }
}


/// Every recorded coordinate holds at least one tag.
pub open spec fn wf_hist(h: Map<(isize, isize), Seq<bool>>) -> bool {
    forall|c: (isize, isize)| h.dom().contains(c) ==> (#[trigger] h[c]).len() > 0
}

/// The tags written at coordinate `c` among the first `n` points of `s`,
/// oldest first.
pub open spec fn tags_of(s: Seq<TaggedPoint>, c: (isize, isize), n: int) -> Seq<bool>
    decreases n,
{
    if n <= 0 {
        Seq::empty()
    } else {
        let prev = tags_of(s, c, n - 1);
        if coord_of(s[n - 1]) == c {
            prev.push(s[n - 1].2)
        } else {
            prev
        }
    }
}

/// The tags coordinate `c` held before a shape was recorded.
pub open spec fn base_tags(h: Map<(isize, isize), Seq<bool>>, c: (isize, isize)) -> Seq<bool> {
    if h.dom().contains(c) {
        h[c]
    } else {
        Seq::empty()
    }
}

/// The tag list at `c` after recording all of `s` over `h` and then
/// un-recording the first `i` points again.
pub open spec fn stack_at(
    h: Map<(isize, isize), Seq<bool>>,
    s: Seq<TaggedPoint>,
    i: int,
    c: (isize, isize),
) -> Seq<bool> {
    let total = tags_of(s, c, s.len() as int);
    let rem = total.len() - tags_of(s, c, i).len();
    base_tags(h, c) + total.subrange(0, rem)
}

/// The whole history after recording all of `s` over `h` and un-recording
/// the first `i` points again.
pub open spec fn mid_hist(
    h: Map<(isize, isize), Seq<bool>>,
    s: Seq<TaggedPoint>,
    i: int,
) -> Map<(isize, isize), Seq<bool>> {
    Map::new(
        |c: (isize, isize)| stack_at(h, s, i, c).len() > 0,
        |c: (isize, isize)| stack_at(h, s, i, c),
    )
}

proof fn lemma_tags_of_prefix(s: Seq<TaggedPoint>, c: (isize, isize), i: int, n: int)
    requires
        0 <= i <= n,
    ensures
        tags_of(s, c, i).len() <= tags_of(s, c, n).len(),
        tags_of(s, c, i) == tags_of(s, c, n).subrange(0, tags_of(s, c, i).len() as int),
    decreases n - i,
{
    if i == n {
        assert(tags_of(s, c, n).subrange(0, tags_of(s, c, n).len() as int) =~= tags_of(s, c, n));
    } else {
        lemma_tags_of_prefix(s, c, i, n - 1);
        if coord_of(s[n - 1]) == c {
            assert(tags_of(s, c, n) == tags_of(s, c, n - 1).push(s[n - 1].2));
            assert(tags_of(s, c, n).subrange(0, tags_of(s, c, i).len() as int) =~= tags_of(
                s,
                c,
                n - 1,
            ).subrange(0, tags_of(s, c, i).len() as int));
        }
    }
}

proof fn lemma_push_seq_stacks(h: Map<(isize, isize), Seq<bool>>, s: Seq<TaggedPoint>, n: int)
    requires
        wf_hist(h),
        0 <= n <= s.len(),
    ensures
        forall|c: (isize, isize)|
            (#[trigger] base_tags(h, c) + tags_of(s, c, n)).len() == 0 ==> !hist_push_seq(
                h,
                s,
                n,
            ).dom().contains(c),
        forall|c: (isize, isize)|
            (#[trigger] base_tags(h, c) + tags_of(s, c, n)).len() > 0 ==> hist_push_seq(
                h,
                s,
                n,
            ).dom().contains(c) && hist_push_seq(h, s, n)[c] == base_tags(h, c) + tags_of(s, c, n),
    decreases n,
{
    if n == 0 {
        assert forall|c: (isize, isize)| true implies (#[trigger] base_tags(h, c) + tags_of(
            s,
            c,
            0,
        )) =~= base_tags(h, c) by {}
    } else {
        lemma_push_seq_stacks(h, s, n - 1);
        let cp = coord_of(s[n - 1]);
        let prevm = hist_push_seq(h, s, n - 1);
        assert forall|c: (isize, isize)| true implies ((#[trigger] base_tags(h, c) + tags_of(
            s,
            c,
            n,
        )).len() == 0 ==> !hist_push_seq(h, s, n).dom().contains(c)) && ((base_tags(h, c)
            + tags_of(s, c, n)).len() > 0 ==> hist_push_seq(h, s, n).dom().contains(c)
            && hist_push_seq(h, s, n)[c] == base_tags(h, c) + tags_of(s, c, n)) by {
            if c == cp {
                if (base_tags(h, c) + tags_of(s, c, n - 1)).len() == 0 {
                    assert(base_tags(h, c) + tags_of(s, c, n) =~= seq![s[n - 1].2]);
                } else {
                    assert(base_tags(h, c) + tags_of(s, c, n) =~= (base_tags(h, c) + tags_of(
                        s,
                        c,
                        n - 1,
                    )).push(s[n - 1].2));
                }
            } else {
                assert(tags_of(s, c, n) == tags_of(s, c, n - 1));
            }
        }
    }
}

proof fn lemma_pop_seq_stacks(h: Map<(isize, isize), Seq<bool>>, s: Seq<TaggedPoint>, i: int)
    requires
        wf_hist(h),
        0 <= i <= s.len(),
    ensures
        pop_hist_seq(hist_push_seq(h, s, s.len() as int), s, i) == mid_hist(h, s, i),
    decreases i,
{
    let n = s.len() as int;
    let hh = hist_push_seq(h, s, n);
    if i == 0 {
        lemma_push_seq_stacks(h, s, n);
        assert forall|c: (isize, isize)| true implies #[trigger] stack_at(h, s, 0, c)
            =~= base_tags(h, c) + tags_of(s, c, n) by {
            let total = tags_of(s, c, n);
            lemma_tags_of_prefix(s, c, 0, n);
            assert(total.subrange(0, total.len() as int) =~= total);
        }
        assert(pop_hist_seq(hh, s, 0) =~~= mid_hist(h, s, 0));
    } else {
        lemma_pop_seq_stacks(h, s, i - 1);
        let prevm = mid_hist(h, s, i - 1);
        let cp = coord_of(s[i - 1]);
        lemma_tags_of_prefix(s, cp, i, n);
        let total = tags_of(s, cp, n);
        let popped_prev = tags_of(s, cp, i - 1).len();
        let popped_now = tags_of(s, cp, i).len();
        assert(popped_now == popped_prev + 1);
        let st_prev = stack_at(h, s, i - 1, cp);
        assert(st_prev.len() == base_tags(h, cp).len() + total.len() - popped_prev);
        assert(total.len() >= popped_now);
        assert(st_prev.len() >= 1);
        assert(prevm.dom().contains(cp));
        assert forall|c: (isize, isize)| c != cp implies #[trigger] stack_at(h, s, i, c)
            == stack_at(h, s, i - 1, c) by {
            assert(tags_of(s, c, i) == tags_of(s, c, i - 1));
        }
        if st_prev.len() == 1 {
            assert(base_tags(h, cp).len() == 0);
            assert(total.len() - popped_now == 0);
            assert(stack_at(h, s, i, cp) =~= Seq::<bool>::empty());
            assert(hist_pop(prevm, cp) == prevm.remove(cp));
            assert(hist_pop(prevm, cp) =~~= mid_hist(h, s, i));
        } else {
            assert(hist_pop(prevm, cp) == prevm.insert(cp, st_prev.drop_last()));
            assert(stack_at(h, s, i, cp) =~= st_prev.drop_last()) by {
                assert(total.subrange(0, total.len() - popped_now) =~= total.subrange(
                    0,
                    total.len() - popped_prev,
                ).drop_last());
            }
            assert(hist_pop(prevm, cp) =~~= mid_hist(h, s, i));
        }
    }
}

proof fn lemma_restored_points_index(
    h: Map<(isize, isize), Seq<bool>>,
    s: Seq<TaggedPoint>,
    n: int,
    k: int,
)
    requires
        0 <= k < n <= s.len(),
    ensures
        restored_points(h, s, n).len() == n,
        restored_points(h, s, n)[k] == (
            s[k].0,
            s[k].1,
            restored_tag(pop_hist_seq(h, s, k), coord_of(s[k])),
        ),
    decreases n,
{
    if k == n - 1 {
        lemma_restored_len(h, s, n - 1);
    } else {
        lemma_restored_points_index(h, s, n - 1, k);
    }
}

proof fn lemma_restored_len(h: Map<(isize, isize), Seq<bool>>, s: Seq<TaggedPoint>, n: int)
    requires
        0 <= n <= s.len(),
    ensures
        restored_points(h, s, n).len() == n,
    decreases n,
{
    if n > 0 {
        lemma_restored_len(h, s, n - 1);
    }
}

proof fn lemma_last_tag_at(t: Seq<TaggedPoint>, c: (isize, isize), k: int)
    requires
        0 <= k < t.len(),
        coord_of(t[k]) == c,
        forall|j: int| k < j < t.len() ==> coord_of(#[trigger] t[j]) != c,
    ensures
        crate::barrier_shapes::last_tag(t, c) == t[k].2,
    decreases t.len(),
{
    if k == t.len() - 1 {
    } else {
        assert(coord_of(t.last()) != c);
        assert forall|j: int| k < j < t.drop_last().len() implies coord_of(
            #[trigger] t.drop_last()[j],
        ) != c by {
            assert(t.drop_last()[j] == t[j]);
        }
        assert(t.drop_last()[k] == t[k]);
        lemma_last_tag_at(t.drop_last(), c, k);
    }
}

/// Undoing the shape most recently recorded over history `hh` restores the
/// history that preceded the shape's recording, and repaints every touched
/// coordinate with exactly the tag it carried before the draw, even when
/// later entries of the shape overwrote earlier ones.
pub proof fn lemma_undo_restores(h: Map<(isize, isize), Seq<bool>>, s: Seq<TaggedPoint>)
    requires
        wf_hist(h),
    ensures
        pop_hist_seq(hist_push_seq(h, s, s.len() as int), s, s.len() as int) == h,
        forall|c: (isize, isize)|
            #[trigger] has_coord(s, c) ==> {
                let hh = hist_push_seq(h, s, s.len() as int);
                let rp = restored_points(hh, s, s.len() as int);
                map_join(Map::empty(), rp).dom().contains(c) && map_join(Map::empty(), rp)[c] == (
                if h.dom().contains(c) {
                    h[c].last()
                } else {
                    false
                })
            },
{
    let n = s.len() as int;
    let hh = hist_push_seq(h, s, n);
    let rp = restored_points(hh, s, n);
    lemma_pop_seq_stacks(h, s, n);
    assert(pop_hist_seq(hh, s, n) == mid_hist(h, s, n));
    assert forall|c: (isize, isize)| true implies #[trigger] stack_at(h, s, n, c) == base_tags(
        h,
        c,
    ) by {
        lemma_tags_of_prefix(s, c, n, n);
        let total = tags_of(s, c, n);
        assert(total.subrange(0, 0) =~= Seq::<bool>::empty());
        assert(stack_at(h, s, n, c) =~= base_tags(h, c));
    }
    assert(mid_hist(h, s, n) =~~= h);
    lemma_restored_len(hh, s, n);
    crate::barrier_shapes::blob::lemma_join_lookup(Map::empty(), rp);
    assert forall|c: (isize, isize)| #[trigger] has_coord(s, c) implies {
        map_join(Map::empty(), rp).dom().contains(c) && map_join(Map::empty(), rp)[c] == (
        if h.dom().contains(c) {
            h[c].last()
        } else {
            false
        })
    } by {
        lemma_last_occurrence(s, c);
        let k = choose|k: int|
            0 <= k < s.len() && coord_of(s[k]) == c && forall|j: int|
                k < j < s.len() ==> coord_of(#[trigger] s[j]) != c;
        lemma_restored_points_index(hh, s, n, k);
        assert(rp[k] == (s[k].0, s[k].1, restored_tag(pop_hist_seq(hh, s, k), c)));
        // the restored sequence touches the same coordinates in the same
        // order, so its last write at c is the restored tag at index k
        assert(coord_of(rp[k]) == c);
        assert forall|j: int| k < j < rp.len() implies coord_of(#[trigger] rp[j]) != c by {
            lemma_restored_points_index(hh, s, n, j);
        }
        assert(has_coord(rp, c));
        lemma_last_tag_at(rp, c, k);
        assert(map_join(Map::empty(), rp).dom().contains(c));
        assert(map_join(Map::empty(), rp)[c] == crate::barrier_shapes::last_tag(rp, c));
        assert(crate::barrier_shapes::last_tag(rp, c) == rp[k].2);
        // at the last occurrence, all later-pushed tags are already popped,
        // so the restored tag is the pre-draw top of the history
        lemma_pop_seq_stacks(h, s, k);
        let stk = stack_at(h, s, k, c);
        lemma_tags_of_prefix(s, c, k, n);
        lemma_tags_of_last(s, c, k, n);
        let total = tags_of(s, c, n);
        assert(tags_of(s, c, k).len() == total.len() - 1);
        assert(stk =~= base_tags(h, c) + total.subrange(0, 1));
        assert(stk.len() == base_tags(h, c).len() + 1);
        let hk = pop_hist_seq(hh, s, k);
        assert(hk == mid_hist(h, s, k));
        assert(hk.dom().contains(c) && hk[c] == stk);
        if h.dom().contains(c) {
            assert(base_tags(h, c).len() >= 1);
            assert(restored_tag(hk, c) == stk[stk.len() - 2]);
            assert(stk[stk.len() - 2] == base_tags(h, c).last());
        } else {
            assert(base_tags(h, c).len() == 0);
            assert(stk.len() == 1);
            assert(restored_tag(hk, c) == false);
        }
        assert(rp[k].2 == restored_tag(hk, c));
        assert(map_join(Map::empty(), rp)[c] == (if h.dom().contains(c) {
            h[c].last()
        } else {
            false
        }));
    }
}

proof fn lemma_last_occurrence(s: Seq<TaggedPoint>, c: (isize, isize))
    requires
        has_coord(s, c),
    ensures
        exists|k: int|
            0 <= k < s.len() && coord_of(s[k]) == c && forall|j: int|
                k < j < s.len() ==> coord_of(#[trigger] s[j]) != c,
    decreases s.len(),
{
    let n = s.len() as int;
    if coord_of(s[n - 1]) == c {
        assert(0 <= n - 1 < s.len() && coord_of(s[n - 1]) == c && forall|j: int|
            n - 1 < j < s.len() ==> coord_of(#[trigger] s[j]) != c);
    } else {
        let i = choose|i: int| 0 <= i < s.len() && coord_of(s[i]) == c;
        assert(s.drop_last()[i] == s[i]);
        assert(has_coord(s.drop_last(), c));
        lemma_last_occurrence(s.drop_last(), c);
        let k = choose|k: int|
            0 <= k < s.drop_last().len() && coord_of(s.drop_last()[k]) == c && forall|j: int|
                k < j < s.drop_last().len() ==> coord_of(#[trigger] s.drop_last()[j]) != c;
        assert(s.drop_last()[k] == s[k]);
        assert forall|j: int| k < j < s.len() implies coord_of(#[trigger] s[j]) != c by {
            if j < s.len() - 1 {
                assert(s.drop_last()[j] == s[j]);
            }
        }
    }
}

proof fn lemma_tags_of_last(s: Seq<TaggedPoint>, c: (isize, isize), k: int, n: int)
    requires
        0 <= k < n <= s.len(),
        coord_of(s[k]) == c,
        forall|j: int| k < j < n ==> coord_of(#[trigger] s[j]) != c,
    ensures
        tags_of(s, c, n).len() == tags_of(s, c, k).len() + 1,
    decreases n,
{
    if n == k + 1 {
    } else {
        lemma_tags_of_last(s, c, k, n - 1);
    }
}

} // verus!
