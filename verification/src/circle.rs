//! Filled digital circles, produced row segment by row segment.
use crate::circumference::{circumference_step, circumference_wf, Circumference};
use vstd::prelude::*;

verus! {

/// Iterator over the cells of the filled circle of radius `r` around
/// `(x0, y0)`.
pub struct Circle {
    x0: usize,
    y0: usize,
    octant: u8,
    dx: usize,
    dy: usize,
    y: usize,
    range_start: usize,
    range_end: usize,
    circumference: Circumference,
}

/// The abstract state of a [`Circle`].
pub struct CircleView {
    pub x0: usize,
    pub y0: usize,
    pub octant: u8,
    pub dx: usize,
    pub dy: usize,
    pub y: usize,
    pub range_start: usize,
    pub range_end: usize,
    pub circ: (usize, usize, usize),
}

impl View for Circle {
    type V = CircleView;

    closed spec fn view(&self) -> CircleView {
        CircleView {
            x0: self.x0,
            y0: self.y0,
            octant: self.octant,
            dx: self.dx,
            dy: self.dy,
            y: self.y,
            range_start: self.range_start,
            range_end: self.range_end,
            circ: self.circumference@,
        }
    }
}

/// The offset `d` can be added to and subtracted from both centre
/// coordinates.
pub open spec fn offset_fits(v: CircleView, d: int) -> bool {
    &&& 0 <= d <= v.x0
    &&& d <= v.y0
    &&& v.x0 + d <= usize::MAX
    &&& v.y0 + d <= usize::MAX
}

/// A state from which stepping never overflows nor underflows.
pub open spec fn circle_wf(v: CircleView) -> bool {
    &&& circumference_wf(v.circ)
    &&& 2 * v.circ.0 + 1 <= usize::MAX
    &&& offset_fits(v, v.circ.0 as int)
    &&& v.circ.0 >= v.circ.1 ==> v.circ.1 <= v.circ.0
    &&& v.octant < 3 ==> offset_fits(v, v.dx as int) && offset_fits(v, v.dy as int)
}

/// One step of a circle: the cell produced and the state after it.
pub open spec fn circle_step(v: CircleView) -> (Option<(usize, usize)>, CircleView) {
    if v.range_start < v.range_end {
        (Some((v.range_start, v.y)), CircleView { range_start: (v.range_start + 1) as usize, ..v })
    } else if v.octant < 3 {
        let o = (v.octant + 1) as u8;
        if o == 1 {
            let n = CircleView {
                octant: o,
                range_start: (v.x0 - v.dx) as usize,
                range_end: (v.x0 + v.dx) as usize,
                y: (v.y0 - v.dy) as usize,
                ..v
            };
            (Some(((v.x0 + v.dx) as usize, n.y)), n)
        } else if o == 2 {
            let n = CircleView {
                octant: o,
                range_start: (v.x0 - v.dy) as usize,
                range_end: (v.x0 + v.dy) as usize,
                y: (v.y0 + v.dx) as usize,
                ..v
            };
            (Some(((v.x0 + v.dy) as usize, n.y)), n)
        } else {
            let n = CircleView {
                octant: o,
                range_start: (v.x0 - v.dy) as usize,
                range_end: (v.x0 + v.dy) as usize,
                y: (v.y0 - v.dx) as usize,
                ..v
            };
            (Some(((v.x0 + v.dy) as usize, n.y)), n)
        }
    } else {
        let (c, circ) = circumference_step(v.circ);
        match c {
            None => (None, CircleView { circ, ..v }),
            Some((dx, dy)) => {
                let n = CircleView {
                    dx,
                    dy,
                    range_start: (v.x0 - dx) as usize,
                    range_end: (v.x0 + dx) as usize,
                    y: (v.y0 + dy) as usize,
                    octant: 0,
                    circ,
                    ..v
                };
                (Some(((v.x0 + dx) as usize, n.y)), n)
            },
        }
    }
}

impl Circle {
    /// Starts the filled circle of radius `r` around `(x0, y0)`.
    pub fn new(x0: usize, y0: usize, r: usize) -> (c: Self)
        ensures
            c@ == (CircleView {
                x0,
                y0,
                octant: u8::MAX,
                dx: 0,
                dy: 0,
                y: 0,
                range_start: 1,
                range_end: 0,
                circ: (r, 0usize, r / 16),
            }),
            r >= 1 && r <= x0 && r <= y0 && x0 + r <= usize::MAX
                && y0 + r <= usize::MAX ==> circle_wf(c@) && circle_within(c@, r as int),
    {
        Self {
            x0,
            y0,
            dx: 0,
            dy: 0,
            octant: u8::MAX,
            y: 0,
            range_start: 1,
            range_end: 0,
            circumference: Circumference::new(r),
        }
    }

    /// Produces the next cell of the filled circle, if any.
    pub fn next(&mut self) -> (item: Option<(usize, usize)>)
        requires
            circle_wf(old(self)@),
        ensures
            item == circle_step(old(self)@).0,
            final(self)@ == circle_step(old(self)@).1,
            circle_wf(final(self)@),
    {
        if self.range_start < self.range_end {
            let x = self.range_start;
            self.range_start = self.range_start + 1;
            Some((x, self.y))
        } else if self.octant < 3 {
            self.octant = self.octant + 1;
            if self.octant == 1 {
                self.range_start = self.x0 - self.dx;
                self.range_end = self.x0 + self.dx;
                self.y = self.y0 - self.dy;
                Some((self.x0 + self.dx, self.y))
            } else if self.octant == 2 {
                self.range_start = self.x0 - self.dy;
                self.range_end = self.x0 + self.dy;
                self.y = self.y0 + self.dx;
                Some((self.x0 + self.dy, self.y))
            } else {
                self.range_start = self.x0 - self.dy;
                self.range_end = self.x0 + self.dy;
                self.y = self.y0 - self.dx;
                Some((self.x0 + self.dy, self.y))
            }
        } else if let Some((dx, dy)) = self.circumference.next() {
            self.dx = dx;
            self.dy = dy;
            self.range_start = self.x0 - dx;
            self.range_end = self.x0 + dx;
            self.y = self.y0 + dy;
            self.octant = 0;
            Some((self.x0 + dx, self.y))
        } else {
            None
        }
    }
}


/// Progress measure of a circle state.
pub open spec fn circle_octant_left(v: CircleView) -> nat {
    if v.octant < 3 {
        (3 - v.octant) as nat
    } else {
        0
    }
}

/// The cells produced from state `v` until the circle is complete.
pub open spec fn circle_cells(v: CircleView) -> Seq<(usize, usize)>
    decreases crate::circumference::circumference_remaining(v.circ), circle_octant_left(v),
        (if v.range_start < v.range_end {
            v.range_end - v.range_start
        } else {
            0
        }),
{
    if !circle_wf(v) {
        Seq::empty()
    } else {
        match circle_step(v).0 {
            None => Seq::empty(),
            Some(c) => seq![c] + circle_cells(circle_step(v).1),
        }
    }
}

/// Every cell still to come, and every offset in play, stays within `r` of
/// the centre.
pub open spec fn circle_within(v: CircleView, r: int) -> bool {
    &&& circle_wf(v)
    &&& v.circ.0 <= r
    &&& v.octant < 3 ==> v.dx <= r && v.dy <= r
    &&& v.range_start < v.range_end ==> {
        &&& v.x0 - r <= v.range_start
        &&& v.range_end <= v.x0 + r
        &&& v.y0 - r <= v.y <= v.y0 + r
    }
}

/// Stepping keeps every cell and offset within `r` of the centre, and the
/// cell produced is within `r` of the centre in both coordinates.
pub proof fn lemma_circle_step_within(v: CircleView, r: int)
    requires
        circle_within(v, r),
    ensures
        circle_within(circle_step(v).1, r),
        circle_step(v).0 matches Some(c) ==> v.x0 - r <= c.0 <= v.x0 + r && v.y0 - r <= c.1
            <= v.y0 + r,
{
}

/// Every cell of a filled circle of radius `r` lies in the square of
/// half-width `r` around its centre.
pub proof fn lemma_circle_cells_within(v: CircleView, r: int)
    requires
        circle_within(v, r),
    ensures
        forall|i: int|
            0 <= i < circle_cells(v).len() ==> {
                let c = #[trigger] circle_cells(v)[i];
                v.x0 - r <= c.0 <= v.x0 + r && v.y0 - r <= c.1 <= v.y0 + r
            },
    decreases crate::circumference::circumference_remaining(v.circ), circle_octant_left(v),
        (if v.range_start < v.range_end {
            v.range_end - v.range_start
        } else {
            0
        }),
{
    let s = circle_step(v);
    if let Some(c) = s.0 {
        lemma_circle_step_within(v, r);
        lemma_circle_cells_within(s.1, r);
        let cs = circle_cells(v);
        assert(cs == seq![c] + circle_cells(s.1));
        assert forall|i: int| 0 <= i < cs.len() implies {
            let c = #[trigger] cs[i];
            v.x0 - r <= c.0 <= v.x0 + r && v.y0 - r <= c.1 <= v.y0 + r
        } by {
            if i > 0 {
                assert(cs[i] == circle_cells(s.1)[i - 1]);
            }
        }
    }
}

/// The row `y` of half-width `w` around column `x0`, as a circle produces
/// it: the right end first, then the rest from left to right.
pub open spec fn circle_row(x0: int, y: int, w: int) -> Seq<(usize, usize)> {
    seq![((x0 + w) as usize, y as usize)] + Seq::new(
        (2 * w) as nat,
        |i: int| ((x0 - w + i) as usize, y as usize),
    )
}

/// The four rows a circumference cell `(a, b)` stands for: rows `y0 + b`
/// and `y0 - b` of half-width `a`, then rows `y0 + a` and `y0 - a` of
/// half-width `b`.
pub open spec fn circle_group(x0: int, y0: int, a: int, b: int) -> Seq<(usize, usize)> {
    circle_row(x0, y0 + b, a) + circle_row(x0, y0 - b, a) + circle_row(x0, y0 + a, b) + circle_row(
        x0,
        y0 - a,
        b,
    )
}

/// The rows of all circumference cells `cs`, in order.
pub open spec fn circle_groups(x0: int, y0: int, cs: Seq<(usize, usize)>) -> Seq<(usize, usize)>
    decreases cs.len(),
{
    if cs.len() == 0 {
        Seq::empty()
    } else {
        circle_group(x0, y0, cs[0].0 as int, cs[0].1 as int) + circle_groups(x0, y0, cs.drop_first())
    }
}

/// The rows still owed, at an empty range, for the current circumference
/// cell `(dx, dy)` after the rows of octants up to `octant`.
pub open spec fn circle_pending_rows(v: CircleView) -> Seq<(usize, usize)> {
    let (x0, y0, a, b) = (v.x0 as int, v.y0 as int, v.dx as int, v.dy as int);
    if v.octant == 0 {
        circle_row(x0, y0 - b, a) + circle_row(x0, y0 + a, b) + circle_row(x0, y0 - a, b)
    } else if v.octant == 1 {
        circle_row(x0, y0 + a, b) + circle_row(x0, y0 - a, b)
    } else if v.octant == 2 {
        circle_row(x0, y0 - a, b)
    } else {
        Seq::empty()
    }
}

/// A non-empty range is produced cell by cell from left to right.
proof fn lemma_circle_range(v: CircleView, r: int)
    requires
        circle_within(v, r),
        v.range_start <= v.range_end,
    ensures
        circle_within(CircleView { range_start: v.range_end, ..v }, r),
        circle_cells(v) == Seq::new(
            (v.range_end - v.range_start) as nat,
            |i: int| ((v.range_start + i) as usize, v.y),
        ) + circle_cells(CircleView { range_start: v.range_end, ..v }),
    decreases v.range_end - v.range_start,
{
    let e = CircleView { range_start: v.range_end, ..v };
    if v.range_start == v.range_end {
        assert(v == e);
        assert(circle_cells(v) =~= Seq::new(
            (v.range_end - v.range_start) as nat,
            |i: int| ((v.range_start + i) as usize, v.y),
        ) + circle_cells(e));
    } else {
        lemma_circle_step_within(v, r);
        let n = circle_step(v).1;
        lemma_circle_range(n, r);
        assert(CircleView { range_start: n.range_end, ..n } == e);
        assert(circle_cells(v) == seq![(v.range_start, v.y)] + circle_cells(n));
        assert(circle_cells(v) =~= Seq::new(
            (v.range_end - v.range_start) as nat,
            |i: int| ((v.range_start + i) as usize, v.y),
        ) + circle_cells(e));
    }
}

/// A step that produces a cell puts it in front of the cells after it.
proof fn lemma_circle_unfold(v: CircleView, r: int)
    requires
        circle_within(v, r),
        circle_step(v).0 is Some,
    ensures
        circle_cells(v) == seq![circle_step(v).0.unwrap()] + circle_cells(circle_step(v).1),
        circle_within(circle_step(v).1, r),
{
    lemma_circle_step_within(v, r);
}

/// The cells of a range, with the cell produced just before it, make the
/// row of half-width `w` around `x0`.
proof fn lemma_row_of_range(x0: int, y: usize, w: int, start: usize, end: usize)
    requires
        0 <= w <= x0,
        start == x0 - w,
        end == x0 + w,
    ensures
        seq![((x0 + w) as usize, y)] + Seq::new(
            (end - start) as nat,
            |i: int| ((start + i) as usize, y),
        ) == circle_row(x0, y as int, w),
{
    assert(seq![((x0 + w) as usize, y)] + Seq::new(
        (end - start) as nat,
        |i: int| ((start + i) as usize, y),
    ) =~= circle_row(x0, y as int, w));
}

/// The state after a step that starts a row, once that row's range is
/// spent.
pub open spec fn circle_after_row(v: CircleView) -> CircleView {
    let n = circle_step(v).1;
    CircleView { range_start: n.range_end, ..n }
}

/// At an empty range before the last octant, the next row comes first.
proof fn lemma_circle_rows_octant(v: CircleView, r: int)
    requires
        circle_within(v, r),
        v.range_start >= v.range_end,
        v.octant < 3,
        ({
            let e = circle_after_row(v);
            circle_cells(e) == circle_pending_rows(e) + circle_groups(
                e.x0 as int,
                e.y0 as int,
                crate::circumference::circumference_cells(e.circ),
            )
        }),
    ensures
        circle_within(circle_after_row(v), r),
        circle_cells(v) == circle_pending_rows(v) + circle_groups(
            v.x0 as int,
            v.y0 as int,
            crate::circumference::circumference_cells(v.circ),
        ),
{
    let (x0, y0) = (v.x0 as int, v.y0 as int);
    let (c, n) = circle_step(v);
    lemma_circle_unfold(v, r);
    lemma_circle_range(n, r);
    let e = circle_after_row(v);
    let w = if v.octant == 0 {
        v.dx as int
    } else {
        v.dy as int
    };
    lemma_row_of_range(x0, n.y, w, n.range_start, n.range_end);
    assert(circle_pending_rows(v) =~= circle_row(x0, n.y as int, w) + circle_pending_rows(e));
    assert(circle_cells(v) =~= circle_pending_rows(v) + circle_groups(
        x0,
        y0,
        crate::circumference::circumference_cells(v.circ),
    ));
}

/// At an empty range after the last octant, the rows of the next
/// circumference cell come next, if there is one.
#[verifier::rlimit(60)]
proof fn lemma_circle_rows_next(v: CircleView, r: int)
    requires
        circle_within(v, r),
        v.range_start >= v.range_end,
        v.octant >= 3,
        circle_step(v).0 is Some ==> {
            let e = circle_after_row(v);
            circle_cells(e) == circle_pending_rows(e) + circle_groups(
                e.x0 as int,
                e.y0 as int,
                crate::circumference::circumference_cells(e.circ),
            )
        },
    ensures
        circle_step(v).0 is Some ==> circle_within(circle_after_row(v), r),
        circle_cells(v) == circle_pending_rows(v) + circle_groups(
            v.x0 as int,
            v.y0 as int,
            crate::circumference::circumference_cells(v.circ),
        ),
{
    let (x0, y0) = (v.x0 as int, v.y0 as int);
    let cs = crate::circumference::circumference_cells(v.circ);
    let gs = circle_groups(x0, y0, cs);
    let (cc, circ) = crate::circumference::circumference_step(v.circ);
    let n = circle_step(v).1;
    match cc {
        None => {
            assert(cs =~= Seq::<(usize, usize)>::empty());
            assert(circle_cells(v) =~= circle_pending_rows(v) + gs);
        },
        Some(ab) => {
            let (a, b) = ab;
            lemma_circle_unfold(v, r);
            assert(cs == seq![(a, b)] + crate::circumference::circumference_cells(circ));
            assert(cs.drop_first() =~= crate::circumference::circumference_cells(circ));
            lemma_circle_range(n, r);
            let e = circle_after_row(v);
            assert(n.octant == 0 && n.dx == a && n.dy == b && n.y == y0 + b);
            assert(n.range_start == x0 - a && n.range_end == x0 + a);
            assert(circle_step(v).0 == Some(((x0 + a) as usize, n.y)));
            lemma_row_of_range(x0, n.y, a as int, n.range_start, n.range_end);
            let row0 = circle_row(x0, y0 + b, a as int);
            let rest = circle_groups(x0, y0, cs.drop_first());
            assert(circle_cells(v) == row0 + circle_cells(e)) by {
                assert(circle_cells(v) == seq![circle_step(v).0.unwrap()] + circle_cells(n));
                assert(circle_cells(n) == Seq::new(
                    (n.range_end - n.range_start) as nat,
                    |i: int| ((n.range_start + i) as usize, n.y),
                ) + circle_cells(e));
            }
            assert(e.octant == 0 && e.dx == a && e.dy == b && e.x0 == v.x0 && e.y0 == v.y0);
            assert(circle_pending_rows(e) == circle_row(x0, y0 - b, a as int) + circle_row(
                x0,
                y0 + a,
                b as int,
            ) + circle_row(x0, y0 - a, b as int));
            assert(gs == circle_group(x0, y0, a as int, b as int) + rest);
            assert(circle_pending_rows(v) =~= Seq::<(usize, usize)>::empty());
            assert(circle_cells(v) =~= circle_pending_rows(v) + gs);
        },
    }
}

/// At an empty range, a circle produces the rows still owed for the current
/// circumference cell, then the rows of every later one.
proof fn lemma_circle_rows(v: CircleView, r: int)
    requires
        circle_within(v, r),
        v.range_start >= v.range_end,
    ensures
        circle_cells(v) == circle_pending_rows(v) + circle_groups(
            v.x0 as int,
            v.y0 as int,
            crate::circumference::circumference_cells(v.circ),
        ),
    decreases crate::circumference::circumference_remaining(v.circ), circle_octant_left(v),
{
    lemma_circle_step_within(v, r);
    if v.octant < 3 {
        lemma_circle_range(circle_step(v).1, r);
        lemma_circle_rows(circle_after_row(v), r);
        lemma_circle_rows_octant(v, r);
    } else {
        if circle_step(v).0 is Some {
            lemma_circle_range(circle_step(v).1, r);
            lemma_circle_rows(circle_after_row(v), r);
        }
        lemma_circle_rows_next(v, r);
    }
}

/// A filled circle of radius `r` around `(x0, y0)` produces, for each cell
/// `(a, b)` of the walk of radius `r` in order, row `y0 + b` then row
/// `y0 - b` over columns `x0 - a ..= x0 + a`, then rows `y0 + a` and
/// `y0 - a` over columns `x0 - b ..= x0 + b`; each row gives its right end
/// first and then the rest from left to right.
pub proof fn lemma_circle_row_order(x0: usize, y0: usize, r: usize)
    requires
        r >= 1,
        r <= x0,
        r <= y0,
        x0 + r <= usize::MAX,
        y0 + r <= usize::MAX,
    ensures
        circle_cells(
            CircleView {
                x0,
                y0,
                octant: u8::MAX,
                dx: 0,
                dy: 0,
                y: 0,
                range_start: 1,
                range_end: 0,
                circ: (r, 0usize, r / 16),
            },
        ) == circle_groups(
            x0 as int,
            y0 as int,
            crate::circumference::circumference_cells((r, 0usize, r / 16)),
        ),
{
    let v = CircleView {
        x0,
        y0,
        octant: u8::MAX,
        dx: 0,
        dy: 0,
        y: 0,
        range_start: 1,
        range_end: 0,
        circ: (r, 0usize, r / 16),
    };
    assert(circle_within(v, r as int));
    lemma_circle_rows(v, r as int);
    assert(circle_pending_rows(v) + circle_groups(
        x0 as int,
        y0 as int,
        crate::circumference::circumference_cells(v.circ),
    ) =~= circle_groups(
        x0 as int,
        y0 as int,
        crate::circumference::circumference_cells(v.circ),
    ));
}

} // verus!
