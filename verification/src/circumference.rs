//! The first octant of a digital circle, walked from `(r, 0)` upwards.
use vstd::prelude::*;

verus! {

/// Walks the cells `(x, y)` with `y <= x` of the digital circle of a radius,
/// starting at `(r, 0)`.
pub struct Circumference {
    x: usize,
    y: usize,
    error: usize,
}

impl View for Circumference {
    /// `(x, y, error)`: the next cell and the accumulated error.
    type V = (usize, usize, usize);

    closed spec fn view(&self) -> (usize, usize, usize) {
        (self.x, self.y, self.error)
    }
}

/// One step on a state `(x, y, error)`: the cell produced and the next state.
pub open spec fn circumference_step(v: (usize, usize, usize)) -> (
    Option<(usize, usize)>,
    (usize, usize, usize),
) {
    let (x, y, e) = v;
    if x < y {
        (None, v)
    } else {
        let ny = y + 1;
        let ne = e + ny;
        if ne >= x {
            (Some((x, y)), ((x - 1) as usize, ny as usize, (ne - x) as usize))
        } else {
            (Some((x, y)), (x, ny as usize, ne as usize))
        }
    }
}

/// The invariant of the walk: while it goes on, the error is at most the
/// column and the column is not 0, so a step never underflows.
pub open spec fn circumference_wf(v: (usize, usize, usize)) -> bool {
    let (x, y, e) = v;
    &&& x >= y ==> e <= x
    &&& x >= y ==> x >= 1
}

/// The next step does not overflow: its only risky sum, the error plus the
/// next row, fits in a `usize`.
pub open spec fn circumference_next_ok(v: (usize, usize, usize)) -> bool {
    let (x, y, e) = v;
    x >= y ==> e + y + 1 <= usize::MAX
}

/// Radii whose whole walk stays clear of overflow: `2r² + 2r` is below
/// `M² - 2M` for `M = usize::MAX`, which holds up to about `M / √2`.
pub open spec fn circumference_fits(r: int) -> bool {
    2 * r * r + 2 * r < usize::MAX * usize::MAX - 2 * usize::MAX
}

/// The state after `k` steps from `v`.
pub open spec fn circumference_after(v: (usize, usize, usize), k: nat) -> (usize, usize, usize)
    decreases k,
{
    if k == 0 {
        v
    } else {
        circumference_after(circumference_step(v).1, (k - 1) as nat)
    }
}

/// A state of the walk around the circle of radius `r`: the error records
/// exactly how far `x² + x + y² + y` is from `r² + r`.
pub open spec fn on_circle(v: (usize, usize, usize), r: int) -> bool {
    let (x, y, e) = v;
    &&& circumference_wf(v)
    &&& 2 * e == 2 * (r / 16) + x * x + x + y * y + y - r * r - r
}

/// Cells still to produce while walking.
pub open spec fn circumference_remaining(v: (usize, usize, usize)) -> nat {
    if v.0 < v.1 {
        0
    } else {
        (v.0 - v.1 + 1) as nat
    }
}

/// The cells produced from state `v` until the walk ends.
pub open spec fn circumference_cells(v: (usize, usize, usize)) -> Seq<(usize, usize)>
    decreases circumference_remaining(v),
{
    if !circumference_wf(v) || !circumference_next_ok(v) {
        Seq::empty()
    } else {
        match circumference_step(v).0 {
            None => Seq::empty(),
            Some(c) => seq![c] + circumference_cells(circumference_step(v).1),
        }
    }
}

impl Circumference {
    /// Starts the walk for radius `r` at `(r, 0)`.
    pub fn new(r: usize) -> (c: Self)
        ensures
            c@ == (r, 0usize, r / 16),
            r >= 1 ==> on_circle(c@, r as int),
    {
        let c = Self { x: r, y: 0, error: r / 16 };
        proof {
            assert((r as int) * r - r * r == 0) by (nonlinear_arith);
        }
        c
    }

    /// Whether the next step can be taken without overflow.
    pub fn can_advance(&self) -> (r: bool)
        ensures
            r == circumference_next_ok(self@),
    {
        self.x < self.y || self.error < usize::MAX - self.y
    }

    /// Produces the next cell of the first octant, if any.
    pub fn next(&mut self) -> (item: Option<(usize, usize)>)
        requires
            circumference_wf(old(self)@),
            circumference_next_ok(old(self)@),
        ensures
            item == circumference_step(old(self)@).0,
            final(self)@ == circumference_step(old(self)@).1,
            circumference_wf(final(self)@),
    {
        if self.x < self.y {
            None
        } else {
            let (x, y) = (self.x, self.y);
            self.y = self.y + 1;
            self.error = self.error + self.y;
            if let Some(e) = self.error.checked_sub(self.x) {
                self.error = e;
                self.x = self.x - 1;
            }
            Some((x, y))
        }
    }
}

/// Stepping the walk of radius `r` stays on that circle.
pub proof fn lemma_circumference_step_on_circle(v: (usize, usize, usize), r: int)
    requires
        on_circle(v, r),
        circumference_next_ok(v),
    ensures
        on_circle(circumference_step(v).1, r),
{
    let (x, y, e) = v;
    if x >= y {
        let ny = y + 1;
        assert(ny * ny + ny == y * y + y + 2 * ny) by (nonlinear_arith)
            requires
                ny == y + 1,
        ;
        let nx = x - 1;
        assert(nx * nx + nx == x * x + x - 2 * x) by (nonlinear_arith)
            requires
                nx == x - 1,
        ;
    }
}

/// Every cell produced by the walk of radius `r` lies in the first octant
/// and within half a cell's width of the circle:
/// `r² + r - 2(r/16) <= x² + x + y² + y <= r² + r - 2(r/16) + 2(x + y)`.
pub proof fn lemma_circumference_cells_on_circle(v: (usize, usize, usize), r: int)
    requires
        on_circle(v, r),
    ensures
        forall|i: int|
            0 <= i < circumference_cells(v).len() ==> {
                let (x, y) = #[trigger] circumference_cells(v)[i];
                &&& y <= x
                &&& r * r + r - 2 * (r / 16) <= x * x + x + y * y + y
                &&& x * x + x + y * y + y <= r * r + r - 2 * (r / 16) + 2 * (x + y)
            },
    decreases circumference_remaining(v),
{
    let s = circumference_step(v);
    if !circumference_next_ok(v) {
    } else if let Some(c) = s.0 {
        lemma_circumference_step_on_circle(v, r);
        lemma_circumference_cells_on_circle(s.1, r);
        let cs = circumference_cells(v);
        assert(cs == seq![c] + circumference_cells(s.1));
        assert forall|i: int| 0 <= i < cs.len() implies {
            let (x, y) = #[trigger] cs[i];
            &&& y <= x
            &&& r * r + r - 2 * (r / 16) <= x * x + x + y * y + y
            &&& x * x + x + y * y + y <= r * r + r - 2 * (r / 16) + 2 * (x + y)
        } by {
            if i > 0 {
                assert(cs[i] == circumference_cells(s.1)[i - 1]);
            }
        }
    }
}

/// The walk of radius `r` starts at `(r, 0)` and every cell after that is
/// one row higher and at most one column to the left of the previous one.
pub proof fn lemma_circumference_cells_connected(v: (usize, usize, usize))
    requires
        circumference_wf(v),
    ensures
        circumference_cells(v).len() > 0 ==> circumference_cells(v)[0] == (v.0, v.1),
        forall|i: int|
            0 < i < circumference_cells(v).len() ==> {
                let (px, py) = circumference_cells(v)[i - 1];
                let (x, y) = #[trigger] circumference_cells(v)[i];
                &&& y == py + 1
                &&& (x == px || x + 1 == px)
            },
    decreases circumference_remaining(v),
{
    let s = circumference_step(v);
    if !circumference_next_ok(v) {
    } else if let Some(c) = s.0 {
        lemma_circumference_cells_connected(s.1);
        let cs = circumference_cells(v);
        let rest = circumference_cells(s.1);
        assert(cs == seq![c] + rest);
        assert forall|i: int| 0 < i < cs.len() implies {
            let (px, py) = cs[i - 1];
            let (x, y) = #[trigger] cs[i];
            &&& y == py + 1
            &&& (x == px || x + 1 == px)
        } by {
            assert(cs[i] == rest[i - 1]);
            if i > 1 {
                assert(cs[i - 1] == rest[i - 2]);
            }
        }
    }
}

/// From a well-formed state the walk produces one cell per row, starting at
/// the current row and never right of the current column, and at most one
/// cell per row it can still climb before crossing the diagonal.
pub proof fn lemma_circumference_rows(v: (usize, usize, usize), r: int)
    requires
        r >= 0,
        on_circle(v, r),
        circumference_fits(r),
    ensures
        v.0 >= v.1 ==> 1 <= circumference_cells(v).len() <= v.0 - v.1 + 1,
        v.0 < v.1 ==> circumference_cells(v).len() == 0,
        forall|k: int|
            0 <= k < circumference_cells(v).len() ==> {
                let (x, y) = #[trigger] circumference_cells(v)[k];
                &&& y == v.1 + k
                &&& y <= x <= v.0
            },
    decreases circumference_remaining(v),
{
    let s = circumference_step(v);
    lemma_circumference_next_ok(v, r);
    if let Some(c) = s.0 {
        lemma_circumference_step_on_circle(v, r);
        lemma_circumference_rows(s.1, r);
        let cs = circumference_cells(v);
        let rest = circumference_cells(s.1);
        assert(cs == seq![c] + rest);
        assert forall|k: int| 0 <= k < cs.len() implies {
            let (x, y) = #[trigger] cs[k];
            &&& y == v.1 + k
            &&& y <= x <= v.0
        } by {
            if k > 0 {
                assert(cs[k] == rest[k - 1]);
            }
        }
    }
}

/// The walk of radius `r` yields between one and `r + 1` cells: the `k`-th
/// lies in row `k`, on or right of the diagonal, the first is `(r, 0)`, and
/// each column is the previous one or one to its left. Once it has ended it
/// keeps yielding nothing and keeps its state.
pub proof fn lemma_circumference_walk(r: usize)
    requires
        r >= 1,
        circumference_fits(r as int),
    ensures
        forall|k: nat|
            circumference_wf(#[trigger] circumference_after((r, 0usize, r / 16), k))
                && circumference_next_ok(circumference_after((r, 0usize, r / 16), k)),
        ({
            let cs = circumference_cells((r, 0usize, r / 16));
            &&& 1 <= cs.len() <= r + 1
            &&& cs[0] == (r, 0usize)
            &&& forall|k: int| 0 <= k < cs.len() ==> (#[trigger] cs[k]).1 == k && cs[k].1 <= cs[k].0
            &&& forall|k: int|
                0 < k < cs.len() ==> (#[trigger] cs[k]).0 == cs[k - 1].0 || cs[k].0 + 1 == cs[k
                    - 1].0
        }),
        forall|v: (usize, usize, usize)|
            (#[trigger] circumference_step(v)).0 is None ==> circumference_step(v).1 == v,
{
    let v = (r, 0usize, r / 16);
    assert((r as int) * r - r * r == 0) by (nonlinear_arith);
    assert(on_circle(v, r as int));
    assert forall|k: nat|
        circumference_wf(#[trigger] circumference_after(v, k)) && circumference_next_ok(
            circumference_after(v, k),
        ) by {
        lemma_circumference_after_on_circle(v, r as int, k);
        lemma_circumference_next_ok(circumference_after(v, k), r as int);
    }
    lemma_circumference_rows(v, r as int);
    lemma_circumference_cells_connected(v);
    let cs = circumference_cells(v);
    assert forall|k: int| 0 < k < cs.len() implies (#[trigger] cs[k]).0 == cs[k - 1].0 || cs[k].0
        + 1 == cs[k - 1].0 by {
        let (px, py) = cs[k - 1];
        let (x, y) = cs[k];
    }
}

/// On the circle of a radius that fits, the next step never overflows:
/// there `(x + y)² - 2(x + y) <= 2r² + 2r`, which keeps `x + y` below
/// `usize::MAX`.
pub proof fn lemma_circumference_next_ok(v: (usize, usize, usize), r: int)
    requires
        r >= 0,
        on_circle(v, r),
        circumference_fits(r),
    ensures
        circumference_next_ok(v),
{
    let (x, y, e) = v;
    let m = usize::MAX as int;
    if x >= y && e + y + 1 > m {
        let s = x + y;
        assert(x * x + y * y <= r * r + r + s);
        assert(s * s <= 2 * (x * x + y * y)) by (nonlinear_arith)
            requires
                s == x + y,
        ;
        assert(s >= m);
        assert(2 * r * r == 2 * (r * r)) by (nonlinear_arith);
        assert(usize::MAX * usize::MAX == m * m);
        assert(s * s - 2 * s >= m * m - 2 * m) by (nonlinear_arith)
            requires
                s >= m,
                m >= 1,
        ;
        assert(false);
    }
}

/// Walking from a state on the circle stays on the circle.
proof fn lemma_circumference_after_on_circle(v: (usize, usize, usize), r: int, k: nat)
    requires
        r >= 0,
        on_circle(v, r),
        circumference_fits(r),
    ensures
        on_circle(circumference_after(v, k), r),
    decreases k,
{
    if k > 0 {
        lemma_circumference_next_ok(v, r);
        lemma_circumference_step_on_circle(v, r);
        lemma_circumference_after_on_circle(circumference_step(v).1, r, (k - 1) as nat);
    }
}

} // verus!
