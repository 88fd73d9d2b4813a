//! Bresenham line rasterisation, stepping one cell at a time and able to
//! step back.
use crate::iabs;
use vstd::prelude::*;

verus! {

/// The kind of move the last step of a [`LineIter`] made.
#[derive(Debug, Clone, Copy, PartialEq, Eq, Structural)]
pub enum StepCase {
    Start,
    Dx,
    Dy,
    Both,
}

/// Iterator over the cells of the digital line from `(x0, y0)` to `(x1, y1)`.
///
/// `(x0, y0)` is the current cell, `dx`/`dy` the signed extent of the whole
/// line and `error` twice the classical Bresenham error term.
#[derive(Debug, Clone, Copy)]
pub struct LineIter {
    pub x0: usize,
    pub y0: usize,
    pub x1: usize,
    pub y1: usize,
    pub dx: isize,
    pub dy: isize,
    pub error: isize,
    pub first: bool,
}

/// Two coordinates on the same side of `isize::MAX`, so that their
/// difference fits in an `isize`.
pub open spec fn same_half(a: usize, b: usize) -> bool {
    (a <= isize::MAX) == (b <= isize::MAX)
}

/// Least error term a line of extents `a = |dx|`, `b = |dy|` reaches: a
/// diagonal step from `-b`, or a step along x from just above `a`.
pub open spec fn err_lo(a: int, b: int) -> int {
    if a == 0 {
        -2 * b
    } else if 2 * a - 3 * b <= a - 2 * b + 1 {
        2 * a - 3 * b
    } else {
        a - 2 * b + 1
    }
}

/// Greatest error term a line of extents `a = |dx|`, `b = |dy|` reaches: a
/// diagonal step from `a`, or a step along y from just below `-b`.
pub open spec fn err_hi(a: int, b: int) -> int {
    if b == 0 {
        2 * a
    } else if 3 * a - 2 * b >= 2 * a - b - 1 {
        3 * a - 2 * b
    } else {
        2 * a - b - 1
    }
}

/// Stepping a line of extents `a`, `b` cannot overflow an `isize`.
pub open spec fn line_fits(a: int, b: int) -> bool {
    &&& 2 * a <= isize::MAX
    &&& 2 * b <= isize::MAX
    &&& err_hi(a, b) <= isize::MAX
    &&& isize::MIN <= err_lo(a, b)
}

impl LineIter {
    /// |dx|
    pub open spec fn adx(self) -> int {
        iabs(self.dx as int)
    }

    /// |dy|
    pub open spec fn ady(self) -> int {
        iabs(self.dy as int)
    }

    /// Well-formedness: the error term lies in the range that stepping keeps
    /// it in, that range and the step sizes fit in an `isize`, and the
    /// current cell never moves past the target cell.
    pub open spec fn wf(self) -> bool {
        &&& line_fits(self.adx(), self.ady())
        &&& err_lo(self.adx(), self.ady()) <= self.error <= err_hi(self.adx(), self.ady())
        &&& self.dx < 0 ==> self.x1 <= self.x0
        &&& self.dx >= 0 ==> self.x0 <= self.x1
        &&& self.dy < 0 ==> self.y1 <= self.y0
        &&& self.dy >= 0 ==> self.y0 <= self.y1
    }

    /// The x coordinate one step towards the target.
    pub open spec fn fwd_x(self) -> int {
        if self.dx < 0 {
            self.x0 - 1
        } else {
            self.x0 + 1
        }
    }

    /// The y coordinate one step towards the target.
    pub open spec fn fwd_y(self) -> int {
        if self.dy < 0 {
            self.y0 - 1
        } else {
            self.y0 + 1
        }
    }

    /// The x coordinate one step away from the target.
    pub open spec fn bwd_x(self) -> int {
        if self.dx < 0 {
            self.x0 + 1
        } else {
            self.x0 - 1
        }
    }

    /// The y coordinate one step away from the target.
    pub open spec fn bwd_y(self) -> int {
        if self.dy < 0 {
            self.y0 + 1
        } else {
            self.y0 - 1
        }
    }

    /// One step of the iteration: the item produced and the state after it.
    pub open spec fn step(self) -> (Option<(StepCase, usize, usize)>, LineIter) {
        if self.first {
            (Some((StepCase::Start, self.x0, self.y0)), LineIter { first: false, ..self })
        } else {
            let a = self.adx();
            let b = self.ady();
            let e = self.error as int;
            if e >= -b && e <= a {
                if self.x0 == self.x1 || self.y0 == self.y1 {
                    (None, self)
                } else {
                    let s = LineIter {
                        x0: self.fwd_x() as usize,
                        y0: self.fwd_y() as usize,
                        error: (e + 2 * (a - b)) as isize,
                        ..self
                    };
                    (Some((StepCase::Both, s.x0, s.y0)), s)
                }
            } else if e >= -b {
                if self.x0 == self.x1 {
                    (None, self)
                } else {
                    let s = LineIter {
                        x0: self.fwd_x() as usize,
                        error: (e - 2 * b) as isize,
                        ..self
                    };
                    (Some((StepCase::Dx, s.x0, s.y0)), s)
                }
            } else {
                if self.y0 == self.y1 {
                    (None, self)
                } else {
                    let s = LineIter {
                        y0: self.fwd_y() as usize,
                        error: (e + 2 * a) as isize,
                        ..self
                    };
                    (Some((StepCase::Dy, s.x0, s.y0)), s)
                }
            }
        }
    }

    /// The state that `back(case)` produces.
    pub open spec fn unstep(self, case: StepCase) -> LineIter {
        let a = self.adx();
        let b = self.ady();
        let e = self.error as int;
        match case {
            StepCase::Start => LineIter { first: true, ..self },
            StepCase::Dx => LineIter { x0: self.bwd_x() as usize, error: (e + 2 * b) as isize, ..self },
            StepCase::Dy => LineIter { y0: self.bwd_y() as usize, error: (e - 2 * a) as isize, ..self },
            StepCase::Both => LineIter {
                x0: self.bwd_x() as usize,
                y0: self.bwd_y() as usize,
                error: (e - 2 * (a - b)) as isize,
                ..self
            },
        }
    }

    /// `back(case)` performs no overflowing arithmetic.
    pub open spec fn back_ok(self, case: StepCase) -> bool {
        let a = self.adx();
        let b = self.ady();
        let e = self.error as int;
        let x_ok = 0 <= self.bwd_x() <= usize::MAX;
        let y_ok = 0 <= self.bwd_y() <= usize::MAX;
        match case {
            StepCase::Start => true,
            StepCase::Dx => x_ok && self.dy != isize::MIN && 2 * b <= isize::MAX && e + 2 * b
                <= isize::MAX,
            StepCase::Dy => y_ok && self.dx != isize::MIN && 2 * a <= isize::MAX && isize::MIN <= e
                - 2 * a,
            StepCase::Both => x_ok && y_ok && self.dx != isize::MIN && self.dy != isize::MIN
                && isize::MIN <= 2 * (a - b) <= isize::MAX && isize::MIN <= e - 2 * (a - b)
                <= isize::MAX,
        }
    }

    /// The value that `new(x0, y0, x1, y1)` returns.
    pub open spec fn spec_new(x0: usize, y0: usize, x1: usize, y1: usize) -> LineIter {
        let dx = x1 - x0;
        let dy = y1 - y0;
        LineIter {
            x0,
            y0,
            x1,
            y1,
            dx: dx as isize,
            dy: dy as isize,
            error: (2 * (iabs(dx) - iabs(dy))) as isize,
            first: true,
        }
    }

    /// Starts the line from `(x0, y0)` to `(x1, y1)`.
    pub fn new(x0: usize, y0: usize, x1: usize, y1: usize) -> (r: Self)
        requires
            same_half(x0, x1),
            same_half(y0, y1),
            isize::MIN <= 2 * (iabs(x1 - x0) - iabs(y1 - y0)) <= isize::MAX,
        ensures
            r == Self::spec_new(x0, y0, x1, y1),
            line_fits(iabs(x1 - x0), iabs(y1 - y0)) ==> r.wf(),
    {
        let dx: isize = if x1 >= x0 {
            (x1 - x0) as isize
        } else {
            -((x0 - x1) as isize)
        };
        let dy: isize = if y1 >= y0 {
            (y1 - y0) as isize
        } else {
            -((y0 - y1) as isize)
        };
        let adx = if dx < 0 { -dx } else { dx };
        let ady = if dy < 0 { -dy } else { dy };
        Self { x0, y0, x1, y1, dx, dy, error: 2 * (adx - ady), first: true }
    }

    /// Starts the line from `(x0, y0)` to `(x1, y1)` if each pair of
    /// coordinates lies on one side of `isize::MAX` and stepping the line
    /// cannot overflow; `None` otherwise.
    #[verifier::rlimit(40)]
    pub fn checked_new(x0: usize, y0: usize, x1: usize, y1: usize) -> (r: Option<Self>)
        ensures
            r is Some <==> same_half(x0, x1) && same_half(y0, y1) && line_fits(
                iabs(x1 - x0),
                iabs(y1 - y0),
            ),
            r matches Some(l) ==> l == Self::spec_new(x0, y0, x1, y1) && l.wf(),
    {
        let m: usize = isize::MAX as usize;
        if (x0 <= m) != (x1 <= m) || (y0 <= m) != (y1 <= m) {
            return None;
        }
        let a: i128 = if x1 >= x0 {
            (x1 - x0) as i128
        } else {
            (x0 - x1) as i128
        };
        let b: i128 = if y1 >= y0 {
            (y1 - y0) as i128
        } else {
            (y0 - y1) as i128
        };
        assert(a == iabs(x1 - x0) && b == iabs(y1 - y0));
        assert(0 <= a <= isize::MAX && 0 <= b <= isize::MAX);
        let hi: i128 = if b == 0 {
            2 * a
        } else if 3 * a - 2 * b >= 2 * a - b - 1 {
            3 * a - 2 * b
        } else {
            2 * a - b - 1
        };
        let lo: i128 = if a == 0 {
            -2 * b
        } else if 2 * a - 3 * b <= a - 2 * b + 1 {
            2 * a - 3 * b
        } else {
            a - 2 * b + 1
        };
        let max: i128 = isize::MAX as i128;
        let min: i128 = isize::MIN as i128;
        assert(hi == err_hi(a as int, b as int));
        assert(lo == err_lo(a as int, b as int));
        if 2 * a <= max && 2 * b <= max && hi <= max && min <= lo {
            Some(Self::new(x0, y0, x1, y1))
        } else {
            None
        }
    }

    /// Advances to the next cell of the line.
    pub fn next(&mut self) -> (r: Option<(StepCase, usize, usize)>)
        requires
            old(self).wf(),
        ensures
            r == old(self).step().0,
            *final(self) == old(self).step().1,
            final(self).wf(),
    {
        if self.first {
            self.first = false;
            return Some((StepCase::Start, self.x0, self.y0));
        }
        let a = if self.dx < 0 { -self.dx } else { self.dx };
        let b = if self.dy < 0 { -self.dy } else { self.dy };
        let ge = self.error >= -b;
        let le = self.error <= a;
        if ge && le {
            if self.x0 == self.x1 || self.y0 == self.y1 {
                return None;
            }
            self.error = self.error + 2 * (a - b);
            self.sx();
            self.sy();
            Some((StepCase::Both, self.x0, self.y0))
        } else if ge {
            if self.x0 == self.x1 {
                return None;
            }
            self.error = self.error - 2 * b;
            self.sx();
            Some((StepCase::Dx, self.x0, self.y0))
        } else {
            if self.y0 == self.y1 {
                return None;
            }
            self.error = self.error + 2 * a;
            self.sy();
            Some((StepCase::Dy, self.x0, self.y0))
        }
    }

    /// Undoes the step that produced `case`.
    pub fn back(&mut self, case: StepCase)
        requires
            old(self).back_ok(case),
        ensures
            *final(self) == old(self).unstep(case),
    {
        match case {
            StepCase::Start => {
                self.first = true;
            },
            StepCase::Dx => {
                self.nsx();
                let b = if self.dy < 0 { -self.dy } else { self.dy };
                self.error = self.error + 2 * b;
            },
            StepCase::Dy => {
                self.nsy();
                let a = if self.dx < 0 { -self.dx } else { self.dx };
                self.error = self.error - 2 * a;
            },
            StepCase::Both => {
                self.nsx();
                self.nsy();
                let a = if self.dx < 0 { -self.dx } else { self.dx };
                let b = if self.dy < 0 { -self.dy } else { self.dy };
                self.error = self.error - 2 * (a - b);
            },
        }
    }

    /// Moves `y0` one cell towards the target.
    fn sy(&mut self)
        requires
            0 <= old(self).fwd_y() <= usize::MAX,
        ensures
            *final(self) == (LineIter { y0: old(self).fwd_y() as usize, ..*old(self) }),
    {
        if self.dy < 0 {
            self.y0 = self.y0 - 1;
        } else {
            self.y0 = self.y0 + 1;
        }
    }

    /// Moves `x0` one cell towards the target.
    fn sx(&mut self)
        requires
            0 <= old(self).fwd_x() <= usize::MAX,
        ensures
            *final(self) == (LineIter { x0: old(self).fwd_x() as usize, ..*old(self) }),
    {
        if self.dx < 0 {
            self.x0 = self.x0 - 1;
        } else {
            self.x0 = self.x0 + 1;
        }
    }

    /// Moves `y0` one cell away from the target.
    fn nsy(&mut self)
        requires
            0 <= old(self).bwd_y() <= usize::MAX,
        ensures
            *final(self) == (LineIter { y0: old(self).bwd_y() as usize, ..*old(self) }),
    {
        if self.dy < 0 {
            self.y0 = self.y0 + 1;
        } else {
            self.y0 = self.y0 - 1;
        }
    }

    /// Moves `x0` one cell away from the target.
    fn nsx(&mut self)
        requires
            0 <= old(self).bwd_x() <= usize::MAX,
        ensures
            *final(self) == (LineIter { x0: old(self).bwd_x() as usize, ..*old(self) }),
    {
        if self.dx < 0 {
            self.x0 = self.x0 + 1;
        } else {
            self.x0 = self.x0 - 1;
        }
    }
}


impl LineIter {
    /// Cells still to visit: the distance to the target, plus one while the
    /// start cell has not been produced.
    pub open spec fn remaining(self) -> nat {
        (iabs(self.x1 - self.x0) + iabs(self.y1 - self.y0) + if self.first {
            1int
        } else {
            0int
        }) as nat
    }

    /// The state lies on the Bresenham track of its own line: the error term
    /// is exactly the one accumulated by the steps taken so far.
    pub open spec fn on_track(self) -> bool {
        let a = iabs(self.x1 - self.x0);
        let b = iabs(self.y1 - self.y0);
        &&& self.wf()
        &&& a <= self.adx()
        &&& b <= self.ady()
        &&& self.error == 2 * (self.adx() - self.ady() + self.ady() * a - self.adx() * b)
    }

    /// The items produced from this state until the iteration ends.
    pub open spec fn items(self) -> Seq<(StepCase, usize, usize)>
        decreases self.remaining(),
    {
        if !self.wf() {
            Seq::empty()
        } else {
            match self.step().0 {
                None => Seq::empty(),
                Some(item) => {
                    proof {
                        lemma_step_decreases(self);
                    }
                    seq![item] + self.step().1.items()
                },
            }
        }
    }

    /// The cells produced from this state until the iteration ends.
    pub open spec fn cells(self) -> Seq<(usize, usize)> {
        self.items().map_values(|it: (StepCase, usize, usize)| (it.1, it.2))
    }
}

/// The sign of an extent.
pub open spec fn sgn(d: int) -> int {
    if d < 0 {
        -1
    } else if d > 0 {
        1
    } else {
        0
    }
}

/// Item `q` is one unit move from cell `(px, py)` on a line of extents
/// `dx`, `dy`: `Dx` moves x alone by `sgn(dx) != 0`, `Dy` moves y alone by
/// `sgn(dy) != 0`, `Both` moves both, and no later item is a `Start`.
pub open spec fn unit_move(px: int, py: int, q: (StepCase, usize, usize), dx: int, dy: int) -> bool {
    match q.0 {
        StepCase::Start => false,
        StepCase::Dx => sgn(dx) != 0 && q.1 == px + sgn(dx) && q.2 == py,
        StepCase::Dy => sgn(dy) != 0 && q.1 == px && q.2 == py + sgn(dy),
        StepCase::Both => sgn(dx) != 0 && sgn(dy) != 0 && q.1 == px + sgn(dx) && q.2 == py + sgn(
            dy,
        ),
    }
}

/// Every step gets strictly closer to the end of the iteration.
pub proof fn lemma_step_decreases(s: LineIter)
    requires
        s.wf(),
        s.step().0 is Some,
    ensures
        s.step().1.remaining() < s.remaining(),
        s.step().1.x1 == s.x1,
        s.step().1.y1 == s.y1,
{
}

/// A step keeps the iterator on the track of its line.
pub proof fn lemma_step_on_track(s: LineIter)
    requires
        s.on_track(),
    ensures
        s.step().1.on_track(),
{
    let a = iabs(s.x1 - s.x0);
    let b = iabs(s.y1 - s.y0);
    let aa = s.adx();
    let bb = s.ady();
    let n = s.step().1;
    if !s.first && s.step().0 is Some {
        let na = iabs(n.x1 - n.x0);
        let nb = iabs(n.y1 - n.y0);
        match s.step().0.unwrap().0 {
            StepCase::Both => {
                assert(na == a - 1 && nb == b - 1);
                assert(bb * (a - 1) == bb * a - bb) by (nonlinear_arith);
                assert(aa * (b - 1) == aa * b - aa) by (nonlinear_arith);
            },
            StepCase::Dx => {
                assert(na == a - 1 && nb == b);
                assert(bb * (a - 1) == bb * a - bb) by (nonlinear_arith);
            },
            StepCase::Dy => {
                assert(na == a && nb == b - 1);
                assert(aa * (b - 1) == aa * b - aa) by (nonlinear_arith);
            },
            StepCase::Start => {},
        }
    }
}

/// On the track, the iteration only ends once the target cell is reached.
pub proof fn lemma_stop_at_target(s: LineIter)
    requires
        s.on_track(),
        !s.first,
        s.step().0 is None,
    ensures
        s.x0 == s.x1,
        s.y0 == s.y1,
{
    let a = iabs(s.x1 - s.x0);
    let b = iabs(s.y1 - s.y0);
    let aa = s.adx();
    let bb = s.ady();
    let e = s.error as int;
    assert(a >= 1 ==> bb * a >= bb) by (nonlinear_arith)
        requires
            bb >= 0,
    ;
    assert(b >= 1 ==> aa * b >= aa) by (nonlinear_arith)
        requires
            aa >= 0,
    ;
    assert(bb * a >= 0) by (nonlinear_arith)
        requires
            bb >= 0,
            a >= 0,
    ;
    assert(aa * b >= 0) by (nonlinear_arith)
        requires
            aa >= 0,
            b >= 0,
    ;
    assert(a == 0 <==> s.x0 == s.x1);
    assert(b == 0 <==> s.y0 == s.y1);
    assert(e == 2 * (aa - bb + bb * a - aa * b));
    if e >= -bb && e <= aa {
        if a == 0 {
            assert(bb * a == 0) by (nonlinear_arith)
                requires
                    a == 0,
            ;
            if b >= 1 {
                assert(false);
            }
        } else {
            assert(b == 0);
            assert(aa * b == 0) by (nonlinear_arith)
                requires
                    b == 0,
            ;
            assert(false);
        }
    } else if e >= -bb {
        assert(a == 0);
        assert(bb * a == 0) by (nonlinear_arith)
            requires
                a == 0,
        ;
        if b >= 1 {
            assert(false);
        }
    } else {
        assert(b == 0);
        assert(aa * b == 0) by (nonlinear_arith)
            requires
                b == 0,
        ;
        if a >= 1 {
            assert(false);
        }
    }
}

/// The cells produced from a state on the track end at the target cell.
pub proof fn lemma_cells_reach_target(s: LineIter)
    requires
        s.on_track(),
    ensures
        s.cells().len() == 0 ==> !s.first && s.x0 == s.x1 && s.y0 == s.y1,
        s.cells().len() > 0 ==> s.cells().last() == (s.x1, s.y1),
    decreases s.remaining(),
{
    match s.step().0 {
        None => {
            if s.first {
            } else {
                lemma_stop_at_target(s);
            }
        },
        Some(item) => {
            lemma_step_decreases(s);
            lemma_step_on_track(s);
            let n = s.step().1;
            lemma_cells_reach_target(n);
            assert(s.items() == seq![item] + n.items());
            assert(s.cells() =~= seq![(item.1, item.2)] + n.cells());
            if n.cells().len() == 0 {
                assert(item.1 == n.x0 && item.2 == n.y0);
            } else {
                assert(s.cells().last() == n.cells().last());
            }
        },
    }
}

/// A line made by `new` starts at its first end point and finishes at its
/// second one.
pub proof fn lemma_line_endpoints(x0: usize, y0: usize, x1: usize, y1: usize)
    requires
        same_half(x0, x1),
        same_half(y0, y1),
        line_fits(iabs(x1 - x0), iabs(y1 - y0)),
    ensures
        ({
            let c = LineIter::spec_new(x0, y0, x1, y1).cells();
            &&& c.len() >= 1
            &&& c[0] == (x0, y0)
            &&& c.last() == (x1, y1)
        }),
{
    let s = LineIter::spec_new(x0, y0, x1, y1);
    let a = iabs(x1 - x0);
    let b = iabs(y1 - y0);
    assert(b * a == a * b) by (nonlinear_arith);
    assert(s.on_track());
    lemma_cells_reach_target(s);
    lemma_step_decreases(s);
    assert(s.items() == seq![s.step().0.unwrap()] + s.step().1.items());
    assert(s.cells() =~= seq![(x0, y0)] + s.step().1.cells());
}

/// Past the start, on the track, each item is a unit move from the cell
/// before it.
proof fn lemma_items_move(s: LineIter)
    requires
        s.on_track(),
        !s.first,
    ensures
        forall|k: int|
            0 <= k < s.items().len() ==> unit_move(
                if k == 0 {
                    s.x0 as int
                } else {
                    s.items()[k - 1].1 as int
                },
                if k == 0 {
                    s.y0 as int
                } else {
                    s.items()[k - 1].2 as int
                },
                #[trigger] s.items()[k],
                s.dx as int,
                s.dy as int,
            ),
    decreases s.remaining(),
{
    if let Some(item) = s.step().0 {
        lemma_step_decreases(s);
        lemma_step_on_track(s);
        let n = s.step().1;
        lemma_items_move(n);
        let its = s.items();
        assert(its == seq![item] + n.items());
        assert forall|k: int| 0 <= k < its.len() implies unit_move(
            if k == 0 {
                s.x0 as int
            } else {
                its[k - 1].1 as int
            },
            if k == 0 {
                s.y0 as int
            } else {
                its[k - 1].2 as int
            },
            #[trigger] its[k],
            s.dx as int,
            s.dy as int,
        ) by {
            if k > 0 {
                assert(its[k] == n.items()[k - 1]);
                if k > 1 {
                    assert(its[k - 1] == n.items()[k - 2]);
                }
            }
        }
    }
}

/// Past the start, on the track, the number of items still to come is the
/// distance to the target along the longer axis.
proof fn lemma_items_count(s: LineIter)
    requires
        s.on_track(),
        !s.first,
    ensures
        s.adx() >= s.ady() ==> s.items().len() == iabs(s.x1 - s.x0),
        s.ady() >= s.adx() ==> s.items().len() == iabs(s.y1 - s.y0),
    decreases s.remaining(),
{
    match s.step().0 {
        None => {
            lemma_stop_at_target(s);
        },
        Some(item) => {
            lemma_step_decreases(s);
            lemma_step_on_track(s);
            let n = s.step().1;
            lemma_items_count(n);
            assert(s.items() == seq![item] + n.items());
        },
    }
}

/// A line made by `new` from `(x0, y0)` to `(x1, y1)` yields exactly
/// `max(|dx|, |dy|) + 1` items, the fewest an 8-connected path can have: first
/// `(Start, x0, y0)`, last at `(x1, y1)`, and every item in between is a
/// unit move whose case says which coordinates moved.
pub proof fn lemma_line_items(x0: usize, y0: usize, x1: usize, y1: usize)
    requires
        same_half(x0, x1),
        same_half(y0, y1),
        line_fits(iabs(x1 - x0), iabs(y1 - y0)),
    ensures
        ({
            let it = LineIter::spec_new(x0, y0, x1, y1).items();
            let a = iabs(x1 - x0);
            let b = iabs(y1 - y0);
            &&& it.len() == (if a >= b {
                a
            } else {
                b
            }) + 1
            &&& it[0] == (StepCase::Start, x0, y0)
            &&& it.last().1 == x1 && it.last().2 == y1
            &&& forall|k: int|
                0 < k < it.len() ==> unit_move(
                    it[k - 1].1 as int,
                    it[k - 1].2 as int,
                    #[trigger] it[k],
                    x1 - x0,
                    y1 - y0,
                )
        }),
{
    let s = LineIter::spec_new(x0, y0, x1, y1);
    let a = iabs(x1 - x0);
    let b = iabs(y1 - y0);
    assert(b * a == a * b) by (nonlinear_arith);
    assert(s.on_track());
    lemma_line_endpoints(x0, y0, x1, y1);
    lemma_step_on_track(s);
    lemma_step_decreases(s);
    let n = s.step().1;
    assert(n == LineIter { first: false, ..s });
    lemma_items_count(n);
    lemma_items_move(n);
    let it = s.items();
    assert(it == seq![(StepCase::Start, x0, y0)] + n.items());
    assert(s.cells().last() == (it.last().1, it.last().2));
    assert forall|k: int| 0 < k < it.len() implies unit_move(
        it[k - 1].1 as int,
        it[k - 1].2 as int,
        #[trigger] it[k],
        x1 - x0,
        y1 - y0,
    ) by {
        assert(it[k] == n.items()[k - 1]);
        if k > 1 {
            assert(it[k - 1] == n.items()[k - 2]);
        }
    }
}

/// `back` with the case a step reported restores the state before the step.
pub proof fn lemma_back_undoes_next(s: LineIter)
    requires
        s.wf(),
        s.step().0 is Some,
    ensures
        s.step().1.back_ok(s.step().0.unwrap().0),
        s.step().1.unstep(s.step().0.unwrap().0) == s,
{
}

/// Cell `(x, y)` lies within half a cell of the ideal segment of a line of
/// extents `a = |dx|`, `b = |dy|` ending at `(x1, y1)`, measured along the
/// minor axis: `|b·|x1 - x| - a·|y1 - y|| <= max(a, b) / 2`.
pub open spec fn near_ideal(x: int, y: int, x1: int, y1: int, a: int, b: int) -> bool {
    let d = b * iabs(x1 - x) - a * iabs(y1 - y);
    let m = if a >= b {
        a
    } else {
        b
    };
    -m <= 2 * d <= m
}

/// A state on the track of its line lies within half a cell of the ideal
/// segment.
proof fn lemma_track_near(s: LineIter)
    requires
        s.on_track(),
    ensures
        near_ideal(s.x0 as int, s.y0 as int, s.x1 as int, s.y1 as int, s.adx(), s.ady()),
{
}

/// On the track, every item still to come lies within half a cell of the
/// ideal segment.
proof fn lemma_items_near(s: LineIter)
    requires
        s.on_track(),
    ensures
        forall|k: int|
            0 <= k < s.items().len() ==> near_ideal(
                (#[trigger] s.items()[k]).1 as int,
                s.items()[k].2 as int,
                s.x1 as int,
                s.y1 as int,
                s.adx(),
                s.ady(),
            ),
    decreases s.remaining(),
{
    if let Some(item) = s.step().0 {
        lemma_step_decreases(s);
        lemma_step_on_track(s);
        let n = s.step().1;
        lemma_items_near(n);
        lemma_track_near(n);
        let its = s.items();
        assert(its == seq![item] + n.items());
        assert(item.1 == n.x0 && item.2 == n.y0);
        assert forall|k: int| 0 <= k < its.len() implies near_ideal(
            (#[trigger] its[k]).1 as int,
            its[k].2 as int,
            s.x1 as int,
            s.y1 as int,
            s.adx(),
            s.ady(),
        ) by {
            if k > 0 {
                assert(its[k] == n.items()[k - 1]);
            }
        }
    }
}

/// Every cell of a line made by `new` lies within half a cell of the ideal
/// segment from `(x0, y0)` to `(x1, y1)`, measured along the minor axis: the
/// line is the digital line closest to the segment.
pub proof fn lemma_line_near_ideal(x0: usize, y0: usize, x1: usize, y1: usize)
    requires
        same_half(x0, x1),
        same_half(y0, y1),
        line_fits(iabs(x1 - x0), iabs(y1 - y0)),
    ensures
        ({
            let it = LineIter::spec_new(x0, y0, x1, y1).items();
            forall|k: int|
                0 <= k < it.len() ==> near_ideal(
                    (#[trigger] it[k]).1 as int,
                    it[k].2 as int,
                    x1 as int,
                    y1 as int,
                    iabs(x1 - x0),
                    iabs(y1 - y0),
                )
        }),
{
    let s = LineIter::spec_new(x0, y0, x1, y1);
    let a = iabs(x1 - x0);
    let b = iabs(y1 - y0);
    assert(b * a == a * b) by (nonlinear_arith);
    assert(s.on_track());
    lemma_items_near(s);
}

} // verus!
