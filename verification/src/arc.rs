//! Filled circular sectors, swept column by column between two rays.
use crate::isqrt::{isqrt, spec_isqrt};
use crate::line::{line_fits, same_half, LineIter, StepCase};
use crate::iabs;
use vstd::prelude::*;

verus! {

/// Iterator over the cells of the sector between the rays from `(x0, y0)`
/// to `(x1, y1)` and to `(x2, y2)`, closed by the circle of squared radius
/// `r2`.
#[derive(Debug, Clone)]
pub struct ArcIter {
    low_line: LineIter,
    high_line: LineIter,
    range_x: usize,
    range_y_start: usize,
    range_y_end: usize,
    x0: usize,
    y0: usize,
    hx: usize,
    r2: usize,
    steep: bool,
}

/// The abstract state of an [`ArcIter`].
pub struct ArcView {
    pub low_line: LineIter,
    pub high_line: LineIter,
    pub range_x: usize,
    pub range_y_start: usize,
    pub range_y_end: usize,
    pub x0: usize,
    pub y0: usize,
    pub hx: usize,
    pub r2: usize,
    pub steep: bool,
}

impl View for ArcIter {
    type V = ArcView;

    closed spec fn view(&self) -> ArcView {
        ArcView {
            low_line: self.low_line,
            high_line: self.high_line,
            range_x: self.range_x,
            range_y_start: self.range_y_start,
            range_y_end: self.range_y_end,
            x0: self.x0,
            y0: self.y0,
            hx: self.hx,
            r2: self.r2,
            steep: self.steep,
        }
    }
}

/// Emits the next cell of the current column segment.
pub open spec fn arc_range_item(v: ArcView) -> (Option<(usize, usize)>, ArcView) {
    let y = v.range_y_start;
    let c = if v.steep {
        (y, v.range_x)
    } else {
        (v.range_x, y)
    };
    (Some(c), ArcView { range_y_start: (y + 1) as usize, ..v })
}

/// The column `hx` moves to once the high ray has ended.
pub open spec fn arc_next_hx(v: ArcView) -> int {
    if v.low_line.dx < 0 {
        v.hx - 1
    } else {
        v.hx + 1
    }
}

/// Squared horizontal distance from the centre to the next column.
pub open spec fn arc_dist2(v: ArcView) -> int {
    iabs(arc_next_hx(v) - v.x0) * iabs(arc_next_hx(v) - v.x0)
}

/// Half-height of the circle at the next column.
pub open spec fn arc_half_height(v: ArcView) -> int {
    spec_isqrt((v.r2 - arc_dist2(v)) as nat) as int
}

/// One step of the sector: the cell produced and the state after it.
pub open spec fn arc_step(v: ArcView) -> (Option<(usize, usize)>, ArcView) {
    if v.range_y_end >= v.range_y_start {
        arc_range_item(v)
    } else {
        let (hi, high) = v.high_line.step();
        match hi {
            Some(h) => {
                let (li, low) = v.low_line.step();
                let l = li.unwrap();
                let w = ArcView {
                    high_line: high,
                    low_line: low,
                    range_x: l.1,
                    range_y_start: if v.high_line.dy < 0 {
                        h.2
                    } else {
                        l.2
                    },
                    range_y_end: if v.high_line.dy < 0 {
                        l.2
                    } else {
                        h.2
                    },
                    ..v
                };
                arc_range_item(w)
            },
            None => {
                let (li, low) = v.low_line.step();
                match li {
                    Some(l) => {
                        let hh = arc_half_height(v);
                        let w = ArcView {
                            high_line: high,
                            low_line: low,
                            hx: arc_next_hx(v) as usize,
                            range_x: l.1,
                            range_y_start: if v.high_line.dy < 0 {
                                (v.y0 - hh) as usize
                            } else {
                                l.2
                            },
                            range_y_end: if v.high_line.dy < 0 {
                                l.2
                            } else {
                                (v.y0 + hh) as usize
                            },
                            ..v
                        };
                        arc_range_item(w)
                    },
                    None => (None, ArcView { high_line: high, low_line: low, ..v }),
                }
            },
        }
    }
}

/// Both rays are well-formed lines.
pub open spec fn arc_wf(v: ArcView) -> bool {
    v.low_line.wf() && v.high_line.wf()
}

/// The next step performs no overflowing arithmetic and finds a cell on the
/// low ray whenever the high ray still has one.
pub open spec fn arc_next_ok(v: ArcView) -> bool {
    if v.range_y_end >= v.range_y_start {
        v.range_y_start < usize::MAX
    } else {
        let (hi, high) = v.high_line.step();
        match hi {
            Some(h) => {
                let li = v.low_line.step().0;
                &&& li is Some
                &&& (if v.high_line.dy < 0 {
                    h.2
                } else {
                    li.unwrap().2
                }) < usize::MAX
            },
            None => {
                let li = v.low_line.step().0;
                li is Some ==> {
                    let l = li.unwrap();
                    let hh = arc_half_height(v);
                    &&& 0 <= arc_next_hx(v) <= usize::MAX
                    &&& arc_dist2(v) <= usize::MAX
                    &&& arc_dist2(v) <= v.r2
                    &&& (v.high_line.dy < 0 ==> 0 <= v.y0 - hh && v.y0 - hh < usize::MAX)
                    &&& (v.high_line.dy >= 0 ==> v.y0 + hh <= usize::MAX && l.2 < usize::MAX)
                }
            },
        }
    }
}

/// The end points after `new` has transposed a steep sector and ordered the
/// two rays: `(x0, y0, x1, y1, x2, y2, steep)`.
pub open spec fn arc_normalized(
    x0: usize,
    y0: usize,
    x1: usize,
    y1: usize,
    x2: usize,
    y2: usize,
) -> (usize, usize, usize, usize, usize, usize, bool) {
    let steep = iabs(y2 - y0) > iabs(x2 - x0) || iabs(y1 - y0) > iabs(x1 - x0);
    let (a0, b0, a1, b1, a2, b2) = if steep {
        (y0, x0, y2, x2, y1, x1)
    } else {
        (x0, y0, x1, y1, x2, y2)
    };
    if (a1 < a0 || a2 < a0) != (b1 < b0 || b2 < b0) {
        (a0, b0, a2, b2, a1, b1, steep)
    } else {
        (a0, b0, a1, b1, a2, b2, steep)
    }
}

/// The arguments of `LineIter::new` are acceptable.
pub open spec fn line_args_ok(x0: usize, y0: usize, x1: usize, y1: usize) -> bool {
    &&& same_half(x0, x1)
    &&& same_half(y0, y1)
    &&& isize::MIN <= 2 * (iabs(x1 - x0) - iabs(y1 - y0)) <= isize::MAX
}

/// The arguments of `LineIter::new` give a well-formed line.
pub open spec fn line_args_wf(x0: usize, y0: usize, x1: usize, y1: usize) -> bool {
    &&& line_args_ok(x0, y0, x1, y1)
    &&& line_fits(iabs(x1 - x0), iabs(y1 - y0))
}

/// The state that `ArcIter::new` builds.
pub open spec fn spec_arc_new(
    x0: usize,
    y0: usize,
    x1: usize,
    y1: usize,
    x2: usize,
    y2: usize,
    r2: usize,
) -> ArcView {
    let (a0, b0, a1, b1, a2, b2, steep) = arc_normalized(x0, y0, x1, y1, x2, y2);
    ArcView {
        low_line: LineIter::spec_new(a0, b0, a1, b1),
        high_line: LineIter::spec_new(a0, b0, a2, b2),
        range_x: 0,
        range_y_start: 1,
        range_y_end: 0,
        x0: a0,
        y0: b0,
        hx: a2,
        r2,
        steep,
    }
}

/// Absolute difference of two coordinates.
fn abs_diff(a: usize, b: usize) -> (d: usize)
    ensures
        d == iabs(a - b),
{
    if a > b {
        a - b
    } else {
        b - a
    }
}

/// Transposes a steep sector and orders its two rays, as `arc_normalized`.
fn normalize(x0: usize, y0: usize, x1: usize, y1: usize, x2: usize, y2: usize) -> (n: (
    usize,
    usize,
    usize,
    usize,
    usize,
    usize,
    bool,
))
    ensures
        n == arc_normalized(x0, y0, x1, y1, x2, y2),
{
    let (mut x0, mut y0, mut x1, mut y1, mut x2, mut y2) = (x0, y0, x1, y1, x2, y2);
    let steep = abs_diff(y2, y0) > abs_diff(x2, x0) || abs_diff(y1, y0) > abs_diff(x1, x0);
    if steep {
        let (t0, u0) = (y0, x0);
        x0 = t0;
        y0 = u0;
        let (t1, u1, t2, u2) = (y2, x2, y1, x1);
        x1 = t1;
        y1 = u1;
        x2 = t2;
        y2 = u2;
    }
    if (x1 < x0 || x2 < x0) != (y1 < y0 || y2 < y0) {
        let (t1, u1, t2, u2) = (x2, y2, x1, y1);
        x1 = t1;
        y1 = u1;
        x2 = t2;
        y2 = u2;
    }
    (x0, y0, x1, y1, x2, y2, steep)
}

impl ArcIter {
    /// Starts the sector with centre `(x0, y0)`, bounded by the rays to
    /// `(x1, y1)` and `(x2, y2)` and by the circle of squared radius `r2`.
    pub fn new(x0: usize, y0: usize, x1: usize, y1: usize, x2: usize, y2: usize, r2: usize) -> (a:
        Self)
        requires
            ({
                let (a0, b0, a1, b1, a2, b2, steep) = arc_normalized(x0, y0, x1, y1, x2, y2);
                line_args_ok(a0, b0, a1, b1) && line_args_ok(a0, b0, a2, b2)
            }),
        ensures
            a@ == spec_arc_new(x0, y0, x1, y1, x2, y2, r2),
            ({
                let (a0, b0, a1, b1, a2, b2, steep) = arc_normalized(x0, y0, x1, y1, x2, y2);
                line_args_wf(a0, b0, a1, b1) && line_args_wf(a0, b0, a2, b2)
            }) ==> arc_wf(a@),
    {
        let (x0, y0, x1, y1, x2, y2, steep) = normalize(x0, y0, x1, y1, x2, y2);
        Self {
            low_line: LineIter::new(x0, y0, x1, y1),
            high_line: LineIter::new(x0, y0, x2, y2),
            range_x: 0,
            range_y_start: 1,
            range_y_end: 0,
            x0,
            y0,
            hx: x2,
            r2,
            steep,
        }
    }

    /// Starts the sector as `new` does if both of its rays can be stepped
    /// without overflow; `None` otherwise.
    pub fn checked_new(x0: usize, y0: usize, x1: usize, y1: usize, x2: usize, y2: usize, r2: usize) -> (r:
        Option<Self>)
        ensures
            r is Some <==> ({
                let (a0, b0, a1, b1, a2, b2, steep) = arc_normalized(x0, y0, x1, y1, x2, y2);
                line_args_wf(a0, b0, a1, b1) && line_args_wf(a0, b0, a2, b2)
            }),
            r matches Some(a) ==> a@ == spec_arc_new(x0, y0, x1, y1, x2, y2, r2) && arc_wf(a@),
    {
        let (a0, b0, a1, b1, a2, b2, steep) = normalize(x0, y0, x1, y1, x2, y2);
        match (LineIter::checked_new(a0, b0, a1, b1), LineIter::checked_new(a0, b0, a2, b2)) {
            (Some(low_line), Some(high_line)) => Some(
                Self {
                    low_line,
                    high_line,
                    range_x: 0,
                    range_y_start: 1,
                    range_y_end: 0,
                    x0: a0,
                    y0: b0,
                    hx: a2,
                    r2,
                    steep,
                },
            ),
            _ => None,
        }
    }

    /// Emits the next cell of the current column segment.
    fn next_range(&mut self) -> (c: (usize, usize))
        requires
            old(self).range_y_start < usize::MAX,
        ensures
            Some(c) == arc_range_item(old(self)@).0,
            final(self)@ == arc_range_item(old(self)@).1,
    {
        let y = self.range_y_start;
        self.range_y_start = self.range_y_start + 1;
        let x = self.range_x;
        if self.steep {
            (y, x)
        } else {
            (x, y)
        }
    }

    /// Whether `next` can run without overflowing and without running out
    /// of cells on the low ray while the high ray still has some.
    pub fn can_advance(&self) -> (r: bool)
        requires
            arc_wf(self@),
        ensures
            r == arc_next_ok(self@),
    {
        if self.range_y_end >= self.range_y_start {
            return self.range_y_start < usize::MAX;
        }
        let mut high = self.high_line;
        let mut low = self.low_line;
        let h = high.next();
        let l = low.next();
        match h {
            Some((_, _, hy)) => match l {
                None => false,
                Some((_, _, ly)) => {
                    let start = if self.high_line.dy < 0 {
                        hy
                    } else {
                        ly
                    };
                    start < usize::MAX
                },
            },
            None => match l {
                None => true,
                Some((_, _, ly)) => {
                    let nhx = if self.low_line.dx < 0 {
                        if self.hx == 0 {
                            return false;
                        }
                        self.hx - 1
                    } else {
                        if self.hx == usize::MAX {
                            return false;
                        }
                        self.hx + 1
                    };
                    let d = abs_diff(nhx, self.x0);
                    let sq = match d.checked_mul(d) {
                        Some(sq) => sq,
                        None => {
                            return false;
                        },
                    };
                    if sq > self.r2 {
                        return false;
                    }
                    let hh = isqrt(self.r2 - sq);
                    if self.high_line.dy < 0 {
                        hh <= self.y0 && self.y0 - hh < usize::MAX
                    } else {
                        hh <= usize::MAX - self.y0 && ly < usize::MAX
                    }
                },
            },
        }
    }

    /// Produces the next cell of the sector, if any.
    pub fn next(&mut self) -> (item: Option<(usize, usize)>)
        requires
            arc_wf(old(self)@),
            arc_next_ok(old(self)@),
        ensures
            item == arc_step(old(self)@).0,
            final(self)@ == arc_step(old(self)@).1,
            arc_wf(final(self)@),
    {
        if self.range_y_end >= self.range_y_start {
            Some(self.next_range())
        } else if let Some((_, _, hy)) = self.high_line.next() {
            let (_, lx, ly) = match self.low_line.next() {
                Some(l) => l,
                None => (StepCase::Start, 0, 0),
            };
            self.range_x = lx;
            if self.high_line.dy < 0 {
                self.range_y_end = ly;
                self.range_y_start = hy;
            } else {
                self.range_y_start = ly;
                self.range_y_end = hy;
            }
            Some(self.next_range())
        } else if let Some((_, lx, ly)) = self.low_line.next() {
            if self.low_line.dx < 0 {
                self.hx = self.hx - 1;
            } else {
                self.hx = self.hx + 1;
            }
            let d = abs_diff(self.hx, self.x0);
            let yy = self.r2 - d * d;
            self.range_x = lx;
            if self.high_line.dy < 0 {
                self.range_y_end = ly;
                self.range_y_start = self.y0 - isqrt(yy);
            } else {
                self.range_y_start = ly;
                self.range_y_end = self.y0 + isqrt(yy);
            }
            Some(self.next_range())
        } else {
            None
        }
    }
}

/// The first cell of a sector is its apex `(x0, y0)`, in the caller's
/// coordinates whether or not the sector was transposed, and producing it
/// cannot overflow unless a coordinate of the apex is `usize::MAX`.
pub proof fn lemma_arc_starts_at_apex(
    x0: usize,
    y0: usize,
    x1: usize,
    y1: usize,
    x2: usize,
    y2: usize,
    r2: usize,
)
    requires
        ({
            let (a0, b0, a1, b1, a2, b2, steep) = arc_normalized(x0, y0, x1, y1, x2, y2);
            line_args_ok(a0, b0, a1, b1) && line_args_ok(a0, b0, a2, b2)
        }),
        x0 < usize::MAX,
        y0 < usize::MAX,
    ensures
        arc_next_ok(spec_arc_new(x0, y0, x1, y1, x2, y2, r2)),
        arc_step(spec_arc_new(x0, y0, x1, y1, x2, y2, r2)).0 == Some((x0, y0)),
{
}

/// A cell of the sector in the caller's coordinates, from its column `x`
/// and row `y` in the sector's own (possibly transposed) coordinates.
pub open spec fn arc_cell(steep: bool, x: usize, y: usize) -> (usize, usize) {
    if steep {
        (y, x)
    } else {
        (x, y)
    }
}

/// The next `n` results of a sector, one step after the other.
pub open spec fn arc_items(v: ArcView, n: nat) -> Seq<Option<(usize, usize)>>
    decreases n,
{
    if n == 0 {
        Seq::empty()
    } else {
        seq![arc_step(v).0] + arc_items(arc_step(v).1, (n - 1) as nat)
    }
}

/// A column segment under way yields its cells one row after the other.
proof fn lemma_arc_segment(v: ArcView, n: nat)
    requires
        v.range_y_start + n == v.range_y_end + 1,
        v.range_y_end < usize::MAX,
    ensures
        arc_items(v, n) == Seq::new(
            n,
            |k: int| Some(arc_cell(v.steep, v.range_x, (v.range_y_start + k) as usize)),
        ),
    decreases n,
{
    let target = Seq::new(
        n,
        |k: int| Some(arc_cell(v.steep, v.range_x, (v.range_y_start + k) as usize)),
    );
    if n == 0 {
        assert(arc_items(v, n) =~= target);
    } else {
        let w = arc_step(v).1;
        assert(w == ArcView { range_y_start: (v.range_y_start + 1) as usize, ..v });
        lemma_arc_segment(w, (n - 1) as nat);
        assert(arc_items(v, n) =~= target);
    }
}

/// While both rays still have cells, the sector fills each column: when a
/// column starts, it yields every cell from the low ray's cell to the high
/// ray's cell in that column, in order of rows, before anything else.
pub proof fn lemma_arc_fills_column(v: ArcView)
    requires
        v.range_y_end < v.range_y_start,
        v.high_line.step().0 is Some,
        v.low_line.step().0 is Some,
        ({
            let h = v.high_line.step().0.unwrap();
            let l = v.low_line.step().0.unwrap();
            &&& v.high_line.dy >= 0 ==> l.2 <= h.2
            &&& v.high_line.dy < 0 ==> h.2 <= l.2
            &&& l.2 < usize::MAX
            &&& h.2 < usize::MAX
        }),
    ensures
        ({
            let h = v.high_line.step().0.unwrap();
            let l = v.low_line.step().0.unwrap();
            let lo = if l.2 <= h.2 {
                l.2
            } else {
                h.2
            };
            let hi = if l.2 <= h.2 {
                h.2
            } else {
                l.2
            };
            arc_items(v, (hi - lo + 1) as nat) == Seq::new(
                (hi - lo + 1) as nat,
                |k: int| Some(arc_cell(v.steep, l.1, (lo + k) as usize)),
            )
        }),
{
    let h = v.high_line.step().0.unwrap();
    let l = v.low_line.step().0.unwrap();
    let lo = if l.2 <= h.2 {
        l.2
    } else {
        h.2
    };
    let hi = if l.2 <= h.2 {
        h.2
    } else {
        l.2
    };
    let n = (hi - lo + 1) as nat;
    let w = arc_step(v).1;
    assert(arc_step(v).0 == Some(arc_cell(v.steep, l.1, lo)));
    assert(w.range_x == l.1 && w.range_y_start == lo + 1 && w.range_y_end == hi && w.steep == v.steep);
    lemma_arc_segment(w, (n - 1) as nat);
    assert(arc_items(v, n) =~= Seq::new(n, |k: int| Some(arc_cell(v.steep, l.1, (lo + k) as usize))));
}

/// Once the high ray has ended, each new column runs between the low ray's
/// cell and the circle: its far end is the last row `h` from the centre
/// with `h² + d² <= r2`, where `d` is the column's distance from the
/// centre, and the column yields every cell in between, in order of rows.
pub proof fn lemma_arc_column_to_circle(v: ArcView)
    requires
        v.range_y_end < v.range_y_start,
        v.high_line.step().0 is None,
        v.low_line.step().0 is Some,
        arc_next_ok(v),
    ensures
        ({
            let l = v.low_line.step().0.unwrap();
            let nhx = if v.low_line.dx < 0 {
                v.hx - 1
            } else {
                v.hx + 1
            };
            let d2 = iabs(nhx - v.x0) * iabs(nhx - v.x0);
            let h = spec_isqrt((v.r2 - d2) as nat) as int;
            let lo = if v.high_line.dy < 0 {
                v.y0 - h
            } else {
                l.2 as int
            };
            let hi = if v.high_line.dy < 0 {
                l.2 as int
            } else {
                v.y0 + h
            };
            &&& 0 <= h
            &&& h * h + d2 <= v.r2 < (h + 1) * (h + 1) + d2
            &&& lo <= hi && hi < usize::MAX ==> arc_items(v, (hi - lo + 1) as nat) == Seq::new(
                (hi - lo + 1) as nat,
                |k: int| Some(arc_cell(v.steep, l.1, (lo + k) as usize)),
            )
        }),
{
    let l = v.low_line.step().0.unwrap();
    let d2 = arc_dist2(v);
    let h = arc_half_height(v);
    crate::isqrt::lemma_isqrt_bounds((v.r2 - d2) as nat);
    let lo = if v.high_line.dy < 0 {
        v.y0 - h
    } else {
        l.2 as int
    };
    let hi = if v.high_line.dy < 0 {
        l.2 as int
    } else {
        v.y0 + h
    };
    if lo <= hi && hi < usize::MAX {
        let n = (hi - lo + 1) as nat;
        let w = arc_step(v).1;
        assert(arc_step(v).0 == Some(arc_cell(v.steep, l.1, lo as usize)));
        assert(w.range_x == l.1 && w.range_y_start == lo + 1 && w.range_y_end == hi && w.steep
            == v.steep);
        lemma_arc_segment(w, (n - 1) as nat);
        assert(arc_items(v, n) =~= Seq::new(
            n,
            |k: int| Some(arc_cell(v.steep, l.1, (lo + k) as usize)),
        ));
    }
}

} // verus!
