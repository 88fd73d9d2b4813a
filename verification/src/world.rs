//! Run-length encoding of the cells of a chunk section, and the choice of
//! the sections of a chunk that are worth sending.
use core::cmp::Ordering;
use vstd::prelude::*;
use vstd::std_specs::cmp::PartialOrdSpecImpl;

verus! {

/// Sections per row of a chunk.
pub const COLS: usize = 16;

/// Sections per chunk.
pub const SECTIONS: usize = 256;

/// Width in cells of a section.
pub const WIDTH: usize = 32;

/// Cells per section.
pub const AREA: usize = 1024;

/// What the pixel encoding reads of a game cell: its material and whether
/// the material is a rigid solid.
#[derive(Clone, Copy, PartialEq, Eq, Structural, Debug)]
pub struct Cell {
    pub material_type: usize,
    pub solid: bool,
}

/// The material shown at a cell; id 0 is empty space.
#[derive(Clone, Copy, PartialEq, Eq, Structural, Debug)]
pub struct Pixel {
    pub id: u16,
}

impl Default for Pixel {
    /// Empty space.
    fn default() -> (p: Self)
        ensures
            p.id == 0,
    {
        Pixel { id: 0 }
    }
}

impl Pixel {
    /// The pixel of rigid solids.
    pub fn max() -> (p: Self)
        ensures
            p.id == u16::MAX,
    {
        Pixel { id: 0xffff }
    }

    /// The pixel of material `value`.
    pub fn from(value: usize) -> (p: Self)
        requires
            value <= u16::MAX,
        ensures
            p.id == value,
    {
        Pixel { id: value as u16 }
    }
}

/// The pixel a cell is encoded as.
pub open spec fn pixel_of(cell: Option<Cell>) -> Pixel {
    match cell {
        None => Pixel { id: 0 },
        Some(c) => if c.solid {
            Pixel { id: 0xffff }
        } else {
            Pixel { id: c.material_type as u16 }
        },
    }
}

/// The cell can be encoded without failing.
pub open spec fn cell_encodable(cell: Option<Cell>) -> bool {
    match cell {
        None => true,
        Some(c) => c.solid || c.material_type <= u16::MAX,
    }
}

/// `n` copies of `p`.
pub open spec fn repeat(p: Pixel, n: nat) -> Seq<Pixel> {
    Seq::new(n, |_i: int| p)
}

/// The pixels a list of runs `(count, pixel)` stands for.
pub open spec fn run_pixels(runs: Seq<(u16, Pixel)>) -> Seq<Pixel>
    decreases runs.len(),
{
    if runs.len() == 0 {
        Seq::empty()
    } else {
        run_pixels(runs.drop_last()) + repeat(runs.last().1, runs.last().0 as nat)
    }
}

/// Every run is non-empty and no two neighbouring runs share a pixel.
pub open spec fn runs_canonical(runs: Seq<(u16, Pixel)>) -> bool {
    &&& forall|i: int| 0 <= i < runs.len() ==> #[trigger] runs[i].0 >= 1
    &&& forall|i: int| 0 < i < runs.len() ==> #[trigger] runs[i - 1].1 != runs[i].1
}

/// Decoding from the front: the first run, then the rest.
pub proof fn lemma_run_pixels_front(runs: Seq<(u16, Pixel)>)
    requires
        runs.len() > 0,
    ensures
        run_pixels(runs) == repeat(runs[0].1, runs[0].0 as nat) + run_pixels(runs.drop_first()),
    decreases runs.len(),
{
    if runs.len() == 1 {
        assert(runs.drop_last() =~= Seq::<(u16, Pixel)>::empty());
        assert(run_pixels(runs.drop_last()) =~= Seq::<Pixel>::empty());
        assert(runs.drop_first() =~= Seq::<(u16, Pixel)>::empty());
        assert(run_pixels(runs) =~= repeat(runs[0].1, runs[0].0 as nat));
    } else {
        let init = runs.drop_last();
        lemma_run_pixels_front(init);
        assert(runs.drop_first().drop_last() =~= init.drop_first());
        assert(runs.drop_first().last() == runs.last());
        assert(run_pixels(runs) =~= repeat(runs[0].1, runs[0].0 as nat) + run_pixels(
            runs.drop_first(),
        ));
    }
}

/// Appending a run appends its pixels.
pub proof fn lemma_run_pixels_push(runs: Seq<(u16, Pixel)>, r: (u16, Pixel))
    ensures
        run_pixels(runs.push(r)) == run_pixels(runs) + repeat(r.1, r.0 as nat),
{
    assert(runs.push(r).drop_last() =~= runs);
}

/// Pushing the pixels of `s`, starting with a pending run of `count`
/// copies of `cur`, never grows a run beyond `u16::MAX`.
pub open spec fn pushes_fit(count: nat, cur: Pixel, s: Seq<Pixel>) -> bool
    decreases s.len(),
{
    if s.len() == 0 {
        true
    } else if s[0] == cur {
        count < u16::MAX && pushes_fit(count + 1, cur, s.drop_first())
    } else {
        pushes_fit(1, s[0], s.drop_first())
    }
}

/// A run-length encoded section.
#[derive(Clone, Debug)]
pub struct PixelRun {
    pub vec: Vec<(u16, Pixel)>,
}

/// Builds a [`PixelRun`] one pixel at a time.
pub struct PixelRunBuilder {
    vec: Vec<(u16, Pixel)>,
    current: Pixel,
    len: u16,
}

impl PixelRunBuilder {
    /// The pixels pushed so far.
    pub closed spec fn pixels(&self) -> Seq<Pixel> {
        run_pixels(self.vec@) + repeat(self.current, self.len as nat)
    }

    /// The run still being counted: `(count, pixel)`.
    pub closed spec fn pending(&self) -> (u16, Pixel) {
        (self.len, self.current)
    }

    /// The finished runs are canonical and differ from the pending one.
    pub closed spec fn wf(&self) -> bool {
        &&& runs_canonical(self.vec@)
        &&& self.len == 0 ==> self.vec@.len() == 0
        &&& self.vec@.len() > 0 ==> self.vec@.last().1 != self.current
    }

    /// Appends the pending run, if it is not empty, to the finished runs.
    fn write(&mut self)
        requires
            old(self).wf(),
        ensures
            final(self).current == old(self).current,
            final(self).len == old(self).len,
            old(self).len != 0 ==> final(self).vec@ == old(self).vec@.push(
                (old(self).len, old(self).current),
            ),
            old(self).len == 0 ==> final(self).vec@ == old(self).vec@,
            run_pixels(final(self).vec@) == old(self).pixels(),
            runs_canonical(final(self).vec@),
    {
        if self.len != 0 {
            self.vec.push((self.len, self.current));
            proof {
                lemma_run_pixels_push(old(self).vec@, (old(self).len, old(self).current));
            }
        } else {
            assert(repeat(self.current, 0) =~= Seq::<Pixel>::empty());
            assert(old(self).pixels() =~= run_pixels(self.vec@));
        }
    }

    /// Appends one pixel.
    pub fn push(&mut self, pixel: Pixel)
        requires
            old(self).wf(),
            old(self).pending().1 == pixel ==> old(self).pending().0 < u16::MAX,
        ensures
            final(self).wf(),
            final(self).pixels() == old(self).pixels().push(pixel),
            final(self).pending() == if old(self).pending().1 == pixel {
                ((old(self).pending().0 + 1) as u16, pixel)
            } else {
                (1u16, pixel)
            },
    {
        if self.current == pixel {
            self.len = self.len + 1;
            assert(self.pixels() =~= old(self).pixels().push(pixel));
        } else {
            self.write();
            self.current = pixel;
            self.len = 1;
            assert(self.pixels() =~= old(self).pixels().push(pixel));
        }
    }

    /// Appends the pixels of `cells`, in order.
    pub fn extend(&mut self, cells: &[Option<Cell>])
        requires
            old(self).wf(),
            forall|i: int| 0 <= i < cells@.len() ==> cell_encodable(#[trigger] cells@[i]),
            pushes_fit(
                old(self).pending().0 as nat,
                old(self).pending().1,
                cells@.map_values(|c: Option<Cell>| pixel_of(c)),
            ),
        ensures
            final(self).wf(),
            final(self).pixels() == old(self).pixels() + cells@.map_values(
                |c: Option<Cell>| pixel_of(c),
            ),
    {
        let ghost all = cells@.map_values(|c: Option<Cell>| pixel_of(c));
        let mut i: usize = 0;
        assert(all.subrange(0, all.len() as int) =~= all);
        assert(all.subrange(0, 0) =~= Seq::<Pixel>::empty());
        assert(old(self).pixels() + Seq::<Pixel>::empty() =~= old(self).pixels());
        while i < cells.len()
            invariant
                i <= cells@.len(),
                all == cells@.map_values(|c: Option<Cell>| pixel_of(c)),
                forall|j: int| 0 <= j < cells@.len() ==> cell_encodable(#[trigger] cells@[j]),
                self.wf(),
                self.pixels() == old(self).pixels() + all.subrange(0, i as int),
                pushes_fit(self.pending().0 as nat, self.pending().1, all.subrange(i as int, all.len() as int)),
            decreases cells@.len() - i,
        {
            let p = match cells[i] {
                None => Pixel::default(),
                Some(c) => if c.solid {
                    Pixel::max()
                } else {
                    Pixel::from(c.material_type)
                },
            };
            proof {
                let rest = all.subrange(i as int, all.len() as int);
                assert(rest[0] == p);
                assert(rest.drop_first() =~= all.subrange(i + 1, all.len() as int));
            }
            self.push(p);
            proof {
                assert(all.subrange(0, i + 1) =~= all.subrange(0, i as int).push(p));
            }
            i = i + 1;
        }
        assert(all.subrange(0, i as int) =~= all);
    }

    /// Finishes the encoding.
    pub fn build(self) -> (r: PixelRun)
        requires
            self.wf(),
        ensures
            run_pixels(r.vec@) == self.pixels(),
            runs_canonical(r.vec@),
    {
        let mut b = self;
        b.write();
        PixelRun { vec: b.vec }
    }
}

impl Default for PixelRunBuilder {
    /// A builder with nothing pushed yet.
    fn default() -> (b: Self)
        ensures
            b.wf(),
            b.pixels() == Seq::<Pixel>::empty(),
            b.pending() == (0u16, Pixel { id: 0 }),
    {
        let b = Self { vec: Vec::with_capacity(AREA), current: Pixel::default(), len: 0 };
        assert(b.pixels() =~= Seq::<Pixel>::empty());
        b
    }
}


/// Decodes a [`PixelRun`] pixel by pixel.
pub struct PixelRunIter<'a> {
    vec: &'a [(u16, Pixel)],
    pos: usize,
    current: u16,
    pixel: Pixel,
}

impl<'a> PixelRunIter<'a> {
    /// The pixels still to decode.
    pub closed spec fn remaining(&self) -> Seq<Pixel> {
        repeat(self.pixel, self.current as nat) + run_pixels(
            self.vec@.subrange(self.pos + 1, self.vec@.len() as int),
        )
    }

    /// The runs still to enter are non-empty.
    pub closed spec fn wf(&self) -> bool {
        &&& self.pos < self.vec@.len()
        &&& forall|i: int| self.pos < i < self.vec@.len() ==> #[trigger] self.vec@[i].0 >= 1
    }

    /// Decodes the next pixel.
    pub fn next(&mut self) -> (r: Option<Pixel>)
        requires
            old(self).wf(),
            old(self).remaining().len() > 0,
        ensures
            final(self).wf(),
            r == Some(old(self).remaining()[0]),
            final(self).remaining() == old(self).remaining().drop_first(),
    {
        if self.pos >= self.vec.len() {
            None
        } else if self.current == 0 {
            proof {
                assert(repeat(self.pixel, 0) =~= Seq::<Pixel>::empty());
                if self.pos + 1 >= self.vec@.len() {
                    assert(self.vec@.subrange(self.pos + 1, self.vec@.len() as int)
                        =~= Seq::<(u16, Pixel)>::empty());
                    assert(false);
                }
                let rest = self.vec@.subrange(self.pos + 1, self.vec@.len() as int);
                lemma_run_pixels_front(rest);
                assert(rest.drop_first() =~= self.vec@.subrange(
                    self.pos + 2,
                    self.vec@.len() as int,
                ));
            }
            self.pos = self.pos + 1;
            self.current = self.vec[self.pos].0;
            self.pixel = self.vec[self.pos].1;
            self.current = self.current - 1;
            proof {
                let p = self.pixel;
                let c = self.current as nat;
                assert(repeat(p, c + 1) =~= seq![p] + repeat(p, c));
                assert(self.remaining() =~= old(self).remaining().drop_first());
            }
            Some(self.pixel)
        } else {
            self.current = self.current - 1;
            proof {
                let p = self.pixel;
                let c = self.current as nat;
                assert(repeat(p, c + 1) =~= seq![p] + repeat(p, c));
                assert(self.remaining() =~= old(self).remaining().drop_first());
            }
            Some(self.pixel)
        }
    }
}

impl PixelRun {
    /// Starts decoding the run; the run must hold at least one entry.
    pub fn iter(&self) -> (it: PixelRunIter<'_>)
        requires
            self.vec@.len() > 0,
        ensures
            it.remaining() == run_pixels(self.vec@),
            (forall|i: int| 0 < i < self.vec@.len() ==> #[trigger] self.vec@[i].0 >= 1)
                ==> it.wf(),
    {
        let it = PixelRunIter {
            vec: self.vec.as_slice(),
            pos: 0,
            current: self.vec[0].0,
            pixel: self.vec[0].1,
        };
        proof {
            lemma_run_pixels_front(self.vec@);
            assert(self.vec@.drop_first() =~= self.vec@.subrange(1, self.vec@.len() as int));
        }
        it
    }
}

/// Length of the final block of equal pixels of `s`.
pub open spec fn trailing_block(s: Seq<Pixel>) -> nat
    decreases s.len(),
{
    if s.len() == 0 {
        0
    } else if s.len() >= 2 && s[s.len() - 2] == s.last() {
        trailing_block(s.drop_last()) + 1
    } else {
        1
    }
}

/// `c >= 1` copies of `p` after a sequence not ending in `p` form a final
/// block of length `c`.
proof fn lemma_trailing_repeat(x: Seq<Pixel>, p: Pixel, c: nat)
    requires
        c >= 1,
        x.len() == 0 || x.last() != p,
    ensures
        trailing_block(x + repeat(p, c)) == c,
        (x + repeat(p, c)).last() == p,
    decreases c,
{
    let s = x + repeat(p, c);
    if c == 1 {
    } else {
        lemma_trailing_repeat(x, p, (c - 1) as nat);
        assert(s.drop_last() =~= x + repeat(p, (c - 1) as nat));
        assert(s[s.len() - 2] == p);
    }
}

/// The final block of the pixels of canonical runs is their last run.
proof fn lemma_trailing_runs(runs: Seq<(u16, Pixel)>)
    requires
        runs_canonical(runs),
        runs.len() > 0,
    ensures
        trailing_block(run_pixels(runs)) == runs.last().0,
        run_pixels(runs).last() == runs.last().1,
        run_pixels(runs.drop_last()) == run_pixels(runs).subrange(
            0,
            run_pixels(runs).len() - runs.last().0,
        ),
    decreases runs.len(),
{
    let init = runs.drop_last();
    let x = run_pixels(init);
    assert(runs[runs.len() - 1].0 >= 1);
    if init.len() > 0 {
        lemma_trailing_runs(init);
        assert(runs[runs.len() - 1 - 1].1 != runs[runs.len() - 1].1);
    }
    lemma_trailing_repeat(x, runs.last().1, runs.last().0 as nat);
    assert(run_pixels(runs).subrange(0, run_pixels(runs).len() - runs.last().0) =~= x);
}

/// Two canonical run lists that decode to the same pixels are equal: the
/// encoding a builder produces is determined by the pixels pushed.
pub proof fn lemma_canonical_runs_unique(r1: Seq<(u16, Pixel)>, r2: Seq<(u16, Pixel)>)
    requires
        runs_canonical(r1),
        runs_canonical(r2),
        run_pixels(r1) == run_pixels(r2),
    ensures
        r1 == r2,
    decreases r1.len() + r2.len(),
{
    if r1.len() == 0 || r2.len() == 0 {
        if r1.len() > 0 {
            lemma_trailing_runs(r1);
            assert(false);
        }
        if r2.len() > 0 {
            lemma_trailing_runs(r2);
            assert(false);
        }
        assert(r1 =~= r2);
    } else {
        lemma_trailing_runs(r1);
        lemma_trailing_runs(r2);
        let i1 = r1.drop_last();
        let i2 = r2.drop_last();
        assert(runs_canonical(i1));
        assert(runs_canonical(i2));
        lemma_canonical_runs_unique(i1, i2);
        assert(r1 =~= i1.push(r1.last()));
        assert(r2 =~= i2.push(r2.last()));
    }
}


/// Decoding undoes encoding. The runs a builder hands out for a non-empty
/// sequence of pixels `s` (canonical and decoding to `s`, by `build`) are
/// the only such runs, hold at least one entry and only non-empty runs, so
/// `PixelRun::iter` accepts them and decodes exactly `s`.
pub proof fn lemma_pixel_run_roundtrip(runs: Seq<(u16, Pixel)>, s: Seq<Pixel>)
    requires
        runs_canonical(runs),
        run_pixels(runs) == s,
        s.len() > 0,
    ensures
        runs.len() > 0,
        forall|i: int| 0 <= i < runs.len() ==> #[trigger] runs[i].0 >= 1,
        forall|r2: Seq<(u16, Pixel)>|
            runs_canonical(r2) && #[trigger] run_pixels(r2) == s ==> r2 == runs,
{
    if runs.len() == 0 {
        assert(run_pixels(runs) =~= Seq::<Pixel>::empty());
    }
    assert forall|r2: Seq<(u16, Pixel)>|
        runs_canonical(r2) && #[trigger] run_pixels(r2) == s implies r2 == runs by {
        lemma_canonical_runs_unique(r2, runs);
    }
}

/// A point of the world grid.
#[derive(Clone, Copy, PartialEq, Eq, Structural, Debug)]
pub struct Vec2 {
    pub x: usize,
    pub y: usize,
}

/// An axis-aligned box covering the cells `top_left <= (x, y) <
/// bottom_right`.
#[derive(Clone, Copy, PartialEq, Eq, Structural, Debug)]
pub struct AABB {
    pub top_left: Vec2,
    pub bottom_right: Vec2,
}

/// The two boxes share a cell.
pub open spec fn spec_intersects(a: AABB, b: AABB) -> bool {
    &&& a.top_left.x < b.bottom_right.x
    &&& b.top_left.x < a.bottom_right.x
    &&& a.top_left.y < b.bottom_right.y
    &&& b.top_left.y < a.bottom_right.y
}

/// Every cell of `b` is a cell of `a`.
pub open spec fn spec_contains(a: AABB, b: AABB) -> bool {
    &&& a.top_left.x <= b.top_left.x
    &&& b.bottom_right.x <= a.bottom_right.x
    &&& a.top_left.y <= b.top_left.y
    &&& b.bottom_right.y <= a.bottom_right.y
}

impl AABB {
    /// The two boxes share a cell.
    pub fn intersects(&self, other: AABB) -> (r: bool)
        ensures
            r == spec_intersects(*self, other),
    {
        self.top_left.x < other.bottom_right.x && other.top_left.x < self.bottom_right.x
            && self.top_left.y < other.bottom_right.y && other.top_left.y < self.bottom_right.y
    }

    /// Every cell of `other` is a cell of this box.
    pub fn contains(&self, other: AABB) -> (r: bool)
        ensures
            r == spec_contains(*self, other),
    {
        self.top_left.x <= other.top_left.x && other.bottom_right.x <= self.bottom_right.x
            && self.top_left.y <= other.top_left.y && other.bottom_right.y <= self.bottom_right.y
    }
}

/// How urgently a section has to be sent.
#[derive(Clone, Copy, PartialEq, Eq, Structural, Debug)]
pub enum Priority {
    Unseen,
    Low,
    Medium,
    High,
}

/// The position of a priority in the order `Unseen < Low < Medium < High`.
pub open spec fn priority_rank(p: Priority) -> int {
    match p {
        Priority::Unseen => 0,
        Priority::Low => 1,
        Priority::Medium => 2,
        Priority::High => 3,
    }
}

impl PartialOrd for Priority {
    fn partial_cmp(&self, other: &Self) -> (r: Option<Ordering>) {
        let a: u8 = match self {
            Priority::Unseen => 0,
            Priority::Low => 1,
            Priority::Medium => 2,
            Priority::High => 3,
        };
        let b: u8 = match other {
            Priority::Unseen => 0,
            Priority::Low => 1,
            Priority::Medium => 2,
            Priority::High => 3,
        };
        if a < b {
            Some(Ordering::Less)
        } else if a == b {
            Some(Ordering::Equal)
        } else {
            Some(Ordering::Greater)
        }
    }
}

impl PartialOrdSpecImpl for Priority {
    open spec fn obeys_partial_cmp_spec() -> bool {
        true
    }

    open spec fn partial_cmp_spec(&self, other: &Self) -> Option<Ordering> {
        if priority_rank(*self) < priority_rank(*other) {
            Some(Ordering::Less)
        } else if priority_rank(*self) == priority_rank(*other) {
            Some(Ordering::Equal)
        } else {
            Some(Ordering::Greater)
        }
    }
}

/// The box of section `section` of the chunk at chunk coordinates `(x, y)`.
pub open spec fn section_rect(x: usize, y: usize, section: usize) -> AABB {
    let sx = (section % COLS) * WIDTH + x * 512;
    let sy = (section / COLS) * WIDTH + y * 512;
    AABB {
        top_left: Vec2 { x: sx as usize, y: sy as usize },
        bottom_right: Vec2 { x: (sx + WIDTH) as usize, y: (sy + WIDTH) as usize },
    }
}

/// The box of the section fits in the coordinate range.
pub open spec fn section_rect_fits(x: usize, y: usize, section: usize) -> bool {
    &&& (section % COLS) * WIDTH + x * 512 + WIDTH <= usize::MAX
    &&& (section / COLS) * WIDTH + y * 512 + WIDTH <= usize::MAX
}

/// The priority of a section for a camera box `aabb` whose centre is
/// `inner_aabb`: none when out of view, low when partly in view, high when
/// fully in view and touching the centre, medium otherwise.
pub open spec fn spec_section_in(
    aabb: AABB,
    inner_aabb: AABB,
    x: usize,
    y: usize,
    section: usize,
) -> Option<Priority> {
    let rect = section_rect(x, y, section);
    if !spec_intersects(aabb, rect) {
        None
    } else if !spec_contains(aabb, rect) {
        Some(Priority::Low)
    } else if spec_intersects(inner_aabb, rect) {
        Some(Priority::High)
    } else {
        Some(Priority::Medium)
    }
}

/// The priority of section `section` of chunk `(x, y)`, if it is in view.
pub fn section_in(aabb: AABB, inner_aabb: AABB, x: usize, y: usize, section: usize) -> (r: Option<
    Priority,
>)
    requires
        section_rect_fits(x, y, section),
    ensures
        r == spec_section_in(aabb, inner_aabb, x, y, section),
{
    let sx = (section % COLS) * WIDTH + x * 512;
    let sy = (section / COLS) * WIDTH + y * 512;
    let rect = AABB {
        top_left: Vec2 { x: sx, y: sy },
        bottom_right: Vec2 { x: sx + WIDTH, y: sy + WIDTH },
    };
    if aabb.intersects(rect) {
        if aabb.contains(rect) {
            if inner_aabb.intersects(rect) {
                Some(Priority::High)
            } else {
                Some(Priority::Medium)
            }
        } else {
            Some(Priority::Low)
        }
    } else {
        None
    }
}

/// The cell `(x, y)` of a chunk that is the `i`-th cell of section
/// `section`, counting row by row.
pub open spec fn section_cell_pos(section: int, i: int) -> (int, int) {
    ((section % 16) * 32 + i % 32, (section / 16) * 32 + i / 32)
}

/// The cell `(px, py)` lies in box `a`.
pub open spec fn box_cell(a: AABB, px: int, py: int) -> bool {
    a.top_left.x <= px < a.bottom_right.x && a.top_left.y <= py < a.bottom_right.y
}

/// The box has at least one cell.
pub open spec fn box_nonempty(a: AABB) -> bool {
    a.top_left.x < a.bottom_right.x && a.top_left.y < a.bottom_right.y
}

/// Boxes that share a cell are the ones that intersect, and a box with a
/// cell lies in another exactly when all its cells do.
proof fn lemma_box_cells(a: AABB, b: AABB)
    requires
        box_nonempty(a),
        box_nonempty(b),
    ensures
        spec_intersects(a, b) <==> exists|px: int, py: int| #[trigger]
            box_cell(a, px, py) && box_cell(b, px, py),
        spec_contains(a, b) <==> forall|px: int, py: int| #[trigger]
            box_cell(b, px, py) ==> box_cell(a, px, py),
{
    if spec_intersects(a, b) {
        let px = if a.top_left.x >= b.top_left.x {
            a.top_left.x as int
        } else {
            b.top_left.x as int
        };
        let py = if a.top_left.y >= b.top_left.y {
            a.top_left.y as int
        } else {
            b.top_left.y as int
        };
        assert(box_cell(a, px, py) && box_cell(b, px, py));
    }
    if !spec_contains(a, b) {
        let lo = box_cell(b, b.top_left.x as int, b.top_left.y as int);
        assert(lo);
        assert(box_cell(b, b.bottom_right.x - 1, b.bottom_right.y - 1));
        if !box_cell(a, b.top_left.x as int, b.top_left.y as int) {
        } else {
            assert(!box_cell(a, b.bottom_right.x - 1, b.bottom_right.y - 1));
        }
    }
}

/// The priority of a section for a camera box and a non-empty centre box:
/// a section sharing no cell with the camera box is not in view; one partly
/// in it is low; one wholly in it is high exactly when it shares a cell with
/// the centre box, and medium otherwise.
pub proof fn lemma_section_priority(aabb: AABB, inner_aabb: AABB, x: usize, y: usize, section: usize)
    requires
        section_rect_fits(x, y, section),
        box_nonempty(aabb),
        box_nonempty(inner_aabb),
    ensures
        ({
            let rect = section_rect(x, y, section);
            let p = spec_section_in(aabb, inner_aabb, x, y, section);
            &&& (forall|px: int, py: int| #[trigger] box_cell(rect, px, py) ==> box_cell(aabb, px, py))
                ==> (p == Some(Priority::High) <==> exists|px: int, py: int| #[trigger]
                box_cell(inner_aabb, px, py) && box_cell(rect, px, py))
            &&& (forall|px: int, py: int| #[trigger] box_cell(rect, px, py) ==> box_cell(aabb, px, py))
                ==> (p == Some(Priority::High) || p == Some(Priority::Medium))
            &&& (forall|px: int, py: int| #[trigger] box_cell(aabb, px, py) ==> !box_cell(rect, px, py))
                ==> p is None
            &&& (exists|px: int, py: int| #[trigger] box_cell(aabb, px, py) && box_cell(rect, px, py))
                && (exists|px: int, py: int| #[trigger] box_cell(rect, px, py) && !box_cell(aabb, px, py))
                ==> p == Some(Priority::Low)
        }),
{
    let rect = section_rect(x, y, section);
    assert(box_nonempty(rect));
    lemma_box_cells(aabb, rect);
    lemma_box_cells(inner_aabb, rect);
    lemma_box_cells(rect, inner_aabb);
    if spec_intersects(inner_aabb, rect) {
        let w = choose|px: int, py: int| #[trigger] box_cell(inner_aabb, px, py) && box_cell(rect, px, py);
    }
}

/// The cells of section `section` of a chunk, row by row.
pub open spec fn section_cells(arr: [[Option<Cell>; 512]; 512], section: int) -> Seq<
    Option<Cell>,
> {
    Seq::new(1024, |i: int| arr@[section_cell_pos(section, i).1]@[section_cell_pos(section, i).0])
}

/// The sections tile the chunk: every cell `(x, y)` is the cell of exactly
/// one section, `(y / 32) * 16 + x / 32`, at exactly one position,
/// `(y % 32) * 32 + x % 32`.
pub proof fn lemma_sections_tile(x: int, y: int)
    requires
        0 <= x < 512,
        0 <= y < 512,
    ensures
        ({
            let s = (y / 32) * 16 + x / 32;
            let i = (y % 32) * 32 + x % 32;
            &&& 0 <= s < 256
            &&& 0 <= i < 1024
            &&& section_cell_pos(s, i) == (x, y)
        }),
        forall|s: int, i: int|
            0 <= s < 256 && 0 <= i < 1024 && #[trigger] section_cell_pos(s, i) == (x, y) ==> s == (y
                / 32) * 16 + x / 32 && i == (y % 32) * 32 + x % 32,
{
    let s = (y / 32) * 16 + x / 32;
    let i = (y % 32) * 32 + x % 32;
    vstd::arithmetic::div_mod::lemma_fundamental_div_mod_converse(s, 16, y / 32, x / 32);
    vstd::arithmetic::div_mod::lemma_fundamental_div_mod_converse(i, 32, y % 32, x % 32);
    assert forall|s2: int, i2: int|
        0 <= s2 < 256 && 0 <= i2 < 1024 && #[trigger] section_cell_pos(s2, i2) == (x, y) implies s2
            == s && i2 == i by {
        vstd::arithmetic::div_mod::lemma_fundamental_div_mod_converse(x, 32, s2 % 16, i2 % 32);
        vstd::arithmetic::div_mod::lemma_fundamental_div_mod_converse(y, 32, s2 / 16, i2 / 32);
    }
}

/// The cells of section `section` of chunk data `arr`, row by row.
pub fn get_section(section: usize, arr: &[[Option<Cell>; 512]; 512]) -> (r: Vec<Option<Cell>>)
    requires
        section < SECTIONS,
    ensures
        r@ == section_cells(*arr, section as int),
{
    let sx = (section % COLS) * WIDTH;
    let sy = (section / COLS) * WIDTH;
    let mut r: Vec<Option<Cell>> = Vec::with_capacity(AREA);
    let mut dy: usize = 0;
    while dy < WIDTH
        invariant
            sx == (section % 16) * 32,
            sy == (section / 16) * 32,
            section < 256,
            dy <= 32,
            r@.len() == dy * 32,
            forall|i: int|
                0 <= i < r@.len() ==> #[trigger] r@[i] == arr@[sy + i / 32]@[sx + i % 32],
        decreases 32 - dy,
    {
        let row = &arr[sy + dy];
        let mut dx: usize = 0;
        while dx < WIDTH
            invariant
                sx == (section % 16) * 32,
                sy == (section / 16) * 32,
                section < 256,
                dy < 32,
                dx <= 32,
                *row == arr@[sy + dy],
                r@.len() == dy * 32 + dx,
                forall|i: int|
                    0 <= i < r@.len() ==> #[trigger] r@[i] == arr@[sy + i / 32]@[sx + i % 32],
            decreases 32 - dx,
        {
            proof {
                let i = dy * 32 + dx;
                assert(i / 32 == dy && i % 32 == dx) by (nonlinear_arith)
                    requires
                        i == dy * 32 + dx,
                        dx < 32,
                ;
            }
            r.push(row[sx + dx]);
            dx = dx + 1;
        }
        dy = dy + 1;
    }
    proof {
        assert(r@ =~= section_cells(*arr, section as int));
    }
    r
}

/// The sections below `n` that are in view, with their priorities.
pub open spec fn sections_in_view(aabb: AABB, inner_aabb: AABB, x: usize, y: usize, n: nat) -> Seq<
    (u8, Priority),
>
    decreases n,
{
    if n == 0 {
        Seq::empty()
    } else {
        let prev = sections_in_view(aabb, inner_aabb, x, y, (n - 1) as nat);
        match spec_section_in(aabb, inner_aabb, x, y, (n - 1) as usize) {
            Some(p) => prev.push(((n - 1) as u8, p)),
            None => prev,
        }
    }
}

/// The sections of chunk `(x, y)` that are in view, in section order, each
/// with its priority and its cells.
pub fn get_sections(
    aabb: AABB,
    inner_aabb: AABB,
    x: usize,
    y: usize,
    arr: &[[Option<Cell>; 512]; 512],
) -> (r: Vec<(u8, Priority, Vec<Option<Cell>>)>)
    requires
        section_rect_fits(x, y, 255),
    ensures
        r@.len() == sections_in_view(aabb, inner_aabb, x, y, SECTIONS as nat).len(),
        forall|i: int|
            0 <= i < r@.len() ==> {
                let s = sections_in_view(aabb, inner_aabb, x, y, SECTIONS as nat)[i];
                &&& (#[trigger] r@[i]).0 == s.0
                &&& r@[i].1 == s.1
                &&& r@[i].2@ == section_cells(*arr, s.0 as int)
            },
{
    let mut r: Vec<(u8, Priority, Vec<Option<Cell>>)> = Vec::new();
    let mut s: usize = 0;
    while s < SECTIONS
        invariant
            s <= 256,
            section_rect_fits(x, y, 255),
            r@.len() == sections_in_view(aabb, inner_aabb, x, y, s as nat).len(),
            forall|i: int|
                0 <= i < r@.len() ==> {
                    let t = sections_in_view(aabb, inner_aabb, x, y, s as nat)[i];
                    &&& (#[trigger] r@[i]).0 == t.0
                    &&& r@[i].1 == t.1
                    &&& r@[i].2@ == section_cells(*arr, t.0 as int)
                },
        decreases 256 - s,
    {
        proof {
            assert(s % 16 <= 15 && s / 16 <= 15);
        }
        match section_in(aabb, inner_aabb, x, y, s) {
            Some(p) => {
                let cells = get_section(s, arr);
                r.push((s as u8, p, cells));
            },
            None => {},
        }
        s = s + 1;
    }
    r
}


/// The cell `(cx, cy)` of a chunk lies in section `section`.
pub open spec fn in_section(section: int, cx: int, cy: int) -> bool {
    &&& (section % 16) * 32 <= cx < (section % 16) * 32 + 32
    &&& (section / 16) * 32 <= cy < (section / 16) * 32 + 32
}

/// Replaces every cell `(cx, cy)` of section `section` of chunk data `arr`
/// by `f(cx, cy, cell)`, visiting the section row by row.
pub fn get_section_mut_enumerate(
    section: usize,
    arr: &mut [[Option<Cell>; 512]; 512],
    f: impl Fn(usize, usize, Option<Cell>) -> Option<Cell>,
)
    requires
        section < SECTIONS,
        forall|cx: usize, cy: usize, c: Option<Cell>| #[trigger] f.requires((cx, cy, c)),
    ensures
        forall|cy: int, cx: int|
            0 <= cy < 512 && 0 <= cx < 512 ==> if in_section(section as int, cx, cy) {
                f.ensures(
                    (cx as usize, cy as usize, old(arr)@[cy]@[cx]),
                    #[trigger] final(arr)@[cy]@[cx],
                )
            } else {
                final(arr)@[cy]@[cx] == old(arr)@[cy]@[cx]
            },
{
    let sx = (section % COLS) * WIDTH;
    let sy = (section / COLS) * WIDTH;
    let mut dy: usize = 0;
    while dy < WIDTH
        invariant
            sx == (section % 16) * 32,
            sy == (section / 16) * 32,
            section < 256,
            dy <= 32,
            forall|cx: usize, cy: usize, c: Option<Cell>| #[trigger] f.requires((cx, cy, c)),
            forall|cy: int, cx: int|
                0 <= cy < 512 && 0 <= cx < 512 ==> if in_section(section as int, cx, cy) && cy
                    < sy + dy {
                    f.ensures(
                        (cx as usize, cy as usize, old(arr)@[cy]@[cx]),
                        #[trigger] arr@[cy]@[cx],
                    )
                } else {
                    arr@[cy]@[cx] == old(arr)@[cy]@[cx]
                },
        decreases 32 - dy,
    {
        let mut dx: usize = 0;
        while dx < WIDTH
            invariant
                sx == (section % 16) * 32,
                sy == (section / 16) * 32,
                section < 256,
                dy < 32,
                dx <= 32,
                forall|cx: usize, cy: usize, c: Option<Cell>| #[trigger] f.requires((cx, cy, c)),
                forall|cy: int, cx: int|
                    0 <= cy < 512 && 0 <= cx < 512 ==> if in_section(section as int, cx, cy) && (cy
                        < sy + dy || (cy == sy + dy && cx < sx + dx)) {
                        f.ensures(
                            (cx as usize, cy as usize, old(arr)@[cy]@[cx]),
                            #[trigger] arr@[cy]@[cx],
                        )
                    } else {
                        arr@[cy]@[cx] == old(arr)@[cy]@[cx]
                    },
            decreases 32 - dx,
        {
            let x = sx + dx;
            let y = sy + dy;
            let old_cell = arr[y][x];
            let new_cell = f(x, y, old_cell);
            arr[y][x] = new_cell;
            dx = dx + 1;
        }
        dy = dy + 1;
    }
}


/// Identifies a section: chunk coordinates and section number.
#[derive(Clone, Copy, PartialEq, Eq, Structural, Debug, Hash)]
pub struct ChunkPos {
    pub x: usize,
    pub y: usize,
    pub section: u8,
}

/// An encoded section with its position and priority.
pub struct Chunk {
    pub pixel_run: PixelRun,
    pub pos: ChunkPos,
    pub priority: Priority,
}


/// A run of fewer than `u16::MAX` pushes never overflows a run counter.
pub proof fn lemma_pushes_fit_short(count: nat, cur: Pixel, s: Seq<Pixel>)
    requires
        count + s.len() < u16::MAX,
    ensures
        pushes_fit(count, cur, s),
    decreases s.len(),
{
    if s.len() > 0 {
        if s[0] == cur {
            lemma_pushes_fit_short(count + 1, cur, s.drop_first());
        } else {
            lemma_pushes_fit_short(1, s[0], s.drop_first());
        }
    }
}

/// The sync happens on this frame: the world is initialised, some chunk
/// is loaded, and the frame is not one of every sixth.
pub fn sync_world_due(world_init: bool, loaded: usize, min_chunk_x: isize, max_chunk_x: isize, frame_num: usize) -> (r: bool)
    ensures
        r == (world_init && loaded != 0 && min_chunk_x <= max_chunk_x && frame_num % 6 != 0),
{
    !(!world_init || loaded == 0 || min_chunk_x > max_chunk_x || frame_num % 6 == 0)
}

/// The centre of a box: a quarter of its width and height is cut off on
/// every side.
pub open spec fn spec_inner_aabb(a: AABB) -> AABB {
    let w = (a.bottom_right.x - a.top_left.x) / 4;
    let h = (a.bottom_right.y - a.top_left.y) / 4;
    AABB {
        top_left: Vec2 { x: (a.top_left.x + w) as usize, y: (a.top_left.y + h) as usize },
        bottom_right: Vec2 { x: (a.bottom_right.x - w) as usize, y: (a.bottom_right.y - h) as usize },
    }
}

/// The centre of the camera box, where sections get the highest priority.
pub fn inner_aabb(aabb: AABB) -> (r: AABB)
    requires
        aabb.top_left.x <= aabb.bottom_right.x,
        aabb.top_left.y <= aabb.bottom_right.y,
    ensures
        r == spec_inner_aabb(aabb),
        spec_contains(aabb, r),
{
    let w = (aabb.bottom_right.x - aabb.top_left.x) / 4;
    let h = (aabb.bottom_right.y - aabb.top_left.y) / 4;
    AABB {
        top_left: Vec2 { x: aabb.top_left.x + w, y: aabb.top_left.y + h },
        bottom_right: Vec2 { x: aabb.bottom_right.x - w, y: aabb.bottom_right.y - h },
    }
}

/// The cells of the chunk data can all be encoded as pixels.
pub open spec fn chunk_encodable(arr: [[Option<Cell>; 512]; 512]) -> bool {
    forall|y: int, x: int| 0 <= y < 512 && 0 <= x < 512 ==> cell_encodable(#[trigger] arr@[y]@[x])
}

/// The sections of chunk `(x, y)` that are in view, encoded for sending:
/// one chunk per section, in section order, carrying the position, the
/// priority and the canonical runs of the section's pixels.
pub fn encode_sections(
    aabb: AABB,
    inner_aabb: AABB,
    x: usize,
    y: usize,
    arr: &[[Option<Cell>; 512]; 512],
) -> (r: Vec<Chunk>)
    requires
        section_rect_fits(x, y, 255),
        chunk_encodable(*arr),
    ensures
        r@.len() == sections_in_view(aabb, inner_aabb, x, y, SECTIONS as nat).len(),
        forall|i: int|
            0 <= i < r@.len() ==> {
                let s = sections_in_view(aabb, inner_aabb, x, y, SECTIONS as nat)[i];
                &&& (#[trigger] r@[i]).pos == ChunkPos { x, y, section: s.0 }
                &&& r@[i].priority == s.1
                &&& run_pixels(r@[i].pixel_run.vec@) == section_cells(*arr, s.0 as int).map_values(
                    |c: Option<Cell>| pixel_of(c),
                )
                &&& runs_canonical(r@[i].pixel_run.vec@)
            },
{
    let sections = get_sections(aabb, inner_aabb, x, y, arr);
    let ghost view = sections_in_view(aabb, inner_aabb, x, y, SECTIONS as nat);
    let mut r: Vec<Chunk> = Vec::with_capacity(sections.len());
    let mut i: usize = 0;
    while i < sections.len()
        invariant
            i <= sections@.len(),
            sections@.len() == view.len(),
            view == sections_in_view(aabb, inner_aabb, x, y, SECTIONS as nat),
            chunk_encodable(*arr),
            forall|k: int|
                0 <= k < sections@.len() ==> {
                    let t = view[k];
                    &&& (#[trigger] sections@[k]).0 == t.0
                    &&& sections@[k].1 == t.1
                    &&& sections@[k].2@ == section_cells(*arr, t.0 as int)
                },
            r@.len() == i,
            forall|k: int|
                0 <= k < i ==> {
                    let t = view[k];
                    &&& (#[trigger] r@[k]).pos == ChunkPos { x, y, section: t.0 }
                    &&& r@[k].priority == t.1
                    &&& run_pixels(r@[k].pixel_run.vec@) == section_cells(*arr, t.0 as int).map_values(
                        |c: Option<Cell>| pixel_of(c),
                    )
                    &&& runs_canonical(r@[k].pixel_run.vec@)
                },
        decreases sections@.len() - i,
    {
        let (section, priority, cells) = (sections[i].0, sections[i].1, &sections[i].2);
        let mut builder = PixelRunBuilder::default();
        proof {
            let cs = cells@;
            let t = view[i as int];
            assert(cs == section_cells(*arr, t.0 as int));
            assert forall|k: int| 0 <= k < cs.len() implies cell_encodable(#[trigger] cs[k]) by {
                let sx = (t.0 % 16) * 32;
                let sy = (t.0 / 16) * 32;
                assert(0 <= t.0 < 256);
                assert(0 <= sy + k / 32 < 512 && 0 <= sx + k % 32 < 512);
                assert(cs[k] == arr@[sy + k / 32]@[sx + k % 32]);
            }
            lemma_pushes_fit_short(0, Pixel { id: 0 }, cs.map_values(|c: Option<Cell>| pixel_of(c)));
        }
        builder.extend(cells.as_slice());
        let run = builder.build();
        proof {
            assert(Seq::<Pixel>::empty() + cells@.map_values(|c: Option<Cell>| pixel_of(c))
                =~= cells@.map_values(|c: Option<Cell>| pixel_of(c)));
        }
        r.push(Chunk { pixel_run: run, pos: ChunkPos { x, y, section }, priority });
        i = i + 1;
    }
    r
}

} // verus!
