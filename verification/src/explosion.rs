//! The integer decisions of explosions: how many rays a blast casts, how a
//! ray spends its energy on the cells it crosses, and which neighbour cell a
//! diagonal step also clears.
use crate::circumference::{
    circumference_cells, circumference_fits, circumference_remaining,
    lemma_circumference_next_ok, lemma_circumference_step_on_circle, on_circle, Circumference,
};
use crate::line::{LineIter, StepCase};
use crate::octant::{octant, octant_points};
use vstd::prelude::*;

verus! {

/// What an explosion reads of a game cell.
#[derive(Clone, Copy, PartialEq, Eq, Structural, Debug)]
pub struct CellInfo {
    /// The material is a rigid solid, which rays pass through untouched.
    pub solid: bool,
    /// Durability of the material.
    pub durability: usize,
    /// Hit points of the cell.
    pub hp: usize,
}

/// What an explosion configuration says about destroying cells.
#[derive(Clone, Copy, PartialEq, Eq, Structural, Debug)]
pub struct BlastRules {
    pub hole_enabled: bool,
    pub max_durability_to_destroy: usize,
}

/// The cell may be destroyed under these rules.
pub open spec fn destroyable(rules: BlastRules, c: CellInfo) -> bool {
    rules.hole_enabled && c.durability <= rules.max_durability_to_destroy
}

/// The number of rays cast by a blast of radius `r`: one per 2 cells of
/// circumference (`6.3 r / 2`), rounded down to a multiple of 8, but at least
/// 8 per 16 cells of radius.
pub open spec fn spec_explosion_rays(r: int) -> int {
    let a = 8 * ((r + 15) / 16);
    let b = (r * 63 / 10 / 16) / 8 * 8;
    if a >= b {
        a
    } else {
        b
    }
}

/// The number of rays cast by a blast of radius `r`.
pub fn explosion_rays(r: usize) -> (n: u16)
    requires
        r * 63 <= usize::MAX,
        spec_explosion_rays(r as int) <= u16::MAX,
    ensures
        n == spec_explosion_rays(r as int),
{
    let a = 8 * ((r + 15) / 16);
    let b = (r * 63) / 10 / 16;
    let b8 = b & !7usize;
    proof {
        assert(b & !7usize == b / 8 * 8) by (bit_vector);
    }
    let n = if a >= b8 {
        a
    } else {
        b8
    };
    n as u16
}

/// What a ray does at a cell of a loaded chunk.
#[derive(Clone, Copy, PartialEq, Eq, Structural, Debug)]
pub enum RayStep {
    /// The ray goes on with this energy.
    Pass(usize),
    /// The ray stops at this cell.
    Stop,
}

/// A ray with `energy` left reaches `cell`: empty and solid cells cost
/// nothing, a cell it may not destroy stops it, and any other cell costs
/// its hit points, or stops it when the energy does not suffice.
pub open spec fn spec_ray_cell_step(energy: usize, cell: Option<CellInfo>, rules: BlastRules) -> RayStep {
    match cell {
        None => RayStep::Pass(energy),
        Some(c) => if c.solid {
            RayStep::Pass(energy)
        } else if !destroyable(rules, c) || energy < c.hp {
            RayStep::Stop
        } else {
            RayStep::Pass((energy - c.hp) as usize)
        },
    }
}

/// What a probing ray does at a cell of a loaded chunk.
pub fn ray_cell_step(energy: usize, cell: Option<CellInfo>, rules: BlastRules) -> (s: RayStep)
    ensures
        s == spec_ray_cell_step(energy, cell, rules),
        s matches RayStep::Pass(e) ==> e <= energy,
{
    match cell {
        None => RayStep::Pass(energy),
        Some(c) => {
            if c.solid {
                RayStep::Pass(energy)
            } else if !rules.hole_enabled || c.durability > rules.max_durability_to_destroy {
                RayStep::Stop
            } else {
                match energy.checked_sub(c.hp) {
                    Some(e) => RayStep::Pass(e),
                    None => RayStep::Stop,
                }
            }
        },
    }
}

/// What a blasting line does at a cell of a loaded chunk.
#[derive(Clone, Copy, PartialEq, Eq, Structural, Debug)]
pub enum LineCellAction {
    /// Leave the cell and go on to the next one, without clearing the
    /// diagonal neighbour.
    Skip,
    /// Stop the line.
    Stop,
    /// The cell was blasted before: pay its recorded hit points and go on
    /// with this energy.
    Recorded(usize),
    /// Clear the cell, record `hp` for it and go on with `energy`; `destroy`
    /// tells whether a cell was there to be freed.
    Clear { energy: usize, hp: usize, destroy: bool },
}

/// A blasting line with `energy` left reaches a cell: a recorded cell costs
/// its recorded hit points; otherwise solid cells are skipped, cells it may
/// not destroy stop it, a cell costs its hit points (or stops it when the
/// energy does not suffice) and is cleared, and an empty cell is cleared
/// for free.
pub open spec fn spec_line_cell_step(
    energy: usize,
    recorded: Option<usize>,
    cell: Option<CellInfo>,
    rules: BlastRules,
) -> LineCellAction {
    match recorded {
        Some(hp) => if energy < hp {
            LineCellAction::Stop
        } else {
            LineCellAction::Recorded((energy - hp) as usize)
        },
        None => match cell {
            None => LineCellAction::Clear { energy, hp: 0, destroy: false },
            Some(c) => if c.solid {
                LineCellAction::Skip
            } else if !destroyable(rules, c) || energy < c.hp {
                LineCellAction::Stop
            } else {
                LineCellAction::Clear { energy: (energy - c.hp) as usize, hp: c.hp, destroy: true }
            },
        },
    }
}

/// What a blasting line does at a cell of a loaded chunk, given the hit
/// points recorded for the cell by earlier lines of the same blast.
pub fn line_cell_step(
    energy: usize,
    recorded: Option<usize>,
    cell: Option<CellInfo>,
    rules: BlastRules,
) -> (a: LineCellAction)
    ensures
        a == spec_line_cell_step(energy, recorded, cell, rules),
        a matches LineCellAction::Recorded(e) ==> e <= energy,
        a matches LineCellAction::Clear { energy: e, .. } ==> e <= energy,
{
    match recorded {
        Some(hp) => match energy.checked_sub(hp) {
            Some(e) => LineCellAction::Recorded(e),
            None => LineCellAction::Stop,
        },
        None => match cell {
            None => LineCellAction::Clear { energy, hp: 0, destroy: false },
            Some(c) => {
                if c.solid {
                    LineCellAction::Skip
                } else if !rules.hole_enabled || c.durability > rules.max_durability_to_destroy {
                    LineCellAction::Stop
                } else {
                    match energy.checked_sub(c.hp) {
                        Some(e) => LineCellAction::Clear { energy: e, hp: c.hp, destroy: true },
                        None => LineCellAction::Stop,
                    }
                }
            },
        },
    }
}

/// What a blasting line does at the diagonal neighbour of a cell it
/// reached with a diagonal step.
#[derive(Clone, Copy, PartialEq, Eq, Structural, Debug)]
pub enum NeighbourAction {
    /// Leave the neighbour alone.
    Skip,
    /// Clear the neighbour and record `hp` for it; `destroy` tells whether a
    /// cell was there to be freed.
    Clear { hp: usize, destroy: bool },
}

/// The neighbour is cleared for free, unless it was recorded before or is a
/// cell the line may not destroy.
pub open spec fn spec_neighbour_step(recorded: bool, cell: Option<CellInfo>, rules: BlastRules) -> NeighbourAction {
    if recorded {
        NeighbourAction::Skip
    } else {
        match cell {
            None => NeighbourAction::Clear { hp: 0, destroy: false },
            Some(c) => if !destroyable(rules, c) || c.solid {
                NeighbourAction::Skip
            } else {
                NeighbourAction::Clear { hp: c.hp, destroy: true }
            },
        }
    }
}

/// What a blasting line does at the diagonal neighbour of a cell.
pub fn neighbour_step(recorded: bool, cell: Option<CellInfo>, rules: BlastRules) -> (a: NeighbourAction)
    ensures
        a == spec_neighbour_step(recorded, cell, rules),
{
    if recorded {
        return NeighbourAction::Skip;
    }
    match cell {
        None => NeighbourAction::Clear { hp: 0, destroy: false },
        Some(c) => {
            if !rules.hole_enabled || c.durability > rules.max_durability_to_destroy || c.solid {
                NeighbourAction::Skip
            } else {
                NeighbourAction::Clear { hp: c.hp, destroy: true }
            }
        },
    }
}

/// The neighbour that closes the corner of a diagonal step to `(x, y)`:
/// one cell back along the line's major axis.
pub open spec fn spec_diagonal_neighbour(x: usize, y: usize, line: LineIter) -> (int, int) {
    if line.ady() > line.adx() {
        if line.dy < 0 {
            (x as int, y + 1)
        } else {
            (x as int, y - 1)
        }
    } else {
        if line.dx < 0 {
            (x + 1, y as int)
        } else {
            (x - 1, y as int)
        }
    }
}

/// The neighbour that closes the corner of a diagonal step to `(x, y)`.
pub fn diagonal_neighbour(x: usize, y: usize, line: &LineIter) -> (p: (usize, usize))
    requires
        line.dx != isize::MIN,
        line.dy != isize::MIN,
        0 <= spec_diagonal_neighbour(x, y, *line).0 <= usize::MAX,
        0 <= spec_diagonal_neighbour(x, y, *line).1 <= usize::MAX,
    ensures
        p.0 == spec_diagonal_neighbour(x, y, *line).0,
        p.1 == spec_diagonal_neighbour(x, y, *line).1,
{
    let adx = if line.dx < 0 {
        -line.dx
    } else {
        line.dx
    };
    let ady = if line.dy < 0 {
        -line.dy
    } else {
        line.dy
    };
    if ady > adx {
        if line.dy < 0 {
            (x, y + 1)
        } else {
            (x, y - 1)
        }
    } else {
        if line.dx < 0 {
            (x + 1, y)
        } else {
            (x - 1, y)
        }
    }
}

/// What a blasting line does at a cell of a chunk that is not loaded.
#[derive(Clone, Copy, PartialEq, Eq, Structural, Debug)]
pub enum UnloadedAction {
    /// Go on without spending energy.
    Skip,
    /// Go on with this energy.
    Pay(usize),
    /// Stop the line.
    Stop,
    /// First cell in this chunk: keep the rest of the line for when the
    /// chunk is loaded, and go on.
    Defer,
}

/// In a chunk that is not loaded the line is kept for later at its first
/// cell; further cells of the same chunk cost the average hit points paid
/// per cell so far, if anything was paid at all.
pub open spec fn spec_unloaded_step(
    same_chunk: bool,
    energy_orig: usize,
    energy: usize,
    cells_done: usize,
) -> UnloadedAction {
    if !same_chunk {
        UnloadedAction::Defer
    } else if energy_orig == energy {
        UnloadedAction::Skip
    } else {
        let hp = (energy_orig - energy) / (cells_done as int);
        if energy < hp {
            UnloadedAction::Stop
        } else {
            UnloadedAction::Pay((energy - hp) as usize)
        }
    }
}

/// What a blasting line does at a cell of a chunk that is not loaded;
/// `same_chunk` tells whether the previous unloaded cell was in the same
/// chunk, and `cells_done` counts the cells walked so far.
pub fn unloaded_step(same_chunk: bool, energy_orig: usize, energy: usize, cells_done: usize) -> (a:
    UnloadedAction)
    requires
        energy <= energy_orig,
        same_chunk && energy != energy_orig ==> cells_done > 0,
    ensures
        a == spec_unloaded_step(same_chunk, energy_orig, energy, cells_done),
        a matches UnloadedAction::Pay(e) ==> e <= energy,
{
    if !same_chunk {
        UnloadedAction::Defer
    } else if energy_orig == energy {
        UnloadedAction::Skip
    } else {
        let hp = (energy_orig - energy) / cells_done;
        match energy.checked_sub(hp) {
            Some(e) => UnloadedAction::Pay(e),
            None => UnloadedAction::Stop,
        }
    }
}

/// The chance in percent that a cleared cell is refilled: none without a
/// material to create.
pub fn create_chance(cell_create_id: usize, create_cell_probability: u32) -> (c: u32)
    ensures
        c == if cell_create_id == 0 {
            0
        } else {
            create_cell_probability
        },
{
    if cell_create_id == 0 {
        0
    } else {
        create_cell_probability
    }
}

/// The slot of cell `(px, py)` of the `chunk_index`-th loaded chunk in the
/// table of hit points paid during a blast.
pub fn hp_index(chunk_index: usize, px: usize, py: usize) -> (i: usize)
    requires
        px < 512,
        py < 512,
        (chunk_index + 1) * 512 * 512 <= usize::MAX,
    ensures
        i == chunk_index * 512 * 512 + 512 * py + px,
        i < (chunk_index + 1) * 512 * 512,
{
    proof {
        assert(512 * py + px < 512 * 512) by (nonlinear_arith)
            requires
                px < 512,
                py < 512,
        ;
        assert(chunk_index * 512 * 512 + 512 * 512 == (chunk_index + 1) * 512 * 512)
            by (nonlinear_arith);
        assert(512 * 512 * chunk_index == chunk_index * 512 * 512) by (nonlinear_arith);
    }
    let base = 512 * 512 * chunk_index;
    base + 512 * py + px
}

/// The rest of a blasting line, kept until its chunk is loaded: where the
/// line goes on, the configuration of its blast and the energy it has left.
#[derive(Clone, Debug)]
pub struct LineContinue<C> {
    pub line: LineIter,
    pub config: C,
    pub energy: usize,
}

/// The state of one blasting line as it walks its cells: the energy it
/// started with, the energy left, the cells walked so far and the chunk of
/// the last unloaded cell where its rest was kept for later.
#[derive(Clone, Copy, PartialEq, Eq, Structural, Debug)]
pub struct LineWalk {
    pub energy_orig: usize,
    pub energy: usize,
    pub cells_done: usize,
    pub last_cx: usize,
    pub last_cy: usize,
}

/// The energy never exceeds the starting energy, and some cell has been
/// walked once any energy was spent.
pub open spec fn walk_wf(w: LineWalk) -> bool {
    &&& w.energy <= w.energy_orig
    &&& w.energy < w.energy_orig ==> w.cells_done > 0
}

/// A line about to walk its first cell with `energy`.
pub fn walk_start(energy: usize) -> (w: LineWalk)
    ensures
        w == (LineWalk { energy_orig: energy, energy, cells_done: 0, last_cx: 0, last_cy: 0 }),
        walk_wf(w),
{
    LineWalk { energy_orig: energy, energy, cells_done: 0, last_cx: 0, last_cy: 0 }
}

/// The walk after an unloaded cell of chunk `(cx, cy)` and what the line
/// does there.
pub open spec fn spec_walk_unloaded(w: LineWalk, cx: usize, cy: usize) -> (LineWalk, UnloadedAction) {
    let a = spec_unloaded_step(w.last_cx == cx && w.last_cy == cy, w.energy_orig, w.energy, w.cells_done);
    let n = LineWalk { cells_done: (w.cells_done + 1) as usize, ..w };
    match a {
        UnloadedAction::Pay(e) => (LineWalk { energy: e, ..n }, a),
        UnloadedAction::Defer => (LineWalk { last_cx: cx, last_cy: cy, ..n }, a),
        UnloadedAction::Stop => (w, a),
        UnloadedAction::Skip => (n, a),
    }
}

/// The walk after a cell of a loaded chunk and what the line does there.
pub open spec fn spec_walk_loaded(
    w: LineWalk,
    recorded: Option<usize>,
    cell: Option<CellInfo>,
    rules: BlastRules,
) -> (LineWalk, LineCellAction) {
    let n = LineWalk { cells_done: (w.cells_done + 1) as usize, ..w };
    let a = spec_line_cell_step(w.energy, recorded, cell, rules);
    match a {
        LineCellAction::Recorded(e) => (LineWalk { energy: e, ..n }, a),
        LineCellAction::Clear { energy: e, .. } => (LineWalk { energy: e, ..n }, a),
        _ => (n, a),
    }
}

impl LineWalk {
    /// The line reaches a cell of the unloaded chunk `(cx, cy)`: its rest is
    /// kept for later at the first such cell of a chunk, and it pays the
    /// average cost so far per cell at the others.
    pub fn unloaded(&mut self, cx: usize, cy: usize) -> (a: UnloadedAction)
        requires
            walk_wf(*old(self)),
            old(self).cells_done < usize::MAX,
        ensures
            (*final(self), a) == spec_walk_unloaded(*old(self), cx, cy),
            walk_wf(*final(self)),
            final(self).energy <= old(self).energy,
            final(self).energy_orig == old(self).energy_orig,
    {
        let same_chunk = self.last_cx == cx && self.last_cy == cy;
        let a = unloaded_step(same_chunk, self.energy_orig, self.energy, self.cells_done);
        match a {
            UnloadedAction::Stop => {
                return a;
            },
            UnloadedAction::Pay(e) => {
                self.energy = e;
            },
            UnloadedAction::Defer => {
                self.last_cx = cx;
                self.last_cy = cy;
            },
            UnloadedAction::Skip => {},
        }
        self.cells_done = self.cells_done + 1;
        a
    }

    /// The line reaches a cell of a loaded chunk, for which earlier lines of
    /// the blast recorded `recorded` hit points, if any.
    pub fn loaded(&mut self, recorded: Option<usize>, cell: Option<CellInfo>, rules: BlastRules) -> (a:
        LineCellAction)
        requires
            walk_wf(*old(self)),
            old(self).cells_done < usize::MAX,
        ensures
            (*final(self), a) == spec_walk_loaded(*old(self), recorded, cell, rules),
            walk_wf(*final(self)),
            final(self).energy <= old(self).energy,
            final(self).energy_orig == old(self).energy_orig,
    {
        self.cells_done = self.cells_done + 1;
        let a = line_cell_step(self.energy, recorded, cell, rules);
        match a {
            LineCellAction::Recorded(e) => {
                self.energy = e;
            },
            LineCellAction::Clear { energy, .. } => {
                self.energy = energy;
            },
            _ => {},
        }
        a
    }
}

/// After a cell of a loaded chunk, the diagonal neighbour is looked at only
/// when the line reached the cell with a diagonal step and went on there.
pub fn clears_neighbour(case: StepCase, a: LineCellAction) -> (r: bool)
    ensures
        r == (case == StepCase::Both && !(a is Skip) && !(a is Stop)),
{
    match case {
        StepCase::Both => match a {
            LineCellAction::Skip => false,
            LineCellAction::Stop => false,
            _ => true,
        },
        _ => false,
    }
}

/// A line's energy never rises: over any run of cells, walked one after
/// the other, the energy left only goes down and the walk stays
/// well-formed.
pub proof fn lemma_walk_energy_never_rises(
    w: LineWalk,
    events: Seq<Option<(Option<usize>, Option<CellInfo>, BlastRules)>>,
    chunks: Seq<(usize, usize)>,
)
    requires
        walk_wf(w),
        events.len() == chunks.len(),
        w.cells_done + events.len() <= usize::MAX,
    ensures
        walk_wf(walk_run(w, events, chunks)),
        walk_run(w, events, chunks).energy <= w.energy,
        walk_run(w, events, chunks).energy_orig == w.energy_orig,
    decreases events.len(),
{
    if events.len() > 0 {
        let n = walk_one(w, events[0], chunks[0]);
        lemma_walk_energy_never_rises(n, events.drop_first(), chunks.drop_first());
    }
}

/// The walk after one cell: a loaded one, given its recorded hit points,
/// cell and rules, or an unloaded one of the given chunk.
pub open spec fn walk_one(
    w: LineWalk,
    e: Option<(Option<usize>, Option<CellInfo>, BlastRules)>,
    chunk: (usize, usize),
) -> LineWalk {
    match e {
        Some((recorded, cell, rules)) => spec_walk_loaded(w, recorded, cell, rules).0,
        None => spec_walk_unloaded(w, chunk.0, chunk.1).0,
    }
}

/// The walk after a run of cells, one after the other.
pub open spec fn walk_run(
    w: LineWalk,
    events: Seq<Option<(Option<usize>, Option<CellInfo>, BlastRules)>>,
    chunks: Seq<(usize, usize)>,
) -> LineWalk
    decreases events.len(),
{
    if events.len() == 0 || chunks.len() == 0 {
        w
    } else {
        walk_run(walk_one(w, events[0], chunks[0]), events.drop_first(), chunks.drop_first())
    }
}

/// The end points of the lines of a blast: for each cell `(a, b)` of the
/// walk in `cs`, in order, its eight reflections around `(x0, y0)`.
pub open spec fn blast_targets(x0: usize, y0: usize, cs: Seq<(usize, usize)>) -> Seq<(usize, usize)>
    decreases cs.len(),
{
    if cs.len() == 0 {
        Seq::empty()
    } else {
        octant_points(x0, y0, cs[0].0, cs[0].1).map_values(|p: (usize, usize, usize)| (p.1, p.2))
            + blast_targets(x0, y0, cs.drop_first())
    }
}

/// A radius at most half the coordinate range lets the whole walk run.
proof fn lemma_half_range_fits(r: usize)
    requires
        2 * r <= usize::MAX,
    ensures
        circumference_fits(r as int),
{
    let m = usize::MAX as int;
    assert(m >= 0xffff_ffff);
    assert(2 * r * r + 2 * r < m * m - 2 * m) by (nonlinear_arith)
        requires
            2 * r <= m,
            r >= 0,
            m >= 0xffff_ffff,
    ;
}

/// The end points of the lines a blast of radius `r` around `(x0, y0)`
/// casts: each cell of the walk of radius `r`, reflected into all eight
/// octants.
pub fn explosion_targets(x0: usize, y0: usize, r: usize) -> (t: Vec<(usize, usize)>)
    requires
        r >= 1,
        r <= x0,
        r <= y0,
        x0 + r <= usize::MAX,
        y0 + r <= usize::MAX,
    ensures
        t@ == blast_targets(x0, y0, circumference_cells((r, 0usize, r / 16))),
{
    proof {
        lemma_half_range_fits(r);
    }
    let mut c = Circumference::new(r);
    let ghost v0 = c@;
    let mut t: Vec<(usize, usize)> = Vec::new();
    proof {
        assert(t@ + blast_targets(x0, y0, circumference_cells(c@)) =~= blast_targets(
            x0,
            y0,
            circumference_cells(v0),
        ));
    }
    loop
        invariant
            v0 == (r, 0usize, r / 16),
            r <= x0,
            r <= y0,
            x0 + r <= usize::MAX,
            y0 + r <= usize::MAX,
            r >= 1,
            circumference_fits(r as int),
            on_circle(c@, r as int),
            c@.0 <= r,
            t@ + blast_targets(x0, y0, circumference_cells(c@)) == blast_targets(
                x0,
                y0,
                circumference_cells(v0),
            ),
        decreases circumference_remaining(c@),
    {
        let ghost before = c@;
        proof {
            lemma_circumference_next_ok(c@, r as int);
            lemma_circumference_step_on_circle(c@, r as int);
        }
        match c.next() {
            None => {
                proof {
                    assert(circumference_cells(before) =~= Seq::<(usize, usize)>::empty());
                    assert(t@ =~= t@ + blast_targets(x0, y0, circumference_cells(before)));
                }
                return t;
            },
            Some((a, b)) => {
                let ghost rest = circumference_cells(c@);
                proof {
                    assert(circumference_cells(before) == seq![(a, b)] + rest);
                    assert(circumference_cells(before).drop_first() =~= rest);
                }
                let pts = octant(x0, y0, a, b);
                let ghost t0 = t@;
                let mut i: usize = 0;
                while i < 8
                    invariant
                        i <= 8,
                        pts@ == octant_points(x0, y0, a, b),
                        t@ == t0 + pts@.subrange(0, i as int).map_values(
                            |p: (usize, usize, usize)| (p.1, p.2),
                        ),
                    decreases 8 - i,
                {
                    t.push((pts[i].1, pts[i].2));
                    proof {
                        assert(pts@.subrange(0, i + 1).map_values(
                            |p: (usize, usize, usize)| (p.1, p.2),
                        ) =~= pts@.subrange(0, i as int).map_values(
                            |p: (usize, usize, usize)| (p.1, p.2),
                        ).push((pts@[i as int].1, pts@[i as int].2)));
                    }
                    i = i + 1;
                }
                proof {
                    assert(pts@.subrange(0, 8) =~= pts@);
                    assert(t@ + blast_targets(x0, y0, rest) =~= t0 + blast_targets(
                        x0,
                        y0,
                        circumference_cells(before),
                    ));
                }
            },
        }
    }
}

/// What a blasting line may do at a cell, whatever the implementation:
/// without holes, or at a cell too durable, a non-solid cell stops it; a
/// cell is only destroyed when holes are on and it is not too durable, and
/// clearing it costs exactly its hit points; a recorded cell costs exactly
/// its recorded hit points; only solid cells are skipped; and whenever the
/// energy suffices the line goes on.
pub proof fn lemma_line_cell_rules(
    energy: usize,
    recorded: Option<usize>,
    cell: Option<CellInfo>,
    rules: BlastRules,
)
    ensures
        ({
            let a = spec_line_cell_step(energy, recorded, cell, rules);
            let c = cell.unwrap();
            let h = recorded.unwrap();
            &&& recorded is None && cell is Some && !c.solid && !rules.hole_enabled ==> a is Stop
            &&& recorded is None && cell is Some && !c.solid && c.durability
                > rules.max_durability_to_destroy ==> a is Stop
            &&& a is Clear ==> {
                &&& recorded is None
                &&& a->Clear_energy + a->Clear_hp == energy
                &&& a->Clear_destroy <==> cell is Some
                &&& cell is None ==> a->Clear_hp == 0
                &&& cell is Some ==> !c.solid && rules.hole_enabled && c.durability
                    <= rules.max_durability_to_destroy && a->Clear_hp == c.hp
            }
            &&& a is Recorded ==> recorded is Some && a->Recorded_0 + h == energy
            &&& a is Skip ==> recorded is None && cell is Some && c.solid
            &&& recorded is Some && h <= energy ==> a == LineCellAction::Recorded(
                (energy - h) as usize,
            )
            &&& recorded is None && cell is Some && !c.solid && rules.hole_enabled && c.durability
                <= rules.max_durability_to_destroy && c.hp <= energy ==> a == (LineCellAction::Clear {
                energy: (energy - c.hp) as usize,
                hp: c.hp,
                destroy: true,
            })
        }),
{
}

/// What a probing ray may do at a cell: without holes, or at a cell too
/// durable, a non-solid cell stops it; empty and solid cells cost nothing;
/// any other cell costs exactly its hit points when they can be paid.
pub proof fn lemma_ray_cell_rules(energy: usize, cell: Option<CellInfo>, rules: BlastRules)
    ensures
        ({
            let s = spec_ray_cell_step(energy, cell, rules);
            let c = cell.unwrap();
            &&& cell is Some && !c.solid && (!rules.hole_enabled || c.durability
                > rules.max_durability_to_destroy) ==> s is Stop
            &&& (cell is None || c.solid) ==> s == RayStep::Pass(energy)
            &&& cell is Some && !c.solid && rules.hole_enabled && c.durability
                <= rules.max_durability_to_destroy ==> (s is Stop <==> energy < c.hp)
            &&& s is Pass && cell is Some && !c.solid ==> s->0 + c.hp == energy
        }),
{
}

/// What a line does at the neighbour closing a diagonal: without holes,
/// or at a cell too durable or solid, or at a cell recorded before, it
/// leaves the neighbour alone; otherwise it clears it for free, destroying
/// the cell there if there is one.
pub proof fn lemma_neighbour_rules(recorded: bool, cell: Option<CellInfo>, rules: BlastRules)
    ensures
        ({
            let a = spec_neighbour_step(recorded, cell, rules);
            &&& recorded ==> a is Skip
            &&& cell is Some && (!rules.hole_enabled || cell.unwrap().solid
                || cell.unwrap().durability > rules.max_durability_to_destroy) ==> a is Skip
            &&& !recorded && cell is None ==> a == (NeighbourAction::Clear { hp: 0, destroy: false })
            &&& !recorded && cell is Some && rules.hole_enabled && !cell.unwrap().solid
                && cell.unwrap().durability <= rules.max_durability_to_destroy ==> a
                == (NeighbourAction::Clear { hp: cell.unwrap().hp, destroy: true })
        }),
{
}

/// The number of rays of a blast comes in groups of eight, gives at least
/// eight rays per sixteen cells of radius, and covers the circumference
/// (about `6.3 r` cells) with one ray per two cells, up to one group of
/// eight; it takes no more rays than either rule asks for.
pub proof fn lemma_explosion_rays(r: int)
    requires
        r >= 0,
    ensures
        spec_explosion_rays(r) % 8 == 0,
        2 * spec_explosion_rays(r) >= r,
        160 * (spec_explosion_rays(r) + 8) > 63 * r,
        spec_explosion_rays(r) == 8 * ((r + 15) / 16) || 160 * spec_explosion_rays(r) <= 63 * r,
{
    let n = spec_explosion_rays(r);
    let a = 8 * ((r + 15) / 16);
    let q = r * 63 / 10 / 16;
    let b = q / 8 * 8;
    assert(16 * ((r + 15) / 16) >= r);
    assert(160 * q <= 63 * r) by {
        assert(10 * (r * 63 / 10) <= r * 63);
        assert(16 * q <= r * 63 / 10);
    }
    assert(160 * (q + 1) > 63 * r) by {
        assert(10 * (r * 63 / 10 + 1) > r * 63);
        assert(16 * (q + 1) > r * 63 / 10);
    }
    assert(b + 8 > q);
}

/// At an unloaded cell, a line keeps its rest for later on entering a new
/// chunk; further cells of that chunk cost nothing while nothing has been
/// paid, and otherwise the average cost per cell walked so far, rounded
/// down: the line stops exactly when it cannot pay that.
pub proof fn lemma_unloaded_rules(same_chunk: bool, energy_orig: usize, energy: usize, cells_done: usize)
    requires
        energy <= energy_orig,
        same_chunk && energy != energy_orig ==> cells_done > 0,
    ensures
        ({
            let a = spec_unloaded_step(same_chunk, energy_orig, energy, cells_done);
            &&& a is Defer <==> !same_chunk
            &&& a is Skip <==> same_chunk && energy == energy_orig
            &&& a is Pay ==> {
                let paid = energy - a->Pay_0;
                &&& a->Pay_0 <= energy
                &&& paid * cells_done <= energy_orig - energy
                &&& energy_orig - energy < (paid + 1) * cells_done
            }
            &&& a is Stop ==> same_chunk && (energy + 1) * cells_done <= energy_orig - energy
        }),
{
    let a = spec_unloaded_step(same_chunk, energy_orig, energy, cells_done);
    if same_chunk && energy != energy_orig {
        let d = (energy_orig - energy) as int;
        let c = cells_done as int;
        let hp = d / c;
        assert(hp * c <= d && d < (hp + 1) * c) by (nonlinear_arith)
            requires
                c > 0,
                d >= 0,
                hp == d / c,
        ;
        if energy < hp {
            assert((energy + 1) * c <= hp * c) by (nonlinear_arith)
                requires
                    energy + 1 <= hp,
                    c > 0,
            ;
        }
    }
}

/// The neighbour closing a diagonal step lies one cell back from the
/// reached cell along the line's major axis, the other coordinate unchanged.
pub proof fn lemma_diagonal_neighbour_back(x: usize, y: usize, line: LineIter)
    ensures
        ({
            let (nx, ny) = spec_diagonal_neighbour(x, y, line);
            &&& line.ady() > line.adx() ==> nx == x && ny == y - step_sign(line.dy as int)
            &&& line.ady() <= line.adx() ==> ny == y && nx == x - step_sign(line.dx as int)
        }),
{
}

/// The direction a line steps along an extent: down for a negative one,
/// up otherwise.
pub open spec fn step_sign(d: int) -> int {
    if d < 0 {
        -1
    } else {
        1
    }
}

/// Distinct cells of distinct or equal loaded chunks get distinct slots in
/// the table of paid hit points, and every slot of chunk `c` lies in that
/// chunk's block of `512 * 512` slots.
pub proof fn lemma_hp_index_distinct(c1: int, x1: int, y1: int, c2: int, x2: int, y2: int)
    requires
        0 <= c1,
        0 <= c2,
        0 <= x1 < 512,
        0 <= y1 < 512,
        0 <= x2 < 512,
        0 <= y2 < 512,
        c1 * 512 * 512 + 512 * y1 + x1 == c2 * 512 * 512 + 512 * y2 + x2,
    ensures
        c1 == c2 && x1 == x2 && y1 == y2,
{
    let i = c1 * 512 * 512 + 512 * y1 + x1;
    assert(c1 * 512 * 512 + 512 * y1 + x1 == (c1 * 512 + y1) * 512 + x1) by (nonlinear_arith);
    assert(c2 * 512 * 512 + 512 * y2 + x2 == (c2 * 512 + y2) * 512 + x2) by (nonlinear_arith);
    vstd::arithmetic::div_mod::lemma_fundamental_div_mod_converse(i, 512, c1 * 512 + y1, x1);
    vstd::arithmetic::div_mod::lemma_fundamental_div_mod_converse(i, 512, c2 * 512 + y2, x2);
    vstd::arithmetic::div_mod::lemma_fundamental_div_mod_converse(c1 * 512 + y1, 512, c1, y1);
    vstd::arithmetic::div_mod::lemma_fundamental_div_mod_converse(c2 * 512 + y2, 512, c2, y2);
}

/// A blast casts eight lines per cell of its walk: the `i`-th line for the
/// `k`-th cell ends at the `i`-th reflection of that cell.
pub proof fn lemma_blast_targets(x0: usize, y0: usize, cs: Seq<(usize, usize)>)
    ensures
        blast_targets(x0, y0, cs).len() == 8 * cs.len(),
        forall|k: int, i: int|
            0 <= k < cs.len() && 0 <= i < 8 ==> #[trigger] blast_targets(x0, y0, cs)[8 * k + i] == (
                octant_points(x0, y0, cs[k].0, cs[k].1)[i].1,
                octant_points(x0, y0, cs[k].0, cs[k].1)[i].2,
            ),
    decreases cs.len(),
{
    if cs.len() > 0 {
        let rest = cs.drop_first();
        lemma_blast_targets(x0, y0, rest);
        let head = octant_points(x0, y0, cs[0].0, cs[0].1).map_values(
            |p: (usize, usize, usize)| (p.1, p.2),
        );
        let t = blast_targets(x0, y0, cs);
        assert(t == head + blast_targets(x0, y0, rest));
        assert forall|k: int, i: int| 0 <= k < cs.len() && 0 <= i < 8 implies #[trigger] t[8 * k
            + i] == (
            octant_points(x0, y0, cs[k].0, cs[k].1)[i].1,
            octant_points(x0, y0, cs[k].0, cs[k].1)[i].2,
        ) by {
            if k > 0 {
                assert(cs[k] == rest[k - 1]);
                assert(t[8 * k + i] == blast_targets(x0, y0, rest)[8 * (k - 1) + i]);
            }
        }
    }
}

} // verus!
