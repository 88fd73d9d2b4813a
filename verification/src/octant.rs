//! The eight-fold symmetry of a circle around a centre cell.
use crate::iabs;
use vstd::prelude::*;

verus! {

/// The eight reflections of the offset `(dx, dy)` around `(x0, y0)`,
/// each tagged with the number of its octant.
pub open spec fn octant_points(x0: usize, y0: usize, dx: usize, dy: usize) -> Seq<
    (usize, usize, usize),
> {
    seq![
        (0usize, (x0 + dx) as usize, (y0 + dy) as usize),
        (1usize, (x0 + dy) as usize, (y0 + dx) as usize),
        (2usize, (x0 - dy) as usize, (y0 + dx) as usize),
        (3usize, (x0 - dx) as usize, (y0 + dy) as usize),
        (4usize, (x0 - dx) as usize, (y0 - dy) as usize),
        (5usize, (x0 - dy) as usize, (y0 - dx) as usize),
        (6usize, (x0 + dy) as usize, (y0 - dx) as usize),
        (7usize, (x0 + dx) as usize, (y0 - dy) as usize),
    ]
}

/// The reflections stay inside the coordinate range.
pub open spec fn octant_in_range(x0: usize, y0: usize, dx: usize, dy: usize) -> bool {
    &&& dx <= x0
    &&& dy <= x0
    &&& dx <= y0
    &&& dy <= y0
    &&& x0 + dx <= usize::MAX
    &&& x0 + dy <= usize::MAX
    &&& y0 + dx <= usize::MAX
    &&& y0 + dy <= usize::MAX
}

/// The eight points `(octant, x, y)` obtained by reflecting `(dx, dy)`
/// around `(x0, y0)`, in octant order.
pub fn octant(x0: usize, y0: usize, dx: usize, dy: usize) -> (r: [(usize, usize, usize); 8])
    requires
        octant_in_range(x0, y0, dx, dy),
    ensures
        r@ == octant_points(x0, y0, dx, dy),
{
    let r = [
        (0, x0 + dx, y0 + dy),
        (1, x0 + dy, y0 + dx),
        (2, x0 - dy, y0 + dx),
        (3, x0 - dx, y0 + dy),
        (4, x0 - dx, y0 - dy),
        (5, x0 - dy, y0 - dx),
        (6, x0 + dy, y0 - dx),
        (7, x0 + dx, y0 - dy),
    ];
    assert(r@ =~= octant_points(x0, y0, dx, dy));
    r
}

/// All eight reflections are at the same distance from the centre as
/// `(x0 + dx, y0 + dy)`, and the i-th one is tagged `i`.
pub proof fn lemma_octant_same_distance(x0: usize, y0: usize, dx: usize, dy: usize)
    requires
        octant_in_range(x0, y0, dx, dy),
    ensures
        octant_points(x0, y0, dx, dy).len() == 8,
        forall|i: int|
            0 <= i < 8 ==> {
                let p = #[trigger] octant_points(x0, y0, dx, dy)[i];
                &&& p.0 == i
                &&& (p.1 - x0) * (p.1 - x0) + (p.2 - y0) * (p.2 - y0) == dx * dx + dy * dy
            },
{
    let s = octant_points(x0, y0, dx, dy);
    assert((-(dx as int)) * (-(dx as int)) == dx * dx) by (nonlinear_arith);
    assert((-(dy as int)) * (-(dy as int)) == dy * dy) by (nonlinear_arith);
    assert forall|i: int| 0 <= i < 8 implies {
        let p = #[trigger] s[i];
        &&& p.0 == i
        &&& (p.1 - x0) * (p.1 - x0) + (p.2 - y0) * (p.2 - y0) == dx * dx + dy * dy
    } by {
        if i == 0 {
        } else if i == 1 {
        } else if i == 2 {
        } else if i == 3 {
        } else if i == 4 {
        } else if i == 5 {
        } else if i == 6 {
        } else {
        }
    }
}

/// The offset `(u, v)` from the centre lies in octant `k`, counting the
/// eight octants counter-clockwise from the positive x axis.
pub open spec fn in_octant(k: int, u: int, v: int) -> bool {
    if k == 0 {
        0 <= v <= u
    } else if k == 1 {
        0 <= u <= v
    } else if k == 2 {
        0 <= -u <= v
    } else if k == 3 {
        0 <= v <= -u
    } else if k == 4 {
        0 <= -v <= -u
    } else if k == 5 {
        0 <= -u <= -v
    } else if k == 6 {
        0 <= u <= -v
    } else {
        0 <= -v <= u
    }
}

/// For an offset `(dx, dy)` of the first octant, the `k`-th point is the
/// reflection of `(dx, dy)` that lies in octant `k`: its offsets are `dx`
/// and `dy` up to sign and order.
pub proof fn lemma_octant_reflections(x0: usize, y0: usize, dx: usize, dy: usize)
    requires
        octant_in_range(x0, y0, dx, dy),
        dy <= dx,
    ensures
        forall|k: int|
            0 <= k < 8 ==> {
                let p = #[trigger] octant_points(x0, y0, dx, dy)[k];
                let u = p.1 - x0;
                let v = p.2 - y0;
                &&& in_octant(k, u, v)
                &&& (iabs(u) == dx && iabs(v) == dy) || (iabs(u) == dy && iabs(v) == dx)
            },
{
    let s = octant_points(x0, y0, dx, dy);
    assert forall|k: int| 0 <= k < 8 implies {
        let p = #[trigger] s[k];
        let u = p.1 - x0;
        let v = p.2 - y0;
        &&& in_octant(k, u, v)
        &&& (iabs(u) == dx && iabs(v) == dy) || (iabs(u) == dy && iabs(v) == dx)
    } by {
        if k == 0 {
        } else if k == 1 {
        } else if k == 2 {
        } else if k == 3 {
        } else if k == 4 {
        } else if k == 5 {
        } else if k == 6 {
        } else {
        }
    }
}

} // verus!
