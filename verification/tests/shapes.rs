use better_explosions::arc::ArcIter;
use better_explosions::circle::Circle;
use better_explosions::circumference::Circumference;
use better_explosions::isqrt::isqrt;
use better_explosions::explosion::explosion_targets;
use better_explosions::octant::octant;

fn circumference_cells(r: usize) -> Vec<(usize, usize)> {
    let mut c = Circumference::new(r);
    let mut v = Vec::new();
    while let Some(p) = c.next() {
        v.push(p);
    }
    v
}

#[test]
fn octant_reflections() {
    let pts = octant(10, 20, 3, 1);
    assert_eq!(
        pts,
        [(0, 13, 21), (1, 11, 23), (2, 9, 23), (3, 7, 21), (4, 7, 19), (5, 9, 17), (6, 11, 17), (7, 13, 19)]
    );
    for (i, (o, x, y)) in pts.iter().enumerate() {
        assert_eq!(i, *o);
        let dx = x.abs_diff(10);
        let dy = y.abs_diff(20);
        assert_eq!(dx * dx + dy * dy, 10);
    }
}

#[test]
fn circumference_radius_5() {
    assert_eq!(circumference_cells(5), vec![(5, 0), (5, 1), (5, 2), (4, 3)]);
}

#[test]
fn circumference_radius_1() {
    assert_eq!(circumference_cells(1), vec![(1, 0)]);
}

#[test]
fn circumference_near_circle_law() {
    for r in [1usize, 2, 7, 16, 33, 100, 257] {
        let cells = circumference_cells(r);
        assert_eq!(cells[0], (r, 0));
        let e = r / 16;
        for (i, &(x, y)) in cells.iter().enumerate() {
            assert!(y <= x);
            let s = x * x + x + y * y + y;
            assert!(r * r + r - 2 * e <= s, "r={r} {x} {y}");
            assert!(s <= r * r + r - 2 * e + 2 * (x + y), "r={r} {x} {y}");
            if i > 0 {
                let (px, py) = cells[i - 1];
                assert_eq!(y, py + 1);
                assert!(x == px || x + 1 == px);
            }
        }
    }
}

#[test]
fn circle_cells_within_square() {
    let mut c = Circle::new(50, 60, 6);
    let mut n = 0;
    let mut seen = std::collections::HashSet::new();
    while let Some((x, y)) = c.next() {
        assert!(x.abs_diff(50) <= 6 && y.abs_diff(60) <= 6);
        seen.insert((x, y));
        n += 1;
    }
    assert!(n > 0);
    assert!(seen.contains(&(50, 60)));
    assert!(seen.contains(&(56, 60)));
    assert!(seen.contains(&(44, 60)));
    assert!(seen.contains(&(50, 66)));
    assert!(seen.contains(&(50, 54)));
}

#[test]
fn circle_first_row() {
    let mut c = Circle::new(10, 10, 2);
    let mut v = Vec::new();
    for _ in 0..6 {
        v.push(c.next().unwrap());
    }
    assert_eq!(v, vec![(12, 10), (8, 10), (9, 10), (10, 10), (11, 10), (12, 10)]);
}

#[test]
fn isqrt_values() {
    assert_eq!(isqrt(0), 0);
    assert_eq!(isqrt(1), 1);
    assert_eq!(isqrt(3), 1);
    assert_eq!(isqrt(4), 2);
    assert_eq!(isqrt(99), 9);
    assert_eq!(isqrt(100), 10);
    let r = isqrt(usize::MAX);
    assert!(r * r <= usize::MAX && (r + 1).checked_mul(r + 1).is_none());
}

#[test]
fn arc_sector_cells() {
    let r: usize = 40;
    let (x0, y0) = (100, 100);
    let mut arc = ArcIter::new(x0, y0, x0 + 40, y0, x0 + 35, y0 + 19, r * r);
    let mut cells = Vec::new();
    while let Some(c) = arc.next() {
        cells.push(c);
        assert!(cells.len() < 10_000);
    }
    assert!(!cells.is_empty());
    assert_eq!(cells[0], (x0, y0));
    for &(x, y) in &cells {
        assert!(x >= x0 && y >= y0, "{x} {y}");
        let d2 = (x - x0) * (x - x0) + (y - y0) * (y - y0);
        assert!(d2 <= (r + 1) * (r + 1), "{x} {y}");
    }
}

#[test]
fn circumference_walk_law() {
    for r in 1..60usize {
        let c = circumference_cells(r);
        assert!(!c.is_empty() && c.len() <= r + 1);
        assert_eq!(c[0], (r, 0));
        for (k, &(x, y)) in c.iter().enumerate() {
            assert_eq!(y, k);
            assert!(y <= x);
        }
        for w in c.windows(2) {
            assert!(w[1].0 == w[0].0 || w[1].0 + 1 == w[0].0);
        }
    }
    let mut done = Circumference::new(3);
    while done.next().is_some() {}
    assert_eq!(done.next(), None);
    assert_eq!(done.next(), None);
}

#[test]
fn circle_row_order_law() {
    let (x0, y0, r) = (20usize, 30usize, 7usize);
    let mut expected = Vec::new();
    let row = |v: &mut Vec<(usize, usize)>, y: usize, w: usize| {
        v.push((x0 + w, y));
        for x in x0 - w..x0 + w {
            v.push((x, y));
        }
    };
    for (a, b) in circumference_cells(r) {
        row(&mut expected, y0 + b, a);
        row(&mut expected, y0 - b, a);
        row(&mut expected, y0 + a, b);
        row(&mut expected, y0 - a, b);
    }
    let mut c = Circle::new(x0, y0, r);
    let mut got = Vec::new();
    while let Some(p) = c.next() {
        got.push(p);
    }
    assert_eq!(got, expected);
}

#[test]
fn arc_apex_first() {
    // A steep sector is transposed internally; its apex still comes first.
    let mut arc = ArcIter::new(50, 60, 52, 90, 40, 88, 30 * 30);
    assert_eq!(arc.next(), Some((50, 60)));
    let mut flat = ArcIter::new(50, 60, 80, 62, 78, 70, 30 * 30);
    assert_eq!(flat.next(), Some((50, 60)));
}

#[test]
fn arc_checked_new() {
    let mut arc = ArcIter::checked_new(50, 60, 52, 90, 40, 88, 30 * 30).unwrap();
    assert_eq!(arc.next(), Some((50, 60)));
    let m = isize::MAX as usize;
    assert!(ArcIter::checked_new(0, 0, m / 2, 1, m / 2, 3, 4).is_none());
    assert!(ArcIter::checked_new(m + 1, 0, 1, 1, 2, 2, 4).is_none());
}

#[test]
fn blast_targets_reflect_the_walk() {
    let (x0, y0, r) = (100usize, 200usize, 9usize);
    let walk = circumference_cells(r);
    let t = explosion_targets(x0, y0, r);
    assert_eq!(t.len(), 8 * walk.len());
    for (k, &(a, b)) in walk.iter().enumerate() {
        let pts = octant(x0, y0, a, b);
        for i in 0..8 {
            assert_eq!(t[8 * k + i], (pts[i].1, pts[i].2));
        }
    }
    assert!(Circumference::new(r).can_advance());
}
