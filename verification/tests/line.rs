use better_explosions::line::{LineIter, StepCase};

fn cells(mut it: LineIter) -> Vec<(usize, usize)> {
    let mut v = Vec::new();
    while let Some((_, x, y)) = it.next() {
        v.push((x, y));
    }
    v
}

#[test]
fn test_line() {
    let arr = [(3, 2), (4, 2), (5, 3), (6, 3), (7, 4), (8, 4)];
    let mut iter = arr.iter().copied();
    for (x, y) in cells(LineIter::new(3, 2, 8, 4)) {
        let (nx, ny) = iter.next().unwrap();
        assert_eq!(x, nx, "{x} {y} {nx} {ny}");
        assert_eq!(y, ny, "{x} {y} {nx} {ny}");
    }
    let mut iter = arr.iter().copied().rev();
    for (x, y) in cells(LineIter::new(8, 4, 3, 2)) {
        let (nx, ny) = iter.next().unwrap();
        assert_eq!(x, nx, "{x} {y} {nx} {ny}");
        assert_eq!(y, ny, "{x} {y} {nx} {ny}");
    }
    let arr = [(2, 3), (2, 4), (3, 5), (3, 6), (4, 7), (4, 8)];
    let mut iter = arr.iter().copied();
    for (x, y) in cells(LineIter::new(2, 3, 4, 8)) {
        let (nx, ny) = iter.next().unwrap();
        assert_eq!(x, nx, "{x} {y} {nx} {ny}");
        assert_eq!(y, ny, "{x} {y} {nx} {ny}");
    }
    let mut iter = arr.iter().copied().rev();
    for (x, y) in cells(LineIter::new(4, 8, 2, 3)) {
        let (nx, ny) = iter.next().unwrap();
        assert_eq!(x, nx, "{x} {y} {nx} {ny}");
        assert_eq!(y, ny, "{x} {y} {nx} {ny}");
    }
    for i in 0..8 {
        for j in 0..8 {
            for k in 0..8 {
                if i == k || (j == 0 && k == 8) {
                    continue;
                }
                let mut iter_a = cells(LineIter::new(i, 0, j, 8)).into_iter();
                let mut iter_b = cells(LineIter::new(j, 8, 0, k)).into_iter();
                let mut iter_c = cells(LineIter::new(0, k, i, 0)).into_iter();
                let start_a = iter_a.next();
                let start_b = iter_b.next();
                let start_c = iter_c.next();
                assert_eq!(start_a, Some((i, 0)), "{i} {j} {k}");
                assert_eq!(start_b, Some((j, 8)), "{i} {j} {k}");
                assert_eq!(start_c, Some((0, k)), "{i} {j} {k}");
                assert_eq!(iter_a.last(), start_b, "{i} {j} {k}");
                assert_eq!(iter_b.last(), start_c, "{i} {j} {k}");
                assert_eq!(iter_c.last(), start_a, "{i} {j} {k}");
            }
        }
    }
}

#[test]
fn line_new_fields() {
    let it = LineIter::new(3, 2, 8, 4);
    assert_eq!((it.x0, it.y0, it.x1, it.y1), (3, 2, 8, 4));
    assert_eq!((it.dx, it.dy), (5, 2));
    assert_eq!(it.error, 6);
    assert!(it.first);
    let it = LineIter::new(8, 4, 3, 7);
    assert_eq!((it.dx, it.dy, it.error), (-5, 3, 4));
}

#[test]
fn line_step_cases() {
    let mut it = LineIter::new(0, 0, 3, 1);
    let mut cases = Vec::new();
    while let Some((c, _, _)) = it.next() {
        cases.push(c);
    }
    assert_eq!(cases, vec![StepCase::Start, StepCase::Dx, StepCase::Both, StepCase::Dx]);
}

#[test]
fn line_single_point() {
    assert_eq!(cells(LineIter::new(5, 5, 5, 5)), vec![(5, 5)]);
}

#[test]
fn line_axis_aligned() {
    assert_eq!(cells(LineIter::new(2, 7, 5, 7)), vec![(2, 7), (3, 7), (4, 7), (5, 7)]);
    assert_eq!(cells(LineIter::new(4, 3, 4, 0)), vec![(4, 3), (4, 2), (4, 1), (4, 0)]);
}

#[test]
fn line_endpoints_law() {
    for (x0, y0, x1, y1) in [(0, 0, 17, 5), (40, 3, 1, 29), (9, 9, 9, 30), (100, 50, 0, 0), (3, 8, 11, 8)] {
        let c = cells(LineIter::new(x0, y0, x1, y1));
        assert_eq!(c.first(), Some(&(x0, y0)));
        assert_eq!(c.last(), Some(&(x1, y1)));
        for w in c.windows(2) {
            assert!(w[0].0.abs_diff(w[1].0) <= 1 && w[0].1.abs_diff(w[1].1) <= 1);
        }
    }
}

#[test]
fn line_back_undoes_next() {
    let mut it = LineIter::new(1, 9, 14, 2);
    loop {
        let before = it;
        match it.next() {
            None => break,
            Some((case, _, _)) => {
                let mut undone = it;
                undone.back(case);
                assert_eq!(undone.x0, before.x0);
                assert_eq!(undone.y0, before.y0);
                assert_eq!(undone.error, before.error);
                assert_eq!(undone.first, before.first);
            }
        }
    }
}

fn items(mut it: LineIter) -> Vec<(StepCase, usize, usize)> {
    let mut v = Vec::new();
    while let Some(item) = it.next() {
        v.push(item);
    }
    v
}

#[test]
fn line_items_law() {
    for (x0, y0, x1, y1) in [(0usize, 0usize, 17usize, 5usize), (40, 3, 1, 29), (9, 9, 9, 30), (100, 50, 0, 0), (3, 8, 11, 8), (6, 6, 6, 6)] {
        let it = items(LineIter::new(x0, y0, x1, y1));
        let (a, b) = (x0.abs_diff(x1), y0.abs_diff(y1));
        assert_eq!(it.len(), a.max(b) + 1);
        assert!(matches!(it[0], (StepCase::Start, x, y) if x == x0 && y == y0));
        let last = it.last().unwrap();
        assert_eq!((last.1, last.2), (x1, y1));
        let sx: isize = (x1 as isize - x0 as isize).signum();
        let sy: isize = (y1 as isize - y0 as isize).signum();
        for w in it.windows(2) {
            let mx = w[1].1 as isize - w[0].1 as isize;
            let my = w[1].2 as isize - w[0].2 as isize;
            match w[1].0 {
                StepCase::Dx => assert!(mx == sx && sx != 0 && my == 0),
                StepCase::Dy => assert!(my == sy && sy != 0 && mx == 0),
                StepCase::Both => assert!(mx == sx && my == sy && sx != 0 && sy != 0),
                StepCase::Start => panic!("start after the first item"),
            }
        }
    }
}

#[test]
fn line_checked_new() {
    assert!(LineIter::checked_new(3, 2, 8, 4).is_some());
    let m = isize::MAX as usize;
    assert!(LineIter::checked_new(m + 1, 0, 0, 0).is_none());
    // A long, almost flat line would overflow its error term.
    assert!(LineIter::checked_new(0, 0, m / 2, 1).is_none());
    // A long axis-aligned line does not.
    assert!(LineIter::checked_new(0, 0, m / 2, 0).is_some());
    let it = LineIter::checked_new(0, 0, m / 4, m / 4).unwrap();
    assert_eq!(it.error, 0);
}

#[test]
fn line_high_coordinates() {
    let m = isize::MAX as usize;
    let (x0, y0, x1, y1) = (m + 10, m + 20, m + 15, m + 18);
    let it = items(LineIter::checked_new(x0, y0, x1, y1).unwrap());
    assert_eq!(it.len(), 6);
    assert!(matches!(it[0], (StepCase::Start, x, y) if x == x0 && y == y0));
    let last = it.last().unwrap();
    assert_eq!((last.1, last.2), (x1, y1));
    // A pair of coordinates on both sides of isize::MAX is refused.
    assert!(LineIter::checked_new(m, 0, m + 1, 0).is_none());
}
