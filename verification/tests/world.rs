use better_explosions::seen::SeenSections;
use better_explosions::world::{
    encode_sections, get_section, get_section_mut_enumerate, get_sections, inner_aabb, section_in,
    sync_world_due, Cell, ChunkPos, Pixel, PixelRun, PixelRunBuilder, Priority, Vec2, AABB,
    SECTIONS,
};
use better_explosions::world_sync::{slot, sync_round, WorldSync};
use better_explosions::world::Chunk;
use better_explosions::world_write::{write_chunks, ChunkWrite};

fn px(id: u16) -> Pixel {
    Pixel { id }
}

fn decode(run: &PixelRun, n: usize) -> Vec<Pixel> {
    let mut it = run.iter();
    (0..n).map(|_| it.next().unwrap()).collect()
}

fn empty_chunk() -> Box<[[Option<Cell>; 512]; 512]> {
    vec![[None; 512]; 512].into_boxed_slice().try_into().unwrap()
}

fn aabb(x0: usize, y0: usize, x1: usize, y1: usize) -> AABB {
    AABB { top_left: Vec2 { x: x0, y: y0 }, bottom_right: Vec2 { x: x1, y: y1 } }
}

#[test]
fn pixel_run_encode() {
    let mut b = PixelRunBuilder::default();
    for id in [0, 0, 3, 3, 3, 1, 0] {
        b.push(px(id));
    }
    let run = b.build();
    assert_eq!(run.vec, vec![(2, px(0)), (3, px(3)), (1, px(1)), (1, px(0))]);
}

#[test]
fn pixel_run_roundtrip() {
    let pixels: Vec<Pixel> = [5, 5, 5, 2, 7, 7, 5, 0, 0, 0, 0].iter().map(|&i| px(i)).collect();
    let mut b = PixelRunBuilder::default();
    for &p in &pixels {
        b.push(p);
    }
    let run = b.build();
    assert_eq!(decode(&run, pixels.len()), pixels);
}

#[test]
fn pixel_run_empty_build() {
    let run = PixelRunBuilder::default().build();
    assert!(run.vec.is_empty());
}

#[test]
fn pixel_run_extend_cells() {
    let cells = [
        None,
        Some(Cell { material_type: 4, solid: false }),
        Some(Cell { material_type: 4, solid: false }),
        Some(Cell { material_type: 9, solid: true }),
    ];
    let mut b = PixelRunBuilder::default();
    b.extend(&cells);
    let run = b.build();
    assert_eq!(run.vec, vec![(1, px(0)), (2, px(4)), (1, Pixel::max())]);
    assert_eq!(Pixel::max().id, u16::MAX);
    assert_eq!(Pixel::from(77).id, 77);
    assert_eq!(Pixel::default().id, 0);
}

#[test]
fn section_priorities() {
    let view = aabb(512 + 64, 512 + 64, 512 + 256, 512 + 256);
    let inner = inner_aabb(view);
    assert_eq!(inner, aabb(512 + 112, 512 + 112, 512 + 208, 512 + 208));
    // Section (0, 0) of chunk (1, 1) covers 512..544: out of view.
    assert_eq!(section_in(view, inner, 1, 1, 0), None);
    // Section (2, 2) covers 576..608: fully in view, outside the centre.
    assert_eq!(section_in(view, inner, 1, 1, 2 * 16 + 2), Some(Priority::Medium));
    // Section (4, 4) covers 640..672: in the centre.
    assert_eq!(section_in(view, inner, 1, 1, 4 * 16 + 4), Some(Priority::High));
    // Section (7, 7) covers 736..768: fully in view (box ends at 768).
    assert_eq!(section_in(view, inner, 1, 1, 7 * 16 + 7), Some(Priority::Medium));
    let partial = aabb(512 + 70, 512 + 70, 512 + 100, 512 + 100);
    assert_eq!(section_in(partial, partial, 1, 1, 2 * 16 + 2), Some(Priority::Low));
    assert!(Priority::High > Priority::Medium);
    assert!(Priority::Low > Priority::Unseen);
    assert!(!(Priority::Low > Priority::Low));
}

#[test]
fn section_cells_and_sections() {
    let mut arr = empty_chunk();
    arr[33][65] = Some(Cell { material_type: 12, solid: false });
    let cells = get_section(16 + 2, &arr);
    assert_eq!(cells.len(), 1024);
    assert_eq!(cells[32 + 1], Some(Cell { material_type: 12, solid: false }));
    assert_eq!(cells.iter().filter(|c| c.is_some()).count(), 1);
    let view = aabb(0, 0, 64, 32);
    let secs = get_sections(view, view, 0, 0, &arr);
    assert_eq!(secs.iter().map(|s| s.0).collect::<Vec<_>>(), vec![0, 1]);
    assert_eq!(secs[0].1, Priority::High);
    let all = aabb(0, 0, 512, 512);
    assert_eq!(get_sections(all, all, 0, 0, &arr).len(), SECTIONS);
}

#[test]
fn section_mut_enumerate() {
    let mut arr = empty_chunk();
    get_section_mut_enumerate(17, &mut arr, |x, y, _| Some(Cell { material_type: x + 1000 * y, solid: false }));
    assert_eq!(arr[32][32], Some(Cell { material_type: 32 + 32000, solid: false }));
    assert_eq!(arr[63][63], Some(Cell { material_type: 63 + 63000, solid: false }));
    assert_eq!(arr[31][32], None);
    assert_eq!(arr[32][64], None);
}

#[test]
fn encode_sections_roundtrip() {
    let mut arr = empty_chunk();
    arr[0][1] = Some(Cell { material_type: 3, solid: false });
    arr[0][2] = Some(Cell { material_type: 3, solid: true });
    let view = aabb(512 * 2, 512 * 3, 512 * 2 + 32, 512 * 3 + 32);
    let chunks = encode_sections(view, view, 2, 3, &arr);
    assert_eq!(chunks.len(), 1);
    assert_eq!(chunks[0].pos, ChunkPos { x: 2, y: 3, section: 0 });
    let pixels = decode(&chunks[0].pixel_run, 1024);
    assert_eq!(pixels[0], px(0));
    assert_eq!(pixels[1], px(3));
    assert_eq!(pixels[2], Pixel::max());
    assert!(pixels[3..].iter().all(|p| *p == px(0)));
}

#[test]
fn sync_due() {
    assert!(sync_world_due(true, 3, -2, 4, 7));
    assert!(!sync_world_due(true, 3, -2, 4, 12));
    assert!(!sync_world_due(false, 3, -2, 4, 7));
    assert!(!sync_world_due(true, 0, -2, 4, 7));
    assert!(!sync_world_due(true, 3, 5, 4, 7));
}

fn chunk(x: usize, section: u8, id: u16, priority: Priority) -> Chunk {
    Chunk {
        pixel_run: PixelRun { vec: vec![(1024, px(id))] },
        pos: ChunkPos { x, y: 0, section },
        priority,
    }
}

#[test]
fn world_sync_ownership() {
    let mut w = WorldSync::default();
    let back = w.push_world(1, vec![chunk(0, 0, 5, Priority::Medium), chunk(1, 0, 6, Priority::Low)]);
    assert!(back.is_empty());
    // Another peer with lower or equal priority is refused and gets the held runs.
    let back = w.push_world(2, vec![chunk(0, 0, 9, Priority::Medium), chunk(1, 0, 9, Priority::High)]);
    assert_eq!(back.len(), 1);
    assert_eq!(back[0].pixel_run.vec, vec![(1024, px(5))]);
    // The owner may always overwrite, even with a lower priority.
    let back = w.push_world(1, vec![chunk(0, 0, 7, Priority::Low)]);
    assert!(back.is_empty());
    let back = w.push_world(2, vec![chunk(0, 0, 8, Priority::Low), chunk(1, 0, 3, Priority::Low)]);
    // Peer 2 owns the second slot since its high-priority push.
    assert_eq!(back.len(), 1);
    assert_eq!(back[0].pixel_run.vec, vec![(1024, px(7))]);
    write_chunks(back);
    write_chunks(vec![ChunkWrite { pixel_run: PixelRun { vec: vec![] } }]);
}

#[test]
fn sections_tile_chunk() {
    let mut arr = empty_chunk();
    for y in 0..512 {
        for x in 0..512 {
            arr[y][x] = Some(Cell { material_type: y * 512 + x, solid: false });
        }
    }
    let mut seen = vec![0u8; 512 * 512];
    for s in 0..SECTIONS {
        for (i, c) in get_section(s, &arr).into_iter().enumerate() {
            let k = c.unwrap().material_type;
            let (x, y) = (k % 512, k / 512);
            assert_eq!((y / 32) * 16 + x / 32, s);
            assert_eq!((y % 32) * 32 + x % 32, i);
            seen[k] += 1;
        }
    }
    assert!(seen.iter().all(|&n| n == 1));
}

#[test]
fn pixel_run_decodes_what_was_pushed() {
    let s: Vec<Pixel> = [1u16, 1, 1, 4, 4, 0, 9, 9, 9, 9, 1].iter().map(|&i| px(i)).collect();
    let mut b = PixelRunBuilder::default();
    for &p in &s {
        b.push(p);
    }
    let r = b.build();
    assert_eq!(r.vec.len(), 5);
    assert_eq!(decode(&r, s.len()), s);
    assert_eq!(decode(&r, s.len()), s);
}

#[test]
fn seen_sections_report_deletions() {
    let mut seen = SeenSections::new();
    seen.mark(3);
    seen.mark(7);
    seen.mark(3);
    assert!(seen.sweep().is_empty());
    seen.mark(7);
    seen.mark(9);
    let mut del = seen.sweep();
    del.sort();
    assert_eq!(del, vec![3]);
    let mut del = seen.sweep();
    del.sort();
    assert_eq!(del, vec![7, 9]);
    assert!(seen.sweep().is_empty());
}

#[test]
fn sync_round_reports_only_what_changed() {
    let pos = |section: u8| ChunkPos { x: 3, y: 0, section };
    let mut seen = SeenSections::new();
    let r = sync_round(&mut seen, vec![chunk(3, 1, 5, Priority::Low), chunk(3, 2, 5, Priority::Low)]);
    assert!(r.removed.is_none());
    assert_eq!(r.sections.map(|v| v.len()), Some(2));
    let r = sync_round(&mut seen, vec![chunk(3, 1, 5, Priority::High)]);
    assert_eq!(r.removed, Some(vec![slot(pos(2))]));
    assert_eq!(r.sections.map(|v| v.len()), Some(1));
    let r = sync_round(&mut seen, vec![]);
    assert_eq!(r.removed, Some(vec![slot(pos(1))]));
    assert!(r.sections.is_none());
    let r = sync_round(&mut seen, vec![]);
    assert!(r.removed.is_none() && r.sections.is_none());
    assert_eq!(slot(ChunkPos { x: 1, y: 2, section: 3 }), (2 * 512 + 1) * 256 + 3);
}
