use gfx_voxel::placement::Cursor;

#[test]
fn cursor_starts_at_the_origin() {
    let cursor = Cursor::new();
    assert_eq!((cursor.ring, cursor.slot), (0, 0));
    assert_eq!(cursor.cell(), (0, 0));
}

#[test]
fn cursor_walks_the_top_edge_then_the_right_edge() {
    let mut cursor = Cursor { ring: 3, slot: 0 };
    let mut cells = Vec::new();
    for _ in 0..7 {
        cells.push(cursor.advance());
    }
    assert_eq!(cells, vec![(0, 3), (1, 3), (2, 3), (3, 0), (3, 1), (3, 2), (3, 3)]);
    assert_eq!((cursor.ring, cursor.slot), (4, 0));
}

#[test]
fn ring_is_complete_after_two_ring_plus_one_cells() {
    let mut cursor = Cursor::new();
    for ring in 0..20u32 {
        for slot in 0..(2 * ring + 1) {
            assert_eq!((cursor.ring, cursor.slot), (ring, slot));
            cursor.advance();
        }
    }
    assert_eq!((cursor.ring, cursor.slot), (20, 0));
}

#[test]
fn cursor_hands_out_every_cell_of_the_square_once() {
    let mut cursor = Cursor::new();
    let mut seen = vec![false; 12 * 12];
    for _ in 0..144 {
        let (x, y) = cursor.advance();
        assert!(x < 12 && y < 12);
        let at = (y * 12 + x) as usize;
        assert!(!seen[at], "cell ({}, {}) came twice", x, y);
        seen[at] = true;
    }
    assert!(seen.iter().all(|s| *s));
    assert_eq!((cursor.ring, cursor.slot), (12, 0));
}

#[test]
fn cursor_advances_up_to_the_largest_ring() {
    let mut cursor = Cursor { ring: 0x7fff_ffff, slot: 0xffff_fffe };
    assert_eq!(cursor.cell(), (0x7fff_ffff, 0x7fff_ffff));
    assert_eq!(cursor.advance(), (0x7fff_ffff, 0x7fff_ffff));
    assert_eq!((cursor.ring, cursor.slot), (0x8000_0000, 0));
}
