use blazeterm::atlas::GlyphAtlas;
use blazeterm::explorer::{EntryKind, Explorer, FileEntry};
use blazeterm::pane::{BorderDirection, PaneId, PaneIdAllocator, PaneLayout, Rect, RECT_SCALE};
use blazeterm::renderer::{add_pane_borders, build_instances, build_instances_with_viewport, calculate_terminal_size};
use blazeterm::terminal::Terminal;

#[test]
fn split_close_scenario() {
    let p1 = PaneId::new(1);
    let p2 = PaneId::new(2);
    let mut layout = PaneLayout::single(p1);
    assert!(layout.split_horizontal(p1, p2));

    assert_eq!(layout.pane_count(), 2);
    assert_eq!(layout.next_pane(p1), Some(p2));
    assert_eq!(layout.prev_pane(p1), Some(p2));

    let rects = layout.calculate_rects(Rect::full());
    assert_eq!(rects.len(), 2);
    let area: u64 = rects
        .iter()
        .map(|(_, r)| (r.width as u64) * (r.height as u64))
        .sum();
    assert_eq!(area, (RECT_SCALE as u64) * (RECT_SCALE as u64));

    let removed = layout.remove_pane(p2).unwrap();
    match removed {
        PaneLayout::Single(id) => assert_eq!(id, p1),
        _ => panic!("expected a single pane"),
    }
}

#[test]
fn split_vertical_and_rects_tile() {
    let p1 = PaneId::new(1);
    let p2 = PaneId::new(2);
    let p3 = PaneId::new(3);
    let mut layout = PaneLayout::single(p1);
    assert!(layout.split_vertical(p1, p2));
    assert!(layout.split_horizontal(p2, p3));
    let ids = layout.all_pane_ids();
    assert_eq!(ids, vec![p1, p2, p3]);

    let bounds = Rect { x: 0, y: 0, width: 1000, height: 600 };
    let rects = layout.calculate_rects(bounds);
    assert_eq!(rects.len(), 3);
    let area: u64 = rects
        .iter()
        .map(|(_, r)| (r.width as u64) * (r.height as u64))
        .sum();
    assert_eq!(area, 600_000);
    // the top pane takes half the height
    assert_eq!(rects[0].0, p1);
    assert_eq!(rects[0].1, Rect { x: 0, y: 0, width: 1000, height: 300 });
}

#[test]
fn update_ratio_clamps_and_is_idempotent() {
    let p1 = PaneId::new(1);
    let p2 = PaneId::new(2);
    let mut layout = PaneLayout::single(p1);
    layout.split_horizontal(p1, p2);

    layout.update_ratio(&[], 950);
    match &layout {
        PaneLayout::HSplit { ratio, .. } => assert_eq!(*ratio, 900),
        _ => panic!("expected a split"),
    }
    layout.update_ratio(&[], 50);
    match &layout {
        PaneLayout::HSplit { ratio, .. } => assert_eq!(*ratio, 100),
        _ => panic!("expected a split"),
    }
    layout.update_ratio(&[], 250);
    let once = layout.calculate_rects(Rect::full());
    layout.update_ratio(&[], 250);
    let twice = layout.calculate_rects(Rect::full());
    assert_eq!(once, twice);
}

#[test]
fn pane_at_finds_the_right_pane() {
    let p1 = PaneId::new(1);
    let p2 = PaneId::new(2);
    let mut layout = PaneLayout::single(p1);
    layout.split_horizontal(p1, p2);
    let bounds = Rect { x: 0, y: 0, width: 100, height: 100 };
    assert_eq!(layout.pane_at(10, 50, bounds), Some(p1));
    assert_eq!(layout.pane_at(90, 50, bounds), Some(p2));
    assert_eq!(layout.pane_at(100, 50, bounds), None);
}

#[test]
fn border_hit_reports_split_line() {
    let p1 = PaneId::new(1);
    let p2 = PaneId::new(2);
    let mut layout = PaneLayout::single(p1);
    layout.split_horizontal(p1, p2);
    let bounds = Rect { x: 0, y: 0, width: 100, height: 100 };
    let hit = layout.border_at(51, 10, bounds, 3).unwrap();
    assert!(hit.is_vertical());
    assert!(hit.path().is_empty());
    assert!(layout.border_at(80, 10, bounds, 3).is_none());
}

#[test]
fn border_path_descends_into_children() {
    let p1 = PaneId::new(1);
    let p2 = PaneId::new(2);
    let p3 = PaneId::new(3);
    let mut layout = PaneLayout::single(p1);
    layout.split_horizontal(p1, p2);
    layout.split_vertical(p2, p3);
    let bounds = Rect { x: 0, y: 0, width: 100, height: 100 };
    // the horizontal border inside the right pane
    let hit = layout.border_at(75, 50, bounds, 2).unwrap();
    assert!(!hit.is_vertical());
    assert_eq!(hit.path().as_slice(), &[BorderDirection::Right]);
}

#[test]
fn pane_id_allocator_is_monotonic() {
    let mut alloc = PaneIdAllocator::new();
    let a = alloc.fresh();
    let b = alloc.fresh();
    assert_eq!(a, PaneId(1));
    assert_eq!(b, PaneId(2));
    assert!(a != b);
}

#[test]
fn atlas_packs_disjoint_rectangles() {
    let mut atlas = GlyphAtlas::new(16, 16);
    let bitmap_a = vec![255u8; 5 * 4];
    let a = atlas.get_or_insert('a', 5, 4, 0, 0, 6, &bitmap_a).unwrap();
    assert_eq!((a.x, a.y, a.w, a.h), (0, 0, 5, 4));

    let bitmap_b = vec![128u8; 6 * 3];
    let b = atlas.get_or_insert('b', 6, 3, 1, -1, 7, &bitmap_b).unwrap();
    assert_eq!((b.x, b.y), (6, 0));
    // disjoint: b starts after a plus its one-pixel gap
    assert!(b.x >= a.x + a.w + 1);

    // a third glyph that cannot fit beside them wraps to a new shelf
    let bitmap_c = vec![9u8; 8 * 4];
    let c = atlas.get_or_insert('c', 8, 4, 0, 0, 8, &bitmap_c).unwrap();
    assert_eq!((c.x, c.y), (0, 5));

    // the cached record comes back unchanged
    let again = atlas.get_or_insert('a', 1, 1, 9, 9, 9, &vec![0u8; 1]).unwrap();
    assert_eq!(again, a);
}

#[test]
fn atlas_blank_glyph_and_full_atlas() {
    let mut atlas = GlyphAtlas::new(8, 8);
    let blank = atlas.get_or_insert(' ', 0, 0, 0, 0, 4, &[]).unwrap();
    assert_eq!((blank.w, blank.h, blank.advance), (0, 0, 4));

    let big = vec![1u8; 8 * 8];
    assert!(atlas.get_or_insert('x', 8, 8, 0, 0, 8, &big).is_some());
    // no room left for another row of pixels
    let more = vec![1u8; 2 * 2];
    assert!(atlas.get_or_insert('y', 2, 2, 0, 0, 2, &more).is_none());
}

#[test]
fn atlas_blits_bitmap_bytes() {
    let mut atlas = GlyphAtlas::new(8, 8);
    let bitmap = vec![1u8, 2, 3, 4, 5, 6];
    let g = atlas.get_or_insert('g', 3, 2, 0, 0, 4, &bitmap).unwrap();
    assert_eq!((g.x, g.y), (0, 0));
    assert_eq!(atlas.pixels[0], 1);
    assert_eq!(atlas.pixels[2], 3);
    assert_eq!(atlas.pixels[8], 4);
    assert_eq!(atlas.pixels[10], 6);
    assert!(atlas.dirty);
}

#[test]
fn renderer_plans_background_and_text() {
    let mut term = Terminal::new(3, 2);
    term.input_char('A');
    let (text, bg) = build_instances(&term);
    assert_eq!(bg.len(), 6);
    // the one non-blank cell and the cursor
    assert_eq!(text.len(), 2);
    assert_eq!(text[0].glyph, 'A');
    assert_eq!((text[0].col, text[0].row), (0, 0));
    assert_eq!(text[1].glyph, '\u{2588}');
    assert_eq!((text[1].col, text[1].row), (1, 0));
}

#[test]
fn renderer_viewport_offsets_positions() {
    let mut term = Terminal::new(3, 2);
    term.input_char('A');
    let (text, bg) = build_instances_with_viewport(&term, 10, 20);
    assert_eq!(bg.len(), 6);
    assert_eq!((bg[0].col, bg[0].row), (10, 20));
    assert_eq!((text[0].col, text[0].row), (10, 20));
    assert_eq!((text[1].col, text[1].row), (11, 20));
}

#[test]
fn renderer_border_line_cells() {
    let mut bg = Vec::new();
    let n = add_pane_borders(&mut bg, 5, 2, 6, true);
    assert_eq!(n, 4);
    assert_eq!((bg[0].col, bg[0].row), (5, 2));
    assert_eq!((bg[3].col, bg[3].row), (5, 5));
    let m = add_pane_borders(&mut bg, 7, 0, 2, false);
    assert_eq!(m, 2);
    assert_eq!((bg[4].col, bg[4].row), (0, 7));
}

#[test]
fn renderer_terminal_size_floors_and_clamps() {
    assert_eq!(calculate_terminal_size(800, 600, 10, 20), (80, 30));
    assert_eq!(calculate_terminal_size(5, 5, 10, 20), (1, 1));
    assert_eq!(calculate_terminal_size(99, 41, 10, 20), (9, 2));
}

#[test]
fn explorer_selection_and_tree() {
    let mut ex = Explorer::new("/tmp".to_string());
    assert!(ex.selected_entry().is_none());
    let entries = vec![
        FileEntry::new("/tmp/dir".to_string(), "dir".to_string(), EntryKind::Directory, 0),
        FileEntry::new("/tmp/file".to_string(), "file".to_string(), EntryKind::File, 0),
    ];
    ex.set_entries(entries);
    assert!(ex.selected_entry().unwrap().is_dir());
    ex.move_down();
    assert_eq!(ex.selected, 1);
    assert!(!ex.selected_entry().unwrap().is_dir());
    ex.move_up();
    assert_eq!(ex.selected, 0);

    let children = vec![
        FileEntry::new("/tmp/dir/x".to_string(), "x".to_string(), EntryKind::File, 1),
        FileEntry::new("/tmp/dir/y".to_string(), "y".to_string(), EntryKind::File, 1),
    ];
    ex.toggle_expand(children);
    assert_eq!(ex.entries.len(), 4);
    assert!(ex.entries[0].expanded);
    assert_eq!(ex.entries[1].name, "x".to_string());

    ex.toggle_expand(Vec::new());
    assert_eq!(ex.entries.len(), 2);
    assert!(!ex.entries[0].expanded);
    assert_eq!(ex.entries[1].name, "file".to_string());

    ex.toggle();
    assert!(ex.visible);
}

#[test]
fn explorer_cd_path_targets_directory() {
    let mut ex = Explorer::new("/tmp".to_string());
    ex.set_entries(vec![
        FileEntry::new("/tmp/dir".to_string(), "dir".to_string(), EntryKind::Directory, 0),
        FileEntry::new("/tmp/dir/file.txt".to_string(), "file.txt".to_string(), EntryKind::File, 1),
    ]);
    assert_eq!(ex.get_cd_path().unwrap(), "/tmp/dir".to_string());
    ex.move_down();
    assert_eq!(ex.get_cd_path().unwrap(), "/tmp/dir".to_string());
}
