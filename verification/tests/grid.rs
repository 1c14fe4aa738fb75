use sdit_core::grid::cell::{Cell, CellFlags, Color, NamedColor};
use sdit_core::grid::row::Row;
use sdit_core::grid::storage::{Storage, MAX_CACHE_SIZE};
use sdit_core::grid::{Grid, Scroll};
use sdit_core::index::{Column, Line, Point};

// --- index ---

#[test]
fn line_arithmetic() {
    let l = Line(5);
    assert_eq!((l + 3).0, 8);
    assert_eq!((l - 2).0, 3);
    assert_eq!(Line(10) - Line(3), 7);
}

#[test]
fn line_saturating() {
    assert_eq!((Line(i32::MAX) + 1).0, i32::MAX);
    assert_eq!((Line(i32::MIN) - 1).0, i32::MIN);
}

#[test]
fn line_as_viewport_idx() {
    assert_eq!(Line(0).as_viewport_idx(), 0);
    assert_eq!(Line(5).as_viewport_idx(), 5);
    assert_eq!(Line(-1).as_viewport_idx(), 0);
    assert_eq!(Line(i32::MIN).as_viewport_idx(), 0);
}

#[test]
fn column_arithmetic() {
    let c = Column(5);
    assert_eq!((c + 3).0, 8);
    assert_eq!((c - 2).0, 3);
    assert_eq!(Column(10) - Column(3), 7);
}

#[test]
fn column_saturating_sub() {
    assert_eq!((Column(0) - 5).0, 0);
}

#[test]
fn point_ord() {
    let a = Point::new(Line(1), Column(0));
    let b = Point::new(Line(1), Column(5));
    let c = Point::new(Line(2), Column(0));
    assert!(a < b);
    assert!(b < c);
}

// --- cell ---

#[test]
fn default_cell_is_empty() {
    assert!(Cell::default().is_empty());
}

#[test]
fn non_default_cell_not_empty() {
    let c = Cell { c: 'A', ..Cell::default() };
    assert!(!c.is_empty());
}

#[test]
fn reset_clears_content() {
    let mut c = Cell {
        c: 'Z',
        fg: Color::Named(NamedColor::Red),
        bg: Color::Named(NamedColor::Blue),
        flags: CellFlags(CellFlags::BOLD | CellFlags::ITALIC),
        hyperlink: None,
    };
    let template = Cell::default();
    c.reset(&template);
    assert!(c.is_empty());
}

#[test]
fn cell_flags_bitwise() {
    let flags = CellFlags(CellFlags::BOLD | CellFlags::UNDERLINE);
    assert!(flags.contains(CellFlags::BOLD));
    assert!(flags.contains(CellFlags::UNDERLINE));
    assert!(!flags.contains(CellFlags::ITALIC));
}

#[test]
fn color_default_is_named_foreground() {
    assert_eq!(Color::default(), Color::Named(NamedColor::Foreground));
}

#[test]
fn hyperlink_cell_not_empty() {
    let c = Cell { hyperlink: Some(String::from("https://example.com")), ..Cell::default() };
    assert!(!c.is_empty());
}

#[test]
fn reset_clears_hyperlink() {
    let mut c = Cell { c: 'A', hyperlink: Some(String::from("https://example.com")), ..Cell::default() };
    c.reset(&Cell::default());
    assert!(c.hyperlink.is_none());
    assert!(c.is_empty());
}

// --- row ---

#[test]
fn new_row_is_clear() {
    let row = Row::new(80);
    assert_eq!(row.len(), 80);
    assert!(row.is_clear());
}

#[test]
fn write_marks_occ() {
    let mut row = Row::new(80);
    row.cell_mut(Column(10)).c = 'A';
    assert_eq!(row.occ(), 11);
}

#[test]
fn is_clear_after_write() {
    let mut row = Row::new(80);
    row.cell_mut(Column(5)).c = 'X';
    assert!(!row.is_clear());
}

#[test]
fn grow_extends_row() {
    let mut row = Row::new(40);
    row.grow(80);
    assert_eq!(row.len(), 80);
}

#[test]
fn shrink_returns_excess() {
    let mut row = Row::new(80);
    row.cell_mut(Column(60)).c = 'Z';
    let excess = row.shrink(40);
    assert_eq!(row.len(), 40);
    assert_eq!(excess.len(), 40);
}

#[test]
fn shrink_noop_when_wider() {
    let mut row = Row::new(40);
    let excess = row.shrink(80);
    assert!(excess.is_empty());
    assert_eq!(row.len(), 40);
}

#[test]
fn reset_clears_row() {
    let mut row = Row::new(80);
    row.cell_mut(Column(3)).c = 'Q';
    let template = Cell::default();
    row.reset(&template);
    assert!(row.is_clear());
    assert_eq!(row.occ(), 0);
}

// --- storage ---

fn make_storage(lines: usize) -> Storage {
    Storage::new(lines, 80)
}

fn write_storage(s: &mut Storage, logical: usize, c: char) {
    let mut row = s.take_logical(logical);
    row.cell_mut(Column(0)).c = c;
    s.set_row(logical, row);
}

#[test]
fn new_storage_has_correct_len() {
    let s = make_storage(24);
    assert_eq!(s.len(), 24);
    assert_eq!(s.visible_lines, 24);
}

#[test]
fn rotate_is_circular() {
    let mut s = make_storage(4);
    write_storage(&mut s, 0, 'X');
    s.rotate(1);
    assert_eq!(s.row(3).cell(Column(0)).c, 'X');
}

#[test]
fn rotate_negative() {
    let mut s = make_storage(4);
    write_storage(&mut s, 1, 'Y');
    s.rotate(-1);
    assert_eq!(s.row(2).cell(Column(0)).c, 'Y');
}

#[test]
fn swap_two_rows() {
    let mut s = make_storage(4);
    write_storage(&mut s, 0, 'A');
    write_storage(&mut s, 2, 'B');
    s.swap(0, 2);
    assert_eq!(s.row(0).cell(Column(0)).c, 'B');
    assert_eq!(s.row(2).cell(Column(0)).c, 'A');
}

#[test]
fn grow_visible_increases_len() {
    let mut s = make_storage(10);
    let template = Cell::default();
    s.grow_visible(5, 80, &template);
    assert_eq!(s.visible_lines, 15);
    assert_eq!(s.len(), 15);
}

#[test]
fn shrink_visible_decreases_visible_lines() {
    let mut s = make_storage(10);
    s.shrink_visible(3);
    assert_eq!(s.visible_lines, 7);
    assert_eq!(s.len(), 7);
}

#[test]
fn truncate_releases_excess() {
    let mut s = make_storage(5);
    let template = Cell::default();
    s.grow_visible(MAX_CACHE_SIZE + 10, 80, &template);
    s.truncate();
    assert!(s.inner.len() <= s.visible_lines + MAX_CACHE_SIZE);
}

#[test]
fn rotating_by_the_full_length_is_identity() {
    let mut s = make_storage(4);
    write_storage(&mut s, 1, 'R');
    s.rotate(4);
    assert_eq!(s.row(1).cell(Column(0)).c, 'R');
    s.rotate(-4);
    assert_eq!(s.row(1).cell(Column(0)).c, 'R');
}

// --- grid ---

fn make_grid(lines: usize, cols: usize) -> Grid {
    Grid::new(lines, cols, 100)
}

#[test]
fn new_grid_dimensions() {
    let g = make_grid(24, 80);
    assert_eq!(g.screen_lines(), 24);
    assert_eq!(g.columns(), 80);
    assert_eq!(g.total_lines(), 24);
    assert_eq!(g.history_size(), 0);
}

#[test]
fn cursor_cell_default() {
    let mut g = make_grid(10, 40);
    let cell = g.cursor_cell();
    assert_eq!(cell.c, ' ');
}

#[test]
fn cursor_cell_write() {
    let mut g = make_grid(10, 40);
    g.cursor.point = Point::new(Line(2), Column(5));
    g.cursor_cell().c = 'A';
    assert_eq!(g.cell(Point::new(Line(2), Column(5))).c, 'A');
}

#[test]
fn scroll_up_full_region_pushes_history() {
    let mut g = make_grid(5, 10);
    g.cell_mut(Point::new(Line(0), Column(0))).c = 'H';
    g.scroll_up(0..5, 1);
    assert_eq!(g.history_size(), 1);
    assert_eq!(g.cell(Point::new(Line(0), Column(0))).c, ' ');
}

#[test]
fn scroll_up_clears_bottom_lines() {
    let mut g = make_grid(5, 10);
    g.cell_mut(Point::new(Line(4), Column(0))).c = 'Z';
    g.scroll_up(0..5, 1);
    assert_eq!(g.cell(Point::new(Line(4), Column(0))).c, ' ');
}

#[test]
fn scroll_up_respects_max_limit() {
    let mut g = Grid::new(5, 10, 3);
    for _ in 0..10 {
        g.scroll_up(0..5, 1);
    }
    assert!(g.history_size() <= 3);
}

#[test]
fn scroll_down_moves_content() {
    let mut g = make_grid(5, 10);
    g.cell_mut(Point::new(Line(0), Column(0))).c = 'T';
    g.scroll_down(0..5, 1);
    assert_eq!(g.cell(Point::new(Line(1), Column(0))).c, 'T');
    assert_eq!(g.cell(Point::new(Line(0), Column(0))).c, ' ');
}

#[test]
fn scroll_display_delta() {
    let mut g = make_grid(5, 10);
    g.scroll_up(0..5, 2);
    g.scroll_display(Scroll::Delta(1));
    assert_eq!(g.display_offset, 1);
    g.scroll_display(Scroll::Bottom);
    assert_eq!(g.display_offset, 0);
    g.scroll_display(Scroll::Top);
    assert_eq!(g.display_offset, g.history_size());
}

#[test]
fn scroll_display_clamped() {
    let mut g = make_grid(5, 10);
    g.scroll_display(Scroll::Delta(100));
    assert_eq!(g.display_offset, 0);
}

#[test]
fn resize_wider() {
    let mut g = make_grid(10, 40);
    g.resize(10, 80);
    assert_eq!(g.columns(), 80);
    assert_eq!(g.screen_lines(), 10);
}

#[test]
fn resize_taller() {
    let mut g = make_grid(10, 40);
    g.resize(20, 40);
    assert_eq!(g.screen_lines(), 20);
    assert_eq!(g.total_lines(), 20);
}

#[test]
fn resize_smaller() {
    let mut g = make_grid(20, 80);
    g.cursor.point = Point::new(Line(19), Column(79));
    g.resize(10, 40);
    assert_eq!(g.screen_lines(), 10);
    assert_eq!(g.columns(), 40);
    assert!(g.cursor.point.line.0 < 10);
    assert!(g.cursor.point.column.0 < 40);
}

#[test]
fn clear_viewport_blanks_visible_area() {
    let mut g = make_grid(5, 10);
    g.cell_mut(Point::new(Line(2), Column(3))).c = 'X';
    g.clear_viewport();
    assert_eq!(g.cell(Point::new(Line(2), Column(3))).c, ' ');
}

#[test]
fn clear_history_removes_scrollback() {
    let mut g = make_grid(5, 10);
    g.scroll_up(0..5, 3);
    assert!(g.history_size() > 0);
    g.clear_history();
    assert_eq!(g.history_size(), 0);
    assert_eq!(g.display_offset, 0);
}

#[test]
fn scroll_up_inner_region_keeps_history() {
    let mut g = make_grid(5, 10);
    g.cell_mut(Point::new(Line(2), Column(0))).c = 'M';
    g.scroll_up(1..4, 1);
    assert_eq!(g.history_size(), 0);
    assert_eq!(g.cell(Point::new(Line(1), Column(0))).c, 'M');
    assert_eq!(g.cell(Point::new(Line(3), Column(0))).c, ' ');
}

#[test]
fn raw_row_cell_out_of_range_is_none() {
    let g = make_grid(3, 4);
    assert!(g.raw_row_cell(3, 0).is_none());
    assert!(g.raw_row_cell(0, 4).is_none());
    assert_eq!(g.raw_row_cell(2, 3).map(|c| c.c), Some(' '));
}

#[test]
fn scroll_up_full_region_shifts_by_count() {
    let mut g = Grid::new(5, 10, 100);
    for l in 0..5 {
        g.cell_mut(Point::new(Line(l), Column(0))).c = char::from(b'a' + l as u8);
    }
    g.scroll_up(0..5, 1);
    assert_eq!(g.history_size(), 1);
    for l in 0..4 {
        assert_eq!(g.cell(Point::new(Line(l), Column(0))).c, char::from(b'b' + l as u8));
    }
    assert_eq!(g.cell(Point::new(Line(4), Column(0))).c, ' ');
    // The scrolled-off line is the newest history row.
    assert_eq!(g.raw_row_cell(0, 0).unwrap().c, 'a');
    g.scroll_up(0..5, 2);
    assert_eq!(g.history_size(), 3);
    assert_eq!(g.cell(Point::new(Line(0), Column(0))).c, 'd');
    assert_eq!(g.raw_row_cell(1, 0).unwrap().c, 'b');
    assert_eq!(g.raw_row_cell(2, 0).unwrap().c, 'c');
}

#[test]
fn scroll_up_at_limit_drops_oldest_history() {
    let mut g = Grid::new(3, 4, 2);
    for round in 0..5u8 {
        g.cell_mut(Point::new(Line(0), Column(0))).c = char::from(b'0' + round);
        g.scroll_up(0..3, 1);
    }
    assert_eq!(g.history_size(), 2);
    assert_eq!(g.raw_row_cell(0, 0).unwrap().c, '3');
    assert_eq!(g.raw_row_cell(1, 0).unwrap().c, '4');
}

#[test]
fn scroll_up_top_region_keeps_lines_below() {
    let mut g = Grid::new(5, 4, 10);
    for l in 0..5 {
        g.cell_mut(Point::new(Line(l), Column(0))).c = char::from(b'a' + l as u8);
    }
    g.scroll_up(0..3, 1);
    assert_eq!(g.history_size(), 1);
    assert_eq!(g.raw_row_cell(0, 0).unwrap().c, 'a');
    assert_eq!(g.cell(Point::new(Line(0), Column(0))).c, 'b');
    assert_eq!(g.cell(Point::new(Line(1), Column(0))).c, 'c');
    assert_eq!(g.cell(Point::new(Line(2), Column(0))).c, ' ');
    assert_eq!(g.cell(Point::new(Line(3), Column(0))).c, 'd');
    assert_eq!(g.cell(Point::new(Line(4), Column(0))).c, 'e');
}

#[test]
fn initialize_rows_carry_template_colours() {
    let mut s = Storage::new(3, 4);
    let tpl = Cell { c: 'q', fg: Color::Indexed(3), bg: Color::Indexed(5), ..Cell::default() };
    s.initialize(4, 6, &tpl);
    assert_eq!(s.len(), 3);
    assert_eq!(s.physical_len(), 7);
    for i in 3..7 {
        let row = s.row(i);
        assert_eq!(row.len(), 6);
        for c in row.cells() {
            assert_eq!(c.c, ' ');
            assert_eq!(c.fg, Color::Indexed(3));
            assert_eq!(c.bg, Color::Indexed(5));
        }
    }
}

#[test]
fn resize_taller_after_scrolling_keeps_rows() {
    let mut g = Grid::new(3, 4, 100);
    for l in 0..3 {
        g.cell_mut(Point::new(Line(l), Column(0))).c = char::from(b'a' + l as u8);
    }
    g.scroll_up(0..3, 1);
    g.scroll_up(0..3, 1);
    g.cell_mut(Point::new(Line(2), Column(0))).c = 'z';
    g.resize(6, 4);
    assert_eq!(g.history_size(), 2);
    assert_eq!(g.cell(Point::new(Line(0), Column(0))).c, 'c');
    assert_eq!(g.cell(Point::new(Line(2), Column(0))).c, 'z');
    for l in 3..6 {
        assert_eq!(g.cell(Point::new(Line(l), Column(0))).c, ' ');
    }
    assert_eq!(g.raw_row_cell(0, 0).unwrap().c, 'a');
    assert!(g.display_offset() <= g.history_size());
}

#[test]
fn rotate_and_swap_round_trips() {
    let mut s = make_storage(4);
    for (i, c) in ['a', 'b', 'c', 'd'].into_iter().enumerate() {
        write_storage(&mut s, i, c);
    }
    s.rotate(3);
    assert_eq!(s.row(0).cells()[0].c, 'd');
    s.rotate(-3);
    s.swap(0, 2);
    assert_eq!(s.row(0).cells()[0].c, 'c');
    s.swap(0, 2);
    for (i, c) in ['a', 'b', 'c', 'd'].into_iter().enumerate() {
        assert_eq!(s.row(i).cells()[0].c, c);
    }
}

#[test]
fn resize_makes_every_row_as_wide_as_the_grid() {
    let mut g = Grid::new(6, 10, 100);
    g.scroll_up(0..6, 3);
    g.resize(3, 10);
    g.resize(3, 4);
    assert!(g.iter_raw_rows().iter().all(|r| r.len() == 4));
    g.resize(8, 12);
    assert!(g.iter_raw_rows().iter().all(|r| r.len() == 12));
    assert!(g.display_offset() <= g.history_size());
}

#[test]
fn truncate_keeps_only_rows_in_use_up_to_the_limit() {
    let mut s = make_storage(5);
    write_storage(&mut s, 0, 'x');
    let tpl = Cell::default();
    s.initialize(MAX_CACHE_SIZE + 10, 80, &tpl);
    assert_eq!(s.physical_len(), MAX_CACHE_SIZE + 15);
    s.truncate();
    assert_eq!(s.physical_len(), 5);
    assert_eq!(s.len(), 5);
    assert_eq!(s.row(0).cells()[0].c, 'x');
}
