use sdit_core::grid::Grid;
use sdit_core::index::{Column, Line, Point};
use sdit_core::terminal::vi_mode::{ViCursor, ViMotion};


fn make_grid(lines: usize, cols: usize) -> Grid {
    Grid::new(lines, cols, 100)
}

fn write_char(grid: &mut Grid, row: usize, col: usize, c: char) {
    #[allow(clippy::cast_possible_wrap)]
    let point = Point::new(Line(row as i32), Column(col));
    grid.cell_mut(point).c = c;
}

// --- 基本移動 ---

#[test]
fn vi_cursor_move_down() {
    let grid = make_grid(10, 80);
    let cursor = ViCursor::new(Point::new(Line(0), Column(0)));
    let moved = cursor.motion(&grid, ViMotion::Down);
    assert_eq!(moved.point.line.0, 1);
}

#[test]
fn vi_cursor_move_up() {
    let grid = make_grid(10, 80);
    let cursor = ViCursor::new(Point::new(Line(5), Column(0)));
    let moved = cursor.motion(&grid, ViMotion::Up);
    assert_eq!(moved.point.line.0, 4);
}

#[test]
fn vi_cursor_move_left() {
    let grid = make_grid(10, 80);
    let cursor = ViCursor::new(Point::new(Line(0), Column(5)));
    let moved = cursor.motion(&grid, ViMotion::Left);
    assert_eq!(moved.point.column.0, 4);
}

#[test]
fn vi_cursor_move_right() {
    let grid = make_grid(10, 80);
    let cursor = ViCursor::new(Point::new(Line(0), Column(5)));
    let moved = cursor.motion(&grid, ViMotion::Right);
    assert_eq!(moved.point.column.0, 6);
}

#[test]
fn vi_cursor_clamp_at_bottom() {
    let grid = make_grid(10, 80);
    let cursor = ViCursor::new(Point::new(Line(9), Column(0)));
    let moved = cursor.motion(&grid, ViMotion::Down);
    assert_eq!(moved.point.line.0, 9); // クランプ
}

#[test]
fn vi_cursor_clamp_at_top_no_history() {
    let grid = make_grid(10, 80);
    let cursor = ViCursor::new(Point::new(Line(0), Column(0)));
    let moved = cursor.motion(&grid, ViMotion::Up);
    assert_eq!(moved.point.line.0, 0); // 履歴なし → クランプ
}

#[test]
fn vi_cursor_top_motion() {
    let grid = make_grid(10, 80);
    let cursor = ViCursor::new(Point::new(Line(5), Column(10)));
    let moved = cursor.motion(&grid, ViMotion::Top);
    assert_eq!(moved.point.line.0, 0); // 履歴なし → Line(0)
    assert_eq!(moved.point.column.0, 0);
}

#[test]
fn vi_cursor_bottom_motion() {
    let grid = make_grid(10, 80);
    let cursor = ViCursor::new(Point::new(Line(0), Column(0)));
    let moved = cursor.motion(&grid, ViMotion::Bottom);
    assert_eq!(moved.point.line.0, 9);
    assert_eq!(moved.point.column.0, 0);
}

#[test]
fn vi_cursor_word_right_basic() {
    let mut grid = make_grid(5, 20);
    // "hello world" と書き込む
    for (i, c) in "hello".chars().enumerate() {
        write_char(&mut grid, 0, i, c);
    }
    // col 5 はスペース
    for (i, c) in "world".chars().enumerate() {
        write_char(&mut grid, 0, 6 + i, c);
    }

    let cursor = ViCursor::new(Point::new(Line(0), Column(0)));
    let moved = cursor.motion(&grid, ViMotion::WordRight);
    // "hello" の後の空白をスキップして "world" の先頭 (col 6) に移動
    assert_eq!(
        moved.point.column.0, 6,
        "word_right: expected col 6, got {}",
        moved.point.column.0
    );
}

#[test]
fn vi_cursor_word_left_basic() {
    let mut grid = make_grid(5, 20);
    for (i, c) in "hello".chars().enumerate() {
        write_char(&mut grid, 0, i, c);
    }
    for (i, c) in "world".chars().enumerate() {
        write_char(&mut grid, 0, 6 + i, c);
    }

    // "world" の末尾から b
    let cursor = ViCursor::new(Point::new(Line(0), Column(10)));
    let moved = cursor.motion(&grid, ViMotion::WordLeft);
    assert_eq!(
        moved.point.column.0, 6,
        "word_left: expected col 6, got {}",
        moved.point.column.0
    );
}

#[test]
fn vi_cursor_first_last() {
    let cols = 80;
    let mid_col = 40;
    let last_col = cols - 1;
    let grid = make_grid(5, cols);
    let cursor = ViCursor::new(Point::new(Line(0), Column(mid_col)));
    let moved_first = cursor.motion(&grid, ViMotion::First);
    assert_eq!(moved_first.point.column.0, 0);
    let moved_last = cursor.motion(&grid, ViMotion::Last);
    assert_eq!(moved_last.point.column.0, last_col);
}

#[test]
fn vi_cursor_screen_top_middle_bottom() {
    let grid = make_grid(10, 80);
    let cursor = ViCursor::new(Point::new(Line(5), Column(0)));

    let top = cursor.motion(&grid, ViMotion::ScreenTop);
    assert_eq!(top.point.line.0, 0); // display_offset=0 → Line(0)

    let mid = cursor.motion(&grid, ViMotion::ScreenMiddle);
    assert_eq!(mid.point.line.0, 5); // 0 + 10/2 = 5

    let bot = cursor.motion(&grid, ViMotion::ScreenBottom);
    assert_eq!(bot.point.line.0, 9); // 0 + 10 - 1 = 9
}

#[test]
fn every_motion_stays_inside_history_and_viewport() {
    let mut g = make_grid(4, 6);
    write_char(&mut g, 0, 2, 'x');
    g.scroll_up(0..4, 2);
    g.scroll_display(sdit_core::grid::Scroll::Delta(5));
    assert_eq!(g.history_size(), 2);
    assert_eq!(g.display_offset(), 2);
    let motions = [
        ViMotion::Up, ViMotion::Down, ViMotion::Left, ViMotion::Right, ViMotion::First, ViMotion::Last,
        ViMotion::WordRight, ViMotion::WordLeft, ViMotion::WordEnd, ViMotion::ParagraphUp,
        ViMotion::ParagraphDown, ViMotion::Top, ViMotion::Bottom, ViMotion::ScreenTop,
        ViMotion::ScreenMiddle, ViMotion::ScreenBottom,
    ];
    for start in [Point::new(Line(-2), Column(0)), Point::new(Line(3), Column(5)), Point::new(Line(0), Column(2))] {
        for m in motions {
            let p = ViCursor::new(start).motion(&g, m).point;
            assert!(p.line.0 >= -2 && p.line.0 <= 3, "{m:?} from {start:?}");
            assert!(p.column.0 < 6);
        }
    }
}
