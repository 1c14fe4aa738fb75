use sdit_core::grid::Grid;
use sdit_core::index::{Column, Line, Point};
use sdit_core::selection::{selected_text, Selection, SelectionType};


fn write_str(grid: &mut Grid, row: usize, col: usize, s: &str) {
    for (i, c) in s.chars().enumerate() {
        #[allow(clippy::cast_possible_wrap)]
        let pt = Point::new(Line(row as i32), Column(col + i));
        grid.cell_mut(pt).c = c;
    }
}

// --- Selection::contains テスト ---

#[test]
fn contains_simple_single_row() {
    let sel = Selection {
        ty: SelectionType::Simple,
        start: Point::new(Line(1), Column(2)),
        end: Point::new(Line(1), Column(5)),
    };
    // 範囲内
    assert!(sel.contains(2, 1), "start col should be in range");
    assert!(sel.contains(5, 1), "end col should be in range");
    assert!(sel.contains(3, 1), "mid col should be in range");
    // 範囲外
    assert!(!sel.contains(1, 1), "col before start should be out");
    assert!(!sel.contains(6, 1), "col after end should be out");
    assert!(!sel.contains(3, 0), "row above should be out");
    assert!(!sel.contains(3, 2), "row below should be out");
}

#[test]
fn contains_simple_multi_row() {
    let sel = Selection {
        ty: SelectionType::Simple,
        start: Point::new(Line(1), Column(3)),
        end: Point::new(Line(3), Column(5)),
    };
    // 開始行: sc以降
    assert!(sel.contains(3, 1), "start col on start row");
    assert!(sel.contains(9, 1), "col after start on start row");
    assert!(!sel.contains(2, 1), "col before start on start row");
    // 中間行: 全列
    assert!(sel.contains(0, 2), "first col on middle row");
    assert!(sel.contains(99, 2), "far col on middle row");
    // 終了行: ec以前
    assert!(sel.contains(0, 3), "first col on end row");
    assert!(sel.contains(5, 3), "end col on end row");
    assert!(!sel.contains(6, 3), "col after end on end row");
}

#[test]
fn contains_reversed_selection() {
    // end < start でも normalized() で正しく動作する
    let sel = Selection {
        ty: SelectionType::Simple,
        start: Point::new(Line(3), Column(5)),
        end: Point::new(Line(1), Column(3)),
    };
    assert!(sel.contains(3, 1));
    assert!(sel.contains(5, 3));
    assert!(!sel.contains(2, 1));
}

#[test]
fn contains_lines_type() {
    let sel = Selection {
        ty: SelectionType::Lines,
        start: Point::new(Line(2), Column(0)),
        end: Point::new(Line(4), Column(79)),
    };
    // 行全体が選択される
    assert!(sel.contains(0, 2), "first col on start row");
    assert!(sel.contains(79, 2), "last col on start row");
    assert!(sel.contains(0, 4), "first col on end row");
    assert!(!sel.contains(0, 1), "row before selection");
    assert!(!sel.contains(0, 5), "row after selection");
}

// --- selected_text テスト ---

#[test]
fn selected_text_single_row() {
    let mut grid = Grid::new(5, 10, 0);
    write_str(&mut grid, 0, 0, "Hello     ");
    let sel = Selection {
        ty: SelectionType::Simple,
        start: Point::new(Line(0), Column(0)),
        end: Point::new(Line(0), Column(4)),
    };
    let text = selected_text(&grid, &sel);
    assert_eq!(text, "Hello");
}

#[test]
fn selected_text_multi_row() {
    let mut grid = Grid::new(5, 10, 0);
    write_str(&mut grid, 0, 0, "Hello");
    write_str(&mut grid, 1, 0, "World");
    let sel = Selection {
        ty: SelectionType::Simple,
        start: Point::new(Line(0), Column(0)),
        end: Point::new(Line(1), Column(4)),
    };
    let text = selected_text(&grid, &sel);
    assert_eq!(text, "Hello\nWorld");
}

#[test]
fn selected_text_lines_type() {
    let mut grid = Grid::new(5, 10, 0);
    write_str(&mut grid, 1, 0, "abc");
    write_str(&mut grid, 2, 0, "def");
    let sel = Selection {
        ty: SelectionType::Lines,
        start: Point::new(Line(1), Column(0)),
        end: Point::new(Line(2), Column(9)),
    };
    let text = selected_text(&grid, &sel);
    // Lines タイプは行全体
    assert!(text.contains("abc"));
    assert!(text.contains("def"));
    // 末尾改行は除去
    assert!(!text.ends_with('\n'));
}

#[test]
fn selected_text_trims_trailing_spaces() {
    let mut grid = Grid::new(5, 10, 0);
    write_str(&mut grid, 0, 0, "Hi   ");
    let sel = Selection {
        ty: SelectionType::Simple,
        start: Point::new(Line(0), Column(0)),
        end: Point::new(Line(0), Column(9)),
    };
    let text = selected_text(&grid, &sel);
    assert_eq!(text, "Hi");
}

#[test]
fn to_tuple_simple() {
    let sel = Selection {
        ty: SelectionType::Simple,
        start: Point::new(Line(1), Column(3)),
        end: Point::new(Line(2), Column(7)),
    };
    assert_eq!(sel.to_tuple(80), ((3, 1), (7, 2)));
}

#[test]
fn to_tuple_lines() {
    let sel = Selection {
        ty: SelectionType::Lines,
        start: Point::new(Line(1), Column(0)),
        end: Point::new(Line(3), Column(79)),
    };
    assert_eq!(sel.to_tuple(80), ((0, 1), (79, 3)));
}

#[test]
fn line_selection_takes_whole_rows() {
    let mut grid = Grid::new(5, 10, 0);
    write_str(&mut grid, 0, 0, "abcdef");
    write_str(&mut grid, 1, 0, "ghi");
    let sel = Selection {
        ty: SelectionType::Lines,
        start: Point::new(Line(0), Column(3)),
        end: Point::new(Line(1), Column(1)),
    };
    assert_eq!(selected_text(&grid, &sel), "abcdef\nghi");
}
