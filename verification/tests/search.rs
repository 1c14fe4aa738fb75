use sdit_core::grid::Grid;
use sdit_core::index::{Column, Line, Point};
use sdit_core::terminal::search::SearchEngine;


/// 指定サイズの Grid を作成し、viewport 行の指定位置にテキストを書き込む。
fn make_grid_with_text(lines: usize, cols: usize, row: usize, text: &str) -> Grid {
    let mut grid: Grid = Grid::new(lines, cols, 200);
    for (i, ch) in text.chars().enumerate() {
        if i >= cols {
            break;
        }
        grid.cell_mut(Point::new(Line(i32::try_from(row).unwrap_or(0)), Column(i))).c = ch;
    }
    grid
}

#[test]
fn search_empty_query() {
    let grid = make_grid_with_text(5, 40, 0, "hello world");
    let results = SearchEngine::search(&grid, "");
    assert!(results.is_empty());
}

#[test]
fn search_no_match() {
    let grid = make_grid_with_text(5, 40, 0, "hello world");
    let results = SearchEngine::search(&grid, "zzz");
    assert!(results.is_empty());
}

#[test]
fn search_single_match() {
    let grid = make_grid_with_text(5, 40, 0, "hello world");
    let results = SearchEngine::search(&grid, "world");
    assert_eq!(results.len(), 1);
    let m = &results[0];
    // "hello world" => "world" は col 6 から始まる
    let expected_start = "hello ".len();
    let expected_end = expected_start + "world".len();
    assert_eq!(m.start_col, expected_start);
    assert_eq!(m.end_col, expected_end);
}

#[test]
fn search_multiple_matches_same_row() {
    // "abab" を検索すると "ab" が 2 回マッチ
    let grid = make_grid_with_text(5, 40, 0, "abab");
    let results = SearchEngine::search(&grid, "ab");
    assert_eq!(results.len(), 2, "should find 2 non-overlapping matches");
    assert_eq!(results[0].start_col, 0, "first match starts at col 0");
    assert_eq!(results[0].end_col, 2, "first match ends at col 2");
    assert_eq!(results[1].start_col, 2, "second match starts at col 2");
    assert_eq!(results[1].end_col, 4, "second match ends at col 4");
}

#[test]
fn search_multiple_matches_multiple_rows() {
    let mut grid: Grid = Grid::new(5, 40, 200);
    // 行 0 に "foo bar"
    for (i, ch) in "foo bar".chars().enumerate() {
        grid.cell_mut(Point::new(Line(0), Column(i))).c = ch;
    }
    // 行 2 に "bar baz"
    for (i, ch) in "bar baz".chars().enumerate() {
        grid.cell_mut(Point::new(Line(2), Column(i))).c = ch;
    }

    let results = SearchEngine::search(&grid, "bar");
    assert_eq!(results.len(), 2);
    // 両方とも同じ raw_row ではなく異なる行にある
    assert_ne!(results[0].raw_row, results[1].raw_row);
    // start_col の確認
    assert_eq!(results[0].start_col, 4); // "foo bar" の bar は col 4
    assert_eq!(results[1].start_col, 0); // "bar baz" の bar は col 0
}

#[test]
fn search_case_insensitive() {
    let grid = make_grid_with_text(5, 40, 0, "Hello World");
    // 小文字で検索
    let results = SearchEngine::search(&grid, "hello");
    assert_eq!(results.len(), 1, "lowercase 'hello' should match once");
    assert_eq!(results[0].start_col, 0, "lowercase match starts at col 0");
    assert_eq!(results[0].end_col, "hello".len(), "lowercase match end col");

    // 大文字で検索
    let results2 = SearchEngine::search(&grid, "WORLD");
    assert_eq!(results2.len(), 1, "uppercase 'WORLD' should match once");
    let world_start = "Hello ".len();
    assert_eq!(results2[0].start_col, world_start, "uppercase match start col");
    assert_eq!(results2[0].end_col, world_start + "WORLD".len(), "uppercase match end col");
}

#[test]
fn raw_row_to_viewport_live() {
    // history_size=5, display_offset=0, screen_lines=10
    // view_start = 5 - 0 = 5
    // raw_row 5 → viewport 0, raw_row 14 → viewport 9
    let result = SearchEngine::raw_row_to_viewport(5, 5, 0, 10);
    assert_eq!(result, Some(0));

    let result2 = SearchEngine::raw_row_to_viewport(14, 5, 0, 10);
    assert_eq!(result2, Some(9));

    // ビューポート外（履歴行）
    let result3 = SearchEngine::raw_row_to_viewport(4, 5, 0, 10);
    assert_eq!(result3, None);

    // ビューポート外（後方）
    let result4 = SearchEngine::raw_row_to_viewport(15, 5, 0, 10);
    assert_eq!(result4, None);
}

#[test]
fn raw_row_to_viewport_scrolled() {
    // history_size=10, display_offset=5, screen_lines=10
    // view_start = 10 - 5 = 5
    // raw_row 5 → viewport 0, raw_row 14 → viewport 9
    let result = SearchEngine::raw_row_to_viewport(5, 10, 5, 10);
    assert_eq!(result, Some(0));

    let result2 = SearchEngine::raw_row_to_viewport(14, 10, 5, 10);
    assert_eq!(result2, Some(9));

    // ビューポート外
    let result3 = SearchEngine::raw_row_to_viewport(4, 10, 5, 10);
    assert_eq!(result3, None);
}

#[test]
fn display_offset_for_match_in_history() {
    let history_size = 20;
    let screen_lines = 10;
    // raw_row=3 (履歴行の先頭付近)
    // half=5, view_start = max(3-5, 0) = 0
    // display_offset = history_size - 0 = 20
    let raw_row = 3;
    let offset = SearchEngine::display_offset_for_match(raw_row, history_size, screen_lines);
    assert_eq!(offset, history_size);

    // raw_row=10 (履歴行の中間)
    // view_start = 10 - 5 = 5
    // display_offset = history_size - 5 = 15
    let raw_row2 = 10;
    let offset2 = SearchEngine::display_offset_for_match(raw_row2, history_size, screen_lines);
    assert_eq!(offset2, history_size - (raw_row2 - screen_lines / 2));
}

#[test]
fn display_offset_for_match_in_viewport() {
    // raw_row >= history_size → offset = 0
    let offset = SearchEngine::display_offset_for_match(20, 20, 10);
    assert_eq!(offset, 0);

    let offset2 = SearchEngine::display_offset_for_match(25, 20, 10);
    assert_eq!(offset2, 0);
}

#[test]
fn search_skips_empty_rows() {
    // 空行が多数ある状態でも正しく検索できることを確認する。
    // 5 行のグリッドで最初と最後の行にだけ内容を書き込む。
    let grid = {
        let mut g: Grid = Grid::new(5, 40, 200);
        for (i, ch) in "alpha".chars().enumerate() {
            g.cell_mut(Point::new(Line(0), Column(i))).c = ch;
        }
        for (i, ch) in "beta".chars().enumerate() {
            g.cell_mut(Point::new(Line(4), Column(i))).c = ch;
        }
        g
    };

    let results = SearchEngine::search(&grid, "a");
    // "alpha" の 'a' は col 0 と col 4 の 2 件
    // "beta" の 'a' は col 3 の 1 件
    assert!(results.len() >= 3);

    // "alpha" のマッチは row 0 から始まる
    let alpha_matches: Vec<_> = results.iter().filter(|m| m.start_col == 0).collect();
    assert!(!alpha_matches.is_empty());

    // "beta" のマッチは row 4 (= raw_row: history_size + 4 = 4) に存在する
    let beta_matches: Vec<_> = results.iter().filter(|m| m.start_col == 3).collect();
    assert!(!beta_matches.is_empty());

    // 2 つのグループは異なる raw_row にある
    assert_ne!(alpha_matches[0].raw_row, beta_matches[0].raw_row);
}

#[test]
fn search_row_finds_overlapping_matches_in_lowered_text() {
    let lower: Vec<char> = "aaab".chars().collect();
    let q: Vec<char> = "aa".chars().collect();
    let cols: Vec<usize> = vec![0, 2, 3, 5];
    let mut results = Vec::new();
    let capped = sdit_core::terminal::search::search_row(&lower, &q, &cols, 4, &mut results);
    assert!(!capped);
    assert_eq!(results.len(), 2);
    assert_eq!((results[0].raw_row, results[0].start_col, results[0].end_col), (4, 0, 3));
    assert_eq!((results[1].raw_row, results[1].start_col, results[1].end_col), (4, 2, 5));
}
