use sdit_core::config::LinkConfig;
use sdit_core::grid::cell::Cell;
use sdit_core::terminal::url_detector::{
    compile_pattern, detect_patterns_in_line, expand_template, extract_url_from_action, UrlDetector,
};



fn make_cells(text: &str) -> Vec<Cell> {
    text.chars().map(|c| Cell { c, ..Cell::default() }).collect()
}

fn make_cells_with_hyperlink(text: &str, url: &str) -> Vec<Cell> {
    text.chars().map(|c| Cell { c, hyperlink: Some(url.to_string()), ..Cell::default() }).collect()
}

/// The group texts of the first match of `pattern` in `text`.
fn groups(pattern: &str, text: &str) -> Vec<Option<String>> {
    let re = regex::Regex::new(pattern).unwrap();
    let caps = re.captures(text).unwrap();
    caps.iter().map(|m| m.map(|m| m.as_str().to_string())).collect()
}

#[test]
fn detect_simple_url() {
    let detector = UrlDetector::new();
    let cells = make_cells("visit https://example.com for more");
    let matches = detector.detect_urls_in_line(&cells);
    assert_eq!(matches.len(), 1);
    assert_eq!(matches[0].url, "https://example.com");
    assert_eq!(matches[0].start_col, 6);
    assert_eq!(matches[0].end_col, 25);
}

#[test]
fn detect_multiple_urls() {
    let detector = UrlDetector::new();
    let cells = make_cells("https://a.com and https://b.com end");
    let matches = detector.detect_urls_in_line(&cells);
    assert_eq!(matches.len(), 2);
    assert_eq!(matches[0].url, "https://a.com");
    assert_eq!(matches[1].url, "https://b.com");
}

#[test]
fn detect_no_url() {
    let detector = UrlDetector::new();
    let cells = make_cells("no urls here");
    assert!(detector.detect_urls_in_line(&cells).is_empty());
}

#[test]
fn find_url_at_osc8_priority() {
    let detector = UrlDetector::new();
    // OSC 8 hyperlink を持つセルの場合、正規表現より優先される
    let mut cells = make_cells("click here to visit");
    // col 6 のセルに hyperlink をセット
    cells[6].hyperlink = Some("https://osc8.example.com".to_string());
    let result = detector.find_url_at(&cells, 6);
    assert_eq!(result, Some("https://osc8.example.com".to_owned()));
}

#[test]
fn find_url_at_regex_fallback() {
    let detector = UrlDetector::new();
    let cells = make_cells("see https://example.com now");
    // col 4 は https の 's' の位置
    let result = detector.find_url_at(&cells, 4);
    assert_eq!(result, Some("https://example.com".to_owned()));
}

#[test]
fn find_url_at_not_in_url() {
    let detector = UrlDetector::new();
    let cells = make_cells("see https://example.com now");
    // col 0 は URL 外
    let result = detector.find_url_at(&cells, 0);
    assert!(result.is_none());
}

#[test]
fn osc8_hyperlink_all_cells() {
    let detector = UrlDetector::new();
    let cells = make_cells_with_hyperlink("hello", "https://osc8.example.com");
    for col in 0..5 {
        let result = detector.find_url_at(&cells, col);
        assert_eq!(result, Some("https://osc8.example.com".to_owned()), "col {col}");
    }
}

#[test]
fn url_with_path_and_query() {
    let detector = UrlDetector::new();
    let cells = make_cells("https://example.com/path?q=1&r=2");
    let matches = detector.detect_urls_in_line(&cells);
    assert_eq!(matches.len(), 1);
    assert!(matches[0].url.contains("/path?q=1&r=2"));
}

#[test]
fn http_url_detected() {
    let detector = UrlDetector::new();
    let cells = make_cells("http://example.com");
    let matches = detector.detect_urls_in_line(&cells);
    assert_eq!(matches.len(), 1);
    assert_eq!(matches[0].url, "http://example.com");
}

// -----------------------------------------------------------------------
// detect_patterns_in_line のテスト
// -----------------------------------------------------------------------

#[test]
fn detect_patterns_finds_file_paths() {
    let cells = make_cells("/usr/local/bin/fish");
    let matches = detect_patterns_in_line(&cells, &[]);
    let path_match = matches.iter().find(|m| m.text == "/usr/local/bin/fish");
    assert!(path_match.is_some(), "ファイルパスが検出されなかった: {matches:?}");
}

#[test]
fn detect_patterns_finds_git_hashes() {
    let cells = make_cells("commit abc1234def5 is the one");
    let matches = detect_patterns_in_line(&cells, &[]);
    let hash_match = matches.iter().find(|m| m.text == "abc1234def5");
    assert!(hash_match.is_some(), "git ハッシュが検出されなかった: {matches:?}");
}

#[test]
fn detect_patterns_finds_urls_and_paths() {
    let cells = make_cells("see https://example.com and /etc/hosts");
    let matches = detect_patterns_in_line(&cells, &[]);
    let url_match = matches.iter().find(|m| m.text == "https://example.com");
    let path_match = matches.iter().find(|m| m.text == "/etc/hosts");
    assert!(url_match.is_some(), "URL が検出されなかった: {matches:?}");
    assert!(path_match.is_some(), "ファイルパスが検出されなかった: {matches:?}");
}

#[test]
fn detect_patterns_no_overlap() {
    // URL にパスが含まれる場合、URL パターンが優先されてパスとして重複検出されないこと
    let cells = make_cells("https://example.com/foo/bar");
    let matches = detect_patterns_in_line(&cells, &[]);
    // start_col が重複するマッチがないこと
    for i in 0..matches.len() {
        for j in (i + 1)..matches.len() {
            let a = &matches[i];
            let b = &matches[j];
            let overlaps = !(a.end_col <= b.start_col || a.start_col >= b.end_col);
            assert!(!overlaps, "マッチが重複している: {:?} と {:?}", a, b);
        }
    }
}

#[test]
fn detect_patterns_empty_cells() {
    let cells = make_cells("");
    let matches = detect_patterns_in_line(&cells, &[]);
    assert!(matches.is_empty());
}

#[test]
fn detect_patterns_custom_patterns() {
    let pattern = compile_pattern(r"FOO-\d+").unwrap();
    let cells = make_cells("issue FOO-123 is fixed");
    let matches = detect_patterns_in_line(&cells, &[&pattern]);
    assert_eq!(matches.len(), 1);
    assert_eq!(matches[0].text, "FOO-123");
}

#[test]
fn detect_patterns_sorted_by_col() {
    let cells = make_cells("/var/a and /usr/b");
    let matches = detect_patterns_in_line(&cells, &[]);
    for i in 1..matches.len() {
        assert!(
            matches[i].start_col >= matches[i - 1].start_col,
            "マッチが列順になっていない: {:?}",
            matches
        );
    }
}

// -----------------------------------------------------------------------
// カスタムリンク / テンプレート展開のテスト
// -----------------------------------------------------------------------

#[test]
fn expand_template_dollar_zero() {
    let caps = groups(r"JIRA-\d+", "see JIRA-123 here");
    let result = expand_template("https://jira.example.com/browse/$0", &caps);
    assert_eq!(result, "https://jira.example.com/browse/JIRA-123");
}

#[test]
fn expand_template_capture_groups() {
    let caps = groups(r"(\w+)-(\d+)", "PROJ-456");
    let result = expand_template("https://example.com/$1/issues/$2", &caps);
    assert_eq!(result, "https://example.com/PROJ/issues/456");
}

#[test]
fn expand_template_missing_group_is_empty() {
    let caps = groups(r"FOO-(\d+)", "FOO-789");
    // $2 は存在しないキャプチャグループ → 空文字列
    let result = expand_template("$1-$2", &caps);
    assert_eq!(result, "789-");
}

#[test]
fn extract_url_rejects_javascript_scheme() {
    let caps = groups(r"evil", "evil");
    let result = extract_url_from_action("open:javascript:alert(1)", &caps);
    assert!(result.is_none(), "javascript: スキームは拒否されるべき");
}

#[test]
fn extract_url_rejects_data_scheme() {
    let caps = groups(r"evil", "evil");
    let result = extract_url_from_action("open:data:text/html,<h1>XSS</h1>", &caps);
    assert!(result.is_none(), "data: スキームは拒否されるべき");
}

#[test]
fn extract_url_rejects_missing_open_prefix() {
    let caps = groups(r"PAT-\d+", "PAT-123");
    let result = extract_url_from_action("https://example.com/$0", &caps);
    assert!(result.is_none(), "open: プレフィックスがない場合は None");
}

#[test]
fn extract_url_allows_vscode_scheme() {
    let caps = groups(r"file\.rs:\d+", "file.rs:42");
    let result = extract_url_from_action("open:vscode://file/$0", &caps);
    assert_eq!(result, Some("vscode://file/file.rs:42".to_owned()));
}

#[test]
fn url_detector_custom_pattern_detected() {
        let links = vec![LinkConfig {
        regex: r"JIRA-\d+".to_owned(),
        action: "open:https://jira.example.com/browse/$0".to_owned(),
    }];
    let detector = UrlDetector::with_links(&links);
    let cells = make_cells("fixed JIRA-123 today");
    // col 6 = 'J' の位置
    let result = detector.find_url_at(&cells, 6);
    assert_eq!(result, Some("https://jira.example.com/browse/JIRA-123".to_owned()));
}

#[test]
fn url_detector_custom_pattern_no_match() {
        let links = vec![LinkConfig {
        regex: r"JIRA-\d+".to_owned(),
        action: "open:https://jira.example.com/browse/$0".to_owned(),
    }];
    let detector = UrlDetector::with_links(&links);
    let cells = make_cells("fixed JIRA-123 today");
    // col 0 = 'f' の位置（マッチ外）
    let result = detector.find_url_at(&cells, 0);
    assert!(result.is_none());
}

#[test]
fn url_detector_invalid_regex_skipped() {
        // 不正な正規表現はスキップされ、パニックしない
    let links = vec![LinkConfig {
        regex: r"[invalid regex".to_owned(),
        action: "open:https://example.com/$0".to_owned(),
    }];
    let detector = UrlDetector::with_links(&links);
    assert_eq!(detector.custom_pattern_count(), 0);
}
