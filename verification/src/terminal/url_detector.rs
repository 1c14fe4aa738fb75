//! Link detection in a line of cells: OSC 8 hyperlinks first, then custom
//! link patterns, then plain `http(s)://` URLs; and the quick-select pattern
//! matches.
use vstd::prelude::*;
use crate::config::LinkConfig;
use crate::grid::cell::Cell;
use crate::terminal::search::{cells_to_text_with_map, row_cols, row_text};
use crate::text::{
    str_chars, chars_to_string, utf8_len, char_utf8_len, char_len_utf8, ascii_lower_seq, ascii_lowercase, chars_eq,
};

verus! {

#[verifier::external_type_specification]
#[verifier::external_body]
pub struct ExRegex(regex::Regex);

/// A compiled regular expression with the source it was compiled from.
pub struct Pattern {
    source: String,
    re: regex::Regex,
}

impl Pattern {
    /// The source text of the expression.
    pub closed spec fn source_text(&self) -> Seq<char> {
        self.source@
    }

    /// The source text of the expression.
    pub fn source(&self) -> (r: &str)
        ensures
            r@ == self.source_text(),
    {
        self.source.as_str()
    }
}

/// The byte spans of the successive non-overlapping matches that
/// `regex::Regex::find_iter` reports for `pattern` on `text`.
pub uninterp spec fn regex_matches(pattern: Seq<char>, text: Seq<char>) -> Seq<(usize, usize)>;

/// The capture-group byte spans of the successive matches that
/// `regex::Regex::captures_iter` reports for `pattern` on `text`.
pub uninterp spec fn regex_captures(pattern: Seq<char>, text: Seq<char>) -> Seq<Seq<Option<(usize, usize)>>>;

/// Whether `regex::Regex::new` compiles `source`.
pub uninterp spec fn regex_compiles(source: Seq<char>) -> bool;

/// `regex::Regex::new`: the compiled expression, `None` when the source does
/// not parse (or exceeds the default size limit).
#[verifier::external_body]
fn regex_compile(source: &str) -> (r: Option<regex::Regex>)
    ensures
        r is Some <==> regex_compiles(source@),
{
    regex::Regex::new(source).ok()
}

/// Whether `regex::RegexBuilder` with size limit `limit` compiles `source`.
pub uninterp spec fn regex_compiles_within(source: Seq<char>, limit: usize) -> bool;

/// `regex::RegexBuilder::new(source).size_limit(limit).build()`: the compiled
/// expression, `None` when the source does not parse or needs more than
/// `limit` bytes.
#[verifier::external_body]
fn regex_compile_limited(source: &str, limit: usize) -> (r: Option<regex::Regex>)
    ensures
        r is Some <==> regex_compiles_within(source@, limit),
{
    regex::RegexBuilder::new(source).size_limit(limit).build().ok()
}

/// `regex::Regex::find_iter` on `text`, each match as its byte span. The
/// crate reports spans in order, each inside the text.
#[verifier::external_body]
fn find_spans(p: &Pattern, text: &str) -> (r: Vec<(usize, usize)>)
    ensures
        r@ == regex_matches(p.source_text(), text@),
        forall|i: int| 0 <= i < r@.len() ==> #[trigger] r@[i].0 <= r@[i].1 && r@[i].1 <= utf8_len(text@),
{
    p.re.find_iter(text).map(|m| (m.start(), m.end())).collect()
}

/// The capture spans as sequences.
pub open spec fn captures_view(v: Seq<Vec<Option<(usize, usize)>>>) -> Seq<Seq<Option<(usize, usize)>>> {
    Seq::new(v.len(), |i: int| v[i]@)
}

/// `regex::Regex::captures_iter` on `text`, each match as the byte spans of
/// its groups (`None` for a group that did not take part). Group 0, the whole
/// match, is always present; every span lies inside the text.
#[verifier::external_body]
fn capture_spans(p: &Pattern, text: &str) -> (r: Vec<Vec<Option<(usize, usize)>>>)
    ensures
        captures_view(r@) == regex_captures(p.source_text(), text@),
        forall|i: int| 0 <= i < r@.len() ==> (#[trigger] r@[i])@.len() >= 1 && r@[i]@[0] is Some,
        forall|i: int, j: int|
            0 <= i < r@.len() && 0 <= j < r@[i]@.len() && (#[trigger] r@[i]@[j]) is Some ==> (r@[i]@[j]->0).0
                <= (r@[i]@[j]->0).1 && (r@[i]@[j]->0).1 <= utf8_len(text@),
{
    p.re.captures_iter(text).map(|c| c.iter().map(|m| m.map(|m| (m.start(), m.end()))).collect()).collect()
}

/// A link found in a line.
#[derive(Debug, Clone, PartialEq, Eq)]
pub struct UrlMatch {
    /// The link (custom links: the expanded template).
    pub url: String,
    /// First column.
    pub start_col: usize,
    /// Column after the link.
    pub end_col: usize,
}

/// A quick-select match.
#[derive(Debug, Clone, PartialEq, Eq)]
pub struct PatternMatch {
    /// The matched text.
    pub text: String,
    /// First column.
    pub start_col: usize,
    /// Column after the match.
    pub end_col: usize,
}

/// The number of characters of `s` that start before byte `off`.
pub open spec fn chars_before(s: Seq<char>, off: int) -> int
    decreases s.len(),
{
    if s.len() == 0 {
        0
    } else {
        chars_before(s.drop_last(), off) + if utf8_len(s.drop_last()) < off { 1int } else { 0int }
    }
}

/// The cell column of character `k` of the line's text, or the cell count
/// past the end.
pub open spec fn cell_col(cells: Seq<Cell>, k: int) -> usize {
    let cols = row_cols(cells);
    if 0 <= k < cols.len() { cols[k] } else { cells.len() as usize }
}

/// The cell column where byte `off` of the line's text falls.
pub open spec fn byte_col(cells: Seq<Cell>, off: int) -> usize {
    cell_col(cells, chars_before(row_text(cells), off))
}

/// The characters of `text` between the bytes `start` and `end`.
pub open spec fn span_text(text: Seq<char>, start: int, end: int) -> Seq<char> {
    text.subrange(chars_before(text, start), chars_before(text, end))
}

proof fn lemma_chars_before_mono(s: Seq<char>, a: int, b: int)
    requires
        a <= b,
    ensures
        chars_before(s, a) <= chars_before(s, b),
    decreases s.len(),
{
    if s.len() > 0 {
        lemma_chars_before_mono(s.drop_last(), a, b);
    }
}

/// The number of characters of `text` that start before byte `off`.
fn chars_before_exec(text: &Vec<char>, off: usize) -> (r: usize)
    ensures
        r == chars_before(text@, off as int),
        r <= text@.len(),
{
    let mut count: usize = 0;
    let mut bytes: usize = 0;
    let mut i: usize = 0;
    while i < text.len()
        invariant
            i <= text@.len(),
            count == chars_before(text@.take(i as int), off as int),
            count <= i,
            bytes == if utf8_len(text@.take(i as int)) > usize::MAX { usize::MAX as int } else { utf8_len(text@.take(i as int)) as int },
        decreases text@.len() - i,
    {
        assert(text@.take(i + 1).drop_last() =~= text@.take(i as int));
        if bytes < off {
            count = count + 1;
        }
        bytes = bytes.saturating_add(char_len_utf8(text[i]));
        i = i + 1;
    }
    assert(text@.take(text@.len() as int) =~= text@);
    count
}

/// The cell column of character `k` of the line's text.
fn cell_col_exec(cells: &[Cell], cols: &Vec<usize>, k: usize) -> (r: usize)
    requires
        cols@ == row_cols(cells@),
    ensures
        r == cell_col(cells@, k as int),
{
    if k < cols.len() { cols[k] } else { cells.len() }
}

/// The characters of `text` from `a` to `b` as a string.
fn char_range_string(text: &Vec<char>, a: usize, b: usize) -> (r: String)
    requires
        a <= b <= text@.len(),
    ensures
        r@ == text@.subrange(a as int, b as int),
{
    let part = &text.as_slice()[a..b];
    chars_to_string(part)
}

/// Source of the plain URL pattern: `http://` or `https://`, then no blank,
/// angle bracket, quote, brace, bar, backslash, caret or square bracket, and
/// not ending in punctuation.
pub open spec fn url_pattern_source() -> Seq<char> {
    "https?://[^\\s<>\"{}|\\\\^\\[\\]]*[^\\s<>\"{}|\\\\^\\[\\].,;:!?'()]"@
}

/// Compiles `source`; `None` when it does not parse.
pub fn compile_pattern(source: &str) -> (r: Option<Pattern>)
    ensures
        r is Some <==> regex_compiles(source@),
        r is Some ==> r->0.source_text() == source@,
{
    match regex_compile(source) {
        Some(re) => Some(Pattern { source: source.to_owned(), re }),
        None => None,
    }
}

/// The URL pattern, compiled; `None` when it does not compile.
fn url_pattern() -> (r: Option<Pattern>)
    ensures
        r is Some <==> regex_compiles(url_pattern_source()),
        r is Some ==> r->0.source_text() == url_pattern_source(),
{
    proof {
        reveal_strlit("https?://[^\\s<>\"{}|\\\\^\\[\\]]*[^\\s<>\"{}|\\\\^\\[\\].,;:!?'()]");
    }
    compile_pattern("https?://[^\\s<>\"{}|\\\\^\\[\\]]*[^\\s<>\"{}|\\\\^\\[\\].,;:!?'()]")
}

/// The spans that the plain URL pattern `src` matches in `text`; none
/// when the pattern did not compile.
pub open spec fn url_spans(src: Option<Seq<char>>, text: Seq<char>) -> Seq<(usize, usize)> {
    match src {
        Some(p) => regex_matches(p, text),
        None => Seq::empty(),
    }
}

/// The URL pattern source a detector holds: that of the fixed URL
/// pattern when it compiles.
pub open spec fn compiled_url_source() -> Option<Seq<char>> {
    if regex_compiles(url_pattern_source()) { Some(url_pattern_source()) } else { None }
}

/// Largest compiled size of a custom link pattern, in bytes.
pub const LINK_REGEX_SIZE_LIMIT: usize = 1048576;

/// The custom links of `links` whose pattern compiles, as (pattern, action).
pub open spec fn compiled_links(links: Seq<LinkConfig>) -> Seq<(Seq<char>, Seq<char>)>
    decreases links.len(),
{
    if links.len() == 0 {
        Seq::empty()
    } else {
        let rest = compiled_links(links.drop_last());
        let lc = links.last();
        if regex_compiles_within(lc.regex@, LINK_REGEX_SIZE_LIMIT) { rest.push((lc.regex@, lc.action@)) } else { rest }
    }
}

/// The text of the pattern match `span` and the columns it spans.
pub open spec fn span_match_of(cells: Seq<Cell>, span: (usize, usize)) -> (Seq<char>, usize, usize) {
    let text = row_text(cells);
    (span_text(text, span.0 as int, span.1 as int), byte_col(cells, span.0 as int), byte_col(cells, span.1 as int))
}

/// The link that the URL pattern's match `span` gives: its text without
/// trailing sentence punctuation, and the columns it spans.
pub open spec fn url_match_of(cells: Seq<Cell>, span: (usize, usize)) -> (Seq<char>, usize, usize) {
    let text = row_text(cells);
    let u = trim_url_end(span_text(text, span.0 as int, span.1 as int));
    (u, byte_col(cells, span.0 as int), cell_col(cells, chars_before(text, span.0 as int) + u.len()))
}

/// Sentence punctuation that never ends a link: `. , ; : ! ? ' ( )`.
pub open spec fn is_url_end_punct(c: char) -> bool {
    c == '.' || c == ',' || c == ';' || c == ':' || c == '!' || c == '?' || c == '\'' || c == '(' || c == ')'
}

/// `u` without the sentence punctuation at its end.
pub open spec fn trim_url_end(u: Seq<char>) -> Seq<char>
    decreases u.len(),
{
    if u.len() > 0 && is_url_end_punct(u.last()) { trim_url_end(u.drop_last()) } else { u }
}

/// `u` is `http://` or `https://` followed by at least one character.
pub open spec fn has_url_scheme(u: Seq<char>) -> bool {
    ||| (u.len() > 7 && u.take(7) == seq!['h', 't', 't', 'p', ':', '/', '/'])
    ||| (u.len() > 8 && u.take(8) == seq!['h', 't', 't', 'p', 's', ':', '/', '/'])
}

/// The plain URLs that the URL pattern's matches `spans` give, in order:
/// each match without trailing sentence punctuation, kept when what is left
/// is still a link.
pub open spec fn url_matches(cells: Seq<Cell>, spans: Seq<(usize, usize)>) -> Seq<(Seq<char>, usize, usize)>
    decreases spans.len(),
{
    if spans.len() == 0 {
        Seq::empty()
    } else {
        let rest = url_matches(cells, spans.drop_last());
        let m = url_match_of(cells, spans.last());
        if has_url_scheme(m.0) { rest.push(m) } else { rest }
    }
}

/// The end of `u` once its trailing sentence punctuation is trimmed: the
/// trimmed text is a prefix of `u` and does not end in such punctuation.
proof fn lemma_trim_url_end(u: Seq<char>)
    ensures
        trim_url_end(u).len() <= u.len(),
        trim_url_end(u) == u.take(trim_url_end(u).len() as int),
        trim_url_end(u).len() > 0 ==> !is_url_end_punct(trim_url_end(u).last()),
    decreases u.len(),
{
    if u.len() > 0 && is_url_end_punct(u.last()) {
        lemma_trim_url_end(u.drop_last());
        assert(u.drop_last().take(trim_url_end(u).len() as int) =~= u.take(trim_url_end(u).len() as int));
    } else {
        assert(u.take(u.len() as int) =~= u);
    }
}

/// Every plain URL found starts with `http://` or `https://` and does not
/// end in sentence punctuation.
pub proof fn lemma_url_matches_are_links(cells: Seq<Cell>, spans: Seq<(usize, usize)>)
    ensures
        forall|i: int| 0 <= i < url_matches(cells, spans).len() ==> {
            let u = (#[trigger] url_matches(cells, spans)[i]).0;
            &&& has_url_scheme(u)
            &&& !is_url_end_punct(u.last())
        },
    decreases spans.len(),
{
    if spans.len() > 0 {
        lemma_url_matches_are_links(cells, spans.drop_last());
        let m = url_match_of(cells, spans.last());
        lemma_trim_url_end(span_text(row_text(cells), spans.last().0 as int, spans.last().1 as int));
        let rest = url_matches(cells, spans.drop_last());
        assert forall|i: int| 0 <= i < url_matches(cells, spans).len() implies {
            let u = (#[trigger] url_matches(cells, spans)[i]).0;
            &&& has_url_scheme(u)
            &&& !is_url_end_punct(u.last())
        } by {
            if i < rest.len() {
                assert(url_matches(cells, spans)[i] == rest[i]);
            }
        }
    }
}

/// The characters `text[a..e]` with the trailing sentence punctuation of
/// `text[a..b]` cut: returns `e`.
fn trim_url_end_exec(text: &Vec<char>, a: usize, b: usize) -> (e: usize)
    requires
        a <= b <= text@.len(),
    ensures
        a <= e <= b,
        trim_url_end(text@.subrange(a as int, b as int)) == text@.subrange(a as int, e as int),
{
    let mut e = b;
    while e > a && (text[e - 1] == '.' || text[e - 1] == ',' || text[e - 1] == ';' || text[e - 1] == ':' || text[e - 1] == '!'
        || text[e - 1] == '?' || text[e - 1] == '\'' || text[e - 1] == '(' || text[e - 1] == ')')
        invariant
            a <= e <= b,
            b <= text@.len(),
            trim_url_end(text@.subrange(a as int, b as int)) == trim_url_end(text@.subrange(a as int, e as int)),
        decreases e - a,
    {
        assert(text@.subrange(a as int, e as int).drop_last() =~= text@.subrange(a as int, e - 1));
        e = e - 1;
    }
    e
}

/// Whether `text[a..e]` starts with `http://` or `https://` and goes on.
fn has_url_scheme_exec(text: &Vec<char>, a: usize, e: usize) -> (r: bool)
    requires
        a <= e <= text@.len(),
    ensures
        r == has_url_scheme(text@.subrange(a as int, e as int)),
{
    let http = ['h', 't', 't', 'p', ':', '/', '/'];
    let https = ['h', 't', 't', 'p', 's', ':', '/', '/'];
    let ghost u = text@.subrange(a as int, e as int);
    let ok7 = e - a > 7 && chars_eq(&text.as_slice()[a..a + 7], &http);
    let ok8 = e - a > 8 && chars_eq(&text.as_slice()[a..a + 8], &https);
    proof {
        assert(http@ == seq!['h', 't', 't', 'p', ':', '/', '/']);
        assert(https@ == seq!['h', 't', 't', 'p', 's', ':', '/', '/']);
        if e - a > 7 {
            assert(text@.subrange(a as int, a + 7) =~= u.take(7));
        }
        if e - a > 8 {
            assert(text@.subrange(a as int, a + 8) =~= u.take(8));
        }
    }
    ok7 || ok8
}

/// Link detection: the plain URL pattern and the custom link patterns with
/// their action templates.
pub struct UrlDetector {
    regex: Option<Pattern>,
    custom_patterns: Vec<(Pattern, String)>,
}

impl UrlDetector {
    /// The custom patterns' sources and action templates, in order.
    pub closed spec fn custom_view(&self) -> Seq<(Seq<char>, Seq<char>)> {
        Seq::new(self.custom_patterns@.len(), |i: int| (self.custom_patterns@[i].0.source_text(), self.custom_patterns@[i].1@))
    }

    /// The URL pattern's source, if the pattern compiled.
    pub closed spec fn url_source(&self) -> Option<Seq<char>> {
        match self.regex {
            Some(p) => Some(p.source_text()),
            None => None,
        }
    }

    /// A detector with no custom links.
    pub fn new() -> (r: Self)
        ensures
            r.url_source() == compiled_url_source(),
            r.custom_view().len() == 0,
    {
        UrlDetector::with_links(&[])
    }

    /// A detector with the custom links `links`; a pattern that does not
    /// compile (within a 1 MiB size limit) is skipped.
    pub fn with_links(links: &[LinkConfig]) -> (r: Self)
        ensures
            r.url_source() == compiled_url_source(),
            r.custom_view() == compiled_links(links@),
    {
        let mut custom: Vec<(Pattern, String)> = Vec::new();
        let mut i: usize = 0;
        while i < links.len()
            invariant
                i <= links@.len(),
                Seq::new(custom@.len(), |k: int| (custom@[k].0.source_text(), custom@[k].1@)) == compiled_links(links@.take(i as int)),
            decreases links@.len() - i,
        {
            assert(links@.take(i + 1).drop_last() =~= links@.take(i as int));
            let lc = &links[i];
            let ghost before = custom@;
            match regex_compile_limited(lc.regex.as_str(), LINK_REGEX_SIZE_LIMIT) {
                Some(re) => {
                    custom.push((Pattern { source: lc.regex.clone(), re }, lc.action.clone()));
                    assert(Seq::new(custom@.len(), |k: int| (custom@[k].0.source_text(), custom@[k].1@)) =~= Seq::new(
                        before.len(),
                        |k: int| (before[k].0.source_text(), before[k].1@),
                    ).push((lc.regex@, lc.action@)));
                },
                None => {},
            }
            i = i + 1;
        }
        assert(links@.take(links@.len() as int) =~= links@);
        let r = UrlDetector { regex: url_pattern(), custom_patterns: custom };
        assert(r.custom_view() =~= compiled_links(links@));
        r
    }

    /// Number of custom link patterns that compiled.
    pub fn custom_pattern_count(&self) -> (r: usize)
        ensures
            r == self.custom_view().len(),
    {
        self.custom_patterns.len()
    }

    /// The plain URLs of a line, in order, with their column spans: each
    /// match of the URL pattern without trailing sentence punctuation, kept
    /// when it still starts with `http://` or `https://` and goes on. No URL
    /// found ends in sentence punctuation.
    pub fn detect_urls_in_line(&self, cells: &[Cell]) -> (r: Vec<UrlMatch>)
        ensures
            ({
                let ms = url_matches(cells@, url_spans(self.url_source(), row_text(cells@)));
                &&& r@.len() == ms.len()
                &&& forall|i: int| 0 <= i < r@.len() ==> {
                    let (u, s, e) = ms[i];
                    &&& (#[trigger] r@[i]).url@ == u
                    &&& r@[i].start_col == s
                    &&& r@[i].end_col == e
                }
            }),
            forall|i: int| 0 <= i < r@.len() ==> has_url_scheme((#[trigger] r@[i]).url@) && !is_url_end_punct(r@[i].url@.last()),
    {
        let (text, cols) = cells_to_text_with_map(cells);
        let s = chars_to_string(text.as_slice());
        let spans = match &self.regex {
            Some(p) => find_spans(p, s.as_str()),
            None => Vec::new(),
        };
        let ghost ms = url_matches(cells@, spans@);
        let mut out: Vec<UrlMatch> = Vec::new();
        let mut i: usize = 0;
        while i < spans.len()
            invariant
                i <= spans@.len(),
                text@ == row_text(cells@),
                cols@ == row_cols(cells@),
                s@ == text@,
                spans@ == url_spans(self.url_source(), row_text(cells@)),
                forall|k: int| 0 <= k < spans@.len() ==> #[trigger] spans@[k].0 <= spans@[k].1 && spans@[k].1 <= utf8_len(s@),
                out@.len() == url_matches(cells@, spans@.take(i as int)).len(),
                forall|k: int| 0 <= k < out@.len() ==> {
                    let (u, st, en) = url_matches(cells@, spans@.take(i as int))[k];
                    &&& (#[trigger] out@[k]).url@ == u
                    &&& out@[k].start_col == st
                    &&& out@[k].end_col == en
                },
            decreases spans@.len() - i,
        {
            let (a, b) = spans[i];
            let ghost before = url_matches(cells@, spans@.take(i as int));
            assert(spans@.take(i + 1).drop_last() =~= spans@.take(i as int));
            assert(spans@.take(i + 1).last() == spans@[i as int]);
            let ca = chars_before_exec(&text, a);
            let cb = chars_before_exec(&text, b);
            proof {
                lemma_chars_before_mono(text@, a as int, b as int);
            }
            let e = trim_url_end_exec(&text, ca, cb);
            if has_url_scheme_exec(&text, ca, e) {
                let url = char_range_string(&text, ca, e);
                let start_col = cell_col_exec(cells, &cols, ca);
                let end_col = cell_col_exec(cells, &cols, e);
                out.push(UrlMatch { url, start_col, end_col });
                proof {
                    let m = url_match_of(cells@, spans@[i as int]);
                    assert(m.0 == text@.subrange(ca as int, e as int));
                    assert(url_matches(cells@, spans@.take(i + 1)) == before.push(m));
                    assert forall|k: int| 0 <= k < out@.len() implies {
                        let (u, st, en) = url_matches(cells@, spans@.take(i + 1))[k];
                        &&& (#[trigger] out@[k]).url@ == u
                        &&& out@[k].start_col == st
                        &&& out@[k].end_col == en
                    } by {
                        if k < before.len() {
                            assert(url_matches(cells@, spans@.take(i + 1))[k] == before[k]);
                        }
                    }
                }
            }
            i = i + 1;
        }
        assert(spans@.take(spans@.len() as int) =~= spans@);
        proof {
            lemma_url_matches_are_links(cells@, spans@);
            assert forall|i: int| 0 <= i < out@.len() implies has_url_scheme((#[trigger] out@[i]).url@) && !is_url_end_punct(out@[i].url@.last()) by {
                assert(out@[i].url@ == ms[i].0);
            }
        }
        out
    }
}


/// The leading ASCII digits of `s`.
pub open spec fn leading_digits(s: Seq<char>) -> Seq<char>
    decreases s.len(),
{
    if s.len() > 0 && '0' <= s[0] <= '9' { seq![s[0]] + leading_digits(s.drop_first()) } else { Seq::empty() }
}

/// The value of the decimal digits `d`.
pub open spec fn decimal_value(d: Seq<char>) -> int
    decreases d.len(),
{
    if d.len() == 0 { 0 } else { 10 * decimal_value(d.drop_last()) + ((d.last() as int) - 48) }
}

/// The group number that `str::parse::<usize>` reads from the digits `d`,
/// `usize::MAX` when it overflows.
pub open spec fn group_number(d: Seq<char>) -> int {
    if decimal_value(d) > usize::MAX { usize::MAX as int } else { decimal_value(d) }
}

/// The text of group `k`, empty when it is absent.
pub open spec fn group_text(groups: Seq<Option<Seq<char>>>, k: int) -> Seq<char> {
    if 0 <= k < groups.len() {
        match groups[k] {
            Some(t) => t,
            None => Seq::empty(),
        }
    } else {
        Seq::empty()
    }
}

/// The template `t` with `$N` replaced by the text of group `N` (`$0` is the
/// whole match, a missing group gives nothing) and a `$` without digits kept.
pub open spec fn expanded(t: Seq<char>, groups: Seq<Option<Seq<char>>>) -> Seq<char>
    decreases t.len(),
{
    if t.len() == 0 {
        Seq::empty()
    } else if t[0] == '$' {
        let d = leading_digits(t.drop_first());
        let k: int = if d.len() < t.len() { d.len() as int } else { 0 };
        if d.len() == 0 {
            seq!['$'] + expanded(t.drop_first(), groups)
        } else {
            group_text(groups, group_number(d)) + expanded(t.skip(1 + k), groups)
        }
    } else {
        seq![t[0]] + expanded(t.drop_first(), groups)
    }
}

/// The group texts as character sequences.
pub open spec fn groups_view(g: Seq<Option<String>>) -> Seq<Option<Seq<char>>> {
    Seq::new(g.len(), |i: int| match g[i] { Some(s) => Some(s@), None => None })
}

proof fn lemma_leading_digits(s: Seq<char>)
    ensures
        leading_digits(s).len() <= s.len(),
        forall|i: int| 0 <= i < leading_digits(s).len() ==> #[trigger] leading_digits(s)[i] == s[i] && '0' <= s[i] <= '9',
        leading_digits(s).len() < s.len() ==> !('0' <= s[leading_digits(s).len() as int] <= '9'),
    decreases s.len(),
{
    if s.len() > 0 && '0' <= s[0] <= '9' {
        lemma_leading_digits(s.drop_first());
        assert forall|i: int| 0 <= i < leading_digits(s).len() implies #[trigger] leading_digits(s)[i] == s[i] && '0' <= s[i] <= '9' by {
            if i > 0 {
                assert(leading_digits(s)[i] == leading_digits(s.drop_first())[i - 1]);
            }
        }
    }
}

/// Expands `$N` references in `template` with the texts of `groups`.
pub fn expand_template(template: &str, groups: &[Option<String>]) -> (r: String)
    ensures
        r@ == expanded(template@, groups_view(groups@)),
{
    let t = str_chars(template);
    let ghost g = groups_view(groups@);
    let mut out: Vec<char> = Vec::new();
    let mut i: usize = 0;
    assert(t@.skip(0) =~= t@);
    while i < t.len()
        invariant
            i <= t@.len(),
            t@ == template@,
            g == groups_view(groups@),
            out@ + expanded(t@.skip(i as int), g) == expanded(t@, g),
        decreases t@.len() - i,
    {
        let c = t[i];
        let ghost rest = t@.skip(i as int);
        assert(rest[0] == c);
        if c != '$' {
            out.push(c);
            assert(rest.drop_first() =~= t@.skip(i + 1));
            i = i + 1;
            continue;
        }
        let mut j = i + 1;
        let cap: usize = usize::MAX;
        let mut value: usize = 0;
        let mut saturated = false;
        proof {
            lemma_leading_digits(rest.drop_first());
        }
        let ghost d = leading_digits(rest.drop_first());
        while j < t.len() && '0' <= t[j] && t[j] <= '9'
            invariant
                i < j <= t@.len(),
                rest == t@.skip(i as int),
                rest.len() == t@.len() - i,
                d == leading_digits(rest.drop_first()),
                d.len() <= rest.drop_first().len(),
                j - i - 1 <= d.len(),
                forall|k: int| 0 <= k < d.len() ==> #[trigger] d[k] == rest.drop_first()[k] && '0' <= rest.drop_first()[k] <= '9',
                d.len() < rest.drop_first().len() ==> !('0' <= rest.drop_first()[d.len() as int] <= '9'),
                (if decimal_value(d.take(j - i - 1)) > usize::MAX { usize::MAX as int } else { decimal_value(d.take(j - i - 1)) })
                    == value as int,
                decimal_value(d.take(j - i - 1)) >= 0,
            decreases t@.len() - j,
        {
            assert(t@[j as int] == rest.drop_first()[j - i - 1]);
            assert(j - i - 1 < d.len());
            let dv = (t[j] as u32 - 48) as usize;
            proof {
                assert(d.take(j - i).drop_last() =~= d.take(j - i - 1));
                assert(d.take(j - i).last() == t@[j as int]);
            }
            value = if value > (usize::MAX - dv) / 10 { usize::MAX } else { value * 10 + dv };
            proof {
                let x = decimal_value(d.take(j - i - 1));
                assert(decimal_value(d.take(j - i)) == 10 * x + dv);
            }
            j = j + 1;
        }
        proof {
            if j < t@.len() {
                assert(t@[j as int] == rest.drop_first()[j - i - 1]);
                if j - i - 1 < d.len() {
                    assert(d[j - i - 1] == rest.drop_first()[j - i - 1]);
                    assert('0' <= t@[j as int] <= '9');
                }
            }
        }
        assert(d.len() == j - i - 1);
        assert(d.take(j - i - 1) =~= d);
        let ghost gn = group_number(d);
        if j == i + 1 {
            out.push('$');
            assert(rest.drop_first() =~= t@.skip(i + 1));
            i = i + 1;
        } else {
            assert(value as int == gn);
            if value < groups.len() {
                match &groups[value] {
                    Some(s) => {
                        let sc = str_chars(s.as_str());
                        let mut k: usize = 0;
                        let ghost before = out@;
                        while k < sc.len()
                            invariant
                                k <= sc@.len(),
                                out@ == before + sc@.take(k as int),
                            decreases sc@.len() - k,
                        {
                            out.push(sc[k]);
                            k = k + 1;
                            assert(out@ =~= before + sc@.take(k as int));
                        }
                        assert(sc@.take(sc@.len() as int) =~= sc@);
                        assert(group_text(g, gn) == sc@);
                    },
                    None => {
                        assert(group_text(g, gn) =~= Seq::<char>::empty());
                        assert(out@ =~= out@ + group_text(g, gn));
                    },
                }
            } else {
                assert(group_text(g, gn) =~= Seq::<char>::empty());
                assert(out@ =~= out@ + group_text(g, gn));
            }
            assert(rest.skip(1 + d.len() as int) =~= t@.skip(j as int));
            i = j;
        }
    }
    assert(t@.skip(i as int) =~= Seq::<char>::empty());
    assert(out@ =~= expanded(t@, g));
    chars_to_string(out.as_slice())
}

/// What `extract_url_from_action` gives: for an `open:` action, its template
/// expanded, unless it starts (ASCII case ignored) with `javascript:` or
/// `data:`.
pub open spec fn action_url(action: Seq<char>, groups: Seq<Option<Seq<char>>>) -> Option<Seq<char>> {
    let open = seq!['o', 'p', 'e', 'n', ':'];
    if open.len() <= action.len() && action.take(open.len() as int) == open {
        let e = expanded(action.skip(open.len() as int), groups);
        let lower = ascii_lower_seq(e);
        let js = seq!['j', 'a', 'v', 'a', 's', 'c', 'r', 'i', 'p', 't', ':'];
        let data = seq!['d', 'a', 't', 'a', ':'];
        if (js.len() <= lower.len() && lower.take(js.len() as int) == js) || (data.len() <= lower.len() && lower.take(
            data.len() as int,
        ) == data) {
            None
        } else {
            Some(e)
        }
    } else {
        None
    }
}

fn chars_start_with(s: &Vec<char>, prefix: &Vec<char>) -> (r: bool)
    ensures
        r == (prefix@.len() <= s@.len() && s@.take(prefix@.len() as int) == prefix@),
{
    if prefix.len() > s.len() {
        return false;
    }
    let mut i: usize = 0;
    while i < prefix.len()
        invariant
            i <= prefix@.len(),
            prefix@.len() <= s@.len(),
            forall|j: int| 0 <= j < i ==> s@[j] == prefix@[j],
        decreases prefix@.len() - i,
    {
        if s[i] != prefix[i] {
            assert(s@.take(prefix@.len() as int)[i as int] != prefix@[i as int]);
            return false;
        }
        i = i + 1;
    }
    assert(s@.take(prefix@.len() as int) =~= prefix@);
    true
}

/// The URL of an `open:<template>` action for a match with group texts
/// `groups`; `None` for other actions and for `javascript:` or `data:` URLs.
pub fn extract_url_from_action(action: &str, groups: &[Option<String>]) -> (r: Option<String>)
    ensures
        match action_url(action@, groups_view(groups@)) {
            Some(u) => r is Some && r->0@ == u,
            None => r is None,
        },
{
    let a = str_chars(action);
    let open = vec!['o', 'p', 'e', 'n', ':'];
    assert(open@ == seq!['o', 'p', 'e', 'n', ':']);
    if !chars_start_with(&a, &open) {
        return None;
    }
    let tmpl = chars_to_string(&a.as_slice()[5..a.len()]);
    assert(tmpl@ =~= action@.skip(5));
    let e = expand_template(tmpl.as_str(), groups);
    let ec = str_chars(e.as_str());
    let lower = ascii_lowercase(ec.as_slice());
    let js = vec!['j', 'a', 'v', 'a', 's', 'c', 'r', 'i', 'p', 't', ':'];
    let data = vec!['d', 'a', 't', 'a', ':'];
    assert(js@ == seq!['j', 'a', 'v', 'a', 's', 'c', 'r', 'i', 'p', 't', ':'] && data@ == seq!['d', 'a', 't', 'a', ':']);
    if chars_start_with(&lower, &js) || chars_start_with(&lower, &data) {
        return None;
    }
    Some(e)
}


/// The OSC 8 link of cell `col`, when it is an `http://` or `https://` URL.
pub open spec fn osc8_link(cells: Seq<Cell>, col: int) -> Option<Seq<char>> {
    let http = seq!['h', 't', 't', 'p', ':', '/', '/'];
    let https = seq!['h', 't', 't', 'p', 's', ':', '/', '/'];
    if 0 <= col < cells.len() && cells[col].hyperlink is Some {
        let u = cells[col].hyperlink->0@;
        if (http.len() <= u.len() && u.take(http.len() as int) == http) || (https.len() <= u.len() && u.take(
            https.len() as int,
        ) == https) {
            Some(u)
        } else {
            None
        }
    } else {
        None
    }
}

/// The texts of the capture groups `c` of a match in `text`.
pub open spec fn group_texts(text: Seq<char>, c: Seq<Option<(usize, usize)>>) -> Seq<Option<Seq<char>>> {
    Seq::new(c.len(), |k: int| match c[k] {
        Some(sp) => Some(span_text(text, sp.0 as int, sp.1 as int)),
        None => None,
    })
}

/// The URL of the first match in `caps` that covers column `col` and whose
/// action yields a URL.
pub open spec fn capture_hit(caps: Seq<Seq<Option<(usize, usize)>>>, action: Seq<char>, cells: Seq<Cell>, col: int) -> Option<Seq<char>>
    decreases caps.len(),
{
    if caps.len() == 0 {
        None
    } else {
        let c = caps[0];
        let whole = if c.len() > 0 && c[0] is Some { c[0]->0 } else { (0usize, 0usize) };
        let sc = byte_col(cells, whole.0 as int);
        let ec = byte_col(cells, whole.1 as int);
        if sc <= col < ec && action_url(action, group_texts(row_text(cells), c)) is Some {
            action_url(action, group_texts(row_text(cells), c))
        } else {
            capture_hit(caps.drop_first(), action, cells, col)
        }
    }
}

/// The URL that the first custom link of `pats` gives at column `col`.
pub open spec fn custom_hit(pats: Seq<(Seq<char>, Seq<char>)>, cells: Seq<Cell>, col: int) -> Option<Seq<char>>
    decreases pats.len(),
{
    if pats.len() == 0 {
        None
    } else {
        match capture_hit(regex_captures(pats[0].0, row_text(cells)), pats[0].1, cells, col) {
            Some(u) => Some(u),
            None => custom_hit(pats.drop_first(), cells, col),
        }
    }
}

/// The first of the plain URLs `ms` that covers column `col`.
pub open spec fn url_hit(ms: Seq<(Seq<char>, usize, usize)>, col: int) -> Option<Seq<char>>
    decreases ms.len(),
{
    if ms.len() == 0 {
        None
    } else {
        let (u, s, e) = ms[0];
        if s <= col < e { Some(u) } else { url_hit(ms.drop_first(), col) }
    }
}

fn str_starts_with_chars(s: &String, prefix: &Vec<char>) -> (r: bool)
    ensures
        r == (prefix@.len() <= s@.len() && s@.take(prefix@.len() as int) == prefix@),
{
    let c = str_chars(s.as_str());
    chars_start_with(&c, prefix)
}

/// The group texts of one match.
fn group_strings(text: &Vec<char>, c: &Vec<Option<(usize, usize)>>) -> (r: Vec<Option<String>>)
    requires
        forall|j: int| 0 <= j < c@.len() && (#[trigger] c@[j]) is Some ==> (c@[j]->0).0 <= (c@[j]->0).1,
    ensures
        groups_view(r@) == group_texts(text@, c@),
{
    let mut out: Vec<Option<String>> = Vec::new();
    let mut k: usize = 0;
    while k < c.len()
        invariant
            k <= c@.len(),
            forall|j: int| 0 <= j < c@.len() && (#[trigger] c@[j]) is Some ==> (c@[j]->0).0 <= (c@[j]->0).1,
            out@.len() == k,
            groups_view(out@) == group_texts(text@, c@).take(k as int),
        decreases c@.len() - k,
    {
        let ghost before = out@;
        match c[k] {
            Some((a, b)) => {
                assert(c@[k as int] == Some((a, b)));
                let ca = chars_before_exec(text, a);
                let cb = chars_before_exec(text, b);
                proof {
                    lemma_chars_before_mono(text@, a as int, b as int);
                }
                let st = char_range_string(text, ca, cb);
                assert(st@ == span_text(text@, a as int, b as int));
                out.push(Some(st));
                assert(out@[k as int] == Some(st));
                assert(group_texts(text@, c@)[k as int] == Some(span_text(text@, a as int, b as int)));
                assert(groups_view(out@)[k as int] == Some(st@));
            },
            None => {
                out.push(None);
                assert(c@[k as int] is None);
                assert(group_texts(text@, c@)[k as int] == None::<Seq<char>>);
                assert(groups_view(out@)[k as int] == None::<Seq<char>>);
            },
        }
        k = k + 1;
        assert(groups_view(out@) =~= group_texts(text@, c@).take(k as int));
    }
    assert(group_texts(text@, c@).take(c@.len() as int) =~= group_texts(text@, c@));
    out
}

/// The URL of the first match in `caps` that covers column `col` and whose
/// action yields one.
fn captures_url(caps: &Vec<Vec<Option<(usize, usize)>>>, action: &String, text: &Vec<char>, cols: &Vec<usize>, cells: &[Cell], col: usize) -> (r: Option<String>)
    requires
        text@ == row_text(cells@),
        cols@ == row_cols(cells@),
        forall|i: int| 0 <= i < caps@.len() ==> (#[trigger] caps@[i])@.len() >= 1 && caps@[i]@[0] is Some,
        forall|i: int, j: int|
            0 <= i < caps@.len() && 0 <= j < caps@[i]@.len() && (#[trigger] caps@[i]@[j]) is Some ==> (caps@[i]@[j]->0).0
                <= (caps@[i]@[j]->0).1,
    ensures
        match capture_hit(captures_view(caps@), action@, cells@, col as int) {
            Some(u) => r is Some && r->0@ == u,
            None => r is None,
        },
{
    let ghost cv = captures_view(caps@);
    let mut q: usize = 0;
    assert(cv.skip(0) =~= cv);
    while q < caps.len()
        invariant
            q <= caps@.len(),
            cv == captures_view(caps@),
            cv.len() == caps@.len(),
            text@ == row_text(cells@),
            cols@ == row_cols(cells@),
            forall|i: int| 0 <= i < caps@.len() ==> (#[trigger] caps@[i])@.len() >= 1 && caps@[i]@[0] is Some,
            forall|i: int, j: int|
                0 <= i < caps@.len() && 0 <= j < caps@[i]@.len() && (#[trigger] caps@[i]@[j]) is Some ==> (caps@[i]@[j]->0).0
                    <= (caps@[i]@[j]->0).1,
            capture_hit(cv, action@, cells@, col as int) == capture_hit(cv.skip(q as int), action@, cells@, col as int),
        decreases caps@.len() - q,
    {
        let c = &caps[q];
        assert(cv[q as int] == c@);
        assert(cv.skip(q as int)[0] == c@);
        assert(cv.skip(q as int).drop_first() =~= cv.skip(q + 1));
        assert(c@.len() >= 1 && c@[0] is Some);
        let (a, b) = match c[0] {
            Some(sp) => sp,
            None => (0, 0),
        };
        let sc = cell_col_exec(cells, cols, chars_before_exec(text, a));
        let ec = cell_col_exec(cells, cols, chars_before_exec(text, b));
        if sc <= col && col < ec {
            assert forall|j: int| 0 <= j < c@.len() && (#[trigger] c@[j]) is Some implies (c@[j]->0).0 <= (c@[j]->0).1 by {
                assert(caps@[q as int]@[j] == c@[j]);
            }
            let groups = group_strings(text, c);
            match extract_url_from_action(action.as_str(), groups.as_slice()) {
                Some(u) => {
                    return Some(u);
                },
                None => {},
            }
        }
        q = q + 1;
    }
    assert(cv.skip(q as int) =~= Seq::<Seq<Option<(usize, usize)>>>::empty());
    None
}

impl UrlDetector {
    /// The link at column `col`: the cell's own OSC 8 `http(s)` link first,
    /// then the first custom link whose match covers the column and whose
    /// action gives a URL, then the first plain URL covering the column.
    pub fn find_url_at(&self, cells: &[Cell], col: usize) -> (r: Option<String>)
        ensures
            ({
                let want = match osc8_link(cells@, col as int) {
                    Some(u) => Some(u),
                    None => match custom_hit(self.custom_view(), cells@, col as int) {
                        Some(u) => Some(u),
                        None => url_hit(url_matches(cells@, url_spans(self.url_source(), row_text(cells@))), col as int),
                    },
                };
                match want {
                    Some(u) => r is Some && r->0@ == u,
                    None => r is None,
                }
            }),
    {
        if col < cells.len() {
            match &cells[col].hyperlink {
                Some(u) => {
                    let http = vec!['h', 't', 't', 'p', ':', '/', '/'];
                    let https = vec!['h', 't', 't', 'p', 's', ':', '/', '/'];
                    assert(http@ == seq!['h', 't', 't', 'p', ':', '/', '/']);
                    assert(https@ == seq!['h', 't', 't', 'p', 's', ':', '/', '/']);
                    if str_starts_with_chars(u, &http) || str_starts_with_chars(u, &https) {
                        return Some(u.clone());
                    }
                },
                None => {},
            }
        }
        let (text, cols) = cells_to_text_with_map(cells);
        let s = chars_to_string(text.as_slice());
        let ghost pats = self.custom_view();
        let mut p: usize = 0;
        assert(pats.skip(0) =~= pats);
        while p < self.custom_patterns.len()
            invariant
                p <= self.custom_patterns@.len(),
                pats == self.custom_view(),
                pats.len() == self.custom_patterns@.len(),
                text@ == row_text(cells@),
                cols@ == row_cols(cells@),
                s@ == text@,
                osc8_link(cells@, col as int) is None,
                custom_hit(pats, cells@, col as int) == custom_hit(pats.skip(p as int), cells@, col as int),
            decreases self.custom_patterns@.len() - p,
        {
            let (pat, action) = &self.custom_patterns[p];
            assert(pats[p as int] == (pat.source_text(), action@));
            let caps = capture_spans(pat, s.as_str());
            match captures_url(&caps, action, &text, &cols, cells, col) {
                Some(u) => {
                    assert(custom_hit(pats.skip(p as int), cells@, col as int) == Some(u@));
                    return Some(u);
                },
                None => {},
            }
            assert(pats.skip(p as int)[0] == pats[p as int]);
            assert(pats.skip(p as int).drop_first() =~= pats.skip(p + 1));
            p = p + 1;
        }
        assert(pats.skip(p as int) =~= Seq::<(Seq<char>, Seq<char>)>::empty());
        let matches = self.detect_urls_in_line(cells);
        let ghost ms = url_matches(cells@, url_spans(self.url_source(), row_text(cells@)));
        let mut k: usize = 0;
        assert(ms.skip(0) =~= ms);
        while k < matches.len()
            invariant
                k <= matches@.len(),
                matches@.len() == ms.len(),
                forall|i: int| 0 <= i < matches@.len() ==> {
                    let (u, st, en) = ms[i];
                    &&& (#[trigger] matches@[i]).url@ == u
                    &&& matches@[i].start_col == st
                    &&& matches@[i].end_col == en
                },
                url_hit(ms, col as int) == url_hit(ms.skip(k as int), col as int),
                osc8_link(cells@, col as int) is None,
                custom_hit(self.custom_view(), cells@, col as int) is None,
                ms == url_matches(cells@, url_spans(self.url_source(), row_text(cells@))),
            decreases matches@.len() - k,
        {
            assert(ms.skip(k as int)[0] == ms[k as int]);
            assert(ms.skip(k as int).drop_first() =~= ms.skip(k + 1));
            let m = &matches[k];
            if m.start_col <= col && col < m.end_col {
                return Some(m.url.clone());
            }
            k = k + 1;
        }
        assert(ms.skip(k as int) =~= Seq::<(Seq<char>, usize, usize)>::empty());
        None
    }
}


/// Sources of the default quick-select patterns: URLs, absolute paths, git
/// hashes (7 to 40 hex digits) and numbers (IP addresses and ports included).
pub open spec fn default_pattern_sources() -> Seq<Seq<char>> {
    seq![
        url_pattern_source(),
        "/[^\\s]+"@,
        "\\b[0-9a-fA-F]{7,40}\\b"@,
        "\\b\\d+(?:\\.\\d+){0,3}(?::\\d+)?\\b"@
    ]
}

/// The sources of `v`, in order.
pub open spec fn pattern_sources(v: Seq<Pattern>) -> Seq<Seq<char>> {
    Seq::new(v.len(), |i: int| v[i].source_text())
}

/// The sources of `srcs` that compile, in order.
pub open spec fn compiled_sources(srcs: Seq<Seq<char>>) -> Seq<Seq<char>>
    decreases srcs.len(),
{
    if srcs.len() == 0 {
        Seq::empty()
    } else {
        let rest = compiled_sources(srcs.drop_last());
        if regex_compiles(srcs.last()) { rest.push(srcs.last()) } else { rest }
    }
}

/// Appends `source`, compiled, to `out` when it compiles.
fn push_compiled(out: &mut Vec<Pattern>, source: &str)
    ensures
        pattern_sources(final(out)@) == if regex_compiles(source@) {
            pattern_sources(old(out)@).push(source@)
        } else {
            pattern_sources(old(out)@)
        },
{
    match compile_pattern(source) {
        Some(p) => {
            let ghost before = out@;
            out.push(p);
            assert(pattern_sources(out@) =~= pattern_sources(before).push(source@));
        },
        None => {},
    }
}

/// The default quick-select patterns that compile (all of them: they are
/// valid expressions), in order.
pub fn default_quick_select_patterns() -> (r: Vec<Pattern>)
    ensures
        pattern_sources(r@) == compiled_sources(default_pattern_sources()),
{
    proof {
        reveal_strlit("https?://[^\\s<>\"{}|\\\\^\\[\\]]*[^\\s<>\"{}|\\\\^\\[\\].,;:!?'()]");
        reveal_strlit("/[^\\s]+");
        reveal_strlit("\\b[0-9a-fA-F]{7,40}\\b");
        reveal_strlit("\\b\\d+(?:\\.\\d+){0,3}(?::\\d+)?\\b");
    }
    let ghost d = default_pattern_sources();
    let mut out: Vec<Pattern> = Vec::new();
    assert(pattern_sources(out@) =~= compiled_sources(d.take(0)));
    push_compiled(&mut out, "https?://[^\\s<>\"{}|\\\\^\\[\\]]*[^\\s<>\"{}|\\\\^\\[\\].,;:!?'()]");
    proof {
        assert(d.take(1).drop_last() =~= d.take(0));
        assert(d.take(1).last() == d[0]);
        assert(d[0] == "https?://[^\\s<>\"{}|\\\\^\\[\\]]*[^\\s<>\"{}|\\\\^\\[\\].,;:!?'()]"@);
        assert(pattern_sources(out@) == compiled_sources(d.take(1)));
    }
    push_compiled(&mut out, "/[^\\s]+");
    proof {
        assert(d.take(2).drop_last() =~= d.take(1));
        assert(d.take(2).last() == d[1]);
        assert(d[1] == "/[^\\s]+"@);
        assert(pattern_sources(out@) == compiled_sources(d.take(2)));
    }
    push_compiled(&mut out, "\\b[0-9a-fA-F]{7,40}\\b");
    proof {
        assert(d.take(3).drop_last() =~= d.take(2));
        assert(d.take(3).last() == d[2]);
        assert(d[2] == "\\b[0-9a-fA-F]{7,40}\\b"@);
        assert(pattern_sources(out@) == compiled_sources(d.take(3)));
    }
    push_compiled(&mut out, "\\b\\d+(?:\\.\\d+){0,3}(?::\\d+)?\\b");
    proof {
        assert(d.take(4).drop_last() =~= d.take(3));
        assert(d.take(4).last() == d[3]);
        assert(d[3] == "\\b\\d+(?:\\.\\d+){0,3}(?::\\d+)?\\b"@);
        assert(pattern_sources(out@) == compiled_sources(d.take(4)));
    }
    assert(d.take(4) =~= d);
    out
}

/// A match as (text, first column, column after).
pub open spec fn pm_view(m: PatternMatch) -> (Seq<char>, usize, usize) {
    (m.text@, m.start_col, m.end_col)
}

/// The candidate matches of `pats` in order: every match of the first
/// pattern, then of the second, and so on.
pub open spec fn candidates(pats: Seq<Seq<char>>, cells: Seq<Cell>) -> Seq<(Seq<char>, usize, usize)>
    decreases pats.len(),
{
    if pats.len() == 0 {
        Seq::empty()
    } else {
        candidates(pats.drop_last(), cells) + regex_matches(pats.last(), row_text(cells)).map_values(
            |sp: (usize, usize)| span_match_of(cells, sp),
        )
    }
}

/// `c` shares a column with `m`.
pub open spec fn overlapping(m: (Seq<char>, usize, usize), c: (Seq<char>, usize, usize)) -> bool {
    !(c.2 <= m.1 || c.1 >= m.2)
}

/// The candidates kept: in order, each non-empty one that shares no column
/// with one kept before.
pub open spec fn accepted(cands: Seq<(Seq<char>, usize, usize)>) -> Seq<(Seq<char>, usize, usize)>
    decreases cands.len(),
{
    if cands.len() == 0 {
        Seq::empty()
    } else {
        let acc = accepted(cands.drop_last());
        let c = cands.last();
        if c.1 < c.2 && !(exists|k: int| 0 <= k < acc.len() && #[trigger] overlapping(acc[k], c)) {
            acc.push(c)
        } else {
            acc
        }
    }
}

/// The matches are in strictly increasing column order.
pub open spec fn sorted_by_start(ms: Seq<PatternMatch>) -> bool {
    forall|i: int, j: int| 0 <= i < j < ms.len() ==> #[trigger] ms[i].start_col < #[trigger] ms[j].start_col
}

/// The candidate matches of every pattern of `pats`.
fn collect_candidates(pats: &Vec<&Pattern>, cells: &[Cell], text: &Vec<char>, cols: &Vec<usize>, s: &String) -> (r: Vec<PatternMatch>)
    requires
        text@ == row_text(cells@),
        cols@ == row_cols(cells@),
        s@ == text@,
    ensures
        r@.map_values(|m: PatternMatch| pm_view(m)) == candidates(
            Seq::new(pats@.len(), |i: int| pats@[i].source_text()),
            cells@,
        ),
{
    let ghost srcs = Seq::new(pats@.len(), |i: int| pats@[i].source_text());
    let mut out: Vec<PatternMatch> = Vec::new();
    let mut p: usize = 0;
    assert(out@.map_values(|m: PatternMatch| pm_view(m)) =~= candidates(srcs.take(0), cells@));
    while p < pats.len()
        invariant
            p <= pats@.len(),
            srcs == Seq::new(pats@.len(), |i: int| pats@[i].source_text()),
            text@ == row_text(cells@),
            cols@ == row_cols(cells@),
            s@ == text@,
            out@.map_values(|m: PatternMatch| pm_view(m)) == candidates(srcs.take(p as int), cells@),
        decreases pats@.len() - p,
    {
        assert(srcs.take(p + 1).drop_last() =~= srcs.take(p as int));
        assert(srcs.take(p + 1).last() == pats@[p as int].source_text());
        let spans = find_spans(pats[p], s.as_str());
        let ghost base = out@.map_values(|m: PatternMatch| pm_view(m));
        let mut k: usize = 0;
        while k < spans.len()
            invariant
                k <= spans@.len(),
                text@ == row_text(cells@),
                cols@ == row_cols(cells@),
                forall|i: int| 0 <= i < spans@.len() ==> #[trigger] spans@[i].0 <= spans@[i].1,
                out@.map_values(|m: PatternMatch| pm_view(m)) == base + spans@.take(k as int).map_values(
                    |sp: (usize, usize)| span_match_of(cells@, sp),
                ),
            decreases spans@.len() - k,
        {
            let (a, b) = spans[k];
            let ca = chars_before_exec(text, a);
            let cb = chars_before_exec(text, b);
            proof {
                lemma_chars_before_mono(text@, a as int, b as int);
            }
            let t = char_range_string(text, ca, cb);
            let start_col = cell_col_exec(cells, cols, ca);
            let end_col = cell_col_exec(cells, cols, cb);
            let ghost prev = out@;
            out.push(PatternMatch { text: t, start_col, end_col });
            proof {
                assert(pm_view(out@[out@.len() - 1]) == span_match_of(cells@, spans@[k as int]));
                assert(spans@.take(k + 1) =~= spans@.take(k as int).push(spans@[k as int]));
                assert(spans@.take(k + 1).map_values(|sp: (usize, usize)| span_match_of(cells@, sp)) =~= spans@.take(
                    k as int,
                ).map_values(|sp: (usize, usize)| span_match_of(cells@, sp)).push(span_match_of(cells@, spans@[k as int])));
                assert(out@.map_values(|m: PatternMatch| pm_view(m)) =~= prev.map_values(|m: PatternMatch| pm_view(m)).push(
                    pm_view(out@[out@.len() - 1]),
                ));
            }
            k = k + 1;
            assert(out@.map_values(|m: PatternMatch| pm_view(m)) =~= base + spans@.take(k as int).map_values(
                |sp: (usize, usize)| span_match_of(cells@, sp),
            ));
        }
        assert(spans@.take(spans@.len() as int) =~= spans@);
        p = p + 1;
    }
    assert(srcs.take(pats@.len() as int) =~= srcs);
    out
}

/// The quick-select matches of a line: the matches of `patterns` (or of the
/// default patterns when none are given), each kept unless it is empty or
/// shares a column with one kept before, sorted by column.
pub fn detect_patterns_in_line(cells: &[Cell], patterns: &[&Pattern]) -> (r: Vec<PatternMatch>)
    ensures
        row_text(cells@).len() == 0 ==> r@.len() == 0,
        row_text(cells@).len() > 0 ==> {
            let srcs = if patterns@.len() == 0 {
                compiled_sources(default_pattern_sources())
            } else {
                Seq::new(patterns@.len(), |i: int| patterns@[i].source_text())
            };
            &&& r@.map_values(|m: PatternMatch| pm_view(m)).to_multiset() == accepted(candidates(srcs, cells@)).to_multiset()
            &&& sorted_by_start(r@)
        },
{
    let (text, cols) = cells_to_text_with_map(cells);
    if text.len() == 0 {
        return Vec::new();
    }
    let s = chars_to_string(text.as_slice());
    let defaults = default_quick_select_patterns();
    let mut active: Vec<&Pattern> = Vec::new();
    if patterns.len() == 0 {
        let mut i: usize = 0;
        while i < defaults.len()
            invariant
                i <= defaults@.len(),
                active@.len() == i,
                forall|k: int| 0 <= k < i ==> (#[trigger] active@[k]).source_text() == defaults@[k].source_text(),
            decreases defaults@.len() - i,
        {
            active.push(&defaults[i]);
            i = i + 1;
        }
        assert(pattern_sources(defaults@) == compiled_sources(default_pattern_sources()));
    } else {
        let mut i: usize = 0;
        while i < patterns.len()
            invariant
                i <= patterns@.len(),
                active@.len() == i,
                forall|k: int| 0 <= k < i ==> (#[trigger] active@[k]).source_text() == patterns@[k].source_text(),
            decreases patterns@.len() - i,
        {
            active.push(patterns[i]);
            i = i + 1;
        }
    }
    let ghost srcs = if patterns@.len() == 0 {
        compiled_sources(default_pattern_sources())
    } else {
        Seq::new(patterns@.len(), |i: int| patterns@[i].source_text())
    };
    assert(Seq::new(active@.len(), |i: int| active@[i].source_text()) =~= srcs);
    let cands = collect_candidates(&active, cells, &text, &cols, &s);
    let ghost cv = cands@.map_values(|m: PatternMatch| pm_view(m));
    let mut results: Vec<PatternMatch> = Vec::new();
    let mut i: usize = 0;
    assert(cv.take(0) =~= Seq::<(Seq<char>, usize, usize)>::empty());
    assert(results@.map_values(|m: PatternMatch| pm_view(m)) =~= Seq::<(Seq<char>, usize, usize)>::empty());
    assert(accepted(cv.take(0)) =~= Seq::<(Seq<char>, usize, usize)>::empty());
    while i < cands.len()
        invariant
            i <= cands@.len(),
            cv == cands@.map_values(|m: PatternMatch| pm_view(m)),
            results@.map_values(|m: PatternMatch| pm_view(m)).to_multiset() == accepted(cv.take(i as int)).to_multiset(),
            sorted_by_start(results@),
            forall|j: int| 0 <= j < results@.len() ==> (#[trigger] results@[j]).start_col < results@[j].end_col,
        decreases cands@.len() - i,
    {
        let c = &cands[i];
        let ghost rv = results@.map_values(|m: PatternMatch| pm_view(m));
        let ghost acc = accepted(cv.take(i as int));
        assert(cv.take(i + 1).drop_last() =~= cv.take(i as int));
        assert(cv.take(i + 1).last() == pm_view(*c));
        let mut overlaps = false;
        let mut j: usize = 0;
        while j < results.len()
            invariant
                j <= results@.len(),
                overlaps == exists|k: int| 0 <= k < j && #[trigger] overlapping(pm_view(results@[k]), pm_view(*c)),
            decreases results@.len() - j,
        {
            let r = &results[j];
            if !(c.end_col <= r.start_col || c.start_col >= r.end_col) {
                overlaps = true;
                assert(overlapping(pm_view(results@[j as int]), pm_view(*c)));
            }
            j = j + 1;
        }
        proof {
            lemma_overlap_same(rv, acc, pm_view(*c));
            assert forall|k: int| 0 <= k < results@.len() implies #[trigger] rv[k] == pm_view(results@[k]) by {}
            if overlaps {
                let k = choose|k: int| 0 <= k < results@.len() && #[trigger] overlapping(pm_view(results@[k]), pm_view(*c));
                assert(overlapping(rv[k], pm_view(*c)));
            }
            if !overlaps {
                assert forall|k: int| 0 <= k < rv.len() implies !#[trigger] overlapping(rv[k], pm_view(*c)) by {
                    assert(rv[k] == pm_view(results@[k]));
                }
            }
            if overlaps || !(c.start_col < c.end_col) {
                assert(accepted(cv.take(i + 1)) == acc);
            }
        }
        if !overlaps && c.start_col < c.end_col {
            let mut pos: usize = 0;
            while pos < results.len() && results[pos].start_col < c.start_col
                invariant
                    pos <= results@.len(),
                    forall|k: int| 0 <= k < pos ==> (#[trigger] results@[k]).start_col < c.start_col,
                decreases results@.len() - pos,
            {
                pos = pos + 1;
            }
            proof {
                if pos < results@.len() {
                    assert(!overlapping(pm_view(results@[pos as int]), pm_view(*c)));
                    assert(results@[pos as int].start_col > c.start_col);
                }
            }
            let ghost old_results = results@;
            results.insert(pos, PatternMatch { text: c.text.clone(), start_col: c.start_col, end_col: c.end_col });
            proof {
                assert(results@.map_values(|m: PatternMatch| pm_view(m)) =~= rv.insert(pos as int, pm_view(*c)));
                vstd::seq_lib::to_multiset_insert(rv, pos as int, pm_view(*c));
                vstd::seq_lib::to_multiset_build(acc, pm_view(*c));
                assert(!(exists|k: int| 0 <= k < acc.len() && #[trigger] overlapping(acc[k], pm_view(*c))));
                assert(accepted(cv.take(i + 1)) == acc.push(pm_view(*c)));
                assert forall|a: int, b: int| 0 <= a < b < results@.len() implies #[trigger] results@[a].start_col < #[trigger] results@[b].start_col by {
                    if b < pos {
                    } else if a < pos && b == pos {
                    } else if a < pos && b > pos {
                        assert(results@[b] == old_results[b - 1]);
                        if pos < old_results.len() {
                            assert(old_results[pos as int].start_col > c.start_col);
                            if b - 1 > pos {
                                assert(old_results[pos as int].start_col < old_results[b - 1].start_col);
                            }
                        }
                    } else if a == pos {
                        assert(results@[b] == old_results[b - 1]);
                        assert(old_results[pos as int].start_col > c.start_col);
                        if b - 1 > pos {
                            assert(old_results[pos as int].start_col < old_results[b - 1].start_col);
                        }
                    } else {
                        assert(results@[a] == old_results[a - 1]);
                        assert(results@[b] == old_results[b - 1]);
                    }
                }
            }
        }
        i = i + 1;
    }
    assert(cv.take(cands@.len() as int) =~= cv);
    results
}

/// Two sequences with the same elements agree on whether some element
/// overlaps `c`.
proof fn lemma_overlap_same(rv: Seq<(Seq<char>, usize, usize)>, acc: Seq<(Seq<char>, usize, usize)>, c: (Seq<char>, usize, usize))
    requires
        rv.to_multiset() == acc.to_multiset(),
    ensures
        (exists|k: int| 0 <= k < rv.len() && #[trigger] overlapping(rv[k], c)) == (exists|k: int| 0 <= k < acc.len() && #[trigger] overlapping(acc[k], c)),
{
    if exists|k: int| 0 <= k < rv.len() && #[trigger] overlapping(rv[k], c) {
        let k = choose|k: int| 0 <= k < rv.len() && #[trigger] overlapping(rv[k], c);
        vstd::seq_lib::to_multiset_contains(rv, rv[k]);
        vstd::seq_lib::to_multiset_contains(acc, rv[k]);
        assert(rv.contains(rv[k]));
        let j = choose|j: int| 0 <= j < acc.len() && acc[j] == rv[k];
        assert(overlapping(acc[j], c));
    }
    if exists|k: int| 0 <= k < acc.len() && #[trigger] overlapping(acc[k], c) {
        let k = choose|k: int| 0 <= k < acc.len() && #[trigger] overlapping(acc[k], c);
        vstd::seq_lib::to_multiset_contains(acc, acc[k]);
        vstd::seq_lib::to_multiset_contains(rv, acc[k]);
        assert(acc.contains(acc[k]));
        let j = choose|j: int| 0 <= j < rv.len() && rv[j] == acc[k];
        assert(overlapping(rv[j], c));
    }
}

} // verus!
