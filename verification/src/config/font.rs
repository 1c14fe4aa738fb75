//! Font settings that carry no floating-point values: code-point ranges
//! mapped to font families.
use vstd::prelude::*;
use crate::config::strip_u_plus;
use crate::text::{trim, trim_chars, str_chars, find_chars, find_from, parse_hex_u32, parse_hex_u32_spec, utf8_len, utf8_len_of};

verus! {

/// A code-point range served by a font family.
#[derive(Debug, Clone)]
pub struct CodepointRange {
    /// First code point (inclusive).
    pub start: u32,
    /// Last code point (inclusive).
    pub end: u32,
    pub family: String,
}

/// What `parse_codepoint` gives: `U+XXXX`, `u+XXXX` or `XXXX` read as
/// `u32::from_str_radix(_, 16)` does, at most U+10FFFF.
pub open spec fn font_codepoint(s: Seq<char>) -> Option<u32> {
    match parse_hex_u32_spec(strip_u_plus(trim(s))) {
        Some(v) => if v <= 0x10FFFF { Some(v) } else { None },
        None => None,
    }
}

/// The `(start, end)` that `CodepointRange::parse` reads from `s`: split at
/// the first `-`; a single code point is its own end; start must not be
/// after end.
pub open spec fn font_range(s: Seq<char>) -> Option<(u32, u32)> {
    let t = trim(s);
    match find_from(t, seq!['-'], 0) {
        Some(j) => match (font_codepoint(t.take(j)), font_codepoint(t.skip(j + 1))) {
            (Some(a), Some(b)) => if a <= b { Some((a, b)) } else { None },
            _ => None,
        },
        None => match font_codepoint(t) {
            Some(a) => Some((a, a)),
            None => None,
        },
    }
}

/// Parses `U+XXXX`, `u+XXXX` or `XXXX` as a code point.
pub fn parse_codepoint(s: &[char]) -> (r: Option<u32>)
    ensures
        r == font_codepoint(s@),
{
    let t = trim_chars(s);
    let hex = if t.len() >= 2 && (t[0] == 'U' || t[0] == 'u') && t[1] == '+' {
        let part = &t.as_slice()[2..t.len()];
        assert(part@ =~= t@.skip(2));
        part
    } else {
        let part = t.as_slice();
        part
    };
    assert(hex@ == strip_u_plus(trim(s@)));
    match parse_hex_u32(hex) {
        Some(v) => if v <= 0x10FFFF { Some(v) } else { None },
        None => None,
    }
}

impl CodepointRange {
    /// Parses `U+3000-U+9FFF` (or a single `U+3042`) for `family`.
    pub fn parse(range_str: &str, family: &str) -> (r: Option<Self>)
        ensures
            match font_range(range_str@) {
                Some((a, b)) => r is Some && r->0.start == a && r->0.end == b && r->0.family@ == family@,
                None => r is None,
            },
    {
        let chars = str_chars(range_str);
        let t = trim_chars(chars.as_slice());
        let tlen = t.len();
        let dash: [char; 1] = ['-'];
        assert(dash@ == seq!['-']);
        proof {
            crate::text::lemma_find_from_bounds(t@, seq!['-'], 0);
        }
        let (start, end) = match find_chars(t.as_slice(), &dash) {
            Some(j) => {
                let a_part = &t.as_slice()[0..j];
                let b_part = &t.as_slice()[j + 1..tlen];
                assert(a_part@ =~= t@.take(j as int));
                assert(b_part@ =~= t@.skip(j + 1));
                let a = match parse_codepoint(a_part) {
                    Some(a) => a,
                    None => return None,
                };
                let b = match parse_codepoint(b_part) {
                    Some(b) => b,
                    None => return None,
                };
                (a, b)
            },
            None => {
                let a = match parse_codepoint(t.as_slice()) {
                    Some(a) => a,
                    None => return None,
                };
                (a, a)
            },
        };
        if start > end {
            return None;
        }
        Some(CodepointRange { start, end, family: family.to_owned() })
    }

    /// Whether `c` lies in the range.
    pub fn contains(&self, c: char) -> (r: bool)
        ensures
            r == (self.start <= (c as u32) && (c as u32) <= self.end),
    {
        let cp = c as u32;
        cp >= self.start && cp <= self.end
    }
}


/// Largest number of code-point map entries used.
pub const MAX_CODEPOINT_MAP_ENTRIES: usize = 64;
/// Largest code-point range key, in bytes.
pub const MAX_CODEPOINT_KEY_BYTES: usize = 32;
/// Largest family name, in bytes.
pub const MAX_FAMILY_BYTES: usize = 128;

/// The ranges that the first 64 entries of a code-point map give: entries
/// with a key of at most 32 bytes, a family of at most 128 bytes and a key
/// that parses, in order, as (start, end, family).
pub open spec fn parsed_ranges(m: Seq<(String, String)>) -> Seq<(u32, u32, Seq<char>)>
    decreases m.len(),
{
    if m.len() == 0 {
        Seq::empty()
    } else {
        let rest = parsed_ranges(m.drop_last());
        let (key, family) = m.last();
        if utf8_len(key@) > MAX_CODEPOINT_KEY_BYTES || utf8_len(family@) > MAX_FAMILY_BYTES {
            rest
        } else {
            match font_range(key@) {
                Some((a, b)) => rest.push((a, b, family@)),
                None => rest,
            }
        }
    }
}

/// The ranges as (start, end, family).
pub open spec fn ranges_of(r: Seq<CodepointRange>) -> Seq<(u32, u32, Seq<char>)> {
    Seq::new(r.len(), |i: int| (r[i].start, r[i].end, r[i].family@))
}

/// Parses the entries of a code-point map (`"U+3000-U+9FFF"` to a family),
/// skipping entries that do not parse or are too long, at most 64 entries.
pub fn parse_codepoint_map(entries: &[(String, String)]) -> (r: Vec<CodepointRange>)
    ensures
        ranges_of(r@) == parsed_ranges(
            if entries@.len() > MAX_CODEPOINT_MAP_ENTRIES { entries@.take(MAX_CODEPOINT_MAP_ENTRIES as int) } else { entries@ },
        ),
{
    let n = if entries.len() > MAX_CODEPOINT_MAP_ENTRIES { MAX_CODEPOINT_MAP_ENTRIES } else { entries.len() };
    let ghost m = if entries@.len() > MAX_CODEPOINT_MAP_ENTRIES { entries@.take(MAX_CODEPOINT_MAP_ENTRIES as int) } else { entries@ };
    let mut out: Vec<CodepointRange> = Vec::new();
    let mut i: usize = 0;
    assert(ranges_of(out@) =~= parsed_ranges(m.take(0)));
    while i < n
        invariant
            i <= n,
            n == m.len(),
            m == (if entries@.len() > MAX_CODEPOINT_MAP_ENTRIES { entries@.take(MAX_CODEPOINT_MAP_ENTRIES as int) } else { entries@ }),
            ranges_of(out@) == parsed_ranges(m.take(i as int)),
        decreases n - i,
    {
        assert(m.take(i + 1).drop_last() =~= m.take(i as int));
        assert(m.take(i + 1).last() == entries@[i as int]);
        let key = &entries[i].0;
        let family = &entries[i].1;
        let ghost before = out@;
        let kl = utf8_len_of(str_chars(key.as_str()).as_slice());
        let fl = utf8_len_of(str_chars(family.as_str()).as_slice());
        if kl <= MAX_CODEPOINT_KEY_BYTES && fl <= MAX_FAMILY_BYTES {
            match CodepointRange::parse(key.as_str(), family.as_str()) {
                Some(r) => {
                    out.push(r);
                    assert(ranges_of(out@) =~= ranges_of(before).push((out@[before.len() as int].start, out@[before.len() as int].end, family@)));
                },
                None => {},
            }
        }
        i = i + 1;
    }
    assert(m.take(n as int) =~= m);
    out
}

} // verus!
