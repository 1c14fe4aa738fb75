//! Operating System Command handling: titles, hyperlinks, notifications,
//! clipboard writes, colour queries and shell-integration markers.
use vstd::prelude::*;
use vstd::utf8::{valid_utf8, decode_utf8};
use crate::text::{
    is_control_char, char_is_control, longest_valid_prefix, utf8_to_string, utf8_valid_prefix_len,
    str_chars, chars_to_string, bytes_eq, bytes_start_with, push_bytes,
};
use crate::config::OscColorReportFormat;
use crate::terminal::{
    Terminal, SemanticMarker, SemanticZone, MAX_PENDING_WRITES, MAX_SEMANTIC_MARKERS, instant_now,
    elapsed_whole_secs, with_reply,
};

verus! {

/// Value of a base64 (RFC 4648) alphabet byte.
pub open spec fn b64_value(b: u8) -> Option<u8> {
    if 65 <= b <= 90 {
        Some((b - 65) as u8)
    } else if 97 <= b <= 122 {
        Some((b - 71) as u8)
    } else if 48 <= b <= 57 {
        Some((b + 4) as u8)
    } else if b == 43 {
        Some(62u8)
    } else if b == 47 {
        Some(63u8)
    } else {
        None
    }
}

fn b64_value_exec(b: u8) -> (r: Option<u8>)
    ensures
        r == b64_value(b),
{
    if 65 <= b && b <= 90 {
        Some(b - 65)
    } else if 97 <= b && b <= 122 {
        Some(b - 71)
    } else if 48 <= b && b <= 57 {
        Some(b + 4)
    } else if b == 43 {
        Some(62)
    } else if b == 47 {
        Some(63)
    } else {
        None
    }
}

/// Base64 decoding of `input` from the bit buffer `buf` holding `bits`
/// pending bits and the output `out` so far: `=` ends the input, line
/// breaks and spaces are skipped, any other byte outside the alphabet is an
/// error.
pub open spec fn b64_run(input: Seq<u8>, buf: u32, bits: u8, out: Seq<u8>) -> Option<Seq<u8>>
    decreases input.len(),
{
    if input.len() == 0 {
        Some(out)
    } else {
        let b = input[0];
        let rest = input.drop_first();
        if b == 61 {
            Some(out)
        } else if b == 10 || b == 13 || b == 32 {
            b64_run(rest, buf, bits, out)
        } else {
            match b64_value(b) {
                None => None,
                Some(v) => {
                    let nb = (buf << 6u32) | (v as u32);
                    let nbits = bits + 6;
                    if nbits >= 8 {
                        b64_run(rest, nb, (nbits - 8) as u8, out.push((nb >> ((nbits - 8) as u32)) as u8))
                    } else {
                        b64_run(rest, nb, nbits as u8, out)
                    }
                },
            }
        }
    }
}

/// The bytes that base64 `input` decodes to, `None` on a foreign byte.
pub open spec fn base64_bytes(input: Seq<u8>) -> Option<Seq<u8>> {
    b64_run(input, 0, 0, seq![])
}

/// Decodes base64 `input` into bytes.
pub fn decode_base64_bytes(input: &[u8]) -> (r: Option<Vec<u8>>)
    ensures
        match base64_bytes(input@) {
            None => r is None,
            Some(b) => r is Some && r->0@ == b,
        },
{
    let mut out: Vec<u8> = Vec::new();
    let mut buf: u32 = 0;
    let mut bits: u8 = 0;
    let mut i: usize = 0;
    assert(input@.skip(0) =~= input@);
    while i < input.len()
        invariant
            i <= input@.len(),
            bits < 8,
            base64_bytes(input@) == b64_run(input@.skip(i as int), buf, bits, out@),
        decreases input@.len() - i,
    {
        let b = input[i];
        assert(input@.skip(i as int).drop_first() =~= input@.skip(i + 1));
        if b == 61 {
            return Some(out);
        }
        if b == 10 || b == 13 || b == 32 {
            i = i + 1;
            continue;
        }
        match b64_value_exec(b) {
            None => {
                return None;
            },
            Some(v) => {
                buf = (buf << 6u32) | (v as u32);
                bits = bits + 6;
                if bits >= 8 {
                    bits = bits - 8;
                    out.push((buf >> (bits as u32)) as u8);
                }
            },
        }
        i = i + 1;
    }
    Some(out)
}

/// Decodes standard base64 `input` and reads the bytes as UTF-8 text;
/// `None` when either step fails.
pub fn decode_base64(input: &[u8]) -> (r: Option<String>)
    ensures
        match base64_bytes(input@) {
            None => r is None,
            Some(b) => (r is Some <==> valid_utf8(b)) && (r is Some ==> r->0@ == decode_utf8(b)),
        },
{
    match decode_base64_bytes(input) {
        None => None,
        Some(bytes) => utf8_to_string(bytes.as_slice()),
    }
}

/// `s` cut to at most `max` bytes.
pub open spec fn capped(s: Seq<u8>, max: int) -> Seq<u8> {
    if s.len() > max { s.take(max) } else { s }
}

/// The text of the longest valid UTF-8 prefix of `s` cut to `max` bytes.
pub open spec fn truncated_text(s: Seq<u8>, max: int) -> Seq<char> {
    let c = capped(s, max);
    decode_utf8(c.take(longest_valid_prefix(c, c.len() as int)))
}

proof fn lemma_longest_valid_prefix(b: Seq<u8>, k: int)
    requires
        0 <= k <= b.len(),
    ensures
        0 <= longest_valid_prefix(b, k) <= k,
        valid_utf8(b.take(longest_valid_prefix(b, k))),
    decreases k,
{
    if k <= 0 {
        assert(b.take(0).len() == 0);
    } else if !valid_utf8(b.take(k)) {
        lemma_longest_valid_prefix(b, k - 1);
    }
}

/// Cuts `s` to at most `max_bytes` bytes and backs off to the last complete
/// UTF-8 character.
pub fn truncate_utf8(s: &[u8], max_bytes: usize) -> (r: String)
    ensures
        r@ == truncated_text(s@, max_bytes as int),
{
    let c: &[u8] = if s.len() > max_bytes { &s[0..max_bytes] } else { s };
    assert(c@ == capped(s@, max_bytes as int));
    let k = utf8_valid_prefix_len(c);
    proof {
        lemma_longest_valid_prefix(c@, c@.len() as int);
    }
    let prefix: &[u8] = &c[0..k];
    assert(prefix@ == c@.take(k as int));
    match utf8_to_string(prefix) {
        Some(t) => t,
        None => String::new(),
    }
}

/// `s` without its control characters, line feeds and tabs excepted.
pub open spec fn sanitized(s: Seq<char>) -> Seq<char> {
    s.filter(|c: char| !is_control_char(c) || c == '\n' || c == '\t')
}

/// Removes the control characters of a notification text, keeping line
/// feeds and tabs.
pub fn sanitize_notification_text(s: &str) -> (r: String)
    ensures
        r@ == sanitized(s@),
{
    let chars = str_chars(s);
    let mut kept: Vec<char> = Vec::new();
    let mut i: usize = 0;
    while i < chars.len()
        invariant
            i <= chars@.len(),
            chars@ == s@,
            kept@ == sanitized(chars@.take(i as int)),
        decreases chars@.len() - i,
    {
        let c = chars[i];
        assert(chars@.take(i + 1).drop_last() =~= chars@.take(i as int));
        proof {
            reveal(Seq::filter);
        }
        if !char_is_control(c) || c == '\n' || c == '\t' {
            kept.push(c);
        }
        i = i + 1;
    }
    assert(chars@.take(chars@.len() as int) =~= chars@);
    chars_to_string(kept.as_slice())
}


/// The byte is an ASCII digit.
pub open spec fn is_digit(b: u8) -> bool {
    48 <= b <= 57
}

/// The value of the ASCII digits `d`.
pub open spec fn digits_value(d: Seq<u8>) -> int
    decreases d.len(),
{
    if d.len() == 0 {
        0
    } else {
        10 * digits_value(d.drop_last()) + (d.last() - 48)
    }
}

/// Every byte of `d` is an ASCII digit.
pub open spec fn all_digits(d: Seq<u8>) -> bool {
    forall|i: int| 0 <= i < d.len() ==> #[trigger] is_digit(d[i])
}

/// `b` without a leading sign.
pub open spec fn unsigned_part(b: Seq<u8>) -> Seq<u8> {
    if b.len() > 0 && (b[0] == 45 || b[0] == 43) { b.drop_first() } else { b }
}

/// What `str::parse::<i32>` gives for the text `b`: an optional sign and at
/// least one ASCII digit, within the range of `i32`.
pub open spec fn parse_i32_spec(b: Seq<u8>) -> Option<i32> {
    let neg = b.len() > 0 && b[0] == 45;
    let d = unsigned_part(b);
    if d.len() == 0 || !all_digits(d) {
        None
    } else {
        let v = if neg { -digits_value(d) } else { digits_value(d) };
        if i32::MIN <= v <= i32::MAX { Some(v as i32) } else { None }
    }
}

/// Parses a decimal `i32` with an optional sign, as `str::parse` does.
pub fn parse_i32_bytes(b: &[u8]) -> (r: Option<i32>)
    ensures
        r == parse_i32_spec(b@),
{
    let neg = b.len() > 0 && b[0] == 45;
    let start: usize = if b.len() > 0 && (b[0] == 45 || b[0] == 43) { 1 } else { 0 };
    let ghost d = unsigned_part(b@);
    assert(d =~= b@.skip(start as int));
    if start == b.len() {
        return None;
    }
    let cap: i64 = 2147483649;
    let mut v: i64 = 0;
    let mut i: usize = start;
    while i < b.len()
        invariant
            start <= i <= b@.len(),
            d == b@.skip(start as int),
            d == unsigned_part(b@),
            neg == (b@.len() > 0 && b@[0] == 45),
            cap == 2147483649,
            forall|j: int| start <= j < i ==> is_digit(b@[j]),
            v == (if digits_value(d.take(i - start)) < cap { digits_value(d.take(i - start)) } else { cap as int }),
            0 <= v <= cap,
        decreases b@.len() - i,
    {
        let c = b[i];
        if c < 48 || c > 57 {
            assert(d[i - start] == b@[i as int]);
            assert(!is_digit(d[i - start]));
            return None;
        }
        proof {
            assert(d.take(i - start + 1).drop_last() =~= d.take(i - start));
            let x = digits_value(d.take(i - start));
            assert(digits_value(d.take(i - start + 1)) == 10 * x + (c - 48));
            assert(x >= 0) by {
                assert forall|j: int| 0 <= j < d.take(i - start).len() implies #[trigger] is_digit(d.take(i - start)[j]) by {
                    assert(d.take(i - start)[j] == b@[j + start]);
                }
                lemma_digits_value_nonneg(d.take(i - start));
            }
        }
        let next: i64 = 10 * v + (c - 48) as i64;
        v = if next < cap { next } else { cap };
        i = i + 1;
    }
    assert(d.take(b@.len() - start) =~= d);
    assert forall|j: int| 0 <= j < d.len() implies #[trigger] is_digit(d[j]) by {
        assert(d[j] == b@[j + start]);
    }
    if neg {
        if v <= 2147483648 {
            Some((-v) as i32)
        } else {
            None
        }
    } else {
        if v <= 2147483647 {
            Some(v as i32)
        } else {
            None
        }
    }
}

proof fn lemma_digits_value_nonneg(d: Seq<u8>)
    requires
        forall|j: int| 0 <= j < d.len() ==> #[trigger] is_digit(d[j]),
    ensures
        digits_value(d) >= 0,
    decreases d.len(),
{
    if d.len() > 0 {
        assert forall|j: int| 0 <= j < d.drop_last().len() implies #[trigger] is_digit(d.drop_last()[j]) by {
            assert(d.drop_last()[j] == d[j]);
        }
        lemma_digits_value_nonneg(d.drop_last());
        assert(is_digit(d[d.len() - 1]));
    }
}


/// Largest hyperlink URL accepted, in bytes.
pub const MAX_URL_BYTES: usize = 2048;
/// Largest window title kept, in bytes.
pub const MAX_TITLE_BYTES: usize = 4096;
/// Largest notification body kept, in bytes.
pub const MAX_NOTIFY_BYTES: usize = 4096;
/// Largest clipboard write accepted, in bytes.
pub const MAX_CLIPBOARD_BYTES: usize = 1048576;

/// The zone that an OSC 133 sequence with parameters `p` records.
pub open spec fn zone_of(p: Seq<Seq<u8>>) -> Option<SemanticZone> {
    if p[1] == seq![65u8] {
        Some(SemanticZone::PromptStart)
    } else if p[1] == seq![66u8] {
        Some(SemanticZone::CommandStart)
    } else if p[1] == seq![67u8] {
        Some(SemanticZone::OutputStart)
    } else if p[1] == seq![68u8] {
        Some(SemanticZone::CommandEnd(if p.len() >= 3 { parse_i32_spec(p[2]) } else { None }))
    } else {
        None
    }
}

/// `new` is `old` after the OSC 133 sequence `p`: the zone is recorded at
/// the cursor line (dropping the oldest marker beyond the cap); a command
/// start starts the clock, a command end stops it and reports the elapsed
/// time with the exit code when a start was seen.
pub open spec fn shell_marked(new: Terminal, old: Terminal, p: Seq<Seq<u8>>) -> bool {
    match zone_of(p) {
        None => new == old,
        Some(z) => {
            let pushed = old.semantic_markers@.push(SemanticMarker { line: old.grid.cursor.point.line.0, zone: z });
            &&& new == (Terminal {
                semantic_markers: new.semantic_markers,
                command_start_time: new.command_start_time,
                command_finished_pending: new.command_finished_pending,
                ..old
            })
            &&& new.semantic_markers@ == if pushed.len() > MAX_SEMANTIC_MARKERS { pushed.drop_first() } else { pushed }
            &&& match z {
                SemanticZone::CommandStart => new.command_start_time is Some && new.command_finished_pending
                    == old.command_finished_pending,
                SemanticZone::CommandEnd(code) => {
                    &&& new.command_start_time is None
                    &&& old.command_start_time is Some ==> new.command_finished_pending is Some
                        && (new.command_finished_pending->0).1 == code
                    &&& old.command_start_time is None ==> new.command_finished_pending == old.command_finished_pending
                },
                _ => new.command_start_time == old.command_start_time && new.command_finished_pending
                    == old.command_finished_pending,
            }
        },
    }
}

/// `new` is `old` after the OSC 8 sequence `p`: an empty URL ends the link;
/// a valid UTF-8 `http://` or `https://` URL of at most `MAX_URL_BYTES`
/// bytes starts one; anything else changes nothing.
pub open spec fn hyperlink_handled(new: Terminal, old: Terminal, p: Seq<Seq<u8>>) -> bool {
    let url = if p.len() >= 3 { p[2] } else { Seq::<u8>::empty() };
    let http = seq![104u8, 116u8, 116u8, 112u8, 58u8, 47u8, 47u8];
    let https = seq![104u8, 116u8, 116u8, 112u8, 115u8, 58u8, 47u8, 47u8];
    if url.len() == 0 {
        new == (Terminal { current_hyperlink: None, ..old })
    } else if url.len() <= MAX_URL_BYTES && valid_utf8(url) && ((http.len() <= url.len() && url.take(
        http.len() as int,
    ) == http) || (https.len() <= url.len() && url.take(https.len() as int) == https)) {
        &&& new == (Terminal { current_hyperlink: new.current_hyperlink, ..old })
        &&& new.current_hyperlink is Some
        &&& new.current_hyperlink->0@ == decode_utf8(url)
    } else {
        new == old
    }
}

/// `new` is `old` after an OSC 0/2 title `raw`: the first `MAX_TITLE_BYTES`
/// bytes become the title when they are valid UTF-8.
pub open spec fn title_handled(new: Terminal, old: Terminal, raw: Seq<u8>) -> bool {
    let c = capped(raw, MAX_TITLE_BYTES as int);
    if valid_utf8(c) {
        &&& new == (Terminal { title: new.title, ..old })
        &&& new.title is Some
        &&& new.title->0@ == decode_utf8(c)
    } else {
        new == old
    }
}

/// `new` is `old` after an OSC 9/99 notification body `raw`.
pub open spec fn notification_handled(new: Terminal, old: Terminal, raw: Seq<u8>) -> bool {
    &&& new == (Terminal { notification_pending: new.notification_pending, ..old })
    &&& new.notification_pending is Some
    &&& (new.notification_pending->0).0@ == seq!['S', 'D', 'I', 'T']
    &&& (new.notification_pending->0).1@ == sanitized(truncated_text(raw, MAX_NOTIFY_BYTES as int))
}

/// `new` is `old` after an OSC 52 payload `data`: a read request (`?`) is
/// ignored; base64 text that decodes to valid UTF-8 of at most
/// `MAX_CLIPBOARD_BYTES` bytes is queued for the clipboard.
pub open spec fn clipboard_handled(new: Terminal, old: Terminal, data: Seq<u8>) -> bool {
    if data == seq![63u8] {
        new == old
    } else {
        match base64_bytes(data) {
            Some(b) => if valid_utf8(b) && b.len() <= MAX_CLIPBOARD_BYTES {
                &&& new == (Terminal { clipboard_write_pending: new.clipboard_write_pending, ..old })
                &&& new.clipboard_write_pending is Some
                &&& new.clipboard_write_pending->0@ == decode_utf8(b)
            } else {
                new == old
            },
            None => new == old,
        }
    }
}

/// Lower-case hexadecimal digit of `v` (0..16).
pub open spec fn hex_digit(v: int) -> u8 {
    if v < 10 { (48 + v) as u8 } else { (87 + v) as u8 }
}

/// One colour component in the report format: two hex digits, or the same
/// two digits twice for 16 bits.
pub open spec fn hex_component(v: u8, fmt: OscColorReportFormat) -> Seq<u8> {
    let h = seq![hex_digit((v / 16) as int), hex_digit((v % 16) as int)];
    match fmt {
        OscColorReportFormat::EightBit => h,
        OscColorReportFormat::SixteenBit => h + h,
    }
}

/// The answer to an OSC colour query: `ESC ] code ; rgb:R/G/B ESC \`.
pub open spec fn color_report(code: Seq<u8>, r: u8, g: u8, b: u8, fmt: OscColorReportFormat) -> Seq<u8> {
    seq![27u8, 93u8] + code + seq![59u8, 114u8, 103u8, 98u8, 58u8] + hex_component(r, fmt) + seq![47u8]
        + hex_component(g, fmt) + seq![47u8] + hex_component(b, fmt) + seq![27u8, 92u8]
}

/// The colour that an OSC 10 (foreground), 11 (background) or 12 (cursor)
/// query reports: white, black and white.
pub open spec fn queried_color(code: Seq<u8>) -> u8 {
    if code == seq![49u8, 49u8] { 0 } else { 255 }
}

/// The code is one of the colour-query codes 10, 11 and 12.
pub open spec fn is_color_query_code(code: Seq<u8>) -> bool {
    code == seq![49u8, 48u8] || code == seq![49u8, 49u8] || code == seq![49u8, 50u8]
}

/// `new` is `old` after the OSC sequence `p`.
pub open spec fn osc_handled(new: Terminal, old: Terminal, p: Seq<Seq<u8>>) -> bool {
    let n = p.len();
    if old.shell_integration_enabled && n >= 2 && p[0] == seq![49u8, 51u8, 51u8] {
        shell_marked(new, old, p)
    } else if n >= 2 && p[0] == seq![56u8] {
        hyperlink_handled(new, old, p)
    } else if n >= 2 && (p[0] == seq![48u8] || p[0] == seq![50u8]) {
        title_handled(new, old, p[1])
    } else if n >= 2 && (p[0] == seq![57u8] || p[0] == seq![57u8, 57u8]) {
        notification_handled(new, old, p[1])
    } else if n >= 3 && p[0] == seq![53u8, 50u8] {
        clipboard_handled(new, old, p[2])
    } else if n >= 2 && is_color_query_code(p[0]) && p[1] == seq![63u8] {
        let v = queried_color(p[0]);
        new == (Terminal {
            pending_writes: new.pending_writes,
            ..old
        }) && new.pending_writes@ == with_reply(
            old.pending_writes@,
            color_report(p[0], v, v, v, old.osc_color_report_format),
        )
    } else {
        new == old
    }
}

/// The parameters of an OSC sequence as byte sequences.
pub open spec fn osc_params(params: Seq<&[u8]>) -> Seq<Seq<u8>> {
    Seq::new(params.len(), |i: int| params[i]@)
}

fn hex_digit_exec(v: u8) -> (r: u8)
    requires
        v < 16,
    ensures
        r == hex_digit(v as int),
{
    if v < 10 { 48 + v } else { 87 + v }
}

fn push_hex_component(out: &mut Vec<u8>, v: u8, fmt: OscColorReportFormat)
    ensures
        final(out)@ == old(out)@ + hex_component(v, fmt),
{
    let hi = hex_digit_exec(v / 16);
    let lo = hex_digit_exec(v % 16);
    out.push(hi);
    out.push(lo);
    match fmt {
        OscColorReportFormat::EightBit => {},
        OscColorReportFormat::SixteenBit => {
            out.push(hi);
            out.push(lo);
        },
    }
    assert(final(out)@ =~= old(out)@ + hex_component(v, fmt));
}

/// Builds the answer to an OSC colour query.
pub fn build_color_report(code: &[u8], r: u8, g: u8, b: u8, fmt: OscColorReportFormat) -> (out: Vec<u8>)
    ensures
        out@ == color_report(code@, r, g, b, fmt),
{
    let mut out: Vec<u8> = Vec::new();
    out.push(27);
    out.push(93);
    push_bytes(&mut out, code);
    let rgb: [u8; 5] = [59, 114, 103, 98, 58];
    push_bytes(&mut out, &rgb);
    push_hex_component(&mut out, r, fmt);
    out.push(47);
    push_hex_component(&mut out, g, fmt);
    out.push(47);
    push_hex_component(&mut out, b, fmt);
    out.push(27);
    out.push(92);
    assert(rgb@ == seq![59u8, 114u8, 103u8, 98u8, 58u8]);
    assert(out@ =~= color_report(code@, r, g, b, fmt));
    out
}


impl Terminal {
    /// OSC 133: records a shell-integration marker.
    fn osc_shell_integration(&mut self, params: &[&[u8]])
        requires
            old(self).wf(),
            params@.len() >= 2,
        ensures
            final(self).wf(),
            shell_marked(*final(self), *old(self), osc_params(params@)),
    {
        let ghost p = osc_params(params@);
        let sub = params[1];
        let a: [u8; 1] = [65];
        let b: [u8; 1] = [66];
        let c: [u8; 1] = [67];
        let d: [u8; 1] = [68];
        assert(a@ == seq![65u8] && b@ == seq![66u8] && c@ == seq![67u8] && d@ == seq![68u8]);
        assert(sub@ == p[1]);
        let zone = if bytes_eq(sub, &a) {
            Some(SemanticZone::PromptStart)
        } else if bytes_eq(sub, &b) {
            Some(SemanticZone::CommandStart)
        } else if bytes_eq(sub, &c) {
            Some(SemanticZone::OutputStart)
        } else if bytes_eq(sub, &d) {
            let exit_code = if params.len() >= 3 {
                assert(params@[2]@ == p[2]);
                parse_i32_bytes(params[2])
            } else {
                None
            };
            Some(SemanticZone::CommandEnd(exit_code))
        } else {
            None
        };
        assert(zone == zone_of(p));
        if let Some(z) = zone {
            let ghost before = *self;
            let line = self.grid.cursor.point.line.0;
            self.semantic_markers.push_back(SemanticMarker { line, zone: z });
            if self.semantic_markers.len() > MAX_SEMANTIC_MARKERS {
                let _ = self.semantic_markers.pop_front();
            }
            match z {
                SemanticZone::CommandStart => {
                    self.command_start_time = Some(instant_now());
                },
                SemanticZone::CommandEnd(code) => {
                    match &self.command_start_time {
                        Some(t) => {
                            let e = elapsed_whole_secs(t);
                            self.command_finished_pending = Some((e, code));
                        },
                        None => {},
                    }
                    self.command_start_time = None;
                },
                _ => {},
            }
            let ghost pushed = before.semantic_markers@.push(SemanticMarker { line: before.grid.cursor.point.line.0, zone: z });
            assert(self.semantic_markers@ =~= if pushed.len() > MAX_SEMANTIC_MARKERS { pushed.drop_first() } else { pushed });
        }
    }

    /// OSC 8: starts or ends a hyperlink.
    fn osc_hyperlink(&mut self, params: &[&[u8]])
        requires
            old(self).wf(),
            params@.len() >= 2,
        ensures
            final(self).wf(),
            hyperlink_handled(*final(self), *old(self), osc_params(params@)),
    {
        let ghost p = osc_params(params@);
        let empty: [u8; 0] = [];
        let url: &[u8] = if params.len() >= 3 { params[2] } else { &empty };
        assert(url@ == if p.len() >= 3 { p[2] } else { Seq::<u8>::empty() });
        if url.len() == 0 {
            self.current_hyperlink = None;
        } else if url.len() <= MAX_URL_BYTES {
            let http: [u8; 7] = [104, 116, 116, 112, 58, 47, 47];
            let https: [u8; 8] = [104, 116, 116, 112, 115, 58, 47, 47];
            assert(http@ == seq![104u8, 116u8, 116u8, 112u8, 58u8, 47u8, 47u8]);
            assert(https@ == seq![104u8, 116u8, 116u8, 112u8, 115u8, 58u8, 47u8, 47u8]);
            if let Some(text) = utf8_to_string(url) {
                if bytes_start_with(url, &http) || bytes_start_with(url, &https) {
                    self.current_hyperlink = Some(text);
                }
            }
        }
    }

    /// OSC 0/2: sets the window title from the first `MAX_TITLE_BYTES` bytes.
    fn osc_title(&mut self, raw: &[u8])
        requires
            old(self).wf(),
        ensures
            final(self).wf(),
            title_handled(*final(self), *old(self), raw@),
    {
        let c: &[u8] = if raw.len() > MAX_TITLE_BYTES { &raw[0..MAX_TITLE_BYTES] } else { raw };
        assert(c@ == capped(raw@, MAX_TITLE_BYTES as int));
        if let Some(title) = utf8_to_string(c) {
            self.title = Some(title);
        }
    }

    /// OSC 9/99: queues a desktop notification.
    fn osc_notify(&mut self, raw: &[u8])
        requires
            old(self).wf(),
        ensures
            final(self).wf(),
            notification_handled(*final(self), *old(self), raw@),
    {
        let text = truncate_utf8(raw, MAX_NOTIFY_BYTES);
        let body = sanitize_notification_text(text.as_str());
        let title_chars: [char; 4] = ['S', 'D', 'I', 'T'];
        let title = chars_to_string(&title_chars);
        assert(title_chars@ == seq!['S', 'D', 'I', 'T']);
        self.notification_pending = Some((title, body));
    }

    /// OSC 52: queues a clipboard write; read requests are not answered.
    fn osc_clipboard(&mut self, data: &[u8])
        requires
            old(self).wf(),
        ensures
            final(self).wf(),
            clipboard_handled(*final(self), *old(self), data@),
    {
        let q: [u8; 1] = [63];
        assert(q@ == seq![63u8]);
        if bytes_eq(data, &q) {
            return;
        }
        if let Some(bytes) = decode_base64_bytes(data) {
            if let Some(text) = utf8_to_string(bytes.as_slice()) {
                if bytes.len() <= MAX_CLIPBOARD_BYTES {
                    self.clipboard_write_pending = Some(text);
                }
            }
        }
    }

    /// Handles an OSC sequence with parameters `params`.
    pub fn osc_dispatch(&mut self, params: &[&[u8]], bell_terminated: bool)
        requires
            old(self).wf(),
        ensures
            final(self).wf(),
            osc_handled(*final(self), *old(self), osc_params(params@)),
    {
        let ghost p = osc_params(params@);
        let n = params.len();
        if n < 2 {
            return;
        }
        let p0 = params[0];
        assert(p0@ == p[0]);
        assert(params@[1]@ == p[1]);
        let l133: [u8; 3] = [49, 51, 51];
        let l8: [u8; 1] = [56];
        let l0: [u8; 1] = [48];
        let l2: [u8; 1] = [50];
        let l9: [u8; 1] = [57];
        let l99: [u8; 2] = [57, 57];
        let l52: [u8; 2] = [53, 50];
        let l10: [u8; 2] = [49, 48];
        let l11: [u8; 2] = [49, 49];
        let l12: [u8; 2] = [49, 50];
        let lq: [u8; 1] = [63];
        assert(l133@ == seq![49u8, 51u8, 51u8] && l8@ == seq![56u8] && l0@ == seq![48u8] && l2@ == seq![50u8]);
        assert(l9@ == seq![57u8] && l99@ == seq![57u8, 57u8] && l52@ == seq![53u8, 50u8] && lq@ == seq![63u8]);
        assert(l10@ == seq![49u8, 48u8] && l11@ == seq![49u8, 49u8] && l12@ == seq![49u8, 50u8]);
        if self.shell_integration_enabled && bytes_eq(p0, &l133) {
            self.osc_shell_integration(params);
        } else if bytes_eq(p0, &l8) {
            self.osc_hyperlink(params);
        } else if bytes_eq(p0, &l0) || bytes_eq(p0, &l2) {
            self.osc_title(params[1]);
        } else if bytes_eq(p0, &l9) || bytes_eq(p0, &l99) {
            self.osc_notify(params[1]);
        } else if n >= 3 && bytes_eq(p0, &l52) {
            assert(params@[2]@ == p[2]);
            self.osc_clipboard(params[2]);
        } else if (bytes_eq(p0, &l10) || bytes_eq(p0, &l11) || bytes_eq(p0, &l12)) && bytes_eq(params[1], &lq) {
            let v: u8 = if bytes_eq(p0, &l11) { 0 } else { 255 };
            let reply = build_color_report(p0, v, v, v, self.osc_color_report_format);
            self.write_response(reply.as_slice());
        }
    }
}

} // verus!
