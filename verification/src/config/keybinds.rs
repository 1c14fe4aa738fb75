//! Key binding settings: actions, bindings, their defaults and validation.
use vstd::prelude::*;
use crate::text::{trim, trim_chars, ascii_lower_seq, ascii_lowercase, chars_eq, str_chars, utf8_len, utf8_len_of};

verus! {

/// Actions a key binding can run.
#[derive(Debug, Clone, Copy, PartialEq, Eq, Structural, Hash)]
pub enum Action {
    NewWindow,
    AddSession,
    CloseSession,
    DetachSession,
    SidebarToggle,
    Copy,
    Paste,
    ZoomIn,
    ZoomOut,
    ZoomReset,
    Search,
    SearchNext,
    SearchPrev,
    NextSession,
    PrevSession,
    /// Quit the application.
    Quit,
    /// Show version information.
    About,
    /// Open the settings file.
    Preferences,
    /// Select all text.
    SelectAll,
    /// Jump to the previous shell prompt (OSC 133).
    PrevPrompt,
    /// Jump to the next shell prompt (OSC 133).
    NextPrompt,
    /// Start quick-select mode.
    QuickSelect,
    /// Toggle vi (copy) mode.
    ToggleViMode,
    /// Toggle Secure Keyboard Entry (macOS).
    ToggleSecureInput,
    /// Switch to the next theme.
    NextTheme,
    /// Switch to the previous theme.
    PreviousTheme,
    /// Toggle the window decorations.
    ToggleDecorations,
    /// Toggle always-on-top.
    ToggleAlwaysOnTop,
    /// Toggle the command palette.
    ToggleCommandPalette,
}

/// The actions that the command palette lists, in order: every action but
/// `ToggleCommandPalette`.
pub open spec fn palette_actions() -> Seq<Action> {
    seq![
        Action::NewWindow, Action::AddSession, Action::CloseSession, Action::DetachSession,
        Action::SidebarToggle, Action::Copy, Action::Paste, Action::ZoomIn, Action::ZoomOut,
        Action::ZoomReset, Action::Search, Action::SearchNext, Action::SearchPrev,
        Action::NextSession, Action::PrevSession, Action::Quit, Action::About, Action::Preferences,
        Action::SelectAll, Action::PrevPrompt, Action::NextPrompt, Action::QuickSelect,
        Action::ToggleViMode, Action::ToggleSecureInput, Action::NextTheme, Action::PreviousTheme,
        Action::ToggleDecorations, Action::ToggleAlwaysOnTop
    ]
}

/// The name of `a`, as its variant is written.
pub open spec fn action_name(a: Action) -> Seq<char> {
    match a {
        Action::NewWindow => "NewWindow"@,
        Action::AddSession => "AddSession"@,
        Action::CloseSession => "CloseSession"@,
        Action::DetachSession => "DetachSession"@,
        Action::SidebarToggle => "SidebarToggle"@,
        Action::Copy => "Copy"@,
        Action::Paste => "Paste"@,
        Action::ZoomIn => "ZoomIn"@,
        Action::ZoomOut => "ZoomOut"@,
        Action::ZoomReset => "ZoomReset"@,
        Action::Search => "Search"@,
        Action::SearchNext => "SearchNext"@,
        Action::SearchPrev => "SearchPrev"@,
        Action::NextSession => "NextSession"@,
        Action::PrevSession => "PrevSession"@,
        Action::Quit => "Quit"@,
        Action::About => "About"@,
        Action::Preferences => "Preferences"@,
        Action::SelectAll => "SelectAll"@,
        Action::PrevPrompt => "PrevPrompt"@,
        Action::NextPrompt => "NextPrompt"@,
        Action::QuickSelect => "QuickSelect"@,
        Action::ToggleViMode => "ToggleViMode"@,
        Action::ToggleSecureInput => "ToggleSecureInput"@,
        Action::NextTheme => "NextTheme"@,
        Action::PreviousTheme => "PreviousTheme"@,
        Action::ToggleDecorations => "ToggleDecorations"@,
        Action::ToggleAlwaysOnTop => "ToggleAlwaysOnTop"@,
        Action::ToggleCommandPalette => "ToggleCommandPalette"@,
    }
}

impl Action {
    /// Every action but `ToggleCommandPalette`, with its name.
    pub fn all_with_names() -> (r: Vec<(&'static str, Action)>)
        ensures
            r@.len() == palette_actions().len(),
            forall|i: int| 0 <= i < r@.len() ==> #[trigger] r@[i].1 == palette_actions()[i],
            forall|i: int| 0 <= i < r@.len() ==> (#[trigger] r@[i]).0@ == action_name(r@[i].1),
    {
        proof {
            reveal_strlit("NewWindow");
            reveal_strlit("AddSession");
            reveal_strlit("CloseSession");
            reveal_strlit("DetachSession");
            reveal_strlit("SidebarToggle");
            reveal_strlit("Copy");
            reveal_strlit("Paste");
            reveal_strlit("ZoomIn");
            reveal_strlit("ZoomOut");
            reveal_strlit("ZoomReset");
            reveal_strlit("Search");
            reveal_strlit("SearchNext");
            reveal_strlit("SearchPrev");
            reveal_strlit("NextSession");
            reveal_strlit("PrevSession");
            reveal_strlit("Quit");
            reveal_strlit("About");
            reveal_strlit("Preferences");
            reveal_strlit("SelectAll");
            reveal_strlit("PrevPrompt");
            reveal_strlit("NextPrompt");
            reveal_strlit("QuickSelect");
            reveal_strlit("ToggleViMode");
            reveal_strlit("ToggleSecureInput");
            reveal_strlit("NextTheme");
            reveal_strlit("PreviousTheme");
            reveal_strlit("ToggleDecorations");
            reveal_strlit("ToggleAlwaysOnTop");
        }
        let r = vec![
            ("NewWindow", Action::NewWindow),
            ("AddSession", Action::AddSession),
            ("CloseSession", Action::CloseSession),
            ("DetachSession", Action::DetachSession),
            ("SidebarToggle", Action::SidebarToggle),
            ("Copy", Action::Copy),
            ("Paste", Action::Paste),
            ("ZoomIn", Action::ZoomIn),
            ("ZoomOut", Action::ZoomOut),
            ("ZoomReset", Action::ZoomReset),
            ("Search", Action::Search),
            ("SearchNext", Action::SearchNext),
            ("SearchPrev", Action::SearchPrev),
            ("NextSession", Action::NextSession),
            ("PrevSession", Action::PrevSession),
            ("Quit", Action::Quit),
            ("About", Action::About),
            ("Preferences", Action::Preferences),
            ("SelectAll", Action::SelectAll),
            ("PrevPrompt", Action::PrevPrompt),
            ("NextPrompt", Action::NextPrompt),
            ("QuickSelect", Action::QuickSelect),
            ("ToggleViMode", Action::ToggleViMode),
            ("ToggleSecureInput", Action::ToggleSecureInput),
            ("NextTheme", Action::NextTheme),
            ("PreviousTheme", Action::PreviousTheme),
            ("ToggleDecorations", Action::ToggleDecorations),
            ("ToggleAlwaysOnTop", Action::ToggleAlwaysOnTop),
        ];
        r
    }
}

/// Modifier bit of Super (Cmd).
pub const MOD_BIT_SUPER: u8 = 1;
/// Modifier bit of Ctrl.
pub const MOD_BIT_CTRL: u8 = 2;
/// Modifier bit of Shift.
pub const MOD_BIT_SHIFT: u8 = 4;
/// Modifier bit of Alt (Option).
pub const MOD_BIT_ALT: u8 = 8;

/// `s` split at every `|`.
pub open spec fn split_bar(s: Seq<char>) -> Seq<Seq<char>>
    decreases s.len(),
{
    if s.len() == 0 {
        seq![Seq::empty()]
    } else {
        let p = split_bar(s.drop_last());
        if s.last() == '|' {
            p.push(Seq::empty())
        } else {
            p.update(p.len() - 1, p.last().push(s.last()))
        }
    }
}

/// The modifier bit that one token names (trimmed, ASCII case ignored).
pub open spec fn mod_token_bit(token: Seq<char>) -> u8 {
    let t = ascii_lower_seq(trim(token));
    if t == seq!['s', 'u', 'p', 'e', 'r'] || t == seq!['c', 'm', 'd'] || t == seq!['l', 'o', 'g', 'o'] {
        MOD_BIT_SUPER
    } else if t == seq!['c', 't', 'r', 'l'] || t == seq!['c', 'o', 'n', 't', 'r', 'o', 'l'] {
        MOD_BIT_CTRL
    } else if t == seq!['s', 'h', 'i', 'f', 't'] {
        MOD_BIT_SHIFT
    } else if t == seq!['a', 'l', 't'] || t == seq!['o', 'p', 't', 'i', 'o', 'n'] {
        MOD_BIT_ALT
    } else {
        0
    }
}

/// The union of the bits of `tokens`.
pub open spec fn mod_bits_of(tokens: Seq<Seq<char>>) -> u8
    decreases tokens.len(),
{
    if tokens.len() == 0 { 0 } else { mod_bits_of(tokens.drop_last()) | mod_token_bit(tokens.last()) }
}

/// The modifier bits that a `|`-separated modifier list names.
pub open spec fn mods_bits(s: Seq<char>) -> u8 {
    mod_bits_of(split_bar(s))
}

fn token_bit(token: &Vec<char>) -> (r: u8)
    ensures
        r == mod_token_bit(token@),
{
    let t = ascii_lowercase(trim_chars(token.as_slice()).as_slice());
    let w_super: [char; 5] = ['s', 'u', 'p', 'e', 'r'];
    let w_cmd: [char; 3] = ['c', 'm', 'd'];
    let w_logo: [char; 4] = ['l', 'o', 'g', 'o'];
    let w_ctrl: [char; 4] = ['c', 't', 'r', 'l'];
    let w_control: [char; 7] = ['c', 'o', 'n', 't', 'r', 'o', 'l'];
    let w_shift: [char; 5] = ['s', 'h', 'i', 'f', 't'];
    let w_alt: [char; 3] = ['a', 'l', 't'];
    let w_option: [char; 6] = ['o', 'p', 't', 'i', 'o', 'n'];
    assert(w_super@ == seq!['s', 'u', 'p', 'e', 'r'] && w_cmd@ == seq!['c', 'm', 'd'] && w_logo@ == seq!['l', 'o', 'g', 'o']);
    assert(w_ctrl@ == seq!['c', 't', 'r', 'l'] && w_control@ == seq!['c', 'o', 'n', 't', 'r', 'o', 'l']);
    assert(w_shift@ == seq!['s', 'h', 'i', 'f', 't'] && w_alt@ == seq!['a', 'l', 't'] && w_option@ == seq!['o', 'p', 't', 'i', 'o', 'n']);
    let ts = t.as_slice();
    if chars_eq(ts, &w_super) || chars_eq(ts, &w_cmd) || chars_eq(ts, &w_logo) {
        MOD_BIT_SUPER
    } else if chars_eq(ts, &w_ctrl) || chars_eq(ts, &w_control) {
        MOD_BIT_CTRL
    } else if chars_eq(ts, &w_shift) {
        MOD_BIT_SHIFT
    } else if chars_eq(ts, &w_alt) || chars_eq(ts, &w_option) {
        MOD_BIT_ALT
    } else {
        0
    }
}

/// Parses a modifier list such as `super|shift` into modifier bits.
pub fn parse_mods_to_bits(s: &str) -> (r: u8)
    ensures
        r == mods_bits(s@),
{
    let chars = str_chars(s);
    let mut bits: u8 = 0;
    let mut token: Vec<char> = Vec::new();
    let mut i: usize = 0;
    while i < chars.len()
        invariant
            i <= chars@.len(),
            chars@ == s@,
            split_bar(chars@.take(i as int)).len() >= 1,
            token@ == split_bar(chars@.take(i as int)).last(),
            bits == mod_bits_of(split_bar(chars@.take(i as int)).drop_last()),
        decreases chars@.len() - i,
    {
        let c = chars[i];
        let ghost p = split_bar(chars@.take(i as int));
        assert(chars@.take(i + 1).drop_last() =~= chars@.take(i as int));
        if c == '|' {
            bits = bits | token_bit(&token);
            token = Vec::new();
            assert(split_bar(chars@.take(i + 1)) == p.push(Seq::empty()));
            assert(p.push(Seq::<char>::empty()).drop_last() =~= p);
            assert(p =~= p.drop_last().push(p.last()));
        } else {
            token.push(c);
            assert(split_bar(chars@.take(i + 1)) == p.update(p.len() - 1, p.last().push(c)));
            assert(p.update(p.len() - 1, p.last().push(c)).drop_last() =~= p.drop_last());
        }
        i = i + 1;
    }
    assert(chars@.take(chars@.len() as int) =~= chars@);
    let ghost p = split_bar(chars@);
    assert(p =~= p.drop_last().push(p.last()));
    bits | token_bit(&token)
}

/// One key binding.
#[derive(Debug, Clone)]
pub struct KeyBinding {
    /// Key name, such as `n`, `Tab` or `backslash`.
    pub key: String,
    /// Modifier list such as `super|shift`; empty for none.
    pub mods: String,
    pub action: Action,
    /// `mods` parsed into modifier bits (set by `validate`).
    pub cached_mods_bits: u8,
}

impl KeyBinding {
    /// A field-by-field copy.
    pub fn duplicate(&self) -> (r: KeyBinding)
        ensures
            r == *self,
    {
        KeyBinding { key: self.key.clone(), mods: self.mods.clone(), action: self.action, cached_mods_bits: self.cached_mods_bits }
    }
}

/// Builds a binding with its modifier bits.
pub fn bind(key: &str, mods: &str, action: Action) -> (r: KeyBinding)
    ensures
        r.key@ == key@,
        r.mods@ == mods@,
        r.action == action,
        r.cached_mods_bits == mods_bits(mods@),
{
    KeyBinding { key: key.to_owned(), mods: mods.to_owned(), action, cached_mods_bits: parse_mods_to_bits(mods) }
}

/// Largest number of bindings kept.
pub const MAX_BINDINGS: usize = 512;
/// Largest key or modifier text, in bytes.
pub const MAX_FIELD_LEN: usize = 64;

/// The binding's key and modifier texts are at most `MAX_FIELD_LEN` bytes.
pub open spec fn binding_fits(b: KeyBinding) -> bool {
    utf8_len(b.key@) <= MAX_FIELD_LEN && utf8_len(b.mods@) <= MAX_FIELD_LEN
}

/// The bindings that fit, in order.
pub open spec fn fitting(bs: Seq<KeyBinding>) -> Seq<KeyBinding>
    decreases bs.len(),
{
    if bs.len() == 0 {
        Seq::empty()
    } else if binding_fits(bs.last()) {
        fitting(bs.drop_last()).push(bs.last())
    } else {
        fitting(bs.drop_last())
    }
}

/// What `validate` leaves: the fitting bindings, at most `MAX_BINDINGS` of
/// them, each with its modifier bits computed.
pub open spec fn validated(bs: Seq<KeyBinding>) -> Seq<KeyBinding> {
    let f = fitting(bs);
    let kept = if f.len() > MAX_BINDINGS { f.take(MAX_BINDINGS as int) } else { f };
    kept.map_values(|b: KeyBinding| KeyBinding { cached_mods_bits: mods_bits(b.mods@), ..b })
}

/// All key bindings.
#[derive(Debug, Clone)]
pub struct KeybindConfig {
    pub bindings: Vec<KeyBinding>,
}

impl KeybindConfig {
    /// Drops bindings whose key or modifier text is longer than 64 bytes,
    /// keeps at most 512, and computes each binding's modifier bits.
    pub fn validate(&mut self)
        ensures
            final(self).bindings@ == validated(old(self).bindings@),
    {
        let ghost orig = self.bindings@;
        let mut kept: Vec<KeyBinding> = Vec::new();
        let mut i: usize = 0;
        while i < self.bindings.len()
            invariant
                i <= self.bindings@.len(),
                self.bindings@ == orig,
                kept@ == fitting(orig.take(i as int)),
            decreases self.bindings@.len() - i,
        {
            assert(orig.take(i + 1).drop_last() =~= orig.take(i as int));
            let b = &self.bindings[i];
            let key_len = utf8_len_of(str_chars(b.key.as_str()).as_slice());
            let mods_len = utf8_len_of(str_chars(b.mods.as_str()).as_slice());
            if key_len <= MAX_FIELD_LEN && mods_len <= MAX_FIELD_LEN {
                kept.push(b.duplicate());
            }
            i = i + 1;
        }
        assert(orig.take(orig.len() as int) =~= orig);
        let n = if kept.len() > MAX_BINDINGS { MAX_BINDINGS } else { kept.len() };
        let mut out: Vec<KeyBinding> = Vec::new();
        let mut j: usize = 0;
        while j < n
            invariant
                j <= n,
                n <= kept@.len(),
                n == (if kept@.len() > MAX_BINDINGS { MAX_BINDINGS as int } else { kept@.len() as int }),
                kept@ == fitting(orig),
                out@ == kept@.take(j as int).map_values(|b: KeyBinding| KeyBinding { cached_mods_bits: mods_bits(b.mods@), ..b }),
            decreases n - j,
        {
            let mut b = kept[j].duplicate();
            b.cached_mods_bits = parse_mods_to_bits(b.mods.as_str());
            out.push(b);
            j = j + 1;
            assert(out@ =~= kept@.take(j as int).map_values(|b: KeyBinding| KeyBinding { cached_mods_bits: mods_bits(b.mods@), ..b }));
        }
        assert(kept@.take(n as int) =~= (if kept@.len() > MAX_BINDINGS { kept@.take(MAX_BINDINGS as int) } else { kept@ }));
        self.bindings = out;
    }
}


/// The bindings are, in order, the `(key, mods, action)` rows of `table`,
/// each with its modifier bits.
pub open spec fn bindings_as(bs: Seq<KeyBinding>, table: Seq<(Seq<char>, Seq<char>, Action)>) -> bool {
    &&& bs.len() == table.len()
    &&& forall|i: int| 0 <= i < bs.len() ==> {
        &&& (#[trigger] bs[i]).key@ == table[i].0
        &&& bs[i].mods@ == table[i].1
        &&& bs[i].action == table[i].2
        &&& bs[i].cached_mods_bits == mods_bits(table[i].1)
    }
}

/// The default bindings of the macOS key layout.
pub open spec fn macos_default_table() -> Seq<(Seq<char>, Seq<char>, Action)> {
    seq![
        ("n"@, "super"@, Action::NewWindow),
        ("n"@, "super|shift"@, Action::DetachSession),
        ("t"@, "super"@, Action::AddSession),
        ("w"@, "super"@, Action::CloseSession),
        ("backslash"@, "super"@, Action::SidebarToggle),
        ("c"@, "super"@, Action::Copy),
        ("v"@, "super"@, Action::Paste),
        ("a"@, "super"@, Action::SelectAll),
        ("="@, "super"@, Action::ZoomIn),
        ("plus"@, "super|shift"@, Action::ZoomIn),
        ("-"@, "super"@, Action::ZoomOut),
        ("0"@, "super"@, Action::ZoomReset),
        ("f"@, "super"@, Action::Search),
        ("g"@, "super"@, Action::SearchNext),
        ("g"@, "super|shift"@, Action::SearchPrev),
        ("Tab"@, "ctrl"@, Action::NextSession),
        ("Tab"@, "ctrl|shift"@, Action::PrevSession),
        ("]"@, "super|shift"@, Action::NextSession),
        ("["@, "super|shift"@, Action::PrevSession),
        ("up"@, "super"@, Action::PrevPrompt),
        ("down"@, "super"@, Action::NextPrompt),
        ("space"@, "super|shift"@, Action::QuickSelect),
        ("v"@, "super|shift"@, Action::ToggleViMode),
        ("q"@, "super"@, Action::Quit),
        (","@, "super"@, Action::Preferences)
    ]
}

/// The default bindings of the other platforms.
pub open spec fn other_default_table() -> Seq<(Seq<char>, Seq<char>, Action)> {
    seq![
        ("n"@, "ctrl|shift"@, Action::NewWindow),
        ("t"@, "ctrl|shift"@, Action::AddSession),
        ("w"@, "ctrl|shift"@, Action::CloseSession),
        ("backslash"@, "ctrl"@, Action::SidebarToggle),
        ("c"@, "ctrl|shift"@, Action::Copy),
        ("v"@, "ctrl|shift"@, Action::Paste),
        ("f"@, "ctrl"@, Action::Search),
        ("g"@, "ctrl"@, Action::SearchNext),
        ("g"@, "ctrl|shift"@, Action::SearchPrev),
        ("Tab"@, "ctrl"@, Action::NextSession),
        ("Tab"@, "ctrl|shift"@, Action::PrevSession)
    ]
}

/// The default bindings of the macOS key layout.
pub fn macos_default_bindings() -> (r: Vec<KeyBinding>)
    ensures
        bindings_as(r@, macos_default_table()),
{
    let r = vec![
        bind("n", "super", Action::NewWindow),
        bind("n", "super|shift", Action::DetachSession),
        bind("t", "super", Action::AddSession),
        bind("w", "super", Action::CloseSession),
        bind("backslash", "super", Action::SidebarToggle),
        bind("c", "super", Action::Copy),
        bind("v", "super", Action::Paste),
        bind("a", "super", Action::SelectAll),
        bind("=", "super", Action::ZoomIn),
        bind("plus", "super|shift", Action::ZoomIn),
        bind("-", "super", Action::ZoomOut),
        bind("0", "super", Action::ZoomReset),
        bind("f", "super", Action::Search),
        bind("g", "super", Action::SearchNext),
        bind("g", "super|shift", Action::SearchPrev),
        bind("Tab", "ctrl", Action::NextSession),
        bind("Tab", "ctrl|shift", Action::PrevSession),
        bind("]", "super|shift", Action::NextSession),
        bind("[", "super|shift", Action::PrevSession),
        bind("up", "super", Action::PrevPrompt),
        bind("down", "super", Action::NextPrompt),
        bind("space", "super|shift", Action::QuickSelect),
        bind("v", "super|shift", Action::ToggleViMode),
        bind("q", "super", Action::Quit),
        bind(",", "super", Action::Preferences),
    ];
    assert(bindings_as(r@, macos_default_table()));
    r
}

/// The default bindings of the other platforms.
pub fn other_default_bindings() -> (r: Vec<KeyBinding>)
    ensures
        bindings_as(r@, other_default_table()),
{
    let r = vec![
        bind("n", "ctrl|shift", Action::NewWindow),
        bind("t", "ctrl|shift", Action::AddSession),
        bind("w", "ctrl|shift", Action::CloseSession),
        bind("backslash", "ctrl", Action::SidebarToggle),
        bind("c", "ctrl|shift", Action::Copy),
        bind("v", "ctrl|shift", Action::Paste),
        bind("f", "ctrl", Action::Search),
        bind("g", "ctrl", Action::SearchNext),
        bind("g", "ctrl|shift", Action::SearchPrev),
        bind("Tab", "ctrl", Action::NextSession),
        bind("Tab", "ctrl|shift", Action::PrevSession),
    ];
    assert(bindings_as(r@, other_default_table()));
    r
}

/// The default bindings of a platform: the macOS set on macOS, the other
/// platforms' set elsewhere. The library cannot see which platform it runs
/// on, so the caller says.
pub fn default_bindings_for(macos: bool) -> (r: Vec<KeyBinding>)
    ensures
        bindings_as(r@, if macos { macos_default_table() } else { other_default_table() }),
{
    if macos {
        macos_default_bindings()
    } else {
        other_default_bindings()
    }
}

/// The default bindings: the macOS key layout (`default_bindings_for`
/// picks per platform).
pub fn default_bindings() -> (r: Vec<KeyBinding>)
    ensures
        bindings_as(r@, macos_default_table()),
{
    macos_default_bindings()
}

impl Default for KeybindConfig {
    fn default() -> (r: Self)
        ensures
            bindings_as(r.bindings@, macos_default_table()),
    {
        KeybindConfig { bindings: default_bindings() }
    }
}

/// Every binding that `fitting` keeps fits, and it keeps no more than it got.
proof fn lemma_fitting_fits(bs: Seq<KeyBinding>)
    ensures
        fitting(bs).len() <= bs.len(),
        forall|i: int| 0 <= i < fitting(bs).len() ==> binding_fits(#[trigger] fitting(bs)[i]),
    decreases bs.len(),
{
    if bs.len() > 0 {
        lemma_fitting_fits(bs.drop_last());
    }
}

/// `fitting` keeps a sequence of fitting bindings whole.
proof fn lemma_fitting_keeps_all(bs: Seq<KeyBinding>)
    requires
        forall|i: int| 0 <= i < bs.len() ==> binding_fits(#[trigger] bs[i]),
    ensures
        fitting(bs) == bs,
    decreases bs.len(),
{
    if bs.len() > 0 {
        lemma_fitting_keeps_all(bs.drop_last());
        assert(bs.drop_last().push(bs.last()) =~= bs);
    }
}

/// Validating bindings that were already validated changes nothing.
pub proof fn lemma_validate_idempotent(bs: Seq<KeyBinding>)
    ensures
        validated(validated(bs)) == validated(bs),
{
    let v = validated(bs);
    lemma_fitting_fits(bs);
    assert forall|i: int| 0 <= i < v.len() implies binding_fits(#[trigger] v[i]) by {
        let f = fitting(bs);
        assert(binding_fits(f[i]));
    }
    lemma_fitting_keeps_all(v);
    assert(validated(v) =~= v);
}

} // verus!
