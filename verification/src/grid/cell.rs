//! Terminal cell type and its colour and attribute definitions.
use vstd::prelude::*;

verus! {

/// Standard 8+8 named terminal colours, plus the semantic foreground and
/// background.
#[derive(Debug, Clone, Copy, PartialEq, Eq, Structural, Hash)]
pub enum NamedColor {
    Black,
    Red,
    Green,
    Yellow,
    Blue,
    Magenta,
    Cyan,
    White,
    BrightBlack,
    BrightRed,
    BrightGreen,
    BrightYellow,
    BrightBlue,
    BrightMagenta,
    BrightCyan,
    BrightWhite,
    Foreground,
    Background,
}

/// Terminal colour value.
#[derive(Debug, Clone, Copy, PartialEq, Eq, Structural, Hash)]
pub enum Color {
    /// One of the named colours.
    Named(NamedColor),
    /// 256-colour palette index.
    Indexed(u8),
    /// True colour.
    Rgb { r: u8, g: u8, b: u8 },
}

impl Default for Color {
    fn default() -> (r: Self)
        ensures
            r == Color::Named(NamedColor::Foreground),
    {
        Color::Named(NamedColor::Foreground)
    }
}

/// Visual and semantic attribute bits of a cell.
#[derive(Debug, Clone, Copy, PartialEq, Eq, Structural, Hash, Default)]
pub struct CellFlags(pub u16);

impl CellFlags {
    pub const BOLD: u16 = 0x0001;
    pub const ITALIC: u16 = 0x0002;
    pub const UNDERLINE: u16 = 0x0004;
    pub const INVERSE: u16 = 0x0008;
    pub const DIM: u16 = 0x0010;
    pub const HIDDEN: u16 = 0x0020;
    pub const STRIKEOUT: u16 = 0x0040;
    /// The cell is the last column of a line that soft-wrapped.
    pub const WRAPLINE: u16 = 0x0080;
    /// The cell holds the left half of a double-width character.
    pub const WIDE_CHAR: u16 = 0x0100;
    /// The cell is the right-half placeholder of a double-width character.
    pub const WIDE_CHAR_SPACER: u16 = 0x0200;

    /// Every bit of `bits` is set in `self`.
    pub open spec fn has(self, bits: u16) -> bool {
        self.0 & bits == bits
    }

    pub fn empty() -> (r: CellFlags)
        ensures
            r.0 == 0,
    {
        CellFlags(0)
    }

    pub fn bits(&self) -> (r: u16)
        ensures
            r == self.0,
    {
        self.0
    }

    pub fn is_empty(&self) -> (r: bool)
        ensures
            r == (self.0 == 0),
    {
        self.0 == 0
    }

    /// Every bit of `bits` is set.
    pub fn contains(&self, bits: u16) -> (r: bool)
        ensures
            r == self.has(bits),
    {
        self.0 & bits == bits
    }

    /// Sets the given bits.
    pub fn insert(&mut self, bits: u16)
        ensures
            final(self).0 == old(self).0 | bits,
    {
        self.0 = self.0 | bits;
    }

    /// Clears the given bits.
    pub fn remove(&mut self, bits: u16)
        ensures
            final(self).0 == old(self).0 & !bits,
    {
        self.0 = self.0 & !bits;
    }
}

/// A single terminal grid cell.
#[derive(Debug, PartialEq, Eq)]
pub struct Cell {
    /// The character displayed in this cell.
    pub c: char,
    pub fg: Color,
    pub bg: Color,
    pub flags: CellFlags,
    /// OSC 8 hyperlink URL attached to the cell.
    pub hyperlink: Option<String>,
}

/// The freshly reset cell: a space with the default colours, no flags and no
/// link.
pub open spec fn default_cell() -> Cell {
    Cell {
        c: ' ',
        fg: Color::Named(NamedColor::Foreground),
        bg: Color::Named(NamedColor::Background),
        flags: CellFlags(0),
        hyperlink: None,
    }
}

/// `cell` is indistinguishable from a freshly reset cell.
pub open spec fn cell_is_empty(cell: Cell) -> bool {
    &&& cell.c == ' '
    &&& cell.fg == Color::Named(NamedColor::Foreground)
    &&& cell.bg == Color::Named(NamedColor::Background)
    &&& cell.flags.0 == 0
    &&& cell.hyperlink is None
}

/// The cell that `reset` leaves: a blank carrying the template's colours.
pub open spec fn reset_cell(template: Cell) -> Cell {
    Cell { c: ' ', fg: template.fg, bg: template.bg, flags: CellFlags(0), hyperlink: None }
}

impl Clone for Cell {
    fn clone(&self) -> (r: Self)
        ensures
            r == *self,
    {
        self.duplicate()
    }
}

impl Default for Cell {
    fn default() -> (r: Self)
        ensures
            r == default_cell(),
    {
        Cell::blank()
    }
}

impl Cell {
    /// The freshly reset cell.
    pub fn blank() -> (r: Cell)
        ensures
            r == default_cell(),
    {
        Cell {
            c: ' ',
            fg: Color::Named(NamedColor::Foreground),
            bg: Color::Named(NamedColor::Background),
            flags: CellFlags(0),
            hyperlink: None,
        }
    }

    /// A field-by-field copy of the cell.
    pub fn duplicate(&self) -> (r: Cell)
        ensures
            r == *self,
    {
        let hyperlink = match &self.hyperlink {
            Some(s) => Some(s.clone()),
            None => None,
        };
        Cell { c: self.c, fg: self.fg, bg: self.bg, flags: self.flags, hyperlink }
    }

    /// `true` when the cell has no content and default attributes.
    pub fn is_empty(&self) -> (r: bool)
        ensures
            r == cell_is_empty(*self),
    {
        let fg_ok = match self.fg {
            Color::Named(NamedColor::Foreground) => true,
            _ => false,
        };
        let bg_ok = match self.bg {
            Color::Named(NamedColor::Background) => true,
            _ => false,
        };
        self.c == ' ' && fg_ok && bg_ok && self.flags.0 == 0 && self.hyperlink.is_none()
    }

    /// Resets the cell to a blank carrying the template's colours.
    pub fn reset(&mut self, template: &Cell)
        ensures
            *final(self) == reset_cell(*template),
    {
        self.c = ' ';
        self.fg = template.fg;
        self.bg = template.bg;
        self.flags = CellFlags(0);
        self.hyperlink = None;
    }

    pub fn flags(&self) -> (r: CellFlags)
        ensures
            r == self.flags,
    {
        self.flags
    }
}


/// What the grid needs of a cell type.
pub trait GridCell: Sized {
    /// The cell shows nothing and carries no attribute.
    spec fn shows_nothing(&self) -> bool;

    /// The cell that resetting a cell from `template` gives.
    spec fn reset_from(template: &Self) -> Self;

    /// The cell's attribute flags.
    spec fn flag_bits(&self) -> CellFlags;

    /// The cell shows nothing and carries no attribute.
    fn is_empty(&self) -> (r: bool)
        ensures
            r == self.shows_nothing(),
    ;

    /// Resets the cell from `template`.
    fn reset(&mut self, template: &Self)
        ensures
            *final(self) == Self::reset_from(template),
    ;

    /// The attribute flags.
    fn flags(&self) -> (r: CellFlags)
        ensures
            r == self.flag_bits(),
    ;
}

impl GridCell for Cell {
    open spec fn shows_nothing(&self) -> bool {
        cell_is_empty(*self)
    }

    open spec fn reset_from(template: &Self) -> Self {
        reset_cell(*template)
    }

    open spec fn flag_bits(&self) -> CellFlags {
        self.flags
    }

    fn is_empty(&self) -> (r: bool) {
        Cell::is_empty(self)
    }

    fn reset(&mut self, template: &Self) {
        Cell::reset(self, template)
    }

    fn flags(&self) -> (r: CellFlags) {
        Cell::flags(self)
    }
}

} // verus!
