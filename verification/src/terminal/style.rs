//! Cell styles, colours, positions and character sets of the terminal.
use vstd::prelude::*;
use vstd::std_specs::cmp::PartialEqSpecImpl;

verus! {

/// A cell position on the terminal screen.
#[derive(Debug, Copy, Clone, PartialEq, Eq, Structural)]
pub struct Position {
    pub row: usize,
    pub col: usize,
}

impl Default for Position {
    fn default() -> (p: Self)
        ensures
            p.row == 0,
            p.col == 0,
    {
        Position { row: 0, col: 0 }
    }
}

/// The size of the terminal screen, in cells.
#[derive(Debug, Copy, Clone, PartialEq, Eq, Structural)]
pub struct Size {
    pub rows: usize,
    pub cols: usize,
}

/// A set of style attributes, one bit each.
#[derive(Debug, Copy, Clone, Eq)]
pub struct StyleFlags {
    pub bits: u8,
}

impl PartialEq for StyleFlags {
    fn eq(&self, other: &Self) -> (r: bool) {
        self.bits == other.bits
    }
}

impl PartialEqSpecImpl for StyleFlags {
    open spec fn obeys_eq_spec() -> bool {
        true
    }

    open spec fn eq_spec(&self, other: &Self) -> bool {
        self.bits == other.bits
    }
}

impl StyleFlags {
    /// The set holding only the bold attribute.
    pub fn bold() -> (f: StyleFlags)
        ensures
            f.spec_bits() == 1,
    {
        StyleFlags { bits: 1 }
    }

    /// The set holding only the dim attribute.
    pub fn dim() -> (f: StyleFlags)
        ensures
            f.spec_bits() == 2,
    {
        StyleFlags { bits: 2 }
    }

    /// The set holding only the italic attribute.
    pub fn italic() -> (f: StyleFlags)
        ensures
            f.spec_bits() == 4,
    {
        StyleFlags { bits: 4 }
    }

    /// The set holding only the underline attribute.
    pub fn underline() -> (f: StyleFlags)
        ensures
            f.spec_bits() == 8,
    {
        StyleFlags { bits: 8 }
    }

    /// The set holding only the blink attribute.
    pub fn blink() -> (f: StyleFlags)
        ensures
            f.spec_bits() == 16,
    {
        StyleFlags { bits: 16 }
    }

    /// The set holding only the inverse attribute.
    pub fn inverse() -> (f: StyleFlags)
        ensures
            f.spec_bits() == 32,
    {
        StyleFlags { bits: 32 }
    }

    /// The set holding only the hidden attribute.
    pub fn hidden() -> (f: StyleFlags)
        ensures
            f.spec_bits() == 64,
    {
        StyleFlags { bits: 64 }
    }

    /// The set holding only the strikethrough attribute.
    pub fn strikethrough() -> (f: StyleFlags)
        ensures
            f.spec_bits() == 128,
    {
        StyleFlags { bits: 128 }
    }


    /// The raw bits of the set.
    pub open spec fn spec_bits(self) -> u8 {
        self.bits
    }

    /// The set with no attribute.
    pub fn empty() -> (f: StyleFlags)
        ensures
            f.spec_bits() == 0,
    {
        StyleFlags { bits: 0 }
    }

    /// The set whose bits are exactly `bits`.
    pub fn from_bits(bits: u8) -> (f: StyleFlags)
        ensures
            f.spec_bits() == bits,
    {
        StyleFlags { bits }
    }

    /// The raw bits of the set.
    pub fn bits(&self) -> (b: u8)
        ensures
            b == self.spec_bits(),
    {
        self.bits
    }

    /// The attributes of both sets.
    pub fn union(self, other: StyleFlags) -> (f: StyleFlags)
        ensures
            f.spec_bits() == self.spec_bits() | other.spec_bits(),
    {
        StyleFlags { bits: self.bits | other.bits }
    }

    /// Whether every attribute of `other` is in the set.
    pub fn contains(&self, other: StyleFlags) -> (b: bool)
        ensures
            b == (self.spec_bits() & other.spec_bits() == other.spec_bits()),
    {
        self.bits & other.bits == other.bits
    }

    /// Adds (`value`) or removes (`!value`) the attributes of `other`.
    pub fn set(&mut self, other: StyleFlags, value: bool)
        ensures
            final(self).spec_bits() == if value {
                old(self).spec_bits() | other.spec_bits()
            } else {
                old(self).spec_bits() & !other.spec_bits()
            },
    {
        if value {
            self.bits = self.bits | other.bits;
        } else {
            self.bits = self.bits & !other.bits;
        }
    }
}

impl Default for StyleFlags {
    fn default() -> (f: Self)
        ensures
            f.spec_bits() == 0,
    {
        StyleFlags { bits: 0 }
    }
}

/// The eight builtin terminal colours.
#[derive(Debug, Copy, Clone, PartialEq, Eq, Structural)]
pub enum BuiltinColor {
    Black,
    Red,
    Green,
    Yellow,
    Blue,
    Magenta,
    Cyan,
    White,
}

/// A foreground or background colour.
#[derive(Debug, Copy, Clone, Eq)]
pub enum TerminalColor {
    Builtin { color: BuiltinColor, bright: bool },
    Rgb { r: u8, g: u8, b: u8 },
}

impl PartialEq for TerminalColor {
    fn eq(&self, other: &Self) -> (res: bool) {
        match (self, other) {
            (
                TerminalColor::Builtin { color: c1, bright: b1 },
                TerminalColor::Builtin { color: c2, bright: b2 },
            ) => *c1 == *c2 && *b1 == *b2,
            (TerminalColor::Rgb { r: r1, g: g1, b: b1 }, TerminalColor::Rgb { r: r2, g: g2, b: b2 }) => {
                *r1 == *r2 && *g1 == *g2 && *b1 == *b2
            },
            _ => false,
        }
    }
}

impl PartialEqSpecImpl for TerminalColor {
    open spec fn obeys_eq_spec() -> bool {
        true
    }

    open spec fn eq_spec(&self, other: &Self) -> bool {
        *self == *other
    }
}

/// The style of a cell: attributes and colours (`None` is the default colour).
#[derive(Debug, Copy, Clone, Eq)]
pub struct Style {
    pub flags: StyleFlags,
    pub foreground: Option<TerminalColor>,
    pub background: Option<TerminalColor>,
}

impl PartialEq for Style {
    fn eq(&self, other: &Self) -> (r: bool) {
        self.flags == other.flags && self.foreground == other.foreground && self.background
            == other.background
    }
}

impl PartialEqSpecImpl for Style {
    open spec fn obeys_eq_spec() -> bool {
        true
    }

    open spec fn eq_spec(&self, other: &Self) -> bool {
        *self == *other
    }
}

/// The style of a fresh cell: no attribute, default colours.
pub open spec fn default_style() -> Style {
    Style { flags: StyleFlags { bits: 0 }, foreground: None, background: None }
}

impl Default for Style {
    fn default() -> (s: Self)
        ensures
            s == default_style(),
    {
        Style { flags: StyleFlags { bits: 0 }, foreground: None, background: None }
    }
}

/// A character set that printed characters are mapped through.
#[derive(Debug, Copy, Clone, PartialEq, Eq, Structural)]
pub enum Charset {
    Ascii,
    LineDrawing,
}

/// The DEC special graphics (line drawing) table.
pub open spec fn line_drawing(c: char) -> char {
    if c == '_' { ' ' }
    else if c == '`' { '◆' }
    else if c == 'a' { '▒' }
    else if c == 'b' { '\u{2409}' }
    else if c == 'c' { '\u{240c}' }
    else if c == 'd' { '\u{240d}' }
    else if c == 'e' { '\u{240a}' }
    else if c == 'f' { '°' }
    else if c == 'g' { '±' }
    else if c == 'h' { '\u{2424}' }
    else if c == 'i' { '\u{240b}' }
    else if c == 'j' { '┘' }
    else if c == 'k' { '┐' }
    else if c == 'l' { '┌' }
    else if c == 'm' { '└' }
    else if c == 'n' { '┼' }
    else if c == 'o' { '⎺' }
    else if c == 'p' { '⎻' }
    else if c == 'q' { '─' }
    else if c == 'r' { '⎼' }
    else if c == 's' { '⎽' }
    else if c == 't' { '├' }
    else if c == 'u' { '┤' }
    else if c == 'v' { '┴' }
    else if c == 'w' { '┬' }
    else if c == 'x' { '│' }
    else if c == 'y' { '≤' }
    else if c == 'z' { '≥' }
    else if c == '{' { 'π' }
    else if c == '|' { '≠' }
    else if c == '}' { '£' }
    else if c == '~' { '·' }
    else { c }
}

impl Charset {
    /// The character that `c` is drawn as in this character set.
    pub open spec fn spec_map(self, c: char) -> char {
        match self {
            Charset::Ascii => c,
            Charset::LineDrawing => line_drawing(c),
        }
    }

    pub fn map(self, c: char) -> (r: char)
        ensures
            r == self.spec_map(c),
    {
        match self {
            Charset::Ascii => c,
            Charset::LineDrawing => match c {
                '_' => ' ',
                '`' => '◆',
                'a' => '▒',
                'b' => '\u{2409}',
                'c' => '\u{240c}',
                'd' => '\u{240d}',
                'e' => '\u{240a}',
                'f' => '°',
                'g' => '±',
                'h' => '\u{2424}',
                'i' => '\u{240b}',
                'j' => '┘',
                'k' => '┐',
                'l' => '┌',
                'm' => '└',
                'n' => '┼',
                'o' => '⎺',
                'p' => '⎻',
                'q' => '─',
                'r' => '⎼',
                's' => '⎽',
                't' => '├',
                'u' => '┤',
                'v' => '┴',
                'w' => '┬',
                'x' => '│',
                'y' => '≤',
                'z' => '≥',
                '{' => 'π',
                '|' => '≠',
                '}' => '£',
                '~' => '·',
                _ => c,
            },
        }
    }
}

/// The terminal cursor: where the next character goes, and the modes that
/// travel with it.
#[derive(Debug, Clone, Copy, PartialEq, Eq)]
pub struct Cursor {
    pub pos: Position,
    pub visible: bool,
    pub insert: bool,
    pub line_feed: bool,
    pub blink: bool,
    pub style: Style,
    pub active_charset: usize,
}

/// A fresh cursor: at the origin, visible, default style.
pub open spec fn default_cursor() -> Cursor {
    Cursor {
        pos: Position { row: 0, col: 0 },
        visible: true,
        insert: false,
        line_feed: false,
        blink: false,
        style: default_style(),
        active_charset: 0,
    }
}

impl Default for Cursor {
    fn default() -> (c: Self)
        ensures
            c == default_cursor(),
    {
        Cursor {
            pos: Position { row: 0, col: 0 },
            visible: true,
            insert: false,
            line_feed: false,
            blink: false,
            style: Style::default(),
            active_charset: 0,
        }
    }
}

} // verus!
