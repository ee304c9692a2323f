//! The attributed character: the value stored in every grid position.

use vstd::prelude::*;

verus! {

/// Colours and style of one cell. Colours are indices into the palette.
#[derive(Clone, Copy, Debug, PartialEq, Eq, Structural, Hash)]
pub struct Attribute {
    pub foreground: u32,
    pub background: u32,
    pub blink: bool,
    pub bold: bool,
    pub underline: bool,
    pub ice_color: bool,
}

/// One character with its attribute.
#[derive(Clone, Copy, Debug, PartialEq, Eq, Structural, Hash)]
pub struct Cell {
    pub ch: char,
    pub attribute: Attribute,
}

/// Which channels of a cell an operation compares or overwrites.
#[derive(Clone, Copy, Debug, PartialEq, Eq, Structural, Hash)]
pub struct ChannelMask {
    pub character: bool,
    pub foreground: bool,
    pub background: bool,
}

impl Attribute {
    /// Light grey on black, no style.
    pub open spec fn spec_plain() -> Attribute {
        Attribute {
            foreground: 7,
            background: 0,
            blink: false,
            bold: false,
            underline: false,
            ice_color: false,
        }
    }

    /// The attribute of the transparent cell: every field zero.
    pub open spec fn spec_unset() -> Attribute {
        Attribute {
            foreground: 0,
            background: 0,
            blink: false,
            bold: false,
            underline: false,
            ice_color: false,
        }
    }

    pub fn plain() -> (a: Attribute)
        ensures
            a == Self::spec_plain(),
    {
        Attribute {
            foreground: 7,
            background: 0,
            blink: false,
            bold: false,
            underline: false,
            ice_color: false,
        }
    }

    pub fn unset() -> (a: Attribute)
        ensures
            a == Self::spec_unset(),
    {
        Attribute {
            foreground: 0,
            background: 0,
            blink: false,
            bold: false,
            underline: false,
            ice_color: false,
        }
    }

    /// This attribute with another foreground colour.
    pub fn with_foreground(self, color: u32) -> (a: Attribute)
        ensures
            a == (Attribute { foreground: color, ..self }),
    {
        Attribute { foreground: color, ..self }
    }

    /// This attribute with another background colour.
    pub fn with_background(self, color: u32) -> (a: Attribute)
        ensures
            a == (Attribute { background: color, ..self }),
    {
        Attribute { background: color, ..self }
    }
}

impl Default for Attribute {
    fn default() -> (a: Attribute)
        ensures
            a == Attribute::spec_plain(),
    {
        Attribute::plain()
    }
}

impl ChannelMask {
    /// No channel selected.
    pub open spec fn is_empty(self) -> bool {
        !self.character && !self.foreground && !self.background
    }

    pub fn new(character: bool, foreground: bool, background: bool) -> (m: ChannelMask)
        ensures
            m == (ChannelMask { character, foreground, background }),
    {
        ChannelMask { character, foreground, background }
    }

    /// Whether no channel is selected.
    pub fn none_selected(self) -> (r: bool)
        ensures
            r == self.is_empty(),
    {
        !self.character && !self.foreground && !self.background
    }
}

impl Cell {
    /// The designated cell that lets lower layers show through.
    pub open spec fn spec_transparent() -> Cell {
        Cell { ch: '\0', attribute: Attribute::spec_unset() }
    }

    /// A space in the plain attribute: what an opaque layer holds before
    /// anything is drawn.
    pub open spec fn spec_blank() -> Cell {
        Cell { ch: ' ', attribute: Attribute::spec_plain() }
    }

    pub open spec fn is_transparent(self) -> bool {
        self == Self::spec_transparent()
    }

    /// `template` with the channels that `mask` selects taken from `source`.
    pub open spec fn spec_replace(template: Cell, source: Cell, mask: ChannelMask) -> Cell {
        Cell {
            ch: if mask.character {
                source.ch
            } else {
                template.ch
            },
            attribute: Attribute {
                foreground: if mask.foreground {
                    source.attribute.foreground
                } else {
                    template.attribute.foreground
                },
                background: if mask.background {
                    source.attribute.background
                } else {
                    template.attribute.background
                },
                ..template.attribute
            },
        }
    }

    /// Whether `self` and `other` agree on every channel that `mask` selects.
    pub open spec fn spec_agrees(self, other: Cell, mask: ChannelMask) -> bool {
        &&& mask.character ==> self.ch == other.ch
        &&& mask.foreground ==> self.attribute.foreground == other.attribute.foreground
        &&& mask.background ==> self.attribute.background == other.attribute.background
    }

    pub fn new(ch: char, attribute: Attribute) -> (c: Cell)
        ensures
            c == (Cell { ch, attribute }),
    {
        Cell { ch, attribute }
    }

    pub fn transparent() -> (c: Cell)
        ensures
            c == Self::spec_transparent(),
    {
        Cell { ch: '\0', attribute: Attribute::unset() }
    }

    pub fn blank() -> (c: Cell)
        ensures
            c == Self::spec_blank(),
    {
        Cell { ch: ' ', attribute: Attribute::plain() }
    }

    /// Whether this is the transparent cell.
    pub fn transparent_here(self) -> (r: bool)
        ensures
            r == self.is_transparent(),
    {
        self == Cell::transparent()
    }

    /// Full equality of two cells.
    pub fn equals(a: Cell, b: Cell) -> (r: bool)
        ensures
            r == (a == b),
    {
        a == b
    }

    /// A new cell: `template`, with only the channels flagged in `mask`
    /// copied from `source`.
    pub fn replace(template: Cell, source: Cell, mask: ChannelMask) -> (c: Cell)
        ensures
            c == Self::spec_replace(template, source, mask),
    {
        let ch: char = if mask.character {
            source.ch
        } else {
            template.ch
        };
        let foreground: u32 = if mask.foreground {
            source.attribute.foreground
        } else {
            template.attribute.foreground
        };
        let background: u32 = if mask.background {
            source.attribute.background
        } else {
            template.attribute.background
        };
        Cell { ch, attribute: Attribute { foreground, background, ..template.attribute } }
    }

    /// Whether the two cells agree on every channel that `mask` selects.
    pub fn agrees(self, other: Cell, mask: ChannelMask) -> (r: bool)
        ensures
            r == self.spec_agrees(other, mask),
    {
        (!mask.character || self.ch == other.ch) && (!mask.foreground
            || self.attribute.foreground == other.attribute.foreground) && (!mask.background
            || self.attribute.background == other.attribute.background)
    }
}

/// Replacing is idempotent, and its result agrees with the source on the
/// masked channels and with the template on the others.
pub proof fn lemma_replace_properties(template: Cell, source: Cell, mask: ChannelMask)
    ensures
        Cell::spec_replace(template, source, mask).spec_agrees(source, mask),
        Cell::spec_replace(Cell::spec_replace(template, source, mask), source, mask)
            == Cell::spec_replace(template, source, mask),
        mask.is_empty() ==> Cell::spec_replace(template, source, mask) == template,
        template.spec_agrees(source, mask) <==> Cell::spec_replace(template, source, mask)
            == template,
{
}

} // verus!
