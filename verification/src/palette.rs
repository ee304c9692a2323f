//! The palette: the ordered colours that cell attributes index.

use crate::error::EditError;
use vstd::prelude::*;

verus! {

/// One red-green-blue triple.
#[derive(Clone, Copy, Debug, PartialEq, Eq, Structural, Hash)]
pub struct Color {
    pub r: u8,
    pub g: u8,
    pub b: u8,
}

/// The mathematical content of a palette.
#[verifier::ext_equal]
pub struct PaletteView {
    pub title: Seq<char>,
    pub description: Seq<char>,
    pub colors: Seq<Color>,
}

#[derive(Debug)]
pub struct Palette {
    pub title: String,
    pub description: String,
    pub colors: Vec<Color>,
}

impl View for Palette {
    type V = PaletteView;

    open spec fn view(&self) -> PaletteView {
        PaletteView {
            title: self.title@,
            description: self.description@,
            colors: self.colors@,
        }
    }
}

impl PaletteView {
    /// The first index that holds `color`, or the length where none does.
    pub open spec fn first_index_of(self, color: Color) -> int
        decreases self.colors.len(),
    {
        if self.colors.len() == 0 {
            0
        } else {
            let rest = PaletteView { colors: self.colors.drop_last(), ..self };
            let i = rest.first_index_of(color);
            if i < rest.colors.len() {
                i
            } else if self.colors.last() == color {
                self.colors.len() - 1
            } else {
                self.colors.len() as int
            }
        }
    }
}

/// `first_index_of` is the least index that holds the colour.
pub proof fn lemma_first_index_of(p: PaletteView, color: Color)
    ensures
        0 <= p.first_index_of(color) <= p.colors.len(),
        p.first_index_of(color) < p.colors.len() ==> p.colors[p.first_index_of(color)] == color,
        forall|k: int| 0 <= k < p.first_index_of(color) ==> p.colors[k] != color,
    decreases p.colors.len(),
{
    if p.colors.len() > 0 {
        let rest = PaletteView { colors: p.colors.drop_last(), ..p };
        lemma_first_index_of(rest, color);
        assert forall|k: int| 0 <= k < p.first_index_of(color) implies p.colors[k] != color by {
            if k < rest.colors.len() {
                assert(rest.colors[k] == p.colors[k]);
            }
        }
    }
}

impl Color {
    pub fn new(r: u8, g: u8, b: u8) -> (c: Color)
        ensures
            c == (Color { r, g, b }),
    {
        Color { r, g, b }
    }
}

impl Palette {
    /// An untitled palette of the given colours.
    pub fn from_colors(colors: Vec<Color>) -> (p: Palette)
        ensures
            p@ == (PaletteView { title: Seq::empty(), description: Seq::empty(), colors: colors@ }),
    {
        let p = Palette { title: String::new(), description: String::new(), colors };
        assert(p.title@ =~= Seq::empty());
        assert(p.description@ =~= Seq::empty());
        p
    }

    pub fn len(&self) -> (n: usize)
        ensures
            n == self@.colors.len(),
    {
        self.colors.len()
    }

    /// The colour at `index`; `IndexOutOfRange` beyond the end.
    pub fn get_rgb(&self, index: usize) -> (r: Result<Color, EditError>)
        ensures
            r == if index < self@.colors.len() {
                Ok::<Color, EditError>(self@.colors[index as int])
            } else {
                Err::<Color, EditError>(EditError::IndexOutOfRange)
            },
    {
        if index < self.colors.len() {
            Ok(self.colors[index])
        } else {
            Err(EditError::IndexOutOfRange)
        }
    }

    /// The first index that holds `color`, if any does.
    pub fn position_of(&self, color: Color) -> (r: Option<usize>)
        ensures
            r == if self@.first_index_of(color) < self@.colors.len() {
                Some(self@.first_index_of(color) as usize)
            } else {
                None
            },
    {
        let n: usize = self.colors.len();
        let mut i: usize = 0;
        while i < n
            invariant
                n == self.colors@.len(),
                i <= n,
                forall|k: int| 0 <= k < i ==> self.colors@[k] != color,
            decreases n - i,
        {
            if self.colors[i] == color {
                proof {
                    lemma_first_index_of(self@, color);
                }
                return Some(i);
            }
            i += 1;
        }
        proof {
            lemma_first_index_of(self@, color);
        }
        None
    }

    /// The index of the colour `(r, g, b)`, which is appended where the
    /// palette does not hold it yet. `IndexOutOfRange` where the colour is
    /// new and its index would not fit `u32`; the palette is then unchanged.
    pub fn insert_color_rgb(&mut self, r: u8, g: u8, b: u8) -> (res: Result<u32, EditError>)
        ensures
            ({
                let color = Color { r, g, b };
                let i = old(self)@.first_index_of(color);
                if i > u32::MAX {
                    &&& res == Err::<u32, EditError>(EditError::IndexOutOfRange)
                    &&& final(self)@ == old(self)@
                } else if i < old(self)@.colors.len() {
                    &&& res == Ok::<u32, EditError>(i as u32)
                    &&& final(self)@ == old(self)@
                } else {
                    &&& res == Ok::<u32, EditError>(i as u32)
                    &&& final(self)@ == (PaletteView {
                        colors: old(self)@.colors.push(color),
                        ..old(self)@
                    })
                }
            }),
    {
        let color = Color { r, g, b };
        proof {
            lemma_first_index_of(self@, color);
        }
        let ghost before = self@;
        let found: Option<usize> = self.position_of(color);
        let n: usize = self.colors.len();
        let i: usize = match found {
            Some(i) => i,
            None => n,
        };
        assert(i == before.first_index_of(color));
        if i > u32::MAX as usize {
            return Err(EditError::IndexOutOfRange);
        }
        if i == n {
            self.colors.push(color);
            assert(self@.colors == before.colors.push(color));
            assert(self@.title == before.title);
        }
        Ok(i as u32)
    }

    /// Whether both palettes hold the same colours in the same order,
    /// whatever their titles.
    pub fn are_colors_equal(&self, other: &Palette) -> (r: bool)
        ensures
            r == (self@.colors == other@.colors),
    {
        let n: usize = self.colors.len();
        if n != other.colors.len() {
            return false;
        }
        let mut i: usize = 0;
        while i < n
            invariant
                n == self.colors@.len(),
                n == other.colors@.len(),
                i <= n,
                forall|k: int| 0 <= k < i ==> self.colors@[k] == other.colors@[k],
            decreases n - i,
        {
            if self.colors[i] != other.colors[i] {
                return false;
            }
            i += 1;
        }
        assert(self.colors@ =~= other.colors@);
        true
    }

    /// A copy that is equal in content.
    pub fn duplicate(&self) -> (p: Palette)
        ensures
            p@ == self@,
    {
        let n: usize = self.colors.len();
        let mut colors: Vec<Color> = Vec::new();
        let mut i: usize = 0;
        while i < n
            invariant
                n == self.colors@.len(),
                i <= n,
                colors@.len() == i,
                forall|k: int| 0 <= k < i ==> colors@[k] == self.colors@[k],
            decreases n - i,
        {
            colors.push(self.colors[i]);
            i += 1;
        }
        assert(colors@ =~= self.colors@);
        Palette { title: self.title.clone(), description: self.description.clone(), colors }
    }
}

} // verus!
