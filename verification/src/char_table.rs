//! The character table: the glyphs of a font laid out in rows, the glyph
//! under the pointer, and the way from one font page to the next.

use crate::cell::{Attribute, Cell};
use crate::edit_state::walked;
use crate::geometry::{Position, Size};
use crate::layer::{spec_clamp_dim, Layer, LayerView, MAX_DIM};
use crate::strings::{char_from_u32, is_char_code};
use vstd::prelude::*;

verus! {

/// The state of the character table.
#[derive(Debug)]
pub struct CharTableToolWindow {
    pub font_name: String,
    pub hover_char: Option<char>,
    pub buffer_width: usize,
}

/// What the character table asks the window to do.
#[derive(Clone, Copy, Debug, PartialEq, Eq, Structural, Hash)]
pub enum Message {
    SetFontPage(usize),
    CharTable(char),
}

/// Whether `page` is where the button for the page before leads.
pub open spec fn page_before(pages: Seq<usize>, font_page: usize, page: usize) -> bool {
    if exists|k: int| 0 <= k < pages.len() && pages[k] < font_page {
        is_page_before(pages, font_page, page)
    } else {
        is_last_page(pages, page)
    }
}

/// Whether `page` is where the button for the page after leads.
pub open spec fn page_after(pages: Seq<usize>, font_page: usize, page: usize) -> bool {
    if exists|k: int| 0 <= k < pages.len() && pages[k] > font_page {
        is_page_after(pages, font_page, page)
    } else {
        is_first_page(pages, page)
    }
}

/// Whether `page` is the largest of `pages` below `font_page`.
pub open spec fn is_page_before(pages: Seq<usize>, font_page: usize, page: usize) -> bool {
    &&& pages.contains(page)
    &&& page < font_page
    &&& forall|k: int| 0 <= k < pages.len() && pages[k] < font_page ==> pages[k] <= page
}

/// Whether `page` is the smallest of `pages` above `font_page`.
pub open spec fn is_page_after(pages: Seq<usize>, font_page: usize, page: usize) -> bool {
    &&& pages.contains(page)
    &&& page > font_page
    &&& forall|k: int| 0 <= k < pages.len() && pages[k] > font_page ==> pages[k] >= page
}

/// Whether `page` is the largest of `pages`, or zero where there is none.
pub open spec fn is_last_page(pages: Seq<usize>, page: usize) -> bool {
    &&& pages.contains(page) || page == 0
    &&& forall|k: int| 0 <= k < pages.len() ==> pages[k] <= page
}

/// Whether `page` is the smallest of `pages`, or the largest number where
/// there is none.
pub open spec fn is_first_page(pages: Seq<usize>, page: usize) -> bool {
    &&& pages.contains(page) || page == usize::MAX
    &&& forall|k: int| 0 <= k < pages.len() ==> pages[k] >= page
}

/// The page to go back to from `font_page`: the largest page below it, or
/// the last page of all where there is none below.
pub fn prev_font_page(pages: &[usize], font_page: usize) -> (page: usize)
    ensures
        page_before(pages@, font_page, page),
{
    let n: usize = pages.len();
    let mut prev: Option<usize> = None;
    let mut last: usize = 0;
    let mut i: usize = 0;
    while i < n
        invariant
            n == pages@.len(),
            i <= n,
            is_last_page(pages@.take(i as int), last),
            match prev {
                Some(p) => is_page_before(pages@.take(i as int), font_page, p),
                None => forall|k: int| 0 <= k < i ==> pages@[k] >= font_page,
            },
        decreases n - i,
    {
        let page: usize = pages[i];
        let ghost before = pages@.take(i as int);
        let ghost after = pages@.take(i + 1);
        proof {
            assert(after =~= before.push(page));
            assert(after[i as int] == page);
            assert forall|v: usize| before.contains(v) implies after.contains(v) by {
                let w = choose|w: int| 0 <= w < before.len() && before[w] == v;
                assert(after[w] == v);
            }
        }
        if page > last {
            last = page;
        }
        if page < font_page {
            prev = match prev {
                Some(p) => if page > p {
                    Some(page)
                } else {
                    Some(p)
                },
                None => Some(page),
            };
        }
        proof {
            assert forall|k: int| 0 <= k < after.len() implies after[k] <= last by {
                if k < i {
                    assert(before[k] == after[k]);
                }
            }
            match prev {
                Some(p) => {
                    assert forall|k: int| 0 <= k < after.len() && after[k] < font_page implies after[k]
                        <= p by {
                        if k < i {
                            assert(before[k] == after[k]);
                        }
                    }
                },
                None => {},
            }
        }
        i += 1;
    }
    proof {
        assert(pages@.take(n as int) =~= pages@);
    }
    match prev {
        Some(p) => p,
        None => last,
    }
}

/// The page to go on to from `font_page`: the smallest page above it, or
/// the first page of all where there is none above.
pub fn next_font_page(pages: &[usize], font_page: usize) -> (page: usize)
    ensures
        page_after(pages@, font_page, page),
{
    let n: usize = pages.len();
    let mut next: Option<usize> = None;
    let mut first: usize = usize::MAX;
    let mut i: usize = 0;
    while i < n
        invariant
            n == pages@.len(),
            i <= n,
            is_first_page(pages@.take(i as int), first),
            match next {
                Some(p) => is_page_after(pages@.take(i as int), font_page, p),
                None => forall|k: int| 0 <= k < i ==> pages@[k] <= font_page,
            },
        decreases n - i,
    {
        let page: usize = pages[i];
        let ghost before = pages@.take(i as int);
        let ghost after = pages@.take(i + 1);
        proof {
            assert(after =~= before.push(page));
            assert(after[i as int] == page);
            assert forall|v: usize| before.contains(v) implies after.contains(v) by {
                let w = choose|w: int| 0 <= w < before.len() && before[w] == v;
                assert(after[w] == v);
            }
        }
        if page < first {
            first = page;
        }
        if page > font_page {
            next = match next {
                Some(p) => if page < p {
                    Some(page)
                } else {
                    Some(p)
                },
                None => Some(page),
            };
        }
        proof {
            assert forall|k: int| 0 <= k < after.len() implies after[k] >= first by {
                if k < i {
                    assert(before[k] == after[k]);
                }
            }
            match next {
                Some(p) => {
                    assert forall|k: int| 0 <= k < after.len() && after[k] > font_page implies after[k]
                        >= p by {
                        if k < i {
                            assert(before[k] == after[k]);
                        }
                    }
                },
                None => {},
            }
        }
        i += 1;
    }
    proof {
        assert(pages@.take(n as int) =~= pages@);
    }
    match next {
        Some(p) => p,
        None => first,
    }
}

/// The code of the glyph in column `col` and row `row` of a table that is
/// `buffer_width` glyphs wide.
pub open spec fn glyph_code(col: int, row: int, buffer_width: int) -> int {
    col + buffer_width * row
}

/// The character under the pointer, which is over column `col` and row
/// `row` of the table; `None` where that is no character code.
pub fn hovered_char(col: usize, row: usize, buffer_width: usize) -> (r: Option<char>)
    ensures
        r == if glyph_code(col as int, row as int, buffer_width as int) <= u32::MAX && is_char_code(
            glyph_code(col as int, row as int, buffer_width as int) as u32,
        ) {
            Some(glyph_code(col as int, row as int, buffer_width as int) as char)
        } else {
            None
        },
{
    assert(0 <= buffer_width * row <= 0xFFFF_FFFF_FFFF_FFFF * 0xFFFF_FFFF_FFFF_FFFF)
        by (nonlinear_arith)
        requires
            0 <= buffer_width <= 0xFFFF_FFFF_FFFF_FFFF,
            0 <= row <= 0xFFFF_FFFF_FFFF_FFFF,
    ;
    let code: u128 = col as u128 + buffer_width as u128 * row as u128;
    if code > u32::MAX as u128 {
        None
    } else {
        char_from_u32(code as u32)
    }
}

/// The column and the row of the glyph for `ch`.
pub fn cell_of_char(ch: char, buffer_width: usize) -> (cell: (usize, usize))
    requires
        buffer_width > 0,
    ensures
        cell.0 == (ch as int) % (buffer_width as int),
        cell.1 == (ch as int) / (buffer_width as int),
{
    let code: usize = ch as u32 as usize;
    (code % buffer_width, code / buffer_width)
}

/// The cell that shows the glyph under the pointer: `ch` in colour
/// `color` on black.
pub fn hover_cell(ch: char, color: u32) -> (cell: Cell)
    ensures
        cell == (Cell { ch, attribute: Attribute { foreground: color, ..Attribute::spec_plain() } }),
{
    Cell { ch, attribute: Attribute::plain().with_foreground(color) }
}

/// The table of the first 256 glyphs, `buffer_width` to a row: the cell in
/// column `x` of row `y` holds the character with code `y * buffer_width +
/// x` in the plain attribute.
pub open spec fn spec_char_table(buffer_width: int) -> LayerView {
    let w = spec_clamp_dim(buffer_width);
    let h = spec_clamp_dim(256int / buffer_width);
    LayerView {
        cells: Map::new(
            |p: (int, int)| 0 <= p.0 < w && 0 <= p.1 < h,
            |p: (int, int)|
                Cell { ch: (p.1 * buffer_width + p.0) as char, attribute: Attribute::spec_plain() },
        ),
        ..LayerView::fresh("char table"@, w, h)
    }
}

/// The layer that shows the character table; see `spec_char_table`.
pub fn char_table_layer(buffer_width: usize) -> (layer: Layer)
    requires
        0 < buffer_width <= MAX_DIM,
    ensures
        layer.wf(),
        layer@ == spec_char_table(buffer_width as int),
{
    let w: i32 = buffer_width as i32;
    let h: i32 = (256 / buffer_width) as i32;
    let mut layer = Layer::new("char table", Size { width: w, height: h });
    let ghost goal = spec_char_table(buffer_width as int);
    let ghost fresh = layer@;
    proof {
        vstd::arithmetic::div_mod::lemma_div_pos_is_pos(256, buffer_width as int);
        vstd::arithmetic::div_mod::lemma_div_is_ordered_by_denominator(256, 1, buffer_width as int);
    }
    let mut y: i32 = 0;
    proof {
        assert(layer@.cells =~= partial_table(buffer_width as int, 0, 0).cells);
    }
    while y < h
        invariant
            layer.wf(),
            0 <= y <= h,
            w == buffer_width,
            h == 256int / (buffer_width as int),
            0 < w <= MAX_DIM,
            0 <= h <= 256,
            layer@ == partial_table(buffer_width as int, 0, y as int),
        decreases h - y,
    {
        let mut x: i32 = 0;
        while x < w
            invariant
                layer.wf(),
                0 <= y < h,
                0 <= x <= w,
                w == buffer_width,
                h == 256int / (buffer_width as int),
                0 < w <= MAX_DIM,
                0 <= h <= 256,
                layer@ == partial_table(buffer_width as int, x as int, y as int),
            decreases w - x,
        {
            proof {
                vstd::arithmetic::div_mod::lemma_fundamental_div_mod(256, buffer_width as int);
                assert(y * w + x < 256) by (nonlinear_arith)
                    requires
                        0 <= y <= h - 1,
                        0 <= x < w,
                        w * h <= 256,
                        0 < w,
                ;
                assert(0 <= y * w) by (nonlinear_arith)
                    requires
                        0 <= y,
                        0 <= w,
                ;
            }
            let code: u8 = (y * w + x) as u8;
            let ghost before = layer@;
            layer.put(Position { x, y }, Cell { ch: code as char, attribute: Attribute::plain() });
            proof {
                assert(y * (buffer_width as int) + x == (y * w + x) as int);
                assert(layer@.cells =~= partial_table(buffer_width as int, x + 1, y as int).cells);
            }
            x += 1;
        }
        proof {
            assert(partial_table(buffer_width as int, w as int, y as int).cells =~= partial_table(
                buffer_width as int,
                0,
                y + 1,
            ).cells);
        }
        y += 1;
    }
    proof {
        assert(partial_table(buffer_width as int, 0, h as int).cells =~= goal.cells);
    }
    layer
}

/// The character table with the cells walked before `(x, y)` filled in.
pub open spec fn partial_table(buffer_width: int, x: int, y: int) -> LayerView {
    let w = spec_clamp_dim(buffer_width);
    let h = spec_clamp_dim(256int / buffer_width);
    LayerView {
        cells: Map::new(
            |p: (int, int)| 0 <= p.0 < w && 0 <= p.1 < h,
            |p: (int, int)|
                if walked(p, x, y) {
                    Cell {
                        ch: (p.1 * buffer_width + p.0) as char,
                        attribute: Attribute::spec_plain(),
                    }
                } else {
                    Cell::spec_transparent()
                },
        ),
        ..LayerView::fresh("char table"@, w, h)
    }
}

impl CharTableToolWindow {
    /// The table for the font called `font_name`, `buffer_width` glyphs to
    /// a row, with the pointer elsewhere.
    pub fn new(font_name: &str, buffer_width: usize) -> (window: CharTableToolWindow)
        ensures
            window.font_name@ == font_name@,
            window.hover_char is None,
            window.buffer_width == buffer_width,
    {
        CharTableToolWindow { font_name: font_name.to_string(), hover_char: None, buffer_width }
    }

    /// The document shows the font called `font_name`. Where that is
    /// another font than the table's, the table takes it and forgets the
    /// glyph under the pointer; the answer says whether it did.
    pub fn set_font(&mut self, font_name: &str) -> (changed: bool)
        ensures
            changed == (font_name@ != old(self).font_name@),
            final(self).font_name@ == font_name@,
            final(self).buffer_width == old(self).buffer_width,
            final(self).hover_char == if changed {
                None
            } else {
                old(self).hover_char
            },
    {
        let same: bool = self.font_name == font_name.to_string();
        if same {
            false
        } else {
            self.font_name = font_name.to_string();
            self.hover_char = None;
            true
        }
    }

    /// The pointer is over column `col` and row `row`. The answer says
    /// whether the glyph under the pointer is another than before.
    pub fn hover(&mut self, col: usize, row: usize) -> (changed: bool)
        ensures
            final(self).hover_char == hovered_char_of(
                col as int,
                row as int,
                old(self).buffer_width as int,
            ),
            changed == (final(self).hover_char != old(self).hover_char),
            final(self).font_name == old(self).font_name,
            final(self).buffer_width == old(self).buffer_width,
    {
        let now = hovered_char(col, row, self.buffer_width);
        let changed: bool = match (now, self.hover_char) {
            (Some(a), Some(b)) => a != b,
            (None, None) => false,
            _ => true,
        };
        self.hover_char = now;
        changed
    }

    /// The pointer has left the table.
    pub fn leave(&mut self)
        ensures
            final(self).hover_char is None,
            final(self).font_name == old(self).font_name,
            final(self).buffer_width == old(self).buffer_width,
    {
        self.hover_char = None;
    }

    /// One frame of the table alone. `hovered` is the column and the row
    /// under the pointer while it is over the table; `clicked` says whether
    /// the table was clicked. A click gives the glyph that was under the
    /// pointer when the frame began. After the frame the glyph under the
    /// pointer is the one of `hovered`, or none while the pointer is
    /// elsewhere.
    pub fn show_plain_char_table(&mut self, hovered: Option<(usize, usize)>, clicked: bool) -> (r:
        Option<char>)
        ensures
            r == if clicked {
                old(self).hover_char
            } else {
                None
            },
            final(self).hover_char == match hovered {
                Some((col, row)) => hovered_char_of(
                    col as int,
                    row as int,
                    old(self).buffer_width as int,
                ),
                None => None,
            },
            final(self).font_name == old(self).font_name,
            final(self).buffer_width == old(self).buffer_width,
    {
        let result: Option<char> = if clicked {
            self.hover_char
        } else {
            None
        };
        match hovered {
            Some((col, row)) => {
                let _ = self.hover(col, row);
            },
            None => {
                self.leave();
            },
        }
        result
    }

    /// One frame of the table with its page buttons. The table first takes
    /// the font of the document, `font_name`. Where the document has more
    /// than one font, the button for the page before asks for that page and
    /// the button for the page after for that one, the latter winning. A
    /// click on a glyph wins over both and asks for the glyph.
    pub fn show_char_table(
        &mut self,
        font_name: &str,
        font_count: usize,
        pages: &[usize],
        font_page: usize,
        before_clicked: bool,
        after_clicked: bool,
        hovered: Option<(usize, usize)>,
        clicked: bool,
    ) -> (r: Option<Message>)
        ensures
            final(self).font_name@ == font_name@,
            final(self).buffer_width == old(self).buffer_width,
            final(self).hover_char == match hovered {
                Some((col, row)) => hovered_char_of(
                    col as int,
                    row as int,
                    old(self).buffer_width as int,
                ),
                None => None,
            },
            ({
                let glyph = if clicked && font_name@ == old(self).font_name@ {
                    old(self).hover_char
                } else {
                    None
                };
                match glyph {
                    Some(ch) => r == Some(Message::CharTable(ch)),
                    None => if font_count > 1 && after_clicked {
                        r matches Some(Message::SetFontPage(page)) && page_after(
                            pages@,
                            font_page,
                            page,
                        )
                    } else if font_count > 1 && before_clicked {
                        r matches Some(Message::SetFontPage(page)) && page_before(
                            pages@,
                            font_page,
                            page,
                        )
                    } else {
                        r is None
                    },
                }
            }),
    {
        let _ = self.set_font(font_name);
        let mut result: Option<Message> = None;
        if font_count > 1 {
            if before_clicked {
                result = Some(Message::SetFontPage(prev_font_page(pages, font_page)));
            }
            if after_clicked {
                result = Some(Message::SetFontPage(next_font_page(pages, font_page)));
            }
        }
        match self.show_plain_char_table(hovered, clicked) {
            Some(ch) => {
                result = Some(Message::CharTable(ch));
            },
            None => {},
        }
        result
    }

    /// A click on the table: the glyph under the pointer, if any.
    pub fn click(&self) -> (r: Option<char>)
        ensures
            r == self.hover_char,
    {
        self.hover_char
    }
}

/// What `hovered_char` answers.
pub open spec fn hovered_char_of(col: int, row: int, buffer_width: int) -> Option<char> {
    if glyph_code(col, row, buffer_width) <= u32::MAX && is_char_code(
        glyph_code(col, row, buffer_width) as u32,
    ) {
        Some(glyph_code(col, row, buffer_width) as char)
    } else {
        None
    }
}

} // verus!
