//! The palette chooser: which palettes it lists, which of them pass the
//! filter, and what choosing one does.

use crate::edit_state::EditState;
use crate::journal::OpView;
use crate::palette::{Palette, PaletteView};
use crate::strings::{
    contains_str, ends_with_ignore_case, ends_with_lowered, equals_ignore_case, equals_lowered,
    has_sub, lowercase_of, to_lowercase,
};
use vstd::prelude::*;
use vstd::string::StringSliceAdditionalSpecFns;
use vstd::utf8::encode_utf8;

verus! {

/// Where a listed palette comes from.
#[derive(Clone, Copy, Debug, PartialEq, Eq, Structural, Hash)]
pub enum PaletteSource {
    BuiltIn,
    Library,
    File,
}

/// A listed palette.
#[derive(Debug)]
pub struct PaletteEntry {
    pub palette: Palette,
    pub source: PaletteSource,
}

/// The mathematical content of a listed palette.
pub struct PaletteEntryView {
    pub palette: PaletteView,
    pub source: PaletteSource,
}

impl View for PaletteEntry {
    type V = PaletteEntryView;

    open spec fn view(&self) -> PaletteEntryView {
        PaletteEntryView { palette: self.palette@, source: self.source }
    }
}

/// The state of the palette chooser.
#[derive(Debug)]
pub struct SelectPaletteDialog {
    pub palettes: Vec<PaletteEntry>,
    pub selected_palette: usize,
    pub filter: String,
    pub show_builtin: bool,
    pub show_library: bool,
    pub show_file: bool,
    pub do_select: bool,
    pub edit_selected_font: bool,
}

/// What the user did to the chooser in one frame.
#[derive(Clone, Copy, Debug, PartialEq, Eq, Structural, Hash)]
pub struct PaletteFrame {
    /// The button that empties the filter was clicked.
    pub clear_filter: bool,
    /// The switch for the palettes of the library was clicked.
    pub toggle_library: bool,
    /// The switch for the built-in palettes was clicked.
    pub toggle_builtin: bool,
    /// The row of this entry was clicked.
    pub clicked: Option<usize>,
    /// The row of this entry was clicked twice.
    pub double_clicked: Option<usize>,
    /// The Select button was clicked.
    pub select: bool,
    /// The Cancel button was clicked.
    pub cancel: bool,
}

/// The views of the listed palettes.
pub open spec fn entry_views(entries: Seq<PaletteEntry>) -> Seq<PaletteEntryView> {
    entries.map_values(|e: PaletteEntry| e@)
}

/// Whether the entry at `i` holds the colours `colors` and none before it
/// does.
pub open spec fn first_with_colors(
    entries: Seq<PaletteEntryView>,
    colors: Seq<crate::palette::Color>,
    i: int,
) -> bool {
    &&& 0 <= i < entries.len()
    &&& entries[i].palette.colors == colors
    &&& forall|k: int| 0 <= k < i ==> (#[trigger] entries[k]).palette.colors != colors
}

/// Whether no entry holds the colours `colors`.
pub open spec fn none_with_colors(
    entries: Seq<PaletteEntryView>,
    colors: Seq<crate::palette::Color>,
) -> bool {
    forall|k: int| 0 <= k < entries.len() ==> (#[trigger] entries[k]).palette.colors != colors
}

/// Whether a palette called `title` passes the filter text `filter`: the
/// title holds the filter when both are taken in lower case.
pub open spec fn title_passes(title: Seq<char>, filter: Seq<char>) -> bool {
    has_sub(encode_utf8(lowercase_of(title)), encode_utf8(lowercase_of(filter)))
}

/// The smallest multiple of eight columns, and at least eight, at which
/// `len` swatches take no more than six rows.
pub open spec fn is_swatch_columns(len: int, columns: int) -> bool {
    &&& columns >= 8
    &&& columns % 8 == 0
    &&& len <= 6 * columns
    &&& columns == 8 || len > 6 * (columns - 8)
}

/// The rows that `len` swatches take in `columns` columns: at least one.
pub open spec fn spec_swatch_rows(len: int, columns: int) -> int {
    if len == 0 {
        1
    } else {
        (len - 1) / columns + 1
    }
}

impl SelectPaletteDialog {
    /// Whether sources of kind `source` are switched on.
    pub open spec fn source_shown(&self, source: PaletteSource) -> bool {
        match source {
            PaletteSource::BuiltIn => self.show_builtin,
            PaletteSource::Library => self.show_library,
            PaletteSource::File => self.show_file,
        }
    }

    /// Whether the entry at `i` is listed: its source is switched on and its
    /// title passes the filter.
    pub open spec fn entry_listed(&self, i: int) -> bool {
        &&& 0 <= i < self.palettes@.len()
        &&& self.source_shown(self.palettes@[i].source)
        &&& title_passes(self.palettes@[i].palette.title@, self.filter@)
    }

    /// The chooser for a document whose palette is `current`. The built-in
    /// palettes come first. Where one of them has the colours of the
    /// document's palette, the first such is selected; where none has, the
    /// document's palette is put in front of them and selected, under the
    /// title `untitled` if it has none. The palettes of the library follow.
    pub fn new(
        builtin: &Vec<Palette>,
        current: &Palette,
        library: &Vec<Palette>,
        untitled: &str,
    ) -> (dialog: SelectPaletteDialog)
        ensures
            dialog.filter@.len() == 0,
            dialog.show_builtin && dialog.show_library && dialog.show_file,
            !dialog.do_select && !dialog.edit_selected_font,
            entry_views(dialog.palettes@) == spec_entries(
                palette_views(builtin@),
                current@,
                palette_views(library@),
                untitled@,
            ),
            none_with_colors(builtin_entries(palette_views(builtin@)), current@.colors)
                ==> dialog.selected_palette == 0,
            !none_with_colors(builtin_entries(palette_views(builtin@)), current@.colors)
                ==> first_with_colors(
                builtin_entries(palette_views(builtin@)),
                current@.colors,
                dialog.selected_palette as int,
            ),
    {
        let ghost gb = builtin_entries(palette_views(builtin@));
        let ghost gl = library_entries(palette_views(library@));
        let b: usize = builtin.len();
        // the first built-in palette with the document's colours
        let mut found: Option<usize> = None;
        let mut i: usize = 0;
        while i < b && found.is_none()
            invariant
                b == builtin@.len(),
                gb == builtin_entries(palette_views(builtin@)),
                i <= b,
                found is None ==> forall|k: int|
                    0 <= k < i ==> (#[trigger] gb[k]).palette.colors != current@.colors,
                found matches Some(f) ==> first_with_colors(gb, current@.colors, f as int),
            decreases b - i + if found is None { 1int } else { 0int },
        {
            assert(gb[i as int].palette == builtin@[i as int]@);
            if builtin[i].are_colors_equal(current) {
                found = Some(i);
            } else {
                i += 1;
            }
        }
        let mut palettes: Vec<PaletteEntry> = Vec::new();
        let selected: usize = match found {
            Some(f) => f,
            None => {
                let mut own = current.duplicate();
                if own.title.as_str().unicode_len() == 0 {
                    own.title = untitled.to_string();
                }
                palettes.push(PaletteEntry { palette: own, source: PaletteSource::File });
                0
            },
        };
        let ghost front = entry_views(palettes@);
        assert(front =~= own_entry(gb, current@, untitled@));
        let mut k: usize = 0;
        while k < b
            invariant
                b == builtin@.len(),
                gb == builtin_entries(palette_views(builtin@)),
                k <= b,
                entry_views(palettes@) == front + gb.take(k as int),
            decreases b - k,
        {
            let ghost before = entry_views(palettes@);
            palettes.push(
                PaletteEntry { palette: builtin[k].duplicate(), source: PaletteSource::BuiltIn },
            );
            proof {
                assert(gb[k as int].palette == builtin@[k as int]@);
                assert(entry_views(palettes@) =~= before.push(gb[k as int]));
                assert(front + gb.take(k + 1) =~= (front + gb.take(k as int)).push(gb[k as int]));
            }
            k += 1;
        }
        let l: usize = library.len();
        let mut m: usize = 0;
        proof {
            assert(gb.take(b as int) =~= gb);
            assert(front + gb + gl.take(0) =~= front + gb);
        }
        while m < l
            invariant
                l == library@.len(),
                gl == library_entries(palette_views(library@)),
                m <= l,
                entry_views(palettes@) == front + gb + gl.take(m as int),
            decreases l - m,
        {
            let ghost before = entry_views(palettes@);
            palettes.push(
                PaletteEntry { palette: library[m].duplicate(), source: PaletteSource::Library },
            );
            proof {
                assert(gl[m as int].palette == library@[m as int]@);
                assert(entry_views(palettes@) =~= before.push(gl[m as int]));
                assert(front + gb + gl.take(m + 1) =~= (front + gb + gl.take(m as int)).push(
                    gl[m as int],
                ));
            }
            m += 1;
        }
        proof {
            assert(gl.take(l as int) =~= gl);
        }
        SelectPaletteDialog {
            palettes,
            selected_palette: selected,
            filter: String::new(),
            show_builtin: true,
            show_library: true,
            show_file: true,
            do_select: false,
            edit_selected_font: false,
        }
    }

    /// The indices of the listed entries, in order: those whose source is
    /// switched on and whose title passes the filter.
    pub fn filtered(&self) -> (r: Vec<usize>)
        ensures
            forall|k: int| 0 <= k < r@.len() ==> self.entry_listed(#[trigger] r@[k] as int),
            forall|j: int, k: int| 0 <= j < k < r@.len() ==> r@[j] < r@[k],
            forall|i: int| self.entry_listed(i) ==> r@.contains(i as usize),
    {
        let needle: String = to_lowercase(self.filter.as_str());
        let n: usize = self.palettes.len();
        let mut r: Vec<usize> = Vec::new();
        let mut i: usize = 0;
        while i < n
            invariant
                n == self.palettes@.len(),
                i <= n,
                needle@ == lowercase_of(self.filter@),
                forall|k: int| 0 <= k < r@.len() ==> self.entry_listed(#[trigger] r@[k] as int),
                forall|k: int| 0 <= k < r@.len() ==> (#[trigger] r@[k]) < i,
                forall|j: int, k: int| 0 <= j < k < r@.len() ==> r@[j] < r@[k],
                forall|j: int| 0 <= j < i && self.entry_listed(j) ==> r@.contains(j as usize),
            decreases n - i,
        {
            let entry = &self.palettes[i];
            let shown: bool = match entry.source {
                PaletteSource::BuiltIn => self.show_builtin,
                PaletteSource::Library => self.show_library,
                PaletteSource::File => self.show_file,
            };
            let title: String = to_lowercase(entry.palette.title.as_str());
            let ghost before = r@;
            if shown && contains_str(title.as_str(), needle.as_str()) {
                r.push(i);
                proof {
                    assert(r@[before.len() as int] == i);
                    assert forall|j: int| 0 <= j < i + 1 && self.entry_listed(j) implies r@.contains(
                        j as usize,
                    ) by {
                        if j < i {
                            let w = choose|w: int| 0 <= w < before.len() && before[w] == j as usize;
                            assert(r@[w] == j as usize);
                        }
                    }
                }
            }
            i += 1;
        }
        r
    }

    /// Whether the entry at `index` is listed.
    pub fn is_listed(&self, index: usize) -> (r: bool)
        ensures
            r == self.entry_listed(index as int),
    {
        if index >= self.palettes.len() {
            return false;
        }
        let entry = &self.palettes[index];
        let shown: bool = match entry.source {
            PaletteSource::BuiltIn => self.show_builtin,
            PaletteSource::Library => self.show_library,
            PaletteSource::File => self.show_file,
        };
        if !shown {
            return false;
        }
        let title: String = to_lowercase(entry.palette.title.as_str());
        let needle: String = to_lowercase(self.filter.as_str());
        contains_str(title.as_str(), needle.as_str())
    }

    /// The Select button: the selected palette is chosen.
    pub fn select(&mut self)
        ensures
            *final(self) == (SelectPaletteDialog { do_select: true, ..*old(self) }),
    {
        self.do_select = true;
    }

    /// One frame of the chooser. The filter button and the source switches
    /// act first; what is listed is judged after them. A click on the row of
    /// a listed entry selects it; a double click selects and chooses it.
    /// Select chooses the selected entry. The answer says whether the
    /// chooser closes: on Select, on Cancel, and on a double click on a
    /// listed entry.
    pub fn show(&mut self, frame: PaletteFrame) -> (close: bool)
        ensures
            final(self).palettes == old(self).palettes,
            final(self).edit_selected_font == old(self).edit_selected_font,
            final(self).show_file == old(self).show_file,
            final(self).show_library == (old(self).show_library != frame.toggle_library),
            final(self).show_builtin == (old(self).show_builtin != frame.toggle_builtin),
            final(self).filter@ == if frame.clear_filter {
                Seq::<char>::empty()
            } else {
                old(self).filter@
            },
            ({
                let clicked = frame.clicked matches Some(i) && final(self).entry_listed(i as int);
                let twice = frame.double_clicked matches Some(i) && final(self).entry_listed(
                    i as int,
                );
                &&& close == (frame.select || frame.cancel || twice)
                &&& final(self).do_select == (old(self).do_select || frame.select || twice)
                &&& final(self).selected_palette == if twice {
                    frame.double_clicked.unwrap()
                } else if clicked {
                    frame.clicked.unwrap()
                } else {
                    old(self).selected_palette
                }
            }),
    {
        if frame.clear_filter {
            self.filter = String::new();
        }
        if frame.toggle_library {
            self.show_library = !self.show_library;
        }
        if frame.toggle_builtin {
            self.show_builtin = !self.show_builtin;
        }
        let mut close: bool = false;
        match frame.clicked {
            Some(i) => {
                if self.is_listed(i) {
                    self.selected_palette = i;
                }
            },
            None => {},
        }
        match frame.double_clicked {
            Some(i) => {
                if self.is_listed(i) {
                    self.selected_palette = i;
                    self.do_select = true;
                    close = true;
                }
            },
            None => {},
        }
        if frame.select {
            self.do_select = true;
            close = true;
        }
        if frame.cancel {
            close = true;
        }
        close
    }

    /// The entry at `index` was clicked: it is selected.
    pub fn click(&mut self, index: usize)
        ensures
            final(self).selected_palette == index,
            final(self).do_select == old(self).do_select,
            final(self).palettes == old(self).palettes,
            final(self).filter == old(self).filter,
    {
        self.selected_palette = index;
    }

    /// The entry at `index` was clicked twice: it is selected and chosen.
    pub fn double_click(&mut self, index: usize)
        ensures
            final(self).selected_palette == index,
            final(self).do_select,
            final(self).palettes == old(self).palettes,
            final(self).filter == old(self).filter,
    {
        self.selected_palette = index;
        self.do_select = true;
    }

    /// Whether closing the chooser commits a choice.
    pub fn should_commit(&self) -> (r: bool)
        ensures
            r == (self.do_select || self.edit_selected_font),
    {
        self.do_select || self.edit_selected_font
    }

    /// Makes the selected palette the document's, as one transaction that
    /// holds the palette it replaces. Returns whether a palette was
    /// selected; nothing changes where none is.
    pub fn commit(&self, state: &mut EditState) -> (r: bool)
        requires
            old(state).wf(),
        ensures
            final(state).wf(),
            r == (self.selected_palette < self.palettes@.len()),
            !r ==> final(state)@ == old(state)@,
            r ==> final(state)@ == old(state)@.recorded(
                OpView::SwitchPalette {
                    old: old(state)@.doc.canvas.palette,
                    new: self.palettes@[self.selected_palette as int].palette@,
                },
                "switch palette"@,
            ),
    {
        if self.selected_palette < self.palettes.len() {
            state.switch_to_palette(self.palettes[self.selected_palette].palette.duplicate());
            true
        } else {
            false
        }
    }
}

/// The views of a list of palettes.
pub open spec fn palette_views(palettes: Seq<Palette>) -> Seq<PaletteView> {
    palettes.map_values(|p: Palette| p@)
}

/// The palettes as built-in entries.
pub open spec fn builtin_entries(palettes: Seq<PaletteView>) -> Seq<PaletteEntryView> {
    palettes.map_values(
        |p: PaletteView| PaletteEntryView { palette: p, source: PaletteSource::BuiltIn },
    )
}

/// The palettes as library entries.
pub open spec fn library_entries(palettes: Seq<PaletteView>) -> Seq<PaletteEntryView> {
    palettes.map_values(
        |p: PaletteView| PaletteEntryView { palette: p, source: PaletteSource::Library },
    )
}

/// The entry for the document's own palette: none where a built-in palette
/// has its colours.
pub open spec fn own_entry(
    builtin: Seq<PaletteEntryView>,
    current: PaletteView,
    untitled: Seq<char>,
) -> Seq<PaletteEntryView> {
    if none_with_colors(builtin, current.colors) {
        seq![
            PaletteEntryView {
                palette: PaletteView {
                    title: if current.title.len() == 0 {
                        untitled
                    } else {
                        current.title
                    },
                    ..current
                },
                source: PaletteSource::File,
            },
        ]
    } else {
        Seq::empty()
    }
}

/// The entries of a new chooser.
pub open spec fn spec_entries(
    builtin: Seq<PaletteView>,
    current: PaletteView,
    library: Seq<PaletteView>,
    untitled: Seq<char>,
) -> Seq<PaletteEntryView> {
    own_entry(builtin_entries(builtin), current, untitled) + builtin_entries(builtin)
        + library_entries(library)
}

/// The columns of the swatch grid for a palette of `len` colours: the
/// smallest multiple of eight at which the swatches take no more than six
/// rows.
pub fn swatch_columns(len: usize) -> (columns: usize)
    ensures
        is_swatch_columns(len as int, columns as int),
{
    let groups: usize = if len == 0 {
        1
    } else {
        (len - 1) / 48 + 1
    };
    groups * 8
}

/// The rows of the swatch grid: as many as `len` swatches take in
/// `columns` columns, and at least one.
pub fn swatch_rows(len: usize, columns: usize) -> (rows: usize)
    requires
        columns > 0,
    ensures
        rows == spec_swatch_rows(len as int, columns as int),
        rows >= 1,
{
    if len == 0 {
        1
    } else {
        proof {
            vstd::arithmetic::div_mod::lemma_div_pos_is_pos(len - 1, columns as int);
            vstd::arithmetic::div_mod::lemma_div_is_ordered_by_denominator(
                len - 1,
                1,
                columns as int,
            );
            vstd::arithmetic::div_mod::lemma_div_basics(len - 1);
        }
        (len - 1) / columns + 1
    }
}

/// The column and the row of the swatch for colour `index`.
pub fn swatch_cell(index: usize, columns: usize) -> (cell: (usize, usize))
    requires
        columns > 0,
    ensures
        cell.0 == index % columns,
        cell.1 == index / columns,
{
    (index % columns, index / columns)
}

/// What is done with an entry of a palette archive.
#[derive(Clone, Copy, Debug, PartialEq, Eq, Structural, Hash)]
pub enum ArchiveEntryKind {
    /// The entry is an archive itself and is unpacked in turn.
    NestedArchive,
    /// The entry is read as a palette, if it is one.
    PaletteFile,
}

/// What is done with a file of the palette library.
#[derive(Clone, Copy, Debug, PartialEq, Eq, Structural, Hash)]
pub enum LibraryFileAction {
    /// A file without extension is passed over.
    Skip,
    /// The file is read as a palette, if it is one.
    Import,
    /// The file is read as a palette, if it is one, and unpacked as an
    /// archive as well.
    ImportAndUnpack,
}

/// The ending of archive names.
pub open spec fn zip_suffix() -> Seq<u8> {
    seq![0x2Eu8, 0x7A, 0x69, 0x70]
}

/// The extension of archives.
pub open spec fn zip_extension() -> Seq<u8> {
    seq![0x7Au8, 0x69, 0x70]
}

/// What is done with the archive entry called `name`: it is a nested
/// archive where its name ends in `.zip`, in any mix of capitals.
pub fn archive_entry_kind(name: &str) -> (kind: ArchiveEntryKind)
    ensures
        kind == if ends_with_lowered(name.spec_bytes(), zip_suffix()) {
            ArchiveEntryKind::NestedArchive
        } else {
            ArchiveEntryKind::PaletteFile
        },
{
    let suffix: Vec<u8> = vec![0x2Eu8, 0x7A, 0x69, 0x70];
    assert(suffix@ =~= zip_suffix());
    if ends_with_ignore_case(name.as_bytes(), suffix.as_slice()) {
        ArchiveEntryKind::NestedArchive
    } else {
        ArchiveEntryKind::PaletteFile
    }
}

/// What is done with a library file of the given extension: `zip`, in any
/// mix of capitals, is an archive.
pub fn library_file_action(extension: Option<&str>) -> (action: LibraryFileAction)
    ensures
        action == match extension {
            None => LibraryFileAction::Skip,
            Some(ext) => if equals_lowered(ext.spec_bytes(), zip_extension()) {
                LibraryFileAction::ImportAndUnpack
            } else {
                LibraryFileAction::Import
            },
        },
{
    match extension {
        None => LibraryFileAction::Skip,
        Some(ext) => {
            let zip: Vec<u8> = vec![0x7Au8, 0x69, 0x70];
            assert(zip@ =~= zip_extension());
            if equals_ignore_case(ext.as_bytes(), zip.as_slice()) {
                LibraryFileAction::ImportAndUnpack
            } else {
                LibraryFileAction::Import
            }
        },
    }
}

} // verus!
