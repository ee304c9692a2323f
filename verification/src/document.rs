//! What the window asks of documents and of dialogs.

use crate::edit_state::{EditState, EditStateView};
use crate::font_editor::CharFontEditor;
use crate::journal::OpView;
use crate::palette_dialog::SelectPaletteDialog;
use vstd::prelude::*;

verus! {

/// A document that the window shows in a tab.
pub trait Document {
    spec fn spec_title(&self) -> Seq<char>;

    spec fn spec_dirty(&self) -> bool;

    spec fn spec_undo_len(&self) -> nat;

    /// The title of the tab.
    fn get_title(&self) -> (title: String)
        ensures
            title@ == self.spec_title(),
    ;

    /// Whether the document has unsaved changes.
    fn is_dirty(&self) -> (r: bool)
        ensures
            r == self.spec_dirty(),
    ;

    /// How many transactions can be taken back.
    fn undo_stack_len(&self) -> (n: usize)
        ensures
            n == self.spec_undo_len(),
    ;
}

/// A dialog that the window shows above everything else.
pub trait ModalDialog {
    spec fn spec_should_commit(&self) -> bool;

    /// Whether `commit` has anything to commit.
    spec fn spec_commits(&self) -> bool;

    /// The document after `commit`.
    spec fn spec_committed(&self, before: EditStateView) -> EditStateView;

    /// Whether closing the dialog commits anything.
    fn should_commit(&self) -> (r: bool)
        ensures
            r == self.spec_should_commit(),
    ;

    /// Commits to the document what the dialog has gathered, and says
    /// whether anything was there to commit.
    fn commit(&self, state: &mut EditState) -> (r: bool)
        requires
            old(state).wf(),
        ensures
            final(state).wf(),
            r == self.spec_commits(),
            final(state)@ == self.spec_committed(old(state)@),
    ;
}

impl Document for CharFontEditor {
    open spec fn spec_title(&self) -> Seq<char> {
        match self.file_name() {
            Some(name) => name@,
            None => "Untitled"@,
        }
    }

    open spec fn spec_dirty(&self) -> bool {
        self.dirty()
    }

    open spec fn spec_undo_len(&self) -> nat {
        self.state_view().done.len()
    }

    fn get_title(&self) -> (title: String) {
        CharFontEditor::get_title(self)
    }

    fn is_dirty(&self) -> (r: bool) {
        CharFontEditor::is_dirty(self)
    }

    fn undo_stack_len(&self) -> (n: usize) {
        CharFontEditor::undo_stack_len(self)
    }
}

impl ModalDialog for SelectPaletteDialog {
    open spec fn spec_should_commit(&self) -> bool {
        self.do_select || self.edit_selected_font
    }

    open spec fn spec_commits(&self) -> bool {
        self.selected_palette < self.palettes@.len()
    }

    open spec fn spec_committed(&self, before: EditStateView) -> EditStateView {
        if self.selected_palette < self.palettes@.len() {
            before.recorded(
                OpView::SwitchPalette {
                    old: before.doc.canvas.palette,
                    new: self.palettes@[self.selected_palette as int].palette@,
                },
                "switch palette"@,
            )
        } else {
            before
        }
    }

    fn should_commit(&self) -> (r: bool) {
        SelectPaletteDialog::should_commit(self)
    }

    fn commit(&self, state: &mut EditState) -> (r: bool) {
        SelectPaletteDialog::commit(self, state)
    }
}

} // verus!
