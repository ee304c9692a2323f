//! The editing core of a drawing program for layered documents of
//! attributed characters.
//!
//! A document is a `canvas::Canvas`: a stack of `layer::Layer`s of
//! `cell::Cell`s, with a palette and a selection. All changes go through
//! an `edit_state::EditState`, which journals them as reversible
//! operations (`journal`) grouped into transactions that undo and redo as
//! one unit. On top of it stand the flood fill (`fill`), the shapes
//! (`raster`) that drags paint on an overlay and merge on release (`drag`),
//! and the tools (`tools`).
//!
//! The remaining modules hold what the program around the core decides:
//! the script bridge (`script`, `plugin`), the layer panel, the palette
//! chooser, the character table and font editor, the window's tiles, and
//! the terminal player.

pub mod canvas;
pub mod cell;
pub mod char_table;
pub mod cli;
pub mod document;
pub mod drag;
pub mod edit_state;
pub mod error;
pub mod fill;
pub mod font_editor;
pub mod geometry;
pub mod journal;
pub mod layer;
pub mod layer_panel;
pub mod palette;
pub mod palette_dialog;
pub mod plugin;
pub mod raster;
pub mod script;
pub mod strings;
pub mod terminal;
pub mod tools;
pub mod window;
