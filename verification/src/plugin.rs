//! Script plugins: a text whose leading comment names it, and the bounds
//! that a script works within.

use crate::canvas::SelectionView;
use crate::edit_state::EditState;
use crate::geometry::Rectangle;
use vstd::prelude::*;

verus! {

#[verifier::external_type_specification]
#[verifier::external_body]
pub struct ExRegexError(regex::Error);

/// The pattern that finds the title of a plugin: a comment that reads
/// `-- Title: ...`; the title is the rest of the line.
pub open spec fn spec_title_pattern() -> Seq<char> {
    "--\\s*Title:\\s*(.*)"@
}

/// Whether `regex::Regex::new` accepts `pattern`.
pub uninterp spec fn regex_compiles(pattern: Seq<char>) -> bool;

/// What the first capture group of `pattern` holds at the leftmost match in
/// `haystack`, as `regex::Regex::captures` finds it; `None` where there is
/// no match or the group took no part in it.
pub uninterp spec fn regex_first_group(pattern: Seq<char>, haystack: Seq<char>) -> Option<Seq<char>>;

/// The view of an optional string.
pub open spec fn view_of(s: Option<String>) -> Option<Seq<char>> {
    match s {
        Some(s) => Some(s@),
        None => None,
    }
}

/// Compiles `pattern` with `regex::Regex::new` and searches `haystack`
/// with `Regex::captures`. The contract claims that whether the pattern
/// compiles depends on the pattern alone, and that the text of the first
/// capture group depends on pattern and haystack alone; it says nothing of
/// what they are.
#[verifier::external_body]
fn capture_first_group(pattern: &str, haystack: &str) -> (r: Result<Option<String>, regex::Error>)
    ensures
        r is Ok <==> regex_compiles(pattern@),
        r matches Ok(group) ==> view_of(group) == regex_first_group(pattern@, haystack@),
{
    let re = regex::Regex::new(pattern)?;
    Ok(re.captures(haystack).and_then(|c| c.get(1)).map(|m| m.as_str().to_string()))
}

/// Why a text is no plugin.
#[derive(Clone, Copy, Debug, PartialEq, Eq, Structural, Hash)]
pub enum PluginError {
    /// The text holds no title comment.
    NoPluginFile,
    /// The title pattern did not compile.
    InvalidPattern,
    /// The current-layer pointer names no layer.
    NoLayerSelected,
}

/// A script with its title.
#[derive(Debug)]
pub struct Plugin {
    pub title: String,
    pub text: String,
}

/// The mathematical content of a plugin.
pub struct PluginView {
    pub title: Seq<char>,
    pub text: Seq<char>,
}

impl View for Plugin {
    type V = PluginView;

    open spec fn view(&self) -> PluginView {
        PluginView { title: self.title@, text: self.text@ }
    }
}

/// The columns and rows that a script is told to work on, in the
/// coordinates of the current layer.
#[derive(Clone, Copy, Debug, PartialEq, Eq, Structural, Hash)]
pub struct ScriptBounds {
    pub start_x: i64,
    pub end_x: i64,
    pub start_y: i64,
    pub end_y: i64,
}

/// What a text with the given title capture makes.
pub open spec fn spec_with_title(text: Seq<char>, title: Option<Seq<char>>) -> Result<
    PluginView,
    PluginError,
> {
    match title {
        Some(title) => Ok(PluginView { title, text }),
        None => Err(PluginError::NoPluginFile),
    }
}

/// The view of the result of making a plugin.
pub open spec fn result_view(r: Result<Plugin, PluginError>) -> Result<PluginView, PluginError> {
    match r {
        Ok(p) => Ok(p@),
        Err(e) => Err(e),
    }
}

/// The bounds for a script on a layer that covers `layer`, in canvas
/// coordinates. With a selection they are the part of the selection that
/// lies on the layer, first and last column and row, relative to the
/// layer's corner. Without one they run from zero to the layer's width and
/// height.
pub open spec fn spec_script_bounds(selection: Option<Rectangle>, layer: Rectangle) -> ScriptBounds {
    match selection {
        Some(sel) => {
            let part = sel.spec_intersect(layer);
            ScriptBounds {
                start_x: (part.spec_left() - layer.start.x) as i64,
                end_x: (part.spec_right() - layer.start.x - 1) as i64,
                start_y: (part.spec_top() - layer.start.y) as i64,
                end_y: (part.spec_bottom() - layer.start.y - 1) as i64,
            }
        },
        None => ScriptBounds {
            start_x: 0,
            end_x: layer.size.width as i64,
            start_y: 0,
            end_y: layer.size.height as i64,
        },
    }
}

/// The bounds for a script; see `spec_script_bounds`.
pub fn script_bounds(selection: Option<Rectangle>, layer: Rectangle) -> (b: ScriptBounds)
    ensures
        b == spec_script_bounds(selection, layer),
{
    match selection {
        Some(sel) => {
            let part = sel.intersect(&layer);
            let ox: i64 = layer.start.x as i64;
            let oy: i64 = layer.start.y as i64;
            ScriptBounds {
                start_x: part.left() as i64 - ox,
                end_x: part.right() - ox - 1,
                start_y: part.top() as i64 - oy,
                end_y: part.bottom() - oy - 1,
            }
        },
        None => ScriptBounds {
            start_x: 0,
            end_x: layer.size.width as i64,
            start_y: 0,
            end_y: layer.size.height as i64,
        },
    }
}

/// The rectangle that encloses the selection of a canvas, if there is one.
pub open spec fn selection_bounds(selection: Option<SelectionView>) -> Option<Rectangle> {
    match selection {
        Some(s) => Some(s.bounds),
        None => None,
    }
}

impl Plugin {
    /// The plugin that `text` makes, given what the title pattern captured
    /// in it: a plugin with that title, or `NoPluginFile` where it captured
    /// nothing.
    pub fn with_title(text: String, title: Option<String>) -> (r: Result<Plugin, PluginError>)
        ensures
            result_view(r) == spec_with_title(text@, view_of(title)),
    {
        match title {
            Some(title) => Ok(Plugin { title, text }),
            None => Err(PluginError::NoPluginFile),
        }
    }

    /// Reads a plugin from its text. The title is what the title pattern
    /// captures at its first match; a text without a match is no plugin.
    pub fn load(text: String) -> (r: Result<Plugin, PluginError>)
        ensures
            result_view(r) == if regex_compiles(spec_title_pattern()) {
                spec_with_title(text@, regex_first_group(spec_title_pattern(), text@))
            } else {
                Err(PluginError::InvalidPattern)
            },
    {
        match capture_first_group("--\\s*Title:\\s*(.*)", text.as_str()) {
            Ok(title) => Plugin::with_title(text, title),
            Err(_) => Err(PluginError::InvalidPattern),
        }
    }

    /// Prepares the edit state for a run of the plugin: the bounds that the
    /// script works within are computed from the selection and the current
    /// layer, and a transaction is opened under the plugin's title, so that
    /// all that the script does undoes as one unit once the caller has
    /// closed it. Fails with `NoLayerSelected`, and changes nothing, where
    /// the current-layer pointer names no layer.
    pub fn run_plugin(&self, state: &mut EditState) -> (r: Result<ScriptBounds, PluginError>)
        requires
            old(state).wf(),
        ensures
            final(state).wf(),
            match old(state)@.current() {
                None => r == Err::<ScriptBounds, PluginError>(PluginError::NoLayerSelected)
                    && final(state)@ == old(state)@,
                Some(l) => r == Ok::<ScriptBounds, PluginError>(
                    spec_script_bounds(
                        selection_bounds(old(state)@.doc.canvas.selection),
                        l.rectangle(),
                    ),
                ) && final(state)@ == old(state)@.after_begin(self.title@),
            },
    {
        let rect: Rectangle = match state.get_cur_layer() {
            Some(l) => l.get_rectangle(),
            None => {
                return Err(PluginError::NoLayerSelected);
            },
        };
        let selection: Option<Rectangle> = match &state.get_buffer().selection {
            Some(s) => Some(s.as_rectangle()),
            None => None,
        };
        let bounds = script_bounds(selection, rect);
        state.begin_atomic_undo(self.title.as_str());
        Ok(bounds)
    }
}

} // verus!
