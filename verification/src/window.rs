//! The main window: the tree of document tiles, what opening and closing
//! documents does to it, and the keys that select outlines.

use crate::edit_state::EditState;
use crate::geometry::{Position, Size};
use crate::journal::OpView;
use crate::layer::Role;
use crate::strings::{equals_ignore_case, equals_lowered};
use vstd::prelude::*;
use vstd::string::StringSliceAdditionalSpecFns;

verus! {

/// The tool that places pasted layers.
pub const PASTE_TOOL: usize = 0;

pub const FIRST_TOOL: usize = 1;

pub const BRUSH_TOOL: usize = 3;

/// A tile is named by its place in the tree's list of tiles.
pub type TileId = usize;

/// What the window knows of an open document.
#[derive(Debug)]
pub struct DocumentTab {
    pub path: Option<String>,
    pub dirty: bool,
}

/// One tile of the tree: a document, or a container of tiles.
#[derive(Debug)]
pub enum Tile {
    Pane(DocumentTab),
    Tabs { children: Vec<TileId>, active: Option<TileId> },
    Linear { children: Vec<TileId> },
    Grid { children: Vec<TileId> },
}

/// The tiles of the window. A removed tile leaves an empty slot.
#[derive(Debug)]
pub struct DocumentTree {
    pub tiles: Vec<Option<Tile>>,
    pub root: Option<TileId>,
}

/// What a walk through the tree collects.
#[derive(Clone, Copy, Debug, PartialEq, Eq, Structural, Hash)]
pub enum Walk {
    /// The documents that show: of tabs only the active one is entered.
    ShownPanes,
    /// All documents.
    AllPanes,
    /// All tab containers.
    AllTabs,
}

/// The tiles that a walk from `id` collects, in the order of the walk. The
/// children of a container are entered last to first. A walk is not
/// continued below `fuel` containers deep.
pub open spec fn walk_from(tiles: Seq<Option<Tile>>, id: TileId, fuel: nat, walk: Walk) -> Seq<TileId>
    decreases fuel, 0nat,
{
    if fuel == 0 || id >= tiles.len() {
        Seq::empty()
    } else {
        match tiles[id as int] {
            None => Seq::empty(),
            Some(Tile::Pane(_)) => if walk == Walk::AllTabs {
                Seq::empty()
            } else {
                seq![id]
            },
            Some(Tile::Tabs { children, active }) => match walk {
                Walk::ShownPanes => match active {
                    Some(a) => walk_from(tiles, a, (fuel - 1) as nat, walk),
                    None => Seq::empty(),
                },
                Walk::AllPanes => walk_children(
                    tiles,
                    children@,
                    children@.len(),
                    (fuel - 1) as nat,
                    walk,
                ),
                Walk::AllTabs => seq![id] + walk_children(
                    tiles,
                    children@,
                    children@.len(),
                    (fuel - 1) as nat,
                    walk,
                ),
            },
            Some(Tile::Linear { children }) => walk_children(
                tiles,
                children@,
                children@.len(),
                (fuel - 1) as nat,
                walk,
            ),
            Some(Tile::Grid { children }) => walk_children(
                tiles,
                children@,
                children@.len(),
                (fuel - 1) as nat,
                walk,
            ),
        }
    }
}

/// The tiles that the walks from the first `k` children collect, the last
/// of them first.
pub open spec fn walk_children(
    tiles: Seq<Option<Tile>>,
    children: Seq<TileId>,
    k: nat,
    fuel: nat,
    walk: Walk,
) -> Seq<TileId>
    decreases fuel, 1 + k,
{
    if k == 0 || k > children.len() {
        Seq::empty()
    } else {
        walk_from(tiles, children[k - 1], fuel, walk) + walk_children(
            tiles,
            children,
            (k - 1) as nat,
            fuel,
            walk,
        )
    }
}

/// What a whole walk collects: from the root, as deep as there are tiles.
pub open spec fn walk_tree(tree: &DocumentTree, walk: Walk) -> Seq<TileId> {
    match tree.root {
        Some(root) => walk_from(tree.tiles@, root, tree.tiles@.len(), walk),
        None => Seq::empty(),
    }
}

fn collect_children(
    tiles: &Vec<Option<Tile>>,
    children: &Vec<TileId>,
    fuel: usize,
    walk: Walk,
    out: &mut Vec<TileId>,
)
    ensures
        final(out)@ == old(out)@ + walk_children(
            tiles@,
            children@,
            children@.len(),
            fuel as nat,
            walk,
        ),
    decreases fuel, 1 + children@.len(),
{
    let n: usize = children.len();
    let mut k: usize = n;
    let ghost total = walk_children(tiles@, children@, n as nat, fuel as nat, walk);
    let ghost start = out@;
    assert(out@ + total =~= start + total);
    while k > 0
        invariant
            n == children@.len(),
            k <= n,
            out@ + walk_children(tiles@, children@, k as nat, fuel as nat, walk) == start + total,
        decreases k,
    {
        let ghost before = out@;
        collect(tiles, children[k - 1], fuel, walk, out);
        proof {
            let head = walk_from(tiles@, children@[k - 1], fuel as nat, walk);
            let rest = walk_children(tiles@, children@, (k - 1) as nat, fuel as nat, walk);
            assert(before + (head + rest) =~= (before + head) + rest);
        }
        k -= 1;
    }
    proof {
        assert(out@ + Seq::<TileId>::empty() =~= out@);
    }
}

fn collect(tiles: &Vec<Option<Tile>>, id: TileId, fuel: usize, walk: Walk, out: &mut Vec<TileId>)
    ensures
        final(out)@ == old(out)@ + walk_from(tiles@, id, fuel as nat, walk),
    decreases fuel, 0nat,
{
    proof {
        assert(out@ + Seq::<TileId>::empty() =~= out@);
    }
    if fuel == 0 || id >= tiles.len() {
        return ;
    }
    match &tiles[id] {
        None => {},
        Some(Tile::Pane(_)) => {
            if walk != Walk::AllTabs {
                out.push(id);
                proof {
                    assert(out@ =~= old(out)@ + seq![id]);
                }
            }
        },
        Some(Tile::Tabs { children, active }) => {
            match walk {
                Walk::ShownPanes => {
                    match active {
                        Some(a) => {
                            collect(tiles, *a, fuel - 1, walk, out);
                        },
                        None => {},
                    }
                },
                Walk::AllPanes => {
                    collect_children(tiles, children, fuel - 1, walk, out);
                },
                Walk::AllTabs => {
                    out.push(id);
                    let ghost mid = out@;
                    collect_children(tiles, children, fuel - 1, walk, out);
                    proof {
                        let below = walk_children(
                            tiles@,
                            children@,
                            children@.len(),
                            (fuel - 1) as nat,
                            walk,
                        );
                        assert(mid =~= old(out)@ + seq![id]);
                        assert(mid + below =~= old(out)@ + (seq![id] + below));
                    }
                },
            }
        },
        Some(Tile::Linear { children }) => {
            collect_children(tiles, children, fuel - 1, walk, out);
        },
        Some(Tile::Grid { children }) => {
            collect_children(tiles, children, fuel - 1, walk, out);
        },
    }
}

/// What closing a tab comes to.
#[derive(Clone, Copy, Debug, PartialEq, Eq, Structural, Hash)]
pub enum CloseOutcome {
    /// The document had no unsaved changes and is closed.
    Closed,
    /// The document has unsaved changes: the user is asked first.
    AskUser,
    /// The tile is no document; there is nothing to close.
    NotAPane,
}

impl DocumentTree {
    /// A tree without tiles.
    pub fn empty() -> (tree: DocumentTree)
        ensures
            tree.tiles@.len() == 0,
            tree.root is None,
    {
        DocumentTree { tiles: Vec::new(), root: None }
    }

    /// The tiles that a walk collects.
    pub fn walk(&self, walk: Walk) -> (r: Vec<TileId>)
        ensures
            r@ == walk_tree(self, walk),
    {
        let mut out: Vec<TileId> = Vec::new();
        match self.root {
            Some(root) => {
                collect(&self.tiles, root, self.tiles.len(), walk, &mut out);
                proof {
                    assert(Seq::<TileId>::empty() + walk_tree(self, walk) =~= walk_tree(self, walk));
                }
            },
            None => {},
        }
        out
    }

    /// The document that shows: the first that a walk finds which enters
    /// only the active tab of each tab container.
    pub fn get_active_pane(&self) -> (r: Option<TileId>)
        ensures
            r == if walk_tree(self, Walk::ShownPanes).len() > 0 {
                Some(walk_tree(self, Walk::ShownPanes)[0])
            } else {
                None
            },
    {
        let shown = self.walk(Walk::ShownPanes);
        if shown.len() > 0 {
            Some(shown[0])
        } else {
            None
        }
    }

    /// All documents, in the order of the walk.
    pub fn enumerate_documents(&self) -> (r: Vec<TileId>)
        ensures
            r@ == walk_tree(self, Walk::AllPanes),
    {
        self.walk(Walk::AllPanes)
    }

    /// All tab containers, in the order of the walk.
    pub fn enumerate_tabs(&self) -> (r: Vec<TileId>)
        ensures
            r@ == walk_tree(self, Walk::AllTabs),
    {
        self.walk(Walk::AllTabs)
    }

    /// Whether the tile `id` is a document that was opened from `path`.
    pub open spec fn is_pane_of(&self, id: TileId, path: Seq<char>) -> bool {
        id < self.tiles@.len() && (self.tiles@[id as int] matches Some(Tile::Pane(tab)) && (
        tab.path matches Some(p) && p@ == path))
    }

    /// Whether place `k` of the walk through all documents holds the last
    /// document of the walk that was opened from `path`.
    pub open spec fn last_open_at(&self, path: Seq<char>, k: int) -> bool {
        let walk = walk_tree(self, Walk::AllPanes);
        &&& 0 <= k < walk.len()
        &&& self.is_pane_of(walk[k], path)
        &&& forall|j: int| k < j < walk.len() ==> !self.is_pane_of(#[trigger] walk[j], path)
    }

    /// The document that was opened from `path`, if one is open. Where
    /// several are, it is the last of them that the walk through all
    /// documents finds.
    pub fn find_open(&self, path: &str) -> (r: Option<TileId>)
        ensures
            match r {
                Some(id) => exists|k: int| #[trigger]
                    self.last_open_at(path@, k) && walk_tree(self, Walk::AllPanes)[k] == id,
                None => forall|k: int|
                    0 <= k < walk_tree(self, Walk::AllPanes).len() ==> !self.is_pane_of(
                        #[trigger] walk_tree(self, Walk::AllPanes)[k],
                        path@,
                    ),
            },
    {
        let panes = self.enumerate_documents();
        let wanted: String = path.to_string();
        let n: usize = panes.len();
        let mut i: usize = n;
        while i > 0
            invariant
                n == panes@.len(),
                i <= n,
                panes@ == walk_tree(self, Walk::AllPanes),
                wanted@ == path@,
                forall|k: int| i <= k < n ==> !self.is_pane_of(#[trigger] panes@[k], path@),
            decreases i,
        {
            let id: TileId = panes[i - 1];
            if id < self.tiles.len() {
                let same: bool = match &self.tiles[id] {
                    Some(Tile::Pane(tab)) => match &tab.path {
                        Some(p) => *p == wanted,
                        None => false,
                    },
                    _ => false,
                };
                if same {
                    assert(self.last_open_at(path@, i - 1));
                    return Some(id);
                }
            }
            i -= 1;
        }
        None
    }

    /// Whether the tile `id` is a document with unsaved changes.
    pub open spec fn is_dirty_pane(&self, id: TileId) -> bool {
        id < self.tiles@.len() && (self.tiles@[id as int] matches Some(Tile::Pane(tab))
            && tab.dirty)
    }

    /// Whether the tile `id` is a document.
    pub open spec fn is_pane(&self, id: TileId) -> bool {
        id < self.tiles@.len() && (self.tiles@[id as int] matches Some(Tile::Pane(_)))
    }

    /// Closes the document in tile `id` where it has no unsaved changes:
    /// its slot is emptied. A document with unsaved changes stays, and the
    /// user has to be asked. A tile that is no document is left alone.
    pub fn request_close_tab(&mut self, id: TileId) -> (r: CloseOutcome)
        ensures
            r == if !old(self).is_pane(id) {
                CloseOutcome::NotAPane
            } else if old(self).is_dirty_pane(id) {
                CloseOutcome::AskUser
            } else {
                CloseOutcome::Closed
            },
            final(self).root == old(self).root,
            r != CloseOutcome::Closed ==> final(self).tiles@ == old(self).tiles@,
            r == CloseOutcome::Closed ==> final(self).tiles@ == old(self).tiles@.update(
                id as int,
                None,
            ),
    {
        if id >= self.tiles.len() {
            return CloseOutcome::NotAPane;
        }
        let dirty: bool = match &self.tiles[id] {
            Some(Tile::Pane(tab)) => tab.dirty,
            _ => {
                return CloseOutcome::NotAPane;
            },
        };
        if dirty {
            CloseOutcome::AskUser
        } else {
            self.tiles.set(id, None);
            CloseOutcome::Closed
        }
    }

    /// Whether the tab at `j` of `tabs` stops the closing: it is a document
    /// with unsaved changes, and not the one to keep.
    pub open spec fn blocks(&self, tabs: Seq<TileId>, keep: Option<TileId>, j: int) -> bool {
        self.is_dirty_pane(tabs[j]) && keep != Some(tabs[j])
    }

    /// Whether `k` is where the closing stops: the first tab that blocks, or
    /// the end of `tabs` where none does.
    pub open spec fn stops_at(&self, tabs: Seq<TileId>, keep: Option<TileId>, k: int) -> bool {
        &&& 0 <= k <= tabs.len()
        &&& forall|j: int| 0 <= j < k ==> !self.blocks(tabs, keep, j)
        &&& k < tabs.len() ==> self.blocks(tabs, keep, k)
    }

    /// Whether the closing, which stops at `k`, closes the tile `id`: it is
    /// a document among the tabs before `k`, and not the one to keep.
    pub open spec fn closes(&self, tabs: Seq<TileId>, keep: Option<TileId>, k: int, id: TileId) -> bool {
        &&& self.is_pane(id)
        &&& keep != Some(id)
        &&& exists|j: int| 0 <= j < k && #[trigger] tabs[j] == id
    }

    /// Closes the documents in `tabs` one after the other, `keep` excepted,
    /// and stops at the first that has unsaved changes: that one is
    /// returned, for the user to be asked. The documents before it are
    /// closed; everything else stays.
    pub fn close_tabs(&mut self, tabs: &Vec<TileId>, keep: Option<TileId>) -> (r: Option<TileId>)
        ensures
            final(self).root == old(self).root,
            final(self).tiles@.len() == old(self).tiles@.len(),
            forall|k: int| #[trigger]
                old(self).stops_at(tabs@, keep, k) ==> {
                    &&& r == if k < tabs@.len() {
                        Some(tabs@[k])
                    } else {
                        None
                    }
                    &&& forall|id: TileId|
                        id < old(self).tiles@.len() ==> #[trigger] final(self).tiles@[id as int]
                            == if old(self).closes(tabs@, keep, k, id) {
                            None
                        } else {
                            old(self).tiles@[id as int]
                        }
                },
            exists|k: int| old(self).stops_at(tabs@, keep, k),
    {
        let n: usize = tabs.len();
        let mut i: usize = 0;
        while i < n
            invariant
                n == tabs@.len(),
                i <= n,
                self.root == old(self).root,
                self.tiles@.len() == old(self).tiles@.len(),
                forall|j: int| 0 <= j < i ==> !old(self).blocks(tabs@, keep, j),
                forall|id: TileId|
                    id < self.tiles@.len() ==> #[trigger] self.tiles@[id as int] == if old(
                        self,
                    ).closes(tabs@, keep, i as int, id) {
                        None
                    } else {
                        old(self).tiles@[id as int]
                    },
            decreases n - i,
        {
            let id: TileId = tabs[i];
            let skip: bool = match keep {
                Some(k) => k == id,
                None => false,
            };
            let ghost before = self.tiles@;
            let ghost was_dirty = self.is_dirty_pane(id);
            let mut stop: bool = false;
            if !skip {
                match self.request_close_tab(id) {
                    CloseOutcome::AskUser => {
                        stop = true;
                    },
                    _ => {},
                }
            }
            if stop {
                proof {
                    assert(was_dirty);
                    assert(before[id as int] == if old(self).closes(tabs@, keep, i as int, id) {
                        None
                    } else {
                        old(self).tiles@[id as int]
                    });
                    assert(old(self).blocks(tabs@, keep, i as int));
                    assert(old(self).stops_at(tabs@, keep, i as int));
                    assert forall|k: int| #[trigger]
                        old(self).stops_at(tabs@, keep, k) implies k == i by {
                        if k < i {
                            assert(old(self).blocks(tabs@, keep, k));
                        }
                        if k > i {
                            assert(!old(self).blocks(tabs@, keep, i as int));
                        }
                    }
                }
                return Some(id);
            }
            proof {
                assert(!old(self).blocks(tabs@, keep, i as int)) by {
                    if !skip && id < before.len() {
                        assert(!was_dirty);
                        assert(before[id as int] == if old(self).closes(tabs@, keep, i as int, id) {
                            None
                        } else {
                            old(self).tiles@[id as int]
                        });
                        if old(self).closes(tabs@, keep, i as int, id) {
                            let j = choose|j: int| 0 <= j < i && #[trigger] tabs@[j] == id;
                            assert(!old(self).blocks(tabs@, keep, j));
                        }
                    }
                }
                assert forall|t: TileId| t < self.tiles@.len() implies #[trigger] self.tiles@[t as int]
                    == if old(self).closes(tabs@, keep, i + 1, t) {
                    None
                } else {
                    old(self).tiles@[t as int]
                } by {
                    assert(before[t as int] == if old(self).closes(tabs@, keep, i as int, t) {
                        None
                    } else {
                        old(self).tiles@[t as int]
                    });
                    if old(self).closes(tabs@, keep, i as int, t) {
                        let j = choose|j: int| 0 <= j < i && #[trigger] tabs@[j] == t;
                        assert(0 <= j < i + 1 && tabs@[j] == t);
                    }
                    if old(self).closes(tabs@, keep, i + 1, t) && !old(self).closes(
                        tabs@,
                        keep,
                        i as int,
                        t,
                    ) {
                        let j = choose|j: int| 0 <= j < i + 1 && #[trigger] tabs@[j] == t;
                        assert(j == i);
                    }
                    if t == id && !skip && old(self).is_pane(id) {
                        assert(tabs@[i as int] == t);
                    }
                }
            }
            i += 1;
        }
        proof {
            assert(old(self).stops_at(tabs@, keep, n as int));
            assert forall|k: int| #[trigger] old(self).stops_at(tabs@, keep, k) implies k == n by {
                if k < n {
                    assert(old(self).blocks(tabs@, keep, k));
                }
            }
        }
        None
    }

    /// Makes the tile `id` the active one in every tab container that holds
    /// it.
    pub fn activate(&mut self, id: TileId)
        ensures
            final(self).root == old(self).root,
            final(self).tiles@.len() == old(self).tiles@.len(),
            forall|k: int|
                0 <= k < old(self).tiles@.len() ==> #[trigger] final(self).tiles@[k] == activated(
                    old(self).tiles@[k],
                    id,
                ),
    {
        let n: usize = self.tiles.len();
        let mut i: usize = 0;
        while i < n
            invariant
                n == self.tiles@.len(),
                n == old(self).tiles@.len(),
                i <= n,
                self.root == old(self).root,
                forall|k: int|
                    0 <= k < i ==> #[trigger] self.tiles@[k] == activated(old(self).tiles@[k], id),
                forall|k: int| i <= k < n ==> #[trigger] self.tiles@[k] == old(self).tiles@[k],
            decreases n - i,
        {
            let holds: bool = match &self.tiles[i] {
                Some(Tile::Tabs { children, active }) => holds_tile(children, id),
                _ => false,
            };
            if holds {
                match &mut self.tiles[i] {
                    Some(Tile::Tabs { children, active }) => {
                        *active = Some(id);
                    },
                    _ => {},
                }
            }
            i += 1;
        }
    }
}

/// The tile with `id` made active where it is a tab container that holds
/// `id`.
pub open spec fn activated(tile: Option<Tile>, id: TileId) -> Option<Tile> {
    match tile {
        Some(Tile::Tabs { children, active }) => if children@.contains(id) {
            Some(Tile::Tabs { children, active: Some(id) })
        } else {
            tile
        },
        _ => tile,
    }
}

/// Whether `children` holds `id`.
pub fn holds_tile(children: &Vec<TileId>, id: TileId) -> (r: bool)
    ensures
        r == children@.contains(id),
{
    let n: usize = children.len();
    let mut i: usize = 0;
    while i < n
        invariant
            n == children@.len(),
            i <= n,
            forall|k: int| 0 <= k < i ==> children@[k] != id,
        decreases n - i,
    {
        if children[i] == id {
            return true;
        }
        i += 1;
    }
    false
}

/// What kind of document a file holds, by its extension.
#[derive(Clone, Copy, Debug, PartialEq, Eq, Structural, Hash)]
pub enum DocumentKind {
    /// A bitmap font.
    BitFont,
    /// A font of character glyphs.
    CharFont,
    /// A text document.
    Ansi,
}

pub open spec fn ext_psf() -> Seq<u8> {
    seq![0x70u8, 0x73, 0x66]
}

pub open spec fn ext_font16() -> Seq<u8> {
    seq![0x66u8, 0x31, 0x36]
}

pub open spec fn ext_font14() -> Seq<u8> {
    seq![0x66u8, 0x31, 0x34]
}

pub open spec fn ext_font8() -> Seq<u8> {
    seq![0x66u8, 0x38]
}

pub open spec fn ext_fon() -> Seq<u8> {
    seq![0x66u8, 0x6F, 0x6E]
}

pub open spec fn ext_tdf() -> Seq<u8> {
    seq![0x74u8, 0x64, 0x66]
}

/// The kind of document that a file with the extension `ext` is opened
/// as: `psf`, `fon` and the `f` extensions with 16, 14 and 8 are bitmap fonts, `tdf` is a font
/// of character glyphs, in any mix of capitals; anything else is a text
/// document.
pub open spec fn spec_document_kind(ext: Seq<u8>) -> DocumentKind {
    if equals_lowered(ext, ext_psf()) || equals_lowered(ext, ext_font16()) || equals_lowered(
        ext,
        ext_font14(),
    ) || equals_lowered(ext, ext_font8()) || equals_lowered(ext, ext_fon()) {
        DocumentKind::BitFont
    } else if equals_lowered(ext, ext_tdf()) {
        DocumentKind::CharFont
    } else {
        DocumentKind::Ansi
    }
}

/// The kind of document that a file with the extension `ext` is opened
/// as; see `spec_document_kind`.
pub fn document_kind(ext: &str) -> (kind: DocumentKind)
    ensures
        kind == spec_document_kind(ext.spec_bytes()),
{
    let e = ext.as_bytes();
    let psf: Vec<u8> = vec![0x70u8, 0x73, 0x66];
    let font16: Vec<u8> = vec![0x66u8, 0x31, 0x36];
    let font14: Vec<u8> = vec![0x66u8, 0x31, 0x34];
    let font8: Vec<u8> = vec![0x66u8, 0x38];
    let fon: Vec<u8> = vec![0x66u8, 0x6F, 0x6E];
    let tdf: Vec<u8> = vec![0x74u8, 0x64, 0x66];
    assert(psf@ =~= ext_psf());
    assert(font16@ =~= ext_font16());
    assert(font14@ =~= ext_font14());
    assert(font8@ =~= ext_font8());
    assert(fon@ =~= ext_fon());
    assert(tdf@ =~= ext_tdf());
    if equals_ignore_case(e, psf.as_slice()) || equals_ignore_case(e, font16.as_slice())
        || equals_ignore_case(e, font14.as_slice()) || equals_ignore_case(e, font8.as_slice())
        || equals_ignore_case(e, fon.as_slice()) {
        DocumentKind::BitFont
    } else if equals_ignore_case(e, tdf.as_slice()) {
        DocumentKind::CharFont
    } else {
        DocumentKind::Ansi
    }
}

/// The modifier keys that are down.
#[derive(Clone, Copy, Debug, PartialEq, Eq, Structural, Hash)]
pub struct Modifiers {
    pub alt: bool,
    pub ctrl: bool,
    pub shift: bool,
    pub mac_cmd: bool,
    pub command: bool,
}

impl Modifiers {
    /// Whether the command key is down and neither alt nor shift is.
    pub open spec fn spec_command_only(self) -> bool {
        !self.alt && !self.shift && self.command
    }

    /// Whether a function key selects one of the first twelve outlines:
    /// with the command key alone, or with alt alone.
    pub open spec fn spec_base(self) -> bool {
        self.spec_command_only() || (self.alt && !self.shift && !self.ctrl)
    }

    /// Whether a function key selects one of the outlines above twelve:
    /// with shift and either control or alt.
    pub open spec fn spec_upper(self) -> bool {
        self.shift && (self.ctrl || self.alt)
    }

    pub fn command_only(self) -> (r: bool)
        ensures
            r == self.spec_command_only(),
    {
        !self.alt && !self.shift && self.command
    }
}

/// Whether a function key selects one of the first twelve outlines.
pub fn check_base_f_key_modifier(modifiers: Modifiers) -> (r: bool)
    ensures
        r == modifiers.spec_base(),
{
    modifiers.command_only() || (modifiers.alt && !modifiers.shift && !modifiers.ctrl)
}

/// Whether function key `k + 1` is down.
pub open spec fn key_down(pressed: Seq<bool>, k: int) -> bool {
    0 <= k < pressed.len() && pressed[k]
}

/// The outline that the keys select, if any. `pressed` says for each of
/// the function keys, F1 first, whether it was pressed. With shift and
/// either control or alt, F1 to F3 select the outlines 12 to 14, the
/// highest key winning. Else, with the command key alone or alt alone, F1
/// to F12 select the outlines 0 to 11, the highest key winning.
pub open spec fn spec_outline(pressed: Seq<bool>, modifiers: Modifiers, r: Option<usize>) -> bool {
    let upper = modifiers.spec_upper() && (key_down(pressed, 0) || key_down(pressed, 1)
        || key_down(pressed, 2));
    let base = modifiers.spec_base() && exists|k: int| 0 <= k < 12 && key_down(pressed, k);
    if upper {
        &&& r is Some
        &&& 12 <= r->Some_0 <= 14
        &&& key_down(pressed, r->Some_0 - 12)
        &&& forall|k: int| r->Some_0 - 12 < k < 3 ==> !key_down(pressed, k)
    } else if base {
        &&& r is Some
        &&& r->Some_0 < 12
        &&& key_down(pressed, r->Some_0 as int)
        &&& forall|k: int| r->Some_0 < k < 12 ==> !key_down(pressed, k)
    } else {
        r is None
    }
}

/// The outline that the keys select, if any; see `spec_outline`.
pub fn read_outline_keys(pressed: &[bool], modifiers: Modifiers) -> (r: Option<usize>)
    ensures
        spec_outline(pressed@, modifiers, r),
{
    let n: usize = pressed.len();
    let mut result: Option<usize> = None;
    if check_base_f_key_modifier(modifiers) {
        let mut k: usize = 0;
        while k < 12
            invariant
                n == pressed@.len(),
                k <= 12,
                match result {
                    Some(v) => v < k && key_down(pressed@, v as int) && forall|j: int|
                        v < j < k ==> !key_down(pressed@, j),
                    None => forall|j: int| 0 <= j < k ==> !key_down(pressed@, j),
                },
            decreases 12 - k,
        {
            if k < n && pressed[k] {
                result = Some(k);
            }
            k += 1;
        }
    }
    if modifiers.shift && (modifiers.ctrl || modifiers.alt) {
        let mut k: usize = 0;
        let mut upper: Option<usize> = None;
        while k < 3
            invariant
                n == pressed@.len(),
                k <= 3,
                match upper {
                    Some(v) => 12 <= v < 12 + k && key_down(pressed@, v - 12) && forall|j: int|
                        v - 12 < j < k ==> !key_down(pressed@, j),
                    None => forall|j: int| 0 <= j < k ==> !key_down(pressed@, j),
                },
            decreases 3 - k,
        {
            if k < n && pressed[k] {
                upper = Some(12 + k);
            }
            k += 1;
        }
        match upper {
            Some(v) => {
                result = Some(v);
            },
            None => {},
        }
    }
    result
}

/// The number for the next document: one more than the last, as long as
/// numbers last.
pub fn create_id(id: &mut usize) -> (r: usize)
    ensures
        *final(id) == if *old(id) < usize::MAX {
            (*old(id) + 1) as usize
        } else {
            *old(id)
        },
        r == *final(id),
{
    if *id < usize::MAX {
        *id = *id + 1;
    }
    *id
}

/// What happens when the topmost layer is a pasted one while another tool
/// than the paste tool is selected: the pasted layer becomes current, and
/// the paste tool takes over until the paste is done. The answer is the
/// tool to go back to then, or `None` where nothing was to do.
pub fn enter_paste_mode(state: &mut EditState, selected_tool: usize) -> (r: Option<usize>)
    requires
        old(state).wf(),
    ensures
        final(state).wf(),
        ({
            let layers = old(state)@.doc.canvas.layers;
            let pasting = layers.len() > 0 && layers.last().role == Role::Overlay && selected_tool
                != PASTE_TOOL;
            &&& r == if pasting {
                Some(selected_tool)
            } else {
                None
            }
            &&& final(state)@ == if pasting {
                old(state)@.recorded(
                    OpView::SetCurrentLayer {
                        from: old(state)@.doc.current_layer,
                        to: (layers.len() - 1) as usize,
                    },
                    "select layer"@,
                )
            } else {
                old(state)@
            }
        }),
{
    let canvas = state.get_buffer();
    let n: usize = canvas.layer_count();
    if n == 0 || selected_tool == PASTE_TOOL {
        return None;
    }
    let role = canvas.layers[n - 1].role();
    assert(canvas@.layers[n - 1] == canvas.layers@[n - 1]@);
    if role == Role::Overlay {
        let _ = state.set_current_layer(n - 1);
        Some(selected_tool)
    } else {
        None
    }
}

/// What is done with the textures of the inline images.
#[derive(Clone, Copy, Debug, PartialEq, Eq, Structural, Hash)]
pub enum SixelCacheAction {
    /// There are no images any more: the textures are dropped.
    Clear,
    /// Nothing has changed: the textures stay.
    Keep,
    /// The images have changed: the textures are made anew.
    Rebuild,
}

/// What is done with the textures, given how many images the bottom layer
/// holds and whether they have changed.
pub fn update_sixels(sixel_count: usize, updated: bool) -> (action: SixelCacheAction)
    ensures
        action == if sixel_count == 0 {
            SixelCacheAction::Clear
        } else if !updated {
            SixelCacheAction::Keep
        } else {
            SixelCacheAction::Rebuild
        },
{
    if sixel_count == 0 {
        SixelCacheAction::Clear
    } else if !updated {
        SixelCacheAction::Keep
    } else {
        SixelCacheAction::Rebuild
    }
}

/// One inline image as it is kept for drawing: where it goes, how large it
/// is, how it is scaled, and the texture that holds it.
#[derive(Clone, Copy, Debug, PartialEq, Eq, Structural, Hash)]
pub struct SixelCacheEntry {
    pub pos: Position,
    pub size: Size,
    pub x_scale: i32,
    pub y_scale: i32,
    pub texture: u32,
}

/// What opening a file comes to.
#[derive(Clone, Copy, Debug, PartialEq, Eq, Structural, Hash)]
pub enum OpenAction {
    /// The file is open already: its tab was brought to the front.
    Activated(TileId),
    /// The file is to be read as a document of the given kind.
    Load(DocumentKind),
}

/// The state of the main window.
#[derive(Debug)]
pub struct MainWindow {
    pub document_tree: DocumentTree,
    pub id: usize,
    pub palette_mode: usize,
    pub selected_tool: usize,
    pub is_closed: bool,
    pub left_panel: bool,
    pub right_panel: bool,
    pub bottom_panel: bool,
    pub is_fullscreen: bool,
    pub dialog_open: bool,
}

impl MainWindow {
    /// The window as it opens: no documents, both side panels showing, the
    /// first tool selected.
    pub fn new() -> (window: MainWindow)
        ensures
            window.document_tree.tiles@.len() == 0,
            window.document_tree.root is None,
            window.id == 0,
            window.palette_mode == 0,
            window.selected_tool == FIRST_TOOL,
            !window.is_closed,
            window.left_panel,
            window.right_panel,
            !window.bottom_panel,
            !window.is_fullscreen,
            !window.dialog_open,
    {
        MainWindow {
            document_tree: DocumentTree::empty(),
            id: 0,
            palette_mode: 0,
            selected_tool: FIRST_TOOL,
            is_closed: false,
            left_panel: true,
            right_panel: true,
            bottom_panel: false,
            is_fullscreen: false,
            dialog_open: false,
        }
    }

    /// The number for the next document.
    pub fn create_id(&mut self) -> (r: usize)
        ensures
            final(self).id == if old(self).id < usize::MAX {
                (old(self).id + 1) as usize
            } else {
                old(self).id
            },
            r == final(self).id,
            *final(self) == (MainWindow { id: final(self).id, ..*old(self) }),
    {
        create_id(&mut self.id)
    }

    /// What opening the file at `path`, whose extension is `extension`,
    /// comes to. Where a document of that path is open, its tab is brought
    /// to the front in every tab container that holds it. Else the file is
    /// to be read, as the kind of document that its extension says; a file
    /// without extension is read as a text document.
    pub fn open_file(&mut self, path: &str, extension: Option<&str>) -> (r: OpenAction)
        ensures
            final(self).id == old(self).id,
            final(self).document_tree.root == old(self).document_tree.root,
            final(self).document_tree.tiles@.len() == old(self).document_tree.tiles@.len(),
            match r {
                OpenAction::Activated(id) => {
                    &&& old(self).document_tree.is_pane_of(id, path@)
                    &&& forall|k: int|
                        0 <= k < old(self).document_tree.tiles@.len() ==> #[trigger] final(self).document_tree.tiles@[k] == activated(
                            old(self).document_tree.tiles@[k],
                            id,
                        )
                },
                OpenAction::Load(kind) => {
                    &&& final(self).document_tree.tiles@ == old(self).document_tree.tiles@
                    &&& forall|k: int|
                        0 <= k < walk_tree(&old(self).document_tree, Walk::AllPanes).len() ==> !old(self).document_tree.is_pane_of(
                            #[trigger] walk_tree(&old(self).document_tree, Walk::AllPanes)[k],
                            path@,
                        )
                    &&& kind == match extension {
                        Some(ext) => spec_document_kind(ext.spec_bytes()),
                        None => DocumentKind::Ansi,
                    }
                },
            },
    {
        match self.document_tree.find_open(path) {
            Some(id) => {
                self.document_tree.activate(id);
                OpenAction::Activated(id)
            },
            None => match extension {
                Some(ext) => OpenAction::Load(document_kind(ext)),
                None => OpenAction::Load(DocumentKind::Ansi),
            },
        }
    }

    /// The tile of the document that shows, if any.
    pub fn get_active_pane(&self) -> (r: Option<TileId>)
        ensures
            r == if walk_tree(&self.document_tree, Walk::ShownPanes).len() > 0 {
                Some(walk_tree(&self.document_tree, Walk::ShownPanes)[0])
            } else {
                None
            },
    {
        self.document_tree.get_active_pane()
    }

    /// What the window knows of the document that shows, if any.
    pub fn get_active_document(&self) -> (r: Option<&DocumentTab>)
        ensures
            match r {
                Some(tab) => walk_tree(&self.document_tree, Walk::ShownPanes).len() > 0 && ({
                    let id = walk_tree(&self.document_tree, Walk::ShownPanes)[0];
                    id < self.document_tree.tiles@.len() && self.document_tree.tiles@[id as int]
                        == Some(Tile::Pane(*tab))
                }),
                None => walk_tree(&self.document_tree, Walk::ShownPanes).len() == 0 || !self.document_tree.is_pane(
                    walk_tree(&self.document_tree, Walk::ShownPanes)[0],
                ),
            },
    {
        match self.document_tree.get_active_pane() {
            Some(id) => {
                if id < self.document_tree.tiles.len() {
                    match &self.document_tree.tiles[id] {
                        Some(Tile::Pane(tab)) => Some(tab),
                        _ => None,
                    }
                } else {
                    None
                }
            },
            None => None,
        }
    }

    /// The tiles of all documents, in the order of the walk.
    pub fn enumerate_documents(&self) -> (r: Vec<TileId>)
        ensures
            r@ == walk_tree(&self.document_tree, Walk::AllPanes),
    {
        self.document_tree.enumerate_documents()
    }

    /// The tiles of all tab containers, in the order of the walk.
    pub fn enumerate_tabs(&self) -> (r: Vec<TileId>)
        ensures
            r@ == walk_tree(&self.document_tree, Walk::AllTabs),
    {
        self.document_tree.enumerate_tabs()
    }
}

} // verus!
