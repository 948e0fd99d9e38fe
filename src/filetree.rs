use vstd::prelude::*;
use crate::node::{Node, build, filter_listing, tree_sorted, level_built, level_filtered, text_views};
use crate::queue::{AppEvent, EventView, InputOperation, PendingOperation, Queue};
use crate::state::{
    copy_path, first_of, get_node, index_of, key_down, key_up, last_of, lemma_down_stays_last,
    lemma_first_visible, lemma_up_stays_first, lemma_visible_distinct, new_state, node_at,
    lemma_toggle_twice, select_last, stepped, toggled, ts_opened, ts_selected, visible,
};
use tui_tree_widget::TreeState;

verus! {

/// A key as the tree sees it.
pub enum Key {
    Char(char),
    Enter,
    Other,
}

/// A decoded key press: the key, and which modifiers were held.
pub struct KeyInput {
    pub code: Key,
    pub shift: bool,
    pub control: bool,
    /// Any modifier besides shift and control.
    pub other_modifiers: bool,
}

impl KeyInput {
    pub open spec fn plain(&self) -> bool {
        !self.shift && !self.control && !self.other_modifiers
    }

    pub open spec fn only_shift(&self) -> bool {
        self.shift && !self.control && !self.other_modifiers
    }

    pub open spec fn only_control(&self) -> bool {
        !self.shift && self.control && !self.other_modifiers
    }
}

/// An event from outside: a request to rescan, a key press, or anything else.
pub enum ExternalEvent {
    RefreshFiletree,
    Key(KeyInput),
    Other,
}

/// What a key press asks of the tree.
pub enum Command {
    First,
    Last,
    Down,
    Up,
    JumpDown,
    JumpUp,
    RunCommand,
    Delete,
    TogglePreview,
    Search,
    Refresh,
    Activate,
    NewFile,
    NewDir,
    Ignore,
}

/// What the host does after an event: nothing more, or scan the root again
/// and hand the listing to `refresh` (then, if asked, `preview_selected`).
pub enum Follow {
    Done,
    Rescan { preview: bool },
}

/// The command of a key press; moves need a non-empty tree.
pub open spec fn command_of(k: KeyInput, has_items: bool) -> Command {
    match k.code {
        Key::Char(c) => if c == 'g' && k.plain() {
            Command::First
        } else if c == 'G' && k.only_shift() {
            Command::Last
        } else if c == 'j' && k.plain() && has_items {
            Command::Down
        } else if c == 'k' && k.plain() && has_items {
            Command::Up
        } else if c == 'n' && k.only_control() && has_items {
            Command::JumpDown
        } else if c == 'p' && k.only_control() && has_items {
            Command::JumpUp
        } else if c == 'e' && k.plain() {
            Command::RunCommand
        } else if c == 'd' && k.plain() {
            Command::Delete
        } else if c == 't' && k.plain() {
            Command::TogglePreview
        } else if c == '/' && k.plain() {
            Command::Search
        } else if c == '\\' && k.plain() {
            Command::Refresh
        } else if c == 'n' && k.plain() {
            Command::NewFile
        } else if c == 'N' && k.only_shift() {
            Command::NewDir
        } else {
            Command::Ignore
        },
        Key::Enter => if k.plain() {
            Command::Activate
        } else {
            Command::Ignore
        },
        Key::Other => Command::Ignore,
    }
}

/// Decodes a key press.
pub fn command_for(k: &KeyInput, has_items: bool) -> (r: Command)
    ensures
        r == command_of(*k, has_items),
{
    let plain = !k.shift && !k.control && !k.other_modifiers;
    let only_shift = k.shift && !k.control && !k.other_modifiers;
    let only_control = !k.shift && k.control && !k.other_modifiers;
    match k.code {
        Key::Char(c) => if c == 'g' && plain {
            Command::First
        } else if c == 'G' && only_shift {
            Command::Last
        } else if c == 'j' && plain && has_items {
            Command::Down
        } else if c == 'k' && plain && has_items {
            Command::Up
        } else if c == 'n' && only_control && has_items {
            Command::JumpDown
        } else if c == 'p' && only_control && has_items {
            Command::JumpUp
        } else if c == 'e' && plain {
            Command::RunCommand
        } else if c == 'd' && plain {
            Command::Delete
        } else if c == 't' && plain {
            Command::TogglePreview
        } else if c == '/' && plain {
            Command::Search
        } else if c == '\\' && plain {
            Command::Refresh
        } else if c == 'n' && plain {
            Command::NewFile
        } else if c == 'N' && only_shift {
            Command::NewDir
        } else {
            Command::Ignore
        },
        Key::Enter => if plain {
            Command::Activate
        } else {
            Command::Ignore
        },
        Key::Other => Command::Ignore,
    }
}

/// How many steps a jump takes.
pub const JUMP_DOWN_AMOUNT: u8 = 3;

/// `n` steps through the visible nodes.
pub open spec fn stepped_n(vis: Seq<Seq<usize>>, sel: Seq<usize>, down: bool, n: nat) -> Seq<usize>
    decreases n,
{
    if n == 0 {
        sel
    } else {
        stepped(vis, stepped_n(vis, sel, down, (n - 1) as nat), down)
    }
}

/// A jump: as many steps as `JUMP_DOWN_AMOUNT` says.
pub open spec fn jumped(vis: Seq<Seq<usize>>, sel: Seq<usize>, down: bool) -> Seq<usize> {
    stepped_n(vis, sel, down, JUMP_DOWN_AMOUNT as nat)
}

/// From the first visible node, any number of steps up stays on it; from
/// the last, any number of steps down stays on it. Selection never moves
/// past either end.
pub proof fn lemma_clamped_at_ends(tree: Vec<Node>, opened: Set<Seq<usize>>, n: nat)
    ensures
        stepped_n(visible(tree, opened), first_of(visible(tree, opened)), false, n) == first_of(
            visible(tree, opened),
        ),
        stepped_n(visible(tree, opened), last_of(visible(tree, opened)), true, n) == last_of(
            visible(tree, opened),
        ),
    decreases n,
{
    let vis = visible(tree, opened);
    if n > 0 {
        lemma_clamped_at_ends(tree, opened, (n - 1) as nat);
    }
    if vis.len() > 0 {
        lemma_up_stays_first(vis);
        lemma_visible_distinct(tree, opened);
        lemma_down_stays_last(vis);
    } else {
        assert(index_of(vis, first_of(vis)) is None);
    }
}

/// A node's parent directory lies on the path to it.
pub proof fn lemma_parent_resolves(cs: Vec<Node>, path: Seq<usize>)
    requires
        node_at(cs, path) is Some,
        path.len() > 1,
    ensures
        node_at(cs, path.drop_last()) matches Some(p) && p is Dir,
    decreases path.len(),
{
    let c = cs[path[0] as int];
    if let Node::Dir { children, .. } = c {
        let rest = path.drop_first();
        if rest.len() > 1 {
            lemma_parent_resolves(children, rest);
            assert(rest.drop_last() =~= path.drop_last().drop_first());
        } else {
            assert(path.drop_last() =~= seq![path[0]]);
        }
    }
}

/// The navigable tree: a sorted snapshot of a directory hierarchy, the
/// selection and open directories over it, and the intents it has produced.
pub struct Filetree {
    pub state: TreeState,
    pub is_focused: bool,
    pub dir: Vec<Node>,
    pub root_path: String,
    pub queue: Queue,
    pub only_included: bool,
}

impl Filetree {
    pub open spec fn vis(&self) -> Seq<Seq<usize>> {
        visible(self.dir, ts_opened(self.state))
    }

    pub open spec fn sel_node(&self) -> Option<Node> {
        node_at(self.dir, ts_selected(self.state))
    }

    /// The intent that previews the selected node, if one is selected.
    pub open spec fn preview_of(&self) -> Seq<EventView> {
        match self.sel_node() {
            Some(n) => seq![EventView::PreviewFile(n.spec_path())],
            None => seq![],
        }
    }

    /// The directory that a new entry goes in: the selected directory when
    /// it is open, else the selected node's parent (the root for a node at
    /// the top level); none without a selection.
    pub open spec fn new_entry_parent(&self) -> Option<Seq<char>> {
        match self.sel_node() {
            None => None,
            Some(n) => if n is Dir && ts_opened(self.state).contains(ts_selected(self.state)) {
                Some(n.spec_path())
            } else if ts_selected(self.state).len() == 1 {
                Some(self.root_path@)
            } else {
                match node_at(self.dir, ts_selected(self.state).drop_last()) {
                    Some(p) => Some(p.spec_path()),
                    None => None,
                }
            },
        }
    }

    /// The selection after a command.
    pub open spec fn sel_after(&self, c: Command) -> Seq<usize> {
        match c {
            Command::First => seq![0usize],
            Command::Last => last_of(self.vis()),
            Command::Down => stepped(self.vis(), ts_selected(self.state), true),
            Command::Up => stepped(self.vis(), ts_selected(self.state), false),
            Command::JumpDown => jumped(self.vis(), ts_selected(self.state), true),
            Command::JumpUp => jumped(self.vis(), ts_selected(self.state), false),
            _ => ts_selected(self.state),
        }
    }

    /// The open directories after a command: activating a directory flips it.
    pub open spec fn opened_after(&self, c: Command) -> Set<Seq<usize>> {
        if c is Activate && (self.sel_node() matches Some(n) && n is Dir) {
            toggled(ts_opened(self.state), ts_selected(self.state))
        } else {
            ts_opened(self.state)
        }
    }

    /// The intents a command records before the preview.
    pub open spec fn intents_of(&self, c: Command) -> Seq<EventView> {
        match c {
            Command::RunCommand => match self.sel_node() {
                Some(n) => seq![EventView::CommandInput(n.spec_path())],
                None => seq![],
            },
            Command::Delete => match self.sel_node() {
                Some(n) => seq![EventView::DeletePopup(n.spec_path())],
                None => seq![],
            },
            Command::TogglePreview => seq![EventView::TogglePreviewMode],
            Command::Search => seq![EventView::SearchInput],
            Command::Activate => match self.sel_node() {
                Some(Node::File { path }) => seq![EventView::OpenFile(path@)],
                _ => seq![],
            },
            Command::NewFile => match self.new_entry_parent() {
                Some(at) => seq![EventView::NewFileInput(at)],
                None => seq![],
            },
            Command::NewDir => match self.new_entry_parent() {
                Some(at) => seq![EventView::NewDirInput(at)],
                None => seq![],
            },
            _ => seq![],
        }
    }

    /// Whether a command is followed by a preview of the selection.
    pub open spec fn previews_after(&self, c: Command) -> bool {
        match c {
            Command::Ignore | Command::Refresh => false,
            Command::NewFile | Command::NewDir => self.sel_node() is Some,
            _ => true,
        }
    }

    /// Everything but the selection, open directories and queue is as before.
    pub open spec fn same_frame(&self, other: &Filetree) -> bool {
        &&& self.dir == other.dir
        &&& self.root_path == other.root_path
        &&& self.is_focused == other.is_focused
        &&& self.only_included == other.only_included
    }

    /// The selected node, if the selection path leads to one.
    pub fn get_selected(&self) -> (r: Option<&Node>)
        ensures
            r matches Some(n) ==> self.sel_node() == Some(*n),
            r is None ==> self.sel_node() is None,
    {
        let sel = self.state.selected();
        get_node(&self.dir, &sel)
    }

    /// The path that a new entry's parent has, as `new_entry_parent` says.
    fn new_entry_dir(&self, opened: bool) -> (r: Option<String>)
        requires
            opened == (ts_selected(self.state).len() == 0 || ts_opened(self.state).contains(
                ts_selected(self.state),
            )),
        ensures
            r matches Some(s) ==> self.new_entry_parent() == Some(s@),
            r is None ==> self.new_entry_parent() is None,
    {
        match self.get_selected() {
            None => None,
            Some(n) => {
                let sel = self.state.selected();
                if n.is_dir() && opened {
                    Some(n.path().clone())
                } else if sel.len() == 1 {
                    Some(self.root_path.clone())
                } else {
                    let mut up = sel;
                    up.pop();
                    proof {
                        assert(up@ =~= ts_selected(self.state).drop_last());
                        lemma_parent_resolves(self.dir, ts_selected(self.state));
                    }
                    match get_node(&self.dir, &up) {
                        Some(p) => Some(p.path().clone()),
                        None => None,
                    }
                }
            },
        }
    }

    /// Whether the selected node is open (true for an empty selection, which
    /// cannot be opened). The answer is found by opening it and, where that
    /// changed anything, closing it again: the open set is left as it was.
    pub fn current_is_open(&mut self) -> (r: bool)
        ensures
            r == (ts_selected(old(self).state).len() == 0 || ts_opened(old(self).state).contains(
                ts_selected(old(self).state),
            )),
            ts_opened(final(self).state) == ts_opened(old(self).state),
            ts_selected(final(self).state) == ts_selected(old(self).state),
            final(self).queue == old(self).queue,
            final(self).same_frame(old(self)),
    {
        let selected = self.state.selected();
        let closed = self.state.open(copy_path(&selected));
        if closed {
            self.state.close(selected.as_slice());
            assert(ts_opened(self.state) =~= ts_opened(old(self).state));
        } else {
            assert(ts_opened(self.state) =~= ts_opened(old(self).state));
        }
        !closed
    }

    /// Records a preview of the selected node, if one is selected.
    pub fn preview_selected(&mut self)
        ensures
            final(self).queue@ == old(self).queue@ + old(self).preview_of(),
            final(self).state == old(self).state,
            final(self).same_frame(old(self)),
    {
        let ghost q = self.queue@;
        let p = match self.get_selected() {
            Some(n) => Some(n.path().clone()),
            None => None,
        };
        match p {
            Some(path) => {
                self.queue.add(AppEvent::PreviewFile(path));
                assert(self.queue@ =~= q + old(self).preview_of());
            },
            None => {
                assert(self.queue@ =~= q + old(self).preview_of());
            },
        }
    }
}

/// Activating a selected directory twice (as `handle_key` does on Enter)
/// leaves the open set as it was, and the selection where it was: the first
/// press flips the directory, the second flips it back.
pub proof fn lemma_activate_twice(t0: Filetree, t1: Filetree, t2: Filetree)
    requires
        t0.sel_node() matches Some(n) && n is Dir,
        t1.same_frame(&t0),
        ts_selected(t1.state) == t0.sel_after(Command::Activate),
        ts_opened(t1.state) == t0.opened_after(Command::Activate),
        t2.same_frame(&t1),
        ts_selected(t2.state) == t1.sel_after(Command::Activate),
        ts_opened(t2.state) == t1.opened_after(Command::Activate),
    ensures
        ts_opened(t2.state) == ts_opened(t0.state),
        ts_selected(t2.state) == ts_selected(t0.state),
{
    lemma_toggle_twice(ts_opened(t0.state), ts_selected(t0.state));
}

impl Filetree {
    /// A tree over a scanned listing of `path`: entries in order, nothing
    /// open, the first entry selected and previewed.
    pub fn from_dir(path: String, listing: Vec<Node>) -> (r: Filetree)
        ensures
            tree_sorted(r.dir),
            level_built(r.dir, listing),
            r.root_path@ == path@,
            ts_opened(r.state) == Set::<Seq<usize>>::empty(),
            ts_selected(r.state) == seq![0usize],
            r.dir.len() > 0 ==> ts_selected(r.state) == first_of(visible(r.dir, Set::<Seq<usize>>::empty())),
            r.is_focused,
            !r.only_included,
            r.queue@ == r.preview_of(),
    {
        let dir = build(listing);
        let mut state = new_state();
        state.select_first();
        let mut tree = Filetree {
            state,
            is_focused: true,
            dir,
            root_path: path,
            queue: Queue::new(),
            only_included: false,
        };
        tree.preview_selected();
        assert(tree.queue@ =~= tree.preview_of());
        proof {
            if tree.dir.len() > 0 {
                lemma_first_visible(tree.dir, Set::<Seq<usize>>::empty());
            }
        }
        tree
    }

    /// Keeps the selection where it still leads to a node, else selects the
    /// first visible one.
    fn reselect(&mut self)
        ensures
            final(self).same_frame(old(self)),
            final(self).queue == old(self).queue,
            ts_opened(final(self).state) == ts_opened(old(self).state),
            old(self).sel_node() is Some ==> ts_selected(final(self).state) == ts_selected(old(self).state),
            old(self).sel_node() is None ==> ts_selected(final(self).state) == seq![0usize],
            old(self).sel_node() is None && old(self).dir.len() > 0 ==> ts_selected(final(self).state)
                == first_of(old(self).vis()),
    {
        if self.get_selected().is_none() {
            self.state.select_first();
            proof {
                if self.dir.len() > 0 {
                    lemma_first_visible(self.dir, ts_opened(self.state));
                }
            }
        }
    }

    /// Replaces the snapshot with a full rescan of the root. The open set
    /// stays; the selection stays where it still leads to a node, else the
    /// first visible node is selected. Any restriction to a list of paths is
    /// dropped.
    pub fn refresh(&mut self, listing: Vec<Node>)
        ensures
            tree_sorted(final(self).dir),
            level_built(final(self).dir, listing),
            !final(self).only_included,
            final(self).root_path == old(self).root_path,
            final(self).is_focused == old(self).is_focused,
            final(self).queue == old(self).queue,
            ts_opened(final(self).state) == ts_opened(old(self).state),
            node_at(final(self).dir, ts_selected(old(self).state)) is Some ==> ts_selected(final(self).state) == ts_selected(old(
                self,
            ).state),
            node_at(final(self).dir, ts_selected(old(self).state)) is None ==> ts_selected(final(self).state)
                == seq![0usize],
            node_at(final(self).dir, ts_selected(old(self).state)) is None && final(self).dir.len() > 0
                ==> ts_selected(final(self).state) == first_of(
                visible(final(self).dir, ts_opened(old(self).state)),
            ),
    {
        self.dir = build(listing);
        self.only_included = false;
        self.reselect();
    }

    /// Replaces the snapshot with one restricted to the paths in `allowed`
    /// and the directories above them, reselects as `refresh` does, and
    /// previews the selection.
    pub fn only_include(&mut self, listing: Vec<Node>, allowed: Vec<String>)
        ensures
            tree_sorted(final(self).dir),
            exists|f: Vec<Node>|
                level_filtered(f, listing, text_views(allowed@)) && level_built(final(self).dir, f),
            final(self).only_included,
            final(self).root_path == old(self).root_path,
            final(self).is_focused == old(self).is_focused,
            ts_opened(final(self).state) == ts_opened(old(self).state),
            node_at(final(self).dir, ts_selected(old(self).state)) is Some ==> ts_selected(final(self).state) == ts_selected(old(
                self,
            ).state),
            node_at(final(self).dir, ts_selected(old(self).state)) is None ==> ts_selected(final(self).state)
                == seq![0usize],
            node_at(final(self).dir, ts_selected(old(self).state)) is None && final(self).dir.len() > 0
                ==> ts_selected(final(self).state) == first_of(
                visible(final(self).dir, ts_opened(old(self).state)),
            ),
            final(self).queue@ == old(self).queue@ + final(self).preview_of(),
    {
        let f = filter_listing(listing, &allowed);
        let ghost fv = f;
        self.dir = build(f);
        self.only_included = true;
        self.reselect();
        self.preview_selected();
        assert(level_filtered(fv, listing, text_views(allowed@)) && level_built(self.dir, fv));
    }

    /// Whether the tree is shown; it always is.
    pub fn visible(&self) -> (r: bool)
        ensures
            r,
    {
        true
    }

    /// Gives or takes the keyboard focus.
    pub fn focus(&mut self, focus: bool)
        ensures
            final(self).is_focused == focus,
            final(self).state == old(self).state,
            final(self).queue == old(self).queue,
            final(self).dir == old(self).dir,
            final(self).root_path == old(self).root_path,
            final(self).only_included == old(self).only_included,
    {
        self.is_focused = focus;
    }

    /// Whether the tree has the keyboard focus.
    pub fn focused(&self) -> (r: bool)
        ensures
            r == self.is_focused,
    {
        self.is_focused
    }

    /// Handles one key press: moves the selection, opens or closes the
    /// selected directory, or records intents, then previews the selection.
    pub fn handle_key(&mut self, k: &KeyInput) -> (r: Follow)
        ensures
            ({
                let c = command_of(*k, old(self).dir.len() > 0);
                &&& final(self).same_frame(old(self))
                &&& ts_selected(final(self).state) == old(self).sel_after(c)
                &&& ts_opened(final(self).state) == old(self).opened_after(c)
                &&& final(self).queue@ == old(self).queue@ + old(self).intents_of(c) + (if old(
                    self,
                ).previews_after(c) {
                    final(self).preview_of()
                } else {
                    seq![]
                })
                &&& r == (if c is Refresh {
                    Follow::Rescan { preview: true }
                } else {
                    Follow::Done
                })
            }),
    {
        let c = command_for(k, self.dir.len() > 0);
        let ghost q0 = self.queue@;
        let ghost start = *self;
        match c {
            Command::First => self.state.select_first(),
            Command::Last => select_last(&mut self.state, &self.dir),
            Command::Down => key_down(&mut self.state, &self.dir),
            Command::Up => key_up(&mut self.state, &self.dir),
            Command::JumpDown | Command::JumpUp => {
                let down = matches!(c, Command::JumpDown);
                let mut i: u8 = 0;
                while i < JUMP_DOWN_AMOUNT
                    invariant
                        i <= JUMP_DOWN_AMOUNT,
                        self.dir.len() > 0,
                        self.same_frame(&start),
                        self.queue == start.queue,
                        ts_opened(self.state) == ts_opened(start.state),
                        ts_selected(self.state) == stepped_n(start.vis(), ts_selected(start.state), down, i as nat),
                    decreases JUMP_DOWN_AMOUNT - i,
                {
                    if down {
                        key_down(&mut self.state, &self.dir);
                    } else {
                        key_up(&mut self.state, &self.dir);
                    }
                    i = i + 1;
                }
            },
            Command::RunCommand => {
                if let Some(n) = self.get_selected() {
                    let to = n.path().clone();
                    self.queue.add(AppEvent::OpenInput(InputOperation::Command { to }));
                }
            },
            Command::Delete => {
                if let Some(n) = self.get_selected() {
                    let p = n.path().clone();
                    self.queue.add(AppEvent::OpenPopup(PendingOperation::DeleteFile(p)));
                }
            },
            Command::TogglePreview => self.queue.add(AppEvent::TogglePreviewMode),
            Command::Search => self.queue.add(AppEvent::OpenInput(InputOperation::SearchFiles)),
            Command::Refresh => {
                return Follow::Rescan { preview: true };
            },
            Command::Activate => {
                let target: Option<(bool, String)> = match self.get_selected() {
                    Some(n) => Some((n.is_dir(), n.path().clone())),
                    None => None,
                };
                match target {
                    Some((true, _)) => self.state.toggle_selected(),
                    Some((false, path)) => self.queue.add(AppEvent::OpenFile(path)),
                    None => {},
                }
            },
            Command::NewFile | Command::NewDir => {
                let opened = self.current_is_open();
                match self.new_entry_dir(opened) {
                    None => {
                        proof {
                            if start.sel_node() is Some && ts_selected(start.state).len() > 1 {
                                lemma_parent_resolves(start.dir, ts_selected(start.state));
                            }
                            assert(self.queue@ =~= q0 + start.intents_of(c));
                        }
                        return Follow::Done;
                    },
                    Some(at) => {
                        if matches!(c, Command::NewFile) {
                            self.queue.add(AppEvent::OpenInput(InputOperation::NewFile { at }));
                        } else {
                            self.queue.add(AppEvent::OpenInput(InputOperation::NewDir { at }));
                        }
                    },
                }
            },
            Command::Ignore => {
                return Follow::Done;
            },
        }
        let ghost q1 = self.queue@;
        assert(q1 == q0 + start.intents_of(c));
        self.preview_selected();
        Follow::Done
    }

    /// Handles one event, when focused: a rescan request, or a key press.
    pub fn handle_event(&mut self, ev: &ExternalEvent) -> (r: Follow)
        ensures
            !old(self).is_focused ==> *final(self) == *old(self) && r == Follow::Done,
            old(self).is_focused ==> match ev {
                ExternalEvent::RefreshFiletree => *final(self) == *old(self) && r == (Follow::Rescan {
                    preview: false,
                }),
                ExternalEvent::Key(k) => {
                    let c = command_of(*k, old(self).dir.len() > 0);
                    &&& final(self).same_frame(old(self))
                    &&& ts_selected(final(self).state) == old(self).sel_after(c)
                    &&& ts_opened(final(self).state) == old(self).opened_after(c)
                    &&& final(self).queue@ == old(self).queue@ + old(self).intents_of(c) + (if old(
                        self,
                    ).previews_after(c) {
                        final(self).preview_of()
                    } else {
                        seq![]
                    })
                    &&& r == (if c is Refresh {
                        Follow::Rescan { preview: true }
                    } else {
                        Follow::Done
                    })
                },
                ExternalEvent::Other => *final(self) == *old(self) && r == Follow::Done,
            },
    {
        if !self.is_focused {
            return Follow::Done;
        }
        match ev {
            ExternalEvent::RefreshFiletree => Follow::Rescan { preview: false },
            ExternalEvent::Key(k) => self.handle_key(k),
            ExternalEvent::Other => Follow::Done,
        }
    }
}

} // verus!
