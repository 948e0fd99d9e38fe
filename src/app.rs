use vstd::prelude::*;
use crate::filetree::Filetree;
use crate::node::{Node, level_built, tree_sorted};
use crate::state::{key_down, key_up, last_of, select_last, stepped, toggled, ts_opened, ts_selected};

verus! {

/// Whether a destructive action waits for confirmation.
#[derive(Debug, PartialEq, Eq, Structural)]
pub enum PendingOperations {
    DeleteFile,
    NoPending,
}

/// What the host does after a key: nothing, delete a path, open a file,
/// or scan the root again and hand the listing to the tree's `refresh`.
pub enum Step {
    Nothing,
    Delete(String),
    Open(String),
    Rescan,
}

/// The browser: a tree, its root, whether to quit, and the confirmation gate.
pub struct App {
    pub tree: Filetree,
    pub path: String,
    pub should_quit: bool,
    pub pending: PendingOperations,
}

impl App {
    /// The path of the selected node, where a node is selected.
    pub open spec fn selected_path(&self) -> Option<Seq<char>> {
        match self.tree.sel_node() {
            Some(n) => Some(n.spec_path()),
            None => None,
        }
    }

    /// A browser over a scanned listing of `path`, with nothing pending.
    pub fn new(path: String, listing: Vec<Node>) -> (r: App)
        ensures
            r.path@ == path@,
            r.tree.root_path@ == path@,
            tree_sorted(r.tree.dir),
            level_built(r.tree.dir, listing),
            ts_selected(r.tree.state) == seq![0usize],
            ts_opened(r.tree.state) == Set::<Seq<usize>>::empty(),
            r.tree.is_focused,
            !r.tree.only_included,
            r.tree.queue@ == r.tree.preview_of(),
            !r.should_quit,
            r.pending == PendingOperations::NoPending,
    {
        let root = path.clone();
        App {
            path,
            tree: Filetree::from_dir(root, listing),
            should_quit: false,
            pending: PendingOperations::NoPending,
        }
    }

    /// Handles a plain key. While an action waits for confirmation only `q`
    /// counts, and it cancels the action.
    pub fn handle_key(&mut self, key: char) -> (r: Step)
        ensures
            old(self).pending != PendingOperations::NoPending ==> {
                &&& final(self).pending == (if key == 'q' {
                    PendingOperations::NoPending
                } else {
                    old(self).pending
                })
                &&& final(self).tree == old(self).tree
                &&& final(self).should_quit == old(self).should_quit
                &&& r == Step::Nothing
            },
            old(self).pending == PendingOperations::NoPending ==> {
                &&& final(self).should_quit == (old(self).should_quit || key == 'q')
                &&& final(self).pending == (if key == 'd' {
                    PendingOperations::DeleteFile
                } else {
                    PendingOperations::NoPending
                })
                &&& final(self).tree.same_frame(&old(self).tree)
                &&& final(self).tree.queue == old(self).tree.queue
                &&& ts_opened(final(self).tree.state) == ts_opened(old(self).tree.state)
                &&& !(key == 'g' || key == 'G' || key == 'j' || key == 'k') ==> final(self).tree
                    == old(self).tree
                &&& ts_selected(final(self).tree.state) == (if key == 'g' {
                    seq![0usize]
                } else if key == 'G' {
                    last_of(old(self).tree.vis())
                } else if key == 'j' && old(self).tree.dir.len() > 0 {
                    stepped(old(self).tree.vis(), ts_selected(old(self).tree.state), true)
                } else if key == 'k' && old(self).tree.dir.len() > 0 {
                    stepped(old(self).tree.vis(), ts_selected(old(self).tree.state), false)
                } else {
                    ts_selected(old(self).tree.state)
                })
                &&& r == (if key == 'r' {
                    Step::Rescan
                } else {
                    Step::Nothing
                })
            },
            final(self).path == old(self).path,
    {
        if self.pending != PendingOperations::NoPending {
            if key == 'q' {
                self.complete_pending(false);
            }
            return Step::Nothing;
        }
        match key {
            'q' => self.should_quit = true,
            'g' => self.tree.state.select_first(),
            'G' => select_last(&mut self.tree.state, &self.tree.dir),
            'r' => {
                return Step::Rescan;
            },
            'd' => self.pending = PendingOperations::DeleteFile,
            'j' => self.on_down(),
            'k' => self.on_up(),
            _ => {},
        }
        Step::Nothing
    }

    /// Confirms a waiting action, or else acts on the selection: a directory
    /// is opened or closed, a file is handed back to be opened. On
    /// confirmation nothing is pending any more, before the host removes the
    /// path, so the outcome of the removal cannot re-arm the confirmation.
    pub fn on_enter(&mut self) -> (r: Step)
        ensures
            final(self).pending == PendingOperations::NoPending,
            final(self).should_quit == old(self).should_quit,
            final(self).path == old(self).path,
            final(self).tree.same_frame(&old(self).tree),
            final(self).tree.queue == old(self).tree.queue,
            ts_selected(final(self).tree.state) == ts_selected(old(self).tree.state),
            old(self).pending == PendingOperations::DeleteFile ==> {
                &&& final(self).tree == old(self).tree
                &&& ts_opened(final(self).tree.state) == ts_opened(old(self).tree.state)
                &&& match old(self).selected_path() {
                    Some(p) => r matches Step::Delete(s) && s@ == p,
                    None => r == Step::Nothing,
                }
            },
            old(self).pending == PendingOperations::NoPending ==> match old(self).tree.sel_node() {
                Some(Node::Dir { .. }) => r == Step::Nothing && ts_opened(final(self).tree.state)
                    == toggled(ts_opened(old(self).tree.state), ts_selected(old(self).tree.state)),
                Some(Node::File { path }) => (r matches Step::Open(s) && s@ == path@)
                    && final(self).tree == old(self).tree,
                None => r == Step::Nothing && final(self).tree == old(self).tree,
            },
    {
        if let Some(r) = self.complete_pending(true) {
            return r;
        }
        let target: Option<(bool, String)> = match self.tree.get_selected() {
            Some(n) => Some((n.is_dir(), n.path().clone())),
            None => None,
        };
        match target {
            Some((true, _)) => {
                self.tree.state.toggle_selected();
                Step::Nothing
            },
            Some((false, p)) => Step::Open(p),
            None => Step::Nothing,
        }
    }

    /// Cancels a waiting action, or else asks to quit.
    pub fn on_esc(&mut self)
        ensures
            final(self).pending == PendingOperations::NoPending,
            final(self).should_quit == (old(self).should_quit || old(self).pending
                == PendingOperations::NoPending),
            final(self).tree == old(self).tree,
            final(self).path == old(self).path,
    {
        if self.complete_pending(false).is_some() {
            return;
        }
        self.should_quit = true;
    }

    /// One step up the visible nodes; nothing moves in an empty tree.
    pub fn on_up(&mut self)
        ensures
            old(self).tree.dir.len() > 0 ==> ts_selected(final(self).tree.state) == stepped(
                old(self).tree.vis(),
                ts_selected(old(self).tree.state),
                false,
            ),
            old(self).tree.dir.len() == 0 ==> final(self).tree == old(self).tree,
            ts_opened(final(self).tree.state) == ts_opened(old(self).tree.state),
            final(self).tree.same_frame(&old(self).tree),
            final(self).tree.queue == old(self).tree.queue,
            final(self).pending == old(self).pending,
            final(self).should_quit == old(self).should_quit,
            final(self).path == old(self).path,
    {
        if self.tree.dir.len() > 0 {
            key_up(&mut self.tree.state, &self.tree.dir);
        }
    }

    /// One step down the visible nodes; nothing moves in an empty tree.
    pub fn on_down(&mut self)
        ensures
            old(self).tree.dir.len() > 0 ==> ts_selected(final(self).tree.state) == stepped(
                old(self).tree.vis(),
                ts_selected(old(self).tree.state),
                true,
            ),
            old(self).tree.dir.len() == 0 ==> final(self).tree == old(self).tree,
            ts_opened(final(self).tree.state) == ts_opened(old(self).tree.state),
            final(self).tree.same_frame(&old(self).tree),
            final(self).tree.queue == old(self).tree.queue,
            final(self).pending == old(self).pending,
            final(self).should_quit == old(self).should_quit,
            final(self).path == old(self).path,
    {
        if self.tree.dir.len() > 0 {
            key_down(&mut self.tree.state, &self.tree.dir);
        }
    }

    pub fn should_quit(&self) -> (r: bool)
        ensures
            r == self.should_quit,
    {
        self.should_quit
    }

    pub fn path(&self) -> (r: &String)
        ensures
            r == &self.path,
    {
        &self.path
    }

    pub fn tree(&self) -> (r: &Filetree)
        ensures
            r == &self.tree,
    {
        &self.tree
    }

    pub fn tree_mut(&mut self) -> (r: &mut Filetree)
        ensures
            *r == old(self).tree,
    {
        &mut self.tree
    }

    /// Ends a waiting action: without confirmation it is dropped; with it,
    /// the removal of the selected path is handed back. Nothing is pending
    /// afterwards.
    pub fn complete_pending(&mut self, confirmed: bool) -> (r: Option<Step>)
        ensures
            final(self).pending == PendingOperations::NoPending,
            final(self).tree == old(self).tree,
            final(self).should_quit == old(self).should_quit,
            final(self).path == old(self).path,
            old(self).pending == PendingOperations::NoPending ==> r is None,
            old(self).pending == PendingOperations::DeleteFile && !confirmed ==> r == Some(
                Step::Nothing,
            ),
            old(self).pending == PendingOperations::DeleteFile && confirmed ==> match old(
                self,
            ).selected_path() {
                Some(p) => r matches Some(Step::Delete(s)) && s@ == p,
                None => r == Some(Step::Nothing),
            },
    {
        if self.pending != PendingOperations::NoPending && !confirmed {
            self.pending = PendingOperations::NoPending;
            return Some(Step::Nothing);
        }
        let res = match self.pending {
            PendingOperations::NoPending => None,
            PendingOperations::DeleteFile => match self.tree.get_selected() {
                Some(n) => Some(Step::Delete(n.path().clone())),
                None => Some(Step::Nothing),
            },
        };
        self.pending = PendingOperations::NoPending;
        res
    }
}

} // verus!
