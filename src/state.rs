use vstd::prelude::*;
use crate::node::Node;
use crate::path::last_of_path;
use tui_tree_widget::{TreeItem, TreeState};

verus! {

/// Paths of the nodes that can be seen, in pre-order, for the entries of `cs`
/// from index `i` on, below `prefix`. The children of a directory show only
/// when its path is in `opened`.
pub open spec fn vis_from(cs: Vec<Node>, i: int, prefix: Seq<usize>, opened: Set<Seq<usize>>) -> Seq<
    Seq<usize>,
>
    decreases cs, cs.len() - i,
{
    if i < 0 || i >= cs.len() {
        seq![]
    } else {
        vis_one(cs, i, prefix, opened) + vis_from(cs, i + 1, prefix, opened)
    }
}

/// Entry `i` of `cs`, and what shows below it.
pub open spec fn vis_one(cs: Vec<Node>, i: int, prefix: Seq<usize>, opened: Set<Seq<usize>>) -> Seq<
    Seq<usize>,
>
    decreases cs, cs.len() - i, 0int,
{
    if i < 0 || i >= cs.len() {
        seq![]
    } else {
        let p = prefix.push(i as usize);
        seq![p] + match cs[i] {
            Node::Dir { children, .. } => if opened.contains(p) {
                vis_from(children, 0, p, opened)
            } else {
                seq![]
            },
            Node::File { .. } => seq![],
        }
    }
}

/// The visible nodes of a whole tree, in pre-order.
pub open spec fn visible(tree: Vec<Node>, opened: Set<Seq<usize>>) -> Seq<Seq<usize>> {
    vis_from(tree, 0, seq![], opened)
}

/// The node that a selection path leads to, descending from the top level;
/// none for the empty path or where an index runs past a level.
pub open spec fn node_at(cs: Vec<Node>, path: Seq<usize>) -> Option<Node>
    decreases path.len(),
{
    if path.len() == 0 || path[0] >= cs.len() {
        None
    } else if path.len() == 1 {
        Some(cs[path[0] as int])
    } else {
        match cs[path[0] as int] {
            Node::Dir { children, .. } => node_at(children, path.drop_first()),
            Node::File { .. } => None,
        }
    }
}

/// The first position of `x` in `s`, if any.
pub open spec fn index_of(s: Seq<Seq<usize>>, x: Seq<usize>) -> Option<int> {
    if exists|i: int| 0 <= i < s.len() && s[i] == x {
        Some(choose|i: int| 0 <= i < s.len() && s[i] == x && forall|j: int| 0 <= j < i ==> s[j] != x)
    } else {
        None
    }
}

/// The selection after one step through `vis`, down or up, from `sel`:
/// clamped at both ends; from a selection that is not visible, the first
/// visible node; the empty path where nothing is visible.
pub open spec fn stepped(vis: Seq<Seq<usize>>, sel: Seq<usize>, down: bool) -> Seq<usize> {
    let n = match index_of(vis, sel) {
        None => 0,
        Some(p) => if down {
            if p + 1 < vis.len() { p + 1 } else { vis.len() - 1 }
        } else {
            if p > 0 { p - 1 } else { 0 }
        },
    };
    if 0 <= n < vis.len() { vis[n] } else { seq![] }
}

/// The first visible node's path, or the empty path.
pub open spec fn first_of(vis: Seq<Seq<usize>>) -> Seq<usize> {
    if vis.len() > 0 { vis[0] } else { seq![] }
}

/// The last visible node's path, or the empty path.
pub open spec fn last_of(vis: Seq<Seq<usize>>) -> Seq<usize> {
    if vis.len() > 0 { vis[vis.len() - 1] } else { seq![] }
}

/// `s` with `p` added when absent and removed when present.
pub open spec fn toggled(s: Set<Seq<usize>>, p: Seq<usize>) -> Set<Seq<usize>> {
    if s.contains(p) { s.remove(p) } else { s.insert(p) }
}

/// Flipping a path twice leaves the open set as it was.
pub proof fn lemma_toggle_twice(s: Set<Seq<usize>>, p: Seq<usize>)
    ensures
        toggled(toggled(s, p), p) == s,
{
    assert(toggled(toggled(s, p), p) =~= s);
}

/// A step up from the first visible node stays there.
pub proof fn lemma_up_stays_first(vis: Seq<Seq<usize>>)
    requires
        vis.len() > 0,
    ensures
        stepped(vis, first_of(vis), false) == first_of(vis),
{
    let x = vis[0];
    assert(exists|i: int| 0 <= i < vis.len() && vis[i] == x);
    let c = choose|i: int| 0 <= i < vis.len() && vis[i] == x && forall|j: int| 0 <= j < i ==> vis[j] != x;
    if c > 0 {
        assert(vis[0] != x);
    }
    assert(index_of(vis, x) == Some(0int));
}

/// A step down from the last visible node stays there, where no path shows
/// twice.
pub proof fn lemma_down_stays_last(vis: Seq<Seq<usize>>)
    requires
        vis.len() > 0,
        vis.no_duplicates(),
    ensures
        stepped(vis, last_of(vis), true) == last_of(vis),
{
    let n = vis.len() - 1;
    let x = vis[n];
    assert(exists|i: int| 0 <= i < vis.len() && vis[i] == x);
    let c = choose|i: int| 0 <= i < vis.len() && vis[i] == x && forall|j: int| 0 <= j < i ==> vis[j] != x;
    assert(c == n);
    assert(index_of(vis, x) == Some(n));
}

/// Every path below `prefix` from entry `i` on starts with `prefix`, is longer,
/// and goes on with an index of at least `i`.
pub open spec fn below(x: Seq<usize>, prefix: Seq<usize>, i: int) -> bool {
    &&& x.len() > prefix.len()
    &&& x.subrange(0, prefix.len() as int) == prefix
    &&& x[prefix.len() as int] >= i
}

proof fn lemma_vis_shape(cs: Vec<Node>, i: int, prefix: Seq<usize>, opened: Set<Seq<usize>>)
    requires
        0 <= i,
        cs.len() <= usize::MAX,
    ensures
        vis_from(cs, i, prefix, opened).no_duplicates(),
        forall|k: int|
            0 <= k < vis_from(cs, i, prefix, opened).len() ==> below(
                #[trigger] vis_from(cs, i, prefix, opened)[k],
                prefix,
                i,
            ),
    decreases cs, cs.len() - i,
{
    if i < cs.len() {
        let p = prefix.push(i as usize);
        let one = vis_one(cs, i, prefix, opened);
        let rest = vis_from(cs, i + 1, prefix, opened);
        lemma_vis_shape(cs, i + 1, prefix, opened);
        let sub = match cs[i] {
            Node::Dir { children, .. } => if opened.contains(p) {
                vis_from(children, 0, p, opened)
            } else {
                seq![]
            },
            Node::File { .. } => seq![],
        };
        match cs[i] {
            Node::Dir { children, .. } => {
                if opened.contains(p) {
                    assert(decreases_to!(cs => children)) by {
                        assert(decreases_to!(cs => cs[i]));
                    }
                    lemma_vis_shape(children, 0, p, opened);
                }
            },
            Node::File { .. } => {},
        }
        assert(forall|k: int| 0 <= k < sub.len() ==> below(#[trigger] sub[k], p, 0));
        assert(sub.no_duplicates());
        assert(one == seq![p] + sub);
        assert forall|k: int| 0 <= k < one.len() implies below(#[trigger] one[k], prefix, i)
            && one[k][prefix.len() as int] == i by {
            if k > 0 {
                let x = sub[k - 1];
                assert(one[k] == x);
                assert(below(x, p, 0));
                assert(x.subrange(0, prefix.len() as int) == x.subrange(0, p.len() as int).subrange(0, prefix.len() as int));
                assert(p.subrange(0, prefix.len() as int) =~= prefix);
                assert(x[prefix.len() as int] == x.subrange(0, p.len() as int)[prefix.len() as int]);
            } else {
                assert(p.subrange(0, prefix.len() as int) =~= prefix);
            }
        }
        assert(one.no_duplicates()) by {
            assert forall|a: int, b: int| 0 <= a < b < one.len() implies one[a] != one[b] by {
                if a == 0 {
                    assert(below(sub[b - 1], p, 0));
                } else {
                    assert(one[a] == sub[a - 1]);
                    assert(one[b] == sub[b - 1]);
                }
            }
        }
        let all = one + rest;
        assert(vis_from(cs, i, prefix, opened) == all);
        assert forall|k: int| 0 <= k < all.len() implies below(#[trigger] all[k], prefix, i) by {
            if k >= one.len() {
                assert(all[k] == rest[k - one.len()]);
            }
        }
        assert forall|a: int, b: int| 0 <= a < b < all.len() implies all[a] != all[b] by {
            if b < one.len() {
                assert(all[a] == one[a] && all[b] == one[b]);
            } else if a >= one.len() {
                assert(all[a] == rest[a - one.len()] && all[b] == rest[b - one.len()]);
            } else {
                assert(all[a] == one[a]);
                assert(all[b] == rest[b - one.len()]);
                assert(all[a][prefix.len() as int] == i);
                assert(below(rest[b - one.len()], prefix, i + 1));
            }
        }
    }
}

/// No path shows twice among the visible nodes.
pub proof fn lemma_visible_distinct(tree: Vec<Node>, opened: Set<Seq<usize>>)
    ensures
        visible(tree, opened).no_duplicates(),
{
    lemma_vis_shape(tree, 0, seq![], opened);
}

/// A copy of a path.
pub fn copy_path(a: &Vec<usize>) -> (r: Vec<usize>)
    ensures
        r@ == a@,
{
    let mut r: Vec<usize> = Vec::new();
    let mut i: usize = 0;
    while i < a.len()
        invariant
            i <= a.len(),
            r@ == a@.subrange(0, i as int),
        decreases a.len() - i,
    {
        r.push(a[i]);
        i = i + 1;
    }
    assert(r@ =~= a@);
    r
}

/// The set of paths held in a list.
pub open spec fn path_set(v: Seq<Vec<usize>>) -> Set<Seq<usize>> {
    Set::new(|p: Seq<usize>| exists|i: int| 0 <= i < v.len() && #[trigger] v[i]@ == p)
}

/// Looks a node up by its selection path.
pub fn get_node<'a>(tree: &'a Vec<Node>, path: &Vec<usize>) -> (r: Option<&'a Node>)
    ensures
        r matches Some(n) ==> node_at(*tree, path@) == Some(*n),
        r is None ==> node_at(*tree, path@) is None,
{
    if path.len() == 0 {
        return None;
    }
    let mut cur: &Vec<Node> = tree;
    let mut i: usize = 0;
    assert(path@.subrange(0, path@.len() as int) =~= path@);
    while i + 1 < path.len()
        invariant
            path.len() > 0,
            i < path.len(),
            node_at(*tree, path@) == node_at(*cur, path@.subrange(i as int, path@.len() as int)),
        decreases path.len() - i,
    {
        let ghost rest = path@.subrange(i as int, path@.len() as int);
        let k = path[i];
        if k >= cur.len() {
            return None;
        }
        match &cur[k] {
            Node::Dir { children, .. } => {
                assert(rest.drop_first() =~= path@.subrange(i + 1, path@.len() as int));
                cur = children;
            },
            Node::File { .. } => {
                return None;
            },
        }
        i = i + 1;
    }
    let ghost rest = path@.subrange(i as int, path@.len() as int);
    assert(rest.len() == 1);
    let k = path[i];
    if k >= cur.len() {
        None
    } else {
        Some(&cur[k])
    }
}

#[verifier::external_type_specification]
#[verifier::external_body]
pub struct ExTreeState(TreeState);

/// The selected path that a widget state holds.
pub uninterp spec fn ts_selected(s: TreeState) -> Seq<usize>;

/// The set of open paths that a widget state holds.
pub uninterp spec fn ts_opened(s: TreeState) -> Set<Seq<usize>>;

/// Relies on the derived `Default` of `tui_tree_widget::TreeState`: an empty
/// selection and an empty set of open paths.
#[verifier::external_body]
pub fn new_state() -> (r: TreeState)
    ensures
        ts_selected(r) == Seq::<usize>::empty(),
        ts_opened(r) == Set::<Seq<usize>>::empty(),
{
    TreeState::default()
}

/// Relies on `TreeState::selected`: a copy of the selected path.
pub assume_specification[ TreeState::selected ](s: &TreeState) -> (r: Vec<usize>)
    ensures
        r@ == ts_selected(*s),
;

/// Relies on `TreeState::get_all_opened`: the open paths, in the order the
/// hash set gives them.
pub assume_specification[ TreeState::get_all_opened ](s: &TreeState) -> (r: Vec<Vec<usize>>)
    ensures
        path_set(r@) == ts_opened(*s),
;

/// Relies on `TreeState::select_first`: selects the path `[0]`.
pub assume_specification[ TreeState::select_first ](s: &mut TreeState)
    ensures
        ts_selected(*final(s)) == seq![0usize],
        ts_opened(*final(s)) == ts_opened(*old(s)),
;

/// Relies on `TreeState::open`: an empty path is refused; any other is added
/// to the open set, and the result says whether it was absent.
pub assume_specification[ TreeState::open ](s: &mut TreeState, identifier: Vec<usize>) -> (r: bool)
    ensures
        r == (identifier@.len() > 0 && !ts_opened(*old(s)).contains(identifier@)),
        ts_opened(*final(s)) == (if identifier@.len() > 0 {
            ts_opened(*old(s)).insert(identifier@)
        } else {
            ts_opened(*old(s))
        }),
        ts_selected(*final(s)) == ts_selected(*old(s)),
;

/// Relies on `TreeState::close`: the path leaves the open set, and the result
/// says whether it was there.
pub assume_specification[ TreeState::close ](s: &mut TreeState, identifier: &[usize]) -> (r: bool)
    ensures
        r == ts_opened(*old(s)).contains(identifier@),
        ts_opened(*final(s)) == ts_opened(*old(s)).remove(identifier@),
        ts_selected(*final(s)) == ts_selected(*old(s)),
;

/// Relies on `TreeState::toggle_selected`: the selected path is closed when
/// open, else opened (which an empty path never is).
pub assume_specification[ TreeState::toggle_selected ](s: &mut TreeState)
    ensures
        ts_opened(*final(s)) == (if ts_opened(*old(s)).contains(ts_selected(*old(s))) {
            ts_opened(*old(s)).remove(ts_selected(*old(s)))
        } else if ts_selected(*old(s)).len() > 0 {
            ts_opened(*old(s)).insert(ts_selected(*old(s)))
        } else {
            ts_opened(*old(s))
        }),
        ts_selected(*final(s)) == ts_selected(*old(s)),
;

/// The first visible node of a non-empty tree is its first entry.
pub proof fn lemma_first_visible(tree: Vec<Node>, opened: Set<Seq<usize>>)
    requires
        tree.len() > 0,
    ensures
        first_of(visible(tree, opened)) == seq![0usize],
{
    let one = vis_one(tree, 0, seq![], opened);
    assert(seq![].push(0usize) =~= seq![0usize]);
    assert(one[0] == seq![0usize]);
    assert(visible(tree, opened) == one + vis_from(tree, 1, seq![], opened));
    assert(visible(tree, opened)[0] == one[0]);
}

#[verifier::external_type_specification]
#[verifier::external_body]
pub struct ExTreeItem<'a>(TreeItem<'a>);

/// The identifiers that `tui_tree_widget::flatten` lists below an item whose
/// own identifier is `at`, given the open set.
pub uninterp spec fn shown_below(t: TreeItem<'static>, opened: Set<Seq<usize>>, at: Seq<usize>) -> Seq<
    Seq<usize>,
>;

/// What `tui_tree_widget::flatten` lists for `items` from index `i` on, below
/// the identifier `at`: each item's identifier, then, where that identifier is
/// open, what shows below the item.
pub open spec fn flat(items: Seq<TreeItem<'static>>, i: int, at: Seq<usize>, opened: Set<Seq<usize>>) -> Seq<
    Seq<usize>,
>
    decreases items.len() - i,
{
    if i < 0 || i >= items.len() {
        seq![]
    } else {
        let p = at.push(i as usize);
        seq![p] + (if opened.contains(p) {
            shown_below(items[i], opened, p)
        } else {
            seq![]
        }) + flat(items, i + 1, at, opened)
    }
}

/// Relies on `TreeItem::new_leaf`: an item without children shows nothing
/// below itself.
#[verifier::external_body]
fn leaf_item(text: String) -> (r: TreeItem<'static>)
    ensures
        forall|o: Set<Seq<usize>>, at: Seq<usize>| #[trigger] shown_below(r, o, at) == Seq::<Seq<usize>>::empty(),
{
    TreeItem::new_leaf(text)
}

/// Relies on `TreeItem::new`: below the item show its children, as
/// `flatten` walks them.
#[verifier::external_body]
fn dir_item(text: String, children: Vec<TreeItem<'static>>) -> (r: TreeItem<'static>)
    ensures
        forall|o: Set<Seq<usize>>, at: Seq<usize>| #[trigger] shown_below(r, o, at) == flat(children@, 0, at, o),
{
    TreeItem::new(text, children)
}

/// Relies on `TreeState::select_last`: selects the last identifier that
/// `flatten` lists, or the empty path where it lists none.
#[verifier::external_body]
fn select_last_item(s: &mut TreeState, items: &Vec<TreeItem<'static>>)
    ensures
        ts_selected(*final(s)) == last_of(flat(items@, 0, seq![], ts_opened(*old(s)))),
        ts_opened(*final(s)) == ts_opened(*old(s)),
{
    s.select_last(items)
}

/// Relies on `TreeState::key_down`: one step down what `flatten` lists,
/// stopping at the last; from a selection it does not list, the first. It
/// indexes into that list, so the items must not be empty.
#[verifier::external_body]
fn key_down_item(s: &mut TreeState, items: &Vec<TreeItem<'static>>)
    requires
        items.len() > 0,
    ensures
        ts_selected(*final(s)) == stepped(flat(items@, 0, seq![], ts_opened(*old(s))), ts_selected(*old(s)), true),
        ts_opened(*final(s)) == ts_opened(*old(s)),
{
    s.key_down(items)
}

/// Relies on `TreeState::key_up`: one step up what `flatten` lists, stopping
/// at the first; from a selection it does not list, the first. It indexes
/// into that list, so the items must not be empty.
#[verifier::external_body]
fn key_up_item(s: &mut TreeState, items: &Vec<TreeItem<'static>>)
    requires
        items.len() > 0,
    ensures
        ts_selected(*final(s)) == stepped(flat(items@, 0, seq![], ts_opened(*old(s))), ts_selected(*old(s)), false),
        ts_opened(*final(s)) == ts_opened(*old(s)),
{
    s.key_up(items)
}

/// Entry `k` of `items` shows below itself what entry `k` of `nodes` shows.
pub open spec fn item_matches(t: TreeItem<'static>, n: Node) -> bool {
    forall|o: Set<Seq<usize>>, at: Seq<usize>|
        #[trigger] shown_below(t, o, at) == match n {
            Node::Dir { children, .. } => vis_from(children, 0, at, o),
            Node::File { .. } => Seq::<Seq<usize>>::empty(),
        }
}

proof fn lemma_flat_is_visible(
    items: Seq<TreeItem<'static>>,
    nodes: Vec<Node>,
    i: int,
    at: Seq<usize>,
    o: Set<Seq<usize>>,
)
    requires
        items.len() == nodes.len(),
        0 <= i,
        forall|k: int| 0 <= k < items.len() ==> item_matches(#[trigger] items[k], nodes[k]),
    ensures
        flat(items, i, at, o) == vis_from(nodes, i, at, o),
    decreases items.len() - i,
{
    if i < items.len() {
        lemma_flat_is_visible(items, nodes, i + 1, at, o);
        let p = at.push(i as usize);
        assert(item_matches(items[i], nodes[i]));
        assert(shown_below(items[i], o, p) == match nodes[i] {
            Node::Dir { children, .. } => vis_from(children, 0, p, o),
            Node::File { .. } => Seq::<Seq<usize>>::empty(),
        });
        assert(vis_one(nodes, i, at, o) =~= seq![p] + (if o.contains(p) {
            shown_below(items[i], o, p)
        } else {
            seq![]
        }));
    }
}

/// The widget items of a tree, named by the last component of each path.
pub fn tree_items(nodes: &Vec<Node>) -> (r: Vec<TreeItem<'static>>)
    ensures
        r.len() == nodes.len(),
        forall|o: Set<Seq<usize>>, at: Seq<usize>| #[trigger] flat(r@, 0, at, o) == vis_from(*nodes, 0, at, o),
    decreases nodes,
{
    let mut out: Vec<TreeItem<'static>> = Vec::new();
    let mut i: usize = 0;
    while i < nodes.len()
        invariant
            i <= nodes.len(),
            out.len() == i,
            forall|k: int| 0 <= k < i ==> item_matches(#[trigger] out@[k], nodes[k]),
        decreases nodes.len() - i,
    {
        let text = last_of_path(nodes[i].path().as_str());
        let item = match &nodes[i] {
            Node::Dir { children, .. } => {
                assert(decreases_to!(*nodes => *children)) by {
                    assert(decreases_to!(*nodes => nodes[i as int]));
                }
                let sub = tree_items(children);
                dir_item(text, sub)
            },
            Node::File { .. } => leaf_item(text),
        };
        assert(item_matches(item, nodes[i as int]));
        out.push(item);
        i = i + 1;
    }
    proof {
        assert forall|o: Set<Seq<usize>>, at: Seq<usize>| #[trigger] flat(out@, 0, at, o) == vis_from(*nodes, 0, at, o) by {
            lemma_flat_is_visible(out@, *nodes, 0, at, o);
        }
    }
    out
}

/// Selects the last visible node (the empty path where none is).
pub fn select_last(state: &mut TreeState, tree: &Vec<Node>)
    ensures
        ts_selected(*final(state)) == last_of(visible(*tree, ts_opened(*old(state)))),
        ts_opened(*final(state)) == ts_opened(*old(state)),
{
    let items = tree_items(tree);
    select_last_item(state, &items);
}

/// One step down the visible nodes, stopping at the last; nothing moves in
/// an empty tree.
pub fn key_down(state: &mut TreeState, tree: &Vec<Node>)
    requires
        tree.len() > 0,
    ensures
        ts_selected(*final(state)) == stepped(visible(*tree, ts_opened(*old(state))), ts_selected(*old(state)), true),
        ts_opened(*final(state)) == ts_opened(*old(state)),
{
    let items = tree_items(tree);
    key_down_item(state, &items);
}

/// One step up the visible nodes, stopping at the first.
pub fn key_up(state: &mut TreeState, tree: &Vec<Node>)
    requires
        tree.len() > 0,
    ensures
        ts_selected(*final(state)) == stepped(visible(*tree, ts_opened(*old(state))), ts_selected(*old(state)), false),
        ts_opened(*final(state)) == ts_opened(*old(state)),
{
    let items = tree_items(tree);
    key_up_item(state, &items);
}

} // verus!
