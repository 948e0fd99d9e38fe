use vstd::prelude::*;
use crate::order::{text_less, text_lt, lemma_text_lt_asymmetric, lemma_text_lt_transitive};

verus! {

/// One entry of a directory hierarchy. A directory exclusively owns its
/// children; `path` is the entry's full path (its parent's path, a
/// separator, then its name).
pub enum Node {
    Dir { path: String, children: Vec<Node> },
    File { path: String },
}

impl Node {
    pub open spec fn spec_path(&self) -> Seq<char> {
        match self {
            Node::Dir { path, .. } => path@,
            Node::File { path } => path@,
        }
    }

    pub open spec fn spec_is_dir(&self) -> bool {
        self is Dir
    }

    pub fn path(&self) -> (r: &String)
        ensures
            r@ == self.spec_path(),
    {
        match self {
            Node::Dir { path, .. } => path,
            Node::File { path } => path,
        }
    }

    pub fn is_dir(&self) -> (r: bool)
        ensures
            r == self.spec_is_dir(),
    {
        match self {
            Node::Dir { .. } => true,
            Node::File { .. } => false,
        }
    }
}

/// Directories come before files; within a group, entries go by path. Siblings
/// share their parent's path, so among siblings this is the order of names.
pub open spec fn node_lt(a: Node, b: Node) -> bool {
    ||| (a.spec_is_dir() && !b.spec_is_dir())
    ||| (a.spec_is_dir() == b.spec_is_dir() && text_lt(a.spec_path(), b.spec_path()))
}

/// No entry of `s` is ordered before an entry that precedes it.
pub open spec fn level_sorted(s: Seq<Node>) -> bool {
    forall|i: int, j: int| 0 <= i < j < s.len() ==> !#[trigger] node_lt(s[j], s[i])
}

/// Every level of the hierarchy is in directories-first, lexical order.
pub open spec fn tree_sorted(cs: Vec<Node>) -> bool
    decreases cs,
{
    &&& level_sorted(cs@)
    &&& forall|i: int|
        0 <= i < cs.len() ==> match #[trigger] cs[i] {
            Node::Dir { children, .. } => tree_sorted(children),
            Node::File { .. } => true,
        }
}

/// `o` is `n` with each level of its children reordered: same kind, same
/// path, and (for a directory) children built from `n`'s children.
pub open spec fn node_built(o: Node, n: Node) -> bool
    decreases n, 0int,
{
    match n {
        Node::Dir { path: pn, children: cn } => match o {
            Node::Dir { path: po, children: co } => {
                &&& po@ == pn@
                &&& co.len() == cn.len()
                &&& forall|k: int| 0 <= k < co.len() ==> built_from_some(#[trigger] co[k], cn)
                &&& forall|j: int| 0 <= j < cn.len() ==> built_into_some(co, #[trigger] cn[j])
            },
            Node::File { .. } => false,
        },
        Node::File { path: pn } => match o {
            Node::File { path: po } => po@ == pn@,
            Node::Dir { .. } => false,
        },
    }
}

/// Some entry of `inp` is built into `x`.
pub open spec fn built_from_some(x: Node, inp: Vec<Node>) -> bool
    decreases inp, 0int,
{
    exists|j: int| #![trigger inp[j]] 0 <= j < inp.len() && node_built(x, inp[j])
}

/// `y` is built into some entry of `out`.
pub open spec fn built_into_some(out: Vec<Node>, y: Node) -> bool
    decreases y, 1int,
{
    exists|k: int| #![trigger out[k]] 0 <= k < out.len() && node_built(out[k], y)
}

/// `out` has as many entries as `inp`; each is built from an entry of `inp`,
/// and each entry of `inp` is built into one of `out`.
pub open spec fn level_built(out: Vec<Node>, inp: Vec<Node>) -> bool {
    &&& out.len() == inp.len()
    &&& forall|k: int| 0 <= k < out.len() ==> built_from_some(#[trigger] out[k], inp)
    &&& forall|j: int| 0 <= j < inp.len() ==> built_into_some(out, #[trigger] inp[j])
}

proof fn lemma_node_lt_asymmetric(a: Node, b: Node)
    ensures
        !(node_lt(a, b) && node_lt(b, a)),
{
    lemma_text_lt_asymmetric(a.spec_path(), b.spec_path());
}

proof fn lemma_node_lt_transitive(a: Node, b: Node, c: Node)
    requires
        node_lt(a, b),
        node_lt(b, c),
    ensures
        node_lt(a, c),
{
    if a.spec_is_dir() == b.spec_is_dir() && b.spec_is_dir() == c.spec_is_dir() {
        lemma_text_lt_transitive(a.spec_path(), b.spec_path(), c.spec_path());
    }
}

fn node_less(a: &Node, b: &Node) -> (r: bool)
    ensures
        r == node_lt(*a, *b),
{
    let da = a.is_dir();
    let db = b.is_dir();
    if da && !db {
        true
    } else if da == db {
        text_less(a.path(), b.path())
    } else {
        false
    }
}

/// The first position in a sorted level before which `n` can stand.
fn insertion_point(out: &Vec<Node>, n: &Node) -> (pos: usize)
    requires
        level_sorted(out@),
    ensures
        pos <= out.len(),
        forall|p: int| 0 <= p < pos ==> !node_lt(*n, #[trigger] out@[p]),
        pos < out.len() ==> node_lt(*n, out@[pos as int]),
{
    let mut i: usize = 0;
    while i < out.len()
        invariant
            i <= out.len(),
            forall|p: int| 0 <= p < i ==> !node_lt(*n, #[trigger] out@[p]),
        decreases out.len() - i,
    {
        if node_less(n, &out[i]) {
            return i;
        }
        i = i + 1;
    }
    i
}

/// Inserts `n` into a sorted level, keeping it sorted.
#[verifier::spinoff_prover]
fn insert_sorted(out: &mut Vec<Node>, n: Node)
    requires
        level_sorted(old(out)@),
    ensures
        level_sorted(final(out)@),
        final(out)@.to_multiset() == old(out)@.to_multiset().insert(n),
{
    let pos = insertion_point(out, &n);
    let ghost before = out@;
    out.insert(pos, n);
    proof {
        let s = out@;
        assert(s == before.insert(pos as int, n));
        assert forall|i: int, j: int| 0 <= i < j < s.len() implies !#[trigger] node_lt(s[j], s[i]) by {
            if i < pos && j == pos {
            } else if i == pos && j > pos {
                // s[j] == before[j - 1] with j - 1 >= pos
                let q = j - 1;
                lemma_node_lt_asymmetric(n, before[pos as int]);
                if node_lt(before[q], n) {
                    if q > pos {
                        lemma_node_lt_transitive(before[q], n, before[pos as int]);
                    }
                }
            } else if i < pos && j > pos {
                assert(s[i] == before[i]);
                assert(s[j] == before[j - 1]);
            } else if i > pos {
                assert(s[i] == before[i - 1]);
                assert(s[j] == before[j - 1]);
            } else {
                assert(s[i] == before[i]);
                assert(s[j] == before[j]);
            }
        }
        broadcast use vstd::seq_lib::group_to_multiset_ensures;
        assert(s.to_multiset() == before.to_multiset().insert(n)) by {
            vstd::seq_lib::lemma_multiset_commutative(before.subrange(0, pos as int), seq![n] + before.subrange(pos as int, before.len() as int));
            vstd::seq_lib::lemma_multiset_commutative(seq![n], before.subrange(pos as int, before.len() as int));
            vstd::seq_lib::lemma_multiset_commutative(before.subrange(0, pos as int), before.subrange(pos as int, before.len() as int));
            assert(before == before.subrange(0, pos as int) + before.subrange(pos as int, before.len() as int));
            assert(s == before.subrange(0, pos as int) + (seq![n] + before.subrange(pos as int, before.len() as int)));
        }
    }
}

/// A directory's children are in order at every level; a file is always fine.
pub open spec fn subtree_sorted(n: Node) -> bool {
    match n {
        Node::Dir { children, .. } => tree_sorted(children),
        Node::File { .. } => true,
    }
}

proof fn lemma_dir_built(path: String, c: Vec<Node>, cn: Vec<Node>)
    requires
        level_built(c, cn),
    ensures
        node_built(Node::Dir { path: path, children: c }, Node::Dir { path: path, children: cn }),
{
}

proof fn lemma_file_built(path: String)
    ensures
        node_built(Node::File { path: path }, Node::File { path: path }),
{
}

#[verifier::spinoff_prover]
proof fn lemma_collect(out: Vec<Node>, done: Seq<Node>, orig: Vec<Node>)
    requires
        out@.to_multiset() == done.to_multiset(),
        done.len() == orig.len(),
        forall|m: int|
            0 <= m < done.len() ==> node_built(#[trigger] done[m], orig[orig.len() - 1 - m]),
        forall|m: int| 0 <= m < done.len() ==> subtree_sorted(#[trigger] done[m]),
    ensures
        level_built(out, orig),
        forall|i: int| 0 <= i < out.len() ==> subtree_sorted(#[trigger] out[i]),
{
    let len = orig.len();
    assert forall|k: int| 0 <= k < out.len() implies built_from_some(#[trigger] out[k], orig) by {
        vstd::seq_lib::to_multiset_contains(out@, out[k]);
        vstd::seq_lib::to_multiset_contains(done, out[k]);
        assert(out@.contains(out[k]));
        let m = choose|m: int| 0 <= m < done.len() && done[m] == out[k];
        let j = len - 1 - m;
        assert(node_built(done[m], orig[j]));
        assert(node_built(out[k], orig[j]));
    }
    assert forall|j: int| 0 <= j < orig.len() implies built_into_some(out, #[trigger] orig[j]) by {
        let m = len - 1 - j;
        assert(node_built(done[m], orig[j]));
        vstd::seq_lib::to_multiset_contains(out@, done[m]);
        vstd::seq_lib::to_multiset_contains(done, done[m]);
        assert(done.contains(done[m]));
        let k = choose|k: int| 0 <= k < out@.len() && out@[k] == done[m];
        assert(node_built(out[k], orig[j]));
    }
    assert forall|i: int| 0 <= i < out.len() implies subtree_sorted(#[trigger] out[i]) by {
        vstd::seq_lib::to_multiset_contains(out@, out[i]);
        vstd::seq_lib::to_multiset_contains(done, out[i]);
        assert(out@.contains(out[i]));
    }
    vstd::seq_lib::to_multiset_len(out@);
    vstd::seq_lib::to_multiset_len(done);
}

/// Puts a scanned listing in order: at every level directories come first,
/// then files, each group by name. Nothing is added, dropped or renamed.
#[verifier::spinoff_prover]
pub fn build(listing: Vec<Node>) -> (r: Vec<Node>)
    ensures
        tree_sorted(r),
        level_built(r, listing),
    decreases listing,
{
    let ghost orig_v = listing;
    let ghost orig = listing@;
    let mut rest = listing;
    let mut out: Vec<Node> = Vec::new();
    let ghost mut done: Seq<Node> = seq![];
    while rest.len() > 0
        invariant
            rest@ == orig.subrange(0, rest.len() as int),
            done.len() + rest.len() == orig.len(),
            forall|m: int|
                0 <= m < done.len() ==> node_built(#[trigger] done[m], orig[orig.len() - 1 - m]),
            forall|m: int| 0 <= m < done.len() ==> subtree_sorted(#[trigger] done[m]),
            level_sorted(out@),
            out@.to_multiset() == done.to_multiset(),
            decreases_to!(listing => orig),
        decreases rest.len(),
    {
        let n = rest.pop().unwrap();
        let ghost idx = rest.len() as int;
        assert(n == orig[idx]);
        let b = match n {
            Node::Dir { path, children } => {
                assert(decreases_to!(listing => children)) by {
                    assert(decreases_to!(orig => orig[idx]));
                }
                let ghost cn = children;
                let c = build(children);
                proof {
                    lemma_dir_built(path, c, cn);
                }
                Node::Dir { path, children: c }
            },
            Node::File { path } => {
                proof {
                    lemma_file_built(path);
                }
                Node::File { path }
            },
        };
        proof {
            broadcast use vstd::seq_lib::group_to_multiset_ensures;
            assert(done.push(b).to_multiset() == done.to_multiset().insert(b));
            done = done.push(b);
            assert(done[done.len() - 1] == b);
        }
        insert_sorted(&mut out, b);
    }
    proof {
        lemma_collect(out, done, orig_v);
        assert forall|i: int| 0 <= i < out.len() implies match #[trigger] out[i] {
            Node::Dir { children, .. } => tree_sorted(children),
            Node::File { .. } => true,
        } by {
            assert(subtree_sorted(out@[i]));
        }
    }
    out
}

/// `n` stays in a view restricted to `allow`: its path is listed, or it is a
/// directory with an entry below it that stays.
pub open spec fn kept(n: Node, allow: Seq<Seq<char>>) -> bool
    decreases n, 0int,
{
    allow.contains(n.spec_path()) || match n {
        Node::Dir { children, .. } => some_kept(children, allow),
        Node::File { .. } => false,
    }
}

/// Some entry of `cs` stays.
pub open spec fn some_kept(cs: Vec<Node>, allow: Seq<Seq<char>>) -> bool
    decreases cs, 0int,
{
    exists|i: int| #![trigger cs[i]] 0 <= i < cs.len() && kept(cs[i], allow)
}

/// How many entries of `cs` from index `i` on stay.
pub open spec fn kept_count(cs: Vec<Node>, i: int, allow: Seq<Seq<char>>) -> nat
    decreases cs, cs.len() - i,
{
    if i < 0 || i >= cs.len() {
        0
    } else {
        (if kept(cs[i], allow) { 1nat } else { 0nat }) + kept_count(cs, i + 1, allow)
    }
}

/// `o` is `n` with, at every level, only the entries that stay.
pub open spec fn node_filtered(o: Node, n: Node, allow: Seq<Seq<char>>) -> bool
    decreases n, 0int,
{
    match n {
        Node::Dir { path: pn, children: cn } => match o {
            Node::Dir { path: po, children: co } => {
                &&& po@ == pn@
                &&& co.len() == kept_count(cn, 0, allow)
                &&& forall|k: int| 0 <= k < co.len() ==> filtered_from_some(#[trigger] co[k], cn, allow)
                &&& forall|j: int| 0 <= j < cn.len() ==> filtered_into_some(co, #[trigger] cn[j], allow)
            },
            Node::File { .. } => false,
        },
        Node::File { path: pn } => match o {
            Node::File { path: po } => po@ == pn@,
            Node::Dir { .. } => false,
        },
    }
}

/// `x` is an entry of `inp` that stays, filtered.
pub open spec fn filtered_from_some(x: Node, inp: Vec<Node>, allow: Seq<Seq<char>>) -> bool
    decreases inp, 0int,
{
    exists|j: int|
        #![trigger inp[j]]
        0 <= j < inp.len() && kept(inp[j], allow) && node_filtered(x, inp[j], allow)
}

/// `y` does not stay, or it stays and its filtered form is in `out`.
pub open spec fn filtered_into_some(out: Vec<Node>, y: Node, allow: Seq<Seq<char>>) -> bool
    decreases y, 1int,
{
    kept(y, allow) ==> exists|k: int| #![trigger out[k]] 0 <= k < out.len() && node_filtered(out[k], y, allow)
}

/// `out` holds exactly the entries of `inp` that stay, each filtered, and
/// as many entries as stay.
pub open spec fn level_filtered(out: Vec<Node>, inp: Vec<Node>, allow: Seq<Seq<char>>) -> bool {
    &&& out.len() == kept_count(inp, 0, allow)
    &&& forall|k: int| 0 <= k < out.len() ==> filtered_from_some(#[trigger] out[k], inp, allow)
    &&& forall|j: int| 0 <= j < inp.len() ==> filtered_into_some(out, #[trigger] inp[j], allow)
}

/// The texts of a list of strings.
pub open spec fn text_views(v: Seq<String>) -> Seq<Seq<char>> {
    v.map_values(|s: String| s@)
}

/// Whether `p` is one of `allow`.
fn listed(p: &String, allow: &Vec<String>) -> (r: bool)
    ensures
        r == text_views(allow@).contains(p@),
{
    let ghost views = text_views(allow@);
    let mut i: usize = 0;
    while i < allow.len()
        invariant
            i <= allow.len(),
            views == text_views(allow@),
            forall|j: int| 0 <= j < i ==> views[j] != p@,
        decreases allow.len() - i,
    {
        if allow[i].eq(p) {
            assert(views[i as int] == p@);
            return true;
        }
        i = i + 1;
    }
    proof {
        if views.contains(p@) {
            let j = choose|j: int| 0 <= j < views.len() && views[j] == p@;
            assert(views[j] != p@);
        }
    }
    false
}

proof fn lemma_file_filtered(path: String, allow: Seq<Seq<char>>)
    ensures
        node_filtered(Node::File { path: path }, Node::File { path: path }, allow),
{
}

proof fn lemma_dir_filtered(path: String, c: Vec<Node>, cn: Vec<Node>, allow: Seq<Seq<char>>)
    requires
        level_filtered(c, cn, allow),
    ensures
        node_filtered(Node::Dir { path: path, children: c }, Node::Dir { path: path, children: cn }, allow),
        kept(Node::Dir { path: path, children: cn }, allow) == (allow.contains(path@) || c.len() > 0),
{
    if c.len() > 0 {
        assert(filtered_from_some(c[0], cn, allow));
        let j = choose|j: int| #![trigger cn[j]] 0 <= j < cn.len() && kept(cn[j], allow) && node_filtered(c[0], cn[j], allow);
        assert(some_kept(cn, allow));
    } else {
        if some_kept(cn, allow) {
            let j = choose|j: int| #![trigger cn[j]] 0 <= j < cn.len() && kept(cn[j], allow);
            assert(filtered_into_some(c, cn[j], allow));
        }
    }
}

/// The entry restricted to `allow`, or `None` where it does not stay.
fn filter_node(n: Node, allow: &Vec<String>) -> (r: Option<Node>)
    ensures
        r is Some == kept(n, text_views(allow@)),
        r matches Some(o) ==> node_filtered(o, n, text_views(allow@)),
    decreases n, 1int,
{
    let ghost av = text_views(allow@);
    let keep_self = listed(n.path(), allow);
    match n {
        Node::Dir { path, children } => {
            let ghost cn = children;
            let c = filter_listing(children, allow);
            proof {
                lemma_dir_filtered(path, c, cn, av);
            }
            if keep_self || c.len() > 0 {
                Some(Node::Dir { path, children: c })
            } else {
                None
            }
        },
        Node::File { path } => {
            proof {
                lemma_file_filtered(path, av);
            }
            if keep_self {
                Some(Node::File { path })
            } else {
                None
            }
        },
    }
}

/// Restricts a listing to the entries whose path is in `allow` and the
/// directories above them. The order of what stays is left to `build`.
#[verifier::spinoff_prover]
pub fn filter_listing(listing: Vec<Node>, allow: &Vec<String>) -> (r: Vec<Node>)
    ensures
        level_filtered(r, listing, text_views(allow@)),
    decreases listing, 0int,
{
    let ghost av = text_views(allow@);
    let ghost orig_v = listing;
    let ghost orig = listing@;
    let mut rest = listing;
    let mut out: Vec<Node> = Vec::new();
    // `placed[m]` is the index in `out` of entry `orig.len() - 1 - m`, when it stays
    let ghost mut placed: Seq<int> = seq![];
    while rest.len() > 0
        invariant
            rest@ == orig.subrange(0, rest.len() as int),
            placed.len() + rest.len() == orig.len(),
            orig == orig_v@,
            av == text_views(allow@),
            decreases_to!(listing => orig),
            forall|k: int| 0 <= k < out.len() ==> filtered_from_some(#[trigger] out[k], orig_v, av),
            out.len() == kept_count(orig_v, rest.len() as int, av),
            forall|m: int|
                0 <= m < placed.len() ==> (kept(orig[orig.len() - 1 - m], av) ==> 0 <= #[trigger] placed[m] < out.len()
                    && node_filtered(out[placed[m]], orig[orig.len() - 1 - m], av)),
        decreases rest.len(),
    {
        let n = rest.pop().unwrap();
        let ghost idx = rest.len() as int;
        assert(n == orig[idx]);
        assert(decreases_to!(listing => n)) by {
            assert(decreases_to!(orig => orig[idx]));
        }
        let ghost old_out = out@;
        let f = filter_node(n, allow);
        match f {
            Some(o) => {
                let ghost at = out.len() as int;
                out.push(o);
                proof {
                    assert(filtered_from_some(out[at], orig_v, av)) by {
                        assert(orig_v[idx] == orig[idx]);
                    }
                    assert forall|k: int| 0 <= k < at implies out@[k] == old_out[k] by {}
                    placed = placed.push(at);
                }
            },
            None => {
                proof {
                    placed = placed.push(0);
                }
            },
        }
    }
    proof {
        let len = orig.len();
        assert forall|j: int| 0 <= j < orig_v.len() implies filtered_into_some(out, #[trigger] orig_v[j], av) by {
            let m = len - 1 - j;
            assert(orig_v[j] == orig[len - 1 - m]);
            if kept(orig_v[j], av) {
                assert(0 <= placed[m] < out.len());
            }
        }
    }
    out
}

} // verus!
