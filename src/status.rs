use vstd::prelude::*;
use vstd::string::*;

verus! {

/// How an entry is shown according to version control.
pub enum StatusHint {
    /// New in the working tree, not yet tracked.
    Untracked,
    /// Changed in the working tree.
    WorktreeModified,
    /// Changed or added in the index.
    IndexChanged,
    /// No change, or no version control at all.
    Clean,
}

/// The status bits of one entry that matter to its display.
pub struct StatusFlags {
    pub wt_new: bool,
    pub wt_modified: bool,
    pub index_modified: bool,
    pub index_new: bool,
}

/// One entry of a status snapshot: a path relative to the repository root.
pub struct StatusEntry {
    pub path: String,
    pub flags: StatusFlags,
}

/// Precedence: untracked, then modified in the working tree, then changed in
/// the index, then clean.
pub open spec fn hint_of(f: StatusFlags) -> StatusHint {
    if f.wt_new {
        StatusHint::Untracked
    } else if f.wt_modified {
        StatusHint::WorktreeModified
    } else if f.index_modified || f.index_new {
        StatusHint::IndexChanged
    } else {
        StatusHint::Clean
    }
}

/// An entry path names the tree path `item` when `item` is `./` and then it.
pub open spec fn names(item: Seq<char>, rel: Seq<char>) -> bool {
    item == seq!['.', '/'] + rel
}

/// The first entry of the snapshot that names `item`.
pub open spec fn first_naming(item: Seq<char>, snap: Seq<StatusEntry>) -> Option<int> {
    if exists|i: int| 0 <= i < snap.len() && names(item, #[trigger] snap[i].path@) {
        Some(
            choose|i: int|
                0 <= i < snap.len() && names(item, #[trigger] snap[i].path@) && forall|j: int|
                    0 <= j < i ==> !names(item, #[trigger] snap[j].path@),
        )
    } else {
        None
    }
}

/// The hint for `item` in a snapshot: that of the first entry naming it,
/// clean where none does.
pub open spec fn hint_in(item: Seq<char>, s: Seq<StatusEntry>) -> StatusHint {
    match first_naming(item, s) {
        Some(i) => hint_of(s[i].flags),
        None => StatusHint::Clean,
    }
}

/// The display hint of one set of status bits.
pub fn hint(f: &StatusFlags) -> (r: StatusHint)
    ensures
        r == hint_of(*f),
{
    if f.wt_new {
        StatusHint::Untracked
    } else if f.wt_modified {
        StatusHint::WorktreeModified
    } else if f.index_modified || f.index_new {
        StatusHint::IndexChanged
    } else {
        StatusHint::Clean
    }
}

/// Whether `rel` names the tree path `item`.
pub fn names_path(item: &String, rel: &String) -> (r: bool)
    ensures
        r == names(item@, rel@),
{
    let it = item.as_str();
    let re = rel.as_str();
    let n = it.unicode_len();
    let m = re.unicode_len();
    if n < 2 || n - 2 != m {
        proof {
            if names(item@, rel@) {
                assert(item@.len() == 2 + rel@.len());
            }
        }
        return false;
    }
    if it.get_char(0) != '.' || it.get_char(1) != '/' {
        proof {
            if names(item@, rel@) {
                assert(item@[0] == (seq!['.', '/'] + rel@)[0]);
                assert(item@[1] == (seq!['.', '/'] + rel@)[1]);
            }
        }
        return false;
    }
    let mut i: usize = 0;
    while i < m
        invariant
            n == item@.len(),
            m == rel@.len(),
            n == m + 2,
            it@ == item@,
            re@ == rel@,
            item@[0] == '.',
            item@[1] == '/',
            i <= m,
            forall|j: int| 0 <= j < i ==> item@[j + 2] == rel@[j],
        decreases m - i,
    {
        if it.get_char(i + 2) != re.get_char(i) {
            proof {
                if names(item@, rel@) {
                    assert(item@[i + 2] == (seq!['.', '/'] + rel@)[i + 2]);
                }
            }
            return false;
        }
        i = i + 1;
    }
    assert(item@ =~= seq!['.', '/'] + rel@);
    true
}

/// The display hint of a tree path under a status snapshot, or clean where
/// version control is unavailable.
pub fn status_hint(item: &String, snap: Option<&Vec<StatusEntry>>) -> (r: StatusHint)
    ensures
        snap is None ==> r == StatusHint::Clean,
        snap matches Some(v) ==> r == hint_in(item@, v@),
{
    match snap {
        None => StatusHint::Clean,
        Some(v) => {
            let mut i: usize = 0;
            while i < v.len()
                invariant
                    snap == Some(v),
                    i <= v.len(),
                    forall|j: int| 0 <= j < i ==> !names(item@, #[trigger] v@[j].path@),
                decreases v.len() - i,
            {
                if names_path(item, &v[i].path) {
                    proof {
                        assert(names(item@, v@[i as int].path@));
                        let c = choose|c: int|
                            0 <= c < v@.len() && names(item@, #[trigger] v@[c].path@) && forall|j: int|
                                0 <= j < c ==> !names(item@, #[trigger] v@[j].path@);
                        if c < i {
                        } else if c > i {
                            assert(!names(item@, v@[i as int].path@));
                        }
                    }
                    let r = hint(&v[i].flags);
                    assert(first_naming(item@, v@) == Some(i as int));
                    assert(v@[i as int].flags == v[i as int].flags);
                    return r;
                }
                i = i + 1;
            }
            StatusHint::Clean
        },
    }
}

} // verus!
