use vstd::prelude::*;
use vstd::string::*;

verus! {

/// The end of `s[..e]` once trailing separators are dropped.
pub open spec fn trimmed_end(s: Seq<char>, e: int) -> int
    decreases e,
{
    if e > 0 && e <= s.len() && s[e - 1] == '/' {
        trimmed_end(s, e - 1)
    } else {
        e
    }
}

/// Where the component that ends at `e` starts: just after the separator
/// before it, or at the start of the text.
pub open spec fn component_start(s: Seq<char>, e: int) -> int
    decreases e,
{
    if e > 0 && e <= s.len() && s[e - 1] != '/' {
        component_start(s, e - 1)
    } else {
        e
    }
}

/// Where the last component before `e` that is neither empty nor `.` lies,
/// as its start and end; none where there is no such component.
pub open spec fn last_named(s: Seq<char>, e: int) -> Option<(int, int)>
    decreases e,
{
    let t = trimmed_end(s, e);
    if t <= 0 || t > s.len() {
        None
    } else {
        let b = component_start(s, t);
        if t - b == 1 && s[b] == '.' {
            if 0 <= b < e {
                last_named(s, b)
            } else {
                None
            }
        } else {
            Some((b, t))
        }
    }
}

/// The last component of a `/`-separated path, as a path walk gives it:
/// empty and `.` components are skipped, except that a path with no other
/// component ends in its root `/`, or in a leading `.`; the empty path has
/// an empty last component.
pub open spec fn last_component(s: Seq<char>) -> Seq<char> {
    match last_named(s, s.len() as int) {
        Some((b, t)) => s.subrange(b, t),
        None => if s.len() > 0 && s[0] == '/' {
            seq!['/']
        } else if s.len() > 0 && s[0] == '.' && (s.len() == 1 || s[1] == '/') {
            seq!['.']
        } else {
            seq![]
        },
    }
}

proof fn lemma_trimmed_end_bounds(s: Seq<char>, e: int)
    requires
        0 <= e <= s.len(),
    ensures
        0 <= trimmed_end(s, e) <= e,
        trimmed_end(s, e) > 0 ==> s[trimmed_end(s, e) - 1] != '/',
    decreases e,
{
    if e > 0 && s[e - 1] == '/' {
        lemma_trimmed_end_bounds(s, e - 1);
    }
}

proof fn lemma_component_start_bounds(s: Seq<char>, e: int)
    requires
        0 <= e <= s.len(),
    ensures
        0 <= component_start(s, e) <= e,
    decreases e,
{
    if e > 0 && s[e - 1] != '/' {
        lemma_component_start_bounds(s, e - 1);
    }
}

/// A text made of one literal.
fn literal(lit: &str) -> (r: String)
    ensures
        r@ == lit@,
{
    lit.to_owned()
}

/// The name an entry shows: the last component of its path.
pub fn last_of_path(path: &str) -> (r: String)
    ensures
        r@ == last_component(path@),
{
    let len = path.unicode_len();
    let mut e: usize = len;
    while e > 0
        invariant
            len == path@.len(),
            e <= len,
            last_named(path@, len as int) == last_named(path@, e as int),
        decreases e,
    {
        let mut t: usize = e;
        while t > 0 && path.get_char(t - 1) == '/'
            invariant
                len == path@.len(),
                t <= e <= len,
                trimmed_end(path@, e as int) == trimmed_end(path@, t as int),
            decreases t,
        {
            t = t - 1;
        }
        proof {
            lemma_trimmed_end_bounds(path@, t as int);
        }
        if t == 0 {
            e = 0;
        } else {
            let mut b: usize = t - 1;
            assert(component_start(path@, t as int) == component_start(path@, b as int));
            while b > 0 && path.get_char(b - 1) != '/'
                invariant
                    len == path@.len(),
                    b < t <= e <= len,
                    component_start(path@, t as int) == component_start(path@, b as int),
                decreases b,
            {
                b = b - 1;
            }
            if t - b == 1 && path.get_char(b) == '.' {
                e = b;
            } else {
                return path.substring_char(b, t).to_owned();
            }
        }
    }
    proof {
        reveal_strlit("/");
        reveal_strlit(".");
        reveal_strlit("");
    }
    if len > 0 && path.get_char(0) == '/' {
        literal("/")
    } else if len > 0 && path.get_char(0) == '.' && (len == 1 || path.get_char(1) == '/') {
        literal(".")
    } else {
        literal("")
    }
}

} // verus!
