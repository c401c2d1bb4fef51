//! Paths as character sequences: the final segment, the parent path, the
//! path relative to a walk root, and joining a directory with a child
//! name. A `/` separates segments.

use vstd::prelude::*;
use vstd::string::*;
use crate::text::{concat_str, find_last, str_eq, str_to_string};

verus! {

/// The position of the last `/` in `p`, or -1 when there is none.
pub open spec fn last_slash(p: Seq<char>) -> int
    decreases p.len(),
{
    if p.len() == 0 {
        -1
    } else if p.last() == '/' {
        p.len() - 1
    } else {
        last_slash(p.drop_last())
    }
}

pub proof fn lemma_last_slash_range(p: Seq<char>)
    ensures
        -1 <= last_slash(p) < p.len(),
    decreases p.len(),
{
    if p.len() > 0 && p.last() != '/' {
        lemma_last_slash_range(p.drop_last());
    }
}

/// Pins `last_slash` down from a witness position: `p[i]` is a slash and
/// nothing after it is.
pub proof fn lemma_last_slash_at(p: Seq<char>, i: int)
    requires
        0 <= i < p.len(),
        p[i] == '/',
        forall|k: int| i < k < p.len() ==> p[k] != '/',
    ensures
        last_slash(p) == i,
    decreases p.len(),
{
    if i < p.len() - 1 {
        assert(p.drop_last()[i] == '/');
        lemma_last_slash_at(p.drop_last(), i);
    }
}

pub proof fn lemma_last_slash_none(p: Seq<char>)
    requires
        forall|k: int| 0 <= k < p.len() ==> p[k] != '/',
    ensures
        last_slash(p) == -1,
    decreases p.len(),
{
    if p.len() > 0 {
        lemma_last_slash_none(p.drop_last());
    }
}

/// Everything before the last `/`, or empty when there is none.
pub open spec fn parent_of(p: Seq<char>) -> Seq<char> {
    if last_slash(p) >= 0 {
        p.take(last_slash(p))
    } else {
        Seq::empty()
    }
}

/// Everything after the last `/`; the whole path when there is none.
pub open spec fn base_of(p: Seq<char>) -> Seq<char> {
    p.skip(last_slash(p) + 1)
}

/// The path relative to `root`: the characters after `root` and its
/// trailing separator.
pub open spec fn rel_of(root: Seq<char>, p: Seq<char>) -> Seq<char> {
    p.skip(root.len() as int + 1)
}

/// Joining a directory with a slash-free name pins down the parent and
/// base of the result.
pub proof fn lemma_join_parts(d: Seq<char>, n: Seq<char>)
    requires
        n.len() > 0,
        forall|k: int| 0 <= k < n.len() ==> n[k] != '/',
    ensures
        last_slash(d + seq!['/'] + n) == d.len(),
        parent_of(d + seq!['/'] + n) == d,
        base_of(d + seq!['/'] + n) == n,
    decreases n.len(),
{
    let p = d + seq!['/'] + n;
    assert(p[d.len() as int] == '/');
    assert(forall|k: int| d.len() < k < p.len() ==> p[k] == n[k - d.len() - 1]);
    lemma_last_slash_at(p, d.len() as int);
    assert(p.take(d.len() as int) =~= d);
    assert(p.skip(d.len() as int + 1) =~= n);
}

/// The display name a tree node takes from a path: the final real
/// segment after trailing separators are stripped and `.` segments are
/// skipped, and empty when the path ends in a `..` segment or has no
/// segment left — mirroring how a path names a file.
pub open spec fn node_name_of(p: Seq<char>) -> Seq<char>
    decreases p.len(),
    via node_name_of_decreases
{
    if p.len() == 0 {
        Seq::empty()
    } else if p.last() == '/' {
        node_name_of(p.drop_last())
    } else {
        let b = base_of(p);
        if b == "."@ {
            node_name_of(parent_of(p))
        } else if b == ".."@ {
            Seq::empty()
        } else {
            b
        }
    }
}

#[via_fn]
proof fn node_name_of_decreases(p: Seq<char>) {
    lemma_last_slash_range(p);
}

/// An ancestor of `p`: its parent, or an ancestor of its parent.
pub open spec fn is_ancestor_path(a: Seq<char>, p: Seq<char>) -> bool
    decreases p.len(),
    via is_ancestor_path_decreases
{
    if p.len() == 0 {
        false
    } else if a == parent_of(p) {
        true
    } else {
        is_ancestor_path(a, parent_of(p))
    }
}

#[via_fn]
proof fn is_ancestor_path_decreases(a: Seq<char>, p: Seq<char>) {
    lemma_last_slash_range(p);
}

/// An ancestor is strictly shorter than the path itself.
pub proof fn lemma_ancestor_shorter(a: Seq<char>, p: Seq<char>)
    requires
        is_ancestor_path(a, p),
    ensures
        a.len() < p.len(),
    decreases p.len(),
{
    lemma_last_slash_range(p);
    if a != parent_of(p) {
        lemma_ancestor_shorter(a, parent_of(p));
    }
}

/// Joins a directory path and a child name with a separator.
pub fn join_path(dir: &str, name: &str) -> (r: String)
    ensures
        r@ == dir@ + seq!['/'] + name@,
{
    let mut r = concat_str(dir, "/");
    proof {
        reveal_strlit("/");
        assert("/"@ =~= seq!['/']);
    }
    r.append(name);
    r
}

/// The final segment of a path.
pub fn basename(path: &str) -> (r: String)
    ensures
        r@ == base_of(path@),
{
    match find_last(path, '/') {
        Option::Some(i) => {
            proof {
                lemma_last_slash_at(path@, i as int);
            }
            let len = path.unicode_len();
            str_to_string(path.substring_char(i + 1, len))
        },
        Option::None => {
            proof {
                lemma_last_slash_none(path@);
                assert(path@.skip(0) =~= path@);
            }
            str_to_string(path)
        },
    }
}

/// The display name for the tree node a path stands for; see
/// [`node_name_of`].
pub fn node_name(path: &str) -> (r: String)
    ensures
        r@ == node_name_of(path@),
    decreases path@.len(),
{
    let len = path.unicode_len();
    if len == 0 {
        let r = String::new();
        proof {
            assert(r@ =~= node_name_of(path@));
        }
        return r;
    }
    if path.get_char(len - 1) == '/' {
        let stripped = path.substring_char(0, len - 1);
        proof {
            assert(stripped@ =~= path@.drop_last());
        }
        return node_name(stripped);
    }
    let b = basename(path);
    if str_eq(b.as_str(), ".") {
        match parent_dir(path) {
            Option::Some(d) => {
                proof {
                    lemma_last_slash_range(path@);
                }
                node_name(d.as_str())
            },
            Option::None => {
                let r = String::new();
                proof {
                    assert(parent_of(path@) =~= Seq::<char>::empty());
                    assert(node_name_of(Seq::<char>::empty()) =~= Seq::<char>::empty());
                    assert(r@ =~= node_name_of(path@));
                }
                r
            },
        }
    } else if str_eq(b.as_str(), "..") {
        let r = String::new();
        proof {
            assert(r@ =~= node_name_of(path@));
        }
        r
    } else {
        b
    }
}

/// Everything before the final segment of a path that contains a
/// separator.
pub fn parent_dir(path: &str) -> (r: Option<String>)
    ensures
        match r {
            Option::Some(d) => last_slash(path@) >= 0 && d@ == parent_of(path@),
            Option::None => last_slash(path@) == -1,
        },
{
    match find_last(path, '/') {
        Option::Some(i) => {
            proof {
                lemma_last_slash_at(path@, i as int);
            }
            Option::Some(str_to_string(path.substring_char(0, i)))
        },
        Option::None => {
            proof {
                lemma_last_slash_none(path@);
            }
            Option::None
        },
    }
}

} // verus!
