//! The directory walk as a state machine.
//!
//! The walker owns the traversal order and the filtering; the caller owns
//! the filesystem. The caller repeatedly asks for the next directory to
//! list ([`Walker::next_dir`]), reads it, and hands the listing back
//! ([`Walker::feed_listing`]). The walker keeps every entry that passes
//! the ignore filter and schedules included subdirectories for listing.
//!
//! Two facts hold of the accumulated result in every state and are the
//! point of this module: no recorded entry matches any rule of the ignore
//! set (exclusion completeness), and every recorded entry's parent chain
//! below the root consists of recorded, included directories — an
//! excluded directory is never listed, so none of its descendants ever
//! appears (prune at discovery).

use vstd::prelude::*;
use vstd::string::*;
use crate::filter::{entry_excluded, IgnoreRuleSet};
use crate::paths::{
    base_of, is_ancestor_path, join_path, lemma_ancestor_shorter, lemma_join_parts, parent_of,
    rel_of,
};

verus! {

/// One discovered filesystem entry: an absolute path and its kind.
pub struct WalkEntry {
    pub path: String,
    pub is_dir: bool,
}

/// The mathematical image of a [`WalkEntry`].
#[verifier::ext_equal]
pub struct EntryV {
    pub path: Seq<char>,
    pub is_dir: bool,
}

impl View for WalkEntry {
    type V = EntryV;

    open spec fn view(&self) -> EntryV {
        EntryV { path: self.path@, is_dir: self.is_dir }
    }
}

impl DeepView for WalkEntry {
    type V = EntryV;

    open spec fn deep_view(&self) -> EntryV {
        self.view()
    }
}

/// One row of a directory listing as the caller reads it: the child's
/// name and kind.
pub struct DirChild {
    pub name: String,
    pub is_dir: bool,
}

/// The mathematical image of a [`DirChild`].
#[verifier::ext_equal]
pub struct ChildV {
    pub name: Seq<char>,
    pub is_dir: bool,
}

impl View for DirChild {
    type V = ChildV;

    open spec fn view(&self) -> ChildV {
        ChildV { name: self.name@, is_dir: self.is_dir }
    }
}

impl DeepView for DirChild {
    type V = ChildV;

    open spec fn deep_view(&self) -> ChildV {
        self.view()
    }
}

/// A listing row is usable when its name is a real directory-entry name:
/// non-empty and free of separators.
pub open spec fn child_name_ok(c: ChildV) -> bool {
    c.name.len() > 0 && forall|k: int| 0 <= k < c.name.len() ==> c.name[k] != '/'
}

/// What one accepted child contributes: its absolute path under `dir`.
pub open spec fn child_path(dir: Seq<char>, c: ChildV) -> Seq<char> {
    dir + seq!['/'] + c.name
}

/// The entries that a listing of `dir` contributes, in listing order:
/// each child that the rule set does not exclude, as a path+kind pair.
pub open spec fn accepted_children(
    rules: Seq<Seq<char>>,
    root: Seq<char>,
    dir: Seq<char>,
    kids: Seq<ChildV>,
) -> Seq<EntryV>
    decreases kids.len(),
{
    if kids.len() == 0 {
        Seq::empty()
    } else {
        let k0 = kids[0];
        let path = child_path(dir, k0);
        let rest = accepted_children(rules, root, dir, kids.drop_first());
        if entry_excluded(rules, k0.name, rel_of(root, path), k0.is_dir) {
            rest
        } else {
            seq![EntryV { path, is_dir: k0.is_dir }] + rest
        }
    }
}

/// The subdirectory paths among the accepted children, in listing order.
pub open spec fn accepted_dirs(
    rules: Seq<Seq<char>>,
    root: Seq<char>,
    dir: Seq<char>,
    kids: Seq<ChildV>,
) -> Seq<Seq<char>>
    decreases kids.len(),
{
    if kids.len() == 0 {
        Seq::empty()
    } else {
        let k0 = kids[0];
        let path = child_path(dir, k0);
        let rest = accepted_dirs(rules, root, dir, kids.drop_first());
        if entry_excluded(rules, k0.name, rel_of(root, path), k0.is_dir) || !k0.is_dir {
            rest
        } else {
            seq![path] + rest
        }
    }
}

/// Appending rules only ever shrinks what one listing contributes:
/// every entry a listing yields under an extended rule set is also
/// yielded under the base rule set. Since user patterns are appended to
/// the defaults, they can only remove entries from a walk, never add
/// any.
pub proof fn lemma_accepted_children_shrink(
    base: Seq<Seq<char>>,
    extra: Seq<Seq<char>>,
    root: Seq<char>,
    dir: Seq<char>,
    kids: Seq<ChildV>,
    e: EntryV,
)
    requires
        accepted_children(base + extra, root, dir, kids).contains(e),
    ensures
        accepted_children(base, root, dir, kids).contains(e),
    decreases kids.len(),
{
    if kids.len() > 0 {
        let k0 = kids[0];
        let path = child_path(dir, k0);
        let rel = crate::paths::rel_of(root, path);
        crate::filter::lemma_more_rules_exclude_more(base, extra, k0.name, rel, k0.is_dir);
        let rest_all = accepted_children(base + extra, root, dir, kids.drop_first());
        let rest_base = accepted_children(base, root, dir, kids.drop_first());
        let head = EntryV { path, is_dir: k0.is_dir };
        if entry_excluded(base + extra, k0.name, rel, k0.is_dir) {
            lemma_accepted_children_shrink(base, extra, root, dir, kids.drop_first(), e);
            if !entry_excluded(base, k0.name, rel, k0.is_dir) {
                let i = choose|i: int| 0 <= i < rest_base.len() && rest_base[i] == e;
                assert((seq![head] + rest_base)[i + 1] == e);
            }
        } else {
            let i = choose|i: int|
                0 <= i < (seq![head] + rest_all).len() && (seq![head] + rest_all)[i] == e;
            if i == 0 {
                assert((seq![head] + rest_base)[0] == e);
            } else {
                assert(rest_all[i - 1] == e);
                lemma_accepted_children_shrink(base, extra, root, dir, kids.drop_first(), e);
                let j = choose|j: int| 0 <= j < rest_base.len() && rest_base[j] == e;
                assert((seq![head] + rest_base)[j + 1] == e);
            }
        }
    }
}

/// An entry is sound for `root` and `rules`: it lies strictly below the
/// root and the filter does not exclude it.
pub open spec fn entry_ok(root: Seq<char>, rules: Seq<Seq<char>>, e: EntryV) -> bool {
    &&& e.path.len() > root.len() + 1
    &&& e.path.take(root.len() as int) == root
    &&& e.path[root.len() as int] == '/'
    &&& !entry_excluded(rules, base_of(e.path), rel_of(root, e.path), e.is_dir)
}

/// Entry `i`'s parent is the root, or an earlier recorded directory.
pub open spec fn parent_linked(root: Seq<char>, entries: Seq<EntryV>, i: int) -> bool {
    ||| parent_of(entries[i].path) == root
    ||| exists|j: int|
        0 <= j < i && entries[j].path == parent_of(entries[i].path) && entries[j].is_dir
}

/// Soundness of a whole walk result: every entry passed the filter, every
/// entry's parent is the root or an earlier recorded directory, and paths
/// never repeat.
pub open spec fn walk_ok(root: Seq<char>, rules: Seq<Seq<char>>, entries: Seq<EntryV>) -> bool {
    &&& forall|i: int| 0 <= i < entries.len() ==> entry_ok(root, rules, #[trigger] entries[i])
    &&& forall|i: int| 0 <= i < entries.len() ==> #[trigger] parent_linked(root, entries, i)
    &&& forall|i: int, j: int|
        0 <= i < j < entries.len() ==> entries[i].path != entries[j].path
}

/// Path `p` is recorded as a directory entry.
pub open spec fn has_dir_entry(entries: Seq<EntryV>, p: Seq<char>) -> bool {
    exists|j: int| 0 <= j < entries.len() && entries[j].path == p && entries[j].is_dir
}

/// Exclusion completeness: in a sound walk result, no recorded entry —
/// judged by its final segment, its root-relative path and its kind —
/// is hidden or matches any rule of the ignore set.
pub proof fn lemma_exclusion_completeness(
    root: Seq<char>,
    rules: Seq<Seq<char>>,
    entries: Seq<EntryV>,
    i: int,
)
    requires
        walk_ok(root, rules, entries),
        0 <= i < entries.len(),
    ensures
        !entry_excluded(rules, base_of(entries[i].path), rel_of(root, entries[i].path),
            entries[i].is_dir),
{
    assert(entry_ok(root, rules, entries[i]));
}

/// Prune at discovery, stated over any sound walk result: every strict
/// ancestor of a recorded entry that lies below the root is itself a
/// recorded directory entry that the filter did not exclude. Since an
/// excluded directory is never recorded, no descendant of an excluded
/// directory is ever recorded.
pub proof fn lemma_prune_at_discovery(
    root: Seq<char>,
    rules: Seq<Seq<char>>,
    entries: Seq<EntryV>,
    i: int,
    a: Seq<char>,
)
    requires
        walk_ok(root, rules, entries),
        0 <= i < entries.len(),
        is_ancestor_path(a, entries[i].path),
        a.len() > root.len(),
    ensures
        exists|j: int|
            0 <= j < entries.len() && entries[j].path == a && entries[j].is_dir
                && !entry_excluded(rules, base_of(a), rel_of(root, a), true),
    decreases i,
{
    assert(parent_linked(root, entries, i));
    let p = entries[i].path;
    if parent_of(p) == root {
        if a == parent_of(p) {
            assert(false);
        } else {
            lemma_ancestor_shorter(a, root);
            assert(false);
        }
    } else {
        let j = choose|j: int|
            0 <= j < i && entries[j].path == parent_of(p) && entries[j].is_dir;
        assert(entry_ok(root, rules, entries[j]));
        if a == parent_of(p) {
            assert(entries[j].path == a && entries[j].is_dir && !entry_excluded(
                rules,
                base_of(a),
                rel_of(root, a),
                true,
            ));
        } else {
            lemma_prune_at_discovery(root, rules, entries, j, a);
        }
    }
}

/// The traversal state machine.
pub struct Walker {
    pub root: String,
    pub rules: IgnoreRuleSet,
    pub pending: Vec<String>,
    pub next_idx: usize,
    pub current: Option<String>,
    pub entries: Vec<WalkEntry>,
}

impl Walker {
    /// Pending slot `k` is the root or a recorded directory.
    pub open spec fn pending_known(&self, k: int) -> bool {
        self.pending.deep_view()[k] == self.root@ || has_dir_entry(
            self.entries.deep_view(),
            self.pending.deep_view()[k],
        )
    }

    /// Entry `e`'s parent is one of the directories already handed out.
    pub open spec fn parent_scheduled(&self, e: int) -> bool {
        exists|k: int|
            0 <= k < self.next_idx && parent_of(self.entries.deep_view()[e].path)
                == self.pending.deep_view()[k]
    }

    /// The well-formedness of the state, held by every method.
    pub open spec fn inv(&self) -> bool {
        &&& walk_ok(self.root@, self.rules@, self.entries.deep_view())
        &&& self.next_idx <= self.pending.len()
        &&& forall|k: int, l: int|
            0 <= k < l < self.pending.len() ==> self.pending.deep_view()[k]
                != self.pending.deep_view()[l]
        &&& forall|k: int| 0 <= k < self.pending.len() ==> #[trigger] self.pending_known(k)
        &&& forall|e: int| 0 <= e < self.entries.len() ==> #[trigger] self.parent_scheduled(e)
        &&& match self.current {
            Option::Some(d) => {
                &&& self.next_idx >= 1
                &&& d@ == self.pending.deep_view()[self.next_idx - 1]
                &&& forall|e: int|
                    0 <= e < self.entries.len() ==> parent_of(
                        #[trigger] self.entries.deep_view()[e].path,
                    ) != d@
            },
            Option::None => true,
        }
    }

    /// Starts a walk at `root` with the given rule set. The root itself
    /// is the first directory scheduled for listing.
    pub fn new(root: String, rules: IgnoreRuleSet) -> (r: Walker)
        ensures
            r.inv(),
            r.root@ == root@,
            r.rules@ == rules@,
            r.entries.deep_view() =~= Seq::<EntryV>::empty(),
            r.pending.deep_view() =~= seq![root@],
            r.next_idx == 0,
            r.current is None,
    {
        let mut pending: Vec<String> = Vec::new();
        pending.push(root.clone());
        let r = Walker {
            root,
            rules,
            pending,
            next_idx: 0,
            current: Option::None,
            entries: Vec::new(),
        };
        proof {
            assert(r.pending.deep_view() =~= seq![r.root@]);
        }
        r
    }

    /// Hands out the next directory to list, if any is scheduled, and
    /// remembers it as the one whose listing is expected next.
    pub fn next_dir(&mut self) -> (r: Option<String>)
        requires
            old(self).inv(),
            old(self).current is None,
        ensures
            final(self).inv(),
            final(self).root == old(self).root,
            final(self).rules == old(self).rules,
            final(self).entries == old(self).entries,
            final(self).pending == old(self).pending,
            match r {
                Option::Some(d) => {
                    &&& old(self).next_idx < old(self).pending.len()
                    &&& d@ == old(self).pending.deep_view()[old(self).next_idx as int]
                    &&& final(self).next_idx == old(self).next_idx + 1
                    &&& final(self).current matches Option::Some(c) && c@ == d@
                },
                Option::None => {
                    &&& old(self).next_idx == old(self).pending.len()
                    &&& final(self).next_idx == old(self).next_idx
                    &&& final(self).current is None
                },
            },
    {
        if self.next_idx < self.pending.len() {
            let d = self.pending[self.next_idx].clone();
            self.next_idx += 1;
            self.current = Option::Some(d.clone());
            proof {
                assert forall|e: int| 0 <= e < self.entries.len() implies parent_of(
                    #[trigger] self.entries.deep_view()[e].path,
                ) != d@ by {
                    assert(old(self).parent_scheduled(e));
                    let k = choose|k: int|
                        0 <= k < old(self).next_idx && parent_of(
                            old(self).entries.deep_view()[e].path,
                        ) == old(self).pending.deep_view()[k];
                    assert(self.pending.deep_view()[k] != self.pending.deep_view()[
                        self.next_idx - 1
                    ]);
                }
                assert forall|e: int| 0 <= e < self.entries.len() implies
                    #[trigger] self.parent_scheduled(e) by {
                    assert(old(self).parent_scheduled(e));
                    let k = choose|k: int|
                        0 <= k < old(self).next_idx && parent_of(
                            old(self).entries.deep_view()[e].path,
                        ) == old(self).pending.deep_view()[k];
                    assert(0 <= k < self.next_idx && parent_of(self.entries.deep_view()[e].path)
                        == self.pending.deep_view()[k]);
                }
                assert forall|k: int| 0 <= k < self.pending.len() implies
                    #[trigger] self.pending_known(k) by {
                    assert(old(self).pending_known(k));
                }
            }
            Option::Some(d)
        } else {
            Option::None
        }
    }

    /// Consumes the listing of the directory last handed out: filters
    /// each child, records the survivors in listing order, and schedules
    /// the surviving subdirectories for listing. Without an outstanding
    /// directory the call changes nothing.
    pub fn feed_listing(&mut self, children: &Vec<DirChild>)
        requires
            old(self).inv(),
            forall|i: int, j: int|
                0 <= i < j < children.len() ==> children.deep_view()[i].name
                    != children.deep_view()[j].name,
            forall|i: int|
                0 <= i < children.len() ==> child_name_ok(#[trigger] children.deep_view()[i]),
        ensures
            final(self).inv(),
            final(self).root == old(self).root,
            final(self).rules == old(self).rules,
            final(self).next_idx == old(self).next_idx,
            final(self).current is None,
            match old(self).current {
                Option::Some(d) => {
                    &&& final(self).entries.deep_view() == old(self).entries.deep_view()
                        + accepted_children(
                        old(self).rules@,
                        old(self).root@,
                        d@,
                        children.deep_view(),
                    )
                    &&& final(self).pending.deep_view() == old(self).pending.deep_view()
                        + accepted_dirs(
                        old(self).rules@,
                        old(self).root@,
                        d@,
                        children.deep_view(),
                    )
                },
                Option::None => *final(self) == *old(self),
            },
    {
        let cur = match &self.current {
            Option::None => {
                return ;
            },
            Option::Some(d) => d.clone(),
        };
        self.current = Option::None;
        let ghost rules_v = self.rules@;
        let ghost root_v = self.root@;
        let ghost d_v = cur@;
        let ghost kids = children.deep_view();
        let ghost entries0 = self.entries.deep_view();
        let ghost pending0 = self.pending.deep_view();
        let ghost old_len = self.entries.len() as int;
        proof {
            assert(kids.skip(0) =~= kids);
            // The directory being listed is the root or a recorded
            // directory entry, so it lies strictly below the root.
            assert(old(self).pending_known(old(self).next_idx - 1));
            if d_v != root_v {
                let j = choose|j: int|
                    0 <= j < entries0.len() && entries0[j].path == d_v && entries0[j].is_dir;
                assert(entry_ok(root_v, rules_v, entries0[j]));
            }
            assert forall|k: int| 0 <= k < pending0.len() implies (#[trigger] pending0[k] == root_v
                || has_dir_entry(entries0, pending0[k])) by {
                assert(old(self).pending_known(k));
            }
            assert forall|k: int| 0 <= k < self.pending.len() implies
                #[trigger] self.pending_known(k) by {
                assert(old(self).pending_known(k));
            }
            assert forall|e: int| 0 <= e < self.entries.len() implies
                #[trigger] self.parent_scheduled(e) by {
                assert(old(self).parent_scheduled(e));
            }
        }
        let rootlen = self.root.as_str().unicode_len();
        let n = children.len();
        let mut i: usize = 0;
        while i < n
            invariant
                i <= n,
                n == kids.len(),
                n == children@.len(),
                kids == children.deep_view(),
                d_v == cur@,
                rootlen == root_v.len(),
                self.root@ == root_v,
                self.rules@ == rules_v,
                self.rules == old(self).rules,
                self.root == old(self).root,
                self.current is None,
                self.next_idx == old(self).next_idx,
                1 <= self.next_idx <= self.pending.len(),
                d_v == self.pending.deep_view()[self.next_idx - 1],
                d_v == root_v || (d_v.len() > root_v.len() + 1 && d_v.take(root_v.len() as int)
                    == root_v && d_v[root_v.len() as int] == '/'),
                forall|x: int, j: int|
                    0 <= x < j < kids.len() ==> kids[x].name != kids[j].name,
                forall|x: int| 0 <= x < kids.len() ==> child_name_ok(#[trigger] kids[x]),
                // snapshots and their soundness
                old_len == entries0.len(),
                forall|j: int| 0 <= j < old_len ==> parent_of(#[trigger] entries0[j].path) != d_v,
                forall|k: int|
                    0 <= k < pending0.len() ==> #[trigger] pending0[k] == root_v || has_dir_entry(
                        entries0,
                        pending0[k],
                    ),
                // prefix stability
                self.entries.len() >= old_len,
                forall|j: int| 0 <= j < old_len ==> self.entries.deep_view()[j] == #[trigger] entries0[j],
                self.pending.len() >= pending0.len(),
                forall|k: int|
                    0 <= k < pending0.len() ==> self.pending.deep_view()[k] == #[trigger] pending0[k],
                // what this call has added so far
                forall|j: int|
                    old_len <= j < self.entries.len() ==> parent_of(
                        #[trigger] self.entries.deep_view()[j].path,
                    ) == d_v,
                forall|j: int|
                    old_len <= j < self.entries.len() ==> exists|m: int|
                        0 <= m < i && #[trigger] self.entries.deep_view()[j].path == child_path(
                            d_v,
                            kids[m],
                        ),
                forall|k: int|
                    pending0.len() <= k < self.pending.len() ==> exists|m: int|
                        0 <= m < i && #[trigger] self.pending.deep_view()[k] == child_path(
                            d_v,
                            kids[m],
                        ),
                // the remainder equations that give the exact result
                self.entries.deep_view() + accepted_children(rules_v, root_v, d_v, kids.skip(i as int))
                    == entries0 + accepted_children(rules_v, root_v, d_v, kids),
                self.pending.deep_view() + accepted_dirs(rules_v, root_v, d_v, kids.skip(i as int))
                    == pending0 + accepted_dirs(rules_v, root_v, d_v, kids),
                // global soundness
                walk_ok(root_v, rules_v, self.entries.deep_view()),
                forall|k: int, l: int|
                    0 <= k < l < self.pending.len() ==> self.pending.deep_view()[k]
                        != self.pending.deep_view()[l],
                forall|k: int| 0 <= k < self.pending.len() ==> #[trigger] self.pending_known(k),
                forall|e: int| 0 <= e < self.entries.len() ==> #[trigger] self.parent_scheduled(e),
            decreases n - i,
        {
            let child = &children[i];
            proof {
                assert(kids[i as int] == children@[i as int].deep_view());
                assert(child.name@ == kids[i as int].name);
            }
            let path = join_path(cur.as_str(), child.name.as_str());
            proof {
                assert(child_name_ok(kids[i as int]));
                lemma_join_parts(d_v, kids[i as int].name);
                assert(path@ == child_path(d_v, kids[i as int]));
                assert(path@.len() == d_v.len() + 1 + kids[i as int].name.len());
            }
            let plen = path.as_str().unicode_len();
            let rel = path.as_str().substring_char(rootlen + 1, plen);
            proof {
                assert(rel@ == rel_of(root_v, path@));
            }
            let excl = self.rules.is_excluded(child.name.as_str(), rel, child.is_dir);
            proof {
                assert(kids.skip(i as int)[0] == kids[i as int]);
                assert(kids.skip(i as int).drop_first() =~= kids.skip(i as int + 1));
            }
            if !excl {
                let ghost w0 = *self;
                let ghost entries_before = self.entries.deep_view();
                let ghost pending_before = self.pending.deep_view();
                let new_entry = WalkEntry { path: path.clone(), is_dir: child.is_dir };
                proof {
                    let p = path@;
                    let ghost newv = EntryV { path: p, is_dir: kids[i as int].is_dir };
                    // the new path collides with nothing recorded
                    assert forall|j: int| 0 <= j < entries_before.len() implies
                        entries_before[j].path != p by {
                        if j < old_len {
                            assert(entries_before[j] == entries0[j]);
                            assert(parent_of(entries_before[j].path) != d_v);
                        } else {
                            let m = choose|m: int|
                                0 <= m < i && entries_before[j].path == child_path(d_v, kids[m]);
                            lemma_join_parts(d_v, kids[m].name);
                            if entries_before[j].path == p {
                                assert(base_of(child_path(d_v, kids[m])) == kids[m].name);
                                assert(kids[m].name == kids[i as int].name);
                            }
                        }
                    }
                }
                self.entries.push(new_entry);
                proof {
                    let p = path@;
                    let le = self.entries.deep_view().len() - 1;
                    assert(self.entries.deep_view() =~~= entries_before + seq![
                        EntryV { path: p, is_dir: kids[i as int].is_dir },
                    ]);
                    // entry_ok for the new entry
                    assert(p.len() > root_v.len() + 1);
                    assert(p.take(root_v.len() as int) =~= root_v);
                    assert(p[root_v.len() as int] == '/');
                    assert(base_of(p) == kids[i as int].name);
                    // parent link for the new entry
                    if d_v != root_v {
                        assert(w0.pending_known(w0.next_idx - 1));
                        assert(w0.pending.deep_view()[w0.next_idx - 1] == d_v);
                        assert(has_dir_entry(entries_before, d_v));
                        assert(parent_linked(root_v, self.entries.deep_view(), le)) by {
                            let j = choose|j: int|
                                0 <= j < entries_before.len() && entries_before[j].path == d_v
                                    && entries_before[j].is_dir;
                            assert(self.entries.deep_view()[j].path == parent_of(
                                self.entries.deep_view()[le].path,
                            ));
                        }
                    } else {
                        assert(parent_linked(root_v, self.entries.deep_view(), le));
                    }
                    // soundness of the grown sequence
                    assert forall|x: int| 0 <= x < self.entries.deep_view().len() implies entry_ok(
                        root_v,
                        rules_v,
                        #[trigger] self.entries.deep_view()[x],
                    ) by {
                        if x < le {
                            assert(self.entries.deep_view()[x] == entries_before[x]);
                        }
                    }
                    assert forall|x: int| 0 <= x < self.entries.deep_view().len() implies
                        #[trigger] parent_linked(root_v, self.entries.deep_view(), x) by {
                        if x < le {
                            assert(parent_linked(root_v, entries_before, x));
                            if parent_of(entries_before[x].path) != root_v {
                                let j = choose|j: int|
                                    0 <= j < x && entries_before[j].path == parent_of(
                                        entries_before[x].path,
                                    ) && entries_before[j].is_dir;
                                assert(self.entries.deep_view()[j] == entries_before[j]);
                            }
                        }
                    }
                    assert forall|e: int| 0 <= e < self.entries.len() implies
                        #[trigger] self.parent_scheduled(e) by {
                        if e < le {
                            assert(w0.parent_scheduled(e));
                            let k = choose|k: int|
                                0 <= k < w0.next_idx && parent_of(w0.entries.deep_view()[e].path)
                                    == w0.pending.deep_view()[k];
                            assert(0 <= k < self.next_idx && parent_of(
                                self.entries.deep_view()[e].path,
                            ) == self.pending.deep_view()[k]);
                        } else {
                            assert(parent_of(self.entries.deep_view()[e].path)
                                == self.pending.deep_view()[self.next_idx - 1]);
                        }
                    }
                    assert forall|k: int| 0 <= k < self.pending.len() implies
                        #[trigger] self.pending_known(k) by {
                        assert(w0.pending_known(k));
                        if w0.pending.deep_view()[k] != w0.root@ {
                            let j = choose|j: int|
                                0 <= j < w0.entries.deep_view().len()
                                    && w0.entries.deep_view()[j].path == w0.pending.deep_view()[k]
                                    && w0.entries.deep_view()[j].is_dir;
                            assert(self.entries.deep_view()[j] == w0.entries.deep_view()[j]);
                            assert(has_dir_entry(self.entries.deep_view(),
                                self.pending.deep_view()[k]));
                        }
                    }
                }
                if child.is_dir {
                    let ghost w1 = *self;
                    let ghost pending_before2 = self.pending.deep_view();
                    proof {
                        let p = path@;
                        assert forall|k: int| 0 <= k < pending_before2.len() implies
                            pending_before2[k] != p by {
                            if k < pending0.len() {
                                if pending0[k] == root_v {
                                    assert(p.len() > root_v.len());
                                } else {
                                    let j = choose|j: int|
                                        0 <= j < entries0.len() && entries0[j].path == pending0[k]
                                            && entries0[j].is_dir;
                                    assert(parent_of(entries0[j].path) != d_v);
                                    lemma_join_parts(d_v, kids[i as int].name);
                                }
                            } else {
                                let m = choose|m: int|
                                    0 <= m < i && pending_before2[k] == child_path(d_v, kids[m]);
                                lemma_join_parts(d_v, kids[m].name);
                                if pending_before2[k] == p {
                                    assert(base_of(child_path(d_v, kids[m])) == kids[m].name);
                                    assert(kids[m].name == kids[i as int].name);
                                }
                            }
                        }
                    }
                    self.pending.push(path);
                    proof {
                        assert(self.pending.deep_view() =~~= pending_before2 + seq![path@]);
                        assert forall|k: int| 0 <= k < self.pending.len() implies
                            #[trigger] self.pending_known(k) by {
                            if k < pending_before2.len() {
                                assert(w1.pending_known(k));
                                assert(self.pending.deep_view()[k] == w1.pending.deep_view()[k]);
                            } else {
                                assert(self.pending.deep_view()[k] == path@);
                                assert(self.entries.deep_view()[self.entries.len() - 1].path
                                    == path@);
                                assert(has_dir_entry(self.entries.deep_view(), path@));
                            }
                        }
                        assert forall|e: int| 0 <= e < self.entries.len() implies
                            #[trigger] self.parent_scheduled(e) by {
                            assert(w1.parent_scheduled(e));
                            let k = choose|k: int|
                                0 <= k < w1.next_idx && parent_of(w1.entries.deep_view()[e].path)
                                    == w1.pending.deep_view()[k];
                            assert(self.pending.deep_view()[k] == w1.pending.deep_view()[k]);
                            assert(0 <= k < self.next_idx && parent_of(
                                self.entries.deep_view()[e].path,
                            ) == self.pending.deep_view()[k]);
                        }
                    }
                } else {
                    proof {
                        assert(self.pending.deep_view() + accepted_dirs(rules_v, root_v, d_v,
                            kids.skip(i as int)) == pending0 + accepted_dirs(rules_v, root_v, d_v,
                            kids));
                    }
                }
                proof {
                    assert(self.entries.deep_view() + accepted_children(rules_v, root_v, d_v,
                        kids.skip(i as int + 1)) =~~= entries0 + accepted_children(rules_v, root_v,
                        d_v, kids));
                    assert(self.pending.deep_view() + accepted_dirs(rules_v, root_v, d_v,
                        kids.skip(i as int + 1)) =~~= pending0 + accepted_dirs(rules_v, root_v, d_v,
                        kids));
                }
            } else {
                proof {
                    assert(self.entries.deep_view() + accepted_children(rules_v, root_v, d_v,
                        kids.skip(i as int + 1)) =~~= entries0 + accepted_children(rules_v, root_v,
                        d_v, kids));
                    assert(self.pending.deep_view() + accepted_dirs(rules_v, root_v, d_v,
                        kids.skip(i as int + 1)) =~~= pending0 + accepted_dirs(rules_v, root_v, d_v,
                        kids));
                }
            }
            i += 1;
        }
        proof {
            assert(kids.skip(n as int).len() == 0);
            assert(self.entries.deep_view() =~~= entries0 + accepted_children(rules_v, root_v, d_v,
                kids));
            assert(self.pending.deep_view() =~~= pending0 + accepted_dirs(rules_v, root_v, d_v,
                kids));
        }
    }

    /// True while a listing is owed to the walker.
    pub fn needs_listing(&self) -> (r: bool)
        ensures
            r == (self.current is Some),
    {
        match &self.current {
            Option::Some(_) => true,
            Option::None => false,
        }
    }

    /// The entries recorded so far, in discovery order.
    pub fn entries(&self) -> (r: &Vec<WalkEntry>)
        ensures
            r == self.entries,
    {
        &self.entries
    }

    /// True when the walk is complete: nothing is scheduled and no
    /// listing is owed.
    pub fn done(&self) -> (r: bool)
        ensures
            r == (self.next_idx == self.pending.len() && self.current is None),
    {
        self.next_idx == self.pending.len() && match &self.current {
            Option::Some(_) => false,
            Option::None => true,
        }
    }
}

} // verus!
