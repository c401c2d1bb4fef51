//! Hierarchy reconstruction and ASCII-art rendering.
//!
//! The flat, parent-before-child entry list produced by the walk is
//! turned back into a rooted tree by looking each entry's parent up by
//! path, and the tree is rendered depth-first: every child line carries
//! its indent continuation and then its connector, the last sibling
//! getting the terminal connector and a blank continuation, every other
//! sibling the branch connector and a bar continuation. The root is
//! rendered bare. Rendering is a function of the tree alone, so a fixed
//! walk result always renders to byte-identical text.

use vstd::prelude::*;
use vstd::string::*;
use crate::paths::{base_of, node_name_of, parent_of};
use crate::text::str_eq;
use crate::walker::{EntryV, WalkEntry};

verus! {

broadcast use vstd::std_specs::vec::group_vec_axioms;

/// A directory tree as a mathematical value: a name and ordered subtrees.
#[verifier::ext_equal]
pub struct TreeNodeV {
    pub name: Seq<char>,
    pub children: Seq<TreeNodeV>,
}

/// One node of the tree being assembled: a display name and its children
/// in insertion order.
pub struct TreeBuilder {
    pub name: String,
    pub children: Vec<TreeBuilder>,
}

/// The mathematical tree that a builder stands for.
pub open spec fn node_view(t: TreeBuilder) -> TreeNodeV
    decreases t,
{
    TreeNodeV { name: t.name@, children: kids_view(t.children@) }
}

/// The mathematical trees of a builder sequence, in order.
pub open spec fn kids_view(s: Seq<TreeBuilder>) -> Seq<TreeNodeV>
    decreases s,
{
    if s.len() == 0 {
        Seq::empty()
    } else {
        seq![node_view(s[0])] + kids_view(s.drop_first())
    }
}

pub proof fn lemma_kids_view_len(s: Seq<TreeBuilder>)
    ensures
        kids_view(s).len() == s.len(),
    decreases s,
{
    if s.len() > 0 {
        lemma_kids_view_len(s.drop_first());
    }
}

pub proof fn lemma_kids_view_index(s: Seq<TreeBuilder>, i: int)
    requires
        0 <= i < s.len(),
    ensures
        kids_view(s).len() == s.len(),
        kids_view(s)[i] == node_view(s[i]),
    decreases s,
{
    lemma_kids_view_len(s);
    if i > 0 {
        lemma_kids_view_index(s.drop_first(), i - 1);
    }
}

pub proof fn lemma_kids_view_push(s: Seq<TreeBuilder>, x: TreeBuilder)
    ensures
        kids_view(s.push(x)) == kids_view(s).push(node_view(x)),
    decreases s,
{
    if s.len() == 0 {
        assert(s.push(x)[0] == x);
        assert(s.push(x).drop_first() =~= Seq::<TreeBuilder>::empty());
        assert(kids_view(Seq::<TreeBuilder>::empty()) == Seq::<TreeNodeV>::empty());
        assert(kids_view(s.push(x)) =~= kids_view(s).push(node_view(x)));
    } else {
        assert(s.push(x)[0] == s[0]);
        assert(s.push(x).drop_first() =~= s.drop_first().push(x));
        lemma_kids_view_push(s.drop_first(), x);
        assert(kids_view(s.push(x)) =~= kids_view(s).push(node_view(x)));
    }
}

/// The branch connector placed before a non-last sibling's name.
pub open spec fn tee_glyph() -> Seq<char> {
    seq!['\u{251c}', '\u{2500}', '\u{2500}', ' ']
}

/// The terminal connector placed before a last sibling's name.
pub open spec fn elbow_glyph() -> Seq<char> {
    seq!['\u{2514}', '\u{2500}', '\u{2500}', ' ']
}

/// The indent continuation under a non-last sibling.
pub open spec fn bar_glyph() -> Seq<char> {
    seq!['\u{2502}', ' ', ' ', ' ']
}

/// The indent continuation under a last sibling.
pub open spec fn blank_glyph() -> Seq<char> {
    seq![' ', ' ', ' ', ' ']
}

/// One node's rendering: its line, then its children's renderings.
pub open spec fn render_node(t: TreeNodeV, prefix: Seq<char>, connector: Seq<char>) -> Seq<char>
    decreases t,
{
    prefix + connector + t.name + seq!['\n'] + render_kids(t.children, prefix)
}

/// A sibling run's rendering: each child extends the prefix with a
/// continuation and gets a connector, the last one differently.
pub open spec fn render_kids(cs: Seq<TreeNodeV>, prefix: Seq<char>) -> Seq<char>
    decreases cs,
{
    if cs.len() == 0 {
        Seq::empty()
    } else if cs.len() == 1 {
        render_node(cs[0], prefix + blank_glyph(), elbow_glyph())
    } else {
        render_node(cs[0], prefix + bar_glyph(), tee_glyph()) + render_kids(cs.drop_first(), prefix)
    }
}

/// The subtrees, in entry order, of the children of the node with path
/// `p`, looking only at entries from position `from` on.
pub open spec fn forest(entries: Seq<EntryV>, p: Seq<char>, from: int) -> Seq<TreeNodeV>
    decreases entries.len() - from, 1int,
{
    if from < 0 || from >= entries.len() {
        Seq::empty()
    } else if parent_of(entries[from].path) == p {
        seq![subtree(entries, from)] + forest(entries, p, from + 1)
    } else {
        forest(entries, p, from + 1)
    }
}

/// The tree rooted at entry `i`: its base name, and as children the
/// subtrees of the later entries whose parent path is entry `i`'s path.
pub open spec fn subtree(entries: Seq<EntryV>, i: int) -> TreeNodeV
    decreases entries.len() - i, 0int,
{
    if 0 <= i < entries.len() {
        TreeNodeV {
            name: base_of(entries[i].path),
            children: forest(entries, entries[i].path, i + 1),
        }
    } else {
        TreeNodeV { name: Seq::empty(), children: Seq::empty() }
    }
}

/// The whole reconstructed tree: the root's display name over the
/// subtrees of the entries attached directly beneath the root path.
pub open spec fn assembled_tree(root: Seq<char>, entries: Seq<EntryV>) -> TreeNodeV {
    TreeNodeV { name: node_name_of(root), children: forest(entries, root, 0) }
}

/// The paths of the file entries, in discovery order.
pub open spec fn file_paths(entries: Seq<EntryV>) -> Seq<Seq<char>>
    decreases entries.len(),
{
    if entries.len() == 0 {
        Seq::empty()
    } else if entries[0].is_dir {
        file_paths(entries.drop_first())
    } else {
        seq![entries[0].path] + file_paths(entries.drop_first())
    }
}

/// Rendering is deterministic: a tree's text is a function of the tree
/// alone, so rendering the same tree twice gives byte-identical results.
pub proof fn lemma_render_deterministic(t: TreeNodeV, r1: Seq<char>, r2: Seq<char>)
    requires
        r1 == render_node(t, Seq::<char>::empty(), Seq::<char>::empty()),
        r2 == render_node(t, Seq::<char>::empty(), Seq::<char>::empty()),
    ensures
        r1 == r2,
{
}

/// Builds, scanning from position `from` on, the builders of the
/// children of the node whose path is `p`, in entry order.
fn forest_exec(entries: &Vec<WalkEntry>, p: &str, from: usize) -> (r: Vec<TreeBuilder>)
    requires
        from <= entries@.len(),
    ensures
        kids_view(r@) == forest(entries.deep_view(), p@, from as int),
    decreases entries@.len() - from,
{
    let mut acc: Vec<TreeBuilder> = Vec::new();
    let n = entries.len();
    let ghost es = entries.deep_view();
    proof {
        assert(kids_view(acc@) =~= Seq::<TreeNodeV>::empty());
    }
    let mut j = from;
    while j < n
        invariant
            from <= j <= n,
            n == entries@.len(),
            es == entries.deep_view(),
            es.len() == n,
            kids_view(acc@) + forest(es, p@, j as int) == forest(es, p@, from as int),
        decreases n - j,
    {
        let entry = &entries[j];
        proof {
            assert(es[j as int] == entries@[j as int].deep_view());
        }
        let matches: bool;
        match crate::paths::parent_dir(entry.path.as_str()) {
            Option::Some(d) => {
                matches = str_eq(d.as_str(), p);
            },
            Option::None => {
                matches = p.unicode_len() == 0;
                proof {
                    assert(parent_of(es[j as int].path) =~= Seq::<char>::empty());
                    if p@.len() == 0 {
                        assert(p@ =~= Seq::<char>::empty());
                    }
                }
            },
        }
        proof {
            assert(matches == (parent_of(es[j as int].path) == p@));
        }
        if matches {
            let name = crate::paths::basename(entry.path.as_str());
            let kids = forest_exec(entries, entry.path.as_str(), j + 1);
            let node = TreeBuilder { name, children: kids };
            let ghost acc0 = acc@;
            proof {
                assert(node_view(node) == subtree(es, j as int));
                lemma_kids_view_push(acc0, node);
                assert(forest(es, p@, j as int) == seq![subtree(es, j as int)] + forest(
                    es,
                    p@,
                    j as int + 1,
                ));
            }
            acc.push(node);
            proof {
                assert(kids_view(acc@) + forest(es, p@, j as int + 1) =~= kids_view(acc0)
                    + forest(es, p@, j as int));
            }
        } else {
            proof {
                assert(forest(es, p@, j as int) == forest(es, p@, j as int + 1));
            }
        }
        j += 1;
    }
    proof {
        assert(forest(es, p@, n as int) =~= Seq::<TreeNodeV>::empty());
        assert(kids_view(acc@) =~= kids_view(acc@) + forest(es, p@, n as int));
    }
    acc
}

impl TreeBuilder {
    /// Reconstructs the hierarchy from a flat, parent-before-child walk
    /// result, renders it as ASCII art, and returns the file paths in
    /// discovery order.
    pub fn process_directory(root: &str, entries: &Vec<WalkEntry>) -> (r: (String, Vec<String>))
        ensures
            r.0@ == render_node(
                assembled_tree(root@, entries.deep_view()),
                Seq::<char>::empty(),
                Seq::<char>::empty(),
            ),
            r.1.deep_view() == file_paths(entries.deep_view()),
    {
        let ghost es = entries.deep_view();
        let kids = forest_exec(entries, root, 0);
        let root_node = TreeBuilder { name: crate::paths::node_name(root), children: kids };
        proof {
            assert(node_view(root_node) == assembled_tree(root@, es));
        }
        let tree_text = root_node.build();
        let mut files: Vec<String> = Vec::new();
        let n = entries.len();
        let mut i: usize = 0;
        proof {
            assert(es.skip(0) =~= es);
            assert(files.deep_view() =~= Seq::<Seq<char>>::empty());
        }
        while i < n
            invariant
                i <= n,
                n == entries@.len(),
                es == entries.deep_view(),
                es.len() == n,
                files.deep_view() + file_paths(es.skip(i as int)) == file_paths(es),
            decreases n - i,
        {
            let entry = &entries[i];
            proof {
                assert(es[i as int] == entries@[i as int].deep_view());
                assert(es.skip(i as int)[0] == es[i as int]);
                assert(es.skip(i as int).drop_first() =~= es.skip(i as int + 1));
            }
            if !entry.is_dir {
                let ghost files0 = files.deep_view();
                files.push(entry.path.clone());
                proof {
                    assert(files.deep_view() =~~= files0 + seq![es[i as int].path]);
                    assert(files.deep_view() + file_paths(es.skip(i as int + 1)) =~~= file_paths(
                        es,
                    ));
                }
            } else {
                proof {
                    assert(files.deep_view() + file_paths(es.skip(i as int + 1)) =~~= file_paths(
                        es,
                    ));
                }
            }
            i += 1;
        }
        proof {
            assert(file_paths(es.skip(n as int)) =~= Seq::<Seq<char>>::empty());
            assert(files.deep_view() =~~= file_paths(es));
        }
        (tree_text, files)
    }

    /// A leaf node named by the final real segment of `path`; see
    /// [`node_name_of`] for the trailing-separator and dot-segment edge
    /// cases.
    pub fn new(path: &str) -> (r: TreeBuilder)
        ensures
            node_view(r) == (TreeNodeV {
                name: node_name_of(path@),
                children: Seq::<TreeNodeV>::empty(),
            }),
    {
        let r = TreeBuilder { name: crate::paths::node_name(path), children: Vec::new() };
        proof {
            assert(r.children@ =~= Seq::<TreeBuilder>::empty());
        }
        r
    }

    /// Appends one child, keeping the insertion order.
    pub fn add_child(&mut self, child: TreeBuilder)
        ensures
            final(self).name == old(self).name,
            final(self).children@ == old(self).children@.push(child),
            node_view(*final(self)) == (TreeNodeV {
                name: node_view(*old(self)).name,
                children: node_view(*old(self)).children.push(node_view(child)),
            }),
    {
        proof {
            lemma_kids_view_push(self.children@, child);
        }
        self.children.push(child);
    }

    /// Renders this node as the tree root: no prefix, no connector.
    pub fn build(&self) -> (r: String)
        ensures
            r@ == render_node(node_view(*self), Seq::<char>::empty(), Seq::<char>::empty()),
    {
        let mut result = String::new();
        self.build_internal(&mut result, "", "");
        proof {
            reveal_strlit("");
            assert(""@ =~= Seq::<char>::empty());
            assert(result@ =~= render_node(node_view(*self), Seq::<char>::empty(), Seq::<char>::empty()));
        }
        result
    }

    /// Appends this node's rendering, under the given indent prefix and
    /// connector, to `result`.
    fn build_internal(&self, result: &mut String, prefix: &str, connector: &str)
        ensures
            final(result)@ == old(result)@ + render_node(node_view(*self), prefix@, connector@),
        decreases *self,
    {
        result.append(prefix);
        result.append(connector);
        result.append(self.name.as_str());
        result.push('\n');
        let ghost res0 = result@;
        let ghost kv = kids_view(self.children@);
        proof {
            lemma_kids_view_len(self.children@);
            assert(res0 =~= old(result)@ + (prefix@ + connector@ + self.name@ + seq!['\n']));
            assert(kv.skip(0) =~= kv);
        }
        let n = self.children.len();
        let mut i: usize = 0;
        while i < n
            invariant
                i <= n,
                n == self.children@.len(),
                kv == kids_view(self.children@),
                kv.len() == n,
                result@ + render_kids(kv.skip(i as int), prefix@) == res0 + render_kids(kv, prefix@),
            decreases n - i,
        {
            let last = i == n - 1;
            let glyph_cont = if last {
                "    "
            } else {
                "\u{2502}   "
            };
            let glyph_conn = if last {
                "\u{2514}\u{2500}\u{2500} "
            } else {
                "\u{251c}\u{2500}\u{2500} "
            };
            let child_prefix = crate::text::concat_str(prefix, glyph_cont);
            proof {
                reveal_strlit("    ");
                reveal_strlit("\u{2502}   ");
                reveal_strlit("\u{2514}\u{2500}\u{2500} ");
                reveal_strlit("\u{251c}\u{2500}\u{2500} ");
                assert("    "@ =~= blank_glyph());
                assert("\u{2502}   "@ =~= bar_glyph());
                assert("\u{2514}\u{2500}\u{2500} "@ =~= elbow_glyph());
                assert("\u{251c}\u{2500}\u{2500} "@ =~= tee_glyph());
                lemma_kids_view_index(self.children@, i as int);
                assert(kv.skip(i as int)[0] == kv[i as int]);
                assert(kv.skip(i as int).drop_first() =~= kv.skip(i as int + 1));
            }
            let child = &self.children[i];
            child.build_internal(result, child_prefix.as_str(), glyph_conn);
            proof {
                if last {
                    assert(kv.skip(i as int).len() == 1);
                    assert(result@ + render_kids(kv.skip(i as int + 1), prefix@) =~= result@);
                    assert(result@ + render_kids(kv.skip(i as int + 1), prefix@) == res0
                        + render_kids(kv, prefix@));
                } else {
                    assert(result@ + render_kids(kv.skip(i as int + 1), prefix@) == res0
                        + render_kids(kv, prefix@));
                }
            }
            i += 1;
        }
        proof {
            assert(kv.skip(n as int).len() == 0);
            assert(render_kids(kv.skip(n as int), prefix@) =~= Seq::<char>::empty());
            assert(result@ =~= res0 + render_kids(kv, prefix@));
            assert(result@ =~= old(result)@ + render_node(node_view(*self), prefix@, connector@));
        }
    }
}

} // verus!
