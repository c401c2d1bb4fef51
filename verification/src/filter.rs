//! The ignore-pattern filter: a merged rule set of built-in defaults and
//! user-supplied comma-separated patterns, and the decision whether a
//! traversal candidate is excluded.
//!
//! Three pattern kinds are distinguished: a pattern ending in `/` matches
//! directories by name; a pattern with a wildcard is glob-matched against
//! the final path segment; any other pattern must equal the name or the
//! path relative to the walk root. Hidden entries (names starting with a
//! dot) are excluded independently of the rule set.

use vstd::prelude::*;
use vstd::string::*;
use crate::glob::{glob_match, glob_matches, has_wildcard, spec_has_wildcard};
use crate::text::{
    first_index_of, lemma_first_index_at, lemma_first_index_none, lemma_first_index_range, str_eq,
    trim, trimmed,
};

verus! {

/// A name is hidden when it starts with a dot.
pub open spec fn is_hidden(name: Seq<char>) -> bool {
    name.len() > 0 && name[0] == '.'
}

/// Whether one pattern excludes a candidate with final segment `name`,
/// root-relative path `rel`, and kind `is_dir`.
pub open spec fn pattern_excludes(pat: Seq<char>, name: Seq<char>, rel: Seq<char>, is_dir: bool) -> bool {
    if pat.len() > 0 && pat.last() == '/' {
        is_dir && pat.drop_last() == name
    } else if spec_has_wildcard(pat) {
        glob_matches(pat, name)
    } else {
        pat == name || pat == rel
    }
}

/// Whether any rule in the set excludes the candidate.
pub open spec fn excluded_by(rules: Seq<Seq<char>>, name: Seq<char>, rel: Seq<char>, is_dir: bool) -> bool {
    exists|i: int| 0 <= i < rules.len() && pattern_excludes(rules[i], name, rel, is_dir)
}

/// The full exclusion decision: hidden, or matched by some rule.
pub open spec fn entry_excluded(rules: Seq<Seq<char>>, name: Seq<char>, rel: Seq<char>, is_dir: bool) -> bool {
    is_hidden(name) || excluded_by(rules, name, rel, is_dir)
}

/// Appending rules only ever excludes more: a candidate excluded under a
/// rule set stays excluded when further rules are appended. Since user
/// patterns are appended to the defaults, they can only shrink the set
/// of discovered entries, never grow it.
pub proof fn lemma_more_rules_exclude_more(
    base: Seq<Seq<char>>,
    extra: Seq<Seq<char>>,
    name: Seq<char>,
    rel: Seq<char>,
    is_dir: bool,
)
    ensures
        entry_excluded(base, name, rel, is_dir) ==> entry_excluded(
            base + extra,
            name,
            rel,
            is_dir,
        ),
{
    if excluded_by(base, name, rel, is_dir) {
        let i = choose|i: int| 0 <= i < base.len() && pattern_excludes(base[i], name, rel, is_dir);
        assert((base + extra)[i] == base[i]);
        assert(pattern_excludes((base + extra)[i], name, rel, is_dir));
    }
}

/// The comma-separated pieces of `s`, in order, commas removed.
pub open spec fn split_commas(s: Seq<char>) -> Seq<Seq<char>>
    decreases s.len(),
    via split_commas_decreases
{
    let i = first_index_of(s, ',');
    if i < 0 {
        seq![s]
    } else {
        seq![s.take(i)] + split_commas(s.skip(i + 1))
    }
}

#[via_fn]
proof fn split_commas_decreases(s: Seq<char>) {
    lemma_first_index_range(s, ',');
}

/// The rule sequence contributed by an optional user pattern string:
/// its comma-separated pieces, each trimmed.
pub open spec fn user_rules(user: Option<Seq<char>>) -> Seq<Seq<char>> {
    match user {
        Option::None => Seq::empty(),
        Option::Some(s) => split_commas(s).map_values(|p: Seq<char>| trimmed(p)),
    }
}

/// The built-in default ignore rules, as character sequences: output and
/// cache directories of this tool, build directories, dependency
/// directories, editor metadata, logs and caches, compiled artifacts,
/// package-manager lock files, large media, archives, databases, and
/// secrets.
pub open spec fn default_rules() -> Seq<Seq<char>> {
    seq![
        "jockey-img/"@, "jockey-img"@, ".jockey/"@, ".jockey-cache/"@,
        "target/"@, "build/"@, "dist/"@, "out/"@,
        "node_modules/"@, "vendor/"@, "packages/"@, "bower_components/"@,
        ".idea/"@, ".vscode/"@, "*.iml"@, ".project"@, ".classpath"@,
        "*.log"@, "logs/"@, ".cache/"@, "tmp/"@, "temp/"@,
        "*.exe"@, "*.dll"@, "*.so"@, "*.dylib"@, "*.class"@, "*.o"@, "*.obj"@,
        "package-lock.json"@, "yarn.lock"@, "Cargo.lock"@, "Gemfile.lock"@,
        "*.mp4"@, "*.mov"@, "*.avi"@, "*.mkv"@, "*.mp3"@, "*.wav"@,
        "*.iso"@, "*.dmg"@, "*.tar"@, "*.gz"@, "*.zip"@, "*.rar"@,
        "*.db"@, "*.sqlite"@, "*.sqlite3"@,
        ".env"@, ".env.*"@, "*.pem"@, "*.key"@,
    ]
}

/// Builds the default ignore patterns as owned strings.
pub fn default_patterns() -> (r: Vec<String>)
    ensures
        r.deep_view() == default_rules(),
{
    let mut v: Vec<String> = Vec::new();
    v.push(crate::text::str_to_string("jockey-img/"));
    v.push(crate::text::str_to_string("jockey-img"));
    v.push(crate::text::str_to_string(".jockey/"));
    v.push(crate::text::str_to_string(".jockey-cache/"));
    v.push(crate::text::str_to_string("target/"));
    v.push(crate::text::str_to_string("build/"));
    v.push(crate::text::str_to_string("dist/"));
    v.push(crate::text::str_to_string("out/"));
    v.push(crate::text::str_to_string("node_modules/"));
    v.push(crate::text::str_to_string("vendor/"));
    v.push(crate::text::str_to_string("packages/"));
    v.push(crate::text::str_to_string("bower_components/"));
    v.push(crate::text::str_to_string(".idea/"));
    v.push(crate::text::str_to_string(".vscode/"));
    v.push(crate::text::str_to_string("*.iml"));
    v.push(crate::text::str_to_string(".project"));
    v.push(crate::text::str_to_string(".classpath"));
    v.push(crate::text::str_to_string("*.log"));
    v.push(crate::text::str_to_string("logs/"));
    v.push(crate::text::str_to_string(".cache/"));
    v.push(crate::text::str_to_string("tmp/"));
    v.push(crate::text::str_to_string("temp/"));
    v.push(crate::text::str_to_string("*.exe"));
    v.push(crate::text::str_to_string("*.dll"));
    v.push(crate::text::str_to_string("*.so"));
    v.push(crate::text::str_to_string("*.dylib"));
    v.push(crate::text::str_to_string("*.class"));
    v.push(crate::text::str_to_string("*.o"));
    v.push(crate::text::str_to_string("*.obj"));
    v.push(crate::text::str_to_string("package-lock.json"));
    v.push(crate::text::str_to_string("yarn.lock"));
    v.push(crate::text::str_to_string("Cargo.lock"));
    v.push(crate::text::str_to_string("Gemfile.lock"));
    v.push(crate::text::str_to_string("*.mp4"));
    v.push(crate::text::str_to_string("*.mov"));
    v.push(crate::text::str_to_string("*.avi"));
    v.push(crate::text::str_to_string("*.mkv"));
    v.push(crate::text::str_to_string("*.mp3"));
    v.push(crate::text::str_to_string("*.wav"));
    v.push(crate::text::str_to_string("*.iso"));
    v.push(crate::text::str_to_string("*.dmg"));
    v.push(crate::text::str_to_string("*.tar"));
    v.push(crate::text::str_to_string("*.gz"));
    v.push(crate::text::str_to_string("*.zip"));
    v.push(crate::text::str_to_string("*.rar"));
    v.push(crate::text::str_to_string("*.db"));
    v.push(crate::text::str_to_string("*.sqlite"));
    v.push(crate::text::str_to_string("*.sqlite3"));
    v.push(crate::text::str_to_string(".env"));
    v.push(crate::text::str_to_string(".env.*"));
    v.push(crate::text::str_to_string("*.pem"));
    v.push(crate::text::str_to_string("*.key"));
    proof {
        assert(v.deep_view() =~~= default_rules());
    }
    v
}

/// An ordered set of exclusion rules: built-in defaults followed by the
/// user's patterns. User patterns are additive; they never replace the
/// defaults.
pub struct IgnoreRuleSet {
    pub patterns: Vec<String>,
}

impl View for IgnoreRuleSet {
    type V = Seq<Seq<char>>;

    open spec fn view(&self) -> Seq<Seq<char>> {
        self.patterns.deep_view()
    }
}

impl IgnoreRuleSet {
    /// Builds the merged rule set from the defaults and an optional
    /// comma-separated user pattern string.
    pub fn new(user: Option<&String>) -> (r: IgnoreRuleSet)
        ensures
            r@ == default_rules() + user_rules(match user {
                Option::Some(u) => Option::Some(u@),
                Option::None => Option::None,
            }),
    {
        let mut patterns = default_patterns();
        let ghost dflt = patterns.deep_view();
        match user {
            Option::None => {
                proof {
                    assert(dflt + user_rules(Option::None) =~~= dflt);
                }
                IgnoreRuleSet { patterns }
            },
            Option::Some(u) => {
                let len = u.as_str().unicode_len();
                let mut start: usize = 0;
                proof {
                    assert(u@.skip(0) =~= u@);
                }
                loop
                    invariant_except_break
                        start <= len,
                        len == u@.len(),
                        patterns.deep_view() + split_commas(u@.skip(start as int)).map_values(
                            |p: Seq<char>| trimmed(p),
                        ) =~~= dflt + split_commas(u@).map_values(|p: Seq<char>| trimmed(p)),
                    ensures
                        patterns.deep_view() =~~= dflt + split_commas(u@).map_values(
                            |p: Seq<char>| trimmed(p),
                        ),
                    decreases len - start,
                {
                    let mut j = start;
                    while j < len
                        invariant_except_break
                            start <= j <= len,
                            len == u@.len(),
                            forall|k: int| start <= k < j ==> u@[k] != ',',
                        ensures
                            start <= j <= len,
                            forall|k: int| start <= k < j ==> u@[k] != ',',
                            j < len ==> u@[j as int] == ',',
                        decreases len - j,
                    {
                        if u.as_str().get_char(j) == ',' {
                            break;
                        }
                        j += 1;
                    }
                    let piece = u.as_str().substring_char(start, j);
                    let part = trim(piece);
                    proof {
                        let rem = u@.skip(start as int);
                        assert(forall|k: int| 0 <= k < j - start ==> rem[k] == u@[start + k]);
                        if j < len {
                            assert(rem[j - start] == u@[j as int]);
                            lemma_first_index_at(rem, ',', j - start);
                            assert(rem.take(j - start) =~= u@.subrange(start as int, j as int));
                            assert(rem.skip(j - start + 1) =~= u@.skip(j + 1));
                        } else {
                            lemma_first_index_none(rem, ',');
                            assert(rem =~= u@.subrange(start as int, j as int));
                        }
                    }
                    patterns.push(part);
                    if j == len {
                        proof {
                            let rem = u@.skip(start as int);
                            assert(split_commas(rem) =~~= seq![u@.subrange(start as int, j as int)]);
                            assert(patterns.deep_view() =~~= dflt + split_commas(u@).map_values(
                                |p: Seq<char>| trimmed(p),
                            ));
                        }
                        break;
                    }
                    start = j + 1;
                }
                IgnoreRuleSet { patterns }
            },
        }
    }

    /// Decides whether a candidate is excluded: hidden, or matched by any
    /// rule in the set.
    pub fn is_excluded(&self, name: &str, rel: &str, is_dir: bool) -> (r: bool)
        ensures
            r == entry_excluded(self@, name@, rel@, is_dir),
    {
        if name.unicode_len() > 0 && name.get_char(0) == '.' {
            return true;
        }
        let n = self.patterns.len();
        let mut i: usize = 0;
        while i < n
            invariant
                i <= n,
                n == self.patterns@.len(),
                forall|k: int| 0 <= k < i ==> !pattern_excludes(self@[k], name@, rel@, is_dir),
            decreases n - i,
        {
            let pat: &String = &self.patterns[i];
            proof {
                assert(self@[i as int] == pat@);
            }
            let plen = pat.as_str().unicode_len();
            let matched: bool;
            if plen > 0 && pat.as_str().get_char(plen - 1) == '/' {
                let stem = pat.as_str().substring_char(0, plen - 1);
                proof {
                    assert(stem@ =~= pat@.drop_last());
                }
                matched = is_dir && str_eq(stem, name);
            } else if has_wildcard(pat.as_str()) {
                matched = glob_match(pat.as_str(), name);
            } else {
                matched = str_eq(pat.as_str(), name) || str_eq(pat.as_str(), rel);
            }
            if matched {
                assert(pattern_excludes(self@[i as int], name@, rel@, is_dir));
                return true;
            }
            i += 1;
        }
        proof {
            if excluded_by(self@, name@, rel@, is_dir) {
                let w = choose|w: int|
                    0 <= w < self@.len() && pattern_excludes(self@[w], name@, rel@, is_dir);
            }
        }
        false
    }
}

} // verus!
