//! Shell-glob matching of a pattern against a single path segment.
//!
//! A `*` matches any (possibly empty) run of characters, a `?` matches
//! exactly one character, a `[...]` class matches one character from its
//! items (single characters and `a-b` ranges, `[!...]` negated), and
//! every other character matches itself. The whole pattern must cover
//! the whole name. A malformed class — unclosed or empty — makes the
//! pattern match nothing, so one bad pattern degrades to never-matches
//! instead of failing a run.

use vstd::prelude::*;
use vstd::string::*;
use crate::text::{first_index_of, lemma_first_index_at, lemma_first_index_none,
    lemma_first_index_range};

verus! {

/// Whether `c` falls among a class body's items: single characters and
/// `a-b` ranges, by Unicode scalar order.
pub open spec fn class_matches(body: Seq<char>, c: char) -> bool
    decreases body.len(),
{
    if body.len() == 0 {
        false
    } else if body.len() >= 3 && body[1] == '-' {
        ((body[0] as u32) <= (c as u32) && (c as u32) <= (body[2] as u32)) || class_matches(
            body.skip(3),
            c,
        )
    } else {
        body[0] == c || class_matches(body.skip(1), c)
    }
}

/// What it means for the glob pattern `p` to match the name `s` in full.
pub open spec fn glob_matches(p: Seq<char>, s: Seq<char>) -> bool
    decreases p.len() + s.len(),
    via glob_matches_decreases
{
    if p.len() == 0 {
        s.len() == 0
    } else if p[0] == '*' {
        glob_matches(p.drop_first(), s) || (s.len() > 0 && glob_matches(p, s.drop_first()))
    } else if p[0] == '[' {
        let start: int = if p.len() >= 2 && p[1] == '!' {
            2
        } else {
            1
        };
        let r = first_index_of(p.skip(start), ']');
        if r <= 0 {
            false
        } else {
            let body = p.subrange(start, start + r);
            s.len() > 0 && (class_matches(body, s[0]) != (start == 2)) && glob_matches(
                p.skip(start + r + 1),
                s.drop_first(),
            )
        }
    } else if s.len() == 0 {
        false
    } else {
        (p[0] == '?' || p[0] == s[0]) && glob_matches(p.drop_first(), s.drop_first())
    }
}

#[via_fn]
proof fn glob_matches_decreases(p: Seq<char>, s: Seq<char>) {
    if p.len() > 0 && p[0] == '[' {
        let start: int = if p.len() >= 2 && p[1] == '!' {
            2
        } else {
            1
        };
        lemma_first_index_range(p.skip(start), ']');
    }
}

/// True when the pattern contains a glob wildcard.
pub open spec fn spec_has_wildcard(p: Seq<char>) -> bool {
    p.contains('*') || p.contains('?') || p.contains('[')
}

/// True when the pattern contains a glob wildcard.
pub fn has_wildcard(p: &str) -> (r: bool)
    ensures
        r == spec_has_wildcard(p@),
{
    crate::text::contains_char(p, '*') || crate::text::contains_char(p, '?')
        || crate::text::contains_char(p, '[')
}

/// Whether `c` falls among the items of the class body `p[bs..be]`.
fn class_match_range(p: &str, bs: usize, be: usize, c: char) -> (r: bool)
    requires
        bs <= be <= p@.len(),
    ensures
        r == class_matches(p@.subrange(bs as int, be as int), c),
    decreases be - bs,
{
    let ghost body = p@.subrange(bs as int, be as int);
    if bs == be {
        return false;
    }
    let c0 = p.get_char(bs);
    proof {
        assert(body[0] == p@[bs as int]);
    }
    if be - bs >= 3 && p.get_char(bs + 1) == '-' {
        proof {
            assert(body[1] == p@[bs as int + 1]);
            assert(body[2] == p@[bs as int + 2]);
            assert(body.skip(3) =~= p@.subrange(bs as int + 3, be as int));
        }
        let hi = p.get_char(bs + 2);
        if (c0 as u32) <= (c as u32) && (c as u32) <= (hi as u32) {
            true
        } else {
            class_match_range(p, bs + 3, be, c)
        }
    } else {
        proof {
            if be - bs >= 3 {
                assert(body[1] == p@[bs as int + 1]);
            }
            assert(body.skip(1) =~= p@.subrange(bs as int + 1, be as int));
        }
        if c0 == c {
            true
        } else {
            class_match_range(p, bs + 1, be, c)
        }
    }
}

/// Matches the pattern suffix starting at `pi` against the name suffix
/// starting at `si`.
fn glob_match_from(p: &str, pi: usize, s: &str, si: usize) -> (r: bool)
    requires
        pi <= p@.len(),
        si <= s@.len(),
    ensures
        r == glob_matches(p@.skip(pi as int), s@.skip(si as int)),
    decreases p@.len() - pi + s@.len() - si,
{
    let plen = p.unicode_len();
    let slen = s.unicode_len();
    if pi == plen {
        proof {
            assert(p@.skip(pi as int).len() == 0);
        }
        return si == slen;
    }
    let pc = p.get_char(pi);
    proof {
        assert(p@.skip(pi as int)[0] == p@[pi as int]);
        assert(p@.skip(pi as int).drop_first() =~= p@.skip(pi as int + 1));
        if si < s@.len() {
            assert(s@.skip(si as int)[0] == s@[si as int]);
            assert(s@.skip(si as int).drop_first() =~= s@.skip(si as int + 1));
        }
    }
    if pc == '*' {
        if glob_match_from(p, pi + 1, s, si) {
            return true;
        }
        if si < slen {
            return glob_match_from(p, pi, s, si + 1);
        }
        return false;
    }
    if pc == '[' {
        let ghost u = p@.skip(pi as int);
        let start = if pi + 1 < plen && p.get_char(pi + 1) == '!' {
            pi + 2
        } else {
            pi + 1
        };
        proof {
            if pi + 1 < plen {
                assert(u[1] == p@[pi as int + 1]);
            }
        }
        let mut j = start;
        while j < plen
            invariant_except_break
                start <= j <= plen,
                plen == p@.len(),
                forall|k: int| start <= k < j ==> p@[k] != ']',
            ensures
                start <= j <= plen,
                forall|k: int| start <= k < j ==> p@[k] != ']',
                j < plen ==> p@[j as int] == ']',
            decreases plen - j,
        {
            if p.get_char(j) == ']' {
                break ;
            }
            j += 1;
        }
        let ghost su = p@.skip(start as int);
        proof {
            assert(u.skip(start - pi) =~= su);
            assert(forall|k: int| 0 <= k < j - start ==> su[k] == p@[start + k]);
            if j < plen {
                assert(su[j - start] == p@[j as int]);
                lemma_first_index_at(su, ']', j - start);
            } else {
                lemma_first_index_none(su, ']');
            }
        }
        if j == plen || j == start {
            return false;
        }
        if si == slen {
            return false;
        }
        let sc = s.get_char(si);
        let inside = class_match_range(p, start, j, sc);
        let neg = start == pi + 2;
        proof {
            assert(u.subrange(start - pi, j - pi) =~= p@.subrange(start as int, j as int));
            assert(u.skip(j - pi + 1) =~= p@.skip(j + 1));
        }
        if inside != neg {
            return glob_match_from(p, j + 1, s, si + 1);
        }
        return false;
    }
    if si == slen {
        return false;
    }
    let sc = s.get_char(si);
    if pc == '?' || pc == sc {
        glob_match_from(p, pi + 1, s, si + 1)
    } else {
        false
    }
}

/// Whether the glob pattern `p` matches the name `s` in full.
pub fn glob_match(p: &str, s: &str) -> (r: bool)
    ensures
        r == glob_matches(p@, s@),
{
    let r = glob_match_from(p, 0, s, 0);
    proof {
        assert(p@.skip(0) =~= p@);
        assert(s@.skip(0) =~= s@);
    }
    r
}

} // verus!
