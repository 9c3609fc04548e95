//! Shell-style wildcard patterns over entry names: `*` matches any run of
//! characters within a name, `?` matches exactly one character.

use vstd::prelude::*;

verus! {

/// Whether pattern `p` matches the whole name `s`.
pub open spec fn glob_match(p: Seq<char>, s: Seq<char>) -> bool
    decreases p.len() + s.len(),
{
    if p.len() == 0 {
        s.len() == 0
    } else if p[0] == '*' {
        glob_match(p.skip(1), s) || (s.len() > 0 && glob_match(p, s.skip(1)))
    } else if s.len() == 0 {
        false
    } else {
        (p[0] == '?' || p[0] == s[0]) && glob_match(p.skip(1), s.skip(1))
    }
}

/// Decides `glob_match` on the suffixes of `p` and `s` that start at `i`
/// and `j`.
fn glob_match_from(p: &str, i: usize, s: &str, j: usize) -> (r: bool)
    requires
        i <= p@.len(),
        j <= s@.len(),
    ensures
        r == glob_match(p@.skip(i as int), s@.skip(j as int)),
    decreases p@.len() + s@.len() - i - j,
{
    let pl = p.unicode_len();
    let sl = s.unicode_len();
    let ghost pv = p@.skip(i as int);
    let ghost sv = s@.skip(j as int);
    if i == pl {
        return j == sl;
    }
    let pc = p.get_char(i);
    assert(pv[0] == p@[i as int]);
    if pc == '*' {
        proof {
            assert(pv.skip(1) =~= p@.skip(i + 1));
        }
        if glob_match_from(p, i + 1, s, j) {
            true
        } else if j < sl {
            proof {
                assert(sv.skip(1) =~= s@.skip(j + 1));
            }
            glob_match_from(p, i, s, j + 1)
        } else {
            false
        }
    } else if j == sl {
        false
    } else {
        let sc = s.get_char(j);
        assert(sv[0] == s@[j as int]);
        if pc == '?' || pc == sc {
            proof {
                assert(pv.skip(1) =~= p@.skip(i + 1));
                assert(sv.skip(1) =~= s@.skip(j + 1));
            }
            glob_match_from(p, i + 1, s, j + 1)
        } else {
            false
        }
    }
}

/// Decides whether pattern `p` matches the whole name `s`.
pub fn glob_matches(p: &str, s: &str) -> (r: bool)
    ensures
        r == glob_match(p@, s@),
{
    proof {
        assert(p@.skip(0) =~= p@);
        assert(s@.skip(0) =~= s@);
    }
    glob_match_from(p, 0, s, 0)
}

/// A shell-style wildcard expression used to filter entry names.
#[derive(Debug)]
pub struct GlobPattern {
    pub pattern: String,
}

impl GlobPattern {
    /// Wraps a pattern string.
    pub fn new(pattern: String) -> (r: GlobPattern)
        ensures
            r.pattern@ == pattern@,
    {
        GlobPattern { pattern }
    }

    /// Whether this pattern matches the whole of `name`.
    pub fn matches_name(&self, name: &str) -> (r: bool)
        ensures
            r == glob_match(self.pattern@, name@),
    {
        glob_matches(self.pattern.as_str(), name)
    }
}

} // verus!
