//! Paths as sequences of name segments, and the segmentation of a raw path
//! string on `/` separators.

use vstd::prelude::*;
use vstd::string::*;

verus! {

/// The views of a sequence of strings: each string as its characters.
pub open spec fn str_views(s: Seq<String>) -> Seq<Seq<char>> {
    s.map_values(|x: String| x@)
}

/// `p` names `q` itself or an ancestor of `q`, segment by segment.
pub open spec fn is_seg_prefix(p: Seq<Seq<char>>, q: Seq<Seq<char>>) -> bool {
    p.len() <= q.len() && q.take(p.len() as int) == p
}

/// Being an ancestor-or-self is transitive.
pub proof fn lemma_seg_prefix_trans(a: Seq<Seq<char>>, b: Seq<Seq<char>>, c: Seq<Seq<char>>)
    requires
        is_seg_prefix(a, b),
        is_seg_prefix(b, c),
    ensures
        is_seg_prefix(a, c),
{
    assert(c.take(a.len() as int) =~= c.take(b.len() as int).take(a.len() as int));
}

/// The number of characters before the first `/` of `s` (all of them, when
/// `s` has none).
pub open spec fn first_sep(s: Seq<char>) -> nat
    decreases s.len(),
{
    if s.len() == 0 {
        0
    } else if s[0] == '/' {
        0
    } else {
        1 + first_sep(s.skip(1))
    }
}

pub proof fn lemma_first_sep_le(s: Seq<char>)
    ensures
        first_sep(s) <= s.len(),
    decreases s.len(),
{
    if s.len() > 0 && s[0] != '/' {
        lemma_first_sep_le(s.skip(1));
    }
}

/// `first_sep` is the one position with no separator before it that sits on
/// a separator or at the end.
pub proof fn lemma_first_sep_is(s: Seq<char>, k: int)
    requires
        0 <= k <= s.len(),
        forall|j: int| 0 <= j < k ==> s[j] != '/',
        k < s.len() ==> s[k] == '/',
    ensures
        first_sep(s) == k,
    decreases s.len(),
{
    if s.len() > 0 && s[0] != '/' {
        assert(s.skip(1).len() == s.len() - 1);
        assert(forall|j: int| 0 <= j < k - 1 ==> s.skip(1)[j] == s[j + 1] && s[j + 1] != '/');
        assert(k - 1 < s.skip(1).len() ==> s.skip(1)[k - 1] == s[k] && s[k] == '/');
        lemma_first_sep_is(s.skip(1), k - 1);
    }
}

/// The segments of a path string: the maximal runs between `/` separators,
/// with empty runs dropped.
pub open spec fn split_segs(s: Seq<char>) -> Seq<Seq<char>>
    decreases s.len(),
    via split_segs_decreases
{
    if s.len() == 0 {
        Seq::empty()
    } else if s[0] == '/' {
        split_segs(s.skip(1))
    } else {
        seq![s.take(first_sep(s) as int)] + split_segs(s.skip(first_sep(s) as int))
    }
}

#[via_fn]
proof fn split_segs_decreases(s: Seq<char>) {
    if s.len() != 0 && s[0] != '/' {
        lemma_first_sep_le(s);
    }
}

/// Splits a raw path string into its name segments, dropping empty ones, so
/// that `"/tmp/a"` and `"tmp//a"` both become `tmp`, `a`.
pub fn split_path(s: &str) -> (r: Vec<String>)
    ensures
        str_views(r@) == split_segs(s@),
{
    let n = s.unicode_len();
    let mut r: Vec<String> = Vec::new();
    let mut i: usize = 0;
    proof {
        assert(s@.skip(0) =~= s@);
        assert(str_views(r@) + split_segs(s@) =~= split_segs(s@));
    }
    while i < n
        invariant
            n == s@.len(),
            i <= n,
            split_segs(s@) == str_views(r@) + split_segs(s@.skip(i as int)),
        decreases n - i,
    {
        let c = s.get_char(i);
        if c == '/' {
            proof {
                assert(s@.skip(i as int).skip(1) =~= s@.skip(i + 1));
            }
            i += 1;
        } else {
            let start = i;
            i += 1;
            while i < n && s.get_char(i) != '/'
                invariant
                    n == s@.len(),
                    start < i <= n,
                    s@[start as int] != '/',
                    forall|j: int| start <= j < i ==> s@[j] != '/',
                decreases n - i,
            {
                i += 1;
            }
            let seg = s.substring_char(start, i);
            let ghost r0 = r@;
            r.push(String::from_str(seg));
            proof {
                let t = s@.skip(start as int);
                assert(forall|j: int| 0 <= j < i - start ==> t[j] == s@[j + start] && s@[j + start]
                    != '/');
                assert(i - start < t.len() ==> t[i - start] == s@[i as int] && s@[i as int] == '/');
                lemma_first_sep_is(t, i - start);
                assert(t.take(i - start) =~= s@.subrange(start as int, i as int));
                assert(t.skip(i - start) =~= s@.skip(i as int));
                assert(split_segs(t) == seq![s@.subrange(start as int, i as int)] + split_segs(
                    s@.skip(i as int),
                ));
                assert(str_views(r@) =~= str_views(r0).push(s@.subrange(
                    start as int,
                    i as int,
                )));
                assert(str_views(r@) + split_segs(s@.skip(i as int)) =~= str_views(r0) + (seq![
                    s@.subrange(start as int, i as int),
                ] + split_segs(s@.skip(i as int))));
            }
        }
    }
    proof {
        assert(s@.skip(n as int) =~= Seq::<char>::empty());
        assert(str_views(r@) + split_segs(s@.skip(n as int)) =~= str_views(r@));
    }
    r
}

/// Are `a` and `b` the same path, segment by segment?
pub fn path_eq(a: &Vec<String>, b: &Vec<String>) -> (r: bool)
    ensures
        r == (str_views(a@) == str_views(b@)),
{
    if a.len() != b.len() {
        proof {
            assert(str_views(a@).len() == a@.len());
            assert(str_views(b@).len() == b@.len());
        }
        return false;
    }
    let r = is_prefix_path(a, b);
    proof {
        assert(str_views(b@).take(a@.len() as int) =~= str_views(b@));
    }
    r
}

/// A copy of the path with the same segments.
pub fn clone_path(p: &Vec<String>) -> (r: Vec<String>)
    ensures
        str_views(r@) == str_views(p@),
{
    let mut r: Vec<String> = Vec::new();
    let mut i: usize = 0;
    while i < p.len()
        invariant
            i <= p@.len(),
            r@.len() == i,
            forall|j: int| 0 <= j < i ==> (#[trigger] r@[j])@ == p@[j]@,
        decreases p@.len() - i,
    {
        r.push(p[i].clone());
        i += 1;
    }
    proof {
        assert(str_views(r@) =~= str_views(p@));
    }
    r
}

/// Does `p` name `q` itself or an ancestor of `q`?
pub fn is_prefix_path(p: &Vec<String>, q: &Vec<String>) -> (r: bool)
    ensures
        r == is_seg_prefix(str_views(p@), str_views(q@)),
{
    if p.len() > q.len() {
        return false;
    }
    let mut i: usize = 0;
    while i < p.len()
        invariant
            i <= p@.len() <= q@.len(),
            forall|j: int| 0 <= j < i ==> p@[j]@ == q@[j]@,
        decreases p@.len() - i,
    {
        if !(p[i] == q[i]) {
            proof {
                assert(str_views(q@).take(p@.len() as int)[i as int] == q@[i as int]@);
                assert(str_views(p@)[i as int] == p@[i as int]@);
            }
            return false;
        }
        i += 1;
    }
    proof {
        assert(str_views(q@).take(p@.len() as int) =~= str_views(p@));
    }
    true
}

} // verus!
