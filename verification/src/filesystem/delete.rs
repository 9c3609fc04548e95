//! Recursive deletion: removing a path together with everything below it.

use vstd::prelude::*;
use vstd::seq_lib::*;
use vstd::string::*;
use crate::errors::{CocoError, Fallible};
use crate::filesystem::{
    contains_path, dir_at, lemma_filter_nodup_pv, lemma_filter_push, wf_entries, FsEntry, FsState,
};
use crate::glob::GlobPattern;
use crate::paths::{
    is_prefix_path, is_seg_prefix, lemma_seg_prefix_trans, split_path, split_segs, str_views,
};

verus! {

/// The arguments that the delete grammar recognises.
#[derive(Debug)]
pub enum DeleteArguments {
    /// Delete only the entries that match a pattern. The grammar names this
    /// capability, but the algorithm does not consume it yet.
    GlobPattern(GlobPattern),
}

/// The snapshot after the subtree rooted at `t` is removed: every entry at
/// or below `t` is gone, every other entry stays, in order.
pub open spec fn remove_tree(s: Seq<FsEntry>, t: Seq<Seq<char>>) -> Seq<FsEntry> {
    s.filter(|e: FsEntry| !is_seg_prefix(t, e.pv()))
}

/// The message reported when a delete target does not exist.
pub open spec fn delete_missing_msg(path: Seq<char>) -> Seq<char> {
    "The system cannot find \""@ + path + "\". It may have been moved or already deleted."@
}

/// Removing a subtree keeps the snapshot well formed, and keeps exactly the
/// paths that the removed root does not sit above.
pub proof fn lemma_remove_tree(s: Seq<FsEntry>, t: Seq<Seq<char>>)
    requires
        wf_entries(s),
    ensures
        wf_entries(remove_tree(s, t)),
        forall|q: Seq<Seq<char>>|
            #[trigger] contains_path(remove_tree(s, t), q) <==> (contains_path(s, q)
                && !is_seg_prefix(t, q)),
        forall|q: Seq<Seq<char>>|
            #[trigger] dir_at(remove_tree(s, t), q) <==> (dir_at(s, q) && !is_seg_prefix(t, q)),
{
    broadcast use group_filter_ensures;

    let pred = |e: FsEntry| !is_seg_prefix(t, e.pv());
    let f = remove_tree(s, t);
    assert forall|q: Seq<Seq<char>>| #[trigger]
        contains_path(f, q) implies (contains_path(s, q) && !is_seg_prefix(t, q)) by {
        let i = choose|i: int| 0 <= i < f.len() && (#[trigger] f[i]).pv() == q;
        assert(f.contains(f[i]));
        s.lemma_filter_contains_rev(pred, f[i]);
        let w = choose|w: int| 0 <= w < s.len() && s[w] == f[i];
        assert(pred(f[i]));
    }
    assert forall|q: Seq<Seq<char>>|
        contains_path(s, q) && !is_seg_prefix(t, q) implies #[trigger] contains_path(f, q) by {
        let i = choose|i: int| 0 <= i < s.len() && (#[trigger] s[i]).pv() == q;
        assert(pred(s[i]));
        assert(f.contains(s[i]));
        let w = choose|w: int| 0 <= w < f.len() && f[w] == s[i];
    }
    assert forall|q: Seq<Seq<char>>| #[trigger]
        dir_at(f, q) implies (dir_at(s, q) && !is_seg_prefix(t, q)) by {
        let i = choose|i: int| 0 <= i < f.len() && (#[trigger] f[i]).pv() == q && f[i].is_dir;
        assert(f.contains(f[i]));
        s.lemma_filter_contains_rev(pred, f[i]);
        let w = choose|w: int| 0 <= w < s.len() && s[w] == f[i];
        assert(pred(f[i]));
    }
    assert forall|q: Seq<Seq<char>>|
        dir_at(s, q) && !is_seg_prefix(t, q) implies #[trigger] dir_at(f, q) by {
        let i = choose|i: int| 0 <= i < s.len() && (#[trigger] s[i]).pv() == q && s[i].is_dir;
        assert(pred(s[i]));
        assert(f.contains(s[i]));
        let w = choose|w: int| 0 <= w < f.len() && f[w] == s[i];
    }
    lemma_filter_nodup_pv(s, pred);
    assert forall|i: int| 0 <= i < f.len() implies (#[trigger] f[i]).pv().len() > 0 by {
        assert(f.contains(f[i]));
        s.lemma_filter_contains_rev(pred, f[i]);
        let w = choose|w: int| 0 <= w < s.len() && s[w] == f[i];
    }
    assert forall|i: int, k: int|
        #![trigger f[i].pv().take(k)]
        0 <= i < f.len() && 0 < k < f[i].pv().len() implies dir_at(f, f[i].pv().take(k)) by {
        assert(f.contains(f[i]));
        s.lemma_filter_contains_rev(pred, f[i]);
        let w = choose|w: int| 0 <= w < s.len() && s[w] == f[i];
        assert(dir_at(s, s[w].pv().take(k)));
        assert(pred(f[i]));
        let pfx = f[i].pv().take(k);
        if is_seg_prefix(t, pfx) {
            assert(f[i].pv().take(pfx.len() as int) =~= pfx);
            lemma_seg_prefix_trans(t, pfx, f[i].pv());
            assert(false);
        }
    }
}

/// Deletes the file or directory tree at `path` from the snapshot: the
/// target and all its descendants are removed, depth first; everything else
/// is untouched. A missing target is an error and mutates nothing.
pub fn delete_path(fs: &mut FsState, path: &str) -> (r: Fallible<()>)
    requires
        old(fs).wf(),
    ensures
        final(fs).wf(),
        contains_path(old(fs).entries@, split_segs(path@)) ==> r is Ok && final(fs).entries@
            == remove_tree(old(fs).entries@, split_segs(path@)),
        !contains_path(old(fs).entries@, split_segs(path@)) ==> *final(fs) == *old(fs) && (match r {
            Result::Err(e) => e matches CocoError::PathNotFound(m) && m@ == delete_missing_msg(
                path@,
            ),
            Result::Ok(_) => false,
        }),
        forall|q: Seq<Seq<char>>|
            #[trigger] contains_path(final(fs).entries@, q) <==> (contains_path(old(fs).entries@, q) && !(
            contains_path(old(fs).entries@, split_segs(path@)) && is_seg_prefix(
                split_segs(path@),
                q,
            ))),
{
    let target = split_path(path);
    let ghost t = split_segs(path@);
    if fs.lookup(&target).is_none() {
        let m = String::from_str("The system cannot find \"").concat(path).concat(
            "\". It may have been moved or already deleted.",
        );
        proof {
            assert(m@ =~= delete_missing_msg(path@));
        }
        return Err(CocoError::PathNotFound(m));
    }
    let ghost pre = fs.entries@;
    let mut i: usize = 0;
    let ghost mut j: int = 0;
    proof {
        assert(pre.take(0).filter(|e: FsEntry| !is_seg_prefix(t, e.pv())) =~= Seq::<
            FsEntry,
        >::empty());
        assert(pre.skip(0) =~= pre);
        assert(fs.entries@ =~= remove_tree(pre.take(0), t) + pre.skip(0));
    }
    while i < fs.entries.len()
        invariant
            0 <= j <= pre.len(),
            i == remove_tree(pre.take(j), t).len(),
            fs.entries@ == remove_tree(pre.take(j), t) + pre.skip(j),
            t == split_segs(path@),
            str_views(target@) == t,
        decreases pre.len() - j,
    {
        proof {
            assert(fs.entries@[i as int] == pre.skip(j)[0]);
            assert(pre.skip(j)[0] == pre[j]);
            assert(pre.take(j + 1) =~= pre.take(j).push(pre[j]));
            lemma_filter_push(pre.take(j), |e: FsEntry| !is_seg_prefix(t, e.pv()), pre[j]);
        }
        if is_prefix_path(&target, &fs.entries[i].path) {
            fs.entries.remove(i);
            proof {
                assert(fs.entries@ =~= remove_tree(pre.take(j + 1), t) + pre.skip(j + 1));
                j = j + 1;
            }
        } else {
            proof {
                assert(remove_tree(pre.take(j + 1), t) =~= remove_tree(pre.take(j), t).push(
                    pre[j],
                ));
                assert(fs.entries@ =~= remove_tree(pre.take(j + 1), t) + pre.skip(j + 1));
                j = j + 1;
            }
            i += 1;
        }
    }
    proof {
        assert(pre.skip(j).len() == 0);
        assert(j == pre.len());
        assert(pre.take(j) =~= pre);
        assert(fs.entries@ =~= remove_tree(pre, t));
        lemma_remove_tree(pre, t);
    }
    Ok(())
}

} // verus!
