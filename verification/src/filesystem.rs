//! An in-memory filesystem snapshot: the paths that exist, each marked as a
//! directory or a file. The delete and list operations are specified and
//! carried out against this model.

pub mod delete;
pub mod list;

use vstd::prelude::*;
use vstd::seq_lib::*;
use crate::paths::{path_eq, str_views};

verus! {

/// One entry of a snapshot: a segmented path and whether it is a directory.
#[derive(Debug)]
pub struct FsEntry {
    pub path: Vec<String>,
    pub is_dir: bool,
}

impl FsEntry {
    /// The entry's path, as segment views.
    pub open spec fn pv(self) -> Seq<Seq<char>> {
        str_views(self.path@)
    }
}

/// The paths of a sequence of entries.
pub open spec fn entry_paths(s: Seq<FsEntry>) -> Seq<Seq<Seq<char>>> {
    s.map_values(|e: FsEntry| e.pv())
}

/// Whether some entry of `s` has path `p`.
pub open spec fn contains_path(s: Seq<FsEntry>, p: Seq<Seq<char>>) -> bool {
    exists|i: int| 0 <= i < s.len() && (#[trigger] s[i]).pv() == p
}

/// Whether some entry of `s` has path `p` and is a directory.
pub open spec fn dir_at(s: Seq<FsEntry>, p: Seq<Seq<char>>) -> bool {
    exists|i: int| 0 <= i < s.len() && (#[trigger] s[i]).pv() == p && s[i].is_dir
}

/// A snapshot is well formed when every path is nonempty, no path repeats,
/// and every proper ancestor of an entry is itself an entry and a directory.
pub open spec fn wf_entries(s: Seq<FsEntry>) -> bool {
    &&& forall|i: int| 0 <= i < s.len() ==> (#[trigger] s[i]).pv().len() > 0
    &&& forall|i: int, j: int|
        0 <= i < j < s.len() ==> (#[trigger] s[i]).pv() != (#[trigger] s[j]).pv()
    &&& forall|i: int, k: int|
        #![trigger s[i].pv().take(k)]
        0 <= i < s.len() && 0 < k < s[i].pv().len() ==> dir_at(s, s[i].pv().take(k))
}

/// Filtering a sequence treats a pushed last element one at a time.
pub proof fn lemma_filter_push<A>(s: Seq<A>, pred: spec_fn(A) -> bool, x: A)
    ensures
        s.push(x).filter(pred) == if pred(x) {
            s.filter(pred).push(x)
        } else {
            s.filter(pred)
        },
{
    reveal(Seq::filter);
    assert(s.push(x).drop_last() =~= s);
    assert(s.push(x).last() == x);
}

/// Filtering keeps paths pairwise distinct.
pub proof fn lemma_filter_nodup_pv(s: Seq<FsEntry>, pred: spec_fn(FsEntry) -> bool)
    requires
        forall|i: int, j: int|
            0 <= i < j < s.len() ==> (#[trigger] s[i]).pv() != (#[trigger] s[j]).pv(),
    ensures
        forall|i: int, j: int|
            0 <= i < j < s.filter(pred).len() ==> (#[trigger] s.filter(pred)[i]).pv() != (
            #[trigger] s.filter(pred)[j]).pv(),
    decreases s.len(),
{
    broadcast use group_filter_ensures;

    reveal(Seq::filter);
    if s.len() > 0 {
        let rest = s.drop_last();
        let f = s.filter(pred);
        let fr = rest.filter(pred);
        assert(forall|i: int, j: int|
            0 <= i < j < rest.len() ==> (#[trigger] rest[i]).pv() != (#[trigger] rest[j]).pv());
        lemma_filter_nodup_pv(rest, pred);
        assert forall|i: int, j: int|
            0 <= i < j < f.len() implies (#[trigger] f[i]).pv() != (#[trigger] f[j]).pv() by {
            if pred(s.last()) {
                assert(f == fr.push(s.last()));
                if j < fr.len() {
                    assert(f[i] == fr[i] && f[j] == fr[j]);
                } else {
                    assert(f[j] == s.last());
                    assert(f[i] == fr[i]);
                    assert(fr.contains(fr[i]));
                    rest.lemma_filter_contains_rev(pred, fr[i]);
                    let w = choose|w: int| 0 <= w < rest.len() && rest[w] == fr[i];
                    assert(s[w] == rest[w]);
                    assert(s[w].pv() != s[s.len() - 1].pv());
                    assert(s[s.len() - 1] == s.last());
                }
            } else {
                assert(f == fr);
            }
        }
    }
}

/// A filesystem snapshot.
#[derive(Debug)]
pub struct FsState {
    pub entries: Vec<FsEntry>,
}

impl FsState {
    /// Well-formedness of the snapshot's entries.
    pub open spec fn wf(self) -> bool {
        wf_entries(self.entries@)
    }

    /// The empty snapshot: nothing exists.
    pub fn new() -> (r: FsState)
        ensures
            r.entries@ == Seq::<FsEntry>::empty(),
            r.wf(),
    {
        FsState { entries: Vec::new() }
    }

    /// Records that `path` exists, as a directory when `is_dir` holds. The
    /// parent must already exist as a directory.
    pub fn add_entry(&mut self, path: Vec<String>, is_dir: bool)
        requires
            old(self).wf(),
            path@.len() > 0,
            !contains_path(old(self).entries@, str_views(path@)),
            path@.len() > 1 ==> dir_at(
                old(self).entries@,
                str_views(path@).take(path@.len() - 1),
            ),
        ensures
            final(self).entries@ == old(self).entries@.push(FsEntry { path: path, is_dir }),
            final(self).wf(),
    {
        let ghost s = self.entries@;
        let ghost pv = str_views(path@);
        self.entries.push(FsEntry { path, is_dir });
        proof {
            let t = self.entries@;
            assert(t[s.len() as int].pv() == pv);
            assert(pv.len() == path@.len());
            assert forall|pfx: Seq<Seq<char>>| dir_at(s, pfx) implies dir_at(t, pfx) by {
                let w = choose|w: int| 0 <= w < s.len() && (#[trigger] s[w]).pv() == pfx
                    && s[w].is_dir;
                assert(t[w] == s[w]);
            }
            assert forall|k: int| 0 < k < pv.len() implies dir_at(t, pv.take(k)) by {
                if k == pv.len() - 1 {
                    assert(dir_at(s, pv.take(k)));
                } else {
                    let parent = pv.take(pv.len() - 1);
                    let j = choose|j: int|
                        0 <= j < s.len() && (#[trigger] s[j]).pv() == parent && s[j].is_dir;
                    assert(0 < k < s[j].pv().len());
                    assert(s[j].pv().take(k) =~= pv.take(k));
                    assert(dir_at(s, pv.take(k)));
                }
            }
            assert forall|i: int, k: int|
                #![trigger t[i].pv().take(k)]
                0 <= i < t.len() && 0 < k < t[i].pv().len() implies dir_at(t, t[i].pv().take(k)) by {
                if i < s.len() {
                    assert(t[i] == s[i]);
                    assert(dir_at(s, s[i].pv().take(k)));
                }
            }
        }
    }

    /// Records a directory at `path`.
    pub fn add_dir(&mut self, path: Vec<String>)
        requires
            old(self).wf(),
            path@.len() > 0,
            !contains_path(old(self).entries@, str_views(path@)),
            path@.len() > 1 ==> dir_at(
                old(self).entries@,
                str_views(path@).take(path@.len() - 1),
            ),
        ensures
            final(self).entries@ == old(self).entries@.push(FsEntry { path: path, is_dir: true }),
            final(self).wf(),
    {
        self.add_entry(path, true)
    }

    /// Records a file at `path`.
    pub fn add_file(&mut self, path: Vec<String>)
        requires
            old(self).wf(),
            path@.len() > 0,
            !contains_path(old(self).entries@, str_views(path@)),
            path@.len() > 1 ==> dir_at(
                old(self).entries@,
                str_views(path@).take(path@.len() - 1),
            ),
        ensures
            final(self).entries@ == old(self).entries@.push(FsEntry { path: path, is_dir: false }),
            final(self).wf(),
    {
        self.add_entry(path, false)
    }

    /// Looks `path` up: absent, or present with its directory flag.
    pub fn lookup(&self, path: &Vec<String>) -> (r: Option<bool>)
        requires
            self.wf(),
        ensures
            (match r {
                Option::None => !contains_path(self.entries@, str_views(path@)),
                Option::Some(d) => contains_path(self.entries@, str_views(path@)) && d == dir_at(
                    self.entries@,
                    str_views(path@),
                ),
            }),
    {
        let ghost pv = str_views(path@);
        let mut i: usize = 0;
        while i < self.entries.len()
            invariant
                self.wf(),
                i <= self.entries@.len(),
                pv == str_views(path@),
                forall|j: int| 0 <= j < i ==> (#[trigger] self.entries@[j]).pv() != pv,
            decreases self.entries@.len() - i,
        {
            if path_eq(&self.entries[i].path, path) {
                let d = self.entries[i].is_dir;
                proof {
                    let s = self.entries@;
                    assert(s[i as int].pv() == pv);
                    if !d {
                        assert forall|w: int|
                            0 <= w < s.len() && (#[trigger] s[w]).pv() == pv implies !s[w].is_dir by {
                            if w < i as int {
                                assert(s[w].pv() != pv);
                            } else if w > i as int {
                                assert(s[i as int].pv() != s[w].pv());
                            }
                        }
                    }
                }
                return Some(d);
            }
            i += 1;
        }
        None
    }
}

} // verus!
