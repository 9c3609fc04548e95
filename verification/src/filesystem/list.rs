//! Directory listing: enumerating the entries below a directory, with
//! optional glob filtering, recursion, and depth limiting.

use vstd::prelude::*;
use vstd::seq_lib::*;
use vstd::string::*;
use crate::errors::{CocoError, Fallible};
use crate::filesystem::{
    contains_path, dir_at, entry_paths, lemma_filter_push, FsEntry, FsState,
};
use crate::glob::{glob_match, glob_matches, GlobPattern};
use crate::paths::{clone_path, is_prefix_path, is_seg_prefix, split_path, split_segs, str_views};

verus! {

/// The arguments that the list grammar recognises.
#[derive(Debug)]
pub enum ListArguments {
    /// List only the entries whose name matches a pattern.
    GlobPattern(GlobPattern),
    /// Also descend into subdirectories and list their contents.
    Recursive,
    /// Bound the descent to this many levels below the starting path.
    Depth(usize),
}

/// The views of a sequence of segmented paths.
pub open spec fn path_views(s: Seq<Vec<String>>) -> Seq<Seq<Seq<char>>> {
    s.map_values(|p: Vec<String>| str_views(p@))
}

/// The depth named by the last `Depth` argument, if any: later arguments
/// win over earlier ones.
pub open spec fn last_depth(args: Seq<ListArguments>) -> Option<usize>
    decreases args.len(),
{
    if args.len() == 0 {
        None
    } else {
        match args.last() {
            ListArguments::Depth(n) => Some(n),
            _ => last_depth(args.drop_last()),
        }
    }
}

/// Whether any argument asks for recursion.
pub open spec fn has_recursive(args: Seq<ListArguments>) -> bool {
    exists|i: int| 0 <= i < args.len() && (#[trigger] args[i]) is Recursive
}

/// The pattern of the last glob argument, if any: later arguments win.
pub open spec fn last_glob(args: Seq<ListArguments>) -> Option<Seq<char>>
    decreases args.len(),
{
    if args.len() == 0 {
        None
    } else {
        match args.last() {
            ListArguments::GlobPattern(g) => Some(g.pattern@),
            _ => last_glob(args.drop_last()),
        }
    }
}

/// How deep a listing descends: a `Depth` argument always bounds it;
/// `Recursive` alone means unbounded (`None`); with neither, only the
/// immediate children are listed.
pub open spec fn depth_bound(args: Seq<ListArguments>) -> Option<usize> {
    match last_depth(args) {
        Some(n) => Some(n),
        None => if has_recursive(args) {
            None
        } else {
            Some(0)
        },
    }
}

/// Whether entry `e` is emitted when listing the directory `t` under the
/// given depth bound and glob pattern: it must sit strictly below `t`, at
/// most `n + 1` segments deeper for a bound of `n`, and its name must match
/// the pattern when one is given.
pub open spec fn listed(
    t: Seq<Seq<char>>,
    bound: Option<usize>,
    pat: Option<Seq<char>>,
    e: FsEntry,
) -> bool {
    &&& is_seg_prefix(t, e.pv())
    &&& e.pv().len() > t.len()
    &&& (match bound {
        Some(n) => e.pv().len() - t.len() <= n + 1,
        None => true,
    })
    &&& (match pat {
        Some(p) => glob_match(p, e.pv().last()),
        None => true,
    })
}

/// The `listed` test as a predicate over entries.
pub open spec fn listed_pred(
    t: Seq<Seq<char>>,
    bound: Option<usize>,
    pat: Option<Seq<char>>,
) -> spec_fn(FsEntry) -> bool {
    |e: FsEntry| listed(t, bound, pat, e)
}

/// The entries that listing the directory `t` with the given arguments
/// emits, in snapshot order.
pub open spec fn list_spec(
    s: Seq<FsEntry>,
    t: Seq<Seq<char>>,
    args: Seq<ListArguments>,
) -> Seq<FsEntry> {
    s.filter(listed_pred(t, depth_bound(args), last_glob(args)))
}

/// The message reported when a list target does not exist.
pub open spec fn list_missing_msg(path: Seq<char>) -> Seq<char> {
    "Could not find the directory path \""@ + path + "\"."@
}

/// The message reported when a list target is not a directory.
pub open spec fn not_dir_msg(path: Seq<char>) -> Seq<char> {
    "\""@ + path + "\" is not a directory."@
}

/// Lists the entries below the directory at `path`: with no arguments only
/// its immediate children; `Recursive` and `Depth` extend or bound the
/// descent, and a glob pattern filters the entry names. A missing target or
/// a file target is an error.
pub fn list_path(fs: &FsState, path: &str, arguments: &Vec<ListArguments>) -> (r: Fallible<
    Vec<Vec<String>>,
>)
    requires
        fs.wf(),
    ensures
        !contains_path(fs.entries@, split_segs(path@)) ==> (match r {
            Result::Err(e) => e matches CocoError::PathNotFound(m) && m@ == list_missing_msg(
                path@,
            ),
            Result::Ok(_) => false,
        }),
        contains_path(fs.entries@, split_segs(path@)) && !dir_at(fs.entries@, split_segs(path@))
            ==> (match r {
            Result::Err(e) => e matches CocoError::NotADirectory(m) && m@ == not_dir_msg(path@),
            Result::Ok(_) => false,
        }),
        dir_at(fs.entries@, split_segs(path@)) ==> (match r {
            Result::Ok(v) => path_views(v@) == entry_paths(
                list_spec(fs.entries@, split_segs(path@), arguments@),
            ),
            Result::Err(_) => false,
        }),
{
    let target = split_path(path);
    let ghost t = split_segs(path@);
    match fs.lookup(&target) {
        Option::None => {
            let m = String::from_str("Could not find the directory path \"").concat(path).concat(
                "\".",
            );
            proof {
                assert(m@ =~= list_missing_msg(path@));
            }
            return Err(CocoError::PathNotFound(m));
        },
        Option::Some(false) => {
            let m = String::from_str("\"").concat(path).concat("\" is not a directory.");
            proof {
                assert(m@ =~= not_dir_msg(path@));
            }
            return Err(CocoError::NotADirectory(m));
        },
        Option::Some(true) => {},
    }
    let mut depth: Option<usize> = None;
    let mut recursive: bool = false;
    let mut pattern: Option<String> = None;
    let mut ai: usize = 0;
    proof {
        assert(arguments@.take(0) =~= Seq::<ListArguments>::empty());
    }
    while ai < arguments.len()
        invariant
            ai <= arguments@.len(),
            depth == last_depth(arguments@.take(ai as int)),
            recursive == has_recursive(arguments@.take(ai as int)),
            (match pattern {
                Option::None => last_glob(arguments@.take(ai as int)) is None,
                Option::Some(p) => last_glob(arguments@.take(ai as int)) == Some(p@),
            }),
        decreases arguments@.len() - ai,
    {
        let ghost pre = arguments@.take(ai as int);
        let ghost cur = arguments@.take(ai + 1);
        proof {
            assert(cur.drop_last() =~= pre);
            assert(cur.last() == arguments@[ai as int]);
            assert forall|w: int| 0 <= w < pre.len() implies pre[w] == cur[w] by {}
            if has_recursive(pre) {
                let w = choose|w: int| 0 <= w < pre.len() && (#[trigger] pre[w]) is Recursive;
                assert(cur[w] is Recursive);
            }
            if has_recursive(cur) && !(arguments@[ai as int] is Recursive) {
                let w = choose|w: int| 0 <= w < cur.len() && (#[trigger] cur[w]) is Recursive;
                assert(w < pre.len());
                assert(pre[w] is Recursive);
            }
        }
        match &arguments[ai] {
            ListArguments::GlobPattern(g) => {
                pattern = Some(g.pattern.clone());
            },
            ListArguments::Recursive => {
                recursive = true;
            },
            ListArguments::Depth(n) => {
                depth = Some(*n);
            },
        }
        ai += 1;
    }
    proof {
        assert(arguments@.take(arguments@.len() as int) =~= arguments@);
    }
    let bound: Option<usize> = match depth {
        Option::Some(n) => Some(n),
        Option::None => if recursive {
            None
        } else {
            Some(0)
        },
    };
    assert(bound == depth_bound(arguments@));
    let ghost pred = listed_pred(t, depth_bound(arguments@), last_glob(arguments@));
    let mut out: Vec<Vec<String>> = Vec::new();
    let mut k: usize = 0;
    proof {
        assert(fs.entries@.take(0).filter(pred) =~= Seq::<FsEntry>::empty());
        assert(path_views(out@) =~= entry_paths(fs.entries@.take(0).filter(pred)));
    }
    while k < fs.entries.len()
        invariant
            fs.wf(),
            k <= fs.entries@.len(),
            t == split_segs(path@),
            str_views(target@) == t,
            bound == depth_bound(arguments@),
            (match pattern {
                Option::None => last_glob(arguments@) is None,
                Option::Some(p) => last_glob(arguments@) == Some(p@),
            }),
            pred == listed_pred(t, depth_bound(arguments@), last_glob(arguments@)),
            path_views(out@) == entry_paths(fs.entries@.take(k as int).filter(pred)),
        decreases fs.entries@.len() - k,
    {
        let ghost e = fs.entries@[k as int];
        let e_prefix = is_prefix_path(&target, &fs.entries[k].path);
        let e_deeper = fs.entries[k].path.len() > target.len();
        let emit: bool;
        if e_prefix && e_deeper {
            let rel = fs.entries[k].path.len() - target.len();
            let depth_ok = match bound {
                Option::Some(n) => rel - 1 <= n,
                Option::None => true,
            };
            if depth_ok {
                emit = match &pattern {
                    Option::Some(p) => glob_matches(
                        p.as_str(),
                        fs.entries[k].path[fs.entries[k].path.len() - 1].as_str(),
                    ),
                    Option::None => true,
                };
                proof {
                    assert(e.pv().len() == e.path@.len());
                    assert(e.pv().last() == e.path@[e.path@.len() - 1]@);
                }
            } else {
                emit = false;
            }
        } else {
            emit = false;
        }
        proof {
            assert(e.pv().len() == e.path@.len());
            assert(t.len() == target@.len());
            assert(emit == pred(e));
        }
        let ghost out0 = out@;
        if emit {
            out.push(clone_path(&fs.entries[k].path));
        }
        proof {
            assert(fs.entries@.take(k + 1) =~= fs.entries@.take(k as int).push(e));
            lemma_filter_push(fs.entries@.take(k as int), pred, e);
            if emit {
                assert(path_views(out@) =~= path_views(out0).push(str_views(e.path@)));
                assert(entry_paths(fs.entries@.take(k as int).filter(pred).push(e)) =~= entry_paths(
                    fs.entries@.take(k as int).filter(pred),
                ).push(e.pv()));
            }
            assert(path_views(out@) =~= entry_paths(fs.entries@.take(k + 1).filter(pred)));
        }
        k += 1;
    }
    proof {
        assert(fs.entries@.take(fs.entries@.len() as int) =~= fs.entries@);
    }
    Ok(out)
}

/// Listing with a depth bound of zero and listing with no arguments at all
/// emit exactly the same entries.
pub proof fn lemma_depth_zero_like_default(s: Seq<FsEntry>, t: Seq<Seq<char>>)
    ensures
        list_spec(s, t, seq![ListArguments::Depth(0)]) == list_spec(
            s,
            t,
            Seq::<ListArguments>::empty(),
        ),
{
    let a1 = seq![ListArguments::Depth(0usize)];
    assert(a1.last() == ListArguments::Depth(0usize));
    assert(last_depth(a1) == Some(0usize));
    assert(depth_bound(a1) == Some(0usize));
    assert(!has_recursive(Seq::<ListArguments>::empty()));
    assert(depth_bound(Seq::<ListArguments>::empty()) == Some(0usize));
    assert(a1.drop_last() =~= Seq::<ListArguments>::empty());
    assert(last_glob(a1) == last_glob(Seq::<ListArguments>::empty()));
}

/// With no arguments, an entry is listed exactly when it is an immediate
/// child of the listed directory: one segment below it, no deeper.
pub proof fn lemma_default_lists_children(s: Seq<FsEntry>, t: Seq<Seq<char>>, i: int)
    requires
        0 <= i < s.len(),
    ensures
        list_spec(s, t, Seq::<ListArguments>::empty()).contains(s[i]) <==> (is_seg_prefix(
            t,
            s[i].pv(),
        ) && s[i].pv().len() == t.len() + 1),
{
    broadcast use group_filter_ensures;

    let args = Seq::<ListArguments>::empty();
    assert(!has_recursive(args));
    assert(depth_bound(args) == Some(0usize));
    let pred = listed_pred(t, Some(0usize), None);
    let f = s.filter(pred);
    if f.contains(s[i]) {
        let w = choose|w: int| 0 <= w < f.len() && f[w] == s[i];
        assert(pred(f[w]));
    }
    if is_seg_prefix(t, s[i].pv()) && s[i].pv().len() == t.len() + 1 {
        assert(pred(s[i]));
        assert(f.contains(s[i]));
    }
}

} // verus!
