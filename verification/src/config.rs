//! The command runner: one resolved command paired with the working
//! directory, executed target by target against a filesystem snapshot,
//! stopping at the first failure.

use vstd::prelude::*;
use vstd::string::*;
use crate::command::{parsed_delete, parsed_list, positional_views, Command};
use crate::errors::{CocoError, Fallible};
use crate::filesystem::delete::{delete_missing_msg, delete_path, remove_tree};
use crate::filesystem::list::{
    list_missing_msg, list_path, list_spec, not_dir_msg, path_views, ListArguments,
};
use crate::filesystem::{contains_path, dir_at, entry_paths, FsEntry, FsState};
use crate::paths::{split_segs, str_views};

verus! {

/// One observable outcome of running a command.
#[derive(Debug)]
pub enum RunEvent {
    /// The tree at `path` was deleted; `path` is the target as given.
    Deleted { path: String },
    /// The directory `target` was listed and holds these entries.
    Listed { target: String, entries: Vec<Vec<String>> },
}

/// The targets of a command, each as its path segments.
pub open spec fn target_views(ts: Seq<String>) -> Seq<Seq<Seq<char>>> {
    ts.map_values(|t: String| split_segs(t@))
}

/// The snapshot after deleting the targets in order, stopping at the first
/// target that does not exist when its turn comes.
pub open spec fn delete_fold(s: Seq<FsEntry>, ts: Seq<Seq<Seq<char>>>) -> Seq<FsEntry>
    decreases ts.len(),
{
    if ts.len() == 0 {
        s
    } else if !contains_path(s, ts[0]) {
        s
    } else {
        delete_fold(remove_tree(s, ts[0]), ts.skip(1))
    }
}

/// The position of the first delete target that does not exist when its
/// turn comes, if any.
pub open spec fn first_missing(s: Seq<FsEntry>, ts: Seq<Seq<Seq<char>>>) -> Option<int>
    decreases ts.len(),
{
    if ts.len() == 0 {
        None
    } else if !contains_path(s, ts[0]) {
        Some(0)
    } else {
        match first_missing(remove_tree(s, ts[0]), ts.skip(1)) {
            None => None,
            Some(k) => Some(k + 1),
        }
    }
}

/// The position of the first list target that is not a directory of `s`.
pub open spec fn first_unlistable(s: Seq<FsEntry>, ts: Seq<Seq<Seq<char>>>) -> Option<int>
    decreases ts.len(),
{
    if ts.len() == 0 {
        None
    } else if !dir_at(s, ts[0]) {
        Some(0)
    } else {
        match first_unlistable(s, ts.skip(1)) {
            None => None,
            Some(k) => Some(k + 1),
        }
    }
}

/// Extending a run of successful deletions by one more target.
proof fn lemma_delete_fold_push(s: Seq<FsEntry>, ts: Seq<Seq<Seq<char>>>, x: Seq<Seq<char>>)
    requires
        first_missing(s, ts) is None,
    ensures
        contains_path(delete_fold(s, ts), x) ==> delete_fold(s, ts.push(x)) == remove_tree(
            delete_fold(s, ts),
            x,
        ) && first_missing(s, ts.push(x)) is None,
        !contains_path(delete_fold(s, ts), x) ==> delete_fold(s, ts.push(x)) == delete_fold(s, ts)
            && first_missing(s, ts.push(x)) == Some(ts.len() as int),
    decreases ts.len(),
{
    reveal_with_fuel(delete_fold, 3);
    reveal_with_fuel(first_missing, 3);
    if ts.len() == 0 {
        assert(ts.push(x)[0] == x);
        assert(ts.push(x).skip(1) =~= Seq::<Seq<Seq<char>>>::empty());
        assert(delete_fold(s, ts) == s);
        assert(first_missing(s, Seq::<Seq<Seq<char>>>::empty()) is None);
        if contains_path(s, x) {
            assert(delete_fold(s, ts.push(x)) == delete_fold(
                remove_tree(s, x),
                Seq::<Seq<Seq<char>>>::empty(),
            ));
        }
    } else {
        assert(ts.push(x)[0] == ts[0]);
        assert(contains_path(s, ts[0]));
        assert(ts.push(x).skip(1) =~= ts.skip(1).push(x));
        let rt = remove_tree(s, ts[0]);
        assert(delete_fold(s, ts) == delete_fold(rt, ts.skip(1)));
        assert(delete_fold(s, ts.push(x)) == delete_fold(rt, ts.skip(1).push(x)));
        lemma_delete_fold_push(rt, ts.skip(1), x);
        if contains_path(delete_fold(s, ts), x) {
            assert(first_missing(rt, ts.skip(1).push(x)) is None);
            assert(first_missing(s, ts.push(x)) is None);
        } else {
            assert(first_missing(rt, ts.skip(1).push(x)) == Some(ts.skip(1).len() as int));
            assert(first_missing(s, ts.push(x)) == Some(ts.len() as int));
        }
    }
}

/// A run of deletions that stops at position `i` fixes the whole fold.
proof fn lemma_delete_fold_stops(s: Seq<FsEntry>, ts: Seq<Seq<Seq<char>>>, i: int)
    requires
        0 <= i < ts.len(),
        first_missing(s, ts.take(i)) is None,
        !contains_path(delete_fold(s, ts.take(i)), ts[i]),
    ensures
        first_missing(s, ts) == Some(i),
        delete_fold(s, ts) == delete_fold(s, ts.take(i)),
    decreases ts.len(),
{
    if i == 0 {
        assert(ts.take(0) =~= Seq::<Seq<Seq<char>>>::empty());
    } else {
        assert(ts.take(i)[0] == ts[0]);
        assert(contains_path(s, ts[0]));
        assert(ts.take(i).skip(1) =~= ts.skip(1).take(i - 1));
        assert(ts.skip(1)[i - 1] == ts[i]);
        lemma_delete_fold_stops(remove_tree(s, ts[0]), ts.skip(1), i - 1);
    }
}

/// The first unlistable target is the first one that is not a directory.
proof fn lemma_first_unlistable(s: Seq<FsEntry>, ts: Seq<Seq<Seq<char>>>, i: int)
    requires
        0 <= i <= ts.len(),
        forall|k: int| 0 <= k < i ==> dir_at(s, #[trigger] ts[k]),
        i < ts.len() ==> !dir_at(s, ts[i]),
    ensures
        first_unlistable(s, ts) == if i < ts.len() {
            Some(i)
        } else {
            Option::<int>::None
        },
    decreases ts.len(),
{
    if ts.len() == 0 {
    } else if i == 0 {
    } else {
        assert(dir_at(s, ts[0]));
        assert forall|k: int| 0 <= k < i - 1 implies dir_at(s, #[trigger] ts.skip(1)[k]) by {
            assert(ts.skip(1)[k] == ts[k + 1]);
        }
        assert(i - 1 < ts.skip(1).len() ==> ts.skip(1)[i - 1] == ts[i]);
        lemma_first_unlistable(s, ts.skip(1), i - 1);
    }
}

/// The message reported for an unrecognised subcommand.
pub open spec fn unrecognized_msg(c: Seq<char>) -> Seq<char> {
    "Cannot recognise the command \""@ + c + "\"."@
}

/// A resolved command paired with the working directory at startup,
/// immutable for the lifetime of the run.
#[derive(Debug)]
pub struct Config {
    pub main_command: Command,
    pub current_directory: String,
}

/// The tokens after the subcommand word, as a vector of their own.
fn rest_tokens(args: &Vec<String>) -> (r: Vec<String>)
    requires
        args@.len() >= 2,
    ensures
        str_views(r@) == str_views(args@.skip(2)),
{
    let mut r: Vec<String> = Vec::new();
    let mut i: usize = 2;
    while i < args.len()
        invariant
            2 <= i <= args@.len(),
            r@.len() == i - 2,
            forall|j: int| 0 <= j < i - 2 ==> (#[trigger] r@[j])@ == args@[j + 2]@,
        decreases args@.len() - i,
    {
        r.push(args[i].clone());
        i += 1;
    }
    proof {
        assert(str_views(r@) =~= str_views(args@.skip(2)));
    }
    r
}

/// Builds the configuration for a run from the raw argument tokens: the
/// first token is the running binary's own path, the second the subcommand
/// word, and the rest that command's arguments. Besides the configuration
/// it yields the warnings that parsing raised.
pub fn build_config(args: Vec<String>, current_directory: String) -> (r: Fallible<
    (Config, Vec<String>),
>)
    ensures
        args@.len() == 0 ==> (match r {
            Result::Err(e) => e is EnvironmentUnavailable,
            Result::Ok(_) => false,
        }),
        args@.len() == 1 ==> (match r {
            Result::Ok(p) => p.0.main_command is Help && p.0.current_directory == current_directory
                && p.1@.len() == 0,
            Result::Err(_) => false,
        }),
        args@.len() >= 2 ==> ({
            let c = args@[1]@;
            let rest = str_views(args@.skip(2));
            let is_del = c == "del"@ || c == "delete"@;
            let is_ls = c == "ls"@ || c == "list"@;
            let is_cls = c == "cls"@ || c == "clear"@;
            &&& is_del ==> (match r {
                Result::Ok(p) => positional_views(rest).len() > 0 && parsed_delete(
                    rest,
                    p.0.main_command,
                    p.1@,
                ) && p.0.current_directory == current_directory,
                Result::Err(e) => positional_views(rest).len() == 0 && e
                    is NotFoundTargetMissing,
            })
            &&& !is_del && is_ls ==> (match r {
                Result::Ok(p) => parsed_list(rest, current_directory@, p.0.main_command, p.1@)
                    && p.0.current_directory == current_directory,
                Result::Err(_) => false,
            })
            &&& !is_del && !is_ls && is_cls ==> (match r {
                Result::Ok(p) => p.0.main_command is Clear && p.0.current_directory
                    == current_directory && p.1@.len() == 0,
                Result::Err(_) => false,
            })
            &&& !is_del && !is_ls && !is_cls ==> (match r {
                Result::Err(e) => e matches CocoError::UnrecognizedCommand(m) && m@
                    == unrecognized_msg(c),
                Result::Ok(_) => false,
            })
        }),
{
    if args.len() == 0 {
        return Err(CocoError::EnvironmentUnavailable);
    }
    if args.len() == 1 {
        return Ok((Config { main_command: Command::Help, current_directory }, Vec::new()));
    }
    let is_del = args[1] == String::from_str("del") || args[1] == String::from_str("delete");
    let is_ls = args[1] == String::from_str("ls") || args[1] == String::from_str("list");
    let is_cls = args[1] == String::from_str("cls") || args[1] == String::from_str("clear");
    if is_del {
        let rest = rest_tokens(&args);
        match Command::delete_command(rest) {
            Result::Ok((main_command, warnings)) => Ok((
                Config { main_command, current_directory },
                warnings,
            )),
            Result::Err(e) => Err(e),
        }
    } else if is_ls {
        let rest = rest_tokens(&args);
        match Command::list_command(&current_directory, rest) {
            Result::Ok((main_command, warnings)) => Ok((
                Config { main_command, current_directory },
                warnings,
            )),
            Result::Err(e) => Err(e),
        }
    } else if is_cls {
        Ok((Config { main_command: Command::Clear, current_directory }, Vec::new()))
    } else {
        let m = String::from_str("Cannot recognise the command \"").concat(args[1].as_str()).concat(
            "\".",
        );
        proof {
            assert(m@ =~= unrecognized_msg(args@[1]@));
        }
        Err(CocoError::UnrecognizedCommand(m))
    }
}

impl Config {
    /// Runs the resolved command against the snapshot. Delete and list walk
    /// their targets in order, record one event per completed target, and
    /// stop at the first failure; the other commands are not supported.
    #[verifier::loop_isolation(false)]
    pub fn run(&self, fs: &mut FsState, out: &mut Vec<RunEvent>) -> (r: Fallible<()>)
        requires
            old(fs).wf(),
        ensures
            final(fs).wf(),
            (match self.main_command {
                Command::Delete { targets, arguments } => {
                    let ts = target_views(targets@);
                    &&& final(fs).entries@ == delete_fold(old(fs).entries@, ts)
                    &&& forall|k: int|
                        0 <= k < old(out)@.len() ==> #[trigger] final(out)@[k] == old(out)@[k]
                    &&& (match first_missing(old(fs).entries@, ts) {
                        None => {
                            &&& r is Ok
                            &&& final(out)@.len() == old(out)@.len() + targets@.len()
                            &&& forall|k: int|
                                0 <= k < targets@.len() ==> ((#[trigger] final(out)@[old(
                                    out,
                                )@.len() + k]) matches RunEvent::Deleted { path } && path@
                                    == targets@[k]@)
                        },
                        Some(m) => {
                            &&& (match r {
                                Result::Err(e) => e matches CocoError::PathNotFound(msg) && msg@
                                    == delete_missing_msg(targets@[m]@),
                                Result::Ok(_) => false,
                            })
                            &&& final(out)@.len() == old(out)@.len() + m
                            &&& forall|k: int|
                                0 <= k < m ==> ((#[trigger] final(out)@[old(out)@.len() + k])
                                    matches RunEvent::Deleted { path } && path@ == targets@[k]@)
                        },
                    })
                },
                Command::List { targets, arguments } => {
                    let ts = target_views(targets@);
                    &&& *final(fs) == *old(fs)
                    &&& forall|k: int|
                        0 <= k < old(out)@.len() ==> #[trigger] final(out)@[k] == old(out)@[k]
                    &&& (match first_unlistable(old(fs).entries@, ts) {
                        None => {
                            &&& r is Ok
                            &&& final(out)@.len() == old(out)@.len() + targets@.len()
                            &&& forall|k: int|
                                0 <= k < targets@.len() ==> ((#[trigger] final(out)@[old(
                                    out,
                                )@.len() + k]) matches RunEvent::Listed { target, entries }
                                    && target@ == targets@[k]@ && path_views(entries@)
                                    == entry_paths(
                                    list_spec(old(fs).entries@, ts[k], arguments@),
                                ))
                        },
                        Some(m) => {
                            &&& (match r {
                                Result::Err(e) => if !contains_path(old(fs).entries@, ts[m]) {
                                    e matches CocoError::PathNotFound(msg) && msg@
                                        == list_missing_msg(targets@[m]@)
                                } else {
                                    e matches CocoError::NotADirectory(msg) && msg@ == not_dir_msg(
                                        targets@[m]@,
                                    )
                                },
                                Result::Ok(_) => false,
                            })
                            &&& final(out)@.len() == old(out)@.len() + m
                            &&& forall|k: int|
                                0 <= k < m ==> ((#[trigger] final(out)@[old(out)@.len() + k])
                                    matches RunEvent::Listed { target, entries } && target@
                                    == targets@[k]@ && path_views(entries@) == entry_paths(
                                    list_spec(old(fs).entries@, ts[k], arguments@),
                                ))
                        },
                    })
                },
                _ => (match r {
                    Result::Err(e) => e is Unsupported && *final(fs) == *old(fs) && final(out)@
                        == old(out)@,
                    Result::Ok(_) => false,
                }),
            }),
    {
        match &self.main_command {
            Command::Delete { targets, arguments: _ } => {
                let ghost ts = target_views(targets@);
                let ghost s0 = fs.entries@;
                let ghost out0 = out@;
                let mut idx: usize = 0;
                proof {
                    assert(ts.take(0) =~= Seq::<Seq<Seq<char>>>::empty());
                }
                while idx < targets.len()
                    invariant
                        fs.wf(),
                        idx <= targets@.len(),
                        ts == target_views(targets@),
                        s0 == old(fs).entries@,
                        out0 == old(out)@,
                        first_missing(s0, ts.take(idx as int)) is None,
                        fs.entries@ == delete_fold(s0, ts.take(idx as int)),
                        out@.len() == out0.len() + idx,
                        forall|k: int| 0 <= k < out0.len() ==> #[trigger] out@[k] == out0[k],
                        forall|k: int|
                            0 <= k < idx ==> ((#[trigger] out@[out0.len() + k])
                                matches RunEvent::Deleted { path } && path@ == targets@[k]@),
                    decreases targets@.len() - idx,
                {
                    let ghost pre = fs.entries@;
                    proof {
                        assert(ts[idx as int] == split_segs(targets@[idx as int]@));
                        assert(ts.take(idx + 1) =~= ts.take(idx as int).push(ts[idx as int]));
                        lemma_delete_fold_push(s0, ts.take(idx as int), ts[idx as int]);
                    }
                    match delete_path(fs, targets[idx].as_str()) {
                        Result::Ok(_) => {
                            out.push(RunEvent::Deleted { path: targets[idx].clone() });
                            idx += 1;
                        },
                        Result::Err(e) => {
                            proof {
                                lemma_delete_fold_stops(s0, ts, idx as int);
                            }
                            return Err(e);
                        },
                    }
                }
                proof {
                    assert(ts.take(targets@.len() as int) =~= ts);
                }
                Ok(())
            },
            Command::List { targets, arguments } => {
                let ghost ts = target_views(targets@);
                let ghost s0 = fs.entries@;
                let ghost out0 = out@;
                let ghost fs0 = *fs;
                let mut idx: usize = 0;
                while idx < targets.len()
                    invariant
                        fs.wf(),
                        *fs == fs0,
                        fs0 == *old(fs),
                        idx <= targets@.len(),
                        ts == target_views(targets@),
                        s0 == old(fs).entries@,
                        out0 == old(out)@,
                        forall|k: int| 0 <= k < idx ==> dir_at(s0, #[trigger] ts[k]),
                        out@.len() == out0.len() + idx,
                        forall|k: int| 0 <= k < out0.len() ==> #[trigger] out@[k] == out0[k],
                        forall|k: int|
                            0 <= k < idx ==> ((#[trigger] out@[out0.len() + k])
                                matches RunEvent::Listed { target, entries } && target@
                                == targets@[k]@ && path_views(entries@) == entry_paths(
                                list_spec(s0, ts[k], arguments@),
                            )),
                    decreases targets@.len() - idx,
                {
                    proof {
                        assert(ts[idx as int] == split_segs(targets@[idx as int]@));
                    }
                    match list_path(fs, targets[idx].as_str(), arguments) {
                        Result::Ok(v) => {
                            out.push(RunEvent::Listed { target: targets[idx].clone(), entries: v });
                            idx += 1;
                        },
                        Result::Err(e) => {
                            proof {
                                lemma_first_unlistable(s0, ts, idx as int);
                            }
                            return Err(e);
                        },
                    }
                }
                proof {
                    lemma_first_unlistable(s0, ts, targets@.len() as int);
                }
                Ok(())
            },
            Command::Mkdir { target: _, name: _ } => Err(CocoError::Unsupported),
            Command::Clear => Err(CocoError::Unsupported),
            Command::Help => Err(CocoError::Unsupported),
            Command::Run {} => Err(CocoError::Unsupported),
        }
    }
}

} // verus!
