//! The typed command grammar, and the parsing of raw argument tokens into
//! it: tokens beginning with `--` are flags, every other token is a target
//! path.

use vstd::prelude::*;
use vstd::seq_lib::*;
use vstd::string::*;
use crate::errors::{CocoError, Fallible};
use crate::filesystem::delete::DeleteArguments;
use crate::filesystem::list::ListArguments;
use crate::filesystem::lemma_filter_push;
use crate::paths::str_views;

verus! {

/// A command the grammar understands, with its operands.
#[derive(Debug)]
pub enum Command {
    /// Deletes each target path recursively.
    Delete { targets: Vec<String>, arguments: Vec<DeleteArguments> },
    /// Lists the files and folders in each target directory; the current
    /// directory when no target is given.
    List { targets: Vec<String>, arguments: Vec<ListArguments> },
    /// Makes a new directory. Recognised, not implemented.
    Mkdir { target: String, name: String },
    /// Clears the terminal. Recognised, not implemented.
    Clear,
    /// Shows usage. Recognised, not implemented.
    Help,
    /// Runs an external command. Recognised, not implemented.
    Run {},
}

/// A flag token begins with two dashes.
pub open spec fn is_flag_token(t: Seq<char>) -> bool {
    t.len() >= 2 && t[0] == '-' && t[1] == '-'
}

/// The test for a positional (non-flag) token.
pub open spec fn pos_pred() -> spec_fn(Seq<char>) -> bool {
    |t: Seq<char>| !is_flag_token(t)
}

/// The test for a flag token.
pub open spec fn flag_pred() -> spec_fn(Seq<char>) -> bool {
    |t: Seq<char>| is_flag_token(t)
}

/// The tokens that name target paths, in order.
pub open spec fn positional_views(toks: Seq<Seq<char>>) -> Seq<Seq<char>> {
    toks.filter(pos_pred())
}

/// The flag tokens, in order.
pub open spec fn flag_views(toks: Seq<Seq<char>>) -> Seq<Seq<char>> {
    toks.filter(flag_pred())
}

/// The warning issued for an unrecognised flag.
pub open spec fn warning_for(t: Seq<char>) -> Seq<char> {
    "Invalid argument \""@ + t + "\"."@
}

/// The warnings for all the flag tokens: every flag is unrecognised, since
/// flag matching is an extension point the grammar leaves open.
pub open spec fn warnings_for(toks: Seq<Seq<char>>) -> Seq<Seq<char>> {
    flag_views(toks).map_values(|t: Seq<char>| warning_for(t))
}

/// What a successful delete parse yields: one target per positional token,
/// no consumed arguments, one warning per flag token.
pub open spec fn parsed_delete(toks: Seq<Seq<char>>, c: Command, w: Seq<String>) -> bool {
    &&& c matches Command::Delete { targets, arguments } && str_views(targets@)
        == positional_views(toks) && arguments@.len() == 0
    &&& str_views(w) == warnings_for(toks)
}

/// What a list parse yields: the positional tokens as targets, or the
/// current directory when there are none; no consumed arguments; one
/// warning per flag token.
pub open spec fn parsed_list(toks: Seq<Seq<char>>, cwd: Seq<char>, c: Command, w: Seq<String>) -> bool {
    &&& c matches Command::List { targets, arguments } && (if positional_views(toks).len() == 0 {
        str_views(targets@) =~= seq![cwd]
    } else {
        str_views(targets@) == positional_views(toks)
    }) && arguments@.len() == 0
    &&& str_views(w) == warnings_for(toks)
}

/// Whether this token is a flag.
fn is_flag(arg: &String) -> (r: bool)
    ensures
        r == is_flag_token(arg@),
{
    let n = arg.as_str().unicode_len();
    if n < 2 {
        return false;
    }
    let c0 = arg.as_str().get_char(0);
    let c1 = arg.as_str().get_char(1);
    c0 == '-' && c1 == '-'
}

/// Splits tokens into targets and flag warnings, the shared step of the
/// delete and list grammars.
fn scan_tokens(args: &Vec<String>) -> (r: (Vec<String>, Vec<String>))
    ensures
        str_views(r.0@) == positional_views(str_views(args@)),
        str_views(r.1@) == warnings_for(str_views(args@)),
{
    let ghost toks = str_views(args@);
    let mut targets: Vec<String> = Vec::new();
    let mut warnings: Vec<String> = Vec::new();
    let mut i: usize = 0;
    proof {
        assert(toks.take(0) =~= Seq::<Seq<char>>::empty());
        assert(str_views(targets@) =~= positional_views(toks.take(0)));
        assert(str_views(warnings@) =~= warnings_for(toks.take(0)));
    }
    while i < args.len()
        invariant
            i <= args@.len(),
            toks == str_views(args@),
            str_views(targets@) == positional_views(toks.take(i as int)),
            str_views(warnings@) == warnings_for(toks.take(i as int)),
        decreases args@.len() - i,
    {
        let ghost tv = args@[i as int]@;
        proof {
            assert(toks[i as int] == tv);
            assert(toks.take(i + 1) =~= toks.take(i as int).push(tv));
            lemma_filter_push(toks.take(i as int), pos_pred(), tv);
            lemma_filter_push(toks.take(i as int), flag_pred(), tv);
        }
        if is_flag(&args[i]) {
            let ghost w0 = warnings@;
            let m = String::from_str("Invalid argument \"").concat(args[i].as_str()).concat(
                "\".",
            );
            warnings.push(m);
            proof {
                assert(m@ =~= warning_for(tv));
                assert(str_views(warnings@) =~= str_views(w0).push(warning_for(tv)));
                assert(warnings_for(toks.take(i + 1)) =~= warnings_for(toks.take(i as int)).push(
                    warning_for(tv),
                ));
            }
        } else {
            let ghost t0 = targets@;
            targets.push(args[i].clone());
            proof {
                assert(str_views(targets@) =~= str_views(t0).push(tv));
            }
        }
        proof {
            assert(warnings_for(toks.take(i + 1)) =~= warnings_for(toks.take(i as int)) + if (
            flag_pred())(tv) {
                seq![warning_for(tv)]
            } else {
                Seq::<Seq<char>>::empty()
            });
        }
        i += 1;
    }
    proof {
        assert(toks.take(args@.len() as int) =~= toks);
    }
    (targets, warnings)
}

impl Command {
    /// Parses the tokens after `delete`: every positional token is a
    /// target, every flag draws a warning; no target at all is an error.
    pub fn delete_command(args: Vec<String>) -> (r: Fallible<(Self, Vec<String>)>)
        ensures
            (match r {
                Result::Ok(p) => positional_views(str_views(args@)).len() > 0 && parsed_delete(
                    str_views(args@),
                    p.0,
                    p.1@,
                ),
                Result::Err(e) => positional_views(str_views(args@)).len() == 0 && e
                    is NotFoundTargetMissing,
            }),
    {
        let (targets, warnings) = scan_tokens(&args);
        if targets.len() == 0 {
            Err(CocoError::NotFoundTargetMissing)
        } else {
            Ok((Self::Delete { targets, arguments: Vec::new() }, warnings))
        }
    }

    /// Parses the tokens after `list`: positional tokens are targets, and
    /// the current directory stands in when there are none; every flag
    /// draws a warning. Never an error.
    pub fn list_command(current_directory: &String, args: Vec<String>) -> (r: Fallible<
        (Self, Vec<String>),
    >)
        ensures
            (match r {
                Result::Ok(p) => parsed_list(str_views(args@), current_directory@, p.0, p.1@),
                Result::Err(_) => false,
            }),
    {
        let (mut targets, warnings) = scan_tokens(&args);
        if targets.len() == 0 {
            targets.push(current_directory.clone());
            proof {
                assert(str_views(targets@) =~= seq![current_directory@]);
            }
        }
        Ok((Self::List { targets, arguments: Vec::new() }, warnings))
    }
}

} // verus!
