use coco::build_config;
use coco::command::Command;
use coco::errors::CocoError;
use coco::glob::glob_matches;
use coco::paths::split_path;
use coco::terminal;
use coco::terminal::{Fmt, FmtTrait};

fn toks(words: &[&str]) -> Vec<String> {
    let mut v = Vec::new();
    for w in words {
        v.push(w.to_string());
    }
    v
}

#[test]
fn delete_without_targets_is_an_error() {
    let r = Command::delete_command(vec![]);
    assert!(matches!(r, Err(CocoError::NotFoundTargetMissing)));
    let flags_only = Command::delete_command(toks(&["--glob=*.ts"]));
    assert!(matches!(flags_only, Err(CocoError::NotFoundTargetMissing)));
}

#[test]
fn list_without_targets_defaults_to_current_directory() {
    let cwd = "home/me".to_string();
    let r = Command::list_command(&cwd, vec![]);
    match r {
        Ok((Command::List { targets, arguments }, warnings)) => {
            assert_eq!(targets, vec!["home/me".to_string()]);
            assert_eq!(arguments.len(), 0);
            assert_eq!(warnings.len(), 0);
        }
        _ => panic!("expected a list command"),
    }
}

#[test]
fn parser_keeps_positional_order_and_warns_on_flags() {
    let r = Command::delete_command(toks(&["a.txt", "--force", "b.txt", "--x"]));
    match r {
        Ok((Command::Delete { targets, arguments }, warnings)) => {
            assert_eq!(targets, vec!["a.txt".to_string(), "b.txt".to_string()]);
            assert_eq!(arguments.len(), 0);
            assert_eq!(
                warnings,
                vec![
                    "Invalid argument \"--force\".".to_string(),
                    "Invalid argument \"--x\".".to_string(),
                ]
            );
        }
        _ => panic!("expected a delete command"),
    }
}

#[test]
fn build_config_requires_the_binary_token() {
    let r = build_config(vec![], "wd".to_string());
    assert!(matches!(r, Err(CocoError::EnvironmentUnavailable)));
    if let Err(e) = r {
        assert_eq!(
            e.message(),
            "The path to the binary directory could not be determined."
        );
    }
}

#[test]
fn build_config_without_subcommand_is_help() {
    let r = build_config(toks(&["coco"]), "wd".to_string());
    match r {
        Ok((config, warnings)) => {
            assert!(matches!(config.main_command, Command::Help));
            assert_eq!(config.current_directory, "wd");
            assert_eq!(warnings.len(), 0);
        }
        _ => panic!("expected a help command"),
    }
}

#[test]
fn build_config_rejects_unknown_subcommands() {
    let r = build_config(toks(&["coco", "frobnicate"]), "wd".to_string());
    assert!(matches!(r, Err(CocoError::UnrecognizedCommand(_))));
    if let Err(e) = r {
        assert_eq!(e.message(), "Cannot recognise the command \"frobnicate\".");
    }
}

#[test]
fn build_config_accepts_delete_aliases() {
    for name in ["del", "delete"] {
        let r = build_config(toks(&["coco", name, "x.txt"]), "wd".to_string());
        match r {
            Ok((config, _)) => match config.main_command {
                Command::Delete { targets, .. } => {
                    assert_eq!(targets, vec!["x.txt".to_string()]);
                }
                _ => panic!("expected a delete command"),
            },
            _ => panic!("expected a delete command"),
        }
    }
    let empty = build_config(toks(&["coco", "del"]), "wd".to_string());
    assert!(matches!(empty, Err(CocoError::NotFoundTargetMissing)));
    if let Err(e) = empty {
        assert_eq!(e.message(), "Delete target not specified.");
    }
}

#[test]
fn build_config_accepts_list_aliases() {
    for name in ["ls", "list"] {
        let r = build_config(toks(&["coco", name]), "wd".to_string());
        match r {
            Ok((config, _)) => match config.main_command {
                Command::List { targets, .. } => {
                    assert_eq!(targets, vec!["wd".to_string()]);
                }
                _ => panic!("expected a list command"),
            },
            _ => panic!("expected a list command"),
        }
    }
}

#[test]
fn build_config_accepts_clear_aliases() {
    for name in ["cls", "clear"] {
        let r = build_config(toks(&["coco", name]), "wd".to_string());
        match r {
            Ok((config, warnings)) => {
                assert!(matches!(config.main_command, Command::Clear));
                assert_eq!(warnings.len(), 0);
            }
            _ => panic!("expected a clear command"),
        }
    }
}

#[test]
fn glob_star_matches_runs_of_characters() {
    assert!(glob_matches("*.rs", "n.rs"));
    assert!(!glob_matches("*.rs", "m.txt"));
    assert!(glob_matches("*", "anything"));
    assert!(glob_matches("*", ""));
    assert!(glob_matches("a*b*c", "aXbYYc"));
    assert!(!glob_matches("a*b*c", "aXbYY"));
}

#[test]
fn glob_question_mark_matches_one_character() {
    assert!(glob_matches("?at", "cat"));
    assert!(!glob_matches("?at", "at"));
    assert!(!glob_matches("?at", "flat"));
    assert!(glob_matches("", ""));
    assert!(!glob_matches("", "a"));
}

#[test]
fn split_path_drops_empty_segments() {
    assert_eq!(split_path("/tmp//a/"), vec!["tmp".to_string(), "a".to_string()]);
    assert_eq!(split_path("tmp/a/x.txt").len(), 3);
    assert_eq!(split_path(""), Vec::<String>::new());
    assert_eq!(split_path("///"), Vec::<String>::new());
}

#[test]
fn fmt_renders_codes_and_reset() {
    assert_eq!(Fmt::from("hi").red().render(), "\u{1b}[31mhi\u{1b}[0m");
    assert_eq!(Fmt::from("x").render(), "\u{1b}[mx\u{1b}[0m");
    assert_eq!(
        Fmt::from("x").bg_blue().bold().underline().render(),
        "\u{1b}[44;1;4mx\u{1b}[0m"
    );
    assert_eq!(Fmt::from("x").apply(vec![1, 44]).render(), "\u{1b}[1;44mx\u{1b}[0m");
    assert_eq!(Fmt::from("x").apply(vec![255]).render(), "\u{1b}[255mx\u{1b}[0m");
}

#[test]
fn fmt_trait_wraps_messages_unstyled() {
    let e = CocoError::Unsupported;
    assert_eq!(
        e.fmt().render(),
        "\u{1b}[mThis operation is not supported yet.\u{1b}[0m"
    );
    let s = "plain".to_string();
    assert_eq!(s.fmt().render(), "\u{1b}[mplain\u{1b}[0m");
}

#[test]
fn terminal_lines_carry_category_tags() {
    assert_eq!(
        terminal::success("done"),
        "\u{1b}[42;37;1m SUCCESS: \u{1b}[0m \u{1b}[32mdone\u{1b}[0m"
    );
    assert_eq!(
        terminal::error("bad"),
        "\u{1b}[41;30;1m ERROR: \u{1b}[0m \u{1b}[31mbad\u{1b}[0m"
    );
    assert_eq!(
        terminal::warn("careful"),
        "\u{1b}[43;30;1m WARNING: \u{1b}[0m \u{1b}[33mcareful\u{1b}[0m"
    );
    assert_eq!(terminal::inform("note"), "\u{1b}[34mnote\u{1b}[0m");
}
