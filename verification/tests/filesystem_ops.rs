use coco::command::Command;
use coco::config::{Config, RunEvent};
use coco::errors::CocoError;
use coco::filesystem::delete::delete_path;
use coco::filesystem::list::{list_path, ListArguments};
use coco::filesystem::FsState;
use coco::glob::GlobPattern;

fn seg(path: &str) -> Vec<String> {
    let mut v = Vec::new();
    for part in path.split('/') {
        if !part.is_empty() {
            v.push(part.to_string());
        }
    }
    v
}

/// A snapshot holding /tmp/a/x.txt and /tmp/a/b/y.txt.
fn sample_tree() -> FsState {
    let mut fs = FsState::new();
    fs.add_dir(seg("tmp"));
    fs.add_dir(seg("tmp/a"));
    fs.add_file(seg("tmp/a/x.txt"));
    fs.add_dir(seg("tmp/a/b"));
    fs.add_file(seg("tmp/a/b/y.txt"));
    fs
}

fn paths_of(fs: &FsState) -> Vec<String> {
    let mut v = Vec::new();
    for e in &fs.entries {
        v.push(e.path.join("/"));
    }
    v
}

fn joined(entries: &Vec<Vec<String>>) -> Vec<String> {
    let mut v = Vec::new();
    for e in entries {
        v.push(e.join("/"));
    }
    v
}

#[test]
fn delete_missing_path_fails_and_mutates_nothing() {
    let mut fs = sample_tree();
    let before = paths_of(&fs);
    let r = delete_path(&mut fs, "tmp/zzz");
    assert!(matches!(r, Err(CocoError::PathNotFound(_))));
    if let Err(e) = r {
        assert_eq!(
            e.message(),
            "The system cannot find \"tmp/zzz\". It may have been moved or already deleted."
        );
    }
    assert_eq!(paths_of(&fs), before);
}

#[test]
fn delete_directory_removes_whole_tree() {
    let mut fs = sample_tree();
    let r = delete_path(&mut fs, "/tmp/a");
    assert!(r.is_ok());
    assert_eq!(paths_of(&fs), vec!["tmp".to_string()]);
}

#[test]
fn delete_single_file_keeps_siblings() {
    let mut fs = sample_tree();
    let r = delete_path(&mut fs, "tmp/a/x.txt");
    assert!(r.is_ok());
    assert_eq!(
        paths_of(&fs),
        vec![
            "tmp".to_string(),
            "tmp/a".to_string(),
            "tmp/a/b".to_string(),
            "tmp/a/b/y.txt".to_string(),
        ]
    );
}

#[test]
fn list_no_options_yields_immediate_children() {
    let fs = sample_tree();
    let r = list_path(&fs, "tmp/a", &vec![]);
    assert!(r.is_ok());
    assert_eq!(
        joined(&r.unwrap()),
        vec!["tmp/a/x.txt".to_string(), "tmp/a/b".to_string()]
    );
}

#[test]
fn list_depth_zero_equals_no_options() {
    let fs = sample_tree();
    let plain = list_path(&fs, "tmp", &vec![]).unwrap();
    let depth0 = list_path(&fs, "tmp", &vec![ListArguments::Depth(0)]).unwrap();
    assert_eq!(plain, depth0);
    assert_eq!(joined(&plain), vec!["tmp/a".to_string()]);
}

#[test]
fn list_errors_on_missing_and_file_targets() {
    let fs = sample_tree();
    let missing = list_path(&fs, "tmp/zzz", &vec![]);
    assert!(matches!(missing, Err(CocoError::PathNotFound(_))));
    if let Err(e) = missing {
        assert_eq!(e.message(), "Could not find the directory path \"tmp/zzz\".");
    }
    let file = list_path(&fs, "tmp/a/x.txt", &vec![]);
    assert!(matches!(file, Err(CocoError::NotADirectory(_))));
    if let Err(e) = file {
        assert_eq!(e.message(), "\"tmp/a/x.txt\" is not a directory.");
    }
}

#[test]
fn list_recursive_descends_unboundedly() {
    let fs = sample_tree();
    let r = list_path(&fs, "tmp", &vec![ListArguments::Recursive]).unwrap();
    assert_eq!(
        joined(&r),
        vec![
            "tmp/a".to_string(),
            "tmp/a/x.txt".to_string(),
            "tmp/a/b".to_string(),
            "tmp/a/b/y.txt".to_string(),
        ]
    );
}

#[test]
fn list_depth_bounds_the_descent() {
    let fs = sample_tree();
    let one = list_path(&fs, "tmp", &vec![ListArguments::Depth(1)]).unwrap();
    assert_eq!(
        joined(&one),
        vec![
            "tmp/a".to_string(),
            "tmp/a/x.txt".to_string(),
            "tmp/a/b".to_string(),
        ]
    );
    let bounded = list_path(
        &fs,
        "tmp",
        &vec![ListArguments::Recursive, ListArguments::Depth(0)],
    )
    .unwrap();
    assert_eq!(joined(&bounded), vec!["tmp/a".to_string()]);
}

#[test]
fn list_glob_filters_names() {
    let mut fs = FsState::new();
    fs.add_dir(seg("tmp"));
    fs.add_dir(seg("tmp/c"));
    fs.add_file(seg("tmp/c/m.txt"));
    fs.add_file(seg("tmp/c/n.rs"));
    let r = list_path(
        &fs,
        "/tmp/c",
        &vec![ListArguments::GlobPattern(GlobPattern::new("*.rs".to_string()))],
    )
    .unwrap();
    assert_eq!(joined(&r), vec!["tmp/c/n.rs".to_string()]);
}

#[test]
fn run_delete_stops_at_first_failure() {
    let mut fs = sample_tree();
    let config = Config {
        main_command: Command::Delete {
            targets: vec![
                "tmp/a/x.txt".to_string(),
                "tmp/zzz".to_string(),
                "tmp/a/b".to_string(),
            ],
            arguments: vec![],
        },
        current_directory: "home".to_string(),
    };
    let mut out = Vec::new();
    let r = config.run(&mut fs, &mut out);
    assert!(matches!(r, Err(CocoError::PathNotFound(_))));
    assert_eq!(out.len(), 1);
    assert!(matches!(&out[0], RunEvent::Deleted { path } if path == "tmp/a/x.txt"));
    // The first target is gone, and the aborted run never reached the third.
    assert_eq!(
        paths_of(&fs),
        vec![
            "tmp".to_string(),
            "tmp/a".to_string(),
            "tmp/a/b".to_string(),
            "tmp/a/b/y.txt".to_string(),
        ]
    );
}

#[test]
fn run_delete_reports_every_target() {
    let mut fs = sample_tree();
    let config = Config {
        main_command: Command::Delete {
            targets: vec!["tmp/a/b".to_string(), "tmp/a/x.txt".to_string()],
            arguments: vec![],
        },
        current_directory: "home".to_string(),
    };
    let mut out = Vec::new();
    let r = config.run(&mut fs, &mut out);
    assert!(r.is_ok());
    assert_eq!(out.len(), 2);
    assert!(matches!(&out[0], RunEvent::Deleted { path } if path == "tmp/a/b"));
    assert!(matches!(&out[1], RunEvent::Deleted { path } if path == "tmp/a/x.txt"));
    assert_eq!(paths_of(&fs), vec!["tmp".to_string(), "tmp/a".to_string()]);
}

#[test]
fn run_list_records_entries_per_target() {
    let mut fs = sample_tree();
    let config = Config {
        main_command: Command::List {
            targets: vec!["tmp".to_string(), "tmp/a/b".to_string()],
            arguments: vec![],
        },
        current_directory: "home".to_string(),
    };
    let mut out = Vec::new();
    let r = config.run(&mut fs, &mut out);
    assert!(r.is_ok());
    assert_eq!(out.len(), 2);
    match &out[0] {
        RunEvent::Listed { target, entries } => {
            assert_eq!(target, "tmp");
            assert_eq!(joined(entries), vec!["tmp/a".to_string()]);
        }
        _ => panic!("expected a listing event"),
    }
    match &out[1] {
        RunEvent::Listed { target, entries } => {
            assert_eq!(target, "tmp/a/b");
            assert_eq!(joined(entries), vec!["tmp/a/b/y.txt".to_string()]);
        }
        _ => panic!("expected a listing event"),
    }
}

#[test]
fn run_list_aborts_on_first_bad_target() {
    let mut fs = sample_tree();
    let config = Config {
        main_command: Command::List {
            targets: vec!["tmp/zzz".to_string(), "tmp".to_string()],
            arguments: vec![],
        },
        current_directory: "home".to_string(),
    };
    let mut out = Vec::new();
    let r = config.run(&mut fs, &mut out);
    assert!(matches!(r, Err(CocoError::PathNotFound(_))));
    assert_eq!(out.len(), 0);
}

#[test]
fn run_rejects_unimplemented_commands() {
    let mut fs = FsState::new();
    let mut out = Vec::new();
    let config = Config {
        main_command: Command::Clear,
        current_directory: "home".to_string(),
    };
    let r = config.run(&mut fs, &mut out);
    assert!(matches!(r, Err(CocoError::Unsupported)));
    let help = Config {
        main_command: Command::Help,
        current_directory: "home".to_string(),
    };
    assert!(matches!(help.run(&mut fs, &mut out), Err(CocoError::Unsupported)));
    assert_eq!(out.len(), 0);
}
