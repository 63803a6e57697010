//! Moving files and directories.
use moulin::server::moving::{move_path, EntryName, MoveAction, MoveEvent, MoveStep};

fn text(bytes: &[u8]) -> String {
    String::from_utf8(bytes.to_vec()).unwrap()
}

fn shown(action: &MoveAction) -> String {
    match action {
        MoveAction::MakeParent(p) => format!("parent {}", text(p)),
        MoveAction::Rename { source, destination } => {
            format!("rename {} {}", text(source), text(destination))
        }
        MoveAction::TellKind(p) => format!("kind {}", text(p)),
        MoveAction::MakeDir(p) => format!("mkdir {}", text(p)),
        MoveAction::List(p) => format!("list {}", text(p)),
        MoveAction::CopyFile { src, dst } => format!("copy {} {}", text(src), text(dst)),
        MoveAction::LeadsToDir(p) => format!("dir? {}", text(p)),
        MoveAction::RemoveTree(p) => format!("rm -r {}", text(p)),
        MoveAction::RemoveFile(p) => format!("rm {}", text(p)),
    }
}

/// Runs a move on a file system that tells the directories below, and fails at one action.
fn run(dirs: &[(&str, &[&str])], fails_at: &[&str]) -> (Vec<String>, Result<(), String>) {
    let mut log = Vec::new();
    let mut at = move_path(b"/a".to_vec(), b"/b/c".to_vec());
    loop {
        match at {
            MoveStep::Done => return (log, Ok(())),
            MoveStep::Fail(e) => return (log, Err(e.message())),
            MoveStep::Do { task, action } => {
                let line = shown(&action);
                let entries = |p: &[u8]| dirs.iter().find(|d| d.0.as_bytes() == p);
                let event = if fails_at.contains(&line.as_str()) {
                    MoveEvent::Failed(format!("no {}", line))
                } else {
                    match &action {
                        MoveAction::TellKind(p) | MoveAction::LeadsToDir(p) => {
                            MoveEvent::IsDir(entries(p).is_some())
                        }
                        MoveAction::List(p) => MoveEvent::Names(
                            entries(p)
                                .unwrap()
                                .1
                                .iter()
                                .map(|n| EntryName { bytes: n.as_bytes().to_vec() })
                                .collect(),
                        ),
                        _ => MoveEvent::Done,
                    }
                };
                log.push(line);
                at = task.advance(event);
            }
        }
    }
}

#[test]
fn a_new_name_is_enough_on_one_file_system() {
    let (log, end) = run(&[], &[]);
    assert_eq!(log, vec!["parent /b/c", "rename /a /b/c"]);
    assert_eq!(end, Ok(()));
}

#[test]
fn a_file_is_copied_and_removed() {
    let (log, end) = run(&[], &["rename /a /b/c"]);
    assert_eq!(
        log,
        vec!["parent /b/c", "rename /a /b/c", "kind /a", "parent /b/c", "copy /a /b/c", "dir? /a", "rm /a"]
    );
    assert_eq!(end, Ok(()));
}

#[test]
fn the_source_goes_last() {
    let tree: &[(&str, &[&str])] = &[("/a", &["x", "d", "y"]), ("/a/d", &["z"])];
    let (log, end) = run(tree, &["rename /a /b/c"]);
    assert_eq!(end, Ok(()));
    assert_eq!(
        log[2..].to_vec(),
        vec![
            "kind /a",
            "mkdir /b/c",
            "list /a",
            "kind /a/x",
            "parent /b/c/x",
            "copy /a/x /b/c/x",
            "kind /a/d",
            "mkdir /b/c/d",
            "list /a/d",
            "kind /a/d/z",
            "parent /b/c/d/z",
            "copy /a/d/z /b/c/d/z",
            "kind /a/y",
            "parent /b/c/y",
            "copy /a/y /b/c/y",
            "dir? /a",
            "rm -r /a",
        ]
    );
}

#[test]
fn an_empty_directory_is_moved() {
    let (log, end) = run(&[("/a", &[])], &["rename /a /b/c"]);
    assert_eq!(end, Ok(()));
    assert_eq!(log[3..].to_vec(), vec!["mkdir /b/c", "list /a", "dir? /a", "rm -r /a"]);
}

#[test]
fn a_failure_leaves_the_source() {
    let tree: &[(&str, &[&str])] = &[("/a", &["x"])];
    for failing in ["parent /b/c", "kind /a", "mkdir /b/c", "list /a", "copy /a/x /b/c/x"] {
        let (log, end) = run(tree, &["rename /a /b/c", failing]);
        assert_eq!(end, Err(format!("no {}", failing)));
        assert!(log.iter().all(|l| !l.starts_with("rm")));
    }
    let (_, end) = run(tree, &["rename /a /b/c", "rm -r /a"]);
    assert_eq!(end, Err("no rm -r /a".to_string()));
}
