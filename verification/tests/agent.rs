//! The agent's work on a build tree that is held in memory.

use std::collections::BTreeMap;

use rustle::agent::{reply, take_turn, Turn, AGENT_VERSION};
use rustle::proto::{
    read_frame, write_frame, FileEntry, FrameError, LinkEntry, Request, Response, PROTOCOL_VERSION,
};
use rustle::reconcile::{apply_plan, walk_failure, worklist, Step};
use rustle::tree::Tree;
use rustle::walk::{mtime_secs, Answer, EntryKind, Query, Walk};

#[derive(Debug, Clone, PartialEq)]
enum Entry {
    Dir,
    File { size: u64, mtime: u32 },
    Link(String),
    BrokenLink,
    Socket,
}

/// A build root; `None` where it is missing.
struct Disk {
    entries: Option<BTreeMap<String, Entry>>,
    unreadable: Option<String>,
}

fn file(size: u64, mtime: u32) -> Entry {
    Entry::File { size, mtime }
}

fn link(target: &str) -> Entry {
    Entry::Link(target.to_string())
}

impl Disk {
    fn new(entries: &[(&str, Entry)]) -> Disk {
        let map = entries.iter().map(|(rel, e)| (rel.to_string(), e.clone())).collect();
        Disk { entries: Some(map), unreadable: None }
    }

    fn missing() -> Disk {
        Disk { entries: None, unreadable: None }
    }

    fn get(&self, rel: &str) -> Option<&Entry> {
        self.entries.as_ref().and_then(|map| map.get(rel))
    }

    fn has(&self, rel: &str) -> bool {
        self.get(rel).is_some()
    }

    fn names(&self, dir: &str) -> Vec<String> {
        let prefix = if dir.is_empty() { String::new() } else { format!("{dir}/") };
        let mut names: Vec<String> = Vec::new();
        for rel in self.entries.as_ref().unwrap().keys() {
            if let Some(tail) = rel.strip_prefix(prefix.as_str()) {
                if !tail.is_empty() && !tail.contains('/') {
                    names.push(tail.to_string());
                }
            }
        }
        names.reverse();
        names
    }

    /// Runs a walk to its end. Also gives the directories that were opened.
    fn walk(&self, excludes: &[&str], include_hidden: bool) -> (Option<Tree>, Vec<String>) {
        let excludes = excludes.iter().map(|s| s.to_string()).collect();
        let mut walk = Walk::start(self.entries.is_some(), excludes, include_hidden);
        let mut open: Vec<Vec<String>> = Vec::new();
        let mut opened: Vec<String> = Vec::new();
        loop {
            let answer = match walk.query() {
                Query::Finish => return (Some(walk.into_tree()), opened),
                Query::GiveUp => return (None, opened),
                Query::Open(rel) => {
                    if self.unreadable.as_ref() == Some(rel) {
                        Answer::Failed
                    } else {
                        opened.push(rel.clone());
                        open.push(self.names(rel));
                        Answer::Opened
                    }
                }
                Query::NextEntry => match open.last_mut().unwrap().pop() {
                    Some(name) => Answer::Entry(name),
                    None => {
                        open.pop();
                        Answer::Exhausted
                    }
                },
                Query::Kind(rel) => Answer::Kind(match self.get(rel).unwrap() {
                    Entry::Dir => EntryKind::Dir,
                    Entry::File { .. } => EntryKind::File,
                    Entry::Link(_) | Entry::BrokenLink => EntryKind::Symlink,
                    Entry::Socket => EntryKind::Other,
                }),
                Query::ReadLink(rel) => match self.get(rel).unwrap() {
                    Entry::Link(target) => Answer::Target(target.clone()),
                    _ => Answer::Failed,
                },
                Query::Measure(rel) => match self.get(rel).unwrap() {
                    Entry::File { size, mtime } => Answer::Measured { size: *size, mtime: *mtime },
                    _ => Answer::Failed,
                },
            };
            walk.answer(answer);
        }
    }

    fn take(&mut self, step: &Step) -> bool {
        if matches!(step, Step::MakeRoot) {
            let missing = self.entries.is_none();
            self.entries.get_or_insert_with(BTreeMap::new);
            return missing;
        }
        let Some(map) = self.entries.as_mut() else {
            return false;
        };
        match step {
            Step::MakeRoot | Step::Upload(_) => true,
            Step::MakeDir(rel) => {
                let parent_is_there = match rel.rfind('/') {
                    Some(at) => map.get(&rel[..at]) == Some(&Entry::Dir),
                    None => true,
                };
                if !parent_is_there || map.contains_key(rel) {
                    return false;
                }
                map.insert(rel.clone(), Entry::Dir);
                true
            }
            Step::Relink { rel, target } => {
                map.insert(rel.clone(), Entry::Link(target.clone()));
                true
            }
            Step::Remove(rel) => map.remove(rel).is_some(),
        }
    }

    fn reconcile(
        &mut self,
        include_hidden: bool,
        prune: bool,
        excludes: &[&str],
        files: &[FileEntry],
        links: &[LinkEntry],
    ) -> Response {
        let (tree, _) = self.walk(excludes, include_hidden);
        let Some(tree) = tree else {
            return walk_failure("permission denied");
        };
        let steps = apply_plan(&tree, prune, files, links);
        let done = steps.iter().map(|step| self.take(step)).collect();
        worklist(&steps, &done)
    }
}

fn entry(rel: &str, size: u64, mtime: u32) -> FileEntry {
    FileEntry { rel: rel.to_string(), size, mtime }
}

fn link_entry(rel: &str, target: &str) -> LinkEntry {
    LinkEntry { rel: rel.to_string(), target: target.to_string() }
}

#[test]
fn plan_uploads_changed_prunes_stale_and_recreates_links() {
    let mut root = Disk::new(&[
        ("foo.rs", file(3, 1_700_000_000)), // will be reported changed (size differs)
        ("stale.rs", file(1, 1_700_000_000)), // absent locally → pruned
        ("target", Entry::Dir),
        ("target/debug", Entry::Dir),
        ("target/debug/junk", file(3, 1_700_000_000)), // excluded → never pruned
    ]);
    let files = vec![
        entry("foo.rs", 999, 1),    // differs from on-disk "old"
        entry("src/bar.rs", 10, 1), // absent → upload + mkdir
    ];
    let links = vec![link_entry("link.rs", "foo.rs")];

    let resp = root.reconcile(false, true, &["target", ".*"], &files, &links);
    let Response::Worklist { uploads, pruned, symlinks, created_dirs } = resp else {
        panic!("expected worklist, got {resp:?}");
    };

    // foo.rs (changed) and src/bar.rs (absent) are uploads; the new parent dir was created.
    assert!(uploads.contains(&"foo.rs".to_string()));
    assert!(uploads.contains(&"src/bar.rs".to_string()));
    assert_eq!(uploads.len(), 2);
    assert_eq!(root.get("src"), Some(&Entry::Dir), "parent dir pre-created for the host's upload");
    assert_eq!(created_dirs, 1);

    // stale.rs pruned; excluded target/ subtree untouched.
    assert!(!root.has("stale.rs"));
    assert!(root.has("target/debug/junk"));
    assert_eq!(pruned, 1);

    // symlink recreated.
    assert_eq!(symlinks, 1);
    assert_eq!(root.get("link.rs"), Some(&link("foo.rs")));
}

#[test]
fn unchanged_file_is_not_an_upload() {
    let mut root = Disk::new(&[("keep.rs", file(5, mtime_secs(Some(1_700_000_000))))]);
    let manifest = vec![entry("keep.rs", 5, 1_700_000_000)];
    let resp = root.reconcile(false, true, &["target"], &manifest, &[]);
    let Response::Worklist { uploads, pruned, .. } = resp else {
        panic!("expected worklist");
    };
    assert!(uploads.is_empty(), "matching size+mtime must not re-upload");
    assert_eq!(pruned, 0);
}

#[test]
fn missing_root_yields_all_uploads_no_error() {
    let mut root = Disk::missing();
    let files = vec![entry("a.rs", 1, 1)];
    let resp = root.reconcile(false, true, &["target"], &files, &[]);
    match resp {
        Response::Worklist { uploads, .. } => assert_eq!(uploads, vec!["a.rs".to_string()]),
        other => panic!("expected worklist, got {other:?}"),
    }
}

#[test]
fn missing_root_is_made_before_its_contents() {
    let mut root = Disk::missing();
    let files = vec![entry("src/a.rs", 1, 1)];
    let (tree, _) = root.walk(&["target"], false);
    let tree = tree.unwrap();
    assert!(!tree.has_root());
    assert_eq!(
        apply_plan(&tree, true, &files, &[]),
        vec![
            Step::MakeRoot,
            Step::MakeDir("src".to_string()),
            Step::Upload("src/a.rs".to_string()),
        ]
    );
    let resp = root.reconcile(false, true, &["target"], &files, &[]);
    assert_eq!(
        resp,
        Response::Worklist {
            uploads: vec!["src/a.rs".to_string()],
            created_dirs: 2,
            pruned: 0,
            symlinks: 0,
        }
    );
    assert_eq!(root.get("src"), Some(&Entry::Dir));
}

#[test]
fn missing_root_is_not_made_for_nothing() {
    let mut root = Disk::missing();
    let (tree, _) = root.walk(&[], false);
    assert_eq!(apply_plan(&tree.unwrap(), true, &[], &[]), vec![]);
    root.reconcile(false, true, &[], &[], &[]);
    assert!(root.entries.is_none());
    // A symlink is something.
    let links = vec![link_entry("l", "a")];
    assert_eq!(
        apply_plan(&Tree::bare(false), false, &[], &links),
        vec![
            Step::MakeRoot,
            Step::Relink { rel: "l".to_string(), target: "a".to_string() },
        ]
    );
}

#[test]
fn recorded_entry_means_that_the_root_is_there() {
    let mut tree = Tree::bare(false);
    tree.insert_file("a".to_string(), 1, 1);
    assert!(tree.has_root());
    let mut tree = Tree::bare(false);
    tree.insert_link("a".to_string(), "b".to_string());
    assert!(tree.has_root());
    assert!(Tree::new().has_root());
}

#[test]
fn no_step_names_an_excluded_path() {
    let mut root = Disk::new(&[
        ("gone.rs", file(1, 1)),
        ("target", Entry::Dir),
        ("target/keep", file(2, 2)),
        (".git", Entry::Dir),
        (".git/config", file(3, 3)),
    ]);
    let files = vec![entry("a/b/c.rs", 1, 1)];
    let (tree, _) = root.walk(&["target", ".*"], false);
    assert_eq!(
        apply_plan(&tree.unwrap(), true, &files, &[]),
        vec![
            Step::MakeDir("a".to_string()),
            Step::MakeDir("a/b".to_string()),
            Step::Upload("a/b/c.rs".to_string()),
            Step::Remove("gone.rs".to_string()),
        ]
    );
    root.reconcile(false, true, &["target", ".*"], &files, &[]);
    assert_eq!(root.get("target/keep"), Some(&file(2, 2)));
    assert_eq!(root.get(".git/config"), Some(&file(3, 3)));
}

/// Serves the requests in `stdin` until the session ends, and gives what was written.
fn serve(root: &mut Disk, stdin: &[u8]) -> Vec<u8> {
    let mut reader: &[u8] = stdin;
    let mut stdout: Vec<u8> = Vec::new();
    loop {
        match take_turn(read_frame(&mut reader)) {
            Turn::Reply(response) => reply(&mut stdout, &response).unwrap(),
            Turn::ReplyAndEnd(response) => {
                reply(&mut stdout, &response).unwrap();
                return stdout;
            }
            Turn::Reconcile { include_hidden, prune, excludes, files, links } => {
                let excludes: Vec<&str> = excludes.iter().map(|s| s.as_str()).collect();
                let response = root.reconcile(include_hidden, prune, &excludes, &files, &links);
                reply(&mut stdout, &response).unwrap();
            }
            Turn::End => return stdout,
        }
    }
}

#[test]
fn agent_process_reconciles_over_stdio() {
    let mut root = Disk::new(&[
        ("old.rs", file(1, 1_700_000_000)), // size differs from manifest → upload
        ("stale.rs", file(1, 1_700_000_000)), // absent in manifest → pruned
        ("target", Entry::Dir),
        ("target/keep", file(3, 1_700_000_000)), // excluded → never pruned
    ]);
    let mut stdin: Vec<u8> = Vec::new();

    // Handshake.
    write_frame(&mut stdin, &Request::Hello { proto: PROTOCOL_VERSION }.encode()).unwrap();

    // Plan: one changed file, one new (nested) file, one symlink; prune on.
    let plan = Request::Plan {
        include_hidden: false,
        prune: true,
        excludes: vec!["target".to_string(), ".*".to_string()],
        files: vec![entry("old.rs", 999, 1), entry("pkg/new.rs", 1, 1)],
        links: vec![link_entry("l.rs", "old.rs")],
    };
    write_frame(&mut stdin, &plan.encode()).unwrap();
    write_frame(&mut stdin, &Request::Bye.encode()).unwrap();

    let stdout = serve(&mut root, &stdin);
    let mut stdout: &[u8] = &stdout;
    let hello = Response::decode(&read_frame(&mut stdout).unwrap()).unwrap();
    assert!(matches!(hello, Response::HelloOk { .. }));
    let resp = Response::decode(&read_frame(&mut stdout).unwrap()).unwrap();
    match resp {
        Response::Worklist { uploads, pruned, symlinks, .. } => {
            assert!(uploads.contains(&"old.rs".to_string()));
            assert!(uploads.contains(&"pkg/new.rs".to_string()));
            assert_eq!(pruned, 1, "stale.rs pruned, target/ untouched");
            assert_eq!(symlinks, 1);
        }
        other => panic!("expected worklist, got {other:?}"),
    }
    assert!(stdout.is_empty());

    // The agent's effects on the tree.
    assert!(!root.has("stale.rs"), "stale file pruned");
    assert!(root.has("target/keep"), "excluded subtree preserved");
    assert_eq!(root.get("pkg"), Some(&Entry::Dir), "parent dir pre-created for the upload");
    assert_eq!(root.get("l.rs"), Some(&link("old.rs")));
}

#[test]
fn walk_records_files_and_links_and_skips_the_rest() {
    let root = Disk::new(&[
        (".git", Entry::Dir),
        (".git/config", file(7, 7)),
        ("Cargo.toml", file(10, 11)),
        ("broken", Entry::BrokenLink),
        ("src", Entry::Dir),
        ("src/.hidden.rs", file(1, 1)),
        ("src/lib.rs", file(20, 21)),
        ("src/link.rs", link("lib.rs")),
        ("src/sock", Entry::Socket),
        ("target", Entry::Dir),
        ("target/debug", Entry::Dir),
        ("target/debug/junk", file(3, 3)),
    ]);
    let (tree, opened) = root.walk(&["target", ".*"], false);
    let tree = tree.unwrap();
    assert_eq!(opened, vec!["".to_string(), "src".to_string()]);
    assert_eq!(tree.file_paths(), &vec!["Cargo.toml".to_string(), "src/lib.rs".to_string()]);
    assert_eq!(tree.link_paths(), &vec!["src/link.rs".to_string()]);
    assert!(tree.has_file("Cargo.toml", 10, 11));
    assert!(!tree.has_file("Cargo.toml", 10, 12));
    assert!(!tree.has_file("Cargo.toml", 9, 11));
    assert!(tree.has_link("src/link.rs", &"lib.rs".to_string()));
    assert!(!tree.has_link("src/link.rs", &"lib".to_string()));

    let (tree, opened) = root.walk(&["target"], true);
    let tree = tree.unwrap();
    assert_eq!(opened, vec!["".to_string(), ".git".to_string(), "src".to_string()]);
    assert!(tree.has_file(".git/config", 7, 7));
    assert!(tree.has_file("src/.hidden.rs", 1, 1));
    assert!(!tree.has_file("target/debug/junk", 3, 3));
}

#[test]
fn unreadable_directory_fails_the_plan() {
    let mut root = Disk::new(&[("src", Entry::Dir), ("src/lib.rs", file(1, 1))]);
    root.unreadable = Some("src".to_string());
    let resp = root.reconcile(false, true, &[], &[], &[]);
    assert_eq!(
        resp,
        Response::Error {
            message: "failed to read remote build tree: permission denied".to_string()
        }
    );
    assert!(root.has("src/lib.rs"));
}

#[test]
fn answer_to_another_question_changes_nothing() {
    let mut walk = Walk::start(true, vec![], false);
    walk.answer(Answer::Exhausted);
    assert_eq!(walk.query(), &Query::Open(String::new()));
    walk.answer(Answer::Opened);
    walk.answer(Answer::Kind(EntryKind::File));
    assert_eq!(walk.query(), &Query::NextEntry);
    walk.answer(Answer::Entry("a".to_string()));
    walk.answer(Answer::Measured { size: 1, mtime: 1 });
    assert_eq!(walk.query(), &Query::Kind("a".to_string()));
    walk.answer(Answer::Failed);
    assert_eq!(walk.query(), &Query::GiveUp);
    walk.answer(Answer::Opened);
    assert_eq!(walk.query(), &Query::GiveUp);
}

#[test]
fn steps_make_each_directory_once_and_before_its_contents() {
    let tree = Tree::new();
    let files = vec![entry("a/b/c.rs", 1, 1), entry("a/d.rs", 1, 1), entry("top.rs", 1, 1)];
    let links = vec![link_entry("a/e/l", "../d.rs")];
    let steps = apply_plan(&tree, true, &files, &links);
    assert_eq!(
        steps,
        vec![
            Step::MakeDir("a".to_string()),
            Step::MakeDir("a/b".to_string()),
            Step::Upload("a/b/c.rs".to_string()),
            Step::Upload("a/d.rs".to_string()),
            Step::Upload("top.rs".to_string()),
            Step::MakeDir("a/e".to_string()),
            Step::Relink { rel: "a/e/l".to_string(), target: "../d.rs".to_string() },
        ]
    );
}

#[test]
fn mirrored_tree_needs_no_steps() {
    let mut tree = Tree::new();
    tree.insert_file("src/lib.rs".to_string(), 10, 20);
    tree.insert_link("l".to_string(), "src/lib.rs".to_string());
    let files = vec![entry("src/lib.rs", 10, 20)];
    let links = vec![link_entry("l", "src/lib.rs")];
    assert_eq!(apply_plan(&tree, true, &files, &links), vec![]);

    // A changed mtime alone, and a changed target, are enough.
    let files = vec![entry("src/lib.rs", 10, 21)];
    let links = vec![link_entry("l", "src/main.rs")];
    assert_eq!(
        apply_plan(&tree, true, &files, &links),
        vec![
            Step::MakeDir("src".to_string()),
            Step::Upload("src/lib.rs".to_string()),
            Step::Relink { rel: "l".to_string(), target: "src/main.rs".to_string() },
        ]
    );
}

#[test]
fn removals_happen_only_when_pruning() {
    let mut tree = Tree::new();
    tree.insert_file("gone.rs".to_string(), 1, 1);
    tree.insert_link("gone-link".to_string(), "x".to_string());
    tree.insert_file("now-a-link".to_string(), 1, 1);
    let links = vec![link_entry("now-a-link", "y")];
    let relink = Step::Relink { rel: "now-a-link".to_string(), target: "y".to_string() };
    assert_eq!(apply_plan(&tree, false, &[], &links), vec![relink]);
    let relink = Step::Relink { rel: "now-a-link".to_string(), target: "y".to_string() };
    assert_eq!(
        apply_plan(&tree, true, &[], &links),
        vec![
            relink,
            Step::Remove("gone.rs".to_string()),
            Step::Remove("gone-link".to_string()),
        ]
    );
}

#[test]
fn worklist_counts_what_succeeded() {
    let steps = vec![
        Step::MakeDir("a".to_string()),
        Step::MakeDir("b".to_string()),
        Step::MakeRoot,
        Step::Upload("a/x".to_string()),
        Step::Relink { rel: "l".to_string(), target: "a".to_string() },
        Step::Remove("r".to_string()),
        Step::Remove("s".to_string()),
        Step::Upload("b/y".to_string()),
    ];
    let done = vec![true, false, true, false, false, true, true, true];
    assert_eq!(
        worklist(&steps, &done),
        Response::Worklist {
            uploads: vec!["a/x".to_string(), "b/y".to_string()],
            created_dirs: 2,
            pruned: 2,
            symlinks: 0,
        }
    );
}

#[test]
fn mtime_is_cut_to_its_low_bits() {
    assert_eq!(mtime_secs(Some(1_700_000_000)), 1_700_000_000);
    assert_eq!(mtime_secs(Some(0x1_0000_0005)), 5);
    assert_eq!(mtime_secs(None), 0);
}

#[test]
fn agent_turns() {
    let hello = Request::Hello { proto: 77 }.encode();
    assert_eq!(
        take_turn(Ok(hello)),
        Turn::Reply(Response::HelloOk { agent: AGENT_VERSION, proto: PROTOCOL_VERSION })
    );
    assert_eq!(
        take_turn(Ok(vec![99])),
        Turn::ReplyAndEnd(Response::Error { message: "malformed request frame".to_string() })
    );
    assert_eq!(take_turn(Ok(Request::Bye.encode())), Turn::End);
    assert_eq!(take_turn(Err(FrameError::UnexpectedEof)), Turn::End);
}

#[test]
fn malformed_request_is_answered_and_ends_the_session() {
    let mut root = Disk::missing();
    let mut stdin: Vec<u8> = Vec::new();
    write_frame(&mut stdin, &[]).unwrap();
    write_frame(&mut stdin, &Request::Hello { proto: 1 }.encode()).unwrap();
    let stdout = serve(&mut root, &stdin);
    let mut stdout: &[u8] = &stdout;
    assert_eq!(
        Response::decode(&read_frame(&mut stdout).unwrap()),
        Some(Response::Error { message: "malformed request frame".to_string() })
    );
    assert_eq!(read_frame(&mut stdout), Err(FrameError::UnexpectedEof));
}

#[test]
fn second_plan_finds_nothing_to_do() {
    let mut root = Disk::new(&[
        ("stale.rs", file(1, 1)),
        ("src", Entry::Dir),
        ("src/lib.rs", file(3, 1)),
        ("old-link", link("stale.rs")),
        ("now-a-link", file(4, 4)),
    ]);
    let files = vec![entry("src/lib.rs", 5, 2), entry("src/bin/main.rs", 6, 3)];
    let links = vec![link_entry("now-a-link", "src"), link_entry("docs/l", "../src")];
    let resp = root.reconcile(false, true, &["target", ".*"], &files, &links);
    let Response::Worklist { uploads, created_dirs, pruned, symlinks } = resp else {
        panic!("expected worklist");
    };
    assert_eq!(uploads, vec!["src/lib.rs".to_string(), "src/bin/main.rs".to_string()]);
    assert_eq!((created_dirs, pruned, symlinks), (2, 2, 2));

    // The host sends the files, with the manifest's size and mtime.
    for f in &files {
        let map = root.entries.as_mut().unwrap();
        map.insert(f.rel.clone(), file(f.size, f.mtime));
    }
    let (tree, _) = root.walk(&["target", ".*"], false);
    assert_eq!(apply_plan(&tree.unwrap(), true, &files, &links), vec![]);
}

#[test]
fn second_plan_finds_nothing_to_do_where_a_file_replaced_a_link() {
    let mut root = Disk::new(&[("a.rs", link("b.rs")), ("b.rs", file(1, 1))]);
    let files = vec![entry("a.rs", 5, 2), entry("b.rs", 1, 1)];
    let resp = root.reconcile(false, true, &[], &files, &[]);
    let Response::Worklist { uploads, .. } = resp else {
        panic!("expected worklist");
    };
    assert_eq!(uploads, vec!["a.rs".to_string()]);
    root.entries.as_mut().unwrap().insert("a.rs".to_string(), file(5, 2));
    let resp = root.reconcile(false, true, &[], &files, &[]);
    assert_eq!(
        resp,
        Response::Worklist { uploads: vec![], created_dirs: 0, pruned: 0, symlinks: 0 }
    );
}

#[test]
fn second_plan_without_pruning_finds_nothing_to_do() {
    let mut root = Disk::new(&[
        ("extra.rs", file(9, 9)),
        ("target", Entry::Dir),
        ("target/keep", file(2, 2)),
        ("src", Entry::Dir),
        ("src/lib.rs", file(3, 1)),
    ]);
    let files = vec![entry("src/lib.rs", 5, 2)];
    let links = vec![link_entry("l", "src")];
    root.reconcile(false, false, &["target"], &files, &links);
    root.entries.as_mut().unwrap().insert("src/lib.rs".to_string(), file(5, 2));
    let resp = root.reconcile(false, false, &["target"], &files, &links);
    assert_eq!(
        resp,
        Response::Worklist { uploads: vec![], created_dirs: 0, pruned: 0, symlinks: 0 }
    );
    // What the host does not have, and what is excluded, stays.
    assert_eq!(root.get("extra.rs"), Some(&file(9, 9)));
    assert_eq!(root.get("target/keep"), Some(&file(2, 2)));
}
