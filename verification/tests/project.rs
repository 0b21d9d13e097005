//! Project resolution, over a directory tree in memory.

use std::collections::BTreeMap;

use mycelium_check::project::{read_sources, source_label, unreadable, Entry, Walk};
use mycelium_check::resolution::{FileRequest, Resolution};
use mycelium_check::ResolveError;

/// An entry as a file system gives it.
fn entry(dir: &str, name: &str, is_dir: bool) -> Entry<String> {
    Entry {
        path: format!("{dir}/{name}"),
        key: name.bytes().map(char::from).collect(),
        name: name.to_owned(),
        is_dir,
        extension: match name.rsplit_once('.') {
            Some((stem, extension)) if !stem.is_empty() => Some(extension.to_owned()),
            _ => None,
        },
    }
}

/// Walks the tree; gives the listed directories and the files found.
fn walk(tree: &BTreeMap<&str, Vec<(&str, bool)>>) -> (Vec<String>, Vec<String>) {
    let mut listed = Vec::new();
    let mut walk = Walk::new("p".to_owned());
    while let Some(dir) = walk.next().cloned() {
        let entries = tree[dir.as_str()]
            .iter()
            .map(|(name, is_dir)| entry(&dir, name, *is_dir))
            .collect();
        walk = walk.listed(entries);
        listed.push(dir);
    }
    (listed, walk.into_found())
}

#[test]
fn a_walk_finds_the_sources_in_path_order() {
    let tree = BTreeMap::from([
        (
            "p",
            vec![
                ("z.myc", false),
                ("b", true),
                (".hidden.myc", false),
                (".git", true),
                ("target", true),
                ("readme.md", false),
                ("myc", false),
                ("b.myc", false),
                ("a.myc", false),
                ("dir.myc", true),
            ],
        ),
        ("p/b", vec![("y.myc", false), ("c", true), ("d.txt.myc", false)]),
        ("p/b/c", vec![]),
        ("p/dir.myc", vec![("x.myc", false), ("é.myc", false), ("target", false)]),
    ]);
    let (listed, found) = walk(&tree);
    assert_eq!(listed, ["p", "p/b", "p/b/c", "p/dir.myc"]);
    assert_eq!(
        found,
        [
            "p/a.myc",
            "p/b/d.txt.myc",
            "p/b/y.myc",
            "p/b.myc",
            "p/dir.myc/x.myc",
            "p/dir.myc/é.myc",
            "p/z.myc",
        ]
    );
}

#[test]
fn a_name_that_is_not_unicode_is_not_passed_over() {
    let walk = Walk::new(0).listed(vec![
        Entry {
            path: 1,
            key: ".\u{ff}.myc".to_owned(),
            name: String::new(),
            is_dir: false,
            extension: Some("myc".to_owned()),
        },
        Entry {
            path: 2,
            key: "a".to_owned(),
            name: "a".to_owned(),
            is_dir: false,
            extension: None,
        },
    ]);
    assert!(walk.next().is_none());
    assert_eq!(walk.into_found(), [1]);
}

#[test]
fn a_project_without_sources_is_refused() {
    let e = read_sources::<u64>("some/dir", vec![]).unwrap_err();
    assert_eq!(
        e,
        ResolveError(
            "no `.myc` sources under some/dir — nothing to check (a clean exit here would be a \
             silent pass; G2)"
                .to_owned()
        )
    );
    assert_eq!(
        e.message(),
        "resolution-error: no `.myc` sources under some/dir — nothing to check (a clean exit \
         here would be a silent pass; G2)"
    );
    assert_eq!(e.exit_code(), 5);
}

#[test]
fn what_cannot_be_read_is_named() {
    assert_eq!(unreadable("p/x", "denied"), ResolveError("p/x: denied".to_owned()));
}

#[test]
fn sources_are_read_in_order_under_their_labels() {
    let mut reading = read_sources("p", vec![7, 8]).unwrap();
    assert_eq!(reading.next(), Some(&7));
    reading = reading.read("a\\b\\c.myc", "one".to_owned());
    assert_eq!(reading.next(), Some(&8));
    reading = reading.read("d/e.myc", "two".to_owned());
    assert!(reading.next().is_none());
    assert_eq!(
        reading.into_sources(),
        [
            ("a/b/c.myc".to_owned(), "one".to_owned()),
            ("d/e.myc".to_owned(), "two".to_owned()),
        ]
    );
    assert_eq!(source_label("x\\y z/é"), "x/y z/é");
}

#[test]
fn a_failure_ends_a_walk_or_a_reading() {
    let walk = Walk::new("p".to_owned());
    assert_eq!(walk.unlistable("p", "denied"), ResolveError("p: denied".to_owned()));
    let reading = read_sources("p", vec![7, 8]).unwrap().read("a.myc", "one".to_owned());
    assert_eq!(reading.unreadable("p/b.myc", "gone"), ResolveError("p/b.myc: gone".to_owned()));
}

/// Resolves the project `p` of a tree; what `refused` names cannot be listed or read. Gives what was
/// asked for, and the outcome.
fn resolve(
    tree: &BTreeMap<&str, Vec<(&str, bool)>>,
    refused: &[&str],
) -> (Vec<String>, Result<Vec<(String, String)>, ResolveError>) {
    let mut asked = Vec::new();
    let mut run = Resolution::new("shown/p", "p".to_owned());
    loop {
        run = match run.next() {
            FileRequest::List(dir) => {
                let dir = dir.clone();
                asked.push(format!("list {dir}"));
                if refused.contains(&dir.as_str()) {
                    run.unlistable(&dir, "not listed")
                } else {
                    let entries = tree[dir.as_str()]
                        .iter()
                        .map(|(name, is_dir)| entry(&dir, name, *is_dir))
                        .collect();
                    run.listed(entries)
                }
            }
            FileRequest::Read(file) => {
                let file = file.clone();
                asked.push(format!("read {file}"));
                if refused.contains(&file.as_str()) {
                    run.unreadable(&file, "not read")
                } else {
                    run.read(&file[2..].replace('/', "\\"), format!("in {file}"))
                }
            }
            FileRequest::Finished => break,
        };
    }
    (asked, run.into_outcome().unwrap())
}

fn small_tree() -> BTreeMap<&'static str, Vec<(&'static str, bool)>> {
    BTreeMap::from([
        ("p", vec![("c.myc", false), ("b", true), ("a.myc", false)]),
        ("p/b", vec![("x.myc", false), ("target", true)]),
    ])
}

#[test]
fn a_project_that_can_be_read_whole_yields_its_sources() {
    let (asked, outcome) = resolve(&small_tree(), &[]);
    assert_eq!(
        asked,
        ["list p", "list p/b", "read p/a.myc", "read p/b/x.myc", "read p/c.myc"]
    );
    let source = |label: &str, text: &str| (label.to_owned(), text.to_owned());
    assert_eq!(
        outcome,
        Ok(vec![
            source("a.myc", "in p/a.myc"),
            source("b/x.myc", "in p/b/x.myc"),
            source("c.myc", "in p/c.myc"),
        ])
    );
}

#[test]
fn the_first_failure_ends_a_resolution() {
    let (asked, outcome) = resolve(&small_tree(), &["p/b", "p/a.myc"]);
    assert_eq!(asked, ["list p", "list p/b"]);
    assert_eq!(outcome, Err(ResolveError("p/b: not listed".to_owned())));
    let (asked, outcome) = resolve(&small_tree(), &["p/b/x.myc", "p/c.myc"]);
    assert_eq!(asked, ["list p", "list p/b", "read p/a.myc", "read p/b/x.myc"]);
    assert_eq!(outcome, Err(ResolveError("p/b/x.myc: not read".to_owned())));
    let (asked, outcome) = resolve(&small_tree(), &["p"]);
    assert_eq!(asked, ["list p"]);
    assert_eq!(outcome, Err(ResolveError("p: not listed".to_owned())));
}

#[test]
fn a_resolution_without_sources_fails() {
    let (asked, outcome) = resolve(&BTreeMap::from([("p", vec![("readme.md", false)])]), &[]);
    assert_eq!(asked, ["list p"]);
    assert_eq!(
        outcome.unwrap_err().message(),
        "resolution-error: no `.myc` sources under shown/p — nothing to check (a clean exit here \
         would be a silent pass; G2)"
    );
}

#[test]
fn an_unfinished_resolution_has_no_outcome() {
    assert!(Resolution::new("p", 0).into_outcome().is_none());
}
