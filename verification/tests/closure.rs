//! Import closures, and which nodule a site lies in.

use mycelium_check::closure::{build_use_edges, closure_of, paths_of, sub_phylum};
use mycelium_check::diagnostics::CheckError;
use mycelium_check::phylum::{compute_partial_verdicts, site_owner};
use mycelium_check::syntax::{Item, Nodule, UsePath};
use mycelium_check::NoduleClass;

fn segments(path: &str) -> Vec<String> {
    path.split('.').map(str::to_owned).collect()
}

/// An import as it is written.
fn import(written: &str) -> Item {
    let (cross_phylum, path) = match written.split_once("::") {
        Some((_, path)) => (true, path),
        None => (false, written),
    };
    let (path, glob) = match path.strip_suffix(".*") {
        Some(path) => (path, true),
        None => (path, false),
    };
    Item::Use(UsePath { cross_phylum, path: segments(path), glob })
}

fn nodule(path: &str, imports: &[&str]) -> Nodule {
    let mut items = vec![Item::Other];
    items.extend(imports.iter().map(|i| import(i)));
    Nodule { path: segments(path), items }
}

fn strings(all: &[&str]) -> Vec<String> {
    all.iter().map(|s| s.to_string()).collect()
}

#[test]
fn edges_name_the_nodules_that_imports_are_resolved_in() {
    let nodules = vec![
        nodule("a", &["b.c.*", "b.c.Item", "Item", "X.*", "dep::b.c.*", "dep::b.Item"]),
        nodule("b.c", &[]),
    ];
    assert_eq!(build_use_edges(&nodules), [strings(&["b.c", "b.c"]), strings(&[])]);
    assert_eq!(paths_of(&nodules), ["a", "b.c"]);
}

#[test]
fn an_import_of_an_absent_nodule_is_no_edge() {
    let alone = vec![nodule("a", &["zzz.nonexistent"])];
    assert_eq!(build_use_edges(&alone), [strings(&[])]);
    let both = vec![nodule("a", &["zzz.nonexistent"]), nodule("zzz", &["a.b.*", "a.b"])];
    assert_eq!(build_use_edges(&both), [strings(&["zzz"]), strings(&["a"])]);
}

#[test]
fn an_import_of_the_nodule_itself_is_no_edge() {
    let nodules = vec![nodule("a", &["a.*", "b.x", "a.y", "b.*"]), nodule("b", &["b.*"])];
    assert_eq!(build_use_edges(&nodules), [strings(&["b", "b"]), strings(&[])]);
}

#[test]
fn closures_follow_imports_within_the_batch() {
    let nodules = vec![
        nodule("lone", &["gone.*"]),
        nodule("c", &["a.x"]),
        nodule("b", &["c.*", "gone.x"]),
        nodule("a", &["b.*", "a.*"]),
        nodule("top", &["c.y", "lone.z"]),
        nodule("other", &["dep::top.*"]),
    ];
    let edges = build_use_edges(&nodules);
    let paths = paths_of(&nodules);
    let closure = |i: usize| sub_phylum(i, &edges, &paths);
    assert_eq!(closure(0), [0]);
    assert_eq!(closure(1), [1, 2, 3]);
    assert_eq!(closure(2), [1, 2, 3]);
    assert_eq!(closure(3), [1, 2, 3]);
    assert_eq!(closure(4), [0, 1, 2, 3, 4]);
    assert_eq!(closure(5), [5]);
    assert_eq!(closure_of(1, &edges, &paths), [false, true, true, true, false, false]);
}

#[test]
fn nodules_of_one_path_go_together_with_the_imports_of_the_last() {
    let nodules = vec![
        nodule("a", &["b.*"]),
        nodule("a", &["c.x"]),
        nodule("b", &[]),
        nodule("c", &["a.*"]),
        nodule("d", &["a.y"]),
    ];
    let edges = build_use_edges(&nodules);
    let paths = paths_of(&nodules);
    assert_eq!(
        edges,
        [strings(&["c"]), strings(&["c"]), strings(&[]), strings(&["a"]), strings(&["a"])]
    );
    let closure = |i: usize| sub_phylum(i, &edges, &paths);
    assert_eq!(closure(0), [0, 1, 3]);
    assert_eq!(closure(1), [0, 1, 3]);
    assert_eq!(closure(2), [2]);
    assert_eq!(closure(3), [0, 1, 3]);
    assert_eq!(closure(4), [0, 1, 3, 4]);

    let nodules = vec![nodule("a", &["b.*"]), nodule("a", &[]), nodule("b", &[])];
    let edges = build_use_edges(&nodules);
    assert_eq!(edges, [strings(&[]), strings(&[]), strings(&[])]);
    assert_eq!(sub_phylum(0, &edges, &paths_of(&nodules)), [0, 1]);
    let own = vec![strings(&["b"]), strings(&[]), strings(&[])];
    assert_eq!(closure_of(0, &own, &paths_of(&nodules)), [true, true, false]);

    let files = strings(&["1", "2", "3"]);
    let fails = |site: &str| Err(CheckError { site: site.to_owned(), message: "m".to_owned() });
    let verdicts =
        compute_partial_verdicts(&nodules, &files, &vec![fails("b.<use>"), fails("a"), Ok(())]);
    let class = NoduleClass::CheckError { site: "b.<use>".to_owned(), message: "m".to_owned() };
    assert_eq!(verdicts[0].class, class);
    assert_eq!(verdicts[2].class, NoduleClass::Clean);
}

#[test]
fn a_site_belongs_to_the_most_specific_nodule_around_it() {
    let paths = strings(&["a", "", "a.b", "c", "a.bc", "é"]);
    let owner = |site: &str| site_owner(site, &paths);
    assert_eq!(owner("a.<use>").as_deref(), Some("a"));
    assert_eq!(owner("a").as_deref(), Some("a"));
    assert_eq!(owner("a.b.<use>").as_deref(), Some("a.b"));
    assert_eq!(owner("a.b").as_deref(), Some("a.b"));
    assert_eq!(owner("a.bcd").as_deref(), Some("a"));
    assert_eq!(owner("é.<totality>").as_deref(), Some("é"));
    assert_eq!(owner("ab.<use>"), None);
    assert_eq!(owner("helper"), None);
    assert_eq!(owner(""), None);
    assert_eq!(owner(".x"), None);
}

#[test]
fn failures_are_put_down_to_the_nodule_that_the_site_shows() {
    let nodules = vec![nodule("a", &["b.*"]), nodule("b", &[]), nodule("a.c", &[])];
    let files = strings(&["1", "2", "3"]);
    let error = |site: &str| {
        Err(CheckError { site: site.to_owned(), message: "m".to_owned() })
    };
    let classes = |outcomes: Vec<Result<(), CheckError>>| -> Vec<NoduleClass> {
        let verdicts = compute_partial_verdicts(&nodules, &files, &outcomes);
        let shown: Vec<(&str, &str)> =
            verdicts.iter().map(|v| (v.nodule.as_str(), v.file.as_str())).collect();
        assert_eq!(shown, [("a", "1"), ("b", "2"), ("a.c", "3")]);
        verdicts.into_iter().map(|v| v.class).collect()
    };
    let check_error =
        |site: &str| NoduleClass::CheckError { site: site.to_owned(), message: "m".to_owned() };
    assert_eq!(
        classes(vec![error("b.<use>"), error("a.<use>"), Ok(())]),
        [
            NoduleClass::Blocked { on: "b".to_owned(), message: "m".to_owned() },
            check_error("a.<use>"),
            NoduleClass::Clean,
        ]
    );
    assert_eq!(
        classes(vec![error("a.c.<use>"), error("f"), error("a.c.<use>")]),
        [check_error("a.c.<use>"), check_error("f"), check_error("a.c.<use>")]
    );
}
