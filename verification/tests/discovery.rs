use cargo_scan::finder::{find_cargo_projects, is_cargo_object};
use cargo_scan::tree::{Entry, FsNode};

fn file(name: &str, size: u64) -> Entry {
    Entry { name: name.as_bytes().to_vec(), node: FsNode::File { size } }
}

fn dir(name: &str, entries: Vec<Entry>) -> Entry {
    Entry { name: name.as_bytes().to_vec(), node: FsNode::Dir { entries } }
}

fn path(components: &[&str]) -> Vec<Vec<u8>> {
    components.iter().map(|c| c.as_bytes().to_vec()).collect()
}

#[test]
fn predicate_accepts_manifest_and_target() {
    let p = FsNode::Dir {
        entries: vec![file("Cargo.toml", 120), dir("target", vec![file("x.bin", 7)])],
    };
    assert!(is_cargo_object(&p));
}

#[test]
fn predicate_accepts_lower_case_manifest() {
    let p = FsNode::Dir { entries: vec![file("cargo.toml", 3), dir("target", vec![])] };
    assert!(is_cargo_object(&p));
}

#[test]
fn predicate_accepts_unreadable_target() {
    let p = FsNode::Dir {
        entries: vec![
            file("Cargo.toml", 3),
            Entry { name: b"target".to_vec(), node: FsNode::UnreadableDir },
        ],
    };
    assert!(is_cargo_object(&p));
}

#[test]
fn predicate_rejects_manifest_without_target() {
    // A directory holding only a manifest: nothing to clean, not a project.
    let p = FsNode::Dir { entries: vec![file("Cargo.toml", 3)] };
    assert!(!is_cargo_object(&p));
}

#[test]
fn predicate_rejects_target_without_manifest() {
    let p = FsNode::Dir { entries: vec![dir("target", vec![])] };
    assert!(!is_cargo_object(&p));
}

#[test]
fn predicate_rejects_manifest_that_is_a_directory() {
    let p = FsNode::Dir { entries: vec![dir("Cargo.toml", vec![]), dir("target", vec![])] };
    assert!(!is_cargo_object(&p));
}

#[test]
fn predicate_rejects_target_that_is_a_file() {
    let p = FsNode::Dir { entries: vec![file("Cargo.toml", 3), file("target", 9)] };
    assert!(!is_cargo_object(&p));
}

#[test]
fn predicate_rejects_non_directories() {
    assert!(!is_cargo_object(&FsNode::File { size: 4 }));
    assert!(!is_cargo_object(&FsNode::UnreadableDir));
    assert!(!is_cargo_object(&FsNode::Other));
}

#[test]
fn finds_two_projects_under_root() {
    // /r holds /r/a (Cargo.toml, target/x.bin) and /r/b (cargo.toml, target/sub/y.bin).
    let root = FsNode::Dir {
        entries: vec![
            dir(
                "a",
                vec![file("Cargo.toml", 10), dir("target", vec![file("x.bin", 1_048_576)])],
            ),
            dir(
                "b",
                vec![
                    file("cargo.toml", 10),
                    dir("target", vec![dir("sub", vec![file("y.bin", 2_097_152)])]),
                ],
            ),
        ],
    };
    let found = find_cargo_projects(&root);
    assert_eq!(found, vec![path(&["a"]), path(&["b"])]);
}

#[test]
fn does_not_report_directory_without_target() {
    // /r/c holds only a manifest and must not be reported.
    let root = FsNode::Dir { entries: vec![dir("c", vec![file("Cargo.toml", 5)])] };
    let found = find_cargo_projects(&root);
    assert!(found.is_empty());
}

#[test]
fn reports_root_itself_when_it_matches() {
    let root = FsNode::Dir { entries: vec![file("Cargo.toml", 5), dir("target", vec![])] };
    let found = find_cargo_projects(&root);
    assert_eq!(found, vec![path(&[])]);
}

#[test]
fn does_not_descend_into_a_matched_project() {
    // A project whose target directory itself contains something shaped like
    // a project: pruning keeps it from being reported twice.
    let nested = dir(
        "nested",
        vec![file("Cargo.toml", 2), dir("target", vec![file("z.bin", 11)])],
    );
    let root = FsNode::Dir {
        entries: vec![dir(
            "a",
            vec![file("Cargo.toml", 10), dir("target", vec![nested])],
        )],
    };
    let found = find_cargo_projects(&root);
    assert_eq!(found, vec![path(&["a"])]);
}

#[test]
fn descends_through_plain_directories() {
    let root = FsNode::Dir {
        entries: vec![dir(
            "work",
            vec![dir(
                "deep",
                vec![file("Cargo.toml", 1), dir("target", vec![])],
            )],
        )],
    };
    let found = find_cargo_projects(&root);
    assert_eq!(found, vec![path(&["work", "deep"])]);
}

#[test]
fn skips_unreadable_and_other_entries() {
    let root = FsNode::Dir {
        entries: vec![
            Entry { name: b"locked".to_vec(), node: FsNode::UnreadableDir },
            Entry { name: b"link".to_vec(), node: FsNode::Other },
            dir("ok", vec![file("cargo.toml", 1), dir("target", vec![])]),
        ],
    };
    let found = find_cargo_projects(&root);
    assert_eq!(found, vec![path(&["ok"])]);
}

#[test]
fn discovery_is_repeatable() {
    let root = FsNode::Dir {
        entries: vec![
            dir("a", vec![file("Cargo.toml", 1), dir("target", vec![])]),
            dir("b", vec![dir("c", vec![file("cargo.toml", 1), dir("target", vec![])])]),
        ],
    };
    let first = find_cargo_projects(&root);
    let second = find_cargo_projects(&root);
    assert_eq!(first, second);
}
