use cargo_scan::tree::{Entry, FsNode};
use cargo_scan::usage::MetaData;

fn file(name: &str, size: u64) -> Entry {
    Entry { name: name.as_bytes().to_vec(), node: FsNode::File { size } }
}

fn dir(name: &str, entries: Vec<Entry>) -> Entry {
    Entry { name: name.as_bytes().to_vec(), node: FsNode::Dir { entries } }
}

fn path(components: &[&str]) -> Vec<Vec<u8>> {
    components.iter().map(|c| c.as_bytes().to_vec()).collect()
}

fn two_project_root() -> FsNode {
    FsNode::Dir {
        entries: vec![
            dir(
                "a",
                vec![file("Cargo.toml", 10), dir("target", vec![file("x.bin", 1_048_576)])],
            ),
            dir(
                "b",
                vec![
                    file("cargo.toml", 10),
                    dir("target", vec![dir("sub", vec![file("y.bin", 2_097_152)])]),
                ],
            ),
        ],
    }
}

#[test]
fn examine_sums_files_under_target() {
    let root = two_project_root();
    let mut report = MetaData::new();
    report.examine_at(&root, &path(&["a"]));
    report.examine_at(&root, &path(&["b"]));
    assert_eq!(report.files, 2);
    assert_eq!(report.size, 3_145_728);
}

#[test]
fn examine_renders_expected_report() {
    let root = two_project_root();
    let mut report = MetaData::new();
    report.examine_at(&root, &path(&["a"]));
    report.examine_at(&root, &path(&["b"]));
    assert_eq!(report.render(), "files: 2\nsize mb: 3.00\nsize gb: 0.0029");
}

#[test]
fn examine_is_additive() {
    let root = two_project_root();

    let mut alone_a = MetaData::new();
    alone_a.examine_at(&root, &path(&["a"]));
    let mut alone_b = MetaData::new();
    alone_b.examine_at(&root, &path(&["b"]));

    let mut together = MetaData::new();
    together.examine_at(&root, &path(&["a"]));
    together.examine_at(&root, &path(&["b"]));

    assert_eq!(together.size, alone_a.size + alone_b.size);
    assert_eq!(together.files, alone_a.files + alone_b.files);
}

#[test]
fn examine_without_target_contributes_nothing() {
    // A project root whose target directory does not exist yields zero,
    // not an error.
    let bare = FsNode::Dir { entries: vec![file("Cargo.toml", 44)] };
    let mut report = MetaData::new();
    report.examine(&bare);
    assert_eq!(report.files, 0);
    assert_eq!(report.size, 0);
}

#[test]
fn examine_with_target_as_regular_file_contributes_nothing() {
    // A regular file named `target`: listing its entries fails, and that
    // failure is swallowed, so its size must not be counted.
    let root = FsNode::Dir { entries: vec![file("Cargo.toml", 1), file("target", 123_456)] };
    let mut report = MetaData::new();
    report.examine(&root);
    assert_eq!(report.files, 0);
    assert_eq!(report.size, 0);
}

#[test]
fn walk_of_non_directory_contributes_nothing() {
    let mut report = MetaData::new();
    report.recursive_examine(&FsNode::File { size: 99 });
    report.recursive_examine(&FsNode::UnreadableDir);
    report.recursive_examine(&FsNode::Other);
    assert_eq!(report.files, 0);
    assert_eq!(report.size, 0);
}

#[test]
fn examine_of_non_directory_contributes_nothing() {
    let mut report = MetaData::new();
    report.examine(&FsNode::File { size: 9 });
    report.examine(&FsNode::UnreadableDir);
    report.examine(&FsNode::Other);
    assert_eq!(report.files, 0);
    assert_eq!(report.size, 0);
}

#[test]
fn examine_ignores_non_file_non_dir_entries() {
    let root = FsNode::Dir {
        entries: vec![
            file("Cargo.toml", 1),
            dir(
                "target",
                vec![
                    file("kept.bin", 100),
                    Entry { name: b"sock".to_vec(), node: FsNode::Other },
                    Entry { name: b"locked".to_vec(), node: FsNode::UnreadableDir },
                ],
            ),
        ],
    };
    let mut report = MetaData::new();
    report.examine(&root);
    assert_eq!(report.files, 1);
    assert_eq!(report.size, 100);
}

#[test]
fn examine_does_not_count_the_manifest_itself() {
    let root = FsNode::Dir {
        entries: vec![file("Cargo.toml", 999), dir("target", vec![file("a.o", 5)])],
    };
    let mut report = MetaData::new();
    report.examine(&root);
    assert_eq!(report.files, 1);
    assert_eq!(report.size, 5);
}

#[test]
fn examine_at_missing_path_contributes_nothing() {
    let root = two_project_root();
    let mut report = MetaData::new();
    report.examine_at(&root, &path(&["nowhere"]));
    assert_eq!(report.files, 0);
    assert_eq!(report.size, 0);
}

#[test]
fn byte_total_saturates_instead_of_overflowing() {
    let root = FsNode::Dir {
        entries: vec![
            file("Cargo.toml", 1),
            dir("target", vec![file("huge.bin", u64::MAX), file("more.bin", 50)]),
        ],
    };
    let mut report = MetaData::new();
    report.examine(&root);
    assert_eq!(report.size, u64::MAX);
    assert_eq!(report.files, 2);
}

#[test]
fn renders_zero_report() {
    let report = MetaData::new();
    assert_eq!(report.render(), "files: 0\nsize mb: 0.00\nsize gb: 0.0000");
}

#[test]
fn renders_one_mebibyte() {
    let report = MetaData { size: 1_048_576, files: 1 };
    assert_eq!(report.render(), "files: 1\nsize mb: 1.00\nsize gb: 0.0010");
}

#[test]
fn renders_rounded_fractions() {
    // 5243 bytes are 0.50001... hundredths of a mebibyte: just past the
    // half, they round up to 0.01 MB, while still rendering as 0.0000 GB.
    let report = MetaData { size: 5_243, files: 3 };
    assert_eq!(report.render(), "files: 3\nsize mb: 0.01\nsize gb: 0.0000");
}

#[test]
fn renders_large_totals() {
    let report = MetaData { size: 5_368_709_120, files: 12_345 };
    assert_eq!(report.render(), "files: 12345\nsize mb: 5120.00\nsize gb: 5.0000");
}
