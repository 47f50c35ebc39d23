use xupg::extract::extract_actions;
use xupg::extract::ArchiveEntry;
use xupg::extract::FsAction;

fn entry(name: &str, path: &str) -> ArchiveEntry {
    ArchiveEntry { name: name.to_string(), path: path.to_string() }
}

#[test]
fn directory_entries_become_directories() {
    let entries = vec![entry("lib/", "lib")];
    let plan = extract_actions(&entries, "/tmp/out");
    assert_eq!(plan.len(), 1);
    match &plan[0] {
        FsAction::EnsureDir(p) => assert_eq!(p, "/tmp/out/lib"),
        _ => panic!("expected a directory"),
    }
}

#[test]
fn file_entries_get_their_parent_and_their_write() {
    let entries = vec![entry("bin/php", "bin/php")];
    let plan = extract_actions(&entries, "/tmp/out");
    assert_eq!(plan.len(), 2);
    match &plan[0] {
        FsAction::EnsureDir(p) => assert_eq!(p, "/tmp/out/bin"),
        _ => panic!("expected the parent directory"),
    }
    match &plan[1] {
        FsAction::WriteFile(p, i) => {
            assert_eq!(p, "/tmp/out/bin/php");
            assert_eq!(*i, 0);
        },
        _ => panic!("expected the file write"),
    }
}

#[test]
fn mixed_archive_covers_every_entry_in_order() {
    let entries = vec![
        entry("bin/", "bin"),
        entry("bin/php", "bin/php"),
        entry("lib/", "lib"),
        entry("README", "README"),
    ];
    let plan = extract_actions(&entries, "/tmp/out");
    assert_eq!(plan.len(), 6);
    assert!(matches!(&plan[0], FsAction::EnsureDir(p) if p == "/tmp/out/bin"));
    assert!(matches!(&plan[1], FsAction::EnsureDir(p) if p == "/tmp/out/bin"));
    assert!(matches!(&plan[2], FsAction::WriteFile(p, 1) if p == "/tmp/out/bin/php"));
    assert!(matches!(&plan[3], FsAction::EnsureDir(p) if p == "/tmp/out/lib"));
    assert!(matches!(&plan[4], FsAction::EnsureDir(p) if p == "/tmp/out"));
    assert!(matches!(&plan[5], FsAction::WriteFile(p, 3) if p == "/tmp/out/README"));
}

#[test]
fn empty_archive_plans_nothing() {
    let entries: Vec<ArchiveEntry> = Vec::new();
    let plan = extract_actions(&entries, "/tmp/out");
    assert!(plan.is_empty());
}

#[test]
fn nested_paths_keep_their_structure() {
    let entries = vec![entry("a/b/c/data.bin", "a/b/c/data.bin")];
    let plan = extract_actions(&entries, "/opt/x");
    assert_eq!(plan.len(), 2);
    assert!(matches!(&plan[0], FsAction::EnsureDir(p) if p == "/opt/x/a/b/c"));
    assert!(matches!(&plan[1], FsAction::WriteFile(p, 0) if p == "/opt/x/a/b/c/data.bin"));
}
