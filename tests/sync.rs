use qpkg::sync::removal_order;
use qpkg::sync::{
    is_excluded, is_la_file, path_components, path_under, plan_sync, should_sync, split_lines,
    DestEntry, EntryKind, SyncPolicy,
};

fn entries(list: &[(&str, EntryKind)]) -> Vec<DestEntry> {
    list.iter().map(|(p, k)| DestEntry { path: p.to_string(), kind: *k }).collect()
}

fn keep_all() -> SyncPolicy {
    SyncPolicy { strip_la_files: false, strip_docs: false, doc_dir: "docs".to_string() }
}

#[test]
fn stale_path_is_removed() {
    let plan = plan_sync(&entries(&[("a/b", EntryKind::File)]), "a/b\na/c\n", &keep_all());
    assert_eq!(plan.manifest, "a/b\n");
    assert_eq!(plan.removals, vec!["a/c"]);
    assert_eq!(plan.copies.len(), 1);
    assert_eq!(plan.copies[0].path, "a/b");
}

#[test]
fn second_sync_removes_nothing() {
    let tree = entries(&[("", EntryKind::Dir), ("usr", EntryKind::Dir), ("usr/bin/x", EntryKind::File)]);
    let first = plan_sync(&tree, "old/file\n", &keep_all());
    assert_eq!(first.removals, vec!["old/file"]);
    let second = plan_sync(&tree, &first.manifest, &keep_all());
    assert_eq!(second.manifest, first.manifest);
    assert!(second.removals.is_empty());
}

#[test]
fn removals_come_last_line_first() {
    let plan = plan_sync(&entries(&[]), "a\na/b\n\n  a/c  \r\n", &keep_all());
    assert_eq!(plan.removals, vec!["  a/c  ", "a/b", "a"]);
    assert_eq!(plan.manifest, "");
}

#[test]
fn docs_are_excluded() {
    let policy = SyncPolicy { strip_la_files: true, strip_docs: true, doc_dir: "docs".to_string() };
    let tree = entries(&[
        ("docs", EntryKind::Dir),
        ("docs/readme.txt", EntryKind::File),
        ("docsx/a", EntryKind::File),
        ("usr/lib/libx.la", EntryKind::File),
        ("usr/lib/libx.so", EntryKind::Symlink),
    ]);
    let plan = plan_sync(&tree, "", &policy);
    let copied: Vec<&str> = plan.copies.iter().map(|e| e.path.as_str()).collect();
    assert_eq!(copied, vec!["docsx/a", "usr/lib/libx.so"]);
    assert_eq!(plan.copies[1].kind, EntryKind::Symlink);
    assert_eq!(plan.manifest, "docsx/a\nusr/lib/libx.so\n");
    assert!(!plan.manifest.contains("readme"));
}

#[test]
fn exclusions_off_keep_everything() {
    let tree = entries(&[("docs/readme.txt", EntryKind::File), ("lib/a.la", EntryKind::File)]);
    let plan = plan_sync(&tree, "", &keep_all());
    assert_eq!(plan.manifest, "docs/readme.txt\nlib/a.la\n");
}

#[test]
fn la_extension() {
    assert!(is_la_file("usr/lib/libz.la"));
    assert!(is_la_file("a..la"));
    assert!(!is_la_file(".la"));
    assert!(!is_la_file("usr/lib/libz.so"));
    assert!(!is_la_file("usr/lib/libz.lax"));
    assert!(is_la_file("x.la/"));
}

#[test]
fn component_prefix() {
    assert!(path_under("docs/a/b", "docs"));
    assert!(path_under("docs", "docs/"));
    assert!(path_under("usr//share/./doc/x", "usr/share/doc"));
    assert!(!path_under("docsx/a", "docs"));
    assert!(path_under("usr/share/doc/x", "/usr/share/doc"));
    assert!(!path_under("usr/share/docs", "/usr/share/doc"));
    assert_eq!(path_components("/a//b/./c/"), vec!["a", "b", "c"]);
}

#[test]
fn policy_exclusion() {
    let policy = SyncPolicy { strip_la_files: true, strip_docs: false, doc_dir: "docs".to_string() };
    assert!(is_excluded(&policy, "lib/a.la"));
    assert!(!is_excluded(&policy, "docs/a"));
}

#[test]
fn lines_like_str_lines() {
    assert_eq!(split_lines("a\r\nb\n\nc"), vec!["a", "b", "", "c"]);
    assert_eq!(split_lines("a\r"), vec!["a\r"]);
    assert!(split_lines("").is_empty());
    assert_eq!(split_lines("\n"), vec![""]);
}

#[test]
fn sync_decision() {
    assert!(should_sync(false, true, true, "x\n"));
    assert!(!should_sync(false, true, false, ""));
    assert!(should_sync(false, false, false, "  \n"));
    assert!(!should_sync(false, false, true, "a/b\n"));
    assert!(!should_sync(true, true, true, ""));
}

#[test]
fn removal_of_installed_package() {
    assert_eq!(removal_order("\nusr\nusr/bin\nusr/bin/x\n"), vec!["usr/bin/x", "usr/bin", "usr"]);
    assert_eq!(removal_order(" a \n \n"), vec![" a "]);
    assert!(removal_order("").is_empty());
}

#[test]
fn installed_path_is_never_removed() {
    let plan = plan_sync(&entries(&[("b", EntryKind::File)]), " b\nb\n", &keep_all());
    assert_eq!(plan.manifest, "b\n");
    assert_eq!(plan.removals, vec![" b"]);
    assert!(!plan.removals.iter().any(|r| r == "b"));
}

#[test]
fn rooted_doc_dir_strips_sysroot_docs() {
    let policy = SyncPolicy {
        strip_la_files: false,
        strip_docs: true,
        doc_dir: "/usr/share/doc".to_string(),
    };
    let tree = entries(&[
        ("usr/share/doc", EntryKind::Dir),
        ("usr/share/doc/pkg/README", EntryKind::File),
        ("usr/share/man/man1/x.1", EntryKind::File),
    ]);
    let plan = plan_sync(&tree, "", &policy);
    assert_eq!(plan.manifest, "usr/share/man/man1/x.1\n");
}
