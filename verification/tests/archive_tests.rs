use banderole::archive::{
    normalize_entry_path, plan_app_entries, plan_package_entries, plan_runtime_entries,
    EntryKind, FsEntry,
};

fn file(path: &str) -> FsEntry {
    FsEntry {
        rel_path: path.to_owned(),
        kind: EntryKind::File,
        mode: 0o644,
        link_target: String::new(),
    }
}

fn dir(path: &str) -> FsEntry {
    FsEntry {
        rel_path: path.to_owned(),
        kind: EntryKind::Directory,
        mode: 0o755,
        link_target: String::new(),
    }
}

fn link(path: &str, target: &str) -> FsEntry {
    FsEntry {
        rel_path: path.to_owned(),
        kind: EntryKind::Symlink,
        mode: 0o777,
        link_target: target.to_owned(),
    }
}

#[test]
fn test_normalize_entry_path() {
    let comps = normalize_entry_path("a/b/../c/./d").unwrap();
    assert_eq!(comps, vec!["a".to_owned(), "c".to_owned(), "d".to_owned()]);
    let comps = normalize_entry_path("a//b/").unwrap();
    assert_eq!(comps, vec!["a".to_owned(), "b".to_owned()]);
}

#[test]
fn test_normalize_rejects_escapes() {
    // A path that climbs above its root is rejected, as is an absolute
    // path.
    assert!(normalize_entry_path("../evil").is_none());
    assert!(normalize_entry_path("a/../../evil").is_none());
    assert!(normalize_entry_path("/etc/passwd").is_none());
    // Climbing inside the tree is fine as long as it stays below the
    // root.
    assert!(normalize_entry_path("a/b/..").is_some());
}

#[test]
fn test_plan_app_excludes_node_modules() {
    let entries = vec![
        dir(""),
        file("index.js"),
        dir("node_modules"),
        file("node_modules/uuid/package.json"),
        file("src/util.js"),
    ];
    let plan = plan_app_entries(&entries);
    let paths: Vec<&str> = plan.iter().map(|p| p.archive_path.as_str()).collect();
    assert_eq!(paths, vec!["app", "app/index.js", "app/src/util.js"]);
}

#[test]
fn test_plan_package_contains_manifest() {
    // An installed dependency's manifest lands at
    // app/node_modules/NAME/package.json.
    let entries = vec![dir(""), file("package.json"), file("dist/index.js")];
    let plan = plan_package_entries("uuid", &entries);
    let paths: Vec<&str> = plan.iter().map(|p| p.archive_path.as_str()).collect();
    assert_eq!(
        paths,
        vec![
            "app/node_modules/uuid/package.json",
            "app/node_modules/uuid/dist/index.js",
        ]
    );
}

#[test]
fn test_plan_package_scoped_name() {
    let entries = vec![file("package.json")];
    let plan = plan_package_entries("@scope/pkg", &entries);
    assert_eq!(
        plan[0].archive_path,
        "app/node_modules/@scope/pkg/package.json"
    );
}

#[test]
fn test_plan_preserves_symlink_entries() {
    // A link inside a package travels as a link entry with its raw
    // target text; it is not followed and not turned into a file.
    let entries = vec![
        file("package.json"),
        link("bin/tool", "../lib/tool.js"),
    ];
    let plan = plan_package_entries("tool", &entries);
    assert_eq!(plan.len(), 2);
    assert_eq!(plan[1].archive_path, "app/node_modules/tool/bin/tool");
    assert!(matches!(plan[1].kind, EntryKind::Symlink));
    assert_eq!(plan[1].link_target, "../lib/tool.js");
}

#[test]
fn test_plan_skips_escaping_entries() {
    let entries = vec![file("ok.js"), file("../outside.js"), file("/abs.js")];
    let plan = plan_app_entries(&entries);
    let paths: Vec<&str> = plan.iter().map(|p| p.archive_path.as_str()).collect();
    assert_eq!(paths, vec!["app/ok.js"]);
}

#[test]
fn test_plan_runtime_prefix() {
    let entries = vec![dir(""), dir("bin"), file("bin/node")];
    let plan = plan_runtime_entries(&entries);
    let paths: Vec<&str> = plan.iter().map(|p| p.archive_path.as_str()).collect();
    assert_eq!(paths, vec!["runtime", "runtime/bin", "runtime/bin/node"]);
    assert_eq!(plan[2].mode, 0o644);
    assert_eq!(plan[2].source_path, "bin/node");
}

#[test]
fn test_count_files_in_dir() {
    let entries = vec![
        dir(""),
        file("index.js"),
        link("alias", "index.js"),
        dir("node_modules"),
        file("node_modules/uuid/package.json"),
    ];
    assert_eq!(banderole::archive::count_files_in_dir(&entries, true), 2);
    assert_eq!(banderole::archive::count_files_in_dir(&entries, false), 3);
}
