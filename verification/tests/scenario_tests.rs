//! End-to-end scenarios at the library's level: from manifest text and
//! a walked listing to the archive plan and the launcher's course of
//! action.

use banderole::archive::{plan_app_entries, plan_package_entries, EntryKind, FsEntry};
use banderole::launcher::{find_main_script, launch_args, launch_plan, LauncherAction};
use banderole::manifest::parse_manifest;
use banderole::layout::{dependency_source_decision, AncestorProbe, DepSource};
use banderole::resolver::{resolve_closure, seed_packages, InstalledTree, PackageInfo, StoreEntry};
use banderole::source_dir::{
    rewrite_main_field, select_source_directory, ConventionalDir, SourceChoice, SourceProbe,
};

fn file(path: &str) -> FsEntry {
    FsEntry {
        rel_path: path.to_owned(),
        kind: EntryKind::File,
        mode: 0o644,
        link_target: String::new(),
    }
}

fn pkg(name: &str, deps: &[&str]) -> PackageInfo {
    PackageInfo {
        name: name.to_owned(),
        dependencies: deps.iter().map(|d| d.to_string()).collect(),
        peer_dependencies: vec![],
        optional_dependencies: vec![],
    }
}

#[test]
fn test_hello_project() {
    // A manifest with a single source file: the entry script is the
    // manifest's, the archive holds it under app/, and a first launch
    // extracts once and ends by running the application against it.
    let m = parse_manifest("{\"name\":\"hello\",\"version\":\"0.0.1\",\"main\":\"index.js\"}")
        .unwrap();
    assert_eq!(m.name.as_deref(), Some("hello"));
    assert!(m.dependencies.is_empty());

    let listing = vec![file("package.json"), file("index.js")];
    let plan = plan_app_entries(&listing);
    assert!(plan.iter().any(|p| p.archive_path == "app/index.js"));
    assert!(plan.iter().any(|p| p.archive_path == "app/package.json"));

    let entry = find_main_script(m.main);
    assert_eq!(entry, "index.js");
    let no_args: Vec<String> = vec![];
    assert_eq!(launch_args(&entry, &no_args), vec!["index.js".to_owned()]);

    let actions = launch_plan(false, false, true, false);
    assert_eq!(*actions.last().unwrap(), LauncherAction::RunApp);
}

#[test]
fn test_no_dependencies_project() {
    // A project without dependencies resolves to the empty set and
    // archives no package directories.
    let m = parse_manifest("{\"name\":\"solo\",\"main\":\"index.js\"}").unwrap();
    let seeds = seed_packages(&m.dependencies, &m.peer_dependencies, &m.optional_dependencies);
    assert!(seeds.is_empty());
    let tree = InstalledTree {
        top_level: vec![],
        store: vec![],
    };
    let resolved = resolve_closure(&tree, &seeds);
    assert!(resolved.is_empty());
}

#[test]
fn test_flat_layout_with_one_dependency() {
    // The uuid dependency of a flat installation ends up, manifest
    // included, under app/node_modules/uuid/.
    let m = parse_manifest("{\"name\":\"demo\",\"main\":\"index.js\",\
        \"dependencies\":{\"uuid\":\"^9\"}}")
        .unwrap();
    let seeds = seed_packages(&m.dependencies, &m.peer_dependencies, &m.optional_dependencies);
    let tree = InstalledTree {
        top_level: vec![pkg("uuid", &[])],
        store: vec![],
    };
    let resolved = resolve_closure(&tree, &seeds);
    assert_eq!(resolved, vec!["uuid".to_owned()]);

    let listing = vec![file("package.json"), file("dist/index.js")];
    let plan = plan_package_entries(&resolved[0], &listing);
    assert!(plan
        .iter()
        .any(|p| p.archive_path == "app/node_modules/uuid/package.json"));
}

#[test]
fn test_content_store_layout_dependency() {
    // The same project installed through a content store: the lookup
    // runs through the store's parsed directory names and resolves the
    // same set.
    let m = parse_manifest("{\"name\":\"demo\",\"dependencies\":{\"uuid\":\"^9\"}}").unwrap();
    let seeds = seed_packages(&m.dependencies, &m.peer_dependencies, &m.optional_dependencies);
    let tree = InstalledTree {
        top_level: vec![],
        store: vec![StoreEntry {
            dir_name: "uuid@9.0.1".to_owned(),
            info: pkg("uuid", &[]),
        }],
    };
    let resolved = resolve_closure(&tree, &seeds);
    assert_eq!(resolved, vec!["uuid".to_owned()]);
}

#[test]
fn test_workspace_sourced_dependencies() {
    // A workspace member without its own modules directory: the
    // decision walks the ancestors, and the resolver then runs against
    // the workspace root's installation.
    let ancestors = vec![AncestorProbe {
        has_node_modules: true,
        has_manifest: true,
        declares_workspaces: true,
        has_workspace_config: false,
    }];
    let source = dependency_source_decision(false, false, &ancestors);
    assert_eq!(source, DepSource::Ancestor { index: 0 });

    let m = parse_manifest("{\"name\":\"member\",\"dependencies\":{\"shared\":\"*\"}}").unwrap();
    let seeds = seed_packages(&m.dependencies, &m.peer_dependencies, &m.optional_dependencies);
    let workspace_tree = InstalledTree {
        top_level: vec![pkg("shared", &["leaf"]), pkg("leaf", &[])],
        store: vec![],
    };
    let resolved = resolve_closure(&workspace_tree, &seeds);
    assert!(resolved.contains(&"shared".to_owned()));
    assert!(resolved.contains(&"leaf".to_owned()));
}

#[test]
fn test_compiled_output_selection() {
    // A project whose manifest entry point lives under dist: the
    // selection takes dist, and the manifest's entry-point field is
    // rewritten relative to it.
    let probe = SourceProbe {
        main_parent_name: Some("dist".to_owned()),
        main_parent_exists: true,
        tsconfig_out_dir: None,
        tsconfig_out_exists: false,
        conventional: vec![ConventionalDir {
            name: "dist".to_owned(),
            exists_as_dir: true,
            has_js_or_manifest: true,
        }],
    };
    assert_eq!(select_source_directory(&probe), SourceChoice::MainParent);
    assert_eq!(rewrite_main_field("dist/index.js", "dist").unwrap(), "index.js");
}
