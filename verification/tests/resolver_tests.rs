use banderole::resolver::{
    extract_package_name_from_pnpm, lookup_package, package_exists, resolve_closure,
    seed_packages, InstalledTree, PackageInfo, StoreEntry,
};

fn pkg(name: &str, deps: &[&str], peers: &[&str], optionals: &[&str]) -> PackageInfo {
    PackageInfo {
        name: name.to_owned(),
        dependencies: deps.iter().map(|d| d.to_string()).collect(),
        peer_dependencies: peers.iter().map(|d| d.to_string()).collect(),
        optional_dependencies: optionals.iter().map(|d| d.to_string()).collect(),
    }
}

#[test]
fn test_store_name_parser_plain() {
    assert_eq!(extract_package_name_from_pnpm("uuid@9.0.1").unwrap(), "uuid");
    assert_eq!(extract_package_name_from_pnpm("adm-zip@0.5.16").unwrap(), "adm-zip");
    assert_eq!(extract_package_name_from_pnpm("lodash").unwrap(), "lodash");
}

#[test]
fn test_store_name_parser_scoped() {
    // A name beginning with `@` keeps everything before its last `@`,
    // with `+` turned back into `/`.
    assert_eq!(
        extract_package_name_from_pnpm("@scope+pkg@1.2.0").unwrap(),
        "@scope/pkg"
    );
    assert_eq!(
        extract_package_name_from_pnpm("@types+node@20.1.0").unwrap(),
        "@types/node"
    );
    assert_eq!(extract_package_name_from_pnpm("@").unwrap(), "@");
}

#[test]
fn test_lookup_prefers_top_level_then_store() {
    let tree = InstalledTree {
        top_level: vec![pkg("uuid", &[], &[], &[])],
        store: vec![StoreEntry {
            dir_name: "uuid@9.0.1".to_owned(),
            info: pkg("uuid-from-store", &[], &[], &[]),
        }],
    };
    assert_eq!(lookup_package(&tree, "uuid").unwrap().name, "uuid");

    let store_only = InstalledTree {
        top_level: vec![],
        store: vec![StoreEntry {
            dir_name: "uuid@9.0.1".to_owned(),
            info: pkg("uuid", &["inner"], &[], &[]),
        }],
    };
    assert_eq!(
        lookup_package(&store_only, "uuid").unwrap().dependencies,
        vec!["inner".to_owned()]
    );
    assert!(lookup_package(&store_only, "missing").is_none());
    assert!(package_exists(&store_only, "uuid"));
    assert!(!package_exists(&store_only, "missing"));
}

#[test]
fn test_closure_follows_dependencies() {
    let tree = InstalledTree {
        top_level: vec![
            pkg("a", &["b"], &[], &[]),
            pkg("b", &["c"], &[], &[]),
            pkg("c", &[], &[], &[]),
        ],
        store: vec![],
    };
    let seeds = vec!["a".to_owned()];
    let resolved = resolve_closure(&tree, &seeds);
    assert!(resolved.contains(&"a".to_owned()));
    assert!(resolved.contains(&"b".to_owned()));
    assert!(resolved.contains(&"c".to_owned()));
    assert_eq!(resolved.len(), 3);
}

#[test]
fn test_closure_cycle_terminates_each_once() {
    // Two packages that depend on each other: the walk ends and each
    // appears exactly once.
    let tree = InstalledTree {
        top_level: vec![pkg("a", &["b"], &[], &[]), pkg("b", &["a"], &[], &[])],
        store: vec![],
    };
    let seeds = vec!["a".to_owned()];
    let resolved = resolve_closure(&tree, &seeds);
    assert_eq!(
        resolved.iter().filter(|n| n.as_str() == "a").count(),
        1
    );
    assert_eq!(
        resolved.iter().filter(|n| n.as_str() == "b").count(),
        1
    );
    assert_eq!(resolved.len(), 2);
}

#[test]
fn test_closure_peers_only_when_installed() {
    let tree = InstalledTree {
        top_level: vec![
            pkg("a", &[], &["present-peer", "absent-peer"], &[]),
            pkg("present-peer", &[], &[], &[]),
        ],
        store: vec![],
    };
    let seeds = vec!["a".to_owned()];
    let resolved = resolve_closure(&tree, &seeds);
    assert!(resolved.contains(&"a".to_owned()));
    assert!(resolved.contains(&"present-peer".to_owned()));
    // An uninstalled peer of a transitive package is not pulled in.
    assert!(!resolved.contains(&"absent-peer".to_owned()));
}

#[test]
fn test_closure_empty_seeds() {
    let tree = InstalledTree {
        top_level: vec![pkg("a", &[], &[], &[])],
        store: vec![],
    };
    let seeds: Vec<String> = vec![];
    let resolved = resolve_closure(&tree, &seeds);
    assert!(resolved.is_empty());
}

#[test]
fn test_closure_unresolvable_name_kept_without_children() {
    // A declared dependency that is installed nowhere still appears in
    // the set, and simply contributes nothing further.
    let tree = InstalledTree {
        top_level: vec![pkg("a", &["ghost-dep"], &[], &[])],
        store: vec![],
    };
    let seeds = vec!["a".to_owned()];
    let resolved = resolve_closure(&tree, &seeds);
    assert!(resolved.contains(&"ghost-dep".to_owned()));
    assert_eq!(resolved.len(), 2);
}

#[test]
fn test_seed_packages_order() {
    let deps = vec!["a".to_owned()];
    let peers = vec!["b".to_owned()];
    let optionals = vec!["c".to_owned()];
    let seeds = seed_packages(&deps, &peers, &optionals);
    assert_eq!(seeds, vec!["a".to_owned(), "b".to_owned(), "c".to_owned()]);
}

#[test]
fn test_closure_through_store() {
    // A content-store installation: the top level links resolve through
    // the store's parsed directory names.
    let tree = InstalledTree {
        top_level: vec![],
        store: vec![
            StoreEntry {
                dir_name: "uuid@9.0.1".to_owned(),
                info: pkg("uuid", &[], &[], &[]),
            },
            StoreEntry {
                dir_name: "@scope+helper@1.0.0".to_owned(),
                info: pkg("@scope/helper", &["uuid"], &[], &[]),
            },
        ],
    };
    let seeds = vec!["@scope/helper".to_owned()];
    let resolved = resolve_closure(&tree, &seeds);
    assert!(resolved.contains(&"@scope/helper".to_owned()));
    assert!(resolved.contains(&"uuid".to_owned()));
}
