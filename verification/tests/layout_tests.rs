use banderole::layout::{
    dependency_source_decision, detect_layout, AncestorProbe, DepSource, LayoutProbe,
    StoreLayout,
};
use banderole::source_dir::{
    rewrite_main_field, select_source_directory, strip_json_comments, ConventionalDir,
    SourceChoice, SourceProbe,
};

#[test]
fn test_detect_layout_flat() {
    let probe = LayoutProbe {
        has_store_dir: false,
        child_link_targets: vec![],
    };
    let d = detect_layout(&probe);
    assert_eq!(d.layout, StoreLayout::Flat);
    assert!(!d.workspace_variant);
}

#[test]
fn test_detect_layout_content_store() {
    let probe = LayoutProbe {
        has_store_dir: true,
        child_link_targets: vec![],
    };
    assert_eq!(detect_layout(&probe).layout, StoreLayout::ContentStore);

    let linked = LayoutProbe {
        has_store_dir: false,
        child_link_targets: vec![".pnpm-irrelevant".to_owned(), "./.pnpm/uuid@9.0.1/node_modules/uuid".to_owned()],
    };
    assert_eq!(detect_layout(&linked).layout, StoreLayout::ContentStore);
}

#[test]
fn test_detect_layout_workspace_variant() {
    // A link reaching upward through a parent segment into the store
    // marks the workspace variant.
    let probe = LayoutProbe {
        has_store_dir: false,
        child_link_targets: vec!["../../node_modules/.pnpm/uuid@9.0.1/node_modules/uuid".to_owned()],
    };
    let d = detect_layout(&probe);
    assert_eq!(d.layout, StoreLayout::ContentStore);
    assert!(d.workspace_variant);
}

#[test]
fn test_dependency_source_project() {
    let ancestors = vec![];
    assert_eq!(
        dependency_source_decision(true, false, &ancestors),
        DepSource::Project
    );
}

#[test]
fn test_dependency_source_workspace_ancestor() {
    // A project without its own modules directory sources dependencies
    // from the nearest workspace ancestor.
    let ancestors = vec![
        AncestorProbe {
            has_node_modules: false,
            has_manifest: true,
            declares_workspaces: false,
            has_workspace_config: false,
        },
        AncestorProbe {
            has_node_modules: true,
            has_manifest: true,
            declares_workspaces: true,
            has_workspace_config: false,
        },
    ];
    assert_eq!(
        dependency_source_decision(false, false, &ancestors),
        DepSource::Ancestor { index: 1 }
    );
}

#[test]
fn test_dependency_source_none() {
    let ancestors = vec![AncestorProbe {
        has_node_modules: true,
        has_manifest: false,
        declares_workspaces: false,
        has_workspace_config: false,
    }];
    assert_eq!(
        dependency_source_decision(false, false, &ancestors),
        DepSource::NoneFound
    );
}

fn conventional(name: &str, exists: bool, has_js: bool) -> ConventionalDir {
    ConventionalDir {
        name: name.to_owned(),
        exists_as_dir: exists,
        has_js_or_manifest: has_js,
    }
}

#[test]
fn test_source_selection_main_parent_wins() {
    // The manifest's entry-point field pointing into an existing dist
    // directory selects it first.
    let probe = SourceProbe {
        main_parent_name: Some("dist".to_owned()),
        main_parent_exists: true,
        tsconfig_out_dir: Some("out".to_owned()),
        tsconfig_out_exists: true,
        conventional: vec![conventional("dist", true, true)],
    };
    assert_eq!(select_source_directory(&probe), SourceChoice::MainParent);
}

#[test]
fn test_source_selection_tsconfig_then_conventional() {
    let probe = SourceProbe {
        main_parent_name: None,
        main_parent_exists: false,
        tsconfig_out_dir: Some("compiled".to_owned()),
        tsconfig_out_exists: true,
        conventional: vec![conventional("dist", true, true)],
    };
    assert_eq!(select_source_directory(&probe), SourceChoice::TsconfigOut);

    let probe2 = SourceProbe {
        main_parent_name: None,
        main_parent_exists: false,
        tsconfig_out_dir: None,
        tsconfig_out_exists: false,
        conventional: vec![
            conventional("dist", false, false),
            conventional("build", true, true),
        ],
    };
    assert_eq!(
        select_source_directory(&probe2),
        SourceChoice::Conventional { index: 1 }
    );
}

#[test]
fn test_source_selection_project_root_fallback() {
    let probe = SourceProbe {
        main_parent_name: Some("src".to_owned()),
        main_parent_exists: true,
        tsconfig_out_dir: None,
        tsconfig_out_exists: false,
        conventional: vec![
            conventional("dist", true, false),
            conventional("lib", false, true),
        ],
    };
    assert_eq!(select_source_directory(&probe), SourceChoice::ProjectRoot);
}

#[test]
fn test_strip_json_comments() {
    let cleaned = strip_json_comments("{\n  // a comment\n  \"outDir\": \"dist\"\n}");
    assert_eq!(cleaned, "{\n  \"outDir\": \"dist\"\n}");
}

#[test]
fn test_rewrite_main_field() {
    assert_eq!(rewrite_main_field("dist/index.js", "dist").unwrap(), "index.js");
    assert_eq!(rewrite_main_field("src/index.js", "dist"), None);
    assert_eq!(rewrite_main_field("distx/index.js", "dist"), None);
}

#[test]
fn test_workspace_root_config_file_without_manifest() {
    // A workspace configuration file beside an installation is enough:
    // no manifest is required on that ancestor.
    let ancestors = vec![AncestorProbe {
        has_node_modules: true,
        has_manifest: false,
        declares_workspaces: false,
        has_workspace_config: true,
    }];
    assert_eq!(
        dependency_source_decision(false, false, &ancestors),
        DepSource::Ancestor { index: 0 }
    );
}
