use banderole::bundle::{
    bundle_plan, choose_cache_dir, rename_template_package, should_flatten,
    strip_first_component, CacheDirBase, EmbeddedTemplate,
};
use banderole::manifest::{parse_compiler_config, parse_manifest};
use banderole::naming::{resolve_output_path, sanitize_package_name, u64_to_decimal};
use banderole::platform::{get_target_triple, Platform};
use banderole::toolchain::{
    count_compile_units, total_units_or_fallback, PackageTargets, RustToolchain, TargetKinds,
};

#[test]
fn test_parse_manifest_fields() {
    // Runs the real JSON library behind the trusted declarations: the
    // extracted fields must match the document, not echo its text.
    let m = parse_manifest(
        "{\"name\":\"hello\",\"version\":\"0.0.1\",\"main\":\"index.js\",\
         \"dependencies\":{\"uuid\":\"^9\"},\"peerDependencies\":{\"react\":\"*\"}}",
    )
    .unwrap();
    assert_eq!(m.name.as_deref(), Some("hello"));
    assert_eq!(m.version.as_deref(), Some("0.0.1"));
    assert_eq!(m.main.as_deref(), Some("index.js"));
    assert_eq!(m.dependencies, vec!["uuid".to_owned()]);
    assert_eq!(m.peer_dependencies, vec!["react".to_owned()]);
    assert!(m.optional_dependencies.is_empty());
    assert!(!m.has_workspaces);
}

#[test]
fn test_parse_manifest_workspaces_and_errors() {
    let ws = parse_manifest("{\"workspaces\":[\"packages/*\"]}").unwrap();
    assert!(ws.has_workspaces);
    let ws2 = parse_manifest("{\"workspaces\":{\"packages\":[\"p/*\"]}}").unwrap();
    assert!(ws2.has_workspaces);
    assert!(parse_manifest("not json at all {{{").is_none());
}

#[test]
fn test_parse_compiler_config() {
    let c = parse_compiler_config(
        "{\"extends\":\"./base\",\"compilerOptions\":{\"outDir\":\"dist\"}}",
    )
    .unwrap();
    assert_eq!(c.out_dir.as_deref(), Some("dist"));
    assert_eq!(c.extends.as_deref(), Some("./base"));
}

#[test]
fn test_sanitize_package_name() {
    assert_eq!(sanitize_package_name("My App!"), "My-App-");
    assert_eq!(sanitize_package_name("123-abc"), "abc");
    assert_eq!(sanitize_package_name("good_name-2"), "good_name-2");
}

#[test]
fn test_u64_to_decimal() {
    assert_eq!(u64_to_decimal(0), "0");
    assert_eq!(u64_to_decimal(7), "7");
    assert_eq!(u64_to_decimal(2048), "2048");
}

#[test]
fn test_resolve_output_path_collisions() {
    // Name collisions step through -bundle and -bundle-N until free.
    let existing = vec!["app".to_owned(), "app-bundle".to_owned(), "app-bundle-1".to_owned()];
    let r = resolve_output_path(None, "app", None, false, &existing);
    assert_eq!(r, "app-bundle-2");

    let free: Vec<String> = vec![];
    assert_eq!(resolve_output_path(None, "app", None, false, &free), "app");
    assert_eq!(
        resolve_output_path(None, "app", Some("custom"), true, &free),
        "custom.exe"
    );
    assert_eq!(
        resolve_output_path(Some("given".to_owned()), "app", None, false, &existing),
        "given"
    );
}

#[test]
fn test_bundle_plan_defaults() {
    let existing: Vec<String> = vec![];
    let plan = bundle_plan(None, None, None, None, true, false, &existing);
    assert_eq!(plan.app_name, "app");
    assert_eq!(plan.app_version, "0.0.0");
    assert_eq!(plan.output_path, "app");
    assert!(plan.compression_stored);
    assert_eq!(plan.build_id.len(), 36);
}

#[test]
fn test_build_ids_differ_across_builds() {
    let existing: Vec<String> = vec![];
    let a = bundle_plan(None, None, None, None, false, false, &existing);
    let b = bundle_plan(None, None, None, None, false, false, &existing);
    assert_ne!(a.build_id, b.build_id);
}

#[test]
fn test_rename_template_package() {
    let toml = "[package]\nname = \"banderole-app\"\nversion = \"0.1.0\"\n";
    let renamed = rename_template_package(toml, "My App");
    assert_eq!(renamed, "[package]\nname = \"My-App\"\nversion = \"0.1.0\"\n");
    let untouched = rename_template_package("[package]\nname = \"other\"\n", "x");
    assert_eq!(untouched, "[package]\nname = \"other\"\n");
}

#[test]
fn test_embedded_template_new() {
    let t = EmbeddedTemplate::new("c".to_owned(), "b".to_owned(), "m".to_owned());
    assert_eq!(t.cargo_toml, "c");
    assert_eq!(t.build_rs, "b");
    assert_eq!(t.main_rs, "m");
}

#[test]
fn test_choose_cache_dir_preference() {
    assert_eq!(choose_cache_dir(true, true, true), CacheDirBase::XdgCacheHome);
    assert_eq!(choose_cache_dir(false, true, true), CacheDirBase::HomeCache);
    assert_eq!(choose_cache_dir(false, false, true), CacheDirBase::AppData);
    assert_eq!(choose_cache_dir(false, false, false), CacheDirBase::TempDir);
}

#[test]
fn test_strip_first_component() {
    assert_eq!(
        strip_first_component("node-v20.0.0-linux-x64/bin/node").unwrap(),
        "bin/node"
    );
    assert_eq!(strip_first_component("toplevel"), None);
    assert_eq!(strip_first_component("toplevel/"), None);
    assert!(should_flatten(1, false));
    assert!(!should_flatten(1, true));
    assert!(!should_flatten(2, false));
}

#[test]
fn test_platform_names() {
    let p = Platform::LinuxX64;
    assert_eq!(p.node_archive_name("20.11.1"), "node-v20.11.1-linux-x64.tar.xz");
    assert_eq!(p.node_executable_path(), "bin/node");
    assert!(!p.is_windows());
    let w = Platform::WindowsArm64;
    assert_eq!(w.node_archive_name("20.0.0"), "node-v20.0.0-win-arm64.7z");
    assert_eq!(w.node_executable_path(), "node.exe");
    assert!(w.is_windows());
    assert_eq!(p.label(), "linux-x64");
    assert_eq!(get_target_triple(&p), "x86_64-unknown-linux-gnu");
    assert_eq!(Platform::from_os_arch("linux", "x86_64"), Some(Platform::LinuxX64));
    assert_eq!(Platform::from_os_arch("freebsd", "x86_64"), None);
}

#[test]
fn test_count_compile_units() {
    let t = |cb: bool, pm: bool, lib: bool, bin: bool| TargetKinds {
        custom_build: cb,
        proc_macro: pm,
        lib,
        bin,
    };
    let packages = vec![
        PackageTargets {
            is_root: true,
            targets: vec![t(false, false, false, true), t(true, false, false, false)],
        },
        PackageTargets {
            is_root: false,
            // A dependency's binary is not compiled for the launcher.
            targets: vec![t(false, false, true, false), t(false, false, false, true)],
        },
    ];
    assert_eq!(count_compile_units(&packages), 3);
    assert_eq!(total_units_or_fallback(3, 10), 3);
    assert_eq!(total_units_or_fallback(0, 10), 10);
    assert_eq!(total_units_or_fallback(0, 0), 1);
}

#[test]
fn test_installation_instructions_mention_rustup() {
    let text = RustToolchain::get_installation_instructions();
    assert!(text.contains("rustup.rs"));
}

#[test]
fn test_rename_template_package_first_occurrence_only() {
    let toml = "name = \"banderole-app\"\nname = \"banderole-app\"\n";
    let renamed = rename_template_package(toml, "x");
    assert_eq!(renamed, "name = \"x\"\nname = \"banderole-app\"\n");
}
