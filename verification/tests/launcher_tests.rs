use banderole::launcher::{
    choose_runtime_executable, extraction_steps, find_main_script, is_extraction_valid,
    launch_args, launch_plan, prepended_path_env, runtime_executable_path, ArchiveIndexEntry,
    LauncherAction,
};

#[test]
fn test_fast_path_only_runs() {
    // A valid sentinel means no lock, no extraction, no cache mutation:
    // re-running against an intact cache is a no-op on the cache.
    let plan = launch_plan(true, false, false, true);
    assert_eq!(plan, vec![LauncherAction::RunApp]);
}

#[test]
fn test_locked_valid_releases_without_mutation() {
    let plan = launch_plan(false, true, false, false);
    assert_eq!(
        plan,
        vec![
            LauncherAction::AcquireLock,
            LauncherAction::ReleaseLock,
            LauncherAction::RunApp,
        ]
    );
}

#[test]
fn test_first_launch_extracts_under_lock() {
    let plan = launch_plan(false, false, true, false);
    assert_eq!(
        plan,
        vec![
            LauncherAction::AcquireLock,
            LauncherAction::Extract,
            LauncherAction::WriteSentinel,
            LauncherAction::ReleaseLock,
            LauncherAction::RunApp,
        ]
    );
}

#[test]
fn test_stale_dir_removed_before_extraction() {
    // Deleting or corrupting the per-build directory and re-running
    // re-extracts from a clean state.
    let plan = launch_plan(false, false, true, true);
    assert_eq!(
        plan,
        vec![
            LauncherAction::AcquireLock,
            LauncherAction::RemoveBuildDir,
            LauncherAction::Extract,
            LauncherAction::WriteSentinel,
            LauncherAction::ReleaseLock,
            LauncherAction::RunApp,
        ]
    );
}

#[test]
fn test_failed_extraction_cleans_up_without_sentinel() {
    let plan = launch_plan(false, false, false, false);
    assert_eq!(
        plan,
        vec![
            LauncherAction::AcquireLock,
            LauncherAction::Extract,
            LauncherAction::RemoveBuildDir,
            LauncherAction::ReleaseLock,
            LauncherAction::Fail,
        ]
    );
    assert!(!plan.contains(&LauncherAction::WriteSentinel));
}

#[test]
fn test_concurrent_first_launch_single_extraction() {
    // Five launches against an empty cache: the lock holder that finds
    // the tree still invalid extracts; every other process sees a valid
    // tree either before or under the lock and mutates nothing.  All
    // five end by running the application.
    let winner = launch_plan(false, false, true, false);
    let mut extractions = winner
        .iter()
        .filter(|a| **a == LauncherAction::Extract)
        .count();
    let mut runs = usize::from(*winner.last().unwrap() == LauncherAction::RunApp);
    for _ in 0..2 {
        let waited = launch_plan(false, true, false, false);
        extractions += waited
            .iter()
            .filter(|a| **a == LauncherAction::Extract)
            .count();
        runs += usize::from(*waited.last().unwrap() == LauncherAction::RunApp);
    }
    for _ in 0..2 {
        let late = launch_plan(true, false, false, false);
        extractions += late
            .iter()
            .filter(|a| **a == LauncherAction::Extract)
            .count();
        runs += usize::from(*late.last().unwrap() == LauncherAction::RunApp);
    }
    assert_eq!(extractions, 1);
    assert_eq!(runs, 5);
}

#[test]
fn test_validation_needs_both() {
    assert!(is_extraction_valid(true, true));
    assert!(!is_extraction_valid(false, true));
    assert!(!is_extraction_valid(true, false));
}

#[test]
fn test_runtime_executable_paths() {
    assert_eq!(runtime_executable_path(false), "runtime/bin/node");
    assert_eq!(runtime_executable_path(true), "runtime/node.exe");
    assert_eq!(
        choose_runtime_executable("runtime/bin/node".to_owned(), true, None),
        "runtime/bin/node"
    );
    assert_eq!(
        choose_runtime_executable(
            "runtime/bin/node".to_owned(),
            false,
            Some("runtime/other/node".to_owned())
        ),
        "runtime/other/node"
    );
    assert_eq!(
        choose_runtime_executable("runtime/bin/node".to_owned(), false, None),
        "runtime/bin/node"
    );
}

#[test]
fn test_entry_script_default() {
    assert_eq!(find_main_script(Some("dist/cli.js".to_owned())), "dist/cli.js");
    assert_eq!(find_main_script(None), "index.js");
}

#[test]
fn test_launch_args_forwarding() {
    // The child gets the entry script first, then every launcher
    // argument verbatim.
    let args = vec!["--flag".to_owned(), "value".to_owned()];
    let r = launch_args("index.js", &args);
    assert_eq!(
        r,
        vec!["index.js".to_owned(), "--flag".to_owned(), "value".to_owned()]
    );
    let none: Vec<String> = vec![];
    assert_eq!(launch_args("index.js", &none), vec!["index.js".to_owned()]);
}

#[test]
fn test_prepended_path_env() {
    assert_eq!(
        prepended_path_env("/cache/x/runtime/bin", "/usr/bin", false),
        "/cache/x/runtime/bin:/usr/bin"
    );
    assert_eq!(
        prepended_path_env("C:\\cache\\runtime", "C:\\Windows", true),
        "C:\\cache\\runtime;C:\\Windows"
    );
}

fn index_entry(name: &str, is_dir: bool) -> ArchiveIndexEntry {
    ArchiveIndexEntry {
        name: name.to_owned(),
        is_dir,
        mode: Some(0o644),
    }
}

#[test]
fn test_extraction_steps_destinations() {
    let entries = vec![
        index_entry("app/", true),
        index_entry("app/index.js", false),
        index_entry("", false),
        index_entry("runtime/bin/node", false),
    ];
    let steps = extraction_steps(&entries);
    assert_eq!(steps.len(), 3);
    assert_eq!(steps[0].components, vec!["app".to_owned()]);
    assert!(steps[0].is_dir);
    assert_eq!(
        steps[1].components,
        vec!["app".to_owned(), "index.js".to_owned()]
    );
    assert!(!steps[1].is_dir);
    assert_eq!(
        steps[2].components,
        vec!["runtime".to_owned(), "bin".to_owned(), "node".to_owned()]
    );
}

#[test]
fn test_extraction_steps_reject_escapes() {
    // A malformed archive cannot write outside the per-build directory:
    // traversing and absolute entries are skipped entirely.
    let entries = vec![
        index_entry("../outside", false),
        index_entry("/etc/passwd", false),
        index_entry("a/../../b", false),
        index_entry("ok", false),
    ];
    let steps = extraction_steps(&entries);
    assert_eq!(steps.len(), 1);
    assert_eq!(steps[0].components, vec!["ok".to_owned()]);
}
