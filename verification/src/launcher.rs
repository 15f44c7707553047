//! The launcher's run-time behaviour: cache validation, the locked
//! extraction protocol, destination checks for archive entries, and how
//! the runtime child process is assembled.
//!
//! The functions here decide; the surrounding program performs the file,
//! lock and process work and reports plain observations back.

use vstd::prelude::*;
use crate::archive::{spec_norm_path, normalize_entry_path, lemma_normalized_clean};
use crate::strutil::{spec_ends_with, ends_with_str, find_char};

verus! {

/// One step of the launcher protocol.
#[derive(Debug, Clone, Copy, PartialEq, Eq, Structural)]
pub enum LauncherAction {
    /// Exec the runtime against the entry script.
    RunApp,
    /// Take the exclusive per-build lock.
    AcquireLock,
    /// Release the per-build lock.
    ReleaseLock,
    /// Remove the per-build directory.
    RemoveBuildDir,
    /// Create the per-build directory and extract every archive entry.
    Extract,
    /// Write the `.ready` sentinel.
    WriteSentinel,
    /// Surface a fatal extraction error.
    Fail,
}

/// The launcher's course of action, decided from three observations:
/// whether the sentinel and tree validated before locking (the fast
/// path), whether they validated again once the lock was held (another
/// process extracted while we waited), and whether our own extraction
/// then succeeded.  `build_dir_exists` says whether a stale per-build
/// directory must be removed first.
pub open spec fn spec_launch_plan(
    fast_valid: bool,
    locked_valid: bool,
    extract_ok: bool,
    build_dir_exists: bool,
) -> Seq<LauncherAction> {
    if fast_valid {
        seq![LauncherAction::RunApp]
    } else if locked_valid {
        seq![LauncherAction::AcquireLock, LauncherAction::ReleaseLock, LauncherAction::RunApp]
    } else {
        let cleanup = if build_dir_exists {
            seq![LauncherAction::AcquireLock, LauncherAction::RemoveBuildDir]
        } else {
            seq![LauncherAction::AcquireLock]
        };
        if extract_ok {
            cleanup + seq![
                LauncherAction::Extract,
                LauncherAction::WriteSentinel,
                LauncherAction::ReleaseLock,
                LauncherAction::RunApp,
            ]
        } else {
            cleanup + seq![
                LauncherAction::Extract,
                LauncherAction::RemoveBuildDir,
                LauncherAction::ReleaseLock,
                LauncherAction::Fail,
            ]
        }
    }
}

/// Decide the launcher's whole course of action.
///
/// A valid fast path touches nothing and runs the application; a valid
/// re-check under the lock releases it without mutation; otherwise the
/// lock holder extracts, writes the sentinel and runs; a failed
/// extraction removes the per-build directory before the lock is
/// released, so the next holder starts clean, and no sentinel is left
/// behind.
pub fn launch_plan(
    fast_valid: bool,
    locked_valid: bool,
    extract_ok: bool,
    build_dir_exists: bool,
) -> (r: Vec<LauncherAction>)
    ensures
        r@ == spec_launch_plan(fast_valid, locked_valid, extract_ok, build_dir_exists),
{
    let mut plan: Vec<LauncherAction> = Vec::new();
    if fast_valid {
        plan.push(LauncherAction::RunApp);
        proof {
            assert(plan@ =~= spec_launch_plan(fast_valid, locked_valid, extract_ok,
                build_dir_exists));
        }
        return plan;
    }
    plan.push(LauncherAction::AcquireLock);
    if locked_valid {
        plan.push(LauncherAction::ReleaseLock);
        plan.push(LauncherAction::RunApp);
        proof {
            assert(plan@ =~= spec_launch_plan(fast_valid, locked_valid, extract_ok,
                build_dir_exists));
        }
        return plan;
    }
    if build_dir_exists {
        plan.push(LauncherAction::RemoveBuildDir);
    }
    plan.push(LauncherAction::Extract);
    if extract_ok {
        plan.push(LauncherAction::WriteSentinel);
        plan.push(LauncherAction::ReleaseLock);
        plan.push(LauncherAction::RunApp);
    } else {
        plan.push(LauncherAction::RemoveBuildDir);
        plan.push(LauncherAction::ReleaseLock);
        plan.push(LauncherAction::Fail);
    }
    proof {
        assert(plan@ =~= spec_launch_plan(fast_valid, locked_valid, extract_ok, build_dir_exists));
    }
    plan
}

/// Whether an action mutates the per-build cache entry.
pub open spec fn spec_mutates_cache(a: LauncherAction) -> bool {
    a == LauncherAction::Extract || a == LauncherAction::RemoveBuildDir || a
        == LauncherAction::WriteSentinel
}

/// A launch that observes a valid sentinel on the fast path performs no
/// extraction and no other cache mutation, takes no lock, and only runs
/// the application.  Re-running against an intact cache is thus a no-op
/// on the cache, and its startup cost is one validation plus the process
/// spawn.
pub proof fn lemma_valid_sentinel_no_work(
    locked_valid: bool,
    extract_ok: bool,
    build_dir_exists: bool,
)
    ensures
        spec_launch_plan(true, locked_valid, extract_ok, build_dir_exists) == seq![
            LauncherAction::RunApp,
        ],
        forall|i: int|
            0 <= i < spec_launch_plan(true, locked_valid, extract_ok, build_dir_exists).len()
                ==> !spec_mutates_cache(
                #[trigger] spec_launch_plan(true, locked_valid, extract_ok, build_dir_exists)[i],
            ),
{
    let plan = spec_launch_plan(true, locked_valid, extract_ok, build_dir_exists);
    assert forall|i: int| 0 <= i < plan.len() implies !spec_mutates_cache(
        #[trigger] plan[i],
    ) by {
        assert(plan[i] == LauncherAction::RunApp);
    }
}

/// A process that finds a valid sentinel after taking the lock releases
/// it without mutating the cache: ownership of extraction passed to
/// whoever extracted first.
pub proof fn lemma_locked_valid_no_mutation(extract_ok: bool, build_dir_exists: bool)
    ensures
        forall|i: int|
            0 <= i < spec_launch_plan(false, true, extract_ok, build_dir_exists).len()
                ==> !spec_mutates_cache(
                #[trigger] spec_launch_plan(false, true, extract_ok, build_dir_exists)[i],
            ),
{
    let plan = spec_launch_plan(false, true, extract_ok, build_dir_exists);
    assert forall|i: int| 0 <= i < plan.len() implies !spec_mutates_cache(
        #[trigger] plan[i],
    ) by {
        assert(plan[i] == LauncherAction::AcquireLock || plan[i] == LauncherAction::ReleaseLock
            || plan[i] == LauncherAction::RunApp);
    }
}

/// Every plan extracts at most once, and only strictly between taking
/// and releasing the exclusive lock, and only after the re-check under
/// the lock failed.  With the lock exclusive across processes, at most
/// one concurrent launch of a build runs an extraction at a time.
pub proof fn lemma_extraction_only_under_lock(
    fast_valid: bool,
    locked_valid: bool,
    extract_ok: bool,
    build_dir_exists: bool,
)
    ensures
        ({
            let plan = spec_launch_plan(fast_valid, locked_valid, extract_ok, build_dir_exists);
            &&& forall|i: int, j: int|
                0 <= i < plan.len() && 0 <= j < plan.len() && #[trigger] plan[i]
                    == LauncherAction::Extract && #[trigger] plan[j] == LauncherAction::Extract
                    ==> i == j
            &&& forall|i: int|
                0 <= i < plan.len() && #[trigger] plan[i] == LauncherAction::Extract ==> {
                    &&& !fast_valid
                    &&& !locked_valid
                    &&& plan[0] == LauncherAction::AcquireLock
                    &&& plan[plan.len() - 2] == LauncherAction::ReleaseLock
                    &&& 0 < i < plan.len() - 2
                }
        }),
{
    let plan = spec_launch_plan(fast_valid, locked_valid, extract_ok, build_dir_exists);
    if !fast_valid && !locked_valid {
        let ex: int = if build_dir_exists {
            2
        } else {
            1
        };
        assert(plan.len() == ex + 4);
        assert(plan[0] == LauncherAction::AcquireLock);
        assert(plan[ex] == LauncherAction::Extract);
        assert(plan[ex + 1] != LauncherAction::Extract);
        assert(plan[ex + 2] == LauncherAction::ReleaseLock);
        assert(plan[ex + 3] != LauncherAction::Extract);
        if build_dir_exists {
            assert(plan[1] == LauncherAction::RemoveBuildDir);
        }
        assert(forall|i: int| 0 <= i < plan.len() && #[trigger] plan[i]
            == LauncherAction::Extract ==> i == ex);
    } else {
        assert(forall|i: int| 0 <= i < plan.len() ==> #[trigger] plan[i]
            != LauncherAction::Extract);
    }
}

/// When the sentinel is absent or invalid and extraction succeeds, the
/// lock holder re-extracts and the sentinel is written only after the
/// extraction, before the lock is released: deleting the per-build
/// directory and re-running re-extracts, and the sentinel never precedes
/// a complete tree.
pub proof fn lemma_reextraction_after_removal(extract_ok: bool, build_dir_exists: bool)
    ensures
        extract_ok ==> {
            let plan = spec_launch_plan(false, false, true, build_dir_exists);
            &&& exists|i: int|
                0 <= i < plan.len() && #[trigger] plan[i] == LauncherAction::Extract
            &&& forall|i: int, j: int|
                0 <= i < plan.len() && 0 <= j < plan.len() && plan[i] == LauncherAction::Extract
                    && plan[j] == LauncherAction::WriteSentinel ==> i < j
            &&& plan.last() == LauncherAction::RunApp
        },
        !extract_ok ==> {
            let plan = spec_launch_plan(false, false, false, build_dir_exists);
            &&& forall|j: int|
                0 <= j < plan.len() ==> #[trigger] plan[j] != LauncherAction::WriteSentinel
            &&& exists|i: int, j: int|
                0 <= i < j < plan.len() && #[trigger] plan[i] == LauncherAction::Extract
                    && #[trigger] plan[j] == LauncherAction::RemoveBuildDir
            &&& plan.last() == LauncherAction::Fail
        },
{
    if extract_ok {
        let plan = spec_launch_plan(false, false, true, build_dir_exists);
        if build_dir_exists {
            assert(plan[2] == LauncherAction::Extract);
        } else {
            assert(plan[1] == LauncherAction::Extract);
        }
    } else {
        let plan = spec_launch_plan(false, false, false, build_dir_exists);
        if build_dir_exists {
            assert(plan[2] == LauncherAction::Extract && plan[3]
                == LauncherAction::RemoveBuildDir);
        } else {
            assert(plan[1] == LauncherAction::Extract && plan[2]
                == LauncherAction::RemoveBuildDir);
        }
    }
}

/// Every plan ends by running the application or surfacing a failure,
/// and it ends in failure only when the process itself extracted and
/// that extraction failed.
pub proof fn lemma_plan_terminal(
    fast_valid: bool,
    locked_valid: bool,
    extract_ok: bool,
    build_dir_exists: bool,
)
    ensures
        spec_launch_plan(fast_valid, locked_valid, extract_ok, build_dir_exists).last()
            == LauncherAction::RunApp || spec_launch_plan(
            fast_valid,
            locked_valid,
            extract_ok,
            build_dir_exists,
        ).last() == LauncherAction::Fail,
        (fast_valid || locked_valid || extract_ok) ==> spec_launch_plan(
            fast_valid,
            locked_valid,
            extract_ok,
            build_dir_exists,
        ).last() == LauncherAction::RunApp,
{
}

/// Whether both validation conditions hold: the application manifest is
/// present and the runtime executable is present.
pub fn is_extraction_valid(app_manifest_exists: bool, runtime_executable_exists: bool) -> (r:
    bool)
    ensures
        r == (app_manifest_exists && runtime_executable_exists),
{
    app_manifest_exists && runtime_executable_exists
}

/// The platform-specific path of the runtime executable inside a cache
/// entry.
pub fn runtime_executable_path(windows: bool) -> (r: String)
    ensures
        windows ==> r@ == "runtime/node.exe"@,
        !windows ==> r@ == "runtime/bin/node"@,
{
    if windows {
        String::from_str("runtime/node.exe")
    } else {
        String::from_str("runtime/bin/node")
    }
}

/// Which runtime executable the launcher uses: the expected
/// platform-specific path when it exists, else whatever a recursive
/// search under `runtime/` found, else the expected path (whose absence
/// then fails validation downstream).
pub fn choose_runtime_executable(
    expected: String,
    expected_exists: bool,
    search_result: Option<String>,
) -> (r: String)
    ensures
        expected_exists ==> r == expected,
        !expected_exists ==> match search_result {
            Some(found) => r == found,
            None => r == expected,
        },
{
    if expected_exists {
        expected
    } else {
        match search_result {
            Some(found) => found,
            None => expected,
        }
    }
}

/// The entry script: the manifest's entry-point field when it is
/// present, `index.js` otherwise.
pub fn find_main_script(main_field: Option<String>) -> (r: String)
    ensures
        match main_field {
            Some(m) => r == m,
            None => r@ == "index.js"@,
        },
{
    match main_field {
        Some(m) => m,
        None => String::from_str("index.js"),
    }
}

/// The argument list handed to the runtime: the entry script first, then
/// every launcher argument in order.
pub fn launch_args(main_script: &str, args: &Vec<String>) -> (r: Vec<String>)
    ensures
        r@.len() == 1 + args@.len(),
        r@[0]@ == main_script@,
        forall|i: int| 0 <= i < args@.len() ==> r@[i + 1] == #[trigger] args@[i],
{
    let mut r: Vec<String> = Vec::new();
    r.push(main_script.to_owned());
    let mut i: usize = 0;
    while i < args.len()
        invariant
            i <= args@.len(),
            r@.len() == 1 + i,
            r@[0]@ == main_script@,
            forall|j: int| 0 <= j < i ==> r@[j + 1] == #[trigger] args@[j],
        decreases args@.len() - i,
    {
        r.push(args[i].clone());
        i = i + 1;
    }
    r
}

/// The search-path value for the child: the runtime's directory first,
/// the host separator, then the inherited value.
pub fn prepended_path_env(runtime_bin_dir: &str, old_path: &str, windows: bool) -> (r: String)
    ensures
        windows ==> r@ == runtime_bin_dir@ + ";"@ + old_path@,
        !windows ==> r@ == runtime_bin_dir@ + ":"@ + old_path@,
{
    let mut r = runtime_bin_dir.to_owned();
    if windows {
        r.append(";");
    } else {
        r.append(":");
    }
    r.append(old_path);
    r
}

/// One archive entry as the extractor reads it from the container's
/// index.
#[derive(Debug)]
pub struct ArchiveIndexEntry {
    pub name: String,
    pub is_dir: bool,
    pub mode: Option<u32>,
}

/// The mathematical value of an index entry.
pub struct ArchiveIndexEntryView {
    pub name: Seq<char>,
    pub is_dir: bool,
    pub mode: Option<u32>,
}

impl View for ArchiveIndexEntry {
    type V = ArchiveIndexEntryView;

    open spec fn view(&self) -> ArchiveIndexEntryView {
        ArchiveIndexEntryView { name: self.name@, is_dir: self.is_dir, mode: self.mode }
    }
}

/// One destination the extractor writes: the checked path components
/// under the per-build directory, whether it is a directory, and the
/// mode bits to apply.
#[derive(Debug)]
pub struct ExtractOp {
    pub components: Vec<String>,
    pub is_dir: bool,
    pub mode: Option<u32>,
}

/// The mathematical value of an extraction step.
pub struct ExtractOpView {
    pub components: Seq<Seq<char>>,
    pub is_dir: bool,
    pub mode: Option<u32>,
}

impl View for ExtractOp {
    type V = ExtractOpView;

    open spec fn view(&self) -> ExtractOpView {
        ExtractOpView {
            components: self.components@.map_values(|c: String| c@),
            is_dir: self.is_dir,
            mode: self.mode,
        }
    }
}

/// How one index entry is extracted, if at all: empty names, names with
/// an embedded NUL, absolute names, names that normalise to nothing and
/// names that would escape the per-build directory are all skipped.
pub open spec fn spec_extract_op(e: ArchiveIndexEntryView) -> Option<ExtractOpView> {
    if e.name.len() == 0 || (exists|j: int| 0 <= j < e.name.len() && e.name[j] == '\u{0}') {
        None
    } else {
        match spec_norm_path(e.name) {
            None => None,
            Some(comps) => if comps.len() == 0 {
                None
            } else {
                Some(ExtractOpView {
                    components: comps,
                    is_dir: e.is_dir || spec_ends_with(e.name, "/"@),
                    mode: e.mode,
                })
            },
        }
    }
}

/// The extraction steps for a whole archive index, in index order.
pub open spec fn spec_extraction_steps(entries: Seq<ArchiveIndexEntryView>) -> Seq<ExtractOpView>
    decreases entries.len(),
{
    if entries.len() == 0 {
        Seq::<ExtractOpView>::empty()
    } else {
        let rest = spec_extraction_steps(entries.drop_last());
        match spec_extract_op(entries.last()) {
            Some(op) => rest.push(op),
            None => rest,
        }
    }
}

/// Decide, for every entry of the embedded archive, where it may be
/// written below the per-build directory — or that it is skipped.  Every
/// produced destination consists only of plain, non-traversing
/// components, so no entry can reach outside the per-build directory.
pub fn extraction_steps(entries: &Vec<ArchiveIndexEntry>) -> (r: Vec<ExtractOp>)
    ensures
        r@.map_values(|op: ExtractOp| op@) == spec_extraction_steps(
            entries@.map_values(|e: ArchiveIndexEntry| e@),
        ),
{
    proof {
        reveal_strlit("/");
    }
    let ghost eviews = entries@.map_values(|e: ArchiveIndexEntry| e@);
    let mut r: Vec<ExtractOp> = Vec::new();
    let mut i: usize = 0;
    proof {
        assert(eviews.subrange(0, 0) =~= Seq::<ArchiveIndexEntryView>::empty());
        assert(r@.map_values(|op: ExtractOp| op@) =~= spec_extraction_steps(
            eviews.subrange(0, 0),
        ));
    }
    while i < entries.len()
        invariant
            i <= entries@.len(),
            eviews == entries@.map_values(|e: ArchiveIndexEntry| e@),
            r@.map_values(|op: ExtractOp| op@) == spec_extraction_steps(
                eviews.subrange(0, i as int),
            ),
        decreases entries@.len() - i,
    {
        let entry = &entries[i];
        proof {
            assert(eviews.subrange(0, i as int + 1).drop_last() =~= eviews.subrange(0, i as int));
            assert(eviews.subrange(0, i as int + 1).last() == eviews[i as int]);
            assert(eviews[i as int] == entry@);
        }
        let op = extract_one(entry);
        match op {
            Some(op) => {
                let ghost prev = r@;
                r.push(op);
                proof {
                    assert(r@.map_values(|op: ExtractOp| op@) =~= prev.map_values(
                        |op: ExtractOp| op@,
                    ).push(spec_extract_op(entry@)->0));
                }
            },
            None => {},
        }
        i = i + 1;
    }
    proof {
        assert(eviews.subrange(0, eviews.len() as int) =~= eviews);
    }
    r
}

/// Decide one entry's destination.
fn extract_one(entry: &ArchiveIndexEntry) -> (r: Option<ExtractOp>)
    ensures
        match r {
            Some(op) => spec_extract_op(entry@) == Some(op@),
            None => spec_extract_op(entry@) is None,
        },
{
    proof {
        reveal_strlit("/");
    }
    let name = entry.name.as_str();
    if name.unicode_len() == 0 {
        return None;
    }
    if find_char(name, '\u{0}').is_some() {
        return None;
    }
    let comps = match normalize_entry_path(name) {
        Some(c) => c,
        None => {
            return None;
        },
    };
    if comps.len() == 0 {
        proof {
            assert(spec_norm_path(entry.name@)->0 =~= Seq::<Seq<char>>::empty());
        }
        return None;
    }
    let is_dir = entry.is_dir || ends_with_str(name, "/");
    Some(ExtractOp { components: comps, is_dir, mode: entry.mode })
}

/// Every extraction destination is clean: no component is empty, `.` or
/// `..`, so writing below the per-build directory cannot escape it.
pub proof fn lemma_extraction_steps_confined(entries: Seq<ArchiveIndexEntryView>)
    ensures
        forall|i: int, k: int|
            0 <= i < spec_extraction_steps(entries).len() && 0 <= k < spec_extraction_steps(
                entries,
            )[i].components.len() ==> (#[trigger] spec_extraction_steps(
                entries,
            )[i].components[k].len() > 0 && spec_extraction_steps(entries)[i].components[k]
                != "."@ && spec_extraction_steps(entries)[i].components[k] != ".."@),
    decreases entries.len(),
{
    if entries.len() > 0 {
        lemma_extraction_steps_confined(entries.drop_last());
        let rest = spec_extraction_steps(entries.drop_last());
        let all = spec_extraction_steps(entries);
        match spec_extract_op(entries.last()) {
            Some(op) => {
                lemma_normalized_clean(crate::strutil::spec_split(entries.last().name, '/'));
                assert forall|i: int, k: int|
                    0 <= i < all.len() && 0 <= k < all[i].components.len() implies (
                #[trigger] all[i].components[k].len() > 0 && all[i].components[k] != "."@
                    && all[i].components[k] != ".."@) by {
                    if i < rest.len() {
                        assert(all[i] == rest[i]);
                    } else {
                        assert(all[i] == op);
                    }
                }
            },
            None => {},
        }
    }
}

} // verus!
