//! Detecting how a project's dependencies are installed, and where the
//! authoritative installation lives: the project's own modules directory,
//! or a workspace ancestor's.

use vstd::prelude::*;
use crate::strutil::{spec_contains_seq, spec_starts_with, contains_str, starts_with_str};

verus! {

/// How packages are installed under a modules directory.
#[derive(Debug, Clone, Copy, PartialEq, Eq, Structural)]
pub enum StoreLayout {
    /// Real package directories (or plain links) directly under the
    /// modules directory.
    Flat,
    /// Real package directories live once in a content store; the
    /// top-level names are symbolic links into it.
    ContentStore,
}

/// What a look at a modules directory reveals: whether the store
/// directory itself is present, and the raw targets of the direct
/// children that are symbolic links.
#[derive(Debug)]
pub struct LayoutProbe {
    pub has_store_dir: bool,
    pub child_link_targets: Vec<String>,
}

/// The outcome of layout detection.
#[derive(Debug, Clone, Copy, PartialEq, Eq, Structural)]
pub struct LayoutDecision {
    pub layout: StoreLayout,
    /// The links point out of the project: the store belongs to a
    /// workspace ancestor.
    pub workspace_variant: bool,
}

/// Whether a link target runs through a content store.
pub open spec fn spec_target_in_store(t: Seq<char>) -> bool {
    spec_contains_seq(t, "/.pnpm/"@)
}

/// Whether a link target leaves the project before reaching the store.
pub open spec fn spec_target_upward(t: Seq<char>) -> bool {
    spec_target_in_store(t) && spec_starts_with(t, "../"@)
}

/// Whether any direct child links into a content store.
pub open spec fn spec_any_store_link(targets: Seq<String>) -> bool {
    exists|i: int| 0 <= i < targets.len() && spec_target_in_store(#[trigger] targets[i]@)
}

/// Whether any direct child links upward into a workspace store.
pub open spec fn spec_any_upward_store_link(targets: Seq<String>) -> bool {
    exists|i: int| 0 <= i < targets.len() && spec_target_upward(#[trigger] targets[i]@)
}

/// Detect the installation layout of a modules directory: the store
/// directory itself, or any direct child linking into one, means a
/// content store; a child linking upward through a parent segment marks
/// the workspace variant; anything else is a flat installation.
pub fn detect_layout(probe: &LayoutProbe) -> (r: LayoutDecision)
    ensures
        r.layout == StoreLayout::ContentStore <==> (probe.has_store_dir || spec_any_store_link(
            probe.child_link_targets@,
        )),
        r.workspace_variant <==> spec_any_upward_store_link(probe.child_link_targets@),
{
    let mut any_store: bool = false;
    let mut any_upward: bool = false;
    let targets = &probe.child_link_targets;
    let mut i: usize = 0;
    while i < targets.len()
        invariant
            i <= targets@.len(),
            any_store <==> exists|j: int|
                0 <= j < i && spec_target_in_store(#[trigger] targets@[j]@),
            any_upward <==> exists|j: int|
                0 <= j < i && spec_target_upward(#[trigger] targets@[j]@),
        decreases targets@.len() - i,
    {
        let t = targets[i].as_str();
        let in_store = contains_str(t, "/.pnpm/");
        let upward = in_store && starts_with_str(t, "../");
        proof {
            if in_store {
                assert(spec_target_in_store(targets@[i as int]@));
            }
            if upward {
                assert(spec_target_upward(targets@[i as int]@));
            }
        }
        any_store = any_store || in_store;
        any_upward = any_upward || upward;
        i = i + 1;
    }
    let layout = if probe.has_store_dir || any_store {
        StoreLayout::ContentStore
    } else {
        StoreLayout::Flat
    };
    LayoutDecision { layout, workspace_variant: any_upward }
}

/// What a look at one ancestor directory reveals.
#[derive(Debug, Clone, Copy, PartialEq, Eq, Structural)]
pub struct AncestorProbe {
    /// It has a modules directory of its own.
    pub has_node_modules: bool,
    /// It has a manifest of its own.
    pub has_manifest: bool,
    /// Its manifest declares workspace packages.
    pub declares_workspaces: bool,
    /// A workspace configuration file sits beside its manifest.
    pub has_workspace_config: bool,
}

/// Whether an ancestor is an authoritative workspace installation root:
/// it holds an installation of its own, and either its manifest declares
/// workspace packages or a workspace configuration file sits in it.
pub open spec fn spec_workspace_root(a: AncestorProbe) -> bool {
    a.has_node_modules && ((a.has_manifest && a.declares_workspaces) || a.has_workspace_config)
}

/// Where the resolver takes its installation from.
#[derive(Debug, Clone, Copy, PartialEq, Eq, Structural)]
pub enum DepSource {
    /// The project's own modules directory.
    Project,
    /// The workspace ancestor at this index of the probed chain,
    /// nearest first.
    Ancestor { index: usize },
    /// No installation anywhere: the resolution set is empty.
    NoneFound,
}

/// The nearest workspace root at or after `i` in the ancestor chain.
pub open spec fn spec_first_workspace_from(ancestors: Seq<AncestorProbe>, i: int) -> Option<int>
    decreases ancestors.len() - i,
{
    if i < 0 || i >= ancestors.len() {
        None
    } else if spec_workspace_root(ancestors[i]) {
        Some(i)
    } else {
        spec_first_workspace_from(ancestors, i + 1)
    }
}

/// Decide where dependencies are sourced from.  A project with its own
/// modules directory uses it, unless its links reach upward into a
/// workspace store; otherwise the nearest ancestor that holds a modules
/// directory and either a manifest declaring workspace packages or a
/// workspace configuration file wins; with none, the resolution set is
/// empty.
pub fn dependency_source_decision(
    project_has_node_modules: bool,
    project_links_upward: bool,
    ancestors: &Vec<AncestorProbe>,
) -> (r: DepSource)
    ensures
        project_has_node_modules && !project_links_upward ==> r == DepSource::Project,
        !(project_has_node_modules && !project_links_upward) ==> match spec_first_workspace_from(
            ancestors@,
            0,
        ) {
            Some(i) => r == (DepSource::Ancestor { index: i as usize }),
            None => r == DepSource::NoneFound,
        },
{
    if project_has_node_modules && !project_links_upward {
        return DepSource::Project;
    }
    let mut i: usize = 0;
    while i < ancestors.len()
        invariant
            i <= ancestors@.len(),
            !(project_has_node_modules && !project_links_upward),
            spec_first_workspace_from(ancestors@, 0) == spec_first_workspace_from(
                ancestors@,
                i as int,
            ),
        decreases ancestors@.len() - i,
    {
        let a = &ancestors[i];
        if a.has_node_modules && ((a.has_manifest && a.declares_workspaces)
            || a.has_workspace_config) {
            return DepSource::Ancestor { index: i };
        }
        i = i + 1;
    }
    DepSource::NoneFound
}

} // verus!
