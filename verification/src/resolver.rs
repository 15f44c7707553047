//! The dependency-graph resolver: given a plain model of the installed
//! package tree, compute the set of packages that must travel with the
//! application.
//!
//! The closure starts from the root manifest's production, peer and
//! optional dependencies, follows each package's declared dependencies,
//! includes peer and optional dependencies only when they are installed,
//! and is cycle-proof by a visited check; a fixed depth ceiling stands as
//! defence in depth.

use vstd::prelude::*;
use crate::strutil::{spec_replace, replace_char, find_char, rfind_char};

verus! {

/// How deep the dependency walk may recurse before it stops extending;
/// a defence in depth, never the primary termination argument.
pub const DEPTH_CEILING: usize = 20;

/// What one installed package's manifest declares, as plain values.
#[derive(Debug)]
pub struct PackageInfo {
    pub name: String,
    pub dependencies: Vec<String>,
    pub peer_dependencies: Vec<String>,
    pub optional_dependencies: Vec<String>,
}

/// One entry of a content store: the store directory's name (in
/// `NAME@VERSION` form, scoped names flattened with `+`) and the manifest
/// of the package it holds.
#[derive(Debug)]
pub struct StoreEntry {
    pub dir_name: String,
    pub info: PackageInfo,
}

/// A plain model of the installation the resolver walks: the packages
/// visible at top level under the modules directory, and the content
/// store's entries (empty for a flat installation).
#[derive(Debug)]
pub struct InstalledTree {
    pub top_level: Vec<PackageInfo>,
    pub store: Vec<StoreEntry>,
}

/// The index of the last `@` in a store directory name.
pub open spec fn spec_last_at(d: Seq<char>) -> Option<int>
    decreases d.len(),
{
    if d.len() == 0 {
        None
    } else if d.last() == '@' {
        Some(d.len() - 1)
    } else {
        spec_last_at(d.drop_last())
    }
}

/// The index of the first `@` in a store directory name.
pub open spec fn spec_first_at(d: Seq<char>) -> Option<int>
    decreases d.len(),
{
    if d.len() == 0 {
        None
    } else if d[0] == '@' {
        Some(0)
    } else {
        match spec_first_at(d.subrange(1, d.len() as int)) {
            Some(i) => Some(i + 1),
            None => None,
        }
    }
}

/// The package name a store directory name denotes.  A scoped name keeps
/// everything before its last `@` (the whole name when that `@` leads)
/// and turns `+` back into `/`; an unscoped name is everything before the
/// first `@`, or the whole text without one.
pub open spec fn spec_store_parsed_name(d: Seq<char>) -> Seq<char> {
    if d.len() > 0 && d[0] == '@' {
        match spec_last_at(d) {
            Some(i) => if i > 0 {
                spec_replace(d.subrange(0, i), '+', '/')
            } else {
                spec_replace(d, '+', '/')
            },
            None => spec_replace(d, '+', '/'),
        }
    } else {
        match spec_first_at(d) {
            Some(i) => d.subrange(0, i),
            None => d,
        }
    }
}

proof fn lemma_last_at_found(d: Seq<char>, i: int)
    requires
        0 <= i < d.len(),
        d[i] == '@',
        forall|j: int| i < j < d.len() ==> d[j] != '@',
    ensures
        spec_last_at(d) == Some(i),
    decreases d.len(),
{
    if d.last() != '@' {
        lemma_last_at_found(d.drop_last(), i);
    }
}

proof fn lemma_first_at_found(d: Seq<char>, i: int)
    requires
        0 <= i < d.len(),
        d[i] == '@',
        forall|j: int| 0 <= j < i ==> d[j] != '@',
    ensures
        spec_first_at(d) == Some(i),
    decreases d.len(),
{
    if d[0] != '@' {
        let tail = d.subrange(1, d.len() as int);
        lemma_first_at_found(tail, i - 1);
    }
}

proof fn lemma_first_at_none(d: Seq<char>)
    requires
        forall|j: int| 0 <= j < d.len() ==> d[j] != '@',
    ensures
        spec_first_at(d) is None,
    decreases d.len(),
{
    if d.len() > 0 {
        lemma_first_at_none(d.subrange(1, d.len() as int));
    }
}

/// Parse the package name out of a content-store directory name, e.g.
/// `uuid@9.0.1` gives `uuid` and `@scope+pkg@1.2.0` gives `@scope/pkg`.
pub fn extract_package_name_from_pnpm(pnpm_name: &str) -> (r: Option<String>)
    ensures
        r matches Some(n) && n@ == spec_store_parsed_name(pnpm_name@),
{
    proof {
        reveal_strlit("/");
    }
    let len = pnpm_name.unicode_len();
    if len > 0 && pnpm_name.get_char(0) == '@' {
        match rfind_char(pnpm_name, '@') {
            Some(at_pos) => {
                proof {
                    lemma_last_at_found(pnpm_name@, at_pos as int);
                }
                if at_pos > 0 {
                    let package_part = pnpm_name.substring_char(0, at_pos);
                    Some(replace_char(package_part, '+', "/"))
                } else {
                    Some(replace_char(pnpm_name, '+', "/"))
                }
            },
            None => {
                proof {
                    assert(pnpm_name@[0] == '@');
                    assert(false);
                }
                None
            },
        }
    } else {
        match find_char(pnpm_name, '@') {
            Some(at_pos) => {
                proof {
                    lemma_first_at_found(pnpm_name@, at_pos as int);
                }
                Some(pnpm_name.substring_char(0, at_pos).to_owned())
            },
            None => {
                proof {
                    lemma_first_at_none(pnpm_name@);
                }
                Some(pnpm_name.to_owned())
            },
        }
    }
}

/// The first top-level package named `n`, scanning from index `i`.
pub open spec fn spec_first_top_from(tree: InstalledTree, n: Seq<char>, i: int) -> Option<int>
    decreases tree.top_level@.len() - i,
{
    if i < 0 || i >= tree.top_level@.len() {
        None
    } else if tree.top_level@[i].name@ == n {
        Some(i)
    } else {
        spec_first_top_from(tree, n, i + 1)
    }
}

/// The first store entry whose directory name parses to `n`, scanning
/// from index `i`.
pub open spec fn spec_first_store_from(tree: InstalledTree, n: Seq<char>, i: int) -> Option<int>
    decreases tree.store@.len() - i,
{
    if i < 0 || i >= tree.store@.len() {
        None
    } else if spec_store_parsed_name(tree.store@[i].dir_name@) == n {
        Some(i)
    } else {
        spec_first_store_from(tree, n, i + 1)
    }
}

/// Where the lookup rule finds the package named `n`: the first top-level
/// entry of that name, else the first store entry whose directory name
/// parses to it.
pub open spec fn spec_lookup(tree: InstalledTree, n: Seq<char>) -> Option<PackageInfo> {
    match spec_first_top_from(tree, n, 0) {
        Some(i) => Some(tree.top_level@[i]),
        None => match spec_first_store_from(tree, n, 0) {
            Some(i) => Some(tree.store@[i].info),
            None => None,
        },
    }
}

/// Find the manifest of the package named `name` by the layout's lookup
/// rule: top level first, then the content store by parsed directory
/// name.
pub fn lookup_package<'a>(tree: &'a InstalledTree, name: &str) -> (r: Option<&'a PackageInfo>)
    ensures
        match r {
            Some(p) => spec_lookup(*tree, name@) == Some(*p),
            None => spec_lookup(*tree, name@) is None,
        },
{
    let mut i: usize = 0;
    while i < tree.top_level.len()
        invariant
            i <= tree.top_level@.len(),
            spec_first_top_from(*tree, name@, 0) == spec_first_top_from(*tree, name@, i as int),
        decreases tree.top_level@.len() - i,
    {
        if crate::strutil::str_eq(tree.top_level[i].name.as_str(), name) {
            return Some(&tree.top_level[i]);
        }
        i = i + 1;
    }
    let mut k: usize = 0;
    while k < tree.store.len()
        invariant
            k <= tree.store@.len(),
            spec_first_top_from(*tree, name@, 0) is None,
            spec_first_store_from(*tree, name@, 0) == spec_first_store_from(*tree, name@, k as int),
        decreases tree.store@.len() - k,
    {
        let parsed = match extract_package_name_from_pnpm(tree.store[k].dir_name.as_str()) {
            Some(p) => p,
            None => {
                proof {
                    assert(false);
                }
                String::new()
            },
        };
        if crate::strutil::str_eq(parsed.as_str(), name) {
            return Some(&tree.store[k].info);
        }
        k = k + 1;
    }
    None
}

/// Whether the package named `n` is installed at all.
pub open spec fn spec_installed(tree: InstalledTree, n: Seq<char>) -> bool {
    spec_lookup(tree, n) is Some
}

/// Whether the package named `name` is installed.
pub fn package_exists(tree: &InstalledTree, name: &str) -> (r: bool)
    ensures
        r == spec_installed(*tree, name@),
{
    lookup_package(tree, name).is_some()
}

/// The names of a sequence of name strings, as character sequences.
pub open spec fn names_of(v: Seq<String>) -> Seq<Seq<char>> {
    v.map_values(|s: String| s@)
}

/// No two entries carry the same name.
pub open spec fn spec_no_dup_names(v: Seq<String>) -> bool {
    forall|i: int, j: int| 0 <= i < j < v.len() ==> v[i]@ != v[j]@
}

/// Whether some entry carries the name `n`.
pub open spec fn spec_contains_name(v: Seq<String>, n: Seq<char>) -> bool {
    exists|i: int| 0 <= i < v.len() && v[i]@ == n
}

/// One resolution edge: `to` is a production dependency of the
/// installed package named `from`, or a peer or optional dependency of
/// it that is itself installed.
pub open spec fn spec_pkg_edge(tree: InstalledTree, from: Seq<char>, to: Seq<char>) -> bool {
    match spec_lookup(tree, from) {
        Some(p) => spec_contains_name(p.dependencies@, to) || ((spec_contains_name(
            p.peer_dependencies@,
            to,
        ) || spec_contains_name(p.optional_dependencies@, to)) && spec_installed(tree, to)),
        None => false,
    }
}

/// The names reachable in at most one more resolution step.
pub open spec fn spec_step(tree: InstalledTree, s: Set<Seq<char>>) -> Set<Seq<char>> {
    s.union(
        Set::new(
            |d: Seq<char>| exists|m: Seq<char>| s.contains(m) && spec_pkg_edge(tree, m, d),
        ),
    )
}

/// The names reachable from `roots` within `n` resolution steps.
pub open spec fn spec_reachable_within(tree: InstalledTree, roots: Set<Seq<char>>, n: nat) -> Set<
    Seq<char>,
>
    decreases n,
{
    if n == 0 {
        roots
    } else {
        spec_step(tree, spec_reachable_within(tree, roots, (n - 1) as nat))
    }
}

/// The set of names a seed list roots the walk at.
pub open spec fn spec_seed_roots(seeds: Seq<String>) -> Set<Seq<char>> {
    Set::new(|n: Seq<char>| spec_contains_name(seeds, n))
}

/// The visited list is closed under resolution edges, except at names in
/// `pending` (the walk's active ancestors, still being processed).
pub open spec fn spec_closed_except(
    tree: InstalledTree,
    v: Seq<String>,
    pending: Set<Seq<char>>,
) -> bool {
    forall|k: int, t: Seq<char>|
        0 <= k < v.len() && !pending.contains(v[k]@) && #[trigger] spec_pkg_edge(tree, v[k]@, t)
            ==> spec_contains_name(v, t)
}

/// The visited list is closed under resolution edges: every production
/// dependency of a resolved installed package, and every installed peer
/// or optional dependency of one, is itself resolved.
pub open spec fn spec_closed(tree: InstalledTree, v: Seq<String>) -> bool {
    spec_closed_except(tree, v, Set::<Seq<char>>::empty())
}

/// Reaching no further never loses names.
proof fn lemma_reachable_mono(tree: InstalledTree, roots: Set<Seq<char>>, m: nat, n: nat)
    requires
        m <= n,
    ensures
        spec_reachable_within(tree, roots, m).subset_of(spec_reachable_within(tree, roots, n)),
    decreases n,
{
    if m < n {
        lemma_reachable_mono(tree, roots, m, (n - 1) as nat);
        let prev = spec_reachable_within(tree, roots, (n - 1) as nat);
        assert(prev.subset_of(spec_step(tree, prev)));
    }
}

/// Nothing is reachable from no roots.
proof fn lemma_reachable_empty(tree: InstalledTree, n: nat)
    ensures
        spec_reachable_within(tree, Set::<Seq<char>>::empty(), n) =~= Set::<Seq<char>>::empty(),
    decreases n,
{
    if n > 0 {
        lemma_reachable_empty(tree, (n - 1) as nat);
    }
}

/// Whether the list `v` already carries the name.
fn contains_name(v: &Vec<String>, name: &str) -> (r: bool)
    ensures
        r == spec_contains_name(v@, name@),
{
    let mut i: usize = 0;
    while i < v.len()
        invariant
            i <= v@.len(),
            forall|j: int| 0 <= j < i ==> v@[j]@ != name@,
        decreases v@.len() - i,
    {
        if crate::strutil::str_eq(v[i].as_str(), name) {
            return true;
        }
        i = i + 1;
    }
    false
}

/// Visit `name` and, while the depth ceiling allows, the packages its
/// manifest declares: production dependencies always, peer and optional
/// dependencies only when installed.
///
/// The visited list only grows, stays free of duplicate names, and holds
/// only names reachable from the walk's roots; a name already visited,
/// or a call past the ceiling, changes nothing; and the list stays
/// closed under resolution edges away from the still-active ancestors,
/// unless it has outgrown the ceiling — a call can only be cut at a
/// depth its own ancestors' insertions have already pushed the list
/// past.
fn resolve_into(
    tree: &InstalledTree,
    name: &str,
    resolved: &mut Vec<String>,
    depth: usize,
    Ghost(roots): Ghost<Set<Seq<char>>>,
    Ghost(pending): Ghost<Set<Seq<char>>>,
)
    requires
        spec_no_dup_names(old(resolved)@),
        depth <= old(resolved)@.len(),
        spec_reachable_within(*tree, roots, depth as nat).contains(name@),
        forall|k: int|
            0 <= k < old(resolved)@.len() ==> spec_reachable_within(
                *tree,
                roots,
                DEPTH_CEILING as nat,
            ).contains(#[trigger] old(resolved)@[k]@),
        spec_closed_except(*tree, old(resolved)@, pending) || old(resolved)@.len() > DEPTH_CEILING,
    ensures
        spec_no_dup_names(final(resolved)@),
        old(resolved)@.is_prefix_of(final(resolved)@),
        depth <= DEPTH_CEILING ==> spec_contains_name(final(resolved)@, name@),
        spec_contains_name(old(resolved)@, name@) ==> final(resolved)@ == old(resolved)@,
        depth > DEPTH_CEILING ==> final(resolved)@ == old(resolved)@,
        depth < DEPTH_CEILING && !spec_contains_name(old(resolved)@, name@) && spec_lookup(
            *tree,
            name@,
        ) is Some ==> forall|d: int|
            0 <= d < spec_lookup(*tree, name@)->0.dependencies@.len() ==> spec_contains_name(
                final(resolved)@,
                #[trigger] spec_lookup(*tree, name@)->0.dependencies@[d]@,
            ),
        forall|k: int|
            0 <= k < final(resolved)@.len() ==> spec_reachable_within(
                *tree,
                roots,
                DEPTH_CEILING as nat,
            ).contains(#[trigger] final(resolved)@[k]@),
        spec_closed_except(*tree, final(resolved)@, pending) || final(resolved)@.len()
            > DEPTH_CEILING,
        forall|n: Seq<char>|
            spec_contains_name(old(resolved)@, n) ==> spec_contains_name(final(resolved)@, n),
    decreases DEPTH_CEILING + 1 - depth,
{
    proof {
        lemma_prefix_contains(resolved@, resolved@);
    }
    if depth > DEPTH_CEILING {
        return ;
    }
    if contains_name(resolved, name) {
        return ;
    }
    let ghost entry_state = resolved@;
    proof {
        lemma_reachable_mono(*tree, roots, depth as nat, DEPTH_CEILING as nat);
    }
    resolved.push(name.to_owned());
    proof {
        assert forall|n: Seq<char>|
            spec_contains_name(entry_state, n) implies spec_contains_name(resolved@, n) by {
            let w = choose|i: int| 0 <= i < entry_state.len() && entry_state[i]@ == n;
            assert(resolved@[w]@ == n);
        }
        assert(spec_contains_name(resolved@, name@)) by {
            assert(resolved@[entry_state.len() as int]@ == name@);
        }
    }
    let ghost pending_here = pending.insert(name@);
    let info = match lookup_package(tree, name) {
        Some(p) => p,
        None => {
            // An unresolvable name has no edges and contributes nothing
            // further.
            proof {
                if entry_state.len() <= DEPTH_CEILING {
                    assert forall|k: int, t: Seq<char>|
                        0 <= k < resolved@.len() && !pending.contains(resolved@[k]@)
                            && #[trigger] spec_pkg_edge(*tree, resolved@[k]@, t)
                            implies spec_contains_name(resolved@, t) by {
                        if k < entry_state.len() {
                            assert(resolved@[k]@ == entry_state[k]@);
                            assert(spec_contains_name(entry_state, t));
                        } else {
                            assert(resolved@[k]@ == name@);
                            assert(spec_lookup(*tree, name@) is None);
                        }
                    }
                }
            }
            return ;
        },
    };
    let ghost after_insert = resolved@;
    let mut k: usize = 0;
    while k < info.dependencies.len()
        invariant
            spec_lookup(*tree, name@) == Some(*info),
            spec_no_dup_names(resolved@),
            after_insert.is_prefix_of(resolved@),
            depth <= DEPTH_CEILING,
            resolved@.len() >= depth + 1,
            spec_reachable_within(*tree, roots, depth as nat).contains(name@),
            depth < DEPTH_CEILING ==> forall|d: int|
                0 <= d < k ==> spec_contains_name(resolved@, #[trigger] info.dependencies@[d]@),
            forall|j: int|
                0 <= j < resolved@.len() ==> spec_reachable_within(
                    *tree,
                    roots,
                    DEPTH_CEILING as nat,
                ).contains(#[trigger] resolved@[j]@),
            spec_closed_except(*tree, resolved@, pending_here) || resolved@.len() > DEPTH_CEILING,
            forall|n: Seq<char>|
                spec_contains_name(after_insert, n) ==> spec_contains_name(resolved@, n),
        decreases info.dependencies@.len() - k,
    {
        let dep = &info.dependencies[k];
        proof {
            assert(spec_contains_name(info.dependencies@, dep@)) by {
                assert(info.dependencies@[k as int]@ == dep@);
            }
            assert(spec_pkg_edge(*tree, name@, dep@));
            assert(spec_reachable_within(*tree, roots, (depth + 1) as nat).contains(dep@)) by {
                let prev = spec_reachable_within(*tree, roots, depth as nat);
                assert(spec_step(*tree, prev).contains(dep@));
            }
        }
        let ghost before_call = resolved@;
        resolve_into(tree, dep.as_str(), resolved, depth + 1, Ghost(roots), Ghost(pending_here));
        proof {
            lemma_prefix_trans(after_insert, before_call, resolved@);
            assert forall|n: Seq<char>|
                spec_contains_name(after_insert, n) implies spec_contains_name(resolved@, n) by {
                assert(spec_contains_name(before_call, n));
            }
            if depth < DEPTH_CEILING {
                assert(spec_contains_name(resolved@, dep@));
            }
        }
        k = k + 1;
    }
    let mut k2: usize = 0;
    while k2 < info.peer_dependencies.len()
        invariant
            spec_lookup(*tree, name@) == Some(*info),
            spec_no_dup_names(resolved@),
            after_insert.is_prefix_of(resolved@),
            depth <= DEPTH_CEILING,
            resolved@.len() >= depth + 1,
            spec_reachable_within(*tree, roots, depth as nat).contains(name@),
            depth < DEPTH_CEILING ==> forall|d: int|
                0 <= d < info.dependencies@.len() ==> spec_contains_name(
                    resolved@,
                    #[trigger] info.dependencies@[d]@,
                ),
            depth < DEPTH_CEILING ==> forall|d: int|
                0 <= d < k2 ==> (spec_contains_name(
                    resolved@,
                    #[trigger] info.peer_dependencies@[d]@,
                ) || !spec_installed(*tree, info.peer_dependencies@[d]@)),
            forall|j: int|
                0 <= j < resolved@.len() ==> spec_reachable_within(
                    *tree,
                    roots,
                    DEPTH_CEILING as nat,
                ).contains(#[trigger] resolved@[j]@),
            spec_closed_except(*tree, resolved@, pending_here) || resolved@.len() > DEPTH_CEILING,
            forall|n: Seq<char>|
                spec_contains_name(after_insert, n) ==> spec_contains_name(resolved@, n),
        decreases info.peer_dependencies@.len() - k2,
    {
        let dep = &info.peer_dependencies[k2];
        if package_exists(tree, dep.as_str()) {
            proof {
                assert(spec_contains_name(info.peer_dependencies@, dep@)) by {
                    assert(info.peer_dependencies@[k2 as int]@ == dep@);
                }
                assert(spec_pkg_edge(*tree, name@, dep@));
                assert(spec_reachable_within(*tree, roots, (depth + 1) as nat).contains(dep@)) by {
                    let prev = spec_reachable_within(*tree, roots, depth as nat);
                    assert(spec_step(*tree, prev).contains(dep@));
                }
            }
            let ghost before_call = resolved@;
            resolve_into(
                tree,
                dep.as_str(),
                resolved,
                depth + 1,
                Ghost(roots),
                Ghost(pending_here),
            );
            proof {
                lemma_prefix_trans(after_insert, before_call, resolved@);
                assert forall|n: Seq<char>|
                    spec_contains_name(after_insert, n) implies spec_contains_name(
                    resolved@,
                    n,
                ) by {
                    assert(spec_contains_name(before_call, n));
                }
                if depth < DEPTH_CEILING {
                    assert(spec_contains_name(resolved@, dep@));
                }
            }
        }
        k2 = k2 + 1;
    }
    let mut k3: usize = 0;
    while k3 < info.optional_dependencies.len()
        invariant
            spec_lookup(*tree, name@) == Some(*info),
            spec_no_dup_names(resolved@),
            after_insert.is_prefix_of(resolved@),
            depth <= DEPTH_CEILING,
            resolved@.len() >= depth + 1,
            spec_reachable_within(*tree, roots, depth as nat).contains(name@),
            depth < DEPTH_CEILING ==> forall|d: int|
                0 <= d < info.dependencies@.len() ==> spec_contains_name(
                    resolved@,
                    #[trigger] info.dependencies@[d]@,
                ),
            depth < DEPTH_CEILING ==> forall|d: int|
                0 <= d < info.peer_dependencies@.len() ==> (spec_contains_name(
                    resolved@,
                    #[trigger] info.peer_dependencies@[d]@,
                ) || !spec_installed(*tree, info.peer_dependencies@[d]@)),
            depth < DEPTH_CEILING ==> forall|d: int|
                0 <= d < k3 ==> (spec_contains_name(
                    resolved@,
                    #[trigger] info.optional_dependencies@[d]@,
                ) || !spec_installed(*tree, info.optional_dependencies@[d]@)),
            forall|j: int|
                0 <= j < resolved@.len() ==> spec_reachable_within(
                    *tree,
                    roots,
                    DEPTH_CEILING as nat,
                ).contains(#[trigger] resolved@[j]@),
            spec_closed_except(*tree, resolved@, pending_here) || resolved@.len() > DEPTH_CEILING,
            forall|n: Seq<char>|
                spec_contains_name(after_insert, n) ==> spec_contains_name(resolved@, n),
        decreases info.optional_dependencies@.len() - k3,
    {
        let dep = &info.optional_dependencies[k3];
        if package_exists(tree, dep.as_str()) {
            proof {
                assert(spec_contains_name(info.optional_dependencies@, dep@)) by {
                    assert(info.optional_dependencies@[k3 as int]@ == dep@);
                }
                assert(spec_pkg_edge(*tree, name@, dep@));
                assert(spec_reachable_within(*tree, roots, (depth + 1) as nat).contains(dep@)) by {
                    let prev = spec_reachable_within(*tree, roots, depth as nat);
                    assert(spec_step(*tree, prev).contains(dep@));
                }
            }
            let ghost before_call = resolved@;
            resolve_into(
                tree,
                dep.as_str(),
                resolved,
                depth + 1,
                Ghost(roots),
                Ghost(pending_here),
            );
            proof {
                lemma_prefix_trans(after_insert, before_call, resolved@);
                assert forall|n: Seq<char>|
                    spec_contains_name(after_insert, n) implies spec_contains_name(
                    resolved@,
                    n,
                ) by {
                    assert(spec_contains_name(before_call, n));
                }
                if depth < DEPTH_CEILING {
                    assert(spec_contains_name(resolved@, dep@));
                }
            }
        }
        k3 = k3 + 1;
    }
    proof {
        lemma_prefix_trans(entry_state, after_insert, resolved@);
        // With the list still within the ceiling, no inner call was cut,
        // so every edge of `name` was followed and `name` joins the
        // closed part.
        if resolved@.len() <= DEPTH_CEILING {
            assert(depth < DEPTH_CEILING);
            assert(spec_closed_except(*tree, resolved@, pending_here));
            assert forall|k: int, t: Seq<char>|
                0 <= k < resolved@.len() && !pending.contains(resolved@[k]@)
                    && #[trigger] spec_pkg_edge(*tree, resolved@[k]@, t)
                    implies spec_contains_name(resolved@, t) by {
                if resolved@[k]@ == name@ {
                    assert(spec_pkg_edge(*tree, name@, t));
                    if spec_contains_name(info.dependencies@, t) {
                        let d = choose|d: int|
                            0 <= d < info.dependencies@.len() && info.dependencies@[d]@ == t;
                        assert(spec_contains_name(resolved@, info.dependencies@[d]@));
                    } else if spec_contains_name(info.peer_dependencies@, t) && spec_installed(
                        *tree,
                        t,
                    ) {
                        let d = choose|d: int|
                            0 <= d < info.peer_dependencies@.len()
                                && info.peer_dependencies@[d]@ == t;
                        assert(spec_contains_name(resolved@, info.peer_dependencies@[d]@)
                            || !spec_installed(*tree, info.peer_dependencies@[d]@));
                    } else {
                        assert(spec_contains_name(info.optional_dependencies@, t)
                            && spec_installed(*tree, t));
                        let d = choose|d: int|
                            0 <= d < info.optional_dependencies@.len()
                                && info.optional_dependencies@[d]@ == t;
                        assert(spec_contains_name(resolved@, info.optional_dependencies@[d]@)
                            || !spec_installed(*tree, info.optional_dependencies@[d]@));
                    }
                } else {
                    assert(!pending_here.contains(resolved@[k]@));
                }
            }
        }
    }
}

proof fn lemma_prefix_trans(a: Seq<String>, b: Seq<String>, c: Seq<String>)
    requires
        a.is_prefix_of(b),
        b.is_prefix_of(c),
    ensures
        a.is_prefix_of(c),
{
    assert(a =~= c.subrange(0, a.len() as int));
}

proof fn lemma_prefix_contains(a: Seq<String>, b: Seq<String>)
    requires
        a.is_prefix_of(b),
    ensures
        forall|n: Seq<char>| spec_contains_name(a, n) ==> spec_contains_name(b, n),
{
    assert forall|n: Seq<char>|
        spec_contains_name(a, n) implies spec_contains_name(b, n) by {
        let w = choose|i: int| 0 <= i < a.len() && a[i]@ == n;
        assert(b[w] == a[w]);
    }
}

/// Resolve the transitive closure of the seed packages against the
/// installed tree.
///
/// Every seed is in the result; the result repeats no name and holds
/// only names reachable from the seeds along resolution edges within
/// the depth ceiling — so no seeds resolve to nothing at all; and a
/// result that did not outgrow the ceiling is fully closed: every
/// production dependency of a resolved installed package, and every
/// installed peer or optional dependency of one, is itself resolved.  A
/// cycle among packages ends the walk through the visited check, each
/// participant appearing exactly once.
pub fn resolve_closure(tree: &InstalledTree, seeds: &Vec<String>) -> (r: Vec<String>)
    ensures
        spec_no_dup_names(r@),
        forall|i: int|
            0 <= i < seeds@.len() ==> spec_contains_name(r@, #[trigger] seeds@[i]@),
        forall|k: int|
            0 <= k < r@.len() ==> spec_reachable_within(
                *tree,
                spec_seed_roots(seeds@),
                DEPTH_CEILING as nat,
            ).contains(#[trigger] r@[k]@),
        seeds@.len() == 0 ==> r@.len() == 0,
        r@.len() <= DEPTH_CEILING ==> spec_closed(*tree, r@),
{
    let ghost roots = spec_seed_roots(seeds@);
    let mut resolved: Vec<String> = Vec::new();
    let mut i: usize = 0;
    while i < seeds.len()
        invariant
            i <= seeds@.len(),
            roots == spec_seed_roots(seeds@),
            spec_no_dup_names(resolved@),
            forall|j: int|
                0 <= j < i ==> spec_contains_name(resolved@, #[trigger] seeds@[j]@),
            forall|k: int|
                0 <= k < resolved@.len() ==> spec_reachable_within(
                    *tree,
                    roots,
                    DEPTH_CEILING as nat,
                ).contains(#[trigger] resolved@[k]@),
            spec_closed_except(*tree, resolved@, Set::<Seq<char>>::empty()) || resolved@.len()
                > DEPTH_CEILING,
        decreases seeds@.len() - i,
    {
        let ghost before = resolved@;
        let seed = &seeds[i];
        proof {
            assert(spec_contains_name(seeds@, seed@)) by {
                assert(seeds@[i as int]@ == seed@);
            }
            assert(spec_reachable_within(*tree, roots, 0).contains(seed@));
        }
        resolve_into(tree, seed.as_str(), &mut resolved, 0, Ghost(roots), Ghost(
            Set::<Seq<char>>::empty(),
        ));
        proof {
            lemma_prefix_contains(before, resolved@);
            assert forall|j: int| 0 <= j < i + 1 implies spec_contains_name(
                resolved@,
                #[trigger] seeds@[j]@,
            ) by {
                if j < i {
                    assert(spec_contains_name(before, seeds@[j]@));
                }
            }
        }
        i = i + 1;
    }
    proof {
        if seeds@.len() == 0 {
            lemma_reachable_empty(*tree, DEPTH_CEILING as nat);
            assert(roots =~= Set::<Seq<char>>::empty());
            if resolved@.len() > 0 {
                assert(spec_reachable_within(*tree, roots, DEPTH_CEILING as nat).contains(
                    resolved@[0]@,
                ));
                assert(false);
            }
        }
    }
    resolved
}

/// The root's seed packages: its production dependencies, then its peer
/// and optional dependencies.
pub fn seed_packages(
    dependencies: &Vec<String>,
    peer_dependencies: &Vec<String>,
    optional_dependencies: &Vec<String>,
) -> (r: Vec<String>)
    ensures
        names_of(r@) == names_of(dependencies@) + names_of(peer_dependencies@) + names_of(
            optional_dependencies@,
        ),
{
    let mut r: Vec<String> = Vec::new();
    append_names(&mut r, dependencies);
    append_names(&mut r, peer_dependencies);
    append_names(&mut r, optional_dependencies);
    proof {
        assert(names_of(r@) =~~= names_of(dependencies@) + names_of(peer_dependencies@) + names_of(
            optional_dependencies@,
        ));
    }
    r
}

/// Append clones of every name in `src` to `dst`.
fn append_names(dst: &mut Vec<String>, src: &Vec<String>)
    ensures
        names_of(final(dst)@) == names_of(old(dst)@) + names_of(src@),
{
    let mut i: usize = 0;
    proof {
        assert(names_of(dst@) =~= names_of(old(dst)@) + names_of(src@.subrange(0, 0)));
    }
    while i < src.len()
        invariant
            i <= src@.len(),
            names_of(dst@) == names_of(old(dst)@) + names_of(src@.subrange(0, i as int)),
        decreases src@.len() - i,
    {
        let ghost prev = dst@;
        dst.push(src[i].clone());
        proof {
            assert(dst@ == prev.push(src@[i as int]));
            assert(src@.subrange(0, i as int + 1) =~= src@.subrange(0, i as int).push(
                src@[i as int],
            ));
            assert(names_of(prev.push(src@[i as int])) =~~= names_of(prev).push(
                src@[i as int]@,
            ));
            assert(names_of(src@.subrange(0, i as int).push(src@[i as int])) =~~= names_of(
                src@.subrange(0, i as int),
            ).push(src@[i as int]@));
            assert(names_of(dst@) =~~= names_of(old(dst)@) + names_of(
                src@.subrange(0, i as int + 1),
            ));
        }
        i = i + 1;
    }
    proof {
        assert(src@.subrange(0, src@.len() as int) =~= src@);
    }
}

} // verus!
