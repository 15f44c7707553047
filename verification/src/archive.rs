//! Archive entry planning: normalised forward-slash paths, the
//! path-escape guard, and the policies that turn a walked directory
//! listing into the entries written under `app/`, `app/node_modules/NAME/`
//! and `runtime/`.

use vstd::prelude::*;
use crate::strutil::{
    spec_split, spec_join, split_str, join_strings, str_eq, lemma_split_len,
};

verus! {

/// What one archive entry is.
#[derive(Debug, Clone, Copy, PartialEq, Eq, Structural)]
pub enum EntryKind {
    Directory,
    File,
    Symlink,
}

/// One entry of a walked directory listing, as plain values: its path
/// relative to the walked root (forward slashes), its kind, its POSIX
/// mode bits, and, for a symbolic link, the raw link target text.
#[derive(Debug)]
pub struct FsEntry {
    pub rel_path: String,
    pub kind: EntryKind,
    pub mode: u32,
    pub link_target: String,
}

/// The mathematical value of a listing entry.
pub struct FsEntryView {
    pub path: Seq<char>,
    pub kind: EntryKind,
    pub mode: u32,
    pub link_target: Seq<char>,
}

impl View for FsEntry {
    type V = FsEntryView;

    open spec fn view(&self) -> FsEntryView {
        FsEntryView {
            path: self.rel_path@,
            kind: self.kind,
            mode: self.mode,
            link_target: self.link_target@,
        }
    }
}

/// One entry the archive writer is told to emit: the full archive path,
/// the kind, the source path to read bytes from (relative to the walked
/// root), the mode bits, and the link target for a symbolic link.
#[derive(Debug)]
pub struct PlannedEntry {
    pub archive_path: String,
    pub kind: EntryKind,
    pub source_path: String,
    pub mode: u32,
    pub link_target: String,
}

/// The mathematical value of a planned entry.
pub struct PlannedEntryView {
    pub path: Seq<char>,
    pub kind: EntryKind,
    pub source: Seq<char>,
    pub mode: u32,
    pub link_target: Seq<char>,
}

impl View for PlannedEntry {
    type V = PlannedEntryView;

    open spec fn view(&self) -> PlannedEntryView {
        PlannedEntryView {
            path: self.archive_path@,
            kind: self.kind,
            source: self.source_path@,
            mode: self.mode,
            link_target: self.link_target@,
        }
    }
}

/// Normalise a component sequence: empty and `.` components vanish, `..`
/// removes the component before it, and a `..` with nothing left to
/// remove means the path escapes its root and is rejected.
pub open spec fn spec_normalize_components(parts: Seq<Seq<char>>) -> Option<Seq<Seq<char>>>
    decreases parts.len(),
{
    if parts.len() == 0 {
        Some(Seq::<Seq<char>>::empty())
    } else {
        match spec_normalize_components(parts.drop_last()) {
            None => None,
            Some(stack) => {
                let c = parts.last();
                if c.len() == 0 || c == "."@ {
                    Some(stack)
                } else if c == ".."@ {
                    if stack.len() == 0 {
                        None
                    } else {
                        Some(stack.drop_last())
                    }
                } else {
                    Some(stack.push(c))
                }
            },
        }
    }
}

/// The normalised components of an entry path; `None` for an absolute
/// path or one that escapes its root.
pub open spec fn spec_norm_path(p: Seq<char>) -> Option<Seq<Seq<char>>> {
    if p.len() > 0 && p[0] == '/' {
        None
    } else {
        spec_normalize_components(spec_split(p, '/'))
    }
}

/// Accepted components are never empty and never `.` or `..`.
pub proof fn lemma_normalized_clean(parts: Seq<Seq<char>>)
    requires
        spec_normalize_components(parts) is Some,
    ensures
        forall|i: int|
            0 <= i < spec_normalize_components(parts)->0.len() ==> (
            #[trigger] spec_normalize_components(parts)->0[i].len() > 0
                && spec_normalize_components(parts)->0[i] != "."@ && spec_normalize_components(
                parts,
            )->0[i] != ".."@),
    decreases parts.len(),
{
    if parts.len() > 0 {
        lemma_normalized_clean(parts.drop_last());
        let stack = spec_normalize_components(parts.drop_last())->0;
        let c = parts.last();
        if c.len() == 0 || c == "."@ {
        } else if c == ".."@ {
        } else {
            reveal_strlit(".");
            reveal_strlit("..");
            assert(c.len() > 0) by {
                if c.len() == 0 {
                    assert(c =~= Seq::<char>::empty());
                }
            }
            let out = spec_normalize_components(parts)->0;
            assert forall|i: int| 0 <= i < out.len() implies (#[trigger] out[i].len() > 0
                && out[i] != "."@ && out[i] != ".."@) by {
                if i < stack.len() {
                    assert(out[i] == stack[i]);
                }
            }
        }
    }
}

/// Resolving a component sequence step by step from a directory `root`:
/// empty and `.` stay put, `..` goes up one level, anything else goes
/// down into the named child.
pub open spec fn spec_resolve(root: Seq<Seq<char>>, parts: Seq<Seq<char>>) -> Seq<Seq<char>>
    decreases parts.len(),
{
    if parts.len() == 0 {
        root
    } else {
        let prev = spec_resolve(root, parts.drop_last());
        let c = parts.last();
        if c.len() == 0 || c == "."@ {
            prev
        } else if c == ".."@ {
            prev.drop_last()
        } else {
            prev.push(c)
        }
    }
}

/// The path-escape guard is sound: a path the normaliser accepts
/// resolves, from any root directory, to that root extended by exactly
/// the normalised components — it can never name anything outside the
/// root.
pub proof fn lemma_no_escape(root: Seq<Seq<char>>, parts: Seq<Seq<char>>)
    requires
        spec_normalize_components(parts) is Some,
    ensures
        spec_resolve(root, parts) == root + spec_normalize_components(parts)->0,
    decreases parts.len(),
{
    if parts.len() == 0 {
        assert(spec_resolve(root, parts) =~= root + spec_normalize_components(parts)->0);
    } else {
        lemma_no_escape(root, parts.drop_last());
        let stack = spec_normalize_components(parts.drop_last())->0;
        let c = parts.last();
        if c.len() == 0 || c == "."@ {
        } else if c == ".."@ {
            assert(stack.len() > 0);
            assert((root + stack).drop_last() =~= root + stack.drop_last());
        } else {
            assert((root + stack).push(c) =~= root + stack.push(c));
        }
    }
}

/// Normalise one slash-separated entry path; `None` when it is absolute
/// or escapes its root.
pub fn normalize_entry_path(path: &str) -> (r: Option<Vec<String>>)
    ensures
        match r {
            Some(comps) => spec_norm_path(path@) == Some(comps@.map_values(|c: String| c@)),
            None => spec_norm_path(path@) is None,
        },
{
    proof {
        reveal_strlit(".");
        reveal_strlit("..");
    }
    let len = path.unicode_len();
    if len > 0 && path.get_char(0) == '/' {
        return None;
    }
    let parts = split_str(path, '/');
    let ghost sparts = spec_split(path@, '/');
    let mut stack: Vec<String> = Vec::new();
    let mut i: usize = 0;
    proof {
        assert(sparts.subrange(0, 0) =~= Seq::<Seq<char>>::empty());
        assert(spec_normalize_components(sparts.subrange(0, 0)) == Some(
            stack@.map_values(|c: String| c@),
        )) by {
            assert(stack@.map_values(|c: String| c@) =~= Seq::<Seq<char>>::empty());
        }
    }
    while i < parts.len()
        invariant
            i <= parts@.len(),
            sparts == spec_split(path@, '/'),
            parts@.map_values(|p: String| p@) == sparts,
            spec_normalize_components(sparts.subrange(0, i as int)) == Some(
                stack@.map_values(|c: String| c@),
            ),
        decreases parts@.len() - i,
    {
        proof {
            assert(sparts.subrange(0, i as int + 1).drop_last() =~= sparts.subrange(0, i as int));
            assert(sparts.subrange(0, i as int + 1).last() == sparts[i as int]);
            assert(parts@.map_values(|p: String| p@)[i as int] == parts@[i as int]@);
        }
        let part = &parts[i];
        let empty_or_dot = part.as_str().unicode_len() == 0 || str_eq(part.as_str(), ".");
        if empty_or_dot {
            proof {
                let c = sparts[i as int];
                if c.len() == 0 {
                    assert(c =~= Seq::<char>::empty());
                }
            }
        } else if str_eq(part.as_str(), "..") {
            if stack.len() == 0 {
                proof {
                    assert(stack@.map_values(|c: String| c@) =~= Seq::<Seq<char>>::empty());
                    lemma_norm_extend_none(sparts, i as int);
                }
                return None;
            }
            let ghost prev = stack@;
            stack.pop();
            proof {
                assert(stack@ =~= prev.drop_last());
                assert(stack@.map_values(|c: String| c@) =~= prev.map_values(
                    |c: String| c@,
                ).drop_last());
            }
        } else {
            let ghost prev = stack@;
            stack.push(part.clone());
            proof {
                assert(stack@ =~= prev.push(parts@[i as int]));
                assert(stack@.map_values(|c: String| c@) =~= prev.map_values(
                    |c: String| c@,
                ).push(parts@[i as int]@));
                let c = sparts[i as int];
                assert(c.len() > 0) by {
                    if c.len() == 0 {
                        assert(c =~= Seq::<char>::empty());
                    }
                }
            }
        }
        i = i + 1;
    }
    proof {
        assert(sparts.subrange(0, sparts.len() as int) =~= sparts);
    }
    Some(stack)
}

/// Once the running stack is empty and the next component walks up, the
/// whole path is rejected, whatever follows.
proof fn lemma_norm_extend_none(parts: Seq<Seq<char>>, i: int)
    requires
        0 <= i < parts.len(),
        spec_normalize_components(parts.subrange(0, i)) == Some(Seq::<Seq<char>>::empty()),
        parts[i] == ".."@,
    ensures
        spec_normalize_components(parts) is None,
{
    reveal_strlit(".");
    reveal_strlit("..");
    let next = parts.subrange(0, i + 1);
    assert(next.drop_last() =~= parts.subrange(0, i));
    assert(next.last() == parts[i]);
    assert(".."@.len() == 2 && "."@.len() == 1);
    assert(spec_normalize_components(next) is None);
    lemma_norm_prefix_none(next, parts);
}

/// A rejected prefix rejects the whole path.
proof fn lemma_norm_prefix_none(prefix: Seq<Seq<char>>, parts: Seq<Seq<char>>)
    requires
        prefix.len() <= parts.len(),
        prefix =~= parts.subrange(0, prefix.len() as int),
        spec_normalize_components(prefix) is None,
    ensures
        spec_normalize_components(parts) is None,
    decreases parts.len() - prefix.len(),
{
    if prefix.len() == parts.len() {
        assert(prefix =~= parts);
    } else {
        let next = parts.subrange(0, prefix.len() as int + 1);
        assert(next.drop_last() =~= prefix);
        assert(spec_normalize_components(next) is None);
        lemma_norm_prefix_none(next, parts);
    }
}


/// How one listing entry is planned: excluded subtrees and rejected paths
/// vanish; the walked root itself becomes the prefix directory unless the
/// caller skips it; every other entry keeps its kind, mode and link
/// target and lands at the prefix plus its normalised path.
pub open spec fn spec_plan_entry(
    prefix: Seq<char>,
    e: FsEntryView,
    exclude_modules: bool,
    skip_root: bool,
) -> Option<PlannedEntryView> {
    if exclude_modules && spec_split(e.path, '/')[0] == "node_modules"@ {
        None
    } else {
        match spec_norm_path(e.path) {
            None => None,
            Some(comps) => if comps.len() == 0 {
                if e.kind == EntryKind::Directory && !skip_root {
                    Some(PlannedEntryView {
                        path: prefix,
                        kind: EntryKind::Directory,
                        source: e.path,
                        mode: e.mode,
                        link_target: e.link_target,
                    })
                } else {
                    None
                }
            } else {
                Some(PlannedEntryView {
                    path: prefix + seq!['/'] + spec_join(comps, '/'),
                    kind: e.kind,
                    source: e.path,
                    mode: e.mode,
                    link_target: e.link_target,
                })
            },
        }
    }
}

/// The planned entries for a whole listing, in listing order.
pub open spec fn spec_plan(
    prefix: Seq<char>,
    entries: Seq<FsEntryView>,
    exclude_modules: bool,
    skip_root: bool,
) -> Seq<PlannedEntryView>
    decreases entries.len(),
{
    if entries.len() == 0 {
        Seq::<PlannedEntryView>::empty()
    } else {
        let rest = spec_plan(prefix, entries.drop_last(), exclude_modules, skip_root);
        match spec_plan_entry(prefix, entries.last(), exclude_modules, skip_root) {
            Some(p) => rest.push(p),
            None => rest,
        }
    }
}

/// Plan the archive entries for one walked listing under `prefix`.
pub fn plan_entries(
    prefix: &str,
    entries: &Vec<FsEntry>,
    exclude_modules: bool,
    skip_root: bool,
) -> (r: Vec<PlannedEntry>)
    ensures
        r@.map_values(|p: PlannedEntry| p@) == spec_plan(
            prefix@,
            entries@.map_values(|e: FsEntry| e@),
            exclude_modules,
            skip_root,
        ),
{
    proof {
        reveal_strlit("/");
        reveal_strlit("node_modules");
    }
    let ghost eviews = entries@.map_values(|e: FsEntry| e@);
    let mut r: Vec<PlannedEntry> = Vec::new();
    let mut i: usize = 0;
    proof {
        assert(eviews.subrange(0, 0) =~= Seq::<FsEntryView>::empty());
        assert(r@.map_values(|p: PlannedEntry| p@) =~= spec_plan(
            prefix@,
            eviews.subrange(0, 0),
            exclude_modules,
            skip_root,
        ));
    }
    while i < entries.len()
        invariant
            i <= entries@.len(),
            eviews == entries@.map_values(|e: FsEntry| e@),
            r@.map_values(|p: PlannedEntry| p@) == spec_plan(
                prefix@,
                eviews.subrange(0, i as int),
                exclude_modules,
                skip_root,
            ),
        decreases entries@.len() - i,
    {
        let entry = &entries[i];
        proof {
            assert(eviews.subrange(0, i as int + 1).drop_last() =~= eviews.subrange(0, i as int));
            assert(eviews.subrange(0, i as int + 1).last() == eviews[i as int]);
            assert(eviews[i as int] == entry@);
            lemma_split_len(entry.rel_path@, '/');
        }
        let planned: Option<PlannedEntry> = plan_one(prefix, entry, exclude_modules, skip_root);
        match planned {
            Some(p) => {
                let ghost prev = r@;
                r.push(p);
                proof {
                    assert(r@.map_values(|p: PlannedEntry| p@) =~= prev.map_values(
                        |p: PlannedEntry| p@,
                    ).push(spec_plan_entry(prefix@, entry@, exclude_modules, skip_root)->0));
                }
            },
            None => {},
        }
        i = i + 1;
    }
    proof {
        assert(eviews.subrange(0, eviews.len() as int) =~= eviews);
    }
    r
}

/// Plan a single listing entry.
fn plan_one(prefix: &str, entry: &FsEntry, exclude_modules: bool, skip_root: bool) -> (r: Option<
    PlannedEntry,
>)
    ensures
        match r {
            Some(p) => spec_plan_entry(prefix@, entry@, exclude_modules, skip_root) == Some(p@),
            None => spec_plan_entry(prefix@, entry@, exclude_modules, skip_root) is None,
        },
{
    proof {
        reveal_strlit("/");
        reveal_strlit("node_modules");
    }
    if exclude_modules {
        let parts = split_str(entry.rel_path.as_str(), '/');
        proof {
            lemma_split_len(entry.rel_path@, '/');
            assert(parts@.map_values(|p: String| p@)[0] == parts@[0]@);
        }
        if str_eq(parts[0].as_str(), "node_modules") {
            return None;
        }
    }
    let comps = match normalize_entry_path(entry.rel_path.as_str()) {
        Some(c) => c,
        None => {
            return None;
        },
    };
    if comps.len() == 0 {
        proof {
            assert(spec_norm_path(entry.rel_path@)->0 =~= Seq::<Seq<char>>::empty());
        }
        if matches!(entry.kind, EntryKind::Directory) && !skip_root {
            return Some(PlannedEntry {
                archive_path: prefix.to_owned(),
                kind: EntryKind::Directory,
                source_path: entry.rel_path.clone(),
                mode: entry.mode,
                link_target: entry.link_target.clone(),
            });
        }
        return None;
    }
    let joined = join_strings(&comps, "/");
    let mut archive_path = prefix.to_owned();
    archive_path.append("/");
    archive_path.append(joined.as_str());
    proof {
        assert(archive_path@ == prefix@ + seq!['/'] + spec_join(
            spec_norm_path(entry.rel_path@)->0,
            '/',
        )) by {
            assert("/"@ =~= seq!['/']);
            assert(prefix@ + "/"@ + joined@ =~= prefix@ + seq!['/'] + joined@);
        }
    }
    Some(PlannedEntry {
        archive_path,
        kind: entry.kind,
        source_path: entry.rel_path.clone(),
        mode: entry.mode,
        link_target: entry.link_target.clone(),
    })
}

/// Plan the application tree under `app/`, leaving out its own
/// `node_modules` subtree.
pub fn plan_app_entries(entries: &Vec<FsEntry>) -> (r: Vec<PlannedEntry>)
    ensures
        r@.map_values(|p: PlannedEntry| p@) == spec_plan(
            "app"@,
            entries@.map_values(|e: FsEntry| e@),
            true,
            false,
        ),
{
    plan_entries("app", entries, true, false)
}

/// Plan one resolved dependency's tree under `app/node_modules/NAME/`,
/// links preserved as link entries and the walked root itself skipped.
pub fn plan_package_entries(name: &str, entries: &Vec<FsEntry>) -> (r: Vec<PlannedEntry>)
    ensures
        r@.map_values(|p: PlannedEntry| p@) == spec_plan(
            "app/node_modules/"@ + name@,
            entries@.map_values(|e: FsEntry| e@),
            false,
            true,
        ),
{
    proof {
        reveal_strlit("app/node_modules/");
    }
    let mut prefix = String::from_str("app/node_modules/");
    prefix.append(name);
    plan_entries(prefix.as_str(), entries, false, true)
}

/// Plan the portable runtime tree under `runtime/`.
pub fn plan_runtime_entries(entries: &Vec<FsEntry>) -> (r: Vec<PlannedEntry>)
    ensures
        r@.map_values(|p: PlannedEntry| p@) == spec_plan(
            "runtime"@,
            entries@.map_values(|e: FsEntry| e@),
            false,
            false,
        ),
{
    plan_entries("runtime", entries, false, false)
}

/// Every planned path stays under its prefix: it is the prefix itself or
/// the prefix, a slash, and the entry's normalised components.  With
/// `lemma_no_escape`, no planned entry can name anything outside its
/// archive root.
pub proof fn lemma_plan_rooted(
    prefix: Seq<char>,
    entries: Seq<FsEntryView>,
    exclude_modules: bool,
    skip_root: bool,
)
    ensures
        forall|i: int|
            0 <= i < spec_plan(prefix, entries, exclude_modules, skip_root).len()
                ==> crate::strutil::spec_starts_with(
                #[trigger] spec_plan(prefix, entries, exclude_modules, skip_root)[i].path,
                prefix,
            ),
    decreases entries.len(),
{
    if entries.len() > 0 {
        lemma_plan_rooted(prefix, entries.drop_last(), exclude_modules, skip_root);
        let rest = spec_plan(prefix, entries.drop_last(), exclude_modules, skip_root);
        let all = spec_plan(prefix, entries, exclude_modules, skip_root);
        match spec_plan_entry(prefix, entries.last(), exclude_modules, skip_root) {
            Some(p) => {
                assert(crate::strutil::spec_starts_with(p.path, prefix)) by {
                    match spec_norm_path(entries.last().path) {
                        Some(comps) => {
                            if comps.len() == 0 {
                                assert(p.path.subrange(0, prefix.len() as int) =~= prefix);
                            } else {
                                assert(p.path.subrange(0, prefix.len() as int) =~= prefix);
                            }
                        },
                        None => {},
                    }
                }
                assert forall|i: int| 0 <= i < all.len() implies crate::strutil::spec_starts_with(
                    #[trigger] all[i].path,
                    prefix,
                ) by {
                    if i < rest.len() {
                        assert(all[i] == rest[i]);
                    }
                }
            },
            None => {},
        }
    }
}

/// Every accepted listing entry appears in the plan, exactly as
/// `spec_plan_entry` maps it.  In particular a dependency listing that
/// holds `package.json` puts `app/node_modules/NAME/package.json` into
/// the archive, and a symbolic link inside a package travels as a link
/// entry with its target text unchanged.
pub proof fn lemma_plan_membership(
    prefix: Seq<char>,
    entries: Seq<FsEntryView>,
    exclude_modules: bool,
    skip_root: bool,
    j: int,
)
    requires
        0 <= j < entries.len(),
        spec_plan_entry(prefix, entries[j], exclude_modules, skip_root) is Some,
    ensures
        exists|i: int|
            0 <= i < spec_plan(prefix, entries, exclude_modules, skip_root).len()
                && #[trigger] spec_plan(prefix, entries, exclude_modules, skip_root)[i]
                == spec_plan_entry(prefix, entries[j], exclude_modules, skip_root)->0,
    decreases entries.len(),
{
    let all = spec_plan(prefix, entries, exclude_modules, skip_root);
    let rest = spec_plan(prefix, entries.drop_last(), exclude_modules, skip_root);
    if j == entries.len() - 1 {
        assert(entries.last() == entries[j]);
        assert(all[all.len() - 1] == spec_plan_entry(prefix, entries[j], exclude_modules,
            skip_root)->0);
    } else {
        assert(entries.drop_last()[j] == entries[j]);
        lemma_plan_membership(prefix, entries.drop_last(), exclude_modules, skip_root, j);
        let i = choose|i: int|
            0 <= i < rest.len() && #[trigger] rest[i] == spec_plan_entry(
                prefix,
                entries.drop_last()[j],
                exclude_modules,
                skip_root,
            )->0;
        assert(all[i] == rest[i]);
    }
}


/// An installed dependency travels with its manifest: when the walked
/// package listing holds `package.json` at the package root, the
/// dependency's plan puts `app/node_modules/NAME/package.json` into the
/// archive as a file.
pub proof fn lemma_dependency_manifest_archived(
    name: Seq<char>,
    entries: Seq<FsEntryView>,
    j: int,
)
    requires
        0 <= j < entries.len(),
        entries[j].kind == EntryKind::File,
        spec_norm_path(entries[j].path) == Some(seq!["package.json"@]),
    ensures
        exists|i: int|
            0 <= i < spec_plan("app/node_modules/"@ + name, entries, false, true).len()
                && #[trigger] spec_plan("app/node_modules/"@ + name, entries, false, true)[i].path
                == "app/node_modules/"@ + name + "/"@ + "package.json"@ && spec_plan(
                "app/node_modules/"@ + name,
                entries,
                false,
                true,
            )[i].kind == EntryKind::File,
{
    reveal_strlit("/");
    let prefix = "app/node_modules/"@ + name;
    let comps = spec_norm_path(entries[j].path)->0;
    assert(comps.len() == 1);
    assert(spec_join(comps, '/') == "package.json"@);
    assert(spec_plan_entry(prefix, entries[j], false, true) is Some);
    let p = spec_plan_entry(prefix, entries[j], false, true)->0;
    assert(p.path =~= prefix + "/"@ + "package.json"@) by {
        assert(seq!['/'] =~= "/"@);
        assert(p.path == prefix + seq!['/'] + spec_join(comps, '/'));
    }
    assert(prefix + "/"@ + "package.json"@ =~= "app/node_modules/"@ + name + "/"@
        + "package.json"@);
    lemma_plan_membership(prefix, entries, false, true, j);
}


/// Whether a listing entry counts toward the progress total: files and
/// links, outside the excluded modules subtree.
pub open spec fn spec_counted_entry(e: FsEntryView, exclude_modules: bool) -> bool {
    (e.kind == EntryKind::File || e.kind == EntryKind::Symlink) && !(exclude_modules && spec_split(
        e.path,
        '/',
    )[0] == "node_modules"@)
}

/// Count the files and links of a listing, optionally leaving out the
/// `node_modules` subtree; the progress display sizes itself by this.
pub fn count_files_in_dir(entries: &Vec<FsEntry>, exclude_node_modules: bool) -> (r: usize)
    ensures
        r == entries@.map_values(|e: FsEntry| e@).filter(
            |e: FsEntryView| spec_counted_entry(e, exclude_node_modules),
        ).len(),
{
    proof {
        reveal_strlit("node_modules");
    }
    let ghost eviews = entries@.map_values(|e: FsEntry| e@);
    let ghost pred = |e: FsEntryView| spec_counted_entry(e, exclude_node_modules);
    let mut count: usize = 0;
    let mut i: usize = 0;
    proof {
        reveal(Seq::filter);
        assert(eviews.subrange(0, 0) =~= Seq::<FsEntryView>::empty());
    }
    while i < entries.len()
        invariant
            i <= entries@.len(),
            eviews == entries@.map_values(|e: FsEntry| e@),
            pred == (|e: FsEntryView| spec_counted_entry(e, exclude_node_modules)),
            count == eviews.subrange(0, i as int).filter(pred).len(),
            count <= i,
        decreases entries@.len() - i,
    {
        let entry = &entries[i];
        proof {
            reveal(Seq::filter);
            assert(eviews.subrange(0, i as int + 1).drop_last() =~= eviews.subrange(0, i as int));
            assert(eviews.subrange(0, i as int + 1).last() == eviews[i as int]);
            assert(eviews[i as int] == entry@);
            eviews.subrange(0, i as int).lemma_filter_len(pred);
        }
        let is_file_or_link = match entry.kind {
            EntryKind::File | EntryKind::Symlink => true,
            EntryKind::Directory => false,
        };
        let mut counted = is_file_or_link;
        if counted && exclude_node_modules {
            let parts = split_str(entry.rel_path.as_str(), '/');
            proof {
                lemma_split_len(entry.rel_path@, '/');
                assert(parts@.map_values(|p: String| p@)[0] == parts@[0]@);
            }
            if str_eq(parts[0].as_str(), "node_modules") {
                counted = false;
            }
        }
        if counted {
            count = count + 1;
        }
        i = i + 1;
    }
    proof {
        assert(eviews.subrange(0, eviews.len() as int) =~= eviews);
    }
    count
}

} // verus!
