//! Choosing which directory of the project carries the runtime-ready
//! sources, and the helpers that read compiler configuration on the way:
//! stripping single-line comments, walking an `extends` chain, and
//! rewriting the manifest's entry-point field for a non-root selection.

use vstd::prelude::*;
use crate::strutil::{
    spec_split, spec_join, spec_is_space, spec_starts_with, split_str, join_strings, str_eq,
    starts_with_str, is_space_char,
};

verus! {

/// Whether a directory name is one of the conventional build-output
/// names.
pub open spec fn spec_build_dir_name(n: Seq<char>) -> bool {
    n == "dist"@ || n == "build"@ || n == "lib"@ || n == "out"@
}

/// Whether a directory name is one of the conventional build-output
/// names.
pub fn is_build_dir_name(n: &str) -> (r: bool)
    ensures
        r == spec_build_dir_name(n@),
{
    str_eq(n, "dist") || str_eq(n, "build") || str_eq(n, "lib") || str_eq(n, "out")
}

/// What a look at one conventional build-output directory reveals.
#[derive(Debug)]
pub struct ConventionalDir {
    pub name: String,
    pub exists_as_dir: bool,
    /// It holds a script file or a nested manifest.
    pub has_js_or_manifest: bool,
}

/// What a look at the project reveals, for the selection policy.
#[derive(Debug)]
pub struct SourceProbe {
    /// The name of the parent directory of the manifest's entry-point
    /// field, when the manifest has one.
    pub main_parent_name: Option<String>,
    /// That parent directory exists.
    pub main_parent_exists: bool,
    /// The compiler configuration's output directory after the
    /// `extends` chain was merged, when there is one.
    pub tsconfig_out_dir: Option<String>,
    /// That output directory exists.
    pub tsconfig_out_exists: bool,
    /// The conventional build-output directories, probed in their fixed
    /// order.
    pub conventional: Vec<ConventionalDir>,
}

/// Which directory the archive takes the application sources from.
#[derive(Debug, Clone, Copy, PartialEq, Eq, Structural)]
pub enum SourceChoice {
    /// The parent directory of the manifest's entry-point field.
    MainParent,
    /// The compiler configuration's output directory.
    TsconfigOut,
    /// The conventional directory at this index of the probe.
    Conventional { index: usize },
    /// The project root itself.
    ProjectRoot,
}

/// Whether the entry-point rule selects.
pub open spec fn spec_main_rule(probe: SourceProbe) -> bool {
    match probe.main_parent_name {
        Some(n) => spec_build_dir_name(n@) && probe.main_parent_exists,
        None => false,
    }
}

/// Whether the compiler-configuration rule selects.
pub open spec fn spec_tsconfig_rule(probe: SourceProbe) -> bool {
    probe.tsconfig_out_dir is Some && probe.tsconfig_out_exists
}

/// Whether one conventional directory qualifies.
pub open spec fn spec_conventional_ok(d: ConventionalDir) -> bool {
    d.exists_as_dir && d.has_js_or_manifest
}

/// The first qualifying conventional directory at or after `i`.
pub open spec fn spec_first_conventional_from(dirs: Seq<ConventionalDir>, i: int) -> Option<int>
    decreases dirs.len() - i,
{
    if i < 0 || i >= dirs.len() {
        None
    } else if spec_conventional_ok(dirs[i]) {
        Some(i)
    } else {
        spec_first_conventional_from(dirs, i + 1)
    }
}

/// Select the source directory, first match wins: the entry-point
/// field's parent when it is a conventional build-output name and
/// exists; else the compiler configuration's existing output directory;
/// else the first conventional directory that exists and holds a script
/// or a nested manifest; else the project root.
pub fn select_source_directory(probe: &SourceProbe) -> (r: SourceChoice)
    ensures
        spec_main_rule(*probe) ==> r == SourceChoice::MainParent,
        !spec_main_rule(*probe) && spec_tsconfig_rule(*probe) ==> r == SourceChoice::TsconfigOut,
        !spec_main_rule(*probe) && !spec_tsconfig_rule(*probe) ==> match
            spec_first_conventional_from(probe.conventional@, 0) {
            Some(i) => r == (SourceChoice::Conventional { index: i as usize }),
            None => r == SourceChoice::ProjectRoot,
        },
{
    let main_selects = match &probe.main_parent_name {
        Some(n) => is_build_dir_name(n.as_str()) && probe.main_parent_exists,
        None => false,
    };
    if main_selects {
        return SourceChoice::MainParent;
    }
    if probe.tsconfig_out_dir.is_some() && probe.tsconfig_out_exists {
        return SourceChoice::TsconfigOut;
    }
    let mut i: usize = 0;
    while i < probe.conventional.len()
        invariant
            i <= probe.conventional@.len(),
            !spec_main_rule(*probe),
            !spec_tsconfig_rule(*probe),
            spec_first_conventional_from(probe.conventional@, 0) == spec_first_conventional_from(
                probe.conventional@,
                i as int,
            ),
        decreases probe.conventional@.len() - i,
    {
        let d = &probe.conventional[i];
        if d.exists_as_dir && d.has_js_or_manifest {
            return SourceChoice::Conventional { index: i };
        }
        i = i + 1;
    }
    SourceChoice::ProjectRoot
}

/// Whether a configuration line is a single-line comment: its first
/// non-blank characters are `//`.
pub open spec fn spec_line_is_comment(line: Seq<char>) -> bool {
    spec_starts_with(spec_skip_spaces(line), "//"@)
}

/// The line with its leading blank space removed.
pub open spec fn spec_skip_spaces(s: Seq<char>) -> Seq<char>
    decreases s.len(),
{
    if s.len() > 0 && spec_is_space(s[0]) {
        spec_skip_spaces(s.subrange(1, s.len() as int))
    } else {
        s
    }
}

/// Whether one line is a single-line comment.
fn line_is_comment(line: &str) -> (r: bool)
    ensures
        r == spec_line_is_comment(line@),
{
    let len = line.unicode_len();
    let mut lo: usize = 0;
    proof {
        assert(line@.subrange(0, len as int) =~= line@);
    }
    while lo < len && is_space_char(line.get_char(lo))
        invariant
            lo <= len,
            len == line@.len(),
            spec_skip_spaces(line@) == spec_skip_spaces(line@.subrange(lo as int, len as int)),
        decreases len - lo,
    {
        proof {
            assert(line@.subrange(lo as int, len as int).subrange(
                1,
                line@.subrange(lo as int, len as int).len() as int,
            ) =~= line@.subrange(lo as int + 1, len as int));
        }
        lo = lo + 1;
    }
    let rest = line.substring_char(lo, len);
    starts_with_str(rest, "//")
}

/// The configuration text with single-line comment lines removed; other
/// lines keep their order and are joined back with line breaks.
pub open spec fn spec_strip_comments(s: Seq<char>) -> Seq<char> {
    spec_join(spec_split(s, '\n').filter(|l: Seq<char>| !spec_line_is_comment(l)), '\n')
}

/// Remove single-line comment lines from configuration text.
pub fn strip_json_comments(content: &str) -> (r: String)
    ensures
        r@ == spec_strip_comments(content@),
{
    proof {
        reveal_strlit("\n");
    }
    let lines = split_str(content, '\n');
    let ghost slines = spec_split(content@, '\n');
    let ghost keep = |l: Seq<char>| !spec_line_is_comment(l);
    let mut kept: Vec<String> = Vec::new();
    let mut i: usize = 0;
    proof {
        reveal(Seq::filter);
        assert(slines.subrange(0, 0) =~= Seq::<Seq<char>>::empty());
        assert(kept@.map_values(|l: String| l@) =~= slines.subrange(0, 0).filter(keep));
    }
    while i < lines.len()
        invariant
            i <= lines@.len(),
            slines == spec_split(content@, '\n'),
            keep == (|l: Seq<char>| !spec_line_is_comment(l)),
            lines@.map_values(|l: String| l@) == slines,
            kept@.map_values(|l: String| l@) == slines.subrange(0, i as int).filter(keep),
        decreases lines@.len() - i,
    {
        proof {
            reveal(Seq::filter);
            assert(slines.subrange(0, i as int + 1).drop_last() =~= slines.subrange(0, i as int));
            assert(slines.subrange(0, i as int + 1).last() == slines[i as int]);
            assert(lines@.map_values(|l: String| l@)[i as int] == lines@[i as int]@);
        }
        let line = &lines[i];
        if !line_is_comment(line.as_str()) {
            let ghost prev = kept@;
            kept.push(line.clone());
            proof {
                assert(kept@.map_values(|l: String| l@) =~= prev.map_values(
                    |l: String| l@,
                ).push(slines[i as int]));
            }
        }
        i = i + 1;
    }
    proof {
        assert(slines.subrange(0, slines.len() as int) =~= slines);
        assert("\n"@.len() == 1 && "\n"@[0] == '\n');
    }
    join_strings(&kept, "\n")
}

/// The effective output directory of an `extends` chain: the nearest
/// configuration that names one wins, the extending file before the
/// extended.
pub fn effective_out_dir(chain: &Vec<Option<String>>) -> (r: Option<String>)
    ensures
        match r {
            Some(d) => exists|i: int|
                0 <= i < chain@.len() && chain@[i] is Some && #[trigger] chain@[i]->0@ == d@ && (
                forall|j: int| 0 <= j < i ==> chain@[j] is None),
            None => forall|i: int| 0 <= i < chain@.len() ==> chain@[i] is None,
        },
{
    let mut i: usize = 0;
    while i < chain.len()
        invariant
            i <= chain@.len(),
            forall|j: int| 0 <= j < i ==> chain@[j] is None,
        decreases chain@.len() - i,
    {
        match &chain[i] {
            Some(d) => {
                let r = d.clone();
                proof {
                    assert(chain@[i as int] is Some && chain@[i as int]->0@ == r@);
                }
                return Some(r);
            },
            None => {},
        }
        i = i + 1;
    }
    None
}

/// Resolve an `extends` value to the configuration file it names: only
/// relative values (beginning with `.`) are followed, and a value whose
/// final path component has no extension gets `.json` appended.
pub fn resolve_extends_target(extends: &str) -> (r: Option<String>)
    ensures
        match r {
            Some(t) => extends@.len() > 0 && extends@[0] == '.' && (
            spec_component_has_extension(extends@) ==> t@ == extends@) && (
            !spec_component_has_extension(extends@) ==> t@ == extends@ + ".json"@),
            None => !(extends@.len() > 0 && extends@[0] == '.'),
        },
{
    let len = extends.unicode_len();
    if len == 0 || extends.get_char(0) != '.' {
        return None;
    }
    if component_has_extension(extends) {
        Some(extends.to_owned())
    } else {
        let mut t = extends.to_owned();
        t.append(".json");
        Some(t)
    }
}

/// Whether the final slash-separated component of a path contains a dot
/// after its first character — the shape in which a file name carries
/// an extension.
pub open spec fn spec_component_has_extension(p: Seq<char>) -> bool {
    let comps = spec_split(p, '/');
    let last = comps.last();
    exists|i: int| 1 <= i < last.len() && last[i] == '.'
}

/// Whether the final path component carries an extension.
fn component_has_extension(p: &str) -> (r: bool)
    ensures
        r == spec_component_has_extension(p@),
{
    let parts = split_str(p, '/');
    let ghost sparts = spec_split(p@, '/');
    proof {
        crate::strutil::lemma_split_len(p@, '/');
        assert(parts@.map_values(|x: String| x@)[parts@.len() - 1] == parts@[parts@.len() - 1]@);
        assert(parts@[parts@.len() - 1]@ == sparts.last());
    }
    let last = &parts[parts.len() - 1];
    let llen = last.as_str().unicode_len();
    let mut i: usize = 1;
    if llen == 0 {
        return false;
    }
    while i < llen
        invariant
            1 <= i <= llen,
            sparts == spec_split(p@, '/'),
            sparts.len() >= 1,
            llen == sparts.last().len(),
            last@ == sparts.last(),
            forall|j: int| 1 <= j < i ==> sparts.last()[j] != '.',
        decreases llen - i,
    {
        if last.as_str().get_char(i) == '.' {
            proof {
                assert(sparts.last()[i as int] == '.');
            }
            return true;
        }
        i = i + 1;
    }
    false
}

/// Rewrite the manifest's entry-point field for a non-root source
/// directory: a field that names a file inside the selected directory
/// becomes that file's path relative to it; any other field is left to
/// the caller unchanged.
pub fn rewrite_main_field(main_field: &str, selected_dir: &str) -> (r: Option<String>)
    ensures
        match r {
            Some(t) => spec_starts_with(main_field@, selected_dir@ + "/"@) && t@
                == main_field@.subrange(selected_dir@.len() as int + 1, main_field@.len() as int),
            None => !spec_starts_with(main_field@, selected_dir@ + "/"@),
        },
{
    proof {
        reveal_strlit("/");
    }
    let mut prefix = selected_dir.to_owned();
    prefix.append("/");
    let plen = prefix.as_str().unicode_len();
    let mlen = main_field.unicode_len();
    if starts_with_str(main_field, prefix.as_str()) {
        Some(main_field.substring_char(plen, mlen).to_owned())
    } else {
        None
    }
}

} // verus!
