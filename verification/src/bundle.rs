//! Build-time decisions that tie the pieces together: the fresh build
//! identifier, the launcher template's files, the per-user cache
//! location, the runtime tree's wrapper stripping, and the top-level
//! bundle plan.

use vstd::prelude::*;
use crate::naming::{spec_sanitized, sanitize_package_name, spec_base_of, spec_ext_of,
    spec_candidate, resolve_output_path};
use crate::resolver::spec_contains_name;
use crate::strutil::{replace_first, find_char};

verus! {

/// Relies on `uuid::Uuid::new_v4` and its display form: a fresh random
/// identifier rendered as the 36-character hyphenated text.  Randomness
/// is the library's: nothing but the length is promised of the value.
#[verifier::external_body]
fn fresh_build_id() -> (r: String)
    ensures
        r@.len() == 36,
{
    uuid::Uuid::new_v4().to_string()
}

/// The launcher template's files, carried as plain text.
#[derive(Debug)]
pub struct EmbeddedTemplate {
    pub cargo_toml: String,
    pub build_rs: String,
    pub main_rs: String,
}

impl EmbeddedTemplate {
    /// Assemble the template from its three files' contents.
    pub fn new(cargo_toml: String, build_rs: String, main_rs: String) -> (r: Self)
        ensures
            r.cargo_toml == cargo_toml,
            r.build_rs == build_rs,
            r.main_rs == main_rs,
    {
        Self { cargo_toml, build_rs, main_rs }
    }
}

/// The template's placeholder package name.
pub open spec fn spec_template_name_line() -> Seq<char> {
    "name = \"banderole-app\""@
}

/// The template's manifest with its package name replaced by the
/// sanitised application name: the first occurrence of the placeholder
/// line — and nothing before it — becomes the renamed line; a manifest
/// without the placeholder is unchanged.
#[verifier::rlimit(60)]
pub fn rename_template_package(cargo_toml: &str, app_name: &str) -> (r: String)
    ensures
        (exists|j: int|
            0 <= j <= cargo_toml@.len() - spec_template_name_line().len()
                && #[trigger] cargo_toml@.subrange(
                j,
                j + spec_template_name_line().len() as int,
            ) == spec_template_name_line()) ==> exists|i: int|
            {
                &&& 0 <= i <= cargo_toml@.len() - spec_template_name_line().len()
                &&& #[trigger] cargo_toml@.subrange(
                    i,
                    i + spec_template_name_line().len() as int,
                ) == spec_template_name_line()
                &&& forall|j: int|
                    0 <= j < i ==> #[trigger] cargo_toml@.subrange(
                        j,
                        j + spec_template_name_line().len() as int,
                    ) != spec_template_name_line()
                &&& r@ == cargo_toml@.subrange(0, i) + "name = \""@ + spec_sanitized(app_name@)
                    + "\""@ + cargo_toml@.subrange(
                    i + spec_template_name_line().len(),
                    cargo_toml@.len() as int,
                )
            },
        !(exists|j: int|
            0 <= j <= cargo_toml@.len() - spec_template_name_line().len()
                && #[trigger] cargo_toml@.subrange(
                j,
                j + spec_template_name_line().len() as int,
            ) == spec_template_name_line()) ==> r@ == cargo_toml@,
{
    proof {
        reveal_strlit("name = \"banderole-app\"");
        reveal_strlit("name = \"");
        reveal_strlit("\"");
    }
    let sanitized = sanitize_package_name(app_name);
    let mut replacement = String::from_str("name = \"");
    replacement.append(sanitized.as_str());
    replacement.append("\"");
    replace_first(cargo_toml, "name = \"banderole-app\"", replacement.as_str())
}

/// Where the per-user cache root is taken from, in preference order.
#[derive(Debug, Clone, Copy, PartialEq, Eq, Structural)]
pub enum CacheDirBase {
    /// `XDG_CACHE_HOME`, suffixed with the tool's own directory.
    XdgCacheHome,
    /// `HOME/.cache`, suffixed with the tool's own directory.
    HomeCache,
    /// The host's per-user application-data directory.
    AppData,
    /// The temporary directory, as a last resort.
    TempDir,
}

/// Choose the cache root's base: `XDG_CACHE_HOME` first, then the home
/// directory, then the per-user application-data directory, then the
/// temporary directory.
pub fn choose_cache_dir(has_xdg: bool, has_home: bool, has_appdata: bool) -> (r: CacheDirBase)
    ensures
        has_xdg ==> r == CacheDirBase::XdgCacheHome,
        !has_xdg && has_home ==> r == CacheDirBase::HomeCache,
        !has_xdg && !has_home && has_appdata ==> r == CacheDirBase::AppData,
        !has_xdg && !has_home && !has_appdata ==> r == CacheDirBase::TempDir,
{
    if has_xdg {
        CacheDirBase::XdgCacheHome
    } else if has_home {
        CacheDirBase::HomeCache
    } else if has_appdata {
        CacheDirBase::AppData
    } else {
        CacheDirBase::TempDir
    }
}

/// Strip the single wrapper directory from an unpacked runtime entry
/// path: the text after the first slash, or nothing when nothing
/// follows it.
pub fn strip_first_component(path: &str) -> (r: Option<String>)
    ensures
        match r {
            Some(rest) => exists|i: int|
                0 <= i < path@.len() && #[trigger] path@[i] == '/' && (forall|j: int|
                    0 <= j < i ==> path@[j] != '/') && rest@ == path@.subrange(
                    i + 1,
                    path@.len() as int,
                ) && rest@.len() > 0,
            None => (forall|j: int| 0 <= j < path@.len() ==> path@[j] != '/') || (exists|i: int|
                0 <= i < path@.len() && #[trigger] path@[i] == '/' && (forall|j: int|
                    0 <= j < i ==> path@[j] != '/') && i + 1 == path@.len()),
        },
{
    let len = path.unicode_len();
    match find_char(path, '/') {
        Some(i) => {
            if i + 1 == len {
                None
            } else {
                let rest = path.substring_char(i + 1, len).to_owned();
                Some(rest)
            }
        },
        None => None,
    }
}

/// Whether an unpacked runtime directory consists of a single wrapper
/// directory that should be flattened away.
pub fn should_flatten(top_dir_count: usize, top_files_exist: bool) -> (r: bool)
    ensures
        r == (top_dir_count == 1 && !top_files_exist),
{
    top_dir_count == 1 && !top_files_exist
}

/// The manifest's application name with its default applied.
pub open spec fn spec_defaulted_name(name: Option<String>) -> Seq<char> {
    match name {
        Some(n) => n@,
        None => "app"@,
    }
}

/// The decisions a build starts from, derived before any archive work.
#[derive(Debug)]
pub struct BundlePlan {
    /// The application name, from the manifest or its default.
    pub app_name: String,
    /// The application version, from the manifest or its default.
    pub app_version: String,
    /// The launcher file to produce.
    pub output_path: String,
    /// Store archive entries uncompressed.
    pub compression_stored: bool,
    /// The fresh cache key embedded in the launcher.
    pub build_id: String,
}

/// Assemble the build-time decisions: names default to `app` and
/// `0.0.0`, the output name avoids every existing name unless given
/// explicitly, compression follows the flag, and the build identifier is
/// fresh and 36 characters long.
pub fn bundle_plan(
    manifest_name: Option<String>,
    manifest_version: Option<String>,
    output_path: Option<String>,
    custom_name: Option<&str>,
    no_compression: bool,
    windows: bool,
    existing: &Vec<String>,
) -> (r: BundlePlan)
    ensures
        match manifest_name {
            Some(n) => r.app_name == n,
            None => r.app_name@ == "app"@,
        },
        match manifest_version {
            Some(v) => r.app_version == v,
            None => r.app_version@ == "0.0.0"@,
        },
        output_path matches Some(p) ==> r.output_path == p,
        output_path is None ==> !spec_contains_name(existing@, r.output_path@),
        output_path is None ==> exists|k: nat|
            r.output_path@ == #[trigger] spec_candidate(
                spec_base_of(spec_defaulted_name(manifest_name), custom_name),
                spec_ext_of(windows),
                k,
            ),
        r.compression_stored == no_compression,
        r.build_id@.len() == 36,
{
    let app_name = crate::manifest::app_name_of(manifest_name);
    let app_version = crate::manifest::app_version_of(manifest_version);
    let out = resolve_output_path(output_path, app_name.as_str(), custom_name, windows, existing);
    let build_id = fresh_build_id();
    proof {
        if output_path is None {
            let k = choose|k: nat|
                out@ == #[trigger] spec_candidate(
                    spec_base_of(app_name@, custom_name),
                    spec_ext_of(windows),
                    k,
                ) && (forall|j: nat|
                    j < k ==> spec_contains_name(
                        existing@,
                        #[trigger] spec_candidate(
                            spec_base_of(app_name@, custom_name),
                            spec_ext_of(windows),
                            j,
                        ),
                    ));
            assert(spec_base_of(app_name@, custom_name) == spec_base_of(
                spec_defaulted_name(manifest_name),
                custom_name,
            ));
            assert(out@ == spec_candidate(
                spec_base_of(spec_defaulted_name(manifest_name), custom_name),
                spec_ext_of(windows),
                k,
            ));
        }
    }
    BundlePlan {
        app_name,
        app_version,
        output_path: out,
        compression_stored: no_compression,
        build_id,
    }
}

} // verus!
