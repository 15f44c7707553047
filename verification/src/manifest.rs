//! Reading package manifests.  The JSON work is done by the
//! `serde_json` library behind trusted declarations; what each reading
//! returns is a function of the text alone, so each result carries an
//! uninterpreted name, and the contracts here tie every extracted field
//! to the named member of the text it came from.

use vstd::prelude::*;
use crate::resolver::names_of;

verus! {

/// The fields of a package manifest that the bundler reads, as plain
/// values.
#[derive(Debug)]
pub struct Manifest {
    pub name: Option<String>,
    pub version: Option<String>,
    pub main: Option<String>,
    pub dependencies: Vec<String>,
    pub peer_dependencies: Vec<String>,
    pub optional_dependencies: Vec<String>,
    /// The manifest declares workspace packages.
    pub has_workspaces: bool,
}

/// Whether the text is well-formed JSON.
pub uninterp spec fn spec_json_parses(s: Seq<char>) -> bool;

/// The string member under `key` of the parsed text; nothing when the
/// text does not parse, has no such member, or the member is not a
/// string.
pub uninterp spec fn spec_json_string_field(s: Seq<char>, key: Seq<char>) -> Option<Seq<char>>;

/// The string member under `inner` of the object member under `outer`
/// of the parsed text.
pub uninterp spec fn spec_json_nested_string_field(
    s: Seq<char>,
    outer: Seq<char>,
    inner: Seq<char>,
) -> Option<Seq<char>>;

/// The keys of the object member under `key` of the parsed text, in
/// stored order; nothing when the member is absent or not an object.
pub uninterp spec fn spec_json_object_keys(s: Seq<char>, key: Seq<char>) -> Option<Seq<Seq<char>>>;

/// Whether the member under `key` of the parsed text is an array.
pub uninterp spec fn spec_json_member_is_array(s: Seq<char>, key: Seq<char>) -> bool;

/// Whether the member under `key` of the parsed text is an object.
pub uninterp spec fn spec_json_member_is_object(s: Seq<char>, key: Seq<char>) -> bool;

/// Whether the member under `inner` of the object member under `outer`
/// of the parsed text is an array.
pub uninterp spec fn spec_json_nested_member_is_array(
    s: Seq<char>,
    outer: Seq<char>,
    inner: Seq<char>,
) -> bool;

/// The value of an optional string, seen mathematically.
pub open spec fn spec_opt_str_view(o: Option<String>) -> Option<Seq<char>> {
    match o {
        Some(s) => Some(s@),
        None => None,
    }
}

/// The named key list, or nothing at all.
pub open spec fn spec_keys_or_empty(o: Option<Seq<Seq<char>>>) -> Seq<Seq<char>> {
    match o {
        Some(keys) => keys,
        None => Seq::<Seq<char>>::empty(),
    }
}

/// Relies on `serde_json::from_str::<Value>`: whether the text parses
/// as JSON.  The result depends on the text alone.
#[verifier::external_body]
fn json_parses(content: &str) -> (r: bool)
    ensures
        r == spec_json_parses(content@),
{
    serde_json::from_str::<serde_json::Value>(content).is_ok()
}

/// Relies on `serde_json::from_str::<Value>`, `Value::get` and
/// `Value::as_str`: the string member under `key` of the parsed text.
/// The result depends on the text and the key alone.
#[verifier::external_body]
fn json_string_field(content: &str, key: &str) -> (r: Option<String>)
    ensures
        spec_opt_str_view(r) == spec_json_string_field(content@, key@),
{
    serde_json::from_str::<serde_json::Value>(content)
        .ok()
        .and_then(|v| v.get(key).and_then(|f| f.as_str()).map(|s| s.to_owned()))
}

/// Relies on `serde_json::from_str::<Value>`, `Value::get` and
/// `Value::as_str`: the string member under `inner` of the object
/// member under `outer`.  The result depends on the arguments alone.
#[verifier::external_body]
fn json_nested_string_field(content: &str, outer: &str, inner: &str) -> (r: Option<String>)
    ensures
        spec_opt_str_view(r) == spec_json_nested_string_field(content@, outer@, inner@),
{
    serde_json::from_str::<serde_json::Value>(content)
        .ok()
        .and_then(|v| {
            v.get(outer).and_then(|o| o.get(inner)).and_then(|f| f.as_str()).map(|s| s.to_owned())
        })
}

/// Relies on `serde_json::from_str::<Value>`, `Value::get`,
/// `Value::as_object` and `Map::keys`: the keys of the object member
/// under `key`, in stored order.  The result depends on the arguments
/// alone.
#[verifier::external_body]
fn json_object_keys(content: &str, key: &str) -> (r: Option<Vec<String>>)
    ensures
        match r {
            Some(keys) => spec_json_object_keys(content@, key@) == Some(names_of(keys@)),
            None => spec_json_object_keys(content@, key@) is None,
        },
{
    serde_json::from_str::<serde_json::Value>(content)
        .ok()
        .and_then(|v| v.get(key).and_then(|f| f.as_object()).map(|m| m.keys().cloned().collect()))
}

/// Relies on `serde_json::from_str::<Value>`, `Value::get` and
/// `Value::is_array`.
#[verifier::external_body]
fn json_member_is_array(content: &str, key: &str) -> (r: bool)
    ensures
        r == spec_json_member_is_array(content@, key@),
{
    serde_json::from_str::<serde_json::Value>(content)
        .ok()
        .and_then(|v| v.get(key).map(|f| f.is_array()))
        .unwrap_or(false)
}

/// Relies on `serde_json::from_str::<Value>`, `Value::get` and
/// `Value::is_object`.
#[verifier::external_body]
fn json_member_is_object(content: &str, key: &str) -> (r: bool)
    ensures
        r == spec_json_member_is_object(content@, key@),
{
    serde_json::from_str::<serde_json::Value>(content)
        .ok()
        .and_then(|v| v.get(key).map(|f| f.is_object()))
        .unwrap_or(false)
}

/// Relies on `serde_json::from_str::<Value>`, `Value::get` and
/// `Value::is_array`.
#[verifier::external_body]
fn json_nested_member_is_array(content: &str, outer: &str, inner: &str) -> (r: bool)
    ensures
        r == spec_json_nested_member_is_array(content@, outer@, inner@),
{
    serde_json::from_str::<serde_json::Value>(content)
        .ok()
        .and_then(|v| v.get(outer).and_then(|o| o.get(inner)).map(|f| f.is_array()))
        .unwrap_or(false)
}

/// Whether the text declares workspace packages: its `workspaces`
/// member is an array, an object, or carries a `packages` array.
pub open spec fn spec_manifest_declares_workspaces(s: Seq<char>) -> bool {
    spec_json_member_is_array(s, "workspaces"@) || spec_json_member_is_object(s, "workspaces"@)
        || spec_json_nested_member_is_array(s, "workspaces"@, "packages"@)
}

/// Parse manifest text into the plain fields the bundler reads.
///
/// Succeeds exactly when the text is well-formed JSON; each field then
/// equals the correspondingly named member of the text: the entry-point
/// field `main`, the `name` and `version` strings, the key lists of the
/// three dependency members (production, peer, optional — development
/// dependencies never contribute), and the workspaces declaration.
pub fn parse_manifest(content: &str) -> (r: Option<Manifest>)
    ensures
        r is Some <==> spec_json_parses(content@),
        r matches Some(m) ==> {
            &&& spec_opt_str_view(m.name) == spec_json_string_field(content@, "name"@)
            &&& spec_opt_str_view(m.version) == spec_json_string_field(content@, "version"@)
            &&& spec_opt_str_view(m.main) == spec_json_string_field(content@, "main"@)
            &&& names_of(m.dependencies@) == spec_keys_or_empty(
                spec_json_object_keys(content@, "dependencies"@),
            )
            &&& names_of(m.peer_dependencies@) == spec_keys_or_empty(
                spec_json_object_keys(content@, "peerDependencies"@),
            )
            &&& names_of(m.optional_dependencies@) == spec_keys_or_empty(
                spec_json_object_keys(content@, "optionalDependencies"@),
            )
            &&& m.has_workspaces == spec_manifest_declares_workspaces(content@)
        },
{
    if !json_parses(content) {
        return None;
    }
    let name = json_string_field(content, "name");
    let version = json_string_field(content, "version");
    let main = json_string_field(content, "main");
    let dependencies = keys_or_empty(content, "dependencies");
    let peer_dependencies = keys_or_empty(content, "peerDependencies");
    let optional_dependencies = keys_or_empty(content, "optionalDependencies");
    let has_workspaces = json_member_is_array(content, "workspaces") || json_member_is_object(
        content,
        "workspaces",
    ) || json_nested_member_is_array(content, "workspaces", "packages");
    Some(Manifest {
        name,
        version,
        main,
        dependencies,
        peer_dependencies,
        optional_dependencies,
        has_workspaces,
    })
}

/// The named key list under `key`, or no names at all.
fn keys_or_empty(content: &str, key: &str) -> (r: Vec<String>)
    ensures
        names_of(r@) == spec_keys_or_empty(spec_json_object_keys(content@, key@)),
{
    match json_object_keys(content, key) {
        Some(keys) => keys,
        None => {
            let r: Vec<String> = Vec::new();
            proof {
                assert(names_of(r@) =~= Seq::<Seq<char>>::empty());
            }
            r
        },
    }
}

/// The tsconfig fields the source-directory policy reads.
#[derive(Debug)]
pub struct CompilerConfig {
    /// The configured output directory, if any.
    pub out_dir: Option<String>,
    /// The `extends` value, if any.
    pub extends: Option<String>,
}

/// Parse compiler-configuration text (after comment stripping) into the
/// two fields the selection policy reads.
///
/// Succeeds exactly when the text is well-formed JSON; the fields then
/// equal the text's `compilerOptions.outDir` and `extends` string
/// members.
pub fn parse_compiler_config(content: &str) -> (r: Option<CompilerConfig>)
    ensures
        r is Some <==> spec_json_parses(content@),
        r matches Some(c) ==> {
            &&& spec_opt_str_view(c.out_dir) == spec_json_nested_string_field(
                content@,
                "compilerOptions"@,
                "outDir"@,
            )
            &&& spec_opt_str_view(c.extends) == spec_json_string_field(content@, "extends"@)
        },
{
    if !json_parses(content) {
        return None;
    }
    let out_dir = json_nested_string_field(content, "compilerOptions", "outDir");
    let extends = json_string_field(content, "extends");
    Some(CompilerConfig { out_dir, extends })
}

/// The application name the bundle uses: the manifest's, or `app`.
pub fn app_name_of(name: Option<String>) -> (r: String)
    ensures
        match name {
            Some(n) => r == n,
            None => r@ == "app"@,
        },
{
    match name {
        Some(n) => n,
        None => String::from_str("app"),
    }
}

/// The application version the bundle reports: the manifest's, or
/// `0.0.0`.
pub fn app_version_of(version: Option<String>) -> (r: String)
    ensures
        match version {
            Some(v) => r == v,
            None => r@ == "0.0.0"@,
        },
{
    match version {
        Some(v) => v,
        None => String::from_str("0.0.0"),
    }
}

} // verus!
