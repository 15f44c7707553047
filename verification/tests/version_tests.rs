use banderole::version::{
    find_matching_versions, find_node_version_spec, normalize_node_version_spec,
    parse_full_version_spec, parse_version_spec, resolve_version_from_list, NodeVersion,
    ParsedVersion, VersionError,
};

#[test]
fn test_parse_version_spec() {
    assert_eq!(
        parse_version_spec("23").unwrap(),
        ParsedVersion::new(23, None, None)
    );

    assert_eq!(
        parse_version_spec("23.5").unwrap(),
        ParsedVersion::new(23, Some(5), None)
    );

    assert_eq!(
        parse_version_spec("v22.1.0").unwrap(),
        ParsedVersion::new(22, Some(1), Some(0))
    );

    assert_eq!(
        parse_version_spec("18.17.0").unwrap(),
        ParsedVersion::new(18, Some(17), Some(0))
    );
}

#[test]
fn test_version_matching() {
    let spec = ParsedVersion::new(23, None, None);
    let version1 = ParsedVersion::new(23, Some(0), Some(0));
    let version2 = ParsedVersion::new(23, Some(5), Some(1));
    let version3 = ParsedVersion::new(22, Some(1), Some(0));

    assert!(spec.matches(&version1));
    assert!(spec.matches(&version2));
    assert!(!spec.matches(&version3));
}

#[test]
fn test_version_ordering() {
    let v1 = ParsedVersion::new(18, Some(17), Some(0));
    let v2 = ParsedVersion::new(18, Some(17), Some(1));
    let v3 = ParsedVersion::new(18, Some(18), Some(0));
    let v4 = ParsedVersion::new(19, Some(0), Some(0));

    assert!(v1 < v2);
    assert!(v2 < v3);
    assert!(v3 < v4);
}

#[test]
fn test_parse_version_spec_errors() {
    assert_eq!(
        parse_version_spec("1.2.3.4").unwrap_err(),
        VersionError::TooManyParts
    );
    assert_eq!(
        parse_version_spec("abc").unwrap_err(),
        VersionError::InvalidNumber
    );
    assert_eq!(parse_version_spec("").unwrap_err(), VersionError::InvalidNumber);
    assert_eq!(
        parse_version_spec("18.").unwrap_err(),
        VersionError::InvalidNumber
    );
    // A component beyond 32 bits is rejected, not wrapped.
    assert_eq!(
        parse_version_spec("4294967296").unwrap_err(),
        VersionError::InvalidNumber
    );
    // The largest value that fits is accepted exactly.
    assert_eq!(
        parse_version_spec("4294967295").unwrap(),
        ParsedVersion::new(4294967295, None, None)
    );
}

#[test]
fn test_normalize_node_version_spec() {
    assert_eq!(normalize_node_version_spec("  v20.1.0\n"), "20.1.0");
    assert_eq!(normalize_node_version_spec("18"), "18");
}

#[test]
fn test_parse_full_version_spec() {
    assert_eq!(parse_full_version_spec("v22.17.1").unwrap(), "22.17.1");
    assert_eq!(parse_full_version_spec("22.17"), None);
    assert_eq!(parse_full_version_spec("22"), None);
}

fn entry(version: &str) -> NodeVersion {
    NodeVersion {
        version: version.to_owned(),
        date: String::new(),
    }
}

#[test]
fn test_find_matching_versions_sorted() {
    let versions = vec![
        entry("v18.17.1"),
        entry("v20.0.0"),
        entry("v18.17.0"),
        entry("v18.18.2"),
    ];
    let spec = ParsedVersion::new(18, None, None);
    let matching = find_matching_versions(&versions, &spec);
    let names: Vec<&str> = matching.iter().map(|e| e.version.as_str()).collect();
    assert_eq!(names, vec!["v18.17.0", "v18.17.1", "v18.18.2"]);
}

#[test]
fn test_resolve_version_from_list() {
    let versions = vec![
        entry("v18.17.1"),
        entry("v20.0.0"),
        entry("v18.18.2"),
        entry("v18.17.0"),
    ];
    assert_eq!(resolve_version_from_list(&versions, "18").unwrap(), "18.18.2");
    assert_eq!(
        resolve_version_from_list(&versions, "18.17").unwrap(),
        "18.17.1"
    );
    assert_eq!(
        resolve_version_from_list(&versions, "21").unwrap_err(),
        VersionError::NoMatchingVersion
    );
    assert_eq!(
        resolve_version_from_list(&versions, "not-a-version").unwrap_err(),
        VersionError::InvalidNumber
    );
}

#[test]
fn test_find_node_version_spec_order() {
    // The nearest non-blank version file wins; blank and missing files
    // are passed over.
    let candidates = vec![
        None,
        Some("   \n".to_owned()),
        Some("v20.11.1\n".to_owned()),
        Some("18".to_owned()),
    ];
    assert_eq!(find_node_version_spec(&candidates).unwrap(), "20.11.1");
    let empty: Vec<Option<String>> = vec![None, Some("  ".to_owned())];
    assert_eq!(find_node_version_spec(&empty), None);
}
