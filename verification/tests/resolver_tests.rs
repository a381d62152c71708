use pydepsync::dependency::Dependency;
use pydepsync::resolver::{compare_versions, parse_versions_on_index, PackageResolver, ResolveStep};

#[test]
fn test_latest_version_numeric_not_lexicographic() {
    let versions = vec![
        "1.2.0".to_string(),
        "1.10.0".to_string(),
        "1.9.5".to_string(),
    ];
    let latest = PackageResolver::get_latest_version_from_version_str(versions);
    assert_eq!(latest, Some("1.10.0".to_string()));
}

#[test]
fn test_latest_version_empty_list() {
    let latest = PackageResolver::get_latest_version_from_version_str(Vec::new());
    assert_eq!(latest, None);
}

#[test]
fn test_latest_version_longer_wins_on_tie() {
    let versions = vec!["1.2".to_string(), "1.2.0".to_string()];
    let latest = PackageResolver::get_latest_version_from_version_str(versions);
    assert_eq!(latest, Some("1.2.0".to_string()));
}

#[test]
fn test_compare_versions_numeric_segments() {
    assert_eq!(compare_versions("1.10.0", "1.9.5"), -1);
    assert_eq!(compare_versions("1.9.5", "1.10.0"), 1);
    assert_eq!(compare_versions("1.2.3", "1.2.3"), 0);
    assert_eq!(compare_versions("010", "9"), -1);
}

#[test]
fn test_parse_versions_on_index() {
    let dep = Dependency::parse("demo").unwrap();
    let html = "<html><body>\
        <a href=\"/packages/demo-1.0.3.tar.gz\">demo-1.0.3.tar.gz</a>\
        <a href=\"/packages/demo-2.0.0b1.tar.gz\">demo-2.0.0b1.tar.gz</a>\
        <a href=\"/packages/demo-1.2.0.tar.gz\">demo-1.2.0.tar.gz</a>\
        <a href=\"/packages/other-9.9.9.tar.gz\">other-9.9.9.tar.gz</a>\
        </body></html>";
    let versions = parse_versions_on_index(&dep, html);
    assert_eq!(versions, vec!["1.0.3".to_string(), "1.2.0".to_string()]);
}

#[test]
fn test_resolver_index_order() {
    let resolver = PackageResolver::new(
        vec!["https://extra.example/simple".to_string()],
        Some("https://first.example/simple".to_string()),
    );
    let dep = Dependency::parse("demo").unwrap();
    match resolver.start_resolve(&dep) {
        ResolveStep::Fetch { pos, url } => {
            assert_eq!(pos, 0);
            assert_eq!(url, "https://first.example/simple/demo");
        },
        _ => panic!("expected a fetch"),
    }
    // A failed fetch moves on to the next index: the default one.
    match resolver.resolve(&dep, 0, None) {
        ResolveStep::Fetch { pos, url } => {
            assert_eq!(pos, 1);
            assert_eq!(url, "https://pypi.org/simple/demo");
        },
        _ => panic!("expected a fetch"),
    }
}

#[test]
fn test_resolve_pins_latest_version() {
    let resolver = PackageResolver::new(Vec::new(), None);
    let dep = Dependency::parse("demo").unwrap();
    let html = "<a href=\"demo-1.2.0.tar.gz\">a</a><a href=\"demo-1.10.0.tar.gz\">b</a>";
    match resolver.resolve(&dep, 0, Some(html)) {
        ResolveStep::Resolved { dep: d } => {
            assert_eq!(d.to_dependency_repr(), "demo~=1.10.0");
        },
        _ => panic!("expected a resolution"),
    }
}

#[test]
fn test_resolve_reads_direct_record() {
    // A response with no listing links but a current-version field.
    let resolver = PackageResolver::new(Vec::new(), None);
    let dep = Dependency::parse("demo").unwrap();
    let body = "{\"info\": {\"name\": \"demo\", \"version\": \"2.1.0\"}}";
    match resolver.resolve(&dep, 0, Some(body)) {
        ResolveStep::Resolved { dep: d } => {
            assert_eq!(d.to_dependency_repr(), "demo~=2.1.0");
        },
        _ => panic!("expected a resolution"),
    }
}

#[test]
fn test_listing_wins_over_record() {
    let resolver = PackageResolver::new(Vec::new(), None);
    let dep = Dependency::parse("demo").unwrap();
    let body = "<a href=\"demo-1.0.0.tar.gz\">x</a> \"version\": \"9.9.9\"";
    match resolver.resolve(&dep, 0, Some(body)) {
        ResolveStep::Resolved { dep: d } => {
            assert_eq!(d.to_dependency_repr(), "demo~=1.0.0");
        },
        _ => panic!("expected a resolution"),
    }
}

#[test]
fn test_resolve_gives_up_after_last_index() {
    let resolver = PackageResolver::new(Vec::new(), None);
    let dep = Dependency::parse("demo[extra]").unwrap();
    match resolver.resolve(&dep, 0, Some("<html><body>no links</body></html>")) {
        ResolveStep::Unresolved { dep: d } => {
            assert_eq!(d.to_dependency_repr(), "demo[extra]");
        },
        _ => panic!("expected the original back"),
    }
}
