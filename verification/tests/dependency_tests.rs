use pydepsync::dependency::Dependency;

#[test]
fn test_can_parse_versionless() {
    let candidate = "Django";
    let res = Dependency::parse(candidate).unwrap();
    assert_eq!(res.name(), "Django");
}

#[test]
fn test_can_parse_versioned() {
    let candidate = "Django~=3.2";
    let res = Dependency::parse(candidate).unwrap();
    assert_eq!(res.name(), "Django");
    assert_eq!(res.version_spec(), &Some(("~=".into(), "3.2".into())));
}

#[test]
fn test_can_parse_extras() {
    let candidate = "Django[mysql,redis]";
    let res = Dependency::parse(candidate).unwrap();
    assert_eq!(res.name(), "Django");
    assert!(res.extras().contains(&"mysql".to_string()));
    assert!(res.extras().contains(&"redis".to_string()));
}

#[test]
fn test_can_parse_markers() {
    let candidate = "pandas; platform_system != 'Windows'";
    let res = Dependency::parse(candidate).unwrap();
    assert_eq!(res.name(), "pandas");
    assert_eq!(res.markers(), &Some("platform_system != 'Windows'".into()));
}

#[test]
fn test_can_parse_full_declaration() {
    let candidate = "pandas[excel,postgres]>=1.3.0; platform_system != 'Windows'";
    let res = Dependency::parse(candidate).unwrap();
    assert_eq!(res.name(), "pandas");
    assert!(res.extras().contains(&"excel".to_string()));
    assert!(res.extras().contains(&"postgres".to_string()));
    assert_eq!(res.version_spec(), &Some((">=".into(), "1.3.0".into())));
    assert_eq!(res.markers(), &Some("platform_system != 'Windows'".into()));
}

#[test]
fn test_display() {
    let candidate = "pandas[excel,postgres]>=1.3.0; platform_system != 'Windows'";
    let dep = Dependency::parse(candidate).unwrap();
    assert_eq!(dep.to_dependency_repr(), candidate);
}

#[test]
fn test_round_trip_sorted_extras() {
    for candidate in [
        "Django",
        "Django[mysql,redis]",
        "Django~=3.2",
        "pkg===1.0.0",
        "x^2",
        "pandas[excel,postgres]>=1.3.0; platform_system != 'Windows'",
    ] {
        let dep = Dependency::parse(candidate).unwrap();
        assert_eq!(dep.to_dependency_repr(), candidate);
    }
}

#[test]
fn test_repr_sorts_extras() {
    let dep = Dependency::parse("Django[redis,mysql]").unwrap();
    assert_eq!(dep.to_dependency_repr(), "Django[mysql,redis]");
}

#[test]
fn test_repr_dedups_extras() {
    let dep = Dependency::parse("Django[redis, redis]").unwrap();
    assert_eq!(dep.to_dependency_repr(), "Django[redis]");
}

#[test]
fn test_equality_ignores_case() {
    let a = Dependency::parse("Django").unwrap();
    let b = Dependency::parse("django~=3.2").unwrap();
    assert!(a == b);
}

#[test]
fn test_equality_differs_on_name() {
    let a = Dependency::parse("Django").unwrap();
    let b = Dependency::parse("pandas").unwrap();
    assert!(a != b);
}

#[test]
fn test_parse_rejects_leading_garbage() {
    assert!(Dependency::parse("[extra]").is_none());
    assert!(Dependency::parse("").is_none());
    assert!(Dependency::parse(";marker").is_none());
}

#[test]
fn test_parse_trims_extras_and_marker() {
    let res = Dependency::parse("pkg[ a , b ] ;  marker  ").unwrap();
    assert!(res.extras().contains(&"a".to_string()));
    assert!(res.extras().contains(&"b".to_string()));
    assert_eq!(res.markers(), &Some("marker".into()));
}

#[test]
fn test_parse_version_with_spaces() {
    let res = Dependency::parse("pkg >= 1.3").unwrap();
    assert_eq!(res.version_spec(), &Some((">=".into(), "1.3".into())));
}

#[test]
fn test_pinned() {
    let dep = Dependency::parse("Django[extra]; os_name == 'posix'").unwrap();
    let pinned = dep.pinned("4.2.1".to_string());
    assert_eq!(pinned.to_dependency_repr(), "Django~=4.2.1");
    let unpinned = dep.pinned(String::new());
    assert_eq!(unpinned.to_dependency_repr(), "Django");
}
