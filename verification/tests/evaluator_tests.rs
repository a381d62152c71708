use pydepsync::dependency::Dependency;
use pydepsync::evaluator::DependencyEvaluator;

#[test]
fn test_excludes_stdlib() {
    let evaluator = DependencyEvaluator::new(Vec::new());
    let candidates = vec!["os".to_string()];
    let res = evaluator.evaluate(candidates, Vec::new(), Vec::new());
    assert_eq!(res.len(), 0);
}

#[test]
fn test_excludes_local_package() {
    let evaluator = DependencyEvaluator::new(Vec::new());
    let candidates = vec!["mymod".to_string()];
    let res = evaluator.evaluate(candidates, Vec::new(), vec!["mymod".to_string()]);
    assert_eq!(res.len(), 0);
}

#[test]
fn test_excludes_existing_packages() {
    let evaluator = DependencyEvaluator::new(Vec::new());
    let candidates = vec!["django".to_string()];
    let res = evaluator.evaluate(
        candidates,
        vec![Dependency::parse("Django").unwrap()],
        Vec::new(),
    );
    assert_eq!(res.len(), 0);
}

#[test]
fn test_remaps_irregular() {
    let evaluator = DependencyEvaluator::new(Vec::new());
    let candidates = vec!["AFQ".to_string()];
    let res = evaluator.evaluate(candidates, Vec::new(), Vec::new());
    assert_eq!(res.len(), 1);
    assert!(res.contains(&Dependency::parse("pyAFQ").unwrap()));
}

#[test]
fn test_remaps_extra_irregulars() {
    let evaluator = DependencyEvaluator::new(vec![(
        "thingtoremap".to_string(),
        "ThingToRemap".to_string(),
    )]);
    let candidates = vec!["thingtoremap".to_string()];
    let res = evaluator.evaluate(candidates, Vec::new(), Vec::new());
    assert_eq!(res.len(), 1);
    assert!(res.contains(&Dependency::parse("ThingToRemap").unwrap()));
}

#[test]
fn test_stdlib_excluded_before_remap() {
    // A stdlib module stays excluded even when the remap table knows it.
    let evaluator = DependencyEvaluator::new(vec![(
        "os".to_string(),
        "not-actually-os".to_string(),
    )]);
    let candidates = vec!["os".to_string()];
    let res = evaluator.evaluate(candidates, Vec::new(), Vec::new());
    assert_eq!(res.len(), 0);
}

#[test]
fn test_override_precedes_builtin() {
    // The built-in table maps AFQ to pyAFQ; a caller override wins.
    let evaluator = DependencyEvaluator::new(vec![(
        "AFQ".to_string(),
        "customAFQ".to_string(),
    )]);
    let res = evaluator.evaluate(vec!["AFQ".to_string()], Vec::new(), Vec::new());
    assert_eq!(res.len(), 1);
    assert!(res.contains(&Dependency::parse("customAFQ").unwrap()));
}

#[test]
fn test_remap_matches_existing_after_remapping() {
    // Remapping runs before the already-declared filter: the remapped
    // name matches the declared dependency and is dropped.
    let evaluator = DependencyEvaluator::new(Vec::new());
    let res = evaluator.evaluate(
        vec!["rest_framework".to_string()],
        vec![Dependency::parse("djangorestframework").unwrap()],
        Vec::new(),
    );
    assert_eq!(res.len(), 0);
}

#[test]
fn test_dedups_by_identity() {
    let evaluator = DependencyEvaluator::new(Vec::new());
    let res = evaluator.evaluate(
        vec!["Requests".to_string(), "requests".to_string()],
        Vec::new(),
        Vec::new(),
    );
    assert_eq!(res.len(), 1);
    assert_eq!(res[0].name(), "Requests");
}
