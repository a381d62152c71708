use pydepsync::cli::Args;
use pydepsync::config::{merge_args_and_config, Config};
use pydepsync::dependency::Dependency;
use pydepsync::engine::{DetectEngine, DetectEngineError, EngineOptions};
use pydepsync::parser::extract_dependencies;

fn default_args() -> Args {
    Args {
        exclude_dirs: Vec::new(),
        extra_indexes: Vec::new(),
        preferred_index: None,
        remap: Vec::new(),
    }
}

fn default_config() -> Config {
    Config {
        exclude_dirs: None,
        extra_indexes: None,
        preferred_index: None,
        remap: None,
    }
}

fn empty_options() -> EngineOptions {
    EngineOptions {
        exclude_dirs: Vec::new(),
        extra_indexes: Vec::new(),
        preferred_index: None,
        extras_to_remap: Vec::new(),
    }
}

#[test]
fn test_empty_args_and_config() {
    let args = default_args();
    let config = default_config();
    let options = merge_args_and_config(args, config);

    assert_eq!(
        options,
        EngineOptions {
            exclude_dirs: Vec::new(),
            extra_indexes: Vec::new(),
            preferred_index: None,
            extras_to_remap: Vec::new(),
        },
        "Empty args and config should return empty options"
    );
}

#[test]
fn test_args_only() {
    let mut args = default_args();
    args.exclude_dirs = vec!["build".to_string(), "dist".to_string()];
    args.extra_indexes = vec!["https://test.pypi.org/simple/".to_string()];
    args.preferred_index = Some("https://pypi.org/simple/".to_string());
    args.remap = vec![("old".to_string(), "new".to_string())];

    let config = default_config();
    let options = merge_args_and_config(args, config);

    let expected_remap = vec![("old".to_string(), "new".to_string())];

    assert_eq!(
        options,
        EngineOptions {
            exclude_dirs: vec!["build".to_string(), "dist".to_string()],
            extra_indexes: vec!["https://test.pypi.org/simple/".to_string()],
            preferred_index: Some("https://pypi.org/simple/".to_string()),
            extras_to_remap: expected_remap,
        },
        "Args should take precedence when config is empty"
    );
}

#[test]
fn test_config_only() {
    let args = default_args();

    let mut config = default_config();
    config.exclude_dirs = Some(vec![".venv".to_string(), ".git".to_string()]);
    config.extra_indexes = Some(vec!["https://company.pypi.org/simple/".to_string()]);
    config.preferred_index = Some("https://custom.pypi.org/simple/".to_string());
    let remap = vec![(
        "rest_framework".to_string(),
        "djangorestframework".to_string(),
    )];
    config.remap = Some(remap.clone());

    let options = merge_args_and_config(args, config);

    assert_eq!(
        options,
        EngineOptions {
            exclude_dirs: vec![".venv".to_string(), ".git".to_string()],
            extra_indexes: vec!["https://company.pypi.org/simple/".to_string()],
            preferred_index: Some("https://custom.pypi.org/simple/".to_string()),
            extras_to_remap: remap,
        },
        "Config should be used when args are empty"
    );
}

#[test]
fn test_args_override_config() {
    let mut args = default_args();
    args.exclude_dirs = vec!["dist".to_string()];
    args.preferred_index = Some("https://override.pypi.org/simple/".to_string());
    args.remap = vec![("old".to_string(), "new".to_string())];

    let mut config = default_config();
    config.exclude_dirs = Some(vec![".venv".to_string(), ".git".to_string()]);
    config.extra_indexes = Some(vec!["https://company.pypi.org/simple/".to_string()]);
    config.preferred_index = Some("https://custom.pypi.org/simple/".to_string());
    let config_remap = vec![(
        "rest_framework".to_string(),
        "djangorestframework".to_string(),
    )];
    config.remap = Some(config_remap);

    let options = merge_args_and_config(args, config);

    let expected_remap = vec![("old".to_string(), "new".to_string())];

    assert_eq!(
        options,
        EngineOptions {
            exclude_dirs: vec!["dist".to_string()],
            extra_indexes: vec!["https://company.pypi.org/simple/".to_string()],
            preferred_index: Some("https://override.pypi.org/simple/".to_string()),
            extras_to_remap: expected_remap,
        },
        "Args should override config where provided"
    );
}

#[test]
fn test_partial_args_with_config() {
    let mut args = default_args();
    args.extra_indexes = vec!["https://test.pypi.org/simple/".to_string()];

    let mut config = default_config();
    config.exclude_dirs = Some(vec!["build".to_string()]);
    config.preferred_index = Some("https://custom.pypi.org/simple/".to_string());
    let remap = vec![("key".to_string(), "value".to_string())];
    config.remap = Some(remap.clone());

    let options = merge_args_and_config(args, config);

    assert_eq!(
        options,
        EngineOptions {
            exclude_dirs: vec!["build".to_string()],
            extra_indexes: vec!["https://test.pypi.org/simple/".to_string()],
            preferred_index: Some("https://custom.pypi.org/simple/".to_string()),
            extras_to_remap: remap,
        },
        "Args and config should merge correctly when partially provided"
    );
}

#[test]
fn test_finds_both_types_of_imports() {
    let code = r#"
from django import db
import os
def is_odd(i):
  return bool(i & 1)
"#;
    let imports = extract_dependencies(code).unwrap();
    assert_eq!(imports.len(), 2);
    assert!(imports.contains(&String::from("django")));
    assert!(imports.contains(&String::from("os")));
}

#[test]
fn test_extract_rejects_invalid_python() {
    let res = extract_dependencies("def broken(:\n");
    assert_eq!(res.unwrap_err(), DetectEngineError::Parsing);
}

#[test]
fn test_declared_dependencies_not_detected_again() {
    // A manifest declaring Django and djangorestframework, and sources
    // importing django and rest_framework (an irregular), detect
    // nothing new.
    let existing = vec![
        Dependency::parse("Django").unwrap(),
        Dependency::parse("djangorestframework").unwrap(),
    ];
    let engine = DetectEngine::new(existing, empty_options());
    let sources = vec![
        "import django\nfrom rest_framework import serializers\n".to_string(),
    ];
    let deps = engine.evaluate_sources(&sources, &Vec::new()).unwrap();
    assert_eq!(deps.len(), 0);
}

#[test]
fn test_evaluate_sources_detects_new_dependency() {
    let engine = DetectEngine::new(Vec::new(), empty_options());
    let sources = vec![
        "import flask.views\nimport os\n".to_string(),
        "import mymod\n".to_string(),
    ];
    let locals = vec!["mymod".to_string()];
    let deps = engine.evaluate_sources(&sources, &locals).unwrap();
    assert_eq!(deps.len(), 1);
    assert_eq!(deps[0].name(), "flask");
}

#[test]
fn test_evaluate_sources_parse_error_aborts() {
    let engine = DetectEngine::new(Vec::new(), empty_options());
    let sources = vec!["import os\n".to_string(), "not ! python (".to_string()];
    let res = engine.evaluate_sources(&sources, &Vec::new());
    assert_eq!(res.unwrap_err(), DetectEngineError::Parsing);
}

#[test]
fn test_error_messages() {
    assert_eq!(
        DetectEngineError::FileFinding.message(),
        "problem reading packages"
    );
    assert_eq!(
        DetectEngineError::FileReading.message(),
        "problem reading python file"
    );
    assert_eq!(
        DetectEngineError::Parsing.message(),
        "problem parsing python code"
    );
}

#[test]
fn test_remap_parser_accepts_pair() {
    let r = pydepsync::cli::remap_parser("key=value").unwrap();
    assert_eq!(r, ("key".to_string(), "value".to_string()));
}

#[test]
fn test_remap_parser_keeps_later_equals() {
    let r = pydepsync::cli::remap_parser("k=a=b").unwrap();
    assert_eq!(r, ("k".to_string(), "a=b".to_string()));
}

#[test]
fn test_remap_parser_rejects_empty_key() {
    let r = pydepsync::cli::remap_parser("=value");
    assert_eq!(r.unwrap_err(), "Key cannot be empty");
}

#[test]
fn test_remap_parser_rejects_missing_equals() {
    let r = pydepsync::cli::remap_parser("keyvalue");
    assert_eq!(
        r.unwrap_err(),
        "Invalid key-value pair format. Use 'key=value'"
    );
}
