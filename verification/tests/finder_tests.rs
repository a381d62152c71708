use pydepsync::finder::{local_package_names, stem_of, PythonFileFinder};

#[test]
fn test_python_file_finder() {
    let root = tempfile::tempdir().unwrap();
    let kept = tempfile::Builder::new()
        .suffix(".py")
        .tempfile_in(root.path())
        .unwrap();
    let excluded = tempfile::Builder::new()
        .prefix("envdir")
        .tempdir_in(root.path())
        .unwrap();
    let skipped = tempfile::Builder::new()
        .suffix(".py")
        .tempfile_in(excluded.path())
        .unwrap();
    let excluded_name = excluded
        .path()
        .file_name()
        .unwrap()
        .to_str()
        .unwrap()
        .to_string();

    let finder = PythonFileFinder::new().exclude_dirs(vec![excluded_name]);
    let files = finder
        .find_files(root.path().to_str().unwrap())
        .unwrap();
    assert_eq!(files.len(), 1);
    assert!(files[0].ends_with(".py"));
    assert!(files[0].contains(kept.path().file_name().unwrap().to_str().unwrap()));
    drop(skipped);
}

#[test]
fn test_find_local_packages_includes_directories() {
    let root = tempfile::tempdir().unwrap();
    let subdir = tempfile::Builder::new()
        .prefix("pkgdir")
        .tempdir_in(root.path())
        .unwrap();
    let finder = PythonFileFinder::new();
    let paths = finder
        .find_local_packages(root.path().to_str().unwrap())
        .unwrap();
    // The root itself and the directory inside it are both present.
    assert_eq!(paths.len(), 2);
    let names = local_package_names(&paths);
    let subname = subdir.path().file_name().unwrap().to_str().unwrap();
    assert!(names.iter().any(|n| n == subname));
}

#[test]
fn test_stem_of() {
    assert_eq!(stem_of("/a/b/module.py"), "module");
    assert_eq!(stem_of("pkg"), "pkg");
    assert_eq!(stem_of("/x/archive.tar.gz"), "archive.tar");
    assert_eq!(stem_of("/x/.hidden"), ".hidden");
}
