use makerz::discovery::{find_makefile, DiscoveryError};
use makerz::location::{Ancestor, FindError, MakefileLocation};
use makerz::path::PathBytes;

fn walk(dirs: &[(&str, bool)]) -> Vec<Ancestor> {
    dirs.iter()
        .map(|(dir, has_makefile)| Ancestor {
            dir: PathBytes::from_str(dir),
            has_makefile: *has_makefile,
        })
        .collect()
}

#[test]
fn finds_makefile_in_start_dir() {
    let start = PathBytes::from_str("/tmp/x");
    let found = find_makefile(&start, &walk(&[("/tmp/x", true), ("/tmp", false), ("/", false)])).unwrap();
    assert_eq!(found.file(), PathBytes::from_str("/tmp/x/Makefile.toml"));
}

#[test]
fn finds_makefile_in_parent_dir() {
    let start = PathBytes::from_str("/tmp/x/a/b");
    let found = find_makefile(
        &start,
        &walk(&[("/tmp/x/a/b", false), ("/tmp/x/a", false), ("/tmp/x", true), ("/tmp", false), ("/", false)]),
    )
    .unwrap();
    assert_eq!(found.file(), PathBytes::from_str("/tmp/x/Makefile.toml"));
}

#[test]
fn returns_not_found_when_no_makefile_in_ancestors() {
    let start = PathBytes::from_str("/tmp/x");
    let err = find_makefile(&start, &walk(&[("/tmp/x", false), ("/tmp", false), ("/", false)])).unwrap_err();
    assert!(matches!(err, DiscoveryError::NotFound { ref start } if start == &PathBytes::from_str("/tmp/x")));
}

#[test]
fn picks_nearest_ancestor_when_multiple_exist() {
    let start = PathBytes::from_str("/tmp/x/inner/leaf");
    let found = find_makefile(
        &start,
        &walk(&[("/tmp/x/inner/leaf", false), ("/tmp/x/inner", true), ("/tmp/x", true), ("/", false)]),
    )
    .unwrap();
    assert_eq!(found.file(), PathBytes::from_str("/tmp/x/inner/Makefile.toml"));
}

#[test]
fn ignores_directory_named_makefile_toml() {
    let start = PathBytes::from_str("/tmp/x/sub");
    let found = find_makefile(&start, &walk(&[("/tmp/x/sub", false), ("/tmp/x", true)])).unwrap();
    assert_eq!(found.file(), PathBytes::from_str("/tmp/x/Makefile.toml"));
}

#[test]
fn location_find_picks_nearest_and_names_the_file() {
    let start = PathBytes::from_str("/a/b");
    let loc = MakefileLocation::find(&start, &walk(&[("/a/b", false), ("/a", true), ("/", true)])).unwrap();
    assert_eq!(loc.dir(), &PathBytes::from_str("/a"));
    assert_eq!(loc.file(), PathBytes::from_str("/a/Makefile.toml"));
    let root = MakefileLocation::new(PathBytes::from_str("/"));
    assert_eq!(root.file(), PathBytes::from_str("/Makefile.toml"));
}

#[test]
fn location_find_reports_start_when_nothing_found() {
    let start = PathBytes::from_str("/a/b");
    let err = MakefileLocation::find(&start, &walk(&[])).unwrap_err();
    assert!(matches!(err, FindError::NotFound { ref start } if start.as_bytes() == b"/a/b"));
}
