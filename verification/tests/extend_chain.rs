use makerz::directive_parser::{parse_loaded, ParseMakefileError, ParsedMakefile};
use makerz::extend_chain::{ChainError, ChainWalk};
use makerz::location::MakefileLocation;
use makerz::path::PathBytes;

fn parse_at(dir: &str, content: &str) -> ParsedMakefile {
    parse_loaded(
        MakefileLocation::new(PathBytes::from_str(dir)),
        Ok(content.to_string()),
    )
    .unwrap()
}

fn canonical(dir: &str) -> PathBytes {
    PathBytes::from_str(&format!("{dir}/Makefile.toml"))
}

#[test]
fn single_makefile_no_extend_returns_self() {
    let mut walk = ChainWalk::start(MakefileLocation::new(PathBytes::from_str("/t")));
    let step = walk.visit(parse_at("/t", "[env]\nFOO = \"x\"\n"), canonical("/t")).unwrap();
    assert!(step.is_none());
    let chain = walk.into_chain();
    assert_eq!(chain.len(), 1);
    assert_eq!(chain[0].env().plain_keys(), &["FOO"]);
}

#[test]
fn two_level_chain_orders_ancestor_then_leaf() {
    let mut walk = ChainWalk::start(MakefileLocation::new(PathBytes::from_str("/t/child")));
    let child = parse_at(
        "/t/child",
        "extend = \"../parent/Makefile.toml\"\n[env]\nC = \"c\"\n",
    );
    let step = walk.visit(child, canonical("/t/child")).unwrap().unwrap();
    assert_eq!(step.target, PathBytes::from_str("/t/child/../parent/Makefile.toml"));
    assert_eq!(step.from, PathBytes::from_str("/t/child/Makefile.toml"));
    walk.advance(PathBytes::from_str("/t/parent"));
    assert_eq!(walk.current().dir(), &PathBytes::from_str("/t/parent"));
    let step = walk.visit(parse_at("/t/parent", "[env]\nP = \"p\"\n"), canonical("/t/parent")).unwrap();
    assert!(step.is_none());

    let chain = walk.into_chain();

    assert_eq!(chain.len(), 2);
    assert_eq!(chain[0].env().plain_keys(), &["P"]);
    assert_eq!(chain[1].env().plain_keys(), &["C"]);
}

#[test]
fn three_level_chain_orders_root_first() {
    let mut walk = ChainWalk::start(MakefileLocation::new(PathBytes::from_str("/t/c")));
    let c = parse_at("/t/c", "extend = \"../p/Makefile.toml\"\n[env]\nC = \"c\"\n");
    assert!(walk.visit(c, canonical("/t/c")).unwrap().is_some());
    walk.advance(PathBytes::from_str("/t/p"));
    let p = parse_at("/t/p", "extend = \"../gp/Makefile.toml\"\n[env]\nP = \"p\"\n");
    assert!(walk.visit(p, canonical("/t/p")).unwrap().is_some());
    walk.advance(PathBytes::from_str("/t/gp"));
    let gp = parse_at("/t/gp", "[env]\nGP = \"gp\"\n");
    assert!(walk.visit(gp, canonical("/t/gp")).unwrap().is_none());

    let chain = walk.into_chain();

    assert_eq!(chain.len(), 3);
    assert_eq!(chain[0].env().plain_keys(), &["GP"]);
    assert_eq!(chain[1].env().plain_keys(), &["P"]);
    assert_eq!(chain[2].env().plain_keys(), &["C"]);
}

#[test]
fn cycle_between_two_makefiles_is_detected() {
    let mut walk = ChainWalk::start(MakefileLocation::new(PathBytes::from_str("/t/a")));
    let a = parse_at("/t/a", "extend = \"../b/Makefile.toml\"\n");
    assert!(walk.visit(a, canonical("/t/a")).unwrap().is_some());
    walk.advance(PathBytes::from_str("/t/b"));
    let b = parse_at("/t/b", "extend = \"../a/Makefile.toml\"\n");
    assert!(walk.visit(b, canonical("/t/b")).unwrap().is_some());
    walk.advance(PathBytes::from_str("/t/a"));
    let a_again = parse_at("/t/a", "extend = \"../b/Makefile.toml\"\n");

    let err = walk.visit(a_again, canonical("/t/a")).unwrap_err();

    let ChainError::Cycle { cycle_at } = err else {
        panic!("expected Cycle, got {err:?}");
    };
    assert!(cycle_at.as_bytes().ends_with(b"a/Makefile.toml"), "cycle_at = {cycle_at:?}");
}

#[test]
fn self_extend_is_cycle() {
    let mut walk = ChainWalk::start(MakefileLocation::new(PathBytes::from_str("/t/a")));
    let a = parse_at("/t/a", "extend = \"./Makefile.toml\"\n");
    let step = walk.visit(a, canonical("/t/a")).unwrap().unwrap();
    assert_eq!(step.target, PathBytes::from_str("/t/a/./Makefile.toml"));
    walk.advance(PathBytes::from_str("/t/a"));
    let a_again = parse_at("/t/a", "extend = \"./Makefile.toml\"\n");

    let err = walk.visit(a_again, canonical("/t/a")).unwrap_err();

    assert!(matches!(err, ChainError::Cycle { .. }), "got {err:?}");
}

#[test]
fn cycle_leaves_the_walk_unchanged() {
    let mut walk = ChainWalk::start(MakefileLocation::new(PathBytes::from_str("/t/a")));
    let a = parse_at("/t/a", "extend = \"/t/a/Makefile.toml\"\n");
    let step = walk.visit(a, canonical("/t/a")).unwrap().unwrap();
    assert_eq!(step.target, PathBytes::from_str("/t/a/Makefile.toml"));
    assert!(walk.visit(parse_at("/t/a", ""), canonical("/t/a")).is_err());
    assert_eq!(walk.into_chain().len(), 1);
}

#[test]
fn multi_parent_in_chain_propagates_as_parse_error() {
    let walk = ChainWalk::start(MakefileLocation::new(PathBytes::from_str("/t/c")));

    let err = walk.load(Ok("extend = [\"../p/Makefile.toml\"]\n".to_string())).unwrap_err();

    assert!(
        matches!(
            err,
            ChainError::Parse {
                source: ParseMakefileError::ExtendMultiParent,
                ..
            }
        ),
        "got {err:?}"
    );
}

#[test]
fn relative_attribute_in_chain_propagates() {
    let walk = ChainWalk::start(MakefileLocation::new(PathBytes::from_str("/t/c")));

    let err = walk
        .load(Ok("extend = { path = \"../p/Makefile.toml\", relative = \"git\" }\n".to_string()))
        .unwrap_err();

    assert!(
        matches!(
            err,
            ChainError::Parse {
                source: ParseMakefileError::ExtendRelative { .. },
                ..
            }
        ),
        "got {err:?}"
    );
}

#[test]
fn optional_attribute_in_chain_propagates() {
    let walk = ChainWalk::start(MakefileLocation::new(PathBytes::from_str("/t/c")));

    let err = walk
        .load(Ok("extend = { path = \"../p/Makefile.toml\", optional = true }\n".to_string()))
        .unwrap_err();

    assert!(
        matches!(
            err,
            ChainError::Parse {
                source: ParseMakefileError::ExtendOptional,
                ..
            }
        ),
        "got {err:?}"
    );
}

#[test]
fn ancestor_parse_error_propagates() {
    let mut walk = ChainWalk::start(MakefileLocation::new(PathBytes::from_str("/t/c")));
    let c = walk.load(Ok("extend = \"../p/Makefile.toml\"\n".to_string())).unwrap();
    assert!(walk.visit(c, canonical("/t/c")).unwrap().is_some());
    walk.advance(PathBytes::from_str("/t/p"));

    let err = walk.load(Ok("this is = = not toml\n".to_string())).unwrap_err();

    assert!(
        matches!(
            err,
            ChainError::Parse {
                source: ParseMakefileError::TomlParse(_),
                ..
            }
        ),
        "got {err:?}"
    );
    let ChainError::Parse { location, .. } = err else { unreachable!() };
    assert_eq!(location.dir(), &PathBytes::from_str("/t/p"));
}

#[test]
fn load_reports_a_read_failure_at_the_current_makefile() {
    let walk = ChainWalk::start(MakefileLocation::new(PathBytes::from_str("/t/c")));
    let missing = std::io::Error::new(std::io::ErrorKind::NotFound, "gone");

    let err = walk.load(Err(missing)).unwrap_err();

    let ChainError::Parse { source: ParseMakefileError::Read { path, .. }, .. } = err else {
        panic!("got {err:?}");
    };
    assert_eq!(path, PathBytes::from_str("/t/c/Makefile.toml"));
}
