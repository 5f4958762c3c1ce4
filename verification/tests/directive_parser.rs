use makerz::directive_parser::{parse_content, parse_loaded, ParseMakefileError, ParsedMakefile};
use makerz::location::MakefileLocation;
use makerz::path::PathBytes;

fn parse_text(content: &str) -> Result<ParsedMakefile, ParseMakefileError> {
    parse_loaded(
        MakefileLocation::new(PathBytes::from_str("/project")),
        Ok(content.to_string()),
    )
}

#[test]
fn invalid_toml_returns_toml_parse_error() {
    let err = parse_text("this is = = not toml").unwrap_err();
    assert!(
        matches!(err, ParseMakefileError::TomlParse { .. }),
        "got {err:?}"
    );
}

#[test]
fn no_extend_returns_none() {
    let parsed = parse_text("[env]\n").unwrap();
    assert_eq!(parsed.extend(), None);
}

#[test]
fn string_extend_returns_some() {
    let parsed = parse_text("extend = \"../parent/Makefile.toml\"\n").unwrap();
    assert_eq!(parsed.extend(), Some("../parent/Makefile.toml"));
}

#[test]
fn array_extend_is_error() {
    let err = parse_text("extend = [\"a\", \"b\"]\n").unwrap_err();
    assert!(
        matches!(err, ParseMakefileError::ExtendNotString { .. }),
        "got {err:?}"
    );
}

#[test]
fn table_extend_is_error() {
    let err = parse_text("extend = { path = \"../p/Makefile.toml\" }\n").unwrap_err();
    assert!(
        matches!(err, ParseMakefileError::ExtendNotString { .. }),
        "got {err:?}"
    );
}

#[test]
fn empty_file_has_empty_env() {
    let parsed = parse_text("").unwrap();
    assert!(parsed.env().plain_keys().is_empty());
    assert!(parsed.env().file().is_none());
    assert!(parsed.env().caller().is_none());
    assert!(parsed.env().inherit().is_empty());
}

#[test]
fn env_keys_collected_in_order_as_plain() {
    let parsed = parse_text("[env]\nFOO = \"a\"\nBAR = \"b\"\nBAZ = \"c\"\n").unwrap();
    assert_eq!(parsed.env().plain_keys(), &["FOO", "BAR", "BAZ"]);
}

#[test]
fn no_env_section_means_empty_env() {
    let parsed = parse_text("[tasks.default]\nscript = \"echo hi\"\n").unwrap();
    assert!(parsed.env().plain_keys().is_empty());
}

#[test]
fn extend_kind_labels_name_the_item_type() {
    let kind = |content: &str| match parse_text(content).unwrap_err() {
        ParseMakefileError::ExtendNotString { kind } => kind,
        other => panic!("got {other:?}"),
    };
    assert_eq!(kind("extend = [\"a\", \"b\"]\n"), "array");
    assert_eq!(kind("extend = []\n"), "array");
    assert_eq!(kind("extend = { path = \"p\" }\n"), "inline-table");
    assert_eq!(kind("extend = 3\n"), "integer");
    assert_eq!(kind("extend = 1.5\n"), "float");
    assert_eq!(kind("extend = true\n"), "boolean");
    assert_eq!(kind("extend = 1979-05-27\n"), "datetime");
    assert_eq!(kind("[extend]\na = 1\n"), "table");
    assert_eq!(kind("[[extend]]\na = 1\n"), "array-of-tables");
}

#[test]
fn caller_directive_binds_next_key() {
    let parsed = parse_text("[env]\n# @makerz = \"caller\"\nCALLER_DIR = \".\"\nOTHER = \"x\"\n").unwrap();
    let caller = parsed.env().caller().expect("caller binding");
    assert_eq!(caller.name(), "CALLER_DIR");
    assert_eq!(caller.fallback(), ".");
    assert_eq!(parsed.env().plain_keys(), &["OTHER"]);
}

#[test]
fn blank_lines_and_comments_between_directive_and_key_are_allowed() {
    let parsed = parse_text(
        "[env]\n  #   @makerz=\"caller\"   # trailing comment\n\n# unrelated\n   \nHERE = \"x\"\n",
    )
    .unwrap();
    assert_eq!(parsed.env().caller().unwrap().name(), "HERE");
    assert!(parsed.env().plain_keys().is_empty());
}

#[test]
fn file_and_inherit_directives_are_recorded() {
    let parsed = parse_text(
        "[env]\n# @makerz = \"file\"\nDIR = \"a\"\n# @makerz = \"inherit\"\nI1 = \"b\"\n# @makerz = \"inherit\"\nI2 = \"c\"\n",
    )
    .unwrap();
    assert_eq!(parsed.env().file().unwrap().name(), "DIR");
    assert_eq!(parsed.env().file().unwrap().fallback(), "a");
    let inherit = parsed.env().inherit();
    assert_eq!(inherit.len(), 2);
    assert_eq!(inherit[0].name(), "I1");
    assert_eq!(inherit[1].fallback(), "c");
}

#[test]
fn directive_before_any_section_is_outside_env() {
    let err = parse_text("# @makerz = \"caller\"\n[env]\nX = \"a\"\n").unwrap_err();
    assert!(
        matches!(err, ParseMakefileError::DirectiveOutsideEnv { ref value } if value == "caller"),
        "got {err:?}"
    );
}

#[test]
fn directive_in_other_section_is_outside_env() {
    let err = parse_text("[config]\n# @makerz = \"file\"\nX = 1\n").unwrap_err();
    assert!(matches!(err, ParseMakefileError::DirectiveOutsideEnv { .. }), "got {err:?}");
}

#[test]
fn directive_followed_by_section_is_unbound() {
    let err = parse_text("[env]\n# @makerz = \"caller\"\n[tasks.x]\nscript = \"y\"\n").unwrap_err();
    assert!(
        matches!(err, ParseMakefileError::DirectiveUnbound { ref value } if value == "caller"),
        "got {err:?}"
    );
}

#[test]
fn directive_at_end_of_file_is_unbound() {
    let err = parse_text("[env]\nA = \"a\"\n# @makerz = \"file\"\n").unwrap_err();
    assert!(
        matches!(err, ParseMakefileError::DirectiveUnbound { ref value } if value == "file"),
        "got {err:?}"
    );
}

#[test]
fn two_directives_on_one_key_are_refused() {
    let err = parse_text("[env]\n# @makerz = \"file\"\n# @makerz = \"caller\"\nX = \".\"\n").unwrap_err();
    assert!(
        matches!(err, ParseMakefileError::DirectiveOnSameVar { ref name } if name == "X"),
        "got {err:?}"
    );
}

#[test]
fn second_caller_directive_is_refused() {
    let err = parse_text(
        "[env]\n# @makerz = \"caller\"\nA = \".\"\n# @makerz = \"caller\"\nB = \".\"\n",
    )
    .unwrap_err();
    assert!(
        matches!(err, ParseMakefileError::DuplicateCaller { ref previous, ref new } if previous == "A" && new == "B"),
        "got {err:?}"
    );
}

#[test]
fn second_file_directive_is_refused() {
    let err = parse_text(
        "[env]\n# @makerz = \"file\"\nA = \".\"\n# @makerz = \"file\"\nB = \".\"\n",
    )
    .unwrap_err();
    assert!(
        matches!(err, ParseMakefileError::DuplicateFile { ref previous, ref new } if previous == "A" && new == "B"),
        "got {err:?}"
    );
}

#[test]
fn unknown_directive_value_is_refused() {
    let err = parse_text("[env]\n# @makerz = \"bogus\"\nX = \".\"\n").unwrap_err();
    assert!(
        matches!(err, ParseMakefileError::DirectiveUnknownValue { ref value } if value == "bogus"),
        "got {err:?}"
    );
}

#[test]
fn non_string_fallback_is_refused() {
    let err = parse_text("[env]\n# @makerz = \"caller\"\nX = 1\n").unwrap_err();
    assert!(
        matches!(err, ParseMakefileError::FallbackNotString { ref name } if name == "X"),
        "got {err:?}"
    );
}

#[test]
fn malformed_directive_is_refused() {
    let err = parse_text("[env]\n# @makerz caller\nX = \".\"\n").unwrap_err();
    assert!(
        matches!(err, ParseMakefileError::DirectiveMalformed { ref line } if line == "# @makerz caller"),
        "got {err:?}"
    );
    let err = parse_text("[env]\n# @makerz = \"caller\" trailing\nX = \".\"\n").unwrap_err();
    assert!(matches!(err, ParseMakefileError::DirectiveMalformed { .. }), "got {err:?}");
}

#[test]
fn marker_must_end_its_token() {
    let parsed = parse_text("[env]\n# @makerzfoo = \"caller\"\nX = \".\"\n").unwrap();
    assert!(parsed.env().caller().is_none());
    assert_eq!(parsed.env().plain_keys(), &["X"]);
}

#[test]
fn crlf_line_endings_are_accepted() {
    let parsed = parse_text("[env]\r\n# @makerz = \"caller\"\r\nC = \".\"\r\nD = \"d\"\r\n").unwrap();
    assert_eq!(parsed.env().caller().unwrap().name(), "C");
    assert_eq!(parsed.env().plain_keys(), &["D"]);
}

#[test]
fn read_failure_reports_the_makefile_path() {
    let err = parse_loaded(
        MakefileLocation::new(PathBytes::from_str("/project")),
        Err(std::io::Error::other("gone")),
    )
    .unwrap_err();
    assert!(
        matches!(err, ParseMakefileError::Read { ref path, .. } if path.as_bytes() == b"/project/Makefile.toml"),
        "got {err:?}"
    );
}

#[test]
fn parse_content_returns_env_and_extend() {
    let (env, extend) = parse_content("extend = \"p\"\n[env]\nK = \"v\"\n").unwrap();
    assert_eq!(extend.as_deref(), Some("p"));
    assert_eq!(env.plain_keys(), &["K"]);
}

#[test]
fn location_is_kept() {
    let parsed = parse_text("").unwrap();
    assert_eq!(parsed.location().dir().as_bytes(), b"/project");
}

#[test]
fn single_element_extend_array_is_multi_parent() {
    let err = parse_text("extend = [\"../p/Makefile.toml\"]\n").unwrap_err();
    assert!(matches!(err, ParseMakefileError::ExtendMultiParent), "got {err:?}");
}

#[test]
fn relative_extend_attribute_is_reported_with_its_value() {
    let err = parse_text("extend = { path = \"../p/Makefile.toml\", relative = \"git\" }\n")
        .unwrap_err();
    assert!(
        matches!(err, ParseMakefileError::ExtendRelative { value: Some(ref v) } if v == "git"),
        "got {err:?}"
    );
    let err = parse_text("extend = { path = \"p\", relative = 1 }\n").unwrap_err();
    assert!(matches!(err, ParseMakefileError::ExtendRelative { value: None }), "got {err:?}");
}

#[test]
fn optional_extend_attribute_is_refused() {
    let err = parse_text("extend = { path = \"../p/Makefile.toml\", optional = true }\n").unwrap_err();
    assert!(matches!(err, ParseMakefileError::ExtendOptional), "got {err:?}");
}

#[test]
fn relative_is_reported_before_optional() {
    let err = parse_text("extend = { path = \"p\", optional = true, relative = \"crate\" }\n")
        .unwrap_err();
    assert!(matches!(err, ParseMakefileError::ExtendRelative { .. }), "got {err:?}");
}

#[test]
fn env_key_lines_are_split_between_plain_and_bound() {
    let content = "[env]\n# @makerz = \"caller\"\nCALLER = \".\"\nA = \"a\"\n# @makerz = \"inherit\"\nI = \"i\"\nB = \"b\"\n[tasks.x]\nC = 1\n";
    let (env, _) = parse_content(content).unwrap();
    assert_eq!(env.plain_keys(), &["A", "B"]);
    assert_eq!(env.caller().unwrap().name(), "CALLER");
    assert_eq!(env.inherit().len(), 1);
    assert_eq!(env.inherit()[0].name(), "I");
    assert!(env.file().is_none());
}
