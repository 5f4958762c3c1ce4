use makerz::caller::{caller_fallback_path, resolve_caller_env, CallerError};
use makerz::directive_parser::{parse_loaded, ParsedMakefile};
use makerz::location::MakefileLocation;
use makerz::path::PathBytes;

fn parse_at(dir: &str, content: &str) -> ParsedMakefile {
    parse_loaded(
        MakefileLocation::new(PathBytes::from_str(dir)),
        Ok(content.to_string()),
    )
    .unwrap()
}

#[test]
fn no_caller_directive_returns_none() {
    let parsed = parse_at("/tmp/t", "[env]\nFOO = \"x\"\n");
    let caller_cwd = PathBytes::from_str("/whatever");
    assert!(caller_fallback_path(&parsed).is_none());
    assert!(resolve_caller_env(&parsed, true, Ok(caller_cwd)).unwrap().is_none());
}

#[test]
fn caller_directive_emits_env_entry() {
    let parsed = parse_at("/tmp/t", "[env]\n# @makerz = \"caller\"\nCALLER_DIR = \".\"\n");
    let caller_cwd = PathBytes::from_str("/tmp/t/sub");
    let entry = resolve_caller_env(&parsed, true, Ok(caller_cwd)).unwrap().unwrap();
    assert_eq!(entry.key(), "CALLER_DIR");
    assert_eq!(entry.value(), b"/tmp/t/sub");
}

#[test]
fn missing_fallback_path_is_error() {
    let parsed = parse_at(
        "/tmp/t",
        "[env]\n# @makerz = \"caller\"\nCALLER_DIR = \"does/not/exist\"\n",
    );
    let expected_missing = PathBytes::from_str("/tmp/t/does/not/exist");
    assert_eq!(caller_fallback_path(&parsed), Some(expected_missing.clone()));
    let err = resolve_caller_env(&parsed, false, Ok(PathBytes::from_str("/tmp/t"))).unwrap_err();
    assert!(
        matches!(
            err,
            CallerError::FallbackPathMissing { ref path } if path == &expected_missing
        ),
        "got {err:?}"
    );
}

#[test]
fn file_directive_alongside_caller_is_silently_ignored() {
    let parsed = parse_at(
        "/tmp/t",
        "[config]\nskip_core_tasks = true\n\n\
         [env]\n# @makerz = \"file\"\nDEMO_DIR = \".\"\n\
         # @makerz = \"caller\"\nCALLER_DIR = \".\"\n\n\
         [tasks.default]\ncwd = \"${DEMO_DIR}\"\nscript = \"echo ${CALLER_DIR}\"\n",
    );
    let caller_cwd = PathBytes::from_str("/tmp/t/from-here");
    let entry = resolve_caller_env(&parsed, true, Ok(caller_cwd)).unwrap().unwrap();
    assert_eq!(entry.key(), "CALLER_DIR");
    assert_eq!(entry.value(), b"/tmp/t/from-here");
}

#[test]
fn relative_fallback_resolves_against_makefile_dir() {
    let parsed = parse_at("/tmp/t", "[env]\n# @makerz = \"caller\"\nCALLER_DIR = \"nested\"\n");
    assert_eq!(
        caller_fallback_path(&parsed),
        Some(PathBytes::from_str("/tmp/t/nested"))
    );
    let caller_cwd = PathBytes::from_str("/tmp/t/nested");
    let entry = resolve_caller_env(&parsed, true, Ok(caller_cwd)).unwrap().unwrap();
    assert_eq!(entry.key(), "CALLER_DIR");
    assert_eq!(entry.value(), b"/tmp/t/nested");
}

#[test]
fn user_chosen_var_name_is_emitted_as_is() {
    let parsed = parse_at("/tmp/t", "[env]\n# @makerz = \"caller\"\nMY_CWD = \".\"\n");
    let caller_cwd = PathBytes::from_str("/tmp/t/from-here");
    let entry = resolve_caller_env(&parsed, true, Ok(caller_cwd)).unwrap().unwrap();
    assert_eq!(entry.key(), "MY_CWD");
    assert_eq!(entry.value(), b"/tmp/t/from-here");
}

#[test]
fn absolute_fallback_replaces_makefile_dir() {
    let parsed = parse_at("/tmp/t", "[env]\n# @makerz = \"caller\"\nC = \"/etc\"\n");
    assert_eq!(caller_fallback_path(&parsed), Some(PathBytes::from_str("/etc")));
}

#[test]
fn absolute_cwd_failure_is_reported() {
    let parsed = parse_at("/tmp/t", "[env]\n# @makerz = \"caller\"\nC = \".\"\n");
    let err = resolve_caller_env(&parsed, true, Err(std::io::Error::other("no cwd"))).unwrap_err();
    assert!(matches!(err, CallerError::Absolute(_)), "got {err:?}");
}
