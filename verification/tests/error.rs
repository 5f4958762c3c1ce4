use makerz::cli::ParseError;
use makerz::directive_parser::ParseMakefileError;
use makerz::error::Error;
use makerz::location::FindError;
use makerz::path::PathBytes;

#[test]
fn exit_code_arg_parse_is_2() {
    assert_eq!(
        Error::ArgParse(ParseError::ExtendMissingValue).exit_code(),
        2
    );
}

#[test]
fn exit_code_find_is_1() {
    let err = Error::Find(FindError::NotFound {
        start: PathBytes::from_str("/nowhere"),
    });
    assert_eq!(err.exit_code(), 1);
}

#[test]
fn exit_code_parse_makefile_is_1() {
    let err = Error::ParseMakefile(ParseMakefileError::ExtendNotString { kind: "array" });
    assert_eq!(err.exit_code(), 1);
}

#[test]
fn exit_code_cwd_is_1() {
    let err = Error::Cwd(std::io::Error::other("denied"));
    assert_eq!(err.exit_code(), 1);
}

#[test]
fn exit_code_makers_not_found_is_127() {
    assert_eq!(Error::MakersNotFound.exit_code(), 127);
}

#[test]
fn exit_code_forwards_makers_exit_code() {
    assert_eq!(Error::MakersExited(7).exit_code(), 7);
}

#[test]
fn exit_code_for_signal_is_one() {
    assert_eq!(Error::MakersTerminatedBySignal.exit_code(), 1);
}

#[test]
fn exit_code_for_out_of_byte_range_falls_back_to_one() {
    assert_eq!(Error::MakersExited(300).exit_code(), 1);
    assert_eq!(Error::MakersExited(-1).exit_code(), 1);
}

#[test]
fn exit_code_byte_range_edges_are_forwarded() {
    assert_eq!(Error::MakersExited(0).exit_code(), 0);
    assert_eq!(Error::MakersExited(255).exit_code(), 255);
    assert_eq!(Error::MakersExited(256).exit_code(), 1);
}

#[test]
fn exit_code_other_errors_are_one() {
    let spawn = Error::MakersSpawn(std::io::Error::other("busy"));
    assert_eq!(spawn.exit_code(), 1);
}
