use makerz::error::Error;
use makerz::makers::{build_args, spawn_result, EnvEntry, Invocation, SpawnOutcome, MAKERS_BINARY};
use makerz::path::PathBytes;

fn bytes(s: &str) -> Vec<u8> {
    s.as_bytes().to_vec()
}

#[test]
fn build_args_prepends_cwd_with_empty_passthrough() {
    assert_eq!(
        build_args(&PathBytes::from_str("/abs/dir"), &[], &[]),
        vec![bytes("--cwd"), bytes("/abs/dir")]
    );
}

#[test]
fn build_args_prepends_cwd_then_passthrough() {
    assert_eq!(
        build_args(
            &PathBytes::from_str("/abs/dir"),
            &[],
            &["task".into(), "--flag".into()]
        ),
        vec![
            bytes("--cwd"),
            bytes("/abs/dir"),
            bytes("task"),
            bytes("--flag"),
        ]
    );
}

#[test]
fn env_entry_to_argv_renders_dash_dash_env_pair() {
    let entry = EnvEntry::new("CALLER_DIR".to_string(), bytes("/caller"));
    assert_eq!(
        entry.to_argv(),
        vec![bytes("--env"), bytes("CALLER_DIR=/caller")],
    );
}

#[test]
fn env_entries_emit_dash_dash_env_pairs() {
    let entries = [
        EnvEntry::new("CALLER_DIR".to_string(), bytes("/caller")),
        EnvEntry::new("X".to_string(), bytes("y")),
    ];
    assert_eq!(
        build_args(&PathBytes::from_str("/work"), &entries, &["task".into()]),
        vec![
            bytes("--cwd"),
            bytes("/work"),
            bytes("--env"),
            bytes("CALLER_DIR=/caller"),
            bytes("--env"),
            bytes("X=y"),
            bytes("task"),
        ]
    );
}

#[test]
fn env_entry_value_keeps_non_utf8_bytes() {
    let entry = EnvEntry::new("D".to_string(), vec![0x2f, 0xff, 0x61]);
    assert_eq!(entry.to_argv(), vec![bytes("--env"), vec![b'D', b'=', 0x2f, 0xff, 0x61]]);
    assert_eq!(entry.key(), "D");
    assert_eq!(entry.value(), &[0x2f, 0xff, 0x61]);
}

#[test]
fn invocation_argv_adds_env_in_push_order() {
    let mut inv = Invocation::new(PathBytes::from_str("/w"), vec!["build".into(), "--".into(), "x".into()]);
    inv.push_env(EnvEntry::new("A".to_string(), bytes("1")));
    inv.push_env(EnvEntry::new("B".to_string(), bytes("2")));
    assert_eq!(
        inv.argv(),
        vec![
            bytes("--cwd"),
            bytes("/w"),
            bytes("--env"),
            bytes("A=1"),
            bytes("--env"),
            bytes("B=2"),
            bytes("build"),
            bytes("--"),
            bytes("x"),
        ]
    );
    assert_eq!(MAKERS_BINARY, "makers");
}

#[test]
fn spawn_zero_exit_is_ok() {
    spawn_result(SpawnOutcome::Finished { code: Some(0) }).expect("exit 0 should succeed");
}

#[test]
fn spawn_forwards_exit_code() {
    let err = spawn_result(SpawnOutcome::Finished { code: Some(42) }).unwrap_err();
    assert!(matches!(err, Error::MakersExited(42)), "got {err:?}");
}

#[test]
fn spawn_missing_binary_returns_makers_not_found() {
    let err = spawn_result(SpawnOutcome::NotFound).unwrap_err();
    assert!(matches!(err, Error::MakersNotFound), "got {err:?}");
}

#[test]
fn spawn_signal_and_other_failures() {
    let err = spawn_result(SpawnOutcome::Finished { code: None }).unwrap_err();
    assert!(matches!(err, Error::MakersTerminatedBySignal), "got {err:?}");
    let err = spawn_result(SpawnOutcome::Failed(std::io::Error::other("denied"))).unwrap_err();
    assert!(matches!(err, Error::MakersSpawn(_)), "got {err:?}");
}
