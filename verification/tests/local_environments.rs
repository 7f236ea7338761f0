use codex_local_env::snapshot::parse_line_separated_environment_snapshot;
use codex_local_env::snapshot::parse_nul_separated_environment_snapshot;
use codex_local_env::snapshot::SnapshotError;
use std::collections::HashMap;

#[test]
fn parse_line_separated_environment_snapshot_ignores_preamble() {
    let stdout = b"before\r\n__CODEX_LOCAL_ENVIRONMENT_START__\r\n=ExitCode=00000000\r\nFOO=bar\r\nBAZ=qux\r\n";
    let parsed = parse_line_separated_environment_snapshot(stdout)
        .expect("line-separated parse should work");

    assert_eq!(
        parsed.into_pairs().into_iter().collect::<HashMap<_, _>>(),
        HashMap::from([
            ("FOO".to_string(), "bar".to_string()),
            ("BAZ".to_string(), "qux".to_string()),
        ])
    );
}

#[test]
fn parse_nul_separated_environment_snapshot_reads_entries_after_marker() {
    let stdout = b"before\n__CODEX_LOCAL_ENVIRONMENT_START__\nFOO=bar\0BAZ=qux\0";
    let parsed =
        parse_nul_separated_environment_snapshot(stdout).expect("nul-separated parse should work");

    assert_eq!(
        parsed.into_pairs().into_iter().collect::<HashMap<_, _>>(),
        HashMap::from([
            ("FOO".to_string(), "bar".to_string()),
            ("BAZ".to_string(), "qux".to_string()),
        ])
    );
}

#[test]
fn snapshots_without_marker_are_refused() {
    assert_eq!(
        parse_nul_separated_environment_snapshot(b"FOO=bar\0").unwrap_err(),
        SnapshotError::MarkerNotFound
    );
    assert_eq!(
        parse_line_separated_environment_snapshot(b"FOO=bar\r\n").unwrap_err(),
        SnapshotError::MarkerNotFound
    );
}

use codex_local_env::snapshot::environment_snapshot_to_shell_environment_policy;
use codex_local_env::snapshot::parse_environment_snapshot;
use codex_local_env::snapshot::parse_line_separated_text;
use codex_local_env::snapshot::split_env_entry;
use codex_local_env::snapshot::split_env_line;
use codex_local_env::snapshot::SnapshotFormat;
use codex_local_env::policy::ShellEnvironmentPolicyInherit;

#[test]
fn split_env_line_splits_at_first_equals() {
    assert_eq!(
        split_env_line("A=b=c"),
        Some(("A".to_string(), "b=c".to_string()))
    );
    assert_eq!(split_env_line("=C:=C:\\"), None);
    assert_eq!(split_env_line("no-equals"), None);
    assert_eq!(split_env_line("K="), Some(("K".to_string(), "".to_string())));
}

#[test]
fn split_env_entry_checks_utf8() {
    assert_eq!(
        split_env_entry(b"K=v=w"),
        Ok(Some(("K".to_string(), "v=w".to_string())))
    );
    assert_eq!(split_env_entry(b"=x"), Ok(None));
    assert_eq!(split_env_entry(b"novalue"), Ok(None));
    assert_eq!(
        split_env_entry(b"\xff=v"),
        Err(SnapshotError::NonUtf8VariableName)
    );
    assert_eq!(
        split_env_entry(b"K=\xff"),
        Err(SnapshotError::NonUtf8VariableValue)
    );
    assert_eq!(
        split_env_entry("CAF\u{c9}=na\u{ef}ve".as_bytes()),
        Ok(Some(("CAF\u{c9}".to_string(), "na\u{ef}ve".to_string())))
    );
}

#[test]
fn nul_snapshot_stops_at_first_bad_entry() {
    assert_eq!(
        parse_nul_separated_environment_snapshot(b"__CODEX_LOCAL_ENVIRONMENT_START__\nA=1\0\xfe=2\0").unwrap_err(),
        SnapshotError::NonUtf8VariableName
    );
}

#[test]
fn nul_snapshot_later_entry_wins_and_empty_entries_are_skipped() {
    let parsed = parse_environment_snapshot(
        b"x__CODEX_LOCAL_ENVIRONMENT_START__\nA=1\0\0B=2\0A=3",
        SnapshotFormat::NulSeparated,
    )
    .expect("parse");
    assert_eq!(
        parsed.into_pairs(),
        vec![
            ("A".to_string(), "3".to_string()),
            ("B".to_string(), "2".to_string()),
        ]
    );
}

#[test]
fn line_snapshot_replaces_invalid_utf8_and_trims_carriage_returns() {
    let parsed = parse_environment_snapshot(
        b"__CODEX_LOCAL_ENVIRONMENT_START__\r\r\nA=\xff\r\r\nB=x",
        SnapshotFormat::LineSeparated,
    )
    .expect("parse");
    assert_eq!(
        parsed.into_pairs(),
        vec![
            ("A".to_string(), "\u{fffd}".to_string()),
            ("B".to_string(), "x".to_string()),
        ]
    );
}

#[test]
fn line_snapshot_uses_first_marker_line_only() {
    let parsed = parse_line_separated_text(
        "A=0\n__CODEX_LOCAL_ENVIRONMENT_START__\nA=1\n__CODEX_LOCAL_ENVIRONMENT_START__\n",
    )
    .expect("parse");
    assert_eq!(parsed.into_pairs(), vec![("A".to_string(), "1".to_string())]);
}

#[test]
fn snapshot_policy_sets_exactly_the_captured_variables() {
    let parsed = parse_line_separated_text("__CODEX_LOCAL_ENVIRONMENT_START__\nCODEX_DYNAMIC_TEST=one\n")
        .expect("parse");
    let policy = environment_snapshot_to_shell_environment_policy(parsed);
    assert_eq!(policy.inherit, ShellEnvironmentPolicyInherit::Empty);
    assert!(policy.ignore_default_excludes);
    assert_eq!(
        policy.set_vars.get("CODEX_DYNAMIC_TEST"),
        Some(&"one".to_string())
    );
}

#[test]
fn split_env_entry_reads_back_name_and_value() {
    for (name, value) in [("K", ""), ("PATH", "/bin:/usr/bin"), ("A_B", "x=y=z"), ("Ünï", "välue")] {
        let entry = format!("{name}={value}");
        assert_eq!(
            split_env_entry(entry.as_bytes()),
            Ok(Some((name.to_string(), value.to_string())))
        );
    }
}
