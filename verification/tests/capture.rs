use codex_local_env::capture::build_script_capture_command;
use codex_local_env::capture::cmd_capture_command;
use codex_local_env::capture::cmd_quote;
use codex_local_env::capture::cmd_wrapper_script;
use codex_local_env::capture::interpret_capture_output;
use codex_local_env::capture::posix_shell_quote;
use codex_local_env::capture::powershell_program;
use codex_local_env::capture::powershell_quote;
use codex_local_env::capture::script_failure_message;
use codex_local_env::capture::script_spawn_failure_message;
use codex_local_env::capture::CaptureError;
use codex_local_env::config::LocalEnvironmentScriptConfig;
use codex_local_env::config::LocalEnvironmentScriptShell;
use codex_local_env::policy::Platform;
use codex_local_env::snapshot::SnapshotError;
use codex_local_env::snapshot::SnapshotFormat;

fn script(shell: LocalEnvironmentScriptShell, args: &[&str]) -> LocalEnvironmentScriptConfig {
    LocalEnvironmentScriptConfig {
        script: "/tmp/it's env.sh".to_string(),
        shell,
        args: args.iter().map(|a| a.to_string()).collect(),
        cwd: None,
    }
}

#[test]
fn posix_shell_quote_wraps_and_escapes_single_quotes() {
    assert_eq!(posix_shell_quote("plain"), "'plain'");
    assert_eq!(posix_shell_quote("it's"), "'it'\\''s'");
    assert_eq!(posix_shell_quote(""), "''");
}

#[test]
fn powershell_quote_doubles_single_quotes() {
    assert_eq!(powershell_quote("it's"), "it''s");
    assert_eq!(powershell_quote("none"), "none");
}

#[test]
fn cmd_quote_escapes_metacharacters() {
    assert_eq!(cmd_quote("a^b&c|d<e>f%g"), "\"a^^b^&c^|d^<e^>f%%g\"");
    assert_eq!(cmd_quote("C:\\dir\\env.bat"), "\"C:\\dir\\env.bat\"");
}

#[test]
fn powershell_program_depends_on_platform() {
    assert_eq!(powershell_program(Platform::Windows), "powershell.exe");
    assert_eq!(powershell_program(Platform::Unix), "powershell");
}

#[test]
fn posix_capture_command_sources_script_then_prints_env() {
    let command = build_script_capture_command(
        &script(LocalEnvironmentScriptShell::Bash, &["a b"]),
        Platform::Unix,
    );
    assert_eq!(command.program, "bash");
    assert_eq!(command.format, SnapshotFormat::NulSeparated);
    assert_eq!(
        command.args,
        vec![
            "-lc".to_string(),
            ". '/tmp/it'\\''s env.sh' 'a b'; status=$?; if [ $status -ne 0 ]; then exit $status; fi; printf '%s\\n' '__CODEX_LOCAL_ENVIRONMENT_START__'; env -0".to_string(),
        ]
    );
    let sh = build_script_capture_command(&script(LocalEnvironmentScriptShell::Sh, &[]), Platform::Unix);
    assert_eq!(sh.program, "sh");
    let zsh = build_script_capture_command(&script(LocalEnvironmentScriptShell::Zsh, &[]), Platform::Unix);
    assert_eq!(zsh.program, "zsh");
}

#[test]
fn powershell_capture_command_lists_env_lines() {
    let command = build_script_capture_command(
        &script(LocalEnvironmentScriptShell::PowerShell, &["x'y"]),
        Platform::Windows,
    );
    assert_eq!(command.program, "powershell.exe");
    assert_eq!(command.format, SnapshotFormat::LineSeparated);
    assert_eq!(
        command.args,
        vec![
            "-NoProfile".to_string(),
            "-Command".to_string(),
            "& '/tmp/it''s env.sh' 'x''y'; if (-not $?) { if ($null -ne $LASTEXITCODE) { exit $LASTEXITCODE } else { exit 1 } }; Write-Output '__CODEX_LOCAL_ENVIRONMENT_START__'; Get-ChildItem Env: | ForEach-Object { \"{0}={1}\" -f $_.Name, $_.Value }".to_string(),
        ]
    );
}

#[test]
fn cmd_wrapper_calls_script_and_lists_env() {
    let text = cmd_wrapper_script("C:\\env.bat", &vec!["50%".to_string()]);
    assert_eq!(
        text,
        "@echo off\r\ncall \"C:\\env.bat\" \"50%%\"\r\nif errorlevel 1 exit /b %errorlevel%\r\necho __CODEX_LOCAL_ENVIRONMENT_START__\r\nset\r\n"
    );
    let command = cmd_capture_command("C:\\tmp\\w.cmd");
    assert_eq!(command.program, "cmd.exe");
    assert_eq!(command.args, vec!["/d", "/c", "C:\\tmp\\w.cmd"]);
    assert_eq!(command.format, SnapshotFormat::LineSeparated);
}

#[test]
fn failure_message_includes_trimmed_stderr() {
    assert_eq!(
        script_failure_message("/s.sh", "exit status: 3", b"  boom \n"),
        "local environment script `/s.sh` exited with status exit status: 3: boom"
    );
    assert_eq!(
        script_failure_message("/s.sh", "exit status: 3", b" \n\t"),
        "local environment script `/s.sh` exited with status exit status: 3"
    );
    assert_eq!(
        script_failure_message("/s.sh", "exit status: 4", "\u{a0}\u{3000}bad\u{2003}x\u{85}\r\n".as_bytes()),
        "local environment script `/s.sh` exited with status exit status: 4: bad\u{2003}x"
    );
    assert_eq!(
        script_spawn_failure_message("/s.sh"),
        "failed to run local environment script `/s.sh`"
    );
}

#[test]
fn interpret_capture_output_reports_failure_or_parses() {
    match interpret_capture_output("/s.sh", false, "exit status: 1", b"", b"", SnapshotFormat::NulSeparated) {
        Err(CaptureError::ScriptFailed(message)) => assert_eq!(
            message,
            "local environment script `/s.sh` exited with status exit status: 1"
        ),
        other => panic!("unexpected {other:?}"),
    }
    match interpret_capture_output("/s.sh", true, "exit status: 0", b"no marker", b"", SnapshotFormat::NulSeparated) {
        Err(CaptureError::Snapshot(err)) => assert_eq!(err, SnapshotError::MarkerNotFound),
        other => panic!("unexpected {other:?}"),
    }
    let env = interpret_capture_output(
        "/s.sh",
        true,
        "exit status: 0",
        b"__CODEX_LOCAL_ENVIRONMENT_START__\nA=1\0",
        b"",
        SnapshotFormat::NulSeparated,
    )
    .expect("parse");
    assert_eq!(env.into_pairs(), vec![("A".to_string(), "1".to_string())]);
}
