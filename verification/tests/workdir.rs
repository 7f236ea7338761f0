use codex_local_env::workdir::config_load_failure_message;
use codex_local_env::workdir::resolution_failure_message;
use codex_local_env::workdir::cwd_requires_config_refresh;
use codex_local_env::workdir::select_shell_policy_source;
use codex_local_env::workdir::PolicySource;

#[test]
fn same_cwd_needs_no_refresh() {
    assert!(!cwd_requires_config_refresh("/repo", "/repo/", &Vec::new()));
}

#[test]
fn cwd_inside_loaded_project_needs_no_refresh() {
    let folders = vec!["/repo/.codex".to_string()];
    assert!(!cwd_requires_config_refresh("/home", "/repo/sub", &folders));
    assert!(cwd_requires_config_refresh("/home", "/repository", &folders));
    assert!(cwd_requires_config_refresh("/home", "/worktree", &folders));
}

#[test]
fn policy_source_prefers_turn_selection_then_default() {
    let available = vec!["msvc".to_string(), "rocm".to_string()];
    assert_eq!(
        select_shell_policy_source(false, Some("rocm"), &available, None),
        PolicySource::Turn
    );
    assert_eq!(
        select_shell_policy_source(true, Some("rocm"), &available, Some("msvc")),
        PolicySource::LocalEnvironment("rocm".to_string())
    );
    assert_eq!(
        select_shell_policy_source(true, Some("cuda"), &available, Some("msvc")),
        PolicySource::LocalEnvironment("msvc".to_string())
    );
    assert_eq!(
        select_shell_policy_source(true, None, &available, Some("cuda")),
        PolicySource::Permissions
    );
    assert_eq!(
        select_shell_policy_source(true, None, &available, None),
        PolicySource::Permissions
    );
}

#[test]
fn resolution_failure_names_environment_cwd_and_error() {
    assert_eq!(
        resolution_failure_message("msvc", "/repo/sub", "script exited with status 2"),
        "failed to resolve local environment `msvc` for /repo/sub: script exited with status 2"
    );
}

#[test]
fn config_load_failure_names_cwd_and_error() {
    assert_eq!(
        config_load_failure_message("/repo/sub", "bad toml"),
        "failed to load project config for /repo/sub: bad toml"
    );
}
