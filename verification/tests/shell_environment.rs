use codex_local_env::env_map::EnvMap;
use codex_local_env::pattern::EnvironmentVariablePattern;
use codex_local_env::policy::Platform;
use codex_local_env::policy::ShellEnvironmentPolicy;
use codex_local_env::policy::ShellEnvironmentPolicyInherit;
use codex_local_env::shell_environment::create_env_from_vars;
use codex_local_env::shell_environment::populate_env;
use codex_local_env::shell_environment::CODEX_THREAD_ID_ENV_VAR;
use std::collections::HashMap;

fn make_vars(pairs: &[(&str, &str)]) -> Vec<(String, String)> {
    pairs
        .iter()
        .map(|(key, value)| (key.to_string(), value.to_string()))
        .collect()
}

fn to_map(env: EnvMap) -> HashMap<String, String> {
    env.into_pairs().into_iter().collect()
}

#[test]
fn core_inherit_preserves_windows_startup_vars_case_insensitively() {
    let vars = make_vars(&[
        ("Shell", "C:\\Program Files\\Git\\bin\\bash.exe"),
        ("SystemRoot", "C:\\Windows"),
        ("AppData", "C:\\Users\\codex\\AppData\\Roaming"),
        ("TmpDir", "C:\\Temp\\custom"),
        ("OPENAI_API_KEY", "secret"),
    ]);

    let policy = ShellEnvironmentPolicy {
        inherit: ShellEnvironmentPolicyInherit::Core,
        ignore_default_excludes: true,
        ..Default::default()
    };

    let result = populate_env(vars, &policy, None, Platform::Windows);
    let expected = HashMap::from([
        (
            "Shell".to_string(),
            "C:\\Program Files\\Git\\bin\\bash.exe".to_string(),
        ),
        ("SystemRoot".to_string(), "C:\\Windows".to_string()),
        (
            "AppData".to_string(),
            "C:\\Users\\codex\\AppData\\Roaming".to_string(),
        ),
        ("TmpDir".to_string(), "C:\\Temp\\custom".to_string()),
    ]);

    assert_eq!(to_map(result), expected);
}

#[test]
fn create_env_inserts_pathext_on_windows_when_missing() {
    let policy = ShellEnvironmentPolicy {
        inherit: ShellEnvironmentPolicyInherit::Empty,
        ignore_default_excludes: true,
        ..Default::default()
    };

    let result = create_env_from_vars(Vec::new(), &policy, None, Platform::Windows);
    let expected = HashMap::from([("PATHEXT".to_string(), ".COM;.EXE;.BAT;.CMD".to_string())]);

    assert_eq!(to_map(result), expected);
}

#[test]
fn set_replaces_path_case_insensitively_on_windows() {
    let vars = make_vars(&[("Path", "C:\\Windows\\System32")]);
    let mut policy = ShellEnvironmentPolicy {
        inherit: ShellEnvironmentPolicyInherit::All,
        ignore_default_excludes: true,
        ..Default::default()
    };
    policy
        .set_vars
        .insert("PATH".to_string(), "C:\\ROCm\\bin".to_string());

    let result = populate_env(vars, &policy, None, Platform::Windows);
    let expected = HashMap::from([("Path".to_string(), "C:\\ROCm\\bin".to_string())]);

    assert_eq!(to_map(result), expected);
}

#[test]
fn path_prepend_merges_existing_path_case_insensitively_on_windows() {
    let vars = make_vars(&[("Path", "C:\\Windows\\System32")]);
    let policy = ShellEnvironmentPolicy {
        inherit: ShellEnvironmentPolicyInherit::All,
        ignore_default_excludes: true,
        path_prepend: vec!["H:\\dinoml_v2\\.venv\\rocm\\Scripts".to_string()],
        ..Default::default()
    };

    let result = populate_env(vars, &policy, None, Platform::Windows);
    let expected = HashMap::from([(
        "Path".to_string(),
        "H:\\dinoml_v2\\.venv\\rocm\\Scripts;C:\\Windows\\System32".to_string(),
    )]);

    assert_eq!(to_map(result), expected);
}

#[test]
fn core_inherit_preserves_non_windows_core_vars_case_insensitively() {
    let vars = make_vars(&[
        ("path", "/usr/bin"),
        ("home", "/home/codex"),
        ("TmpDir", "/tmp/custom"),
        ("OPENAI_API_KEY", "secret"),
    ]);

    let policy = ShellEnvironmentPolicy {
        inherit: ShellEnvironmentPolicyInherit::Core,
        ignore_default_excludes: true,
        ..Default::default()
    };

    let result = populate_env(vars, &policy, None, Platform::Unix);
    let expected = HashMap::from([
        ("path".to_string(), "/usr/bin".to_string()),
        ("home".to_string(), "/home/codex".to_string()),
        ("TmpDir".to_string(), "/tmp/custom".to_string()),
    ]);

    assert_eq!(to_map(result), expected);
}

#[test]
fn path_prepend_and_append_merge_existing_path_on_non_windows() {
    let vars = make_vars(&[("PATH", "/usr/bin")]);
    let policy = ShellEnvironmentPolicy {
        inherit: ShellEnvironmentPolicyInherit::All,
        ignore_default_excludes: true,
        path_prepend: vec!["/opt/rocm/bin".to_string()],
        path_append: vec!["/custom/bin".to_string()],
        ..Default::default()
    };

    let result = populate_env(vars, &policy, None, Platform::Unix);
    let expected = HashMap::from([(
        "PATH".to_string(),
        "/opt/rocm/bin:/usr/bin:/custom/bin".to_string(),
    )]);

    assert_eq!(to_map(result), expected);
}

#[test]
fn default_excludes_drop_secret_names_unless_ignored() {
    let vars = make_vars(&[
        ("OPENAI_API_KEY", "secret"),
        ("my_secret_value", "hidden"),
        ("GITHUB_TOKEN", "t"),
        ("HOME", "/home/codex"),
    ]);
    let policy = ShellEnvironmentPolicy::default();
    let result = populate_env(vars.clone(), &policy, None, Platform::Unix);
    assert_eq!(
        to_map(result),
        HashMap::from([("HOME".to_string(), "/home/codex".to_string())])
    );

    let keep_all = ShellEnvironmentPolicy {
        ignore_default_excludes: true,
        ..Default::default()
    };
    let result = populate_env(vars, &keep_all, None, Platform::Unix);
    assert_eq!(to_map(result).len(), 4);
}

#[test]
fn custom_excludes_and_include_only_filter_names() {
    let vars = make_vars(&[
        ("CARGO_HOME", "/c"),
        ("CARGO_TARGET", "/t"),
        ("RUSTUP_HOME", "/r"),
        ("HOME", "/h"),
    ]);
    let policy = ShellEnvironmentPolicy {
        ignore_default_excludes: true,
        exclude: vec![EnvironmentVariablePattern::new_case_insensitive("cargo_t*")],
        include_only: vec![
            EnvironmentVariablePattern::new_case_insensitive("CARGO_*"),
            EnvironmentVariablePattern::new_case_insensitive("HOM?"),
        ],
        ..Default::default()
    };
    let result = populate_env(vars, &policy, None, Platform::Unix);
    assert_eq!(
        to_map(result),
        HashMap::from([
            ("CARGO_HOME".to_string(), "/c".to_string()),
            ("HOME".to_string(), "/h".to_string()),
        ])
    );
}

#[test]
fn thread_id_is_set_after_include_only() {
    let vars = make_vars(&[("HOME", "/h")]);
    let policy = ShellEnvironmentPolicy {
        ignore_default_excludes: true,
        include_only: vec![EnvironmentVariablePattern::new_case_insensitive("HOME")],
        ..Default::default()
    };
    let result = populate_env(vars, &policy, Some("thread-1"), Platform::Unix);
    assert_eq!(
        to_map(result),
        HashMap::from([
            ("HOME".to_string(), "/h".to_string()),
            (CODEX_THREAD_ID_ENV_VAR.to_string(), "thread-1".to_string()),
        ])
    );
}

#[test]
fn later_vars_replace_earlier_ones_and_set_overrides() {
    let vars = make_vars(&[("A", "1"), ("B", "2"), ("A", "3")]);
    let mut policy = ShellEnvironmentPolicy {
        ignore_default_excludes: true,
        ..Default::default()
    };
    policy.set_vars.insert("B".to_string(), "override".to_string());
    policy.set_vars.insert("C".to_string(), "new".to_string());
    let result = populate_env(vars, &policy, None, Platform::Unix);
    assert_eq!(
        to_map(result),
        HashMap::from([
            ("A".to_string(), "3".to_string()),
            ("B".to_string(), "override".to_string()),
            ("C".to_string(), "new".to_string()),
        ])
    );
}

#[test]
fn unix_set_is_case_sensitive() {
    let vars = make_vars(&[("Path", "/usr/bin")]);
    let mut policy = ShellEnvironmentPolicy {
        ignore_default_excludes: true,
        ..Default::default()
    };
    policy.set_vars.insert("PATH".to_string(), "/opt".to_string());
    let result = populate_env(vars, &policy, None, Platform::Unix);
    assert_eq!(
        to_map(result),
        HashMap::from([
            ("Path".to_string(), "/usr/bin".to_string()),
            ("PATH".to_string(), "/opt".to_string()),
        ])
    );
}

#[test]
fn path_merge_skips_empty_entries_and_creates_path() {
    let policy = ShellEnvironmentPolicy {
        inherit: ShellEnvironmentPolicyInherit::Empty,
        ignore_default_excludes: true,
        path_prepend: vec!["".to_string(), "/a".to_string()],
        path_append: vec!["/b".to_string(), "".to_string()],
        ..Default::default()
    };
    let result = populate_env(Vec::new(), &policy, None, Platform::Unix);
    assert_eq!(
        to_map(result),
        HashMap::from([("PATH".to_string(), "/a:/b".to_string())])
    );
}

#[test]
fn create_env_keeps_existing_pathext_and_does_nothing_on_unix() {
    let vars = make_vars(&[("PathExt", ".EXE")]);
    let policy = ShellEnvironmentPolicy {
        ignore_default_excludes: true,
        ..Default::default()
    };
    let result = create_env_from_vars(vars.clone(), &policy, None, Platform::Windows);
    assert_eq!(
        to_map(result),
        HashMap::from([("PathExt".to_string(), ".EXE".to_string())])
    );
    let result = create_env_from_vars(Vec::new(), &policy, None, Platform::Unix);
    assert!(to_map(result).is_empty());
}

#[test]
fn windows_thread_id_reuses_existing_spelling() {
    let vars = make_vars(&[("codex_thread_id", "old")]);
    let policy = ShellEnvironmentPolicy {
        ignore_default_excludes: true,
        ..Default::default()
    };
    let result = populate_env(vars, &policy, Some("new"), Platform::Windows);
    assert_eq!(
        to_map(result),
        HashMap::from([("codex_thread_id".to_string(), "new".to_string())])
    );
}

#[test]
fn overrides_bring_back_excluded_names() {
    let vars = make_vars(&[("API_KEY", "parent"), ("HOME", "/h")]);
    let mut policy = ShellEnvironmentPolicy::default();
    policy.set_vars.insert("API_KEY".to_string(), "override".to_string());
    let result = populate_env(vars, &policy, None, Platform::Unix);
    assert_eq!(
        to_map(result),
        HashMap::from([
            ("API_KEY".to_string(), "override".to_string()),
            ("HOME".to_string(), "/h".to_string()),
        ])
    );
}

#[test]
fn snapshot_policy_reproduces_captured_environment() {
    let mut captured = EnvMap::new();
    captured.insert("CC".to_string(), "cl.exe".to_string());
    captured.insert("PATH".to_string(), "/toolchain/bin".to_string());
    let policy = codex_local_env::snapshot::environment_snapshot_to_shell_environment_policy(captured);
    let vars = make_vars(&[("HOME", "/h"), ("PATH", "/usr/bin")]);
    let result = populate_env(vars, &policy, None, Platform::Unix);
    assert_eq!(
        result.into_pairs(),
        vec![
            ("CC".to_string(), "cl.exe".to_string()),
            ("PATH".to_string(), "/toolchain/bin".to_string()),
        ]
    );
}

#[test]
fn env_map_reads_back_writes_and_removals() {
    let mut env = EnvMap::new();
    env.insert("A".to_string(), "1".to_string());
    env.insert("B".to_string(), "2".to_string());
    env.insert("A".to_string(), "3".to_string());
    assert_eq!(env.len(), 2);
    assert_eq!(env.get("A"), Some(&"3".to_string()));
    assert_eq!(env.remove(&"A".to_string()), Some("3".to_string()));
    assert_eq!(env.get("A"), None);
    assert_eq!(env.get("B"), Some(&"2".to_string()));
    assert_eq!(env.find_ignore_ascii_case("b"), Some(0));
}

#[test]
fn secret_like_inherited_vars_do_not_change_the_environment() {
    let policy = ShellEnvironmentPolicy {
        inherit: ShellEnvironmentPolicyInherit::All,
        ..Default::default()
    };
    let with_secrets = make_vars(&[
        ("HOME", "/home/codex"),
        ("OPENAI_API_KEY", "sk-one"),
        ("PATH", "/usr/bin"),
        ("GITHUB_TOKEN", "gh-two"),
        ("MY_SECRET", "three"),
    ]);
    let without_secrets = make_vars(&[
        ("HOME", "/home/codex"),
        ("PATH", "/usr/bin"),
        ("api_key_other", "four"),
    ]);
    let a = populate_env(with_secrets, &policy, Some("thread-1"), Platform::Unix).into_pairs();
    let b = populate_env(without_secrets, &policy, Some("thread-1"), Platform::Unix).into_pairs();
    assert_eq!(a, b);
    assert_eq!(
        a,
        vec![
            ("HOME".to_string(), "/home/codex".to_string()),
            ("PATH".to_string(), "/usr/bin".to_string()),
            ("CODEX_THREAD_ID".to_string(), "thread-1".to_string()),
        ]
    );
}

#[test]
fn excluded_path_stays_out_when_nothing_is_merged() {
    let policy = ShellEnvironmentPolicy {
        inherit: ShellEnvironmentPolicyInherit::All,
        exclude: vec![EnvironmentVariablePattern::new_case_insensitive("PATH")],
        ..Default::default()
    };
    let vars = make_vars(&[("PATH", "/usr/bin"), ("HOME", "/home/codex")]);
    let result = to_map(populate_env(vars, &policy, None, Platform::Unix));
    assert_eq!(
        result,
        HashMap::from([("HOME".to_string(), "/home/codex".to_string())])
    );
}

#[test]
fn pattern_matches_ascii_names_ignoring_case() {
    let pattern = EnvironmentVariablePattern::new_case_insensitive("*_k?y");
    assert!(pattern.matches("OPENAI_API_KEY"));
    assert!(pattern.matches("x_kay"));
    assert!(!pattern.matches("OPENAI_API_KEYS"));
    assert!(!pattern.matches("KEY"));
}
