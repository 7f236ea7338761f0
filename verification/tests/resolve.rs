use codex_local_env::config::LocalEnvironmentConfig;
use codex_local_env::config::LocalEnvironmentScriptConfig;
use codex_local_env::config::LocalEnvironmentScriptShell;
use codex_local_env::config::LocalEnvironmentSourceConfig;
use codex_local_env::policy::ShellEnvironmentPolicy;
use codex_local_env::policy::ShellEnvironmentPolicyInherit;
use codex_local_env::resolve::record_captured_environment;
use codex_local_env::resolve::resolve_local_environment_shell_policy;
use codex_local_env::resolve::FileTime;
use codex_local_env::resolve::LocalEnvironmentCache;
use codex_local_env::resolve::PolicyResolution;
use codex_local_env::snapshot::parse_line_separated_text;

fn script_environment() -> LocalEnvironmentConfig {
    LocalEnvironmentConfig {
        description: Some("dynamic".to_string()),
        source: LocalEnvironmentSourceConfig::Script(LocalEnvironmentScriptConfig {
            script: "/tmp/dynamic-env.sh".to_string(),
            shell: LocalEnvironmentScriptShell::Sh,
            args: Vec::new(),
            cwd: None,
        }),
    }
}

fn time(secs: u64) -> Option<FileTime> {
    Some(FileTime {
        after_epoch: true,
        secs,
        nanos: 0,
    })
}

fn captured(value: &str) -> codex_local_env::env_map::EnvMap {
    parse_line_separated_text(&format!(
        "__CODEX_LOCAL_ENVIRONMENT_START__\nCODEX_DYNAMIC_TEST={value}\n"
    ))
    .expect("parse")
}

#[test]
fn static_policy_resolves_without_capture() {
    let cache = LocalEnvironmentCache::new();
    let environment = LocalEnvironmentConfig {
        description: None,
        source: LocalEnvironmentSourceConfig::Static(ShellEnvironmentPolicy {
            inherit: ShellEnvironmentPolicyInherit::Core,
            ..Default::default()
        }),
    };
    match resolve_local_environment_shell_policy(&cache, "static", &environment, None) {
        PolicyResolution::Resolved(policy) => {
            assert_eq!(policy.inherit, ShellEnvironmentPolicyInherit::Core)
        }
        other => panic!("unexpected {other:?}"),
    }
}

#[test]
fn script_policy_is_cached_until_the_script_changes() {
    let mut cache = LocalEnvironmentCache::new();
    let environment = script_environment();

    let key = match resolve_local_environment_shell_policy(&cache, "dynamic", &environment, time(1)) {
        PolicyResolution::CaptureScript(key) => key,
        other => panic!("unexpected {other:?}"),
    };
    let policy = record_captured_environment(&mut cache, "dynamic", key, captured("one"));
    assert_eq!(policy.inherit, ShellEnvironmentPolicyInherit::Empty);
    assert_eq!(policy.set_vars.get("CODEX_DYNAMIC_TEST"), Some(&"one".to_string()));

    match resolve_local_environment_shell_policy(&cache, "dynamic", &environment, time(1)) {
        PolicyResolution::Resolved(policy) => assert_eq!(
            policy.set_vars.get("CODEX_DYNAMIC_TEST"),
            Some(&"one".to_string())
        ),
        other => panic!("unexpected {other:?}"),
    }

    let key = match resolve_local_environment_shell_policy(&cache, "dynamic", &environment, time(2)) {
        PolicyResolution::CaptureScript(key) => key,
        other => panic!("unexpected {other:?}"),
    };
    record_captured_environment(&mut cache, "dynamic", key, captured("two"));
    match resolve_local_environment_shell_policy(&cache, "dynamic", &environment, time(2)) {
        PolicyResolution::Resolved(policy) => assert_eq!(
            policy.set_vars.get("CODEX_DYNAMIC_TEST"),
            Some(&"two".to_string())
        ),
        other => panic!("unexpected {other:?}"),
    }
    match resolve_local_environment_shell_policy(&cache, "other", &environment, time(2)) {
        PolicyResolution::CaptureScript(_) => {}
        other => panic!("unexpected {other:?}"),
    }
}

#[test]
fn cached_capture_is_reused_for_the_same_script_path_written_differently() {
    let mut cache = LocalEnvironmentCache::new();
    let environment = script_environment();
    let key = match resolve_local_environment_shell_policy(&cache, "dynamic", &environment, time(5)) {
        PolicyResolution::CaptureScript(key) => key,
        other => panic!("unexpected {other:?}"),
    };
    record_captured_environment(&mut cache, "dynamic", key, captured("same"));

    let respelled = LocalEnvironmentConfig {
        description: Some("dynamic".to_string()),
        source: LocalEnvironmentSourceConfig::Script(LocalEnvironmentScriptConfig {
            script: "/tmp//dynamic-env.sh".to_string(),
            shell: LocalEnvironmentScriptShell::Sh,
            args: Vec::new(),
            cwd: None,
        }),
    };
    match resolve_local_environment_shell_policy(&cache, "dynamic", &respelled, time(5)) {
        PolicyResolution::Resolved(policy) => assert_eq!(
            policy.set_vars.get("CODEX_DYNAMIC_TEST"),
            Some(&"same".to_string())
        ),
        other => panic!("unexpected {other:?}"),
    }
}
