use codex_local_env::config::default_script_shell;
use codex_local_env::config::resolve_local_environment_config;
use codex_local_env::config::resolve_local_environment_configs;
use codex_local_env::config::script_shell_for_extension;
use codex_local_env::config::LocalEnvironmentScriptShell;
use codex_local_env::config::LocalEnvironmentScriptToml;
use codex_local_env::config::LocalEnvironmentSourceConfig;
use codex_local_env::config::LocalEnvironmentSourceProblem;
use codex_local_env::config::LocalEnvironmentToml;
use codex_local_env::policy::ShellEnvironmentPolicy;

fn script_toml(path: &str, shell: Option<LocalEnvironmentScriptShell>) -> LocalEnvironmentScriptToml {
    LocalEnvironmentScriptToml {
        script: path.to_string(),
        shell,
        args: vec!["--fast".to_string()],
        cwd: Some("/work".to_string()),
    }
}

#[test]
fn default_script_shell_follows_extension() {
    assert_eq!(default_script_shell("/x/env.BAT"), LocalEnvironmentScriptShell::Cmd);
    assert_eq!(default_script_shell("/x/env.cmd"), LocalEnvironmentScriptShell::Cmd);
    assert_eq!(default_script_shell("/x/env.Ps1"), LocalEnvironmentScriptShell::PowerShell);
    assert_eq!(default_script_shell("/x/env.sh"), LocalEnvironmentScriptShell::Sh);
    assert_eq!(default_script_shell("/x/env"), LocalEnvironmentScriptShell::Sh);
    assert_eq!(default_script_shell("/x.bat/env"), LocalEnvironmentScriptShell::Sh);
    assert_eq!(script_shell_for_extension(Some("CMD")), LocalEnvironmentScriptShell::Cmd);
    assert_eq!(script_shell_for_extension(None), LocalEnvironmentScriptShell::Sh);
}

#[test]
fn static_source_is_kept() {
    let config = resolve_local_environment_config(
        "msvc",
        LocalEnvironmentToml {
            description: Some("MSVC toolchain".to_string()),
            shell_environment_policy: Some(ShellEnvironmentPolicy {
                ignore_default_excludes: true,
                ..Default::default()
            }),
            script: None,
        },
    )
    .expect("static source resolves");
    assert_eq!(config.description.as_deref(), Some("MSVC toolchain"));
    match config.source {
        LocalEnvironmentSourceConfig::Static(policy) => assert!(policy.ignore_default_excludes),
        other => panic!("unexpected {other:?}"),
    }
}

#[test]
fn script_source_takes_shell_from_extension_unless_given() {
    let config = resolve_local_environment_config(
        "dyn",
        LocalEnvironmentToml {
            description: None,
            shell_environment_policy: None,
            script: Some(script_toml("/x/env.ps1", None)),
        },
    )
    .expect("script source resolves");
    match config.source {
        LocalEnvironmentSourceConfig::Script(script) => {
            assert_eq!(script.shell, LocalEnvironmentScriptShell::PowerShell);
            assert_eq!(script.script, "/x/env.ps1");
            assert_eq!(script.args, vec!["--fast".to_string()]);
            assert_eq!(script.cwd.as_deref(), Some("/work"));
        }
        other => panic!("unexpected {other:?}"),
    }
    let config = resolve_local_environment_config(
        "dyn",
        LocalEnvironmentToml {
            description: None,
            shell_environment_policy: None,
            script: Some(script_toml("/x/env.ps1", Some(LocalEnvironmentScriptShell::Zsh))),
        },
    )
    .expect("script source resolves");
    match config.source {
        LocalEnvironmentSourceConfig::Script(script) => {
            assert_eq!(script.shell, LocalEnvironmentScriptShell::Zsh)
        }
        other => panic!("unexpected {other:?}"),
    }
}

#[test]
fn both_or_no_sources_are_errors() {
    let err = resolve_local_environment_config(
        "both",
        LocalEnvironmentToml {
            description: None,
            shell_environment_policy: Some(ShellEnvironmentPolicy::default()),
            script: Some(script_toml("/x/env.sh", None)),
        },
    )
    .unwrap_err();
    assert_eq!(err.problem, LocalEnvironmentSourceProblem::BothSources);
    assert_eq!(
        err.message(),
        "local_environments.both must define exactly one source; found both `shell_environment_policy` and `script`"
    );
    let err = resolve_local_environment_config(
        "none",
        LocalEnvironmentToml {
            description: None,
            shell_environment_policy: None,
            script: None,
        },
    )
    .unwrap_err();
    assert_eq!(err.problem, LocalEnvironmentSourceProblem::NoSource);
    assert_eq!(
        err.message(),
        "local_environments.none must define exactly one source: `shell_environment_policy` or `script`"
    );
}

#[test]
fn configs_resolve_in_order_and_stop_at_first_error() {
    let ok = resolve_local_environment_configs(vec![
        (
            "a".to_string(),
            LocalEnvironmentToml {
                description: None,
                shell_environment_policy: Some(ShellEnvironmentPolicy::default()),
                script: None,
            },
        ),
        (
            "b".to_string(),
            LocalEnvironmentToml {
                description: None,
                shell_environment_policy: None,
                script: Some(script_toml("/x/env.sh", None)),
            },
        ),
    ])
    .expect("all resolve");
    assert_eq!(
        ok.iter().map(|(name, _)| name.as_str()).collect::<Vec<_>>(),
        vec!["a", "b"]
    );
    let err = resolve_local_environment_configs(vec![
        (
            "a".to_string(),
            LocalEnvironmentToml {
                description: None,
                shell_environment_policy: Some(ShellEnvironmentPolicy::default()),
                script: None,
            },
        ),
        (
            "b".to_string(),
            LocalEnvironmentToml {
                description: None,
                shell_environment_policy: None,
                script: None,
            },
        ),
        (
            "c".to_string(),
            LocalEnvironmentToml {
                description: None,
                shell_environment_policy: None,
                script: None,
            },
        ),
    ])
    .unwrap_err();
    assert_eq!(err.name, "b");
}
