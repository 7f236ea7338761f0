# codex_local_env

Verified building blocks for the environment of shells spawned by an agent:

- `shell_environment`: builds a shell's environment from the parent's
  variables under a `ShellEnvironmentPolicy` (inherit, excludes, overrides,
  `PATH` entries, include filter, thread id), on Windows or Unix conventions.
- `snapshot`: reads the environment a local environment script leaves behind,
  from `env -0` output or from `NAME=value` lines.
- `capture`: the commands that run such a script and print its environment,
  with POSIX, PowerShell and `cmd` quoting, and how their output is judged.
- `config`, `resolve`: `[local_environments]` entries and the cache of
  captured environments.
- `workdir`: whether a command's working directory needs the configuration
  reloaded, where its shell policy comes from, and the error reported when a
  selected local environment cannot be resolved. Reloading the configuration
  itself needs the host application's configuration loader and is not part
  of this crate.
- `populate_laws`, `snapshot_laws`, `quote_laws`: properties proved of the above.

`app/` holds the process-facing part: reading the process environment,
spawning scripts with `tokio`, temporary batch files.
