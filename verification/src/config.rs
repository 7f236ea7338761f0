use vstd::prelude::*;

use crate::policy::{duplicate_strings, strings_view, ShellEnvironmentPolicy};
use crate::workdir::{path_eq, paths_equal};
use crate::text::{chars_of, push_all, str_eq_ignore_ascii_case, eq_ignore_ascii_case};

verus! {

/// The shell that runs a local environment script.
#[derive(Clone, Copy, Debug, PartialEq, Eq, Structural)]
pub enum LocalEnvironmentScriptShell {
    Sh,
    Bash,
    Zsh,
    Cmd,
    PowerShell,
}

/// A script whose resulting environment defines a local environment.
#[derive(Debug)]
pub struct LocalEnvironmentScriptConfig {
    /// The script's absolute path.
    pub script: String,
    pub shell: LocalEnvironmentScriptShell,
    pub args: Vec<String>,
    /// The directory to run the script in.
    pub cwd: Option<String>,
}

/// The text of an optional string.
pub open spec fn opt_string_view(o: Option<String>) -> Option<Seq<char>> {
    match o {
        Some(s) => Some(s@),
        None => None,
    }
}

/// Every setting of a script configuration, as plain values.
pub type ScriptConfigView = (Seq<char>, LocalEnvironmentScriptShell, Seq<Seq<char>>, Option<Seq<char>>);

impl View for LocalEnvironmentScriptConfig {
    type V = ScriptConfigView;

    open spec fn view(&self) -> ScriptConfigView {
        (self.script@, self.shell, strings_view(self.args@), opt_string_view(self.cwd))
    }
}

/// Whether two lists of strings hold the same texts.
pub fn strings_equal(a: &Vec<String>, b: &Vec<String>) -> (r: bool)
    ensures
        r == (strings_view(a@) == strings_view(b@)),
{
    if a.len() != b.len() {
        assert(strings_view(a@).len() != strings_view(b@).len());
        return false;
    }
    let n = a.len();
    for i in 0..n
        invariant
            n == a@.len(),
            n == b@.len(),
            forall|j: int| 0 <= j < i ==> a@[j]@ == b@[j]@,
    {
        if a[i] != b[i] {
            assert(strings_view(a@)[i as int] != strings_view(b@)[i as int]);
            return false;
        }
    }
    assert(strings_view(a@) =~= strings_view(b@));
    true
}

/// The two optional paths are both absent, or both present and equal as paths.
pub open spec fn opt_path_eq(a: Option<Seq<char>>, b: Option<Seq<char>>) -> bool {
    match (a, b) {
        (Some(x), Some(y)) => path_eq(x, y),
        (None, None) => true,
        _ => false,
    }
}

/// Two script configurations are equal: the script paths and working
/// directories as paths (component by component), the shell and the
/// arguments exactly.
pub open spec fn same_script(a: ScriptConfigView, b: ScriptConfigView) -> bool {
    &&& path_eq(a.0, b.0)
    &&& a.1 == b.1
    &&& a.2 == b.2
    &&& opt_path_eq(a.3, b.3)
}

impl LocalEnvironmentScriptConfig {
    /// A copy of the configuration.
    pub fn duplicate(&self) -> (r: Self)
        ensures
            r@ == self@,
    {
        LocalEnvironmentScriptConfig {
            script: self.script.clone(),
            shell: self.shell,
            args: duplicate_strings(&self.args),
            cwd: match &self.cwd {
                Some(c) => Some(c.clone()),
                None => None,
            },
        }
    }

    /// Whether the two configurations are equal: paths compared as paths,
    /// the shell and the arguments exactly.
    pub fn same_as(&self, other: &Self) -> (r: bool)
        ensures
            r == same_script(self@, other@),
            self@ == other@ ==> r,
    {
        if !paths_equal(self.script.as_str(), other.script.as_str()) || self.shell != other.shell {
            return false;
        }
        if !strings_equal(&self.args, &other.args) {
            return false;
        }
        match (&self.cwd, &other.cwd) {
            (Some(a), Some(b)) => paths_equal(a.as_str(), b.as_str()),
            (None, None) => true,
            _ => false,
        }
    }
}

/// Where a local environment's shell policy comes from.
#[derive(Debug)]
pub enum LocalEnvironmentSourceConfig {
    /// A fixed policy.
    Static(ShellEnvironmentPolicy),
    /// The environment that a script leaves behind.
    Script(LocalEnvironmentScriptConfig),
}

/// A resolved `[local_environments.<name>]` entry.
#[derive(Debug)]
pub struct LocalEnvironmentConfig {
    pub description: Option<String>,
    pub source: LocalEnvironmentSourceConfig,
}

/// The `script` table of a `[local_environments.<name>]` entry as written.
#[derive(Debug)]
pub struct LocalEnvironmentScriptToml {
    pub script: String,
    pub shell: Option<LocalEnvironmentScriptShell>,
    pub args: Vec<String>,
    pub cwd: Option<String>,
}

/// A `[local_environments.<name>]` entry as written: exactly one of the
/// policy and the script must be given.
#[derive(Debug)]
pub struct LocalEnvironmentToml {
    pub description: Option<String>,
    pub shell_environment_policy: Option<ShellEnvironmentPolicy>,
    pub script: Option<LocalEnvironmentScriptToml>,
}

/// What is wrong with a `[local_environments.<name>]` entry.
#[derive(Clone, Copy, Debug, PartialEq, Eq, Structural)]
pub enum LocalEnvironmentSourceProblem {
    /// Both a policy and a script are given.
    BothSources,
    /// Neither a policy nor a script is given.
    NoSource,
}

/// A `[local_environments.<name>]` entry that does not define exactly one source.
#[derive(Debug)]
pub struct LocalEnvironmentConfigError {
    pub name: String,
    pub problem: LocalEnvironmentSourceProblem,
}

/// The text of the error message for entry `name`.
pub open spec fn config_error_message(name: Seq<char>, problem: LocalEnvironmentSourceProblem) -> Seq<char> {
    match problem {
        LocalEnvironmentSourceProblem::BothSources => "local_environments."@ + name
            + " must define exactly one source; found both `shell_environment_policy` and `script`"@,
        LocalEnvironmentSourceProblem::NoSource => "local_environments."@ + name
            + " must define exactly one source: `shell_environment_policy` or `script`"@,
    }
}

impl LocalEnvironmentConfigError {
    /// The message that describes the error.
    pub fn message(&self) -> (m: String)
        ensures
            m@ == config_error_message(self.name@, self.problem),
    {
        let mut m = String::new();
        push_all(&mut m, &chars_of("local_environments."));
        push_all(&mut m, &chars_of(self.name.as_str()));
        match self.problem {
            LocalEnvironmentSourceProblem::BothSources => {
                push_all(&mut m, &chars_of(" must define exactly one source; found both `shell_environment_policy` and `script`"));
            },
            LocalEnvironmentSourceProblem::NoSource => {
                push_all(&mut m, &chars_of(" must define exactly one source: `shell_environment_policy` or `script`"));
            },
        }
        m
    }
}

/// The extension of the file named by `path`, as `Path::extension` gives it.
pub uninterp spec fn path_extension(path: Seq<char>) -> Option<Seq<char>>;

/// Calls `std::path::Path::extension` on `path` and converts the result to a
/// string. Its result is named `path_extension`: how a path is cut into
/// components is left to the name.
#[verifier::external_body]
fn script_extension(path: &str) -> (r: Option<String>)
    ensures
        match r {
            Some(e) => path_extension(path@) == Some(e@),
            None => path_extension(path@) is None,
        },
{
    std::path::Path::new(path).extension().and_then(|e| e.to_str()).map(|e| e.to_owned())
}

/// The shell implied by a script's extension: `bat` and `cmd` run in `cmd`,
/// `ps1` in PowerShell (compared without regard to ASCII case), anything else in `sh`.
pub open spec fn shell_for_extension(ext: Option<Seq<char>>) -> LocalEnvironmentScriptShell {
    match ext {
        Some(e) => if eq_ignore_ascii_case(e, "bat"@) || eq_ignore_ascii_case(e, "cmd"@) {
            LocalEnvironmentScriptShell::Cmd
        } else if eq_ignore_ascii_case(e, "ps1"@) {
            LocalEnvironmentScriptShell::PowerShell
        } else {
            LocalEnvironmentScriptShell::Sh
        },
        None => LocalEnvironmentScriptShell::Sh,
    }
}

/// The shell implied by a script's extension.
pub fn script_shell_for_extension(ext: Option<&str>) -> (shell: LocalEnvironmentScriptShell)
    ensures
        shell == shell_for_extension(
            match ext {
                Some(e) => Some(e@),
                None => None,
            },
        ),
{
    match ext {
        Some(e) => {
            if str_eq_ignore_ascii_case(e, "bat") || str_eq_ignore_ascii_case(e, "cmd") {
                LocalEnvironmentScriptShell::Cmd
            } else if str_eq_ignore_ascii_case(e, "ps1") {
                LocalEnvironmentScriptShell::PowerShell
            } else {
                LocalEnvironmentScriptShell::Sh
            }
        },
        None => LocalEnvironmentScriptShell::Sh,
    }
}

/// The shell for a script whose shell is not given, by its extension.
pub fn default_script_shell(script: &str) -> (shell: LocalEnvironmentScriptShell)
    ensures
        shell == shell_for_extension(path_extension(script@)),
{
    let ext = script_extension(script);
    match ext {
        Some(e) => script_shell_for_extension(Some(e.as_str())),
        None => script_shell_for_extension(None),
    }
}

/// The resolved entry, when it defines exactly one source.
pub open spec fn resolved_config(environment: LocalEnvironmentToml) -> Option<LocalEnvironmentConfig> {
    match (environment.shell_environment_policy, environment.script) {
        (Some(policy), None) => Some(
            LocalEnvironmentConfig {
                description: environment.description,
                source: LocalEnvironmentSourceConfig::Static(policy),
            },
        ),
        (None, Some(script)) => Some(
            LocalEnvironmentConfig {
                description: environment.description,
                source: LocalEnvironmentSourceConfig::Script(
                    LocalEnvironmentScriptConfig {
                        script: script.script,
                        shell: match script.shell {
                            Some(shell) => shell,
                            None => shell_for_extension(path_extension(script.script@)),
                        },
                        args: script.args,
                        cwd: script.cwd,
                    },
                ),
            },
        ),
        _ => None,
    }
}

/// What is wrong with an entry that does not define exactly one source.
pub open spec fn source_problem(environment: LocalEnvironmentToml) -> LocalEnvironmentSourceProblem {
    if environment.shell_environment_policy is Some {
        LocalEnvironmentSourceProblem::BothSources
    } else {
        LocalEnvironmentSourceProblem::NoSource
    }
}

/// Resolves one `[local_environments.<name>]` entry: its policy or its script
/// (with the shell taken from the extension when not given); an error when
/// both or neither are given.
pub fn resolve_local_environment_config(name: &str, environment: LocalEnvironmentToml) -> (r: Result<
    LocalEnvironmentConfig,
    LocalEnvironmentConfigError,
>)
    ensures
        match r {
            Ok(config) => resolved_config(environment) == Some(config),
            Err(e) => resolved_config(environment) is None && e.name@ == name@ && e.problem
                == source_problem(environment),
        },
{
    let LocalEnvironmentToml { description, shell_environment_policy, script } = environment;
    match (shell_environment_policy, script) {
        (Some(shell_environment_policy), None) => Ok(
            LocalEnvironmentConfig {
                description,
                source: LocalEnvironmentSourceConfig::Static(shell_environment_policy),
            },
        ),
        (None, Some(script)) => {
            let shell = match script.shell {
                Some(shell) => shell,
                None => default_script_shell(script.script.as_str()),
            };
            Ok(
                LocalEnvironmentConfig {
                    description,
                    source: LocalEnvironmentSourceConfig::Script(
                        LocalEnvironmentScriptConfig {
                            shell,
                            script: script.script,
                            args: script.args,
                            cwd: script.cwd,
                        },
                    ),
                },
            )
        },
        (Some(_), Some(_)) => Err(
            LocalEnvironmentConfigError {
                name: name.to_owned(),
                problem: LocalEnvironmentSourceProblem::BothSources,
            },
        ),
        (None, None) => Err(
            LocalEnvironmentConfigError {
                name: name.to_owned(),
                problem: LocalEnvironmentSourceProblem::NoSource,
            },
        ),
    }
}

/// `a` comes before `b` in the order of `String`: character codes compared
/// one by one, a proper prefix first (the order of the UTF-8 bytes).
pub open spec fn text_lt(a: Seq<char>, b: Seq<char>) -> bool
    decreases a.len(),
{
    if a.len() == 0 {
        b.len() > 0
    } else if b.len() == 0 {
        false
    } else if (a[0] as u32) < (b[0] as u32) {
        true
    } else if a[0] == b[0] {
        text_lt(a.drop_first(), b.drop_first())
    } else {
        false
    }
}

/// The names are distinct and in increasing order, as the keys of a map
/// ordered by name.
pub open spec fn names_sorted<T>(entries: Seq<(String, T)>) -> bool {
    forall|i: int, j: int| 0 <= i < j < entries.len() ==> text_lt(entries[i].0@, entries[j].0@)
}

/// Resolves every entry of a table ordered by name; when some entry does not
/// define exactly one source, the error is that of the smallest such name.
pub fn resolve_local_environment_configs(local_environments: Vec<(String, LocalEnvironmentToml)>) -> (r: Result<
    Vec<(String, LocalEnvironmentConfig)>,
    LocalEnvironmentConfigError,
>)
    requires
        names_sorted(local_environments@),
    ensures
        match r {
            Ok(configs) => {
                &&& configs@.len() == local_environments@.len()
                &&& forall|i: int|
                    0 <= i < configs@.len() ==> (#[trigger] configs@[i]).0 == local_environments@[i].0
                        && resolved_config(local_environments@[i].1) == Some(configs@[i].1)
            },
            Err(e) => exists|i: int|
                0 <= i < local_environments@.len() && resolved_config(
                    #[trigger] local_environments@[i].1,
                ) is None && e.name@ == local_environments@[i].0@ && e.problem == source_problem(
                    local_environments@[i].1,
                ) && (forall|j: int| 0 <= j < i ==> resolved_config(local_environments@[j].1) is Some)
                    && forall|j: int|
                    0 <= j < local_environments@.len() && j != i && resolved_config(
                        local_environments@[j].1,
                    ) is None ==> text_lt(local_environments@[i].0@, local_environments@[j].0@),
        },
{
    let ghost orig = local_environments@;
    let mut rest = local_environments;
    let mut configs: Vec<(String, LocalEnvironmentConfig)> = Vec::new();
    let n = rest.len();
    let mut i: usize = 0;
    #[verifier::loop_isolation(false)]
    while i < n
        invariant
            n == orig.len(),
            i <= n,
            rest@ == orig.subrange(i as int, n as int),
            configs@.len() == i,
            forall|x: int|
                0 <= x < i ==> (#[trigger] configs@[x]).0 == orig[x].0 && resolved_config(orig[x].1)
                    == Some(configs@[x].1),
        decreases n - i,
    {
        let (name, environment) = rest.remove(0);
        assert(orig[i as int] == (name, environment));
        match resolve_local_environment_config(name.as_str(), environment) {
            Ok(config) => {
                configs.push((name, config));
            },
            Err(e) => {
                assert forall|j: int| 0 <= j < i implies resolved_config(orig[j].1) is Some by {
                    assert(resolved_config(orig[j].1) == Some(configs@[j].1));
                }
                assert(resolved_config(orig[i as int].1) is None);
                assert(e.name@ == orig[i as int].0@);
                assert(e.problem == source_problem(orig[i as int].1));
                assert(0 <= i < orig.len());
                assert forall|j: int|
                    0 <= j < orig.len() && j != i && resolved_config(orig[j].1) is None implies text_lt(
                        orig[i as int].0@,
                        orig[j].0@,
                    ) by {
                    if j < i {
                        assert(resolved_config(orig[j].1) == Some(configs@[j].1));
                    }
                }
                return Err(e);
            },
        }
        i = i + 1;
        assert(rest@ =~= orig.subrange(i as int, n as int));
    }
    Ok(configs)
}

} // verus!
