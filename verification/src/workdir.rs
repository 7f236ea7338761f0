use vstd::prelude::*;

use crate::policy::strings_view;
use crate::text::{chars_of, push_all};

verus! {

/// Whether `Path::eq` finds the two paths equal (component by component).
pub uninterp spec fn path_eq(a: Seq<char>, b: Seq<char>) -> bool;

/// What `Path::parent` gives for the path.
pub uninterp spec fn path_parent(p: Seq<char>) -> Option<Seq<char>>;

/// Whether `Path::starts_with` finds that `base` is a prefix of `p` (whole components only).
pub uninterp spec fn path_starts_with(p: Seq<char>, base: Seq<char>) -> bool;

/// Calls `Path::eq` on two paths. Its result is named `path_eq`: how paths
/// are cut into components is left to the name. `Path` implements `Eq`, so
/// a path written the same way compares equal to itself.
#[verifier::external_body]
pub(crate) fn paths_equal(a: &str, b: &str) -> (r: bool)
    ensures
        r == path_eq(a@, b@),
        a@ == b@ ==> r,
{
    std::path::Path::new(a) == std::path::Path::new(b)
}

/// Calls `Path::parent` and converts the result to a string. Its result is
/// named `path_parent`.
#[verifier::external_body]
fn parent_of(p: &str) -> (r: Option<String>)
    ensures
        match r {
            Some(q) => path_parent(p@) == Some(q@),
            None => path_parent(p@) is None,
        },
{
    std::path::Path::new(p).parent().map(|q| q.to_string_lossy().into_owned())
}

/// Calls `Path::starts_with`. Its result is named `path_starts_with`.
#[verifier::external_body]
fn path_has_prefix(p: &str, base: &str) -> (r: bool)
    ensures
        r == path_starts_with(p@, base@),
{
    std::path::Path::new(p).starts_with(std::path::Path::new(base))
}

/// `cwd` lies in the project whose `.codex` folder is `dot_codex_folder`: it
/// is the project's root or lies below it.
pub open spec fn in_project(cwd: Seq<char>, dot_codex_folder: Seq<char>) -> bool {
    path_parent(dot_codex_folder) matches Some(root) && (path_eq(cwd, root) || path_starts_with(
        cwd,
        root,
    ))
}

/// A command run in `cwd` needs the configuration reloaded: `cwd` is not the
/// session's directory and lies in none of the projects whose configuration
/// is already loaded.
pub open spec fn requires_config_refresh(
    base_cwd: Seq<char>,
    cwd: Seq<char>,
    dot_codex_folders: Seq<Seq<char>>,
) -> bool {
    !path_eq(cwd, base_cwd) && !exists|i: int|
        0 <= i < dot_codex_folders.len() && #[trigger] in_project(cwd, dot_codex_folders[i])
}

/// Whether a command run in `cwd` needs the configuration reloaded, given the
/// session's directory and the `.codex` folders of the loaded project layers.
pub fn cwd_requires_config_refresh(base_cwd: &str, cwd: &str, dot_codex_folders: &Vec<String>) -> (r: bool)
    ensures
        r == requires_config_refresh(base_cwd@, cwd@, strings_view(dot_codex_folders@)),
{
    if paths_equal(cwd, base_cwd) {
        return false;
    }
    let ghost folders = strings_view(dot_codex_folders@);
    let n = dot_codex_folders.len();
    for i in 0..n
        invariant
            n == dot_codex_folders@.len(),
            folders == strings_view(dot_codex_folders@),
            forall|j: int| 0 <= j < i ==> !#[trigger] in_project(cwd@, folders[j]),
    {
        assert(folders[i as int] == dot_codex_folders@[i as int]@);
        if let Some(project_root) = parent_of(dot_codex_folders[i].as_str()) {
            if paths_equal(cwd, project_root.as_str()) || path_has_prefix(cwd, project_root.as_str()) {
                assert(in_project(cwd@, folders[i as int]));
                return false;
            }
        }
    }
    true
}

/// Where the shell policy for a command comes from.
#[derive(Debug, PartialEq, Eq)]
pub enum PolicySource {
    /// The turn's own policy (the configuration did not need reloading).
    Turn,
    /// The local environment of this name in the reloaded configuration.
    LocalEnvironment(String),
    /// The reloaded configuration's `shell_environment_policy`.
    Permissions,
}

/// The texts of an optional string.
pub open spec fn opt_view(o: Option<&str>) -> Option<Seq<char>> {
    match o {
        Some(s) => Some(s@),
        None => None,
    }
}

/// The local environment to use: the turn's choice when the reloaded
/// configuration defines it, otherwise the configuration's default.
pub open spec fn selected_local_environment(
    turn_selection: Option<Seq<char>>,
    available: Seq<Seq<char>>,
    default_selection: Option<Seq<char>>,
) -> Option<Seq<char>> {
    match turn_selection {
        Some(t) => if available.contains(t) {
            Some(t)
        } else {
            default_selection
        },
        None => default_selection,
    }
}

/// Picks where the shell policy for a command comes from: the turn's policy
/// when the configuration was not reloaded; otherwise the selected local
/// environment when the reloaded configuration defines it; otherwise the
/// reloaded configuration's policy.
pub fn select_shell_policy_source(
    refreshed: bool,
    turn_selection: Option<&str>,
    available: &Vec<String>,
    default_selection: Option<&str>,
) -> (r: PolicySource)
    ensures
        !refreshed ==> r == PolicySource::Turn,
        refreshed ==> match selected_local_environment(
            opt_view(turn_selection),
            strings_view(available@),
            opt_view(default_selection),
        ) {
            Some(s) => if strings_view(available@).contains(s) {
                r matches PolicySource::LocalEnvironment(name) && name@ == s
            } else {
                r == PolicySource::Permissions
            },
            None => r == PolicySource::Permissions,
        },
{
    if !refreshed {
        return PolicySource::Turn;
    }
    let selected: Option<&str> = match turn_selection {
        Some(t) => if contains_name(available, t) {
            Some(t)
        } else {
            default_selection
        },
        None => default_selection,
    };
    match selected {
        Some(s) => if contains_name(available, s) {
            PolicySource::LocalEnvironment(s.to_owned())
        } else {
            PolicySource::Permissions
        },
        None => PolicySource::Permissions,
    }
}

/// Whether `names` holds `name`.
fn contains_name(names: &Vec<String>, name: &str) -> (r: bool)
    ensures
        r == strings_view(names@).contains(name@),
{
    let wanted = name.to_owned();
    let n = names.len();
    for i in 0..n
        invariant
            n == names@.len(),
            wanted@ == name@,
            forall|j: int| 0 <= j < i ==> names@[j]@ != name@,
    {
        if names[i] == wanted {
            assert(strings_view(names@)[i as int] == name@);
            return true;
        }
    }
    proof {
        if strings_view(names@).contains(name@) {
            let k = choose|k: int| 0 <= k < strings_view(names@).len() && strings_view(names@)[k] == name@;
            assert(names@[k]@ == name@);
        }
    }
    false
}

/// The message for a selected local environment whose policy could not be
/// resolved for a command run in `cwd`.
pub open spec fn resolution_failure_message_spec(name: Seq<char>, cwd: Seq<char>, error: Seq<char>) -> Seq<char> {
    "failed to resolve local environment `"@ + name + "` for "@ + cwd + ": "@ + error
}

/// The message for a selected local environment whose policy could not be
/// resolved for a command run in `cwd`, given the resolution's own error text.
pub fn resolution_failure_message(name: &str, cwd: &str, error: &str) -> (m: String)
    ensures
        m@ == resolution_failure_message_spec(name@, cwd@, error@),
{
    let mut m = String::new();
    push_all(&mut m, &chars_of("failed to resolve local environment `"));
    push_all(&mut m, &chars_of(name));
    push_all(&mut m, &chars_of("` for "));
    push_all(&mut m, &chars_of(cwd));
    push_all(&mut m, &chars_of(": "));
    push_all(&mut m, &chars_of(error));
    m
}

/// The message for a command whose working directory needs the configuration
/// reloaded when that reload fails.
pub open spec fn config_load_failure_message_spec(cwd: Seq<char>, error: Seq<char>) -> Seq<char> {
    "failed to load project config for "@ + cwd + ": "@ + error
}

/// The message for a failed configuration reload for a command run in `cwd`,
/// given the loader's own error text.
pub fn config_load_failure_message(cwd: &str, error: &str) -> (m: String)
    ensures
        m@ == config_load_failure_message_spec(cwd@, error@),
{
    let mut m = String::new();
    push_all(&mut m, &chars_of("failed to load project config for "));
    push_all(&mut m, &chars_of(cwd));
    push_all(&mut m, &chars_of(": "));
    push_all(&mut m, &chars_of(error));
    m
}

/// A command run in the session's own directory needs no reload.
pub proof fn law_session_cwd_needs_no_refresh(
    base_cwd: Seq<char>,
    cwd: Seq<char>,
    dot_codex_folders: Seq<Seq<char>>,
)
    requires
        path_eq(cwd, base_cwd),
    ensures
        !requires_config_refresh(base_cwd, cwd, dot_codex_folders),
{
}

/// A command run at the root of a project whose configuration is loaded, or
/// anywhere below it, needs no reload.
pub proof fn law_loaded_project_needs_no_refresh(
    base_cwd: Seq<char>,
    cwd: Seq<char>,
    dot_codex_folders: Seq<Seq<char>>,
    i: int,
    root: Seq<char>,
)
    requires
        0 <= i < dot_codex_folders.len(),
        path_parent(dot_codex_folders[i]) == Some(root),
        path_eq(cwd, root) || path_starts_with(cwd, root),
    ensures
        !requires_config_refresh(base_cwd, cwd, dot_codex_folders),
{
    assert(in_project(cwd, dot_codex_folders[i]));
}

/// A command run outside the session's directory and outside every loaded
/// project (neither at a project's root nor below it) needs a reload.
pub proof fn law_unknown_cwd_needs_refresh(base_cwd: Seq<char>, cwd: Seq<char>, dot_codex_folders: Seq<Seq<char>>)
    requires
        !path_eq(cwd, base_cwd),
        forall|i: int|
            0 <= i < dot_codex_folders.len() ==> match #[trigger] path_parent(dot_codex_folders[i]) {
                Some(root) => !path_eq(cwd, root) && !path_starts_with(cwd, root),
                None => true,
            },
    ensures
        requires_config_refresh(base_cwd, cwd, dot_codex_folders),
{
    assert forall|i: int| 0 <= i < dot_codex_folders.len() implies !#[trigger] in_project(
        cwd,
        dot_codex_folders[i],
    ) by {
        let _ = path_parent(dot_codex_folders[i]);
    }
}

/// The turn's local environment is used whenever the reloaded configuration
/// defines it.
pub proof fn law_turn_selection_wins_when_defined(
    turn: Seq<char>,
    available: Seq<Seq<char>>,
    default_selection: Option<Seq<char>>,
)
    requires
        available.contains(turn),
    ensures
        selected_local_environment(Some(turn), available, default_selection) == Some(turn),
{
}

/// Without a turn selection that the reloaded configuration defines, the
/// configuration's default local environment is the one selected (so a
/// defined default leads to that local environment's policy).
pub proof fn law_default_selected_otherwise(
    turn_selection: Option<Seq<char>>,
    available: Seq<Seq<char>>,
    default_selection: Option<Seq<char>>,
)
    requires
        turn_selection matches Some(t) ==> !available.contains(t),
    ensures
        selected_local_environment(turn_selection, available, default_selection) == default_selection,
{
}

} // verus!
