use vstd::prelude::*;

use crate::env_map::{
    has_key_ci, insert_exact, key_index_ci, keys_distinct, lemma_insert_exact_distinct,
    match_filter, remove_exact, value_of, EnvMap, EnvSeq,
};
use crate::pattern::{pattern_texts, EnvironmentVariablePattern};
use crate::policy::{strings_view, Platform, PolicyView, ShellEnvironmentPolicy, ShellEnvironmentPolicyInherit};
use crate::text::{chars_of, eq_ignore_ascii_case, push_all, str_eq_ignore_ascii_case};

verus! {

/// The variable that carries the thread id into spawned shells.
pub const CODEX_THREAD_ID_ENV_VAR: &'static str = "CODEX_THREAD_ID";

/// The texts of a list of `(name, value)` pairs.
pub open spec fn pairs_view(v: Seq<(String, String)>) -> EnvSeq {
    v.map_values(|p: (String, String)| (p.0@, p.1@))
}

/// The text of an optional string.
pub open spec fn opt_str_view(o: Option<&str>) -> Option<Seq<char>> {
    match o {
        Some(s) => Some(s@),
        None => None,
    }
}

/// Collecting pairs into an environment: a later pair for a name replaces
/// the value of an earlier one.
pub open spec fn env_from_pairs(vars: EnvSeq) -> EnvSeq
    decreases vars.len(),
{
    if vars.len() == 0 {
        Seq::empty()
    } else {
        insert_exact(env_from_pairs(vars.drop_last()), vars.last().0, vars.last().1)
    }
}

/// The names that `inherit = core` keeps on each platform.
pub open spec fn core_env_var_names(platform: Platform) -> Seq<Seq<char>> {
    match platform {
        Platform::Unix => seq![
            "PATH"@,
            "SHELL"@,
            "TMPDIR"@,
            "TEMP"@,
            "TMP"@,
            "HOME"@,
            "LANG"@,
            "LC_ALL"@,
            "LC_CTYPE"@,
            "LOGNAME"@,
            "USER"@,
        ],
        Platform::Windows => seq![
            "PATH"@,
            "PATHEXT"@,
            "SHELL"@,
            "COMSPEC"@,
            "SYSTEMROOT"@,
            "SYSTEMDRIVE"@,
            "USERNAME"@,
            "USERDOMAIN"@,
            "USERPROFILE"@,
            "HOMEDRIVE"@,
            "HOMEPATH"@,
            "PROGRAMFILES"@,
            "PROGRAMFILES(X86)"@,
            "PROGRAMW6432"@,
            "PROGRAMDATA"@,
            "LOCALAPPDATA"@,
            "APPDATA"@,
            "TEMP"@,
            "TMP"@,
            "TMPDIR"@,
            "POWERSHELL"@,
            "PWSH"@,
        ],
    }
}

/// `name` is one of the platform's core variables, up to ASCII case.
pub open spec fn is_core_env_var(name: Seq<char>, platform: Platform) -> bool {
    exists|i: int|
        0 <= i < core_env_var_names(platform).len() && #[trigger] eq_ignore_ascii_case(
            core_env_var_names(platform)[i],
            name,
        )
}

/// Keeps the pairs whose names are core variables.
pub open spec fn core_filter(platform: Platform) -> spec_fn((Seq<char>, Seq<char>)) -> bool {
    |e: (Seq<char>, Seq<char>)| is_core_env_var(e.0, platform)
}

/// The starting environment chosen by `inherit`.
pub open spec fn inherited_env(
    vars: EnvSeq,
    inherit: ShellEnvironmentPolicyInherit,
    platform: Platform,
) -> EnvSeq {
    match inherit {
        ShellEnvironmentPolicyInherit::All => env_from_pairs(vars),
        ShellEnvironmentPolicyInherit::Empty => Seq::empty(),
        ShellEnvironmentPolicyInherit::Core => env_from_pairs(vars.filter(core_filter(platform))),
    }
}

/// The patterns that are excluded unless `ignore_default_excludes` is set.
pub open spec fn default_exclude_patterns() -> Seq<Seq<char>> {
    seq!["*KEY*"@, "*SECRET*"@, "*TOKEN*"@]
}

/// Sets `key` to `value`. On Windows a name that matches `key` up to ASCII
/// case keeps its spelling and takes the value; otherwise the name is set
/// exactly.
pub open spec fn insert_env_value_spec(
    env: EnvSeq,
    key: Seq<char>,
    value: Seq<char>,
    platform: Platform,
) -> EnvSeq {
    if platform == Platform::Windows && has_key_ci(env, key) {
        env.update(key_index_ci(env, key), (env[key_index_ci(env, key)].0, value))
    } else {
        insert_exact(env, key, value)
    }
}

/// Applies the `set` overrides in order.
pub open spec fn apply_overrides(env: EnvSeq, overrides: EnvSeq, platform: Platform) -> EnvSeq
    decreases overrides.len(),
{
    if overrides.len() == 0 {
        env
    } else {
        insert_env_value_spec(
            apply_overrides(env, overrides.drop_last(), platform),
            overrides.last().0,
            overrides.last().1,
            platform,
        )
    }
}

/// The `PATH` separator of the platform.
pub open spec fn path_separator(platform: Platform) -> Seq<char> {
    match platform {
        Platform::Windows => ";"@,
        Platform::Unix => ":"@,
    }
}

/// The non-empty texts, in order.
pub open spec fn non_empty(segments: Seq<Seq<char>>) -> Seq<Seq<char>> {
    segments.filter(|s: Seq<char>| s.len() > 0)
}

/// The texts joined with `sep` between neighbours.
pub open spec fn join(segments: Seq<Seq<char>>, sep: Seq<char>) -> Seq<char>
    decreases segments.len(),
{
    if segments.len() == 0 {
        Seq::empty()
    } else if segments.len() == 1 {
        segments[0]
    } else {
        join(segments.drop_last(), sep) + sep + segments.last()
    }
}

/// The name under which `PATH` is kept: the first name that matches `PATH` up
/// to ASCII case, or `PATH` itself.
pub open spec fn path_key(env: EnvSeq) -> Seq<char> {
    if has_key_ci(env, "PATH"@) {
        env[key_index_ci(env, "PATH"@)].0
    } else {
        "PATH"@
    }
}

/// The merged `PATH` value: the non-empty prepended entries, the current
/// value when it is not empty, and the non-empty appended entries.
pub open spec fn merged_path(
    existing: Seq<char>,
    prepend: Seq<Seq<char>>,
    append: Seq<Seq<char>>,
    platform: Platform,
) -> Seq<char> {
    let middle: Seq<Seq<char>> = if existing.len() > 0 {
        seq![existing]
    } else {
        Seq::empty()
    };
    join(non_empty(prepend) + middle + non_empty(append), path_separator(platform))
}

/// Moves the prepended and appended entries into `PATH`.
pub open spec fn merge_path_entries_spec(
    env: EnvSeq,
    prepend: Seq<Seq<char>>,
    append: Seq<Seq<char>>,
    platform: Platform,
) -> EnvSeq {
    let key = path_key(env);
    let existing = match value_of(env, key) {
        Some(v) => v,
        None => Seq::empty(),
    };
    insert_env_value_spec(
        remove_exact(env, key),
        key,
        merged_path(existing, prepend, append, platform),
        platform,
    )
}

/// The environment after the exclusion steps.
pub open spec fn excluded_env(vars: EnvSeq, policy: PolicyView, platform: Platform) -> EnvSeq {
    let s1 = inherited_env(vars, policy.0, platform);
    let s2 = if !policy.1 {
        s1.filter(match_filter(default_exclude_patterns(), false))
    } else {
        s1
    };
    if policy.2.len() > 0 {
        s2.filter(match_filter(policy.2, false))
    } else {
        s2
    }
}

/// The environment after the overrides and the `PATH` merge.
pub open spec fn overridden_env(vars: EnvSeq, policy: PolicyView, platform: Platform) -> EnvSeq {
    let s3 = excluded_env(vars, policy, platform);
    let s4 = apply_overrides(s3, policy.3, platform);
    if policy.4.len() > 0 || policy.5.len() > 0 {
        merge_path_entries_spec(s4, policy.4, policy.5, platform)
    } else {
        s4
    }
}

/// The environment after the `include_only` filter.
pub open spec fn included_env(vars: EnvSeq, policy: PolicyView, platform: Platform) -> EnvSeq {
    let s5 = overridden_env(vars, policy, platform);
    if policy.6.len() > 0 {
        s5.filter(match_filter(policy.6, true))
    } else {
        s5
    }
}

/// The environment that `populate_env` builds, step by step: inherit, drop the
/// default excludes unless ignored, drop the custom excludes, apply the
/// overrides, merge `PATH` entries, keep only `include_only` names when that
/// list is not empty, and set the thread id when one is given.
pub open spec fn populate_env_spec(
    vars: EnvSeq,
    policy: PolicyView,
    thread_id: Option<Seq<char>>,
    platform: Platform,
) -> EnvSeq {
    let s6 = included_env(vars, policy, platform);
    match thread_id {
        Some(t) => insert_env_value_spec(s6, "CODEX_THREAD_ID"@, t, platform),
        None => s6,
    }
}

/// `create_env_from_vars` adds `PATHEXT` on Windows when no name matches it.
pub open spec fn create_env_spec(
    vars: EnvSeq,
    policy: PolicyView,
    thread_id: Option<Seq<char>>,
    platform: Platform,
) -> EnvSeq {
    let env = populate_env_spec(vars, policy, thread_id, platform);
    if platform == Platform::Windows && !has_key_ci(env, "PATHEXT"@) {
        insert_exact(env, "PATHEXT"@, ".COM;.EXE;.BAT;.CMD"@)
    } else {
        env
    }
}

/// Setting a variable keeps names distinct.
pub proof fn lemma_insert_env_value_distinct(env: EnvSeq, key: Seq<char>, value: Seq<char>, platform: Platform)
    requires
        keys_distinct(env),
    ensures
        keys_distinct(insert_env_value_spec(env, key, value, platform)),
{
    if platform == Platform::Windows && has_key_ci(env, key) {
        let i = choose|i: int| 0 <= i < env.len() && eq_ignore_ascii_case(#[trigger] env[i].0, key);
        crate::env_map::lemma_first_key_ci_exists(env, key, i);
    } else {
        lemma_insert_exact_distinct(env, key, value);
    }
}

/// The platform's core variable names.
fn core_env_vars(platform: Platform) -> (v: Vec<&'static str>)
    ensures
        v@.map_values(|s: &str| s@) == core_env_var_names(platform),
{
    let v = match platform {
        Platform::Unix => vec![
            "PATH",
            "SHELL",
            "TMPDIR",
            "TEMP",
            "TMP",
            "HOME",
            "LANG",
            "LC_ALL",
            "LC_CTYPE",
            "LOGNAME",
            "USER",
        ],
        Platform::Windows => vec![
            "PATH",
            "PATHEXT",
            "SHELL",
            "COMSPEC",
            "SYSTEMROOT",
            "SYSTEMDRIVE",
            "USERNAME",
            "USERDOMAIN",
            "USERPROFILE",
            "HOMEDRIVE",
            "HOMEPATH",
            "PROGRAMFILES",
            "PROGRAMFILES(X86)",
            "PROGRAMW6432",
            "PROGRAMDATA",
            "LOCALAPPDATA",
            "APPDATA",
            "TEMP",
            "TMP",
            "TMPDIR",
            "POWERSHELL",
            "PWSH",
        ],
    };
    assert(v@.map_values(|s: &str| s@) =~= core_env_var_names(platform));
    v
}

/// Whether `name` is one of the platform's core variables, up to ASCII case.
pub fn is_core_env_var_name(name: &str, platform: Platform) -> (r: bool)
    ensures
        r == is_core_env_var(name@, platform),
{
    let core = core_env_vars(platform);
    let ghost names = core_env_var_names(platform);
    let n = core.len();
    for i in 0..n
        invariant
            n == core@.len(),
            names == core_env_var_names(platform),
            core@.map_values(|s: &str| s@) == names,
            forall|j: int| 0 <= j < i ==> !#[trigger] eq_ignore_ascii_case(names[j], name@),
    {
        assert(core@.map_values(|s: &str| s@)[i as int] == core@[i as int]@);
        if str_eq_ignore_ascii_case(core[i], name) {
            return true;
        }
    }
    false
}

/// Collects `(name, value)` pairs into an environment; a later pair for a
/// name replaces the value of an earlier one.
pub fn env_from_vars(vars: &Vec<(String, String)>) -> (env: EnvMap)
    ensures
        env@ == env_from_pairs(pairs_view(vars@)),
{
    let ghost pv = pairs_view(vars@);
    let mut env = EnvMap::new();
    let n = vars.len();
    for i in 0..n
        invariant
            n == vars@.len(),
            pv == pairs_view(vars@),
            env@ == env_from_pairs(pv.take(i as int)),
    {
        let k = vars[i].0.clone();
        let v = vars[i].1.clone();
        assert(pv.take(i + 1).drop_last() =~= pv.take(i as int));
        env.insert(k, v);
    }
    assert(pv.take(n as int) =~= pv);
    env
}

/// The pairs of `vars` whose names are core variables, collected.
fn core_env_from_vars(vars: &Vec<(String, String)>, platform: Platform) -> (env: EnvMap)
    ensures
        env@ == env_from_pairs(pairs_view(vars@).filter(core_filter(platform))),
{
    let ghost pv = pairs_view(vars@);
    let ghost pred = core_filter(platform);
    let mut kept: Vec<(String, String)> = Vec::new();
    let n = vars.len();
    for i in 0..n
        invariant
            n == vars@.len(),
            pv == pairs_view(vars@),
            pred == core_filter(platform),
            pairs_view(kept@) == pv.take(i as int).filter(pred),
    {
        reveal(Seq::filter);
        assert(pv.take(i + 1).drop_last() =~= pv.take(i as int));
        if is_core_env_var_name(vars[i].0.as_str(), platform) {
            let k = vars[i].0.clone();
            let v = vars[i].1.clone();
            kept.push((k, v));
            assert(pairs_view(kept@) =~= pv.take(i as int).filter(pred).push(pv[i as int]));
        }
    }
    assert(pv.take(n as int) =~= pv);
    env_from_vars(&kept)
}

/// Sets `key` to `value`; on Windows a name that already matches `key` up to
/// ASCII case keeps its spelling and takes the new value.
pub fn insert_env_value(env_map: &mut EnvMap, key: &str, value: String, platform: Platform)
    ensures
        final(env_map)@ == insert_env_value_spec(old(env_map)@, key@, value@, platform),
{
    if platform == Platform::Windows {
        if let Some(i) = env_map.find_ignore_ascii_case(key) {
            env_map.set_value_at(i, value);
            return;
        }
    }
    env_map.insert(key.to_owned(), value);
}

/// Applies every override of `overrides`, in order.
fn apply_overrides_exec(env_map: &mut EnvMap, overrides: &EnvMap, platform: Platform)
    ensures
        final(env_map)@ == apply_overrides(old(env_map)@, overrides@, platform),
{
    let ghost start = env_map@;
    let n = overrides.len();
    for i in 0..n
        invariant
            n == overrides@.len(),
            env_map@ == apply_overrides(start, overrides@.take(i as int), platform),
    {
        assert(overrides@.take(i + 1).drop_last() =~= overrides@.take(i as int));
        let value = overrides.value_at(i).clone();
        insert_env_value(env_map, overrides.key_at(i).as_str(), value, platform);
    }
    assert(overrides@.take(n as int) =~= overrides@);
}

/// Appends the non-empty entries of `from` to `segments`.
fn push_non_empty(segments: &mut Vec<String>, from: &Vec<String>)
    ensures
        strings_view(final(segments)@) == strings_view(old(segments)@) + non_empty(strings_view(from@)),
{
    let ghost sv = strings_view(from@);
    let ghost start = strings_view(segments@);
    let n = from.len();
    for i in 0..n
        invariant
            n == from@.len(),
            sv == strings_view(from@),
            strings_view(segments@) == start + non_empty(sv.take(i as int)),
    {
        reveal(Seq::filter);
        assert(sv.take(i + 1).drop_last() =~= sv.take(i as int));
        if !from[i].as_str().is_empty() {
            let seg = from[i].clone();
            let ghost before = strings_view(segments@);
            assert(seg@ == sv[i as int]);
            segments.push(seg);
            assert(strings_view(segments@) =~= before.push(sv[i as int]));
            assert(strings_view(segments@) =~= start + non_empty(sv.take(i as int)).push(sv[i as int]));
        } else {
            assert(strings_view(segments@) =~= start + non_empty(sv.take(i as int)));
        }
    }
    assert(sv.take(n as int) =~= sv);
}

/// The entries of `segments` joined with `sep` between neighbours.
pub fn join_strings(segments: &Vec<String>, sep: &str) -> (r: String)
    ensures
        r@ == join(strings_view(segments@), sep@),
{
    let ghost sv = strings_view(segments@);
    let sep_chars = chars_of(sep);
    let mut r = String::new();
    let n = segments.len();
    for i in 0..n
        invariant
            n == segments@.len(),
            sv == strings_view(segments@),
            sep_chars@ == sep@,
            r@ == join(sv.take(i as int), sep@),
    {
        let seg = chars_of(segments[i].as_str());
        if i > 0 {
            push_all(&mut r, &sep_chars);
        }
        push_all(&mut r, &seg);
        assert(sv.take(i + 1).drop_last() =~= sv.take(i as int));
        if i == 0 {
            assert(r@ =~= join(sv.take(1), sep@));
        }
    }
    assert(sv.take(n as int) =~= sv);
    r
}

/// Moves the prepended and appended entries into `PATH`, keeping the spelling
/// of an existing `PATH` name.
pub fn merge_path_entries(
    env_map: &mut EnvMap,
    path_prepend: &Vec<String>,
    path_append: &Vec<String>,
    platform: Platform,
)
    ensures
        final(env_map)@ == merge_path_entries_spec(
            old(env_map)@,
            strings_view(path_prepend@),
            strings_view(path_append@),
            platform,
        ),
{
    let separator: &str = match platform {
        Platform::Windows => ";",
        Platform::Unix => ":",
    };
    let existing_key: String = match env_map.find_ignore_ascii_case("PATH") {
        Some(i) => env_map.key_at(i).clone(),
        None => "PATH".to_owned(),
    };
    let existing: String = match env_map.remove(&existing_key) {
        Some(v) => v,
        None => String::new(),
    };
    let mut segments: Vec<String> = Vec::new();
    push_non_empty(&mut segments, path_prepend);
    if !existing.as_str().is_empty() {
        let ghost before = strings_view(segments@);
        segments.push(existing);
        assert(strings_view(segments@) =~= before.push(existing@));
    }
    push_non_empty(&mut segments, path_append);
    let joined = join_strings(&segments, separator);
    proof {
        let middle: Seq<Seq<char>> = if existing@.len() > 0 { seq![existing@] } else { Seq::empty() };
        assert(strings_view(segments@) =~= non_empty(strings_view(path_prepend@)) + middle + non_empty(strings_view(path_append@)));
    }
    insert_env_value(env_map, existing_key.as_str(), joined, platform);
}

/// Builds a shell environment from the parent's variables under `policy`:
/// inherit, drop the default excludes unless ignored, drop the custom
/// excludes, apply the overrides, merge `PATH` entries, keep only the
/// `include_only` names when that list is not empty, and set the thread id
/// when one is given.
pub fn populate_env(
    vars: Vec<(String, String)>,
    policy: &ShellEnvironmentPolicy,
    thread_id: Option<&str>,
    platform: Platform,
) -> (env: EnvMap)
    ensures
        env@ == populate_env_spec(pairs_view(vars@), policy@, opt_str_view(thread_id), platform),
{
    let mut env_map = match policy.inherit {
        ShellEnvironmentPolicyInherit::All => env_from_vars(&vars),
        ShellEnvironmentPolicyInherit::Empty => EnvMap::new(),
        ShellEnvironmentPolicyInherit::Core => core_env_from_vars(&vars, platform),
    };
    if !policy.ignore_default_excludes {
        let default_excludes = vec![
            EnvironmentVariablePattern::new_case_insensitive("*KEY*"),
            EnvironmentVariablePattern::new_case_insensitive("*SECRET*"),
            EnvironmentVariablePattern::new_case_insensitive("*TOKEN*"),
        ];
        assert(pattern_texts(default_excludes@) =~= default_exclude_patterns());
        env_map.retain_matching(&default_excludes, false);
    }
    if policy.exclude.len() > 0 {
        env_map.retain_matching(&policy.exclude, false);
    }
    apply_overrides_exec(&mut env_map, &policy.set_vars, platform);
    if policy.path_prepend.len() > 0 || policy.path_append.len() > 0 {
        merge_path_entries(&mut env_map, &policy.path_prepend, &policy.path_append, platform);
    }
    if policy.include_only.len() > 0 {
        env_map.retain_matching(&policy.include_only, true);
    }
    if let Some(thread_id) = thread_id {
        insert_env_value(&mut env_map, CODEX_THREAD_ID_ENV_VAR, thread_id.to_owned(), platform);
    }
    env_map
}

/// `populate_env`, and on Windows a `PATHEXT` of `.COM;.EXE;.BAT;.CMD` when no
/// name matches `PATHEXT` up to ASCII case.
pub fn create_env_from_vars(
    vars: Vec<(String, String)>,
    policy: &ShellEnvironmentPolicy,
    thread_id: Option<&str>,
    platform: Platform,
) -> (env: EnvMap)
    ensures
        env@ == create_env_spec(pairs_view(vars@), policy@, opt_str_view(thread_id), platform),
{
    let mut env_map = populate_env(vars, policy, thread_id, platform);
    if platform == Platform::Windows {
        if env_map.find_ignore_ascii_case("PATHEXT").is_none() {
            env_map.insert("PATHEXT".to_owned(), ".COM;.EXE;.BAT;.CMD".to_owned());
        }
    }
    env_map
}

} // verus!
