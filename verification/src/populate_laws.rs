use vstd::prelude::*;

use crate::env_map::{
    has_key, has_key_ci, insert_exact, is_first_key, key_index, key_index_ci, keys_distinct, lemma_filter_keeps_distinct, lemma_first_key_ci_exists, lemma_first_key_exists,
    lemma_first_key_unique,
    lemma_insert_exact_distinct, lemma_remove_exact_distinct, law_read_after_insert, match_filter,
    remove_exact, value_of, EnvSeq,
};
use crate::pattern::matches_any;
use crate::policy::{snapshot_policy_view, Platform, PolicyView, ShellEnvironmentPolicyInherit};
use crate::shell_environment::{
    apply_overrides, core_filter, default_exclude_patterns, env_from_pairs, excluded_env,
    included_env, inherited_env, insert_env_value_spec, is_core_env_var,
    lemma_insert_env_value_distinct, merge_path_entries_spec,
    overridden_env, path_key, populate_env_spec,
};
use crate::text::{
    eq_ignore_ascii_case, lemma_eq_ignore_ascii_case_refl, lemma_eq_ignore_ascii_case_symm,
    lemma_eq_ignore_ascii_case_trans,
};

verus! {

/// Every name in `s` satisfies `p`.
pub open spec fn all_names(s: EnvSeq, p: spec_fn(Seq<char>) -> bool) -> bool {
    forall|i: int| 0 <= i < s.len() ==> #[trigger] p(s[i].0)
}

/// No two names of `s` match each other up to ASCII case.
pub open spec fn names_distinct_ignoring_case(s: EnvSeq) -> bool {
    forall|i: int, j: int|
        0 <= i < s.len() && 0 <= j < s.len() && i != j ==> !eq_ignore_ascii_case(
            #[trigger] s[i].0,
            #[trigger] s[j].0,
        )
}

proof fn lemma_insert_exact_all_names(s: EnvSeq, k: Seq<char>, v: Seq<char>, p: spec_fn(Seq<char>) -> bool)
    requires
        all_names(s, p),
        p(k),
    ensures
        all_names(insert_exact(s, k, v), p),
{
    if has_key(s, k) {
        let i = choose|i: int| 0 <= i < s.len() && s[i].0 == k;
        lemma_first_key_exists(s, k, i);
    }
    let r = insert_exact(s, k, v);
    assert forall|x: int| 0 <= x < r.len() implies #[trigger] p(r[x].0) by {
        if has_key(s, k) {
            if x != key_index(s, k) {
                assert(r[x] == s[x]);
            }
        } else if x < s.len() {
            assert(r[x] == s[x]);
        }
    }
}

proof fn lemma_insert_env_value_all_names(
    s: EnvSeq,
    k: Seq<char>,
    v: Seq<char>,
    platform: Platform,
    p: spec_fn(Seq<char>) -> bool,
)
    requires
        all_names(s, p),
        p(k),
    ensures
        all_names(insert_env_value_spec(s, k, v, platform), p),
{
    if platform == Platform::Windows && has_key_ci(s, k) {
        let i = choose|i: int| 0 <= i < s.len() && eq_ignore_ascii_case(#[trigger] s[i].0, k);
        lemma_first_key_ci_exists(s, k, i);
        let m = key_index_ci(s, k);
        let r = insert_env_value_spec(s, k, v, platform);
        assert forall|x: int| 0 <= x < r.len() implies #[trigger] p(r[x].0) by {
            assert(r[x].0 == s[x].0);
        }
    } else {
        lemma_insert_exact_all_names(s, k, v, p);
    }
}

proof fn lemma_remove_exact_all_names(s: EnvSeq, k: Seq<char>, p: spec_fn(Seq<char>) -> bool)
    requires
        all_names(s, p),
    ensures
        all_names(remove_exact(s, k), p),
{
    if has_key(s, k) {
        let i = choose|i: int| 0 <= i < s.len() && s[i].0 == k;
        lemma_first_key_exists(s, k, i);
        let m = key_index(s, k);
        let r = remove_exact(s, k);
        assert forall|x: int| 0 <= x < r.len() implies #[trigger] p(r[x].0) by {
            if x < m {
                assert(r[x] == s[x]);
            } else {
                assert(r[x] == s[x + 1]);
            }
        }
    }
}

proof fn lemma_filter_all_names(
    s: EnvSeq,
    pred: spec_fn((Seq<char>, Seq<char>)) -> bool,
    p: spec_fn(Seq<char>) -> bool,
)
    requires
        all_names(s, p),
    ensures
        all_names(s.filter(pred), p),
{
    let f = s.filter(pred);
    assert forall|x: int| 0 <= x < f.len() implies #[trigger] p(f[x].0) by {
        assert(f.contains(f[x]));
        s.lemma_filter_contains_rev(pred, f[x]);
        let j = choose|j: int| 0 <= j < s.len() && s[j] == f[x];
        assert(p(s[j].0));
    }
}

proof fn lemma_filter_pred_names(s: EnvSeq, pred: spec_fn((Seq<char>, Seq<char>)) -> bool)
    ensures
        forall|x: int| 0 <= x < s.filter(pred).len() ==> pred(#[trigger] s.filter(pred)[x]),
{
    assert forall|x: int| 0 <= x < s.filter(pred).len() implies pred(#[trigger] s.filter(pred)[x]) by {
        s.lemma_filter_pred(pred, x);
    }
}

proof fn lemma_apply_overrides_all_names(
    s: EnvSeq,
    overrides: EnvSeq,
    platform: Platform,
    p: spec_fn(Seq<char>) -> bool,
)
    requires
        all_names(s, p),
        all_names(overrides, p),
    ensures
        all_names(apply_overrides(s, overrides, platform), p),
    decreases overrides.len(),
{
    if overrides.len() > 0 {
        let rest = overrides.drop_last();
        assert(all_names(rest, p)) by {
            assert forall|x: int| 0 <= x < rest.len() implies #[trigger] p(rest[x].0) by {
                assert(rest[x] == overrides[x]);
            }
        }
        lemma_apply_overrides_all_names(s, rest, platform, p);
        assert(p(overrides[overrides.len() - 1].0));
        lemma_insert_env_value_all_names(
            apply_overrides(s, rest, platform),
            overrides.last().0,
            overrides.last().1,
            platform,
            p,
        );
    }
}

proof fn lemma_merge_all_names(
    s: EnvSeq,
    prepend: Seq<Seq<char>>,
    append: Seq<Seq<char>>,
    platform: Platform,
    p: spec_fn(Seq<char>) -> bool,
)
    requires
        all_names(s, p),
        p("PATH"@),
    ensures
        all_names(merge_path_entries_spec(s, prepend, append, platform), p),
{
    if has_key_ci(s, "PATH"@) {
        let i = choose|i: int| 0 <= i < s.len() && eq_ignore_ascii_case(#[trigger] s[i].0, "PATH"@);
        lemma_first_key_ci_exists(s, "PATH"@, i);
        assert(p(s[key_index_ci(s, "PATH"@)].0));
    }
    let k = path_key(s);
    assert(p(k));
    lemma_remove_exact_all_names(s, k, p);
    let existing = match value_of(s, k) {
        Some(v) => v,
        None => Seq::empty(),
    };
    lemma_insert_env_value_all_names(
        remove_exact(s, k),
        k,
        crate::shell_environment::merged_path(existing, prepend, append, platform),
        platform,
        p,
    );
}

proof fn lemma_env_from_pairs_all_names(vars: EnvSeq, p: spec_fn(Seq<char>) -> bool)
    requires
        all_names(vars, p),
    ensures
        all_names(env_from_pairs(vars), p),
    decreases vars.len(),
{
    if vars.len() > 0 {
        let rest = vars.drop_last();
        assert(all_names(rest, p)) by {
            assert forall|x: int| 0 <= x < rest.len() implies #[trigger] p(rest[x].0) by {
                assert(rest[x] == vars[x]);
            }
        }
        lemma_env_from_pairs_all_names(rest, p);
        assert(p(vars[vars.len() - 1].0));
        lemma_insert_exact_all_names(env_from_pairs(rest), vars.last().0, vars.last().1, p);
    }
}

proof fn lemma_env_from_pairs_distinct(vars: EnvSeq)
    ensures
        keys_distinct(env_from_pairs(vars)),
    decreases vars.len(),
{
    if vars.len() > 0 {
        lemma_env_from_pairs_distinct(vars.drop_last());
        lemma_insert_exact_distinct(env_from_pairs(vars.drop_last()), vars.last().0, vars.last().1);
    }
}

proof fn lemma_apply_overrides_distinct(s: EnvSeq, overrides: EnvSeq, platform: Platform)
    requires
        keys_distinct(s),
    ensures
        keys_distinct(apply_overrides(s, overrides, platform)),
    decreases overrides.len(),
{
    if overrides.len() > 0 {
        lemma_apply_overrides_distinct(s, overrides.drop_last(), platform);
        lemma_insert_env_value_distinct(
            apply_overrides(s, overrides.drop_last(), platform),
            overrides.last().0,
            overrides.last().1,
            platform,
        );
    }
}

proof fn lemma_inherited_distinct(vars: EnvSeq, inherit: ShellEnvironmentPolicyInherit, platform: Platform)
    ensures
        keys_distinct(inherited_env(vars, inherit, platform)),
{
    lemma_env_from_pairs_distinct(vars);
    lemma_env_from_pairs_distinct(vars.filter(core_filter(platform)));
}

proof fn lemma_excluded_distinct(vars: EnvSeq, policy: PolicyView, platform: Platform)
    ensures
        keys_distinct(excluded_env(vars, policy, platform)),
{
    let s1 = inherited_env(vars, policy.0, platform);
    lemma_inherited_distinct(vars, policy.0, platform);
    lemma_filter_keeps_distinct(s1, match_filter(default_exclude_patterns(), false));
    let s2 = if !policy.1 {
        s1.filter(match_filter(default_exclude_patterns(), false))
    } else {
        s1
    };
    lemma_filter_keeps_distinct(s2, match_filter(policy.2, false));
}

/// Every step of `populate_env` keeps names distinct, up to the include filter.
proof fn lemma_included_distinct(vars: EnvSeq, policy: PolicyView, platform: Platform)
    ensures
        keys_distinct(included_env(vars, policy, platform)),
{
    let s3 = excluded_env(vars, policy, platform);
    lemma_excluded_distinct(vars, policy, platform);
    lemma_apply_overrides_distinct(s3, policy.3, platform);
    let s4 = apply_overrides(s3, policy.3, platform);
    let k = path_key(s4);
    lemma_remove_exact_distinct(s4, k);
    let existing = match value_of(s4, k) {
        Some(v) => v,
        None => Seq::empty(),
    };
    lemma_insert_env_value_distinct(
        remove_exact(s4, k),
        k,
        crate::shell_environment::merged_path(existing, policy.4, policy.5, platform),
        platform,
    );
    let s5 = overridden_env(vars, policy, platform);
    lemma_filter_keeps_distinct(s5, match_filter(policy.6, true));
}

/// `populate_env` gives an environment in which no name occurs twice, for
/// any parent variables and any policy.
pub proof fn law_populate_env_names_distinct(
    vars: EnvSeq,
    policy: PolicyView,
    thread_id: Option<Seq<char>>,
    platform: Platform,
)
    ensures
        keys_distinct(populate_env_spec(vars, policy, thread_id, platform)),
{
    lemma_included_distinct(vars, policy, platform);
    if let Some(t) = thread_id {
        lemma_insert_env_value_distinct(included_env(vars, policy, platform), "CODEX_THREAD_ID"@, t, platform);
    }
}

/// When a thread id is given, the environment carries it under
/// `CODEX_THREAD_ID` (on Windows, possibly under an existing name that matches
/// it up to ASCII case), whatever the policy and the parent variables.
pub proof fn law_thread_id_is_exported(vars: EnvSeq, policy: PolicyView, t: Seq<char>, platform: Platform)
    ensures
        exists|i: int|
            0 <= i < populate_env_spec(vars, policy, Some(t), platform).len() && eq_ignore_ascii_case(
                #[trigger] populate_env_spec(vars, policy, Some(t), platform)[i].0,
                "CODEX_THREAD_ID"@,
            ) && populate_env_spec(vars, policy, Some(t), platform)[i].1 == t,
        platform == Platform::Unix ==> value_of(populate_env_spec(vars, policy, Some(t), platform), "CODEX_THREAD_ID"@)
            == Some(t),
{
    let s6 = included_env(vars, policy, platform);
    let r = populate_env_spec(vars, policy, Some(t), platform);
    lemma_included_distinct(vars, policy, platform);
    let key: Seq<char> = "CODEX_THREAD_ID"@;
    if platform == Platform::Windows && has_key_ci(s6, key) {
        let i = choose|i: int| 0 <= i < s6.len() && eq_ignore_ascii_case(#[trigger] s6[i].0, key);
        lemma_first_key_ci_exists(s6, key, i);
        let m = key_index_ci(s6, key);
        assert(r[m].1 == t);
        assert(eq_ignore_ascii_case(r[m].0, key));
    } else {
        lemma_insert_exact_distinct(s6, key, t);
        let m = key_index(r, key);
        let w = choose|w: int| 0 <= w < r.len() && r[w].0 == key;
        lemma_first_key_exists(r, key, w);
        lemma_eq_ignore_ascii_case_refl(key);
        assert(r[m].0 == key);
        assert(eq_ignore_ascii_case(r[m].0, key));
    }
}

/// With a non-empty `include_only`, every name in the environment matches one
/// of its patterns, except the thread id's `CODEX_THREAD_ID`.
pub proof fn law_include_only_restricts_names(
    vars: EnvSeq,
    policy: PolicyView,
    thread_id: Option<Seq<char>>,
    platform: Platform,
)
    requires
        policy.6.len() > 0,
    ensures
        forall|i: int|
            0 <= i < populate_env_spec(vars, policy, thread_id, platform).len() ==> matches_any(
                #[trigger] populate_env_spec(vars, policy, thread_id, platform)[i].0,
                policy.6,
            ) || populate_env_spec(vars, policy, thread_id, platform)[i].0 == "CODEX_THREAD_ID"@,
{
    let p = |n: Seq<char>| matches_any(n, policy.6) || n == "CODEX_THREAD_ID"@;
    let s5 = overridden_env(vars, policy, platform);
    let s6 = included_env(vars, policy, platform);
    lemma_filter_pred_names(s5, match_filter(policy.6, true));
    assert(all_names(s6, p)) by {
        assert forall|x: int| 0 <= x < s6.len() implies #[trigger] p(s6[x].0) by {
            assert((match_filter(policy.6, true))(s6[x]));
        }
    }
    if let Some(t) = thread_id {
        lemma_insert_env_value_all_names(s6, "CODEX_THREAD_ID"@, t, platform, p);
    }
    let r = populate_env_spec(vars, policy, thread_id, platform);
    assert forall|i: int| 0 <= i < r.len() implies matches_any(#[trigger] r[i].0, policy.6) || r[i].0
        == "CODEX_THREAD_ID"@ by {
        assert(p(r[i].0));
    }
}

/// A name may be excluded and still be in the environment only when an
/// override sets it, it is `PATH` and entries are merged into `PATH`, or it is
/// `CODEX_THREAD_ID` and a thread id is given.
pub open spec fn exclusion_exempt(
    name: Seq<char>,
    policy: PolicyView,
    thread_id: Option<Seq<char>>,
) -> bool {
    ||| has_key(policy.3, name)
    ||| (policy.4.len() > 0 || policy.5.len() > 0) && name == "PATH"@
    ||| thread_id is Some && name == "CODEX_THREAD_ID"@
}

/// The name passes the exclusion filters that the policy applies.
pub open spec fn passes_exclusions(name: Seq<char>, policy: PolicyView) -> bool {
    &&& (!policy.1 ==> !matches_any(name, default_exclude_patterns()))
    &&& (policy.2.len() > 0 ==> !matches_any(name, policy.2))
}

/// A name that the default excludes (when not ignored) or a custom exclude
/// pattern matches is in the environment only when an override sets it, it
/// is `PATH` and entries are merged into `PATH`, or it is `CODEX_THREAD_ID`
/// and a thread id is given.
pub proof fn law_excluded_names_stay_out(
    vars: EnvSeq,
    policy: PolicyView,
    thread_id: Option<Seq<char>>,
    platform: Platform,
)
    ensures
        forall|i: int|
            0 <= i < populate_env_spec(vars, policy, thread_id, platform).len() ==> passes_exclusions(
                #[trigger] populate_env_spec(vars, policy, thread_id, platform)[i].0,
                policy,
            ) || exclusion_exempt(
                populate_env_spec(vars, policy, thread_id, platform)[i].0,
                policy,
                thread_id,
            ),
{
    let p = |n: Seq<char>| passes_exclusions(n, policy) || exclusion_exempt(n, policy, thread_id);
    let q = |n: Seq<char>| !policy.1 ==> !matches_any(n, default_exclude_patterns());
    let s1 = inherited_env(vars, policy.0, platform);
    let s2 = if !policy.1 {
        s1.filter(match_filter(default_exclude_patterns(), false))
    } else {
        s1
    };
    let s3 = excluded_env(vars, policy, platform);
    assert(all_names(s2, q)) by {
        if !policy.1 {
            lemma_filter_pred_names(s1, match_filter(default_exclude_patterns(), false));
            assert forall|x: int| 0 <= x < s2.len() implies #[trigger] q(s2[x].0) by {
                assert((match_filter(default_exclude_patterns(), false))(s2[x]));
            }
        }
    }
    lemma_filter_all_names(s2, match_filter(policy.2, false), q);
    lemma_filter_pred_names(s2, match_filter(policy.2, false));
    assert(all_names(s3, p)) by {
        assert forall|x: int| 0 <= x < s3.len() implies #[trigger] p(s3[x].0) by {
            assert(q(s3[x].0));
            if policy.2.len() > 0 {
                assert((match_filter(policy.2, false))(s3[x]));
            }
        }
    }
    assert(all_names(policy.3, p)) by {
        assert forall|x: int| 0 <= x < policy.3.len() implies #[trigger] p(policy.3[x].0) by {
            assert(has_key(policy.3, policy.3[x].0));
        }
    }
    lemma_apply_overrides_all_names(s3, policy.3, platform, p);
    let s4 = apply_overrides(s3, policy.3, platform);
    if policy.4.len() > 0 || policy.5.len() > 0 {
        assert(p("PATH"@));
        lemma_merge_all_names(s4, policy.4, policy.5, platform, p);
    }
    let s5 = overridden_env(vars, policy, platform);
    assert(all_names(s5, p));
    lemma_filter_all_names(s5, match_filter(policy.6, true), p);
    let s6 = included_env(vars, policy, platform);
    assert(all_names(s6, p));
    if let Some(t) = thread_id {
        assert(p("CODEX_THREAD_ID"@));
        lemma_insert_env_value_all_names(s6, "CODEX_THREAD_ID"@, t, platform, p);
    }
    let r = populate_env_spec(vars, policy, thread_id, platform);
    assert forall|i: int| 0 <= i < r.len() implies passes_exclusions(#[trigger] r[i].0, policy)
        || exclusion_exempt(r[i].0, policy, thread_id) by {
        assert(p(r[i].0));
    }
}

/// With `inherit = core` and nothing added (no overrides, no `PATH` entries,
/// no thread id), every name in the environment is one of the platform's core
/// variables up to ASCII case.
pub proof fn law_core_inherit_keeps_core_names(vars: EnvSeq, policy: PolicyView, platform: Platform)
    requires
        policy.0 == ShellEnvironmentPolicyInherit::Core,
        policy.3.len() == 0,
        policy.4.len() == 0,
        policy.5.len() == 0,
    ensures
        forall|i: int|
            0 <= i < populate_env_spec(vars, policy, None, platform).len() ==> is_core_env_var(
                #[trigger] populate_env_spec(vars, policy, None, platform)[i].0,
                platform,
            ),
{
    let p = |n: Seq<char>| is_core_env_var(n, platform);
    let core = vars.filter(core_filter(platform));
    lemma_filter_pred_names(vars, core_filter(platform));
    assert(all_names(core, p)) by {
        assert forall|x: int| 0 <= x < core.len() implies #[trigger] p(core[x].0) by {
            assert((core_filter(platform))(core[x]));
        }
    }
    lemma_env_from_pairs_all_names(core, p);
    let s1 = inherited_env(vars, policy.0, platform);
    lemma_filter_all_names(s1, match_filter(default_exclude_patterns(), false), p);
    let s2 = if !policy.1 {
        s1.filter(match_filter(default_exclude_patterns(), false))
    } else {
        s1
    };
    lemma_filter_all_names(s2, match_filter(policy.2, false), p);
    let s5 = overridden_env(vars, policy, platform);
    lemma_filter_all_names(s5, match_filter(policy.6, true), p);
    let r = populate_env_spec(vars, policy, None, platform);
    assert forall|i: int| 0 <= i < r.len() implies is_core_env_var(#[trigger] r[i].0, platform) by {
        assert(p(r[i].0));
    }
}

/// With `inherit = core`, default excludes ignored and nothing else
/// configured, the environment holds exactly the parent variables whose
/// names are core variables up to ASCII case, spelled as the parent spelled
/// them, a later value for a name replacing an earlier one.
pub proof fn law_core_inherit_keeps_exactly_core_vars(vars: EnvSeq, policy: PolicyView, platform: Platform)
    requires
        policy.0 == ShellEnvironmentPolicyInherit::Core,
        policy.1,
        policy.2.len() == 0,
        policy.3.len() == 0,
        policy.4.len() == 0,
        policy.5.len() == 0,
        policy.6.len() == 0,
    ensures
        populate_env_spec(vars, policy, None, platform) == env_from_pairs(vars.filter(core_filter(platform))),
{
}

/// With `inherit = none` and nothing added (no overrides, no `PATH` entries,
/// no thread id), the environment is empty.
pub proof fn law_inherit_none_starts_empty(vars: EnvSeq, policy: PolicyView, platform: Platform)
    requires
        policy.0 == ShellEnvironmentPolicyInherit::Empty,
        policy.3.len() == 0,
        policy.4.len() == 0,
        policy.5.len() == 0,
    ensures
        populate_env_spec(vars, policy, None, platform).len() == 0,
{
    reveal(Seq::filter);
    let e: EnvSeq = Seq::empty();
    assert(e.filter(match_filter(default_exclude_patterns(), false)) =~= e);
    assert(e.filter(match_filter(policy.2, false)) =~= e);
    assert(e.filter(match_filter(policy.6, true)) =~= e);
}

/// With `inherit = all`, default excludes ignored and nothing else configured,
/// the environment is exactly the parent variables, a later value for a name
/// replacing an earlier one.
pub proof fn law_inherit_all_passes_vars_through(vars: EnvSeq, policy: PolicyView, platform: Platform)
    requires
        policy.0 == ShellEnvironmentPolicyInherit::All,
        policy.1,
        policy.2.len() == 0,
        policy.3.len() == 0,
        policy.4.len() == 0,
        policy.5.len() == 0,
        policy.6.len() == 0,
    ensures
        populate_env_spec(vars, policy, None, platform) == env_from_pairs(vars),
{
}

proof fn lemma_apply_snapshot(env: EnvSeq, platform: Platform)
    requires
        keys_distinct(env),
        platform == Platform::Unix || names_distinct_ignoring_case(env),
    ensures
        apply_overrides(Seq::empty(), env, platform) == env,
    decreases env.len(),
{
    if env.len() > 0 {
        let rest = env.drop_last();
        assert(keys_distinct(rest));
        assert(platform == Platform::Unix || names_distinct_ignoring_case(rest));
        lemma_apply_snapshot(rest, platform);
        let k = env.last().0;
        assert(!has_key(rest, k)) by {
            if has_key(rest, k) {
                let i = choose|i: int| 0 <= i < rest.len() && rest[i].0 == k;
                assert(env[i].0 == env[env.len() - 1].0);
            }
        }
        if platform == Platform::Windows {
            assert(!has_key_ci(rest, k)) by {
                if has_key_ci(rest, k) {
                    let i = choose|i: int| 0 <= i < rest.len() && eq_ignore_ascii_case(#[trigger] rest[i].0, k);
                    assert(eq_ignore_ascii_case(env[i].0, env[env.len() - 1].0));
                }
            }
        }
        assert(rest.push(env.last()) =~= env);
    }
}

/// Applying the policy of a captured environment gives exactly that
/// environment, whatever the parent's variables: on Unix for any captured
/// environment, on Windows when no two captured names match up to ASCII case.
pub proof fn law_snapshot_policy_reproduces_environment(vars: EnvSeq, env: EnvSeq, platform: Platform)
    requires
        keys_distinct(env),
        platform == Platform::Unix || names_distinct_ignoring_case(env),
    ensures
        populate_env_spec(vars, snapshot_policy_view(env), None, platform) == env,
{
    lemma_apply_snapshot(env, platform);
}

proof fn lemma_value_of_drop_last(s: EnvSeq, n: Seq<char>)
    requires
        keys_distinct(s),
        s.len() > 0,
        s.last().0 != n,
    ensures
        value_of(s, n) == value_of(s.drop_last(), n),
{
    let rest = s.drop_last();
    if has_key(s, n) {
        let i = choose|i: int| 0 <= i < s.len() && s[i].0 == n;
        lemma_first_key_exists(s, n, i);
        let m = key_index(s, n);
        assert(m < s.len() - 1);
        assert(rest[m] == s[m]);
        lemma_first_key_exists(rest, n, m);
        assert(is_first_key(rest, n, m));
        crate::env_map::lemma_first_key_unique(rest, n, m, key_index(rest, n));
    } else {
        assert(!has_key(rest, n)) by {
            if has_key(rest, n) {
                let i = choose|i: int| 0 <= i < rest.len() && rest[i].0 == n;
                assert(s[i] == rest[i]);
            }
        }
    }
}

proof fn lemma_value_of_last(s: EnvSeq)
    requires
        keys_distinct(s),
        s.len() > 0,
    ensures
        value_of(s, s.last().0) == Some(s.last().1),
{
    let k = s.last().0;
    let m = s.len() - 1;
    assert(s[m] == s.last());
    lemma_first_key_exists(s, k, m);
    assert(is_first_key(s, k, m));
    crate::env_map::lemma_first_key_unique(s, k, m, key_index(s, k));
}

proof fn lemma_apply_overrides_value(s: EnvSeq, overrides: EnvSeq, n: Seq<char>)
    requires
        keys_distinct(s),
        keys_distinct(overrides),
    ensures
        value_of(apply_overrides(s, overrides, Platform::Unix), n) == if has_key(overrides, n) {
            value_of(overrides, n)
        } else {
            value_of(s, n)
        },
    decreases overrides.len(),
{
    if overrides.len() > 0 {
        let rest = overrides.drop_last();
        assert(keys_distinct(rest));
        lemma_apply_overrides_value(s, rest, n);
        lemma_apply_overrides_distinct(s, rest, Platform::Unix);
        let (k, v) = overrides.last();
        law_read_after_insert(apply_overrides(s, rest, Platform::Unix), k, v, n);
        if n == k {
            lemma_value_of_last(overrides);
            assert(overrides[overrides.len() - 1].0 == n);
        } else {
            lemma_value_of_drop_last(overrides, n);
            if has_key(overrides, n) {
                let i = choose|i: int| 0 <= i < overrides.len() && overrides[i].0 == n;
                assert(i < overrides.len() - 1);
                assert(rest[i] == overrides[i]);
            } else {
                assert(!has_key(rest, n)) by {
                    if has_key(rest, n) {
                        let i = choose|i: int| 0 <= i < rest.len() && rest[i].0 == n;
                        assert(overrides[i] == rest[i]);
                    }
                }
            }
        }
    }
}

/// On Unix, an override's value is what the environment holds for its name,
/// whatever was inherited, unless a later step (the `PATH` merge, the include
/// filter, the thread id) touches that name.
pub proof fn law_overrides_win(vars: EnvSeq, policy: PolicyView, name: Seq<char>)
    requires
        keys_distinct(policy.3),
        has_key(policy.3, name),
        policy.4.len() == 0,
        policy.5.len() == 0,
        policy.6.len() == 0,
    ensures
        value_of(populate_env_spec(vars, policy, None, Platform::Unix), name) == value_of(policy.3, name),
{
    lemma_excluded_distinct(vars, policy, Platform::Unix);
    lemma_apply_overrides_value(excluded_env(vars, policy, Platform::Unix), policy.3, name);
}

proof fn lemma_windows_insert_keeps_other(s: EnvSeq, k: Seq<char>, v: Seq<char>, i: int)
    requires
        0 <= i < s.len(),
        !eq_ignore_ascii_case(s[i].0, k),
    ensures
        insert_env_value_spec(s, k, v, Platform::Windows).len() >= s.len(),
        insert_env_value_spec(s, k, v, Platform::Windows)[i] == s[i],
{
    if has_key_ci(s, k) {
        let w = choose|w: int| 0 <= w < s.len() && eq_ignore_ascii_case(#[trigger] s[w].0, k);
        lemma_first_key_ci_exists(s, k, w);
    } else {
        assert(!has_key(s, k)) by {
            if has_key(s, k) {
                let j = choose|j: int| 0 <= j < s.len() && s[j].0 == k;
                lemma_eq_ignore_ascii_case_refl(k);
                assert(eq_ignore_ascii_case(s[j].0, k));
            }
        }
    }
}

proof fn lemma_windows_insert_sets(s: EnvSeq, k: Seq<char>, v: Seq<char>)
    requires
        keys_distinct(s),
    ensures
        exists|i: int|
            0 <= i < insert_env_value_spec(s, k, v, Platform::Windows).len() && eq_ignore_ascii_case(
                #[trigger] insert_env_value_spec(s, k, v, Platform::Windows)[i].0,
                k,
            ) && insert_env_value_spec(s, k, v, Platform::Windows)[i].1 == v,
{
    let r = insert_env_value_spec(s, k, v, Platform::Windows);
    if has_key_ci(s, k) {
        let w = choose|w: int| 0 <= w < s.len() && eq_ignore_ascii_case(#[trigger] s[w].0, k);
        lemma_first_key_ci_exists(s, k, w);
        let m = key_index_ci(s, k);
        assert(eq_ignore_ascii_case(r[m].0, k) && r[m].1 == v);
    } else {
        lemma_insert_exact_distinct(s, k, v);
        let w = choose|w: int| 0 <= w < r.len() && r[w].0 == k;
        lemma_first_key_exists(r, k, w);
        let m = key_index(r, k);
        lemma_eq_ignore_ascii_case_refl(k);
        assert(eq_ignore_ascii_case(r[m].0, k) && r[m].1 == v);
    }
}

proof fn lemma_windows_overrides_set(s: EnvSeq, overrides: EnvSeq, p: int)
    requires
        keys_distinct(s),
        names_distinct_ignoring_case(overrides),
        0 <= p < overrides.len(),
    ensures
        exists|i: int|
            0 <= i < apply_overrides(s, overrides, Platform::Windows).len() && eq_ignore_ascii_case(
                #[trigger] apply_overrides(s, overrides, Platform::Windows)[i].0,
                overrides[p].0,
            ) && apply_overrides(s, overrides, Platform::Windows)[i].1 == overrides[p].1,
    decreases overrides.len(),
{
    let rest = overrides.drop_last();
    let (k, v) = overrides.last();
    let prev = apply_overrides(s, rest, Platform::Windows);
    lemma_apply_overrides_distinct(s, rest, Platform::Windows);
    let r = apply_overrides(s, overrides, Platform::Windows);
    assert(r == insert_env_value_spec(prev, k, v, Platform::Windows));
    if p == overrides.len() - 1 {
        assert(overrides[p] == overrides.last());
        lemma_windows_insert_sets(prev, k, v);
        let i = choose|i: int|
            0 <= i < r.len() && eq_ignore_ascii_case(#[trigger] r[i].0, k) && r[i].1 == v;
        assert(eq_ignore_ascii_case(r[i].0, overrides[p].0) && r[i].1 == overrides[p].1);
    } else {
        assert(names_distinct_ignoring_case(rest)) by {
            assert forall|a: int, b: int| 0 <= a < rest.len() && 0 <= b < rest.len() && a != b implies !eq_ignore_ascii_case(
                #[trigger] rest[a].0,
                #[trigger] rest[b].0,
            ) by {
                assert(rest[a] == overrides[a] && rest[b] == overrides[b]);
            }
        }
        assert(rest[p] == overrides[p]);
        lemma_windows_overrides_set(s, rest, p);
        let i = choose|i: int|
            0 <= i < prev.len() && eq_ignore_ascii_case(#[trigger] prev[i].0, overrides[p].0) && prev[i].1
                == overrides[p].1;
        assert(!eq_ignore_ascii_case(overrides[p].0, k)) by {
            assert(overrides[overrides.len() - 1].0 == k);
        }
        assert(!eq_ignore_ascii_case(prev[i].0, k)) by {
            if eq_ignore_ascii_case(prev[i].0, k) {
                lemma_eq_ignore_ascii_case_symm(prev[i].0, overrides[p].0);
                lemma_eq_ignore_ascii_case_trans(overrides[p].0, prev[i].0, k);
            }
        }
        lemma_windows_insert_keeps_other(prev, k, v, i);
        assert(r[i] == prev[i]);
        assert(eq_ignore_ascii_case(r[i].0, overrides[p].0) && r[i].1 == overrides[p].1);
    }
}

/// On Windows, an override's value is held by a name that matches the
/// override's name up to ASCII case (an inherited spelling is kept), whatever
/// was inherited, when no two override names match each other up to case and
/// no later step (the `PATH` merge, the include filter, the thread id) touches
/// that name.
pub proof fn law_overrides_win_on_windows(vars: EnvSeq, policy: PolicyView, name: Seq<char>, value: Seq<char>)
    requires
        names_distinct_ignoring_case(policy.3),
        policy.3.contains((name, value)),
        policy.4.len() == 0,
        policy.5.len() == 0,
        policy.6.len() == 0,
    ensures
        exists|i: int|
            0 <= i < populate_env_spec(vars, policy, None, Platform::Windows).len() && eq_ignore_ascii_case(
                #[trigger] populate_env_spec(vars, policy, None, Platform::Windows)[i].0,
                name,
            ) && populate_env_spec(vars, policy, None, Platform::Windows)[i].1 == value,
{
    let p = choose|p: int| 0 <= p < policy.3.len() && policy.3[p] == (name, value);
    lemma_excluded_distinct(vars, policy, Platform::Windows);
    let s3 = excluded_env(vars, policy, Platform::Windows);
    lemma_windows_overrides_set(s3, policy.3, p);
    let r = populate_env_spec(vars, policy, None, Platform::Windows);
    assert(r == apply_overrides(s3, policy.3, Platform::Windows));
    let i = choose|i: int|
        0 <= i < r.len() && eq_ignore_ascii_case(#[trigger] r[i].0, policy.3[p].0) && r[i].1 == policy.3[p].1;
    assert(eq_ignore_ascii_case(r[i].0, name) && r[i].1 == value);
}

/// `pred` looks at an entry's name only.
pub open spec fn reads_name_only(pred: spec_fn((Seq<char>, Seq<char>)) -> bool) -> bool {
    forall|a: (Seq<char>, Seq<char>), b: (Seq<char>, Seq<char>)|
        #![trigger pred(a), pred(b)]
        a.0 == b.0 ==> pred(a) == pred(b)
}

/// Replacing one entry by another that the filter treats alike: a kept entry
/// is replaced at its place in the filtered list, a dropped one changes nothing.
proof fn lemma_filter_update<T>(s: Seq<T>, i: int, x: T, f: spec_fn(T) -> bool)
    requires
        0 <= i < s.len(),
        f(s[i]) == f(x),
    ensures
        f(x) ==> {
            let c = s.take(i).filter(f).len() as int;
            &&& c < s.filter(f).len()
            &&& s.filter(f)[c] == s[i]
            &&& s.update(i, x).filter(f) == s.filter(f).update(c, x)
        },
        !f(x) ==> s.update(i, x).filter(f) == s.filter(f),
{
    let a = s.take(i);
    let b = s.skip(i + 1);
    assert(s =~= a + (seq![s[i]] + b));
    assert(s.update(i, x) =~= a + (seq![x] + b));
    Seq::filter_distributes_over_add(a, seq![s[i]] + b, f);
    Seq::filter_distributes_over_add(a, seq![x] + b, f);
    b.lemma_filter_prepend(s[i], f);
    b.lemma_filter_prepend(x, f);
    if f(x) {
        let c = a.filter(f).len() as int;
        assert(s.filter(f) == a.filter(f) + (seq![s[i]] + b.filter(f)));
        assert(s.filter(f)[c] == s[i]);
        assert(s.update(i, x).filter(f) =~= s.filter(f).update(c, x));
    } else {
        assert(s.update(i, x).filter(f) =~= s.filter(f));
    }
}

/// Filtering by names commutes with setting a name.
proof fn lemma_insert_exact_filter(
    e: EnvSeq,
    k: Seq<char>,
    v: Seq<char>,
    f: spec_fn((Seq<char>, Seq<char>)) -> bool,
)
    requires
        keys_distinct(e),
        reads_name_only(f),
    ensures
        insert_exact(e, k, v).filter(f) == if f((k, v)) {
            insert_exact(e.filter(f), k, v)
        } else {
            e.filter(f)
        },
{
    let ef = e.filter(f);
    lemma_filter_keeps_distinct(e, f);
    if has_key(e, k) {
        let j = choose|j: int| 0 <= j < e.len() && e[j].0 == k;
        lemma_first_key_exists(e, k, j);
        let i = key_index(e, k);
        assert(f(e[i]) == f((k, v)));
        lemma_filter_update(e, i, (k, v), f);
        if f((k, v)) {
            let c = e.take(i).filter(f).len() as int;
            assert(ef[c].0 == k);
            assert(is_first_key(ef, k, c));
            lemma_first_key_exists(ef, k, c);
            lemma_first_key_unique(ef, k, c, key_index(ef, k));
        }
    } else {
        e.lemma_filter_push((k, v), f);
        if f((k, v)) {
            if has_key(ef, k) {
                let j = choose|j: int| 0 <= j < ef.len() && ef[j].0 == k;
                assert(ef.contains(ef[j]));
                e.lemma_filter_contains_rev(f, ef[j]);
                let m = choose|m: int| 0 <= m < e.len() && e[m] == ef[j];
                assert(e[m].0 == k);
            }
        }
    }
}

/// Filtering by names before or after collecting the pairs gives the same
/// environment.
proof fn lemma_env_from_pairs_filter(vars: EnvSeq, f: spec_fn((Seq<char>, Seq<char>)) -> bool)
    requires
        reads_name_only(f),
    ensures
        env_from_pairs(vars).filter(f) == env_from_pairs(vars.filter(f)),
    decreases vars.len(),
{
    reveal(Seq::filter);
    if vars.len() > 0 {
        let d = vars.drop_last();
        let last = vars.last();
        lemma_env_from_pairs_filter(d, f);
        lemma_env_from_pairs_distinct(d);
        assert(vars =~= d.push(last));
        d.lemma_filter_push(last, f);
        lemma_insert_exact_filter(env_from_pairs(d), last.0, last.1, f);
        if f(last) {
            assert(d.filter(f).push(last).drop_last() =~= d.filter(f));
        }
    }
}

/// Two filters can be applied in either order.
proof fn lemma_filter_commute<T>(s: Seq<T>, a: spec_fn(T) -> bool, b: spec_fn(T) -> bool)
    ensures
        s.filter(a).filter(b) == s.filter(b).filter(a),
    decreases s.len(),
{
    reveal(Seq::filter);
    if s.len() > 0 {
        let d = s.drop_last();
        let x = s.last();
        lemma_filter_commute(d, a, b);
        assert(s =~= d.push(x));
        d.lemma_filter_push(x, a);
        d.lemma_filter_push(x, b);
        d.filter(a).lemma_filter_push(x, b);
        d.filter(b).lemma_filter_push(x, a);
    }
}

/// With the default excludes in force, inherited variables whose names match
/// `*KEY*`, `*SECRET*` or `*TOKEN*` cannot influence the environment: two
/// inputs whose other pairs are the same, in the same order, give the same
/// environment.
pub proof fn law_secret_vars_do_not_matter(
    vars1: EnvSeq,
    vars2: EnvSeq,
    policy: PolicyView,
    thread_id: Option<Seq<char>>,
    platform: Platform,
)
    requires
        !policy.1,
        vars1.filter(match_filter(default_exclude_patterns(), false)) == vars2.filter(
            match_filter(default_exclude_patterns(), false),
        ),
    ensures
        populate_env_spec(vars1, policy, thread_id, platform) == populate_env_spec(
            vars2,
            policy,
            thread_id,
            platform,
        ),
{
    let f = match_filter(default_exclude_patterns(), false);
    let c = core_filter(platform);
    assert(reads_name_only(f));
    lemma_env_from_pairs_filter(vars1, f);
    lemma_env_from_pairs_filter(vars2, f);
    match policy.0 {
        ShellEnvironmentPolicyInherit::Core => {
            lemma_env_from_pairs_filter(vars1.filter(c), f);
            lemma_env_from_pairs_filter(vars2.filter(c), f);
            lemma_filter_commute(vars1, c, f);
            lemma_filter_commute(vars2, c, f);
        },
        _ => {},
    }
    assert(inherited_env(vars1, policy.0, platform).filter(f) == inherited_env(
        vars2,
        policy.0,
        platform,
    ).filter(f));
    assert(excluded_env(vars1, policy, platform) == excluded_env(vars2, policy, platform));
    assert(overridden_env(vars1, policy, platform) == overridden_env(vars2, policy, platform));
    assert(included_env(vars1, policy, platform) == included_env(vars2, policy, platform));
}

} // verus!
