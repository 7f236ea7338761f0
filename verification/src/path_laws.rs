use vstd::prelude::*;

use crate::env_map::{
    has_key, has_key_ci, insert_exact, is_first_key, is_first_key_ci, key_index, key_index_ci,
    lemma_first_key_ci_exists, lemma_first_key_exists, remove_exact, value_of, EnvSeq,
};
use crate::policy::Platform;
use crate::shell_environment::{
    insert_env_value_spec, join, merge_path_entries_spec, merged_path, non_empty, path_key,
};
use crate::text::{
    eq_ignore_ascii_case, lemma_eq_ignore_ascii_case_refl, lemma_eq_ignore_ascii_case_trans,
};

verus! {

/// The text that separates `PATH` entries on `platform`.
pub open spec fn entry_separator(platform: Platform) -> Seq<char> {
    if platform == Platform::Windows {
        ";"@
    } else {
        ":"@
    }
}

/// `entry` put in front of the `PATH` value `value` (nothing changes for an
/// empty entry, and no separator is added to an empty value).
pub open spec fn put_in_front(entry: Seq<char>, value: Seq<char>, platform: Platform) -> Seq<char> {
    if entry.len() == 0 {
        value
    } else if value.len() == 0 {
        entry
    } else {
        entry + entry_separator(platform) + value
    }
}

/// `entry` put after the `PATH` value `value`.
pub open spec fn put_after(value: Seq<char>, entry: Seq<char>, platform: Platform) -> Seq<char> {
    if entry.len() == 0 {
        value
    } else if value.len() == 0 {
        entry
    } else {
        value + entry_separator(platform) + entry
    }
}

proof fn lemma_join_prepend(x: Seq<char>, l: Seq<Seq<char>>, sep: Seq<char>)
    ensures
        join(seq![x] + l, sep) == if l.len() == 0 {
            x
        } else {
            x + sep + join(l, sep)
        },
    decreases l.len(),
{
    let s = seq![x] + l;
    if l.len() == 0 {
        assert(s.len() == 1 && s[0] == x);
    } else if l.len() == 1 {
        assert(s.drop_last() =~= seq![x]);
        assert(s.last() == l[0]);
        let one: Seq<Seq<char>> = seq![x];
        assert(join(one, sep) == x);
    } else {
        assert(s.drop_last() =~= seq![x] + l.drop_last());
        assert(s.last() == l.last());
        lemma_join_prepend(x, l.drop_last(), sep);
        assert(join(s, sep) =~= x + sep + join(l, sep));
    }
}

proof fn lemma_join_nonempty(l: Seq<Seq<char>>, sep: Seq<char>)
    requires
        l.len() > 0,
        forall|i: int| 0 <= i < l.len() ==> (#[trigger] l[i]).len() > 0,
    ensures
        join(l, sep).len() > 0,
{
    if l.len() > 1 {
        assert(l.last() == l[l.len() - 1]);
    }
}

proof fn lemma_non_empty_all(l: Seq<Seq<char>>)
    ensures
        forall|i: int| 0 <= i < non_empty(l).len() ==> (#[trigger] non_empty(l)[i]).len() > 0,
{
    assert forall|i: int| 0 <= i < non_empty(l).len() implies (#[trigger] non_empty(l)[i]).len() > 0 by {
        l.lemma_filter_pred(|s: Seq<char>| s.len() > 0, i);
    }
}

/// The entries that `merged_path` joins.
spec fn merged_entries(existing: Seq<char>, prepend: Seq<Seq<char>>, append: Seq<Seq<char>>) -> Seq<Seq<char>> {
    let middle: Seq<Seq<char>> = if existing.len() > 0 {
        seq![existing]
    } else {
        Seq::empty()
    };
    non_empty(prepend) + middle + non_empty(append)
}

proof fn lemma_merged_entries_nonempty(existing: Seq<char>, prepend: Seq<Seq<char>>, append: Seq<Seq<char>>)
    ensures
        forall|i: int|
            0 <= i < merged_entries(existing, prepend, append).len() ==> (#[trigger] merged_entries(
                existing,
                prepend,
                append,
            )[i]).len() > 0,
{
    lemma_non_empty_all(prepend);
    lemma_non_empty_all(append);
    let l = merged_entries(existing, prepend, append);
    let np = non_empty(prepend);
    let na = non_empty(append);
    assert forall|i: int| 0 <= i < l.len() implies (#[trigger] l[i]).len() > 0 by {
        if i < np.len() {
            assert(l[i] == np[i]);
        } else if existing.len() > 0 && i == np.len() {
            assert(l[i] == existing);
        } else {
            let k = i - np.len() - (if existing.len() > 0 { 1int } else { 0int });
            assert(l[i] == na[k]);
        }
    }
}

proof fn lemma_merged_value_empty(existing: Seq<char>, prepend: Seq<Seq<char>>, append: Seq<Seq<char>>, platform: Platform)
    ensures
        merged_path(existing, prepend, append, platform).len() == 0 <==> merged_entries(
            existing,
            prepend,
            append,
        ).len() == 0,
{
    let l = merged_entries(existing, prepend, append);
    assert(merged_path(existing, prepend, append, platform) == join(l, entry_separator(platform)));
    if l.len() > 0 {
        lemma_merged_entries_nonempty(existing, prepend, append);
        lemma_join_nonempty(l, entry_separator(platform));
    }
}

/// Where `insert_env_value_spec` puts the value: the same slot whatever the value.
proof fn lemma_insert_slot(r: EnvSeq, k: Seq<char>, v1: Seq<char>, v2: Seq<char>, platform: Platform)
    ensures
        ({
            let a = insert_env_value_spec(r, k, v1, platform);
            let b = insert_env_value_spec(r, k, v2, platform);
            exists|j: int|
                0 <= j < b.len() && eq_ignore_ascii_case(#[trigger] b[j].0, k) && b[j].1 == v2 && a
                    == b.update(j, (b[j].0, v1))
        }),
{
    let a = insert_env_value_spec(r, k, v1, platform);
    let b = insert_env_value_spec(r, k, v2, platform);
    if platform == Platform::Windows && has_key_ci(r, k) {
        let w = choose|i: int| 0 <= i < r.len() && eq_ignore_ascii_case(#[trigger] r[i].0, k);
        lemma_first_key_ci_exists(r, k, w);
        let j = key_index_ci(r, k);
        assert(a =~= b.update(j, (b[j].0, v1)));
        assert(eq_ignore_ascii_case(b[j].0, k));
    } else if has_key(r, k) {
        let w = choose|i: int| 0 <= i < r.len() && r[i].0 == k;
        lemma_first_key_exists(r, k, w);
        let j = key_index(r, k);
        lemma_eq_ignore_ascii_case_refl(k);
        assert(a =~= b.update(j, (b[j].0, v1)));
        assert(eq_ignore_ascii_case(b[j].0, k));
    } else {
        let j = r.len() as int;
        lemma_eq_ignore_ascii_case_refl(k);
        assert(a =~= b.update(j, (b[j].0, v1)));
        assert(eq_ignore_ascii_case(b[j].0, k));
    }
}

proof fn lemma_path_key_is_path(env: EnvSeq)
    ensures
        eq_ignore_ascii_case(path_key(env), "PATH"@),
{
    if has_key_ci(env, "PATH"@) {
        let w = choose|i: int| 0 <= i < env.len() && eq_ignore_ascii_case(#[trigger] env[i].0, "PATH"@);
        lemma_first_key_ci_exists(env, "PATH"@, w);
    } else {
        lemma_eq_ignore_ascii_case_refl("PATH"@);
    }
}

/// The existing `PATH` value that a merge starts from.
spec fn existing_path(env: EnvSeq) -> Seq<char> {
    match value_of(env, path_key(env)) {
        Some(v) => v,
        None => Seq::empty(),
    }
}

/// Two merges differ only in the value of one entry named `PATH` (up to
/// ASCII case).
proof fn lemma_merge_slot(
    env: EnvSeq,
    p1: Seq<Seq<char>>,
    a1: Seq<Seq<char>>,
    p2: Seq<Seq<char>>,
    a2: Seq<Seq<char>>,
    platform: Platform,
)
    ensures
        ({
            let r1 = merge_path_entries_spec(env, p1, a1, platform);
            let r2 = merge_path_entries_spec(env, p2, a2, platform);
            exists|j: int|
                0 <= j < r2.len() && eq_ignore_ascii_case(#[trigger] r2[j].0, "PATH"@) && r2[j].1
                    == merged_path(existing_path(env), p2, a2, platform) && r1 == r2.update(
                    j,
                    (r2[j].0, merged_path(existing_path(env), p1, a1, platform)),
                )
        }),
{
    let k = path_key(env);
    let r = remove_exact(env, k);
    let e = existing_path(env);
    let v1 = merged_path(e, p1, a1, platform);
    let v2 = merged_path(e, p2, a2, platform);
    lemma_insert_slot(r, k, v1, v2, platform);
    let b = insert_env_value_spec(r, k, v2, platform);
    let j = choose|j: int|
        0 <= j < b.len() && eq_ignore_ascii_case(#[trigger] b[j].0, k) && b[j].1 == v2
            && insert_env_value_spec(r, k, v1, platform) == b.update(j, (b[j].0, v1));
    lemma_path_key_is_path(env);
    lemma_eq_ignore_ascii_case_trans(b[j].0, k, "PATH"@);
    let r1 = merge_path_entries_spec(env, p1, a1, platform);
    let r2 = merge_path_entries_spec(env, p2, a2, platform);
    assert(r1 == insert_env_value_spec(r, k, v1, platform));
    assert(r2 == b);
    assert(eq_ignore_ascii_case(r2[j].0, "PATH"@));
}

/// Putting an entry first in `path_prepend` puts it in front of the `PATH`
/// value that the remaining entries give, and changes nothing else: the
/// first prepended entry comes first.
pub proof fn law_path_prepend_goes_first(
    env: EnvSeq,
    first: Seq<char>,
    rest: Seq<Seq<char>>,
    append: Seq<Seq<char>>,
    platform: Platform,
)
    ensures
        ({
            let r1 = merge_path_entries_spec(env, seq![first] + rest, append, platform);
            let r2 = merge_path_entries_spec(env, rest, append, platform);
            exists|j: int|
                0 <= j < r2.len() && eq_ignore_ascii_case(#[trigger] r2[j].0, "PATH"@) && r1
                    == r2.update(j, (r2[j].0, put_in_front(first, r2[j].1, platform)))
        }),
{
    let e = existing_path(env);
    let p1 = seq![first] + rest;
    lemma_merge_slot(env, p1, append, rest, append, platform);
    let r2 = merge_path_entries_spec(env, rest, append, platform);
    let j = choose|j: int|
        0 <= j < r2.len() && eq_ignore_ascii_case(#[trigger] r2[j].0, "PATH"@) && r2[j].1
            == merged_path(e, rest, append, platform) && merge_path_entries_spec(env, p1, append, platform)
            == r2.update(j, (r2[j].0, merged_path(e, p1, append, platform)));
    let sep = entry_separator(platform);
    let l2 = merged_entries(e, rest, append);
    assert(merged_path(e, rest, append, platform) == join(l2, sep));
    rest.lemma_filter_prepend(first, |s: Seq<char>| s.len() > 0);
    lemma_merged_value_empty(e, rest, append, platform);
    if first.len() > 0 {
        assert(merged_entries(e, p1, append) =~= seq![first] + l2);
        lemma_join_prepend(first, l2, sep);
        assert(merged_path(e, p1, append, platform) == put_in_front(first, r2[j].1, platform));
    } else {
        assert(merged_entries(e, p1, append) =~= l2);
        assert(merged_path(e, p1, append, platform) == put_in_front(first, r2[j].1, platform));
    }
}

/// Adding an entry at the end of `path_append` puts it after the `PATH` value
/// that the other entries give, and changes nothing else: the last appended
/// entry comes last.
pub proof fn law_path_append_goes_last(
    env: EnvSeq,
    prepend: Seq<Seq<char>>,
    append: Seq<Seq<char>>,
    last: Seq<char>,
    platform: Platform,
)
    ensures
        ({
            let r1 = merge_path_entries_spec(env, prepend, append.push(last), platform);
            let r2 = merge_path_entries_spec(env, prepend, append, platform);
            exists|j: int|
                0 <= j < r2.len() && eq_ignore_ascii_case(#[trigger] r2[j].0, "PATH"@) && r1
                    == r2.update(j, (r2[j].0, put_after(r2[j].1, last, platform)))
        }),
{
    let e = existing_path(env);
    let a1 = append.push(last);
    lemma_merge_slot(env, prepend, a1, prepend, append, platform);
    let r2 = merge_path_entries_spec(env, prepend, append, platform);
    let j = choose|j: int|
        0 <= j < r2.len() && eq_ignore_ascii_case(#[trigger] r2[j].0, "PATH"@) && r2[j].1
            == merged_path(e, prepend, append, platform) && merge_path_entries_spec(env, prepend, a1, platform)
            == r2.update(j, (r2[j].0, merged_path(e, prepend, a1, platform)));
    let sep = entry_separator(platform);
    let l2 = merged_entries(e, prepend, append);
    assert(merged_path(e, prepend, append, platform) == join(l2, sep));
    append.lemma_filter_push(last, |s: Seq<char>| s.len() > 0);
    lemma_merged_value_empty(e, prepend, append, platform);
    if last.len() > 0 {
        let l1 = merged_entries(e, prepend, a1);
        assert(l1 =~= l2.push(last));
        assert(l1.drop_last() =~= l2);
        if l2.len() == 0 {
            assert(l1.len() == 1 && l1[0] == last);
        }
        assert(merged_path(e, prepend, a1, platform) == put_after(r2[j].1, last, platform));
    } else {
        assert(merged_entries(e, prepend, a1) =~= l2);
        assert(merged_path(e, prepend, a1, platform) == put_after(r2[j].1, last, platform));
    }
}

/// With nothing to add, the merge keeps the `PATH` value that the environment
/// had: that of the first name matching `PATH` up to ASCII case, or an empty
/// value when there is none.
pub proof fn law_path_merge_keeps_existing_value(env: EnvSeq, platform: Platform)
    ensures
        ({
            let r = merge_path_entries_spec(env, Seq::empty(), Seq::empty(), platform);
            exists|j: int|
                0 <= j < r.len() && eq_ignore_ascii_case(#[trigger] r[j].0, "PATH"@) && (forall|i: int|
                    is_first_key_ci(env, "PATH"@, i) ==> r[j].1 == env[i].1) && (!has_key_ci(
                    env,
                    "PATH"@,
                ) ==> r[j].1.len() == 0)
        }),
{
    let e = existing_path(env);
    let none: Seq<Seq<char>> = Seq::empty();
    lemma_merge_slot(env, none, none, none, none, platform);
    let r = merge_path_entries_spec(env, none, none, platform);
    let j = choose|j: int|
        0 <= j < r.len() && eq_ignore_ascii_case(#[trigger] r[j].0, "PATH"@) && r[j].1 == merged_path(
            e,
            none,
            none,
            platform,
        ) && r == r.update(j, (r[j].0, merged_path(e, none, none, platform)));
    let sep = entry_separator(platform);
    reveal(Seq::filter);
    assert(non_empty(none) =~= none);
    if e.len() > 0 {
        assert(merged_entries(e, none, none) =~= seq![e]);
        assert(merged_path(e, none, none, platform) == e);
    } else {
        assert(merged_entries(e, none, none) =~= none);
        assert(merged_path(e, none, none, platform).len() == 0);
    }
    let k = path_key(env);
    if has_key_ci(env, "PATH"@) {
        let w = choose|i: int| 0 <= i < env.len() && eq_ignore_ascii_case(#[trigger] env[i].0, "PATH"@);
        lemma_first_key_ci_exists(env, "PATH"@, w);
        let c = key_index_ci(env, "PATH"@);
        lemma_first_key_exists(env, k, c);
        let x = key_index(env, k);
        if x < c {
            assert(env[x].0 == k);
            assert(!eq_ignore_ascii_case(env[x].0, "PATH"@));
        }
        assert(x == c);
        assert forall|i: int| is_first_key_ci(env, "PATH"@, i) implies r[j].1 == env[i].1 by {
            if i < c {
                assert(!eq_ignore_ascii_case(env[i].0, "PATH"@));
            } else if c < i {
                assert(!eq_ignore_ascii_case(env[c].0, "PATH"@));
            }
        }
    } else {
        if has_key(env, k) {
            let w = choose|i: int| 0 <= i < env.len() && env[i].0 == k;
            lemma_eq_ignore_ascii_case_refl(k);
            assert(eq_ignore_ascii_case(env[w].0, "PATH"@));
        }
    }
}

} // verus!
