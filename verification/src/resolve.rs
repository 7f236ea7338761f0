use vstd::prelude::*;

use crate::config::{
    same_script, LocalEnvironmentConfig, LocalEnvironmentScriptConfig, LocalEnvironmentSourceConfig,
    ScriptConfigView,
};
use crate::env_map::EnvMap;
use crate::workdir::path_eq;
use crate::policy::{snapshot_policy_view, PolicyView, ShellEnvironmentPolicy};
use crate::snapshot::environment_snapshot_to_shell_environment_policy;

verus! {

/// A file's modification time: whole seconds and nanoseconds after (or, when
/// `after_epoch` is false, before) the Unix epoch.
#[derive(Clone, Copy, Debug, PartialEq, Eq, Structural)]
pub struct FileTime {
    pub after_epoch: bool,
    pub secs: u64,
    pub nanos: u32,
}

/// What a captured environment depends on: the script's configuration and
/// the script file's modification time, when it could be read.
#[derive(Debug)]
pub struct DynamicLocalEnvironmentCacheKey {
    pub script: LocalEnvironmentScriptConfig,
    pub modified_at: Option<FileTime>,
}

/// A cache key as plain values.
pub type CacheKeyView = (ScriptConfigView, Option<FileTime>);

impl View for DynamicLocalEnvironmentCacheKey {
    type V = CacheKeyView;

    open spec fn view(&self) -> CacheKeyView {
        (self.script@, self.modified_at)
    }
}

/// Two cache keys are equal: the scripts are equal (paths as paths) and the
/// modification times are the same.
pub open spec fn keys_match(a: CacheKeyView, b: CacheKeyView) -> bool {
    same_script(a.0, b.0) && a.1 == b.1
}

impl DynamicLocalEnvironmentCacheKey {
    /// Whether the two keys are equal.
    pub fn same_as(&self, other: &Self) -> (r: bool)
        ensures
            r == keys_match(self@, other@),
            self@ == other@ ==> r,
    {
        self.script.same_as(&other.script) && self.modified_at == other.modified_at
    }

    /// A copy of the key.
    pub fn duplicate(&self) -> (r: Self)
        ensures
            r@ == self@,
    {
        DynamicLocalEnvironmentCacheKey { script: self.script.duplicate(), modified_at: self.modified_at }
    }
}

/// The policy captured for a local environment, with the key it was captured under.
#[derive(Debug)]
pub struct CachedLocalEnvironment {
    pub key: DynamicLocalEnvironmentCacheKey,
    pub shell_environment_policy: ShellEnvironmentPolicy,
}

/// A cache entry as plain values: the environment's name, the key, the policy.
pub type CacheEntryView = (Seq<char>, CacheKeyView, PolicyView);

/// The first entry for `name`, if any.
pub open spec fn cache_entry_index(entries: Seq<CacheEntryView>, name: Seq<char>) -> Option<int> {
    if exists|i: int| 0 <= i < entries.len() && entries[i].0 == name {
        Some(choose|i: int| is_first_cache_entry(entries, name, i))
    } else {
        None
    }
}

/// `i` is the first entry for `name`.
pub open spec fn is_first_cache_entry(entries: Seq<CacheEntryView>, name: Seq<char>, i: int) -> bool {
    &&& 0 <= i < entries.len()
    &&& entries[i].0 == name
    &&& forall|j: int| 0 <= j < i ==> entries[j].0 != name
}

proof fn lemma_first_cache_entry(entries: Seq<CacheEntryView>, name: Seq<char>, i: int)
    requires
        is_first_cache_entry(entries, name, i),
    ensures
        cache_entry_index(entries, name) == Some(i),
{
    let k = choose|k: int| is_first_cache_entry(entries, name, k);
    assert(is_first_cache_entry(entries, name, k));
    if k < i {
        assert(entries[k].0 != name);
    } else if i < k {
        assert(entries[i].0 != name);
    }
}

/// The key and policy cached for `name`.
pub open spec fn cache_lookup(entries: Seq<CacheEntryView>, name: Seq<char>) -> Option<(CacheKeyView, PolicyView)> {
    match cache_entry_index(entries, name) {
        Some(i) => Some((entries[i].1, entries[i].2)),
        None => None,
    }
}

/// The cache after recording `policy` for `name` under `key`.
pub open spec fn cache_store(
    entries: Seq<CacheEntryView>,
    name: Seq<char>,
    key: CacheKeyView,
    policy: PolicyView,
) -> Seq<CacheEntryView> {
    match cache_entry_index(entries, name) {
        Some(i) => entries.update(i, (name, key, policy)),
        None => entries.push((name, key, policy)),
    }
}

/// The policies captured from local environment scripts, by environment name.
#[derive(Debug)]
pub struct LocalEnvironmentCache {
    entries: Vec<(String, CachedLocalEnvironment)>,
}

impl View for LocalEnvironmentCache {
    type V = Seq<CacheEntryView>;

    closed spec fn view(&self) -> Seq<CacheEntryView> {
        Seq::new(
            self.entries@.len(),
            |i: int|
                (
                    self.entries@[i].0@,
                    self.entries@[i].1.key@,
                    self.entries@[i].1.shell_environment_policy@,
                ),
        )
    }
}

impl LocalEnvironmentCache {
    /// An empty cache.
    pub fn new() -> (c: Self)
        ensures
            c@ == Seq::<CacheEntryView>::empty(),
    {
        let c = LocalEnvironmentCache { entries: Vec::new() };
        assert(c@ =~= Seq::<CacheEntryView>::empty());
        c
    }

    fn find(&self, name: &str) -> (r: Option<usize>)
        ensures
            match r {
                Some(i) => cache_entry_index(self@, name@) == Some(i as int) && is_first_cache_entry(self@, name@, i as int),
                None => cache_entry_index(self@, name@) is None,
            },
    {
        let wanted = name.to_owned();
        let n = self.entries.len();
        for i in 0..n
            invariant
                n == self@.len(),
                wanted@ == name@,
                forall|j: int| 0 <= j < i ==> self@[j].0 != name@,
        {
            if self.entries[i].0 == wanted {
                assert(is_first_cache_entry(self@, name@, i as int));
                proof {
                    lemma_first_cache_entry(self@, name@, i as int);
                }
                return Some(i);
            }
        }
        None
    }

    /// The policy cached for `name` under a key equal to `key`.
    pub fn lookup(&self, name: &str, key: &DynamicLocalEnvironmentCacheKey) -> (r: Option<ShellEnvironmentPolicy>)
        ensures
            match r {
                Some(p) => cache_lookup(self@, name@) matches Some((k, pv)) && keys_match(k, key@) && pv == p@,
                None => !(cache_lookup(self@, name@) matches Some((k, _)) && keys_match(k, key@)),
            },
            match cache_lookup(self@, name@) {
                Some((k, pv)) => k == key@ ==> (r matches Some(p) && p@ == pv),
                None => true,
            },
    {
        match self.find(name) {
            Some(i) => {
                if self.entries[i].1.key.same_as(key) {
                    Some(self.entries[i].1.shell_environment_policy.duplicate())
                } else {
                    None
                }
            },
            None => None,
        }
    }

    /// Records `policy` for `name` under `key`, replacing what was cached for `name`.
    pub fn store(&mut self, name: &str, key: DynamicLocalEnvironmentCacheKey, policy: ShellEnvironmentPolicy)
        ensures
            final(self)@ == cache_store(old(self)@, name@, key@, policy@),
    {
        let ghost entry = (name@, key@, policy@);
        let cached = CachedLocalEnvironment { key, shell_environment_policy: policy };
        match self.find(name) {
            Some(i) => {
                self.entries.set(i, (name.to_owned(), cached));
                assert(self@ =~= old(self)@.update(i as int, entry));
            },
            None => {
                self.entries.push((name.to_owned(), cached));
                assert(self@ =~= old(self)@.push(entry));
            },
        }
    }
}

/// What resolving a local environment's policy needs next.
#[derive(Debug)]
pub enum PolicyResolution {
    /// The policy is known.
    Resolved(ShellEnvironmentPolicy),
    /// The script must be run and its environment captured, then recorded
    /// under this key with `record_captured_environment`.
    CaptureScript(DynamicLocalEnvironmentCacheKey),
}

/// Looks up the policy of a script local environment whose file has
/// modification time `modified_at`: the cached policy when the script and
/// its modification time are unchanged, otherwise a request to capture it.
pub fn resolve_script_local_environment_shell_policy(
    cache: &LocalEnvironmentCache,
    name: &str,
    script: &LocalEnvironmentScriptConfig,
    modified_at: Option<FileTime>,
) -> (r: PolicyResolution)
    ensures
        match r {
            PolicyResolution::Resolved(p) => cache_lookup(cache@, name@) matches Some((k, pv)) && keys_match(
                k,
                (script@, modified_at),
            ) && pv == p@,
            PolicyResolution::CaptureScript(key) => key@ == (script@, modified_at) && !(cache_lookup(
                cache@,
                name@,
            ) matches Some((k, _)) && keys_match(k, (script@, modified_at))),
        },
        match cache_lookup(cache@, name@) {
            Some((k, pv)) => k == (script@, modified_at) ==> (r matches PolicyResolution::Resolved(p)
                && p@ == pv),
            None => true,
        },
{
    let cache_key = DynamicLocalEnvironmentCacheKey { script: script.duplicate(), modified_at };
    match cache.lookup(name, &cache_key) {
        Some(policy) => PolicyResolution::Resolved(policy),
        None => PolicyResolution::CaptureScript(cache_key),
    }
}

/// Resolves a local environment's policy: a fixed policy as it is, a script's
/// from the cache or by capturing it.
pub fn resolve_local_environment_shell_policy(
    cache: &LocalEnvironmentCache,
    name: &str,
    environment: &LocalEnvironmentConfig,
    modified_at: Option<FileTime>,
) -> (r: PolicyResolution)
    ensures
        match environment.source {
            LocalEnvironmentSourceConfig::Static(policy) => r matches PolicyResolution::Resolved(p) && p@ == policy@,
            LocalEnvironmentSourceConfig::Script(script) => match r {
                PolicyResolution::Resolved(p) => cache_lookup(cache@, name@) matches Some((k, pv)) && keys_match(
                k,
                (script@, modified_at),
            ) && pv == p@,
                PolicyResolution::CaptureScript(key) => key@ == (script@, modified_at) && !(cache_lookup(
                    cache@,
                    name@,
                ) matches Some((k, _)) && keys_match(k, (script@, modified_at))),
            },
        },
        match (environment.source, cache_lookup(cache@, name@)) {
            (LocalEnvironmentSourceConfig::Script(script), Some((k, pv))) => k == (script@, modified_at) ==> (
            r matches PolicyResolution::Resolved(p) && p@ == pv),
            _ => true,
        },
{
    match &environment.source {
        LocalEnvironmentSourceConfig::Static(shell_environment_policy) => PolicyResolution::Resolved(
            shell_environment_policy.duplicate(),
        ),
        LocalEnvironmentSourceConfig::Script(script) => resolve_script_local_environment_shell_policy(
            cache,
            name,
            script,
            modified_at,
        ),
    }
}

/// Turns a captured environment into its policy, records it for `name` under
/// `key`, and returns it.
pub fn record_captured_environment(
    cache: &mut LocalEnvironmentCache,
    name: &str,
    key: DynamicLocalEnvironmentCacheKey,
    env: EnvMap,
) -> (p: ShellEnvironmentPolicy)
    ensures
        p@ == snapshot_policy_view(env@),
        final(cache)@ == cache_store(old(cache)@, name@, key@, snapshot_policy_view(env@)),
{
    let policy = environment_snapshot_to_shell_environment_policy(env);
    let stored = policy.duplicate();
    assert(policy@ =~= snapshot_policy_view(env@));
    cache.store(name, key, stored);
    policy
}

/// A policy recorded for a name is what a later lookup of that name finds,
/// together with the key it was recorded under; so a lookup under a key that
/// does not match it (a changed script or modification time) finds nothing to
/// reuse.
pub proof fn law_recorded_policy_is_found(
    entries: Seq<CacheEntryView>,
    name: Seq<char>,
    key: CacheKeyView,
    policy: PolicyView,
)
    ensures
        cache_lookup(cache_store(entries, name, key, policy), name) == Some((key, policy)),
{
    let r = cache_store(entries, name, key, policy);
    match cache_entry_index(entries, name) {
        Some(i) => {
            let w = choose|w: int| 0 <= w < entries.len() && entries[w].0 == name;
            lemma_first_cache_entry_exists(entries, name, w);
            assert(is_first_cache_entry(r, name, i));
            lemma_first_cache_entry(r, name, i);
        },
        None => {
            let i = entries.len() as int;
            assert forall|j: int| 0 <= j < i implies r[j].0 != name by {
                assert(r[j] == entries[j]);
            }
            assert(is_first_cache_entry(r, name, i));
            lemma_first_cache_entry(r, name, i);
        },
    }
}

proof fn lemma_first_cache_entry_exists(entries: Seq<CacheEntryView>, name: Seq<char>, i: int)
    requires
        0 <= i < entries.len(),
        entries[i].0 == name,
    ensures
        cache_entry_index(entries, name) matches Some(m) && is_first_cache_entry(entries, name, m),
    decreases i,
{
    if exists|j: int| 0 <= j < i && entries[j].0 == name {
        let j = choose|j: int| 0 <= j < i && entries[j].0 == name;
        lemma_first_cache_entry_exists(entries, name, j);
    } else {
        assert(is_first_cache_entry(entries, name, i));
        lemma_first_cache_entry(entries, name, i);
    }
}

/// Recording a policy for one name leaves what is cached for every other name.
pub proof fn law_recording_leaves_other_names(
    entries: Seq<CacheEntryView>,
    name: Seq<char>,
    key: CacheKeyView,
    policy: PolicyView,
    other: Seq<char>,
)
    requires
        other != name,
    ensures
        cache_lookup(cache_store(entries, name, key, policy), other) == cache_lookup(entries, other),
{
    let r = cache_store(entries, name, key, policy);
    if let Some(i) = cache_entry_index(entries, name) {
        let w = choose|w: int| 0 <= w < entries.len() && entries[w].0 == name;
        lemma_first_cache_entry_exists(entries, name, w);
    }
    match cache_entry_index(entries, other) {
        Some(m) => {
            let w = choose|w: int| 0 <= w < entries.len() && entries[w].0 == other;
            lemma_first_cache_entry_exists(entries, other, w);
            assert(r[m] == entries[m]);
            assert forall|j: int| 0 <= j < m implies r[j].0 != other by {
                if j < entries.len() {
                    assert(entries[j].0 != other);
                }
            }
            assert(is_first_cache_entry(r, other, m));
            lemma_first_cache_entry(r, other, m);
        },
        None => {
            assert forall|j: int| 0 <= j < r.len() implies r[j].0 != other by {
                if j < entries.len() {
                    if r[j].0 == other {
                        assert(entries[j].0 == other);
                        lemma_first_cache_entry_exists(entries, other, j);
                    }
                }
            }
        },
    }
}

/// A capture is reused only for the very same script run: two keys whose
/// script paths (as paths), shells, argument lists, working directories (as
/// paths) or modification times differ never match, so a resolution under
/// such a key asks for the script to be captured again.
pub proof fn law_changed_run_is_a_new_key(a: CacheKeyView, b: CacheKeyView)
    requires
        ({
            ||| !path_eq(a.0.0, b.0.0)
            ||| a.0.1 != b.0.1
            ||| a.0.2 != b.0.2
            ||| (a.0.3 is Some) != (b.0.3 is Some)
            ||| (a.0.3 matches Some(x) && b.0.3 matches Some(y) && !path_eq(x, y))
            ||| a.1 != b.1
        }),
    ensures
        !keys_match(a, b),
{
}

} // verus!
