use vstd::prelude::*;

use crate::env_map::{EnvMap, EnvSeq};
use crate::pattern::{duplicate_patterns, pattern_texts, EnvironmentVariablePattern};

verus! {

/// The operating system family whose conventions the environment follows:
/// on Windows variable names compare without regard to ASCII case, `PATH`
/// entries are separated by `;`, and the core variables differ.
#[derive(Clone, Copy, Debug, PartialEq, Eq, Structural)]
pub enum Platform {
    Windows,
    Unix,
}

/// Which variables of the parent environment a shell starts from.
#[derive(Clone, Copy, Debug, PartialEq, Eq, Structural)]
pub enum ShellEnvironmentPolicyInherit {
    /// The platform's core variables (`PATH`, `HOME`, ...).
    Core,
    /// The whole parent environment.
    All,
    /// Nothing.
    Empty,
}

/// How the environment of a spawned shell is built from the parent's.
#[derive(Debug)]
pub struct ShellEnvironmentPolicy {
    pub inherit: ShellEnvironmentPolicyInherit,
    /// When false, names matching `*KEY*`, `*SECRET*` or `*TOKEN*` are dropped.
    pub ignore_default_excludes: bool,
    /// Names to drop.
    pub exclude: Vec<EnvironmentVariablePattern>,
    /// Variables to set, overriding inherited ones.
    pub set_vars: EnvMap,
    /// Entries to put in front of `PATH`.
    pub path_prepend: Vec<String>,
    /// Entries to put after `PATH`.
    pub path_append: Vec<String>,
    /// When not empty, only names matching one of these are kept.
    pub include_only: Vec<EnvironmentVariablePattern>,
    pub use_profile: bool,
}

/// The texts of a list of strings.
pub open spec fn strings_view(v: Seq<String>) -> Seq<Seq<char>> {
    v.map_values(|s: String| s@)
}

/// Every setting of a policy, as plain values: inherit, ignore default
/// excludes, exclude patterns, overrides, `PATH` prepend and append entries,
/// include patterns, use profile.
pub type PolicyView = (
    ShellEnvironmentPolicyInherit,
    bool,
    Seq<Seq<char>>,
    EnvSeq,
    Seq<Seq<char>>,
    Seq<Seq<char>>,
    Seq<Seq<char>>,
    bool,
);

impl View for ShellEnvironmentPolicy {
    type V = PolicyView;

    open spec fn view(&self) -> PolicyView {
        (
            self.inherit,
            self.ignore_default_excludes,
            pattern_texts(self.exclude@),
            self.set_vars@,
            strings_view(self.path_prepend@),
            strings_view(self.path_append@),
            pattern_texts(self.include_only@),
            self.use_profile,
        )
    }
}

/// The policy of a captured environment.
pub open spec fn snapshot_policy_view(env: EnvSeq) -> PolicyView {
    (
        ShellEnvironmentPolicyInherit::Empty,
        true,
        Seq::empty(),
        env,
        Seq::empty(),
        Seq::empty(),
        Seq::empty(),
        false,
    )
}

impl Default for ShellEnvironmentPolicy {
    fn default() -> (p: Self)
        ensures
            p.inherit == ShellEnvironmentPolicyInherit::All,
            !p.ignore_default_excludes,
            p.exclude@.len() == 0,
            p.set_vars@.len() == 0,
            p.path_prepend@.len() == 0,
            p.path_append@.len() == 0,
            p.include_only@.len() == 0,
            !p.use_profile,
    {
        ShellEnvironmentPolicy {
            inherit: ShellEnvironmentPolicyInherit::All,
            ignore_default_excludes: false,
            exclude: Vec::new(),
            set_vars: EnvMap::new(),
            path_prepend: Vec::new(),
            path_append: Vec::new(),
            include_only: Vec::new(),
            use_profile: false,
        }
    }
}

/// Copies of the strings.
pub fn duplicate_strings(v: &Vec<String>) -> (r: Vec<String>)
    ensures
        strings_view(r@) == strings_view(v@),
{
    let mut r: Vec<String> = Vec::new();
    let n = v.len();
    for i in 0..n
        invariant
            n == v@.len(),
            r@.len() == i,
            forall|j: int| 0 <= j < i ==> (#[trigger] r@[j])@ == v@[j]@,
    {
        r.push(v[i].clone());
    }
    assert(strings_view(r@) =~= strings_view(v@));
    r
}

impl ShellEnvironmentPolicy {
    /// A copy of the policy.
    pub fn duplicate(&self) -> (r: Self)
        ensures
            r@ == self@,
    {
        ShellEnvironmentPolicy {
            inherit: self.inherit,
            ignore_default_excludes: self.ignore_default_excludes,
            exclude: duplicate_patterns(&self.exclude),
            set_vars: self.set_vars.duplicate(),
            path_prepend: duplicate_strings(&self.path_prepend),
            path_append: duplicate_strings(&self.path_append),
            include_only: duplicate_patterns(&self.include_only),
            use_profile: self.use_profile,
        }
    }
}

} // verus!
