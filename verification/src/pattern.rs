use vstd::prelude::*;
use vstd::utf8::is_ascii_chars;
use wildmatch::WildMatchPattern;

use crate::text::char_eq_ignore_ascii_case;

verus! {

/// Whether `wildmatch` matches the whole of `name` against the case-insensitive
/// wildcard `pattern` (`*` for any run of characters, `?` for one character).
pub uninterp spec fn wildcard_match_ci(pattern: Seq<char>, name: Seq<char>) -> bool;

/// The documented meaning of a wildcard pattern on ASCII text: `*` matches any
/// run of characters (possibly empty), `?` matches exactly one character, any
/// other character matches itself up to ASCII case, and the pattern must cover
/// the whole name.
pub open spec fn glob_matches_ascii_ci(pattern: Seq<char>, name: Seq<char>) -> bool
    decreases pattern.len() + name.len(),
{
    if pattern.len() == 0 {
        name.len() == 0
    } else if pattern[0] == '*' {
        glob_matches_ascii_ci(pattern.drop_first(), name) || (name.len() > 0
            && glob_matches_ascii_ci(pattern, name.drop_first()))
    } else {
        &&& name.len() > 0
        &&& (pattern[0] == '?' || char_eq_ignore_ascii_case(pattern[0], name[0]))
        &&& glob_matches_ascii_ci(pattern.drop_first(), name.drop_first())
    }
}

/// Calls `WildMatchPattern::<'*', '?'>::new_case_insensitive(pattern).matches(name)`
/// from the `wildmatch` crate. Its result is named `wildcard_match_ci`; where
/// both texts are ASCII, the crate's documented wildcard meaning is stated too.
/// What it does on non-ASCII text (Unicode lower-casing) is left to the name.
#[verifier::external_body]
fn wildcard_matches_ci(pattern: &str, name: &str) -> (r: bool)
    ensures
        r == wildcard_match_ci(pattern@, name@),
        is_ascii_chars(pattern@) && is_ascii_chars(name@) ==> r == glob_matches_ascii_ci(
            pattern@,
            name@,
        ),
{
    WildMatchPattern::<'*', '?'>::new_case_insensitive(pattern).matches(name)
}

/// A case-insensitive wildcard pattern for environment variable names.
#[derive(Clone, Debug)]
pub struct EnvironmentVariablePattern {
    pattern: String,
}

impl View for EnvironmentVariablePattern {
    type V = Seq<char>;

    closed spec fn view(&self) -> Seq<char> {
        self.pattern@
    }
}

impl EnvironmentVariablePattern {
    /// A pattern that compares names ignoring case.
    pub fn new_case_insensitive(pattern: &str) -> (p: Self)
        ensures
            p@ == pattern@,
    {
        EnvironmentVariablePattern { pattern: pattern.to_owned() }
    }

    /// A copy of the pattern.
    pub fn duplicate(&self) -> (r: Self)
        ensures
            r@ == self@,
    {
        EnvironmentVariablePattern { pattern: self.pattern.clone() }
    }

    /// The pattern text.
    pub fn pattern(&self) -> (s: &str)
        ensures
            s@ == self@,
    {
        self.pattern.as_str()
    }

    /// Whether the pattern matches the whole of `name`.
    pub fn matches(&self, name: &str) -> (r: bool)
        ensures
            r == wildcard_match_ci(self@, name@),
            is_ascii_chars(self@) && is_ascii_chars(name@) ==> r == glob_matches_ascii_ci(
                self@,
                name@,
            ),
    {
        wildcard_matches_ci(self.pattern.as_str(), name)
    }
}

/// The pattern texts of `patterns`.
pub open spec fn pattern_texts(patterns: Seq<EnvironmentVariablePattern>) -> Seq<Seq<char>> {
    patterns.map_values(|p: EnvironmentVariablePattern| p@)
}

/// `name` matches at least one of the pattern texts.
pub open spec fn matches_any(name: Seq<char>, patterns: Seq<Seq<char>>) -> bool {
    exists|i: int| 0 <= i < patterns.len() && #[trigger] wildcard_match_ci(patterns[i], name)
}

/// Whether `name` matches at least one of `patterns`.
pub fn name_matches_any(name: &str, patterns: &Vec<EnvironmentVariablePattern>) -> (r: bool)
    ensures
        r == matches_any(name@, pattern_texts(patterns@)),
{
    let n = patterns.len();
    for i in 0..n
        invariant
            n == patterns.len(),
            forall|j: int|
                0 <= j < i ==> !#[trigger] wildcard_match_ci(pattern_texts(patterns@)[j], name@),
    {
        if patterns[i].matches(name) {
            assert(wildcard_match_ci(pattern_texts(patterns@)[i as int], name@));
            return true;
        }
    }
    false
}

/// Copies of the patterns.
pub fn duplicate_patterns(patterns: &Vec<EnvironmentVariablePattern>) -> (r: Vec<EnvironmentVariablePattern>)
    ensures
        pattern_texts(r@) == pattern_texts(patterns@),
{
    let mut r: Vec<EnvironmentVariablePattern> = Vec::new();
    let n = patterns.len();
    for i in 0..n
        invariant
            n == patterns@.len(),
            r@.len() == i,
            forall|j: int| 0 <= j < i ==> (#[trigger] r@[j])@ == patterns@[j]@,
    {
        r.push(patterns[i].duplicate());
    }
    assert(pattern_texts(r@) =~= pattern_texts(patterns@));
    r
}

} // verus!
