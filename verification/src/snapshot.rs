use vstd::prelude::*;
use vstd::slice::{slice_subrange, slice_to_vec};
use vstd::utf8::{decode_utf8, encode_utf8, valid_utf8};

use crate::env_map::{insert_exact, EnvMap, EnvSeq};
use crate::policy::{snapshot_policy_view, ShellEnvironmentPolicy, ShellEnvironmentPolicyInherit};
use crate::text::{chars_of, range_equals, string_of_range};

verus! {

/// The line after which a local environment script's output holds the environment.
pub const SNAPSHOT_MARKER: &'static str = "__CODEX_LOCAL_ENVIRONMENT_START__";

/// The text of the snapshot marker.
pub open spec fn snapshot_marker() -> Seq<char> {
    "__CODEX_LOCAL_ENVIRONMENT_START__"@
}

/// The bytes that open the NUL-separated part of a snapshot: the marker and a newline.
pub open spec fn nul_snapshot_marker() -> Seq<u8> {
    encode_utf8("__CODEX_LOCAL_ENVIRONMENT_START__\n"@)
}

/// Why a snapshot could not be read.
#[derive(Clone, Copy, Debug, PartialEq, Eq, Structural)]
pub enum SnapshotError {
    /// The marker line does not occur in the output.
    MarkerNotFound,
    /// A variable name is not valid UTF-8.
    NonUtf8VariableName,
    /// A variable value is not valid UTF-8.
    NonUtf8VariableValue,
}

impl SnapshotError {
    /// The message that describes the error.
    pub fn message(&self) -> (m: &'static str)
        ensures
            m@ == match self {
                SnapshotError::MarkerNotFound => "local environment snapshot marker not found in shell output"@,
                SnapshotError::NonUtf8VariableName => "local environment snapshot contained a non-UTF8 variable name"@,
                SnapshotError::NonUtf8VariableValue => "local environment snapshot contained a non-UTF8 variable value"@,
            },
    {
        match self {
            SnapshotError::MarkerNotFound => "local environment snapshot marker not found in shell output",
            SnapshotError::NonUtf8VariableName => "local environment snapshot contained a non-UTF8 variable name",
            SnapshotError::NonUtf8VariableValue => "local environment snapshot contained a non-UTF8 variable value",
        }
    }
}

/// How the environment part of a snapshot is laid out.
#[derive(Clone, Copy, Debug, PartialEq, Eq, Structural)]
pub enum SnapshotFormat {
    /// `NAME=value` entries each ended by a NUL byte (`env -0`).
    NulSeparated,
    /// One `NAME=value` entry per line.
    LineSeparated,
}

// ---------------------------------------------------------------------------
// Positions and pieces of sequences.

/// `i` is the first position of `x` in `s`.
pub open spec fn is_first_index_of<A>(s: Seq<A>, x: A, i: int) -> bool {
    &&& 0 <= i < s.len()
    &&& s[i] == x
    &&& forall|j: int| 0 <= j < i ==> s[j] != x
}

/// The first position of `x` in `s`, if it occurs.
pub open spec fn first_index_of<A>(s: Seq<A>, x: A) -> Option<int> {
    if exists|i: int| 0 <= i < s.len() && s[i] == x {
        Some(choose|i: int| is_first_index_of(s, x, i))
    } else {
        None
    }
}

/// The first position of `x` exists wherever `x` occurs.
pub proof fn lemma_first_index_of<A>(s: Seq<A>, x: A, i: int)
    requires
        0 <= i < s.len(),
        s[i] == x,
    ensures
        first_index_of(s, x) matches Some(m) && is_first_index_of(s, x, m),
    decreases i,
{
    if exists|j: int| 0 <= j < i && s[j] == x {
        let j = choose|j: int| 0 <= j < i && s[j] == x;
        lemma_first_index_of(s, x, j);
    } else {
        assert(is_first_index_of(s, x, i));
    }
}

/// A first position of `x` is the one `first_index_of` names.
pub proof fn lemma_first_index_of_unique<A>(s: Seq<A>, x: A, a: int)
    requires
        is_first_index_of(s, x, a),
    ensures
        first_index_of(s, x) == Some(a),
{
    lemma_first_index_of(s, x, a);
    let m = first_index_of(s, x)->0;
    assert(is_first_index_of(s, x, m));
    if m < a {
        assert(s[m] != x);
    } else if a < m {
        assert(s[a] != x);
    }
}

/// `m` occurs in `s` starting at `i`.
pub open spec fn occurs_at<A>(s: Seq<A>, m: Seq<A>, i: int) -> bool {
    0 <= i && i + m.len() <= s.len() && s.subrange(i, i + m.len()) == m
}

/// `i` is the first position at which `m` occurs in `s`.
pub open spec fn is_first_occurrence<A>(s: Seq<A>, m: Seq<A>, i: int) -> bool {
    &&& occurs_at(s, m, i)
    &&& forall|j: int| 0 <= j < i ==> !#[trigger] occurs_at(s, m, j)
}

/// The first position at which `m` occurs in `s`, if it does.
pub open spec fn first_occurrence<A>(s: Seq<A>, m: Seq<A>) -> Option<int> {
    if exists|i: int| #[trigger] occurs_at(s, m, i) {
        Some(choose|i: int| is_first_occurrence(s, m, i))
    } else {
        None
    }
}

/// A first occurrence of `m` is the one `first_occurrence` names.
pub proof fn lemma_first_occurrence<A>(s: Seq<A>, m: Seq<A>, i: int)
    requires
        is_first_occurrence(s, m, i),
    ensures
        first_occurrence(s, m) == Some(i),
{
    assert(occurs_at(s, m, i));
    let k = choose|k: int| is_first_occurrence(s, m, k);
    assert(is_first_occurrence(s, m, k));
    if k < i {
        assert(!occurs_at(s, m, k));
    } else if i < k {
        assert(!occurs_at(s, m, i));
    }
}

/// The pieces of `s` between separators `sep`, with the piece in progress `cur`.
pub open spec fn split_from<A>(s: Seq<A>, sep: A, cur: Seq<A>) -> Seq<Seq<A>>
    decreases s.len(),
{
    if s.len() == 0 {
        seq![cur]
    } else if s[0] == sep {
        seq![cur] + split_from(s.drop_first(), sep, Seq::empty())
    } else {
        split_from(s.drop_first(), sep, cur.push(s[0]))
    }
}

/// The pieces of `s` between separators `sep`, empty pieces included, as
/// `slice::split` yields them.
pub open spec fn split_on<A>(s: Seq<A>, sep: A) -> Seq<Seq<A>> {
    split_from(s, sep, Seq::empty())
}

// ---------------------------------------------------------------------------
// NUL-separated snapshots.

/// What one `NAME=value` entry of a NUL-separated snapshot gives: nothing when
/// it has no `=` or an empty name, an error when the name or the value is not
/// UTF-8, and the pair otherwise.
pub open spec fn split_env_entry_spec(entry: Seq<u8>) -> Result<
    Option<(Seq<char>, Seq<char>)>,
    SnapshotError,
> {
    match first_index_of(entry, 61u8) {
        None => Ok(None),
        Some(i) => {
            let name = entry.subrange(0, i);
            if !valid_utf8(name) {
                Err(SnapshotError::NonUtf8VariableName)
            } else if decode_utf8(name).len() == 0 || decode_utf8(name)[0] == '=' {
                Ok(None)
            } else if !valid_utf8(entry.subrange(i + 1, entry.len() as int)) {
                Err(SnapshotError::NonUtf8VariableValue)
            } else {
                Ok(Some((decode_utf8(name), decode_utf8(entry.subrange(i + 1, entry.len() as int)))))
            }
        },
    }
}

/// Reads the NUL-separated entries in order, skipping empty ones; the first
/// error ends the reading.
pub open spec fn parse_nul_entries(pieces: Seq<Seq<u8>>) -> Result<EnvSeq, SnapshotError>
    decreases pieces.len(),
{
    if pieces.len() == 0 {
        Ok(Seq::empty())
    } else {
        match parse_nul_entries(pieces.drop_last()) {
            Err(e) => Err(e),
            Ok(env) => {
                let entry = pieces.last();
                if entry.len() == 0 {
                    Ok(env)
                } else {
                    match split_env_entry_spec(entry) {
                        Err(e) => Err(e),
                        Ok(None) => Ok(env),
                        Ok(Some(kv)) => Ok(insert_exact(env, kv.0, kv.1)),
                    }
                }
            },
        }
    }
}

/// What a NUL-separated snapshot gives: the entries after the first marker
/// line, or `MarkerNotFound`.
pub open spec fn parse_nul_snapshot_spec(stdout: Seq<u8>) -> Result<EnvSeq, SnapshotError> {
    match first_occurrence(stdout, nul_snapshot_marker()) {
        None => Err(SnapshotError::MarkerNotFound),
        Some(start) => parse_nul_entries(
            split_on(stdout.subrange(start + nul_snapshot_marker().len(), stdout.len() as int), 0u8),
        ),
    }
}

proof fn lemma_parse_nul_entries_error(a: Seq<Seq<u8>>, b: Seq<Seq<u8>>, e: SnapshotError)
    requires
        parse_nul_entries(a) == Err::<EnvSeq, SnapshotError>(e),
    ensures
        parse_nul_entries(a + b) == Err::<EnvSeq, SnapshotError>(e),
    decreases b.len(),
{
    if b.len() == 0 {
        assert(a + b =~= a);
    } else {
        lemma_parse_nul_entries_error(a, b.drop_last(), e);
        assert((a + b).drop_last() =~= a + b.drop_last());
    }
}

/// `String::from_utf8`: `Some` exactly when the bytes are valid UTF-8, with the
/// characters they encode.
#[verifier::external_body]
fn string_from_utf8(bytes: Vec<u8>) -> (r: Option<String>)
    ensures
        r is Some <==> valid_utf8(bytes@),
        r matches Some(s) ==> s@ == decode_utf8(bytes@),
{
    String::from_utf8(bytes).ok()
}

/// Splits one `NAME=value` entry at its first `=`.
pub fn split_env_entry(entry: &[u8]) -> (r: Result<Option<(String, String)>, SnapshotError>)
    ensures
        match r {
            Ok(Some((k, v))) => split_env_entry_spec(entry@) == Ok::<_, SnapshotError>(Some((k@, v@))),
            Ok(None) => split_env_entry_spec(entry@) == Ok::<Option<(Seq<char>, Seq<char>)>, SnapshotError>(None),
            Err(e) => split_env_entry_spec(entry@) == Err::<Option<(Seq<char>, Seq<char>)>, SnapshotError>(e),
        },
{
    let n = entry.len();
    let mut index: usize = 0;
    while index < n && entry[index] != 61u8
        invariant
            n == entry@.len(),
            index <= n,
            forall|j: int| 0 <= j < index ==> entry@[j] != 61u8,
        decreases n - index,
    {
        index = index + 1;
    }
    if index == n {
        assert(first_index_of(entry@, 61u8) is None);
        return Ok(None);
    }
    proof {
        assert(is_first_index_of(entry@, 61u8, index as int));
        lemma_first_index_of_unique(entry@, 61u8, index as int);
    }
    let key = match string_from_utf8(slice_to_vec(slice_subrange(entry, 0, index))) {
        Some(k) => k,
        None => return Err(SnapshotError::NonUtf8VariableName),
    };
    let key_chars = chars_of(key.as_str());
    if key_chars.len() == 0 || key_chars[0] == '=' {
        return Ok(None);
    }
    let value = match string_from_utf8(slice_to_vec(slice_subrange(entry, index + 1, n))) {
        Some(v) => v,
        None => return Err(SnapshotError::NonUtf8VariableValue),
    };
    Ok(Some((key, value)))
}

/// The position of the first occurrence of `marker` in `s`.
fn find_subsequence(s: &[u8], marker: &[u8]) -> (r: Option<usize>)
    ensures
        match r {
            Some(i) => first_occurrence(s@, marker@) == Some(i as int) && occurs_at(s@, marker@, i as int),
            None => first_occurrence(s@, marker@) is None,
        },
{
    let n = s.len();
    let m = marker.len();
    if m > n {
        assert forall|i: int| !#[trigger] occurs_at(s@, marker@, i) by {}
        return None;
    }
    let last = n - m;
    let mut i: usize = 0;
    while i <= last
        invariant
            n == s@.len(),
            m == marker@.len(),
            last == n - m,
            i <= last + 1,
            forall|j: int| 0 <= j < i ==> !#[trigger] occurs_at(s@, marker@, j),
        decreases last + 1 - i,
    {
        let mut k: usize = 0;
        while k < m && s[i + k] == marker[k]
            invariant
                n == s@.len(),
                m == marker@.len(),
                i <= last,
                last == n - m,
                k <= m,
                forall|x: int| 0 <= x < k ==> s@[i + x] == marker@[x],
            decreases m - k,
        {
            k = k + 1;
        }
        if k == m {
            assert(s@.subrange(i as int, i + m) =~= marker@);
            proof {
                lemma_first_occurrence(s@, marker@, i as int);
            }
            return Some(i);
        }
        assert(s@.subrange(i as int, i + m)[k as int] != marker@[k as int]);
        i = i + 1;
    }
    assert forall|j: int| !#[trigger] occurs_at(s@, marker@, j) by {
        if 0 <= j && j + m <= n {
            assert(j < i);
        }
    }
    None
}

/// Reads a snapshot whose environment part is `env -0` output: after the
/// first marker line, `NAME=value` entries each ended by a NUL byte. Empty
/// entries, entries without `=` and entries with an empty name are skipped; a
/// later entry for a name replaces an earlier one.
pub fn parse_nul_separated_environment_snapshot(stdout: &[u8]) -> (r: Result<EnvMap, SnapshotError>)
    ensures
        match r {
            Ok(env) => parse_nul_snapshot_spec(stdout@) == Ok::<EnvSeq, SnapshotError>(env@),
            Err(e) => parse_nul_snapshot_spec(stdout@) == Err::<EnvSeq, SnapshotError>(e),
        },
{
    let marker = "__CODEX_LOCAL_ENVIRONMENT_START__\n".as_bytes();
    let start = match find_subsequence(stdout, marker) {
        Some(start) => start,
        None => return Err(SnapshotError::MarkerNotFound),
    };
    assert(marker@ == nul_snapshot_marker());
    assert(occurs_at(stdout@, marker@, start as int));
    assert(start + marker@.len() <= stdout@.len());
    let total = stdout.len();
    let body_start = start + marker.len();
    let snapshot = slice_subrange(stdout, body_start, total);
    let ghost t = snapshot@;
    let n = snapshot.len();
    assert(t.subrange(0, n as int) =~= t);
    assert(t.subrange(0, 0) =~= Seq::<u8>::empty());
    assert(parse_nul_snapshot_spec(stdout@) == parse_nul_entries(split_on(t, 0u8)));
    let mut env = EnvMap::new();
    let mut piece_start: usize = 0;
    let mut j: usize = 0;
    let ghost mut done: Seq<Seq<u8>> = Seq::empty();
    while j < n
        invariant
            n == t.len(),
            t == snapshot@,
            parse_nul_snapshot_spec(stdout@) == parse_nul_entries(split_on(t, 0u8)),
            piece_start <= j <= n,
            split_on(t, 0u8) == done + split_from(t.subrange(j as int, n as int), 0u8, t.subrange(piece_start as int, j as int)),
            parse_nul_entries(done) == Ok::<EnvSeq, SnapshotError>(env@),
        decreases n - j,
    {
        let ghost rest = t.subrange(j as int, n as int);
        assert(rest.drop_first() =~= t.subrange(j + 1, n as int));
        assert(rest[0] == t[j as int]);
        if snapshot[j] == 0u8 {
            let ghost piece = t.subrange(piece_start as int, j as int);
            assert(split_from(rest, 0u8, piece) == seq![piece] + split_from(rest.drop_first(), 0u8, Seq::empty()));
            assert(t.subrange(j + 1, j + 1) =~= Seq::<u8>::empty());
            assert(split_on(t, 0u8) =~= done.push(piece) + split_from(t.subrange(j + 1, n as int), 0u8, Seq::empty()));
            assert(done.push(piece).drop_last() =~= done);
            if j > piece_start {
                match split_env_entry(slice_subrange(snapshot, piece_start, j)) {
                    Ok(Some((k, v))) => {
                        env.insert(k, v);
                    },
                    Ok(None) => {},
                    Err(e) => {
                        assert(done.push(piece).last() == piece);
                        assert(parse_nul_entries(done.push(piece)) == Err::<EnvSeq, SnapshotError>(e));
                        proof {
                            lemma_parse_nul_entries_error(done.push(piece), split_from(t.subrange(j + 1, n as int), 0u8, Seq::empty()), e);
                        }
                        return Err(e);
                    },
                }
            }
            proof {
                done = done.push(piece);
            }
            piece_start = j + 1;
        } else {
            assert(split_from(rest, 0u8, t.subrange(piece_start as int, j as int)) == split_from(rest.drop_first(), 0u8, t.subrange(piece_start as int, j as int).push(t[j as int])));
            assert(t.subrange(piece_start as int, j as int).push(t[j as int]) =~= t.subrange(piece_start as int, j + 1));
        }
        j = j + 1;
    }
    let ghost piece = t.subrange(piece_start as int, n as int);
    assert(split_on(t, 0u8) =~= done.push(piece));
    assert(done.push(piece).drop_last() =~= done);
    if n > piece_start {
        match split_env_entry(slice_subrange(snapshot, piece_start, n)) {
            Ok(Some((k, v))) => {
                env.insert(k, v);
            },
            Ok(None) => {},
            Err(e) => {
                return Err(e);
            },
        }
    }
    Ok(env)
}

// ---------------------------------------------------------------------------
// Line-separated snapshots.

/// The line without its trailing carriage returns.
pub open spec fn trim_trailing_cr(line: Seq<char>) -> Seq<char>
    decreases line.len(),
{
    if line.len() > 0 && line.last() == '\r' {
        trim_trailing_cr(line.drop_last())
    } else {
        line
    }
}

/// What one `NAME=value` line gives: the parts around the first `=`, or
/// nothing when there is no `=` or the name is empty or starts with `=`.
pub open spec fn split_env_line_spec(line: Seq<char>) -> Option<(Seq<char>, Seq<char>)> {
    match first_index_of(line, '=') {
        None => None,
        Some(i) => {
            let key = line.subrange(0, i);
            if key.len() == 0 || key[0] == '=' {
                None
            } else {
                Some((key, line.subrange(i + 1, line.len() as int)))
            }
        },
    }
}

/// One line read in state `(marker seen, environment)`: before the marker a
/// line only tells whether it is the marker; after it, an entry line sets its
/// variable.
pub open spec fn line_step(state: (bool, EnvSeq), line: Seq<char>) -> (bool, EnvSeq) {
    let l = trim_trailing_cr(line);
    if !state.0 {
        (l == snapshot_marker(), state.1)
    } else {
        match split_env_line_spec(l) {
            Some(kv) => (true, insert_exact(state.1, kv.0, kv.1)),
            None => state,
        }
    }
}

/// The state after reading `lines` in order.
pub open spec fn line_fold(lines: Seq<Seq<char>>) -> (bool, EnvSeq)
    decreases lines.len(),
{
    if lines.len() == 0 {
        (false, Seq::empty())
    } else {
        line_step(line_fold(lines.drop_last()), lines.last())
    }
}

/// What a line-separated snapshot text gives: the entries after the first
/// marker line, or `MarkerNotFound`. The lines are the pieces between `\n`
/// characters; an empty last piece, which `str::lines` leaves out, neither is
/// the marker nor holds an entry.
pub open spec fn parse_line_text_spec(text: Seq<char>) -> Result<EnvSeq, SnapshotError> {
    let state = line_fold(split_on(text, '\n'));
    if state.0 {
        Ok(state.1)
    } else {
        Err(SnapshotError::MarkerNotFound)
    }
}

/// Splits one `NAME=value` line at its first `=`.
pub fn split_env_line(line: &str) -> (r: Option<(String, String)>)
    ensures
        match r {
            Some((k, v)) => split_env_line_spec(line@) == Some((k@, v@)),
            None => split_env_line_spec(line@) is None,
        },
{
    let chars = chars_of(line);
    let n = chars.len();
    let mut index: usize = 0;
    while index < n && chars[index] != '='
        invariant
            n == chars@.len(),
            chars@ == line@,
            index <= n,
            forall|j: int| 0 <= j < index ==> chars@[j] != '=',
        decreases n - index,
    {
        index = index + 1;
    }
    if index == n {
        assert(first_index_of(line@, '=') is None);
        return None;
    }
    proof {
        assert(is_first_index_of(line@, '=', index as int));
        lemma_first_index_of_unique(line@, '=', index as int);
    }
    if index == 0 || chars[0] == '=' {
        return None;
    }
    let key = string_of_range(&chars, 0, index);
    let value = string_of_range(&chars, index + 1, n);
    Some((key, value))
}

/// Reads the line `chars[from..to]` in state `(found, env)`.
fn read_snapshot_line(
    found: &mut bool,
    env: &mut EnvMap,
    chars: &Vec<char>,
    from: usize,
    to: usize,
    marker: &Vec<char>,
)
    requires
        from <= to <= chars.len(),
        marker@ == snapshot_marker(),
    ensures
        (*final(found), final(env)@) == line_step((*old(found), old(env)@), chars@.subrange(from as int, to as int)),
{
    let ghost line = chars@.subrange(from as int, to as int);
    let mut end = to;
    while end > from && chars[end - 1] == '\r'
        invariant
            from <= end <= to <= chars@.len(),
            line == chars@.subrange(from as int, to as int),
            trim_trailing_cr(line) == trim_trailing_cr(chars@.subrange(from as int, end as int)),
        decreases end,
    {
        assert(chars@.subrange(from as int, end as int).drop_last() =~= chars@.subrange(from as int, end - 1));
        end = end - 1;
    }
    assert(trim_trailing_cr(chars@.subrange(from as int, end as int)) == chars@.subrange(from as int, end as int));
    if !*found {
        *found = range_equals(chars, from, end, marker);
        return;
    }
    let trimmed = string_of_range(chars, from, end);
    if let Some((k, v)) = split_env_line(trimmed.as_str()) {
        env.insert(k, v);
    }
}

/// Reads a line-separated snapshot text: after the first marker line, one
/// `NAME=value` entry per line, trailing carriage returns ignored. Lines
/// without `=` or with an empty name are skipped; a later entry for a name
/// replaces an earlier one.
pub fn parse_line_separated_text(text: &str) -> (r: Result<EnvMap, SnapshotError>)
    ensures
        match r {
            Ok(env) => parse_line_text_spec(text@) == Ok::<EnvSeq, SnapshotError>(env@),
            Err(e) => parse_line_text_spec(text@) == Err::<EnvSeq, SnapshotError>(e),
        },
{
    let chars = chars_of(text);
    let marker = chars_of(SNAPSHOT_MARKER);
    let ghost t = chars@;
    let n = chars.len();
    let mut found = false;
    let mut env = EnvMap::new();
    let mut line_start: usize = 0;
    let mut j: usize = 0;
    let ghost mut done: Seq<Seq<char>> = Seq::empty();
    assert(t.subrange(0, n as int) =~= t);
    assert(t.subrange(0, 0) =~= Seq::<char>::empty());
    while j < n
        invariant
            n == t.len(),
            t == chars@,
            t == text@,
            marker@ == snapshot_marker(),
            line_start <= j <= n,
            split_on(t, '\n') == done + split_from(t.subrange(j as int, n as int), '\n', t.subrange(line_start as int, j as int)),
            line_fold(done) == (found, env@),
        decreases n - j,
    {
        let ghost rest = t.subrange(j as int, n as int);
        assert(rest.drop_first() =~= t.subrange(j + 1, n as int));
        assert(rest[0] == t[j as int]);
        if chars[j] == '\n' {
            let ghost line = t.subrange(line_start as int, j as int);
            assert(split_from(rest, '\n', line) == seq![line] + split_from(rest.drop_first(), '\n', Seq::empty()));
            assert(t.subrange(j + 1, j + 1) =~= Seq::<char>::empty());
            assert(split_on(t, '\n') =~= done.push(line) + split_from(t.subrange(j + 1, n as int), '\n', Seq::empty()));
            assert(done.push(line).drop_last() =~= done);
            read_snapshot_line(&mut found, &mut env, &chars, line_start, j, &marker);
            proof {
                done = done.push(line);
            }
            line_start = j + 1;
        } else {
            assert(split_from(rest, '\n', t.subrange(line_start as int, j as int)) == split_from(rest.drop_first(), '\n', t.subrange(line_start as int, j as int).push(t[j as int])));
            assert(t.subrange(line_start as int, j as int).push(t[j as int]) =~= t.subrange(line_start as int, j + 1));
        }
        j = j + 1;
    }
    let ghost line = t.subrange(line_start as int, n as int);
    assert(split_on(t, '\n') =~= done.push(line));
    assert(done.push(line).drop_last() =~= done);
    read_snapshot_line(&mut found, &mut env, &chars, line_start, n, &marker);
    if !found {
        return Err(SnapshotError::MarkerNotFound);
    }
    Ok(env)
}

/// The characters that `String::from_utf8_lossy` makes of `bytes`.
pub uninterp spec fn utf8_lossy_decoded(bytes: Seq<u8>) -> Seq<char>;

/// Calls `String::from_utf8_lossy`, which decodes UTF-8 and replaces each
/// invalid sequence with U+FFFD. Its result is named `utf8_lossy_decoded`; on
/// valid UTF-8 it is the decoded text. Which replacements are made on invalid
/// input is left to the name.
#[verifier::external_body]
pub(crate) fn string_from_utf8_lossy(bytes: &[u8]) -> (s: String)
    ensures
        s@ == utf8_lossy_decoded(bytes@),
        valid_utf8(bytes@) ==> s@ == decode_utf8(bytes@),
{
    String::from_utf8_lossy(bytes).into_owned()
}

/// Reads a line-separated snapshot (PowerShell or `cmd` `set` output) after
/// decoding it as UTF-8 with replacement characters.
pub fn parse_line_separated_environment_snapshot(stdout: &[u8]) -> (r: Result<EnvMap, SnapshotError>)
    ensures
        match r {
            Ok(env) => parse_line_text_spec(utf8_lossy_decoded(stdout@)) == Ok::<EnvSeq, SnapshotError>(env@),
            Err(e) => parse_line_text_spec(utf8_lossy_decoded(stdout@)) == Err::<EnvSeq, SnapshotError>(e),
        },
        valid_utf8(stdout@) ==> utf8_lossy_decoded(stdout@) == decode_utf8(stdout@),
{
    let output = string_from_utf8_lossy(stdout);
    parse_line_separated_text(output.as_str())
}

/// What a snapshot in `format` gives.
pub open spec fn parse_snapshot_spec(stdout: Seq<u8>, format: SnapshotFormat) -> Result<EnvSeq, SnapshotError> {
    match format {
        SnapshotFormat::NulSeparated => parse_nul_snapshot_spec(stdout),
        SnapshotFormat::LineSeparated => parse_line_text_spec(utf8_lossy_decoded(stdout)),
    }
}

/// Reads a snapshot in the given format.
pub fn parse_environment_snapshot(stdout: &[u8], format: SnapshotFormat) -> (r: Result<EnvMap, SnapshotError>)
    ensures
        match r {
            Ok(env) => parse_snapshot_spec(stdout@, format) == Ok::<EnvSeq, SnapshotError>(env@),
            Err(e) => parse_snapshot_spec(stdout@, format) == Err::<EnvSeq, SnapshotError>(e),
        },
        format is LineSeparated && valid_utf8(stdout@) ==> utf8_lossy_decoded(stdout@) == decode_utf8(
            stdout@,
        ),
{
    match format {
        SnapshotFormat::NulSeparated => parse_nul_separated_environment_snapshot(stdout),
        SnapshotFormat::LineSeparated => parse_line_separated_environment_snapshot(stdout),
    }
}

/// The policy that a captured environment stands for: start from nothing,
/// keep every name, and set exactly the captured variables.
pub fn environment_snapshot_to_shell_environment_policy(env: EnvMap) -> (p: ShellEnvironmentPolicy)
    ensures
        p@ == snapshot_policy_view(env@),
{
    let p = ShellEnvironmentPolicy {
        inherit: ShellEnvironmentPolicyInherit::Empty,
        ignore_default_excludes: true,
        exclude: Vec::new(),
        set_vars: env,
        path_prepend: Vec::new(),
        path_append: Vec::new(),
        include_only: Vec::new(),
        use_profile: false,
    };
    assert(p@ =~= snapshot_policy_view(env@));
    p
}

} // verus!
