use vstd::prelude::*;

use crate::pattern::{matches_any, name_matches_any, pattern_texts, EnvironmentVariablePattern};
use crate::text::{chars_eq_ignore_ascii_case, chars_of, eq_ignore_ascii_case};

verus! {

/// An environment as an ordered list of `(name, value)` entries.
pub type EnvSeq = Seq<(Seq<char>, Seq<char>)>;

/// No name occurs twice.
pub open spec fn keys_distinct(s: EnvSeq) -> bool {
    forall|i: int, j: int| 0 <= i < s.len() && 0 <= j < s.len() && i != j ==> s[i].0 != s[j].0
}

/// `i` is the first entry whose name is exactly `k`.
pub open spec fn is_first_key(s: EnvSeq, k: Seq<char>, i: int) -> bool {
    &&& 0 <= i < s.len()
    &&& s[i].0 == k
    &&& forall|j: int| 0 <= j < i ==> s[j].0 != k
}

/// Some entry is named exactly `k`.
pub open spec fn has_key(s: EnvSeq, k: Seq<char>) -> bool {
    exists|i: int| 0 <= i < s.len() && s[i].0 == k
}

/// The position of the first entry named exactly `k` (meaningful when `has_key`).
pub open spec fn key_index(s: EnvSeq, k: Seq<char>) -> int {
    choose|i: int| is_first_key(s, k, i)
}

/// `i` is the first entry whose name matches `k` up to ASCII case.
pub open spec fn is_first_key_ci(s: EnvSeq, k: Seq<char>, i: int) -> bool {
    &&& 0 <= i < s.len()
    &&& eq_ignore_ascii_case(s[i].0, k)
    &&& forall|j: int| 0 <= j < i ==> !eq_ignore_ascii_case(#[trigger] s[j].0, k)
}

/// Some entry's name matches `k` up to ASCII case.
pub open spec fn has_key_ci(s: EnvSeq, k: Seq<char>) -> bool {
    exists|i: int| 0 <= i < s.len() && eq_ignore_ascii_case(#[trigger] s[i].0, k)
}

/// The position of the first entry whose name matches `k` up to ASCII case
/// (meaningful when `has_key_ci`).
pub open spec fn key_index_ci(s: EnvSeq, k: Seq<char>) -> int {
    choose|i: int| is_first_key_ci(s, k, i)
}

/// The value of the entry named exactly `k`.
pub open spec fn value_of(s: EnvSeq, k: Seq<char>) -> Option<Seq<char>> {
    if has_key(s, k) {
        Some(s[key_index(s, k)].1)
    } else {
        None
    }
}

/// Sets `k` to `v`: the entry named exactly `k` gets the new value in place,
/// or a new entry is added at the end.
pub open spec fn insert_exact(s: EnvSeq, k: Seq<char>, v: Seq<char>) -> EnvSeq {
    if has_key(s, k) {
        s.update(key_index(s, k), (k, v))
    } else {
        s.push((k, v))
    }
}

/// Drops the entry named exactly `k`, if there is one.
pub open spec fn remove_exact(s: EnvSeq, k: Seq<char>) -> EnvSeq {
    if has_key(s, k) {
        s.remove(key_index(s, k))
    } else {
        s
    }
}

/// A first matching entry exists wherever any matching entry does.
pub proof fn lemma_first_key_exists(s: EnvSeq, k: Seq<char>, i: int)
    requires
        0 <= i < s.len(),
        s[i].0 == k,
    ensures
        is_first_key(s, k, key_index(s, k)),
    decreases i,
{
    if exists|j: int| 0 <= j < i && s[j].0 == k {
        let j = choose|j: int| 0 <= j < i && s[j].0 == k;
        lemma_first_key_exists(s, k, j);
    } else {
        assert(is_first_key(s, k, i));
    }
}

/// There is only one first matching entry.
pub proof fn lemma_first_key_unique(s: EnvSeq, k: Seq<char>, a: int, b: int)
    requires
        is_first_key(s, k, a),
        is_first_key(s, k, b),
    ensures
        a == b,
{
}

/// A first entry matching up to ASCII case exists wherever any such entry does.
pub proof fn lemma_first_key_ci_exists(s: EnvSeq, k: Seq<char>, i: int)
    requires
        0 <= i < s.len(),
        eq_ignore_ascii_case(s[i].0, k),
    ensures
        is_first_key_ci(s, k, key_index_ci(s, k)),
    decreases i,
{
    if exists|j: int| 0 <= j < i && eq_ignore_ascii_case(#[trigger] s[j].0, k) {
        let j = choose|j: int| 0 <= j < i && eq_ignore_ascii_case(#[trigger] s[j].0, k);
        lemma_first_key_ci_exists(s, k, j);
    } else {
        assert(is_first_key_ci(s, k, i));
    }
}

/// Setting a name keeps names distinct.
pub proof fn lemma_insert_exact_distinct(s: EnvSeq, k: Seq<char>, v: Seq<char>)
    requires
        keys_distinct(s),
    ensures
        keys_distinct(insert_exact(s, k, v)),
        has_key(insert_exact(s, k, v), k),
        value_of(insert_exact(s, k, v), k) == Some(v),
{
    let r = insert_exact(s, k, v);
    if has_key(s, k) {
        let i = choose|i: int| 0 <= i < s.len() && s[i].0 == k;
        lemma_first_key_exists(s, k, i);
        assert(r[key_index(s, k)].0 == k);
        lemma_first_key_exists(r, k, key_index(s, k));
    } else {
        assert(r[s.len() as int].0 == k);
        lemma_first_key_exists(r, k, s.len() as int);
    }
}

/// Dropping a name keeps names distinct and removes that name.
pub proof fn lemma_remove_exact_distinct(s: EnvSeq, k: Seq<char>)
    requires
        keys_distinct(s),
    ensures
        keys_distinct(remove_exact(s, k)),
        !has_key(remove_exact(s, k), k),
{
    if has_key(s, k) {
        let i = choose|i: int| 0 <= i < s.len() && s[i].0 == k;
        lemma_first_key_exists(s, k, i);
        let r = remove_exact(s, k);
        let m = key_index(s, k);
        assert forall|x: int| 0 <= x < r.len() implies r[x].0 != k by {
            if x < m {
                assert(r[x] == s[x]);
            } else {
                assert(r[x] == s[x + 1]);
            }
        }
    }
}

/// The entries whose names match some pattern (`keep` is true), or match none
/// (`keep` is false).
pub open spec fn match_filter(patterns: Seq<Seq<char>>, keep: bool) -> spec_fn(
    (Seq<char>, Seq<char>),
) -> bool {
    |e: (Seq<char>, Seq<char>)| matches_any(e.0, patterns) == keep
}

/// Keeping some of the entries keeps names distinct.
pub proof fn lemma_filter_keeps_distinct(s: EnvSeq, pred: spec_fn((Seq<char>, Seq<char>)) -> bool)
    requires
        keys_distinct(s),
    ensures
        keys_distinct(s.filter(pred)),
    decreases s.len(),
{
    reveal(Seq::filter);
    if s.len() > 0 {
        let rest = s.drop_last();
        assert(keys_distinct(rest));
        lemma_filter_keeps_distinct(rest, pred);
        let f = rest.filter(pred);
        if pred(s.last()) {
            assert forall|x: int| 0 <= x < f.len() implies f[x].0 != s.last().0 by {
                assert(f.contains(f[x]));
                rest.lemma_filter_contains_rev(pred, f[x]);
                let j = choose|j: int| 0 <= j < rest.len() && rest[j] == f[x];
                assert(s[j] == rest[j]);
                assert(s[s.len() - 1] == s.last());
            }
            let r = f.push(s.last());
            assert forall|a: int, b: int| 0 <= a < r.len() && 0 <= b < r.len() && a != b implies r[a].0 != r[b].0 by {
                if a < f.len() && b < f.len() {
                    assert(r[a] == f[a] && r[b] == f[b]);
                }
            }
        }
    }
}

/// Reading a name after setting one gives the value just set for that name
/// and leaves every other name's value as it was.
pub proof fn law_read_after_insert(s: EnvSeq, k: Seq<char>, v: Seq<char>, n: Seq<char>)
    requires
        keys_distinct(s),
    ensures
        value_of(insert_exact(s, k, v), n) == if n == k {
            Some(v)
        } else {
            value_of(s, n)
        },
{
    lemma_insert_exact_distinct(s, k, v);
    let r = insert_exact(s, k, v);
    if n != k {
        if has_key(s, n) {
            let i = choose|i: int| 0 <= i < s.len() && s[i].0 == n;
            lemma_first_key_exists(s, n, i);
            let m = key_index(s, n);
            if has_key(s, k) {
                let j = choose|j: int| 0 <= j < s.len() && s[j].0 == k;
                lemma_first_key_exists(s, k, j);
            }
            assert(r[m] == s[m]);
            lemma_first_key_exists(r, n, m);
            assert(is_first_key(r, n, m));
            lemma_first_key_unique(r, n, m, key_index(r, n));
        } else {
            assert(!has_key(r, n)) by {
                if has_key(r, n) {
                    let i = choose|i: int| 0 <= i < r.len() && r[i].0 == n;
                    if has_key(s, k) {
                        let j = choose|j: int| 0 <= j < s.len() && s[j].0 == k;
                        lemma_first_key_exists(s, k, j);
                        if i != key_index(s, k) {
                            assert(r[i] == s[i]);
                        }
                    } else if i < s.len() {
                        assert(r[i] == s[i]);
                    }
                }
            }
        }
    }
}

/// After dropping a name, reading it gives nothing and every other name's
/// value is as it was.
pub proof fn law_read_after_remove(s: EnvSeq, k: Seq<char>, n: Seq<char>)
    requires
        keys_distinct(s),
    ensures
        value_of(remove_exact(s, k), n) == if n == k {
            None
        } else {
            value_of(s, n)
        },
{
    lemma_remove_exact_distinct(s, k);
    let r = remove_exact(s, k);
    if n != k && has_key(s, k) {
        let j = choose|j: int| 0 <= j < s.len() && s[j].0 == k;
        lemma_first_key_exists(s, k, j);
        let m = key_index(s, k);
        if has_key(s, n) {
            let i = choose|i: int| 0 <= i < s.len() && s[i].0 == n;
            lemma_first_key_exists(s, n, i);
            let a = key_index(s, n);
            let b = if a < m { a } else { a - 1 };
            assert(r[b] == s[a]);
            lemma_first_key_exists(r, n, b);
            assert(is_first_key(r, n, b)) by {
                assert forall|x: int| 0 <= x < b implies r[x].0 != n by {
                    if x < m {
                        assert(r[x] == s[x]);
                    } else {
                        assert(r[x] == s[x + 1]);
                    }
                }
            }
            lemma_first_key_unique(r, n, b, key_index(r, n));
        } else {
            assert(!has_key(r, n)) by {
                if has_key(r, n) {
                    let i = choose|i: int| 0 <= i < r.len() && r[i].0 == n;
                    if i < m {
                        assert(r[i] == s[i]);
                    } else {
                        assert(r[i] == s[i + 1]);
                    }
                }
            }
        }
    }
}

/// The texts of a list of `(name, value)` pairs.
pub open spec fn entries_view(v: Seq<(String, String)>) -> EnvSeq {
    Seq::new(v.len(), |i: int| (v[i].0@, v[i].1@))
}

/// An environment: named values in the order in which they were first set,
/// with no name occurring twice.
#[derive(Debug)]
pub struct EnvMap {
    entries: Vec<(String, String)>,
}

impl View for EnvMap {
    type V = EnvSeq;

    closed spec fn view(&self) -> EnvSeq {
        entries_view(self.entries@)
    }
}

impl EnvMap {
    /// No name occurs twice: the type's invariant.
    #[verifier::type_invariant]
    pub open spec fn wf(self) -> bool {
        keys_distinct(self@)
    }

    /// An empty environment.
    pub fn new() -> (m: Self)
        ensures
            m@ == Seq::<(Seq<char>, Seq<char>)>::empty(),
    {
        let entries: Vec<(String, String)> = Vec::new();
        assert(entries_view(entries@) =~= Seq::<(Seq<char>, Seq<char>)>::empty());
        EnvMap { entries }
    }

    /// The number of entries.
    pub fn len(&self) -> (n: usize)
        ensures
            n == self@.len(),
    {
        self.entries.len()
    }

    /// Whether the environment has no entries.
    pub fn is_empty(&self) -> (b: bool)
        ensures
            b == (self@.len() == 0),
    {
        self.entries.len() == 0
    }

    /// The name of entry `i`.
    pub fn key_at(&self, i: usize) -> (k: &String)
        requires
            i < self@.len(),
        ensures
            k@ == self@[i as int].0,
    {
        &self.entries[i].0
    }

    /// The value of entry `i`.
    pub fn value_at(&self, i: usize) -> (v: &String)
        requires
            i < self@.len(),
        ensures
            v@ == self@[i as int].1,
    {
        &self.entries[i].1
    }

    /// The position of the entry named exactly `key`.
    pub fn find(&self, key: &String) -> (r: Option<usize>)
        ensures
            match r {
                Some(i) => is_first_key(self@, key@, i as int) && i as int == key_index(self@, key@),
                None => !has_key(self@, key@),
            },
    {
        let n = self.entries.len();
        for i in 0..n
            invariant
                n == self@.len(),
                forall|j: int| 0 <= j < i ==> self@[j].0 != key@,
        {
            if self.entries[i].0 == *key {
                assert(is_first_key(self@, key@, i as int));
                proof {
                    lemma_first_key_exists(self@, key@, i as int);
                }
                return Some(i);
            }
        }
        None
    }

    /// The position of the first entry whose name matches `key` up to ASCII case.
    pub fn find_ignore_ascii_case(&self, key: &str) -> (r: Option<usize>)
        ensures
            match r {
                Some(i) => is_first_key_ci(self@, key@, i as int) && i as int == key_index_ci(
                    self@,
                    key@,
                ),
                None => !has_key_ci(self@, key@),
            },
    {
        let wanted = chars_of(key);
        let n = self.entries.len();
        for i in 0..n
            invariant
                n == self@.len(),
                wanted@ == key@,
                forall|j: int| 0 <= j < i ==> !eq_ignore_ascii_case(#[trigger] self@[j].0, key@),
        {
            let name = chars_of(self.entries[i].0.as_str());
            if chars_eq_ignore_ascii_case(&name, &wanted) {
                assert(is_first_key_ci(self@, key@, i as int));
                proof {
                    lemma_first_key_ci_exists(self@, key@, i as int);
                }
                return Some(i);
            }
        }
        None
    }

    /// The value of the entry named exactly `key`.
    pub fn get(&self, key: &str) -> (r: Option<&String>)
        ensures
            match r {
                Some(v) => value_of(self@, key@) == Some(v@),
                None => value_of(self@, key@) is None,
            },
    {
        let k = key.to_owned();
        match self.find(&k) {
            Some(i) => Some(&self.entries[i].1),
            None => None,
        }
    }

    /// Sets `key` to `value`, in place where the name is present exactly.
    pub fn insert(&mut self, key: String, value: String)
        ensures
            final(self)@ == insert_exact(old(self)@, key@, value@),
    {
        proof {
            use_type_invariant(&*self);
            lemma_insert_exact_distinct(self@, key@, value@);
        }
        let found = self.find(&key);
        let ghost kv = (key@, value@);
        let mut entries: Vec<(String, String)> = Vec::new();
        assert(entries_view(entries@) =~= Seq::<(Seq<char>, Seq<char>)>::empty());
        std::mem::swap(&mut entries, &mut self.entries);
        match found {
            Some(i) => {
                entries.set(i, (key, value));
                assert(entries_view(entries@) =~= old(self)@.update(i as int, kv));
            },
            None => {
                entries.push((key, value));
                assert(entries_view(entries@) =~= old(self)@.push(kv));
            },
        }
        self.entries = entries;
    }

    /// Replaces the value of entry `i`, keeping its name.
    pub fn set_value_at(&mut self, i: usize, value: String)
        requires
            i < old(self)@.len(),
        ensures
            final(self)@ == old(self)@.update(i as int, (old(self)@[i as int].0, value@)),
    {
        proof {
            use_type_invariant(&*self);
        }
        let key = self.entries[i].0.clone();
        let ghost kv = (key@, value@);
        let mut entries: Vec<(String, String)> = Vec::new();
        assert(entries_view(entries@) =~= Seq::<(Seq<char>, Seq<char>)>::empty());
        std::mem::swap(&mut entries, &mut self.entries);
        entries.set(i, (key, value));
        assert(entries_view(entries@) =~= old(self)@.update(i as int, kv));
        assert(keys_distinct(entries_view(entries@))) by {
            assert forall|a: int, b: int|
                0 <= a < entries@.len() && 0 <= b < entries@.len() && a != b implies entries_view(
                entries@,
            )[a].0 != entries_view(entries@)[b].0 by {
                assert(entries_view(entries@)[a].0 == old(self)@[a].0);
                assert(entries_view(entries@)[b].0 == old(self)@[b].0);
            }
        }
        self.entries = entries;
    }

    /// Drops the entry named exactly `key` and returns its value.
    pub fn remove(&mut self, key: &String) -> (r: Option<String>)
        ensures
            final(self)@ == remove_exact(old(self)@, key@),
            match r {
                Some(v) => value_of(old(self)@, key@) == Some(v@),
                None => value_of(old(self)@, key@) is None,
            },
    {
        proof {
            use_type_invariant(&*self);
            lemma_remove_exact_distinct(self@, key@);
        }
        match self.find(key) {
            Some(i) => {
                let mut entries: Vec<(String, String)> = Vec::new();
                assert(entries_view(entries@) =~= Seq::<(Seq<char>, Seq<char>)>::empty());
                std::mem::swap(&mut entries, &mut self.entries);
                let (_, v) = entries.remove(i);
                assert(entries_view(entries@) =~= old(self)@.remove(i as int));
                self.entries = entries;
                Some(v)
            },
            None => None,
        }
    }

    /// Keeps the entries whose names match some of `patterns` (when
    /// `keep_matching`) or none of them (otherwise), in order.
    pub fn retain_matching(&mut self, patterns: &Vec<EnvironmentVariablePattern>, keep_matching: bool)
        ensures
            final(self)@ == old(self)@.filter(match_filter(pattern_texts(patterns@), keep_matching)),
    {
        proof {
            use_type_invariant(&*self);
        }
        let ghost pred = match_filter(pattern_texts(patterns@), keep_matching);
        let ghost orig = self@;
        let mut kept: Vec<(String, String)> = Vec::new();
        let n = self.entries.len();
        for i in 0..n
            invariant
                n == self.entries@.len(),
                orig == self@,
                pred == match_filter(pattern_texts(patterns@), keep_matching),
                Seq::new(kept@.len(), |x: int| (kept@[x].0@, kept@[x].1@)) == orig.take(i as int).filter(pred),
        {
            reveal(Seq::filter);
            assert(orig.take(i + 1).drop_last() =~= orig.take(i as int));
            let m = name_matches_any(self.entries[i].0.as_str(), patterns);
            if m == keep_matching {
                let k = self.entries[i].0.clone();
                let v = self.entries[i].1.clone();
                kept.push((k, v));
                assert(Seq::new(kept@.len(), |x: int| (kept@[x].0@, kept@[x].1@)) =~= orig.take(i as int).filter(pred).push(orig[i as int]));
            } else {
                assert(Seq::new(kept@.len(), |x: int| (kept@[x].0@, kept@[x].1@)) =~= orig.take(i as int).filter(pred));
            }
        }
        assert(orig.take(n as int) =~= orig);
        proof {
            lemma_filter_keeps_distinct(orig, pred);
        }
        assert(entries_view(kept@) =~= orig.filter(pred));
        self.entries = kept;
    }

    /// A copy of the environment.
    pub fn duplicate(&self) -> (r: EnvMap)
        ensures
            r@ == self@,
    {
        proof {
            use_type_invariant(self);
        }
        let mut entries: Vec<(String, String)> = Vec::new();
        let n = self.entries.len();
        for i in 0..n
            invariant
                n == self.entries@.len(),
                entries@.len() == i,
                forall|j: int| 0 <= j < i ==> (#[trigger] entries@[j]).0@ == self.entries@[j].0@ && entries@[j].1@ == self.entries@[j].1@,
        {
            let k = self.entries[i].0.clone();
            let v = self.entries[i].1.clone();
            entries.push((k, v));
        }
        assert(entries_view(entries@) =~= self@);
        EnvMap { entries }
    }

    /// The entries as `(name, value)` pairs, in order.
    pub fn into_pairs(self) -> (v: Vec<(String, String)>)
        ensures
            v@.len() == self@.len(),
            forall|i: int|
                0 <= i < v@.len() ==> (#[trigger] v@[i]).0@ == self@[i].0 && v@[i].1@
                    == self@[i].1,
    {
        self.entries
    }
}

} // verus!
