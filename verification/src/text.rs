use vstd::prelude::*;

verus! {

/// `String::push` appends one character to the end of the string.
pub assume_specification[ String::push ](s: &mut String, ch: char)
    ensures
        final(s)@ == old(s)@.push(ch),
;

/// The code of `c` after ASCII lower-casing: `A`..=`Z` map to `a`..=`z`,
/// every other character is left as it is.
pub open spec fn ascii_lower_code(c: char) -> u32 {
    if 65 <= c as u32 && c as u32 <= 90 {
        (c as u32 + 32) as u32
    } else {
        c as u32
    }
}

/// Two characters are equal once ASCII letters are folded to lower case.
pub open spec fn char_eq_ignore_ascii_case(a: char, b: char) -> bool {
    ascii_lower_code(a) == ascii_lower_code(b)
}

/// Two texts are an ASCII case-insensitive match.
pub open spec fn eq_ignore_ascii_case(a: Seq<char>, b: Seq<char>) -> bool {
    &&& a.len() == b.len()
    &&& forall|i: int| 0 <= i < a.len() ==> #[trigger] char_eq_ignore_ascii_case(a[i], b[i])
}

/// `eq_ignore_ascii_case` is reflexive.
pub proof fn lemma_eq_ignore_ascii_case_refl(a: Seq<char>)
    ensures
        eq_ignore_ascii_case(a, a),
{
}

/// `eq_ignore_ascii_case` is symmetric.
pub proof fn lemma_eq_ignore_ascii_case_symm(a: Seq<char>, b: Seq<char>)
    ensures
        eq_ignore_ascii_case(a, b) == eq_ignore_ascii_case(b, a),
{
    if eq_ignore_ascii_case(a, b) {
        assert forall|i: int| 0 <= i < b.len() implies #[trigger] char_eq_ignore_ascii_case(b[i], a[i]) by {
            assert(char_eq_ignore_ascii_case(a[i], b[i]));
        }
    }
    if eq_ignore_ascii_case(b, a) {
        assert forall|i: int| 0 <= i < a.len() implies #[trigger] char_eq_ignore_ascii_case(a[i], b[i]) by {
            assert(char_eq_ignore_ascii_case(b[i], a[i]));
        }
    }
}

/// `eq_ignore_ascii_case` is transitive.
pub proof fn lemma_eq_ignore_ascii_case_trans(a: Seq<char>, b: Seq<char>, c: Seq<char>)
    requires
        eq_ignore_ascii_case(a, b),
        eq_ignore_ascii_case(b, c),
    ensures
        eq_ignore_ascii_case(a, c),
{
    assert forall|i: int| 0 <= i < a.len() implies #[trigger] char_eq_ignore_ascii_case(a[i], c[i]) by {
        assert(char_eq_ignore_ascii_case(a[i], b[i]));
        assert(char_eq_ignore_ascii_case(b[i], c[i]));
    }
}

/// Compares two characters ignoring ASCII case.
pub fn char_matches_ignore_ascii_case(a: char, b: char) -> (r: bool)
    ensures
        r == char_eq_ignore_ascii_case(a, b),
{
    let x: u32 = a as u32;
    let y: u32 = b as u32;
    let lx: u32 = if 65 <= x && x <= 90 { x + 32 } else { x };
    let ly: u32 = if 65 <= y && y <= 90 { y + 32 } else { y };
    lx == ly
}

/// Compares two character sequences ignoring ASCII case.
pub fn chars_eq_ignore_ascii_case(a: &Vec<char>, b: &Vec<char>) -> (r: bool)
    ensures
        r == eq_ignore_ascii_case(a@, b@),
{
    if a.len() != b.len() {
        return false;
    }
    let n = a.len();
    for i in 0..n
        invariant
            n == a.len(),
            n == b.len(),
            forall|j: int| 0 <= j < i ==> #[trigger] char_eq_ignore_ascii_case(a@[j], b@[j]),
    {
        if !char_matches_ignore_ascii_case(a[i], b[i]) {
            return false;
        }
    }
    true
}

/// Compares two strings ignoring ASCII case.
pub fn str_eq_ignore_ascii_case(a: &str, b: &str) -> (r: bool)
    ensures
        r == eq_ignore_ascii_case(a@, b@),
{
    let x = chars_of(a);
    let y = chars_of(b);
    chars_eq_ignore_ascii_case(&x, &y)
}

/// The characters of `s`, in order.
pub fn chars_of(s: &str) -> (v: Vec<char>)
    ensures
        v@ == s@,
{
    let mut v: Vec<char> = Vec::new();
    for c in it: s.chars()
        invariant
            v@ == it.seq().take(it.index() as int),
            it.seq() == s@,
    {
        v.push(c);
    }
    v
}

/// The string made of `chars[from..to]`.
pub fn string_of_range(chars: &Vec<char>, from: usize, to: usize) -> (s: String)
    requires
        from <= to <= chars.len(),
    ensures
        s@ == chars@.subrange(from as int, to as int),
{
    let mut s = String::new();
    let mut i = from;
    while i < to
        invariant
            from <= i <= to <= chars.len(),
            s@ == chars@.subrange(from as int, i as int),
        decreases to - i,
    {
        s.push(chars[i]);
        i = i + 1;
        assert(s@ =~= chars@.subrange(from as int, i as int));
    }
    s
}

/// Appends every character of `t` to `s`.
pub fn push_all(s: &mut String, t: &Vec<char>)
    ensures
        final(s)@ == old(s)@ + t@,
{
    let n = t.len();
    for i in 0..n
        invariant
            n == t.len(),
            s@ == old(s)@ + t@.take(i as int),
    {
        s.push(t[i]);
        assert(t@.take(i + 1) =~= t@.take(i as int).push(t@[i as int]));
        assert(s@ =~= old(s)@ + t@.take(i + 1));
    }
    assert(t@.take(n as int) =~= t@);
}

/// Whether `chars[from..to]` equals `other`.
pub fn range_equals(chars: &Vec<char>, from: usize, to: usize, other: &Vec<char>) -> (r: bool)
    requires
        from <= to <= chars.len(),
    ensures
        r == (chars@.subrange(from as int, to as int) == other@),
{
    if to - from != other.len() {
        return false;
    }
    let n = other.len();
    for i in 0..n
        invariant
            n == other@.len(),
            to - from == n,
            from <= to <= chars@.len(),
            forall|j: int| 0 <= j < i ==> chars@[from + j] == other@[j],
    {
        if chars[from + i] != other[i] {
            assert(chars@.subrange(from as int, to as int)[i as int] != other@[i as int]);
            return false;
        }
    }
    assert(chars@.subrange(from as int, to as int) =~= other@);
    true
}

} // verus!
