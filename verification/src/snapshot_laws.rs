use vstd::prelude::*;

use crate::env_map::{has_key, insert_exact, keys_distinct, EnvSeq};
use crate::snapshot::{
    first_index_of, is_first_index_of, is_first_occurrence, lemma_first_index_of_unique, lemma_first_occurrence, line_fold, nul_snapshot_marker,
    occurs_at, parse_line_text_spec, parse_nul_entries, parse_nul_snapshot_spec, snapshot_marker,
    split_env_entry_spec, split_env_line_spec, split_from, split_on, trim_trailing_cr,
    SnapshotError,
};
use vstd::utf8::{
    char_is_scalar, char_u32_cast, encode_scalar, encode_utf8, encode_utf8_decode_utf8,
    encode_utf8_valid_utf8, has_width_1_encoding, has_width_2_encoding, has_width_3_encoding,
    is_scalar, last_continuation_byte, leading_byte_width_2, leading_byte_width_3,
    leading_byte_width_4, second_last_continuation_byte, third_last_continuation_byte,
};

verus! {

/// `split_from` always yields at least the piece in progress.
pub proof fn lemma_split_from_nonempty<A>(s: Seq<A>, sep: A, cur: Seq<A>)
    ensures
        split_from(s, sep, cur).len() >= 1,
    decreases s.len(),
{
    if s.len() > 0 {
        if s[0] == sep {
            lemma_split_from_nonempty(s.drop_first(), sep, Seq::empty());
        } else {
            lemma_split_from_nonempty(s.drop_first(), sep, cur.push(s[0]));
        }
    }
}

/// Splitting a concatenation: the pieces of `a`, the last of which continues into `b`.
pub proof fn lemma_split_concat<A>(a: Seq<A>, b: Seq<A>, sep: A, cur: Seq<A>)
    ensures
        split_from(a + b, sep, cur) == split_from(a, sep, cur).drop_last() + split_from(
            b,
            sep,
            split_from(a, sep, cur).last(),
        ),
    decreases a.len(),
{
    lemma_split_from_nonempty(a, sep, cur);
    if a.len() == 0 {
        assert(a + b =~= b);
        assert(split_from(a, sep, cur) == seq![cur]);
        assert(split_from(a, sep, cur).drop_last() =~= Seq::<Seq<A>>::empty());
        assert(split_from(a + b, sep, cur) =~= Seq::<Seq<A>>::empty() + split_from(b, sep, cur));
    } else {
        assert((a + b)[0] == a[0]);
        assert((a + b).drop_first() =~= a.drop_first() + b);
        if a[0] == sep {
            lemma_split_concat(a.drop_first(), b, sep, Seq::empty());
            let t = split_from(a.drop_first(), sep, Seq::empty());
            lemma_split_from_nonempty(a.drop_first(), sep, Seq::empty());
            assert(split_from(a, sep, cur) == seq![cur] + t);
            assert((seq![cur] + t).drop_last() =~= seq![cur] + t.drop_last());
            assert((seq![cur] + t).last() == t.last());
            assert(split_from(a + b, sep, cur) =~= seq![cur] + (t.drop_last() + split_from(b, sep, t.last())));
        } else {
            lemma_split_concat(a.drop_first(), b, sep, cur.push(a[0]));
        }
    }
}

/// A stretch without separators only extends the piece in progress.
pub proof fn lemma_split_no_sep<A>(x: Seq<A>, sep: A, cur: Seq<A>)
    requires
        !x.contains(sep),
    ensures
        split_from(x, sep, cur) == seq![cur + x],
    decreases x.len(),
{
    if x.len() == 0 {
        assert(cur + x =~= cur);
    } else {
        assert(x[0] != sep) by {
            assert(x.contains(x[0]));
        }
        assert(!x.drop_first().contains(sep)) by {
            if x.drop_first().contains(sep) {
                let i = choose|i: int| 0 <= i < x.drop_first().len() && x.drop_first()[i] == sep;
                assert(x[i + 1] == sep);
            }
        }
        lemma_split_no_sep(x.drop_first(), sep, cur.push(x[0]));
        assert(cur.push(x[0]) + x.drop_first() =~= cur + x);
    }
}

/// A piece without separators followed by a separator.
pub proof fn lemma_split_piece<A>(x: Seq<A>, sep: A)
    requires
        !x.contains(sep),
    ensures
        split_from(x + seq![sep], sep, Seq::empty()) == seq![x, Seq::<A>::empty()],
{
    lemma_split_concat(x, seq![sep], sep, Seq::empty());
    lemma_split_no_sep(x, sep, Seq::empty());
    assert(Seq::<A>::empty() + x =~= x);
    let one: Seq<A> = seq![sep];
    assert(one[0] == sep);
    assert(one.drop_first() =~= Seq::<A>::empty());
    assert(split_from(one, sep, x) == seq![x] + split_from(one.drop_first(), sep, Seq::empty()));
    assert(seq![x].drop_last() =~= Seq::<Seq<A>>::empty());
    assert(split_from(x + seq![sep], sep, Seq::empty()) =~= seq![x, Seq::<A>::empty()]);
}

// ---------------------------------------------------------------------------
// Line-separated snapshots.

/// An entry that can be written as a `NAME=value` line and read back: a
/// non-empty name without `=` or newline, a value without newline that does
/// not end in a carriage return.
pub open spec fn line_entry_ok(entry: (Seq<char>, Seq<char>)) -> bool {
    &&& entry.0.len() > 0
    &&& !entry.0.contains('=')
    &&& !entry.0.contains('\n')
    &&& !entry.1.contains('\n')
    &&& !(entry.1.len() > 0 && entry.1.last() == '\r')
}

/// The line of an entry.
pub open spec fn entry_line(entry: (Seq<char>, Seq<char>)) -> Seq<char> {
    entry.0 + seq!['='] + entry.1
}

/// The lines of the entries, in order.
pub open spec fn entry_lines(env: EnvSeq) -> Seq<Seq<char>>
    decreases env.len(),
{
    if env.len() == 0 {
        Seq::empty()
    } else {
        entry_lines(env.drop_last()).push(entry_line(env.last()))
    }
}

/// Each piece followed by `sep`.
pub open spec fn terminated<A>(pieces: Seq<Seq<A>>, sep: A) -> Seq<A>
    decreases pieces.len(),
{
    if pieces.len() == 0 {
        Seq::empty()
    } else {
        terminated(pieces.drop_last(), sep) + pieces.last() + seq![sep]
    }
}

/// Each line followed by `\n`.
pub open spec fn lines_text(lines: Seq<Seq<char>>) -> Seq<char> {
    terminated(lines, '\n')
}

proof fn lemma_terminated_concat<A>(a: Seq<Seq<A>>, b: Seq<Seq<A>>, sep: A)
    ensures
        terminated(a + b, sep) == terminated(a, sep) + terminated(b, sep),
    decreases b.len(),
{
    if b.len() == 0 {
        assert(a + b =~= a);
        assert(terminated(a, sep) + terminated(b, sep) =~= terminated(a, sep));
    } else {
        assert((a + b).drop_last() =~= a + b.drop_last());
        assert((a + b).last() == b.last());
        lemma_terminated_concat(a, b.drop_last(), sep);
        assert(terminated(a + b, sep) =~= terminated(a, sep) + terminated(b, sep));
    }
}

/// Splitting pieces that are each followed by the separator gives them back,
/// and an empty last piece.
pub proof fn lemma_split_terminated<A>(pieces: Seq<Seq<A>>, sep: A)
    requires
        forall|i: int| 0 <= i < pieces.len() ==> !(#[trigger] pieces[i]).contains(sep),
    ensures
        split_on(terminated(pieces, sep), sep) == pieces + seq![Seq::<A>::empty()],
    decreases pieces.len(),
{
    if pieces.len() == 0 {
        assert(pieces + seq![Seq::<A>::empty()] =~= seq![Seq::<A>::empty()]);
    } else {
        let rest = pieces.drop_last();
        assert forall|i: int| 0 <= i < rest.len() implies !(#[trigger] rest[i]).contains(sep) by {
            assert(rest[i] == pieces[i]);
        }
        lemma_split_terminated(rest, sep);
        let a = terminated(rest, sep);
        let last = pieces.last();
        assert(!last.contains(sep)) by {
            assert(pieces[pieces.len() - 1] == last);
        }
        assert(terminated(pieces, sep) =~= a + (last + seq![sep]));
        lemma_split_concat(a, last + seq![sep], sep, Seq::empty());
        let sa = split_on(a, sep);
        assert(sa.drop_last() =~= rest);
        assert(sa.last() == Seq::<A>::empty());
        lemma_split_piece(last, sep);
        assert(split_on(terminated(pieces, sep), sep) =~= pieces + seq![Seq::<A>::empty()]);
    }
}

proof fn lemma_entry_line_reads(entry: (Seq<char>, Seq<char>))
    requires
        line_entry_ok(entry),
    ensures
        trim_trailing_cr(entry_line(entry)) == entry_line(entry),
        split_env_line_spec(entry_line(entry)) == Some(entry),
        !entry_line(entry).contains('\n'),
{
    let l = entry_line(entry);
    let k = entry.0;
    assert(l.last() != '\r') by {
        if entry.1.len() > 0 {
            assert(l.last() == entry.1.last());
        } else {
            assert(l.last() == '=');
        }
    }
    assert(l[k.len() as int] == '=');
    assert forall|j: int| 0 <= j < k.len() implies l[j] != '=' by {
        assert(l[j] == k[j]);
        assert(k.contains(k[j]));
    }
    assert(is_first_index_of(l, '=', k.len() as int));
    lemma_first_index_of_unique(l, '=', k.len() as int);
    assert(l.subrange(0, k.len() as int) =~= k);
    assert(l.subrange(k.len() as int + 1, l.len() as int) =~= entry.1);
    assert(k[0] != '=') by {
        assert(k.contains(k[0]));
    }
    assert(!l.contains('\n')) by {
        if l.contains('\n') {
            let i = choose|i: int| 0 <= i < l.len() && l[i] == '\n';
            if i < k.len() {
                assert(k[i] == '\n');
                assert(k.contains(k[i]));
            } else if i > k.len() {
                assert(entry.1[i - k.len() - 1] == '\n');
                assert(entry.1.contains(entry.1[i - k.len() - 1]));
            }
        }
    }
}

proof fn lemma_entry_lines_len(env: EnvSeq)
    ensures
        entry_lines(env).len() == env.len(),
        forall|i: int| 0 <= i < env.len() ==> #[trigger] entry_lines(env)[i] == entry_line(env[i]),
    decreases env.len(),
{
    if env.len() > 0 {
        lemma_entry_lines_len(env.drop_last());
    }
}

proof fn lemma_fold_entry_lines(head: Seq<Seq<char>>, env: EnvSeq)
    requires
        keys_distinct(env),
        forall|i: int| 0 <= i < env.len() ==> line_entry_ok(#[trigger] env[i]),
        line_fold(head) == (true, Seq::<(Seq<char>, Seq<char>)>::empty()),
    ensures
        line_fold(head + entry_lines(env)) == (true, env),
    decreases env.len(),
{
    if env.len() == 0 {
        assert(head + entry_lines(env) =~= head);
        assert(env =~= Seq::<(Seq<char>, Seq<char>)>::empty());
    } else {
        let rest = env.drop_last();
        assert(keys_distinct(rest));
        assert forall|i: int| 0 <= i < rest.len() implies line_entry_ok(#[trigger] rest[i]) by {
            assert(rest[i] == env[i]);
        }
        lemma_fold_entry_lines(head, rest);
        let lines = head + entry_lines(env);
        assert(lines.drop_last() =~= head + entry_lines(rest));
        assert(lines.last() == entry_line(env.last()));
        assert(line_entry_ok(env[env.len() - 1]));
        lemma_entry_line_reads(env.last());
        let k = env.last().0;
        assert(!has_key(rest, k)) by {
            if has_key(rest, k) {
                let i = choose|i: int| 0 <= i < rest.len() && rest[i].0 == k;
                assert(env[i].0 == env[env.len() - 1].0);
            }
        }
        assert(insert_exact(rest, k, env.last().1) =~= env);
    }
}

proof fn lemma_fold_preamble(preamble: Seq<Seq<char>>)
    requires
        forall|i: int| 0 <= i < preamble.len() ==> trim_trailing_cr(#[trigger] preamble[i]) != snapshot_marker(),
    ensures
        line_fold(preamble) == (false, Seq::<(Seq<char>, Seq<char>)>::empty()),
    decreases preamble.len(),
{
    if preamble.len() > 0 {
        let rest = preamble.drop_last();
        assert forall|i: int| 0 <= i < rest.len() implies trim_trailing_cr(#[trigger] rest[i]) != snapshot_marker() by {
            assert(rest[i] == preamble[i]);
        }
        lemma_fold_preamble(rest);
        assert(trim_trailing_cr(preamble[preamble.len() - 1]) != snapshot_marker());
    }
}

/// A line-separated snapshot reads back what was written: after preamble
/// lines none of which is the marker, the marker line and one `NAME=value`
/// line per entry give exactly those entries, whenever no name occurs twice
/// and each entry can be written as a line.
pub proof fn law_line_snapshot_reads_back(preamble: Seq<Seq<char>>, env: EnvSeq)
    requires
        forall|i: int|
            0 <= i < preamble.len() ==> !(#[trigger] preamble[i]).contains('\n') && trim_trailing_cr(
                preamble[i],
            ) != snapshot_marker(),
        keys_distinct(env),
        forall|i: int| 0 <= i < env.len() ==> line_entry_ok(#[trigger] env[i]),
    ensures
        parse_line_text_spec(lines_text(preamble) + snapshot_marker() + seq!['\n'] + lines_text(entry_lines(env)))
            == Ok::<EnvSeq, crate::snapshot::SnapshotError>(env),
{
    let m = snapshot_marker();
    reveal_strlit("__CODEX_LOCAL_ENVIRONMENT_START__");
    assert(!m.contains('\n')) by {
        if m.contains('\n') {
            let i = choose|i: int| 0 <= i < m.len() && m[i] == '\n';
        }
    }
    assert(trim_trailing_cr(m) == m) by {
        assert(m.last() != '\r');
    }
    let el = entry_lines(env);
    lemma_entry_lines_len(env);
    assert forall|i: int| 0 <= i < el.len() implies !(#[trigger] el[i]).contains('\n') by {
        assert(el[i] == entry_line(env[i]));
        lemma_entry_line_reads(env[i]);
    }
    let all = preamble + seq![m] + el;
    let single: Seq<Seq<char>> = seq![m];
    assert(single.drop_last() =~= Seq::<Seq<char>>::empty());
    assert(single.last() == m);
    assert(terminated(single.drop_last(), '\n') == Seq::<char>::empty());
    assert(terminated(single, '\n') == terminated(single.drop_last(), '\n') + m + seq!['\n']);
    assert(lines_text(single) =~= m + seq!['\n']);
    lemma_terminated_concat(preamble, seq![m], '\n');
    lemma_terminated_concat(preamble + seq![m], el, '\n');
    assert(lines_text(all) =~= lines_text(preamble) + m + seq!['\n'] + lines_text(el));
    assert forall|i: int| 0 <= i < all.len() implies !(#[trigger] all[i]).contains('\n') by {
        if i < preamble.len() {
            assert(all[i] == preamble[i]);
        } else if i == preamble.len() {
            assert(all[i] == m);
        } else {
            assert(all[i] == el[i - preamble.len() - 1]);
        }
    }
    lemma_split_terminated(all, '\n');
    lemma_fold_preamble(preamble);
    let head = preamble + seq![m];
    assert(head.drop_last() =~= preamble);
    assert(line_fold(head) == (true, Seq::<(Seq<char>, Seq<char>)>::empty()));
    lemma_fold_entry_lines(head, env);
    let pieces = all + seq![Seq::<char>::empty()];
    assert(pieces.drop_last() =~= all);
    let empty_line = Seq::<char>::empty();
    assert(first_index_of(empty_line, '=') is None);
    assert(trim_trailing_cr(empty_line) == empty_line);
}

// ---------------------------------------------------------------------------
// NUL-separated snapshots.

/// An ASCII byte in the UTF-8 encoding of a scalar is the whole encoding of
/// that very character.
proof fn lemma_encode_scalar_ascii_byte(v: u32, i: int, b: u8)
    requires
        is_scalar(v),
        0 <= i < encode_scalar(v).len(),
        encode_scalar(v)[i] == b,
        b < 128,
    ensures
        v == b as u32,
{
    if has_width_1_encoding(v) {
        assert((v & 0x7F) as u8 == b ==> v == b as u32) by (bit_vector)
            requires
                v <= 0x7F,
        ;
    } else if has_width_2_encoding(v) {
        let x = leading_byte_width_2(v);
        let y = last_continuation_byte(v);
        assert(0xC0u8 | ((v >> 6) & 0x1F) as u8 >= 0x80u8) by (bit_vector);
        assert(0x80u8 | (v & 0x3F) as u8 >= 0x80u8) by (bit_vector);
        assert(x >= 128 && y >= 128);
    } else if has_width_3_encoding(v) {
        assert(0xE0u8 | ((v >> 12) & 0x0F) as u8 >= 0x80u8) by (bit_vector);
        assert(0x80u8 | ((v >> 6) & 0x3F) as u8 >= 0x80u8) by (bit_vector);
        assert(0x80u8 | (v & 0x3F) as u8 >= 0x80u8) by (bit_vector);
        assert(leading_byte_width_3(v) >= 128 && second_last_continuation_byte(v) >= 128
            && last_continuation_byte(v) >= 128);
    } else {
        assert(0xF0u8 | ((v >> 18) & 0x7) as u8 >= 0x80u8) by (bit_vector);
        assert(0x80u8 | ((v >> 12) & 0x3F) as u8 >= 0x80u8) by (bit_vector);
        assert(0x80u8 | ((v >> 6) & 0x3F) as u8 >= 0x80u8) by (bit_vector);
        assert(0x80u8 | (v & 0x3F) as u8 >= 0x80u8) by (bit_vector);
        assert(leading_byte_width_4(v) >= 128 && third_last_continuation_byte(v) >= 128
            && second_last_continuation_byte(v) >= 128 && last_continuation_byte(v) >= 128);
    }
}

/// An ASCII byte occurs in the UTF-8 encoding of a text only where the text
/// holds that character.
pub proof fn lemma_encode_utf8_ascii_byte(chars: Seq<char>, j: int, b: u8)
    requires
        0 <= j < encode_utf8(chars).len(),
        encode_utf8(chars)[j] == b,
        b < 128,
    ensures
        exists|i: int| 0 <= i < chars.len() && chars[i] as u32 == b as u32,
    decreases chars.len(),
{
    let first = encode_scalar(chars[0] as u32);
    let rest = chars.drop_first();
    char_is_scalar(chars[0]);
    if j < first.len() {
        assert(encode_utf8(chars)[j] == first[j]);
        lemma_encode_scalar_ascii_byte(chars[0] as u32, j, b);
        assert(chars[0] as u32 == b as u32);
    } else {
        assert(encode_utf8(chars)[j] == encode_utf8(rest)[j - first.len()]);
        lemma_encode_utf8_ascii_byte(rest, j - first.len(), b);
        let i = choose|i: int| 0 <= i < rest.len() && rest[i] as u32 == b as u32;
        assert(chars[i + 1] == rest[i]);
    }
}

/// A text without the character `c` (ASCII) encodes to bytes without `c`'s byte.
proof fn lemma_encode_utf8_lacks(chars: Seq<char>, c: char, b: u8)
    requires
        !chars.contains(c),
        c as u32 == b as u32,
        b < 128,
    ensures
        !encode_utf8(chars).contains(b),
{
    if encode_utf8(chars).contains(b) {
        let j = choose|j: int| 0 <= j < encode_utf8(chars).len() && encode_utf8(chars)[j] == b;
        lemma_encode_utf8_ascii_byte(chars, j, b);
        let i = choose|i: int| 0 <= i < chars.len() && chars[i] as u32 == b as u32;
        char_u32_cast(chars[i], b as u32);
        char_u32_cast(c, b as u32);
        assert(chars[i] == c);
        assert(chars.contains(chars[i]));
    }
}

/// An entry that can be written as `NAME=value` followed by a NUL byte and
/// read back: a non-empty name without `=` or NUL, a value without NUL.
pub open spec fn nul_entry_ok(entry: (Seq<char>, Seq<char>)) -> bool {
    &&& entry.0.len() > 0
    &&& !entry.0.contains('=')
    &&& !entry.0.contains('\0')
    &&& !entry.1.contains('\0')
}

/// The bytes of an entry: the UTF-8 name, `=`, the UTF-8 value.
pub open spec fn nul_entry_bytes(entry: (Seq<char>, Seq<char>)) -> Seq<u8> {
    encode_utf8(entry.0) + seq![61u8] + encode_utf8(entry.1)
}

/// The bytes of each entry, in order.
pub open spec fn nul_entry_pieces(env: EnvSeq) -> Seq<Seq<u8>>
    decreases env.len(),
{
    if env.len() == 0 {
        Seq::empty()
    } else {
        nul_entry_pieces(env.drop_last()).push(nul_entry_bytes(env.last()))
    }
}

/// Splitting the bytes of `NAME=value` (the UTF-8 name, `=`, the UTF-8 value)
/// gives back exactly that name and value, whenever the name is not empty and
/// holds no `=`; the value may hold anything.
pub proof fn law_split_env_entry_reads_back(name: Seq<char>, value: Seq<char>)
    requires
        name.len() > 0,
        !name.contains('='),
    ensures
        split_env_entry_spec(encode_utf8(name) + seq![61u8] + encode_utf8(value)) == Ok::<
            Option<(Seq<char>, Seq<char>)>,
            SnapshotError,
        >(Some((name, value))),
{
    let ek = encode_utf8(name);
    let ev = encode_utf8(value);
    let bytes = ek + seq![61u8] + ev;
    lemma_encode_utf8_lacks(name, '=', 61u8);
    assert(bytes[ek.len() as int] == 61u8);
    assert forall|j: int| 0 <= j < ek.len() implies bytes[j] != 61u8 by {
        assert(bytes[j] == ek[j]);
        assert(ek.contains(ek[j]));
    }
    assert(is_first_index_of(bytes, 61u8, ek.len() as int));
    lemma_first_index_of_unique(bytes, 61u8, ek.len() as int);
    assert(bytes.subrange(0, ek.len() as int) =~= ek);
    assert(bytes.subrange(ek.len() as int + 1, bytes.len() as int) =~= ev);
    encode_utf8_valid_utf8(name);
    encode_utf8_valid_utf8(value);
    encode_utf8_decode_utf8(name);
    encode_utf8_decode_utf8(value);
    assert(name[0] != '=') by {
        assert(name.contains(name[0]));
    }
}

proof fn lemma_nul_entry_reads(entry: (Seq<char>, Seq<char>))
    requires
        nul_entry_ok(entry),
    ensures
        split_env_entry_spec(nul_entry_bytes(entry)) == Ok::<Option<(Seq<char>, Seq<char>)>, SnapshotError>(Some(entry)),
        !nul_entry_bytes(entry).contains(0u8),
        nul_entry_bytes(entry).len() > 0,
{
    let k = entry.0;
    let v = entry.1;
    let ek = encode_utf8(k);
    let ev = encode_utf8(v);
    let bytes = nul_entry_bytes(entry);
    law_split_env_entry_reads_back(k, v);
    lemma_encode_utf8_lacks(k, '\0', 0u8);
    lemma_encode_utf8_lacks(v, '\0', 0u8);
    assert(bytes[ek.len() as int] == 61u8);
    assert(!bytes.contains(0u8)) by {
        if bytes.contains(0u8) {
            let i = choose|i: int| 0 <= i < bytes.len() && bytes[i] == 0u8;
            if i < ek.len() {
                assert(ek[i] == 0u8);
                assert(ek.contains(ek[i]));
            } else if i > ek.len() {
                assert(ev[i - ek.len() - 1] == 0u8);
                assert(ev.contains(ev[i - ek.len() - 1]));
            }
        }
    }
}

proof fn lemma_nul_entry_pieces(env: EnvSeq)
    requires
        forall|i: int| 0 <= i < env.len() ==> nul_entry_ok(#[trigger] env[i]),
    ensures
        nul_entry_pieces(env).len() == env.len(),
        forall|i: int| 0 <= i < env.len() ==> #[trigger] nul_entry_pieces(env)[i] == nul_entry_bytes(env[i]),
        forall|i: int| 0 <= i < env.len() ==> !(#[trigger] nul_entry_pieces(env)[i]).contains(0u8),
    decreases env.len(),
{
    if env.len() > 0 {
        let rest = env.drop_last();
        assert forall|i: int| 0 <= i < rest.len() implies nul_entry_ok(#[trigger] rest[i]) by {
            assert(rest[i] == env[i]);
        }
        lemma_nul_entry_pieces(rest);
        assert(nul_entry_ok(env[env.len() - 1]));
        lemma_nul_entry_reads(env.last());
    }
}

proof fn lemma_parse_nul_pieces(env: EnvSeq)
    requires
        keys_distinct(env),
        forall|i: int| 0 <= i < env.len() ==> nul_entry_ok(#[trigger] env[i]),
    ensures
        parse_nul_entries(nul_entry_pieces(env)) == Ok::<EnvSeq, SnapshotError>(env),
    decreases env.len(),
{
    if env.len() == 0 {
        assert(env =~= Seq::<(Seq<char>, Seq<char>)>::empty());
    } else {
        let rest = env.drop_last();
        assert(keys_distinct(rest));
        assert forall|i: int| 0 <= i < rest.len() implies nul_entry_ok(#[trigger] rest[i]) by {
            assert(rest[i] == env[i]);
        }
        lemma_parse_nul_pieces(rest);
        assert(nul_entry_ok(env[env.len() - 1]));
        lemma_nul_entry_reads(env.last());
        let k = env.last().0;
        assert(!has_key(rest, k)) by {
            if has_key(rest, k) {
                let i = choose|i: int| 0 <= i < rest.len() && rest[i].0 == k;
                assert(env[i].0 == env[env.len() - 1].0);
            }
        }
        assert(nul_entry_pieces(env).drop_last() =~= nul_entry_pieces(rest));
        assert(insert_exact(rest, k, env.last().1) =~= env);
    }
}

/// A NUL-separated snapshot reads back what was written: after output in
/// which the marker line does not start earlier, the marker line and one
/// `NAME=value` entry ended by a NUL byte per entry (as `env -0` prints them)
/// give exactly those entries, whenever no name occurs twice and each entry
/// can be written that way.
pub proof fn law_nul_snapshot_reads_back(preamble: Seq<u8>, env: EnvSeq)
    requires
        forall|j: int| 0 <= j < preamble.len() ==> !#[trigger] occurs_at(
            preamble + nul_snapshot_marker(),
            nul_snapshot_marker(),
            j,
        ),
        keys_distinct(env),
        forall|i: int| 0 <= i < env.len() ==> nul_entry_ok(#[trigger] env[i]),
    ensures
        parse_nul_snapshot_spec(preamble + nul_snapshot_marker() + terminated(nul_entry_pieces(env), 0u8))
            == Ok::<EnvSeq, SnapshotError>(env),
{
    let m = nul_snapshot_marker();
    let body = terminated(nul_entry_pieces(env), 0u8);
    let head = preamble + m;
    let text = head + body;
    assert(text.subrange(preamble.len() as int, (preamble.len() + m.len()) as int) =~= m);
    assert(occurs_at(text, m, preamble.len() as int));
    assert forall|j: int| 0 <= j < preamble.len() implies !#[trigger] occurs_at(text, m, j) by {
        assert(!occurs_at(head, m, j));
        if occurs_at(text, m, j) {
            assert(text.subrange(j, j + m.len()) =~= head.subrange(j, j + m.len()));
        }
    }
    assert(is_first_occurrence(text, m, preamble.len() as int));
    lemma_first_occurrence(text, m, preamble.len() as int);
    assert(text.subrange((preamble.len() + m.len()) as int, text.len() as int) =~= body);
    lemma_nul_entry_pieces(env);
    lemma_split_terminated(nul_entry_pieces(env), 0u8);
    lemma_parse_nul_pieces(env);
    let pieces = nul_entry_pieces(env) + seq![Seq::<u8>::empty()];
    assert(pieces.drop_last() =~= nul_entry_pieces(env));
}

} // verus!
