use vstd::prelude::*;

use crate::capture::{
    cmd_escape, cmd_quote_spec, cmd_quoted_args, escape_with, posix_capture_command, posix_escape,
    posix_quoted_args, posix_shell_quote_spec, powershell_escape, powershell_quote_spec,
    powershell_quoted_args,
};

verus! {

/// Escaping a concatenation escapes each part.
pub proof fn lemma_escape_concat(a: Seq<char>, b: Seq<char>, f: spec_fn(char) -> Seq<char>)
    ensures
        escape_with(a + b, f) == escape_with(a, f) + escape_with(b, f),
    decreases b.len(),
{
    if b.len() == 0 {
        assert(a + b =~= a);
        assert(escape_with(a, f) + escape_with(b, f) =~= escape_with(a, f));
    } else {
        assert((a + b).drop_last() =~= a + b.drop_last());
        assert((a + b).last() == b.last());
        lemma_escape_concat(a, b.drop_last(), f);
        assert(escape_with(a + b, f) =~= escape_with(a, f) + escape_with(b, f));
    }
}

proof fn lemma_escape_first(s: Seq<char>, f: spec_fn(char) -> Seq<char>)
    requires
        s.len() > 0,
    ensures
        escape_with(s, f) == f(s[0]) + escape_with(s.drop_first(), f),
{
    assert(s =~= seq![s[0]] + s.drop_first());
    lemma_escape_concat(seq![s[0]], s.drop_first(), f);
    let one: Seq<char> = seq![s[0]];
    assert(one.drop_last() =~= Seq::<char>::empty());
    assert(one.last() == s[0]);
    assert(escape_with(one.drop_last(), f) == Seq::<char>::empty());
    assert(escape_with(one, f) == escape_with(one.drop_last(), f) + f(s[0]));
    assert(escape_with(one, f) =~= f(s[0]));
}

/// The text that a POSIX shell makes of a word made of single-quoted runs,
/// backslash-escaped characters and plain characters (`quoted`: inside single
/// quotes). Expansions are not considered.
pub open spec fn sh_word_text(w: Seq<char>, quoted: bool) -> Seq<char>
    decreases w.len(),
{
    if w.len() == 0 {
        Seq::empty()
    } else if quoted {
        if w[0] == '\'' {
            sh_word_text(w.drop_first(), false)
        } else {
            seq![w[0]] + sh_word_text(w.drop_first(), true)
        }
    } else if w[0] == '\'' {
        sh_word_text(w.drop_first(), true)
    } else if w[0] == '\\' && w.len() > 1 {
        seq![w[1]] + sh_word_text(w.subrange(2, w.len() as int), false)
    } else {
        seq![w[0]] + sh_word_text(w.drop_first(), false)
    }
}

proof fn lemma_sh_quoted_run(s: Seq<char>, t: Seq<char>)
    ensures
        sh_word_text(escape_with(s, posix_escape()) + t, true) == s + sh_word_text(t, true),
    decreases s.len(),
{
    if s.len() == 0 {
        assert(escape_with(s, posix_escape()) + t =~= t);
        assert(s + sh_word_text(t, true) =~= sh_word_text(t, true));
    } else {
        let c = s[0];
        let rest = s.drop_first();
        lemma_escape_first(s, posix_escape());
        let e = escape_with(rest, posix_escape());
        lemma_sh_quoted_run(rest, t);
        if c == '\'' {
            let w = seq!['\'', '\\', '\'', '\''] + e + t;
            assert(escape_with(s, posix_escape()) + t =~= w);
            assert(w.drop_first() =~= seq!['\\', '\'', '\''] + e + t);
            let w1 = w.drop_first();
            assert(w1.subrange(2, w1.len() as int) =~= seq!['\''] + e + t);
            let w2 = w1.subrange(2, w1.len() as int);
            assert(w2.drop_first() =~= e + t);
            assert(sh_word_text(w, true) == sh_word_text(w1, false));
            assert(sh_word_text(w1, false) == seq!['\''] + sh_word_text(w2, false));
            assert(sh_word_text(w2, false) == sh_word_text(e + t, true));
            assert(seq!['\''] + (rest + sh_word_text(t, true)) =~= s + sh_word_text(t, true));
        } else {
            let w = seq![c] + e + t;
            assert(escape_with(s, posix_escape()) + t =~= w);
            assert(w.drop_first() =~= e + t);
            assert(seq![c] + (rest + sh_word_text(t, true)) =~= s + sh_word_text(t, true));
        }
    }
}

/// A POSIX shell reads the word that `posix_shell_quote` makes of `s` back as
/// exactly `s`: single quotes protect every character and each quote in `s`
/// is closed, escaped and reopened.
pub proof fn law_posix_shell_quote_reads_back(s: Seq<char>)
    ensures
        sh_word_text(posix_shell_quote_spec(s), false) == s,
{
    let e = escape_with(s, posix_escape());
    let w = posix_shell_quote_spec(s);
    assert(w.drop_first() =~= e + seq!['\'']);
    lemma_sh_quoted_run(s, seq!['\'']);
    let q: Seq<char> = seq!['\''];
    assert(q.drop_first() =~= Seq::<char>::empty());
    assert(sh_word_text(q, true) == sh_word_text(Seq::<char>::empty(), false));
    assert(s + Seq::<char>::empty() =~= s);
}

/// The text of a PowerShell single-quoted string whose body starts at `w`: a
/// doubled quote stands for one quote, a single quote ends the string.
pub open spec fn powershell_single_quoted_text(w: Seq<char>) -> Seq<char>
    decreases w.len(),
{
    if w.len() == 0 {
        Seq::empty()
    } else if w[0] == '\'' {
        if w.len() > 1 && w[1] == '\'' {
            seq!['\''] + powershell_single_quoted_text(w.subrange(2, w.len() as int))
        } else {
            Seq::empty()
        }
    } else {
        seq![w[0]] + powershell_single_quoted_text(w.drop_first())
    }
}

proof fn lemma_powershell_run(s: Seq<char>, t: Seq<char>)
    ensures
        powershell_single_quoted_text(escape_with(s, powershell_escape()) + t) == s
            + powershell_single_quoted_text(t),
    decreases s.len(),
{
    if s.len() == 0 {
        assert(escape_with(s, powershell_escape()) + t =~= t);
        assert(s + powershell_single_quoted_text(t) =~= powershell_single_quoted_text(t));
    } else {
        let c = s[0];
        let rest = s.drop_first();
        lemma_escape_first(s, powershell_escape());
        let e = escape_with(rest, powershell_escape());
        lemma_powershell_run(rest, t);
        if c == '\'' {
            let w = seq!['\'', '\''] + e + t;
            assert(escape_with(s, powershell_escape()) + t =~= w);
            assert(w.subrange(2, w.len() as int) =~= e + t);
            assert(seq!['\''] + (rest + powershell_single_quoted_text(t)) =~= s + powershell_single_quoted_text(t));
        } else {
            let w = seq![c] + e + t;
            assert(escape_with(s, powershell_escape()) + t =~= w);
            assert(w.drop_first() =~= e + t);
            assert(seq![c] + (rest + powershell_single_quoted_text(t)) =~= s + powershell_single_quoted_text(t));
        }
    }
}

/// PowerShell reads `'` + `powershell_quote(s)` + `'` as exactly `s`.
pub proof fn law_powershell_quote_reads_back(s: Seq<char>)
    ensures
        powershell_single_quoted_text(powershell_quote_spec(s) + seq!['\'']) == s,
{
    lemma_powershell_run(s, seq!['\'']);
    assert(s + Seq::<char>::empty() =~= s);
}

/// The text left after undoing `cmd` escapes: `^` followed by a character
/// stands for that character, `%%` for `%`.
pub open spec fn cmd_unescaped_text(w: Seq<char>) -> Seq<char>
    decreases w.len(),
{
    if w.len() == 0 {
        Seq::empty()
    } else if w[0] == '^' && w.len() > 1 {
        seq![w[1]] + cmd_unescaped_text(w.subrange(2, w.len() as int))
    } else if w[0] == '%' && w.len() > 1 && w[1] == '%' {
        seq!['%'] + cmd_unescaped_text(w.subrange(2, w.len() as int))
    } else {
        seq![w[0]] + cmd_unescaped_text(w.drop_first())
    }
}

proof fn lemma_cmd_run(s: Seq<char>, t: Seq<char>)
    ensures
        cmd_unescaped_text(escape_with(s, cmd_escape()) + t) == s + cmd_unescaped_text(t),
    decreases s.len(),
{
    if s.len() == 0 {
        assert(escape_with(s, cmd_escape()) + t =~= t);
        assert(s + cmd_unescaped_text(t) =~= cmd_unescaped_text(t));
    } else {
        let c = s[0];
        let rest = s.drop_first();
        lemma_escape_first(s, cmd_escape());
        let e = escape_with(rest, cmd_escape());
        lemma_cmd_run(rest, t);
        if c == '^' || c == '&' || c == '|' || c == '<' || c == '>' || c == '%' {
            let w = (cmd_escape())(c) + e + t;
            assert(escape_with(s, cmd_escape()) + t =~= w);
            assert(w.subrange(2, w.len() as int) =~= e + t);
            assert(seq![c] + (rest + cmd_unescaped_text(t)) =~= s + cmd_unescaped_text(t));
        } else {
            let w = seq![c] + e + t;
            assert(escape_with(s, cmd_escape()) + t =~= w);
            assert(w.drop_first() =~= e + t);
            assert(seq![c] + (rest + cmd_unescaped_text(t)) =~= s + cmd_unescaped_text(t));
        }
    }
}

/// Between the double quotes that `cmd_quote` puts around `s`, undoing the
/// `^` escapes and the doubled `%` gives back exactly `s`.
pub proof fn law_cmd_quote_reads_back(s: Seq<char>)
    ensures
        cmd_unescaped_text(cmd_quote_spec(s).subrange(1, cmd_quote_spec(s).len() - 1)) == s,
{
    let e = escape_with(s, cmd_escape());
    assert(cmd_quote_spec(s).subrange(1, cmd_quote_spec(s).len() - 1) =~= e + Seq::<char>::empty());
    lemma_cmd_run(s, Seq::empty());
    assert(s + Seq::<char>::empty() =~= s);
}

/// How many characters of `t` the POSIX shell word starting there takes: it
/// ends at an unquoted space or `;` (`quoted`: inside single quotes).
pub open spec fn sh_word_len(t: Seq<char>, quoted: bool) -> nat
    decreases t.len(),
{
    if t.len() == 0 {
        0
    } else if !quoted && (t[0] == ' ' || t[0] == ';') {
        0
    } else if t[0] == '\'' {
        1 + sh_word_len(t.drop_first(), !quoted)
    } else if !quoted && t[0] == '\\' && t.len() > 1 {
        2 + sh_word_len(t.subrange(2, t.len() as int), false)
    } else {
        1 + sh_word_len(t.drop_first(), quoted)
    }
}

/// A word never runs past the end of the text.
pub proof fn lemma_sh_word_len_bound(t: Seq<char>, quoted: bool)
    ensures
        sh_word_len(t, quoted) <= t.len(),
    decreases t.len(),
{
    if t.len() > 0 {
        lemma_sh_word_len_bound(t.drop_first(), !quoted);
        lemma_sh_word_len_bound(t.drop_first(), quoted);
        if t.len() > 1 {
            lemma_sh_word_len_bound(t.subrange(2, t.len() as int), false);
        }
    }
}

/// The words of the first simple command of `t`, as a POSIX shell reads them:
/// words are separated by unquoted spaces and the command ends at an unquoted
/// `;`. Expansions are not considered.
pub open spec fn sh_command_words(t: Seq<char>) -> Seq<Seq<char>>
    decreases t.len(),
{
    if t.len() == 0 || t[0] == ';' {
        Seq::empty()
    } else if t[0] == ' ' {
        sh_command_words(t.drop_first())
    } else {
        let n = sh_word_len(t, false) as int;
        proof {
            lemma_sh_word_len_bound(t, false);
        }
        if 0 < n <= t.len() {
            seq![sh_word_text(t.take(n), false)] + sh_command_words(t.skip(n))
        } else {
            Seq::empty()
        }
    }
}

proof fn lemma_sh_word_len_quoted_run(s: Seq<char>, t: Seq<char>)
    ensures
        sh_word_len(escape_with(s, posix_escape()) + t, true) == escape_with(s, posix_escape()).len()
            + sh_word_len(t, true),
    decreases s.len(),
{
    if s.len() == 0 {
        assert(escape_with(s, posix_escape()) + t =~= t);
    } else {
        let c = s[0];
        let rest = s.drop_first();
        lemma_escape_first(s, posix_escape());
        let e = escape_with(rest, posix_escape());
        lemma_sh_word_len_quoted_run(rest, t);
        if c == '\'' {
            let w = seq!['\'', '\\', '\'', '\''] + e + t;
            assert(escape_with(s, posix_escape()) + t =~= w);
            let w1 = w.drop_first();
            assert(w1 =~= seq!['\\', '\'', '\''] + e + t);
            let w2 = w1.subrange(2, w1.len() as int);
            assert(w2 =~= seq!['\''] + e + t);
            assert(w2.drop_first() =~= e + t);
            assert(sh_word_len(w2, false) == 1 + sh_word_len(e + t, true));
            assert(sh_word_len(w1, false) == 2 + sh_word_len(w2, false));
            assert(sh_word_len(w, true) == 1 + sh_word_len(w1, false));
        } else {
            let w = seq![c] + e + t;
            assert(escape_with(s, posix_escape()) + t =~= w);
            assert(w.drop_first() =~= e + t);
        }
    }
}

proof fn lemma_sh_word_len_quoted_word(x: Seq<char>, r: Seq<char>)
    requires
        r.len() == 0 || r[0] == ' ' || r[0] == ';',
    ensures
        sh_word_len(posix_shell_quote_spec(x) + r, false) == posix_shell_quote_spec(x).len(),
{
    let e = escape_with(x, posix_escape());
    let w = posix_shell_quote_spec(x) + r;
    assert(w.drop_first() =~= e + (seq!['\''] + r));
    lemma_sh_word_len_quoted_run(x, seq!['\''] + r);
    let q = seq!['\''] + r;
    assert(q.drop_first() =~= r);
    assert(sh_word_len(q, true) == 1 + sh_word_len(r, false));
}

proof fn lemma_posix_quoted_args_prepend(x: Seq<char>, rest: Seq<Seq<char>>)
    ensures
        posix_quoted_args(seq![x] + rest) == seq![' '] + posix_shell_quote_spec(x) + posix_quoted_args(
            rest,
        ),
    decreases rest.len(),
{
    let a = seq![x] + rest;
    if rest.len() == 0 {
        assert(a.drop_last() =~= Seq::<Seq<char>>::empty());
        assert(a.last() == x);
        assert(posix_quoted_args(a.drop_last()) =~= Seq::<char>::empty());
        assert(posix_quoted_args(rest) =~= Seq::<char>::empty());
        assert(posix_quoted_args(a) =~= seq![' '] + posix_shell_quote_spec(x) + posix_quoted_args(rest));
    } else {
        assert(a.drop_last() =~= seq![x] + rest.drop_last());
        assert(a.last() == rest.last());
        lemma_posix_quoted_args_prepend(x, rest.drop_last());
        assert(posix_quoted_args(a) =~= seq![' '] + posix_shell_quote_spec(x) + posix_quoted_args(rest));
    }
}

proof fn lemma_posix_quoted_args_words(args: Seq<Seq<char>>, t: Seq<char>)
    requires
        t.len() == 0 || t[0] == ';',
    ensures
        sh_command_words(posix_quoted_args(args) + t) == args,
    decreases args.len(),
{
    if args.len() == 0 {
        assert(posix_quoted_args(args) + t =~= t);
    } else {
        let x = args[0];
        let rest = args.drop_first();
        assert(args =~= seq![x] + rest);
        lemma_posix_quoted_args_prepend(x, rest);
        lemma_posix_quoted_args_words(rest, t);
        let r = posix_quoted_args(rest) + t;
        let q = posix_shell_quote_spec(x);
        let w = posix_quoted_args(args) + t;
        assert(w =~= seq![' '] + (q + r));
        assert(w.drop_first() =~= q + r);
        if rest.len() > 0 {
            lemma_posix_quoted_args_prepend(rest[0], rest.drop_first());
            assert(rest =~= seq![rest[0]] + rest.drop_first());
            assert(r[0] == ' ');
        }
        lemma_sh_word_len_quoted_word(x, r);
        let v = q + r;
        assert(v[0] == '\'');
        assert(v.take(q.len() as int) =~= q);
        assert(v.skip(q.len() as int) =~= r);
        law_posix_shell_quote_reads_back(x);
        assert(sh_command_words(v) == seq![x] + rest);
    }
}

/// A POSIX shell reads the capture command's first simple command as exactly
/// the words `.`, the script and then the configured arguments in order:
/// the script is sourced with its arguments unchanged.
pub proof fn law_posix_capture_command_words(script: Seq<char>, args: Seq<Seq<char>>)
    ensures
        sh_command_words(posix_capture_command(script, args)) == seq!["."@, script] + args,
{
    reveal_strlit(". ");
    reveal_strlit(".");
    reveal_strlit("; status=$?; if [ $status -ne 0 ]; then exit $status; fi; printf '%s\\n' '");
    let tail = "; status=$?; if [ $status -ne 0 ]; then exit $status; fi; printf '%s\\n' '"@
        + crate::snapshot::snapshot_marker() + "'; env -0"@;
    assert(tail[0] == ';');
    let q = posix_shell_quote_spec(script);
    let rest = posix_quoted_args(args) + tail;
    let c = posix_capture_command(script, args);
    assert(c =~= seq!['.', ' '] + (q + rest));
    lemma_posix_quoted_args_words(args, tail);
    if args.len() > 0 {
        lemma_posix_quoted_args_prepend(args[0], args.drop_first());
        assert(args =~= seq![args[0]] + args.drop_first());
    }
    assert(rest[0] == ' ' || rest[0] == ';');
    let d: Seq<char> = seq!['.'];
    assert(c.take(1) =~= d);
    assert(c[0] == '.');
    assert(c.drop_first()[0] == ' ');
    assert(sh_word_len(c.drop_first(), false) == 0);
    assert(sh_word_len(c, false) == 1);
    assert(d.drop_first() =~= Seq::<char>::empty());
    assert(sh_word_text(d.drop_first(), false) =~= Seq::<char>::empty());
    assert(sh_word_text(d, false) =~= "."@);
    assert(c.skip(1) =~= seq![' '] + (q + rest));
    assert(c.skip(1).drop_first() =~= q + rest);
    let v = q + rest;
    lemma_sh_word_len_quoted_word(script, rest);
    assert(v.take(q.len() as int) =~= q);
    assert(v.skip(q.len() as int) =~= rest);
    law_posix_shell_quote_reads_back(script);
    assert(sh_command_words(v) == seq![script] + args);
    lemma_sh_word_len_bound(c, false);
    assert(sh_command_words(c) == seq![sh_word_text(c.take(1), false)] + sh_command_words(c.skip(1)));
    let c1 = c.skip(1);
    assert(c1[0] == ' ');
    assert(c1.drop_first() =~= v);
    assert(sh_command_words(c1) == sh_command_words(v));
    assert(sh_command_words(c) =~= seq!["."@, script] + args);
}

/// The first argument comes first in a PowerShell command line: its quoted
/// word, then the words of the other arguments in their order.
pub proof fn law_powershell_args_keep_order(x: Seq<char>, rest: Seq<Seq<char>>)
    ensures
        powershell_quoted_args(seq![x] + rest) == seq![' ', '\''] + powershell_quote_spec(x) + seq!['\'']
            + powershell_quoted_args(rest),
    decreases rest.len(),
{
    let a = seq![x] + rest;
    if rest.len() == 0 {
        assert(a.drop_last() =~= Seq::<Seq<char>>::empty());
        assert(a.last() == x);
        assert(powershell_quoted_args(a.drop_last()) =~= Seq::<char>::empty());
        assert(powershell_quoted_args(rest) =~= Seq::<char>::empty());
    } else {
        assert(a.drop_last() =~= seq![x] + rest.drop_last());
        assert(a.last() == rest.last());
        law_powershell_args_keep_order(x, rest.drop_last());
    }
    assert(powershell_quoted_args(a) =~= seq![' ', '\''] + powershell_quote_spec(x) + seq!['\'']
        + powershell_quoted_args(rest));
}

/// The first argument comes first in a `cmd` command line: its quoted word,
/// then the words of the other arguments in their order.
pub proof fn law_cmd_args_keep_order(x: Seq<char>, rest: Seq<Seq<char>>)
    ensures
        cmd_quoted_args(seq![x] + rest) == seq![' '] + cmd_quote_spec(x) + cmd_quoted_args(rest),
    decreases rest.len(),
{
    let a = seq![x] + rest;
    if rest.len() == 0 {
        assert(a.drop_last() =~= Seq::<Seq<char>>::empty());
        assert(a.last() == x);
        assert(cmd_quoted_args(a.drop_last()) =~= Seq::<char>::empty());
        assert(cmd_quoted_args(rest) =~= Seq::<char>::empty());
    } else {
        assert(a.drop_last() =~= seq![x] + rest.drop_last());
        assert(a.last() == rest.last());
        law_cmd_args_keep_order(x, rest.drop_last());
    }
    assert(cmd_quoted_args(a) =~= seq![' '] + cmd_quote_spec(x) + cmd_quoted_args(rest));
}

} // verus!
