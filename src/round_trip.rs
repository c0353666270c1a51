//! A parsed command's one-line text, scanned and resolved again, gives back
//! its name and its arguments.
use vstd::prelude::*;

use crate::command::{
    ident_text, join, pipeline_name, render, CommandKind, CommandModel, FlagModel,
};
use crate::parser::{
    find_equals, flag_of, kind_for, pipe_positions, pipes_before, resolve, stage_args,
    stage_flags, valued_flag, Resolved,
};
use crate::text::{is_alnum, is_separator, is_white, strip_end, strip_start, trim, white_class};
use crate::tokenizer::{
    alnum_class, eof_view, flag_with_value, is_long_char, is_word_char, lemma_run_len_bound,
    lemma_value_len_bound, lex, long_class, run_len, scan_from, token_of, value_len, word_class,
    TokenType, TokenView,
};

verus! {

/// A character that begins a word token: not whitespace, and none of the
/// characters that begin another kind of token.
pub open spec fn starts_word(c: char) -> bool {
    !is_separator(c) && !is_white(c) && c != '-' && c != '|' && c != '<' && c != '>' && c != '&'
}

/// A word as the lexer yields one.
pub open spec fn is_word(w: Seq<char>) -> bool {
    &&& w.len() >= 1
    &&& starts_word(w[0])
    &&& forall|j: int| 1 <= j < w.len() ==> is_word_char(#[trigger] w[j])
}

/// `-` and letters or digits.
pub open spec fn is_short_word(f: Seq<char>) -> bool {
    &&& f.len() >= 1
    &&& f[0] == '-'
    &&& forall|j: int| 1 <= j < f.len() ==> is_alnum(#[trigger] f[j])
}

/// `--`, then letters, digits or `-`.
pub open spec fn is_long_word(f: Seq<char>) -> bool {
    &&& f.len() >= 2
    &&& f[0] == '-'
    &&& f[1] == '-'
    &&& forall|j: int| 2 <= j < f.len() ==> is_long_char(#[trigger] f[j])
}

pub open spec fn is_flag_word(f: Seq<char>) -> bool {
    is_short_word(f) || is_long_word(f)
}

/// What a token's lexeme looks like, by its kind.
pub open spec fn shaped(t: TokenView) -> bool {
    &&& (t.0 == TokenType::Cmd || t.0 == TokenType::Arg) ==> is_word(t.1)
    &&& t.0 == TokenType::Flag ==> is_short_word(t.1)
    &&& t.0 == TokenType::LongFlag ==> is_long_word(t.1)
    &&& t.0 == TokenType::LongFlagWithValue ==> is_flag_word(
        ident_text(valued_flag(t.1).ident),
    )
}

/// A command model whose text scans back into the same words.
pub open spec fn renderable(m: CommandModel) -> bool {
    &&& is_word(m.name)
    &&& forall|j: int| 0 <= j < m.args.len() ==> is_word(#[trigger] m.args[j])
    &&& forall|j: int|
        0 <= j < m.flags.len() ==> is_flag_word(ident_text(#[trigger] m.flags[j].ident))
}

/// The model of what a line resolves to: the command itself, or for a
/// pipeline the pipeline command, which has no arguments of its own.
pub open spec fn shape(res: Resolved) -> CommandModel {
    match res {
        Resolved::Single(m) => m,
        Resolved::Piped(_) => CommandModel {
            kind: CommandKind::Pipeline,
            name: pipeline_name(),
            args: Seq::empty(),
            flags: Seq::empty(),
        },
    }
}

proof fn lemma_trim_plain(t: Seq<char>)
    requires
        t.len() >= 1,
        !is_white(t[0]),
        !is_white(t.last()),
    ensures
        trim(t) == t,
{
    assert(strip_start(t, white_class()) == t);
    assert(strip_end(t, white_class()) == t);
}

proof fn lemma_word_lexeme(s: Seq<char>, i: int, e: int)
    requires
        0 <= i < e <= s.len(),
        !is_separator(s[i]),
        s[i] != '-' && s[i] != '|' && s[i] != '<' && s[i] != '>' && s[i] != '&',
        forall|k: int| i < k < e ==> is_word_char(#[trigger] s[k]),
    ensures
        trim(s.subrange(i, e)).len() > 0 ==> is_word(trim(s.subrange(i, e))),
{
    let t = s.subrange(i, e);
    assert(is_word_char(t.last()) || t.len() == 1);
    if !is_white(t[0]) {
        lemma_trim_plain(t);
        assert forall|j: int| 1 <= j < t.len() implies is_word_char(#[trigger] t[j]) by {
            assert(t[j] == s[i + j]);
        }
    } else {
        let u = t.drop_first();
        assert(strip_start(t, white_class()) == strip_start(u, white_class()));
        if u.len() > 0 {
            assert(u[0] == s[i + 1]);
            assert(u.last() == s[e - 1]);
            assert(strip_start(u, white_class()) == u);
            assert(strip_end(u, white_class()) == u);
            assert forall|j: int| 1 <= j < u.len() implies is_word_char(#[trigger] u[j]) by {
                assert(u[j] == s[i + 1 + j]);
            }
        } else {
            assert(strip_start(u, white_class()) == u);
            assert(strip_end(u, white_class()) == u);
        }
    }
}

proof fn lemma_run_exact(s: Seq<char>, i: int, j: int, p: spec_fn(char) -> bool)
    requires
        0 <= i <= j <= s.len(),
        forall|k: int| i <= k < j ==> p(#[trigger] s[k]),
        j == s.len() || !p(s[j]),
    ensures
        run_len(s, i, p) == j - i,
    decreases j - i,
{
    if i < j {
        lemma_run_exact(s, i + 1, j, p);
    }
}

proof fn lemma_run_all(s: Seq<char>, i: int, p: spec_fn(char) -> bool)
    requires
        0 <= i <= s.len(),
    ensures
        forall|k: int| i <= k < i + run_len(s, i, p) ==> p(#[trigger] s[k]),
    decreases s.len() - i,
{
    if i < s.len() && p(s[i]) {
        lemma_run_all(s, i + 1, p);
    }
}

proof fn lemma_find_equals(x: Seq<char>, j: int, k: int)
    requires
        0 <= j <= k < x.len(),
        x[k] == '=',
        forall|m: int| 0 <= m < k ==> x[m] != '=',
    ensures
        find_equals(x, j) == k,
    decreases k - j,
{
    if j < k {
        lemma_find_equals(x, j + 1, k);
    }
}

/// Every token scanned from a position on has the shape of its kind.
pub proof fn lemma_scanned_shapes(s: Seq<char>, i: int, had_cmd: bool)
    ensures
        forall|k: int|
            0 <= k < scan_from(s, i, had_cmd).len() ==> shaped(
                #[trigger] scan_from(s, i, had_cmd)[k],
            ),
    decreases s.len() - i,
{
    if i < 0 || i >= s.len() {
    } else if is_separator(s[i]) {
        lemma_scanned_shapes(s, i + 1, had_cmd);
        assert(scan_from(s, i, had_cmd) == scan_from(s, i + 1, had_cmd));
    } else {
        let (head, j, h): (Seq<TokenView>, int, bool) = if s[i] == '-' {
            if i + 1 < s.len() && s[i + 1] == '-' {
                let e = i + 2 + run_len(s, i + 2, long_class());
                lemma_run_len_bound(s, i + 2, long_class());
                lemma_run_all(s, i + 2, long_class());
                let t = s.subrange(i, e);
                assert(t.last() == '-' || is_long_char(t.last()));
                lemma_trim_plain(t);
                assert forall|m: int| 2 <= m < t.len() implies is_long_char(#[trigger] t[m]) by {
                    assert(t[m] == s[i + m]);
                }
                assert(is_long_word(t));
                if e < s.len() && s[e] == '=' {
                    let v = e + 1 + value_len(s, e + 1, false);
                    lemma_value_len_bound(s, e + 1, false);
                    let x = flag_with_value(t, s.subrange(e + 1, v));
                    assert(x.subrange(0, t.len() as int) == t);
                    assert(x[t.len() as int] == '=');
                    assert forall|m: int| 0 <= m < t.len() implies x[m] != '=' by {
                        assert(x[m] == t[m]);
                    }
                    lemma_find_equals(x, 0, t.len() as int);
                    assert(ident_text(valued_flag(x).ident) == t);
                    (seq![(TokenType::LongFlagWithValue, x)], v, had_cmd)
                } else {
                    (token_of(TokenType::LongFlag, t), e, had_cmd)
                }
            } else {
                lemma_run_len_bound(s, i + 1, alnum_class());
                lemma_run_all(s, i + 1, alnum_class());
                let e = i + 1 + run_len(s, i + 1, alnum_class());
                let t = s.subrange(i, e);
                assert(t.last() == '-' || is_alnum(t.last()));
                lemma_trim_plain(t);
                assert forall|m: int| 1 <= m < t.len() implies is_alnum(#[trigger] t[m]) by {
                    assert(t[m] == s[i + m]);
                }
                (token_of(TokenType::Flag, t), e, had_cmd)
            }
        } else if s[i] == '|' {
            (seq![(TokenType::Pipe, seq!['|'])], i + 1, false)
        } else if s[i] == '<' {
            (seq![(TokenType::InputRedir, seq!['<'])], i + 1, had_cmd)
        } else if s[i] == '>' {
            (seq![(TokenType::OutputRedir, seq!['>'])], i + 1, had_cmd)
        } else if s[i] == '&' {
            (seq![(TokenType::Background, seq!['&'])], i + 1, had_cmd)
        } else {
            lemma_run_len_bound(s, i + 1, word_class());
            lemma_run_all(s, i + 1, word_class());
            let e = i + 1 + run_len(s, i + 1, word_class());
            lemma_word_lexeme(s, i, e);
            (
                token_of(
                    if had_cmd {
                        TokenType::Arg
                    } else {
                        TokenType::Cmd
                    },
                    s.subrange(i, e),
                ),
                e,
                had_cmd || trim(s.subrange(i, e)).len() > 0,
            )
        };
        assert(scan_from(s, i, had_cmd) == head + scan_from(s, j, h));
        lemma_scanned_shapes(s, j, h);
        assert forall|k: int| 0 <= k < scan_from(s, i, had_cmd).len() implies shaped(
            #[trigger] scan_from(s, i, had_cmd)[k],
        ) by {
            if k >= head.len() {
                assert(scan_from(s, i, had_cmd)[k] == scan_from(s, j, h)[k - head.len()]);
            }
        }
    }
}

proof fn lemma_stage_args_words(toks: Seq<TokenView>)
    requires
        forall|k: int| 0 <= k < toks.len() ==> shaped(#[trigger] toks[k]),
    ensures
        forall|j: int| 0 <= j < stage_args(toks).len() ==> is_word(#[trigger] stage_args(toks)[j]),
    decreases toks.len(),
{
    if toks.len() > 0 {
        assert(shaped(toks[toks.len() - 1]));
        assert forall|k: int| 0 <= k < toks.drop_last().len() implies shaped(
            #[trigger] toks.drop_last()[k],
        ) by {
            assert(toks.drop_last()[k] == toks[k]);
        }
        lemma_stage_args_words(toks.drop_last());
        let a = stage_args(toks);
        let pre = stage_args(toks.drop_last());
        assert forall|j: int| 0 <= j < a.len() implies is_word(#[trigger] a[j]) by {
            if j < pre.len() {
                assert(a[j] == pre[j]);
            }
        }
    }
}

proof fn lemma_stage_flags_words(toks: Seq<TokenView>)
    requires
        forall|k: int| 0 <= k < toks.len() ==> shaped(#[trigger] toks[k]),
    ensures
        forall|j: int|
            0 <= j < stage_flags(toks).len() ==> is_flag_word(
                ident_text(#[trigger] stage_flags(toks)[j].ident),
            ),
    decreases toks.len(),
{
    if toks.len() > 0 {
        assert(shaped(toks[toks.len() - 1]));
        assert forall|k: int| 0 <= k < toks.drop_last().len() implies shaped(
            #[trigger] toks.drop_last()[k],
        ) by {
            assert(toks.drop_last()[k] == toks[k]);
        }
        lemma_stage_flags_words(toks.drop_last());
        let fs = stage_flags(toks);
        let pre = stage_flags(toks.drop_last());
        assert forall|j: int| 0 <= j < fs.len() implies is_flag_word(
            ident_text(#[trigger] fs[j].ident),
        ) by {
            if j >= pre.len() {
                assert(fs[j] == flag_of(toks.last())[j - pre.len()]);
            }
        }
    }
}

/// The kind of token that a flag word scans to.
pub open spec fn flag_kind(f: Seq<char>) -> TokenType {
    if is_long_word(f) {
        TokenType::LongFlag
    } else {
        TokenType::Flag
    }
}

proof fn lemma_scan_word(s: Seq<char>, i: int, w: Seq<char>, h: bool)
    requires
        is_word(w),
        0 <= i,
        i + w.len() <= s.len(),
        s.subrange(i, i + w.len()) == w,
        i + w.len() == s.len() || !is_word_char(s[i + w.len()]),
    ensures
        scan_from(s, i, h) == seq![
            (
                if h {
                    TokenType::Arg
                } else {
                    TokenType::Cmd
                },
                w,
            ),
        ] + scan_from(s, i + w.len(), true),
{
    let e = i + w.len();
    assert(s[i] == w[0]);
    assert forall|k: int| i + 1 <= k < e implies word_class()(#[trigger] s[k]) by {
        assert(s[k] == w[k - i]);
    }
    lemma_run_exact(s, i + 1, e, word_class());
    assert(w.last() == w[0] || is_word_char(w.last()));
    lemma_trim_plain(w);
}

proof fn lemma_scan_flag(s: Seq<char>, i: int, f: Seq<char>, h: bool)
    requires
        is_flag_word(f),
        0 <= i,
        i + f.len() <= s.len(),
        s.subrange(i, i + f.len()) == f,
        i + f.len() == s.len() || s[i + f.len()] == ' ',
    ensures
        scan_from(s, i, h) == seq![(flag_kind(f), f)] + scan_from(s, i + f.len(), h),
{
    let e = i + f.len();
    assert(s[i] == f[0]);
    assert(f.last() == '-' || is_long_char(f.last()));
    lemma_trim_plain(f);
    if is_long_word(f) {
        assert(s[i + 1] == f[1]);
        assert forall|k: int| i + 2 <= k < e implies long_class()(#[trigger] s[k]) by {
            assert(s[k] == f[k - i]);
        }
        lemma_run_exact(s, i + 2, e, long_class());
    } else {
        assert(f.len() >= 2 ==> s[i + 1] == f[1]);
        assert forall|k: int| i + 1 <= k < e implies alnum_class()(#[trigger] s[k]) by {
            assert(s[k] == f[k - i]);
        }
        lemma_run_exact(s, i + 1, e, alnum_class());
    }
}

proof fn lemma_scan_words(s: Seq<char>, p: int, ws: Seq<Seq<char>>)
    requires
        forall|j: int| 0 <= j < ws.len() ==> is_word(#[trigger] ws[j]),
        0 <= p,
        p + join(ws).len() <= s.len(),
        s.subrange(p, p + join(ws).len()) == join(ws),
        p + join(ws).len() == s.len() || !is_word_char(s[p + join(ws).len()]),
    ensures
        scan_from(s, p, true) == ws.map_values(|a: Seq<char>| (TokenType::Arg, a)) + scan_from(
            s,
            p + join(ws).len(),
            true,
        ),
    decreases ws.len(),
{
    let toks = ws.map_values(|a: Seq<char>| (TokenType::Arg, a));
    if ws.len() == 0 {
        assert(toks + scan_from(s, p, true) =~= scan_from(s, p, true));
    } else if ws.len() == 1 {
        lemma_scan_word(s, p, ws[0], true);
        assert(toks =~= seq![(TokenType::Arg, ws[0])]);
    } else {
        let pre = ws.drop_last();
        let j = join(pre);
        let q = p + j.len();
        assert(join(ws) == j + seq![' '] + ws.last());
        assert(s.subrange(p, q) == join(ws).subrange(0, j.len() as int));
        assert(join(ws).subrange(0, j.len() as int) =~= j);
        assert(join(ws).subrange(j.len() + 1int, join(ws).len() as int) =~= ws.last());
        assert(s[q] == join(ws)[j.len() as int]);
        lemma_scan_words(s, p, pre);
        assert(scan_from(s, q, true) == scan_from(s, q + 1, true));
        assert(s.subrange(q + 1, q + 1 + ws.last().len()) == join(ws).subrange(
            j.len() + 1int,
            join(ws).len() as int,
        ));
        lemma_scan_word(s, q + 1, ws.last(), true);
        let ptoks = pre.map_values(|a: Seq<char>| (TokenType::Arg, a));
        assert(toks =~= ptoks + seq![(TokenType::Arg, ws.last())]);
        assert(scan_from(s, p, true) =~= toks + scan_from(s, p + join(ws).len(), true));
    }
}

proof fn lemma_scan_flags(s: Seq<char>, p: int, fs: Seq<Seq<char>>, h: bool)
    requires
        forall|j: int| 0 <= j < fs.len() ==> is_flag_word(#[trigger] fs[j]),
        0 <= p,
        p + join(fs).len() <= s.len(),
        s.subrange(p, p + join(fs).len()) == join(fs),
        p + join(fs).len() == s.len() || s[p + join(fs).len()] == ' ',
    ensures
        scan_from(s, p, h) == fs.map_values(|f: Seq<char>| (flag_kind(f), f)) + scan_from(
            s,
            p + join(fs).len(),
            h,
        ),
    decreases fs.len(),
{
    let toks = fs.map_values(|f: Seq<char>| (flag_kind(f), f));
    if fs.len() == 0 {
        assert(toks + scan_from(s, p, h) =~= scan_from(s, p, h));
    } else if fs.len() == 1 {
        lemma_scan_flag(s, p, fs[0], h);
        assert(toks =~= seq![(flag_kind(fs[0]), fs[0])]);
    } else {
        let pre = fs.drop_last();
        let j = join(pre);
        let q = p + j.len();
        assert(join(fs) == j + seq![' '] + fs.last());
        assert(s.subrange(p, q) == join(fs).subrange(0, j.len() as int));
        assert(join(fs).subrange(0, j.len() as int) =~= j);
        assert(join(fs).subrange(j.len() + 1int, join(fs).len() as int) =~= fs.last());
        assert(s[q] == join(fs)[j.len() as int]);
        lemma_scan_flags(s, p, pre, h);
        assert(scan_from(s, q, h) == scan_from(s, q + 1, h));
        assert(s.subrange(q + 1, q + 1 + fs.last().len()) == join(fs).subrange(
            j.len() + 1int,
            join(fs).len() as int,
        ));
        lemma_scan_flag(s, q + 1, fs.last(), h);
        let ptoks = pre.map_values(|f: Seq<char>| (flag_kind(f), f));
        assert(toks =~= ptoks + seq![(flag_kind(fs.last()), fs.last())]);
        assert(scan_from(s, p, h) =~= toks + scan_from(s, p + join(fs).len(), h));
    }
}

proof fn lemma_join_first(ws: Seq<Seq<char>>)
    requires
        ws.len() >= 1,
        ws[0].len() >= 1,
    ensures
        join(ws).len() >= 1,
        join(ws)[0] == ws[0][0],
    decreases ws.len(),
{
    if ws.len() > 1 {
        assert(ws.drop_last()[0] == ws[0]);
        lemma_join_first(ws.drop_last());
    }
}

/// The flag identities of a command, as text.
pub open spec fn flag_texts(m: CommandModel) -> Seq<Seq<char>> {
    m.flags.map_values(|f: FlagModel| ident_text(f.ident))
}

/// The tokens of the text of a command whose name and arguments are words and
/// whose flags are flag words: the name, each argument, each flag, the end.
pub proof fn lemma_lex_render(m: CommandModel)
    requires
        renderable(m),
    ensures
        lex(render(m)) == seq![(TokenType::Cmd, m.name)] + m.args.map_values(
            |a: Seq<char>| (TokenType::Arg, a),
        ) + flag_texts(m).map_values(|f: Seq<char>| (flag_kind(f), f)) + seq![eof_view()],
{
    let r = render(m);
    let a = join(m.args);
    let texts = flag_texts(m);
    let f = join(texts);
    let n = m.name.len() as int;
    let p = n + 1;
    let q = p + a.len();
    assert(r == m.name + seq![' '] + a + f);
    assert(r.subrange(0, n) =~= m.name);
    assert(r[n] == ' ');
    lemma_scan_word(r, 0, m.name, false);
    assert(scan_from(r, n, true) == scan_from(r, p, true));
    assert(r.subrange(p, q) =~= a);
    assert(r.subrange(q, q + f.len()) =~= f);
    assert forall|j: int| 0 <= j < texts.len() implies is_flag_word(#[trigger] texts[j]) by {
        assert(texts[j] == ident_text(m.flags[j].ident));
    }
    if texts.len() > 0 {
        lemma_join_first(texts);
        assert(r[q] == f[0]);
    }
    lemma_scan_words(r, p, m.args);
    lemma_scan_flags(r, q, texts, true);
    assert(q + f.len() == r.len());
    assert(scan_from(r, r.len() as int, true) == Seq::<TokenView>::empty());
    assert(scan_from(r, 0, false) =~= seq![(TokenType::Cmd, m.name)] + m.args.map_values(
        |a: Seq<char>| (TokenType::Arg, a),
    ) + texts.map_values(|f: Seq<char>| (flag_kind(f), f)));
}

proof fn lemma_no_pipes(toks: Seq<TokenView>, n: int)
    requires
        0 <= n <= toks.len(),
        forall|k: int| 0 <= k < n ==> (#[trigger] toks[k]).0 != TokenType::Pipe,
    ensures
        pipes_before(toks, n).len() == 0,
    decreases n,
{
    if n > 0 {
        lemma_no_pipes(toks, n - 1);
    }
}

proof fn lemma_stage_args_concat(x: Seq<TokenView>, y: Seq<TokenView>)
    ensures
        stage_args(x + y) == stage_args(x) + stage_args(y),
    decreases y.len(),
{
    if y.len() == 0 {
        assert(x + y =~= x);
        assert(stage_args(x) + stage_args(y) =~= stage_args(x));
    } else {
        assert((x + y).drop_last() =~= x + y.drop_last());
        assert((x + y).last() == y.last());
        lemma_stage_args_concat(x, y.drop_last());
        if y.last().0 == TokenType::Arg {
            assert(stage_args(x) + stage_args(y.drop_last()).push(y.last().1) =~= (stage_args(x)
                + stage_args(y.drop_last())).push(y.last().1));
        }
    }
}

proof fn lemma_stage_args_of_args(ws: Seq<Seq<char>>)
    ensures
        stage_args(ws.map_values(|a: Seq<char>| (TokenType::Arg, a))) == ws,
    decreases ws.len(),
{
    let toks = ws.map_values(|a: Seq<char>| (TokenType::Arg, a));
    if ws.len() > 0 {
        assert(toks.drop_last() =~= ws.drop_last().map_values(|a: Seq<char>| (TokenType::Arg, a)));
        lemma_stage_args_of_args(ws.drop_last());
        assert(ws.drop_last().push(ws.last()) =~= ws);
    } else {
        assert(toks.len() == 0);
    }
}

proof fn lemma_stage_args_none(toks: Seq<TokenView>)
    requires
        forall|k: int| 0 <= k < toks.len() ==> (#[trigger] toks[k]).0 != TokenType::Arg,
    ensures
        stage_args(toks) == Seq::<Seq<char>>::empty(),
    decreases toks.len(),
{
    if toks.len() > 0 {
        assert(toks.last() == toks[toks.len() - 1]);
        assert forall|k: int| 0 <= k < toks.drop_last().len() implies (
        #[trigger] toks.drop_last()[k]).0 != TokenType::Arg by {
            assert(toks.drop_last()[k] == toks[k]);
        }
        lemma_stage_args_none(toks.drop_last());
    }
}

/// What a line resolves to is a command whose name and arguments are words
/// and whose flags are flag words; a name that selects `pwd` comes without
/// arguments.
proof fn lemma_resolved_renderable(line: Seq<char>)
    requires
        resolve(lex(line)) is Ok,
    ensures
        renderable(shape(resolve(lex(line))->Ok_0)),
        kind_for(shape(resolve(lex(line))->Ok_0).name) == CommandKind::Pwd ==> shape(
            resolve(lex(line))->Ok_0,
        ).args.len() == 0,
{
    let t0 = lex(line);
    lemma_scanned_shapes(line, 0, false);
    assert forall|k: int| 0 <= k < t0.len() implies shaped(#[trigger] t0[k]) by {
        if k < t0.len() - 1 {
            assert(t0[k] == scan_from(line, 0, false)[k]);
        }
    }
    let m = shape(resolve(t0)->Ok_0);
    match resolve(t0)->Ok_0 {
        Resolved::Single(m1) => {
            assert(pipe_positions(t0).len() == 0);
            assert(shaped(t0[0]));
            let body = t0.subrange(1, t0.len() as int);
            assert forall|k: int| 0 <= k < body.len() implies shaped(#[trigger] body[k]) by {
                assert(body[k] == t0[k + 1]);
            }
            lemma_stage_args_words(body);
            lemma_stage_flags_words(body);
            assert(renderable(m));
        },
        Resolved::Piped(_) => {
            assert(is_word(pipeline_name()));
            assert(renderable(m));
        },
    }
}

/// Any line that resolves gives a command whose one-line text, scanned and
/// resolved again, is a single command with the same name and the same
/// arguments. Flag values are not kept: the text holds only flag identities.
pub proof fn rendering_round_trips(line: Seq<char>)
    requires
        resolve(lex(line)) is Ok,
    ensures
        ({
            let m = shape(resolve(lex(line))->Ok_0);
            let again = resolve(lex(render(m)));
            &&& again is Ok
            &&& again->Ok_0 is Single
            &&& again->Ok_0->Single_0.name == m.name
            &&& again->Ok_0->Single_0.args == m.args
        }),
{
    let m = shape(resolve(lex(line))->Ok_0);
    lemma_resolved_renderable(line);
    lemma_lex_render(m);
    let t = lex(render(m));
    let argtoks = m.args.map_values(|a: Seq<char>| (TokenType::Arg, a));
    let rest = flag_texts(m).map_values(|f: Seq<char>| (flag_kind(f), f)) + seq![eof_view()];
    assert(t =~= seq![(TokenType::Cmd, m.name)] + (argtoks + rest));
    assert forall|k: int| 0 <= k < t.len() implies (#[trigger] t[k]).0 != TokenType::Pipe by {
        if 1 <= k < 1 + argtoks.len() {
            assert(t[k] == argtoks[k - 1]);
        } else if k >= 1 + argtoks.len() {
            assert(t[k] == rest[k - 1 - argtoks.len()]);
        }
    }
    lemma_no_pipes(t, t.len() as int);
    assert(t.subrange(1, t.len() as int) =~= argtoks + rest);
    lemma_stage_args_concat(argtoks, rest);
    lemma_stage_args_of_args(m.args);
    lemma_stage_args_none(rest);
    assert(m.args + Seq::<Seq<char>>::empty() =~= m.args);
}

} // verus!
