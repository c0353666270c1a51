//! The lexer: a single forward scan that turns a line into typed tokens.
use vstd::prelude::*;
use vstd::string::*;

use crate::text::{
    chars_of, is_alnum, is_alnum_char, is_separator, is_separator_char, is_white, strip_bounds, trim,
    trim_quotes,
};

verus! {

broadcast use vstd::string::group_string_axioms;

#[derive(Debug, PartialEq, Eq, Structural, Clone, Copy)]
pub enum TokenType {
    Cmd,
    Arg,
    Flag,
    LongFlag,
    LongFlagWithValue,
    Pipe,
    InputRedir,
    OutputRedir,
    Background,
    Eof,
}

#[derive(Debug)]
pub struct Token {
    pub kind: TokenType,
    pub lexeme: String,
}

/// A token as a kind and the characters of its lexeme.
pub type TokenView = (TokenType, Seq<char>);

impl View for Token {
    type V = TokenView;

    open spec fn view(&self) -> TokenView {
        (self.kind, self.lexeme@)
    }
}

pub open spec fn token_views(ts: Seq<Token>) -> Seq<TokenView> {
    ts.map_values(|t: Token| t@)
}

/// Characters that continue a word.
pub open spec fn is_word_char(c: char) -> bool {
    is_alnum(c) || c == '_' || c == '/' || c == '.'
}

/// Characters that continue a long flag's name.
pub open spec fn is_long_char(c: char) -> bool {
    is_alnum(c) || c == '-'
}

pub open spec fn word_class() -> spec_fn(char) -> bool {
    |c: char| is_word_char(c)
}

pub open spec fn long_class() -> spec_fn(char) -> bool {
    |c: char| is_long_char(c)
}

pub open spec fn alnum_class() -> spec_fn(char) -> bool {
    |c: char| is_alnum(c)
}

/// How many characters from position `i` on satisfy `p`, up to the first that does not.
pub open spec fn run_len(s: Seq<char>, i: int, p: spec_fn(char) -> bool) -> nat
    decreases s.len() - i,
{
    if 0 <= i < s.len() && p(s[i]) {
        1 + run_len(s, i + 1, p)
    } else {
        0
    }
}

/// How many characters from position `i` on belong to a flag's value: up to the
/// first space that stands outside double quotes.
pub open spec fn value_len(s: Seq<char>, i: int, quoted: bool) -> nat
    decreases s.len() - i,
{
    if 0 <= i < s.len() && (s[i] != ' ' || quoted) {
        1 + value_len(
            s,
            i + 1,
            if s[i] == '"' {
                !quoted
            } else {
                quoted
            },
        )
    } else {
        0
    }
}

/// The token of the given kind for a scanned literal, if anything is left of
/// it once trimmed.
pub open spec fn token_of(kind: TokenType, text: Seq<char>) -> Seq<TokenView> {
    if trim(text).len() == 0 {
        Seq::empty()
    } else {
        seq![(kind, trim(text))]
    }
}

/// The lexeme of a long flag with a value: the name, `=`, and the value with
/// its quotes and surrounding whitespace removed.
pub open spec fn flag_with_value(name: Seq<char>, raw: Seq<char>) -> Seq<char> {
    trim(name) + seq!['='] + trim(trim_quotes(raw))
}

/// The tokens scanned from position `i` of `s` on, where `had_cmd` says whether
/// the current pipeline stage has its command name already.
pub open spec fn scan_from(s: Seq<char>, i: int, had_cmd: bool) -> Seq<TokenView>
    decreases s.len() - i,
{
    if i < 0 || i >= s.len() {
        Seq::empty()
    } else if is_separator(s[i]) {
        scan_from(s, i + 1, had_cmd)
    } else if s[i] == '-' {
        if i + 1 < s.len() && s[i + 1] == '-' {
            let e = i + 2 + run_len(s, i + 2, long_class());
            proof {
                lemma_run_len_bound(s, i + 2, long_class());
            }
            if e < s.len() && s[e] == '=' {
                let v = e + 1 + value_len(s, e + 1, false);
                proof {
                    lemma_value_len_bound(s, e + 1, false);
                }
                seq![
                    (
                        TokenType::LongFlagWithValue,
                        flag_with_value(s.subrange(i, e), s.subrange(e + 1, v)),
                    ),
                ] + scan_from(s, v, had_cmd)
            } else {
                token_of(TokenType::LongFlag, s.subrange(i, e)) + scan_from(s, e, had_cmd)
            }
        } else {
            let e = i + 1 + run_len(s, i + 1, alnum_class());
            proof {
                lemma_run_len_bound(s, i + 1, alnum_class());
            }
            token_of(TokenType::Flag, s.subrange(i, e)) + scan_from(s, e, had_cmd)
        }
    } else if s[i] == '|' {
        seq![(TokenType::Pipe, seq!['|'])] + scan_from(s, i + 1, false)
    } else if s[i] == '<' {
        seq![(TokenType::InputRedir, seq!['<'])] + scan_from(s, i + 1, had_cmd)
    } else if s[i] == '>' {
        seq![(TokenType::OutputRedir, seq!['>'])] + scan_from(s, i + 1, had_cmd)
    } else if s[i] == '&' {
        seq![(TokenType::Background, seq!['&'])] + scan_from(s, i + 1, had_cmd)
    } else {
        let e = i + 1 + run_len(s, i + 1, word_class());
        proof {
            lemma_run_len_bound(s, i + 1, word_class());
        }
        token_of(
            if had_cmd {
                TokenType::Arg
            } else {
                TokenType::Cmd
            },
            s.subrange(i, e),
        ) + scan_from(s, e, had_cmd || trim(s.subrange(i, e)).len() > 0)
    }
}

pub open spec fn eof_view() -> TokenView {
    (TokenType::Eof, Seq::empty())
}

/// The tokens of a whole line, ended by the end-of-input token.
pub open spec fn lex(s: Seq<char>) -> Seq<TokenView> {
    scan_from(s, 0, false).push(eof_view())
}

pub proof fn lemma_run_len_bound(s: Seq<char>, i: int, p: spec_fn(char) -> bool)
    requires
        0 <= i <= s.len(),
    ensures
        i + run_len(s, i, p) <= s.len(),
    decreases s.len() - i,
{
    if i < s.len() && p(s[i]) {
        lemma_run_len_bound(s, i + 1, p);
    }
}

pub proof fn lemma_value_len_bound(s: Seq<char>, i: int, quoted: bool)
    requires
        0 <= i <= s.len(),
    ensures
        i + value_len(s, i, quoted) <= s.len(),
    decreases s.len() - i,
{
    if i < s.len() && (s[i] != ' ' || quoted) {
        lemma_value_len_bound(s, i + 1, if s[i] == '"' { !quoted } else { quoted });
    }
}

/// Every token scanned from a position on has a non-empty lexeme and is not
/// the end-of-input token.
pub proof fn lemma_scanned_tokens_nonempty(s: Seq<char>, i: int, had_cmd: bool)
    ensures
        forall|k: int|
            0 <= k < scan_from(s, i, had_cmd).len() ==> {
                &&& (#[trigger] scan_from(s, i, had_cmd)[k]).1.len() > 0
                &&& scan_from(s, i, had_cmd)[k].0 != TokenType::Eof
            },
    decreases s.len() - i,
{
    if i < 0 || i >= s.len() {
    } else if is_separator(s[i]) {
        lemma_scanned_tokens_nonempty(s, i + 1, had_cmd);
    } else {
        let (head, j, h): (Seq<TokenView>, int, bool) = if s[i] == '-' {
            if i + 1 < s.len() && s[i + 1] == '-' {
                let e = i + 2 + run_len(s, i + 2, long_class());
                lemma_run_len_bound(s, i + 2, long_class());
                if e < s.len() && s[e] == '=' {
                    let v = e + 1 + value_len(s, e + 1, false);
                    lemma_value_len_bound(s, e + 1, false);
                    let t = flag_with_value(s.subrange(i, e), s.subrange(e + 1, v));
                    assert(t[trim(s.subrange(i, e)).len() as int] == '=');
                    (seq![(TokenType::LongFlagWithValue, t)], v, had_cmd)
                } else {
                    (token_of(TokenType::LongFlag, s.subrange(i, e)), e, had_cmd)
                }
            } else {
                lemma_run_len_bound(s, i + 1, alnum_class());
                let e = i + 1 + run_len(s, i + 1, alnum_class());
                (token_of(TokenType::Flag, s.subrange(i, e)), e, had_cmd)
            }
        } else if s[i] == '|' {
            (seq![(TokenType::Pipe, seq!['|'])], i + 1, false)
        } else if s[i] == '<' {
            (seq![(TokenType::InputRedir, seq!['<'])], i + 1, had_cmd)
        } else if s[i] == '>' {
            (seq![(TokenType::OutputRedir, seq!['>'])], i + 1, had_cmd)
        } else if s[i] == '&' {
            (seq![(TokenType::Background, seq!['&'])], i + 1, had_cmd)
        } else {
            lemma_run_len_bound(s, i + 1, word_class());
            let e = i + 1 + run_len(s, i + 1, word_class());
            (
                token_of(
                    if had_cmd {
                        TokenType::Arg
                    } else {
                        TokenType::Cmd
                    },
                    s.subrange(i, e),
                ),
                e,
                had_cmd || trim(s.subrange(i, e)).len() > 0,
            )
        };
        assert(scan_from(s, i, had_cmd) == head + scan_from(s, j, h));
        lemma_scanned_tokens_nonempty(s, j, h);
        assert forall|k: int| 0 <= k < head.len() implies head[k].1.len() > 0 && head[k].0
            != TokenType::Eof by {}
        assert forall|k: int| 0 <= k < scan_from(s, i, had_cmd).len() implies {
            &&& (#[trigger] scan_from(s, i, had_cmd)[k]).1.len() > 0
            &&& scan_from(s, i, had_cmd)[k].0 != TokenType::Eof
        } by {
            if k >= head.len() {
                assert(scan_from(s, i, had_cmd)[k] == scan_from(s, j, h)[k - head.len()]);
            }
        }
    }
}

/// The tokens of any line end with exactly one end-of-input token, whose
/// lexeme is empty; every other token has a non-empty lexeme.
pub proof fn lex_ends_with_end_of_input(s: Seq<char>)
    ensures
        lex(s).len() >= 1,
        lex(s).last() == eof_view(),
        forall|k: int|
            0 <= k < lex(s).len() - 1 ==> {
                &&& (#[trigger] lex(s)[k]).1.len() > 0
                &&& lex(s)[k].0 != TokenType::Eof
            },
{
    lemma_scanned_tokens_nonempty(s, 0, false);
    assert forall|k: int| 0 <= k < lex(s).len() - 1 implies {
        &&& (#[trigger] lex(s)[k]).1.len() > 0
        &&& lex(s)[k].0 != TokenType::Eof
    } by {
        assert(lex(s)[k] == scan_from(s, 0, false)[k]);
    }
}

pub struct Tokenizer {
    pub tokens: Vec<Token>,
    pub source: String,
    pub start: usize,
    pub current: usize,
    had_cmd: bool,
    chars: Vec<char>,
}

impl Tokenizer {
    /// The scanner's position lies within its source, and its characters are
    /// those of the source.
    pub closed spec fn wf(&self) -> bool {
        &&& self.chars@ == self.source@
        &&& self.start <= self.current <= self.source@.len()
    }

    /// The characters of the source.
    pub closed spec fn text(&self) -> Seq<char> {
        self.source@
    }

    /// The tokens emitted so far.
    pub closed spec fn emitted(&self) -> Seq<TokenView> {
        token_views(self.tokens@)
    }

    /// The position where the literal being scanned starts.
    pub closed spec fn literal_start(&self) -> int {
        self.start as int
    }

    /// The position of the next character to scan.
    pub closed spec fn position(&self) -> int {
        self.current as int
    }

    /// Whether the current pipeline stage has its command name already.
    pub closed spec fn seen_command(&self) -> bool {
        self.had_cmd
    }

    spec fn same_but_tokens(&self, other: &Self) -> bool {
        &&& self.source == other.source
        &&& self.chars == other.chars
        &&& self.had_cmd == other.had_cmd
        &&& self.start == other.start
        &&& self.current == other.current
    }

    spec fn same_but_position(&self, other: &Self) -> bool {
        &&& self.tokens == other.tokens
        &&& self.source == other.source
        &&& self.chars == other.chars
        &&& self.had_cmd == other.had_cmd
        &&& self.start == other.start
    }

    pub fn new(source: String) -> (r: Self)
        ensures
            r.wf(),
            r.text() == source@,
            r.emitted().len() == 0,
            r.literal_start() == 0,
            r.position() == 0,
            !r.seen_command(),
    {
        let chars = chars_of(source.as_str());
        Self { tokens: Vec::new(), source, start: 0, current: 0, had_cmd: false, chars }
    }
    /// Scans the rest of the source, then appends the end-of-input token.
    pub fn scan_tokens(&mut self)
        requires
            old(self).wf(),
        ensures
            final(self).wf(),
            final(self).text() == old(self).text(),
            final(self).emitted() == old(self).emitted() + scan_from(
                old(self).text(),
                old(self).position(),
                old(self).seen_command(),
            ).push(eof_view()),
    {
        let ghost s = old(self).source@;
        while !self.is_at_end()
            invariant
                self.wf(),
                self.source == old(self).source,
                self.source@ == s,
                token_views(self.tokens@) + scan_from(s, self.current as int, self.had_cmd)
                    == token_views(old(self).tokens@) + scan_from(
                    s,
                    old(self).current as int,
                    old(self).had_cmd,
                ),
            decreases s.len() - self.current,
        {
            self.start = self.current;
            self.scan_token();
        }
        assert(scan_from(s, self.current as int, self.had_cmd) == Seq::<TokenView>::empty());
        let ghost before = self.tokens@;
        self.tokens.push(Token { kind: TokenType::Eof, lexeme: String::new() });
        proof {
            lemma_views_push(before, self.tokens@.last());
            assert(token_views(before) + Seq::<TokenView>::empty() == token_views(before));
        }
    }

    /// The tokens emitted so far, handed over.
    pub fn into_tokens(self) -> (r: Vec<Token>)
        ensures
            token_views(r@) == self.emitted(),
    {
        self.tokens
    }

    fn is_at_end(&self) -> (r: bool)
        requires
            self.wf(),
        ensures
            r == (self.current >= self.source@.len()),
    {
        self.current >= self.chars.len()
    }

    fn scan_token(&mut self)
        requires
            old(self).wf(),
            old(self).start == old(self).current,
            old(self).current < old(self).source@.len(),
        ensures
            final(self).wf(),
            final(self).source == old(self).source,
            final(self).current > old(self).current,
            token_views(final(self).tokens@) + scan_from(
                final(self).source@,
                final(self).current as int,
                final(self).had_cmd,
            ) == token_views(old(self).tokens@) + scan_from(
                old(self).source@,
                old(self).current as int,
                old(self).had_cmd,
            ),
    {
        let ghost s = old(self).source@;
        let ghost i = self.current as int;
        let ghost before = token_views(self.tokens@);
        let c = self.advance();
        match c {
            ' ' | '\r' | '\t' | '\n' => {
                self.skip_whitespace();
            },
            '-' => {
                if self.match_char('-') {
                    self.handle_long_flag();
                    let ghost e = i + 2 + run_len(s, i + 2, long_class());
                    proof {
                        lemma_run_len_bound(s, i + 2, long_class());
                        if e < s.len() && s[e] == '=' {
                            let v = e + 1 + value_len(s, e + 1, false);
                            let t = seq![
                                (
                                    TokenType::LongFlagWithValue,
                                    flag_with_value(s.subrange(i, e), s.subrange(e + 1, v)),
                                ),
                            ];
                            assert(before + t + scan_from(s, v, self.had_cmd) == before + (t
                                + scan_from(s, v, self.had_cmd)));
                        } else {
                            let t = token_of(TokenType::LongFlag, s.subrange(i, e));
                            assert(before + t + scan_from(s, e, self.had_cmd) == before + (t
                                + scan_from(s, e, self.had_cmd)));
                        }
                    }
                } else {
                    self.handle_flag();
                    let ghost e = self.current as int;
                    let ghost t = token_of(TokenType::Flag, s.subrange(i, e));
                    assert(before + t + scan_from(s, e, self.had_cmd) == before + (t + scan_from(
                        s,
                        e,
                        self.had_cmd,
                    )));
                }
            },
            '|' => {
                self.add_token(TokenType::Pipe);
                self.had_cmd = false;
                proof {
                    lemma_single(s, i);
                }
                assert(before + seq![(TokenType::Pipe, seq!['|'])] + scan_from(s, i + 1, false)
                    == before + (seq![(TokenType::Pipe, seq!['|'])] + scan_from(s, i + 1, false)));
            },
            '<' => {
                self.add_token(TokenType::InputRedir);
                proof {
                    lemma_single(s, i);
                }
                let ghost t = seq![(TokenType::InputRedir, seq!['<'])];
                assert(before + t + scan_from(s, i + 1, self.had_cmd) == before + (t + scan_from(
                    s,
                    i + 1,
                    self.had_cmd,
                )));
            },
            '>' => {
                self.add_token(TokenType::OutputRedir);
                proof {
                    lemma_single(s, i);
                }
                let ghost t = seq![(TokenType::OutputRedir, seq!['>'])];
                assert(before + t + scan_from(s, i + 1, self.had_cmd) == before + (t + scan_from(
                    s,
                    i + 1,
                    self.had_cmd,
                )));
            },
            '&' => {
                self.add_token(TokenType::Background);
                proof {
                    lemma_single(s, i);
                }
                let ghost t = seq![(TokenType::Background, seq!['&'])];
                assert(before + t + scan_from(s, i + 1, self.had_cmd) == before + (t + scan_from(
                    s,
                    i + 1,
                    self.had_cmd,
                )));
            },
            _ => {
                let ghost had = self.had_cmd;
                self.handle_word();
                let ghost e = self.current as int;
                let ghost t = token_of(
                    if had {
                        TokenType::Arg
                    } else {
                        TokenType::Cmd
                    },
                    s.subrange(i, e),
                );
                let ghost h = had || trim(s.subrange(i, e)).len() > 0;
                assert(before + t + scan_from(s, e, h) == before + (t + scan_from(s, e, h)));
            },
        }
    }

    fn skip_whitespace(&mut self)
        requires
            old(self).wf(),
        ensures
            final(self).wf(),
            final(self).same_but_position(old(self)),
            final(self).current >= old(self).current,
            scan_from(final(self).source@, final(self).current as int, final(self).had_cmd)
                == scan_from(old(self).source@, old(self).current as int, old(self).had_cmd),
    {
        loop
            invariant
                self.wf(),
                self.same_but_position(old(self)),
                self.current >= old(self).current,
                scan_from(self.source@, self.current as int, self.had_cmd) == scan_from(
                    old(self).source@,
                    old(self).current as int,
                    old(self).had_cmd,
                ),
            decreases self.source@.len() - self.current,
        {
            match self.peek() {
                Some(c) => {
                    if is_separator_char(c) {
                        self.advance();
                    } else {
                        break ;
                    }
                },
                None => {
                    break ;
                },
            }
        }
    }

    fn handle_long_flag(&mut self)
        requires
            old(self).wf(),
            old(self).current == old(self).start + 2,
        ensures
            final(self).wf(),
            final(self).source == old(self).source,
            final(self).had_cmd == old(self).had_cmd,
            ({
                let s = old(self).source@;
                let i = old(self).start as int;
                let e = old(self).current + run_len(s, old(self).current as int, long_class());
                if e < s.len() && s[e] == '=' {
                    let v = e + 1 + value_len(s, e + 1, false);
                    &&& final(self).current == v
                    &&& token_views(final(self).tokens@) == token_views(old(self).tokens@)
                        + seq![
                        (
                            TokenType::LongFlagWithValue,
                            flag_with_value(s.subrange(i, e), s.subrange(e + 1, v)),
                        ),
                    ]
                } else {
                    &&& final(self).current == e
                    &&& token_views(final(self).tokens@) == token_views(old(self).tokens@)
                        + token_of(TokenType::LongFlag, s.subrange(i, e))
                }
            }),
    {
        let ghost s = old(self).source@;
        let ghost e = old(self).current + run_len(s, old(self).current as int, long_class());
        loop
            invariant
                self.wf(),
                self.same_but_position(old(self)),
                self.source@ == s,
                self.current + run_len(s, self.current as int, long_class()) == e,
            ensures
                run_len(s, self.current as int, long_class()) == 0,
            decreases s.len() - self.current,
        {
            match self.peek() {
                Some(c) => {
                    if is_alnum_char(c) || c == '-' {
                        self.advance();
                    } else {
                        break ;
                    }
                },
                None => {
                    break ;
                },
            }
        }
        if self.match_char('=') {
            self.handle_flag_value();
        } else {
            self.add_token(TokenType::LongFlag);
        }
    }

    fn handle_flag_value(&mut self)
        requires
            old(self).wf(),
            old(self).start < old(self).current,
            old(self).source@[old(self).current - 1] == '=',
        ensures
            final(self).wf(),
            final(self).source == old(self).source,
            final(self).had_cmd == old(self).had_cmd,
            final(self).current == old(self).current + value_len(
                old(self).source@,
                old(self).current as int,
                false,
            ),
            token_views(final(self).tokens@) == token_views(old(self).tokens@) + seq![
                (
                    TokenType::LongFlagWithValue,
                    flag_with_value(
                        old(self).source@.subrange(
                            old(self).start as int,
                            old(self).current - 1,
                        ),
                        old(self).source@.subrange(
                            old(self).current as int,
                            final(self).current as int,
                        ),
                    ),
                ),
            ],
    {
        let ghost s = old(self).source@;
        let value_start = self.current;
        let mut in_quotes = false;
        loop
            invariant
                self.wf(),
                self.same_but_position(old(self)),
                self.source@ == s,
                self.current >= value_start,
                value_start == old(self).current,
                self.current + value_len(s, self.current as int, in_quotes) == value_start
                    + value_len(s, value_start as int, false),
            ensures
                value_len(s, self.current as int, in_quotes) == 0,
            decreases s.len() - self.current,
        {
            match self.peek() {
                Some(c) => {
                    if c == '"' {
                        in_quotes = !in_quotes;
                        self.advance();
                    } else if c == ' ' && !in_quotes {
                        break ;
                    } else {
                        self.advance();
                    }
                },
                None => {
                    break ;
                },
            }
        }
        let (na, nb) = strip_bounds(&self.chars, self.start, value_start - 1, false);
        let (qa, qb) = strip_bounds(&self.chars, value_start, self.current, true);
        let (va, vb) = strip_bounds(&self.chars, qa, qb, false);
        proof {
            reveal_strlit("=");
        }
        let mut lexeme = String::from_str(self.source.as_str().substring_char(na, nb));
        assert(lexeme@ == trim(s.subrange(self.start as int, value_start - 1)));
        lexeme.append("=");
        lexeme.append(self.source.as_str().substring_char(va, vb));
        assert(lexeme@ == flag_with_value(
            s.subrange(self.start as int, value_start - 1),
            s.subrange(value_start as int, self.current as int),
        ));
        let ghost before = self.tokens@;
        let t = Token { kind: TokenType::LongFlagWithValue, lexeme };
        self.tokens.push(t);
        proof {
            lemma_views_push(before, self.tokens@.last());
        }
    }

    fn handle_flag(&mut self)
        requires
            old(self).wf(),
            old(self).start < old(self).current,
        ensures
            final(self).wf(),
            final(self).source == old(self).source,
            final(self).had_cmd == old(self).had_cmd,
            final(self).current == old(self).current + run_len(
                old(self).source@,
                old(self).current as int,
                alnum_class(),
            ),
            token_views(final(self).tokens@) == token_views(old(self).tokens@) + token_of(
                TokenType::Flag,
                old(self).source@.subrange(old(self).start as int, final(self).current as int),
            ),
    {
        let ghost s = old(self).source@;
        let ghost e = old(self).current + run_len(s, old(self).current as int, alnum_class());
        loop
            invariant
                self.wf(),
                self.same_but_position(old(self)),
                self.source@ == s,
                self.current + run_len(s, self.current as int, alnum_class()) == e,
            ensures
                run_len(s, self.current as int, alnum_class()) == 0,
            decreases s.len() - self.current,
        {
            match self.peek() {
                Some(c) => {
                    if is_alnum_char(c) {
                        self.advance();
                    } else {
                        break ;
                    }
                },
                None => {
                    break ;
                },
            }
        }
        self.add_token(TokenType::Flag);
    }

    fn handle_word(&mut self)
        requires
            old(self).wf(),
            old(self).start < old(self).current,
        ensures
            final(self).wf(),
            final(self).source == old(self).source,
            final(self).current == old(self).current + run_len(
                old(self).source@,
                old(self).current as int,
                word_class(),
            ),
            final(self).had_cmd == (old(self).had_cmd || trim(
                old(self).source@.subrange(old(self).start as int, final(self).current as int),
            ).len() > 0),
            token_views(final(self).tokens@) == token_views(old(self).tokens@) + token_of(
                if old(self).had_cmd {
                    TokenType::Arg
                } else {
                    TokenType::Cmd
                },
                old(self).source@.subrange(old(self).start as int, final(self).current as int),
            ),
    {
        let ghost s = old(self).source@;
        let ghost e = old(self).current + run_len(s, old(self).current as int, word_class());
        loop
            invariant
                self.wf(),
                self.same_but_position(old(self)),
                self.source@ == s,
                self.current + run_len(s, self.current as int, word_class()) == e,
            ensures
                run_len(s, self.current as int, word_class()) == 0,
            decreases s.len() - self.current,
        {
            match self.peek() {
                Some(c) => {
                    if is_alnum_char(c) || c == '_' || c == '/' || c == '.' {
                        self.advance();
                    } else {
                        break ;
                    }
                },
                None => {
                    break ;
                },
            }
        }
        if !self.had_cmd {
            if self.add_token(TokenType::Cmd) {
                self.had_cmd = true;
            }
        } else {
            self.add_token(TokenType::Arg);
        }
    }

    fn peek(&self) -> (r: Option<char>)
        requires
            self.wf(),
        ensures
            r == (if self.current < self.source@.len() {
                Some(self.source@[self.current as int])
            } else {
                None::<char>
            }),
    {
        if self.is_at_end() {
            None
        } else {
            Some(self.chars[self.current])
        }
    }

    fn match_char(&mut self, expected: char) -> (r: bool)
        requires
            old(self).wf(),
        ensures
            final(self).wf(),
            final(self).same_but_position(old(self)),
            r == (old(self).current < old(self).source@.len() && old(self).source@[old(
                self,
            ).current as int] == expected),
            final(self).current == old(self).current + (if r {
                1int
            } else {
                0int
            }),
    {
        if let Some(c) = self.peek() {
            if c == expected {
                self.advance();
                return true;
            }
        }
        false
    }

    fn advance(&mut self) -> (c: char)
        requires
            old(self).wf(),
            old(self).current < old(self).source@.len(),
        ensures
            final(self).wf(),
            final(self).same_but_position(old(self)),
            final(self).current == old(self).current + 1,
            c == old(self).source@[old(self).current as int],
    {
        let c = self.chars[self.current];
        let n = self.chars.len();
        assert(self.current < n);
        self.current = self.current + 1;
        c
    }

    /// Emits a token of the scanned literal, trimmed, unless nothing is left of
    /// it; says whether it emitted one.
    fn add_token(&mut self, kind: TokenType) -> (pushed: bool)
        requires
            old(self).wf(),
        ensures
            pushed == (trim(
                old(self).source@.subrange(old(self).start as int, old(self).current as int),
            ).len() > 0),
            final(self).wf(),
            final(self).same_but_tokens(old(self)),
            token_views(final(self).tokens@) == token_views(old(self).tokens@) + token_of(
                kind,
                old(self).source@.subrange(old(self).start as int, old(self).current as int),
            ),
    {
        let (a, b) = strip_bounds(&self.chars, self.start, self.current, false);
        let ghost before = self.tokens@;
        if a < b {
            let t = Token { kind, lexeme: String::from_str(self.source.as_str().substring_char(a, b)) };
            self.tokens.push(t);
            proof {
                lemma_views_push(before, self.tokens@.last());
            }
            true
        } else {
            assert(token_views(before) + Seq::<TokenView>::empty() == token_views(before));
            false
        }
    }
}

proof fn lemma_views_push(ts: Seq<Token>, t: Token)
    ensures
        token_views(ts.push(t)) == token_views(ts) + seq![t@],
{
    assert(token_views(ts.push(t)) =~= token_views(ts) + seq![t@]);
}

/// A single-character token stays as it is when trimmed.
proof fn lemma_single(s: Seq<char>, i: int)
    requires
        0 <= i < s.len(),
        !is_white(s[i]),
    ensures
        token_of(TokenType::Pipe, s.subrange(i, i + 1)) == seq![(TokenType::Pipe, seq![s[i]])],
        trim(s.subrange(i, i + 1)) == seq![s[i]],
{
    let t = s.subrange(i, i + 1);
    assert(t == seq![s[i]]);
    reveal_with_fuel(crate::text::strip_start, 2);
    reveal_with_fuel(crate::text::strip_end, 2);
}

} // verus!
