//! The resolver: from tokens to one command, or to a pipeline of commands.
use vstd::prelude::*;
use vstd::string::*;

use crate::command::{
    cd_name, flag_models, history_name, pwd_name, ChangeDirCommand, Command, CommandKind,
    CommandModel, Flag, FlagIdent, FlagModel, HistoryCommand, IdentModel, Pipeline, PwdCommand,
    SystemCommand,
};
use crate::text::chars_of;
use crate::tokenizer::{token_views, Token, TokenType, TokenView};

verus! {

broadcast use vstd::string::group_string_axioms;

/// The positions of the pipe tokens among the first `n` tokens, in order.
pub open spec fn pipes_before(toks: Seq<TokenView>, n: int) -> Seq<int>
    decreases n,
{
    if n <= 0 {
        Seq::empty()
    } else if toks[n - 1].0 == TokenType::Pipe {
        pipes_before(toks, n - 1).push(n - 1)
    } else {
        pipes_before(toks, n - 1)
    }
}

pub open spec fn pipe_positions(toks: Seq<TokenView>) -> Seq<int> {
    pipes_before(toks, toks.len() as int)
}

/// The kind of command that a command name selects.
pub open spec fn kind_for(name: Seq<char>) -> CommandKind {
    if name == cd_name() {
        CommandKind::ChangeDir
    } else if name == history_name() {
        CommandKind::History
    } else if name == pwd_name() {
        CommandKind::Pwd
    } else {
        CommandKind::System
    }
}

/// The lexemes of the positional-argument tokens, in order.
pub open spec fn stage_args(toks: Seq<TokenView>) -> Seq<Seq<char>>
    decreases toks.len(),
{
    if toks.len() == 0 {
        Seq::empty()
    } else if toks.last().0 == TokenType::Arg {
        stage_args(toks.drop_last()).push(toks.last().1)
    } else {
        stage_args(toks.drop_last())
    }
}

/// The position of the first `=` from `i` on, or the length if there is none.
pub open spec fn find_equals(s: Seq<char>, i: int) -> int
    decreases s.len() - i,
{
    if i >= s.len() || i < 0 {
        s.len() as int
    } else if s[i] == '=' {
        i
    } else {
        find_equals(s, i + 1)
    }
}

/// The flag that a long flag with a value stands for: split at the first `=`.
pub open spec fn valued_flag(lexeme: Seq<char>) -> FlagModel {
    let k = find_equals(lexeme, 0);
    if k < lexeme.len() {
        FlagModel {
            ident: IdentModel { short: None, long: Some(lexeme.subrange(0, k)) },
            value: Some(lexeme.subrange(k + 1, lexeme.len() as int)),
        }
    } else {
        FlagModel { ident: IdentModel { short: None, long: Some(lexeme) }, value: None }
    }
}

/// The flags that one token contributes: one for each kind of flag token.
pub open spec fn flag_of(t: TokenView) -> Seq<FlagModel> {
    if t.0 == TokenType::Flag {
        seq![FlagModel { ident: IdentModel { short: Some(t.1), long: None }, value: None }]
    } else if t.0 == TokenType::LongFlag {
        seq![FlagModel { ident: IdentModel { short: None, long: Some(t.1) }, value: None }]
    } else if t.0 == TokenType::LongFlagWithValue {
        seq![valued_flag(t.1)]
    } else {
        Seq::empty()
    }
}

/// The flags of a stage's tokens, in order.
pub open spec fn stage_flags(toks: Seq<TokenView>) -> Seq<FlagModel>
    decreases toks.len(),
{
    if toks.len() == 0 {
        Seq::empty()
    } else {
        stage_flags(toks.drop_last()) + flag_of(toks.last())
    }
}

pub open spec fn no_command_message() -> Seq<char> {
    "No command provided"@
}

pub open spec fn expected_command_message(lexeme: Seq<char>) -> Seq<char> {
    "Expected command, got: "@ + lexeme
}

/// The command of the stage of tokens `start..end`. The token at `start`
/// must name the command; it is read even for an empty range, where it is the
/// token that ends the stage, and then the command has nothing more. The rest
/// of the range gives arguments and flags, in order.
pub open spec fn resolve_stage(toks: Seq<TokenView>, start: int, end: int) -> Result<
    CommandModel,
    Seq<char>,
> {
    if 0 <= start < toks.len() && toks[start].0 == TokenType::Cmd {
        let name = toks[start].1;
        let kind = kind_for(name);
        let body = if start < end {
            toks.subrange(start + 1, end)
        } else {
            Seq::empty()
        };
        Ok(
            CommandModel {
                kind,
                name,
                args: if kind == CommandKind::Pwd {
                    Seq::empty()
                } else {
                    stage_args(body)
                },
                flags: if kind == CommandKind::Pwd {
                    Seq::empty()
                } else {
                    stage_flags(body)
                },
            },
        )
    } else {
        Err(
            expected_command_message(
                if 0 <= start < toks.len() {
                    toks[start].1
                } else {
                    Seq::empty()
                },
            ),
        )
    }
}

pub open spec fn stage_start(ps: Seq<int>, k: int) -> int {
    if k == 0 {
        0
    } else {
        ps[k - 1] + 1
    }
}

pub open spec fn stage_end(toks: Seq<TokenView>, ps: Seq<int>, k: int) -> int {
    if k < ps.len() {
        ps[k]
    } else {
        toks.len() as int
    }
}

/// The first `k` stages between the pipes at `ps`, or the first error among them.
pub open spec fn resolve_upto(toks: Seq<TokenView>, ps: Seq<int>, k: int) -> Result<
    Seq<CommandModel>,
    Seq<char>,
>
    decreases k,
{
    if k <= 0 {
        Ok(Seq::empty())
    } else {
        match resolve_upto(toks, ps, k - 1) {
            Err(e) => Err(e),
            Ok(ms) => match resolve_stage(
                toks,
                stage_start(ps, k - 1),
                stage_end(toks, ps, k - 1),
            ) {
                Err(e) => Err(e),
                Ok(m) => Ok(ms.push(m)),
            },
        }
    }
}

/// What a sequence of tokens resolves to.
pub enum Resolved {
    Single(CommandModel),
    Piped(Seq<CommandModel>),
}

/// Tokens without a pipe give one command; with pipes, a pipeline of the
/// stages between them.
pub open spec fn resolve(toks: Seq<TokenView>) -> Result<Resolved, Seq<char>> {
    if toks.len() == 0 {
        Err(no_command_message())
    } else if pipe_positions(toks).len() == 0 {
        match resolve_stage(toks, 0, toks.len() as int) {
            Ok(m) => Ok(Resolved::Single(m)),
            Err(e) => Err(e),
        }
    } else {
        let ps = pipe_positions(toks);
        match resolve_upto(toks, ps, ps.len() + 1int) {
            Ok(ms) => Ok(Resolved::Piped(ms)),
            Err(e) => Err(e),
        }
    }
}

/// A freshly built command: its stream slots are unbound.
pub open spec fn fresh(c: Command) -> bool {
    match c.redirection() {
        Some(io) => io.unbound(),
        None => true,
    }
}

/// `c` is the command that `res` describes, built afresh.
pub open spec fn resolved_as(c: Command, res: Resolved) -> bool {
    match res {
        Resolved::Single(m) => !(c is Pipeline) && c.model() == m && fresh(c),
        Resolved::Piped(ms) => match c {
            Command::Pipeline(p) => p.stages() == ms && forall|k: int|
                0 <= k < p.commands@.len() ==> !(p.commands@[k] is Pipeline) && fresh(
                    #[trigger] p.commands@[k],
                ),
            _ => false,
        },
    }
}

pub proof fn lemma_pipes_before(toks: Seq<TokenView>, n: int)
    requires
        0 <= n <= toks.len(),
    ensures
        forall|j: int|
            0 <= j < pipes_before(toks, n).len() ==> 0 <= #[trigger] pipes_before(toks, n)[j] < n
                && toks[pipes_before(toks, n)[j]].0 == TokenType::Pipe,
        forall|j: int, k: int|
            0 <= j < k < pipes_before(toks, n).len() ==> pipes_before(toks, n)[j] < pipes_before(
                toks,
                n,
            )[k],
    decreases n,
{
    if n > 0 {
        lemma_pipes_before(toks, n - 1);
    }
}

proof fn lemma_upto_error_stays(toks: Seq<TokenView>, ps: Seq<int>, k: int, n: int)
    requires
        0 <= k <= n,
        resolve_upto(toks, ps, k) is Err,
    ensures
        resolve_upto(toks, ps, n) == resolve_upto(toks, ps, k),
    decreases n - k,
{
    if n > k {
        lemma_upto_error_stays(toks, ps, k, n - 1);
    }
}

pub struct CommandParser {
    pub tokens: Vec<Token>,
}

impl CommandParser {
    pub fn new(tokens: Vec<Token>) -> (r: Self)
        ensures
            r.tokens == tokens,
    {
        Self { tokens }
    }

    fn append_args(&self, cmd: &mut Command, from: usize, to: usize)
        requires
            old(cmd).takes_arguments(),
            from <= to <= self.tokens@.len(),
        ensures
            final(cmd).takes_arguments(),
            final(cmd).model().kind == old(cmd).model().kind,
            final(cmd).model().name == old(cmd).model().name,
            final(cmd).model().flags == old(cmd).model().flags,
            final(cmd).model().args == old(cmd).model().args + stage_args(
                token_views(self.tokens@).subrange(from as int, to as int),
            ),
            final(cmd).redirection() == old(cmd).redirection(),
    {
        let ghost toks = token_views(self.tokens@);
        let mut i: usize = from;
        while i < to
            invariant
                from <= i <= to <= self.tokens@.len(),
                toks == token_views(self.tokens@),
                cmd.takes_arguments(),
                cmd.model().kind == old(cmd).model().kind,
                cmd.model().name == old(cmd).model().name,
                cmd.model().flags == old(cmd).model().flags,
                cmd.model().args == old(cmd).model().args + stage_args(
                    toks.subrange(from as int, i as int),
                ),
                cmd.redirection() == old(cmd).redirection(),
            decreases to - i,
        {
            let token = &self.tokens[i];
            assert(toks.subrange(from as int, i + 1).drop_last() == toks.subrange(
                from as int,
                i as int,
            ));
            assert(toks[i as int] == token@);
            if token.kind == TokenType::Arg {
                let ghost before = cmd.model();
                let args = cmd.get_args_mut();
                let ghost a0 = args.deep_view();
                args.push(token.lexeme.clone());
                assert(args.deep_view() =~= a0.push(token.lexeme@));
                assert(cmd.model().args == before.args.push(token.lexeme@));
                assert(cmd.model().args =~= old(cmd).model().args + stage_args(
                    toks.subrange(from as int, i + 1),
                ));
            }
            i = i + 1;
        }
    }

    fn flag_from(token: &Token) -> (r: Option<Flag>)
        ensures
            match r {
                Some(f) => flag_of(token@) == seq![f@],
                None => flag_of(token@) == Seq::<FlagModel>::empty(),
            },
    {
        match token.kind {
            TokenType::Flag => Some(
                Flag { ident: FlagIdent::new(Some(token.lexeme.clone()), None), value: None },
            ),
            TokenType::LongFlag => Some(
                Flag { ident: FlagIdent::new(None, Some(token.lexeme.clone())), value: None },
            ),
            TokenType::LongFlagWithValue => {
                let chars = chars_of(token.lexeme.as_str());
                let ghost s = token.lexeme@;
                let mut k: usize = 0;
                while k < chars.len() && chars[k] != '='
                    invariant
                        0 <= k <= chars@.len(),
                        chars@ == s,
                        find_equals(s, k as int) == find_equals(s, 0),
                    decreases chars@.len() - k,
                {
                    k = k + 1;
                }
                let lexeme = token.lexeme.as_str();
                if k < chars.len() {
                    let long = String::from_str(lexeme.substring_char(0, k));
                    let value = String::from_str(lexeme.substring_char(k + 1, chars.len()));
                    Some(Flag { ident: FlagIdent::new(None, Some(long)), value: Some(value) })
                } else {
                    Some(
                        Flag {
                            ident: FlagIdent::new(None, Some(token.lexeme.clone())),
                            value: None,
                        },
                    )
                }
            },
            _ => None,
        }
    }

    fn append_flags(&self, cmd: &mut Command, from: usize, to: usize)
        requires
            old(cmd).takes_arguments(),
            from <= to <= self.tokens@.len(),
        ensures
            final(cmd).takes_arguments(),
            final(cmd).model().kind == old(cmd).model().kind,
            final(cmd).model().name == old(cmd).model().name,
            final(cmd).model().args == old(cmd).model().args,
            final(cmd).model().flags == old(cmd).model().flags + stage_flags(
                token_views(self.tokens@).subrange(from as int, to as int),
            ),
            final(cmd).redirection() == old(cmd).redirection(),
    {
        let ghost toks = token_views(self.tokens@);
        let mut i: usize = from;
        while i < to
            invariant
                from <= i <= to <= self.tokens@.len(),
                toks == token_views(self.tokens@),
                cmd.takes_arguments(),
                cmd.model().kind == old(cmd).model().kind,
                cmd.model().name == old(cmd).model().name,
                cmd.model().args == old(cmd).model().args,
                cmd.model().flags == old(cmd).model().flags + stage_flags(
                    toks.subrange(from as int, i as int),
                ),
                cmd.redirection() == old(cmd).redirection(),
            decreases to - i,
        {
            let token = &self.tokens[i];
            assert(toks.subrange(from as int, i + 1).drop_last() == toks.subrange(
                from as int,
                i as int,
            ));
            assert(toks[i as int] == token@);
            match Self::flag_from(token) {
                Some(flag) => {
                    let ghost before = cmd.model();
                    let ghost fm = flag@;
                    let flags = cmd.get_flags_mut();
                    let ghost f0 = flag_models(flags@);
                    flags.push(flag);
                    assert(flag_models(flags@) =~= f0.push(fm));
                    assert(cmd.model().flags == before.flags.push(fm));
                },
                None => {},
            }
            assert(cmd.model().flags =~= old(cmd).model().flags + stage_flags(
                toks.subrange(from as int, i + 1),
            ));
            i = i + 1;
        }
    }

    fn parse_single_command(&self, start: usize, end: usize) -> (r: Result<Command, String>)
        requires
            start <= end <= self.tokens@.len(),
        ensures
            match resolve_stage(token_views(self.tokens@), start as int, end as int) {
                Ok(m) => r is Ok && resolved_as(r->Ok_0, Resolved::Single(m)),
                Err(e) => r is Err && r->Err_0@ == e,
            },
    {
        let ghost toks = token_views(self.tokens@);
        if start >= self.tokens.len() {
            assert("Expected command, got: "@ + Seq::<char>::empty() =~= "Expected command, got: "@);
            return Err(String::from_str("Expected command, got: "));
        }
        let cmd_token = &self.tokens[start];
        assert(toks[start as int] == cmd_token@);
        if cmd_token.kind != TokenType::Cmd {
            let mut msg = String::from_str("Expected command, got: ");
            msg.append(cmd_token.lexeme.as_str());
            return Err(msg);
        }
        proof {
            reveal_strlit("cd");
            reveal_strlit("history");
            reveal_strlit("pwd");
            assert("cd"@ =~= cd_name());
            assert("history"@ =~= history_name());
            assert("pwd"@ =~= pwd_name());
        }
        let name = &cmd_token.lexeme;
        let mut cmd = if *name == String::from_str("cd") {
            Command::ChangeDir(ChangeDirCommand::new())
        } else if *name == String::from_str("history") {
            Command::History(HistoryCommand::new())
        } else if *name == String::from_str("pwd") {
            Command::Pwd(PwdCommand::new())
        } else {
            Command::System(SystemCommand::new(name.clone()))
        };
        assert(cmd.model().kind == kind_for(name@));
        assert(cmd.model().name == name@);
        let takes = match &cmd {
            Command::Pwd(_) => false,
            _ => true,
        };
        if takes && start < end {
            let ghost before = cmd;
            self.append_args(&mut cmd, start + 1, end);
            self.append_flags(&mut cmd, start + 1, end);
            assert(before.model().args =~= Seq::<Seq<char>>::empty() + Seq::empty());
            assert(cmd.model().args =~= stage_args(toks.subrange(start + 1, end as int)));
            assert(cmd.model().flags =~= stage_flags(toks.subrange(start + 1, end as int)));
        } else {
            assert(cmd.model().args =~= stage_args(Seq::<TokenView>::empty()));
            assert(cmd.model().flags =~= stage_flags(Seq::<TokenView>::empty()));
        }
        Ok(cmd)
    }

    /// Resolves the tokens into one command, or into a pipeline of the
    /// stages between pipe tokens.
    pub fn parse(&mut self) -> (r: Result<Command, String>)
        ensures
            *final(self) == *old(self),
            match resolve(token_views(old(self).tokens@)) {
                Ok(res) => r is Ok && resolved_as(r->Ok_0, res),
                Err(e) => r is Err && r->Err_0@ == e,
            },
    {
        let ghost toks = token_views(self.tokens@);
        if self.tokens.len() == 0 {
            return Err(String::from_str("No command provided"));
        }
        let mut pipe_positions: Vec<usize> = Vec::new();
        let mut i: usize = 0;
        while i < self.tokens.len()
            invariant
                0 <= i <= self.tokens@.len(),
                toks == token_views(self.tokens@),
                pipe_positions@.map_values(|p: usize| p as int) == pipes_before(toks, i as int),
            decreases self.tokens@.len() - i,
        {
            assert(toks[i as int] == self.tokens@[i as int]@);
            if self.tokens[i].kind == TokenType::Pipe {
                pipe_positions.push(i);
                assert(pipe_positions@.map_values(|p: usize| p as int) =~= pipes_before(
                    toks,
                    i + 1,
                ));
            }
            i = i + 1;
        }
        let ghost ps = pipes_before(toks, toks.len() as int);
        proof {
            lemma_pipes_before(toks, toks.len() as int);
        }
        assert(forall|j: int|
            0 <= j < pipe_positions@.len() ==> pipe_positions@[j] as int == #[trigger] ps[j]);
        if pipe_positions.len() == 0 {
            return self.parse_single_command(0, self.tokens.len());
        }
        let n = self.tokens.len();
        let mut pipeline = Pipeline::new();
        assert(pipeline.stages() =~= Seq::<CommandModel>::empty());
        let mut start: usize = 0;
        let mut k: usize = 0;
        while k < pipe_positions.len()
            invariant
                0 <= k <= pipe_positions@.len(),
                pipe_positions@.len() == ps.len(),
                ps == pipes_before(toks, toks.len() as int),
                toks == token_views(self.tokens@),
                toks.len() == self.tokens@.len(),
                n == self.tokens@.len(),
                forall|j: int|
                    0 <= j < pipe_positions@.len() ==> pipe_positions@[j] as int == #[trigger] ps[j],
                forall|j: int|
                    0 <= j < ps.len() ==> 0 <= #[trigger] ps[j] < toks.len() && toks[ps[j]].0
                        == TokenType::Pipe,
                forall|j: int, l: int| 0 <= j < l < ps.len() ==> ps[j] < ps[l],
                start as int == stage_start(ps, k as int),
                resolve_upto(toks, ps, k as int) == Ok::<Seq<CommandModel>, Seq<char>>(
                    pipeline.stages(),
                ),
                forall|j: int|
                    0 <= j < pipeline.commands@.len() ==> !(pipeline.commands@[j] is Pipeline)
                        && fresh(#[trigger] pipeline.commands@[j]),
            decreases pipe_positions@.len() - k,
        {
            let pipe_pos = pipe_positions[k];
            assert(k > 0 ==> ps[k - 1] < ps[k as int]);
            assert(ps[k as int] < toks.len());
            match self.parse_single_command(start, pipe_pos) {
                Ok(cmd) => {
                    let ghost before = pipeline.commands@;
                    pipeline.add_command(cmd);
                    assert(pipeline.stages() =~= before.map_values(|c: Command| c.model()).push(
                        cmd.model(),
                    ));
                },
                Err(e) => {
                    proof {
                        lemma_upto_error_stays(toks, ps, k + 1, ps.len() + 1int);
                    }
                    return Err(e);
                },
            }
            start = pipe_pos + 1;
            k = k + 1;
        }
        assert(ps.len() > 0 ==> ps[ps.len() - 1] < toks.len());
        match self.parse_single_command(start, self.tokens.len()) {
            Ok(last) => {
                let ghost before = pipeline.commands@;
                pipeline.add_command(last);
                assert(pipeline.stages() =~= before.map_values(|c: Command| c.model()).push(
                    last.model(),
                ));
                Ok(Command::Pipeline(pipeline))
            },
            Err(e) => Err(e),
        }
    }
}

} // verus!
