//! Properties that relate the lexer, the resolver and the execution engine.
use vstd::prelude::*;

use crate::command::{
    cd_name, history_name, pwd_name, wants_help, ChangeDirCommand, Command, CommandKind,
    CommandModel, Pipeline,
};
use crate::engine::{is_builtin, plan_of, ExecError, Plan};
use crate::parser::{pipe_positions, resolve, stage_args, stage_flags, Resolved};
use crate::tokenizer::{TokenType, TokenView};

verus! {

/// A single stage whose command name is none of the built-ins resolves to an
/// external command of that name: an unrecognized name is never an error.
pub proof fn unknown_names_are_external(toks: Seq<TokenView>)
    requires
        toks.len() >= 1,
        toks[0].0 == TokenType::Cmd,
        pipe_positions(toks).len() == 0,
        toks[0].1 != cd_name(),
        toks[0].1 != pwd_name(),
        toks[0].1 != history_name(),
    ensures
        resolve(toks) == Ok::<Resolved, Seq<char>>(
            Resolved::Single(
                CommandModel {
                    kind: CommandKind::System,
                    name: toks[0].1,
                    args: stage_args(toks.subrange(1, toks.len() as int)),
                    flags: stage_flags(toks.subrange(1, toks.len() as int)),
                },
            ),
        ),
{
}

/// Changing directory without a path fails with the missing-path error; with
/// a path, the first argument is where to go.
pub proof fn change_dir_needs_path(c: ChangeDirCommand)
    requires
        !wants_help(Command::ChangeDir(c).model()),
    ensures
        c.args@.len() == 0 ==> plan_of(Command::ChangeDir(c)) == Err::<Plan, ExecError>(
            ExecError::NoPath,
        ),
        c.args@.len() > 0 ==> plan_of(Command::ChangeDir(c)) == Ok::<Plan, ExecError>(
            Plan::ChangeDir(c.args@[0]@),
        ),
{
}

/// A pipeline of two or more stages with a built-in command among them is
/// refused with the built-in error, before anything is asked to run.
pub proof fn builtin_stage_refuses_pipeline(p: Pipeline, k: int)
    requires
        p.commands@.len() >= 2,
        0 <= k < p.commands@.len(),
        is_builtin(p.commands@[k].model().kind),
    ensures
        plan_of(Command::Pipeline(p)) == Err::<Plan, ExecError>(ExecError::BuiltinInPipe),
{
    assert(p.stages()[k] == p.commands@[k].model());
}

} // verus!
