//! The decisions of the execution engine: what running a command asks of the
//! operating system, and what follows from what the operating system reports.
use vstd::prelude::*;
use vstd::string::*;

use crate::command::{
    has_flag, ident_text, wants_help, Command, CommandKind, CommandModel, FlagModel, Pipeline,
};
use crate::text::{int_text, int_to_text};

verus! {

broadcast use vstd::string::group_string_axioms, vstd::std_specs::vec::group_vec_axioms;

pub enum ExecError {
    /// A change of directory without a path.
    NoPath,
    /// A built-in command as a stage of a pipeline.
    BuiltinInPipe,
    /// A process that ended with another status than success; a process
    /// ended by a signal reports `-1`.
    ExitStatus { name: String, code: i32 },
    /// A stage of a pipeline that ended with another status than success; a
    /// stage ended by a signal reports `-1`.
    PipelineStatus { code: i32 },
    /// What the operating system said when it could not do what was asked.
    Os(String),
}

pub open spec fn error_message(e: ExecError) -> Seq<char> {
    match e {
        ExecError::NoPath => "No path provided"@,
        ExecError::BuiltinInPipe => "Built-in commands cannot be used in pipes"@,
        ExecError::ExitStatus { name, code } => "Command '"@ + name@ + "' failed with exit code: "@
            + int_text(code as int),
        ExecError::PipelineStatus { code } => "Pipeline failed with status: "@ + int_text(
            code as int,
        ),
        ExecError::Os(msg) => msg@,
    }
}

impl ExecError {
    pub fn to_string(&self) -> (r: String)
        ensures
            r@ == error_message(*self),
    {
        match self {
            ExecError::NoPath => String::from_str("No path provided"),
            ExecError::BuiltinInPipe => String::from_str("Built-in commands cannot be used in pipes"),
            ExecError::ExitStatus { name, code } => {
                let mut msg = String::from_str("Command '");
                msg.append(name.as_str());
                msg.append("' failed with exit code: ");
                let code_text = int_to_text(*code);
                msg.append(code_text.as_str());
                msg
            },
            ExecError::PipelineStatus { code } => {
                let mut msg = String::from_str("Pipeline failed with status: ");
                let code_text = int_to_text(*code);
                msg.append(code_text.as_str());
                msg
            },
            ExecError::Os(msg) => msg.clone(),
        }
    }
}

/// The exit code to report: the one the process gave, or `-1` when it gave none.
pub open spec fn reported_code(code: Option<i32>) -> i32 {
    match code {
        Some(c) => c,
        None => -1i32,
    }
}

/// Success when the process exited with code zero; otherwise the error that
/// names the program and its exit code.
pub fn exit_result(name: &String, code: Option<i32>) -> (r: Result<(), ExecError>)
    ensures
        code == Some(0i32) ==> r is Ok,
        code != Some(0i32) ==> r == Err::<(), ExecError>(
            ExecError::ExitStatus { name: *name, code: reported_code(code) },
        ),
{
    match code {
        Some(0) => Ok(()),
        Some(c) => Err(ExecError::ExitStatus { name: name.clone(), code: c }),
        None => Err(ExecError::ExitStatus { name: name.clone(), code: -1 }),
    }
}

/// A program and the arguments to start it with.
pub struct Invocation {
    pub program: String,
    pub args: Vec<String>,
}

impl View for Invocation {
    type V = (Seq<char>, Seq<Seq<char>>);

    open spec fn view(&self) -> (Seq<char>, Seq<Seq<char>>) {
        (self.program@, self.args.deep_view())
    }
}

/// A flag as an argument of a process: its identity, then `=` and its value
/// when it has one.
pub open spec fn flag_arg(f: FlagModel) -> Seq<char> {
    ident_text(f.ident) + match f.value {
        Some(v) => seq!['='] + v,
        None => Seq::empty(),
    }
}

/// The arguments of an external command's process: its positional arguments,
/// then its flags.
pub open spec fn argv(m: CommandModel) -> Seq<Seq<char>> {
    m.args + m.flags.map_values(|f: FlagModel| flag_arg(f))
}

pub open spec fn is_builtin(k: CommandKind) -> bool {
    k == CommandKind::ChangeDir || k == CommandKind::Pwd || k == CommandKind::History
}

pub open spec fn clear_long() -> Seq<char> {
    seq!['-', '-', 'c', 'l', 'e', 'a', 'r']
}

pub open spec fn clear_short() -> Seq<char> {
    seq!['-', 'c']
}

/// What running a command asks for.
pub enum Plan {
    ShowHelp,
    ChangeDir(Seq<char>),
    PrintWorkingDir,
    ShowHistory,
    ClearHistory,
    Run(Seq<char>, Seq<Seq<char>>),
    RunPipeline(Seq<(Seq<char>, Seq<Seq<char>>)>),
    Nothing,
}

/// What the caller does to run a command.
pub enum Action {
    /// Print the command's help text, and succeed.
    ShowHelp,
    /// Make the path the working directory.
    ChangeDir(String),
    /// Print the working directory.
    PrintWorkingDir,
    /// Print the stored history, newest entry first.
    ShowHistory,
    /// Store an empty history.
    ClearHistory,
    /// Run one process, relay what it printed, and check its exit code.
    Run(Invocation),
    /// Run the stages one after the other, as `PipelineRun` directs.
    RunPipeline(Vec<Invocation>),
    /// Nothing to do: success.
    Nothing,
}

impl View for Action {
    type V = Plan;

    open spec fn view(&self) -> Plan {
        match self {
            Action::ShowHelp => Plan::ShowHelp,
            Action::ChangeDir(p) => Plan::ChangeDir(p@),
            Action::PrintWorkingDir => Plan::PrintWorkingDir,
            Action::ShowHistory => Plan::ShowHistory,
            Action::ClearHistory => Plan::ClearHistory,
            Action::Run(i) => Plan::Run(i.program@, i.args.deep_view()),
            Action::RunPipeline(v) => Plan::RunPipeline(v@.map_values(|i: Invocation| i@)),
            Action::Nothing => Plan::Nothing,
        }
    }
}

/// What running a pipeline of two or more stages asks for: refused outright
/// if any stage is built in, else each stage as a process.
pub open spec fn staged_plan(p: Pipeline) -> Result<Plan, ExecError> {
    if exists|k: int| 0 <= k < p.stages().len() && is_builtin(#[trigger] p.stages()[k].kind) {
        Err(ExecError::BuiltinInPipe)
    } else {
        Ok(Plan::RunPipeline(p.stages().map_values(|s: CommandModel| (s.name, argv(s)))))
    }
}

/// What running a command asks for, or the error that stops it before
/// anything is asked. A help flag comes first; a pipeline of one stage is
/// that stage; a pipeline of more is refused outright if any stage is built in.
pub open spec fn plan_of(c: Command) -> Result<Plan, ExecError>
    decreases c,
{
    let m = c.model();
    if wants_help(m) {
        Ok(Plan::ShowHelp)
    } else {
        match c {
            Command::ChangeDir(_) => if m.args.len() == 0 {
                Err(ExecError::NoPath)
            } else {
                Ok(Plan::ChangeDir(m.args[0]))
            },
            Command::Pwd(_) => Ok(Plan::PrintWorkingDir),
            Command::History(_) => if has_flag(m, clear_long()) || has_flag(m, clear_short()) {
                Ok(Plan::ClearHistory)
            } else {
                Ok(Plan::ShowHistory)
            },
            Command::System(_) => Ok(Plan::Run(m.name, argv(m))),
            Command::Pipeline(p) => if p.commands@.len() == 0 {
                Ok(Plan::Nothing)
            } else if p.commands@.len() == 1 {
                plan_of(p.commands@[0])
            } else {
                staged_plan(p)
            },
        }
    }
}

fn copy_strings(v: &[String]) -> (r: Vec<String>)
    ensures
        r.deep_view() == v@.map_values(|s: String| s@),
{
    let mut r: Vec<String> = Vec::new();
    let mut i: usize = 0;
    while i < v.len()
        invariant
            0 <= i <= v@.len(),
            r.deep_view() == v@.take(i as int).map_values(|s: String| s@),
        decreases v@.len() - i,
    {
        let ghost before = r.deep_view();
        let item = v[i].clone();
        r.push(item);
        assert(r.deep_view() =~= before.push(v@[i as int]@));
        assert(v@.take(i + 1).map_values(|s: String| s@) =~= v@.take(i as int).map_values(
            |s: String| s@,
        ).push(v@[i as int]@));
        i = i + 1;
    }
    assert(v@.take(v@.len() as int) == v@);
    r
}

impl Command {
    /// The arguments of the command's process.
    pub fn argv(&self) -> (r: Vec<String>)
        ensures
            r.deep_view() == argv(self.model()),
    {
        let mut r = copy_strings(self.get_args());
        let flags = self.get_flags();
        let ghost head = r.deep_view();
        let ghost fs = self.model().flags;
        let mut k: usize = 0;
        while k < flags.len()
            invariant
                0 <= k <= flags@.len(),
                crate::command::flag_models(flags@) == fs,
                fs == self.model().flags,
                head == self.model().args,
                r.deep_view() == head + fs.take(k as int).map_values(|f: FlagModel| flag_arg(f)),
            decreases flags@.len() - k,
        {
            let flag = &flags[k];
            assert(fs[k as int] == flag@);
            let mut text = flag.ident.to_string();
            match &flag.value {
                Some(v) => {
                    text.append("=");
                    text.append(v.as_str());
                    proof {
                        reveal_strlit("=");
                    }
                },
                None => {},
            }
            assert(text@ =~= flag_arg(fs[k as int]));
            let ghost before = r.deep_view();
            r.push(text);
            assert(r.deep_view() =~= before.push(flag_arg(fs[k as int])));
            assert(fs.take(k + 1).map_values(|f: FlagModel| flag_arg(f)) =~= fs.take(
                k as int,
            ).map_values(|f: FlagModel| flag_arg(f)).push(flag_arg(fs[k as int])));
            assert(r.deep_view() =~= head + fs.take(k + 1).map_values(|f: FlagModel| flag_arg(f)));
            k = k + 1;
        }
        assert(fs.take(flags@.len() as int) == fs);
        r
    }

    fn invocation(&self) -> (r: Invocation)
        ensures
            r@ == (self.model().name, argv(self.model())),
    {
        let name = self.get_name();
        Invocation { program: String::from_str(name), args: self.argv() }
    }

    /// What running the command asks for, or the error that stops it first.
    pub fn plan(&self) -> (r: Result<Action, ExecError>)
        ensures
            match plan_of(*self) {
                Ok(p) => r is Ok && r->Ok_0@ == p,
                Err(e) => r is Err && r->Err_0 == e,
            },
        decreases self,
    {
        proof {
            reveal_strlit("--clear");
            reveal_strlit("-c");
            assert("--clear"@ =~= clear_long());
            assert("-c"@ =~= clear_short());
        }
        if self.wants_help() {
            return Ok(Action::ShowHelp);
        }
        match self {
            Command::ChangeDir(c) => {
                if c.args.len() == 0 {
                    Err(ExecError::NoPath)
                } else {
                    Ok(Action::ChangeDir(c.args[0].clone()))
                }
            },
            Command::Pwd(_) => Ok(Action::PrintWorkingDir),
            Command::History(_) => {
                if self.get_flag("--clear").is_some() || self.get_flag("-c").is_some() {
                    Ok(Action::ClearHistory)
                } else {
                    Ok(Action::ShowHistory)
                }
            },
            Command::System(_) => {
                let inv = self.invocation();
                Ok(Action::Run(inv))
            },
            Command::Pipeline(p) => {
                let n = p.commands.len();
                if n == 0 {
                    Ok(Action::Nothing)
                } else if n == 1 {
                    assert(decreases_to!(*self => p.commands@[0]));
                    p.commands[0].plan()
                } else {
                    p.plan_stages()
                }
            },
        }
    }
}

impl Pipeline {
    fn plan_stages(&self) -> (r: Result<Action, ExecError>)
        ensures
            match staged_plan(*self) {
                Ok(p) => r is Ok && r->Ok_0@ == p,
                Err(e) => r is Err && r->Err_0 == e,
            },
    {
        let n = self.commands.len();
        let mut k: usize = 0;
        while k < n
            invariant
                0 <= k <= n,
                n == self.commands@.len(),
                forall|j: int| 0 <= j < k ==> !is_builtin(#[trigger] self.stages()[j].kind),
            decreases n - k,
        {
            match &self.commands[k] {
                Command::ChangeDir(_) | Command::Pwd(_) | Command::History(_) => {
                    assert(is_builtin(self.stages()[k as int].kind));
                    return Err(ExecError::BuiltinInPipe);
                },
                _ => {},
            }
            k = k + 1;
        }
        let mut stages: Vec<Invocation> = Vec::new();
        let mut k: usize = 0;
        while k < n
            invariant
                0 <= k <= n,
                n == self.commands@.len(),
                stages@.map_values(|i: Invocation| i@) == self.stages().take(k as int).map_values(
                    |s: CommandModel| (s.name, argv(s)),
                ),
            decreases n - k,
        {
            let inv = self.commands[k].invocation();
            let ghost before = stages@.map_values(|i: Invocation| i@);
            stages.push(inv);
            assert(stages@.map_values(|i: Invocation| i@) =~= before.push(inv@));
            assert(self.stages()[k as int] == self.commands@[k as int].model());
            assert(stages@.map_values(|i: Invocation| i@) =~= self.stages().take(
                k + 1,
            ).map_values(|s: CommandModel| (s.name, argv(s))));
            k = k + 1;
        }
        assert(self.stages().take(n as int) == self.stages());
        Ok(Action::RunPipeline(stages))
    }
}

/// A process to start for one stage of a pipeline.
pub struct Spawn {
    pub program: String,
    pub args: Vec<String>,
    /// The bytes to hand the process as its standard input, if any.
    pub input: Option<Vec<u8>>,
    /// Whether to capture the process's standard output for the next stage.
    pub capture: bool,
}

/// What the operating system reported of a stage's process.
pub enum StageEvent {
    /// The process ran to its end, with its exit code (none when a signal
    /// ended it) and what it wrote to its standard output if that was captured.
    Exited { code: Option<i32>, output: Vec<u8> },
    /// The process could not be started, or waited for.
    Failed(String),
}

/// The run of a pipeline's stages, strictly one after the other: each stage's
/// captured output becomes the next stage's input, and the run stops at the
/// first stage that fails.
pub struct PipelineRun {
    pub stages: Vec<Invocation>,
    /// The stage being run.
    pub next: usize,
    /// The input for the stage being run.
    pub input: Option<Vec<u8>>,
    /// How the run ended, once it has.
    pub outcome: Option<Result<(), ExecError>>,
}

impl PipelineRun {
    pub open spec fn wf(&self) -> bool {
        self.next < self.stages@.len()
    }

    pub fn new(stages: Vec<Invocation>) -> (r: Self)
        requires
            stages@.len() >= 1,
        ensures
            r.wf(),
            r.stages == stages,
            r.next == 0,
            r.input is None,
            r.outcome is None,
    {
        PipelineRun { stages, next: 0, input: None, outcome: None }
    }

    /// The process to start for the stage being run, unless the run is over.
    /// Its input is the output of the stage before; its output is captured
    /// unless it is the last stage.
    pub fn next_spawn(&mut self) -> (r: Option<Spawn>)
        requires
            old(self).wf(),
        ensures
            final(self).wf(),
            final(self).stages == old(self).stages,
            final(self).next == old(self).next,
            final(self).outcome == old(self).outcome,
            old(self).outcome is Some ==> r is None && final(self).input == old(self).input,
            old(self).outcome is None ==> r is Some && final(self).input is None && ({
                let s = r->Some_0;
                let stage = old(self).stages@[old(self).next as int];
                &&& s.program@ == stage.program@
                &&& s.args.deep_view() == stage.args.deep_view()
                &&& s.input == old(self).input
                &&& s.capture == (old(self).next + 1 < old(self).stages@.len())
            }),
    {
        if self.outcome.is_some() {
            return None;
        }
        let stage = &self.stages[self.next];
        let program = stage.program.clone();
        let args = copy_strings(stage.args.as_slice());
        let capture = self.next < self.stages.len() - 1;
        let input = self.input.take();
        Some(Spawn { program, args, input, capture })
    }

    /// Takes in what the operating system reported of the stage being run.
    pub fn record(&mut self, event: StageEvent)
        requires
            old(self).wf(),
            old(self).outcome is None,
        ensures
            final(self).wf(),
            final(self).stages == old(self).stages,
            match event {
                StageEvent::Failed(msg) => {
                    &&& final(self).outcome == Some(Err::<(), ExecError>(ExecError::Os(msg)))
                    &&& final(self).next == old(self).next
                },
                StageEvent::Exited { code, output } => if code != Some(0i32) {
                    &&& final(self).outcome == Some(
                        Err::<(), ExecError>(
                            ExecError::PipelineStatus { code: reported_code(code) },
                        ),
                    )
                    &&& final(self).next == old(self).next
                } else if old(self).next + 1 == old(self).stages@.len() {
                    &&& final(self).outcome == Some(Ok::<(), ExecError>(()))
                    &&& final(self).next == old(self).next
                } else {
                    &&& final(self).outcome is None
                    &&& final(self).next == old(self).next + 1
                    &&& final(self).input == Some(output)
                },
            },
    {
        match event {
            StageEvent::Failed(msg) => {
                self.outcome = Some(Err(ExecError::Os(msg)));
            },
            StageEvent::Exited { code, output } => {
                match code {
                    Some(0) => {
                        if self.next == self.stages.len() - 1 {
                            self.outcome = Some(Ok(()));
                        } else {
                            self.next = self.next + 1;
                            self.input = Some(output);
                        }
                    },
                    Some(c) => {
                        self.outcome = Some(Err(ExecError::PipelineStatus { code: c }));
                    },
                    None => {
                        self.outcome = Some(Err(ExecError::PipelineStatus { code: -1 }));
                    },
                }
            },
        }
    }
}

} // verus!
