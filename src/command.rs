//! Commands: the flag model, the built-in and external command kinds, and
//! pipelines of commands, with one dispatch point for what they share.
use vstd::prelude::*;
use vstd::string::*;

verus! {

broadcast use vstd::string::group_string_axioms;

#[derive(Clone, Debug, PartialEq)]
pub struct FlagIdent {
    pub short: Option<String>,
    pub long: Option<String>,
}

/// A flag identity as its short and long spellings.
pub struct IdentModel {
    pub short: Option<Seq<char>>,
    pub long: Option<Seq<char>>,
}

impl View for FlagIdent {
    type V = IdentModel;

    open spec fn view(&self) -> IdentModel {
        IdentModel { short: self.short.deep_view(), long: self.long.deep_view() }
    }
}

/// A spelling that starts with `--`.
pub open spec fn is_long_spelling(s: Seq<char>) -> bool {
    s.len() >= 2 && s[0] == '-' && s[1] == '-'
}

/// The identity that a spelling names: long for `--x`, short for `-x`, none
/// for anything else.
pub open spec fn ident_of(s: Seq<char>) -> Option<IdentModel> {
    if is_long_spelling(s) {
        Some(IdentModel { short: None, long: Some(s) })
    } else if s.len() >= 1 && s[0] == '-' {
        Some(IdentModel { short: Some(s), long: None })
    } else {
        None
    }
}

/// The text of an identity: its short spelling if it has one, else its long one.
pub open spec fn ident_text(i: IdentModel) -> Seq<char> {
    match i.short {
        Some(s) => s,
        None => match i.long {
            Some(l) => l,
            None => Seq::empty(),
        },
    }
}

pub open spec fn invalid_flag_message(s: Seq<char>) -> Seq<char> {
    "Invalid flag: "@ + s
}

fn opt_str_eq(a: &Option<String>, b: &Option<String>) -> (r: bool)
    ensures
        r == (a.deep_view() == b.deep_view()),
{
    match a {
        Some(x) => match b {
            Some(y) => *x == *y,
            None => false,
        },
        None => b.is_none(),
    }
}

impl FlagIdent {
    pub fn new(short: Option<String>, long: Option<String>) -> (r: Self)
        ensures
            r.short == short,
            r.long == long,
    {
        Self { short, long }
    }

    /// The identity that a flag's spelling names; a spelling that does not
    /// start with `-` is refused.
    pub fn from_spelling(value: &str) -> (r: Result<FlagIdent, String>)
        ensures
            match ident_of(value@) {
                Some(i) => r is Ok && r->Ok_0@ == i,
                None => r is Err && r->Err_0@ == invalid_flag_message(value@),
            },
    {
        let n = value.unicode_len();
        if n >= 2 && value.get_char(0) == '-' && value.get_char(1) == '-' {
            Ok(Self { short: None, long: Some(String::from_str(value)) })
        } else if n >= 1 && value.get_char(0) == '-' {
            Ok(Self { short: Some(String::from_str(value)), long: None })
        } else {
            let mut msg = String::from_str("Invalid flag: ");
            msg.append(value);
            Err(msg)
        }
    }

    pub fn same_as(&self, other: &FlagIdent) -> (r: bool)
        ensures
            r == (self@ == other@),
    {
        opt_str_eq(&self.short, &other.short) && opt_str_eq(&self.long, &other.long)
    }

    pub fn to_string(&self) -> (r: String)
        ensures
            r@ == ident_text(self@),
    {
        match &self.short {
            Some(short) => short.clone(),
            None => match &self.long {
                Some(long) => long.clone(),
                None => String::new(),
            },
        }
    }
}

#[derive(Clone, Debug)]
pub struct Flag {
    pub ident: FlagIdent,
    pub value: Option<String>,
}

/// A flag as its identity and the value attached to it, if any.
pub struct FlagModel {
    pub ident: IdentModel,
    pub value: Option<Seq<char>>,
}

impl View for Flag {
    type V = FlagModel;

    open spec fn view(&self) -> FlagModel {
        FlagModel { ident: self.ident@, value: self.value.deep_view() }
    }
}

pub open spec fn flag_models(fs: Seq<Flag>) -> Seq<FlagModel> {
    fs.map_values(|f: Flag| f@)
}

/// The stream slots of a command. An input slot holds the bytes to read; an
/// output or error slot holds the bytes written to it.
pub struct IoRedirection {
    pub from: Option<Vec<u8>>,
    pub to: Option<Vec<u8>>,
    pub error: Option<Vec<u8>>,
}

impl IoRedirection {
    pub open spec fn unbound(&self) -> bool {
        self.from is None && self.to is None && self.error is None
    }
}

impl Default for IoRedirection {
    fn default() -> (r: Self)
        ensures
            r.unbound(),
    {
        IoRedirection { from: None, to: None, error: None }
    }
}

/// What a command says of itself when asked for help.
pub struct CommandHelp {
    pub short_desc: String,
    pub long_desc: String,
    pub usage: String,
    /// Pairs of a flag's spellings and what it does.
    pub flags: Vec<(String, String)>,
}

pub open spec fn cd_name() -> Seq<char> {
    seq!['c', 'd']
}

pub open spec fn pwd_name() -> Seq<char> {
    seq!['p', 'w', 'd']
}

pub open spec fn history_name() -> Seq<char> {
    seq!['h', 'i', 's', 't', 'o', 'r', 'y']
}

pub open spec fn pipeline_name() -> Seq<char> {
    seq!['p', 'i', 'p', 'e', 'l', 'i', 'n', 'e']
}

pub struct PwdCommand {
    pub name: String,
    pub io_redirection: IoRedirection,
}

impl PwdCommand {
    pub fn new() -> (r: Self)
        ensures
            r.name@ == pwd_name(),
            r.io_redirection.unbound(),
    {
        proof {
            reveal_strlit("pwd");
        }
        Self { name: String::from_str("pwd"), io_redirection: IoRedirection::default() }
    }
}

pub struct ChangeDirCommand {
    pub name: String,
    pub args: Vec<String>,
    pub flags: Vec<Flag>,
    pub io_redirection: IoRedirection,
}

impl ChangeDirCommand {
    pub fn new() -> (r: Self)
        ensures
            r.name@ == cd_name(),
            r.args@.len() == 0,
            r.flags@.len() == 0,
            r.io_redirection.unbound(),
    {
        proof {
            reveal_strlit("cd");
        }
        Self {
            name: String::from_str("cd"),
            args: Vec::new(),
            flags: Vec::new(),
            io_redirection: IoRedirection::default(),
        }
    }
}

pub struct HistoryCommand {
    pub name: String,
    pub args: Vec<String>,
    pub flags: Vec<Flag>,
    pub io_redirection: IoRedirection,
}

impl HistoryCommand {
    pub fn new() -> (r: Self)
        ensures
            r.name@ == history_name(),
            r.args@.len() == 0,
            r.flags@.len() == 0,
            r.io_redirection.unbound(),
    {
        proof {
            reveal_strlit("history");
        }
        Self {
            name: String::from_str("history"),
            args: Vec::new(),
            flags: Vec::new(),
            io_redirection: IoRedirection::default(),
        }
    }
}

/// A command run as an operating-system process under its own name.
pub struct SystemCommand {
    pub name: String,
    pub args: Vec<String>,
    pub flags: Vec<Flag>,
    pub io_redirection: IoRedirection,
}

impl SystemCommand {
    pub fn new(name: String) -> (r: Self)
        ensures
            r.name == name,
            r.args@.len() == 0,
            r.flags@.len() == 0,
            r.io_redirection.unbound(),
    {
        Self { name, args: Vec::new(), flags: Vec::new(), io_redirection: IoRedirection::default() }
    }
}

/// Commands run one after the other, each one's output feeding the next.
pub struct Pipeline {
    pub commands: Vec<Command>,
}

impl Pipeline {
    pub fn new() -> (r: Self)
        ensures
            r.commands@.len() == 0,
    {
        Self { commands: Vec::new() }
    }

    pub fn add_command(&mut self, command: Command)
        ensures
            final(self).commands@ == old(self).commands@.push(command),
    {
        self.commands.push(command);
    }

    /// The models of the stages, in order.
    pub open spec fn stages(&self) -> Seq<CommandModel> {
        self.commands@.map_values(|c: Command| c.model())
    }
}

#[derive(Debug, PartialEq, Eq, Structural, Clone, Copy)]
pub enum CommandKind {
    ChangeDir,
    Pwd,
    History,
    System,
    Pipeline,
}

/// What a command is, apart from its stream slots and a pipeline's stages.
pub struct CommandModel {
    pub kind: CommandKind,
    pub name: Seq<char>,
    pub args: Seq<Seq<char>>,
    pub flags: Seq<FlagModel>,
}

pub enum Command {
    ChangeDir(ChangeDirCommand),
    Pwd(PwdCommand),
    History(HistoryCommand),
    System(SystemCommand),
    Pipeline(Pipeline),
}

/// Words joined by single spaces.
pub open spec fn join(parts: Seq<Seq<char>>) -> Seq<char>
    decreases parts.len(),
{
    if parts.len() == 0 {
        Seq::empty()
    } else if parts.len() == 1 {
        parts[0]
    } else {
        join(parts.drop_last()) + seq![' '] + parts.last()
    }
}

/// The one-line text of a command: its name, a space, its arguments joined by
/// spaces, then at once its flags' identities joined by spaces.
pub open spec fn render(m: CommandModel) -> Seq<char> {
    m.name + seq![' '] + join(m.args) + join(m.flags.map_values(|f: FlagModel| ident_text(f.ident)))
}

/// Whether the command carries a flag of the identity that `spelling` names.
pub open spec fn has_flag(m: CommandModel, spelling: Seq<char>) -> bool {
    match ident_of(spelling) {
        Some(i) => exists|k: int| 0 <= k < m.flags.len() && (#[trigger] m.flags[k]).ident == i,
        None => false,
    }
}

pub open spec fn help_long() -> Seq<char> {
    seq!['-', '-', 'h', 'e', 'l', 'p']
}

pub open spec fn help_short() -> Seq<char> {
    seq!['-', 'h']
}

/// Whether the command asks for its help text instead of its work.
pub open spec fn wants_help(m: CommandModel) -> bool {
    has_flag(m, help_long()) || has_flag(m, help_short())
}

pub open spec fn help_short_desc(m: CommandModel) -> Seq<char> {
    match m.kind {
        CommandKind::ChangeDir => "Change the current working directory"@,
        CommandKind::Pwd => "Print the current working directory"@,
        CommandKind::History => "Display or manage the command history"@,
        CommandKind::System => "Execute the system command '"@ + m.name + "'"@,
        CommandKind::Pipeline => "A pipeline of commands"@,
    }
}

pub open spec fn help_long_desc(m: CommandModel) -> Seq<char> {
    match m.kind {
        CommandKind::ChangeDir => "Change the shell's current working directory to the specified path. If no path is provided, an error will be displayed."@,
        CommandKind::Pwd => "Display the full path of the current working directory."@,
        CommandKind::History => "Show the history of commands that have been executed. You can also clear the history using the --clear flag."@,
        CommandKind::System => "Execute the system command '"@ + m.name
            + "' with the provided arguments and flags."@,
        CommandKind::Pipeline => "Executes multiple commands in sequence, connecting their standard output to standard input."@,
    }
}

pub open spec fn help_usage(m: CommandModel) -> Seq<char> {
    match m.kind {
        CommandKind::ChangeDir => "cd [flags] <path>"@,
        CommandKind::Pwd => "pwd [flags]"@,
        CommandKind::History => "history [flags]"@,
        CommandKind::System => m.name + " [flags] [args...]"@,
        CommandKind::Pipeline => "command1 | command2 [| command3 ...]"@,
    }
}

pub open spec fn help_flags(m: CommandModel) -> Seq<(Seq<char>, Seq<char>)> {
    let help = ("--help, -h"@, "Show this help message"@);
    match m.kind {
        CommandKind::ChangeDir => seq![help, ("--follow-symlinks"@, "Follow symbolic links"@)],
        CommandKind::History => seq![help, ("--clear, -c"@, "Clear the command history"@)],
        CommandKind::Pipeline => Seq::empty(),
        _ => seq![help],
    }
}

fn help_pair(flag: &str, desc: &str) -> (r: (String, String))
    ensures
        r.0@ == flag@,
        r.1@ == desc@,
{
    (String::from_str(flag), String::from_str(desc))
}

pub open spec fn pair_views(v: Seq<(String, String)>) -> Seq<(Seq<char>, Seq<char>)> {
    v.map_values(|p: (String, String)| (p.0@, p.1@))
}

impl Command {
    pub open spec fn model(&self) -> CommandModel {
        match self {
            Command::ChangeDir(c) => CommandModel {
                kind: CommandKind::ChangeDir,
                name: c.name@,
                args: c.args.deep_view(),
                flags: flag_models(c.flags@),
            },
            Command::Pwd(c) => CommandModel {
                kind: CommandKind::Pwd,
                name: c.name@,
                args: Seq::empty(),
                flags: Seq::empty(),
            },
            Command::History(c) => CommandModel {
                kind: CommandKind::History,
                name: c.name@,
                args: c.args.deep_view(),
                flags: flag_models(c.flags@),
            },
            Command::System(c) => CommandModel {
                kind: CommandKind::System,
                name: c.name@,
                args: c.args.deep_view(),
                flags: flag_models(c.flags@),
            },
            Command::Pipeline(_) => CommandModel {
                kind: CommandKind::Pipeline,
                name: pipeline_name(),
                args: Seq::empty(),
                flags: Seq::empty(),
            },
        }
    }

    /// Whether the command keeps arguments and flags of its own.
    pub open spec fn takes_arguments(&self) -> bool {
        !(self is Pwd) && !(self is Pipeline)
    }

    /// Whether the command has stream slots: every kind but a pipeline does.
    pub open spec fn has_streams(&self) -> bool {
        !(self is Pipeline)
    }

    /// The stream slots, which every command but a pipeline has.
    pub open spec fn redirection(&self) -> Option<&IoRedirection> {
        match self {
            Command::ChangeDir(c) => Some(&c.io_redirection),
            Command::Pwd(c) => Some(&c.io_redirection),
            Command::History(c) => Some(&c.io_redirection),
            Command::System(c) => Some(&c.io_redirection),
            Command::Pipeline(_) => None,
        }
    }

    pub fn get_name(&self) -> (r: &str)
        ensures
            r@ == self.model().name,
    {
        match self {
            Command::ChangeDir(c) => c.name.as_str(),
            Command::Pwd(c) => c.name.as_str(),
            Command::History(c) => c.name.as_str(),
            Command::System(c) => c.name.as_str(),
            Command::Pipeline(_) => {
                proof {
                    reveal_strlit("pipeline");
                }
                "pipeline"
            },
        }
    }

    pub fn get_args(&self) -> (r: &[String])
        ensures
            r@.map_values(|a: String| a@) == self.model().args,
    {
        match self {
            Command::ChangeDir(c) => c.args.as_slice(),
            Command::History(c) => c.args.as_slice(),
            Command::System(c) => c.args.as_slice(),
            _ => {
                let r: &[String] = &[];
                assert(r@.map_values(|a: String| a@) =~= Seq::<Seq<char>>::empty());
                r
            },
        }
    }

    pub fn get_args_len(&self) -> (r: usize)
        ensures
            r == self.model().args.len(),
    {
        self.get_args().len()
    }

    pub fn get_flags(&self) -> (r: &[Flag])
        ensures
            flag_models(r@) == self.model().flags,
    {
        match self {
            Command::ChangeDir(c) => c.flags.as_slice(),
            Command::History(c) => c.flags.as_slice(),
            Command::System(c) => c.flags.as_slice(),
            _ => {
                let r: &[Flag] = &[];
                assert(flag_models(r@) =~= Seq::<FlagModel>::empty());
                r
            },
        }
    }
    /// The command with its arguments replaced, for the kinds that keep them.
    pub open spec fn with_args(self, args: Vec<String>) -> Command {
        match self {
            Command::ChangeDir(c) => Command::ChangeDir(
                ChangeDirCommand {
                    name: c.name,
                    args,
                    flags: c.flags,
                    io_redirection: c.io_redirection,
                },
            ),
            Command::History(c) => Command::History(
                HistoryCommand {
                    name: c.name,
                    args,
                    flags: c.flags,
                    io_redirection: c.io_redirection,
                },
            ),
            Command::System(c) => Command::System(
                SystemCommand {
                    name: c.name,
                    args,
                    flags: c.flags,
                    io_redirection: c.io_redirection,
                },
            ),
            _ => self,
        }
    }

    /// The command with its flags replaced, for the kinds that keep them.
    pub open spec fn with_flags(self, flags: Vec<Flag>) -> Command {
        match self {
            Command::ChangeDir(c) => Command::ChangeDir(
                ChangeDirCommand {
                    name: c.name,
                    args: c.args,
                    flags,
                    io_redirection: c.io_redirection,
                },
            ),
            Command::History(c) => Command::History(
                HistoryCommand {
                    name: c.name,
                    args: c.args,
                    flags,
                    io_redirection: c.io_redirection,
                },
            ),
            Command::System(c) => Command::System(
                SystemCommand {
                    name: c.name,
                    args: c.args,
                    flags,
                    io_redirection: c.io_redirection,
                },
            ),
            _ => self,
        }
    }

    /// The command with its stream slots replaced, for the kinds that have them.
    pub open spec fn with_io(self, io: IoRedirection) -> Command {
        match self {
            Command::ChangeDir(c) => Command::ChangeDir(
                ChangeDirCommand { name: c.name, args: c.args, flags: c.flags, io_redirection: io },
            ),
            Command::Pwd(c) => Command::Pwd(PwdCommand { name: c.name, io_redirection: io }),
            Command::History(c) => Command::History(
                HistoryCommand { name: c.name, args: c.args, flags: c.flags, io_redirection: io },
            ),
            Command::System(c) => Command::System(
                SystemCommand { name: c.name, args: c.args, flags: c.flags, io_redirection: io },
            ),
            Command::Pipeline(_) => self,
        }
    }

    pub fn get_args_mut(&mut self) -> (r: &mut Vec<String>)
        requires
            old(self).takes_arguments(),
        ensures
            r.deep_view() == old(self).model().args,
            *final(self) == old(self).with_args(*final(r)),
    {
        match self {
            Command::ChangeDir(c) => &mut c.args,
            Command::History(c) => &mut c.args,
            Command::System(c) => &mut c.args,
            _ => unreached(),
        }
    }

    pub fn get_flags_mut(&mut self) -> (r: &mut Vec<Flag>)
        requires
            old(self).takes_arguments(),
        ensures
            flag_models(r@) == old(self).model().flags,
            *final(self) == old(self).with_flags(*final(r)),
    {
        match self {
            Command::ChangeDir(c) => &mut c.flags,
            Command::History(c) => &mut c.flags,
            Command::System(c) => &mut c.flags,
            _ => unreached(),
        }
    }

    pub fn get_io_redirection(&mut self) -> (r: &mut IoRedirection)
        requires
            old(self).has_streams(),
        ensures
            old(self).redirection() == Some(&*r),
            *final(self) == old(self).with_io(*final(r)),
    {
        match self {
            Command::ChangeDir(c) => &mut c.io_redirection,
            Command::Pwd(c) => &mut c.io_redirection,
            Command::History(c) => &mut c.io_redirection,
            Command::System(c) => &mut c.io_redirection,
            Command::Pipeline(_) => unreached(),
        }
    }

    /// Binds the output slot to a buffer.
    pub fn set_output(&mut self, output: Vec<u8>)
        requires
            old(self).has_streams(),
        ensures
            ({
                let io = old(self).redirection().unwrap();
                *final(self) == old(self).with_io(
                    IoRedirection { from: io.from, to: Some(output), error: io.error },
                )
            }),
    {
        self.get_io_redirection().to = Some(output);
    }

    /// Binds the error slot to a buffer.
    pub fn set_error(&mut self, error: Vec<u8>)
        requires
            old(self).has_streams(),
        ensures
            ({
                let io = old(self).redirection().unwrap();
                *final(self) == old(self).with_io(
                    IoRedirection { from: io.from, to: io.to, error: Some(error) },
                )
            }),
    {
        self.get_io_redirection().error = Some(error);
    }

    /// Binds the input slot to the bytes to read.
    pub fn set_input(&mut self, input: Vec<u8>)
        requires
            old(self).has_streams(),
        ensures
            ({
                let io = old(self).redirection().unwrap();
                *final(self) == old(self).with_io(
                    IoRedirection { from: Some(input), to: io.to, error: io.error },
                )
            }),
    {
        self.get_io_redirection().from = Some(input);
    }

    /// The buffer bound to the input slot.
    pub fn get_input_mut(&mut self) -> (r: &mut Vec<u8>)
        requires
            old(self).has_streams(),
            old(self).redirection().unwrap().from is Some,
        ensures
            ({
                let io = old(self).redirection().unwrap();
                &&& *r == io.from.unwrap()
                &&& *final(self) == old(self).with_io(
                    IoRedirection { from: Some(*final(r)), to: io.to, error: io.error },
                )
            }),
    {
        match &mut self.get_io_redirection().from {
            Some(buffer) => buffer,
            None => unreached(),
        }
    }

    /// The buffer bound to the output slot.
    pub fn get_output_mut(&mut self) -> (r: &mut Vec<u8>)
        requires
            old(self).has_streams(),
            old(self).redirection().unwrap().to is Some,
        ensures
            ({
                let io = old(self).redirection().unwrap();
                &&& *r == io.to.unwrap()
                &&& *final(self) == old(self).with_io(
                    IoRedirection { from: io.from, to: Some(*final(r)), error: io.error },
                )
            }),
    {
        match &mut self.get_io_redirection().to {
            Some(buffer) => buffer,
            None => unreached(),
        }
    }

    /// The buffer bound to the error slot.
    pub fn get_error_mut(&mut self) -> (r: &mut Vec<u8>)
        requires
            old(self).has_streams(),
            old(self).redirection().unwrap().error is Some,
        ensures
            ({
                let io = old(self).redirection().unwrap();
                &&& *r == io.error.unwrap()
                &&& *final(self) == old(self).with_io(
                    IoRedirection { from: io.from, to: io.to, error: Some(*final(r)) },
                )
            }),
    {
        match &mut self.get_io_redirection().error {
            Some(buffer) => buffer,
            None => unreached(),
        }
    }

    /// The first flag of the identity that `flag` spells, if the spelling is
    /// one and the command carries such a flag.
    pub fn get_flag(&self, flag: &str) -> (r: Option<&Flag>)
        ensures
            match ident_of(flag@) {
                None => r is None,
                Some(i) => match r {
                    None => !has_flag(self.model(), flag@),
                    Some(f) => exists|k: int|
                        0 <= k < self.model().flags.len() && self.model().flags[k] == f@ && f@.ident
                            == i && forall|j: int|
                            0 <= j < k ==> (#[trigger] self.model().flags[j]).ident != i,
                },
            },
    {
        let ident = match FlagIdent::from_spelling(flag) {
            Ok(i) => i,
            Err(_) => {
                return None;
            },
        };
        let flags = self.get_flags();
        let mut k: usize = 0;
        while k < flags.len()
            invariant
                0 <= k <= flags@.len(),
                flag_models(flags@) == self.model().flags,
                Some(ident@) == ident_of(flag@),
                forall|j: int| 0 <= j < k ==> (#[trigger] flags@[j])@.ident != ident@,
            decreases flags@.len() - k,
        {
            if flags[k].ident.same_as(&ident) {
                assert(self.model().flags[k as int] == flags@[k as int]@);
                assert forall|j: int| 0 <= j < k implies (
                #[trigger] self.model().flags[j]).ident != ident@ by {
                    assert(self.model().flags[j] == flags@[j]@);
                }
                return Some(&flags[k]);
            }
            k = k + 1;
        }
        assert forall|j: int| 0 <= j < self.model().flags.len() implies (
        #[trigger] self.model().flags[j]).ident != ident@ by {
            assert(self.model().flags[j] == flags@[j]@);
        }
        None
    }

    /// Whether a help flag, `--help` or `-h`, is among the command's flags.
    pub fn wants_help(&self) -> (r: bool)
        ensures
            r == wants_help(self.model()),
    {
        proof {
            reveal_strlit("--help");
            reveal_strlit("-h");
            assert("--help"@ =~= help_long());
            assert("-h"@ =~= help_short());
        }
        self.get_flag("--help").is_some() || self.get_flag("-h").is_some()
    }

    /// The command's one-line text.
    pub fn to_string(&self) -> (r: String)
        ensures
            r@ == render(self.model()),
    {
        let mut result = String::new();
        result.append(self.get_name());
        result.append(" ");
        proof {
            reveal_strlit(" ");
        }
        let args = self.get_args();
        let ghost words = args@.map_values(|a: String| a@);
        let mut i: usize = 0;
        while i < args.len()
            invariant
                0 <= i <= args@.len(),
                words == args@.map_values(|a: String| a@),
                result@ == self.model().name + seq![' '] + join(words.take(i as int)),
            decreases args@.len() - i,
        {
            if i > 0 {
                result.append(" ");
            }
            result.append(args[i].as_str());
            proof {
                reveal_strlit(" ");
                lemma_join_step(words, i as int);
                assert(result@ =~= self.model().name + seq![' '] + join(words.take(i + 1)));
            }
            i = i + 1;
        }
        assert(words.take(args@.len() as int) == words);
        let flags = self.get_flags();
        let ghost texts = self.model().flags.map_values(|f: FlagModel| ident_text(f.ident));
        let ghost head = result@;
        let mut k: usize = 0;
        while k < flags.len()
            invariant
                0 <= k <= flags@.len(),
                flag_models(flags@) == self.model().flags,
                texts == self.model().flags.map_values(|f: FlagModel| ident_text(f.ident)),
                result@ == head + join(texts.take(k as int)),
            decreases flags@.len() - k,
        {
            if k > 0 {
                result.append(" ");
            }
            let text = flags[k].ident.to_string();
            assert(text@ == texts[k as int]);
            result.append(text.as_str());
            proof {
                reveal_strlit(" ");
                lemma_join_step(texts, k as int);
                assert(result@ =~= head + join(texts.take(k + 1)));
            }
            k = k + 1;
        }
        assert(texts.take(flags@.len() as int) == texts);
        result
    }

    pub fn get_help(&self) -> (r: CommandHelp)
        ensures
            r.short_desc@ == help_short_desc(self.model()),
            r.long_desc@ == help_long_desc(self.model()),
            r.usage@ == help_usage(self.model()),
            pair_views(r.flags@) == help_flags(self.model()),
    {
        let help = help_pair("--help, -h", "Show this help message");
        match self {
            Command::ChangeDir(_) => {
                let flags = vec![help, help_pair("--follow-symlinks", "Follow symbolic links")];
                assert(pair_views(flags@) =~= help_flags(self.model()));
                CommandHelp {
                    short_desc: String::from_str("Change the current working directory"),
                    long_desc: String::from_str(
                        "Change the shell's current working directory to the specified path. If no path is provided, an error will be displayed.",
                    ),
                    usage: String::from_str("cd [flags] <path>"),
                    flags,
                }
            },
            Command::Pwd(_) => {
                let flags = vec![help];
                assert(pair_views(flags@) =~= help_flags(self.model()));
                CommandHelp {
                    short_desc: String::from_str("Print the current working directory"),
                    long_desc: String::from_str(
                        "Display the full path of the current working directory.",
                    ),
                    usage: String::from_str("pwd [flags]"),
                    flags,
                }
            },
            Command::History(_) => {
                let flags = vec![help, help_pair("--clear, -c", "Clear the command history")];
                assert(pair_views(flags@) =~= help_flags(self.model()));
                CommandHelp {
                    short_desc: String::from_str("Display or manage the command history"),
                    long_desc: String::from_str(
                        "Show the history of commands that have been executed. You can also clear the history using the --clear flag.",
                    ),
                    usage: String::from_str("history [flags]"),
                    flags,
                }
            },
            Command::System(c) => {
                let flags = vec![help];
                assert(pair_views(flags@) =~= help_flags(self.model()));
                let mut short_desc = String::from_str("Execute the system command '");
                short_desc.append(c.name.as_str());
                short_desc.append("'");
                let mut long_desc = String::from_str("Execute the system command '");
                long_desc.append(c.name.as_str());
                long_desc.append("' with the provided arguments and flags.");
                let mut usage = c.name.clone();
                usage.append(" [flags] [args...]");
                CommandHelp { short_desc, long_desc, usage, flags }
            },
            Command::Pipeline(_) => {
                let flags: Vec<(String, String)> = Vec::new();
                assert(pair_views(flags@) =~= help_flags(self.model()));
                CommandHelp {
                    short_desc: String::from_str("A pipeline of commands"),
                    long_desc: String::from_str(
                        "Executes multiple commands in sequence, connecting their standard output to standard input.",
                    ),
                    usage: String::from_str("command1 | command2 [| command3 ...]"),
                    flags,
                }
            },
        }
    }
}

/// Joining one more word onto the first `i` words.
pub proof fn lemma_join_step(words: Seq<Seq<char>>, i: int)
    requires
        0 <= i < words.len(),
    ensures
        join(words.take(i + 1)) == if i == 0 {
            words[0]
        } else {
            join(words.take(i)) + seq![' '] + words[i]
        },
{
    assert(words.take(i + 1).drop_last() == words.take(i));
}

} // verus!
