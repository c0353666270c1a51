use shell::command::{ChangeDirCommand, Command, FlagIdent, SystemCommand};
use shell::engine::{Action, ExecError, PipelineRun, StageEvent};
use shell::parser::CommandParser;
use shell::tokenizer::{Token, TokenType, Tokenizer};

fn create_tokens(input: &str) -> Vec<Token> {
    let mut tokenizer = Tokenizer::new(input.to_string());
    tokenizer.scan_tokens();
    tokenizer.into_tokens()
}

fn parse(input: &str) -> Result<Command, String> {
    CommandParser::new(create_tokens(input)).parse()
}

/// Runs a pipeline's stages through the run's decisions, with the exit code
/// that each stage's process reports, or `None` where it cannot be started.
fn run_pipeline(cmd: &Command, codes: &[Option<i32>]) -> Result<(), ExecError> {
    let stages = match cmd.plan()? {
        Action::RunPipeline(stages) => stages,
        _ => panic!("not a pipeline"),
    };
    let mut run = PipelineRun::new(stages);
    let mut i = 0;
    while let Some(spawn) = run.next_spawn() {
        let event = match codes[i] {
            Some(code) => StageEvent::Exited {
                code: Some(code),
                output: if spawn.capture { spawn.program.into_bytes() } else { Vec::new() },
            },
            None => StageEvent::Failed("No such file or directory (os error 2)".to_string()),
        };
        run.record(event);
        i += 1;
    }
    run.outcome.unwrap()
}

#[test]
fn test_io_redirection() {
    let mut cmd = Command::ChangeDir(ChangeDirCommand::new());
    cmd.set_output(Vec::new());
    cmd.set_error(Vec::new());
    cmd.set_input(Vec::new());
    assert!(cmd.get_io_redirection().to.is_some());
    assert!(cmd.get_io_redirection().error.is_some());
    assert!(cmd.get_io_redirection().from.is_some());
}

#[test]
fn test_parse_cd_command() {
    let tokens = create_tokens("cd /tmp");
    let mut parser = CommandParser::new(tokens);
    let cmd = parser.parse().unwrap();

    assert_eq!(cmd.get_name(), "cd");
    assert_eq!(cmd.get_args(), &["/tmp"]);
    assert!(cmd.get_flags().is_empty());
}

#[test]
fn test_parse_cd_with_flags() {
    let tokens = create_tokens("cd --follow-symlinks /tmp");
    let mut parser = CommandParser::new(tokens);
    let cmd = parser.parse().unwrap();

    assert_eq!(cmd.get_name(), "cd");
    assert_eq!(cmd.get_args(), &["/tmp"]);

    let flags = cmd.get_flags();
    assert_eq!(flags.len(), 1);
    assert_eq!(flags[0].ident.long, Some("--follow-symlinks".to_string()));
    assert_eq!(flags[0].ident.short, None);
    assert_eq!(flags[0].value, None);
}

#[test]
fn test_parse_cd_with_value_flag() {
    let tokens = create_tokens("cd --format=list /tmp");
    let mut parser = CommandParser::new(tokens);
    let cmd = parser.parse().unwrap();

    assert_eq!(cmd.get_name(), "cd");
    assert_eq!(cmd.get_args(), &["/tmp"]);

    let flags = cmd.get_flags();
    assert_eq!(flags.len(), 1);
    assert_eq!(flags[0].ident.long, Some("--format".to_string()));
    assert_eq!(flags[0].value, Some("list".to_string()));
}

#[test]
fn test_parse_cd_with_short_flag() {
    let tokens = create_tokens("cd -l /tmp");
    let mut parser = CommandParser::new(tokens);
    let cmd = parser.parse().unwrap();

    assert_eq!(cmd.get_name(), "cd");
    assert_eq!(cmd.get_args(), &["/tmp"]);

    let flags = cmd.get_flags();
    assert_eq!(flags.len(), 1);
    assert_eq!(flags[0].ident.short, Some("-l".to_string()));
    assert_eq!(flags[0].ident.long, None);
    assert_eq!(flags[0].value, None);
}

#[test]
fn test_parse_unknown_command() {
    let tokens = create_tokens("unknown_cmd arg1 arg2");
    let mut parser = CommandParser::new(tokens);
    let cmd = parser.parse().unwrap();

    assert_eq!(cmd.get_name(), "unknown_cmd");
    assert_eq!(cmd.get_args(), &["arg1", "arg2"]);
    assert!(cmd.get_flags().is_empty());
    assert!(matches!(cmd, Command::System(_)));
}

#[test]
fn test_cd_command_no_path() {
    let tokens = create_tokens("cd");
    let mut parser = CommandParser::new(tokens);
    let cmd = parser.parse().unwrap();

    match cmd.plan() {
        Ok(_) => panic!("Expected error for missing path"),
        Err(e) => assert_eq!(e.to_string(), "No path provided"),
    }
}

#[test]
fn test_flag_ident_creation() {
    let flag = FlagIdent::new(Some("-l".to_string()), None);
    assert_eq!(flag.short, Some("-l".to_string()));
    assert_eq!(flag.long, None);

    let flag = FlagIdent::new(None, Some("--long".to_string()));
    assert_eq!(flag.short, None);
    assert_eq!(flag.long, Some("--long".to_string()));
}

#[test]
fn test_command_creation() {
    let cmd = Command::ChangeDir(ChangeDirCommand::new());
    assert_eq!(cmd.get_name(), "cd");
    assert!(cmd.get_args().is_empty());
    assert!(cmd.get_flags().is_empty());
}

#[test]
fn test_command_get_args_len() {
    let mut cmd = Command::ChangeDir(ChangeDirCommand::new());
    cmd.get_args_mut().push("arg1".to_string());
    cmd.get_args_mut().push("arg2".to_string());
    assert_eq!(cmd.get_args_len(), 2);
}

#[test]
fn test_pipeline_parsing() {
    let tokens = create_tokens("ls -l | grep test");
    let mut parser = CommandParser::new(tokens);
    let cmd = parser.parse().unwrap();

    assert_eq!(cmd.get_name(), "pipeline");
}

#[test]
fn test_pipeline_execution() {
    let cmd = parse("echo 'Hello, World!' | grep Hello").unwrap();
    let result = run_pipeline(&cmd, &[Some(0), Some(0)]);
    assert!(result.is_ok());
}

#[test]
fn test_pipeline_with_invalid_command() {
    let cmd = parse("ls -l | nonexistent_command").unwrap();
    let result = run_pipeline(&cmd, &[Some(0), None]);
    assert!(result.is_err());
}

#[test]
fn test_pipeline_with_echo() {
    let cmd = parse("echo test | grep test").unwrap();
    let result = run_pipeline(&cmd, &[Some(0), Some(0)]);
    assert!(result.is_ok());
}

#[test]
fn test_pipeline_with_multiple_commands() {
    let cmd = parse("echo 'line 1\nline 2\nline 3' | grep line | wc -l").unwrap();
    let result = run_pipeline(&cmd, &[Some(0), Some(0), Some(0)]);
    assert!(result.is_ok());
}

#[test]
fn parse_pipeline_gives_two_external_stages() {
    let cmd = parse("ls -l | grep pattern").unwrap();
    let stages = match &cmd {
        Command::Pipeline(p) => &p.commands,
        _ => panic!("expected a pipeline"),
    };
    assert_eq!(stages.len(), 2);
    assert!(matches!(stages[0], Command::System(_)));
    assert_eq!(stages[0].get_name(), "ls");
    assert!(stages[0].get_args().is_empty());
    assert_eq!(stages[0].get_flags().len(), 1);
    assert_eq!(stages[0].get_flags()[0].ident.short, Some("-l".to_string()));
    assert!(matches!(stages[1], Command::System(_)));
    assert_eq!(stages[1].get_name(), "grep");
    assert_eq!(stages[1].get_args(), &["pattern"]);
}

#[test]
fn parse_no_tokens_is_no_command() {
    let result = CommandParser::new(Vec::new()).parse();
    assert_eq!(result.err(), Some("No command provided".to_string()));
}

#[test]
fn parse_stage_without_command_name() {
    assert_eq!(parse("").err(), Some("Expected command, got: ".to_string()));
    assert_eq!(parse("ls |").err(), Some("Expected command, got: ".to_string()));
    assert_eq!(parse("a || b").err(), Some("Expected command, got: |".to_string()));
    assert_eq!(parse("| ls").err(), Some("Expected command, got: |".to_string()));
    assert_eq!(parse("-x ls").err(), Some("Expected command, got: -x".to_string()));
}

#[test]
fn parse_stage_at_end_of_hand_made_tokens() {
    let tokens = vec![
        Token { kind: TokenType::Cmd, lexeme: "ls".to_string() },
        Token { kind: TokenType::Pipe, lexeme: "|".to_string() },
    ];
    let result = CommandParser::new(tokens).parse();
    assert_eq!(result.err(), Some("Expected command, got: ".to_string()));
}

#[test]
fn parse_value_flag_without_equals() {
    let tokens = vec![
        Token { kind: TokenType::Cmd, lexeme: "ls".to_string() },
        Token { kind: TokenType::LongFlagWithValue, lexeme: "--x".to_string() },
        Token { kind: TokenType::LongFlagWithValue, lexeme: "--a=b=c".to_string() },
    ];
    let cmd = CommandParser::new(tokens).parse().unwrap();
    let flags = cmd.get_flags();
    assert_eq!(flags[0].ident.long, Some("--x".to_string()));
    assert_eq!(flags[0].value, None);
    assert_eq!(flags[1].ident.long, Some("--a".to_string()));
    assert_eq!(flags[1].value, Some("b=c".to_string()));
}

#[test]
fn parse_builtins_by_name() {
    assert!(matches!(parse("cd x").unwrap(), Command::ChangeDir(_)));
    assert!(matches!(parse("pwd").unwrap(), Command::Pwd(_)));
    assert!(matches!(parse("history -c").unwrap(), Command::History(_)));
    assert!(matches!(parse("cdx").unwrap(), Command::System(_)));
}

#[test]
fn parse_pwd_keeps_no_arguments() {
    let cmd = parse("pwd extra --flag").unwrap();
    assert_eq!(cmd.get_name(), "pwd");
    assert!(cmd.get_args().is_empty());
    assert!(cmd.get_flags().is_empty());
}

#[test]
fn parse_ignores_redirection_tokens() {
    let cmd = parse("cat < in.txt > out.txt &").unwrap();
    assert_eq!(cmd.get_args(), &["in.txt", "out.txt"]);
}

#[test]
fn flag_ident_from_spelling() {
    let long = FlagIdent::from_spelling("--all").unwrap();
    assert_eq!(long.long, Some("--all".to_string()));
    assert_eq!(long.short, None);
    let short = FlagIdent::from_spelling("-a").unwrap();
    assert_eq!(short.short, Some("-a".to_string()));
    assert_eq!(FlagIdent::from_spelling("all").err(), Some("Invalid flag: all".to_string()));
    assert_eq!(FlagIdent::from_spelling("").err(), Some("Invalid flag: ".to_string()));
}

#[test]
fn flag_ident_text_prefers_short() {
    let both = FlagIdent::new(Some("-a".to_string()), Some("--all".to_string()));
    assert_eq!(both.to_string(), "-a");
    assert_eq!(FlagIdent::new(None, Some("--all".to_string())).to_string(), "--all");
    assert_eq!(FlagIdent::new(None, None).to_string(), "");
}

#[test]
fn get_flag_finds_first_of_identity() {
    let cmd = parse("ls --color=auto -l --color=never").unwrap();
    assert_eq!(cmd.get_flag("--color").unwrap().value, Some("auto".to_string()));
    assert!(cmd.get_flag("-l").is_some());
    assert!(cmd.get_flag("-x").is_none());
    assert!(cmd.get_flag("color").is_none());
}

#[test]
fn render_joins_arguments_then_flags() {
    let cmd = parse("cp --format=json -v a.txt b.txt").unwrap();
    assert_eq!(cmd.to_string(), "cp a.txt b.txt--format -v");
    assert_eq!(parse("pwd").unwrap().to_string(), "pwd ");
    assert_eq!(parse("ls -l").unwrap().to_string(), "ls -l");
    assert_eq!(parse("a | b").unwrap().to_string(), "pipeline ");
}

#[test]
fn render_round_trips_name_and_arguments() {
    for line in ["cp --format=json -v a.txt b.txt", "cd /tmp", "x 'y z", "ls -l | wc", "pwd q"] {
        let cmd = parse(line).unwrap();
        let again = parse(&cmd.to_string()).unwrap();
        assert!(!matches!(again, Command::Pipeline(_)));
        assert_eq!(again.get_name(), cmd.get_name());
        assert_eq!(again.get_args(), cmd.get_args());
    }
}

#[test]
fn system_command_help_names_the_program() {
    let help = Command::System(SystemCommand::new("grep".to_string())).get_help();
    assert_eq!(help.short_desc, "Execute the system command 'grep'");
    assert_eq!(
        help.long_desc,
        "Execute the system command 'grep' with the provided arguments and flags."
    );
    assert_eq!(help.usage, "grep [flags] [args...]");
    assert_eq!(help.flags, vec![("--help, -h".to_string(), "Show this help message".to_string())]);
}

#[test]
fn builtin_help_texts() {
    let cd = parse("cd").unwrap().get_help();
    assert_eq!(cd.usage, "cd [flags] <path>");
    assert_eq!(cd.flags.len(), 2);
    let history = parse("history").unwrap().get_help();
    assert_eq!(history.flags[1].0, "--clear, -c");
    let pipeline = parse("a | b").unwrap().get_help();
    assert_eq!(pipeline.short_desc, "A pipeline of commands");
    assert!(pipeline.flags.is_empty());
}

#[test]
fn stream_buffers_are_reachable_once_bound() {
    let mut cmd = Command::System(SystemCommand::new("cat".to_string()));
    cmd.set_input(b"in".to_vec());
    cmd.set_output(Vec::new());
    cmd.set_error(Vec::new());
    assert_eq!(cmd.get_input_mut().as_slice(), b"in");
    cmd.get_output_mut().extend_from_slice(b"out");
    cmd.get_error_mut().push(b'!');
    assert_eq!(cmd.get_io_redirection().to, Some(b"out".to_vec()));
    assert_eq!(cmd.get_io_redirection().error, Some(b"!".to_vec()));
}
