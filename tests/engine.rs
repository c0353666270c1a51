use shell::command::{Command, Pipeline, SystemCommand};
use shell::engine::{exit_result, Action, ExecError, Invocation, PipelineRun, StageEvent};
use shell::history::History;
use shell::parser::CommandParser;
use shell::session::{interpret, LineStep};
use shell::tokenizer::Tokenizer;

fn parse(input: &str) -> Command {
    let mut tokenizer = Tokenizer::new(input.to_string());
    tokenizer.scan_tokens();
    CommandParser::new(tokenizer.into_tokens()).parse().unwrap()
}

fn invocation(program: &str, args: &[&str]) -> Invocation {
    Invocation {
        program: program.to_string(),
        args: args.iter().map(|a| a.to_string()).collect(),
    }
}

#[test]
fn plan_change_dir_takes_first_argument() {
    match parse("cd /tmp other").plan() {
        Ok(Action::ChangeDir(path)) => assert_eq!(path, "/tmp"),
        _ => panic!("expected a change of directory"),
    }
}

#[test]
fn plan_change_dir_without_path_fails() {
    let err = parse("cd -l").plan().err().unwrap();
    assert!(matches!(err, ExecError::NoPath));
    assert_eq!(err.to_string(), "No path provided");
}

#[test]
fn plan_help_flag_comes_first() {
    assert!(matches!(parse("cd --help").plan(), Ok(Action::ShowHelp)));
    assert!(matches!(parse("ls -h x").plan(), Ok(Action::ShowHelp)));
    assert!(matches!(parse("history -h --clear").plan(), Ok(Action::ShowHelp)));
    assert!(parse("ls --helpful").wants_help() == false);
}

#[test]
fn plan_builtins() {
    assert!(matches!(parse("pwd").plan(), Ok(Action::PrintWorkingDir)));
    assert!(matches!(parse("history").plan(), Ok(Action::ShowHistory)));
    assert!(matches!(parse("history --clear").plan(), Ok(Action::ClearHistory)));
    assert!(matches!(parse("history -c").plan(), Ok(Action::ClearHistory)));
}

#[test]
fn plan_external_passes_arguments_then_flags() {
    match parse("grep -i --color=auto pat file").plan() {
        Ok(Action::Run(inv)) => {
            assert_eq!(inv.program, "grep");
            assert_eq!(inv.args, vec!["pat", "file", "-i", "--color=auto"]);
        }
        _ => panic!("expected a process to run"),
    }
}

#[test]
fn plan_pipeline_with_builtin_is_refused() {
    for line in ["cd /tmp | ls", "ls | pwd", "a | b | history"] {
        let err = parse(line).plan().err().unwrap();
        assert!(matches!(err, ExecError::BuiltinInPipe));
        assert_eq!(err.to_string(), "Built-in commands cannot be used in pipes");
    }
}

#[test]
fn plan_pipeline_stages() {
    match parse("ls -l | grep x | wc -l").plan() {
        Ok(Action::RunPipeline(stages)) => {
            assert_eq!(stages.len(), 3);
            assert_eq!(stages[0].program, "ls");
            assert_eq!(stages[0].args, vec!["-l"]);
            assert_eq!(stages[1].program, "grep");
            assert_eq!(stages[1].args, vec!["x"]);
            assert_eq!(stages[2].program, "wc");
        }
        _ => panic!("expected a pipeline"),
    }
}

#[test]
fn plan_small_pipelines() {
    assert!(matches!(Command::Pipeline(Pipeline::new()).plan(), Ok(Action::Nothing)));
    let mut one = Pipeline::new();
    one.add_command(parse("cd"));
    assert!(matches!(Command::Pipeline(one).plan(), Err(ExecError::NoPath)));
}

#[test]
fn exit_result_by_code() {
    let name = "ls".to_string();
    assert!(exit_result(&name, Some(0)).is_ok());
    let err = exit_result(&name, Some(2)).err().unwrap();
    assert_eq!(err.to_string(), "Command 'ls' failed with exit code: 2");
    let err = exit_result(&name, None).err().unwrap();
    assert_eq!(err.to_string(), "Command 'ls' failed with exit code: -1");
    let err = exit_result(&name, Some(-2147483648)).err().unwrap();
    assert_eq!(err.to_string(), "Command 'ls' failed with exit code: -2147483648");
    let err = exit_result(&name, Some(130)).err().unwrap();
    assert_eq!(err.to_string(), "Command 'ls' failed with exit code: 130");
}

#[test]
fn os_error_message_is_kept() {
    let err = ExecError::Os("No such file or directory (os error 2)".to_string());
    assert_eq!(err.to_string(), "No such file or directory (os error 2)");
}

#[test]
fn pipeline_run_carries_output_to_next_stage() {
    let mut run = PipelineRun::new(vec![invocation("a", &["1"]), invocation("b", &[])]);
    let first = run.next_spawn().unwrap();
    assert_eq!(first.program, "a");
    assert_eq!(first.args, vec!["1"]);
    assert_eq!(first.input, None);
    assert!(first.capture);
    run.record(StageEvent::Exited { code: Some(0), output: b"out".to_vec() });
    assert!(run.outcome.is_none());
    let second = run.next_spawn().unwrap();
    assert_eq!(second.program, "b");
    assert_eq!(second.input, Some(b"out".to_vec()));
    assert!(!second.capture);
    run.record(StageEvent::Exited { code: Some(0), output: Vec::new() });
    assert!(matches!(run.outcome, Some(Ok(()))));
    assert!(run.next_spawn().is_none());
}

#[test]
fn pipeline_run_stops_at_first_failing_stage() {
    let mut run = PipelineRun::new(vec![
        invocation("a", &[]),
        invocation("b", &[]),
        invocation("c", &[]),
    ]);
    run.next_spawn().unwrap();
    run.record(StageEvent::Exited { code: Some(1), output: Vec::new() });
    assert!(run.next_spawn().is_none());
    let err = run.outcome.unwrap().err().unwrap();
    assert!(matches!(err, ExecError::PipelineStatus { code: 1 }));
    assert_eq!(err.to_string(), "Pipeline failed with status: 1");
}

#[test]
fn pipeline_run_reports_start_failure() {
    let mut run = PipelineRun::new(vec![invocation("a", &[]), invocation("nope", &[])]);
    run.next_spawn().unwrap();
    run.record(StageEvent::Exited { code: Some(0), output: Vec::new() });
    run.next_spawn().unwrap();
    run.record(StageEvent::Failed("not found".to_string()));
    match run.outcome {
        Some(Err(ExecError::Os(msg))) => assert_eq!(msg, "not found"),
        _ => panic!("expected the start failure"),
    }
}

#[test]
fn history_yields_newest_first() {
    let mut history = History::new();
    history.append("ls ".to_string());
    history.append("cd /tmp".to_string());
    assert_eq!(history.commands, vec!["ls ", "cd /tmp"]);
    assert_eq!(history.next(), Some("cd /tmp".to_string()));
    assert_eq!(history.next(), Some("ls ".to_string()));
    assert_eq!(history.next(), None);
}

#[test]
fn interpret_exit_and_quit() {
    assert!(matches!(interpret("exit".to_string()), LineStep::Quit));
    assert!(matches!(interpret("  quit\n".to_string()), LineStep::Quit));
    assert!(matches!(interpret("\u{a0}exit\t".to_string()), LineStep::Quit));
    assert!(matches!(interpret("exit now".to_string()), LineStep::Execute(_)));
    assert!(matches!(interpret("exits".to_string()), LineStep::Execute(_)));
}

#[test]
fn interpret_runs_or_rejects() {
    match interpret("ls -l\n".to_string()) {
        LineStep::Execute(cmd) => {
            assert_eq!(cmd.get_name(), "ls");
            assert_eq!(cmd.to_string(), "ls -l");
        }
        _ => panic!("expected a command"),
    }
    match interpret("\n".to_string()) {
        LineStep::Reject(msg) => assert_eq!(msg, "Expected command, got: "),
        _ => panic!("expected a rejection"),
    }
}

#[test]
fn system_command_starts_empty() {
    let cmd = SystemCommand::new("ls".to_string());
    assert_eq!(cmd.name, "ls");
    assert!(cmd.args.is_empty());
    assert!(cmd.flags.is_empty());
    assert!(cmd.io_redirection.from.is_none());
}

#[test]
fn pipeline_run_last_stage_failure_and_signal() {
    let mut run = PipelineRun::new(vec![invocation("a", &[]), invocation("b", &[])]);
    run.next_spawn().unwrap();
    run.record(StageEvent::Exited { code: Some(0), output: Vec::new() });
    run.next_spawn().unwrap();
    run.record(StageEvent::Exited { code: None, output: Vec::new() });
    let err = run.outcome.unwrap().err().unwrap();
    assert_eq!(err.to_string(), "Pipeline failed with status: -1");
}

#[test]
fn interpret_line_led_by_form_feed() {
    match interpret("\u{c} ls".to_string()) {
        LineStep::Execute(cmd) => assert_eq!(cmd.get_name(), "ls"),
        _ => panic!("expected a command"),
    }
}
