use shell::tokenizer::{TokenType, Tokenizer};

#[test]
fn test_basic_command() {
    let mut tokenizer = Tokenizer::new("ls -l".to_string());
    tokenizer.scan_tokens();

    assert_eq!(tokenizer.tokens.len(), 3);
    assert_eq!(tokenizer.tokens[0].kind, TokenType::Cmd);
    assert_eq!(tokenizer.tokens[0].lexeme, "ls");
    assert_eq!(tokenizer.tokens[1].kind, TokenType::Flag);
    assert_eq!(tokenizer.tokens[1].lexeme, "-l");
    assert_eq!(tokenizer.tokens[2].kind, TokenType::Eof);
}

#[test]
fn test_command_with_args() {
    let mut tokenizer = Tokenizer::new("cp file1.txt file2.txt".to_string());
    tokenizer.scan_tokens();

    assert_eq!(tokenizer.tokens.len(), 4);
    assert_eq!(tokenizer.tokens[0].kind, TokenType::Cmd);
    assert_eq!(tokenizer.tokens[0].lexeme, "cp");
    assert_eq!(tokenizer.tokens[1].kind, TokenType::Arg);
    assert_eq!(tokenizer.tokens[1].lexeme, "file1.txt");
    assert_eq!(tokenizer.tokens[2].kind, TokenType::Arg);
    assert_eq!(tokenizer.tokens[2].lexeme, "file2.txt");
    assert_eq!(tokenizer.tokens[3].kind, TokenType::Eof);
}

#[test]
fn test_command_with_flags_and_args() {
    let mut tokenizer = Tokenizer::new("grep -r pattern /path/to/dir".to_string());
    tokenizer.scan_tokens();

    assert_eq!(tokenizer.tokens.len(), 5);
    assert_eq!(tokenizer.tokens[0].kind, TokenType::Cmd);
    assert_eq!(tokenizer.tokens[0].lexeme, "grep");
    assert_eq!(tokenizer.tokens[1].kind, TokenType::Flag);
    assert_eq!(tokenizer.tokens[1].lexeme, "-r");
    assert_eq!(tokenizer.tokens[2].kind, TokenType::Arg);
    assert_eq!(tokenizer.tokens[2].lexeme, "pattern");
    assert_eq!(tokenizer.tokens[3].kind, TokenType::Arg);
    assert_eq!(tokenizer.tokens[3].lexeme, "/path/to/dir");
    assert_eq!(tokenizer.tokens[4].kind, TokenType::Eof);
}

#[test]
fn test_long_flags() {
    let mut tokenizer = Tokenizer::new("cp --hello-world --format=json file.txt".to_string());
    tokenizer.scan_tokens();

    assert_eq!(tokenizer.tokens.len(), 5);
    assert_eq!(tokenizer.tokens[0].kind, TokenType::Cmd);
    assert_eq!(tokenizer.tokens[0].lexeme, "cp");
    assert_eq!(tokenizer.tokens[1].kind, TokenType::LongFlag);
    assert_eq!(tokenizer.tokens[1].lexeme, "--hello-world");
    assert_eq!(tokenizer.tokens[2].kind, TokenType::LongFlagWithValue);
    assert_eq!(tokenizer.tokens[2].lexeme, "--format=json");
    assert_eq!(tokenizer.tokens[3].kind, TokenType::Arg);
    assert_eq!(tokenizer.tokens[3].lexeme, "file.txt");
    assert_eq!(tokenizer.tokens[4].kind, TokenType::Eof);
}

#[test]
fn test_long_flags_with_quoted_values() {
    let mut tokenizer = Tokenizer::new(r#"cp --format="json with spaces" file.txt"#.to_string());
    tokenizer.scan_tokens();

    assert_eq!(tokenizer.tokens.len(), 4);
    assert_eq!(tokenizer.tokens[0].kind, TokenType::Cmd);
    assert_eq!(tokenizer.tokens[0].lexeme, "cp");
    assert_eq!(tokenizer.tokens[1].kind, TokenType::LongFlagWithValue);
    assert_eq!(tokenizer.tokens[1].lexeme, "--format=json with spaces");
    assert_eq!(tokenizer.tokens[2].kind, TokenType::Arg);
    assert_eq!(tokenizer.tokens[2].lexeme, "file.txt");
    assert_eq!(tokenizer.tokens[3].kind, TokenType::Eof);
}

#[test]
fn test_pipe_operator() {
    let mut tokenizer = Tokenizer::new("ls -l | grep pattern".to_string());
    tokenizer.scan_tokens();

    assert_eq!(tokenizer.tokens.len(), 6);
    assert_eq!(tokenizer.tokens[0].kind, TokenType::Cmd);
    assert_eq!(tokenizer.tokens[0].lexeme, "ls");
    assert_eq!(tokenizer.tokens[1].kind, TokenType::Flag);
    assert_eq!(tokenizer.tokens[1].lexeme, "-l");
    assert_eq!(tokenizer.tokens[2].kind, TokenType::Pipe);
    assert_eq!(tokenizer.tokens[2].lexeme, "|");
    assert_eq!(tokenizer.tokens[3].kind, TokenType::Cmd);
    assert_eq!(tokenizer.tokens[3].lexeme, "grep");
    assert_eq!(tokenizer.tokens[4].kind, TokenType::Arg);
    assert_eq!(tokenizer.tokens[4].lexeme, "pattern");
    assert_eq!(tokenizer.tokens[5].kind, TokenType::Eof);
}

#[test]
fn test_redirection_operators() {
    let mut tokenizer = Tokenizer::new("cat < input.txt > output.txt".to_string());
    tokenizer.scan_tokens();

    assert_eq!(tokenizer.tokens.len(), 6);
    assert_eq!(tokenizer.tokens[0].kind, TokenType::Cmd);
    assert_eq!(tokenizer.tokens[0].lexeme, "cat");
    assert_eq!(tokenizer.tokens[1].kind, TokenType::InputRedir);
    assert_eq!(tokenizer.tokens[1].lexeme, "<");
    assert_eq!(tokenizer.tokens[2].kind, TokenType::Arg);
    assert_eq!(tokenizer.tokens[2].lexeme, "input.txt");
    assert_eq!(tokenizer.tokens[3].kind, TokenType::OutputRedir);
    assert_eq!(tokenizer.tokens[3].lexeme, ">");
    assert_eq!(tokenizer.tokens[4].kind, TokenType::Arg);
    assert_eq!(tokenizer.tokens[4].lexeme, "output.txt");
    assert_eq!(tokenizer.tokens[5].kind, TokenType::Eof);
}

#[test]
fn test_background_operator() {
    let mut tokenizer = Tokenizer::new("sleep 10 &".to_string());
    tokenizer.scan_tokens();

    assert_eq!(tokenizer.tokens.len(), 4);
    assert_eq!(tokenizer.tokens[0].kind, TokenType::Cmd);
    assert_eq!(tokenizer.tokens[0].lexeme, "sleep");
    assert_eq!(tokenizer.tokens[1].kind, TokenType::Arg);
    assert_eq!(tokenizer.tokens[1].lexeme, "10");
    assert_eq!(tokenizer.tokens[2].kind, TokenType::Background);
    assert_eq!(tokenizer.tokens[2].lexeme, "&");
    assert_eq!(tokenizer.tokens[3].kind, TokenType::Eof);
}

#[test]
fn test_complex_command() {
    let mut tokenizer = Tokenizer::new("cat file.txt | grep pattern > output.txt &".to_string());
    tokenizer.scan_tokens();

    assert_eq!(tokenizer.tokens.len(), 9);
    assert_eq!(tokenizer.tokens[0].kind, TokenType::Cmd);
    assert_eq!(tokenizer.tokens[0].lexeme, "cat");
    assert_eq!(tokenizer.tokens[1].kind, TokenType::Arg);
    assert_eq!(tokenizer.tokens[1].lexeme, "file.txt");
    assert_eq!(tokenizer.tokens[2].kind, TokenType::Pipe);
    assert_eq!(tokenizer.tokens[2].lexeme, "|");
    assert_eq!(tokenizer.tokens[3].kind, TokenType::Cmd);
    assert_eq!(tokenizer.tokens[3].lexeme, "grep");
    assert_eq!(tokenizer.tokens[4].kind, TokenType::Arg);
    assert_eq!(tokenizer.tokens[4].lexeme, "pattern");
    assert_eq!(tokenizer.tokens[5].kind, TokenType::OutputRedir);
    assert_eq!(tokenizer.tokens[5].lexeme, ">");
    assert_eq!(tokenizer.tokens[6].kind, TokenType::Arg);
    assert_eq!(tokenizer.tokens[6].lexeme, "output.txt");
    assert_eq!(tokenizer.tokens[7].kind, TokenType::Background);
    assert_eq!(tokenizer.tokens[7].lexeme, "&");
    assert_eq!(tokenizer.tokens[8].kind, TokenType::Eof);
}

fn scan(line: &str) -> Vec<(TokenType, String)> {
    let mut tokenizer = Tokenizer::new(line.to_string());
    tokenizer.scan_tokens();
    tokenizer.into_tokens().into_iter().map(|t| (t.kind, t.lexeme)).collect()
}

fn assert_well_ended(tokens: &[(TokenType, String)]) {
    let (last_kind, last_lexeme) = tokens.last().unwrap();
    assert_eq!(*last_kind, TokenType::Eof);
    assert_eq!(last_lexeme, "");
    for (kind, lexeme) in &tokens[..tokens.len() - 1] {
        assert_ne!(*kind, TokenType::Eof);
        assert!(!lexeme.is_empty());
    }
}

#[test]
fn scan_always_ends_with_one_empty_end_token() {
    for line in [
        "",
        "   \t\r\n",
        "ls -l | grep x",
        "- -- --= | | < > &",
        "\u{b}",
        "\u{a0}ls \u{2003}",
        "--a=\"\" \"\"",
        "x=\"unterminated value",
    ] {
        assert_well_ended(&scan(line));
    }
}

#[test]
fn scan_empty_line_is_only_the_end() {
    assert_eq!(scan(""), vec![(TokenType::Eof, String::new())]);
    assert_eq!(scan(" \t "), vec![(TokenType::Eof, String::new())]);
}

#[test]
fn scan_resets_command_name_after_each_pipe() {
    let tokens = scan("a b | c d | e");
    let kinds: Vec<TokenType> = tokens.iter().map(|t| t.0).collect();
    assert_eq!(
        kinds,
        vec![
            TokenType::Cmd,
            TokenType::Arg,
            TokenType::Pipe,
            TokenType::Cmd,
            TokenType::Arg,
            TokenType::Pipe,
            TokenType::Cmd,
            TokenType::Eof
        ]
    );
}

#[test]
fn scan_trims_unicode_whitespace_from_words() {
    let tokens = scan("\u{a0}ls x");
    assert_eq!(tokens[0], (TokenType::Cmd, "ls".to_string()));
    assert_eq!(tokens[1], (TokenType::Arg, "x".to_string()));
}

#[test]
fn scan_suppressed_word_leaves_the_command_slot_free() {
    let tokens = scan("\u{b} ls");
    assert_eq!(tokens, vec![(TokenType::Cmd, "ls".to_string()), (TokenType::Eof, String::new())]);
    let tokens = scan("\u{c} ls -l | \u{a0} grep x");
    let kinds: Vec<TokenType> = tokens.iter().map(|t| t.0).collect();
    assert_eq!(
        kinds,
        vec![
            TokenType::Cmd,
            TokenType::Flag,
            TokenType::Pipe,
            TokenType::Cmd,
            TokenType::Arg,
            TokenType::Eof
        ]
    );
}

#[test]
fn scan_value_strips_quotes_then_whitespace() {
    assert_eq!(scan("--f=\" x \"")[0], (TokenType::LongFlagWithValue, "--f=x".to_string()));
    assert_eq!(scan("--f=\"\"\"a\"")[0], (TokenType::LongFlagWithValue, "--f=a".to_string()));
    assert_eq!(scan("--f= y")[0], (TokenType::LongFlagWithValue, "--f=".to_string()));
}

#[test]
fn scan_lone_dashes_are_flags() {
    let tokens = scan("- --");
    assert_eq!(tokens[0], (TokenType::Flag, "-".to_string()));
    assert_eq!(tokens[1], (TokenType::LongFlag, "--".to_string()));
}

#[test]
fn scan_word_starting_with_other_character() {
    let tokens = scan("echo 'Hello, World!'");
    let lexemes: Vec<&str> = tokens.iter().map(|t| t.1.as_str()).collect();
    assert_eq!(lexemes, vec!["echo", "'Hello", ",", "World", "!", "'", ""]);
}
