use dss::command::lexer::Lexer;
use dss::command::parser::{fd_text, ExecuteMode, OpType, ParseResult, Parser};
use dss::command::token::Token;
use dss::errors::ShellError;

fn check(tokens: &Vec<Token>) -> Result<Vec<ParseResult>, ShellError> {
    let mut parser = Parser::new(tokens);
    let mut results = vec![];
    while let Some(parse_result) = parser.get_command()? {
        results.push(parse_result);
    }
    Ok(results)
}

fn get_tokens(input_str: &str) -> Result<Lexer, ShellError> {
    let mut lexer = Lexer::new();
    lexer.scan(input_str)?;
    Ok(lexer)
}

fn parse(input_str: &str) -> Vec<ParseResult> {
    let lexer = get_tokens(input_str).expect("lexer failed, check lexer tests");
    check(&lexer.tokens).expect("parser failed :(")
}

fn words(r: &ParseResult, i: usize) -> Vec<String> {
    r.cmds[i].tokens.iter().map(|t| t.lexeme.clone()).collect()
}

fn assert_single(r: &ParseResult, expected_words: &[&str], op: Option<OpType>) {
    assert_eq!(r.cmds.len(), 1);
    assert_eq!(words(r, 0), expected_words);
    assert_eq!(r.cmds[0].path, expected_words[0]);
    assert!(matches!(r.execute_mode, ExecuteMode::Normal));
    assert!(!r.exit_term);
    assert_eq!(r.associated_operator, op);
}

fn assert_redirect(r: &ParseResult, expected_words: &[&str], file: &str, op: OpType) {
    assert_eq!(r.cmds.len(), 2);
    assert_eq!(words(r, 0), expected_words);
    assert_eq!(words(r, 1), vec![file.to_string()]);
    assert_eq!(r.cmds[1].path, file);
    assert!(!r.cmds[1].negate_exit_status);
    assert_eq!(r.associated_operator, Some(op));
}

#[test]
fn test_simple_cmd_parsing() {
    let results = parse("ls\n");
    assert_eq!(results.len(), 1);
    assert_single(&results[0], &["ls"], None);
    assert!(results[0].cmds[0].is_unqualified_path);
    assert!(!results[0].cmds[0].negate_exit_status);
}

#[test]
fn test_cmd_with_args_parsing() {
    let results = parse("ls -la\n");
    assert_eq!(results.len(), 1);
    assert_single(&results[0], &["ls", "-la"], None);
}

#[test]
fn test_cmd_parsing_with_unqualified_path() {
    let results = parse("./ls -la\n");
    assert_eq!(results.len(), 1);
    assert_single(&results[0], &["./ls", "-la"], None);
    assert!(!results[0].cmds[0].is_unqualified_path);
}

#[test]
fn test_cmd_parsing_with_semicolon_separator() {
    let results = parse("ls -la ; echo foo\n");
    assert_eq!(results.len(), 2);
    assert_single(&results[0], &["ls", "-la"], Some(OpType::Semicolon));
    assert_single(&results[1], &["echo", "foo"], None);
}

#[test]
fn test_cmd_parsing_with_or_if_separator() {
    let results = parse("ls -la || echo foo\n");
    assert_eq!(results.len(), 2);
    assert_single(&results[0], &["ls", "-la"], Some(OpType::OrIf));
    assert_single(&results[1], &["echo", "foo"], None);
}

#[test]
fn test_cmd_parsing_with_and_if_separator() {
    let results = parse("ls -la && ./echo foo\n");
    assert_eq!(results.len(), 2);
    assert_single(&results[0], &["ls", "-la"], Some(OpType::AndIf));
    assert_single(&results[1], &["./echo", "foo"], None);
    assert!(results[0].cmds[0].is_unqualified_path);
    assert!(!results[1].cmds[0].is_unqualified_path);
}

#[test]
fn parser_test_cmd_parsing_with_multiple_separators() {
    let results = parse("false && echo foo || echo bar\n");
    assert_eq!(results.len(), 3);
    assert_single(&results[0], &["false"], Some(OpType::AndIf));
    assert_single(&results[1], &["echo", "foo"], Some(OpType::OrIf));
    assert_single(&results[2], &["echo", "bar"], None);
}

#[test]
fn test_cmd_parsing_of_exit_term() {
    let results = parse("ls -la && exit\n");
    assert_eq!(results.len(), 2);
    assert_single(&results[0], &["ls", "-la"], Some(OpType::AndIf));
    assert!(results[1].exit_term);
    assert_eq!(results[1].cmds.len(), 0);
    assert_eq!(results[1].associated_operator, None);
}

#[test]
fn test_cmd_parsing_of_subshell() {
    let results = parse("(ls && exit)\n");
    assert_eq!(results.len(), 1);
    match &results[0].execute_mode {
        ExecuteMode::Subshell(tokens) => {
            let lexemes: Vec<&str> = tokens.iter().map(|t| t.lexeme.as_str()).collect();
            assert_eq!(lexemes, vec!["ls", "&&", "exit"]);
        }
        ExecuteMode::Normal => panic!("expected a subshell unit"),
    }
    assert!(!results[0].exit_term);
    assert_eq!(results[0].associated_operator, None);

    let results = parse("(ls && exit) && ls\n");
    assert_eq!(results.len(), 2);
    assert!(matches!(results[0].execute_mode, ExecuteMode::Subshell(_)));
    assert_eq!(results[0].associated_operator, Some(OpType::AndIf));
    assert_single(&results[1], &["ls"], None);
}

#[test]
fn test_cmd_parsing_of_pipe_ops() {
    let results = parse("echo foo | cat | cat\n");
    assert_eq!(results.len(), 3);
    assert_single(&results[0], &["echo", "foo"], Some(OpType::Pipe));
    assert_single(&results[1], &["cat"], Some(OpType::Pipe));
    assert_single(&results[2], &["cat"], None);
}

#[test]
fn test_cmd_parsing_of_redirection_ops_with_fd() {
    let results = parse("ls -6 2> file.txt\n");
    assert_eq!(results.len(), 1);
    assert_redirect(&results[0], &["ls", "-6"], "file.txt", OpType::RedirectOutput(Some(2)));
}

#[test]
fn test_cmd_parsing_of_redirection_ops_without_fd() {
    // `-6` reads as a descriptor number, as any i32 literal does.
    let results = parse("ls -6> file.txt\n");
    assert_eq!(results.len(), 1);
    assert_redirect(&results[0], &["ls"], "file.txt", OpType::RedirectOutput(Some(-6)));
}

#[test]
fn test_cmd_parsing_of_redirection_append_ops_without_fd() {
    let results = parse("ls -la >> file.txt\n");
    assert_eq!(results.len(), 1);
    assert_redirect(&results[0], &["ls", "-la"], "file.txt", OpType::RedirectAppendOutput(None));
}

#[test]
fn test_cmd_parsing_of_redirection_append_ops_with_fd() {
    let results = parse("ls -la 2>> file.txt\n");
    assert_eq!(results.len(), 1);
    assert_redirect(&results[0], &["ls", "-la"], "file.txt", OpType::RedirectAppendOutput(Some(2)));
}

#[test]
fn test_cmd_parsing_of_redirection_read_write_ops_without_fd() {
    let results = parse("ls -la <> file.txt\n");
    assert_eq!(results.len(), 1);
    assert_redirect(&results[0], &["ls", "-la"], "file.txt", OpType::RedirectReadWrite(None));
}

#[test]
fn test_cmd_parsing_of_redirection_read_write_ops_with_fd() {
    let results = parse("ls -la 2<> file.txt\n");
    assert_eq!(results.len(), 1);
    assert_redirect(&results[0], &["ls", "-la"], "file.txt", OpType::RedirectReadWrite(Some(2)));
}

#[test]
fn test_cmd_parsing_of_redirection_squirrel_output_ops_with_fd() {
    let results = parse("ls /tmp/ doesnotexist 2&>1\n");
    assert_eq!(results.len(), 1);
    assert_single(
        &results[0],
        &["ls", "/tmp/", "doesnotexist"],
        Some(OpType::RedirectSquirrelOutput { source: Some(1), target: Some(2) }),
    );
}

#[test]
fn test_cmd_parsing_of_redirection_squirrel_output_ops_without_fd() {
    let results = parse("ls /tmp/ doesnotexist &>1\n");
    assert_eq!(results.len(), 1);
    assert_single(
        &results[0],
        &["ls", "/tmp/", "doesnotexist"],
        Some(OpType::RedirectSquirrelOutput { source: Some(1), target: None }),
    );
}

#[test]
fn test_cmd_parsing_of_redirection_squirrel_output_ops_with_minus() {
    let results = parse("ls /tmp/ doesnotexist &>1\n");
    assert_eq!(results.len(), 1);
    assert_single(
        &results[0],
        &["ls", "/tmp/", "doesnotexist"],
        Some(OpType::RedirectSquirrelOutput { source: Some(1), target: None }),
    );

    let results = parse("ls 2&>-\n");
    assert_eq!(results.len(), 1);
    assert_single(&results[0], &["ls"], Some(OpType::RedirectSquirrelOutput { source: None, target: Some(2) }));
}

#[test]
fn test_cmd_parsing_of_redirection_squirrel_input_ops_with_fd() {
    let results = parse("ls 0<&1\n");
    assert_eq!(results.len(), 1);
    assert_single(&results[0], &["ls"], Some(OpType::RedirectSquirrelInput { source: Some(1), target: Some(0) }));
}

#[test]
fn test_cmd_parsing_of_redirection_squirrel_input_ops_without_fd() {
    let results = parse("ls <&1\n");
    assert_eq!(results.len(), 1);
    assert_single(&results[0], &["ls"], Some(OpType::RedirectSquirrelInput { source: Some(1), target: None }));
}

#[test]
fn test_cmd_parsing_for_bg_process_invocation() {
    let results = parse("ping google.com &\n");
    assert_eq!(results.len(), 1);
    assert_single(&results[0], &["ping", "google.com"], Some(OpType::Background));
}

#[test]
fn negation_marks_the_command() {
    let results = parse("! ls -la && echo foo\n");
    assert_eq!(results.len(), 2);
    assert_single(&results[0], &["ls", "-la"], Some(OpType::AndIf));
    assert!(results[0].cmds[0].negate_exit_status);
    assert!(!results[1].cmds[0].negate_exit_status);
}

#[test]
fn exclamation_after_a_word_is_an_error() {
    let lexer = get_tokens("ls ! foo\n").expect("lexes");
    assert!(matches!(check(&lexer.tokens), Err(ShellError::ParseError(_))));
}

#[test]
fn unmatched_parentheses_are_errors() {
    let lexer = get_tokens("(ls\n").expect("lexes");
    assert!(matches!(check(&lexer.tokens), Err(ShellError::ParseError(_))));
    let lexer = get_tokens("ls)\n").expect("lexes");
    assert!(matches!(check(&lexer.tokens), Err(ShellError::ParseError(_))));
}

#[test]
fn nested_subshell_keeps_inner_parentheses() {
    let results = parse("(ls && (pwd))\n");
    assert_eq!(results.len(), 1);
    match &results[0].execute_mode {
        ExecuteMode::Subshell(tokens) => {
            let lexemes: Vec<&str> = tokens.iter().map(|t| t.lexeme.as_str()).collect();
            assert_eq!(lexemes, vec!["ls", "&&", "(", "pwd", ")"]);
        }
        ExecuteMode::Normal => panic!("expected a subshell unit"),
    }
}

#[test]
fn squirrel_needs_fd_or_minus() {
    let lexer = get_tokens("ls &> file\n").expect("lexes");
    assert!(matches!(check(&lexer.tokens), Err(ShellError::ParseError(_))));
    let lexer = get_tokens("ls &>\n").expect("lexes");
    assert!(matches!(check(&lexer.tokens), Err(ShellError::ParseError(_))));
}

#[test]
fn redirection_needs_a_file() {
    let lexer = get_tokens("ls >\n").expect("lexes");
    assert!(matches!(check(&lexer.tokens), Err(ShellError::ParseError(_))));
}

#[test]
fn missing_command_path_is_internal_error() {
    let lexer = get_tokens("&& ls\n").expect("lexes");
    assert!(matches!(check(&lexer.tokens), Err(ShellError::InternalError(_))));
    let lexer = get_tokens("> file\n").expect("lexes");
    assert!(matches!(check(&lexer.tokens), Err(ShellError::InternalError(_))));
}

#[test]
fn exit_alone_is_an_exit_unit() {
    let results = parse("exit\n");
    assert_eq!(results.len(), 1);
    assert!(results[0].exit_term);
    assert!(results[0].cmds.is_empty());
}

#[test]
fn redirect_with_explicit_fd_from_append() {
    let results = parse("ls 2>> file.txt\n");
    assert_eq!(results.len(), 1);
    assert_redirect(&results[0], &["ls"], "file.txt", OpType::RedirectAppendOutput(Some(2)));
}

#[test]
fn redirect_output_defaults() {
    let results = parse("ls > file.txt\n");
    assert_eq!(results.len(), 1);
    assert_redirect(&results[0], &["ls"], "file.txt", OpType::RedirectOutput(None));
}

#[test]
fn operators_read_as_written() {
    assert_eq!(OpType::RedirectOutput(Some(2)).to_text(), "2>");
    assert_eq!(OpType::RedirectOutput(None).to_text(), ">");
    assert_eq!(OpType::RedirectInput(None).to_text(), "<");
    assert_eq!(OpType::RedirectAppendOutput(Some(6)).to_text(), "6>>");
    assert_eq!(OpType::RedirectReadWrite(Some(-6)).to_text(), "-6<>");
    assert_eq!(OpType::RedirectSquirrelOutput { source: Some(1), target: Some(2) }.to_text(), "2&>1");
    assert_eq!(OpType::RedirectSquirrelOutput { source: None, target: Some(2) }.to_text(), "2&>-");
    assert_eq!(OpType::RedirectSquirrelInput { source: Some(1), target: None }.to_text(), "<&1");
    assert_eq!(OpType::Pipe.to_text(), "|");
    assert_eq!(OpType::Background.to_text(), "&");
    assert_eq!(OpType::AndIf.to_text(), "&&");
    assert_eq!(fd_text(0), "0");
    assert_eq!(fd_text(120), "120");
    assert_eq!(fd_text(-2147483648), "-2147483648");
    assert_eq!(fd_text(2147483647), "2147483647");
}

#[test]
fn parse_error_messages() {
    let lexer = get_tokens("ls ! foo\n").expect("lexes");
    match check(&lexer.tokens) {
        Err(ShellError::ParseError(m)) => assert_eq!(m, "! found in invalid place"),
        other => panic!("expected a parse error, got {:?}", other.map(|r| r.len())),
    }
    let lexer = get_tokens("ls &> foo\n").expect("lexes");
    match check(&lexer.tokens) {
        Err(ShellError::ParseError(m)) => {
            assert_eq!(m, "expected file descriptor or minus after squirrel redirection operator")
        }
        other => panic!("expected a parse error, got {:?}", other.map(|r| r.len())),
    }
    let results = parse("ls &> -\n");
    assert_eq!(
        results[0].associated_operator,
        Some(OpType::RedirectSquirrelOutput { source: None, target: None })
    );
}
