use dss::command::lexer::Lexer;
use dss::command::token::{Keyword, Operator, Token, TokenType, Word};
use dss::errors::{LexError, ShellError};

fn check(input_str: &str) -> Vec<Token> {
    let mut lexer = Lexer::new();
    lexer.scan(input_str).expect("lexing should have succeeded")
}

fn text() -> TokenType {
    TokenType::Word(Word::Text)
}

fn op(o: Operator) -> TokenType {
    TokenType::Operator(o)
}

fn assert_tokens(tokens: &[Token], expected: &[(&str, TokenType, usize, usize, usize)]) {
    assert_eq!(tokens.len(), expected.len(), "tokens: {:?}", tokens);
    for (t, (lexeme, kind, line, start, end)) in tokens.iter().zip(expected.iter()) {
        assert_eq!(t.lexeme, *lexeme);
        assert_eq!(t.token_type, *kind, "token {:?}", t);
        assert_eq!(t.line, *line, "token {:?}", t);
        assert_eq!(t.range, (*start, *end), "token {:?}", t);
    }
}

#[test]
fn test_simple_cmd_lexing() {
    let tokens = check("ls\n");
    assert_tokens(&tokens, &[("ls", text(), 0, 0, 1)]);
}

#[test]
fn test_cmd_with_args_lexing() {
    let tokens = check("ls -la\n");
    assert_tokens(&tokens, &[("ls", text(), 0, 0, 1), ("-la", text(), 0, 3, 5)]);
}

#[test]
fn test_cmd_lexing_of_semicolon_separator() {
    let tokens = check("ls -la ; echo foo\n");
    assert_tokens(
        &tokens,
        &[
            ("ls", text(), 0, 0, 1),
            ("-la", text(), 0, 3, 5),
            (";", op(Operator::Semicolon), 0, 7, 7),
            ("echo", text(), 0, 9, 12),
            ("foo", text(), 0, 14, 16),
        ],
    );

    let tokens = check("ls -la; echo foo\n");
    assert_tokens(
        &tokens,
        &[
            ("ls", text(), 0, 0, 1),
            ("-la", text(), 0, 3, 5),
            (";", op(Operator::Semicolon), 0, 6, 6),
            ("echo", text(), 0, 8, 11),
            ("foo", text(), 0, 13, 15),
        ],
    );
}

#[test]
fn test_cmd_lexing_of_logical_or() {
    let tokens = check("ls -la || echo foo\n");
    assert_tokens(
        &tokens,
        &[
            ("ls", text(), 0, 0, 1),
            ("-la", text(), 0, 3, 5),
            ("||", op(Operator::OrIf), 0, 7, 8),
            ("echo", text(), 0, 10, 13),
            ("foo", text(), 0, 15, 17),
        ],
    );

    let tokens = check("ls -la|| echo foo\n");
    assert_tokens(
        &tokens,
        &[
            ("ls", text(), 0, 0, 1),
            ("-la", text(), 0, 3, 5),
            ("||", op(Operator::OrIf), 0, 6, 7),
            ("echo", text(), 0, 9, 12),
            ("foo", text(), 0, 14, 16),
        ],
    );
}

#[test]
fn test_cmd_lexing_of_logical_and() {
    let tokens = check("ls -la && echo foo\n");
    assert_tokens(
        &tokens,
        &[
            ("ls", text(), 0, 0, 1),
            ("-la", text(), 0, 3, 5),
            ("&&", op(Operator::AndIf), 0, 7, 8),
            ("echo", text(), 0, 10, 13),
            ("foo", text(), 0, 15, 17),
        ],
    );

    let tokens = check("ls -la &&echo foo\n");
    assert_tokens(
        &tokens,
        &[
            ("ls", text(), 0, 0, 1),
            ("-la", text(), 0, 3, 5),
            ("&&", op(Operator::AndIf), 0, 7, 8),
            ("echo", text(), 0, 9, 12),
            ("foo", text(), 0, 14, 16),
        ],
    );
}

#[test]
fn test_cmd_lexing_with_multiple_separators() {
    let tokens = check("false && echo foo || echo bar\n");
    assert_tokens(
        &tokens,
        &[
            ("false", text(), 0, 0, 4),
            ("&&", op(Operator::AndIf), 0, 6, 7),
            ("echo", text(), 0, 9, 12),
            ("foo", text(), 0, 14, 16),
            ("||", op(Operator::OrIf), 0, 18, 19),
            ("echo", text(), 0, 21, 24),
            ("bar", text(), 0, 26, 28),
        ],
    );
}

#[test]
fn test_cmd_lexing_of_negate_exit_status() {
    let tokens = check("! ls -la && echo foo\n");
    assert_tokens(
        &tokens,
        &[
            ("!", op(Operator::Exclamation), 0, 0, 0),
            ("ls", text(), 0, 2, 3),
            ("-la", text(), 0, 5, 7),
            ("&&", op(Operator::AndIf), 0, 9, 10),
            ("echo", text(), 0, 12, 15),
            ("foo", text(), 0, 17, 19),
        ],
    );
}

#[test]
fn test_lexing_of_subshell_cmds() {
    let tokens = check("(! ls -la)&& echo foo\n");
    assert_tokens(
        &tokens,
        &[
            ("(", TokenType::LeftParen, 0, 0, 0),
            ("!", op(Operator::Exclamation), 0, 1, 1),
            ("ls", text(), 0, 3, 4),
            ("-la", text(), 0, 6, 8),
            (")", TokenType::RightParen, 0, 9, 9),
            ("&&", op(Operator::AndIf), 0, 10, 11),
            ("echo", text(), 0, 13, 16),
            ("foo", text(), 0, 18, 20),
        ],
    );
}

#[test]
fn test_lexing_of_cmd_with_keyword() {
    let tokens = check("ls -la&& exit\n");
    assert_tokens(
        &tokens,
        &[
            ("ls", text(), 0, 0, 1),
            ("-la", text(), 0, 3, 5),
            ("&&", op(Operator::AndIf), 0, 6, 7),
            ("exit", TokenType::Word(Word::Keyword(Keyword::Exit)), 0, 9, 12),
        ],
    );
}

#[test]
fn test_lexing_of_cmd_cd_dot_dot() {
    let tokens = check("cd ..\n");
    assert_tokens(&tokens, &[("cd", text(), 0, 0, 1), ("..", text(), 0, 3, 4)]);
}

#[test]
fn test_lexing_of_cmd_with_unqualified_path() {
    let tokens = check("./ls\n");
    assert_tokens(&tokens, &[("./ls", text(), 0, 0, 3)]);
}

#[test]
fn test_lexing_of_backslash() {
    let tokens = check("echo \\\nfoo\n");
    assert_tokens(
        &tokens,
        &[("echo", text(), 0, 0, 3), ("\\", TokenType::Backslash, 0, 5, 5), ("foo", text(), 1, 0, 2)],
    );
}

#[test]
fn test_lexing_of_pipe_op() {
    let tokens = check("echo foo | cat | cat\n");
    assert_tokens(
        &tokens,
        &[
            ("echo", text(), 0, 0, 3),
            ("foo", text(), 0, 5, 7),
            ("|", op(Operator::Or), 0, 9, 9),
            ("cat", text(), 0, 11, 13),
            ("|", op(Operator::Or), 0, 15, 15),
            ("cat", text(), 0, 17, 19),
        ],
    );
}

#[test]
fn test_lexing_of_pipe_op_with_redirection_with_fd() {
    let tokens = check("ls -6 2> file.txt\n");
    assert_tokens(
        &tokens,
        &[
            ("ls", text(), 0, 0, 1),
            ("-6", text(), 0, 3, 4),
            ("2", text(), 0, 6, 6),
            (">", op(Operator::RightPointyBracket), 0, 7, 7),
            ("file.txt", text(), 0, 9, 16),
        ],
    );
}

#[test]
fn test_lexing_of_redirection_without_fd() {
    let tokens = check("ls > file.txt\n");
    assert_tokens(
        &tokens,
        &[
            ("ls", text(), 0, 0, 1),
            (">", op(Operator::RightPointyBracket), 0, 3, 3),
            ("file.txt", text(), 0, 5, 12),
        ],
    );
}

#[test]
fn test_lexing_of_redirection_op_append_with_fd() {
    let tokens = check("ls 6>> file.txt\n");
    assert_tokens(
        &tokens,
        &[
            ("ls", text(), 0, 0, 1),
            ("6", text(), 0, 3, 3),
            (">>", op(Operator::DoubleRightPointyBracket), 0, 4, 5),
            ("file.txt", text(), 0, 7, 14),
        ],
    );
}

#[test]
fn test_lexing_of_redirection_op_append_without_fd() {
    let tokens = check("ls >> file.txt\n");
    assert_tokens(
        &tokens,
        &[
            ("ls", text(), 0, 0, 1),
            (">>", op(Operator::DoubleRightPointyBracket), 0, 3, 4),
            ("file.txt", text(), 0, 6, 13),
        ],
    );
}

#[test]
fn test_lexing_of_redirection_op_diamond_without_fd() {
    let tokens = check("ls <> file.txt\n");
    assert_tokens(
        &tokens,
        &[
            ("ls", text(), 0, 0, 1),
            ("<>", op(Operator::DiamondPointyBrackets), 0, 3, 4),
            ("file.txt", text(), 0, 6, 13),
        ],
    );
}

#[test]
fn test_lexing_of_redirection_op_diamond_with_fd() {
    let tokens = check("ls 2<> file.txt\n");
    assert_tokens(
        &tokens,
        &[
            ("ls", text(), 0, 0, 1),
            ("2", text(), 0, 3, 3),
            ("<>", op(Operator::DiamondPointyBrackets), 0, 4, 5),
            ("file.txt", text(), 0, 7, 14),
        ],
    );
}

#[test]
fn test_lexing_of_squirrel_output_op_with_fd() {
    let tokens = check("ls /tmp/ doesnotexist 2&>1\n");
    assert_tokens(
        &tokens,
        &[
            ("ls", text(), 0, 0, 1),
            ("/tmp/", text(), 0, 3, 7),
            ("doesnotexist", text(), 0, 9, 20),
            ("2", text(), 0, 22, 22),
            ("&>", op(Operator::SquirrelOutput), 0, 23, 24),
            ("1", text(), 0, 25, 25),
        ],
    );
}

#[test]
fn test_lexing_of_squirrel_output_op_without_fd() {
    let tokens = check("ls /tmp/ doesnotexist &>1\n");
    assert_tokens(
        &tokens,
        &[
            ("ls", text(), 0, 0, 1),
            ("/tmp/", text(), 0, 3, 7),
            ("doesnotexist", text(), 0, 9, 20),
            ("&>", op(Operator::SquirrelOutput), 0, 22, 23),
            ("1", text(), 0, 24, 24),
        ],
    );
}

#[test]
fn test_lexing_of_squirrel_input_op_with_fd() {
    let tokens = check("0<&1\n");
    assert_tokens(
        &tokens,
        &[("0", text(), 0, 0, 0), ("<&", op(Operator::SquirrelInput), 0, 1, 2), ("1", text(), 0, 3, 3)],
    );
}

#[test]
fn test_lexing_of_squirrel_input_op_without_fd() {
    let tokens = check("<&1\n");
    assert_tokens(&tokens, &[("<&", op(Operator::SquirrelInput), 0, 0, 1), ("1", text(), 0, 2, 2)]);
}

#[test]
fn test_lexing_of_bg_process_with_ampersand() {
    let tokens = check("ping google.com &\n");
    assert_tokens(
        &tokens,
        &[("ping", text(), 0, 0, 3), ("google.com", text(), 0, 5, 14), ("&", op(Operator::And), 0, 16, 16)],
    );
}

#[test]
fn lexing_rejects_unknown_character() {
    let mut lexer = Lexer::new();
    let r = lexer.scan("ls *\n");
    match r {
        Err(ShellError::LexError(LexError::SyntaxError { message, line, range })) => {
            assert_eq!(message, "unexpected character");
            assert_eq!(line, 0);
            assert_eq!(range, (4, 5));
        }
        other => panic!("expected a syntax error, got {:?}", other),
    }
    assert!(lexer.tokens.is_empty());
}

#[test]
fn scan_appends_across_lines() {
    let mut lexer = Lexer::new();
    let first = lexer.scan("echo \\\n").expect("first line lexes");
    assert_eq!(first.len(), 2);
    assert!(!lexer.is_complete());
    let second = lexer.scan("foo\n").expect("second line lexes");
    assert_eq!(second.len(), 1);
    assert_eq!(lexer.tokens.len(), 3);
    assert_eq!(lexer.tokens[2].lexeme, "foo");
    assert!(lexer.is_complete());
}

#[test]
fn complete_processing_after_one_plain_line() {
    let mut lexer = Lexer::new();
    let tokens = lexer.scan("ls -la\n").expect("lexes");
    let last = tokens.last().expect("a token").duplicate();
    assert!(lexer.complete_processing(last));
    assert!(lexer.is_complete());
}

#[test]
fn complete_processing_on_trailing_operators() {
    let lexer = Lexer::new();
    assert!(!lexer.is_complete());
    for (line, complete) in [
        ("ls &&\n", false),
        ("ls ||\n", false),
        ("ls |\n", false),
        ("ls ;\n", false),
        ("ls \\\n", false),
        ("ls &\n", true),
        ("(ls)\n", true),
    ] {
        let mut lexer = Lexer::new();
        let tokens = lexer.scan(line).expect("lexes");
        let last = tokens.last().expect("a token").duplicate();
        assert_eq!(lexer.complete_processing(last), complete, "line {:?}", line);
    }
}

#[test]
fn ranges_increase_on_each_line() {
    let tokens = check("ls -la && echo foo\n");
    for pair in tokens.windows(2) {
        assert!(pair[0].range.0 <= pair[0].range.1);
        assert!(pair[0].range.1 < pair[1].range.0);
    }
}

#[test]
fn append_with_fd_is_one_operator() {
    let tokens = check("ls 2>> file.txt\n");
    assert_tokens(
        &tokens,
        &[
            ("ls", text(), 0, 0, 1),
            ("2", text(), 0, 3, 3),
            (">>", op(Operator::DoubleRightPointyBracket), 0, 4, 5),
            ("file.txt", text(), 0, 7, 14),
        ],
    );
}

#[test]
fn token_kinds_read_as_written() {
    assert_eq!(op(Operator::DoubleRightPointyBracket).to_text(), ">>");
    assert_eq!(op(Operator::SquirrelInput).to_text(), "<&");
    assert_eq!(TokenType::Backslash.to_text(), "\\");
    assert_eq!(text().to_text(), "text");
    assert_eq!(TokenType::Word(Word::Keyword(Keyword::Exit)).to_text(), "exit");
}
