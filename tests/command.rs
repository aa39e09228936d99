use dss::command::parser::Command;
use dss::command::Separator;

fn check(input_str: &str) -> (Vec<Command>, Vec<Separator>) {
    Command::parse_input(&(input_str.to_string() + "\n")).expect("parsing should have succeeded")
}

#[test]
fn test_base_cmd_parsing() {
    let (commands, separators) = check("ls");

    assert_eq!(commands.len(), 1);
    assert_eq!(separators.len(), 0);
    assert_eq!(commands[0].args_with_cmd[0], "ls".to_string());
}

#[test]
fn test_cmd_parsing_with_args() {
    let (commands, separators) = check("ls -la");

    assert_eq!(commands.len(), 1);
    assert_eq!(separators.len(), 0);
    assert_eq!(commands[0].args_with_cmd[0], "ls".to_string());
    assert_eq!(commands[0].args_with_cmd[1], "-la".to_string());
}

#[test]
fn test_cmd_parsing_of_semicolon_separator() {
    let (commands, separators) = check("ls -la ; echo foo");

    assert_eq!(commands.len(), 2);
    assert_eq!(separators.len(), 1);
    assert_eq!(commands[0].args_with_cmd[0], "ls".to_string());
    assert_eq!(commands[0].args_with_cmd[1], "-la".to_string());
    assert_eq!(separators[0], Separator::Semicolon);
    assert_eq!(commands[1].args_with_cmd[0], "echo".to_string());
    assert_eq!(commands[1].args_with_cmd[1], "foo".to_string());
}

#[test]
fn test_cmd_parsing_of_semicolon_logical_or() {
    let (commands, separators) = check("ls -la || echo foo");

    assert_eq!(commands.len(), 2);
    assert_eq!(separators.len(), 1);
    assert_eq!(commands[0].args_with_cmd[0], "ls".to_string());
    assert_eq!(commands[0].args_with_cmd[1], "-la".to_string());
    assert_eq!(separators[0], Separator::LogicalOr);
    assert_eq!(commands[1].args_with_cmd[0], "echo".to_string());
    assert_eq!(commands[1].args_with_cmd[1], "foo".to_string());
}

#[test]
fn test_cmd_parsing_of_semicolon_logical_and() {
    let (commands, separators) = check("ls -la && echo foo");

    assert_eq!(commands.len(), 2);
    assert_eq!(separators.len(), 1);
    assert_eq!(commands[0].args_with_cmd[0], "ls".to_string());
    assert_eq!(commands[0].args_with_cmd[1], "-la".to_string());
    assert_eq!(separators[0], Separator::LogicalAnd);
    assert_eq!(commands[1].args_with_cmd[0], "echo".to_string());
    assert_eq!(commands[1].args_with_cmd[1], "foo".to_string());

    let (commands, separators) = check("cd /tmp && pwd");

    assert_eq!(commands.len(), 2);
    assert_eq!(separators.len(), 1);
    assert_eq!(commands[0].args_with_cmd[0], "cd".to_string());
    assert_eq!(commands[0].args_with_cmd[1], "/tmp".to_string());
    assert_eq!(commands[1].args_with_cmd[0], "pwd".to_string());
}

#[test]
fn mod_test_cmd_parsing_with_multiple_separators() {
    let (commands, separators) = check("false && echo foo || echo bar");

    assert_eq!(commands.len(), 3);
    assert_eq!(separators.len(), 2);
    assert_eq!(commands[0].args_with_cmd[0], "false".to_string());
    assert_eq!(separators[0], Separator::LogicalAnd);
    assert_eq!(commands[1].args_with_cmd[0], "echo".to_string());
    assert_eq!(commands[1].args_with_cmd[1], "foo".to_string());
    assert_eq!(separators[1], Separator::LogicalOr);
    assert_eq!(commands[2].args_with_cmd[0], "echo".to_string());
    assert_eq!(commands[2].args_with_cmd[1], "bar".to_string());
}

#[test]
fn test_cmd_parsing_of_negate_exit_status() {
    let (commands, separators) = check("! ls -la && echo foo");

    assert_eq!(commands.len(), 2);
    assert_eq!(separators.len(), 1);
    assert_eq!(commands[0].args_with_cmd[0], "ls".to_string());
    assert_eq!(commands[0].args_with_cmd[1], "-la".to_string());
    assert!(commands[0].negate_exit_status);
    assert_eq!(commands[1].args_with_cmd[0], "echo".to_string());
    assert_eq!(commands[1].args_with_cmd[1], "foo".to_string());
}

#[test]
fn word_split_flattens_parentheses() {
    let (commands, separators) = check("(cd /tmp && pwd) ; pwd");
    assert_eq!(commands[0].args_with_cmd, vec!["cd".to_string(), "/tmp".to_string()]);
    assert_eq!(commands[1].args_with_cmd, vec!["pwd".to_string()]);
    assert_eq!(commands.last().expect("a command").args_with_cmd, vec!["pwd".to_string()]);
    assert_eq!(separators, vec![Separator::LogicalAnd, Separator::Semicolon]);
}

#[test]
fn word_split_errors() {
    assert!(Command::parse_input("(ls\n").is_err());
    assert!(Command::parse_input("&& ls\n").is_err());
}

#[test]
fn lone_exclamation_stands_for_true() {
    let c = Command::parse_cmd_str_vec(vec!["!".to_string()]).expect("a command");
    assert_eq!(c.args_with_cmd, vec!["true".to_string()]);
    assert!(c.negate_exit_status);
    assert_eq!(c.path, "true");
    assert!(c.is_unqualified_path);
    assert!(Command::parse_cmd_str_vec(vec![]).is_err());
}

#[test]
fn separators_from_words() {
    assert_eq!(Separator::to_separator(";"), Some(Separator::Semicolon));
    assert_eq!(Separator::to_separator("||"), Some(Separator::LogicalOr));
    assert_eq!(Separator::to_separator("&&"), Some(Separator::LogicalAnd));
    assert_eq!(Separator::to_separator("&"), None);
    assert_eq!(Separator::to_separator("ls"), None);
}
