pub mod lexer;
pub mod parser;
pub mod token;

use vstd::prelude::*;
use vstd::string::StrSliceExecFns;
use vstd::string::StringExecFns;

use crate::engine::same_text;
use crate::errors::{ErrorKind, ShellError};
use parser::{Command, CommandView, commands_view, is_qualified_path, qualified, unclosed_message, unopened_message};

verus! {

/// The separators between commands.
#[derive(Debug, Clone, Copy, PartialEq, Eq, Structural)]
pub enum Separator {
    Semicolon,
    LogicalOr,
    LogicalAnd,
}

pub open spec fn separator_of(s: Seq<char>) -> Option<Separator> {
    if s == seq![';'] {
        Some(Separator::Semicolon)
    } else if s == seq!['|', '|'] {
        Some(Separator::LogicalOr)
    } else if s == seq!['&', '&'] {
        Some(Separator::LogicalAnd)
    } else {
        None
    }
}

impl Separator {
    /// The separator a word spells, if any.
    pub fn to_separator(input: &str) -> (r: Option<Separator>)
        ensures
            r == separator_of(input@),
    {
        proof {
            reveal_strlit(";");
            reveal_strlit("||");
            reveal_strlit("&&");
            assert(";"@ =~= seq![';']);
            assert("||"@ =~= seq!['|', '|']);
            assert("&&"@ =~= seq!['&', '&']);
        }
        if same_text(input, ";") {
            Some(Separator::Semicolon)
        } else if same_text(input, "||") {
            Some(Separator::LogicalOr)
        } else if same_text(input, "&&") {
            Some(Separator::LogicalAnd)
        } else {
            None
        }
    }
}

pub open spec fn no_command_message() -> Seq<char> {
    "expected a command"@
}

pub open spec fn true_word() -> Seq<char> {
    seq!['t', 'r', 'u', 'e']
}

pub open spec fn strings_of(v: Seq<String>) -> Seq<Seq<char>> {
    v.map_values(|a: String| a@)
}

/// A command made of words, the first one its path.
pub open spec fn word_command(args: Seq<Seq<char>>, negate: bool) -> CommandView {
    CommandView {
        args_with_cmd: args,
        tokens: Seq::empty(),
        path: args[0],
        negate_exit_status: negate,
        is_unqualified_path: !qualified(args[0]),
    }
}

/// The command a list of words makes: a leading `!` negates it, and a lone
/// `!` stands for `true`. No words make no command.
pub open spec fn command_of_words(strs: Seq<Seq<char>>) -> Option<CommandView> {
    if strs.len() == 0 {
        None
    } else if strs[0] == seq!['!'] {
        let rest = if strs.len() == 1 { seq![true_word()] } else { strs.drop_first() };
        Some(word_command(rest, true))
    } else {
        Some(word_command(strs, false))
    }
}

/// The state of a split of a line into commands at space-separated words.
pub struct WordsAcc {
    pub commands: Seq<CommandView>,
    pub seps: Seq<Separator>,
    pub word: Seq<char>,
    pub strs: Seq<Seq<char>>,
    pub capture: bool,
    pub sub: Seq<char>,
}

pub open spec fn empty_words() -> WordsAcc {
    WordsAcc {
        commands: Seq::empty(),
        seps: Seq::empty(),
        word: Seq::empty(),
        strs: Seq::empty(),
        capture: false,
        sub: Seq::empty(),
    }
}

/// The commands and separators of a line split at spaces: a word that is a
/// separator ends the command before it, a newline ends the line's last
/// command, and text in parentheses is split the same way, its commands
/// and separators taking their place in the outer line.
pub open spec fn words_from(s: Seq<char>, i: nat, a: WordsAcc) -> Result<(Seq<CommandView>, Seq<Separator>), ErrorKind>
    decreases s.len(), s.len() - i,
{
    if i >= s.len() {
        if a.capture {
            Err(ErrorKind::ParseError(unclosed_message()))
        } else {
            Ok((a.commands, a.seps))
        }
    } else {
        let c = s[i as int];
        if a.capture && c != ')' {
            words_from(s, i + 1, WordsAcc { sub: a.sub.push(c), word: Seq::empty(), ..a })
        } else if c == '\n' {
            match command_of_words(a.strs.push(a.word)) {
                Some(cmd) => words_from(s, i + 1, WordsAcc { commands: a.commands.push(cmd), strs: Seq::empty(), ..a }),
                None => Err(ErrorKind::ParseError(no_command_message())),
            }
        } else if c == ' ' {
            match separator_of(a.word) {
                Some(sep) => match command_of_words(a.strs) {
                    Some(cmd) => words_from(
                        s,
                        i + 1,
                        WordsAcc {
                            seps: a.seps.push(sep),
                            commands: a.commands.push(cmd),
                            strs: Seq::empty(),
                            word: Seq::empty(),
                            ..a
                        },
                    ),
                    None => Err(ErrorKind::ParseError(no_command_message())),
                },
                None => words_from(s, i + 1, WordsAcc { strs: a.strs.push(a.word), word: Seq::empty(), ..a }),
            }
        } else if c == '(' {
            words_from(s, i + 1, WordsAcc { capture: true, ..a })
        } else if c == ')' {
            if a.sub.len() + 1 < s.len() {
                match words_from(a.sub.push('\n'), 0, empty_words()) {
                    Ok((cs, ss)) => words_from(
                        s,
                        i + 1,
                        WordsAcc { capture: false, commands: a.commands + cs, seps: a.seps + ss, sub: Seq::empty(), ..a },
                    ),
                    Err(k) => Err(k),
                }
            } else {
                Err(ErrorKind::ParseError(unopened_message()))
            }
        } else {
            words_from(s, i + 1, WordsAcc { word: a.word.push(c), ..a })
        }
    }
}

impl Command {
    /// Splits a line into commands at space-separated words (see
    /// `words_from`), with the separators found between them.
    pub fn parse_input(input_str: &str) -> (r: Result<(Vec<Command>, Vec<Separator>), ShellError>)
        ensures
            match words_from(input_str@, 0, empty_words()) {
                Ok((cs, ss)) => r matches Ok((c, sp)) && commands_view(c@) == cs && sp@ == ss,
                Err(k) => r matches Err(e) && e.kind() == k,
            },
        decreases input_str@.len(),
    {
        let ghost s = input_str@;
        let n = input_str.unicode_len();
        let mut commands: Vec<Command> = Vec::new();
        let mut separators: Vec<Separator> = Vec::new();
        let mut word = String::new();
        let mut command_strs: Vec<String> = Vec::new();
        let mut capture = false;
        let mut sub = String::new();
        proof {
            assert(commands_view(commands@) =~= Seq::<CommandView>::empty());
            assert(strings_of(command_strs@) =~= Seq::<Seq<char>>::empty());
        }
        let mut i: usize = 0;
        while i < n
            invariant
                n == s.len(),
                s == input_str@,
                i <= n,
                !capture ==> sub@.len() == 0,
                capture ==> sub@.len() + 1 <= i,
                words_from(s, i as nat, WordsAcc {
                    commands: commands_view(commands@),
                    seps: separators@,
                    word: word@,
                    strs: strings_of(command_strs@),
                    capture,
                    sub: sub@,
                }) == words_from(s, 0, empty_words()),
            decreases n - i,
        {
            let ch = input_str.get_char(i);
            let one = input_str.substring_char(i, i + 1);
            proof {
                assert(one@ =~= seq![ch]);
            }
            if capture && ch != ')' {
                let ghost before = sub@;
                sub.append(one);
                word = String::new();
                proof {
                    assert(sub@ =~= before.push(ch));
                }
            } else if ch == '\n' {
                let ghost before = strings_of(command_strs@);
                command_strs.push(word.clone());
                proof {
                    assert(strings_of(command_strs@) =~= before.push(word@));
                }
                let strs = command_strs;
                command_strs = Vec::new();
                proof {
                    assert(strings_of(command_strs@) =~= Seq::<Seq<char>>::empty());
                }
                match Command::parse_cmd_str_vec(strs) {
                    Ok(c) => {
                        let ghost before = commands_view(commands@);
                        commands.push(c);
                        proof {
                            assert(commands_view(commands@) =~= before.push(c@));
                        }
                    },
                    Err(e) => {
                        return Err(e);
                    },
                }
            } else if ch == ' ' {
                match Separator::to_separator(word.as_str()) {
                    Some(sep) => {
                        let strs = command_strs;
                command_strs = Vec::new();
                        proof {
                            assert(strings_of(command_strs@) =~= Seq::<Seq<char>>::empty());
                        }
                        match Command::parse_cmd_str_vec(strs) {
                            Ok(c) => {
                                let ghost before = commands_view(commands@);
                                commands.push(c);
                                separators.push(sep);
                                proof {
                                    assert(commands_view(commands@) =~= before.push(c@));
                                }
                            },
                            Err(e) => {
                                return Err(e);
                            },
                        }
                    },
                    None => {
                        let ghost before = strings_of(command_strs@);
                        command_strs.push(word.clone());
                        proof {
                            assert(strings_of(command_strs@) =~= before.push(word@));
                        }
                    },
                }
                word = String::new();
            } else if ch == '(' {
                capture = true;
            } else if ch == ')' {
                if sub.unicode_len() + 1 >= n {
                    return Err(ShellError::ParseError(String::from_str("unexpected )")));
                }
                let mut nested = sub.clone();
                nested.append("\n");
                proof {
                    reveal_strlit("\n");
                    assert(nested@ =~= sub@.push('\n'));
                }
                match Command::parse_input(nested.as_str()) {
                    Ok((cs, ss)) => {
                        let ghost before = commands_view(commands@);
                        let mut cs = cs;
                        let mut ss = ss;
                        let ghost csv = commands_view(cs@);
                        commands.append(&mut cs);
                        separators.append(&mut ss);
                        proof {
                            assert(commands_view(commands@) =~= before + csv);
                        }
                    },
                    Err(e) => {
                        return Err(e);
                    },
                }
                capture = false;
                sub = String::new();
            } else {
                let ghost before = word@;
                word.append(one);
                proof {
                    assert(word@ =~= before.push(ch));
                }
            }
            i += 1;
        }
        if capture {
            return Err(ShellError::ParseError(String::from_str("expected ) at the end")));
        }
        Ok((commands, separators))
    }

    /// The command a list of words makes (see `command_of_words`).
    pub fn parse_cmd_str_vec(args_with_cmd: Vec<String>) -> (r: Result<Command, ShellError>)
        ensures
            match command_of_words(strings_of(args_with_cmd@)) {
                Some(cv) => r matches Ok(c) && c@ == cv,
                None => r matches Err(e) && e.kind() == ErrorKind::ParseError(no_command_message()),
            },
    {
        let n = args_with_cmd.len();
        if n == 0 {
            return Err(ShellError::ParseError(String::from_str("expected a command")));
        }
        proof {
            reveal_strlit("!");
            reveal_strlit("true");
            assert("!"@ =~= seq!['!']);
            assert("true"@ =~= true_word());
        }
        let negate = same_text(args_with_cmd[0].as_str(), "!");
        let mut args: Vec<String> = Vec::new();
        if negate {
            if n == 1 {
                args.push(String::from_str("true"));
            } else {
                let mut i: usize = 1;
                while i < n
                    invariant
                        1 <= i <= n == args_with_cmd@.len(),
                        args@.len() == i - 1,
                        forall|k: int| 0 <= k < i - 1 ==> #[trigger] args@[k]@ == args_with_cmd@[k + 1]@,
                    decreases n - i,
                {
                    args.push(args_with_cmd[i].clone());
                    i += 1;
                }
            }
        } else {
            let mut i: usize = 0;
            while i < n
                invariant
                    i <= n == args_with_cmd@.len(),
                    args@.len() == i,
                    forall|k: int| 0 <= k < i ==> #[trigger] args@[k]@ == args_with_cmd@[k]@,
                decreases n - i,
            {
                args.push(args_with_cmd[i].clone());
                i += 1;
            }
        }
        let ghost strs = strings_of(args_with_cmd@);
        proof {
            if negate {
                if n == 1 {
                    assert(strings_of(args@) =~= seq![true_word()]);
                } else {
                    assert(strings_of(args@) =~= strs.drop_first());
                }
            } else {
                assert(strings_of(args@) =~= strs);
            }
        }
        let path = args[0].clone();
        let is_unqualified_path = !is_qualified_path(path.as_str());
        let c = Command { args_with_cmd: args, tokens: Vec::new(), path, negate_exit_status: negate, is_unqualified_path };
        proof {
            assert(crate::command::token::tokens_view(c.tokens@) =~= Seq::empty());
        }
        Ok(c)
    }
}

} // verus!
