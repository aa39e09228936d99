use vstd::prelude::*;
use vstd::string::StringExecFns;

verus! {

#[derive(Debug, Clone, Copy, PartialEq, Eq, Structural)]
pub enum Color {
    Green,
    Red,
    White,
}

/// The prompt: `$ ` for a new command, `> ` while a command goes on over
/// more lines.
#[derive(Debug)]
pub struct Prompt {
    pub letter: String,
    pub multiline_mode: bool,
}

pub open spec fn main_letter() -> Seq<char> {
    seq!['$', ' ']
}

pub open spec fn continuation_letter() -> Seq<char> {
    seq!['>', ' ']
}

/// The colour of the prompt: white while a command goes on, else green or
/// red after a success or a failure.
pub open spec fn prompt_color(multiline_mode: bool, execution_successful: bool) -> Color {
    if multiline_mode {
        Color::White
    } else if execution_successful {
        Color::Green
    } else {
        Color::Red
    }
}

impl Prompt {
    pub fn new() -> (r: Prompt)
        ensures
            r.letter@ == main_letter(),
            !r.multiline_mode,
    {
        proof {
            reveal_strlit("$ ");
            assert("$ "@ =~= main_letter());
        }
        Prompt { letter: String::from_str("$ "), multiline_mode: false }
    }

    /// The text to show and its colour.
    pub fn render(&self, execution_successful: bool) -> (r: (String, Color))
        ensures
            r.0@ == self.letter@,
            r.1 == prompt_color(self.multiline_mode, execution_successful),
    {
        let color = if self.multiline_mode {
            Color::White
        } else if execution_successful {
            Color::Green
        } else {
            Color::Red
        };
        (self.letter.clone(), color)
    }

    pub fn activate_multiline_prompt(&mut self)
        ensures
            final(self).letter@ == continuation_letter(),
            final(self).multiline_mode,
    {
        proof {
            reveal_strlit("> ");
            assert("> "@ =~= continuation_letter());
        }
        self.letter = String::from_str("> ");
        self.multiline_mode = true;
    }

    pub fn deactivate_multiline_prompt(&mut self)
        ensures
            final(self).letter@ == main_letter(),
            !final(self).multiline_mode,
    {
        proof {
            reveal_strlit("$ ");
            assert("$ "@ =~= main_letter());
        }
        self.letter = String::from_str("$ ");
        self.multiline_mode = false;
    }
}

} // verus!
