use vstd::prelude::*;
use vstd::string::StrSliceExecFns;
use vstd::string::StringExecFns;

use super::token::{Keyword, Operator, Token, TokenType, TokenView, Word, tokens_view};
use crate::errors::{ErrorKind, LexError, ShellError};

verus! {

pub open spec fn alpha_char(c: char) -> bool {
    ('a' <= c && c <= 'z') || ('A' <= c && c <= 'Z') || c == '_'
}

pub open spec fn digit_char(c: char) -> bool {
    '0' <= c && c <= '9'
}

pub open spec fn name_special_char(c: char) -> bool {
    c == '_' || c == '-' || c == '.' || c == '/' || c == '"' || c == '$' || c == '{' || c == '}'
}

/// The characters a word is made of.
pub open spec fn name_char(c: char) -> bool {
    alpha_char(c) || digit_char(c) || name_special_char(c)
}

/// The end of the run of word characters that starts at `i`.
pub open spec fn word_end(s: Seq<char>, i: nat) -> nat
    decreases s.len() - i,
{
    if i < s.len() && name_char(s[i as int]) {
        word_end(s, i + 1)
    } else {
        i
    }
}

/// The operator spelt by `c` followed by `next`, when the two form one.
pub open spec fn pair_operator(c: char, next: Option<char>) -> Option<Operator> {
    match (c, next) {
        ('&', Some('&')) => Some(Operator::AndIf),
        ('&', Some('>')) => Some(Operator::SquirrelOutput),
        ('|', Some('|')) => Some(Operator::OrIf),
        ('<', Some('>')) => Some(Operator::DiamondPointyBrackets),
        ('<', Some('&')) => Some(Operator::SquirrelInput),
        ('>', Some('>')) => Some(Operator::DoubleRightPointyBracket),
        _ => None,
    }
}

/// The kind of the one-character token spelt by `c`, if any.
pub open spec fn single_token(c: char) -> Option<TokenType> {
    match c {
        '&' => Some(TokenType::Operator(Operator::And)),
        '|' => Some(TokenType::Operator(Operator::Or)),
        ';' => Some(TokenType::Operator(Operator::Semicolon)),
        '!' => Some(TokenType::Operator(Operator::Exclamation)),
        '<' => Some(TokenType::Operator(Operator::LeftPointyBracket)),
        '>' => Some(TokenType::Operator(Operator::RightPointyBracket)),
        '(' => Some(TokenType::LeftParen),
        ')' => Some(TokenType::RightParen),
        '\\' => Some(TokenType::Backslash),
        _ => None,
    }
}

pub open spec fn exit_word() -> Seq<char> {
    seq!['e', 'x', 'i', 't']
}

/// A delimited word is a keyword or plain text.
pub open spec fn word_kind(w: Seq<char>) -> TokenType {
    if w == exit_word() {
        TokenType::Word(Word::Keyword(Keyword::Exit))
    } else {
        TokenType::Word(Word::Text)
    }
}

pub open spec fn token_at(lexeme: Seq<char>, token_type: TokenType, line: nat, start: nat) -> TokenView {
    TokenView { lexeme, token_type, line, start, end: (start + lexeme.len() - 1) as nat }
}

/// Where a lexing error was found: the line, and the column range reported.
pub struct LexFailure {
    pub line: nat,
    pub start: nat,
    pub end: nat,
}

pub open spec fn prepend_all(p: Seq<TokenView>, r: Result<Seq<TokenView>, LexFailure>) -> Result<Seq<TokenView>, LexFailure> {
    match r {
        Ok(ts) => Ok(p + ts),
        Err(e) => Err(e),
    }
}

/// The tokens of `s` from position `i` on, the lexer standing on line `line`
/// and column `col`; or where the first character that no token may hold is.
pub open spec fn lex(s: Seq<char>, i: nat, line: nat, col: nat) -> Result<Seq<TokenView>, LexFailure>
    decreases s.len() - i,
{
    if i >= s.len() {
        Ok(Seq::empty())
    } else {
        let c = s[i as int];
        let next = if i + 1 < s.len() { Some(s[i + 1 as int]) } else { None };
        if c == '\n' {
            lex(s, i + 1, line + 1, 0)
        } else if c == ' ' {
            lex(s, i + 1, line, col + 1)
        } else if pair_operator(c, next) is Some {
            let op = pair_operator(c, next)->0;
            prepend_all(seq![token_at(s.subrange(i as int, i + 2 as int), TokenType::Operator(op), line, col)], lex(s, i + 2, line, col + 2))
        } else if single_token(c) is Some {
            prepend_all(seq![token_at(s.subrange(i as int, i + 1 as int), single_token(c)->0, line, col)], lex(s, i + 1, line, col + 1))
        } else if name_char(c) {
            let e = word_end(s, i + 1);
            if i < e <= s.len() {
                let w = s.subrange(i as int, e as int);
                prepend_all(seq![token_at(w, word_kind(w), line, col)], lex(s, e, line, (col + e - i) as nat))
            } else {
                Ok(Seq::empty())
            }
        } else {
            Err(LexFailure { line, start: col + 1, end: col + 2 })
        }
    }
}

/// The tokens of a whole input.
pub open spec fn lex_input(s: Seq<char>) -> Result<Seq<TokenView>, LexFailure> {
    lex(s, 0, 0, 0)
}

proof fn lemma_word_end_bounds(s: Seq<char>, i: nat)
    requires
        i <= s.len(),
    ensures
        i <= word_end(s, i) <= s.len(),
        forall|k: int| i <= k < word_end(s, i) ==> name_char(#[trigger] s[k]),
    decreases s.len() - i,
{
    if i < s.len() && name_char(s[i as int]) {
        lemma_word_end_bounds(s, i + 1);
    }
}

proof fn lemma_prepend_step(
    tv: Seq<TokenView>,
    tv2: Seq<TokenView>,
    p: Seq<TokenView>,
    s: Seq<char>,
    i: nat,
    line: nat,
    col: nat,
    i2: nat,
    line2: nat,
    col2: nat,
)
    requires
        tv2 == tv + p,
        lex(s, i, line, col) == prepend_all(p, lex(s, i2, line2, col2)),
    ensures
        prepend_all(tv, lex(s, i, line, col)) == prepend_all(tv2, lex(s, i2, line2, col2)),
{
    match lex(s, i2, line2, col2) {
        Ok(ts) => {
            assert(tv + (p + ts) == (tv + p) + ts);
        },
        Err(e) => {},
    }
}

pub fn is_alpha(ch: char) -> (r: bool)
    ensures
        r == alpha_char(ch),
{
    (ch >= 'a' && ch <= 'z') || (ch >= 'A' && ch <= 'Z') || ch == '_'
}

pub fn is_digit(ch: char) -> (r: bool)
    ensures
        r == digit_char(ch),
{
    ch >= '0' && ch <= '9'
}

pub fn is_alpha_numeric(ch: char) -> (r: bool)
    ensures
        r == (alpha_char(ch) || digit_char(ch)),
{
    is_alpha(ch) || is_digit(ch)
}

pub fn is_valid_name_special_char(ch: char) -> (r: bool)
    ensures
        r == name_special_char(ch),
{
    ch == '_' || ch == '-' || ch == '.' || ch == '/' || ch == '"' || ch == '$' || ch == '{' || ch == '}'
}

pub fn is_valid_name_char(ch: char) -> (r: bool)
    ensures
        r == name_char(ch),
{
    is_alpha_numeric(ch) || is_valid_name_special_char(ch)
}

/// Tokens gathered over one or more physical lines.
pub struct Lexer {
    pub tokens: Vec<Token>,
}

/// Whether a line whose last token has this kind ends a logical command:
/// a trailing backslash, or any operator but a bare `&`, asks for more input.
pub open spec fn ends_command(t: TokenType) -> bool {
    match t {
        TokenType::Backslash => false,
        TokenType::Operator(op) => op == Operator::And,
        _ => true,
    }
}

impl Lexer {
    pub fn new() -> (r: Lexer)
        ensures
            r.tokens@.len() == 0,
    {
        Lexer { tokens: Vec::new() }
    }

    /// Lexes one physical line and appends its tokens; the tokens of this
    /// line are also returned. On an error nothing is appended.
    pub fn scan(&mut self, input_str: &str) -> (r: Result<Vec<Token>, ShellError>)
        requires
            input_str@.len() < usize::MAX,
        ensures
            r is Ok <==> lex_input(input_str@) is Ok,
            r matches Ok(ts) ==> lex_input(input_str@) == Ok::<Seq<TokenView>, LexFailure>(tokens_view(ts@))
                && tokens_view(final(self).tokens@) == tokens_view(old(self).tokens@) + tokens_view(ts@),
            r matches Err(e) ==> lex_input(input_str@) matches Err(f) && e.kind() == (ErrorKind::SyntaxError {
                message: "unexpected character"@,
                line: f.line,
                start: f.start,
                end: f.end,
            }) && final(self).tokens@ == old(self).tokens@,
    {
        let len = input_str.unicode_len();
        let mut ctx = LexingContext { input: input_str, len, pos: 0, line: 0, offset: 0, tokens: Vec::new() };
        proof {
            assert(tokens_view(ctx.tokens@) =~= Seq::<TokenView>::empty());
            match lex_input(input_str@) {
                Ok(ts) => assert(Seq::<TokenView>::empty() + ts =~= ts),
                Err(_) => {},
            }
        }
        match ctx.scan() {
            Ok(()) => {
                let ts = ctx.tokens;
                let mut i: usize = 0;
                while i < ts.len()
                    invariant
                        0 <= i <= ts@.len(),
                        self.tokens@.len() == old(self).tokens@.len() + i,
                        forall|k: int| 0 <= k < old(self).tokens@.len() ==> #[trigger] self.tokens@[k]@ == old(self).tokens@[k]@,
                        forall|k: int| 0 <= k < i ==> #[trigger] self.tokens@[old(self).tokens@.len() + k]@ == ts@[k]@,
                    decreases ts.len() - i,
                {
                    let t = ts[i].duplicate();
                    self.tokens.push(t);
                    i += 1;
                }
                proof {
                    let n = old(self).tokens@.len() as int;
                    assert forall|k: int| n <= k < self.tokens@.len() implies self.tokens@[k]@ == ts@[k - n]@ by {
                        assert(self.tokens@[n + (k - n)]@ == ts@[k - n]@);
                    }
                    assert(tokens_view(self.tokens@) =~= tokens_view(old(self).tokens@) + tokens_view(ts@));
                }
                Ok(ts)
            },
            Err(e) => Err(e),
        }
    }

    /// Whether a line ending with `last_token` completes a logical command.
    pub fn complete_processing(&self, last_token: Token) -> (r: bool)
        ensures
            r == ends_command(last_token.token_type),
    {
        match last_token.token_type {
            TokenType::Backslash => false,
            TokenType::Operator(Operator::And) => true,
            TokenType::Operator(_) => false,
            _ => true,
        }
    }

    /// Whether the tokens gathered so far form a complete logical command:
    /// there is at least one, and the last one ends a command.
    pub fn is_complete(&self) -> (r: bool)
        ensures
            r == (self.tokens@.len() > 0 && ends_command(self.tokens@.last().token_type)),
    {
        if self.tokens.len() == 0 {
            return false;
        }
        let last = self.tokens[self.tokens.len() - 1].duplicate();
        self.complete_processing(last)
    }
}

/// The state of one pass over a physical line.
struct LexingContext<'a> {
    input: &'a str,
    len: usize,
    pos: usize,
    line: usize,
    offset: usize,
    tokens: Vec<Token>,
}

impl<'a> LexingContext<'a> {
    spec fn wf(&self) -> bool {
        &&& self.len == self.input@.len()
        &&& self.pos <= self.len
        &&& self.offset <= self.pos
        &&& self.line <= self.pos
    }

    /// What is left to lex, put after the tokens already produced, gives the
    /// tokens of the whole input.
    spec fn on_track(&self) -> bool {
        prepend_all(tokens_view(self.tokens@), lex(self.input@, self.pos as nat, self.line as nat, self.offset as nat))
            == lex_input(self.input@)
    }

    /// Lexes what is left of the input.
    fn scan(&mut self) -> (r: Result<(), ShellError>)
        requires
            old(self).wf(),
            old(self).on_track(),
            old(self).len < usize::MAX,
        ensures
            final(self).input == old(self).input,
            r is Ok ==> lex_input(final(self).input@) == Ok::<Seq<TokenView>, LexFailure>(tokens_view(final(self).tokens@)),
            r matches Err(e) ==> lex_input(final(self).input@) matches Err(f) && e.kind() == (ErrorKind::SyntaxError {
                message: "unexpected character"@,
                line: f.line,
                start: f.start,
                end: f.end,
            }),
    {
        let ghost s = self.input@;
        while self.pos < self.len
            invariant
                self.wf(),
                self.on_track(),
                self.input@ == s,
                self.input == old(self).input,
                self.len < usize::MAX,
            decreases self.len - self.pos,
        {
            let start = self.pos;
            let ghost line0 = self.line as nat;
            let ghost col = self.offset as nat;
            let ghost tv = tokens_view(self.tokens@);
            let ch = match self.eat() {
                Some(c) => c,
                None => {
                    return Ok(());
                },
            };
            proof {
                assert(ch == s[start as int]);
            }
            match ch {
                '\n' => {
                    self.line = self.line + 1;
                    self.offset = 0;
                },
                ' ' => {},
                '&' => {
                    match self.peek() {
                        Some('&') => {
                            self.eat();
                            self.add_token(TokenType::Operator(Operator::AndIf), start);
                        },
                        Some('>') => {
                            self.eat();
                            self.add_token(TokenType::Operator(Operator::SquirrelOutput), start);
                        },
                        _ => {
                            self.add_token(TokenType::Operator(Operator::And), start);
                        },
                    }
                },
                '|' => {
                    match self.peek() {
                        Some('|') => {
                            self.eat();
                            self.add_token(TokenType::Operator(Operator::OrIf), start);
                        },
                        _ => {
                            self.add_token(TokenType::Operator(Operator::Or), start);
                        },
                    }
                },
                '<' => {
                    match self.peek() {
                        Some('>') => {
                            self.eat();
                            self.add_token(TokenType::Operator(Operator::DiamondPointyBrackets), start);
                        },
                        Some('&') => {
                            self.eat();
                            self.add_token(TokenType::Operator(Operator::SquirrelInput), start);
                        },
                        _ => {
                            self.add_token(TokenType::Operator(Operator::LeftPointyBracket), start);
                        },
                    }
                },
                '>' => {
                    match self.peek() {
                        Some('>') => {
                            self.eat();
                            self.add_token(TokenType::Operator(Operator::DoubleRightPointyBracket), start);
                        },
                        _ => {
                            self.add_token(TokenType::Operator(Operator::RightPointyBracket), start);
                        },
                    }
                },
                ';' => self.add_token(TokenType::Operator(Operator::Semicolon), start),
                '!' => self.add_token(TokenType::Operator(Operator::Exclamation), start),
                '(' => self.add_token(TokenType::LeftParen, start),
                ')' => self.add_token(TokenType::RightParen, start),
                '\\' => self.add_token(TokenType::Backslash, start),
                _ => {
                    if is_valid_name_char(ch) {
                        proof {
                            lemma_word_end_bounds(s, (start + 1) as nat);
                        }
                        self.eat_while();
                        let is_exit = self.is_exit_word(start);
                        let token_type = if is_exit {
                            TokenType::Word(Word::Keyword(Keyword::Exit))
                        } else {
                            TokenType::Word(Word::Text)
                        };
                        self.add_token(token_type, start);
                    } else {
                        return Err(ShellError::LexError(LexError::SyntaxError {
                            message: String::from_str("unexpected character"),
                            line: self.line,
                            range: (self.offset, self.offset + 1),
                        }));
                    }
                },
            }
            proof {
                let tv2 = tokens_view(self.tokens@);
                let p = tv2.subrange(tv.len() as int, tv2.len() as int);
                assert(tv2 == tv + p);
                if tv2.len() == tv.len() {
                    assert(p =~= Seq::<TokenView>::empty());
                    match lex(s, self.pos as nat, self.line as nat, self.offset as nat) {
                        Ok(ts) => assert(p + ts =~= ts),
                        Err(_) => {},
                    }
                } else {
                    assert(p =~= seq![tv2.last()]);
                }
                lemma_prepend_step(tv, tv2, p, s, start as nat, line0, col, self.pos as nat, self.line as nat, self.offset as nat);
            }
        }
        proof {
            assert(tokens_view(self.tokens@) + Seq::<TokenView>::empty() == tokens_view(self.tokens@));
        }
        Ok(())
    }

    /// Whether the characters from `start` to the current position spell `exit`.
    fn is_exit_word(&self, start: usize) -> (r: bool)
        requires
            self.wf(),
            start <= self.pos,
        ensures
            r == (self.input@.subrange(start as int, self.pos as int) == exit_word()),
    {
        if self.pos - start != 4 {
            assert(exit_word().len() == 4);
            return false;
        }
        let r = self.input.get_char(start) == 'e' && self.input.get_char(start + 1) == 'x'
            && self.input.get_char(start + 2) == 'i' && self.input.get_char(start + 3) == 't';
        proof {
            if r {
                assert(self.input@.subrange(start as int, self.pos as int) =~= exit_word());
            } else {
                let w = self.input@.subrange(start as int, self.pos as int);
                assert(w[0] == self.input@[start as int]);
                assert(w[1] == self.input@[start + 1]);
                assert(w[2] == self.input@[start + 2]);
                assert(w[3] == self.input@[start + 3]);
                assert(w != exit_word()) by {
                    if w == exit_word() {
                        assert(exit_word()[0] == 'e');
                    }
                }
            }
        }
        r
    }

    fn peek(&self) -> (r: Option<char>)
        requires
            self.wf(),
        ensures
            r == (if self.pos < self.len { Some(self.input@[self.pos as int]) } else { None }),
    {
        if self.pos < self.len {
            Some(self.input.get_char(self.pos))
        } else {
            None
        }
    }

    fn eat(&mut self) -> (r: Option<char>)
        requires
            old(self).wf(),
        ensures
            final(self).wf(),
            final(self).input == old(self).input,
            final(self).tokens == old(self).tokens,
            final(self).line == old(self).line,
            old(self).pos < old(self).len ==> r == Some(old(self).input@[old(self).pos as int])
                && final(self).pos == old(self).pos + 1 && final(self).offset == old(self).offset + 1,
            old(self).pos >= old(self).len ==> r is None && *final(self) == *old(self),
    {
        if self.pos < self.len {
            let ch = self.input.get_char(self.pos);
            self.pos = self.pos + 1;
            self.offset = self.offset + 1;
            Some(ch)
        } else {
            None
        }
    }

    /// Eats word characters as long as they come.
    fn eat_while(&mut self)
        requires
            old(self).wf(),
        ensures
            final(self).wf(),
            final(self).input == old(self).input,
            final(self).tokens == old(self).tokens,
            final(self).line == old(self).line,
            final(self).pos == word_end(old(self).input@, old(self).pos as nat),
            final(self).offset == old(self).offset + (final(self).pos - old(self).pos),
    {
        loop
            invariant
                self.wf(),
                self.input == old(self).input,
                self.tokens == old(self).tokens,
                self.line == old(self).line,
                old(self).pos <= self.pos,
                self.offset == old(self).offset + (self.pos - old(self).pos),
                word_end(self.input@, old(self).pos as nat) == word_end(self.input@, self.pos as nat),
            ensures
                self.pos == word_end(old(self).input@, old(self).pos as nat),
            decreases self.len - self.pos,
        {
            let ch = match self.peek() {
                Some(c) => c,
                None => {
                    assert(word_end(self.input@, self.pos as nat) == self.pos);
                    break;
                },
            };
            if !is_valid_name_char(ch) {
                assert(word_end(self.input@, self.pos as nat) == self.pos);
                break;
            }
            self.eat();
        }
    }

    /// Records the token that spans from `start` to the current position.
    fn add_token(&mut self, token_type: TokenType, start: usize)
        requires
            old(self).wf(),
            start < old(self).pos,
            old(self).pos - start <= old(self).offset,
        ensures
            final(self).wf(),
            final(self).input == old(self).input,
            final(self).pos == old(self).pos,
            final(self).line == old(self).line,
            final(self).offset == old(self).offset,
            tokens_view(final(self).tokens@) == tokens_view(old(self).tokens@).push(token_at(
                old(self).input@.subrange(start as int, old(self).pos as int),
                token_type,
                old(self).line as nat,
                (old(self).offset - (old(self).pos - start)) as nat,
            )),
    {
        let lexeme = String::from_str(self.input.substring_char(start, self.pos));
        let len = self.pos - start;
        let token = Token {
            lexeme,
            token_type,
            line: self.line,
            range: (self.offset - len, self.offset - 1),
        };
        self.tokens.push(token);
        proof {
            assert(tokens_view(self.tokens@) =~= tokens_view(old(self).tokens@).push(token@));
        }
    }
}

pub open spec fn blank(c: char) -> bool {
    c == ' ' || c == '\n'
}

/// `s` has a word character or a parenthesis at `k`, and only blanks after it.
pub open spec fn ends_plainly_at(s: Seq<char>, k: int) -> bool {
    &&& 0 <= k < s.len()
    &&& (name_char(s[k]) || s[k] == '(' || s[k] == ')')
    &&& forall|j: int| k < j < s.len() ==> blank(#[trigger] s[j])
}

proof fn lemma_blank_rest(s: Seq<char>, i: nat, line: nat, col: nat)
    requires
        forall|j: int| i <= j < s.len() ==> blank(#[trigger] s[j]),
    ensures
        lex(s, i, line, col) == Ok::<Seq<TokenView>, LexFailure>(Seq::empty()),
    decreases s.len() - i,
{
    if i < s.len() {
        assert(blank(s[i as int]));
        if s[i as int] == '\n' {
            lemma_blank_rest(s, i + 1, line + 1, 0);
        } else {
            lemma_blank_rest(s, i + 1, line, col + 1);
        }
    }
}

proof fn lemma_prepend_last(t: TokenView, r: Result<Seq<TokenView>, LexFailure>)
    requires
        r is Ok,
    ensures
        prepend_all(seq![t], r) is Ok,
        prepend_all(seq![t], r)->Ok_0.len() > 0,
        r->Ok_0.len() > 0 ==> prepend_all(seq![t], r)->Ok_0.last() == r->Ok_0.last(),
        r->Ok_0.len() == 0 ==> prepend_all(seq![t], r)->Ok_0.last() == t,
{
}

proof fn lemma_last_token_ends_command(s: Seq<char>, i: nat, line: nat, col: nat, k: int)
    requires
        ends_plainly_at(s, k),
        i <= k,
        lex(s, i, line, col) is Ok,
    ensures
        lex(s, i, line, col)->Ok_0.len() > 0,
        ends_command(lex(s, i, line, col)->Ok_0.last().token_type),
    decreases s.len() - i,
{
    let c = s[i as int];
    let next = if i + 1 < s.len() { Some(s[i + 1 as int]) } else { None::<char> };
    if c == '\n' {
        lemma_last_token_ends_command(s, i + 1, line + 1, 0, k);
    } else if c == ' ' {
        lemma_last_token_ends_command(s, i + 1, line, col + 1, k);
    } else if pair_operator(c, next) is Some {
        assert(i + 1 < k) by {
            assert(!blank(s[k]));
            assert(i != k);
            assert(i + 1 != k);
        }
        lemma_last_token_ends_command(s, i + 2, line, col + 2, k);
        let op = pair_operator(c, next)->0;
        lemma_prepend_last(token_at(s.subrange(i as int, i + 2 as int), TokenType::Operator(op), line, col), lex(s, i + 2, line, col + 2));
    } else if single_token(c) is Some {
        let t = token_at(s.subrange(i as int, i + 1 as int), single_token(c)->0, line, col);
        if i == k {
            lemma_blank_rest(s, i + 1, line, col + 1);
        } else {
            lemma_last_token_ends_command(s, i + 1, line, col + 1, k);
        }
        lemma_prepend_last(t, lex(s, i + 1, line, col + 1));
    } else if name_char(c) {
        lemma_word_end_bounds(s, i + 1);
        let e = word_end(s, i + 1);
        let w = s.subrange(i as int, e as int);
        if k < e {
            if e > k + 1 {
                assert(name_char(s[k + 1]));
                assert(blank(s[k + 1]));
            }
            lemma_blank_rest(s, e, line, (col + e - i) as nat);
        } else {
            lemma_last_token_ends_command(s, e, line, (col + e - i) as nat, k);
        }
        lemma_prepend_last(token_at(w, word_kind(w), line, col), lex(s, e, line, (col + e - i) as nat));
    }
}

/// One line that lexes, and whose last character other than blanks is a
/// word character or a parenthesis (no trailing backslash or operator),
/// completes a command: its tokens are not empty and the last one ends a
/// command, so a lexer that has scanned just this line asks for no more.
pub proof fn lemma_plain_line_completes(s: Seq<char>, k: int)
    requires
        lex_input(s) is Ok,
        ends_plainly_at(s, k),
    ensures
        lex_input(s)->Ok_0.len() > 0,
        ends_command(lex_input(s)->Ok_0.last().token_type),
{
    lemma_last_token_ends_command(s, 0, 0, 0, k);
}

/// Tokens come in order: each covers at least one column, and a token on
/// the same line as the one before it starts after that one ends.
pub open spec fn ordered_ranges(ts: Seq<TokenView>) -> bool {
    &&& forall|j: int| 0 <= j < ts.len() ==> (#[trigger] ts[j]).start <= ts[j].end
    &&& forall|j: int| 0 <= j < ts.len() - 1 ==> #[trigger] in_order(ts, j)
}

/// The token at `j` comes before the one after it.
pub open spec fn in_order(ts: Seq<TokenView>, j: int) -> bool {
    ts[j].line < ts[j + 1].line || (ts[j].line == ts[j + 1].line && ts[j].end < ts[j + 1].start)
}

/// Every token is at or after the given line and column.
pub open spec fn starts_after(ts: Seq<TokenView>, line: nat, col: nat) -> bool {
    forall|j: int| 0 <= j < ts.len() ==> (#[trigger] ts[j]).line > line || (ts[j].line == line && ts[j].start >= col)
}

proof fn lemma_prepend_ordered(t: TokenView, ts: Seq<TokenView>, line: nat, col: nat)
    requires
        t.line == line,
        t.start <= t.end,
        t.end < col,
        ordered_ranges(ts),
        starts_after(ts, line, col),
    ensures
        ordered_ranges(seq![t] + ts),
        starts_after(seq![t] + ts, line, t.start),
{
    let r = seq![t] + ts;
    assert forall|j: int| 0 <= j < r.len() - 1 implies #[trigger] in_order(r, j) by {
        if j > 0 {
            assert(in_order(ts, j - 1));
            assert(r[j] == ts[j - 1]);
            assert(r[j + 1] == ts[j]);
        } else {
            assert(r[1] == ts[0]);
        }
    }
    assert forall|j: int| 0 <= j < r.len() implies (#[trigger] r[j]).start <= r[j].end by {
        if j > 0 {
            assert(r[j] == ts[j - 1]);
        }
    }
    assert forall|j: int| 0 <= j < r.len() implies (#[trigger] r[j]).line > line || (r[j].line == line
        && r[j].start >= t.start) by {
        if j > 0 {
            assert(r[j] == ts[j - 1]);
        }
    }
}

proof fn lemma_lex_ordered(s: Seq<char>, i: nat, line: nat, col: nat)
    requires
        lex(s, i, line, col) is Ok,
    ensures
        ordered_ranges(lex(s, i, line, col)->Ok_0),
        starts_after(lex(s, i, line, col)->Ok_0, line, col),
    decreases s.len() - i,
{
    if i >= s.len() {
        return;
    }
    let c = s[i as int];
    let next = if i + 1 < s.len() { Some(s[i + 1 as int]) } else { None::<char> };
    if c == '\n' {
        lemma_lex_ordered(s, i + 1, line + 1, 0);
        let ts = lex(s, i + 1, line + 1, 0)->Ok_0;
        assert forall|j: int| 0 <= j < ts.len() implies (#[trigger] ts[j]).line > line || (ts[j].line == line
            && ts[j].start >= col) by {}
    } else if c == ' ' {
        lemma_lex_ordered(s, i + 1, line, col + 1);
    } else if pair_operator(c, next) is Some {
        lemma_lex_ordered(s, i + 2, line, col + 2);
        let op = pair_operator(c, next)->0;
        let t = token_at(s.subrange(i as int, i + 2 as int), TokenType::Operator(op), line, col);
        lemma_prepend_ordered(t, lex(s, i + 2, line, col + 2)->Ok_0, line, col + 2);
    } else if single_token(c) is Some {
        lemma_lex_ordered(s, i + 1, line, col + 1);
        let t = token_at(s.subrange(i as int, i + 1 as int), single_token(c)->0, line, col);
        lemma_prepend_ordered(t, lex(s, i + 1, line, col + 1)->Ok_0, line, col + 1);
    } else if name_char(c) {
        lemma_word_end_bounds(s, i + 1);
        let e = word_end(s, i + 1);
        let w = s.subrange(i as int, e as int);
        let c2 = (col + e - i) as nat;
        lemma_lex_ordered(s, e, line, c2);
        lemma_prepend_ordered(token_at(w, word_kind(w), line, col), lex(s, e, line, c2)->Ok_0, line, c2);
    }
}

/// The tokens of a line that lexes have ordered, non-overlapping column
/// ranges on each line.
pub proof fn lemma_token_ranges_ordered(s: Seq<char>)
    requires
        lex_input(s) is Ok,
    ensures
        ordered_ranges(lex_input(s)->Ok_0),
{
    lemma_lex_ordered(s, 0, 0, 0);
}

/// The token at `j` is a one-character operator directly followed, on its
/// line, by a token whose first character would have made a two-character
/// operator with it.
pub open spec fn split_pair(ts: Seq<TokenView>, j: int) -> bool {
    &&& ts[j].token_type is Operator
    &&& ts[j].lexeme.len() == 1
    &&& ts[j + 1].line == ts[j].line
    &&& ts[j + 1].start == ts[j].end + 1
    &&& ts[j + 1].lexeme.len() > 0
    &&& pair_operator(ts[j].lexeme[0], Some(ts[j + 1].lexeme[0])) is Some
}

/// A token that starts exactly where the lexer stands starts with the
/// character there.
proof fn lemma_first_token_char(s: Seq<char>, i: nat, line: nat, col: nat)
    requires
        lex(s, i, line, col) is Ok,
        lex(s, i, line, col)->Ok_0.len() > 0,
        lex(s, i, line, col)->Ok_0[0].line == line,
        lex(s, i, line, col)->Ok_0[0].start == col,
    ensures
        i < s.len(),
        lex(s, i, line, col)->Ok_0[0].lexeme.len() > 0,
        lex(s, i, line, col)->Ok_0[0].lexeme[0] == s[i as int],
{
    let c = s[i as int];
    let next = if i + 1 < s.len() { Some(s[i + 1 as int]) } else { None::<char> };
    if c == '\n' {
        lemma_lex_ordered(s, i + 1, line + 1, 0);
        assert(lex(s, i + 1, line + 1, 0)->Ok_0[0].line >= line + 1);
    } else if c == ' ' {
        lemma_lex_ordered(s, i + 1, line, col + 1);
        let ts = lex(s, i + 1, line, col + 1)->Ok_0;
        assert(ts[0].line > line || ts[0].start >= col + 1);
    } else if name_char(c) && !(pair_operator(c, next) is Some) && !(single_token(c) is Some) {
        lemma_word_end_bounds(s, i + 1);
    }
}

proof fn lemma_lex_merges_pairs(s: Seq<char>, i: nat, line: nat, col: nat)
    requires
        lex(s, i, line, col) is Ok,
    ensures
        forall|j: int| 0 <= j < lex(s, i, line, col)->Ok_0.len() - 1 ==> !#[trigger] split_pair(lex(s, i, line, col)->Ok_0, j),
    decreases s.len() - i,
{
    if i >= s.len() {
        return;
    }
    let c = s[i as int];
    let next = if i + 1 < s.len() { Some(s[i + 1 as int]) } else { None::<char> };
    if c == '\n' {
        lemma_lex_merges_pairs(s, i + 1, line + 1, 0);
    } else if c == ' ' {
        lemma_lex_merges_pairs(s, i + 1, line, col + 1);
    } else {
        let (t, rest_i, rest_col) = if pair_operator(c, next) is Some {
            (token_at(s.subrange(i as int, i + 2 as int), TokenType::Operator(pair_operator(c, next)->0), line, col), i + 2, col + 2)
        } else if single_token(c) is Some {
            (token_at(s.subrange(i as int, i + 1 as int), single_token(c)->0, line, col), i + 1, col + 1)
        } else {
            let e = word_end(s, i + 1);
            let w = s.subrange(i as int, e as int);
            (token_at(w, word_kind(w), line, (col) as nat), e, (col + e - i) as nat)
        };
        if !(pair_operator(c, next) is Some) && !(single_token(c) is Some) {
            lemma_word_end_bounds(s, i + 1);
        }
        let rest = lex(s, rest_i, line, rest_col);
        lemma_lex_merges_pairs(s, rest_i, line, rest_col);
        let ts = rest->Ok_0;
        let all = lex(s, i, line, col)->Ok_0;
        assert(all =~= seq![t] + ts);
        assert forall|j: int| 0 <= j < all.len() - 1 implies !#[trigger] split_pair(all, j) by {
            if j > 0 {
                assert(all[j] == ts[j - 1]);
                assert(all[j + 1] == ts[j]);
                assert(!split_pair(ts, j - 1));
            } else if split_pair(all, 0) {
                assert(all[1] == ts[0]);
                lemma_first_token_char(s, rest_i, line, rest_col);
                assert(t.lexeme[0] == c);
            }
        }
    }
}

/// The lexer never leaves a two-character operator split in two: no
/// one-character operator is directly followed, on its line, by a token
/// that would have joined it.
pub proof fn lemma_operators_merged(s: Seq<char>)
    requires
        lex_input(s) is Ok,
    ensures
        forall|j: int| 0 <= j < lex_input(s)->Ok_0.len() - 1 ==> !#[trigger] split_pair(lex_input(s)->Ok_0, j),
{
    lemma_lex_merges_pairs(s, 0, 0, 0);
}

} // verus!
