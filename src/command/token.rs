use vstd::prelude::*;
use vstd::string::StringExecFns;

verus! {

/// The closed set of operators, each with a fixed textual form.
#[derive(Debug, Clone, Copy, PartialEq, Eq, Structural)]
pub enum Operator {
    And,
    AndIf,
    Or,
    OrIf,
    Semicolon,
    Exclamation,
    LeftPointyBracket,
    RightPointyBracket,
    DoubleRightPointyBracket,
    DiamondPointyBrackets,
    SquirrelOutput,
    SquirrelInput,
}

#[derive(Debug, Clone, Copy, PartialEq, Eq, Structural)]
pub enum Keyword {
    Exit,
}

#[derive(Debug, Clone, Copy, PartialEq, Eq, Structural)]
pub enum Word {
    Text,
    Keyword(Keyword),
}

#[derive(Debug, Clone, Copy, PartialEq, Eq, Structural)]
pub enum TokenType {
    Word(Word),
    Operator(Operator),
    LeftParen,
    RightParen,
    Backslash,
}

/// One lexeme with its kind and its place: `line` counts newlines seen
/// before it, `range` holds the first and last column it covers.
#[derive(Debug)]
pub struct Token {
    pub lexeme: String,
    pub token_type: TokenType,
    pub line: usize,
    pub range: (usize, usize),
}

/// The mathematical model of a token.
pub struct TokenView {
    pub lexeme: Seq<char>,
    pub token_type: TokenType,
    pub line: nat,
    pub start: nat,
    pub end: nat,
}

impl View for Token {
    type V = TokenView;

    open spec fn view(&self) -> TokenView {
        TokenView {
            lexeme: self.lexeme@,
            token_type: self.token_type,
            line: self.line as nat,
            start: self.range.0 as nat,
            end: self.range.1 as nat,
        }
    }
}

pub open spec fn tokens_view(ts: Seq<Token>) -> Seq<TokenView> {
    ts.map_values(|t: Token| t@)
}

impl Operator {
    pub open spec fn text(self) -> Seq<char> {
        match self {
            Operator::And => seq!['&'],
            Operator::AndIf => seq!['&', '&'],
            Operator::Or => seq!['|'],
            Operator::OrIf => seq!['|', '|'],
            Operator::Semicolon => seq![';'],
            Operator::Exclamation => seq!['!'],
            Operator::LeftPointyBracket => seq!['<'],
            Operator::RightPointyBracket => seq!['>'],
            Operator::DoubleRightPointyBracket => seq!['>', '>'],
            Operator::DiamondPointyBrackets => seq!['<', '>'],
            Operator::SquirrelOutput => seq!['&', '>'],
            Operator::SquirrelInput => seq!['<', '&'],
        }
    }
}

impl Keyword {
    pub open spec fn text(self) -> Seq<char> {
        match self {
            Keyword::Exit => seq!['e', 'x', 'i', 't'],
        }
    }
}

impl Word {
    pub open spec fn text(self) -> Seq<char> {
        match self {
            Word::Text => seq!['t', 'e', 'x', 't'],
            Word::Keyword(k) => k.text(),
        }
    }
}

impl TokenType {
    pub open spec fn text(self) -> Seq<char> {
        match self {
            TokenType::Word(w) => w.text(),
            TokenType::Operator(op) => op.text(),
            TokenType::LeftParen => seq!['('],
            TokenType::RightParen => seq![')'],
            TokenType::Backslash => seq!['\\'],
        }
    }

    /// How the kind reads: an operator or a parenthesis as written, a word
    /// as `text` or its keyword.
    pub fn to_text(&self) -> (r: String)
        ensures
            r@ == self.text(),
    {
        let s: &str = match self {
            TokenType::Word(Word::Text) => "text",
            TokenType::Word(Word::Keyword(Keyword::Exit)) => "exit",
            TokenType::Operator(Operator::And) => "&",
            TokenType::Operator(Operator::AndIf) => "&&",
            TokenType::Operator(Operator::Or) => "|",
            TokenType::Operator(Operator::OrIf) => "||",
            TokenType::Operator(Operator::Semicolon) => ";",
            TokenType::Operator(Operator::Exclamation) => "!",
            TokenType::Operator(Operator::LeftPointyBracket) => "<",
            TokenType::Operator(Operator::RightPointyBracket) => ">",
            TokenType::Operator(Operator::DoubleRightPointyBracket) => ">>",
            TokenType::Operator(Operator::DiamondPointyBrackets) => "<>",
            TokenType::Operator(Operator::SquirrelOutput) => "&>",
            TokenType::Operator(Operator::SquirrelInput) => "<&",
            TokenType::LeftParen => "(",
            TokenType::RightParen => ")",
            TokenType::Backslash => "\\",
        };
        proof {
            reveal_strlit("text");
            reveal_strlit("exit");
            reveal_strlit("&");
            reveal_strlit("&&");
            reveal_strlit("|");
            reveal_strlit("||");
            reveal_strlit(";");
            reveal_strlit("!");
            reveal_strlit("<");
            reveal_strlit(">");
            reveal_strlit(">>");
            reveal_strlit("<>");
            reveal_strlit("&>");
            reveal_strlit("<&");
            reveal_strlit("(");
            reveal_strlit(")");
            reveal_strlit("\\");
            assert(s@ =~= self.text());
        }
        String::from_str(s)
    }
}

impl Token {
    /// A copy of the token with the same view.
    pub fn duplicate(&self) -> (r: Token)
        ensures
            r@ == self@,
    {
        Token {
            lexeme: self.lexeme.clone(),
            token_type: self.token_type,
            line: self.line,
            range: self.range,
        }
    }
}

/// Copies a token sequence, keeping every token's view.
pub fn duplicate_tokens(ts: &Vec<Token>, from: usize, to: usize) -> (r: Vec<Token>)
    requires
        from <= to <= ts@.len(),
    ensures
        tokens_view(r@) == tokens_view(ts@.subrange(from as int, to as int)),
{
    let mut r: Vec<Token> = Vec::new();
    let mut i: usize = from;
    while i < to
        invariant
            from <= i <= to <= ts@.len(),
            r@.len() == i - from,
            forall|k: int| 0 <= k < r@.len() ==> #[trigger] r@[k]@ == ts@[from + k]@,
        decreases to - i,
    {
        let t = ts[i].duplicate();
        r.push(t);
        i += 1;
    }
    assert(tokens_view(r@) =~= tokens_view(ts@.subrange(from as int, to as int)));
    r
}

} // verus!
