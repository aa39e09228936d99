use vstd::prelude::*;
use vstd::string::StrSliceExecFns;
use vstd::string::StringExecFns;

use super::lexer::digit_char;
use super::token::{Keyword, Operator, Token, TokenType, TokenView, Word, tokens_view};
use crate::errors::{ErrorKind, ShellError};

verus! {

// ---------------------------------------------------------------------------
// Numbers and paths
// ---------------------------------------------------------------------------

pub open spec fn all_digits(s: Seq<char>) -> bool {
    forall|k: int| 0 <= k < s.len() ==> digit_char(#[trigger] s[k])
}

/// The value of a run of decimal digits.
pub open spec fn digits_value(s: Seq<char>) -> int
    decreases s.len(),
{
    if s.len() == 0 {
        0
    } else {
        digits_value(s.drop_last()) * 10 + ((s.last() as u32) - ('0' as u32))
    }
}

/// The integer a decimal literal with an optional sign denotes.
pub open spec fn int_literal(s: Seq<char>) -> Option<int> {
    if s.len() > 0 && all_digits(s) {
        Some(digits_value(s))
    } else if s.len() > 1 && s[0] == '-' && all_digits(s.drop_first()) {
        Some(-digits_value(s.drop_first()))
    } else if s.len() > 1 && s[0] == '+' && all_digits(s.drop_first()) {
        Some(digits_value(s.drop_first()))
    } else {
        None
    }
}

/// A file descriptor number written in a token: an `i32` literal.
pub open spec fn fd_literal(s: Seq<char>) -> Option<i32> {
    match int_literal(s) {
        Some(v) => if i32::MIN <= v <= i32::MAX { Some(v as i32) } else { None },
        None => None,
    }
}

/// A path is qualified when it starts with `/`, `./` or `../`; any other
/// path is looked up in the search paths.
pub open spec fn qualified(p: Seq<char>) -> bool {
    ||| (p.len() >= 1 && p[0] == '/')
    ||| (p.len() >= 2 && p[0] == '.' && p[1] == '/')
    ||| (p.len() >= 3 && p[0] == '.' && p[1] == '.' && p[2] == '/')
}

proof fn lemma_digits_value_nonneg(s: Seq<char>)
    requires
        all_digits(s),
    ensures
        digits_value(s) >= 0,
    decreases s.len(),
{
    if s.len() > 0 {
        lemma_digits_value_nonneg(s.drop_last());
    }
}

/// Adding digits never makes the value smaller.
proof fn lemma_digits_value_grows(s: Seq<char>, j: int)
    requires
        all_digits(s),
        0 <= j <= s.len(),
    ensures
        digits_value(s.subrange(0, j)) <= digits_value(s),
    decreases s.len() - j,
{
    if j < s.len() {
        lemma_digits_value_grows(s, j + 1);
        let a = s.subrange(0, j + 1);
        assert(a.drop_last() =~= s.subrange(0, j));
        lemma_digits_value_nonneg(s.subrange(0, j));
    } else {
        assert(s.subrange(0, j) =~= s);
    }
}

/// Reads the digits of `s` from `from` on; `None` when one is no digit,
/// when there are none, or when the value passes `limit`.
fn digits_at_most(s: &str, from: usize, limit: i64) -> (r: Option<i64>)
    requires
        from <= s@.len(),
        0 <= limit < 1_000_000_000_000,
    ensures
        r matches Some(v) ==> from < s@.len() && all_digits(s@.subrange(from as int, s@.len() as int))
            && v == digits_value(s@.subrange(from as int, s@.len() as int)) && 0 <= v <= limit,
        r is None ==> !(from < s@.len() && all_digits(s@.subrange(from as int, s@.len() as int))
            && digits_value(s@.subrange(from as int, s@.len() as int)) <= limit),
{
    let n = s.unicode_len();
    if from >= n {
        return None;
    }
    let ghost t = s@.subrange(from as int, n as int);
    let mut acc: i64 = 0;
    let mut i: usize = from;
    while i < n
        invariant
            from <= i <= n == s@.len(),
            t == s@.subrange(from as int, n as int),
            all_digits(s@.subrange(from as int, i as int)),
            acc == digits_value(s@.subrange(from as int, i as int)),
            0 <= acc <= limit,
            limit < 1_000_000_000_000,
        decreases n - i,
    {
        let c = s.get_char(i);
        if !(c >= '0' && c <= '9') {
            proof {
                assert(t[i - from] == c);
            }
            return None;
        }
        proof {
            let a = s@.subrange(from as int, i + 1);
            assert(a.drop_last() =~= s@.subrange(from as int, i as int));
            assert(a.last() == c);
            assert(all_digits(a)) by {
                assert forall|k: int| 0 <= k < a.len() implies digit_char(#[trigger] a[k]) by {
                    if k < a.len() - 1 {
                        assert(a[k] == s@.subrange(from as int, i as int)[k]);
                    }
                }
            }
        }
        let d: u32 = c as u32 - '0' as u32;
        proof {
            assert(0 <= acc * 10 <= 10_000_000_000_000) by (nonlinear_arith)
                requires
                    0 <= acc <= 1_000_000_000_000i64,
            ;
        }
        acc = acc * 10 + d as i64;
        if acc > limit {
            proof {
                let a = s@.subrange(from as int, i + 1);
                if all_digits(t) {
                    assert(t.subrange(0, i + 1 - from) =~= a);
                    lemma_digits_value_grows(t, i + 1 - from);
                }
            }
            return None;
        }
        i += 1;
    }
    Some(acc)
}

/// The character of a decimal digit.
pub open spec fn digit_of(d: int) -> char {
    if d == 0 { '0' }
    else if d == 1 { '1' }
    else if d == 2 { '2' }
    else if d == 3 { '3' }
    else if d == 4 { '4' }
    else if d == 5 { '5' }
    else if d == 6 { '6' }
    else if d == 7 { '7' }
    else if d == 8 { '8' }
    else { '9' }
}

/// The decimal digits of a natural number, without leading zeros.
pub open spec fn digits_of(n: nat) -> Seq<char>
    decreases n,
{
    if n < 10 {
        seq![digit_of(n as int)]
    } else {
        digits_of(n / 10).push(digit_of((n % 10) as int))
    }
}

/// An integer written in decimal, with a `-` when negative.
pub open spec fn decimal(n: int) -> Seq<char> {
    if n < 0 {
        seq!['-'] + digits_of((-n) as nat)
    } else {
        digits_of(n as nat)
    }
}

proof fn lemma_digit_value(k: int)
    requires
        0 <= k < 10,
    ensures
        digit_char(digit_of(k)),
        (digit_of(k) as u32) - ('0' as u32) == k,
{
}

proof fn lemma_digits_of_reads_back(n: nat)
    ensures
        digits_of(n).len() > 0,
        all_digits(digits_of(n)),
        digits_value(digits_of(n)) == n,
    decreases n,
{
    if n >= 10 {
        lemma_digits_of_reads_back(n / 10);
        lemma_digit_value((n % 10) as int);
        let d = digits_of(n);
        assert(d.drop_last() =~= digits_of(n / 10));
        assert(d.last() == digit_of((n % 10) as int));
        assert(digits_value(d) == digits_value(d.drop_last()) * 10 + ((d.last() as u32) - ('0' as u32)));
        assert((n / 10) * 10 + n % 10 == n) by (nonlinear_arith);
        assert forall|k: int| 0 <= k < d.len() implies digit_char(#[trigger] d[k]) by {
            if k < d.len() - 1 {
                assert(d[k] == digits_of(n / 10)[k]);
            }
        }
    } else {
        lemma_digit_value(n as int);
        let d = digits_of(n);
        assert(d.drop_last() =~= Seq::<char>::empty());
        assert(digits_value(d.drop_last()) == 0);
        assert(digits_value(d) == digits_value(d.drop_last()) * 10 + ((d.last() as u32) - ('0' as u32)));
    }
}

/// A descriptor number written in decimal reads back as the same number.
pub proof fn lemma_fd_text_reads_back(n: i32)
    ensures
        fd_literal(decimal(n as int)) == Some(n),
{
    if n < 0 {
        let m = (-(n as int)) as nat;
        lemma_digits_of_reads_back(m);
        let t = decimal(n as int);
        assert(t.drop_first() =~= digits_of(m));
        assert(!digit_char(t[0]));
        assert(!all_digits(t));
    } else {
        lemma_digits_of_reads_back(n as nat);
    }
}

fn digit_text(d: u64) -> (r: &'static str)
    requires
        d < 10,
    ensures
        r@ == seq![digit_of(d as int)],
{
    proof {
        reveal_strlit("0");
        reveal_strlit("1");
        reveal_strlit("2");
        reveal_strlit("3");
        reveal_strlit("4");
        reveal_strlit("5");
        reveal_strlit("6");
        reveal_strlit("7");
        reveal_strlit("8");
        reveal_strlit("9");
    }
    let r = if d == 0 { "0" }
    else if d == 1 { "1" }
    else if d == 2 { "2" }
    else if d == 3 { "3" }
    else if d == 4 { "4" }
    else if d == 5 { "5" }
    else if d == 6 { "6" }
    else if d == 7 { "7" }
    else if d == 8 { "8" }
    else { "9" };
    proof {
        assert(r@ =~= seq![digit_of(d as int)]);
    }
    r
}

fn digits_text(n: u64) -> (r: String)
    ensures
        r@ == digits_of(n as nat),
    decreases n,
{
    if n < 10 {
        String::from_str(digit_text(n))
    } else {
        let mut r = digits_text(n / 10);
        let ghost before = r@;
        r.append(digit_text(n % 10));
        proof {
            assert(r@ =~= before.push(digit_of((n % 10) as int)));
        }
        r
    }
}

/// A descriptor number written in decimal.
pub fn fd_text(n: i32) -> (r: String)
    ensures
        r@ == decimal(n as int),
{
    if n < 0 {
        let m: u64 = (0 - (n as i64)) as u64;
        let mut r = String::from_str("-");
        proof {
            reveal_strlit("-");
        }
        let ghost before = r@;
        let d = digits_text(m);
        r.append(d.as_str());
        proof {
            assert(before =~= seq!['-']);
        }
        r
    } else {
        digits_text(n as u64)
    }
}

/// Reads a file descriptor number: an optional sign and decimal digits that
/// fit in an `i32`.
pub fn parse_fd(s: &str) -> (r: Option<i32>)
    ensures
        r == fd_literal(s@),
{
    let n = s.unicode_len();
    if n == 0 {
        return None;
    }
    let c = s.get_char(0);
    if c == '-' || c == '+' {
        let limit: i64 = if c == '-' { 2147483648 } else { 2147483647 };
        let r = digits_at_most(s, 1, limit);
        proof {
            assert(s@.subrange(1, s@.len() as int) =~= s@.drop_first());
            if !all_digits(s@) {
            } else {
                assert(!digit_char(s@[0]));
            }
        }
        match r {
            Some(v) => {
                if c == '-' {
                    Some((0 - v) as i32)
                } else {
                    Some(v as i32)
                }
            },
            None => None,
        }
    } else {
        let r = digits_at_most(s, 0, 2147483647);
        proof {
            assert(s@.subrange(0, s@.len() as int) =~= s@);
        }
        match r {
            Some(v) => Some(v as i32),
            None => None,
        }
    }
}

/// Whether a path starts with `/`, `./` or `../`.
pub fn is_qualified_path(p: &str) -> (r: bool)
    ensures
        r == qualified(p@),
{
    let n = p.unicode_len();
    if n >= 1 && p.get_char(0) == '/' {
        return true;
    }
    if n >= 2 && p.get_char(0) == '.' && p.get_char(1) == '/' {
        return true;
    }
    n >= 3 && p.get_char(0) == '.' && p.get_char(1) == '.' && p.get_char(2) == '/'
}

// ---------------------------------------------------------------------------
// Commands and logical command units
// ---------------------------------------------------------------------------

/// One simple command: its words, the path typed for it, whether its exit
/// status is negated, and whether its path is looked up in the search paths.
#[derive(Debug)]
pub struct Command {
    /// The words, as text.
    pub args_with_cmd: Vec<String>,
    pub tokens: Vec<Token>,
    pub path: String,
    pub negate_exit_status: bool,
    pub is_unqualified_path: bool,
}

pub struct CommandView {
    pub args_with_cmd: Seq<Seq<char>>,
    pub tokens: Seq<TokenView>,
    pub path: Seq<char>,
    pub negate_exit_status: bool,
    pub is_unqualified_path: bool,
}

impl View for Command {
    type V = CommandView;

    open spec fn view(&self) -> CommandView {
        CommandView {
            args_with_cmd: self.args_with_cmd@.map_values(|a: String| a@),
            tokens: tokens_view(self.tokens@),
            path: self.path@,
            negate_exit_status: self.negate_exit_status,
            is_unqualified_path: self.is_unqualified_path,
        }
    }
}

/// The command built from `words`, with `path` as the path typed for it.
pub open spec fn command_of(words: Seq<TokenView>, path: Seq<char>, negate: bool) -> CommandView {
    CommandView {
        args_with_cmd: lexemes(words),
        tokens: words,
        path,
        negate_exit_status: negate,
        is_unqualified_path: !qualified(path),
    }
}

pub open spec fn lexemes(words: Seq<TokenView>) -> Seq<Seq<char>> {
    words.map_values(|t: TokenView| t.lexeme)
}

/// What a unit asks of the engine around its command: a redirection or a
/// descriptor duplication (with the descriptor numbers written, if any), or
/// the separator that ends it.
#[derive(Debug, Clone, Copy, PartialEq, Eq, Structural)]
pub enum OpType {
    RedirectOutput(Option<i32>),
    RedirectInput(Option<i32>),
    RedirectAppendOutput(Option<i32>),
    RedirectReadWrite(Option<i32>),
    /// `source` is `None` for `-`, which closes `target`.
    RedirectSquirrelOutput { source: Option<i32>, target: Option<i32> },
    RedirectSquirrelInput { source: Option<i32>, target: Option<i32> },
    OrIf,
    Pipe,
    AndIf,
    Semicolon,
    Background,
}

/// A descriptor number as written before an operator, if any.
pub open spec fn fd_prefix(fd: Option<i32>) -> Seq<char> {
    match fd {
        Some(n) => decimal(n as int),
        None => Seq::empty(),
    }
}

/// What follows a duplication operator: a descriptor number, or `-`.
pub open spec fn source_text(source: Option<i32>) -> Seq<char> {
    match source {
        Some(n) => decimal(n as int),
        None => seq!['-'],
    }
}

impl OpType {
    /// The operator as it is written in a command line.
    pub open spec fn text(self) -> Seq<char> {
        match self {
            OpType::RedirectOutput(fd) => fd_prefix(fd) + seq!['>'],
            OpType::RedirectInput(fd) => fd_prefix(fd) + seq!['<'],
            OpType::RedirectAppendOutput(fd) => fd_prefix(fd) + seq!['>', '>'],
            OpType::RedirectReadWrite(fd) => fd_prefix(fd) + seq!['<', '>'],
            OpType::RedirectSquirrelOutput { source, target } => fd_prefix(target) + seq!['&', '>'] + source_text(source),
            OpType::RedirectSquirrelInput { source, target } => fd_prefix(target) + seq!['<', '&'] + source_text(source),
            OpType::OrIf => seq!['|', '|'],
            OpType::Pipe => seq!['|'],
            OpType::AndIf => seq!['&', '&'],
            OpType::Semicolon => seq![';'],
            OpType::Background => seq!['&'],
        }
    }

    /// The operator as it is written in a command line.
    pub fn to_text(&self) -> (r: String)
        ensures
            r@ == self.text(),
    {
        proof {
            reveal_strlit(">");
            reveal_strlit("<");
            reveal_strlit(">>");
            reveal_strlit("<>");
            reveal_strlit("&>");
            reveal_strlit("<&");
            reveal_strlit("||");
            reveal_strlit("|");
            reveal_strlit("&&");
            reveal_strlit(";");
            reveal_strlit("&");
            reveal_strlit("-");
        }
        let (fd, op, source): (Option<i32>, &str, Option<Option<i32>>) = match *self {
            OpType::RedirectOutput(fd) => (fd, ">", None),
            OpType::RedirectInput(fd) => (fd, "<", None),
            OpType::RedirectAppendOutput(fd) => (fd, ">>", None),
            OpType::RedirectReadWrite(fd) => (fd, "<>", None),
            OpType::RedirectSquirrelOutput { source, target } => (target, "&>", Some(source)),
            OpType::RedirectSquirrelInput { source, target } => (target, "<&", Some(source)),
            OpType::OrIf => (None, "||", None),
            OpType::Pipe => (None, "|", None),
            OpType::AndIf => (None, "&&", None),
            OpType::Semicolon => (None, ";", None),
            OpType::Background => (None, "&", None),
        };
        let mut r = match fd {
            Some(n) => fd_text(n),
            None => String::new(),
        };
        r.append(op);
        match source {
            Some(Some(n)) => {
                let t = fd_text(n);
                r.append(t.as_str());
            },
            Some(None) => r.append("-"),
            None => {},
        }
        proof {
            assert(r@ =~= self.text());
        }
        r
    }
}

#[derive(Debug)]
pub enum ExecuteMode {
    Normal,
    Subshell(Vec<Token>),
}

/// One logical command unit.
#[derive(Debug)]
pub struct ParseResult {
    pub cmds: Vec<Command>,
    pub execute_mode: ExecuteMode,
    pub exit_term: bool,
    pub associated_operator: Option<OpType>,
}

pub struct UnitView {
    pub cmds: Seq<CommandView>,
    /// The captured tokens of a subshell unit.
    pub subshell: Option<Seq<TokenView>>,
    pub exit_term: bool,
    pub op: Option<OpType>,
}

impl View for ParseResult {
    type V = UnitView;

    open spec fn view(&self) -> UnitView {
        UnitView {
            cmds: self.cmds@.map_values(|c: Command| c@),
            subshell: match self.execute_mode {
                ExecuteMode::Normal => None,
                ExecuteMode::Subshell(ts) => Some(tokens_view(ts@)),
            },
            exit_term: self.exit_term,
            op: self.associated_operator,
        }
    }
}

/// What has been gathered of a unit so far.
pub struct Acc {
    pub words: Seq<TokenView>,
    pub path: Option<Seq<char>>,
    pub negate: bool,
    pub exit: bool,
    /// How many parentheses are open.
    pub depth: nat,
    pub captured: Seq<TokenView>,
    pub subshell: Option<Seq<TokenView>>,
}

pub open spec fn empty_acc() -> Acc {
    Acc {
        words: Seq::empty(),
        path: None,
        negate: false,
        exit: false,
        depth: 0,
        captured: Seq::empty(),
        subshell: None,
    }
}

pub open spec fn no_path_message() -> Seq<char> {
    "could not find command path"@
}

pub open spec fn no_file_message() -> Seq<char> {
    "expected a file path after redirection operator"@
}

pub open spec fn fd_or_minus_message() -> Seq<char> {
    "expected file descriptor or minus after squirrel redirection operator"@
}

pub open spec fn unclosed_message() -> Seq<char> {
    "expected ) at the end"@
}

pub open spec fn unopened_message() -> Seq<char> {
    "unexpected )"@
}

pub open spec fn misplaced_negation_message() -> Seq<char> {
    "! found in invalid place"@
}

/// The unit that a boundary (a separator, or the end of input) closes.
pub open spec fn finish(acc: Acc, op: Option<OpType>, next: nat) -> Result<(UnitView, nat), ErrorKind> {
    if acc.subshell is Some {
        Ok((UnitView { cmds: Seq::empty(), subshell: acc.subshell, exit_term: acc.exit, op }, next))
    } else if acc.path is Some {
        Ok((
            UnitView {
                cmds: seq![command_of(acc.words, acc.path->0, acc.negate)],
                subshell: None,
                exit_term: acc.exit,
                op,
            },
            next,
        ))
    } else if acc.exit {
        Ok((UnitView { cmds: Seq::empty(), subshell: None, exit_term: true, op }, next))
    } else {
        Err(ErrorKind::InternalError(no_path_message()))
    }
}

/// The words left once a trailing descriptor number is taken off, and that number.
pub open spec fn split_fd(words: Seq<TokenView>) -> (Seq<TokenView>, Option<i32>) {
    if words.len() > 0 && fd_literal(words.last().lexeme) is Some {
        (words.drop_last(), fd_literal(words.last().lexeme))
    } else {
        (words, None)
    }
}

pub open spec fn redirect_op(op: Operator, fd: Option<i32>) -> OpType {
    match op {
        Operator::LeftPointyBracket => OpType::RedirectInput(fd),
        Operator::RightPointyBracket => OpType::RedirectOutput(fd),
        Operator::DoubleRightPointyBracket => OpType::RedirectAppendOutput(fd),
        _ => OpType::RedirectReadWrite(fd),
    }
}

pub open spec fn is_minus(s: Seq<char>) -> bool {
    s.len() == 1 && s[0] == '-'
}

/// A redirection: the unit ends with the token after the operator, which
/// names the file.
pub open spec fn redirect(toks: Seq<TokenView>, i: nat, acc: Acc, op: Operator) -> Result<(UnitView, nat), ErrorKind> {
    let (words, fd) = split_fd(acc.words);
    if acc.path is None {
        Err(ErrorKind::InternalError(no_path_message()))
    } else if i + 1 >= toks.len() {
        Err(ErrorKind::ParseError(no_file_message()))
    } else {
        let f = toks[i + 1 as int];
        Ok((
            UnitView {
                cmds: seq![command_of(words, acc.path->0, acc.negate), command_of(seq![f], f.lexeme, false)],
                subshell: None,
                exit_term: acc.exit,
                op: Some(redirect_op(op, fd)),
            },
            i + 2,
        ))
    }
}

/// A descriptor duplication: the token after the operator is `-` or a number.
pub open spec fn duplicate(toks: Seq<TokenView>, i: nat, acc: Acc, op: Operator) -> Result<(UnitView, nat), ErrorKind> {
    let (words, target) = split_fd(acc.words);
    if i + 1 >= toks.len() {
        Err(ErrorKind::ParseError(fd_or_minus_message()))
    } else {
        let n = toks[i + 1 as int].lexeme;
        if !is_minus(n) && fd_literal(n) is None {
            Err(ErrorKind::ParseError(fd_or_minus_message()))
        } else if acc.path is None {
            Err(ErrorKind::InternalError(no_path_message()))
        } else {
            let source = if is_minus(n) { None } else { fd_literal(n) };
            let o = if op == Operator::SquirrelOutput {
                OpType::RedirectSquirrelOutput { source, target }
            } else {
                OpType::RedirectSquirrelInput { source, target }
            };
            Ok((
                UnitView {
                    cmds: seq![command_of(words, acc.path->0, acc.negate)],
                    subshell: None,
                    exit_term: acc.exit,
                    op: Some(o),
                },
                i + 2,
            ))
        }
    }
}

/// The separator that an operator stands for, if it is one.
pub open spec fn separator_op(op: Operator) -> Option<OpType> {
    match op {
        Operator::Semicolon => Some(OpType::Semicolon),
        Operator::AndIf => Some(OpType::AndIf),
        Operator::OrIf => Some(OpType::OrIf),
        Operator::Or => Some(OpType::Pipe),
        Operator::And => Some(OpType::Background),
        _ => None,
    }
}

/// The unit that starts at `u`, its scan having reached `i` with `acc`
/// gathered: the unit and the position after it, or the kind of error.
pub open spec fn scan_unit(toks: Seq<TokenView>, u: nat, i: nat, acc: Acc) -> Result<(UnitView, nat), ErrorKind>
    decreases toks.len() - i,
{
    if i >= toks.len() {
        if acc.depth > 0 {
            Err(ErrorKind::ParseError(unclosed_message()))
        } else {
            finish(acc, None, i)
        }
    } else {
        let t = toks[i as int];
        if acc.depth > 0 {
            match t.token_type {
                TokenType::RightParen => if acc.depth == 1 {
                    scan_unit(toks, u, i + 1, Acc { depth: 0, subshell: Some(acc.captured), captured: Seq::empty(), ..acc })
                } else {
                    scan_unit(toks, u, i + 1, Acc { depth: (acc.depth - 1) as nat, captured: acc.captured.push(t), ..acc })
                },
                TokenType::LeftParen => scan_unit(toks, u, i + 1, Acc { depth: acc.depth + 1, captured: acc.captured.push(t), ..acc }),
                _ => scan_unit(toks, u, i + 1, Acc { captured: acc.captured.push(t), ..acc }),
            }
        } else {
            match t.token_type {
                TokenType::Word(Word::Text) => scan_unit(
                    toks,
                    u,
                    i + 1,
                    Acc { path: if acc.path is None { Some(t.lexeme) } else { acc.path }, words: acc.words.push(t), ..acc },
                ),
                TokenType::Word(Word::Keyword(_)) => scan_unit(toks, u, i + 1, Acc { exit: true, ..acc }),
                TokenType::Operator(op) => if separator_op(op) is Some {
                    finish(acc, separator_op(op), i + 1)
                } else if op == Operator::Exclamation {
                    if i == u {
                        scan_unit(toks, u, i + 1, Acc { negate: true, ..acc })
                    } else {
                        Err(ErrorKind::ParseError(misplaced_negation_message()))
                    }
                } else if op == Operator::SquirrelOutput || op == Operator::SquirrelInput {
                    duplicate(toks, i, acc, op)
                } else {
                    redirect(toks, i, acc, op)
                },
                TokenType::LeftParen => scan_unit(toks, u, i + 1, Acc { depth: 1, captured: Seq::empty(), ..acc }),
                TokenType::RightParen => Err(ErrorKind::ParseError(unopened_message())),
                TokenType::Backslash => scan_unit(toks, u, i + 1, acc),
            }
        }
    }
}

/// The unit that starts at `u`.
pub open spec fn parse_unit(toks: Seq<TokenView>, u: nat) -> Result<(UnitView, nat), ErrorKind> {
    scan_unit(toks, u, u, empty_acc())
}

pub open spec fn opt_view(o: Option<String>) -> Option<Seq<char>> {
    match o {
        Some(p) => Some(p@),
        None => None,
    }
}

pub open spec fn opt_tokens_view(o: Option<Vec<Token>>) -> Option<Seq<TokenView>> {
    match o {
        Some(ts) => Some(tokens_view(ts@)),
        None => None,
    }
}

pub open spec fn commands_view(cs: Seq<Command>) -> Seq<CommandView> {
    cs.map_values(|c: Command| c@)
}

proof fn lemma_tokens_view_push(s: Seq<Token>, t: Token)
    ensures
        tokens_view(s.push(t)) == tokens_view(s).push(t@),
{
    assert(tokens_view(s.push(t)) =~= tokens_view(s).push(t@));
}

proof fn lemma_tokens_view_drop_last(s: Seq<Token>)
    requires
        s.len() > 0,
    ensures
        tokens_view(s.drop_last()) == tokens_view(s).drop_last(),
        tokens_view(s).last() == s.last()@,
{
    assert(tokens_view(s.drop_last()) =~= tokens_view(s).drop_last());
}

/// Builds a command from its words and the path typed for it.
pub fn make_command(tokens: Vec<Token>, cmd_path: String, negate_exit_status: bool) -> (r: Command)
    ensures
        r@ == command_of(tokens_view(tokens@), cmd_path@, negate_exit_status),
{
    let is_unqualified_path = !is_qualified_path(cmd_path.as_str());
    let mut args_with_cmd: Vec<String> = Vec::new();
    let mut i: usize = 0;
    while i < tokens.len()
        invariant
            i <= tokens@.len(),
            args_with_cmd@.len() == i,
            forall|k: int| 0 <= k < i ==> #[trigger] args_with_cmd@[k]@ == tokens@[k].lexeme@,
        decreases tokens.len() - i,
    {
        args_with_cmd.push(tokens[i].lexeme.clone());
        i += 1;
    }
    proof {
        assert(args_with_cmd@.map_values(|a: String| a@) =~= lexemes(tokens_view(tokens@)));
    }
    Command { args_with_cmd, tokens, path: cmd_path, negate_exit_status, is_unqualified_path }
}

/// Takes a trailing descriptor number off the words, if the last word is one.
fn take_fd(words: &mut Vec<Token>) -> (r: Option<i32>)
    ensures
        (tokens_view(final(words)@), r) == split_fd(tokens_view(old(words)@)),
{
    let n = words.len();
    if n == 0 {
        return None;
    }
    proof {
        lemma_tokens_view_drop_last(words@);
    }
    let fd = parse_fd(words[n - 1].lexeme.as_str());
    match fd {
        Some(v) => {
            words.pop();
            proof {
                assert(words@ == old(words)@.drop_last());
            }
            Some(v)
        },
        None => None,
    }
}

/// Closes a unit at a boundary.
fn finish_unit(
    words: Vec<Token>,
    path: Option<String>,
    negate: bool,
    exit: bool,
    subshell: Option<Vec<Token>>,
    op: Option<OpType>,
) -> (r: Result<ParseResult, ShellError>)
    ensures
        match finish(
            Acc {
                words: tokens_view(words@),
                path: opt_view(path),
                negate,
                exit,
                depth: 0,
                captured: Seq::empty(),
                subshell: opt_tokens_view(subshell),
            },
            op,
            0,
        ) {
            Ok((unit, _)) => r matches Ok(res) && res@ == unit,
            Err(k) => r matches Err(e) && e.kind() == k,
        },
{
    match subshell {
        Some(ts) => {
            let res = ParseResult {
                cmds: Vec::new(),
                execute_mode: ExecuteMode::Subshell(ts),
                exit_term: exit,
                associated_operator: op,
            };
            proof {
                assert(commands_view(res.cmds@) =~= Seq::<CommandView>::empty());
            }
            Ok(res)
        },
        None => match path {
            Some(p) => {
                let cmd = make_command(words, p, negate);
                let mut cmds: Vec<Command> = Vec::new();
                cmds.push(cmd);
                let res = ParseResult {
                    cmds,
                    execute_mode: ExecuteMode::Normal,
                    exit_term: exit,
                    associated_operator: op,
                };
                proof {
                    assert(commands_view(res.cmds@) =~= seq![cmd@]);
                }
                Ok(res)
            },
            None => {
                if exit {
                    let res = ParseResult {
                        cmds: Vec::new(),
                        execute_mode: ExecuteMode::Normal,
                        exit_term: true,
                        associated_operator: op,
                    };
                    proof {
                        assert(commands_view(res.cmds@) =~= Seq::<CommandView>::empty());
                    }
                    Ok(res)
                } else {
                    Err(ShellError::InternalError(String::from_str("could not find command path")))
                }
            },
        },
    }
}

/// Reads a logical command unit at a time from a token sequence.
pub struct Parser<'a> {
    tokens: &'a Vec<Token>,
    idx: usize,
}

impl<'a> Parser<'a> {
    /// The tokens read.
    pub closed spec fn toks(&self) -> Seq<TokenView> {
        tokens_view(self.tokens@)
    }

    /// Where the next unit starts.
    pub closed spec fn pos(&self) -> nat {
        self.idx as nat
    }

    pub fn new(tokens: &'a Vec<Token>) -> (r: Parser<'a>)
        ensures
            r.toks() == tokens_view(tokens@),
            r.pos() == 0,
    {
        Parser { tokens, idx: 0 }
    }

    /// A parser that reads on from position `idx`.
    pub fn at(tokens: &'a Vec<Token>, idx: usize) -> (r: Parser<'a>)
        ensures
            r.toks() == tokens_view(tokens@),
            r.pos() == idx,
    {
        Parser { tokens, idx }
    }

    pub fn position(&self) -> (r: usize)
        ensures
            r == self.pos(),
    {
        self.idx
    }

    /// The next logical command unit, or `None` once every token is read.
    pub fn get_command(&mut self) -> (r: Result<Option<ParseResult>, ShellError>)
        ensures
            final(self).toks() == old(self).toks(),
            old(self).pos() >= old(self).toks().len() ==> (r matches Ok(None) && final(self).pos() == old(self).pos()),
            old(self).pos() < old(self).toks().len() ==> match parse_unit(old(self).toks(), old(self).pos()) {
                Ok((unit, next)) => r matches Ok(Some(res)) && res@ == unit && final(self).pos() == next,
                Err(k) => r matches Err(e) && e.kind() == k,
            },
    {
        let n = self.tokens.len();
        let u = self.idx;
        if u >= n {
            return Ok(None);
        }
        let ghost toks = tokens_view(self.tokens@);
        let mut words: Vec<Token> = Vec::new();
        let mut path: Option<String> = None;
        let mut negate = false;
        let mut exit = false;
        let mut depth: usize = 0;
        let mut captured: Vec<Token> = Vec::new();
        let mut subshell: Option<Vec<Token>> = None;
        proof {
            assert(tokens_view(words@) =~= Seq::<TokenView>::empty());
            assert(tokens_view(captured@) =~= Seq::<TokenView>::empty());
        }
        while self.idx < n
            invariant
                self.tokens == old(self).tokens,
                toks == tokens_view(self.tokens@),
                n == self.tokens@.len(),
                u == old(self).idx,
                u <= self.idx <= n,
                depth <= self.idx,
                scan_unit(toks, u as nat, self.idx as nat, Acc {
                    words: tokens_view(words@),
                    path: opt_view(path),
                    negate,
                    exit,
                    depth: depth as nat,
                    captured: tokens_view(captured@),
                    subshell: opt_tokens_view(subshell),
                }) == parse_unit(toks, u as nat),
            decreases n - self.idx,
        {
            let i = self.idx;
            self.idx = i + 1;
            let tt = self.tokens[i].token_type;
            proof {
                assert(toks[i as int] == self.tokens@[i as int]@);
            }
            if depth > 0 {
                let t = self.tokens[i].duplicate();
                proof {
                    lemma_tokens_view_push(captured@, t);
                }
                match tt {
                    TokenType::RightParen => {
                        if depth == 1 {
                            depth = 0;
                            subshell = Some(captured);
                            captured = Vec::new();
                            proof {
                                assert(tokens_view(captured@) =~= Seq::<TokenView>::empty());
                            }
                        } else {
                            depth = depth - 1;
                            captured.push(t);
                        }
                    },
                    TokenType::LeftParen => {
                        depth = depth + 1;
                        captured.push(t);
                    },
                    _ => {
                        captured.push(t);
                    },
                }
            } else {
                match tt {
                    TokenType::Word(Word::Text) => {
                        let t = self.tokens[i].duplicate();
                        if path.is_none() {
                            path = Some(t.lexeme.clone());
                        }
                        proof {
                            lemma_tokens_view_push(words@, t);
                        }
                        words.push(t);
                    },
                    TokenType::Word(Word::Keyword(_)) => {
                        exit = true;
                    },
                    TokenType::Operator(op) => {
                        match op {
                            Operator::Semicolon | Operator::AndIf | Operator::OrIf | Operator::Or | Operator::And => {
                                let o = match op {
                                    Operator::Semicolon => OpType::Semicolon,
                                    Operator::AndIf => OpType::AndIf,
                                    Operator::OrIf => OpType::OrIf,
                                    Operator::Or => OpType::Pipe,
                                    _ => OpType::Background,
                                };
                                let r = finish_unit(words, path, negate, exit, subshell, Some(o));
                                return match r {
                                    Ok(res) => Ok(Some(res)),
                                    Err(e) => Err(e),
                                };
                            },
                            Operator::Exclamation => {
                                if i != u {
                                    return Err(ShellError::ParseError(String::from_str("! found in invalid place")));
                                }
                                negate = true;
                            },
                            Operator::SquirrelOutput | Operator::SquirrelInput => {
                                return self.handle_duplication(words, path, negate, exit, op);
                            },
                            _ => {
                                return self.handle_redirection(words, path, negate, exit, op);
                            },
                        }
                    },
                    TokenType::LeftParen => {
                        depth = 1;
                        captured = Vec::new();
                        proof {
                            assert(tokens_view(captured@) =~= Seq::<TokenView>::empty());
                        }
                    },
                    TokenType::RightParen => {
                        return Err(ShellError::ParseError(String::from_str("unexpected )")));
                    },
                    TokenType::Backslash => {},
                }
            }
        }
        if depth > 0 {
            return Err(ShellError::ParseError(String::from_str("expected ) at the end")));
        }
        let r = finish_unit(words, path, negate, exit, subshell, None);
        match r {
            Ok(res) => Ok(Some(res)),
            Err(e) => Err(e),
        }
    }

    /// Ends a unit at a redirection operator standing just before the current
    /// position: the next token names the file.
    fn handle_redirection(
        &mut self,
        words: Vec<Token>,
        path: Option<String>,
        negate: bool,
        exit: bool,
        op: Operator,
    ) -> (r: Result<Option<ParseResult>, ShellError>)
        requires
            1 <= old(self).idx <= old(self).tokens@.len(),
        ensures
            final(self).tokens == old(self).tokens,
            match redirect(
                tokens_view(old(self).tokens@),
                (old(self).idx - 1) as nat,
                Acc { words: tokens_view(words@), path: opt_view(path), negate, exit, depth: 0, captured: Seq::empty(), subshell: None },
                op,
            ) {
                Ok((unit, next)) => r matches Ok(Some(res)) && res@ == unit && final(self).idx == next,
                Err(k) => r matches Err(e) && e.kind() == k,
            },
    {
        let mut words = words;
        let fd = take_fd(&mut words);
        let cmd_path = match path {
            Some(p) => p,
            None => {
                return Err(ShellError::InternalError(String::from_str("could not find command path")));
            },
        };
        if self.idx >= self.tokens.len() {
            return Err(ShellError::ParseError(String::from_str("expected a file path after redirection operator")));
        }
        let o = match op {
            Operator::LeftPointyBracket => OpType::RedirectInput(fd),
            Operator::RightPointyBracket => OpType::RedirectOutput(fd),
            Operator::DoubleRightPointyBracket => OpType::RedirectAppendOutput(fd),
            _ => OpType::RedirectReadWrite(fd),
        };
        let cmds = self.handle_pointy_bracket_redirection_cmd_gen(words, cmd_path, negate);
        Ok(Some(ParseResult { cmds, execute_mode: ExecuteMode::Normal, exit_term: exit, associated_operator: Some(o) }))
    }

    /// The command before a redirection and the command that names its file.
    fn handle_pointy_bracket_redirection_cmd_gen(&mut self, tokens: Vec<Token>, cmd_path: String, negate_exit_status: bool) -> (r: Vec<
        Command,
    >)
        requires
            old(self).idx < old(self).tokens@.len(),
        ensures
            final(self).tokens == old(self).tokens,
            final(self).idx == old(self).idx + 1,
            commands_view(r@) == seq![
                command_of(tokens_view(tokens@), cmd_path@, negate_exit_status),
                command_of(seq![old(self).tokens@[old(self).idx as int]@], old(self).tokens@[old(self).idx as int]@.lexeme, false),
            ],
    {
        let cmd = make_command(tokens, cmd_path, negate_exit_status);
        let file_path_cmd = self.make_file_path_cmd();
        let mut r: Vec<Command> = Vec::new();
        r.push(cmd);
        r.push(file_path_cmd);
        proof {
            assert(commands_view(r@) =~= seq![cmd@, file_path_cmd@]);
        }
        r
    }

    /// Consumes the token naming a redirection's file.
    fn make_file_path_cmd(&mut self) -> (r: Command)
        requires
            old(self).idx < old(self).tokens@.len(),
        ensures
            final(self).tokens == old(self).tokens,
            final(self).idx == old(self).idx + 1,
            r@ == command_of(seq![old(self).tokens@[old(self).idx as int]@], old(self).tokens@[old(self).idx as int]@.lexeme, false),
    {
        let n = self.tokens.len();
        let i = self.idx;
        let file_path_token = self.tokens[i].duplicate();
        assert(i < n);
        self.idx = i + 1;
        let file_path = file_path_token.lexeme.clone();
        let mut ts: Vec<Token> = Vec::new();
        ts.push(file_path_token);
        proof {
            assert(tokens_view(ts@) =~= seq![file_path_token@]);
        }
        make_command(ts, file_path, false)
    }

    /// Ends a unit at a descriptor duplication operator standing just before
    /// the current position: the next token is `-` or a descriptor number.
    fn handle_duplication(
        &mut self,
        words: Vec<Token>,
        path: Option<String>,
        negate: bool,
        exit: bool,
        op: Operator,
    ) -> (r: Result<Option<ParseResult>, ShellError>)
        requires
            1 <= old(self).idx <= old(self).tokens@.len(),
        ensures
            final(self).tokens == old(self).tokens,
            match duplicate(
                tokens_view(old(self).tokens@),
                (old(self).idx - 1) as nat,
                Acc { words: tokens_view(words@), path: opt_view(path), negate, exit, depth: 0, captured: Seq::empty(), subshell: None },
                op,
            ) {
                Ok((unit, next)) => r matches Ok(Some(res)) && res@ == unit && final(self).idx == next,
                Err(k) => r matches Err(e) && e.kind() == k,
            },
    {
        let mut words = words;
        let target = take_fd(&mut words);
        let i = self.idx;
        if i >= self.tokens.len() {
            return Err(ShellError::ParseError(
                String::from_str("expected file descriptor or minus after squirrel redirection operator"),
            ));
        }
        self.idx = i + 1;
        let lexeme = self.tokens[i].lexeme.as_str();
        let minus = lexeme.unicode_len() == 1 && lexeme.get_char(0) == '-';
        let source = if minus {
            None
        } else {
            match parse_fd(lexeme) {
                Some(fd) => Some(fd),
                None => {
                    return Err(ShellError::ParseError(
                        String::from_str("expected file descriptor or minus after squirrel redirection operator"),
                    ));
                },
            }
        };
        let cmd_path = match path {
            Some(p) => p,
            None => {
                return Err(ShellError::InternalError(String::from_str("could not find command path")));
            },
        };
        let o = match op {
            Operator::SquirrelOutput => OpType::RedirectSquirrelOutput { source, target },
            _ => OpType::RedirectSquirrelInput { source, target },
        };
        let cmd = make_command(words, cmd_path, negate);
        let mut cmds: Vec<Command> = Vec::new();
        cmds.push(cmd);
        proof {
            assert(commands_view(cmds@) =~= seq![cmd@]);
        }
        Ok(Some(ParseResult { cmds, execute_mode: ExecuteMode::Normal, exit_term: exit, associated_operator: Some(o) }))
    }
}

/// A command's path is looked up in the search paths exactly when it does
/// not start with `/`, `./` or `../`.
pub proof fn lemma_unqualified_path_iff_no_prefix(tokens: Seq<TokenView>, path: Seq<char>, negate: bool)
    ensures
        command_of(tokens, path, negate).is_unqualified_path <==> !(seq!['/'].is_prefix_of(path)
            || seq!['.', '/'].is_prefix_of(path) || seq!['.', '.', '/'].is_prefix_of(path)),
{
    let a = seq!['/'];
    let b = seq!['.', '/'];
    let c = seq!['.', '.', '/'];
    if a.is_prefix_of(path) {
        assert(path[0] == a[0]);
    }
    if b.is_prefix_of(path) {
        assert(path[0] == b[0] && path[1] == b[1]);
    }
    if c.is_prefix_of(path) {
        assert(path[0] == c[0] && path[1] == c[1] && path[2] == c[2]);
    }
    if path.len() >= 1 && path[0] == '/' {
        assert(a =~= path.subrange(0, 1));
    }
    if path.len() >= 2 && path[0] == '.' && path[1] == '/' {
        assert(b =~= path.subrange(0, 2));
    }
    if path.len() >= 3 && path[0] == '.' && path[1] == '.' && path[2] == '/' {
        assert(c =~= path.subrange(0, 3));
    }
}

} // verus!
