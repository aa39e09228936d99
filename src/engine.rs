use vstd::prelude::*;
use vstd::string::StrSliceExecFns;
use vstd::string::StringExecFns;

use crate::command::parser::{Command, OpType, ParseResult};
use crate::command::token::{Token, TokenView, duplicate_tokens, tokens_view};
use crate::errors::{ErrorKind, ShellError};

verus! {

/// What to do with a descriptor in the child about to run a command:
/// make it a copy of `to`, or close it.
#[derive(Debug, Clone, Copy, PartialEq, Eq, Structural)]
pub enum FdOperation {
    Assign { to: i32 },
    Close,
}

#[derive(Debug, Clone, Copy, PartialEq, Eq, Structural)]
pub enum ExecutionMode {
    Normal,
    Subshell,
    Pipeline,
    Redirect,
    Background,
}

#[derive(Debug, Clone, Copy, PartialEq, Eq, Structural)]
pub enum ProcessStatus {
    Running,
}

/// A process started by the shell, as the job table records it.
#[derive(Debug)]
pub struct Process {
    pub pid: i32,
    pub cmd: String,
    pub status: ProcessStatus,
}

/// The processes of the current job and its process group.
#[derive(Debug)]
pub struct Job {
    pub processes: Vec<Process>,
    pub pgrp: i32,
}

/// How a redirection opens its file.
#[derive(Debug, Clone, Copy, PartialEq, Eq, Structural)]
pub enum FileAccess {
    /// Create, truncate, write only.
    Truncate,
    /// Create, append, write only.
    Append,
    ReadOnly,
    /// Create, read and write.
    ReadWrite,
}

/// A descriptor the engine needs before a command runs.
#[derive(Debug)]
pub enum Resource {
    OpenFile { path: String, access: FileAccess },
    Pipe,
}

/// A descriptor obtained for a `Resource`.
#[derive(Debug, Clone, Copy, PartialEq, Eq, Structural)]
pub enum Acquired {
    File(i32),
    Pipe { read: i32, write: i32 },
}

/// The descriptor operations, a later one for the same descriptor taking
/// the place of an earlier one.
pub open spec fn ops_map(ops: Seq<(i32, FdOperation)>) -> Map<i32, FdOperation>
    decreases ops.len(),
{
    if ops.len() == 0 {
        Map::empty()
    } else {
        ops_map(ops.drop_last()).insert(ops.last().0, ops.last().1)
    }
}

/// Whether the exit of a command ends the run of a line: `||` after a
/// success, `&&` after a failure.
pub open spec fn short_circuits(op: Option<OpType>, success: bool) -> bool {
    (op == Some(OpType::OrIf) && success) || (op == Some(OpType::AndIf) && !success)
}

/// Whether a command that exited with `code` counts as a success, its
/// status negated or not.
pub open spec fn succeeded(negate: bool, code: i32) -> bool {
    (code == 0) != negate
}

/// The effect of a unit's operator before its command runs, given what was
/// acquired for it: the descriptor operations staged, the descriptors the
/// shell closes once the command is started, the mode (if it changes), and
/// the read end of a pipe for the next unit.
pub struct BeforeExec {
    pub ops: Seq<(i32, FdOperation)>,
    pub closes: Seq<i32>,
    pub mode: Option<ExecutionMode>,
    pub stdin_next: Option<i32>,
}

pub open spec fn no_effect() -> BeforeExec {
    BeforeExec { ops: Seq::empty(), closes: Seq::empty(), mode: None, stdin_next: None }
}

pub open spec fn or_default(fd: Option<i32>, d: i32) -> i32 {
    match fd {
        Some(v) => v,
        None => d,
    }
}

pub open spec fn opened_file(fd: i32, file: i32) -> BeforeExec {
    BeforeExec {
        ops: seq![(fd, FdOperation::Assign { to: file })],
        closes: if fd != 0 { seq![file] } else { Seq::empty() },
        mode: Some(ExecutionMode::Redirect),
        stdin_next: None,
    }
}

pub open spec fn duplication(source: Option<i32>, target: i32) -> BeforeExec {
    BeforeExec {
        ops: match source {
            Some(n) => seq![(n, FdOperation::Assign { to: target })],
            None => seq![(target, FdOperation::Close)],
        },
        closes: match source {
            Some(n) => if n != 0 { seq![target] } else { Seq::empty() },
            None => Seq::empty(),
        },
        mode: Some(ExecutionMode::Redirect),
        stdin_next: None,
    }
}

pub open spec fn before_exec(op: Option<OpType>, acquired: Option<Acquired>) -> BeforeExec {
    match (op, acquired) {
        (Some(OpType::RedirectOutput(fd)), Some(Acquired::File(f))) => opened_file(or_default(fd, 1), f),
        (Some(OpType::RedirectAppendOutput(fd)), Some(Acquired::File(f))) => opened_file(or_default(fd, 1), f),
        (Some(OpType::RedirectInput(fd)), Some(Acquired::File(f))) => opened_file(or_default(fd, 0), f),
        (Some(OpType::RedirectReadWrite(fd)), Some(Acquired::File(f))) => opened_file(or_default(fd, 0), f),
        (Some(OpType::RedirectSquirrelOutput { source, target }), _) => duplication(source, or_default(target, 1)),
        (Some(OpType::RedirectSquirrelInput { source, target }), _) => duplication(source, or_default(target, 0)),
        (Some(OpType::Pipe), Some(Acquired::Pipe { read, write })) => BeforeExec {
            ops: seq![(1, FdOperation::Assign { to: write })],
            closes: seq![write],
            mode: Some(ExecutionMode::Pipeline),
            stdin_next: Some(read),
        },
        (Some(OpType::Background), _) => BeforeExec {
            ops: Seq::empty(),
            closes: Seq::empty(),
            mode: Some(ExecutionMode::Background),
            stdin_next: None,
        },
        _ => no_effect(),
    }
}

/// The `to` side of each staged operation on a descriptor other than 0,
/// in order: what the shell closes once the command is started.
pub open spec fn parent_closes(ops: Seq<(i32, FdOperation)>) -> Seq<i32>
    decreases ops.len(),
{
    if ops.len() == 0 {
        Seq::empty()
    } else {
        let rest = parent_closes(ops.drop_last());
        match ops.last() {
            (fd, FdOperation::Assign { to }) => if fd != 0 { rest.push(to) } else { rest },
            (_, FdOperation::Close) => rest,
        }
    }
}

/// Once the command is started, the shell closes the `to` side of every
/// operation staged for it except those on descriptor 0, which a pipeline
/// keeps for its next stage; a descriptor to close is never dup'ed in the
/// shell itself.
pub proof fn lemma_closes_to_sides(op: Option<OpType>, acquired: Option<Acquired>)
    ensures
        before_exec(op, acquired).closes == parent_closes(before_exec(op, acquired).ops),
{
    let b = before_exec(op, acquired);
    assert(b.ops.len() <= 1);
    if b.ops.len() == 1 {
        assert(b.ops.drop_last() =~= Seq::<(i32, FdOperation)>::empty());
        assert(parent_closes(b.ops.drop_last()) =~= Seq::<i32>::empty());
    }
    assert(b.closes =~= parent_closes(b.ops));
}

/// The pipe a unit feeds is wired up from descriptors the shell acquired:
/// the write end is the only one it closes, the read end is handed on.
pub proof fn lemma_pipe_uses_acquired(read: i32, write: i32)
    ensures
        before_exec(Some(OpType::Pipe), Some(Acquired::Pipe { read, write })).closes == seq![write],
        before_exec(Some(OpType::Pipe), Some(Acquired::Pipe { read, write })).ops == seq![
            (1i32, FdOperation::Assign { to: write }),
        ],
        before_exec(Some(OpType::Pipe), Some(Acquired::Pipe { read, write })).stdin_next == Some(read),
{
}

/// The access a redirection operator opens its file with.
pub open spec fn access_of(op: OpType) -> Option<FileAccess> {
    match op {
        OpType::RedirectOutput(_) => Some(FileAccess::Truncate),
        OpType::RedirectAppendOutput(_) => Some(FileAccess::Append),
        OpType::RedirectInput(_) => Some(FileAccess::ReadOnly),
        OpType::RedirectReadWrite(_) => Some(FileAccess::ReadWrite),
        _ => None,
    }
}

pub open spec fn builtin_name(s: Seq<char>) -> bool {
    s == seq!['c', 'd'] || s == seq!['e', 'x', 'e', 'c'] || s == seq!['j', 'o', 'b', 's'] || s == seq!['f', 'g']
}

/// Where `cd` goes: its argument, or `/` when there is none or it is `~`.
pub open spec fn cd_target_of(tokens: Seq<TokenView>) -> Seq<char> {
    if tokens.len() > 1 && tokens[1].lexeme != seq!['~'] {
        tokens[1].lexeme
    } else {
        seq!['/']
    }
}

/// `dir` and `p` joined with a single separator.
pub open spec fn join_path(dir: Seq<char>, p: Seq<char>) -> Seq<char> {
    if dir.len() == 0 {
        p
    } else if dir.last() == '/' {
        dir + p
    } else {
        dir + seq!['/'] + p
    }
}

/// The paths tried, in order, to run a command.
pub open spec fn candidates(path: Seq<char>, unqualified: bool, dirs: Seq<Seq<char>>) -> Seq<Seq<char>> {
    if unqualified {
        dirs.map_values(|d: Seq<char>| join_path(d, path))
    } else {
        seq![path]
    }
}

/// The pieces of `s` between the separators `sep`.
pub open spec fn split_on(s: Seq<char>, sep: char) -> Seq<Seq<char>>
    decreases s.len(),
{
    if s.len() == 0 {
        seq![Seq::empty()]
    } else {
        let rest = split_on(s.drop_last(), sep);
        if s.last() == sep {
            rest.push(Seq::empty())
        } else {
            rest.update(rest.len() - 1, rest.last().push(s.last()))
        }
    }
}

pub open spec fn strings_view(v: Seq<String>) -> Seq<Seq<char>> {
    v.map_values(|s: String| s@)
}

/// Whether two strings hold the same characters.
pub fn same_text(a: &str, b: &str) -> (r: bool)
    ensures
        r == (a@ == b@),
{
    let n = a.unicode_len();
    if n != b.unicode_len() {
        return false;
    }
    let mut i: usize = 0;
    while i < n
        invariant
            n == a@.len() == b@.len(),
            i <= n,
            a@.subrange(0, i as int) == b@.subrange(0, i as int),
        decreases n - i,
    {
        if a.get_char(i) != b.get_char(i) {
            return false;
        }
        proof {
            assert(a@.subrange(0, i + 1) =~= a@.subrange(0, i as int).push(a@[i as int]));
            assert(b@.subrange(0, i + 1) =~= b@.subrange(0, i as int).push(b@[i as int]));
        }
        i += 1;
    }
    proof {
        assert(a@ =~= a@.subrange(0, n as int));
        assert(b@ =~= b@.subrange(0, n as int));
    }
    true
}

/// Whether a command name is one the shell runs itself.
pub fn is_builtin_command(cmd: &str) -> (r: bool)
    ensures
        r == builtin_name(cmd@),
{
    proof {
        reveal_strlit("cd");
        reveal_strlit("exec");
        reveal_strlit("jobs");
        reveal_strlit("fg");
    }
    let r = same_text(cmd, "cd") || same_text(cmd, "exec") || same_text(cmd, "jobs") || same_text(cmd, "fg");
    proof {
        assert("cd"@ =~= seq!['c', 'd']);
        assert("exec"@ =~= seq!['e', 'x', 'e', 'c']);
        assert("jobs"@ =~= seq!['j', 'o', 'b', 's']);
        assert("fg"@ =~= seq!['f', 'g']);
    }
    r
}

/// Splits a search-path list on `:`.
pub fn parse_paths(value: &str) -> (r: Vec<String>)
    ensures
        strings_view(r@) == split_on(value@, ':'),
{
    let n = value.unicode_len();
    let mut r: Vec<String> = Vec::new();
    let mut start: usize = 0;
    let mut i: usize = 0;
    proof {
        assert(value@.subrange(0, 0) =~= Seq::<char>::empty());
        assert(strings_view(r@).push(Seq::<char>::empty()) =~= split_on(Seq::<char>::empty(), ':'));
    }
    while i < n
        invariant
            n == value@.len(),
            start <= i <= n,
            strings_view(r@).push(value@.subrange(start as int, i as int)) == split_on(value@.subrange(0, i as int), ':'),
        decreases n - i,
    {
        let c = value.get_char(i);
        let ghost pre = value@.subrange(0, i + 1);
        proof {
            assert(pre.drop_last() =~= value@.subrange(0, i as int));
            assert(pre.last() == c);
        }
        if c == ':' {
            let piece = String::from_str(value.substring_char(start, i));
            let ghost before = strings_view(r@);
            r.push(piece);
            proof {
                assert(strings_view(r@) =~= before.push(piece@));
                assert(value@.subrange(i + 1, i + 1) =~= Seq::<char>::empty());
            }
            start = i + 1;
        } else {
            proof {
                assert(value@.subrange(start as int, i + 1) =~= value@.subrange(start as int, i as int).push(c));
                let w = strings_view(r@).push(value@.subrange(start as int, i as int));
                assert(strings_view(r@).push(value@.subrange(start as int, i + 1)) =~= w.update(w.len() - 1, w.last().push(c)));
            }
        }
        i += 1;
    }
    let last = String::from_str(value.substring_char(start, n));
    let ghost before = strings_view(r@);
    r.push(last);
    proof {
        assert(strings_view(r@) =~= before.push(last@));
        assert(value@.subrange(0, n as int) =~= value@);
    }
    r
}

/// `dir` and `p` joined with a single separator.
pub fn join(dir: &str, p: &str) -> (r: String)
    ensures
        r@ == join_path(dir@, p@),
{
    let n = dir.unicode_len();
    if n == 0 {
        return String::from_str(p);
    }
    let mut r = String::from_str(dir);
    if dir.get_char(n - 1) != '/' {
        r.append("/");
        proof {
            reveal_strlit("/");
        }
    }
    r.append(p);
    proof {
        assert(dir@.last() == dir@[n - 1]);
    }
    r
}

/// The paths tried, in order, to run `command`: the typed path itself when
/// it is qualified, else that path under each search directory.
pub fn candidate_paths(command: &Command, env_paths: &Vec<String>) -> (r: Vec<String>)
    ensures
        strings_view(r@) == candidates(command@.path, command@.is_unqualified_path, strings_view(env_paths@)),
{
    let mut r: Vec<String> = Vec::new();
    if !command.is_unqualified_path {
        r.push(command.path.clone());
        proof {
            assert(strings_view(r@) =~= seq![command.path@]);
        }
        return r;
    }
    let mut i: usize = 0;
    while i < env_paths.len()
        invariant
            command.is_unqualified_path,
            i <= env_paths@.len(),
            r@.len() == i,
            forall|k: int| 0 <= k < i ==> #[trigger] r@[k]@ == join_path(env_paths@[k]@, command.path@),
        decreases env_paths.len() - i,
    {
        let p = join(env_paths[i].as_str(), command.path.as_str());
        r.push(p);
        i += 1;
    }
    proof {
        assert(strings_view(r@) =~= candidates(command@.path, command@.is_unqualified_path, strings_view(env_paths@)));
    }
    r
}

/// What the shell does with a command: run a builtin itself, replace the
/// current process (inside a subshell), or start a child process.
#[derive(Debug)]
pub enum Dispatch {
    Builtin(Builtin),
    InProcess,
    Fork,
}

/// A builtin with what it needs.
#[derive(Debug)]
pub enum Builtin {
    ChangeDirectory(String),
    /// Runs the given tokens as a new line, in this process.
    Exec(Vec<Token>),
    Jobs,
    /// Hands the terminal to the job's process group, or to the shell's own
    /// when there is no job.
    Foreground { tty_fd: i32, pgrp: Option<i32> },
}

impl Command {
    pub fn duplicate(&self) -> (r: Command)
        ensures
            r@ == self@,
    {
        let tokens = duplicate_tokens(&self.tokens, 0, self.tokens.len());
        proof {
            assert(self.tokens@.subrange(0, self.tokens@.len() as int) =~= self.tokens@);
        }
        let mut args_with_cmd: Vec<String> = Vec::new();
        let mut i: usize = 0;
        while i < self.args_with_cmd.len()
            invariant
                i <= self.args_with_cmd@.len(),
                args_with_cmd@.len() == i,
                forall|k: int| 0 <= k < i ==> #[trigger] args_with_cmd@[k]@ == self.args_with_cmd@[k]@,
            decreases self.args_with_cmd.len() - i,
        {
            args_with_cmd.push(self.args_with_cmd[i].clone());
            i += 1;
        }
        proof {
            assert(args_with_cmd@.map_values(|a: String| a@) =~= self.args_with_cmd@.map_values(|a: String| a@));
        }
        Command {
            args_with_cmd,
            tokens,
            path: self.path.clone(),
            negate_exit_status: self.negate_exit_status,
            is_unqualified_path: self.is_unqualified_path,
        }
    }
}

/// The state the shell keeps across commands.
pub struct Engine {
    pub execution_successful: bool,
    pub env_paths: Vec<String>,
    pub is_interactive: bool,
    pub execution_mode: ExecutionMode,
    /// Descriptor operations for the next command, in the order staged.
    pub fds_ops: Vec<(i32, FdOperation)>,
    /// The `to` side of each staged operation on a descriptor other than 0:
    /// the shell closes these once the next command is started.
    pub to_close: Vec<i32>,
    pub job: Job,
    pub tty_fd: i32,
    pub in_subshell: bool,
}

impl Engine {
    pub open spec fn mode(&self) -> ExecutionMode {
        self.execution_mode
    }

    pub open spec fn staged(&self) -> Seq<(i32, FdOperation)> {
        self.fds_ops@
    }

    pub open spec fn closes(&self) -> Seq<i32> {
        self.to_close@
    }

    pub open spec fn job_pids(&self) -> Seq<i32> {
        self.job.processes@.map_values(|p: Process| p.pid)
    }

    pub open spec fn pgrp(&self) -> i32 {
        self.job.pgrp
    }

    pub open spec fn tty(&self) -> i32 {
        self.tty_fd
    }

    pub open spec fn in_subshell(&self) -> bool {
        self.in_subshell
    }

    /// A fresh engine: the last status counts as a success and nothing is staged.
    pub fn new(is_interactive: bool, env_paths: Vec<String>, tty_fd: i32) -> (r: Engine)
        ensures
            r.execution_successful,
            r.is_interactive == is_interactive,
            r.env_paths@ == env_paths@,
            r.mode() == ExecutionMode::Normal,
            r.staged().len() == 0,
            r.closes().len() == 0,
            r.job_pids().len() == 0,
            r.tty() == tty_fd,
            !r.in_subshell(),
    {
        let r = Engine {
            execution_successful: true,
            env_paths,
            is_interactive,
            execution_mode: ExecutionMode::Normal,
            fds_ops: Vec::new(),
            to_close: Vec::new(),
            job: Job { processes: Vec::new(), pgrp: 0 },
            tty_fd,
            in_subshell: false,
        };
        proof {
            assert(r.job_pids() =~= Seq::<i32>::empty());
        }
        r
    }

    /// Makes this engine the one of a subshell's process: its external
    /// commands then replace the process instead of starting children.
    pub fn enter_subshell(&mut self)
        ensures
            final(self).in_subshell(),
            final(self).mode() == ExecutionMode::Subshell,
            final(self).execution_successful == old(self).execution_successful,
            final(self).staged() == old(self).staged(),
            final(self).closes() == old(self).closes(),
            final(self).job_pids() == old(self).job_pids(),
    {
        self.in_subshell = true;
        self.execution_mode = ExecutionMode::Subshell;
    }

    /// Records the exit of a waited command.
    pub fn record_exit(&mut self, negate_exit_status: bool, exit_code: i32)
        ensures
            final(self).execution_successful == succeeded(negate_exit_status, exit_code),
            final(self).env_paths == old(self).env_paths,
            final(self).is_interactive == old(self).is_interactive,
            final(self).tty() == old(self).tty(),
            final(self).mode() == old(self).mode(),
            final(self).staged() == old(self).staged(),
            final(self).closes() == old(self).closes(),
            final(self).job_pids() == old(self).job_pids(),
            final(self).in_subshell() == old(self).in_subshell(),
    {
        let mut code = exit_code;
        if negate_exit_status {
            code = if code == 0 { 1 } else { 0 };
        }
        self.execution_successful = code == 0;
    }

    /// Whether the shell waits for the command it starts: not in a pipeline
    /// (but its last stage) and not in the background.
    pub fn should_wait(&self) -> (r: bool)
        ensures
            r == (self.mode() != ExecutionMode::Pipeline && self.mode() != ExecutionMode::Background),
    {
        match self.execution_mode {
            ExecutionMode::Pipeline | ExecutionMode::Background => false,
            _ => true,
        }
    }

    /// The resource a unit needs before its command runs: the file of a
    /// redirection, or a pipe.
    pub fn before_exec_request(unit: &ParseResult) -> (r: Option<Resource>)
        ensures
            match unit@.op {
                Some(op) => if access_of(op) is Some && unit@.cmds.len() > 0 {
                    r matches Some(Resource::OpenFile { path, access }) && path@ == unit@.cmds.last().path
                        && access == access_of(op)->0
                } else if op == OpType::Pipe {
                    r matches Some(Resource::Pipe)
                } else {
                    r is None
                },
                None => r is None,
            },
    {
        let n = unit.cmds.len();
        let access = match unit.associated_operator {
            Some(OpType::RedirectOutput(_)) => FileAccess::Truncate,
            Some(OpType::RedirectAppendOutput(_)) => FileAccess::Append,
            Some(OpType::RedirectInput(_)) => FileAccess::ReadOnly,
            Some(OpType::RedirectReadWrite(_)) => FileAccess::ReadWrite,
            Some(OpType::Pipe) => {
                return Some(Resource::Pipe);
            },
            _ => {
                return None;
            },
        };
        if n == 0 {
            return None;
        }
        Some(Resource::OpenFile { path: unit.cmds[n - 1].path.clone(), access })
    }

    fn stage(&mut self, fd: i32, op: FdOperation)
        ensures
            final(self).staged() == old(self).staged().push((fd, op)),
            final(self).closes() == old(self).closes(),
            final(self).mode() == old(self).mode(),
            final(self).execution_successful == old(self).execution_successful,
            final(self).job_pids() == old(self).job_pids(),
            final(self).in_subshell() == old(self).in_subshell(),
            final(self).env_paths == old(self).env_paths,
            final(self).tty() == old(self).tty(),
            final(self).is_interactive == old(self).is_interactive,
    {
        self.fds_ops.push((fd, op));
    }

    /// Stages what a unit's operator asks before its command runs, given the
    /// descriptor acquired for it; returns the read end of a pipe, which the
    /// next unit takes as its standard input.
    pub fn handle_operations_before_exec(&mut self, op: Option<OpType>, acquired: Option<Acquired>) -> (r: Option<i32>)
        ensures
            final(self).staged() == old(self).staged() + before_exec(op, acquired).ops,
            final(self).closes() == old(self).closes() + before_exec(op, acquired).closes,
            final(self).mode() == (match before_exec(op, acquired).mode {
                Some(m) => m,
                None => old(self).mode(),
            }),
            r == before_exec(op, acquired).stdin_next,
            final(self).execution_successful == old(self).execution_successful,
            final(self).job_pids() == old(self).job_pids(),
            final(self).in_subshell() == old(self).in_subshell(),
            final(self).env_paths == old(self).env_paths,
            final(self).tty() == old(self).tty(),
            final(self).is_interactive == old(self).is_interactive,
    {
        let ghost s0 = self.staged();
        let ghost c0 = self.closes();
        match (op, acquired) {
            (Some(OpType::RedirectOutput(fd)), Some(Acquired::File(f)))
            | (Some(OpType::RedirectAppendOutput(fd)), Some(Acquired::File(f))) => {
                let target = match fd {
                    Some(v) => v,
                    None => 1,
                };
                self.stage_opened_file(target, f);
                None
            },
            (Some(OpType::RedirectInput(fd)), Some(Acquired::File(f)))
            | (Some(OpType::RedirectReadWrite(fd)), Some(Acquired::File(f))) => {
                let target = match fd {
                    Some(v) => v,
                    None => 0,
                };
                self.stage_opened_file(target, f);
                None
            },
            (Some(OpType::RedirectSquirrelOutput { source, target }), _) => {
                let t = match target {
                    Some(v) => v,
                    None => 1,
                };
                self.stage_duplication(source, t);
                None
            },
            (Some(OpType::RedirectSquirrelInput { source, target }), _) => {
                let t = match target {
                    Some(v) => v,
                    None => 0,
                };
                self.stage_duplication(source, t);
                None
            },
            (Some(OpType::Pipe), Some(Acquired::Pipe { read, write })) => {
                self.stage(1, FdOperation::Assign { to: write });
                self.to_close.push(write);
                self.execution_mode = ExecutionMode::Pipeline;
                proof {
                    assert(self.staged() =~= s0 + before_exec(op, acquired).ops);
                    assert(self.closes() =~= c0 + before_exec(op, acquired).closes);
                }
                Some(read)
            },
            (Some(OpType::Background), _) => {
                self.execution_mode = ExecutionMode::Background;
                proof {
                    assert(self.staged() =~= s0 + Seq::<(i32, FdOperation)>::empty());
                    assert(self.closes() =~= c0 + Seq::<i32>::empty());
                }
                None
            },
            _ => {
                proof {
                    assert(self.staged() =~= s0 + Seq::<(i32, FdOperation)>::empty());
                    assert(self.closes() =~= c0 + Seq::<i32>::empty());
                }
                None
            },
        }
    }

    fn stage_opened_file(&mut self, fd: i32, file: i32)
        ensures
            final(self).staged() == old(self).staged() + opened_file(fd, file).ops,
            final(self).closes() == old(self).closes() + opened_file(fd, file).closes,
            final(self).mode() == ExecutionMode::Redirect,
            final(self).execution_successful == old(self).execution_successful,
            final(self).job_pids() == old(self).job_pids(),
            final(self).in_subshell() == old(self).in_subshell(),
            final(self).env_paths == old(self).env_paths,
            final(self).tty() == old(self).tty(),
            final(self).is_interactive == old(self).is_interactive,
    {
        let ghost s0 = self.staged();
        let ghost c0 = self.closes();
        self.stage(fd, FdOperation::Assign { to: file });
        if fd != 0 {
            self.to_close.push(file);
        }
        self.execution_mode = ExecutionMode::Redirect;
        proof {
            assert(self.staged() =~= s0 + opened_file(fd, file).ops);
            assert(self.closes() =~= c0 + opened_file(fd, file).closes);
        }
    }

    fn stage_duplication(&mut self, source: Option<i32>, target: i32)
        ensures
            final(self).staged() == old(self).staged() + duplication(source, target).ops,
            final(self).closes() == old(self).closes() + duplication(source, target).closes,
            final(self).mode() == ExecutionMode::Redirect,
            final(self).execution_successful == old(self).execution_successful,
            final(self).job_pids() == old(self).job_pids(),
            final(self).in_subshell() == old(self).in_subshell(),
            final(self).env_paths == old(self).env_paths,
            final(self).tty() == old(self).tty(),
            final(self).is_interactive == old(self).is_interactive,
    {
        let ghost s0 = self.staged();
        let ghost c0 = self.closes();
        match source {
            Some(n) => {
                self.stage(n, FdOperation::Assign { to: target });
                if n != 0 {
                    self.to_close.push(target);
                }
            },
            None => self.stage(target, FdOperation::Close),
        }
        self.execution_mode = ExecutionMode::Redirect;
        proof {
            assert(self.staged() =~= s0 + duplication(source, target).ops);
            assert(self.closes() =~= c0 + duplication(source, target).closes);
        }
    }

    /// After a unit's command: whether the line stops here (`||` after a
    /// success, `&&` after a failure). The staged operations are cleared; a
    /// pipe's read end is staged as the next command's standard input.
    pub fn handle_operations_after_exec(&mut self, op: Option<OpType>, set_stdin_to: Option<i32>) -> (r: bool)
        ensures
            r == short_circuits(op, old(self).execution_successful),
            final(self).closes().len() == 0,
            final(self).staged() == (if !r && old(self).mode() == ExecutionMode::Pipeline && set_stdin_to is Some {
                seq![(0i32, FdOperation::Assign { to: set_stdin_to->0 })]
            } else {
                Seq::empty()
            }),
            final(self).mode() == old(self).mode(),
            final(self).execution_successful == old(self).execution_successful,
            final(self).job_pids() == old(self).job_pids(),
            final(self).in_subshell() == old(self).in_subshell(),
            final(self).env_paths == old(self).env_paths,
            final(self).tty() == old(self).tty(),
            final(self).is_interactive == old(self).is_interactive,
    {
        let stop = match op {
            Some(OpType::OrIf) => self.execution_successful,
            Some(OpType::AndIf) => !self.execution_successful,
            _ => false,
        };
        self.reset_fds_ops();
        if !stop {
            if let ExecutionMode::Pipeline = self.execution_mode {
                if let Some(fd) = set_stdin_to {
                    self.stage(0, FdOperation::Assign { to: fd });
                }
            }
        }
        proof {
            if !(!stop && old(self).mode() == ExecutionMode::Pipeline && set_stdin_to is Some) {
                assert(self.staged() =~= Seq::<(i32, FdOperation)>::empty());
            } else {
                assert(self.staged() =~= seq![(0i32, FdOperation::Assign { to: set_stdin_to->0 })]);
            }
        }
        stop
    }

    fn reset_fds_ops(&mut self)
        ensures
            final(self).staged().len() == 0,
            final(self).closes().len() == 0,
            final(self).mode() == old(self).mode(),
            final(self).execution_successful == old(self).execution_successful,
            final(self).job_pids() == old(self).job_pids(),
            final(self).in_subshell() == old(self).in_subshell(),
            final(self).env_paths == old(self).env_paths,
            final(self).tty() == old(self).tty(),
            final(self).is_interactive == old(self).is_interactive,
    {
        self.fds_ops = Vec::new();
        self.to_close = Vec::new();
    }

    /// The descriptor operations for the next command, in the order staged.
    pub fn fd_ops(&self) -> (r: Vec<(i32, FdOperation)>)
        ensures
            r@ == self.staged(),
    {
        let mut r: Vec<(i32, FdOperation)> = Vec::new();
        let mut i: usize = 0;
        while i < self.fds_ops.len()
            invariant
                i <= self.fds_ops@.len(),
                r@ == self.fds_ops@.subrange(0, i as int),
            decreases self.fds_ops.len() - i,
        {
            r.push(self.fds_ops[i]);
            proof {
                assert(r@ =~= self.fds_ops@.subrange(0, i + 1));
            }
            i += 1;
        }
        proof {
            assert(r@ =~= self.fds_ops@);
        }
        r
    }

    /// The descriptors the shell closes once the next command is started:
    /// the `to` side of each staged operation on a descriptor other than 0.
    pub fn parent_fds_to_close(&self) -> (r: Vec<i32>)
        ensures
            r@ == self.closes(),
    {
        let mut r: Vec<i32> = Vec::new();
        let mut i: usize = 0;
        while i < self.to_close.len()
            invariant
                i <= self.to_close@.len(),
                r@ == self.to_close@.subrange(0, i as int),
            decreases self.to_close.len() - i,
        {
            r.push(self.to_close[i]);
            proof {
                assert(r@ =~= self.to_close@.subrange(0, i + 1));
            }
            i += 1;
        }
        proof {
            assert(r@ =~= self.to_close@);
        }
        r
    }

    /// Records a started child under the current job, the first one leading
    /// its process group; returns the group the child joins.
    pub fn register_child(&mut self, pid: i32, cmd: String) -> (r: i32)
        ensures
            final(self).job.processes@.len() == old(self).job.processes@.len() + 1,
            final(self).job.processes@.drop_last() == old(self).job.processes@,
            final(self).job.processes@.last().pid == pid,
            final(self).job.processes@.last().cmd@ == cmd@,
            final(self).job.processes@.last().status == ProcessStatus::Running,
            final(self).job_pids() == old(self).job_pids().push(pid),
            r == (if old(self).job_pids().len() == 0 { pid } else { old(self).pgrp() }),
            final(self).pgrp() == r,
            final(self).execution_successful == old(self).execution_successful,
            final(self).mode() == old(self).mode(),
            final(self).staged() == old(self).staged(),
            final(self).closes() == old(self).closes(),
            final(self).in_subshell() == old(self).in_subshell(),
    {
        if self.job.processes.len() == 0 {
            self.job.pgrp = pid;
        }
        let ghost before = self.job.processes@;
        self.job.processes.push(Process { pid, cmd, status: ProcessStatus::Running });
        proof {
            assert(self.job.processes@.map_values(|p: Process| p.pid) =~= before.map_values(|p: Process| p.pid).push(pid));
            assert(self.job.processes@.drop_last() =~= before);
        }
        self.job.pgrp
    }

    /// The process group a new child joins, seen from the child.
    pub fn child_group(&self, own_pid: i32) -> (r: i32)
        ensures
            r == (if self.job_pids().len() == 0 { own_pid } else { self.pgrp() }),
    {
        if self.job.processes.len() == 0 {
            own_pid
        } else {
            self.job.pgrp
        }
    }

    /// The processes of the current job.
    pub fn processes(&self) -> (r: &Vec<Process>)
        ensures
            r@.map_values(|p: Process| p.pid) == self.job_pids(),
    {
        &self.job.processes
    }

    /// What to do with a command.
    pub fn dispatch(&self, command: &Command) -> (r: Dispatch)
        ensures
            builtin_name(command@.path) ==> r is Builtin,
            !builtin_name(command@.path) && self.in_subshell() ==> r is InProcess,
            !builtin_name(command@.path) && !self.in_subshell() ==> r is Fork,
            r matches Dispatch::Builtin(Builtin::ChangeDirectory(p)) ==> command@.path == seq!['c', 'd']
                && p@ == cd_target_of(command@.tokens),
            r matches Dispatch::Builtin(Builtin::Exec(ts)) ==> command@.path == seq!['e', 'x', 'e', 'c']
                && (if command@.tokens.len() > 0 {
                    tokens_view(ts@) == command@.tokens.drop_first()
                } else {
                    ts@.len() == 0
                }),
            r matches Dispatch::Builtin(Builtin::Jobs) ==> command@.path == seq!['j', 'o', 'b', 's'],
            r matches Dispatch::Builtin(Builtin::Foreground { tty_fd, pgrp }) ==> command@.path == seq!['f', 'g']
                && tty_fd == self.tty() && pgrp == (if self.job_pids().len() == 0 { None } else { Some(self.job_pids()[0]) }),
    {
        if !is_builtin_command(command.path.as_str()) {
            if self.in_subshell {
                return Dispatch::InProcess;
            }
            return Dispatch::Fork;
        }
        proof {
            reveal_strlit("cd");
            reveal_strlit("exec");
            reveal_strlit("jobs");
            assert("cd"@ =~= seq!['c', 'd']);
            assert("exec"@ =~= seq!['e', 'x', 'e', 'c']);
            assert("jobs"@ =~= seq!['j', 'o', 'b', 's']);
        }
        if same_text(command.path.as_str(), "cd") {
            return Dispatch::Builtin(Builtin::ChangeDirectory(cd_target(command)));
        }
        if same_text(command.path.as_str(), "exec") {
            let n = command.tokens.len();
            if n > 0 {
                let rest = duplicate_tokens(&command.tokens, 1, n);
                proof {
                    assert(tokens_view(command.tokens@.subrange(1, n as int)) =~= command@.tokens.drop_first());
                }
                return Dispatch::Builtin(Builtin::Exec(rest));
            }
            return Dispatch::Builtin(Builtin::Exec(Vec::new()));
        }
        if same_text(command.path.as_str(), "jobs") {
            return Dispatch::Builtin(Builtin::Jobs);
        }
        let pgrp = if self.job.processes.len() == 0 {
            None
        } else {
            Some(self.job.processes[0].pid)
        };
        Dispatch::Builtin(Builtin::Foreground { tty_fd: self.tty_fd, pgrp })
    }
}

/// The controlling terminal: the descriptor of `/dev/tty` when it could be
/// opened, else the highest of the standard descriptors 0 to 2 that is a
/// terminal (`is_tty[i]` tells whether descriptor `i` is one).
pub fn pick_tty(dev_tty: Option<i32>, is_tty: [bool; 3]) -> (r: Result<i32, ShellError>)
    ensures
        dev_tty matches Some(fd) ==> r == Ok::<i32, ShellError>(fd),
        dev_tty is None ==> match r {
            Ok(fd) => 0 <= fd <= 2 && is_tty@[fd as int] && forall|k: int| fd < k <= 2 ==> !is_tty@[k],
            Err(e) => e.kind() == ErrorKind::EngineError("can't access tty; job control turned off"@)
                && forall|k: int| 0 <= k <= 2 ==> !is_tty@[k],
        },
{
    if let Some(fd) = dev_tty {
        return Ok(fd);
    }
    if is_tty[2] {
        return Ok(2);
    }
    if is_tty[1] {
        return Ok(1);
    }
    if is_tty[0] {
        return Ok(0);
    }
    Err(ShellError::EngineError(String::from_str("can't access tty; job control turned off")))
}

/// Where `cd` goes.
pub fn cd_target(command: &Command) -> (r: String)
    ensures
        r@ == cd_target_of(command@.tokens),
{
    proof {
        reveal_strlit("~");
        reveal_strlit("/");
        assert("~"@ =~= seq!['~']);
        assert("/"@ =~= seq!['/']);
    }
    if command.tokens.len() > 1 && !same_text(command.tokens[1].lexeme.as_str(), "~") {
        return command.tokens[1].lexeme.clone();
    }
    String::from_str("/")
}

} // verus!
