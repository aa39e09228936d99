use vstd::prelude::*;
use vstd::string::StringExecFns;

use crate::command::parser::{Command, ExecuteMode, OpType, ParseResult, Parser, UnitView, parse_unit};
use crate::command::token::{Token, TokenView, duplicate_tokens, tokens_view};
use crate::engine::{
    Acquired, BeforeExec, Builtin, Dispatch, Engine, ExecutionMode, FdOperation, Resource, access_of, before_exec, builtin_name,
    short_circuits, succeeded,
};
use crate::errors::{ErrorKind, ShellError};

verus! {

/// Where the run of a line stands.
#[derive(Debug, Clone, Copy, PartialEq, Eq, Structural)]
pub enum Phase {
    /// The next unit is to be read.
    Ready,
    /// A descriptor was asked for; the command has not started.
    Acquiring,
    /// The unit's command, builtin or subshell was handed out.
    Running,
    Finished,
}

/// The run of one line of tokens, a unit at a time.
pub struct Session {
    pub tokens: Vec<Token>,
    pub idx: usize,
    pub unit: Option<ParseResult>,
    pub set_stdin_to: Option<i32>,
    pub phase: Phase,
}

/// What the caller reports back after performing a step.
#[derive(Debug)]
pub enum Event {
    /// Begin the run.
    Start,
    /// The descriptor asked for.
    Acquired(Acquired),
    /// The waited command, or subshell, exited with this code.
    Exited(i32),
    /// The step ended with no exit status of its own: a command that is not
    /// waited for, or `exec`.
    Done,
    /// A builtin finished, successfully or not.
    BuiltinDone(bool),
}

/// A command to start.
#[derive(Debug)]
pub struct Launch {
    pub command: Command,
    /// Applied in the child, in order, before the command runs.
    pub fd_ops: Vec<(i32, FdOperation)>,
    /// Closed by the shell once the child is started.
    pub close_in_parent: Vec<i32>,
    pub wait: bool,
    /// Replace the current process rather than start a child.
    pub in_process: bool,
}

/// What the caller is to do next.
#[derive(Debug)]
pub enum Step {
    Acquire(Resource),
    Run(Launch),
    Builtin(Builtin),
    /// Start a child that runs these tokens as a line of its own, and wait for it.
    Subshell(Vec<Token>),
    Finished { exit_requested: bool },
    Failed(ShellError),
}

pub open spec fn finishes(r: Step, exit_requested: bool) -> bool {
    match r {
        Step::Finished { exit_requested: e } => e == exit_requested,
        _ => false,
    }
}

pub open spec fn fails_with(r: Step, k: ErrorKind) -> bool {
    match r {
        Step::Failed(e) => e.kind() == k,
        _ => false,
    }
}

pub open spec fn runs_subshell(r: Step, ts: Seq<TokenView>) -> bool {
    match r {
        Step::Subshell(t) => tokens_view(t@) == ts,
        _ => false,
    }
}

pub open spec fn unit_negates(u: UnitView) -> bool {
    u.cmds.len() > 0 && u.subshell is None && u.cmds[0].negate_exit_status
}

impl Session {
    pub fn new(tokens: Vec<Token>) -> (r: Session)
        ensures
            tokens_view(r.tokens@) == tokens_view(tokens@),
            r.idx == 0,
            r.phase == Phase::Ready,
            r.unit is None,
    {
        Session { tokens, idx: 0, unit: None, set_stdin_to: None, phase: Phase::Ready }
    }

    pub open spec fn unit_view(&self) -> Option<UnitView> {
        match self.unit {
            Some(u) => Some(u@),
            None => None,
        }
    }
}

/// Whether a unit needs a descriptor before its command runs: a file to
/// open, or a pipe.
pub open spec fn needs_resource(u: UnitView) -> bool {
    match u.op {
        Some(op) => (access_of(op) is Some && u.cmds.len() > 0) || op == OpType::Pipe,
        None => false,
    }
}

/// `r` hands out the unit's first command: as a builtin, or to be run.
pub open spec fn starts_command(r: Step, u: UnitView) -> bool {
    match r {
        Step::Run(l) => l.command@ == u.cmds[0] && !builtin_name(u.cmds[0].path),
        Step::Builtin(_) => builtin_name(u.cmds[0].path),
        _ => false,
    }
}

/// The engine's mode once a unit's operator is staged.
pub open spec fn mode_after(b: BeforeExec) -> ExecutionMode {
    match b.mode {
        Some(m) => m,
        None => ExecutionMode::Normal,
    }
}

/// What a finished unit hands on to the next one: the read end of its pipe,
/// as standard input.
pub open spec fn carried(mode: ExecutionMode, stdin: Option<i32>) -> Seq<(i32, FdOperation)> {
    if mode == ExecutionMode::Pipeline && stdin is Some {
        seq![(0i32, FdOperation::Assign { to: stdin->0 })]
    } else {
        Seq::empty()
    }
}

/// A `Run` step carries what the engine has staged: the descriptor
/// operations for the child, the descriptors the shell closes, and whether
/// it waits.
pub open spec fn launch_fits(r: Step, e: Engine) -> bool {
    match r {
        Step::Run(l) => {
            &&& l.fd_ops@ == e.staged()
            &&& l.close_in_parent@ == e.closes()
            &&& l.wait == (e.mode() != ExecutionMode::Pipeline && e.mode() != ExecutionMode::Background)
            &&& l.in_process == e.in_subshell()
        },
        _ => true,
    }
}

/// How the read of the next unit ends the step: `r` answers the unit that
/// `parse_unit` finds at `pos` in `toks`; `s` and `e` are the session and
/// engine afterwards, and `ops` and `closes` what was staged before the
/// unit was read.
pub open spec fn answers_next_unit(
    toks: Seq<TokenView>,
    pos: nat,
    r: Step,
    s: Session,
    e: Engine,
    ops: Seq<(i32, FdOperation)>,
    closes: Seq<i32>,
) -> bool {
    &&& launch_fits(r, e)
    &&& if pos >= toks.len() {
        &&& finishes(r, false)
        &&& s.phase == Phase::Finished
        &&& e.staged() == ops
        &&& e.closes() == closes
    } else {
        match parse_unit(toks, pos) {
            Err(k) => fails_with(r, k) && s.phase == Phase::Finished,
            Ok((u, next)) => {
                &&& s.idx == next
                &&& u.exit_term ==> finishes(r, true) && s.phase == Phase::Finished
                &&& !u.exit_term ==> s.unit_view() == Some(u)
                &&& (!u.exit_term && u.subshell is Some) ==> {
                    &&& runs_subshell(r, u.subshell->0)
                    &&& s.phase == Phase::Running
                    &&& e.mode() == ExecutionMode::Subshell
                    &&& e.staged() == ops
                    &&& e.closes() == closes
                }
                &&& (!u.exit_term && u.subshell is None && u.cmds.len() > 0) ==> if needs_resource(u) {
                    &&& r is Acquire
                    &&& s.phase == Phase::Acquiring
                    &&& e.mode() == ExecutionMode::Normal
                    &&& e.staged() == ops
                    &&& e.closes() == closes
                } else {
                    let b = before_exec(u.op, None);
                    &&& starts_command(r, u)
                    &&& s.phase == Phase::Running
                    &&& e.mode() == mode_after(b)
                    &&& e.staged() == ops + b.ops
                    &&& e.closes() == closes + b.closes
                    &&& s.set_stdin_to == b.stdin_next
                }
            },
        }
    }
}

/// After a unit whose command ended with `status`: the line stops on a
/// short circuit, with nothing left staged; else the next unit is read,
/// with the read end of a pipe (if the unit fed one) staged as its
/// standard input. `mode` and `stdin` are the engine's mode and the pipe's
/// read end while the unit ran.
pub open spec fn continues(
    u: UnitView,
    status: bool,
    toks: Seq<TokenView>,
    pos: nat,
    r: Step,
    s: Session,
    e: Engine,
    mode: ExecutionMode,
    stdin: Option<i32>,
) -> bool {
    &&& short_circuits(u.op, status) ==> {
        &&& finishes(r, false)
        &&& s.phase == Phase::Finished
        &&& e.staged().len() == 0
        &&& e.closes().len() == 0
    }
    &&& !short_circuits(u.op, status) ==> answers_next_unit(toks, pos, r, s, e, carried(mode, stdin), Seq::empty())
}

impl Engine {
    /// Reads the next unit and says what to do for it.
    fn next_unit(&mut self, s: &mut Session) -> (r: Step)
        ensures
            answers_next_unit(
                tokens_view(old(s).tokens@),
                old(s).idx as nat,
                r,
                *final(s),
                *final(self),
                old(self).staged(),
                old(self).closes(),
            ),
            tokens_view(final(s).tokens@) == tokens_view(old(s).tokens@),
            final(self).execution_successful == old(self).execution_successful,
            final(self).env_paths == old(self).env_paths,
            final(self).is_interactive == old(self).is_interactive,
            final(self).in_subshell() == old(self).in_subshell(),
    {
        let mut parser = Parser::at(&s.tokens, s.idx);
        let got = parser.get_command();
        let next = parser.position();
        s.idx = next;
        let unit = match got {
            Ok(Some(u)) => u,
            Ok(None) => {
                s.phase = Phase::Finished;
                return Step::Finished { exit_requested: false };
            },
            Err(e) => {
                s.phase = Phase::Finished;
                return Step::Failed(e);
            },
        };
        if unit.exit_term {
            s.phase = Phase::Finished;
            return Step::Finished { exit_requested: true };
        }
        if let ExecuteMode::Subshell(ts) = &unit.execute_mode {
            let captured = duplicate_tokens(ts, 0, ts.len());
            proof {
                assert(ts@.subrange(0, ts@.len() as int) =~= ts@);
            }
            self.execution_mode = ExecutionMode::Subshell;
            s.unit = Some(unit);
            s.set_stdin_to = None;
            s.phase = Phase::Running;
            return Step::Subshell(captured);
        }
        self.execution_mode = ExecutionMode::Normal;
        let request = Engine::before_exec_request(&unit);
        s.unit = Some(unit);
        match request {
            Some(res) => {
                s.phase = Phase::Acquiring;
                Step::Acquire(res)
            },
            None => {
                let op = match &s.unit {
                    Some(u) => u.associated_operator,
                    None => None,
                };
                s.set_stdin_to = self.handle_operations_before_exec(op, None);
                self.launch(s)
            },
        }
    }

    /// Hands out the unit's command.
    fn launch(&mut self, s: &mut Session) -> (r: Step)
        ensures
            *final(self) == *old(self),
            final(s).set_stdin_to == old(s).set_stdin_to,
            launch_fits(r, *old(self)),
            match old(s).unit_view() {
                Some(u) => u.cmds.len() > 0 ==> final(s).phase == Phase::Running,
                None => true,
            },
            final(s).tokens == old(s).tokens,
            final(s).idx == old(s).idx,
            final(s).unit == old(s).unit,
            final(self).execution_successful == old(self).execution_successful,
            final(self).env_paths == old(self).env_paths,
            final(self).is_interactive == old(self).is_interactive,
            final(self).in_subshell() == old(self).in_subshell(),
            match r {
                Step::Run(l) => {
                    &&& l.fd_ops@ == old(self).staged()
                    &&& l.close_in_parent@ == old(self).closes()
                    &&& l.wait == (old(self).mode() != ExecutionMode::Pipeline
                        && old(self).mode() != ExecutionMode::Background)
                    &&& l.in_process == old(self).in_subshell()
                    &&& match old(s).unit_view() {
                        Some(u) => u.cmds.len() > 0 && l.command@ == u.cmds[0],
                        None => false,
                    }
                },
                _ => true,
            },
            match old(s).unit_view() {
                Some(u) => u.cmds.len() > 0 ==> starts_command(r, u),
                None => true,
            },
    {
        let command = match &s.unit {
            Some(u) => {
                if u.cmds.len() == 0 {
                    s.phase = Phase::Finished;
                    return Step::Failed(ShellError::InternalError(String::from_str("unit without a command")));
                }
                u.cmds[0].duplicate()
            },
            None => {
                s.phase = Phase::Finished;
                return Step::Failed(ShellError::InternalError(String::from_str("no unit to run")));
            },
        };
        s.phase = Phase::Running;
        match self.dispatch(&command) {
            Dispatch::Builtin(b) => Step::Builtin(b),
            Dispatch::InProcess => Step::Run(Launch {
                command,
                fd_ops: self.fd_ops(),
                close_in_parent: self.parent_fds_to_close(),
                wait: self.should_wait(),
                in_process: true,
            }),
            Dispatch::Fork => Step::Run(Launch {
                command,
                fd_ops: self.fd_ops(),
                close_in_parent: self.parent_fds_to_close(),
                wait: self.should_wait(),
                in_process: false,
            }),
        }
    }

    /// After the unit's command: stops the line, or reads the next unit.
    fn after_unit(&mut self, s: &mut Session) -> (r: Step)
        requires
            old(s).unit is Some,
        ensures
            tokens_view(final(s).tokens@) == tokens_view(old(s).tokens@),
            continues(
                old(s).unit_view()->0,
                old(self).execution_successful,
                tokens_view(old(s).tokens@),
                old(s).idx as nat,
                r,
                *final(s),
                *final(self),
                old(self).mode(),
                old(s).set_stdin_to,
            ),
            final(self).execution_successful == old(self).execution_successful,
            final(self).env_paths == old(self).env_paths,
            final(self).is_interactive == old(self).is_interactive,
            final(self).in_subshell() == old(self).in_subshell(),
    {
        let op = match &s.unit {
            Some(u) => u.associated_operator,
            None => None,
        };
        let ghost mode0 = self.mode();
        let ghost stdin0 = s.set_stdin_to;
        let stop = self.handle_operations_after_exec(op, s.set_stdin_to);
        proof {
            assert(self.closes() =~= Seq::<i32>::empty());
            if !stop {
                assert(self.staged() =~= carried(mode0, stdin0));
            }
        }
        s.set_stdin_to = None;
        if stop {
            s.phase = Phase::Finished;
            return Step::Finished { exit_requested: false };
        }
        self.next_unit(s)
    }

    /// Takes the run of a line one step further: `event` reports how the
    /// previous step went.
    pub fn advance(&mut self, s: &mut Session, event: Event) -> (r: Step)
        ensures
            tokens_view(final(s).tokens@) == tokens_view(old(s).tokens@),
            final(self).env_paths == old(self).env_paths,
            final(self).is_interactive == old(self).is_interactive,
            final(self).in_subshell() == old(self).in_subshell(),
            // Starting reads the first unit.
            (old(s).phase == Phase::Ready && event is Start) ==> answers_next_unit(
                tokens_view(old(s).tokens@),
                old(s).idx as nat,
                r,
                *final(s),
                *final(self),
                old(self).staged(),
                old(self).closes(),
            ) && final(self).execution_successful == old(self).execution_successful,
            // A waited exit, or a builtin's, sets the status; `&&` and `||`
            // may then end the line; else the next unit is read.
            (old(s).phase == Phase::Running && old(s).unit is Some) ==> match event {
                Event::Exited(code) => {
                    let u = old(s).unit_view()->0;
                    &&& final(self).execution_successful == succeeded(unit_negates(u), code)
                    &&& continues(
                        u,
                        succeeded(unit_negates(u), code),
                        tokens_view(old(s).tokens@),
                        old(s).idx as nat,
                        r,
                        *final(s),
                        *final(self),
                        old(self).mode(),
                        old(s).set_stdin_to,
                    )
                },
                Event::BuiltinDone(ok) => {
                    let u = old(s).unit_view()->0;
                    &&& final(self).execution_successful == ok
                    &&& continues(
                        u,
                        ok,
                        tokens_view(old(s).tokens@),
                        old(s).idx as nat,
                        r,
                        *final(s),
                        *final(self),
                        old(self).mode(),
                        old(s).set_stdin_to,
                    )
                },
                Event::Done => {
                    let u = old(s).unit_view()->0;
                    &&& final(self).execution_successful == old(self).execution_successful
                    &&& continues(
                        u,
                        old(self).execution_successful,
                        tokens_view(old(s).tokens@),
                        old(s).idx as nat,
                        r,
                        *final(s),
                        *final(self),
                        old(self).mode(),
                        old(s).set_stdin_to,
                    )
                },
                _ => true,
            },
            // The acquired descriptor is staged and the unit's command
            // handed out.
            (old(s).phase == Phase::Acquiring && old(s).unit is Some) ==> match event {
                Event::Acquired(a) => {
                    let u = old(s).unit_view()->0;
                    let b = before_exec(u.op, Some(a));
                    &&& final(self).execution_successful == old(self).execution_successful
                    &&& final(self).staged() == old(self).staged() + b.ops
                    &&& final(self).closes() == old(self).closes() + b.closes
                    &&& final(self).mode() == (match b.mode {
                        Some(m) => m,
                        None => old(self).mode(),
                    })
                    &&& final(s).set_stdin_to == b.stdin_next
                    &&& final(s).unit_view() == old(s).unit_view()
                    &&& final(s).idx == old(s).idx
                    &&& launch_fits(r, *final(self))
                    &&& u.cmds.len() > 0 ==> starts_command(r, u) && final(s).phase == Phase::Running
                },
                _ => true,
            },
    {
        match (s.phase, event) {
            (Phase::Ready, Event::Start) => self.next_unit(s),
            (Phase::Acquiring, Event::Acquired(a)) => {
                let op = match &s.unit {
                    Some(u) => u.associated_operator,
                    None => None,
                };
                s.set_stdin_to = self.handle_operations_before_exec(op, Some(a));
                self.launch(s)
            },
            (Phase::Running, Event::Exited(code)) => {
                let negate = match &s.unit {
                    Some(u) => match u.execute_mode {
                        ExecuteMode::Normal => u.cmds.len() > 0 && u.cmds[0].negate_exit_status,
                        ExecuteMode::Subshell(_) => false,
                    },
                    None => false,
                };
                if s.unit.is_none() {
                    s.phase = Phase::Finished;
                    return Step::Failed(ShellError::InternalError(String::from_str("no unit was running")));
                }
                self.record_exit(negate, code);
                self.after_unit(s)
            },
            (Phase::Running, Event::BuiltinDone(ok)) => {
                if s.unit.is_none() {
                    s.phase = Phase::Finished;
                    return Step::Failed(ShellError::InternalError(String::from_str("no unit was running")));
                }
                self.execution_successful = ok;
                self.after_unit(s)
            },
            (Phase::Running, Event::Done) => {
                if s.unit.is_none() {
                    s.phase = Phase::Finished;
                    return Step::Failed(ShellError::InternalError(String::from_str("no unit was running")));
                }
                self.after_unit(s)
            },
            _ => {
                s.phase = Phase::Finished;
                Step::Failed(ShellError::InternalError(String::from_str("event does not fit the step")))
            },
        }
    }
}

} // verus!
