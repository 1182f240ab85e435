//! The executor: runs a parsed command sequence against four signed 64-bit
//! registers under a program counter.
//!
//! The reference semantics is the small-step machine [`spec_step`] /
//! [`spec_run`] over [`ExecConfig`]: registers, program counter, input lines
//! not yet consumed, and output produced so far.  [`Executor::step`]
//! performs exactly one machine step; [`Executor::execute`] runs up to a
//! caller-chosen number of steps with its input and output modelled as
//! plain values, and a caller that performs real input and output drives
//! [`Executor::step`] itself.
//!
//! Arithmetic of `ADD` and `SUB` wraps around in two's complement, as does
//! the reinterpretation of a read input value as a signed register value.

use vstd::prelude::*;

use crate::parser::{Command, Comp, Condition, JumpDest, VarOrNum, Variable, dest_wf, prog_wf};
use crate::text::{dec_int, i64_to_string, parse_uint_bounded, spec_parse_uint, spec_trim, trim};

verus! {

/// Why a run aborted: an input or output failure of the surrounding
/// process, or an input line that is not a non-negative base-10 integer.
#[derive(Clone, Copy, Debug, PartialEq, Eq, Structural)]
pub enum ExecutingError {
    Io,
    ParseInt,
}

// ---------------------------------------------------------------------------
// Registers
// ---------------------------------------------------------------------------

/// The whole mutable machine state: four signed 64-bit registers, all
/// starting at zero.
#[derive(Clone, Copy, Debug, PartialEq, Eq, Structural)]
pub struct State {
    pub a: i64,
    pub b: i64,
    pub c: i64,
    pub d: i64,
}

/// The value of register `var` in `s`.
pub open spec fn spec_get(s: State, var: Variable) -> i64 {
    match var {
        Variable::A => s.a,
        Variable::B => s.b,
        Variable::C => s.c,
        Variable::D => s.d,
    }
}

/// `s` with register `var` set to `val`.
pub open spec fn spec_set(s: State, var: Variable, val: i64) -> State {
    match var {
        Variable::A => State { a: val, ..s },
        Variable::B => State { b: val, ..s },
        Variable::C => State { c: val, ..s },
        Variable::D => State { d: val, ..s },
    }
}

/// The value an operand denotes in `s`: a register's value, or the literal
/// widened to a signed 64-bit value.
pub open spec fn spec_resolve(s: State, von: VarOrNum) -> i64 {
    match von {
        VarOrNum::Variable(v) => spec_get(s, v),
        VarOrNum::Num(n) => n as i64,
    }
}

/// Whether the condition `a COMP b` holds in `s`.
pub open spec fn spec_eval_cond(s: State, cond: Condition) -> bool {
    let a = spec_get(s, cond.a);
    let b = spec_resolve(s, cond.b);
    match cond.comp {
        Comp::Lt => a < b,
        Comp::Le => a <= b,
        Comp::Eq => a == b,
        Comp::Ne => a != b,
        Comp::Gt => a > b,
        Comp::Ge => a >= b,
    }
}

impl Default for State {
    /// All registers start at zero.
    fn default() -> (s: State)
        ensures
            s == (State { a: 0i64, b: 0i64, c: 0i64, d: 0i64 }),
    {
        State { a: 0, b: 0, c: 0, d: 0 }
    }
}

impl State {
    /// Reads register `var`.
    pub fn get(&self, var: &Variable) -> (r: i64)
        ensures
            r == spec_get(*self, *var),
    {
        match var {
            Variable::A => self.a,
            Variable::B => self.b,
            Variable::C => self.c,
            Variable::D => self.d,
        }
    }

    /// Borrows register `var` for writing.
    pub fn get_mut(&mut self, var: &Variable) -> (r: &mut i64)
        ensures
            *r == spec_get(*old(self), *var),
            *final(self) == spec_set(*old(self), *var, *final(r)),
    {
        match var {
            Variable::A => &mut self.a,
            Variable::B => &mut self.b,
            Variable::C => &mut self.c,
            Variable::D => &mut self.d,
        }
    }

    /// Resolves an operand to its value.
    pub fn get_var_or_num(&self, var_or_num: &VarOrNum) -> (r: i64)
        ensures
            r == spec_resolve(*self, *var_or_num),
    {
        match var_or_num {
            VarOrNum::Variable(variable) => match variable {
                Variable::A => self.a,
                Variable::B => self.b,
                Variable::C => self.c,
                Variable::D => self.d,
            },
            VarOrNum::Num(num) => *num as i64,
        }
    }

    /// Evaluates a condition against the registers.
    pub fn evaluate_condition(&self, condition: &Condition) -> (r: bool)
        ensures
            r == spec_eval_cond(*self, *condition),
    {
        let a = self.get(&condition.a);
        let b = self.get_var_or_num(&condition.b);
        match condition.comp {
            Comp::Lt => a < b,
            Comp::Le => a <= b,
            Comp::Eq => a == b,
            Comp::Ne => a != b,
            Comp::Gt => a > b,
            Comp::Ge => a >= b,
        }
    }
}

// ---------------------------------------------------------------------------
// Input lines
// ---------------------------------------------------------------------------

/// The signed register value that the unsigned 64-bit value `v` becomes,
/// by two's-complement reinterpretation.
pub open spec fn u64_as_i64(v: u64) -> i64 {
    if v <= i64::MAX {
        v as i64
    } else {
        (v - 0x1_0000_0000_0000_0000) as i64
    }
}

/// The register value an input line yields: the line is trimmed and read as
/// an unsigned base-10 64-bit integer, then reinterpreted as signed.
/// `None` for empty, negative, non-numeric or too-large input.
pub open spec fn spec_parse_input(line: Seq<char>) -> Option<i64> {
    match spec_parse_uint(spec_trim(line)) {
        Some(v) => if v <= u64::MAX {
            Some(u64_as_i64(v as u64))
        } else {
            None
        },
        None => None,
    }
}

/// Parses one input line into a register value.
pub fn parse_input_line(line: &str) -> (r: Option<i64>)
    ensures
        r == spec_parse_input(line@),
{
    let t = trim(line);
    match parse_uint_bounded(t, u64::MAX) {
        Some(v) => {
            if v <= 0x7FFF_FFFF_FFFF_FFFFu64 {
                Some(v as i64)
            } else {
                let d = u64::MAX - v;
                Some(-(d as i64) - 1)
            }
        },
        None => None,
    }
}

// ---------------------------------------------------------------------------
// The small-step machine
// ---------------------------------------------------------------------------

/// A configuration of the running machine.
pub ghost struct ExecConfig {
    /// The registers.
    pub state: State,
    /// The index of the next command to execute.
    pub pc: nat,
    /// The input lines not yet consumed.
    pub inputs: Seq<Seq<char>>,
    /// The output produced so far.
    pub output: Seq<char>,
}

/// A run in progress, finished normally, or aborted on bad input.
pub ghost enum RunState {
    Running(ExecConfig),
    Halted(ExecConfig),
    Failed(ExecConfig),
}

/// Where the program counter moves on taking destination `d`, when its
/// already-incremented value is `pc` and the program has `len` commands:
/// fall through keeps it, end sets it past the program, and a 1-based line
/// number re-derives the 0-based position.  An out-of-range line number is
/// deliberately not checked here; the next step then halts the machine.
pub open spec fn spec_jump(pc: nat, d: JumpDest, len: nat) -> nat {
    match d {
        JumpDest::Next => pc,
        JumpDest::End => len,
        JumpDest::Nth(n) => if n >= 1 {
            (n - 1) as nat
        } else {
            0
        },
    }
}

/// One step of the machine: fetch the command under the program counter,
/// advance the counter, then apply the command's effect.  A counter at or
/// past the end of the program halts.  A `LTV` with no input left behaves
/// as if it had read an empty line, which fails.
pub open spec fn spec_step(prog: Seq<Command>, cfg: ExecConfig) -> RunState {
    if cfg.pc >= prog.len() {
        RunState::Halted(cfg)
    } else {
        let pc1 = (cfg.pc + 1) as nat;
        match prog[cfg.pc as int] {
            Command::Pvr(v) => RunState::Running(
                ExecConfig {
                    pc: pc1,
                    output: cfg.output + dec_int(spec_get(cfg.state, v) as int),
                    ..cfg
                },
            ),
            Command::Ptx(t) => RunState::Running(
                ExecConfig { pc: pc1, output: cfg.output + t@, ..cfg },
            ),
            Command::Nln => RunState::Running(
                ExecConfig { pc: pc1, output: cfg.output + seq!['\n'], ..cfg },
            ),
            Command::Ltv(v) => {
                let line = if cfg.inputs.len() > 0 {
                    cfg.inputs[0]
                } else {
                    Seq::empty()
                };
                let rest = if cfg.inputs.len() > 0 {
                    cfg.inputs.skip(1)
                } else {
                    cfg.inputs
                };
                match spec_parse_input(line) {
                    Some(val) => RunState::Running(
                        ExecConfig {
                            state: spec_set(cfg.state, v, val),
                            pc: pc1,
                            inputs: rest,
                            ..cfg
                        },
                    ),
                    None => RunState::Failed(ExecConfig { pc: pc1, inputs: rest, ..cfg }),
                }
            },
            Command::Assign(var, von) => RunState::Running(
                ExecConfig {
                    state: spec_set(cfg.state, var, spec_resolve(cfg.state, von)),
                    pc: pc1,
                    ..cfg
                },
            ),
            Command::Add(var, von) => RunState::Running(
                ExecConfig {
                    state: spec_set(
                        cfg.state,
                        var,
                        spec_get(cfg.state, var).wrapping_add(spec_resolve(cfg.state, von)),
                    ),
                    pc: pc1,
                    ..cfg
                },
            ),
            Command::Sub(var, von) => RunState::Running(
                ExecConfig {
                    state: spec_set(
                        cfg.state,
                        var,
                        spec_get(cfg.state, var).wrapping_sub(spec_resolve(cfg.state, von)),
                    ),
                    pc: pc1,
                    ..cfg
                },
            ),
            Command::Ifj(cond, then_dest, else_dest) => RunState::Running(
                ExecConfig {
                    pc: spec_jump(
                        pc1,
                        if spec_eval_cond(cfg.state, cond) {
                            then_dest
                        } else {
                            else_dest
                        },
                        prog.len(),
                    ),
                    ..cfg
                },
            ),
            Command::Jmp(d) => RunState::Running(
                ExecConfig { pc: spec_jump(pc1, d, prog.len()), ..cfg },
            ),
        }
    }
}

/// The machine after `n` steps from `cfg`.  Halting and failing are
/// absorbing.
pub open spec fn spec_run(prog: Seq<Command>, cfg: ExecConfig, n: nat) -> RunState
    decreases n,
{
    if n == 0 {
        RunState::Running(cfg)
    } else {
        match spec_run(prog, cfg, (n - 1) as nat) {
            RunState::Running(c) => spec_step(prog, c),
            done => done,
        }
    }
}

// ---------------------------------------------------------------------------
// The executor
// ---------------------------------------------------------------------------

/// The outward effect of one executed command.
#[derive(Clone, Debug, PartialEq, Eq)]
pub enum StepEffect {
    /// Write this text to the output, verbatim.
    Print(String),
    /// Read one input line and hand it to [`Executor::feed_input`] for this
    /// register, flushing pending output first.
    ReadInto(Variable),
    /// The command had no outward effect.
    Continue,
}

/// How a bounded run ended: the program terminated normally, an input line
/// failed to parse, or the step budget ran out first.
#[derive(Clone, Copy, Debug, PartialEq, Eq, Structural)]
pub enum ExecOutcome {
    Done,
    BadInput,
    StepLimit,
}

/// The abstract value of an [`Executor`]: registers, program counter and
/// program.
pub ghost struct ExecutorV {
    pub state: State,
    pub pc: nat,
    pub prog: Seq<Command>,
}

/// Runs a command sequence.  The commands are fetched by a program counter
/// that starts at the first command; running past the end terminates.
#[derive(Debug)]
pub struct Executor {
    state: State,
    pc: usize,
    commands_len: usize,
    commands: Vec<Command>,
}

impl View for Executor {
    type V = ExecutorV;

    closed spec fn view(&self) -> ExecutorV {
        ExecutorV { state: self.state, pc: self.pc as nat, prog: self.commands@ }
    }
}

impl Executor {
    /// The cached program length agrees with the program.
    pub closed spec fn wf(&self) -> bool {
        self.commands_len == self.commands@.len()
    }

    /// Builds an executor over `commands`, with all registers zero and the
    /// program counter at the first command.
    pub fn new(commands: Vec<Command>) -> (r: Executor)
        ensures
            r.wf(),
            r@.prog == commands@,
            r@.pc == 0,
            r@.state == (State { a: 0i64, b: 0i64, c: 0i64, d: 0i64 }),
    {
        Executor { state: Default::default(), commands_len: commands.len(), pc: 0, commands }
    }

    /// The registers as they currently stand.
    pub fn registers(&self) -> (s: State)
        ensures
            s == self@.state,
    {
        self.state
    }

    /// The current program counter.
    pub fn pc(&self) -> (p: usize)
        ensures
            p == self@.pc,
    {
        self.pc
    }

    /// Whether the program counter has left the program, so the run is
    /// over.
    pub fn done(&self) -> (b: bool)
        requires
            self.wf(),
        ensures
            b == (self@.pc >= self@.prog.len()),
    {
        self.pc >= self.commands_len
    }

    /// Moves the already-incremented program counter to `jump_dest`.
    fn jump(&mut self, jump_dest: &JumpDest)
        requires
            dest_wf(*jump_dest),
        ensures
            final(self).state == old(self).state,
            final(self).commands == old(self).commands,
            final(self).commands_len == old(self).commands_len,
            final(self).pc as nat == spec_jump(
                old(self).pc as nat,
                *jump_dest,
                old(self).commands_len as nat,
            ),
    {
        match jump_dest {
            JumpDest::Next => {},
            JumpDest::End => {
                self.pc = self.commands_len;
            },
            JumpDest::Nth(num) => {
                self.pc = *num - 1;
            },
        }
    }

    /// Executes exactly one command: fetches the command under the program
    /// counter, advances the counter, applies the command's internal effect
    /// and reports its outward one.  This is one [`spec_step`] of the
    /// machine, except that for `LTV` the register is only written once the
    /// caller hands the input line to [`Executor::feed_input`].
    pub fn step(&mut self) -> (e: StepEffect)
        requires
            old(self).wf(),
            prog_wf(old(self)@.prog),
            old(self)@.pc < old(self)@.prog.len(),
        ensures
            final(self).wf(),
            final(self)@.prog == old(self)@.prog,
            ({
                let cmd = old(self)@.prog[old(self)@.pc as int];
                let st = old(self)@.state;
                let pc1 = old(self)@.pc + 1;
                let len = old(self)@.prog.len();
                match cmd {
                    Command::Pvr(v) => final(self)@.state == st && final(self)@.pc == pc1 && (
                    e matches StepEffect::Print(out) && out@ == dec_int(spec_get(st, v) as int)),
                    Command::Ptx(t) => final(self)@.state == st && final(self)@.pc == pc1 && (
                    e matches StepEffect::Print(out) && out@ == t@),
                    Command::Nln => final(self)@.state == st && final(self)@.pc == pc1 && (
                    e matches StepEffect::Print(out) && out@ == seq!['\n']),
                    Command::Ltv(v) => final(self)@.state == st && final(self)@.pc == pc1 && (
                    e matches StepEffect::ReadInto(w) && w == v),
                    Command::Assign(var, von) => final(self)@.pc == pc1 && final(self)@.state
                        == spec_set(st, var, spec_resolve(st, von)) && (e matches
                    StepEffect::Continue),
                    Command::Add(var, von) => final(self)@.pc == pc1 && final(self)@.state
                        == spec_set(
                        st,
                        var,
                        spec_get(st, var).wrapping_add(spec_resolve(st, von)),
                    ) && (e matches StepEffect::Continue),
                    Command::Sub(var, von) => final(self)@.pc == pc1 && final(self)@.state
                        == spec_set(
                        st,
                        var,
                        spec_get(st, var).wrapping_sub(spec_resolve(st, von)),
                    ) && (e matches StepEffect::Continue),
                    Command::Ifj(cond, then_dest, else_dest) => final(self)@.state == st && final(self)@.pc == spec_jump(
                        pc1,
                        if spec_eval_cond(st, cond) {
                            then_dest
                        } else {
                            else_dest
                        },
                        len,
                    ) && (e matches StepEffect::Continue),
                    Command::Jmp(d) => final(self)@.state == st && final(self)@.pc == spec_jump(
                        pc1,
                        d,
                        len,
                    ) && (e matches StepEffect::Continue),
                }
            }),
    {
        let pc0 = self.pc;
        self.pc = self.pc + 1;
        let cmd = &self.commands[pc0];
        match cmd {
            Command::Pvr(var) => StepEffect::Print(i64_to_string(self.state.get(var))),
            Command::Ptx(text) => StepEffect::Print(text.clone()),
            Command::Nln => {
                let mut nl = String::new();
                nl.push('\n');
                proof {
                    assert(nl@ =~= seq!['\n']);
                }
                StepEffect::Print(nl)
            },
            Command::Ltv(var) => StepEffect::ReadInto(*var),
            Command::Assign(var, von) => {
                let num = self.state.get_var_or_num(von);
                *self.state.get_mut(var) = num;
                StepEffect::Continue
            },
            Command::Add(var, von) => {
                let num = self.state.get_var_or_num(von);
                let cur = self.state.get(var);
                *self.state.get_mut(var) = cur.wrapping_add(num);
                StepEffect::Continue
            },
            Command::Sub(var, von) => {
                let num = self.state.get_var_or_num(von);
                let cur = self.state.get(var);
                *self.state.get_mut(var) = cur.wrapping_sub(num);
                StepEffect::Continue
            },
            Command::Ifj(condition, then_dest, else_dest) => {
                let taken = if self.state.evaluate_condition(condition) {
                    *then_dest
                } else {
                    *else_dest
                };
                self.jump(&taken);
                StepEffect::Continue
            },
            Command::Jmp(jump_dest) => {
                let taken = *jump_dest;
                self.jump(&taken);
                StepEffect::Continue
            },
        }
    }

    /// Runs the program for at most `max_steps` machine steps, reading
    /// input lines from `inputs` in order and collecting the output.  A
    /// `LTV` beyond the end of `inputs` reads an empty line and fails, as
    /// reading an exhausted input stream does.  Returns the output
    /// produced, paired with how the run ended.
    pub fn execute(self, inputs: &Vec<String>, max_steps: u64) -> (r: (String, ExecOutcome))
        requires
            self.wf(),
            prog_wf(self@.prog),
        ensures
            ({
                let prog = self@.prog;
                let init = ExecConfig {
                    state: self@.state,
                    pc: self@.pc,
                    inputs: inputs.deep_view(),
                    output: Seq::empty(),
                };
                match r.1 {
                    ExecOutcome::Done => exists|n: nat|
                        n <= max_steps && ((#[trigger] spec_run(prog, init, n)) matches
                        RunState::Halted(c) && c.output == r.0@),
                    ExecOutcome::BadInput => exists|n: nat|
                        n <= max_steps && ((#[trigger] spec_run(prog, init, n)) matches
                        RunState::Failed(c) && c.output == r.0@),
                    ExecOutcome::StepLimit => spec_run(prog, init, max_steps as nat) matches
                        RunState::Running(c) && c.output == r.0@,
                }
            }),
    {
        let mut this = self;
        let ghost prog = this@.prog;
        let ghost init = ExecConfig {
            state: this@.state,
            pc: this@.pc,
            inputs: inputs.deep_view(),
            output: Seq::empty(),
        };
        let mut out = String::new();
        let mut in_idx: usize = 0;
        let mut steps: u64 = 0;
        proof {
            assert(inputs.deep_view().skip(0) =~= inputs.deep_view());
        }
        while steps < max_steps
            invariant
                this.wf(),
                prog_wf(prog),
                this@.prog == prog,
                prog == self@.prog,
                init == (ExecConfig {
                    state: self@.state,
                    pc: self@.pc,
                    inputs: inputs.deep_view(),
                    output: Seq::empty(),
                }),
                steps <= max_steps,
                in_idx <= inputs@.len(),
                spec_run(prog, init, steps as nat) == RunState::Running(
                    ExecConfig {
                        state: this@.state,
                        pc: this@.pc,
                        inputs: inputs.deep_view().skip(in_idx as int),
                        output: out@,
                    },
                ),
            decreases max_steps - steps,
        {
            let ghost cur = ExecConfig {
                state: this@.state,
                pc: this@.pc,
                inputs: inputs.deep_view().skip(in_idx as int),
                output: out@,
            };
            if this.done() {
                proof {
                    assert(spec_step(prog, cur) == RunState::Halted(cur));
                    assert(spec_run(prog, init, (steps + 1) as nat) == RunState::Halted(cur));
                }
                return (out, ExecOutcome::Done);
            }
            match this.step() {
                StepEffect::Print(text) => {
                    out.push_str(text.as_str());
                },
                StepEffect::Continue => {},
                StepEffect::ReadInto(var) => {
                    proof {
                        assert(inputs.deep_view().len() == inputs@.len());
                        if in_idx < inputs@.len() {
                            assert(cur.inputs[0] == inputs.deep_view()[in_idx as int]);
                            assert(cur.inputs.skip(1) =~= inputs.deep_view().skip(in_idx + 1));
                        }
                    }
                    let fed = if in_idx < inputs.len() {
                        let line = &inputs[in_idx];
                        in_idx = in_idx + 1;
                        this.feed_input(&var, line.as_str())
                    } else {
                        proof {
                            reveal_strlit("");
                            assert(""@ =~= Seq::<char>::empty());
                        }
                        this.feed_input(&var, "")
                    };
                    match fed {
                        Ok(()) => {},
                        Err(_) => {
                            proof {
                                let fail = ExecConfig {
                                    state: cur.state,
                                    pc: cur.pc + 1,
                                    inputs: inputs.deep_view().skip(in_idx as int),
                                    output: out@,
                                };
                                assert(spec_step(prog, cur) == RunState::Failed(fail));
                                assert(spec_run(prog, init, (steps + 1) as nat)
                                    == RunState::Failed(fail));
                            }
                            return (out, ExecOutcome::BadInput);
                        },
                    }
                },
            }
            proof {
                let next = ExecConfig {
                    state: this@.state,
                    pc: this@.pc,
                    inputs: inputs.deep_view().skip(in_idx as int),
                    output: out@,
                };
                assert(spec_step(prog, cur) == RunState::Running(next));
                assert(spec_run(prog, init, (steps + 1) as nat) == RunState::Running(next));
            }
            steps = steps + 1;
        }
        (out, ExecOutcome::StepLimit)
    }

    /// Stores the value of one input line into register `var`, as `LTV`
    /// does after [`Executor::step`] asked for a line.
    pub fn feed_input(&mut self, var: &Variable, line: &str) -> (r: Result<(), ExecutingError>)
        requires
            old(self).wf(),
        ensures
            final(self).wf(),
            final(self)@.prog == old(self)@.prog,
            final(self)@.pc == old(self)@.pc,
            match spec_parse_input(line@) {
                Some(val) => r is Ok && final(self)@.state == spec_set(
                    old(self)@.state,
                    *var,
                    val,
                ),
                None => r == Err::<(), ExecutingError>(ExecutingError::ParseInt) && final(self)@.state == old(self)@.state,
            },
    {
        match parse_input_line(line) {
            Some(v) => {
                *self.state.get_mut(var) = v;
                Ok(())
            },
            None => Err(ExecutingError::ParseInt),
        }
    }
}

// ---------------------------------------------------------------------------
// Straight-line programs
// ---------------------------------------------------------------------------

/// Whether the program contains no jump commands, conditional or
/// unconditional.
pub open spec fn no_jumps(prog: Seq<Command>) -> bool {
    forall|i: int|
        0 <= i < prog.len() ==> !((#[trigger] prog[i]) matches Command::Ifj(_, _, _)) && !(
        prog[i] matches Command::Jmp(_))
}

/// In a well-formed program with no jumps, instructions execute in strict
/// source order, each at most once: while the machine is still running
/// after `n` steps, the program counter stands at exactly `n`, so the steps
/// taken so far executed precisely the first `n` commands, in order.
pub proof fn lemma_straight_line_order(prog: Seq<Command>, init: ExecConfig, n: nat)
    requires
        no_jumps(prog),
        init.pc == 0,
    ensures
        spec_run(prog, init, n) matches RunState::Running(c) ==> c.pc == n && n <= prog.len(),
    decreases n,
{
    if n > 0 {
        lemma_straight_line_order(prog, init, (n - 1) as nat);
        if spec_run(prog, init, n) is Running {
            let prev = spec_run(prog, init, (n - 1) as nat);
            assert(prev is Running);
            let c = prev->Running_0;
            assert(!(prog[c.pc as int] matches Command::Ifj(_, _, _)));
        }
    }
}

/// A straight-line program that is still running once every command has
/// had its step terminates normally on the very next step, and stays
/// halted: each instruction has executed exactly once.
pub proof fn lemma_straight_line_halts(prog: Seq<Command>, init: ExecConfig, n: nat)
    requires
        no_jumps(prog),
        init.pc == 0,
        spec_run(prog, init, prog.len()) is Running,
        n > prog.len(),
    ensures
        spec_run(prog, init, n) == RunState::Halted(spec_run(prog, init, prog.len())->Running_0),
    decreases n,
{
    let c0 = spec_run(prog, init, prog.len())->Running_0;
    lemma_straight_line_order(prog, init, prog.len());
    if n == prog.len() + 1 {
        assert(c0.pc == prog.len());
        assert(spec_step(prog, c0) == RunState::Halted(c0));
    } else {
        lemma_straight_line_halts(prog, init, (n - 1) as nat);
    }
}

} // verus!
