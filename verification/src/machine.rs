//! The tape machine: its state, what one step does to it, and the machine
//! that takes the steps.

use crate::brackets::well_bracketed;
use crate::config::{Config, Overflow, TapeModel};
use crate::token::Token;
use vstd::arithmetic::div_mod::lemma_mod_bound;
use vstd::prelude::*;

verus! {

/// The state of a machine: the cells that the tape holds, the pointer into
/// the tape, and the index of the next token of the program.
pub struct State {
    pub tape: Seq<u8>,
    pub sp: nat,
    pub ip: nat,
}

/// What a step asks of the machine's surroundings.
#[derive(Clone, Copy, Debug, PartialEq, Eq, Structural)]
pub enum Effect {
    /// Nothing: the step only changed the machine.
    Silent,
    /// The byte is to be written to the output, which is then to be flushed
    /// if `flush` is set.
    Output { byte: u8, flush: bool },
    /// A snapshot of the machine is to be shown.
    Dump,
    /// The machine stands at [`Token::End`]: it has not changed and never
    /// will.
    Stuck,
    /// The program is over: the machine has not changed.
    Halted,
}

/// The byte that ends a line. The output is flushed after it.
pub const NEWLINE: u8 = 10;

/// The cell at index `i`. A cell that the tape does not hold yet is 0.
pub open spec fn read(tape: Seq<u8>, i: int) -> u8 {
    if 0 <= i < tape.len() {
        tape[i]
    } else {
        0
    }
}

/// The tape after `v` is stored at index `i`. A tape that does not reach
/// that far is first extended by cells that hold 0.
pub open spec fn write(tape: Seq<u8>, i: int, v: u8) -> Seq<u8> {
    if i < tape.len() {
        tape.update(i, v)
    } else {
        (tape + Seq::new((i - tape.len()) as nat, |k: int| 0u8)).push(v)
    }
}

/// The index of the token after the bracket at index `t`, or the end of
/// the program where there is no such bracket.
pub open spec fn beyond(t: int, len: int) -> int {
    if t < len {
        t + 1
    } else {
        len
    }
}

impl State {
    /// The state in which every machine starts: the pointer at cell 0, the
    /// program at its first token, every cell 0.
    pub open spec fn initial(config: Config) -> State {
        State {
            tape: match config.tape {
                TapeModel::Fixed(len) => Seq::new(len as nat, |k: int| 0u8),
                TapeModel::Dynamic => Seq::empty(),
            },
            sp: 0,
            ip: 0,
        }
    }

    /// The state suits the tape's layout: a ring has all its cells, and
    /// the pointer is on it; on a growing tape the pointer is an index.
    pub open spec fn fits(self, config: Config) -> bool {
        match config.tape {
            TapeModel::Fixed(len) => self.tape.len() == len && self.sp < len,
            TapeModel::Dynamic => self.sp <= usize::MAX,
        }
    }

    /// The cell under the pointer.
    pub open spec fn here(self) -> u8 {
        read(self.tape, self.sp as int)
    }

    /// The state with `v` stored under the pointer and the program one
    /// token further.
    pub open spec fn store(self, v: u8) -> State {
        State { tape: write(self.tape, self.sp as int, v), ip: self.ip + 1, ..self }
    }

    /// The state after the current cell, times `mul`, has been added to the
    /// cell at `target`. The current cell stays.
    pub open spec fn pour(self, policy: Overflow, target: int, mul: int) -> State {
        State {
            tape: write(
                self.tape,
                target,
                policy.narrowed(read(self.tape, target) + self.here() * mul) as u8,
            ),
            ..self
        }
    }

    /// The state after one step on the program `code`, where `input` is the
    /// next byte of the input, if there is one.
    ///
    /// Past the end of the program, and at [`Token::End`], nothing changes.
    /// A bracket that jumps goes on after its partner. [`Token::Scan`]
    /// moves once and stays the next token as long as the current cell is
    /// not 0. Every other token does its work and the program goes on with
    /// the token after it.
    pub open spec fn next(self, config: Config, code: Seq<Token>, input: Option<u8>) -> State {
        let on = State { ip: self.ip + 1, ..self };
        if self.ip >= code.len() {
            self
        } else {
            match code[self.ip as int] {
                Token::Inc(n) => self.store(config.overflow.narrowed(self.here() + n) as u8),
                Token::Dec(n) => self.store(config.overflow.narrowed(self.here() - n) as u8),
                Token::Goto(d) => State {
                    sp: config.tape.moved(self.sp as int, d as int) as nat,
                    ..on
                },
                Token::LBrack(t) => if self.here() == 0 {
                    State { ip: beyond(t as int, code.len() as int) as nat, ..self }
                } else {
                    on
                },
                Token::RBrack(t) => if self.here() != 0 {
                    State { ip: beyond(t as int, code.len() as int) as nat, ..self }
                } else {
                    on
                },
                Token::Out => on,
                Token::In => self.store(
                    match input {
                        Some(byte) => byte,
                        None => 0,
                    },
                ),
                Token::Zero => self.store(0),
                Token::SetTo(v) => self.store(v),
                Token::Add(d, mul) => self.pour(
                    config.overflow,
                    config.tape.moved(self.sp as int, d as int),
                    mul as int,
                ).store(0),
                Token::Sub(d) => self.pour(
                    config.overflow,
                    config.tape.moved(self.sp as int, d as int),
                    -1,
                ).store(0),
                Token::Dup(d1, mul1, d2, mul2) => {
                    let first = self.pour(
                        config.overflow,
                        config.tape.moved(self.sp as int, d1 as int),
                        mul1 as int,
                    );
                    State {
                        tape: write(
                            first.tape,
                            config.tape.moved(self.sp as int, d1 + d2),
                            config.overflow.narrowed(
                                read(first.tape, config.tape.moved(self.sp as int, d1 + d2))
                                    + self.here() * mul2,
                            ) as u8,
                        ),
                        ..self
                    }.store(0)
                },
                Token::Scan(d) => if self.here() != 0 {
                    State { sp: config.tape.moved(self.sp as int, d as int) as nat, ..self }
                } else {
                    on
                },
                Token::End => self,
                Token::Dump => on,
            }
        }
    }

    /// What the step from this state asks of the machine's surroundings.
    pub open spec fn effect(self, code: Seq<Token>) -> Effect {
        if self.ip >= code.len() {
            Effect::Halted
        } else {
            match code[self.ip as int] {
                Token::Out => Effect::Output { byte: self.here(), flush: self.here() == NEWLINE },
                Token::Dump => Effect::Dump,
                Token::End => Effect::Stuck,
                _ => Effect::Silent,
            }
        }
    }

    /// The step from this state reads a byte of input.
    pub open spec fn reads(self, code: Seq<Token>) -> bool {
        self.ip < code.len() && code[self.ip as int] is In
    }
}

impl State {
    /// The state after `n` steps on the program `code` that read no input.
    pub open spec fn after(self, config: Config, code: Seq<Token>, n: nat) -> State
        decreases n,
    {
        if n == 0 {
            self
        } else {
            self.next(config, code, None).after(config, code, (n - 1) as nat)
        }
    }
}

/// The index reached from `sp` by `k` moves of `d` cells each.
pub open spec fn scan_path(model: TapeModel, sp: int, d: int, k: nat) -> int
    decreases k,
{
    if k == 0 {
        sp
    } else {
        scan_path(model, model.moved(sp, d), d, (k - 1) as nat)
    }
}

/// [`Token::Scan`] is a loop: where the cell reached by `k` moves is the
/// first one on the pointer's way that holds 0, `k` steps move the pointer
/// there, and one more goes on to the next token. The tape stays as it is.
pub proof fn lemma_scan_stops_at_first_zero(
    config: Config,
    state: State,
    code: Seq<Token>,
    d: isize,
    k: nat,
)
    requires
        config.wf(),
        state.ip < code.len(),
        code[state.ip as int] == Token::Scan(d),
        forall|j: nat|
            j < k ==> read(
                state.tape,
                #[trigger] scan_path(config.tape, state.sp as int, d as int, j),
            ) != 0,
        read(state.tape, scan_path(config.tape, state.sp as int, d as int, k)) == 0,
    ensures
        state.after(config, code, k + 1) == (State {
            sp: scan_path(config.tape, state.sp as int, d as int, k) as nat,
            ip: state.ip + 1,
            ..state
        }),
    decreases k,
{
    reveal_with_fuel(State::after, 2);
    if k == 0 {
        assert(scan_path(config.tape, state.sp as int, d as int, 0) == state.sp);
    } else {
        assert(scan_path(config.tape, state.sp as int, d as int, 0) == state.sp);
        let moved = state.next(config, code, None);
        assert(moved.sp == config.tape.moved(state.sp as int, d as int)) by {
            if config.tape is Fixed {
                lemma_mod_bound(state.sp + d, config.tape->Fixed_0 as int);
            }
        }
        assert forall|j: nat| j < k - 1 implies read(
            moved.tape,
            #[trigger] scan_path(config.tape, moved.sp as int, d as int, j),
        ) != 0 by {
            assert(scan_path(config.tape, moved.sp as int, d as int, j) == scan_path(
                config.tape,
                state.sp as int,
                d as int,
                j + 1,
            ));
        }
        lemma_scan_stops_at_first_zero(config, moved, code, d, (k - 1) as nat);
    }
}

/// In a program with sound brackets a bracket that jumps goes on with the
/// token after its partner.
pub proof fn lemma_jump_lands_after_partner(code: Seq<Token>, i: int)
    requires
        well_bracketed(code),
        0 <= i < code.len(),
    ensures
        code[i] matches Token::LBrack(t) ==> beyond(t as int, code.len() as int) == t + 1
            && code[t as int] is RBrack,
        code[i] matches Token::RBrack(t) ==> beyond(t as int, code.len() as int) == t + 1
            && code[t as int] is LBrack,
{
}

/// How a run ended.
#[derive(Clone, Copy, Debug, PartialEq, Eq, Structural)]
pub enum Status {
    /// The program is over.
    Finished,
    /// The machine stands at [`Token::End`].
    Stuck,
    /// The steps that the run was allowed are used up.
    OutOfSteps,
}

/// A run as it ended: the machine's state, the bytes written, how many of
/// them were written when the output was last flushed, the number of bytes
/// of the input that were read, and how it ended.
pub struct Trace {
    pub state: State,
    pub output: Seq<u8>,
    pub flushed: nat,
    pub consumed: nat,
    pub status: Status,
}

/// The byte that a step reads after `consumed` bytes of `input` were read.
pub open spec fn next_byte(input: Seq<u8>, consumed: nat) -> Option<u8> {
    if consumed < input.len() {
        Some(input[consumed as int])
    } else {
        None
    }
}

/// The output after a step with the effect `effect`.
pub open spec fn extended(output: Seq<u8>, effect: Effect) -> Seq<u8> {
    match effect {
        Effect::Output { byte, flush } => output.push(byte),
        _ => output,
    }
}

/// The number of bytes of the output that were written when it was last
/// flushed, after a step with the effect `effect` has brought the output
/// to the length `written`.
pub open spec fn flushed_after(flushed: nat, written: nat, effect: Effect) -> nat {
    match effect {
        Effect::Output { byte, flush } => if flush {
            written
        } else {
            flushed
        },
        _ => flushed,
    }
}

/// The run of at most `limit` steps on the program `code` that starts in
/// `state`, after `consumed` bytes of `input` were read and `output` was
/// written, of which the first `flushed` bytes were flushed. It ends where
/// the program is over, and all the output is flushed, or where the
/// machine stands at [`Token::End`], both of which cost no step, or where
/// no step is left. A step that reads takes the next byte of the input,
/// and 0 once the input is used up.
pub open spec fn run_from(
    config: Config,
    state: State,
    code: Seq<Token>,
    input: Seq<u8>,
    consumed: nat,
    output: Seq<u8>,
    flushed: nat,
    limit: nat,
) -> Trace
    decreases limit,
{
    if state.effect(code) == Effect::Halted {
        Trace { state, output, flushed: output.len(), consumed, status: Status::Finished }
    } else if state.effect(code) == Effect::Stuck {
        Trace { state, output, flushed, consumed, status: Status::Stuck }
    } else if limit == 0 {
        Trace { state, output, flushed, consumed, status: Status::OutOfSteps }
    } else {
        run_from(
            config,
            state.next(config, code, next_byte(input, consumed)),
            code,
            input,
            if state.reads(code) && consumed < input.len() {
                consumed + 1
            } else {
                consumed
            },
            extended(output, state.effect(code)),
            flushed_after(
                flushed,
                extended(output, state.effect(code)).len(),
                state.effect(code),
            ),
            (limit - 1) as nat,
        )
    }
}

/// The result of a run.
#[derive(Debug, PartialEq, Eq)]
pub struct Run {
    /// The bytes that the program wrote, in order.
    pub output: Vec<u8>,
    /// The number of those bytes that were written when the output was
    /// last flushed: after each newline, and at the end of the program.
    pub flushed: usize,
    /// The number of bytes of the input that the program read.
    pub consumed: usize,
    /// How the run ended.
    pub status: Status,
}

impl Run {
    /// The run holds what the trace holds, but for the machine's state.
    pub open spec fn records(&self, trace: Trace) -> bool {
        &&& self.output@ == trace.output
        &&& self.flushed == trace.flushed
        &&& self.consumed == trace.consumed
        &&& self.status == trace.status
    }
}

/// A machine: a tape, a pointer into it, and the index of the next token of
/// the program that it runs.
pub struct Machine {
    config: Config,
    tape: Vec<u8>,
    sp: usize,
    ip: usize,
}

impl View for Machine {
    type V = State;

    closed spec fn view(&self) -> State {
        State { tape: self.tape@, sp: self.sp as nat, ip: self.ip as nat }
    }
}

impl Machine {
    /// The choices that the machine was built with.
    pub closed spec fn spec_config(&self) -> Config {
        self.config
    }

    /// The machine's state suits its configuration.
    pub open spec fn wf(&self) -> bool {
        &&& self.spec_config().wf()
        &&& self@.fits(self.spec_config())
        &&& self@.ip <= usize::MAX
    }

    /// A machine in its initial state.
    pub fn new(config: Config) -> (m: Machine)
        requires
            config.wf(),
        ensures
            m.wf(),
            m.spec_config() == config,
            m@ == State::initial(config),
    {
        let tape: Vec<u8> = match config.tape {
            TapeModel::Fixed(len) => vec![0u8; len],
            TapeModel::Dynamic => Vec::new(),
        };
        proof {
            assert(tape@ =~= State::initial(config).tape);
        }
        Machine { config, tape, sp: 0, ip: 0 }
    }

    /// The choices that the machine was built with.
    #[verifier::when_used_as_spec(spec_config)]
    pub fn config(&self) -> (c: Config)
        ensures
            c == self.spec_config(),
    {
        self.config
    }

    /// The index of the cell under the pointer.
    pub fn sp(&self) -> (sp: usize)
        ensures
            sp == self@.sp,
    {
        self.sp
    }

    /// The index of the next token of the program.
    pub fn ip(&self) -> (ip: usize)
        ensures
            ip == self@.ip,
    {
        self.ip
    }

    /// The number of cells that the tape holds.
    pub fn tape_len(&self) -> (len: usize)
        ensures
            len == self@.tape.len(),
    {
        self.tape.len()
    }

    /// The cell at index `i`.
    pub fn cell(&self, i: usize) -> (v: u8)
        ensures
            v == read(self@.tape, i as int),
    {
        if i < self.tape.len() {
            self.tape[i]
        } else {
            0
        }
    }

    /// Whether the program `code` is over.
    pub fn halted(&self, code: &[Token]) -> (r: bool)
        ensures
            r == (self@.ip >= code@.len()),
    {
        self.ip >= code.len()
    }

    /// Whether the next step on the program `code` reads a byte of input.
    pub fn wants_input(&self, code: &[Token]) -> (r: bool)
        ensures
            r == self@.reads(code@),
    {
        if self.ip < code.len() {
            match code[self.ip] {
                Token::In => true,
                _ => false,
            }
        } else {
            false
        }
    }

    /// What the next step on the program `code` asks of the machine's
    /// surroundings.
    pub fn pending(&self, code: &[Token]) -> (effect: Effect)
        ensures
            effect == self@.effect(code@),
    {
        if self.ip >= code.len() {
            Effect::Halted
        } else {
            match code[self.ip] {
                Token::Out => {
                    let here = self.cell(self.sp);
                    Effect::Output { byte: here, flush: here == NEWLINE }
                },
                Token::Dump => Effect::Dump,
                Token::End => Effect::Stuck,
                _ => Effect::Silent,
            }
        }
    }

    /// Stores `v` in the cell at index `i`.
    fn put(&mut self, i: usize, v: u8)
        requires
            old(self).spec_config().tape is Fixed ==> i < old(self).tape@.len(),
        ensures
            final(self).tape@ == write(old(self).tape@, i as int, v),
            final(self).config == old(self).config,
            final(self).sp == old(self).sp,
            final(self).ip == old(self).ip,
    {
        let ghost before = self.tape@;
        while self.tape.len() <= i
            invariant
                self.config == old(self).config,
                self.sp == old(self).sp,
                self.ip == old(self).ip,
                before.len() <= self.tape@.len(),
                before.len() <= i ==> self.tape@.len() <= i + 1,
                before.len() > i ==> self.tape@ == before,
                self.tape@ =~= before + Seq::new(
                    (self.tape@.len() - before.len()) as nat,
                    |k: int| 0u8,
                ),
            decreases i + 1 - self.tape.len(),
        {
            self.tape.push(0);
        }
        self.tape.set(i, v);
        proof {
            assert(self.tape@ =~= write(before, i as int, v));
        }
    }

    /// Adds `amount` to the cell at index `target`.
    fn pour(&mut self, target: usize, amount: i32)
        requires
            old(self).spec_config().tape is Fixed ==> target < old(self).tape@.len(),
            -0x1_0000 <= amount <= 0x1_0000,
        ensures
            final(self).tape@ == write(
                old(self).tape@,
                target as int,
                old(self).config.overflow.narrowed(
                    read(old(self).tape@, target as int) + amount,
                ) as u8,
            ),
            final(self).config == old(self).config,
            final(self).sp == old(self).sp,
            final(self).ip == old(self).ip,
    {
        let sum: i32 = self.cell(target) as i32 + amount;
        let v: u8 = self.config.overflow.narrow(sum);
        self.put(target, v);
    }

    /// The index at which the program `code` goes on after a jump to the
    /// bracket at index `t`.
    fn land(t: usize, code: &[Token]) -> (ip: usize)
        ensures
            ip == beyond(t as int, code@.len() as int),
    {
        if t < code.len() {
            t + 1
        } else {
            code.len()
        }
    }

    /// Takes one step on the program `code`. `input` is the next byte of
    /// the input, or `None` at its end; only a step that
    /// [reads](Machine::wants_input) uses it.
    pub fn step(&mut self, code: &[Token], input: Option<u8>) -> (effect: Effect)
        requires
            old(self).wf(),
        ensures
            final(self).wf(),
            final(self).spec_config() == old(self).spec_config(),
            final(self)@ == old(self)@.next(old(self).spec_config(), code@, input),
            effect == old(self)@.effect(code@),
    {
        if self.ip >= code.len() {
            return Effect::Halted;
        }
        let tok = code[self.ip];
        let here: u8 = self.cell(self.sp);
        let model = self.config.tape;
        let mut effect = Effect::Silent;
        match tok {
            Token::Inc(n) => {
                self.pour(self.sp, n as i32);
                self.ip += 1;
            },
            Token::Dec(n) => {
                self.pour(self.sp, -(n as i32));
                self.ip += 1;
            },
            Token::Goto(d) => {
                self.sp = model.shift(self.sp, d);
                self.ip += 1;
            },
            Token::LBrack(t) => {
                if here == 0 {
                    self.ip = Self::land(t, code);
                } else {
                    self.ip += 1;
                }
            },
            Token::RBrack(t) => {
                if here != 0 {
                    self.ip = Self::land(t, code);
                } else {
                    self.ip += 1;
                }
            },
            Token::Out => {
                effect = Effect::Output { byte: here, flush: here == NEWLINE };
                self.ip += 1;
            },
            Token::In => {
                let byte: u8 = match input {
                    Some(byte) => byte,
                    None => 0,
                };
                self.put(self.sp, byte);
                self.ip += 1;
            },
            Token::Zero => {
                self.put(self.sp, 0);
                self.ip += 1;
            },
            Token::SetTo(v) => {
                self.put(self.sp, v);
                self.ip += 1;
            },
            Token::Add(d, mul) => {
                let target = model.shift(self.sp, d);
                assert(here * mul <= 0x1_0000) by (nonlinear_arith)
                    requires
                        here <= 255,
                        mul <= 255,
                ;
                self.pour(target, here as i32 * mul as i32);
                self.put(self.sp, 0);
                self.ip += 1;
            },
            Token::Sub(d) => {
                let target = model.shift(self.sp, d);
                self.pour(target, -(here as i32));
                self.put(self.sp, 0);
                self.ip += 1;
            },
            Token::Dup(d1, mul1, d2, mul2) => {
                let first = model.shift(self.sp, d1);
                let second = model.shift_sum(self.sp, d1, d2);
                assert(here * mul1 <= 0x1_0000 && here * mul2 <= 0x1_0000) by (nonlinear_arith)
                    requires
                        here <= 255,
                        mul1 <= 255,
                        mul2 <= 255,
                ;
                self.pour(first, here as i32 * mul1 as i32);
                self.pour(second, here as i32 * mul2 as i32);
                self.put(self.sp, 0);
                self.ip += 1;
            },
            Token::Scan(d) => {
                if here != 0 {
                    self.sp = model.shift(self.sp, d);
                } else {
                    self.ip += 1;
                }
            },
            Token::End => {
                effect = Effect::Stuck;
            },
            Token::Dump => {
                effect = Effect::Dump;
                self.ip += 1;
            },
        }
        effect
    }

    /// Runs the program `code` from where the machine stands, for at most
    /// `limit` steps, on the bytes of `input`.
    pub fn run(&mut self, code: &[Token], input: &[u8], limit: usize) -> (run: Run)
        requires
            old(self).wf(),
        ensures
            final(self).wf(),
            final(self).spec_config() == old(self).spec_config(),
            final(self)@ == run_from(
                old(self).spec_config(),
                old(self)@,
                code@,
                input@,
                0,
                Seq::empty(),
                0,
                limit as nat,
            ).state,
            run.records(
                run_from(
                    old(self).spec_config(),
                    old(self)@,
                    code@,
                    input@,
                    0,
                    Seq::empty(),
                    0,
                    limit as nat,
                ),
            ),
    {
        let mut output: Vec<u8> = Vec::new();
        let mut flushed: usize = 0;
        let mut consumed: usize = 0;
        let mut left: usize = limit;
        loop
            invariant
                self.wf(),
                self.spec_config() == old(self).spec_config(),
                consumed <= input@.len(),
                run_from(
                    self.spec_config(),
                    self@,
                    code@,
                    input@,
                    consumed as nat,
                    output@,
                    flushed as nat,
                    left as nat,
                ) == run_from(
                    old(self).spec_config(),
                    old(self)@,
                    code@,
                    input@,
                    0,
                    Seq::empty(),
                    0,
                    limit as nat,
                ),
            decreases left,
        {
            let status = match self.pending(code) {
                Effect::Halted => Some(Status::Finished),
                Effect::Stuck => Some(Status::Stuck),
                _ => if left == 0 {
                    Some(Status::OutOfSteps)
                } else {
                    None
                },
            };
            if let Some(status) = status {
                if status == Status::Finished {
                    flushed = output.len();
                }
                return Run { output, flushed, consumed, status };
            }
            let byte: Option<u8> = if consumed < input.len() {
                Some(input[consumed])
            } else {
                None
            };
            let reads = self.wants_input(code);
            let effect = self.step(code, byte);
            if reads && consumed < input.len() {
                consumed += 1;
            }
            if let Effect::Output { byte, flush } = effect {
                output.push(byte);
                if flush {
                    flushed = output.len();
                }
            }
            left -= 1;
        }
    }
}

} // verus!
