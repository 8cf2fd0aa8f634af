//! The virtual machine: the running counterpart of the transition function.

use crate::chars::chars_of;
use crate::grammar::tokenize;
use crate::grammar::LexFault;
use crate::grammar::Lexeme;
use crate::lexer::lexemes;
use crate::lexer::LexError;
use crate::lexer::Lexer;
use crate::lexer::Token;
use crate::lexer::TokenType;
use crate::machine::blank_tape;
use crate::machine::branch_end;
use crate::machine::close_loop;
use crate::machine::comparison_of;
use crate::machine::decide;
use crate::machine::enter_condition;
use crate::machine::enter_loop;
use crate::machine::holds;
use crate::machine::kind_at;
use crate::machine::matching_loop_close;
use crate::machine::matching_parenthesis;
use crate::machine::step;
use crate::machine::take_operator;
use crate::machine::BranchEnd;
use crate::machine::Checkpoint;
use crate::machine::Comparison;
use crate::machine::Ending;
use crate::machine::Event;
use crate::machine::after_output;
use crate::machine::ExecErrorKind;
use crate::machine::Frame;
use crate::machine::Machine;
use crate::machine::Phase;
use crate::machine::Transition;
use crate::machine::STACK_SIZE;
use crate::number::parse_integer;
use vstd::prelude::*;

verus! {

/// One open loop: where its body starts and the cell value that ends it.
#[derive(Clone, Copy, Debug, PartialEq, Eq)]
pub struct LoopFrame {
    pub resume: usize,
    pub exit_value: i32,
}

impl View for LoopFrame {
    type V = Frame;

    open spec fn view(&self) -> Frame {
        Frame { resume: self.resume as int, exit_value: self.exit_value }
    }
}

/// The frames that a sequence of loop frames stands for.
pub open spec fn frames(loops: Seq<LoopFrame>) -> Seq<Frame> {
    loops.map_values(|f: LoopFrame| f@)
}

/// A fatal condition and the program counter it is reported at.
#[derive(Clone, Copy, Debug, PartialEq, Eq)]
pub struct ExecError {
    pub kind: ExecErrorKind,
    pub pc: usize,
}

/// What one transition made observable.
#[derive(Clone, Copy, Debug, PartialEq, Eq)]
pub enum Step {
    /// Nothing; the run goes on.
    Continue,
    /// A line of output with this value is due; the run goes on.
    Print(i32),
    /// The run is complete.
    Halt,
    /// The machine scans for a loop close that is not there.
    Diverge,
    /// The run is aborted.
    Fault(ExecError),
}

impl View for Step {
    type V = Event;

    open spec fn view(&self) -> Event {
        match *self {
            Step::Continue => Event::Continue,
            Step::Print(value) => Event::Print(value),
            Step::Halt => Event::Halt,
            Step::Diverge => Event::Diverge,
            Step::Fault(e) => Event::Fault(e.kind, e.pc as int),
        }
    }
}

/// How a run under a budget ended.
#[derive(Clone, Copy, Debug, PartialEq, Eq)]
pub enum Outcome {
    /// The end marker was reached.
    Finished,
    /// The run was aborted.
    Failed(ExecError),
    /// The machine scans for a loop close that is not there.
    Diverged,
    /// The budget of transitions was used up.
    OutOfBudget,
}

impl View for Outcome {
    type V = Ending;

    open spec fn view(&self) -> Ending {
        match *self {
            Outcome::Finished => Ending::Finished,
            Outcome::Failed(e) => Ending::Failed(e.kind, e.pc as int),
            Outcome::Diverged => Ending::Diverged,
            Outcome::OutOfBudget => Ending::OutOfBudget,
        }
    }
}

/// The values printed by a run, in order, and how the run ended.
#[derive(Debug, PartialEq, Eq)]
pub struct Run {
    pub output: Vec<i32>,
    pub outcome: Outcome,
}

/// The machine: a program, a tape, a pointer, the open loops, the checkpoint
/// and the conditionals under evaluation.
pub struct VM {
    program: Vec<Token>,
    program_counter: usize,
    loops: Vec<LoopFrame>,
    stack_pointer: usize,
    stack: Vec<i32>,
    stored: (Vec<LoopFrame>, usize, Vec<i32>),
    phases: Vec<Phase>,
}

impl View for VM {
    type V = Machine;

    closed spec fn view(&self) -> Machine {
        Machine {
            pc: self.program_counter as int,
            pointer: self.stack_pointer as int,
            tape: self.stack@,
            loops: frames(self.loops@),
            stored: Checkpoint {
                loops: frames(self.stored.0@),
                pointer: self.stored.1 as int,
                tape: self.stored.2@,
            },
            phases: self.phases@,
        }
    }
}

/// A tape of `STACK_SIZE` zero cells.
fn new_tape() -> (tape: Vec<i32>)
    ensures
        tape@ == blank_tape(),
{
    let mut tape: Vec<i32> = Vec::new();
    while tape.len() < STACK_SIZE
        invariant
            tape@.len() <= STACK_SIZE,
            forall|i: int| 0 <= i < tape@.len() ==> tape@[i] == 0,
        decreases STACK_SIZE - tape@.len(),
    {
        tape.push(0);
    }
    assert(tape@ =~= blank_tape());
    tape
}

impl VM {
    /// The pointer is on the tape, in the machine and in its checkpoint.
    pub open spec fn wf(&self) -> bool {
        self@.well_formed()
    }

    /// The program, as the semantics reads it.
    pub closed spec fn program(&self) -> Seq<Lexeme> {
        lexemes(self.program@)
    }

    /// A machine at the start of `program`, with a blank tape.
    pub fn new(program: Vec<Token>) -> (vm: Self)
        ensures
            vm.wf(),
            vm.program() == lexemes(program@),
            vm@ == Machine::initial(),
    {
        let vm = Self {
            program,
            program_counter: 0,
            loops: Vec::new(),
            stack_pointer: 0,
            stack: new_tape(),
            stored: (Vec::new(), 0, new_tape()),
            phases: Vec::new(),
        };
        assert(frames(vm.loops@) =~= Seq::<Frame>::empty());
        assert(frames(vm.stored.0@) =~= Seq::<Frame>::empty());
        vm
    }

    /// The error of the given kind at the program counter.
    fn error(&self, kind: ExecErrorKind) -> (e: ExecError)
        ensures
            e.kind == kind,
            e.pc == self.program_counter,
    {
        ExecError { kind, pc: self.program_counter }
    }

    /// The kind of the token at the program counter.
    fn current_kind(&self) -> (kind: TokenType)
        ensures
            kind == kind_at(self.program(), self@.pc),
    {
        if self.program_counter < self.program.len() {
            self.program[self.program_counter].token_type
        } else {
            TokenType::EndOfFile
        }
    }

    /// Takes the checkpoint.
    fn store_state(&mut self)
        requires
            old(self).wf(),
        ensures
            final(self).wf(),
            final(self).program == old(self).program,
            final(self)@ == (Machine { stored: old(self)@.checkpoint(), ..old(self)@ }),
    {
        self.stored = (self.loops.clone(), self.stack_pointer, self.stack.clone());
    }

    /// Rolls the state back to the checkpoint.
    fn load_state(&mut self)
        requires
            old(self).wf(),
        ensures
            final(self).wf(),
            final(self).program == old(self).program,
            final(self)@ == old(self)@.restored(),
    {
        self.loops = self.stored.0.clone();
        self.stack_pointer = self.stored.1;
        self.stack = self.stored.2.clone();
    }

    /// `after` and `r` are what the transition `t` makes of `self`.
    closed spec fn becomes(&self, after: &VM, r: Step, t: Transition) -> bool {
        &&& after.program == self.program
        &&& after@ == t.machine
        &&& r@ == t.event
    }

    /// Moves on to the next token; tells whether there is one.
    fn next_instruction(&mut self) -> (more: bool)
        requires
            old(self).wf(),
            old(self).program_counter < old(self).program@.len(),
        ensures
            final(self).wf(),
            final(self).program == old(self).program,
            final(self)@ == old(self)@.at(old(self)@.pc + 1),
            more == (final(self).program_counter < final(self).program@.len()),
    {
        let length = self.program.len();
        self.program_counter += 1;
        self.program_counter < length
    }

    /// Moves on to the next token, which has to be of the expected kind.
    fn next_instruction_expect(&mut self, expected_type: TokenType, kind: ExecErrorKind) -> (r:
        Result<(), ExecError>)
        requires
            old(self).wf(),
            old(self).program_counter < old(self).program@.len(),
        ensures
            final(self).wf(),
            final(self).program == old(self).program,
            final(self)@ == old(self)@.at(old(self)@.pc + 1),
            match r {
                Ok(()) => kind_at(old(self).program(), old(self)@.pc + 1) == expected_type,
                Err(e) => kind_at(old(self).program(), old(self)@.pc + 1) != expected_type
                    && e.kind == kind && e.pc == old(self).program_counter + 1,
            },
    {
        self.next_instruction();
        if self.current_kind() != expected_type {
            Err(self.error(kind))
        } else {
            Ok(())
        }
    }

    /// The value of the cell under the pointer.
    pub fn print_current(&self) -> (value: i32)
        requires
            self.wf(),
        ensures
            value == self@.cell(),
    {
        self.stack[self.stack_pointer]
    }

    /// Adds 1 to the cell under the pointer.
    fn increment(&mut self) -> (r: Result<(), ExecError>)
        requires
            old(self).wf(),
        ensures
            final(self).wf(),
            final(self).program == old(self).program,
            match r {
                Ok(()) => old(self)@.cell() < i32::MAX && final(self)@ == old(self)@.with_cell(
                    (old(self)@.cell() + 1) as i32,
                ),
                Err(e) => old(self)@.cell() == i32::MAX && final(self)@ == old(self)@ && e.kind
                    == ExecErrorKind::CellOverflow && e.pc == old(self).program_counter,
            },
    {
        let value = self.stack[self.stack_pointer];
        if value == i32::MAX {
            Err(self.error(ExecErrorKind::CellOverflow))
        } else {
            self.stack.set(self.stack_pointer, value + 1);
            Ok(())
        }
    }

    /// Subtracts 1 from the cell under the pointer.
    fn decrement(&mut self) -> (r: Result<(), ExecError>)
        requires
            old(self).wf(),
        ensures
            final(self).wf(),
            final(self).program == old(self).program,
            match r {
                Ok(()) => old(self)@.cell() > i32::MIN && final(self)@ == old(self)@.with_cell(
                    (old(self)@.cell() - 1) as i32,
                ),
                Err(e) => old(self)@.cell() == i32::MIN && final(self)@ == old(self)@ && e.kind
                    == ExecErrorKind::CellOverflow && e.pc == old(self).program_counter,
            },
    {
        let value = self.stack[self.stack_pointer];
        if value == i32::MIN {
            Err(self.error(ExecErrorKind::CellOverflow))
        } else {
            self.stack.set(self.stack_pointer, value - 1);
            Ok(())
        }
    }

    /// Moves the pointer one cell to the left.
    fn sp_left(&mut self) -> (r: Result<(), ExecError>)
        requires
            old(self).wf(),
        ensures
            final(self).wf(),
            final(self).program == old(self).program,
            match r {
                Ok(()) => old(self)@.pointer >= 1 && final(self)@ == (Machine {
                    pointer: old(self)@.pointer - 1,
                    ..old(self)@
                }),
                Err(e) => old(self)@.pointer < 1 && final(self)@ == old(self)@ && e.kind
                    == ExecErrorKind::PointerBelowZero && e.pc == old(self).program_counter,
            },
    {
        if self.stack_pointer < 1 {
            Err(self.error(ExecErrorKind::PointerBelowZero))
        } else {
            self.stack_pointer -= 1;
            Ok(())
        }
    }

    /// Moves the pointer one cell to the right.
    fn sp_right(&mut self) -> (r: Result<(), ExecError>)
        requires
            old(self).wf(),
        ensures
            final(self).wf(),
            final(self).program == old(self).program,
            match r {
                Ok(()) => old(self)@.pointer + 1 < STACK_SIZE && final(self)@ == (Machine {
                    pointer: old(self)@.pointer + 1,
                    ..old(self)@
                }),
                Err(e) => old(self)@.pointer + 1 >= STACK_SIZE && final(self)@ == old(self)@
                    && e.kind == ExecErrorKind::PointerPastEnd && e.pc == old(
                    self,
                ).program_counter,
            },
    {
        if self.stack_pointer + 1 >= self.stack.len() {
            Err(self.error(ExecErrorKind::PointerPastEnd))
        } else {
            self.stack_pointer += 1;
            Ok(())
        }
    }

    /// The call marker does nothing.
    fn call_handler(&mut self)
        ensures
            *final(self) == *old(self),
    {
    }

    /// Handles a loop opener.
    fn start_loop_handler(&mut self) -> (r: Step)
        requires
            old(self).wf(),
            kind_at(old(self).program(), old(self)@.pc) == TokenType::BracketOpen,
        ensures
            final(self).wf(),
            old(self).becomes(final(self), r, enter_loop(old(self).program(), old(self)@)),
    {
        let opener = self.program_counter;
        let length = self.program.len();
        if let Err(e) = self.next_instruction_expect(
            TokenType::Integer,
            ExecErrorKind::MissingLoopValue,
        ) {
            self.program_counter = opener;
            return Step::Fault(e);
        }
        match parse_integer(self.program[self.program_counter].value.as_str()) {
            None => {
                let e = self.error(ExecErrorKind::InvalidLoopValue);
                self.program_counter = opener;
                Step::Fault(e)
            },
            Some(cond_value) => {
                if self.stack[self.stack_pointer] == cond_value {
                    match self.skip_loop(self.program_counter) {
                        Some(close) => {
                            self.program_counter = close + 1;
                            Step::Continue
                        },
                        None => {
                            self.program_counter = opener;
                            Step::Diverge
                        },
                    }
                } else {
                    let resume = self.program_counter + 1;
                    self.loops.push(LoopFrame { resume, exit_value: cond_value });
                    self.program_counter = resume;
                    assert(frames(self.loops@) =~= frames(old(self).loops@).push(
                        Frame { resume: resume as int, exit_value: cond_value },
                    ));
                    Step::Continue
                }
            },
        }
    }

    /// Handles a loop close.
    fn end_loop_handler(&mut self) -> (r: Step)
        requires
            old(self).wf(),
            kind_at(old(self).program(), old(self)@.pc) == TokenType::BracketClose,
        ensures
            final(self).wf(),
            old(self).becomes(final(self), r, close_loop(old(self)@)),
    {
        match self.loops.pop() {
            None => Step::Fault(self.error(ExecErrorKind::UnmatchedLoopClose)),
            Some(frame) => {
                assert(frames(self.loops@) =~= frames(old(self).loops@).drop_last());
                if self.stack[self.stack_pointer] != frame.exit_value {
                    self.program_counter = frame.resume;
                    self.loops.push(frame);
                    assert(frames(self.loops@) =~= frames(old(self).loops@));
                } else {
                    self.next_instruction();
                }
                Step::Continue
            },
        }
    }

    /// Handles the opening of a conditional.
    fn condition_handler(&mut self) -> (r: Step)
        requires
            old(self).wf(),
            kind_at(old(self).program(), old(self)@.pc) == TokenType::ParenthesisOpen,
        ensures
            final(self).wf(),
            old(self).becomes(final(self), r, enter_condition(old(self)@)),
    {
        self.next_instruction();
        self.store_state();
        self.phases.push(Phase::Left);
        Step::Continue
    }

    /// Handles the operator of a conditional, which ends the left operand.
    fn operator_handler(&mut self) -> (r: Step)
        requires
            old(self).wf(),
            old(self)@.phases.len() > 0,
            kind_at(old(self).program(), old(self)@.pc) == TokenType::String,
        ensures
            final(self).wf(),
            old(self).becomes(final(self), r, take_operator(old(self).program(), old(self)@)),
    {
        let lhs = self.stack[self.stack_pointer];
        let op = comparison(self.program[self.program_counter].value.as_str());
        self.next_instruction();
        self.load_state();
        self.phases.pop();
        self.phases.push(Phase::Right { lhs, op });
        Step::Continue
    }

    /// The loop close that matches a loop opened before `from`.
    fn skip_loop(&self, from: usize) -> (close: Option<usize>)
        requires
            from <= self.program@.len(),
        ensures
            match close {
                Some(at) => matching_loop_close(self.program(), from as int, 0) == Some(
                    at as int,
                ) && at < self.program@.len(),
                None => matching_loop_close(self.program(), from as int, 0) is None,
            },
    {
        let length = self.program.len();
        let mut at = from;
        let mut depth: usize = 0;
        while at < length
            invariant
                length == self.program@.len(),
                from <= at <= length,
                depth <= at - from,
                matching_loop_close(self.program(), from as int, 0) == matching_loop_close(
                    self.program(),
                    at as int,
                    depth as nat,
                ),
            decreases length - at,
        {
            let kind = self.program[at].token_type;
            if kind == TokenType::BracketClose {
                if depth == 0 {
                    return Some(at);
                }
                depth -= 1;
            } else if kind == TokenType::BracketOpen {
                depth += 1;
            }
            at += 1;
        }
        None
    }

    /// The end of a body that starts at `from` and is skipped.
    fn skip_branch(&self, from: usize) -> (end: Result<usize, usize>)
        requires
            from <= self.program@.len(),
        ensures
            match end {
                Ok(close) => branch_end(self.program(), from as int) == BranchEnd::Close(
                    close as int,
                ) && close < self.program@.len(),
                Err(at) => branch_end(self.program(), from as int) == BranchEnd::End(at as int),
            },
    {
        let length = self.program.len();
        if from >= length {
            return Err(from);
        }
        let first = self.program[from].token_type;
        if first == TokenType::ParenthesisClose {
            return Ok(from);
        }
        let mut depth: usize = if first == TokenType::ParenthesisOpen {
            1
        } else {
            0
        };
        let mut at = from + 1;
        while at < length
            invariant
                length == self.program@.len(),
                from + 1 <= at <= length,
                depth <= at - from,
                branch_end(self.program(), from as int) == matching_parenthesis(
                    self.program(),
                    at as int,
                    depth as nat,
                ),
            decreases length - at,
        {
            let kind = self.program[at].token_type;
            if kind == TokenType::ParenthesisClose {
                if depth == 0 {
                    return Ok(at);
                }
                depth -= 1;
            } else if kind == TokenType::EndOfFile {
                return Err(at);
            } else if kind == TokenType::ParenthesisOpen {
                depth += 1;
            }
            at += 1;
        }
        Err(at)
    }

    /// Handles the semicolon of a conditional, which ends the right operand
    /// and decides on the body.
    fn decision_handler(&mut self) -> (r: Step)
        requires
            old(self).wf(),
            old(self)@.phases.len() > 0,
            kind_at(old(self).program(), old(self)@.pc) == TokenType::SemiColon,
        ensures
            final(self).wf(),
            old(self).becomes(final(self), r, decide(old(self).program(), old(self)@)),
    {
        let rhs = self.stack[self.stack_pointer];
        let length = self.program.len();
        let after = self.program_counter + 1;
        match self.phases[self.phases.len() - 1] {
            Phase::Right { lhs, op: Some(op) } => {
                if compare(op, lhs, rhs) {
                    self.program_counter = after;
                    self.load_state();
                    self.phases.pop();
                    self.phases.push(Phase::Body);
                    Step::Continue
                } else {
                    match self.skip_branch(after) {
                        Ok(close) => {
                            self.program_counter = close + 1;
                            self.load_state();
                            self.phases.pop();
                            Step::Continue
                        },
                        Err(at) => Step::Fault(
                            ExecError { kind: ExecErrorKind::UnclosedFalseBranch, pc: at },
                        ),
                    }
                }
            },
            _ => Step::Fault(ExecError { kind: ExecErrorKind::UnknownOperator, pc: after }),
        }
    }

    /// Handles the end marker.
    fn end_handler(&self) -> (r: Step)
        requires
            self.wf(),
        ensures
            r@ == crate::machine::end_of_program(self@).event,
    {
        let depth = self.phases.len();
        if depth == 0 {
            Step::Halt
        } else {
            match self.phases[depth - 1] {
                Phase::Left => Step::Fault(self.error(ExecErrorKind::UnterminatedLeft)),
                Phase::Right { .. } => Step::Fault(self.error(ExecErrorKind::UnterminatedRight)),
                Phase::Body => Step::Fault(self.error(ExecErrorKind::UnclosedTrueBranch)),
            }
        }
    }

    /// Makes one transition.
    ///
    /// The machine afterwards and the value returned are those that the
    /// semantics gives for the machine before: the next instruction is
    /// executed, or the current phase of a conditional is ended.  After
    /// `Halt`, `Diverge` and `Fault` the machine is what it was.
    pub fn single(&mut self) -> (r: Step)
        requires
            old(self).wf(),
        ensures
            final(self).wf(),
            final(self).program() == old(self).program(),
            final(self)@ == step(old(self).program(), old(self)@).machine,
            r@ == step(old(self).program(), old(self)@).event,
    {
        let kind = self.current_kind();
        let depth = self.phases.len();
        if depth > 0 {
            match self.phases[depth - 1] {
                Phase::Left => {
                    if kind == TokenType::String {
                        return self.operator_handler();
                    }
                },
                Phase::Right { .. } => {
                    if kind == TokenType::SemiColon {
                        return self.decision_handler();
                    }
                },
                Phase::Body => {
                    if kind == TokenType::ParenthesisClose {
                        self.phases.pop();
                        self.next_instruction();
                        return Step::Continue;
                    }
                },
            }
        }
        match kind {
            TokenType::MovLeftOperation => match self.sp_left() {
                Ok(()) => {
                    self.next_instruction();
                    Step::Continue
                },
                Err(e) => Step::Fault(e),
            },
            TokenType::MovRightOperation => match self.sp_right() {
                Ok(()) => {
                    self.next_instruction();
                    Step::Continue
                },
                Err(e) => Step::Fault(e),
            },
            TokenType::AddOperation => match self.increment() {
                Ok(()) => {
                    self.next_instruction();
                    Step::Continue
                },
                Err(e) => Step::Fault(e),
            },
            TokenType::SubOperation => match self.decrement() {
                Ok(()) => {
                    self.next_instruction();
                    Step::Continue
                },
                Err(e) => Step::Fault(e),
            },
            TokenType::PrintOut => {
                let value = self.print_current();
                self.next_instruction();
                Step::Print(value)
            },
            TokenType::EndOfFile => self.end_handler(),
            TokenType::BracketOpen => self.start_loop_handler(),
            TokenType::BracketClose => self.end_loop_handler(),
            TokenType::ParenthesisOpen => self.condition_handler(),
            TokenType::ParenthesisClose => Step::Fault(
                self.error(ExecErrorKind::UnexpectedConditionClose),
            ),
            TokenType::FunctionCall => {
                self.call_handler();
                self.next_instruction();
                Step::Continue
            },
            _ => Step::Fault(self.error(ExecErrorKind::UnknownInstruction)),
        }
    }

    /// Makes transitions until the run ends or `budget` of them are made.
    ///
    /// The values printed are collected in order.  The machine is left where
    /// the run ended, so that a run that used up its budget can be continued.
    pub fn run(&mut self, budget: u64) -> (r: Run)
        requires
            old(self).wf(),
        ensures
            final(self).wf(),
            final(self).program() == old(self).program(),
            final(self)@ == crate::machine::run(
                old(self).program(),
                old(self)@,
                budget as nat,
            ).machine,
            r.output@ == crate::machine::run(old(self).program(), old(self)@, budget as nat).output,
            r.outcome@ == crate::machine::run(
                old(self).program(),
                old(self)@,
                budget as nat,
            ).ending,
    {
        let ghost program = self.program();
        let ghost whole = crate::machine::run(program, self@, budget as nat);
        let mut output: Vec<i32> = Vec::new();
        let mut left = budget;
        assert(whole == after_output(output@, whole)) by {
            assert(output@ + whole.output =~= whole.output);
        }
        while left > 0
            invariant
                self.wf(),
                self.program() == program,
                program == old(self).program(),
                whole == crate::machine::run(program, old(self)@, budget as nat),
                whole == after_output(output@, crate::machine::run(program, self@, left as nat)),
            decreases left,
        {
            let ghost before = output@;
            let ghost rest = crate::machine::run(
                program,
                step(program, self@).machine,
                (left - 1) as nat,
            );
            match self.single() {
                Step::Continue => {},
                Step::Print(value) => {
                    output.push(value);
                    assert(before + (seq![value] + rest.output) =~= output@ + rest.output);
                },
                Step::Halt => {
                    assert(before + Seq::<i32>::empty() =~= before);
                    return Run { output, outcome: Outcome::Finished };
                },
                Step::Diverge => {
                    assert(before + Seq::<i32>::empty() =~= before);
                    return Run { output, outcome: Outcome::Diverged };
                },
                Step::Fault(e) => {
                    assert(before + Seq::<i32>::empty() =~= before);
                    return Run { output, outcome: Outcome::Failed(e) };
                },
            }
            left -= 1;
        }
        assert(output@ + Seq::<i32>::empty() =~= output@);
        Run { output, outcome: Outcome::OutOfBudget }
    }

    /// The index of the next token.
    pub fn program_counter(&self) -> (pc: usize)
        ensures
            pc == self@.pc,
    {
        self.program_counter
    }

    /// The index of the cell under the pointer.
    pub fn pointer(&self) -> (pointer: usize)
        ensures
            pointer == self@.pointer,
    {
        self.stack_pointer
    }

    /// A copy of the tape.
    pub fn tape(&self) -> (tape: Vec<i32>)
        ensures
            tape@ == self@.tape,
    {
        self.stack.clone()
    }

    /// The number of open loops.
    pub fn open_loops(&self) -> (count: usize)
        ensures
            count == self@.loops.len(),
    {
        self.loops.len()
    }

    /// The number of conditionals under evaluation.
    pub fn open_conditions(&self) -> (count: usize)
        ensures
            count == self@.phases.len(),
    {
        self.phases.len()
    }

    /// Tokenizes `program` and runs it on a new machine under `budget`.
    pub fn run_from_str(program: &str, budget: u64) -> (r: Result<Run, LexError>)
        requires
            program@.len() <= i32::MAX,
        ensures
            match r {
                Ok(run) => tokenize(program@) is Ok && ({
                    let execution = crate::machine::run(
                        tokenize(program@)->Ok_0,
                        Machine::initial(),
                        budget as nat,
                    );
                    run.output@ == execution.output && run.outcome@ == execution.ending
                }),
                Err(e) => tokenize(program@) == Err::<Seq<Lexeme>, LexFault>(e@),
            },
    {
        match Lexer::lex_string(program.to_owned()) {
            Ok(tokens) => {
                let mut vm = VM::new(tokens);
                Ok(vm.run(budget))
            },
            Err(e) => Err(e),
        }
    }
}

/// Reads a comparison operator.
fn comparison(text: &str) -> (op: Option<Comparison>)
    ensures
        op == comparison_of(text@),
{
    let chars = chars_of(text);
    if chars.len() == 1 {
        if chars[0] == '>' {
            assert(text@ =~= seq!['>']);
            Some(Comparison::Greater)
        } else if chars[0] == '<' {
            assert(text@ =~= seq!['<']);
            Some(Comparison::Less)
        } else {
            None
        }
    } else if chars.len() == 2 && chars[1] == '=' {
        if chars[0] == '=' {
            assert(text@ =~= seq!['=', '=']);
            Some(Comparison::Equal)
        } else if chars[0] == '!' {
            assert(text@ =~= seq!['!', '=']);
            Some(Comparison::NotEqual)
        } else if chars[0] == '>' {
            assert(text@ =~= seq!['>', '=']);
            Some(Comparison::GreaterOrEqual)
        } else if chars[0] == '<' {
            assert(text@ =~= seq!['<', '=']);
            Some(Comparison::LessOrEqual)
        } else {
            None
        }
    } else {
        None
    }
}

/// Evaluates a comparison.
fn compare(op: Comparison, lhs: i32, rhs: i32) -> (r: bool)
    ensures
        r == holds(op, lhs, rhs),
{
    match op {
        Comparison::Equal => lhs == rhs,
        Comparison::NotEqual => lhs != rhs,
        Comparison::Greater => lhs > rhs,
        Comparison::Less => lhs < rhs,
        Comparison::GreaterOrEqual => lhs >= rhs,
        Comparison::LessOrEqual => lhs <= rhs,
    }
}

} // verus!
