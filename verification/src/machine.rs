//! The virtual machine: a tape of byte cells, a tape pointer, an
//! instruction pointer and a stack of loop starts.
//!
//! `next` is the meaning of one instruction, `Vm::step` executes it. The
//! machine does no input or output of its own: a step is handed the next
//! line of input and hands back the character to write.
//!
//! Cell arithmetic is modular: `+` on 255 gives 0 and `-` on 0 gives 255,
//! and neither is an error. The tape pointer does not wrap: leaving the
//! tape at either end is a failure.
//!
//! `[` pushes its own position every time it is executed, also when it is
//! reached again from its `]`; `]` pops one position when it falls through.

use vstd::prelude::*;
use crate::program::Program;
use crate::syntax::{depth, positions, well_formed};

verus! {

/// The number of cells on the tape.
pub const TAPE_SIZE: usize = 30000;

/// Why execution stopped before the end of the program.
#[derive(Debug, Clone, Copy, PartialEq, Eq, Structural)]
pub enum RuntimeError {
    /// `>` with the pointer on the last cell.
    TapeOverflow,
    /// `<` with the pointer on the first cell.
    TapeUnderflow,
    /// `,` when the input has no line left.
    InputExhausted,
    /// `,` when the line read holds no byte.
    EmptyInputLine,
}

/// What one executed instruction asks of the outside.
#[derive(Debug, Clone, Copy, PartialEq, Eq, Structural)]
pub enum Step {
    /// Nothing to do; execution goes on.
    Continued,
    /// Write this character to the output.
    Output(char),
    /// The instruction pointer stands at the end of the program.
    Halted,
}

/// The state of the machine as mathematics.
pub struct Machine {
    /// Index of the next instruction.
    pub ip: int,
    /// Index of the selected cell.
    pub pointer: int,
    /// The cells.
    pub tape: Seq<u8>,
    /// Loop starts, innermost last.
    pub jumps: Seq<int>,
}

/// A state together with what the step that led to it reported.
pub struct Transition {
    pub machine: Machine,
    pub result: Result<Step, RuntimeError>,
}

/// The state before the first instruction: everything zero, no loop open.
pub open spec fn fresh() -> Machine {
    Machine { ip: 0, pointer: 0, tape: Seq::new(TAPE_SIZE as nat, |i: int| 0u8), jumps: Seq::empty() }
}

/// A cell after `+`: one more, and 0 after 255.
pub open spec fn increment(cell: u8) -> u8 {
    if cell == 255 {
        0
    } else {
        (cell + 1) as u8
    }
}

/// A cell after `-`: one less, and 255 after 0.
pub open spec fn decrement(cell: u8) -> u8 {
    if cell == 0 {
        255
    } else {
        (cell - 1) as u8
    }
}

/// The step went through; execution goes on from `machine`.
pub open spec fn proceed(machine: Machine) -> Transition {
    Transition { machine, result: Ok(Step::Continued) }
}

/// The step failed; the state stays as it was.
pub open spec fn fail(machine: Machine, error: RuntimeError) -> Transition {
    Transition { machine, result: Err(error) }
}

/// What holds of every state the machine reaches on a well-formed program.
///
/// The jump stack is at least as deep as the brackets open at the
/// instruction pointer, and each entry is a `[` whose own nesting level
/// does not exceed its place in the stack.
pub open spec fn consistent(program: Seq<char>, m: Machine) -> bool {
    &&& 0 <= m.ip <= program.len()
    &&& 0 <= m.pointer < TAPE_SIZE
    &&& m.tape.len() == TAPE_SIZE
    &&& m.jumps.len() >= depth(program, m.ip)
    &&& forall|k: int|
        0 <= k < m.jumps.len() ==> {
            &&& 0 <= (#[trigger] m.jumps[k]) < program.len()
            &&& program[m.jumps[k]] == '['
            &&& depth(program, m.jumps[k]) <= k
        }
}

/// The machine has run off the end of `program`.
pub open spec fn at_end(program: Seq<char>, m: Machine) -> bool {
    !(0 <= m.ip < program.len())
}

/// The next instruction of `program` is `,`.
pub open spec fn at_read(program: Seq<char>, m: Machine) -> bool {
    0 <= m.ip < program.len() && program[m.ip] == ','
}

/// One instruction of `program` executed in state `m`. `line` is the next
/// line of input, if the input has one; only `,` looks at it.
pub open spec fn next(program: Seq<char>, m: Machine, line: Option<Seq<u8>>) -> Transition
    recommends
        consistent(program, m),
{
    if at_end(program, m) {
        Transition { machine: m, result: Ok(Step::Halted) }
    } else {
        let c = program[m.ip];
        let cell = m.tape[m.pointer];
        let ahead = Machine { ip: m.ip + 1, ..m };
        if c == '>' {
            if m.pointer + 1 >= TAPE_SIZE {
                fail(m, RuntimeError::TapeOverflow)
            } else {
                proceed(Machine { pointer: m.pointer + 1, ..ahead })
            }
        } else if c == '<' {
            if m.pointer == 0 {
                fail(m, RuntimeError::TapeUnderflow)
            } else {
                proceed(Machine { pointer: m.pointer - 1, ..ahead })
            }
        } else if c == '+' {
            proceed(Machine { tape: m.tape.update(m.pointer, increment(cell)), ..ahead })
        } else if c == '-' {
            proceed(Machine { tape: m.tape.update(m.pointer, decrement(cell)), ..ahead })
        } else if c == '[' {
            proceed(Machine { jumps: m.jumps.push(m.ip), ..ahead })
        } else if c == ']' {
            if cell != 0 {
                proceed(Machine { ip: m.jumps.last(), ..m })
            } else {
                proceed(Machine { jumps: m.jumps.drop_last(), ..ahead })
            }
        } else if c == '.' {
            Transition { machine: ahead, result: Ok(Step::Output(cell as char)) }
        } else if c == ',' {
            match line {
                None => fail(m, RuntimeError::InputExhausted),
                Some(bytes) => if bytes.len() == 0 {
                    fail(m, RuntimeError::EmptyInputLine)
                } else {
                    proceed(Machine { tape: m.tape.update(m.pointer, bytes[0]), ..ahead })
                },
            }
        } else {
            proceed(ahead)
        }
    }
}

/// On a well-formed program a step leads from a consistent state to a
/// consistent state, and a `]` never finds the jump stack empty.
pub proof fn lemma_step_keeps_consistent(program: Seq<char>, m: Machine, line: Option<Seq<u8>>)
    requires
        well_formed(program),
        consistent(program, m),
    ensures
        consistent(program, next(program, m, line).machine),
        0 <= m.ip < program.len() && program[m.ip] == ']' ==> m.jumps.len() > 0,
{
    if 0 <= m.ip < program.len() {
        // a `]` lowers the level, which never dips: a bracket is open here
        assert(depth(program, m.ip + 1) >= 0);
    }
}

/// `+` applied `n` times to a cell.
pub open spec fn increment_times(cell: u8, n: nat) -> u8
    decreases n,
{
    if n == 0 {
        cell
    } else {
        increment(increment_times(cell, (n - 1) as nat))
    }
}

/// `+` applied `n` times adds `n` modulo 256.
pub proof fn lemma_increment_times(cell: u8, n: nat)
    ensures
        increment_times(cell, n) == (cell + n) % 256,
    decreases n,
{
    if n > 0 {
        lemma_increment_times(cell, (n - 1) as nat);
    }
}

/// Cell arithmetic wraps around: 256 increments lead back to where they
/// began, and each of `+` and `-` undoes the other.
pub proof fn lemma_cell_arithmetic_wraps(cell: u8)
    ensures
        increment_times(cell, 256) == cell,
        decrement(increment(cell)) == cell,
        increment(decrement(cell)) == cell,
        increment(255) == 0,
        decrement(0) == 255,
{
    lemma_increment_times(cell, 256);
}

/// The pointer never leaves the tape: `<` on the first cell and `>` on the
/// last one fail.
pub proof fn lemma_pointer_stays_on_tape(program: Seq<char>, m: Machine, line: Option<Seq<u8>>)
    requires
        0 <= m.ip < program.len(),
    ensures
        program[m.ip] == '<' && m.pointer == 0 ==> next(program, m, line).result == Err::<
            Step,
            RuntimeError,
        >(RuntimeError::TapeUnderflow),
        program[m.ip] == '>' && m.pointer == TAPE_SIZE - 1 ==> next(program, m, line).result
            == Err::<Step, RuntimeError>(RuntimeError::TapeOverflow),
{
}

/// A failure is final: the failed step leaves the state as it was, so the
/// same step fails again; and past the end of the program nothing moves.
pub proof fn lemma_stops_are_final(program: Seq<char>, m: Machine, line: Option<Seq<u8>>)
    ensures
        next(program, m, line).result is Err ==> next(program, m, line).machine == m,
        at_end(program, m) ==> next(program, m, line) == (Transition {
            machine: m,
            result: Ok(Step::Halted),
        }),
{
}

/// The line offered to a step, as mathematics.
pub open spec fn line_bytes(line: Option<&[u8]>) -> Option<Seq<u8>> {
    match line {
        Some(bytes) => Some(bytes@),
        None => None,
    }
}

/// A machine bound to the program it runs.
#[derive(Debug)]
pub struct Vm {
    program: Program,
    ip: usize,
    pointer: usize,
    tape: Vec<u8>,
    jumps: Vec<usize>,
}

impl View for Vm {
    type V = Machine;

    closed spec fn view(&self) -> Machine {
        Machine {
            ip: self.ip as int,
            pointer: self.pointer as int,
            tape: self.tape@,
            jumps: positions(self.jumps@),
        }
    }
}

impl Vm {
    /// The text of the program this machine runs.
    pub closed spec fn text(&self) -> Seq<char> {
        self.program@
    }

    /// Holds of every machine that `new` made and `step` moved: its program
    /// is well formed and its state is consistent with it.
    pub open spec fn wf(&self) -> bool {
        well_formed(self.text()) && consistent(self.text(), self@)
    }

    /// A machine about to execute the first instruction of `program`.
    pub fn new(program: Program) -> (vm: Vm)
        ensures
            vm.wf(),
            vm.text() == program@,
            vm@ == fresh(),
    {
        proof {
            use_type_invariant(&program);
        }
        let tape = vec![0u8; TAPE_SIZE];
        assert(tape@ =~= fresh().tape);
        let jumps: Vec<usize> = Vec::new();
        assert(positions(jumps@) =~= Seq::<int>::empty());
        Vm { program, ip: 0, pointer: 0, tape, jumps }
    }

    /// The program this machine runs.
    pub fn program(&self) -> (program: &Program)
        ensures
            program@ == self.text(),
    {
        &self.program
    }

    /// The index of the next instruction.
    pub fn instruction_pointer(&self) -> (ip: usize)
        ensures
            ip == self@.ip,
    {
        self.ip
    }

    /// The index of the selected cell.
    pub fn tape_pointer(&self) -> (pointer: usize)
        ensures
            pointer == self@.pointer,
    {
        self.pointer
    }

    /// The value of the cell at `index`, if the tape is that long.
    pub fn cell(&self, index: usize) -> (value: Option<u8>)
        ensures
            value == if index < self@.tape.len() {
                Some(self@.tape[index as int])
            } else {
                None
            },
    {
        if index < self.tape.len() {
            Some(self.tape[index])
        } else {
            None
        }
    }

    /// The loop starts on the jump stack, innermost last.
    pub fn jump_stack(&self) -> (jumps: &Vec<usize>)
        ensures
            positions(jumps@) == self@.jumps,
    {
        &self.jumps
    }

    /// Whether the instruction pointer stands at the end of the program.
    pub fn halted(&self) -> (b: bool)
        ensures
            b == at_end(self.text(), self@),
    {
        self.ip >= self.program.len()
    }

    /// Whether the next instruction is `,`, so that the next step takes a
    /// line of input.
    pub fn awaits_input(&self) -> (b: bool)
        ensures
            b == at_read(self.text(), self@),
    {
        match self.program.instruction(self.ip) {
            Some(c) => c == ',',
            None => false,
        }
    }

    /// Executes one instruction. `line` is the next line of input, if the
    /// input has one; only `,` takes it.
    pub fn step(&mut self, line: Option<&[u8]>) -> (result: Result<Step, RuntimeError>)
        requires
            old(self).wf(),
        ensures
            final(self).wf(),
            final(self).text() == old(self).text(),
            (Transition { machine: final(self)@, result }) == next(
                old(self).text(),
                old(self)@,
                line_bytes(line),
            ),
    {
        proof {
            lemma_step_keeps_consistent(self.program@, self@, line_bytes(line));
            self.program.lemma_len_fits();
        }
        let ghost before = self@;
        let c = match self.program.instruction(self.ip) {
            None => {
                return Ok(Step::Halted);
            },
            Some(c) => c,
        };
        let cell = self.tape[self.pointer];
        if c == '>' {
            if self.pointer + 1 >= TAPE_SIZE {
                return Err(RuntimeError::TapeOverflow);
            }
            self.pointer = self.pointer + 1;
        } else if c == '<' {
            if self.pointer == 0 {
                return Err(RuntimeError::TapeUnderflow);
            }
            self.pointer = self.pointer - 1;
        } else if c == '+' {
            self.tape.set(self.pointer, cell.wrapping_add(1));
        } else if c == '-' {
            self.tape.set(self.pointer, cell.wrapping_sub(1));
        } else if c == '[' {
            self.jumps.push(self.ip);
            assert(positions(self.jumps@) =~= before.jumps.push(before.ip));
        } else if c == ']' {
            if cell != 0 {
                self.ip = self.jumps[self.jumps.len() - 1];
                return Ok(Step::Continued);
            }
            self.jumps.pop();
            assert(positions(self.jumps@) =~= before.jumps.drop_last());
        } else if c == '.' {
            self.ip = self.ip + 1;
            return Ok(Step::Output(cell as char));
        } else if c == ',' {
            match line {
                None => {
                    return Err(RuntimeError::InputExhausted);
                },
                Some(bytes) => {
                    if bytes.len() == 0 {
                        return Err(RuntimeError::EmptyInputLine);
                    }
                    self.tape.set(self.pointer, bytes[0]);
                },
            }
        }
        self.ip = self.ip + 1;
        Ok(Step::Continued)
    }
}

} // verus!
