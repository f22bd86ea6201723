//! Running a machine over input held in memory, for a bounded number of
//! instructions.

use vstd::prelude::*;
use crate::machine::{at_end, at_read, fresh, next, Machine, RuntimeError, Step, Vm};
use crate::machine::{consistent, lemma_step_keeps_consistent};
use crate::program::Program;
use crate::syntax::well_formed;
use crate::validate::{diagnosis, ValidationError};

verus! {

/// How a run came to its end.
#[derive(Debug, Clone, Copy, PartialEq, Eq, Structural)]
pub enum Ending {
    /// The instruction pointer reached the end of the program.
    Halted,
    /// An instruction failed; the machine stands before it.
    Failed(RuntimeError),
    /// The budget of instructions was used up; the machine can run on.
    Suspended,
}

/// What a run produced.
#[derive(Debug)]
pub struct Execution {
    /// The characters written by `.`, in order.
    pub output: Vec<char>,
    /// How many lines of the input `,` has taken.
    pub consumed: usize,
    /// How the run ended.
    pub ending: Ending,
}

/// A run in progress, as mathematics.
pub struct Session {
    pub machine: Machine,
    pub output: Seq<char>,
    pub consumed: int,
}

/// A run that has not begun, on machine state `machine`.
pub open spec fn beginning(machine: Machine) -> Session {
    Session { machine, output: Seq::empty(), consumed: 0 }
}

/// The contents of the input lines.
pub open spec fn lines(input: Seq<Vec<u8>>) -> Seq<Seq<u8>> {
    input.map_values(|line: Vec<u8>| line@)
}

/// The line that the next `,` would take, if the input still has one.
pub open spec fn pending(input: Seq<Seq<u8>>, consumed: int) -> Option<Seq<u8>> {
    if 0 <= consumed < input.len() {
        Some(input[consumed])
    } else {
        None
    }
}

/// The number of lines consumed once the next instruction has been tried:
/// a `,` takes the pending line, whether or not it can use it.
pub open spec fn consumed_after(program: Seq<char>, input: Seq<Seq<u8>>, s: Session) -> int {
    if at_read(program, s.machine) && pending(input, s.consumed) is Some {
        s.consumed + 1
    } else {
        s.consumed
    }
}

/// The run of `program` from `s` over `input`, for at most `budget`
/// instructions: where it stands at the end, and why it ended.
pub open spec fn run_of(program: Seq<char>, input: Seq<Seq<u8>>, s: Session, budget: nat) -> (
    Session,
    Ending,
)
    decreases budget,
{
    let t = next(program, s.machine, pending(input, s.consumed));
    let consumed = consumed_after(program, input, s);
    if at_end(program, s.machine) {
        (s, Ending::Halted)
    } else if budget == 0 {
        (s, Ending::Suspended)
    } else {
        match t.result {
            Err(e) => (Session { consumed, ..s }, Ending::Failed(e)),
            Ok(Step::Output(c)) => run_of(
                program,
                input,
                Session { machine: t.machine, output: s.output.push(c), consumed },
                (budget - 1) as nat,
            ),
            Ok(_) => run_of(
                program,
                input,
                Session { machine: t.machine, output: s.output, consumed },
                (budget - 1) as nat,
            ),
        }
    }
}

/// A suspended run can be taken up again: running for `a + b` instructions
/// is running for `a`, and then, unless the run ended, for `b` more.
pub proof fn lemma_run_resumes(
    program: Seq<char>,
    input: Seq<Seq<u8>>,
    s: Session,
    a: nat,
    b: nat,
)
    ensures
        run_of(program, input, s, a + b) == if run_of(program, input, s, a).1
            == Ending::Suspended {
            run_of(program, input, run_of(program, input, s, a).0, b)
        } else {
            run_of(program, input, s, a)
        },
    decreases a,
{
    let t = next(program, s.machine, pending(input, s.consumed));
    let consumed = consumed_after(program, input, s);
    if a > 0 && !at_end(program, s.machine) {
        match t.result {
            Err(e) => {},
            Ok(Step::Output(c)) => {
                let after = Session { machine: t.machine, output: s.output.push(c), consumed };
                lemma_run_resumes(program, input, after, (a - 1) as nat, b);
            },
            Ok(_) => {
                let after = Session { machine: t.machine, output: s.output, consumed };
                lemma_run_resumes(program, input, after, (a - 1) as nat, b);
            },
        }
    }
}

/// A run leads from a consistent state to a consistent state; it only
/// adds to the output and only takes further lines, never more than the
/// input has.
pub proof fn lemma_run_goes_forward(
    program: Seq<char>,
    input: Seq<Seq<u8>>,
    s: Session,
    budget: nat,
)
    requires
        well_formed(program),
        consistent(program, s.machine),
        0 <= s.consumed <= input.len(),
    ensures
        consistent(program, run_of(program, input, s, budget).0.machine),
        s.output.is_prefix_of(run_of(program, input, s, budget).0.output),
        s.consumed <= run_of(program, input, s, budget).0.consumed <= input.len(),
    decreases budget,
{
    let line = pending(input, s.consumed);
    let t = next(program, s.machine, line);
    let consumed = consumed_after(program, input, s);
    lemma_step_keeps_consistent(program, s.machine, line);
    if budget > 0 && !at_end(program, s.machine) {
        match t.result {
            Err(e) => {},
            Ok(Step::Output(c)) => {
                let after = Session { machine: t.machine, output: s.output.push(c), consumed };
                lemma_run_goes_forward(program, input, after, (budget - 1) as nat);
            },
            Ok(_) => {
                let after = Session { machine: t.machine, output: s.output, consumed };
                lemma_run_goes_forward(program, input, after, (budget - 1) as nat);
            },
        }
    }
}

impl Vm {
    /// Runs the machine from its present state until the program ends, an
    /// instruction fails, or `budget` instructions have been executed.
    /// Each `,` takes the next line of `input`.
    pub fn run(&mut self, input: &Vec<Vec<u8>>, budget: u64) -> (execution: Execution)
        requires
            old(self).wf(),
        ensures
            final(self).wf(),
            final(self).text() == old(self).text(),
            run_of(old(self).text(), lines(input@), beginning(old(self)@), budget as nat) == (
                Session {
                    machine: final(self)@,
                    output: execution.output@,
                    consumed: execution.consumed as int,
                },
                execution.ending,
            ),
    {
        let ghost program = self.text();
        let ghost start = beginning(self@);
        let mut output: Vec<char> = Vec::new();
        let mut consumed: usize = 0;
        let mut remaining = budget;
        let mut ending = Ending::Suspended;
        loop
            invariant_except_break
                self.wf(),
                self.text() == program,
                consumed <= input.len(),
                ending == Ending::Suspended,
                run_of(program, lines(input@), start, budget as nat) == run_of(
                    program,
                    lines(input@),
                    Session { machine: self@, output: output@, consumed: consumed as int },
                    remaining as nat,
                ),
            ensures
                self.wf(),
                self.text() == program,
                run_of(program, lines(input@), start, budget as nat) == (
                    Session { machine: self@, output: output@, consumed: consumed as int },
                    ending,
                ),
            decreases remaining,
        {
            if self.halted() {
                ending = Ending::Halted;
                break;
            }
            if remaining == 0 {
                break;
            }
            let takes = self.awaits_input() && consumed < input.len();
            let line: Option<&[u8]> = if consumed < input.len() {
                Some(input[consumed].as_slice())
            } else {
                None
            };
            let result = self.step(line);
            if takes {
                consumed = consumed + 1;
            }
            match result {
                Err(e) => {
                    ending = Ending::Failed(e);
                    break;
                },
                Ok(Step::Output(c)) => {
                    output.push(c);
                },
                Ok(_) => {},
            }
            remaining = remaining - 1;
        }
        Execution { output, consumed, ending }
    }
}

/// Validates `text` and, if it passes, runs it on a fresh machine over
/// `input` for at most `budget` instructions.
pub fn interpret(text: &str, input: &Vec<Vec<u8>>, budget: u64) -> (result: Result<
    Execution,
    ValidationError,
>)
    ensures
        match result {
            Err(e) => diagnosis(text@) == Some(e@),
            Ok(execution) => {
                let run = run_of(text@, lines(input@), beginning(fresh()), budget as nat);
                &&& diagnosis(text@) is None
                &&& execution.output@ == run.0.output
                &&& execution.consumed == run.0.consumed
                &&& execution.ending == run.1
            },
        },
{
    match Program::parse(text) {
        Err(e) => Err(e),
        Ok(program) => {
            let mut vm = Vm::new(program);
            Ok(vm.run(input, budget))
        },
    }
}

} // verus!
