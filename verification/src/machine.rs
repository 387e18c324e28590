//! The mathematical model of the interpreter: the state of one run, and the
//! function that takes a state to the next one.

use crate::brackets::{lemma_matching_close, matching_close};
use vstd::prelude::*;

verus! {

/// The number of cells on the tape.
pub const TAPE_LENGTH: usize = 30000;

/// What a state allows next.
#[derive(Clone, Copy, Debug, PartialEq, Eq, Structural)]
pub enum Status {
    /// The instruction under the instruction pointer can be executed.
    Running,
    /// The instruction pointer is past the last instruction.
    Finished,
    /// The instruction is `,` and no input byte is waiting.
    AwaitingInput,
    /// The instruction is a `[` on a zero cell, and no `]` closes it.
    UnmatchedOpen,
    /// The instruction needs the current cell, and the data pointer stands
    /// one past the last cell.
    OffTape,
}

/// What one step did.
#[derive(Clone, Copy, Debug, PartialEq, Eq, Structural)]
pub enum Event {
    /// An instruction was executed and wrote nothing.
    Executed,
    /// A `.` was executed and wrote this byte.
    Emitted(u8),
    /// Nothing was executed, for the reason given, which is never `Running`.
    Stopped(Status),
}

/// Whether `c` is one of the eight instructions.
pub open spec fn is_instruction(c: char) -> bool {
    c == '>' || c == '<' || c == '+' || c == '-' || c == '.' || c == ',' || c == '[' || c == ']'
}

/// Whether executing `c` reads or writes the current cell.
pub open spec fn uses_cell(c: char) -> bool {
    c == '+' || c == '-' || c == '.' || c == ',' || c == '['
}

/// The cell value after `+`: one more, and 0 after 255.
pub open spec fn incremented(value: u8) -> u8 {
    ((value + 1) % 256) as u8
}

/// The cell value after `-`: one less, and 255 after 0.
pub open spec fn decremented(value: u8) -> u8 {
    ((value + 255) % 256) as u8
}

/// The data pointer after `>`: one further, and 0 from the last cell on.
pub open spec fn moved_right(pointer: nat) -> nat {
    if pointer + 1 < TAPE_LENGTH {
        pointer + 1
    } else {
        0
    }
}

/// The data pointer after `<`: one back, and from 0 to one past the last cell.
pub open spec fn moved_left(pointer: nat) -> nat {
    if pointer > 0 {
        (pointer - 1) as nat
    } else {
        TAPE_LENGTH as nat
    }
}

/// The state of one run.
pub struct Machine {
    /// The instructions: the program text without its whitespace.
    pub program: Seq<char>,
    /// The cells.
    pub tape: Seq<u8>,
    /// The data pointer: the index of the current cell.
    pub pointer: nat,
    /// The instruction pointer: the index of the next instruction.
    pub ip: nat,
    /// The positions of the loops entered and not yet left, innermost last.
    pub loops: Seq<nat>,
    /// The bytes written so far.
    pub output: Seq<u8>,
    /// The input bytes that wait to be read, the next one first.
    pub input: Seq<u8>,
}

impl Machine {
    /// The state before the first instruction: all cells zero, both pointers
    /// at the start, no loop entered, nothing written.
    pub open spec fn initial(program: Seq<char>, input: Seq<u8>) -> Machine {
        Machine {
            program,
            tape: Seq::new(TAPE_LENGTH as nat, |i: int| 0u8),
            pointer: 0,
            ip: 0,
            loops: Seq::empty(),
            output: Seq::empty(),
            input,
        }
    }

    /// What holds of every state that a run reaches.
    pub open spec fn wf(self) -> bool {
        &&& self.tape.len() == TAPE_LENGTH
        &&& self.pointer <= TAPE_LENGTH
        &&& self.ip <= self.program.len()
        &&& forall|i: int|
            0 <= i < self.loops.len() ==> (#[trigger] self.loops[i]) < self.program.len()
                && self.program[self.loops[i] as int] == '['
    }

    /// The instruction under the instruction pointer.
    pub open spec fn instruction(self) -> char {
        self.program[self.ip as int]
    }

    /// The value of the current cell.
    pub open spec fn cell(self) -> u8 {
        self.tape[self.pointer as int]
    }

    /// What the state allows next.
    pub open spec fn status(self) -> Status {
        if self.ip >= self.program.len() {
            Status::Finished
        } else if uses_cell(self.instruction()) && self.pointer >= TAPE_LENGTH {
            Status::OffTape
        } else if self.instruction() == ',' && self.input.len() == 0 {
            Status::AwaitingInput
        } else if self.instruction() == '[' && self.cell() == 0 && matching_close(
            self.program,
            self.ip as int,
        ) is None {
            Status::UnmatchedOpen
        } else {
            Status::Running
        }
    }

    /// What the next step does.
    pub open spec fn event(self) -> Event {
        if self.status() != Status::Running {
            Event::Stopped(self.status())
        } else if self.instruction() == '.' {
            Event::Emitted(self.cell())
        } else {
            Event::Executed
        }
    }

    /// The state after the instruction under the instruction pointer. A
    /// state that is not `Running` stays as it is.
    pub open spec fn step(self) -> Machine {
        let next = self.ip + 1;
        if self.status() != Status::Running {
            self
        } else if self.instruction() == '>' {
            Machine { pointer: moved_right(self.pointer), ip: next, ..self }
        } else if self.instruction() == '<' {
            Machine { pointer: moved_left(self.pointer), ip: next, ..self }
        } else if self.instruction() == '+' {
            Machine {
                tape: self.tape.update(self.pointer as int, incremented(self.cell())),
                ip: next,
                ..self
            }
        } else if self.instruction() == '-' {
            Machine {
                tape: self.tape.update(self.pointer as int, decremented(self.cell())),
                ip: next,
                ..self
            }
        } else if self.instruction() == '.' {
            Machine { output: self.output.push(self.cell()), ip: next, ..self }
        } else if self.instruction() == ',' {
            Machine {
                tape: self.tape.update(self.pointer as int, self.input.first()),
                input: self.input.drop_first(),
                ip: next,
                ..self
            }
        } else if self.instruction() == '[' {
            if self.cell() == 0 {
                Machine {
                    ip: (matching_close(self.program, self.ip as int).unwrap() + 1) as nat,
                    ..self
                }
            } else {
                Machine { loops: self.loops.push(self.ip), ip: next, ..self }
            }
        } else if self.instruction() == ']' && self.loops.len() > 0 {
            Machine { loops: self.loops.drop_last(), ip: self.loops.last(), ..self }
        } else {
            Machine { ip: next, ..self }
        }
    }

    /// The state after at most `fuel` steps: the run stops earlier in the
    /// first state that is not `Running`.
    pub open spec fn run(self, fuel: nat) -> Machine
        decreases fuel,
    {
        if fuel == 0 || self.status() != Status::Running {
            self
        } else {
            self.step().run((fuel - 1) as nat)
        }
    }
}

/// The state before the first instruction is well formed.
pub proof fn lemma_initial_wf(program: Seq<char>, input: Seq<u8>)
    ensures
        Machine::initial(program, input).wf(),
{
}

/// A step takes a well-formed state to a well-formed state, and changes
/// neither the program nor the length of the tape.
pub proof fn lemma_step_wf(m: Machine)
    requires
        m.wf(),
    ensures
        m.step().wf(),
        m.step().program == m.program,
{
    lemma_matching_close(m.program, m.ip as int);
}

/// A run takes a well-formed state to a well-formed state, and does not
/// change the program.
pub proof fn lemma_run_wf(m: Machine, fuel: nat)
    requires
        m.wf(),
    ensures
        m.run(fuel).wf(),
        m.run(fuel).program == m.program,
    decreases fuel,
{
    if fuel > 0 && m.status() == Status::Running {
        lemma_step_wf(m);
        lemma_run_wf(m.step(), (fuel - 1) as nat);
    }
}

} // verus!
