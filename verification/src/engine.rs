//! The executable engine. It holds one state of the model and moves it
//! forward one instruction at a time.

use crate::brackets::{find_matching_close, lemma_matching_close};
use crate::machine::{lemma_step_wf, Event, Machine, Status, TAPE_LENGTH};
use crate::text::{render, render_text, strip, strip_whitespace};
use std::collections::VecDeque;
use vstd::prelude::*;
use vstd::string::StringSliceAdditionalSpecFns;

verus! {

/// One run of a program: the instructions, the tape and both pointers, the
/// loops entered, what was written and what is left to read.
pub struct Engine {
    program: Vec<char>,
    tape: Vec<u8>,
    pointer: usize,
    ip: usize,
    loops: Vec<usize>,
    output: Vec<u8>,
    input: VecDeque<u8>,
}

impl View for Engine {
    type V = Machine;

    closed spec fn view(&self) -> Machine {
        Machine {
            program: self.program@,
            tape: self.tape@,
            pointer: self.pointer as nat,
            ip: self.ip as nat,
            loops: self.loops@.map_values(|open: usize| open as nat),
            output: self.output@,
            input: self.input@,
        }
    }
}

/// Whether every entry of the loop stack is the position of a `[`.
spec fn loops_in_program(loops: Seq<usize>, program: Seq<char>) -> bool {
    forall|i: int|
        0 <= i < loops.len() ==> (#[trigger] loops[i]) < program.len() && program[loops[i] as int]
            == '['
}

impl Engine {
    #[verifier::type_invariant]
    spec fn inv(self) -> bool {
        &&& self.tape.len() == TAPE_LENGTH
        &&& self.pointer <= TAPE_LENGTH
        &&& self.ip <= self.program.len()
        &&& loops_in_program(self.loops@, self.program@)
    }

    /// An engine at the start of `code`, whose whitespace is dropped, with
    /// the bytes of `input` waiting to be read.
    pub fn new(code: &str, input: &str) -> (engine: Engine)
        ensures
            engine@ == Machine::initial(strip_whitespace(code@), input.spec_bytes()),
            engine@.wf(),
    {
        let program = strip(code);
        let bytes = input.as_bytes();
        let mut waiting: VecDeque<u8> = VecDeque::new();
        let mut i: usize = 0;
        while i < bytes.len()
            invariant
                i <= bytes.len(),
                waiting@ == bytes@.take(i as int),
            decreases bytes.len() - i,
        {
            waiting.push_back(bytes[i]);
            proof {
                assert(bytes@.take(i + 1) =~= bytes@.take(i as int).push(bytes@[i as int]));
            }
            i += 1;
        }
        let engine = Engine {
            program,
            tape: vec![0u8; TAPE_LENGTH],
            pointer: 0,
            ip: 0,
            loops: Vec::new(),
            output: Vec::new(),
            input: waiting,
        };
        proof {
            assert(bytes@.take(bytes@.len() as int) =~= bytes@);
            assert(engine@.tape =~= Machine::initial(engine@.program, engine@.input).tape);
            assert(engine@.loops =~= Seq::empty());
        }
        engine
    }

    /// What the state allows next.
    pub fn status(&self) -> (status: Status)
        ensures
            status == self@.status(),
    {
        proof {
            use_type_invariant(self);
        }
        if self.ip >= self.program.len() {
            return Status::Finished;
        }
        let c = self.program[self.ip];
        if c == '+' || c == '-' || c == '.' || c == ',' || c == '[' {
            if self.pointer >= TAPE_LENGTH {
                Status::OffTape
            } else if c == ',' && self.input.len() == 0 {
                Status::AwaitingInput
            } else if c == '[' && self.tape[self.pointer] == 0 && find_matching_close(
                &self.program,
                self.ip,
            ).is_none() {
                Status::UnmatchedOpen
            } else {
                Status::Running
            }
        } else {
            Status::Running
        }
    }

    /// Executes the instruction under the instruction pointer, if the state
    /// allows it, and says what happened.
    pub fn step(&mut self) -> (event: Event)
        ensures
            event == old(self)@.event(),
            final(self)@ == old(self)@.step(),
            final(self)@.wf(),
    {
        proof {
            use_type_invariant(&*self);
            self.lemma_view_wf();
            lemma_step_wf(self@);
        }
        if self.ip >= self.program.len() {
            return Event::Stopped(Status::Finished);
        }
        let c = self.program[self.ip];
        if c == '>' {
            self.pointer = if self.pointer + 1 < TAPE_LENGTH {
                self.pointer + 1
            } else {
                0
            };
            self.ip += 1;
            Event::Executed
        } else if c == '<' {
            self.pointer = if self.pointer > 0 {
                self.pointer - 1
            } else {
                TAPE_LENGTH
            };
            self.ip += 1;
            Event::Executed
        } else if c == ']' {
            let innermost = self.leave_loop();
            proof {
                use_type_invariant(&*self);
            }
            match innermost {
                Some(open) => {
                    self.ip = open;
                },
                None => {
                    self.ip += 1;
                },
            }
            Event::Executed
        } else if c == '+' || c == '-' || c == '.' || c == ',' || c == '[' {
            if self.pointer >= TAPE_LENGTH {
                return Event::Stopped(Status::OffTape);
            }
            let cell = self.tape[self.pointer];
            if c == '+' {
                self.tape[self.pointer] = cell.wrapping_add(1);
                self.ip += 1;
                Event::Executed
            } else if c == '-' {
                self.tape[self.pointer] = cell.wrapping_sub(1);
                self.ip += 1;
                Event::Executed
            } else if c == '.' {
                self.write(cell);
                proof {
                    use_type_invariant(&*self);
                }
                self.ip += 1;
                Event::Emitted(cell)
            } else if c == ',' {
                let next = self.read();
                proof {
                    use_type_invariant(&*self);
                }
                match next {
                    Some(byte) => {
                        self.tape[self.pointer] = byte;
                        self.ip += 1;
                        Event::Executed
                    },
                    None => Event::Stopped(Status::AwaitingInput),
                }
            } else if cell == 0 {
                match find_matching_close(&self.program, self.ip) {
                    Some(close) => {
                        proof {
                            lemma_matching_close(self.program@, self.ip as int);
                        }
                        self.ip = close + 1;
                        Event::Executed
                    },
                    None => Event::Stopped(Status::UnmatchedOpen),
                }
            } else {
                self.enter_loop();
                proof {
                    use_type_invariant(&*self);
                }
                self.ip += 1;
                Event::Executed
            }
        } else {
            self.ip += 1;
            Event::Executed
        }
    }

    /// Executes instructions until the state is no longer `Running` or
    /// `fuel` of them were executed, and says what the state then allows.
    /// `Running` means that the fuel ran out first.
    pub fn run(&mut self, fuel: u64) -> (status: Status)
        ensures
            final(self)@ == old(self)@.run(fuel as nat),
            final(self)@.wf(),
            status == final(self)@.status(),
    {
        proof {
            use_type_invariant(&*self);
            self.lemma_view_wf();
        }
        let mut left: u64 = fuel;
        while left > 0
            invariant
                self@.wf(),
                self@.run(left as nat) == old(self)@.run(fuel as nat),
            decreases left,
        {
            match self.step() {
                Event::Stopped(status) => {
                    return status;
                },
                _ => {
                    left -= 1;
                },
            }
        }
        self.status()
    }

    /// Puts one more byte at the end of the input that waits to be read.
    pub fn feed(&mut self, byte: u8)
        ensures
            final(self)@ == (Machine { input: old(self)@.input.push(byte), ..old(self)@ }),
            final(self)@.wf(),
    {
        proof {
            use_type_invariant(&*self);
            self.lemma_view_wf();
        }
        let mut waiting: VecDeque<u8> = VecDeque::new();
        std::mem::swap(&mut waiting, &mut self.input);
        waiting.push_back(byte);
        std::mem::swap(&mut waiting, &mut self.input);
    }

    /// The instruction pointer.
    pub fn position(&self) -> (ip: usize)
        ensures
            ip == self@.ip,
    {
        self.ip
    }

    /// The data pointer.
    pub fn pointer(&self) -> (pointer: usize)
        ensures
            pointer == self@.pointer,
    {
        self.pointer
    }

    /// The value of the current cell, or `None` when the data pointer stands
    /// one past the last cell.
    pub fn cell(&self) -> (cell: Option<u8>)
        ensures
            cell == if self@.pointer < TAPE_LENGTH {
                Some(self@.cell())
            } else {
                None
            },
    {
        proof {
            use_type_invariant(self);
        }
        if self.pointer < TAPE_LENGTH {
            Some(self.tape[self.pointer])
        } else {
            None
        }
    }

    /// The instructions.
    pub fn program(&self) -> (program: &Vec<char>)
        ensures
            program@ == self@.program,
    {
        &self.program
    }

    /// The cells.
    pub fn tape(&self) -> (tape: &Vec<u8>)
        ensures
            tape@ == self@.tape,
            tape@.len() == TAPE_LENGTH,
    {
        proof {
            use_type_invariant(self);
        }
        &self.tape
    }

    /// The bytes written so far.
    pub fn output(&self) -> (output: &Vec<u8>)
        ensures
            output@ == self@.output,
    {
        &self.output
    }

    /// The text written so far, without leading and trailing whitespace.
    pub fn output_text(&self) -> (text: String)
        ensures
            text@ == render(self@.output),
    {
        render_text(&self.output)
    }

    /// The state of an engine that keeps its invariant is a well-formed
    /// state of the model.
    proof fn lemma_view_wf(&self)
        requires
            self.inv(),
        ensures
            self@.wf(),
    {
        assert forall|i: int| 0 <= i < self@.loops.len() implies (#[trigger] self@.loops[i])
            < self@.program.len() && self@.program[self@.loops[i] as int] == '[' by {
            assert(self@.loops[i] == self.loops@[i]);
        }
    }

    /// Appends `byte` to the output.
    fn write(&mut self, byte: u8)
        ensures
            final(self)@ == (Machine { output: old(self)@.output.push(byte), ..old(self)@ }),
    {
        proof {
            use_type_invariant(&*self);
        }
        let mut output: Vec<u8> = Vec::new();
        std::mem::swap(&mut output, &mut self.output);
        output.push(byte);
        std::mem::swap(&mut output, &mut self.output);
    }

    /// Takes the next byte from the input that waits, if there is one.
    fn read(&mut self) -> (byte: Option<u8>)
        ensures
            old(self)@.input.len() == 0 ==> byte is None && final(self)@ == old(self)@,
            old(self)@.input.len() > 0 ==> byte == Some(old(self)@.input.first()) && final(self)@
                == (Machine { input: old(self)@.input.drop_first(), ..old(self)@ }),
    {
        proof {
            use_type_invariant(&*self);
        }
        let mut waiting: VecDeque<u8> = VecDeque::new();
        std::mem::swap(&mut waiting, &mut self.input);
        let byte = waiting.pop_front();
        std::mem::swap(&mut waiting, &mut self.input);
        proof {
            if old(self)@.input.len() > 0 {
                assert(self@.input =~= old(self)@.input.drop_first());
            }
        }
        byte
    }

    /// Records that the loop at the instruction pointer was entered.
    fn enter_loop(&mut self)
        requires
            old(self)@.ip < old(self)@.program.len(),
            old(self)@.instruction() == '[',
        ensures
            final(self)@ == (Machine { loops: old(self)@.loops.push(old(self)@.ip), ..old(self)@ }),
    {
        proof {
            use_type_invariant(&*self);
        }
        let mut loops: Vec<usize> = Vec::new();
        std::mem::swap(&mut loops, &mut self.loops);
        loops.push(self.ip);
        std::mem::swap(&mut loops, &mut self.loops);
        proof {
            assert(self@.loops =~= old(self)@.loops.push(old(self)@.ip));
        }
    }

    /// Forgets the innermost loop entered, if there is one, and returns the
    /// position of its `[`.
    fn leave_loop(&mut self) -> (open: Option<usize>)
        ensures
            old(self)@.loops.len() == 0 ==> open is None && final(self)@ == old(self)@,
            old(self)@.loops.len() > 0 ==> open == Some(old(self)@.loops.last() as usize)
                && open->0 < old(self)@.program.len() && final(self)@ == (Machine {
                loops: old(self)@.loops.drop_last(),
                ..old(self)@
            }),
    {
        proof {
            use_type_invariant(&*self);
        }
        let mut loops: Vec<usize> = Vec::new();
        std::mem::swap(&mut loops, &mut self.loops);
        let open = loops.pop();
        std::mem::swap(&mut loops, &mut self.loops);
        proof {
            if old(self)@.loops.len() > 0 {
                assert(old(self)@.loops.last() == open->0 as nat);
                assert(self@.loops =~= old(self)@.loops.drop_last());
            }
        }
        open
    }
}

} // verus!
