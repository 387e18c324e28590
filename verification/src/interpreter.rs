//! Running a whole program on a given input.

use crate::engine::Engine;
use crate::machine::{Machine, Status};
use crate::text::{render, strip_whitespace};
use vstd::prelude::*;
use vstd::string::StringSliceAdditionalSpecFns;

verus! {

/// How a run ended.
pub struct Outcome {
    /// Why the run stopped; `Running` when the fuel ran out first.
    pub status: Status,
    /// The instruction pointer at that moment. With `UnmatchedOpen` and
    /// `OffTape` it is the position of the instruction at fault.
    pub position: usize,
    /// The text written, without leading and trailing whitespace.
    pub output: String,
}

/// The state in which the run of `code` on `input` stops, given `fuel`
/// instructions at most.
pub open spec fn final_state(code: Seq<char>, input: Seq<u8>, fuel: nat) -> Machine {
    Machine::initial(strip_whitespace(code), input).run(fuel)
}

/// Runs `code` on the bytes of `input`, for `fuel` instructions at most.
pub fn interpret(code: &str, input: &str, fuel: u64) -> (outcome: Outcome)
    ensures
        outcome.status == final_state(code@, input.spec_bytes(), fuel as nat).status(),
        outcome.position == final_state(code@, input.spec_bytes(), fuel as nat).ip,
        outcome.output@ == render(final_state(code@, input.spec_bytes(), fuel as nat).output),
{
    let mut engine = Engine::new(code, input);
    let status = engine.run(fuel);
    Outcome { status, position: engine.position(), output: engine.output_text() }
}

} // verus!
