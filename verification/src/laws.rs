//! What follows from the model: laws of runs, of the cell and pointer
//! arithmetic, and of programs that stop early or never.

use crate::brackets::matching_close;
use crate::interpreter::final_state;
use crate::machine::{is_instruction, Machine, Status, TAPE_LENGTH};
use crate::text::{render, strip_whitespace};
use vstd::prelude::*;

verus! {

/// A state that is not `Running` is where every run from it stays: what was
/// written before an instruction at fault is what the run has written.
pub proof fn lemma_stopped_stays(m: Machine, fuel: nat)
    requires
        m.status() != Status::Running,
    ensures
        m.run(fuel) == m,
        m.step() == m,
{
}

/// Running for `a + b` steps is running for `a` steps and then for `b`.
pub proof fn lemma_run_split(m: Machine, a: nat, b: nat)
    ensures
        m.run(a + b) == m.run(a).run(b),
    decreases a,
{
    if a > 0 && m.status() == Status::Running {
        lemma_run_split(m.step(), (a - 1) as nat, b);
    }
}

/// A run never takes back what was written: the output at its start is the
/// beginning of the output at its end.
pub proof fn lemma_output_grows(m: Machine, fuel: nat)
    ensures
        m.output.is_prefix_of(m.run(fuel).output),
    decreases fuel,
{
    if fuel > 0 && m.status() == Status::Running {
        lemma_output_grows(m.step(), (fuel - 1) as nat);
    }
}

/// Over a stretch of characters that are no instructions the run only moves
/// the instruction pointer.
pub proof fn lemma_run_over_comments(m: Machine, fuel: nat)
    requires
        m.ip <= m.program.len(),
        forall|i: int| m.ip <= i < m.program.len() ==> !is_instruction(#[trigger] m.program[i]),
    ensures
        m.run(fuel) == (Machine {
            ip: if m.ip + fuel <= m.program.len() {
                m.ip + fuel
            } else {
                m.program.len()
            },
            ..m
        }),
    decreases fuel,
{
    if fuel > 0 && m.ip < m.program.len() {
        assert(!is_instruction(m.program[m.ip as int]));
        lemma_run_over_comments(m.step(), (fuel - 1) as nat);
    }
}

/// A program without instructions writes nothing, whatever its input and
/// however long it runs, and is finished once every character was passed.
pub proof fn lemma_no_instructions_no_output(code: Seq<char>, input: Seq<u8>, fuel: nat)
    requires
        forall|i: int| 0 <= i < code.len() ==> !is_instruction(#[trigger] code[i]),
    ensures
        final_state(code, input, fuel).output == Seq::<u8>::empty(),
        render(final_state(code, input, fuel).output) == Seq::<char>::empty(),
        fuel >= strip_whitespace(code).len() ==> final_state(code, input, fuel).status()
            == Status::Finished,
{
    let program = strip_whitespace(code);
    let start = Machine::initial(program, input);
    assert forall|i: int| 0 <= i < program.len() implies !is_instruction(
        #[trigger] program[i],
    ) by {
        code.lemma_filter_contains_rev(|c: char| !crate::text::is_whitespace(c), program[i]);
    }
    lemma_run_over_comments(start, fuel);
}

/// After `count` instructions `+` in a row the current cell holds its old
/// value plus `count`, modulo 256, and nothing else but the instruction
/// pointer has changed.
pub proof fn lemma_increments(m: Machine, count: nat)
    requires
        m.wf(),
        m.pointer < TAPE_LENGTH,
        m.ip + count <= m.program.len(),
        forall|i: int| m.ip <= i < m.ip + count ==> m.program[i] == '+',
    ensures
        m.run(count) == (Machine {
            tape: m.tape.update(m.pointer as int, ((m.cell() + count) % 256) as u8),
            ip: m.ip + count,
            ..m
        }),
    decreases count,
{
    if count == 0 {
        assert(m.tape.update(m.pointer as int, m.cell()) =~= m.tape);
    } else {
        assert(m.program[m.ip as int] == '+');
        let next = m.step();
        lemma_increments(next, (count - 1) as nat);
        assert(next.tape.update(m.pointer as int, ((next.cell() + (count - 1)) % 256) as u8)
            =~= m.tape.update(m.pointer as int, ((m.cell() + count) % 256) as u8));
    }
}

/// After `count` instructions `-` in a row the current cell holds its old
/// value minus `count`, modulo 256, and nothing else but the instruction
/// pointer has changed.
pub proof fn lemma_decrements(m: Machine, count: nat)
    requires
        m.wf(),
        m.pointer < TAPE_LENGTH,
        m.ip + count <= m.program.len(),
        forall|i: int| m.ip <= i < m.ip + count ==> m.program[i] == '-',
    ensures
        m.run(count) == (Machine {
            tape: m.tape.update(m.pointer as int, ((m.cell() - count) % 256) as u8),
            ip: m.ip + count,
            ..m
        }),
    decreases count,
{
    if count == 0 {
        assert(m.tape.update(m.pointer as int, m.cell()) =~= m.tape);
    } else {
        assert(m.program[m.ip as int] == '-');
        let next = m.step();
        lemma_decrements(next, (count - 1) as nat);
        assert(next.tape.update(m.pointer as int, ((next.cell() - (count - 1)) % 256) as u8)
            =~= m.tape.update(m.pointer as int, ((m.cell() - count) % 256) as u8));
    }
}

/// The wraparound law of the cells: 256 instructions `+` in a row bring the
/// current cell back to the value it had, and change nothing else but the
/// instruction pointer.
pub proof fn lemma_increment_wraparound(m: Machine)
    requires
        m.wf(),
        m.pointer < TAPE_LENGTH,
        m.ip + 256 <= m.program.len(),
        forall|i: int| m.ip <= i < m.ip + 256 ==> m.program[i] == '+',
    ensures
        m.run(256) == (Machine { ip: m.ip + 256, ..m }),
{
    lemma_increments(m, 256);
    assert(m.tape.update(m.pointer as int, m.cell()) =~= m.tape);
}

/// The same law downwards: 256 instructions `-` in a row bring the current
/// cell back to the value it had.
pub proof fn lemma_decrement_wraparound(m: Machine)
    requires
        m.wf(),
        m.pointer < TAPE_LENGTH,
        m.ip + 256 <= m.program.len(),
        forall|i: int| m.ip <= i < m.ip + 256 ==> m.program[i] == '-',
    ensures
        m.run(256) == (Machine { ip: m.ip + 256, ..m }),
{
    lemma_decrements(m, 256);
    assert(m.tape.update(m.pointer as int, m.cell()) =~= m.tape);
}

/// After `count` instructions `>` in a row, from a pointer on the tape, the
/// data pointer has moved `count` cells to the right around the tape, and
/// nothing else but the instruction pointer has changed.
pub proof fn lemma_moves_right(m: Machine, count: nat)
    requires
        m.pointer < TAPE_LENGTH,
        m.ip + count <= m.program.len(),
        forall|i: int| m.ip <= i < m.ip + count ==> m.program[i] == '>',
    ensures
        m.run(count) == (Machine {
            pointer: (m.pointer + count) % (TAPE_LENGTH as nat),
            ip: m.ip + count,
            ..m
        }),
    decreases count,
{
    if count > 0 {
        assert(m.program[m.ip as int] == '>');
        lemma_moves_right(m.step(), (count - 1) as nat);
    }
}

/// The wraparound law of the data pointer: as many instructions `>` in a row
/// as the tape has cells bring the data pointer from the first cell back to
/// it.
pub proof fn lemma_move_right_wraparound(m: Machine)
    requires
        m.pointer == 0,
        m.ip + TAPE_LENGTH <= m.program.len(),
        forall|i: int| m.ip <= i < m.ip + TAPE_LENGTH ==> m.program[i] == '>',
    ensures
        m.run(TAPE_LENGTH as nat) == (Machine { ip: (m.ip + TAPE_LENGTH) as nat, ..m }),
{
    lemma_moves_right(m, TAPE_LENGTH as nat);
}

/// After `count` instructions `<` in a row, with at least `count` cells to
/// the left of the data pointer, the data pointer stands `count` cells
/// further left.
pub proof fn lemma_moves_left(m: Machine, count: nat)
    requires
        count <= m.pointer,
        m.ip + count <= m.program.len(),
        forall|i: int| m.ip <= i < m.ip + count ==> m.program[i] == '<',
    ensures
        m.run(count) == (Machine {
            pointer: (m.pointer - count) as nat,
            ip: m.ip + count,
            ..m
        }),
    decreases count,
{
    if count > 0 {
        assert(m.program[m.ip as int] == '<');
        lemma_moves_left(m.step(), (count - 1) as nat);
    }
}

/// To the left the round is one step longer: from the first cell `<` leads
/// one past the last cell, so it takes one instruction `<` more than the
/// tape has cells to come back to the first cell.
pub proof fn lemma_move_left_wraparound(m: Machine)
    requires
        m.pointer == 0,
        m.ip + TAPE_LENGTH + 1 <= m.program.len(),
        forall|i: int| m.ip <= i < m.ip + TAPE_LENGTH + 1 ==> m.program[i] == '<',
    ensures
        m.run(1).pointer == TAPE_LENGTH,
        m.run((TAPE_LENGTH + 1) as nat) == (Machine { ip: (m.ip + TAPE_LENGTH + 1) as nat, ..m }),
{
    assert(m.program[m.ip as int] == '<');
    assert(m.run(1) == m.step().run(0));
    lemma_run_split(m, 1, TAPE_LENGTH as nat);
    lemma_moves_left(m.step(), TAPE_LENGTH as nat);
}

/// A `[` on a zero cell that no `]` closes stops the run where it stands:
/// the state reports the unmatched bracket, the instruction pointer stays on
/// it, and the output stays what was written before.
pub proof fn lemma_unmatched_open_stops(m: Machine, fuel: nat)
    requires
        m.ip < m.program.len(),
        m.pointer < TAPE_LENGTH,
        m.instruction() == '[',
        m.cell() == 0,
        matching_close(m.program, m.ip as int) is None,
    ensures
        m.status() == Status::UnmatchedOpen,
        m.run(fuel) == m,
{
}

/// A program that begins with a `[` that no `]` closes stops on it at once
/// and writes nothing.
pub proof fn lemma_unmatched_open_at_start(code: Seq<char>, input: Seq<u8>, fuel: nat)
    requires
        strip_whitespace(code).len() > 0,
        strip_whitespace(code)[0] == '[',
        matching_close(strip_whitespace(code), 0) is None,
    ensures
        final_state(code, input, fuel).status() == Status::UnmatchedOpen,
        final_state(code, input, fuel).ip == 0,
        final_state(code, input, fuel).output == Seq::<u8>::empty(),
{
    lemma_unmatched_open_stops(Machine::initial(strip_whitespace(code), input), fuel);
}

/// A run that starts inside a set of `Running` states which no step leaves
/// never stops: whatever the fuel, it ends `Running`, inside the set.
pub proof fn lemma_never_stops(m: Machine, inside: spec_fn(Machine) -> bool, fuel: nat)
    requires
        inside(m),
        forall|s: Machine| #[trigger] inside(s) ==> s.status() == Status::Running && inside(s.step()),
    ensures
        inside(m.run(fuel)),
        m.run(fuel).status() == Status::Running,
    decreases fuel,
{
    if fuel > 0 {
        lemma_never_stops(m.step(), inside, (fuel - 1) as nat);
    }
}

/// A loop whose body leaves the tested cell as it is never ends. Stated for
/// the loop with the empty body: entered on a cell that is not zero, `[]`
/// keeps every run `Running`, whatever the fuel.
pub proof fn lemma_empty_loop_never_stops(m: Machine, fuel: nat)
    requires
        m.ip + 1 < m.program.len(),
        m.program[m.ip as int] == '[',
        m.program[m.ip as int + 1] == ']',
        m.pointer < TAPE_LENGTH,
        m.cell() != 0,
    ensures
        m.run(fuel).status() == Status::Running,
{
    let inside = |s: Machine|
        {
            &&& s.program == m.program
            &&& s.tape == m.tape
            &&& s.pointer == m.pointer
            &&& (s.ip == m.ip || (s.ip == m.ip + 1 && s.loops.len() > 0 && s.loops.last() == m.ip))
        };
    assert(inside(m));
    assert forall|s: Machine| #[trigger] inside(s) implies s.status() == Status::Running && inside(
        s.step(),
    ) by {
        if s.ip == m.ip {
            assert(s.step().loops.last() == m.ip);
        }
    }
    lemma_never_stops(m, inside, fuel);
}

} // verus!
