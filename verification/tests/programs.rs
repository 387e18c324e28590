use bf_engine::{interpret, Status};

const FUEL: u64 = 1_000_000;

#[test]
fn loop_test() {
    assert_eq!(interpret("++++++++[>++++[>++>+++>+++>+<<<<-]>+>+>->>+[<]<-]>>.>---.+++++++..+++.>>.<-.<.+++.------.--------.>>+.>++.", "", FUEL).output, "Hello World!");
    assert_eq!(interpret("++++++++++[>+++++++>++++++++++>+++>+<<<<-]>++.>+.+++++++..+++.>++.<<+++++++++++++++.>.+++.------.--------.>+.", "", FUEL).output, "Hello World!");
    assert_eq!(interpret(",[.,]", "Rust\0", FUEL).output, "Rust");
}

#[test]
fn hello_world_finishes() {
    let outcome = interpret(
        "++++++++[>++++[>++>+++>+++>+<<<<-]>+>+>->>+[<]<-]>>.>---.+++++++..+++.>>.<-.<.+++.------.--------.>>+.>++.",
        "",
        FUEL,
    );
    assert_eq!(outcome.status, Status::Finished);
    assert_eq!(outcome.position, 106);
    assert_eq!(outcome.output, "Hello World!");
}

#[test]
fn echo_finishes_after_the_zero_byte() {
    let outcome = interpret(",[.,]", "Rust\0", FUEL);
    assert_eq!(outcome.status, Status::Finished);
    assert_eq!(outcome.position, 5);
    assert_eq!(outcome.output, "Rust");
}

#[test]
fn echo_waits_when_the_input_has_no_zero_byte() {
    let outcome = interpret(",[.,]", "Rust", FUEL);
    assert_eq!(outcome.status, Status::AwaitingInput);
    assert_eq!(outcome.position, 3);
    assert_eq!(outcome.output, "Rust");
}

#[test]
fn empty_program_writes_nothing() {
    let outcome = interpret("", "", FUEL);
    assert_eq!(outcome.status, Status::Finished);
    assert_eq!(outcome.position, 0);
    assert_eq!(outcome.output, "");
    let unfuelled = interpret("", "anything", 0);
    assert_eq!(unfuelled.status, Status::Finished);
    assert_eq!(unfuelled.output, "");
}

#[test]
fn whitespace_only_program_writes_nothing() {
    let outcome = interpret(" \n\t\r \u{a0}\u{3000}", "", FUEL);
    assert_eq!(outcome.status, Status::Finished);
    assert_eq!(outcome.position, 0);
    assert_eq!(outcome.output, "");
}

#[test]
fn program_without_instructions_writes_nothing() {
    let outcome = interpret("hello world", "input", FUEL);
    assert_eq!(outcome.status, Status::Finished);
    assert_eq!(outcome.position, 10);
    assert_eq!(outcome.output, "");
    let halfway = interpret("hello world", "input", 5);
    assert_eq!(halfway.status, Status::Running);
    assert_eq!(halfway.position, 5);
    assert_eq!(halfway.output, "");
}

#[test]
fn other_characters_are_skipped() {
    let outcome = interpret("add one: + then print: .", "", FUEL);
    assert_eq!(outcome.status, Status::Finished);
    assert_eq!(outcome.output, "\u{1}");
}

#[test]
fn whitespace_does_not_count_for_positions() {
    let outcome = interpret(" + \n + \t [", "", 2);
    assert_eq!(outcome.status, Status::Running);
    assert_eq!(outcome.position, 2);
    let spaced = interpret("\n [ \n . ", "", FUEL);
    assert_eq!(spaced.status, Status::UnmatchedOpen);
    assert_eq!(spaced.position, 0);
}

#[test]
fn input_is_read_in_order() {
    let outcome = interpret(",.,.,.", "abc", FUEL);
    assert_eq!(outcome.status, Status::Finished);
    assert_eq!(outcome.output, "abc");
}

#[test]
fn input_is_read_byte_by_byte() {
    let outcome = interpret(",.,.", "\u{e9}", FUEL);
    assert_eq!(outcome.status, Status::Finished);
    assert_eq!(outcome.output, "\u{c3}\u{a9}");
}

#[test]
fn exhausted_input_is_reported() {
    let outcome = interpret("+.,.", "", FUEL);
    assert_eq!(outcome.status, Status::AwaitingInput);
    assert_eq!(outcome.position, 2);
    assert_eq!(outcome.output, "\u{1}");
}

#[test]
fn output_is_trimmed() {
    let code = format!("{}.{}.[-]{}.", "+".repeat(32), "+".repeat(33), "+".repeat(10));
    let outcome = interpret(&code, "", FUEL);
    assert_eq!(outcome.status, Status::Finished);
    assert_eq!(outcome.output, "A");
}

#[test]
fn output_of_whitespace_alone_is_empty() {
    let code = format!("{}..", "+".repeat(32));
    let outcome = interpret(&code, "", FUEL);
    assert_eq!(outcome.status, Status::Finished);
    assert_eq!(outcome.output, "");
}

#[test]
fn whitespace_inside_the_output_stays() {
    let outcome = interpret(",.,.,.,.,.", " a b ", FUEL);
    assert_eq!(outcome.output, "a b");
}

#[test]
fn fuel_bounds_the_run() {
    let outcome = interpret("+++.", "", 2);
    assert_eq!(outcome.status, Status::Running);
    assert_eq!(outcome.position, 2);
    assert_eq!(outcome.output, "");
    let exact = interpret("+++.", "", 4);
    assert_eq!(exact.status, Status::Finished);
    assert_eq!(exact.position, 4);
    assert_eq!(exact.output, "\u{3}");
}

#[test]
fn unmatched_open_on_zero_cell_is_reported() {
    let outcome = interpret("[.", "", FUEL);
    assert_eq!(outcome.status, Status::UnmatchedOpen);
    assert_eq!(outcome.position, 0);
    assert_eq!(outcome.output, "");
}

#[test]
fn unmatched_open_keeps_earlier_output() {
    let outcome = interpret("+.-[.", "", FUEL);
    assert_eq!(outcome.status, Status::UnmatchedOpen);
    assert_eq!(outcome.position, 3);
    assert_eq!(outcome.output, "\u{1}");
}

#[test]
fn unmatched_open_on_nonzero_cell_is_entered() {
    let outcome = interpret("+[.", "", FUEL);
    assert_eq!(outcome.status, Status::Finished);
    assert_eq!(outcome.position, 3);
    assert_eq!(outcome.output, "\u{1}");
}

#[test]
fn unmatched_close_is_ignored() {
    let outcome = interpret("]+.]", "", FUEL);
    assert_eq!(outcome.status, Status::Finished);
    assert_eq!(outcome.position, 4);
    assert_eq!(outcome.output, "\u{1}");
}

#[test]
fn loop_that_keeps_its_cell_never_ends() {
    let outcome = interpret("+[]", "", 100_000);
    assert_eq!(outcome.status, Status::Running);
    assert_eq!(outcome.position, 2);
    assert_eq!(outcome.output, "");
    let longer = interpret("+[]", "", 100_001);
    assert_eq!(longer.status, Status::Running);
    assert_eq!(longer.position, 1);
}

#[test]
fn skipped_loop_continues_after_its_close() {
    let outcome = interpret("[+[+]+]+.", "", FUEL);
    assert_eq!(outcome.status, Status::Finished);
    assert_eq!(outcome.output, "\u{1}");
    let at_end = interpret("[[][]]", "", 1);
    assert_eq!(at_end.status, Status::Finished);
    assert_eq!(at_end.position, 6);
}

#[test]
fn nested_loops_multiply() {
    let outcome = interpret("++[>+++[>+<-]<-]>>.", "", FUEL);
    assert_eq!(outcome.status, Status::Finished);
    assert_eq!(outcome.output, "\u{6}");
}

#[test]
fn cell_access_off_the_tape_stops_the_run() {
    for code in ["<+", "<-", "<.", "<,", "<["] {
        let outcome = interpret(code, "x", FUEL);
        assert_eq!(outcome.status, Status::OffTape);
        assert_eq!(outcome.position, 1);
        assert_eq!(outcome.output, "");
    }
    let after_output = interpret("+.<.", "", FUEL);
    assert_eq!(after_output.status, Status::OffTape);
    assert_eq!(after_output.position, 3);
    assert_eq!(after_output.output, "\u{1}");
}

#[test]
fn moves_off_the_tape_are_no_fault() {
    for code in ["<", "<>", "<<", "<]", "< comment"] {
        let outcome = interpret(code, "", FUEL);
        assert_eq!(outcome.status, Status::Finished);
    }
}
