use bf_engine::{Engine, Event, Status, TAPE_LENGTH};

#[test]
fn tape_has_thirty_thousand_zero_cells() {
    assert_eq!(TAPE_LENGTH, 30000);
    let engine = Engine::new("", "");
    assert_eq!(engine.tape().len(), 30000);
    assert!(engine.tape().iter().all(|cell| *cell == 0));
    assert_eq!(engine.pointer(), 0);
    assert_eq!(engine.position(), 0);
    assert_eq!(engine.cell(), Some(0));
}

#[test]
fn increment_wraps_after_256() {
    let mut engine = Engine::new(&"+".repeat(256), "");
    assert_eq!(engine.run(255), Status::Running);
    assert_eq!(engine.cell(), Some(255));
    assert_eq!(engine.run(1), Status::Finished);
    assert_eq!(engine.cell(), Some(0));
    assert!(engine.tape().iter().all(|cell| *cell == 0));
}

#[test]
fn increment_wraps_from_any_value() {
    let code = format!("{}{}", "+".repeat(77), "+".repeat(256));
    let mut engine = Engine::new(&code, "");
    engine.run(77);
    assert_eq!(engine.cell(), Some(77));
    assert_eq!(engine.run(256), Status::Finished);
    assert_eq!(engine.cell(), Some(77));
}

#[test]
fn decrement_wraps_below_zero() {
    let mut engine = Engine::new("-.", "");
    assert_eq!(engine.step(), Event::Executed);
    assert_eq!(engine.cell(), Some(255));
    assert_eq!(engine.step(), Event::Emitted(255));
    assert_eq!(engine.output_text(), "\u{ff}");
}

#[test]
fn decrement_wraps_after_256() {
    let code = format!("+++{}", "-".repeat(256));
    let mut engine = Engine::new(&code, "");
    assert_eq!(engine.run(3 + 4), Status::Running);
    assert_eq!(engine.cell(), Some(255));
    assert_eq!(engine.run(252), Status::Finished);
    assert_eq!(engine.cell(), Some(3));
}

#[test]
fn pointer_returns_after_tape_length_moves_right() {
    let mut engine = Engine::new(&">".repeat(30000), "");
    assert_eq!(engine.run(29999), Status::Running);
    assert_eq!(engine.pointer(), 29999);
    assert_eq!(engine.cell(), Some(0));
    assert_eq!(engine.run(1), Status::Finished);
    assert_eq!(engine.pointer(), 0);
    assert_eq!(engine.position(), 30000);
}

#[test]
fn last_cell_can_be_used() {
    let code = format!("{}+++.>++.", ">".repeat(29999));
    let mut engine = Engine::new(&code, "");
    assert_eq!(engine.run(u64::MAX), Status::Finished);
    assert_eq!(engine.pointer(), 0);
    assert_eq!(engine.tape()[29999], 3);
    assert_eq!(engine.tape()[0], 2);
    assert_eq!(engine.output(), &vec![3u8, 2u8]);
}

#[test]
fn pointer_moves_left_from_zero_to_one_past_the_tape() {
    let mut engine = Engine::new("<<", "");
    assert_eq!(engine.step(), Event::Executed);
    assert_eq!(engine.pointer(), TAPE_LENGTH);
    assert_eq!(engine.cell(), None);
    assert_eq!(engine.step(), Event::Executed);
    assert_eq!(engine.pointer(), 29999);
    assert_eq!(engine.cell(), Some(0));
}

#[test]
fn pointer_moves_right_from_one_past_the_tape_to_zero() {
    let mut engine = Engine::new("<>", "");
    engine.run(2);
    assert_eq!(engine.pointer(), 0);
    assert_eq!(engine.status(), Status::Finished);
}

#[test]
fn pointer_returns_after_one_more_than_tape_length_moves_left() {
    let mut engine = Engine::new(&"<".repeat(30001), "");
    assert_eq!(engine.run(30000), Status::Running);
    assert_eq!(engine.pointer(), 1);
    assert_eq!(engine.run(1), Status::Finished);
    assert_eq!(engine.pointer(), 0);
}

#[test]
fn off_tape_state_stays_as_it_is() {
    let mut engine = Engine::new("+.<+.", "");
    assert_eq!(engine.run(100), Status::OffTape);
    assert_eq!(engine.position(), 3);
    assert_eq!(engine.pointer(), TAPE_LENGTH);
    assert_eq!(engine.step(), Event::Stopped(Status::OffTape));
    assert_eq!(engine.run(100), Status::OffTape);
    assert_eq!(engine.position(), 3);
    assert_eq!(engine.output(), &vec![1u8]);
    assert_eq!(engine.tape()[0], 1);
}
