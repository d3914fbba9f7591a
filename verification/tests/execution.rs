use tape_machine::error::Error;
use tape_machine::machine::Machine;
use tape_machine::semantics::Status;

const PLENTY: u64 = 1_000_000;

#[test]
fn two_increments_then_output() {
    let r = Machine::run(b"++.", b"", PLENTY);
    assert_eq!(r.status, Status::Completed);
    assert_eq!(r.output, vec![2u8]);
    let text: String = r.output.iter().map(|b| *b as char).collect();
    assert_eq!(text.chars().count(), 1);
    assert_eq!(text.chars().next().map(|c| c as u32), Some(2));
}

#[test]
fn output_of_second_cell() {
    let r = Machine::run(b"++>+.", b"", PLENTY);
    assert_eq!(r.status, Status::Completed);
    assert_eq!(r.output, vec![1u8]);
    assert_eq!(r.tape.position(), 1);
    assert_eq!(r.tape.cell(0), Some(2));
    assert_eq!(r.tape.cell(1), Some(1));
    assert_eq!(r.tape.len(), 2);
    assert_eq!(r.pc, 5);
}

#[test]
fn clearing_loop_terminates_at_zero() {
    let r = Machine::run(b"+[-]", b"", PLENTY);
    assert_eq!(r.status, Status::Completed);
    assert_eq!(r.tape.read(), 0);
    assert_eq!(r.tape.position(), 0);
    assert_eq!(r.output, Vec::<u8>::new());
}

#[test]
fn clearing_loop_runs_once_per_count() {
    let r = Machine::run(b"+++[-.]", b"", PLENTY);
    assert_eq!(r.status, Status::Completed);
    assert_eq!(r.output, vec![2u8, 1, 0]);
}

#[test]
fn lone_close_is_unbalanced() {
    let r = Machine::run(b"]", b"", PLENTY);
    assert_eq!(r.status, Status::Failed(Error::UnbalancedBrackets));
    assert_eq!(r.output, Vec::<u8>::new());
}

#[test]
fn unbalanced_program_executes_nothing() {
    for code in [&b"+.["[..], &b"+.]"[..], &b"+.]["[..], &b"+.[[]"[..], &b"+.[]]"[..]] {
        let r = Machine::run(code, b"x", PLENTY);
        assert_eq!(r.status, Status::Failed(Error::UnbalancedBrackets));
        assert_eq!(r.output, Vec::<u8>::new());
        assert_eq!(r.pc, 0);
        assert_eq!(r.consumed, 0);
        assert_eq!(r.tape.len(), 1);
        assert_eq!(r.tape.read(), 0);
    }
}

#[test]
fn unexpected_character_stops_the_run() {
    let r = Machine::run(b"+q.", b"", PLENTY);
    assert_eq!(r.status, Status::Failed(Error::UnexpectedCharacter(b'q')));
    assert_eq!(r.output, Vec::<u8>::new());
    assert_eq!(r.pc, 1);
    assert_eq!(r.tape.read(), 1);
}

#[test]
fn unexpected_character_after_plus() {
    let r = Machine::run(b"+q", b"", PLENTY);
    assert_eq!(r.status, Status::Failed(Error::UnexpectedCharacter(113)));
    assert_eq!(r.output, Vec::<u8>::new());
}

#[test]
fn output_before_a_failure_stands() {
    let r = Machine::run(b"+.+.<.", b"", PLENTY);
    assert_eq!(r.status, Status::Failed(Error::PointerUnderflow));
    assert_eq!(r.output, vec![1u8, 2]);
    assert_eq!(r.pc, 4);
}

#[test]
fn move_left_at_first_cell_underflows() {
    let r = Machine::run(b"+++<", b"", PLENTY);
    assert_eq!(r.status, Status::Failed(Error::PointerUnderflow));
    assert_eq!(r.tape.position(), 0);
    assert_eq!(r.tape.read(), 3);
    assert_eq!(r.tape.len(), 1);
    assert_eq!(r.pc, 3);
}

#[test]
fn move_left_after_move_right_is_fine() {
    let r = Machine::run(b"+>++<.", b"", PLENTY);
    assert_eq!(r.status, Status::Completed);
    assert_eq!(r.output, vec![1u8]);
    assert_eq!(r.tape.position(), 0);
    assert_eq!(r.tape.cell(1), Some(2));
}

#[test]
fn empty_program_completes() {
    let r = Machine::run(b"", b"abc", PLENTY);
    assert_eq!(r.status, Status::Completed);
    assert_eq!(r.output, Vec::<u8>::new());
    assert_eq!(r.pc, 0);
    assert_eq!(r.consumed, 0);
    assert_eq!(r.tape.len(), 1);
}

#[test]
fn empty_program_completes_without_budget() {
    let r = Machine::run(b"", b"", 0);
    assert_eq!(r.status, Status::Completed);
}

#[test]
fn decrement_of_zero_outputs_255() {
    let r = Machine::run(b"-.", b"", PLENTY);
    assert_eq!(r.status, Status::Completed);
    assert_eq!(r.output, vec![255u8]);
}

#[test]
fn increment_of_255_outputs_zero() {
    let r = Machine::run(b"-+.", b"", PLENTY);
    assert_eq!(r.status, Status::Completed);
    assert_eq!(r.output, vec![0u8]);
}

#[test]
fn loop_is_skipped_on_zero_cell() {
    let r = Machine::run(b"[+.]>+.", b"", PLENTY);
    assert_eq!(r.status, Status::Completed);
    assert_eq!(r.output, vec![1u8]);
    assert_eq!(r.tape.cell(0), Some(0));
}

#[test]
fn nested_loops_multiply() {
    let r = Machine::run(b"++[>+++[>++++<-]<-]>>.", b"", PLENTY);
    assert_eq!(r.status, Status::Completed);
    assert_eq!(r.output, vec![24u8]);
    assert_eq!(r.tape.position(), 2);
}

#[test]
fn multiplication_loop_prints_letter() {
    let r = Machine::run(b"++++++++[>++++++++<-]>+.", b"", PLENTY);
    assert_eq!(r.status, Status::Completed);
    assert_eq!(r.output, vec![b'A']);
}

#[test]
fn input_is_read_byte_by_byte() {
    let r = Machine::run(b",.,.", b"hi!", PLENTY);
    assert_eq!(r.status, Status::Completed);
    assert_eq!(r.output, b"hi".to_vec());
    assert_eq!(r.consumed, 2);
}

#[test]
fn input_is_incremented_before_output() {
    let r = Machine::run(b",+.", b"a", PLENTY);
    assert_eq!(r.status, Status::Completed);
    assert_eq!(r.output, vec![b'b']);
}

#[test]
fn end_of_input_sets_cell_to_zero() {
    let r = Machine::run(b"+++,.", b"", PLENTY);
    assert_eq!(r.status, Status::Completed);
    assert_eq!(r.output, vec![0u8]);
    assert_eq!(r.consumed, 0);
}

#[test]
fn echo_until_end_of_input() {
    let r = Machine::run(b",[.,]", b"tape", PLENTY);
    assert_eq!(r.status, Status::Completed);
    assert_eq!(r.output, b"tape".to_vec());
    assert_eq!(r.consumed, 4);
    assert_eq!(r.tape.read(), 0);
}

#[test]
fn endless_loop_exhausts_the_budget() {
    let r = Machine::run(b"+[]", b"", 10);
    assert_eq!(r.status, Status::Exhausted);
    assert_eq!(r.tape.read(), 1);
    assert_eq!(r.pc, 2);
}

#[test]
fn budget_counts_instructions() {
    let r = Machine::run(b"+++.", b"", 3);
    assert_eq!(r.status, Status::Exhausted);
    assert_eq!(r.pc, 3);
    assert_eq!(r.output, Vec::<u8>::new());
    let r = Machine::run(b"+++.", b"", 4);
    assert_eq!(r.status, Status::Completed);
    assert_eq!(r.output, vec![3u8]);
}

#[test]
fn failure_is_not_reached_without_budget() {
    let r = Machine::run(b"+q", b"", 1);
    assert_eq!(r.status, Status::Exhausted);
    assert_eq!(r.pc, 1);
}
