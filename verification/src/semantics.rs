use vstd::prelude::*;
use crate::brackets::{balanced, target};
use crate::instruction::{
    DECREMENT, INCREMENT, INPUT, LOOP_CLOSE, LOOP_OPEN, MOVE_LEFT, MOVE_RIGHT, OUTPUT,
};
use crate::error::Error;
use crate::tape::TapeView;

verus! {

/// How a run ended.
#[derive(Clone, Copy, Debug, PartialEq, Eq, Structural)]
pub enum Status {
    /// The program counter reached the end of the program.
    Completed,
    /// An instruction failed; it and those after it did nothing.
    Failed(Error),
    /// The step budget was used up before the program ended.
    Exhausted,
}

/// All that a run has come to at one moment: the position of the next
/// instruction, the tape, how many input bytes were taken and the bytes
/// emitted so far.
pub struct State {
    pub pc: int,
    pub tape: TapeView,
    pub consumed: int,
    pub output: Seq<u8>,
}

impl State {
    /// The state in which every run begins.
    pub open spec fn initial() -> State {
        State { pc: 0, tape: TapeView::fresh(), consumed: 0, output: Seq::empty() }
    }
}

/// What the instruction `op` does to `tape`, and the byte it emits, if any.
/// `incoming` is the byte read for an input instruction, `None` at the end of
/// the input. The brackets leave the tape alone: they only steer.
pub open spec fn effect(op: u8, tape: TapeView, incoming: Option<u8>) -> Result<
    (TapeView, Option<u8>),
    Error,
> {
    if op == MOVE_RIGHT {
        Ok((tape.advance(), None))
    } else if op == MOVE_LEFT {
        if tape.cursor == 0 {
            Err(Error::PointerUnderflow)
        } else {
            Ok((tape.retreat(), None))
        }
    } else if op == INCREMENT {
        Ok((tape.increment(), None))
    } else if op == DECREMENT {
        Ok((tape.decrement(), None))
    } else if op == OUTPUT {
        Ok((tape, Some(tape.current())))
    } else if op == INPUT {
        Ok(
            (
                tape.write(
                    match incoming {
                        Some(b) => b,
                        None => 0u8,
                    },
                ),
                None,
            ),
        )
    } else if op == LOOP_OPEN || op == LOOP_CLOSE {
        Ok((tape, None))
    } else {
        Err(Error::UnexpectedCharacter(op))
    }
}

/// The position of the instruction that follows the one at `pc`, with `cell`
/// the value under the cursor: a loop-open jumps when the cell is zero, a
/// loop-close when it is not, and everything else goes on to the next byte.
pub open spec fn next_pc(code: Seq<u8>, pc: int, cell: u8) -> int {
    if code[pc] == LOOP_OPEN && cell == 0 {
        target(code, pc)
    } else if code[pc] == LOOP_CLOSE && cell != 0 {
        target(code, pc)
    } else {
        pc + 1
    }
}

/// The byte that the instruction at `s.pc` reads: the next unread byte of
/// `input` for an input instruction, as long as there is one.
pub open spec fn incoming(code: Seq<u8>, input: Seq<u8>, s: State) -> Option<u8> {
    if code[s.pc] == INPUT && 0 <= s.consumed < input.len() {
        Some(input[s.consumed])
    } else {
        None
    }
}

/// One instruction of `code`, executed in state `s`.
pub open spec fn step_state(code: Seq<u8>, input: Seq<u8>, s: State) -> Result<State, Error>
    recommends
        0 <= s.pc < code.len(),
{
    match effect(code[s.pc], s.tape, incoming(code, input, s)) {
        Err(e) => Err(e),
        Ok((tape, emitted)) => Ok(
            State {
                pc: next_pc(code, s.pc, tape.current()),
                tape,
                consumed: if incoming(code, input, s) is Some {
                    s.consumed + 1
                } else {
                    s.consumed
                },
                output: match emitted {
                    Some(b) => s.output.push(b),
                    None => s.output,
                },
            },
        ),
    }
}

/// The run of `code` from state `s` on, for `fuel` instructions at most. A
/// failing instruction ends the run in the state it found.
pub open spec fn run_from(code: Seq<u8>, input: Seq<u8>, s: State, fuel: nat) -> (Status, State)
    decreases fuel,
{
    if s.pc >= code.len() {
        (Status::Completed, s)
    } else if fuel == 0 {
        (Status::Exhausted, s)
    } else {
        match step_state(code, input, s) {
            Err(e) => (Status::Failed(e), s),
            Ok(t) => run_from(code, input, t, (fuel - 1) as nat),
        }
    }
}

/// The whole run of `code` on `input`, for `fuel` instructions at most. A
/// program whose brackets do not pair up never starts.
pub open spec fn run_spec(code: Seq<u8>, input: Seq<u8>, fuel: nat) -> (Status, State) {
    if balanced(code) {
        run_from(code, input, State::initial(), fuel)
    } else {
        (Status::Failed(Error::UnbalancedBrackets), State::initial())
    }
}

/// A run that ends on its own ends the same way under any larger budget.
pub proof fn lemma_budget_spare(code: Seq<u8>, input: Seq<u8>, s: State, fuel: nat, more: nat)
    requires
        run_from(code, input, s, fuel).0 != Status::Exhausted,
    ensures
        run_from(code, input, s, fuel + more) == run_from(code, input, s, fuel),
    decreases fuel,
{
    if s.pc < code.len() && fuel > 0 {
        match step_state(code, input, s) {
            Err(e) => {},
            Ok(t) => {
                lemma_budget_spare(code, input, t, (fuel - 1) as nat, more);
                assert((fuel + more - 1) as nat == (fuel - 1) as nat + more);
            },
        }
    }
}

/// A run only appends to the output and only takes from the input: what was
/// emitted before it is the beginning of what is emitted after it, and the
/// count of bytes taken does not go down.
pub proof fn lemma_run_appends(code: Seq<u8>, input: Seq<u8>, s: State, fuel: nat)
    ensures
        s.output.len() <= run_from(code, input, s, fuel).1.output.len(),
        run_from(code, input, s, fuel).1.output.subrange(0, s.output.len() as int) == s.output,
        s.consumed <= run_from(code, input, s, fuel).1.consumed,
    decreases fuel,
{
    let end = run_from(code, input, s, fuel).1;
    if s.pc < code.len() && fuel > 0 {
        match step_state(code, input, s) {
            Err(e) => {},
            Ok(t) => {
                lemma_run_appends(code, input, t, (fuel - 1) as nat);
                assert(end.output.subrange(0, s.output.len() as int) =~= t.output.subrange(
                    0,
                    s.output.len() as int,
                ));
                assert(t.output.subrange(0, s.output.len() as int) =~= s.output);
            },
        }
    }
    assert(end.output.subrange(0, s.output.len() as int) =~= s.output);
}

} // verus!
