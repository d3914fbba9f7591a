use std::collections::HashMap;
use vstd::prelude::*;
use crate::brackets::{
    balanced, delta, depth, is_pair, jumps_wf, lemma_jumps_involutive, pending, settled,
};
use crate::instruction::{
    DECREMENT, INCREMENT, INPUT, LOOP_CLOSE, LOOP_OPEN, MOVE_LEFT, MOVE_RIGHT, OUTPUT,
};
use crate::error::Error;
use crate::semantics::{effect, next_pc, run_from, run_spec, State, Status};
use crate::tape::{Tape, TapeView};

verus! {

/// A program together with the tape it works on, the table of its jump
/// targets and the position of the instruction that comes next.
pub struct Machine {
    pub pc: usize,
    pub tape: Tape,
    pub code: Vec<u8>,
    pub map: HashMap<usize, usize>,
}

impl Machine {
    /// Pairs the loop brackets of `code` and gives each the position just past
    /// its partner. Other bytes are passed over, whatever they are.
    pub fn init_map(code: &[u8]) -> (r: Result<HashMap<usize, usize>, Error>)
        ensures
            r is Ok <==> balanced(code@),
            r matches Ok(map) ==> jumps_wf(code@, map@),
            r matches Err(e) ==> e == Error::UnbalancedBrackets,
    {
        broadcast use vstd::std_specs::hash::group_hash_axioms;

        let mut map: HashMap<usize, usize> = HashMap::new();
        let mut stk: Vec<usize> = Vec::new();
        let mut i: usize = 0;
        while i < code.len()
            invariant
                i <= code.len(),
                stk.len() == depth(code@, i as int),
                forall|k: int| 0 <= k <= i ==> #[trigger] depth(code@, k) >= 0,
                forall|s: int|
                    0 <= s < stk.len() ==> pending(code@, (#[trigger] stk@[s]) as int, s, i as int),
                forall|p: int| 0 <= p < i ==> #[trigger] settled(code@, map@, stk@, p, i as int),
                forall|p: usize| #[trigger]
                    map@.contains_key(p) ==> p < i && delta(code@[p as int]) != 0,
            decreases code.len() - i,
        {
            let c: u8 = code[i];
            let ghost old_stk = stk@;
            let ghost old_map = map@;
            if c == LOOP_OPEN {
                stk.push(i);
            } else if c == LOOP_CLOSE {
                match stk.pop() {
                    Some(j) => {
                        proof {
                            let top = old_stk.len() - 1;
                            assert(pending(code@, old_stk[top] as int, top, i as int));
                            assert(is_pair(code@, j as int, i as int));
                        }
                        map.insert(i, j + 1);
                        map.insert(j, i + 1);
                    },
                    None => {
                        return Err(Error::UnbalancedBrackets);
                    },
                }
            }
            proof {
                assert forall|s: int| 0 <= s < stk.len() implies pending(
                    code@,
                    (#[trigger] stk@[s]) as int,
                    s,
                    i + 1,
                ) by {
                    if s < old_stk.len() {
                        assert(pending(code@, old_stk[s] as int, s, i as int));
                    }
                }
                assert forall|p: int| 0 <= p < i + 1 implies #[trigger] settled(
                    code@,
                    map@,
                    stk@,
                    p,
                    i + 1,
                ) by {
                    if p < i {
                        assert(settled(code@, old_map, old_stk, p, i as int));
                    }
                }
            }
            i += 1;
        }
        if stk.is_empty() {
            proof {
                assert forall|p: usize| p < code@.len() && delta(code@[p as int]) != 0 implies #[trigger]
                    map@.contains_key(p) by {
                    assert(settled(code@, map@, stk@, p as int, i as int));
                }
                assert forall|p: usize| p < code@.len() && code@[p as int] == LOOP_OPEN implies is_pair(
                    code@,
                    p as int,
                    (#[trigger] map@[p]) - 1,
                ) by {
                    assert(settled(code@, map@, stk@, p as int, i as int));
                }
                assert forall|p: usize| p < code@.len() && code@[p as int] == LOOP_CLOSE implies is_pair(
                    code@,
                    (#[trigger] map@[p]) - 1,
                    p as int,
                ) by {
                    assert(settled(code@, map@, stk@, p as int, i as int));
                }
            }
            Ok(map)
        } else {
            Err(Error::UnbalancedBrackets)
        }
    }

    /// The tape is sound, the program counter is within the program or just
    /// past it, and the table holds the jump targets of the program.
    pub open spec fn wf(&self) -> bool {
        &&& self.tape.wf()
        &&& self.pc <= self.code@.len()
        &&& jumps_wf(self.code@, self.map@)
    }

    /// A machine about to execute the first instruction of `code` on a fresh
    /// tape, unless the brackets of `code` do not pair up.
    pub fn new(code: &[u8]) -> (r: Result<Machine, Error>)
        ensures
            r is Ok <==> balanced(code@),
            r matches Ok(m) ==> m.wf() && m.pc == 0 && m.code@ == code@ && m.tape@
                == TapeView::fresh(),
            r matches Err(e) ==> e == Error::UnbalancedBrackets,
    {
        match Machine::init_map(code) {
            Ok(map) => Ok(
                Machine { pc: 0, tape: Tape::new(), code: vstd::slice::slice_to_vec(code), map },
            ),
            Err(e) => Err(e),
        }
    }

    /// Whether the program counter has left the program.
    pub fn halted(&self) -> (r: bool)
        ensures
            r == (self.pc >= self.code@.len()),
    {
        self.pc >= self.code.len()
    }

    /// Whether the next instruction reads a byte.
    pub fn awaits_input(&self) -> (r: bool)
        ensures
            r == (self.pc < self.code@.len() && self.code@[self.pc as int] == INPUT),
    {
        self.pc < self.code.len() && self.code[self.pc] == INPUT
    }

    /// Applies the instruction at the program counter to the tape and returns
    /// the byte it emits, if any. `incoming` is the byte read for an input
    /// instruction, `None` at the end of the input; other instructions do not
    /// look at it. The program counter stays where it is. A failing
    /// instruction changes nothing.
    pub fn step(&mut self, incoming: Option<u8>) -> (r: Result<Option<u8>, Error>)
        requires
            old(self).wf(),
            old(self).pc < old(self).code@.len(),
        ensures
            final(self).wf(),
            final(self).pc == old(self).pc,
            final(self).code == old(self).code,
            final(self).map == old(self).map,
            match effect(old(self).code@[old(self).pc as int], old(self).tape@, incoming) {
                Ok((tape, emitted)) => r == Ok::<Option<u8>, Error>(emitted) && final(self).tape@
                    == tape,
                Err(e) => r == Err::<Option<u8>, Error>(e) && final(self).tape@ == old(self).tape@,
            },
    {
        let op: u8 = self.code[self.pc];
        if op == MOVE_RIGHT {
            self.tape.advance();
            Ok(None)
        } else if op == MOVE_LEFT {
            match self.tape.retreat() {
                Ok(()) => Ok(None),
                Err(e) => Err(e),
            }
        } else if op == INCREMENT {
            self.tape.increment();
            Ok(None)
        } else if op == DECREMENT {
            self.tape.decrement();
            Ok(None)
        } else if op == OUTPUT {
            Ok(Some(self.tape.read()))
        } else if op == INPUT {
            match incoming {
                Some(b) => self.tape.write(b),
                None => self.tape.write(0u8),
            }
            Ok(None)
        } else if op == LOOP_OPEN || op == LOOP_CLOSE {
            Ok(None)
        } else {
            Err(Error::UnexpectedCharacter(op))
        }
    }

    /// The position of the instruction to execute after the one at the
    /// program counter.
    pub fn next(&self) -> (r: usize)
        requires
            self.wf(),
            self.pc < self.code@.len(),
        ensures
            r == next_pc(self.code@, self.pc as int, self.tape@.current()),
            r <= self.code@.len(),
    {
        broadcast use vstd::std_specs::hash::group_hash_axioms;

        let n: usize = self.code.len();
        let op: u8 = self.code[self.pc];
        let cell: u8 = self.tape.read();
        if (op == LOOP_OPEN && cell == 0) || (op == LOOP_CLOSE && cell != 0) {
            proof {
                lemma_jumps_involutive(self.code@, self.map@, self.pc);
            }
            match self.map.get(&self.pc) {
                Some(t) => *t,
                None => self.pc + 1,
            }
        } else {
            self.pc + 1
        }
    }

    /// Executes `code` from its first instruction on a fresh tape, with
    /// `input` as the bytes that its input instructions read, until the
    /// program ends, an instruction fails or `max_steps` instructions have
    /// been executed.
    pub fn run(code: &[u8], input: &[u8], max_steps: u64) -> (r: Execution)
        ensures
            (r.status, r.state()) == run_spec(code@, input@, max_steps as nat),
            r.tape.wf(),
            !balanced(code@) ==> r.status == Status::Failed(Error::UnbalancedBrackets)
                && r.output@.len() == 0 && r.tape@ == TapeView::fresh(),
            r.status == Status::Completed ==> r.pc == code@.len(),
            r.consumed <= input@.len(),
    {
        let mut machine = match Machine::new(code) {
            Ok(m) => m,
            Err(e) => {
                return Execution {
                    status: Status::Failed(e),
                    pc: 0,
                    tape: Tape::new(),
                    consumed: 0,
                    output: Vec::new(),
                };
            },
        };
        let mut consumed: usize = 0;
        let mut output: Vec<u8> = Vec::new();
        let mut steps: u64 = 0;
        while machine.pc < machine.code.len() && steps < max_steps
            invariant
                machine.wf(),
                machine.code@ == code@,
                balanced(code@),
                consumed <= input@.len(),
                steps <= max_steps,
                run_from(code@, input@, State::initial(), max_steps as nat) == run_from(
                    code@,
                    input@,
                    State {
                        pc: machine.pc as int,
                        tape: machine.tape@,
                        consumed: consumed as int,
                        output: output@,
                    },
                    (max_steps - steps) as nat,
                ),
            decreases max_steps - steps,
        {
            let mut incoming: Option<u8> = None;
            if machine.awaits_input() && consumed < input.len() {
                incoming = Some(input[consumed]);
            }
            match machine.step(incoming) {
                Ok(emitted) => {
                    if incoming.is_some() {
                        consumed = consumed + 1;
                    }
                    match emitted {
                        Some(b) => {
                            output.push(b);
                        },
                        None => {},
                    }
                },
                Err(e) => {
                    return Execution {
                        status: Status::Failed(e),
                        pc: machine.pc,
                        tape: machine.tape,
                        consumed,
                        output,
                    };
                },
            }
            machine.pc = machine.next();
            steps = steps + 1;
        }
        let status = if machine.pc < machine.code.len() {
            Status::Exhausted
        } else {
            Status::Completed
        };
        Execution { status, pc: machine.pc, tape: machine.tape, consumed, output }
    }
}

/// What a run left behind: how it ended, where the program counter stood,
/// the tape, the number of input bytes taken and the bytes emitted.
pub struct Execution {
    pub status: Status,
    pub pc: usize,
    pub tape: Tape,
    pub consumed: usize,
    pub output: Vec<u8>,
}

impl Execution {
    /// The state in which the run ended.
    pub open spec fn state(&self) -> State {
        State {
            pc: self.pc as int,
            tape: self.tape@,
            consumed: self.consumed as int,
            output: self.output@,
        }
    }
}

} // verus!
