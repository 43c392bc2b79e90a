//! The interpreter: a small-step semantics over ghost machine snapshots,
//! and the dispatch loop, verified to follow it step by step.
//!
//! Whatever `run` returns is a state the semantics reaches from the
//! starting snapshot.  Moving the data pointer off either end of the tape
//! is a run error (the chosen bounds policy is fail-fast, never silent
//! wrap-around), cell arithmetic wraps, and an input instruction that
//! cannot be served with a value is a run error naming the instruction.
//! Every run carries a step budget, so the loop provably terminates; a
//! program still running when the budget ends fails with the step-limit
//! error.

use vstd::prelude::*;
use vstd::string::*;
use crate::builder::BFI;
use crate::decimal::push_dec;
use crate::errors::RunError;
use crate::errors::msg_input_failure;
use crate::errors::msg_pointer_overflow;
use crate::errors::msg_pointer_underflow;
use crate::errors::msg_step_limit;
use crate::machine::Machine;
use crate::machine::TAPE_LEN;
use crate::machine::cell_byte;
use crate::machine::cell_dec;
use crate::machine::cell_inc;
use crate::machine::cell_to_byte;
use crate::machine::wrap_dec;
use crate::machine::wrap_inc;
use crate::tokens::BfToken;
use crate::tokens::Program;

verus! {

/// A snapshot of an execution: the tape, the two pointers, how many input
/// values have been consumed, and the bytes emitted so far.
#[verifier::ext_equal]
pub struct VmState {
    pub mem: Seq<i32>,
    pub dp: int,
    pub ip: int,
    pub in_pos: int,
    pub out: Seq<u8>,
}

/// What one step of the semantics yields: a next snapshot, successful
/// termination, or a fatal error with its message.
pub enum StepResult {
    Running(VmState),
    Done(VmState),
    Failed(VmState, Seq<char>),
}

/// One step of the semantics.  With the instruction pointer past the end
/// of the program the run is complete; otherwise the current instruction
/// acts and the instruction pointer advances by one, except for taken
/// jumps, which set it to their resolved target directly.
pub open spec fn step(prog: Seq<BfToken>, inputs: Seq<i32>, s: VmState) -> StepResult {
    if !(0 <= s.ip < prog.len()) {
        StepResult::Done(s)
    } else {
        match prog[s.ip] {
            BfToken::IncermentDataPtr => if s.dp + 1 < TAPE_LEN as int {
                StepResult::Running(VmState { dp: s.dp + 1, ip: s.ip + 1, ..s })
            } else {
                StepResult::Failed(s, msg_pointer_overflow(s.ip as nat))
            },
            BfToken::DecrementDataPtr => if s.dp >= 1 {
                StepResult::Running(VmState { dp: s.dp - 1, ip: s.ip + 1, ..s })
            } else {
                StepResult::Failed(s, msg_pointer_underflow(s.ip as nat))
            },
            BfToken::IncrementCurrent => StepResult::Running(
                VmState { mem: s.mem.update(s.dp, wrap_inc(s.mem[s.dp] as int) as i32), ip: s.ip + 1, ..s },
            ),
            BfToken::DecrementCurrent => StepResult::Running(
                VmState { mem: s.mem.update(s.dp, wrap_dec(s.mem[s.dp] as int) as i32), ip: s.ip + 1, ..s },
            ),
            BfToken::OutputByte => StepResult::Running(
                VmState { out: s.out.push(cell_byte(s.mem[s.dp] as int) as u8), ip: s.ip + 1, ..s },
            ),
            BfToken::InputByte => if s.in_pos < inputs.len() {
                StepResult::Running(
                    VmState {
                        mem: s.mem.update(s.dp, inputs[s.in_pos]),
                        in_pos: s.in_pos + 1,
                        ip: s.ip + 1,
                        ..s
                    },
                )
            } else {
                StepResult::Failed(s, msg_input_failure(s.ip as nat))
            },
            BfToken::JumpStart(target) => if s.mem[s.dp] == 0 {
                StepResult::Running(VmState { ip: target as int, ..s })
            } else {
                StepResult::Running(VmState { ip: s.ip + 1, ..s })
            },
            BfToken::JumpEnd(target) => if s.mem[s.dp] != 0 {
                StepResult::Running(VmState { ip: target as int, ..s })
            } else {
                StepResult::Running(VmState { ip: s.ip + 1, ..s })
            },
        }
    }
}

/// The semantics iterated `n` times from `s0`; termination and failure are
/// absorbing.
pub open spec fn run_to(prog: Seq<BfToken>, inputs: Seq<i32>, s0: VmState, n: nat) -> StepResult
    decreases n,
{
    if n == 0 {
        StepResult::Running(s0)
    } else {
        match run_to(prog, inputs, s0, (n - 1) as nat) {
            StepResult::Running(s) => step(prog, inputs, s),
            r => r,
        }
    }
}

/// Some number of steps from `s0` yields `r`.
pub open spec fn reaches(
    prog: Seq<BfToken>,
    inputs: Seq<i32>,
    s0: VmState,
    r: StepResult,
) -> bool {
    exists|n: nat| run_to(prog, inputs, s0, n) == r
}

/// Once a run has finished or failed, further steps change nothing.
pub proof fn lemma_run_to_absorbing(
    prog: Seq<BfToken>,
    inputs: Seq<i32>,
    s0: VmState,
    n: nat,
    m: nat,
)
    requires
        n <= m,
        !(run_to(prog, inputs, s0, n) is Running),
    ensures
        run_to(prog, inputs, s0, m) == run_to(prog, inputs, s0, n),
    decreases m,
{
    if m > n {
        lemma_run_to_absorbing(prog, inputs, s0, n, (m - 1) as nat);
    }
}

/// Execution is deterministic: a run from one snapshot has at most one
/// verdict, so whatever outcome `run` reports is the only one there is.
pub proof fn lemma_outcome_unique(
    prog: Seq<BfToken>,
    inputs: Seq<i32>,
    s0: VmState,
    r1: StepResult,
    r2: StepResult,
)
    requires
        reaches(prog, inputs, s0, r1),
        reaches(prog, inputs, s0, r2),
        !(r1 is Running),
        !(r2 is Running),
    ensures
        r1 == r2,
{
    let n1 = choose|n: nat| run_to(prog, inputs, s0, n) == r1;
    let n2 = choose|n: nat| run_to(prog, inputs, s0, n) == r2;
    if n1 <= n2 {
        lemma_run_to_absorbing(prog, inputs, s0, n1, n2);
    } else {
        lemma_run_to_absorbing(prog, inputs, s0, n2, n1);
    }
}

/// The snapshot a run begins from: the machine as handed in, no input
/// consumed, nothing emitted.
pub open spec fn start_state(m: Machine) -> VmState {
    VmState {
        mem: m.memory@,
        dp: m.data_ptr as int,
        ip: m.instruction_ptr as int,
        in_pos: 0,
        out: Seq::empty(),
    }
}

/// The snapshot's machine part is exactly `m`.
pub open spec fn agrees(s: VmState, m: Machine) -> bool {
    &&& s.mem == m.memory@
    &&& s.dp == m.data_ptr as int
    &&& s.ip == m.instruction_ptr as int
}

impl BFI {
    /// Executes `program` against the caller-owned `machine`, consuming
    /// values of `inputs` in order as the input instruction demands them
    /// and collecting the emitted bytes.
    ///
    /// Whatever comes back — the collected output on success, or an error
    /// naming the offending instruction — is the verdict of the small-step
    /// semantics on the starting snapshot, and the machine is left in the
    /// reached state.  A run performs at most `max_steps` instructions; a
    /// program still running after that many fails with the step-limit
    /// error, so a caller that wants the full budget passes the largest
    /// value.  The collected bytes are what the program emitted; any
    /// trailing newline shown to a user is the presenting caller's to add.
    pub fn run(
        program: &Program,
        machine: &mut Machine,
        inputs: &Vec<i32>,
        max_steps: usize,
    ) -> (r: Result<Vec<u8>, RunError>)
        requires
            old(machine).wf(),
        ensures
            final(machine).wf(),
            match r {
                Ok(out) => exists|s: VmState|
                    {
                        &&& #[trigger] reaches(
                            program@,
                            inputs@,
                            start_state(*old(machine)),
                            StepResult::Done(s),
                        )
                        &&& s.out == out@
                        &&& agrees(s, *final(machine))
                    },
                Err(e) => {
                    ||| exists|s: VmState|
                        {
                            &&& #[trigger] reaches(
                                program@,
                                inputs@,
                                start_state(*old(machine)),
                                StepResult::Failed(s, e@),
                            )
                            &&& agrees(s, *final(machine))
                        }
                    ||| (e@ == msg_step_limit() && exists|s: VmState|
                        {
                            &&& #[trigger] run_to(
                                program@,
                                inputs@,
                                start_state(*old(machine)),
                                max_steps as nat,
                            ) == StepResult::Running(s)
                            &&& agrees(s, *final(machine))
                        })
                },
            },
    {
        let ghost prog = program@;
        let ghost ins = inputs@;
        let ghost s0 = start_state(*old(machine));
        let ghost mut cur: VmState = s0;
        let mut out: Vec<u8> = Vec::new();
        let mut in_pos: usize = 0;
        let mut steps: usize = 0;
        loop
            invariant
                machine.wf(),
                prog == program@,
                ins == inputs@,
                s0 == start_state(*old(machine)),
                in_pos <= inputs.len(),
                steps <= max_steps,
                run_to(prog, ins, s0, steps as nat) == StepResult::Running(cur),
                agrees(cur, *machine),
                cur.in_pos == in_pos as int,
                cur.out == out@,
            decreases max_steps - steps,
        {
            let ghost n = steps as nat;
            if machine.instruction_ptr >= program.len() {
                proof {
                    assert(run_to(prog, ins, s0, n + 1) == StepResult::Done(cur));
                    assert(reaches(prog, ins, s0, StepResult::Done(cur)));
                }
                return Ok(out);
            }
            if steps == max_steps {
                let m = String::from_str("Step limit reached");
                let e = RunError::new(m);
                proof {
                    assert(e@ == msg_step_limit());
                }
                return Err(e);
            }
            let ip = machine.instruction_ptr;
            let dp = machine.data_ptr;
            match program[ip] {
                BfToken::IncermentDataPtr => {
                    if dp + 1 < TAPE_LEN {
                        machine.data_ptr = dp + 1;
                        machine.instruction_ptr = ip + 1;
                        proof {
                            let nxt = VmState { dp: cur.dp + 1, ip: cur.ip + 1, ..cur };
                            assert(step(prog, ins, cur) == StepResult::Running(nxt));
                            assert(run_to(prog, ins, s0, n + 1) == StepResult::Running(nxt));
                            cur = nxt;
                        }
                    } else {
                        let mut m = String::from_str("Data pointer overflow at instruction ");
                        push_dec(ip, &mut m);
                        let e = RunError::new(m);
                        proof {
                            assert(step(prog, ins, cur) == StepResult::Failed(cur, e@));
                            assert(run_to(prog, ins, s0, n + 1) == StepResult::Failed(cur, e@));
                            assert(reaches(prog, ins, s0, StepResult::Failed(cur, e@)));
                        }
                        return Err(e);
                    }
                },
                BfToken::DecrementDataPtr => {
                    if dp >= 1 {
                        machine.data_ptr = dp - 1;
                        machine.instruction_ptr = ip + 1;
                        proof {
                            let nxt = VmState { dp: cur.dp - 1, ip: cur.ip + 1, ..cur };
                            assert(step(prog, ins, cur) == StepResult::Running(nxt));
                            assert(run_to(prog, ins, s0, n + 1) == StepResult::Running(nxt));
                            cur = nxt;
                        }
                    } else {
                        let mut m = String::from_str("Data pointer underflow at instruction ");
                        push_dec(ip, &mut m);
                        let e = RunError::new(m);
                        proof {
                            assert(step(prog, ins, cur) == StepResult::Failed(cur, e@));
                            assert(run_to(prog, ins, s0, n + 1) == StepResult::Failed(cur, e@));
                            assert(reaches(prog, ins, s0, StepResult::Failed(cur, e@)));
                        }
                        return Err(e);
                    }
                },
                BfToken::IncrementCurrent => {
                    let v = machine.memory[dp];
                    let w = cell_inc(v);
                    machine.memory.set(dp, w);
                    machine.instruction_ptr = ip + 1;
                    proof {
                        let nxt = VmState {
                            mem: cur.mem.update(cur.dp, wrap_inc(cur.mem[cur.dp] as int) as i32),
                            ip: cur.ip + 1,
                            ..cur
                        };
                        assert(w == wrap_inc(cur.mem[cur.dp] as int) as i32);
                        assert(step(prog, ins, cur) == StepResult::Running(nxt));
                        assert(run_to(prog, ins, s0, n + 1) == StepResult::Running(nxt));
                        cur = nxt;
                    }
                },
                BfToken::DecrementCurrent => {
                    let v = machine.memory[dp];
                    let w = cell_dec(v);
                    machine.memory.set(dp, w);
                    machine.instruction_ptr = ip + 1;
                    proof {
                        let nxt = VmState {
                            mem: cur.mem.update(cur.dp, wrap_dec(cur.mem[cur.dp] as int) as i32),
                            ip: cur.ip + 1,
                            ..cur
                        };
                        assert(w == wrap_dec(cur.mem[cur.dp] as int) as i32);
                        assert(step(prog, ins, cur) == StepResult::Running(nxt));
                        assert(run_to(prog, ins, s0, n + 1) == StepResult::Running(nxt));
                        cur = nxt;
                    }
                },
                BfToken::OutputByte => {
                    let v = machine.memory[dp];
                    let b = cell_to_byte(v);
                    out.push(b);
                    machine.instruction_ptr = ip + 1;
                    proof {
                        let nxt = VmState {
                            out: cur.out.push(cell_byte(cur.mem[cur.dp] as int) as u8),
                            ip: cur.ip + 1,
                            ..cur
                        };
                        assert(b == cell_byte(cur.mem[cur.dp] as int) as u8);
                        assert(step(prog, ins, cur) == StepResult::Running(nxt));
                        assert(run_to(prog, ins, s0, n + 1) == StepResult::Running(nxt));
                        cur = nxt;
                    }
                },
                BfToken::InputByte => {
                    if in_pos < inputs.len() {
                        let val = inputs[in_pos];
                        machine.memory.set(dp, val);
                        in_pos += 1;
                        machine.instruction_ptr = ip + 1;
                        proof {
                            let nxt = VmState {
                                mem: cur.mem.update(cur.dp, ins[cur.in_pos]),
                                in_pos: cur.in_pos + 1,
                                ip: cur.ip + 1,
                                ..cur
                            };
                            assert(step(prog, ins, cur) == StepResult::Running(nxt));
                            assert(run_to(prog, ins, s0, n + 1) == StepResult::Running(nxt));
                            cur = nxt;
                        }
                    } else {
                        let mut m = String::from_str("User input failure at instruction ");
                        push_dec(ip, &mut m);
                        let e = RunError::new(m);
                        proof {
                            assert(step(prog, ins, cur) == StepResult::Failed(cur, e@));
                            assert(run_to(prog, ins, s0, n + 1) == StepResult::Failed(cur, e@));
                            assert(reaches(prog, ins, s0, StepResult::Failed(cur, e@)));
                        }
                        return Err(e);
                    }
                },
                BfToken::JumpStart(target) => {
                    if machine.memory[dp] == 0 {
                        machine.instruction_ptr = target;
                    } else {
                        machine.instruction_ptr = ip + 1;
                    }
                    proof {
                        let nxt = if cur.mem[cur.dp] == 0 {
                            VmState { ip: target as int, ..cur }
                        } else {
                            VmState { ip: cur.ip + 1, ..cur }
                        };
                        assert(step(prog, ins, cur) == StepResult::Running(nxt));
                        assert(run_to(prog, ins, s0, n + 1) == StepResult::Running(nxt));
                        cur = nxt;
                    }
                },
                BfToken::JumpEnd(target) => {
                    if machine.memory[dp] != 0 {
                        machine.instruction_ptr = target;
                    } else {
                        machine.instruction_ptr = ip + 1;
                    }
                    proof {
                        let nxt = if cur.mem[cur.dp] != 0 {
                            VmState { ip: target as int, ..cur }
                        } else {
                            VmState { ip: cur.ip + 1, ..cur }
                        };
                        assert(step(prog, ins, cur) == StepResult::Running(nxt));
                        assert(run_to(prog, ins, s0, n + 1) == StepResult::Running(nxt));
                        cur = nxt;
                    }
                },
            }
            steps += 1;
        }
    }
}

} // verus!
