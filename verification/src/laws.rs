//! Library-wide laws, proved once and for all inputs: what a build depends
//! on, that building is deterministic, and what a pure increment-and-output
//! program leaves on the output.

use vstd::prelude::*;
use vstd::arithmetic::div_mod::lemma_add_mod_noop;
use vstd::arithmetic::div_mod::lemma_fundamental_div_mod;
use vstd::arithmetic::div_mod::lemma_mod_bound;
use vstd::arithmetic::div_mod::lemma_mod_multiples_vanish;
use vstd::arithmetic::div_mod::lemma_mod_self_0;
use vstd::arithmetic::div_mod::lemma_small_mod;
use crate::brackets::bad_at;
use crate::brackets::well_bracketed;
use crate::builder::build_result_matches;
use crate::builder::commands_of;
use crate::builder::err_msg_at;
use crate::builder::spec_tokens;
use crate::builder::token_at;
use crate::errors::BuildError;
use crate::interp::StepResult;
use crate::interp::VmState;
use crate::interp::reaches;
use crate::interp::run_to;
use crate::interp::start_state;
use crate::interp::step;
use crate::machine::Machine;
use crate::machine::TAPE_LEN;
use crate::machine::cell_byte;
use crate::machine::wrap_inc;
use crate::tokens::BfToken;
use crate::tokens::Program;

verus! {

/// Non-command characters are no-ops: two sources with the same command
/// sequences build to structurally identical results — the same resolved
/// program, or errors with the same message.  Arbitrary filler between the
/// commands can therefore never change what a built program does.
pub proof fn lemma_build_depends_on_commands_alone(
    code1: Seq<char>,
    code2: Seq<char>,
    r1: Result<Program, BuildError>,
    r2: Result<Program, BuildError>,
)
    requires
        commands_of(code1) == commands_of(code2),
        build_result_matches(commands_of(code1), r1),
        build_result_matches(commands_of(code2), r2),
    ensures
        r1 is Ok <==> r2 is Ok,
        r1 is Ok ==> r1->Ok_0@ == r2->Ok_0@,
        r1 is Err ==> r1->Err_0@ == r2->Err_0@,
{
    let cmds = commands_of(code1);
    if r1 is Err && r2 is Err {
        let e1 = r1->Err_0;
        let e2 = r2->Err_0;
        let k1 = choose|k: int|
            {
                &&& 0 <= k < cmds.len()
                &&& #[trigger] bad_at(cmds, k)
                &&& forall|k2: int| 0 <= k2 < k ==> !#[trigger] bad_at(cmds, k2)
                &&& e1@ == err_msg_at(cmds, k)
            };
        let k2 = choose|k: int|
            {
                &&& 0 <= k < cmds.len()
                &&& #[trigger] bad_at(cmds, k)
                &&& forall|k2: int| 0 <= k2 < k ==> !#[trigger] bad_at(cmds, k2)
                &&& e2@ == err_msg_at(cmds, k)
            };
        if k1 < k2 {
            assert(!bad_at(cmds, k1));
        } else if k2 < k1 {
            assert(!bad_at(cmds, k2));
        }
        assert(k1 == k2);
    }
}

/// Building the same source twice yields structurally identical results:
/// the same instruction sequence with the same resolved targets, or the
/// same error.
pub proof fn lemma_build_deterministic(
    code: Seq<char>,
    r1: Result<Program, BuildError>,
    r2: Result<Program, BuildError>,
)
    requires
        build_result_matches(commands_of(code), r1),
        build_result_matches(commands_of(code), r2),
    ensures
        r1 is Ok <==> r2 is Ok,
        r1 is Ok ==> r1->Ok_0@ == r2->Ok_0@,
        r1 is Err ==> r1->Err_0@ == r2->Err_0@,
{
    lemma_build_depends_on_commands_alone(code, code, r1, r2);
}

/// The two's-complement value a cell holds after being incremented `k`
/// times from zero.
pub open spec fn signed_cell(k: int) -> int {
    let m = k % 0x1_0000_0000;
    if m < 0x8000_0000 {
        m
    } else {
        m - 0x1_0000_0000
    }
}

/// The tape after the first cell was incremented `k` times from fresh.
pub open spec fn inc_mem(k: nat) -> Seq<i32> {
    Seq::new(
        TAPE_LEN as nat,
        |i: int|
            if i == 0 {
                signed_cell(k as int) as i32
            } else {
                0i32
            },
    )
}

/// The snapshot after `done` increments of an increment-only program.
pub open spec fn inc_state(done: nat) -> VmState {
    VmState { mem: inc_mem(done), dp: 0, ip: done as int, in_pos: 0, out: Seq::empty() }
}

/// The command sequence of `n` increments followed by one output.
pub open spec fn inc_out_cmds(n: nat) -> Seq<char> {
    Seq::new(n, |i: int| '+').push('.')
}

/// The program of `n` increments followed by one output.
pub open spec fn inc_out_prog(n: nat) -> Seq<BfToken> {
    Seq::new(n, |i: int| BfToken::IncrementCurrent).push(BfToken::OutputByte)
}

proof fn lemma_signed_cell_inc(k: nat)
    ensures
        i32::MIN <= signed_cell(k as int) <= i32::MAX,
        wrap_inc(signed_cell(k as int)) == signed_cell(k as int + 1),
{
    let big = 0x1_0000_0000int;
    lemma_mod_bound(k as int, big);
    lemma_mod_bound(k as int + 1, big);
    lemma_small_mod(1nat, big as nat);
    lemma_add_mod_noop(k as int, 1, big);
    let m = k as int % big;
    if m + 1 < big {
        lemma_small_mod((m + 1) as nat, big as nat);
        assert((k as int + 1) % big == m + 1);
    } else {
        assert(m == big - 1);
        lemma_mod_self_0(big);
        assert((k as int + 1) % big == 0);
    }
}

proof fn lemma_signed_cell_byte(n: nat)
    ensures
        cell_byte(signed_cell(n as int)) == n as int % 256,
{
    let big = 0x1_0000_0000int;
    lemma_fundamental_div_mod(n as int, big);
    let q = n as int / big;
    let m = n as int % big;
    if m < 0x8000_0000 {
        lemma_mod_multiples_vanish(-0x1000000 * q, n as int, 256);
        assert(256 * (-0x1000000 * q) + n as int == m) by (nonlinear_arith)
            requires
                n as int == big * q + m,
                big == 0x1_0000_0000int,
        ;
    } else {
        lemma_mod_multiples_vanish(-0x1000000 * (q + 1), n as int, 256);
        assert(256 * (-0x1000000 * (q + 1)) + n as int == m - big) by (nonlinear_arith)
            requires
                n as int == big * q + m,
                big == 0x1_0000_0000int,
        ;
    }
}

proof fn lemma_inc_run(n: nat, inputs: Seq<i32>, k: nat)
    requires
        k <= n,
    ensures
        run_to(inc_out_prog(n), inputs, inc_state(0), k) == StepResult::Running(inc_state(k)),
    decreases k,
{
    let prog = inc_out_prog(n);
    if k > 0 {
        let k1 = (k - 1) as nat;
        lemma_inc_run(n, inputs, k1);
        let s = inc_state(k1);
        assert(prog[k1 as int] == BfToken::IncrementCurrent);
        lemma_signed_cell_inc(k1);
        assert(s.mem[0] as int == signed_cell(k1 as int));
        let nxt = VmState {
            mem: s.mem.update(s.dp, wrap_inc(s.mem[s.dp] as int) as i32),
            ip: s.ip + 1,
            ..s
        };
        assert(step(prog, inputs, s) == StepResult::Running(nxt));
        assert(nxt.mem =~= inc_mem(k));
        assert(nxt =~= inc_state(k));
    }
}

/// Round trip of a value through the tape: a program of `n` cell
/// increments followed by one output is well bracketed, builds to exactly
/// those instructions, and, run on a fresh machine, halts with exactly one
/// emitted byte: `n` modulo 256 (increments wrap, and the output byte is
/// the cell modulo 256).
pub proof fn lemma_increment_round_trip(n: nat, inputs: Seq<i32>, m: Machine)
    requires
        m.memory@ == Seq::new(TAPE_LEN as nat, |i: int| 0i32),
        m.data_ptr == 0,
        m.instruction_ptr == 0,
    ensures
        well_bracketed(inc_out_cmds(n)),
        spec_tokens(inc_out_cmds(n)) =~= inc_out_prog(n),
        exists|s: VmState|
            {
                &&& #[trigger] reaches(
                    inc_out_prog(n),
                    inputs,
                    start_state(m),
                    StepResult::Done(s),
                )
                &&& s.out =~= seq![(n % 256) as u8]
            },
{
    let cmds = inc_out_cmds(n);
    let prog = inc_out_prog(n);
    assert forall|k: int| 0 <= k < cmds.len() implies #[trigger] cmds[k] != '[' && cmds[k]
        != ']' by {
        if k < n {
            assert(cmds[k] == '+');
        } else {
            assert(cmds[k] == '.');
        }
    }
    assert forall|i: int| 0 <= i < cmds.len() implies #[trigger] token_at(cmds, i) == prog[i] by {
        if i < n {
            assert(cmds[i] == '+');
        } else {
            assert(cmds[i] == '.');
        }
    }
    assert(spec_tokens(cmds) =~= prog);
    lemma_small_mod(0nat, 0x1_0000_0000nat);
    assert(signed_cell(0) == 0);
    assert(start_state(m) =~= inc_state(0));
    lemma_inc_run(n, inputs, n);
    let s = inc_state(n);
    lemma_signed_cell_inc(n);
    lemma_signed_cell_byte(n);
    lemma_mod_bound(n as int, 256);
    assert(prog[n as int] == BfToken::OutputByte);
    assert(s.mem[0] as int == signed_cell(n as int));
    let nxt = VmState { out: s.out.push(cell_byte(s.mem[s.dp] as int) as u8), ip: s.ip + 1, ..s };
    assert(step(prog, inputs, s) == StepResult::Running(nxt));
    assert(run_to(prog, inputs, inc_state(0), n + 1) == StepResult::Running(nxt));
    assert(run_to(prog, inputs, inc_state(0), n + 2) == StepResult::Done(nxt));
    assert(reaches(prog, inputs, start_state(m), StepResult::Done(nxt)));
    assert(nxt.out =~= seq![(n % 256) as u8]);
}

} // verus!
