//! The machine state the interpreter mutates: a bounded tape of cells and a
//! data pointer, plus the instruction pointer.

use vstd::prelude::*;
use vstd::arithmetic::div_mod::lemma_fundamental_div_mod;
use vstd::arithmetic::div_mod::lemma_fundamental_div_mod_converse;
use vstd::arithmetic::div_mod::lemma_mod_multiples_basic;

verus! {

/// Number of cells on the tape.
pub const TAPE_LEN: usize = 30000;

/// Caller-owned interpreter state.  A fresh machine has every cell zero and
/// both pointers at zero; one run owns one machine for its whole lifetime.
pub struct Machine {
    pub memory: Vec<i32>,
    pub data_ptr: usize,
    pub instruction_ptr: usize,
}

impl Machine {
    /// The tape has its fixed length and the data pointer is on it.
    pub open spec fn wf(&self) -> bool {
        &&& self.memory@.len() == TAPE_LEN
        &&& self.data_ptr < TAPE_LEN
    }

    /// A fresh machine: all cells zero, both pointers at the start.
    pub fn new() -> (m: Machine)
        ensures
            m.wf(),
            m.memory@ =~= Seq::new(TAPE_LEN as nat, |i: int| 0i32),
            m.data_ptr == 0,
            m.instruction_ptr == 0,
    {
        let mut memory: Vec<i32> = Vec::new();
        let mut i: usize = 0;
        while i < TAPE_LEN
            invariant
                i <= TAPE_LEN,
                memory@ =~= Seq::new(i as nat, |k: int| 0i32),
            decreases TAPE_LEN - i,
        {
            memory.push(0);
            i += 1;
        }
        Machine { memory, data_ptr: 0, instruction_ptr: 0 }
    }
}

/// Incrementing a cell wraps around at the top of the cell range.
pub open spec fn wrap_inc(v: int) -> int {
    if v == i32::MAX {
        i32::MIN as int
    } else {
        v + 1
    }
}

/// Decrementing a cell wraps around at the bottom of the cell range.
pub open spec fn wrap_dec(v: int) -> int {
    if v == i32::MIN {
        i32::MAX as int
    } else {
        v - 1
    }
}

/// The byte a cell emits when output: the cell's value modulo 256.
pub open spec fn cell_byte(v: int) -> int {
    v % 256
}

/// Adds one to a cell, wrapping on overflow.
pub fn cell_inc(v: i32) -> (r: i32)
    ensures
        r as int == wrap_inc(v as int),
{
    if v == i32::MAX {
        i32::MIN
    } else {
        v + 1
    }
}

/// Subtracts one from a cell, wrapping on underflow.
pub fn cell_dec(v: i32) -> (r: i32)
    ensures
        r as int == wrap_dec(v as int),
{
    if v == i32::MIN {
        i32::MAX
    } else {
        v - 1
    }
}

/// The byte a cell emits when output.
pub fn cell_to_byte(v: i32) -> (b: u8)
    ensures
        b as int == cell_byte(v as int),
{
    if v >= 0 {
        (v % 256) as u8
    } else {
        let w: i64 = -(v as i64);
        let m: i64 = w % 256;
        proof {
            lemma_fundamental_div_mod(w as int, 256);
            let q = w as int / 256;
            if m == 0 {
                assert(v as int == (-q) * 256) by (nonlinear_arith)
                    requires
                        w as int == 256 * q,
                        v as int == -(w as int),
                ;
                lemma_mod_multiples_basic(-q, 256);
            } else {
                assert(v as int == (-q - 1) * 256 + (256 - m)) by (nonlinear_arith)
                    requires
                        w as int == 256 * q + m as int,
                        v as int == -(w as int),
                ;
                lemma_fundamental_div_mod_converse(v as int, 256, -q - 1, 256 - m as int);
            }
        }
        if m == 0 {
            0u8
        } else {
            (256 - m) as u8
        }
    }
}

} // verus!
