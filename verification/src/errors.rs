//! The two error kinds: build-time failures (unmatched brackets) and
//! run-time failures (bad input, out-of-range pointer movement).
//!
//! Each error carries a human-readable message naming the offending
//! position; the view of an error is the message's character sequence.

use vstd::prelude::*;
use crate::decimal::dec_rep;

verus! {

/// A malformed program was handed to the builder.
#[derive(Debug)]
pub struct BuildError {
    msg: String,
}

/// Execution failed; the message names the offending instruction index.
#[derive(Debug)]
pub struct RunError {
    msg: String,
}

impl View for BuildError {
    type V = Seq<char>;

    closed spec fn view(&self) -> Seq<char> {
        self.msg@
    }
}

impl View for RunError {
    type V = Seq<char>;

    closed spec fn view(&self) -> Seq<char> {
        self.msg@
    }
}

impl BuildError {
    pub fn new(msg: String) -> (e: BuildError)
        ensures
            e@ == msg@,
    {
        BuildError { msg }
    }

    /// The error's message; presentation (prefixes, exit codes) is the
    /// caller's concern.
    pub fn message(&self) -> (m: &String)
        ensures
            m@ == self@,
    {
        &self.msg
    }
}

impl RunError {
    pub fn new(msg: String) -> (e: RunError)
        ensures
            e@ == msg@,
    {
        RunError { msg }
    }

    /// The error's message; presentation is the caller's concern.
    pub fn message(&self) -> (m: &String)
        ensures
            m@ == self@,
    {
        &self.msg
    }
}

/// Message of the build error for an open bracket whose close is missing.
pub open spec fn msg_unmatched_open(pos: nat) -> Seq<char> {
    "Failed to find end of jump at instruction "@ + dec_rep(pos)
}

/// Message of the build error for a close bracket whose open is missing.
pub open spec fn msg_unmatched_close(pos: nat) -> Seq<char> {
    "Failed to find jump start for "@ + dec_rep(pos)
}

/// Message of the run error raised when an input instruction cannot be
/// served with a value.
pub open spec fn msg_input_failure(pos: nat) -> Seq<char> {
    "User input failure at instruction "@ + dec_rep(pos)
}

/// Message of the run error raised when a run's step budget is exhausted
/// before the program halts.
pub open spec fn msg_step_limit() -> Seq<char> {
    "Step limit reached"@
}

/// Message of the run error raised when the data pointer would move below
/// the first cell.
pub open spec fn msg_pointer_underflow(pos: nat) -> Seq<char> {
    "Data pointer underflow at instruction "@ + dec_rep(pos)
}

/// Message of the run error raised when the data pointer would move past
/// the last cell.
pub open spec fn msg_pointer_overflow(pos: nat) -> Seq<char> {
    "Data pointer overflow at instruction "@ + dec_rep(pos)
}

} // verus!
