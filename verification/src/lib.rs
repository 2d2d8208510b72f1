//! An interpreter for a Brainfuck-family language, in three stages:
//!
//! - the lexer ([`parse`]) turns source text into tokens and counts
//!   repeated instructions;
//! - the optimizer ([`token::optimize`]) fuses the loops that clear, move,
//!   copy and scan into single tokens, and gives each bracket the index of
//!   its partner;
//! - the machine ([`machine::Machine`]) executes the program on a tape of
//!   cells, step by step or, with [`interpret`], in one bounded run.
//!
//! A cell is an unsigned byte. The tape's layout and what happens when a
//! cell leaves its range are chosen in [`config::Config`].
//!
//! The library reads and writes nothing: a step takes the byte that the
//! caller has read and hands back the byte that the caller is to write.

pub mod brackets;
pub mod config;
pub mod helper;
pub mod machine;
pub mod rendering;
pub mod token;

pub use token::parse;

use config::Config;
use machine::{run_from, Machine, Run, State, Trace};
use token::Token;
use vstd::prelude::*;

verus! {

/// The run of at most `limit` steps of the program `code` on the default
/// machine, from its initial state, on the bytes of `input`.
pub open spec fn interpreted(code: Seq<Token>, input: Seq<u8>, limit: nat) -> Trace {
    run_from(
        Config::standard(),
        State::initial(Config::standard()),
        code,
        input,
        0,
        Seq::empty(),
        0,
        limit,
    )
}

/// Runs the program `code` on the default machine, a ring of 30000 cells
/// that wrap around, for at most `limit` steps. The program reads the bytes
/// of `input`, and 0 once they are used up.
pub fn interpret(code: &[Token], input: &[u8], limit: usize) -> (run: Run)
    ensures
        run.records(interpreted(code@, input@, limit as nat)),
{
    let mut machine = Machine::new(Config::default());
    machine.run(code, input, limit)
}

} // verus!
