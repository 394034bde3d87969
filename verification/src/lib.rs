//! A minimal line-oriented statement interpreter.
//!
//! Input lines are gathered by a block accumulator, classified against a
//! small fixed grammar (assignment, print-variable, print-literal), and
//! executed against a store of named integer variables, producing one
//! output line per completed statement.

pub mod chars;
pub mod classify;
pub mod store;
pub mod accum;
pub mod interp;
