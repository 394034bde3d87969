//! The block accumulator: a line buffer that decides, line by line, when
//! enough text has been gathered to form one statement.
//!
//! Outside a block, a line is a complete statement unless it opens a brace
//! block; inside one, lines are appended (with no separator) until a line
//! holding a closing brace ends the block, whatever its nesting depth —
//! there is no nesting counter, a single flag only.

use vstd::prelude::*;
use crate::chars::{contains_char, str_contains_char};

verus! {

/// Buffer contents and block flag after feeding one line, and the complete
/// statement released, if any.
pub open spec fn spec_feed(buf: Seq<char>, in_block: bool, line: Seq<char>) -> (
    (Seq<char>, bool),
    Option<Seq<char>>,
) {
    let grown = buf + line;
    if in_block {
        if contains_char(line, '}') {
            ((Seq::empty(), false), Some(grown))
        } else {
            ((grown, true), None)
        }
    } else {
        if contains_char(line, '{') {
            ((grown, true), None)
        } else {
            ((Seq::empty(), false), Some(grown))
        }
    }
}

/// The growing statement text plus the inside-a-block flag.
pub struct Accumulator {
    buf: String,
    in_block: bool,
}

impl View for Accumulator {
    type V = (Seq<char>, bool);

    closed spec fn view(&self) -> (Seq<char>, bool) {
        (self.buf@, self.in_block)
    }
}

impl Accumulator {
    /// Starts with an empty buffer, outside any block.
    pub fn new() -> (a: Self)
        ensures
            a@ == (Seq::<char>::empty(), false),
    {
        Accumulator { buf: String::new(), in_block: false }
    }

    /// Appends `line` to the buffer; when the statement is complete, resets
    /// the buffer and returns the accumulated text for classification.
    pub fn feed(&mut self, line: &str) -> (r: Option<String>)
        ensures
            final(self)@ == spec_feed(old(self)@.0, old(self)@.1, line@).0,
            r.deep_view() == spec_feed(old(self)@.0, old(self)@.1, line@).1,
    {
        self.buf.append(line);
        if self.in_block {
            if str_contains_char(line, '}') {
                self.in_block = false;
                let out = self.buf.clone();
                self.buf = String::new();
                Some(out)
            } else {
                None
            }
        } else {
            if str_contains_char(line, '{') {
                self.in_block = true;
                None
            } else {
                let out = self.buf.clone();
                self.buf = String::new();
                Some(out)
            }
        }
    }
}

} // verus!
