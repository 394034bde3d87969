//! The interpreter driver: executes one classified statement against the
//! variable store and renders the output line owed for it, plus the
//! per-input-line loop that ties the accumulator, classifier and store
//! together.

use vstd::prelude::*;
use crate::store::{GlobalState, lookup};
use crate::classify::{Statement, SpecStmt, spec_classify, classify};
use crate::accum::{Accumulator, spec_feed};

verus! {

/// The character for the decimal digit `d`.
pub open spec fn digit_char(d: int) -> char {
    if d == 0 {
        '0'
    } else if d == 1 {
        '1'
    } else if d == 2 {
        '2'
    } else if d == 3 {
        '3'
    } else if d == 4 {
        '4'
    } else if d == 5 {
        '5'
    } else if d == 6 {
        '6'
    } else if d == 7 {
        '7'
    } else if d == 8 {
        '8'
    } else {
        '9'
    }
}

/// The decimal digits of `n`, most significant first, no sign and no
/// leading zero (except for `n` zero itself).
pub open spec fn dec_digits(n: nat) -> Seq<char>
    decreases n,
{
    if n < 10 {
        seq![digit_char(n as int)]
    } else {
        dec_digits(n / 10).push(digit_char((n % 10) as int))
    }
}

/// The decimal rendering of `n`, with a leading minus when negative.
pub open spec fn int_str(n: int) -> Seq<char> {
    if n < 0 {
        seq!['-'] + dec_digits((-n) as nat)
    } else {
        dec_digits(n as nat)
    }
}

/// The single-character string for the decimal digit `d`.
fn digit_literal(d: u64) -> (r: &'static str)
    requires
        d < 10,
    ensures
        r@ == seq![digit_char(d as int)],
{
    proof {
        reveal_strlit("0");
        reveal_strlit("1");
        reveal_strlit("2");
        reveal_strlit("3");
        reveal_strlit("4");
        reveal_strlit("5");
        reveal_strlit("6");
        reveal_strlit("7");
        reveal_strlit("8");
        reveal_strlit("9");
    }
    let r = match d {
        0 => "0",
        1 => "1",
        2 => "2",
        3 => "3",
        4 => "4",
        5 => "5",
        6 => "6",
        7 => "7",
        8 => "8",
        _ => "9",
    };
    proof {
        assert(r@ =~= seq![digit_char(d as int)]);
    }
    r
}

/// Appends the decimal digits of `m` to `s`.
fn push_dec(s: &mut String, m: u64)
    ensures
        final(s)@ == old(s)@ + dec_digits(m as nat),
    decreases m,
{
    if m >= 10 {
        push_dec(s, m / 10);
        s.append(digit_literal(m % 10));
        proof {
            assert(final(s)@ =~= old(s)@ + dec_digits(m as nat));
        }
    } else {
        s.append(digit_literal(m));
        proof {
            assert(final(s)@ =~= old(s)@ + dec_digits(m as nat));
        }
    }
}

/// Renders a signed value in decimal.
pub fn i32_to_string(n: i32) -> (s: String)
    ensures
        s@ == int_str(n as int),
{
    let mut s = String::new();
    if n < 0 {
        proof {
            reveal_strlit("-");
        }
        s.append("-");
        let m: u64 = (-(n as i64)) as u64;
        push_dec(&mut s, m);
        proof {
            assert(s@ =~= int_str(n as int));
        }
    } else {
        push_dec(&mut s, n as u64);
        proof {
            assert(s@ =~= int_str(n as int));
        }
    }
    s
}

/// Output line owed for an executed assignment.
pub open spec fn set_output(name: Seq<char>, v: int) -> Seq<char> {
    "set "@ + name + " to "@ + int_str(v)
}

/// Output line owed for a lookup of a name that was never assigned.
pub open spec fn unknown_output(name: Seq<char>) -> Seq<char> {
    "unknown variable "@ + name
}

/// Output line owed for an unrecognized statement.
pub open spec fn syntax_error_output() -> Seq<char> {
    "Syntax error"@
}

/// The store after one statement takes effect: an assignment inserts or
/// overwrites its entry; nothing else touches the store.
pub open spec fn spec_effect_map(m: Map<Seq<char>, i32>, st: SpecStmt) -> Map<Seq<char>, i32> {
    match st {
        SpecStmt::Assignment { name, value } => m.insert(name, value as i32),
        _ => m,
    }
}

/// The output line one statement produces against store `m`: blank lines
/// and inert headers produce none, every other statement exactly one.
pub open spec fn spec_output(m: Map<Seq<char>, i32>, st: SpecStmt) -> Option<Seq<char>> {
    match st {
        SpecStmt::Assignment { name, value } => Some(set_output(name, value)),
        SpecStmt::PrintVariable { name } => match lookup(m, name) {
            Some(v) => Some(int_str(v as int)),
            None => Some(unknown_output(name)),
        },
        SpecStmt::PrintLiteral { value } => Some(int_str(value)),
        SpecStmt::ConditionalHeader { .. } => None,
        SpecStmt::Unrecognized => Some(syntax_error_output()),
        SpecStmt::Blank => None,
    }
}

/// Classifies one complete statement, applies its effect to the store, and
/// returns the output line to emit, if any. No input is fatal.
pub fn interp_statement(gstate: &mut GlobalState, input: &str) -> (out: Option<String>)
    requires
        old(gstate).wf(),
    ensures
        final(gstate).wf(),
        final(gstate)@ == spec_effect_map(old(gstate)@, spec_classify(input@)),
        out.deep_view() == spec_output(old(gstate)@, spec_classify(input@)),
{
    let stmt = classify(input);
    match stmt {
        Statement::Assignment { name, value } => {
            let mut line = String::new();
            proof {
                reveal_strlit("set ");
                reveal_strlit(" to ");
            }
            line.append("set ");
            line.append(name.as_str());
            line.append(" to ");
            let rendered = i32_to_string(value);
            line.append(rendered.as_str());
            gstate.update_var(name, value);
            proof {
                assert(line@ =~= set_output(spec_classify(input@)->Assignment_name, value as int));
            }
            Some(line)
        },
        Statement::PrintVariable { name } => {
            match gstate.val(name.as_str()) {
                Some(v) => Some(i32_to_string(v)),
                None => {
                    let mut line = String::new();
                    proof {
                        reveal_strlit("unknown variable ");
                    }
                    line.append("unknown variable ");
                    line.append(name.as_str());
                    proof {
                        assert(line@ =~= unknown_output(name@));
                    }
                    Some(line)
                },
            }
        },
        Statement::PrintLiteral { value } => Some(i32_to_string(value)),
        Statement::ConditionalHeader { .. } => None,
        Statement::Unrecognized => Some("Syntax error".to_owned()),
        Statement::Blank => None,
    }
}

/// Law: executing the same assignment statement twice leaves the store
/// exactly as after the first execution, and owes the same output line
/// both times.
pub proof fn lemma_assignment_idempotent(m: Map<Seq<char>, i32>, st: SpecStmt)
    requires
        st is Assignment,
    ensures
        spec_effect_map(spec_effect_map(m, st), st) == spec_effect_map(m, st),
        spec_output(spec_effect_map(m, st), st) == spec_output(m, st),
{
    match st {
        SpecStmt::Assignment { name, value } => {
            assert(m.insert(name, value as i32).insert(name, value as i32) =~= m.insert(
                name,
                value as i32,
            ));
        },
        _ => {},
    }
}

/// The interpreter: the store and the accumulator, driven line by line.
pub struct Interpreter {
    store: GlobalState,
    accum: Accumulator,
}

/// Store, accumulator state and output after one raw input line: the line
/// is fed to the accumulator, and a released statement, if any, is
/// classified and executed.
pub open spec fn spec_process_line(
    m: Map<Seq<char>, i32>,
    a: (Seq<char>, bool),
    line: Seq<char>,
) -> (Map<Seq<char>, i32>, (Seq<char>, bool), Option<Seq<char>>) {
    let fed = spec_feed(a.0, a.1, line);
    match fed.1 {
        None => (m, fed.0, None),
        Some(text) => (
            spec_effect_map(m, spec_classify(text)),
            fed.0,
            spec_output(m, spec_classify(text)),
        ),
    }
}

/// Store, accumulator state and outputs after a whole sequence of input
/// lines, in arrival order.
pub open spec fn spec_run(
    m: Map<Seq<char>, i32>,
    a: (Seq<char>, bool),
    lines: Seq<Seq<char>>,
) -> (Map<Seq<char>, i32>, (Seq<char>, bool), Seq<Seq<char>>)
    decreases lines.len(),
{
    if lines.len() == 0 {
        (m, a, Seq::empty())
    } else {
        let first = spec_process_line(m, a, lines[0]);
        let rest = spec_run(first.0, first.1, lines.drop_first());
        (
            rest.0,
            rest.1,
            (match first.2 {
                Some(t) => seq![t],
                None => Seq::empty(),
            }) + rest.2,
        )
    }
}

impl Interpreter {
    /// The current variable store, as a map.
    pub closed spec fn store_map(self) -> Map<Seq<char>, i32> {
        self.store@
    }

    /// The current accumulation buffer and block flag.
    pub closed spec fn acc(self) -> (Seq<char>, bool) {
        self.accum@
    }

    /// The interpreter's internal invariant.
    pub closed spec fn wf(self) -> bool {
        self.store.wf()
    }

    /// Starts with an empty store and an empty buffer.
    pub fn new() -> (it: Self)
        ensures
            it.wf(),
            it.store_map() == Map::<Seq<char>, i32>::empty(),
            it.acc() == (Seq::<char>::empty(), false),
    {
        Interpreter { store: GlobalState::new(), accum: Accumulator::new() }
    }

    /// Consumes one raw input line; returns the output line owed for the
    /// statement it completes, if it completes one.
    pub fn process_line(&mut self, line: &str) -> (out: Option<String>)
        requires
            old(self).wf(),
        ensures
            final(self).wf(),
            final(self).store_map() == spec_process_line(
                old(self).store_map(),
                old(self).acc(),
                line@,
            ).0,
            final(self).acc() == spec_process_line(old(self).store_map(), old(self).acc(), line@).1,
            out.deep_view() == spec_process_line(old(self).store_map(), old(self).acc(), line@).2,
    {
        match self.accum.feed(line) {
            None => None,
            Some(text) => interp_statement(&mut self.store, text.as_str()),
        }
    }

    /// Consumes a whole sequence of input lines, returning the output
    /// lines in order, one per completed statement.
    pub fn run(&mut self, lines: &Vec<String>) -> (outs: Vec<String>)
        requires
            old(self).wf(),
        ensures
            final(self).wf(),
            final(self).store_map() == spec_run(
                old(self).store_map(),
                old(self).acc(),
                lines.deep_view(),
            ).0,
            final(self).acc() == spec_run(old(self).store_map(), old(self).acc(), lines.deep_view()).1,
            outs.deep_view() == spec_run(old(self).store_map(), old(self).acc(), lines.deep_view()).2,
    {
        let ghost all = lines.deep_view();
        let ghost m0 = old(self).store_map();
        let ghost a0 = old(self).acc();
        let mut outs: Vec<String> = Vec::new();
        let n = lines.len();
        let mut i: usize = 0;
        proof {
            assert(all.subrange(0, n as int) =~= all);
            assert(outs.deep_view() =~= Seq::<Seq<char>>::empty());
        }
        while i < n
            invariant
                n == lines@.len(),
                all == lines.deep_view(),
                all.len() == n,
                i <= n,
                self.wf(),
                spec_run(m0, a0, all).0 == spec_run(
                    self.store_map(),
                    self.acc(),
                    all.subrange(i as int, n as int),
                ).0,
                spec_run(m0, a0, all).1 == spec_run(
                    self.store_map(),
                    self.acc(),
                    all.subrange(i as int, n as int),
                ).1,
                spec_run(m0, a0, all).2 == outs.deep_view() + spec_run(
                    self.store_map(),
                    self.acc(),
                    all.subrange(i as int, n as int),
                ).2,
            decreases n - i,
        {
            let ghost pre_m = self.store_map();
            let ghost pre_a = self.acc();
            let ghost pre_outs = outs.deep_view();
            let ghost rem = all.subrange(i as int, n as int);
            proof {
                assert(lines.deep_view()[i as int] == lines@[i as int]@);
                assert(rem[0] == all[i as int]);
                assert(rem.drop_first() =~= all.subrange(i as int + 1, n as int));
            }
            let out = self.process_line(lines[i].as_str());
            proof {
                let first = spec_process_line(pre_m, pre_a, rem[0]);
                assert(self.store_map() == first.0);
                assert(self.acc() == first.1);
            }
            match out {
                Some(t) => {
                    outs.push(t);
                    proof {
                        assert(outs.deep_view() =~= pre_outs + seq![t@]);
                        let first = spec_process_line(pre_m, pre_a, rem[0]);
                        assert((match first.2 {
                            Some(u) => seq![u],
                            None => Seq::<Seq<char>>::empty(),
                        }) =~= seq![t@]);
                        assert(pre_outs + spec_run(pre_m, pre_a, rem).2 =~= outs.deep_view()
                            + spec_run(self.store_map(), self.acc(), rem.drop_first()).2);
                    }
                },
                None => {
                    proof {
                        let first = spec_process_line(pre_m, pre_a, rem[0]);
                        assert((match first.2 {
                            Some(u) => seq![u],
                            None => Seq::<Seq<char>>::empty(),
                        }) =~= Seq::<Seq<char>>::empty());
                        assert(pre_outs + spec_run(pre_m, pre_a, rem).2 =~= outs.deep_view()
                            + spec_run(self.store_map(), self.acc(), rem.drop_first()).2);
                    }
                },
            }
            i += 1;
        }
        proof {
            assert(all.subrange(i as int, n as int) =~= Seq::<Seq<char>>::empty());
            assert(outs.deep_view() + Seq::<Seq<char>>::empty() =~= outs.deep_view());
        }
        outs
    }
}

} // verus!
