//! The statement classifier: one line (or accumulated block) of text is
//! matched against a small fixed grammar, rules tried in a fixed priority
//! order — assignment, then print-variable, then print-literal — the first
//! match winning; anything else non-blank is unrecognized.
//!
//! An integer literal whose value does not fit `i32` fails the rule it
//! occurs in, so the line falls through to `Unrecognized` instead of
//! wrapping or aborting.

use vstd::prelude::*;
use crate::chars::{
    is_space, is_digit, is_ident_start, is_ident_char, all_digits, dec_val,
    ch_is_space, ch_is_digit, ch_is_ident_start, ch_is_ident_char,
    lemma_dec_val_prefix, is_ident,
};

verus! {

/// First position at or after `i` that does not hold whitespace.
pub open spec fn ws_end(s: Seq<char>, i: int) -> int
    decreases s.len() - i when 0 <= i <= s.len()
{
    if i == s.len() || !is_space(s[i]) {
        i
    } else {
        ws_end(s, i + 1)
    }
}

/// First position at or after `i` that does not hold an identifier character.
pub open spec fn ident_end(s: Seq<char>, i: int) -> int
    decreases s.len() - i when 0 <= i <= s.len()
{
    if i == s.len() || !is_ident_char(s[i]) {
        i
    } else {
        ident_end(s, i + 1)
    }
}

/// First position at or after `i` that does not hold a digit.
pub open spec fn digits_end(s: Seq<char>, i: int) -> int
    decreases s.len() - i when 0 <= i <= s.len()
{
    if i == s.len() || !is_digit(s[i]) {
        i
    } else {
        digits_end(s, i + 1)
    }
}

/// Largest position `k <= j` holding a closing parenthesis, or -1.
pub open spec fn last_close(s: Seq<char>, j: int) -> int
    decreases j + 1 when j < s.len()
{
    if j < 0 {
        -1
    } else if s[j] == ')' {
        j
    } else {
        last_close(s, j - 1)
    }
}

/// A line is blank when it is empty or all whitespace.
pub open spec fn is_blank(s: Seq<char>) -> bool {
    ws_end(s, 0) == s.len()
}

/// The value fits the signed 32-bit range.
pub open spec fn in_i32(v: int) -> bool {
    i32::MIN <= v <= i32::MAX
}

/// Full-line assignment shape: optional whitespace, identifier, optional
/// whitespace, `=`, optional whitespace, optionally signed integer literal,
/// optional whitespace, end. Yields the identifier and the literal's
/// unbounded value.
pub open spec fn parse_assignment(s: Seq<char>) -> Option<(Seq<char>, int)> {
    let i0 = ws_end(s, 0);
    if i0 < s.len() && is_ident_start(s[i0]) {
        let i1 = ident_end(s, i0 + 1);
        let i2 = ws_end(s, i1);
        if i2 < s.len() && s[i2] == '=' {
            let i3 = ws_end(s, i2 + 1);
            let neg = i3 < s.len() && s[i3] == '-';
            let i4 = if neg {
                i3 + 1
            } else {
                i3
            };
            let i5 = digits_end(s, i4);
            if i5 > i4 && ws_end(s, i5) == s.len() {
                let mag = dec_val(s.subrange(i4, i5));
                Some(
                    (
                        s.subrange(i0, i1),
                        if neg {
                            -mag
                        } else {
                            mag
                        },
                    ),
                )
            } else {
                None
            }
        } else {
            None
        }
    } else {
        None
    }
}

/// The five letters of the keyword `print` stand at position `i`.
pub open spec fn print_kw_at(s: Seq<char>, i: int) -> bool {
    &&& i + 5 <= s.len()
    &&& s[i] == 'p'
    &&& s[i + 1] == 'r'
    &&& s[i + 2] == 'i'
    &&& s[i + 3] == 'n'
    &&& s[i + 4] == 't'
}

/// Print-variable shape: optional whitespace, `print`, whitespace,
/// identifier, optional whitespace, end. Yields the identifier.
pub open spec fn parse_print_var(s: Seq<char>) -> Option<Seq<char>> {
    let i0 = ws_end(s, 0);
    if print_kw_at(s, i0) {
        let i1 = i0 + 5;
        let i2 = ws_end(s, i1);
        if i2 > i1 && i2 < s.len() && is_ident_start(s[i2]) {
            let i3 = ident_end(s, i2 + 1);
            if ws_end(s, i3) == s.len() {
                Some(s.subrange(i2, i3))
            } else {
                None
            }
        } else {
            None
        }
    } else {
        None
    }
}

/// Print-literal shape: optional whitespace, `print`, whitespace,
/// optionally signed integer literal, optional whitespace, end. Yields the
/// literal's unbounded value.
pub open spec fn parse_print_lit(s: Seq<char>) -> Option<int> {
    let i0 = ws_end(s, 0);
    if print_kw_at(s, i0) {
        let i1 = i0 + 5;
        let i2 = ws_end(s, i1);
        if i2 > i1 {
            let neg = i2 < s.len() && s[i2] == '-';
            let i3 = if neg {
                i2 + 1
            } else {
                i2
            };
            let i4 = digits_end(s, i3);
            if i4 > i3 && ws_end(s, i4) == s.len() {
                let mag = dec_val(s.subrange(i3, i4));
                Some(
                    if neg {
                        -mag
                    } else {
                        mag
                    },
                )
            } else {
                None
            }
        } else {
            None
        }
    } else {
        None
    }
}

/// Conditional/loop header shape: optional whitespace, `if` or `while`,
/// optional whitespace, `(`, a non-empty condition, `)`, optional
/// whitespace, end. The condition runs to the last closing parenthesis.
pub open spec fn parse_cond_header(s: Seq<char>) -> Option<Seq<char>> {
    let i0 = ws_end(s, 0);
    let k = if i0 + 2 <= s.len() && s[i0] == 'i' && s[i0 + 1] == 'f' {
        i0 + 2
    } else if i0 + 5 <= s.len() && s[i0] == 'w' && s[i0 + 1] == 'h' && s[i0 + 2] == 'i' && s[i0 + 3]
        == 'l' && s[i0 + 4] == 'e' {
        i0 + 5
    } else {
        -1
    };
    if k >= 0 {
        let i1 = ws_end(s, k);
        if i1 < s.len() && s[i1] == '(' {
            let j = last_close(s, s.len() - 1);
            if j > i1 + 1 && ws_end(s, j + 1) == s.len() {
                Some(s.subrange(i1 + 1, j))
            } else {
                None
            }
        } else {
            None
        }
    } else {
        None
    }
}

/// One classified unit of input text.
pub enum Statement {
    Assignment { name: String, value: i32 },
    PrintVariable { name: String },
    PrintLiteral { value: i32 },
    /// Recognized lexical shape only; the driver never branches or loops.
    ConditionalHeader { condition_text: String },
    Unrecognized,
    Blank,
}

/// Specification-level image of a classified statement.
pub enum SpecStmt {
    Assignment { name: Seq<char>, value: int },
    PrintVariable { name: Seq<char> },
    PrintLiteral { value: int },
    ConditionalHeader { condition_text: Seq<char> },
    Unrecognized,
    Blank,
}

impl View for Statement {
    type V = SpecStmt;

    open spec fn view(&self) -> SpecStmt {
        match self {
            Statement::Assignment { name, value } => SpecStmt::Assignment {
                name: name@,
                value: *value as int,
            },
            Statement::PrintVariable { name } => SpecStmt::PrintVariable { name: name@ },
            Statement::PrintLiteral { value } => SpecStmt::PrintLiteral { value: *value as int },
            Statement::ConditionalHeader { condition_text } => SpecStmt::ConditionalHeader {
                condition_text: condition_text@,
            },
            Statement::Unrecognized => SpecStmt::Unrecognized,
            Statement::Blank => SpecStmt::Blank,
        }
    }
}

/// Classification of a non-blank line that is no in-range assignment:
/// print-variable, then print-literal, then unrecognized.
pub open spec fn classify_print(s: Seq<char>) -> SpecStmt {
    match parse_print_var(s) {
        Some(n) => SpecStmt::PrintVariable { name: n },
        None => match parse_print_lit(s) {
            Some(v) => if in_i32(v) {
                SpecStmt::PrintLiteral { value: v }
            } else {
                SpecStmt::Unrecognized
            },
            None => SpecStmt::Unrecognized,
        },
    }
}

/// What classification yields on a line: blank lines are blank; otherwise
/// the first matching grammar rule in priority order wins, a rule whose
/// literal overflows `i32` failing rather than matching.
pub open spec fn spec_classify(s: Seq<char>) -> SpecStmt {
    if is_blank(s) {
        SpecStmt::Blank
    } else {
        match parse_assignment(s) {
            Some(p) => if in_i32(p.1) {
                SpecStmt::Assignment { name: p.0, value: p.1 }
            } else {
                classify_print(s)
            },
            None => classify_print(s),
        }
    }
}

/// Every character strictly before `ident_end(s, i)` and at or after `i`
/// is an identifier character.
proof fn lemma_ident_end_props(s: Seq<char>, i: int)
    requires
        0 <= i <= s.len(),
    ensures
        i <= ident_end(s, i) <= s.len(),
        forall|m: int| i <= m < ident_end(s, i) ==> is_ident_char(#[trigger] s[m]),
    decreases s.len() - i,
{
    if i < s.len() && is_ident_char(s[i]) {
        lemma_ident_end_props(s, i + 1);
    }
}

/// Every character strictly before `digits_end(s, i)` and at or after `i`
/// is a digit.
proof fn lemma_digits_end(s: Seq<char>, i: int)
    requires
        0 <= i <= s.len(),
    ensures
        i <= digits_end(s, i) <= s.len(),
        forall|m: int| i <= m < digits_end(s, i) ==> is_digit(#[trigger] s[m]),
    decreases s.len() - i,
{
    if i < s.len() && is_digit(s[i]) {
        lemma_digits_end(s, i + 1);
    }
}

/// Advances over whitespace.
fn scan_ws(s: &str, n: usize, i: usize) -> (j: usize)
    requires
        n == s@.len(),
        i <= n,
    ensures
        j == ws_end(s@, i as int),
        i <= j <= n,
{
    let mut j = i;
    while j < n && ch_is_space(s.get_char(j))
        invariant
            n == s@.len(),
            i <= j <= n,
            ws_end(s@, i as int) == ws_end(s@, j as int),
        decreases n - j,
    {
        j += 1;
    }
    j
}

/// Advances over identifier characters.
fn scan_ident(s: &str, n: usize, i: usize) -> (j: usize)
    requires
        n == s@.len(),
        i <= n,
    ensures
        j == ident_end(s@, i as int),
        i <= j <= n,
{
    let mut j = i;
    while j < n && ch_is_ident_char(s.get_char(j))
        invariant
            n == s@.len(),
            i <= j <= n,
            ident_end(s@, i as int) == ident_end(s@, j as int),
        decreases n - j,
    {
        j += 1;
    }
    j
}

/// Advances over digits.
fn scan_digits(s: &str, n: usize, i: usize) -> (j: usize)
    requires
        n == s@.len(),
        i <= n,
    ensures
        j == digits_end(s@, i as int),
        i <= j <= n,
{
    let mut j = i;
    while j < n && ch_is_digit(s.get_char(j))
        invariant
            n == s@.len(),
            i <= j <= n,
            digits_end(s@, i as int) == digits_end(s@, j as int),
        decreases n - j,
    {
        j += 1;
    }
    j
}

/// Position of the last closing parenthesis, if any.
fn scan_last_close(s: &str, n: usize) -> (r: Option<usize>)
    requires
        n == s@.len(),
    ensures
        match r {
            Some(j) => j < n && last_close(s@, n as int - 1) == j as int,
            None => last_close(s@, n as int - 1) == -1,
        },
{
    let mut j = n;
    while j > 0
        invariant
            j <= n,
            n == s@.len(),
            last_close(s@, n as int - 1) == last_close(s@, j as int - 1),
        decreases j,
    {
        if s.get_char(j - 1) == ')' {
            return Some(j - 1);
        }
        j -= 1;
    }
    None
}

/// Reads the digits of `s` in positions `start..end` as a decimal number,
/// refusing a value above `limit`.
fn parse_magnitude(s: &str, start: usize, end: usize, limit: u64) -> (r: Option<u64>)
    requires
        start < end <= s@.len(),
        all_digits(s@.subrange(start as int, end as int)),
        limit <= 4294967295,
    ensures
        match r {
            Some(m) => m as int == dec_val(s@.subrange(start as int, end as int)) && m <= limit,
            None => dec_val(s@.subrange(start as int, end as int)) > limit,
        },
{
    let ghost d = s@.subrange(start as int, end as int);
    let mut acc: u64 = 0;
    let mut i = start;
    while i < end
        invariant
            start <= i <= end,
            end <= s@.len(),
            d == s@.subrange(start as int, end as int),
            all_digits(d),
            acc as int == dec_val(s@.subrange(start as int, i as int)),
            acc <= limit,
            limit <= 4294967295,
        decreases end - i,
    {
        let c = s.get_char(i);
        proof {
            assert(c == d[i - start]);
            assert(is_digit(c));
            assert(s@.subrange(start as int, i as int + 1).drop_last() =~= s@.subrange(
                start as int,
                i as int,
            ));
            assert(s@.subrange(start as int, i as int + 1).last() == c);
        }
        let dv: u64 = (c as u32 as u64) - 48;
        let new_acc: u64 = acc * 10 + dv;
        assert(new_acc as int == dec_val(s@.subrange(start as int, i as int + 1)));
        if new_acc > limit {
            proof {
                assert(d.subrange(0, i as int + 1 - start) =~= s@.subrange(
                    start as int,
                    i as int + 1,
                ));
                lemma_dec_val_prefix(d, i as int + 1 - start);
            }
            return None;
        }
        acc = new_acc;
        i += 1;
    }
    proof {
        assert(s@.subrange(start as int, end as int) == d);
    }
    Some(acc)
}

/// Matches the full-line assignment shape, yielding the variable name and
/// the literal's value; a literal outside the `i32` range fails the match.
pub fn assignment(line: &str) -> (r: Result<(&str, i32), ()>)
    ensures
        match r {
            Ok(p) => parse_assignment(line@) == Some((p.0@, p.1 as int)) && in_i32(p.1 as int)
                && is_ident(p.0@),
            Err(()) => parse_assignment(line@) matches Some(q) ==> !in_i32(q.1),
        },
{
    let n = line.unicode_len();
    let i0 = scan_ws(line, n, 0);
    if i0 >= n || !ch_is_ident_start(line.get_char(i0)) {
        return Err(());
    }
    let i1 = scan_ident(line, n, i0 + 1);
    let i2 = scan_ws(line, n, i1);
    if i2 >= n || line.get_char(i2) != '=' {
        return Err(());
    }
    let i3 = scan_ws(line, n, i2 + 1);
    let neg = i3 < n && line.get_char(i3) == '-';
    let i4 = if neg {
        i3 + 1
    } else {
        i3
    };
    let i5 = scan_digits(line, n, i4);
    if i5 == i4 {
        return Err(());
    }
    if scan_ws(line, n, i5) != n {
        return Err(());
    }
    let limit: u64 = if neg {
        2147483648
    } else {
        2147483647
    };
    proof {
        lemma_digits_end(line@, i4 as int);
        assert(all_digits(line@.subrange(i4 as int, i5 as int)));
    }
    match parse_magnitude(line, i4, i5, limit) {
        None => Err(()),
        Some(m) => {
            let value: i32 = if neg {
                (-(m as i64)) as i32
            } else {
                m as i32
            };
            let name = line.substring_char(i0, i1);
            proof {
                lemma_ident_end_props(line@, i0 as int + 1);
                assert forall|m2: int| 0 <= m2 < name@.len() implies is_ident_char(
                    #[trigger] name@[m2],
                ) by {
                    assert(name@[m2] == line@[i0 + m2]);
                }
            }
            Ok((name, value))
        },
    }
}

/// Matches the print-variable shape, yielding the variable name.
pub fn printvar(line: &str) -> (r: Result<&str, ()>)
    ensures
        match r {
            Ok(name) => parse_print_var(line@) == Some(name@) && is_ident(name@),
            Err(()) => parse_print_var(line@) is None,
        },
{
    let n = line.unicode_len();
    let i0 = scan_ws(line, n, 0);
    if n - i0 < 5 {
        return Err(());
    }
    if line.get_char(i0) != 'p' || line.get_char(i0 + 1) != 'r' || line.get_char(i0 + 2) != 'i'
        || line.get_char(i0 + 3) != 'n' || line.get_char(i0 + 4) != 't' {
        return Err(());
    }
    let i1 = i0 + 5;
    let i2 = scan_ws(line, n, i1);
    if i2 == i1 || i2 >= n || !ch_is_ident_start(line.get_char(i2)) {
        return Err(());
    }
    let i3 = scan_ident(line, n, i2 + 1);
    if scan_ws(line, n, i3) != n {
        return Err(());
    }
    let name = line.substring_char(i2, i3);
    proof {
        lemma_ident_end_props(line@, i2 as int + 1);
        assert forall|m2: int| 0 <= m2 < name@.len() implies is_ident_char(
            #[trigger] name@[m2],
        ) by {
            assert(name@[m2] == line@[i2 + m2]);
        }
    }
    Ok(name)
}

/// Matches the print-literal shape, yielding the literal's value; a
/// literal outside the `i32` range fails the match.
pub fn printval(line: &str) -> (r: Result<i32, ()>)
    ensures
        match r {
            Ok(v) => parse_print_lit(line@) == Some(v as int) && in_i32(v as int),
            Err(()) => parse_print_lit(line@) matches Some(w) ==> !in_i32(w),
        },
{
    let n = line.unicode_len();
    let i0 = scan_ws(line, n, 0);
    if n - i0 < 5 {
        return Err(());
    }
    if line.get_char(i0) != 'p' || line.get_char(i0 + 1) != 'r' || line.get_char(i0 + 2) != 'i'
        || line.get_char(i0 + 3) != 'n' || line.get_char(i0 + 4) != 't' {
        return Err(());
    }
    let i1 = i0 + 5;
    let i2 = scan_ws(line, n, i1);
    if i2 == i1 {
        return Err(());
    }
    let neg = i2 < n && line.get_char(i2) == '-';
    let i3 = if neg {
        i2 + 1
    } else {
        i2
    };
    let i4 = scan_digits(line, n, i3);
    if i4 == i3 {
        return Err(());
    }
    if scan_ws(line, n, i4) != n {
        return Err(());
    }
    let limit: u64 = if neg {
        2147483648
    } else {
        2147483647
    };
    proof {
        lemma_digits_end(line@, i3 as int);
        assert(all_digits(line@.subrange(i3 as int, i4 as int)));
    }
    match parse_magnitude(line, i3, i4, limit) {
        None => Err(()),
        Some(m) => {
            let value: i32 = if neg {
                (-(m as i64)) as i32
            } else {
                m as i32
            };
            Ok(value)
        },
    }
}

/// Recognizer for the inert conditional/loop header shape, yielding the
/// condition text; the driver never executes such a header.
pub fn statement(line: &str) -> (r: Result<&str, ()>)
    ensures
        match r {
            Ok(c) => parse_cond_header(line@) == Some(c@),
            Err(()) => parse_cond_header(line@) is None,
        },
{
    let n = line.unicode_len();
    let i0 = scan_ws(line, n, 0);
    let k: usize = if n - i0 >= 2 && line.get_char(i0) == 'i' && line.get_char(i0 + 1) == 'f' {
        i0 + 2
    } else if n - i0 >= 5 && line.get_char(i0) == 'w' && line.get_char(i0 + 1) == 'h'
        && line.get_char(i0 + 2) == 'i' && line.get_char(i0 + 3) == 'l' && line.get_char(i0 + 4)
        == 'e' {
        i0 + 5
    } else {
        return Err(());
    };
    let i1 = scan_ws(line, n, k);
    if i1 >= n || line.get_char(i1) != '(' {
        return Err(());
    }
    match scan_last_close(line, n) {
        None => Err(()),
        Some(j) => {
            if j > i1 + 1 && scan_ws(line, n, j + 1) == n {
                Ok(line.substring_char(i1 + 1, j))
            } else {
                Err(())
            }
        },
    }
}

/// Classifies one unit of input text: rules in priority order, first match
/// wins; blank text is blank; everything else is unrecognized.
pub fn classify(line: &str) -> (r: Statement)
    ensures
        r@ == spec_classify(line@),
{
    let n = line.unicode_len();
    if scan_ws(line, n, 0) == n {
        return Statement::Blank;
    }
    match assignment(line) {
        Ok((name, value)) => {
            return Statement::Assignment { name: name.to_owned(), value };
        },
        Err(()) => {},
    }
    match printvar(line) {
        Ok(name) => {
            return Statement::PrintVariable { name: name.to_owned() };
        },
        Err(()) => {},
    }
    match printval(line) {
        Ok(value) => {
            return Statement::PrintLiteral { value };
        },
        Err(()) => {},
    }
    Statement::Unrecognized
}

} // verus!
