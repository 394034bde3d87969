use stmt_interp::accum::Accumulator;
use stmt_interp::interp::{i32_to_string, interp_statement, Interpreter};
use stmt_interp::store::GlobalState;

#[test]
fn end_to_end_scenario() {
    let mut it = Interpreter::new();
    let lines = vec![
        String::from("a = 3"),
        String::from("print a"),
        String::from("print 9"),
        String::from("b = -2"),
        String::from("print b"),
        String::from("print q"),
        String::from("garbage!!"),
    ];
    let outs = it.run(&lines);
    let expected = vec![
        String::from("set a to 3"),
        String::from("3"),
        String::from("9"),
        String::from("set b to -2"),
        String::from("-2"),
        String::from("unknown variable q"),
        String::from("Syntax error"),
    ];
    assert_eq!(outs, expected);
}

#[test]
fn block_lines_are_buffered_until_the_closing_brace() {
    let mut it = Interpreter::new();
    assert_eq!(it.process_line("if (x) {"), None);
    assert_eq!(it.process_line("y = 1"), None);
    let released = it.process_line("}");
    assert_eq!(released, Some(String::from("Syntax error")));
}

#[test]
fn blank_line_produces_no_output() {
    let mut it = Interpreter::new();
    assert_eq!(it.process_line(""), None);
    assert_eq!(it.process_line("   "), None);
}

#[test]
fn repeated_assignment_is_idempotent() {
    let mut it = Interpreter::new();
    let first = it.process_line("x = 5");
    let second = it.process_line("x = 5");
    assert_eq!(first, Some(String::from("set x to 5")));
    assert_eq!(second, first);
    let third = it.process_line("print x");
    assert_eq!(third, Some(String::from("5")));
}

#[test]
fn accumulator_releases_plain_lines_at_once() {
    let mut a = Accumulator::new();
    assert_eq!(a.feed("a = 1"), Some(String::from("a = 1")));
    assert_eq!(a.feed("print a"), Some(String::from("print a")));
}

#[test]
fn accumulator_concatenates_block_lines_without_separator() {
    let mut a = Accumulator::new();
    assert_eq!(a.feed("while (x) {"), None);
    assert_eq!(a.feed("y = 1"), None);
    assert_eq!(a.feed("}"), Some(String::from("while (x) {y = 1}")));
    assert_eq!(a.feed("z = 2"), Some(String::from("z = 2")));
}

#[test]
fn closing_brace_ends_a_block_regardless_of_nesting() {
    let mut a = Accumulator::new();
    assert_eq!(a.feed("if (x) {"), None);
    assert_eq!(a.feed("if (y) {"), None);
    assert_eq!(a.feed("}"), Some(String::from("if (x) {if (y) {}")));
}

#[test]
fn interp_statement_reports_unknown_variable() {
    let mut s = GlobalState::new();
    let out = interp_statement(&mut s, "print q");
    assert_eq!(out, Some(String::from("unknown variable q")));
}

#[test]
fn interp_statement_updates_the_store() {
    let mut s = GlobalState::new();
    let out = interp_statement(&mut s, "n = -40");
    assert_eq!(out, Some(String::from("set n to -40")));
    assert_eq!(s.val("n"), Some(-40));
}

#[test]
fn interp_statement_ignores_blank_input() {
    let mut s = GlobalState::new();
    assert_eq!(interp_statement(&mut s, ""), None);
}

#[test]
fn rendering_of_extreme_and_small_values() {
    assert_eq!(i32_to_string(0), "0");
    assert_eq!(i32_to_string(-7), "-7");
    assert_eq!(i32_to_string(10), "10");
    assert_eq!(i32_to_string(i32::MAX), "2147483647");
    assert_eq!(i32_to_string(i32::MIN), "-2147483648");
}
