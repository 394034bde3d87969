use stmt_interp::classify::{classify, assignment, printvar, printval, statement, Statement};

#[test]
fn classify_assignment_spaced() {
    match classify("x = 5") {
        Statement::Assignment { name, value } => {
            assert_eq!(name, "x");
            assert_eq!(value, 5);
        },
        _ => panic!("expected an assignment"),
    }
}

#[test]
fn classify_assignment_no_spaces() {
    match classify("x=5") {
        Statement::Assignment { name, value } => {
            assert_eq!(name, "x");
            assert_eq!(value, 5);
        },
        _ => panic!("expected an assignment"),
    }
}

#[test]
fn classify_assignment_trailing_garbage() {
    assert!(matches!(classify("x = 5 extra"), Statement::Unrecognized));
}

#[test]
fn classify_print_variable() {
    match classify("print x") {
        Statement::PrintVariable { name } => assert_eq!(name, "x"),
        _ => panic!("expected a print-variable"),
    }
}

#[test]
fn classify_print_literal_negative() {
    match classify("print -7") {
        Statement::PrintLiteral { value } => assert_eq!(value, -7),
        _ => panic!("expected a print-literal"),
    }
}

#[test]
fn classify_blank_lines() {
    assert!(matches!(classify(""), Statement::Blank));
    assert!(matches!(classify("   \t "), Statement::Blank));
}

#[test]
fn classify_overflowing_assignment_is_unrecognized() {
    assert!(matches!(classify("x = 9999999999"), Statement::Unrecognized));
    assert!(matches!(classify("x = 2147483648"), Statement::Unrecognized));
    assert!(matches!(classify("x = -2147483649"), Statement::Unrecognized));
}

#[test]
fn classify_extreme_literals_in_range() {
    match classify("x = 2147483647") {
        Statement::Assignment { name, value } => {
            assert_eq!(name, "x");
            assert_eq!(value, i32::MAX);
        },
        _ => panic!("expected an assignment"),
    }
    match classify("x = -2147483648") {
        Statement::Assignment { name, value } => {
            assert_eq!(name, "x");
            assert_eq!(value, i32::MIN);
        },
        _ => panic!("expected an assignment"),
    }
}

#[test]
fn classify_overflowing_print_literal_is_unrecognized() {
    assert!(matches!(classify("print 2147483648"), Statement::Unrecognized));
    assert!(matches!(classify("print -2147483649"), Statement::Unrecognized));
}

#[test]
fn classify_garbage_is_unrecognized() {
    assert!(matches!(classify("garbage!!"), Statement::Unrecognized));
    assert!(matches!(classify("= 5"), Statement::Unrecognized));
    assert!(matches!(classify("print"), Statement::Unrecognized));
}

#[test]
fn assignment_accepts_underscored_identifiers() {
    let r = assignment("  _a1 = -12  ");
    assert_eq!(r, Ok(("_a1", -12)));
}

#[test]
fn assignment_rejects_bad_shapes() {
    assert_eq!(assignment("1x = 5"), Err(()));
    assert_eq!(assignment("x = - 5"), Err(()));
    assert_eq!(assignment("x ="), Err(()));
    assert_eq!(assignment("x 5"), Err(()));
    assert_eq!(assignment("x = 5 y"), Err(()));
}

#[test]
fn printvar_accepts_and_rejects() {
    assert_eq!(printvar("  print   foo_1  "), Ok("foo_1"));
    assert_eq!(printvar("printx"), Err(()));
    assert_eq!(printvar("print 5"), Err(()));
    assert_eq!(printvar("print x y"), Err(()));
}

#[test]
fn printval_accepts_and_rejects() {
    assert_eq!(printval("print 9"), Ok(9));
    assert_eq!(printval(" print  -2147483648 "), Ok(i32::MIN));
    assert_eq!(printval("print x"), Err(()));
    assert_eq!(printval("print -"), Err(()));
    assert_eq!(printval("print2"), Err(()));
}

#[test]
fn statement_recognizes_headers() {
    assert_eq!(statement("if (x)"), Ok("x"));
    assert_eq!(statement("while (a > b)"), Ok("a > b"));
    assert_eq!(statement("  if(ready)  "), Ok("ready"));
}

#[test]
fn statement_rejects_bad_headers() {
    assert_eq!(statement("if x"), Err(()));
    assert_eq!(statement("if ()"), Err(()));
    assert_eq!(statement("foo (x)"), Err(()));
    assert_eq!(statement("if (x) extra"), Err(()));
}
