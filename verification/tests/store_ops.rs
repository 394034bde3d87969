use stmt_interp::store::GlobalState;

#[test]
fn get_after_set_yields_value() {
    let mut s = GlobalState::new();
    s.update_var(String::from("v"), 41);
    assert_eq!(s.val("v"), Some(41));
}

#[test]
fn unassigned_name_is_absent() {
    let s = GlobalState::new();
    assert_eq!(s.val("v"), None);
}

#[test]
fn other_names_stay_absent_after_sets() {
    let mut s = GlobalState::new();
    s.update_var(String::from("a"), 1);
    s.update_var(String::from("b"), 2);
    assert_eq!(s.val("c"), None);
    assert_eq!(s.val("a"), Some(1));
    assert_eq!(s.val("b"), Some(2));
}

#[test]
fn set_overwrites_existing_entry() {
    let mut s = GlobalState::new();
    s.update_var(String::from("v"), 1);
    s.update_var(String::from("v"), -9);
    assert_eq!(s.val("v"), Some(-9));
}

#[test]
fn set_returns_the_stored_value() {
    let mut s = GlobalState::new();
    assert_eq!(s.update_var(String::from("v"), 7), 7);
    assert_eq!(s.update_var(String::from("v"), 7), 7);
    assert_eq!(s.val("v"), Some(7));
}

#[test]
fn zero_is_a_value_not_absence() {
    let mut s = GlobalState::new();
    s.update_var(String::from("z"), 0);
    assert_eq!(s.val("z"), Some(0));
}
