use lox_interpreter::context::ValiableContext;

#[test]
fn a_new_context_has_one_empty_scope() {
    let c: ValiableContext<i32> = ValiableContext::new();
    assert_eq!(c.depth(), 1);
    assert!(!c.has_variable("x"));
    assert_eq!(c.get_variable("x"), None);
}

#[test]
fn reading_back_what_was_set() {
    let mut c = ValiableContext::new();
    c.set_variable("x", 1);
    c.set_variable("y", 2);
    assert_eq!(c.get_variable("x"), Some(&1));
    assert_eq!(c.get_variable("y"), Some(&2));
    c.set_variable("x", 3);
    assert_eq!(c.get_variable("x"), Some(&3));
    assert_eq!(c.get_variable("y"), Some(&2));
}

#[test]
fn assignment_updates_the_innermost_binding() {
    let mut c = ValiableContext::new();
    c.set_variable("x", 1);
    c.new_child_scoupe();
    assert_eq!(c.depth(), 2);
    assert!(!c.has_in_current_scoupe("x"));
    c.set_variable("x", 2);
    assert!(!c.has_in_current_scoupe("x"));
    c.exit_scoupe();
    assert_eq!(c.get_variable("x"), Some(&2));
}

#[test]
fn a_child_binding_shadows_then_disappears() {
    let mut c = ValiableContext::new();
    c.set_variable("x", 1);
    c.new_child_scoupe();
    c.set_in_current_scoupe("x", 10);
    c.set_in_current_scoupe("z", 7);
    assert!(c.has_in_current_scoupe("x"));
    assert_eq!(c.get_variable("x"), Some(&10));
    c.set_variable("x", 11);
    assert_eq!(c.get_variable("x"), Some(&11));
    c.exit_scoupe();
    assert_eq!(c.depth(), 1);
    assert_eq!(c.get_variable("x"), Some(&1));
    assert!(!c.has_variable("z"));
}

#[test]
fn an_unbound_name_is_bound_in_the_current_scope() {
    let mut c = ValiableContext::new();
    c.new_child_scoupe();
    c.set_variable("w", 5);
    assert!(c.has_in_current_scoupe("w"));
    c.exit_scoupe();
    assert!(!c.has_variable("w"));
}
