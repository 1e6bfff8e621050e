use interprete_tanques::Scope;

#[test]
pub fn test_scope() {
    let mut scope = Scope::new();
    // This would be equivalent to
    // var pepe = 12;
    // var i = 5;
    // si(i > 0){
    //   var pepe = 23;
    //   pepe = 49;
    // }
    scope.define_new_scope_var("pepe", 12);
    scope.add();
    scope.define_new_scope_var("pepe", 23);
    let value = scope.get_var_value("pepe");
    assert_eq!(value, Some(23));
    scope.define_new_scope_var("pepe", 49);
    let value = scope.get_var_value("pepe");
    assert_eq!(value, Some(49));
    scope.drop();
    let value = scope.get_var_value("pepe");
    assert_eq!(value, Some(12));
}

#[test]
fn test_scope_assign_searches_outward() {
    let mut scope = Scope::new();
    scope.define_new_scope_var("a", 1);
    scope.add();
    scope.define_new_scope_var("b", 2);
    // assignment updates the enclosing binding in place
    assert!(scope.set_scope_var("a", 10));
    assert_eq!(scope.get_var_value("a"), Some(10));
    // an unbound name reports not-found and binds nothing
    assert!(!scope.set_scope_var("c", 3));
    assert_eq!(scope.get_var_value("c"), None);
    scope.drop();
    assert_eq!(scope.get_var_value("a"), Some(10));
    assert_eq!(scope.get_var_value("b"), None);
}

#[test]
fn test_scope_shadow_updates_innermost() {
    let mut scope = Scope::new();
    scope.define_new_scope_var("x", 1);
    scope.add();
    scope.define_new_scope_var("x", 2);
    assert!(scope.set_scope_var("x", 99));
    assert_eq!(scope.get_var_value("x"), Some(99));
    scope.drop();
    // the outer binding was never touched
    assert_eq!(scope.get_var_value("x"), Some(1));
}
