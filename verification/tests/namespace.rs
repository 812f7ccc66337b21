use doc_routes::namespace::{
    contains_name, Binding, Category, Func, FuncRepr, Scope, SymbolKey, Type, Value,
};

fn ns_func(repr: FuncRepr, params: &[&str], scope: Option<Scope>) -> Value {
    Value::Func(Func {
        repr,
        name: Some("f".to_string()),
        params: params.iter().map(|p| p.to_string()).collect(),
        scope,
    })
}

fn ns_names(scope: &Scope) -> Vec<&str> {
    scope.bindings.iter().map(|b| b.name.as_str()).collect()
}

#[test]
fn scope_new_is_empty() {
    let scope = Scope::new();
    assert!(scope.bindings.is_empty());
    assert!(scope.get("a").is_none());
    assert_eq!(scope.find("a"), 0);
}

#[test]
fn scope_define_appends_in_order() {
    let mut scope = Scope::new();
    scope.define("a".to_string(), Value::Other, None);
    scope.define("b".to_string(), Value::Other, Some(Category { name: "model".to_string() }));
    scope.define("c".to_string(), Value::Other, None);
    assert_eq!(ns_names(&scope), vec!["a", "b", "c"]);
    assert_eq!(scope.find("b"), 1);
    assert_eq!(scope.find("z"), 3);
    assert_eq!(scope.get("b").unwrap().category.as_ref().unwrap().name, "model");
    assert!(scope.get("a").unwrap().category.is_none());
}

#[test]
fn scope_define_replaces_binding_of_same_name() {
    let mut scope = Scope::new();
    scope.define("a".to_string(), Value::Other, None);
    scope.define("b".to_string(), Value::Other, None);
    scope.define("a".to_string(), ns_func(FuncRepr::Native(1), &[], None), None);
    assert_eq!(ns_names(&scope), vec!["a", "b"]);
    assert!(matches!(scope.get("a").unwrap().value, Value::Func(_)));
}

#[test]
fn scope_get_takes_first_binding_of_a_name() {
    let scope = Scope {
        bindings: vec![
            Binding { name: "a".to_string(), value: Value::Other, category: None },
            Binding { name: "a".to_string(), value: Value::Module(Scope::new()), category: None },
        ],
    };
    assert!(matches!(scope.get("a").unwrap().value, Value::Other));
    assert!(scope.get("A").is_none());
    assert!(scope.get("").is_none());
}

#[test]
fn value_scope_of_each_kind() {
    let inner = || Scope {
        bindings: vec![Binding { name: "x".to_string(), value: Value::Other, category: None }],
    };
    assert_eq!(ns_func(FuncRepr::Native(1), &[], Some(inner())).scope().unwrap().bindings.len(), 1);
    assert!(ns_func(FuncRepr::Native(1), &[], None).scope().is_none());
    assert_eq!(Value::Type(Type { id: 1, params: vec![], scope: inner() }).scope().unwrap().bindings.len(), 1);
    assert_eq!(Value::Module(inner()).scope().unwrap().bindings.len(), 1);
    assert!(Value::Other.scope().is_none());
}

#[test]
fn value_field_looks_into_nested_scope() {
    let inner = Scope {
        bindings: vec![Binding {
            name: "x".to_string(),
            value: Value::Module(Scope::new()),
            category: None,
        }],
    };
    let value = Value::Module(inner);
    assert!(matches!(value.field("x"), Some(Value::Module(_))));
    assert!(value.field("y").is_none());
    assert!(Value::Other.field("x").is_none());
    assert!(ns_func(FuncRepr::Native(1), &["x"], None).field("x").is_none());
}

#[test]
fn value_has_param_for_callables_only() {
    let f = ns_func(FuncRepr::Opaque, &["a", "b"], None);
    assert!(f.has_param("a"));
    assert!(f.has_param("b"));
    assert!(!f.has_param("c"));
    assert!(!f.has_param(""));
    let t = Value::Type(Type { id: 1, params: vec!["v".to_string()], scope: Scope::new() });
    assert!(t.has_param("v"));
    assert!(!t.has_param("a"));
    assert!(!Value::Module(Scope::new()).has_param("a"));
    assert!(!Value::Other.has_param("a"));
    assert!(contains_name(&vec!["a".to_string()], "a"));
    assert!(!contains_name(&vec![], "a"));
}

#[test]
fn value_key_by_kind_and_identity() {
    assert_eq!(ns_func(FuncRepr::Native(7), &[], None).key(), Some(SymbolKey::Native(7)));
    assert_eq!(ns_func(FuncRepr::Element(7), &[], None).key(), Some(SymbolKey::Element(7)));
    assert_eq!(ns_func(FuncRepr::Opaque, &[], None).key(), None);
    assert_eq!(
        Value::Type(Type { id: 7, params: vec![], scope: Scope::new() }).key(),
        Some(SymbolKey::Type(7))
    );
    assert_eq!(Value::Module(Scope::new()).key(), None);
    assert_eq!(Value::Other.key(), None);
    assert_ne!(SymbolKey::Native(7), SymbolKey::Element(7));
    assert_ne!(SymbolKey::Native(7), SymbolKey::Type(7));
}
