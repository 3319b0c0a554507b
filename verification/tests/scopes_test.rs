use monkey::compile::symbol_table::{Symbol, SymbolScope, SymbolTable};
use monkey::environment::Environment;
use monkey::object::Object;

fn symbol(scope: SymbolScope, index: u16) -> Option<Symbol> {
    Some(Symbol { scope, index })
}

#[test]
fn definitions_count_per_scope() {
    let mut table = SymbolTable::new();
    assert!(table.is_outermost());
    assert_eq!(table.define("a".to_string()), Symbol { scope: SymbolScope::Global, index: 0 });
    assert_eq!(table.define("b".to_string()), Symbol { scope: SymbolScope::Global, index: 1 });
    assert_eq!(table.num_definitions(), 2);
    table.enclose();
    assert!(!table.is_outermost());
    assert_eq!(table.num_definitions(), 0);
    assert_eq!(table.define("c".to_string()), Symbol { scope: SymbolScope::Local, index: 0 });
    assert_eq!(table.num_definitions(), 1);
    assert_eq!(table.leave(), vec![]);
    assert_eq!(table.num_definitions(), 2);
    assert_eq!(table.resolve("c"), None);
    // The outermost scope is never left.
    assert_eq!(table.leave(), vec![]);
    assert_eq!(table.resolve("a"), symbol(SymbolScope::Global, 0));
}

#[test]
fn a_later_definition_replaces_an_earlier_one() {
    let mut table = SymbolTable::new();
    table.define("a".to_string());
    table.define("a".to_string());
    assert_eq!(table.resolve("a"), symbol(SymbolScope::Global, 1));
    table.enclose();
    table.define("a".to_string());
    assert_eq!(table.resolve("a"), symbol(SymbolScope::Local, 0));
}

#[test]
fn builtins_and_function_names_pass_through_scopes() {
    let mut table = SymbolTable::new();
    assert_eq!(
        table.define_builtin(3, "rest".to_string()),
        Symbol { scope: SymbolScope::Builtin, index: 3 }
    );
    assert_eq!(table.num_definitions(), 0);
    table.enclose();
    assert_eq!(
        table.define_function_name("me".to_string()),
        Symbol { scope: SymbolScope::Function, index: 0 }
    );
    table.enclose();
    assert_eq!(table.resolve("rest"), symbol(SymbolScope::Builtin, 3));
    assert_eq!(table.resolve("me"), symbol(SymbolScope::Function, 0));
    assert_eq!(table.free_symbols, vec![]);
    assert_eq!(table.resolve("unknown"), None);
}

#[test]
fn a_name_is_captured_level_by_level() {
    let mut table = SymbolTable::new();
    table.enclose();
    table.define("x".to_string());
    table.define("y".to_string());
    table.enclose();
    table.enclose();
    table.enclose();
    // Three levels in: y is captured in each level on the way.
    assert_eq!(table.resolve("y"), symbol(SymbolScope::Free, 0));
    assert_eq!(table.resolve("x"), symbol(SymbolScope::Free, 1));
    // Resolving again captures nothing more.
    assert_eq!(table.resolve("y"), symbol(SymbolScope::Free, 0));
    let free = Symbol { scope: SymbolScope::Free, index: 0 };
    let other = Symbol { scope: SymbolScope::Free, index: 1 };
    assert_eq!(table.leave(), vec![free, other]);
    assert_eq!(table.leave(), vec![free, other]);
    assert_eq!(
        table.leave(),
        vec![
            Symbol { scope: SymbolScope::Local, index: 1 },
            Symbol { scope: SymbolScope::Local, index: 0 }
        ]
    );
    assert_eq!(table.leave(), vec![]);
}

#[test]
fn environments_chain_outwards() {
    let (root, owner) = Environment::new();
    assert!(root.is_owned_by(&owner));
    let mut owners = vec![Some(owner)];
    assert_eq!(root.get(&owners, "a"), None);
    root.set(&mut owners, "a".to_string(), Object::Integer(1));
    root.set(&mut owners, "b".to_string(), Object::Integer(2));
    assert_eq!(root.get(&owners, "a"), Some(Object::Integer(1)));

    let (inner, inner_owner) = root.extend(&owners);
    assert!(inner.is_owned_by(&inner_owner));
    assert!(!root.is_owned_by(&inner_owner));
    owners.push(Some(inner_owner));
    assert_eq!(inner.get(&owners, "a"), Some(Object::Integer(1)));
    inner.set(&mut owners, "a".to_string(), Object::Integer(10));
    assert_eq!(inner.get(&owners, "a"), Some(Object::Integer(10)));
    assert_eq!(inner.get(&owners, "b"), Some(Object::Integer(2)));
    assert_eq!(root.get(&owners, "a"), Some(Object::Integer(1)));
    // A later binding replaces an earlier one.
    root.set(&mut owners, "b".to_string(), Object::Integer(20));
    assert_eq!(inner.get(&owners, "b"), Some(Object::Integer(20)));
    assert_eq!(inner.get(&owners, "c"), None);

    // Where the environment around was released, an environment has its
    // own bindings only.
    owners[0] = None;
    assert_eq!(inner.get(&owners, "b"), None);
    assert_eq!(inner.get(&owners, "a"), Some(Object::Integer(10)));
    assert_eq!(owners.len(), 2);
}
