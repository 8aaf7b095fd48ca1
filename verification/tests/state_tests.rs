use irl::opt::lattice::{value_eq, Value};
use irl::opt::state::State;
use irl::opt::table::Table;

#[test]
fn a_table_binds_each_name_once() {
    let mut table: Table<usize> = Table::new();
    assert_eq!(table.len(), 0);
    assert!(table.get(&"a".to_string()).is_none());
    table.insert("a".to_string(), 1);
    table.insert("b".to_string(), 2);
    table.insert("a".to_string(), 3);
    assert_eq!(table.len(), 2);
    assert_eq!(table.get(&"a".to_string()), Some(&3));
    assert_eq!(table.get(&"b".to_string()), Some(&2));
    assert_eq!(table.get(&"c".to_string()), None);
    assert_eq!(table.name_at(0), "a");
    assert_eq!(table.name_at(1), "b");
}

#[test]
fn states_are_equal_where_they_bind_the_same() {
    let mut a = State::new();
    let mut b = State::new();
    assert!(a.equals(&b));
    a.insert("x".to_string(), Value::Constant(1));
    assert!(!a.equals(&b));
    assert!(!b.equals(&a));
    b.insert("y".to_string(), Value::Nac);
    b.insert("x".to_string(), Value::Constant(1));
    a.insert("y".to_string(), Value::Nac);
    assert!(a.equals(&b));
    b.insert("x".to_string(), Value::Constant(2));
    assert!(!a.equals(&b));
    assert!(a.equals(&a.duplicate()));
}

#[test]
fn states_join_name_by_name() {
    let mut a = State::new();
    a.insert("same".to_string(), Value::Constant(1));
    a.insert("differs".to_string(), Value::Constant(1));
    a.insert("only_a".to_string(), Value::Constant(5));
    let mut b = State::new();
    b.insert("same".to_string(), Value::Constant(1));
    b.insert("differs".to_string(), Value::Constant(2));
    b.insert("only_b".to_string(), Value::Pointer(Box::new(Value::Constant(3))));
    a.join_with(&b);
    assert_eq!(a.len(), 4);
    assert!(value_eq(a.get(&"same".to_string()).unwrap(), &Value::Constant(1)));
    assert!(value_eq(a.get(&"differs".to_string()).unwrap(), &Value::Nac));
    assert!(value_eq(a.get(&"only_a".to_string()).unwrap(), &Value::Constant(5)));
    assert!(value_eq(
        a.get(&"only_b".to_string()).unwrap(),
        &Value::Pointer(Box::new(Value::Constant(3)))
    ));
}
