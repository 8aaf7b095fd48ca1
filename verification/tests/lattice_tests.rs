use irl::opt::lattice::{value_clone, value_eq, value_join, Value};

fn ptr(v: Value) -> Value {
    Value::Pointer(Box::new(v))
}

fn samples() -> Vec<Value> {
    vec![
        Value::Undefined,
        Value::Nac,
        Value::Constant(0),
        Value::Constant(7),
        Value::Constant(-3),
        ptr(Value::Undefined),
        ptr(Value::Constant(7)),
        ptr(Value::Constant(8)),
        ptr(Value::Nac),
        ptr(ptr(Value::Constant(1))),
    ]
}

#[test]
fn join_of_equal_constants_is_the_constant() {
    let r = value_join(Value::Constant(4), Value::Constant(4));
    assert!(value_eq(&r, &Value::Constant(4)));
}

#[test]
fn join_of_different_constants_is_nac() {
    let r = value_join(Value::Constant(4), Value::Constant(5));
    assert!(value_eq(&r, &Value::Nac));
}

#[test]
fn join_of_pointers_joins_the_cells() {
    let r = value_join(ptr(Value::Constant(7)), ptr(Value::Constant(7)));
    assert!(value_eq(&r, &ptr(Value::Constant(7))));
    let r = value_join(ptr(Value::Constant(7)), ptr(Value::Constant(8)));
    assert!(value_eq(&r, &ptr(Value::Nac)));
    let r = value_join(ptr(Value::Undefined), ptr(Value::Constant(8)));
    assert!(value_eq(&r, &ptr(Value::Constant(8))));
}

#[test]
fn join_of_constant_and_pointer_is_nac() {
    let r = value_join(Value::Constant(1), ptr(Value::Constant(1)));
    assert!(value_eq(&r, &Value::Nac));
    let r = value_join(ptr(Value::Constant(1)), Value::Constant(1));
    assert!(value_eq(&r, &Value::Nac));
}

#[test]
fn join_is_commutative_on_samples() {
    for a in samples() {
        for b in samples() {
            let ab = value_join(value_clone(&a), value_clone(&b));
            let ba = value_join(value_clone(&b), value_clone(&a));
            assert!(value_eq(&ab, &ba), "{:?} {:?}", a, b);
        }
    }
}

#[test]
fn join_is_associative_on_samples() {
    for a in samples() {
        for b in samples() {
            for c in samples() {
                let left = value_join(
                    value_join(value_clone(&a), value_clone(&b)),
                    value_clone(&c),
                );
                let right = value_join(
                    value_clone(&a),
                    value_join(value_clone(&b), value_clone(&c)),
                );
                assert!(value_eq(&left, &right), "{:?} {:?} {:?}", a, b, c);
            }
        }
    }
}

#[test]
fn undefined_is_the_identity_of_join() {
    for a in samples() {
        let r = value_join(value_clone(&a), Value::Undefined);
        assert!(value_eq(&r, &a));
        let r = value_join(Value::Undefined, value_clone(&a));
        assert!(value_eq(&r, &a));
    }
}

#[test]
fn nac_absorbs_every_value() {
    for a in samples() {
        let r = value_join(Value::Nac, value_clone(&a));
        assert!(value_eq(&r, &Value::Nac));
        let r = value_join(value_clone(&a), Value::Nac);
        assert!(value_eq(&r, &Value::Nac));
    }
}

#[test]
fn value_eq_tells_values_apart() {
    let all = samples();
    for (i, a) in all.iter().enumerate() {
        for (j, b) in all.iter().enumerate() {
            assert_eq!(value_eq(a, b), i == j);
        }
    }
}
