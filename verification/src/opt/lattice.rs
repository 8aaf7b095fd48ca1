use vstd::prelude::*;
use vstd::std_specs::cmp::PartialEqSpecImpl;

verus! {

/// An element of the abstract value domain of the dataflow analysis.
///
/// `Undefined` is the bottom element (nothing is known yet), `Nac` is the top
/// element (the value is known not to be a compile-time constant).
/// `Pointer(v)` describes a memory cell whose content is described by `v`.
#[derive(Debug)]
pub enum Value {
    Constant(i32),
    Pointer(Box<Value>),
    Undefined,
    Nac,
}

/// The least upper bound of two abstract values.
///
/// Two values of different families (a constant and a pointer) have no
/// common description but `Nac`, so their join is `Nac`.
pub open spec fn join(a: Value, b: Value) -> Value
    decreases a,
{
    match (a, b) {
        (Value::Nac, _) => Value::Nac,
        (_, Value::Nac) => Value::Nac,
        (Value::Undefined, y) => y,
        (x, Value::Undefined) => x,
        (Value::Constant(c1), Value::Constant(c2)) => if c1 == c2 {
            Value::Constant(c1)
        } else {
            Value::Nac
        },
        (Value::Pointer(p1), Value::Pointer(p2)) => Value::Pointer(Box::new(join(*p1, *p2))),
        (Value::Constant(_), Value::Pointer(_)) => Value::Nac,
        (Value::Pointer(_), Value::Constant(_)) => Value::Nac,
    }
}

/// The order of the lattice: `a` says no more than `b`.
pub open spec fn below(a: Value, b: Value) -> bool
    decreases a,
{
    match (a, b) {
        (Value::Undefined, _) => true,
        (_, Value::Nac) => true,
        (Value::Constant(c1), Value::Constant(c2)) => c1 == c2,
        (Value::Pointer(p1), Value::Pointer(p2)) => below(*p1, *p2),
        _ => false,
    }
}

/// Joins two abstract values.
pub fn value_join(v1: Value, v2: Value) -> (res: Value)
    ensures
        res == join(v1, v2),
    decreases v1,
{
    match (v1, v2) {
        (Value::Nac, _) => Value::Nac,
        (_, Value::Nac) => Value::Nac,
        (Value::Undefined, y) => y,
        (x, Value::Undefined) => x,
        (Value::Constant(c1), Value::Constant(c2)) => if c1 == c2 {
            Value::Constant(c1)
        } else {
            Value::Nac
        },
        (Value::Pointer(p1), Value::Pointer(p2)) => Value::Pointer(Box::new(value_join(*p1, *p2))),
        (Value::Constant(_), Value::Pointer(_)) => Value::Nac,
        (Value::Pointer(_), Value::Constant(_)) => Value::Nac,
    }
}

/// Join is commutative.
pub proof fn lemma_join_commutative(a: Value, b: Value)
    ensures
        join(a, b) == join(b, a),
    decreases a,
{
    match (a, b) {
        (Value::Pointer(p1), Value::Pointer(p2)) => {
            lemma_join_commutative(*p1, *p2);
        },
        _ => {},
    }
}

/// `Undefined` is the identity of join, on either side.
pub proof fn lemma_join_identity(a: Value)
    ensures
        join(a, Value::Undefined) == a,
        join(Value::Undefined, a) == a,
{
}

/// `Nac` absorbs every value, on either side.
pub proof fn lemma_join_absorbing(a: Value)
    ensures
        join(Value::Nac, a) == Value::Nac,
        join(a, Value::Nac) == Value::Nac,
{
}

/// Join is associative.
pub proof fn lemma_join_associative(a: Value, b: Value, c: Value)
    ensures
        join(join(a, b), c) == join(a, join(b, c)),
    decreases a,
{
    match (a, b, c) {
        (Value::Pointer(p1), Value::Pointer(p2), Value::Pointer(p3)) => {
            lemma_join_associative(*p1, *p2, *p3);
        },
        _ => {},
    }
}

/// Join is idempotent.
pub proof fn lemma_join_idempotent(a: Value)
    ensures
        join(a, a) == a,
    decreases a,
{
    match a {
        Value::Pointer(p) => {
            lemma_join_idempotent(*p);
        },
        _ => {},
    }
}

/// Join is an upper bound of both arguments in the lattice order.
pub proof fn lemma_join_upper_bound(a: Value, b: Value)
    ensures
        below(a, join(a, b)),
        below(b, join(a, b)),
    decreases a,
{
    match (a, b) {
        (Value::Pointer(p1), Value::Pointer(p2)) => {
            lemma_join_upper_bound(*p1, *p2);
        },
        (Value::Pointer(p1), Value::Undefined) => {
            lemma_below_reflexive(a);
        },
        (Value::Undefined, Value::Pointer(p2)) => {
            lemma_below_reflexive(b);
        },
        _ => {},
    }
}

/// The lattice order is reflexive.
pub proof fn lemma_below_reflexive(a: Value)
    ensures
        below(a, a),
    decreases a,
{
    match a {
        Value::Pointer(p) => {
            lemma_below_reflexive(*p);
        },
        _ => {},
    }
}

/// Structural equality of two abstract values.
pub fn value_eq(a: &Value, b: &Value) -> (res: bool)
    ensures
        res == (*a == *b),
    decreases *a,
{
    match (a, b) {
        (Value::Constant(c1), Value::Constant(c2)) => *c1 == *c2,
        (Value::Pointer(p1), Value::Pointer(p2)) => value_eq(&**p1, &**p2),
        (Value::Undefined, Value::Undefined) => true,
        (Value::Nac, Value::Nac) => true,
        _ => false,
    }
}

/// A copy of an abstract value.
pub fn value_clone(a: &Value) -> (res: Value)
    ensures
        res == *a,
    decreases *a,
{
    match a {
        Value::Constant(c) => Value::Constant(*c),
        Value::Pointer(p) => Value::Pointer(Box::new(value_clone(&**p))),
        Value::Undefined => Value::Undefined,
        Value::Nac => Value::Nac,
    }
}


impl Clone for Value {
    fn clone(&self) -> (res: Self)
        ensures
            res == *self,
    {
        value_clone(self)
    }
}

impl PartialEq for Value {
    fn eq(&self, other: &Self) -> (res: bool) {
        value_eq(self, other)
    }
}

impl PartialEqSpecImpl for Value {
    open spec fn obeys_eq_spec() -> bool {
        true
    }

    open spec fn eq_spec(&self, other: &Self) -> bool {
        *self == *other
    }
}

} // verus!
