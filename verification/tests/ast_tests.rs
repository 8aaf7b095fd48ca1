use irl::fe::ast::{
    ArithAstNode, ArithOp, AssignmentAstNode, AstNode, CallAstNode, IdenAstNode, LoadAstNode,
    NumAstNode, RelOp, RelopAstNode, RetAstNode, StoreAstNode, UnaryAstNode, UnaryOp,
};
use irl::opt::lattice::{value_eq, Value};
use irl::fe::loc::Loc;
use irl::opt::state::State;

fn iden(name: &str) -> AstNode {
    AstNode::Iden(IdenAstNode { name: name.to_string(), loc: Loc::new(3, 4, "f.irl".to_string()) })
}

fn num(n: i32) -> AstNode {
    AstNode::Num(NumAstNode { num: n, loc: Loc::null() })
}

fn arith(op: ArithOp, l: AstNode, r: AstNode) -> AstNode {
    AstNode::Arith(ArithAstNode { op, lhs: Box::new(l), rhs: Box::new(r), loc: Loc::null() })
}

fn relop(op: RelOp, l: AstNode, r: AstNode) -> AstNode {
    AstNode::Relop(RelopAstNode { op, lhs: Box::new(l), rhs: Box::new(r), loc: Loc::null() })
}

fn neg(v: AstNode) -> AstNode {
    AstNode::Unary(UnaryAstNode { op: UnaryOp::Neg, var: Box::new(v), loc: Loc::null() })
}

fn assign(name: &str, v: AstNode) -> AstNode {
    AstNode::Assignment(AssignmentAstNode {
        name: name.to_string(),
        var: Box::new(v),
        loc: Loc::null(),
    })
}

fn constant(node: &AstNode) -> Option<i32> {
    match node.evaluate() {
        Value::Constant(c) => Some(c),
        _ => None,
    }
}

#[test]
fn literals_evaluate_to_constants_and_identifiers_to_nac() {
    assert_eq!(constant(&num(12)), Some(12));
    assert!(value_eq(&iden("x").evaluate(), &Value::Nac));
}

#[test]
fn arithmetic_on_constants_folds() {
    assert_eq!(constant(&arith(ArithOp::Sum, num(2), num(3))), Some(5));
    assert_eq!(constant(&arith(ArithOp::Sub, num(2), num(3))), Some(-1));
    assert_eq!(constant(&arith(ArithOp::Mul, num(-4), num(3))), Some(-12));
    assert_eq!(constant(&arith(ArithOp::Div, num(7), num(2))), Some(3));
    assert_eq!(constant(&arith(ArithOp::Div, num(-7), num(2))), Some(-3));
    assert_eq!(constant(&arith(ArithOp::Div, num(7), num(-2))), Some(-3));
    assert_eq!(constant(&arith(ArithOp::Div, num(-7), num(-2))), Some(3));
}

#[test]
fn arithmetic_that_32_bits_do_not_hold_is_not_folded() {
    assert_eq!(constant(&arith(ArithOp::Sum, num(i32::MAX), num(1))), None);
    assert_eq!(constant(&arith(ArithOp::Sub, num(i32::MIN), num(1))), None);
    assert_eq!(constant(&arith(ArithOp::Mul, num(65536), num(65536))), None);
    assert_eq!(constant(&arith(ArithOp::Div, num(i32::MIN), num(-1))), None);
    assert_eq!(constant(&neg(num(i32::MIN))), None);
    assert_eq!(constant(&arith(ArithOp::Sum, num(i32::MAX), num(0))), Some(i32::MAX));
}

#[test]
fn division_by_zero_is_not_folded() {
    assert_eq!(constant(&arith(ArithOp::Div, num(7), num(0))), None);
}

#[test]
fn relations_fold_to_one_or_zero() {
    assert_eq!(constant(&relop(RelOp::Eq, num(2), num(2))), Some(1));
    assert_eq!(constant(&relop(RelOp::Eq, num(2), num(3))), Some(0));
    assert_eq!(constant(&relop(RelOp::Neq, num(2), num(3))), Some(1));
    assert_eq!(constant(&relop(RelOp::Lt, num(2), num(3))), Some(1));
    assert_eq!(constant(&relop(RelOp::Lt, num(3), num(3))), Some(0));
    assert_eq!(constant(&relop(RelOp::Le, num(3), num(3))), Some(1));
    assert_eq!(constant(&relop(RelOp::Le, num(4), num(3))), Some(0));
    assert_eq!(constant(&relop(RelOp::Gt, num(4), num(3))), Some(1));
    assert_eq!(constant(&relop(RelOp::Gt, num(3), num(3))), Some(0));
    assert_eq!(constant(&relop(RelOp::Ge, num(3), num(3))), Some(1));
    assert_eq!(constant(&relop(RelOp::Ge, num(2), num(3))), Some(0));
}

#[test]
fn negation_folds() {
    assert_eq!(constant(&neg(num(5))), Some(-5));
    assert_eq!(constant(&neg(iden("x"))), None);
}

#[test]
fn an_operand_that_is_no_constant_gives_nac() {
    assert_eq!(constant(&arith(ArithOp::Sum, num(2), iden("x"))), None);
    assert_eq!(constant(&relop(RelOp::Eq, iden("x"), num(2))), None);
}

#[test]
fn reduction_replaces_known_identifiers() {
    let mut state = State::new();
    state.insert("a".to_string(), Value::Constant(2));
    state.insert("b".to_string(), Value::Nac);
    let node = arith(ArithOp::Sum, iden("a"), iden("b"));
    match node.reduced_version(&state) {
        AstNode::Arith(n) => {
            match *n.lhs {
                AstNode::Num(ref l) => {
                    assert_eq!(l.num, 2);
                    assert_eq!(l.loc.row, 3);
                    assert_eq!(l.loc.col, 4);
                    assert_eq!(l.loc.filepath, "f.irl");
                },
                _ => panic!("lhs is not folded"),
            }
            match *n.rhs {
                AstNode::Iden(ref r) => assert_eq!(r.name, "b"),
                _ => panic!("rhs has changed"),
            }
        },
        _ => panic!("the node has changed its kind"),
    }
}

#[test]
fn reduction_replaces_loads_of_known_cells_only() {
    let mut state = State::new();
    state.insert("p".to_string(), Value::Pointer(Box::new(Value::Constant(7))));
    state.insert("q".to_string(), Value::Pointer(Box::new(Value::Nac)));
    state.insert("c".to_string(), Value::Constant(1));
    let load = |name: &str| AstNode::Load(LoadAstNode { ptr: name.to_string(), loc: Loc::null() });
    assert!(matches!(load("p").reduced_version(&state), AstNode::Num(NumAstNode { num: 7, .. })));
    assert!(matches!(load("q").reduced_version(&state), AstNode::Load(_)));
    assert!(matches!(load("c").reduced_version(&state), AstNode::Load(_)));
    assert!(matches!(load("z").reduced_version(&state), AstNode::Load(_)));
    assert!(matches!(iden("p").reduced_version(&state), AstNode::Iden(_)));
}

#[test]
fn reduce_changes_the_node_in_place() {
    let mut state = State::new();
    state.insert("c".to_string(), Value::Constant(5));
    let mut node =
        AstNode::Ret(RetAstNode { var: Box::new(iden("c")), loc: Loc::null() });
    node.reduce(&state);
    match node {
        AstNode::Ret(r) => assert!(matches!(*r.var, AstNode::Num(NumAstNode { num: 5, .. }))),
        _ => panic!("the node has changed its kind"),
    }
}

#[test]
fn an_assignment_binds_the_value_of_its_reduced_right_side() {
    let mut state = State::new();
    state.insert("a".to_string(), Value::Constant(2));
    state.insert("b".to_string(), Value::Constant(3));
    assign("c", arith(ArithOp::Sum, iden("a"), iden("b"))).update_evaluations(&mut state);
    assert!(value_eq(state.get(&"c".to_string()).unwrap(), &Value::Constant(5)));
    assign("d", iden("zz")).update_evaluations(&mut state);
    assert!(value_eq(state.get(&"d".to_string()).unwrap(), &Value::Nac));
}

#[test]
fn a_call_binds_its_result_to_nac_and_a_store_binds_a_cell() {
    let mut state = State::new();
    state.insert("y".to_string(), Value::Constant(1));
    let call = AstNode::Call(CallAstNode {
        id: "y".to_string(),
        name: "f".to_string(),
        params: vec![],
        loc: Loc::null(),
    });
    call.update_evaluations(&mut state);
    assert!(value_eq(state.get(&"y".to_string()).unwrap(), &Value::Nac));
    let store = AstNode::Store(StoreAstNode {
        ptr: "p".to_string(),
        op: Box::new(num(7)),
        loc: Loc::null(),
    });
    store.update_evaluations(&mut state);
    assert!(value_eq(
        state.get(&"p".to_string()).unwrap(),
        &Value::Pointer(Box::new(Value::Constant(7)))
    ));
    let before = state.len();
    num(3).update_evaluations(&mut state);
    iden("y").update_evaluations(&mut state);
    assert_eq!(state.len(), before);
}

#[test]
fn dependencies_list_the_identifiers_read_in_order() {
    let node = assign("c", arith(ArithOp::Sum, iden("a"), arith(ArithOp::Mul, iden("b"), iden("a"))));
    assert_eq!(node.dependencies(), vec!["a", "b", "a"]);
    let store = AstNode::Store(StoreAstNode {
        ptr: "p".to_string(),
        op: Box::new(iden("v")),
        loc: Loc::null(),
    });
    assert_eq!(store.dependencies(), vec!["p", "v"]);
    let call = AstNode::Call(CallAstNode {
        id: "y".to_string(),
        name: "f".to_string(),
        params: vec![iden("u"), num(1), iden("w")],
        loc: Loc::null(),
    });
    assert_eq!(call.dependencies(), vec!["u", "w"]);
    assert!(num(1).dependencies().is_empty());
}

#[test]
fn productions_are_targets_results_and_pointers() {
    assert_eq!(assign("c", num(1)).production(), Some("c".to_string()));
    assert_eq!(num(1).production(), None);
    assert_eq!(iden("x").production(), None);
    let store = AstNode::Store(StoreAstNode {
        ptr: "p".to_string(),
        op: Box::new(iden("v")),
        loc: Loc::null(),
    });
    assert_eq!(store.production(), Some("p".to_string()));
}

#[test]
fn value_operands_hold_each_name_once() {
    let node = assign("c", arith(ArithOp::Sum, iden("a"), arith(ArithOp::Mul, iden("b"), iden("a"))));
    assert_eq!(node.value_operands(), vec!["c", "a", "b"]);
    let call = AstNode::Call(CallAstNode {
        id: "y".to_string(),
        name: "f".to_string(),
        params: vec![iden("u")],
        loc: Loc::null(),
    });
    assert_eq!(call.value_operands(), vec!["y"]);
}

#[test]
fn clone_copies_the_whole_tree() {
    let node = assign("c", arith(ArithOp::Sum, iden("a"), num(4)));
    assert_eq!(format!("{:?}", node.clone()), format!("{:?}", node));
}

#[test]
fn loc_is_the_position_of_the_node() {
    let l = iden("x").loc();
    assert_eq!((l.row, l.col, l.filepath.as_str()), (3, 4, "f.irl"));
    let l = Loc::null();
    assert_eq!((l.row, l.col, l.filepath.as_str()), (0, 0, ""));
}

#[test]
fn nodes_are_alike_whatever_their_positions() {
    let a = assign("c", arith(ArithOp::Sum, iden("a"), num(4)));
    let mut b = assign("c", arith(ArithOp::Sum, iden("a"), num(4)));
    if let AstNode::Assignment(ref mut n) = b {
        n.loc = Loc::new(9, 9, "g".to_string());
    }
    assert!(a == b);
    assert!(a.same(&b));
    assert!(a != assign("c", arith(ArithOp::Sub, iden("a"), num(4))));
    assert!(a != assign("d", arith(ArithOp::Sum, iden("a"), num(4))));
    assert!(a != assign("c", arith(ArithOp::Sum, iden("a"), num(5))));
    assert!(iden("x") != num(1));
    let call = |id: &str, params: Vec<AstNode>| {
        AstNode::Call(CallAstNode {
            id: id.to_string(),
            name: "f".to_string(),
            params,
            loc: Loc::null(),
        })
    };
    assert!(call("y", vec![num(1)]) == call("z", vec![num(1)]));
    assert!(call("y", vec![num(1)]) != call("y", vec![num(2)]));
    assert!(call("y", vec![num(1)]) != call("y", vec![num(1), num(1)]));
}

#[test]
fn values_compare_and_copy() {
    let v = Value::Pointer(Box::new(Value::Constant(3)));
    assert!(v.clone() == v);
    assert!(v != Value::Pointer(Box::new(Value::Constant(4))));
    assert!(Value::Nac != Value::Undefined);
}
