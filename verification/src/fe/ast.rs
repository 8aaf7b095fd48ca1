use vstd::prelude::*;
use crate::opt::lattice::Value;
use crate::fe::loc::{Loc, LocView};
use crate::opt::state::{lookup, State};

verus! {

#[derive(Clone, Copy, Debug, PartialEq, Eq, Structural)]
pub enum ArithOp {
    Sum,
    Sub,
    Mul,
    Div,
}

#[derive(Clone, Copy, Debug, PartialEq, Eq, Structural)]
pub enum RelOp {
    Eq,
    Neq,
    Gt,
    Lt,
    Ge,
    Le,
}

#[derive(Clone, Copy, Debug, PartialEq, Eq, Structural)]
pub enum UnaryOp {
    Neg,
}

/// A read of an identifier.
#[derive(Debug)]
pub struct IdenAstNode {
    pub name: String,
    pub loc: Loc,
}

/// An integer literal.
#[derive(Debug)]
pub struct NumAstNode {
    pub num: i32,
    pub loc: Loc,
}

/// A call of function `name` whose result is bound to `id`.
#[derive(Debug)]
pub struct CallAstNode {
    pub id: String,
    pub name: String,
    pub params: Vec<AstNode>,
    pub loc: Loc,
}

#[derive(Debug)]
pub struct ArithAstNode {
    pub op: ArithOp,
    pub lhs: Box<AstNode>,
    pub rhs: Box<AstNode>,
    pub loc: Loc,
}

#[derive(Debug)]
pub struct RelopAstNode {
    pub op: RelOp,
    pub lhs: Box<AstNode>,
    pub rhs: Box<AstNode>,
    pub loc: Loc,
}

#[derive(Debug)]
pub struct UnaryAstNode {
    pub op: UnaryOp,
    pub var: Box<AstNode>,
    pub loc: Loc,
}

#[derive(Debug)]
pub struct AllocAstNode {
    pub size: Box<AstNode>,
    pub loc: Loc,
}

#[derive(Debug)]
pub struct LoadAstNode {
    pub ptr: String,
    pub loc: Loc,
}

#[derive(Debug)]
pub struct StoreAstNode {
    pub ptr: String,
    pub op: Box<AstNode>,
    pub loc: Loc,
}

#[derive(Debug)]
pub struct FunctionAstNode {
    pub name: String,
    pub args: Vec<AstNode>,
    pub body: Vec<AstNode>,
    pub loc: Loc,
}

#[derive(Debug)]
pub struct AssignmentAstNode {
    pub name: String,
    pub var: Box<AstNode>,
    pub loc: Loc,
}

#[derive(Debug)]
pub struct GotoAstNode {
    pub name: String,
    pub loc: Loc,
}

#[derive(Debug)]
pub struct LabelAstNode {
    pub name: String,
    pub body: Vec<AstNode>,
    pub loc: Loc,
}

#[derive(Debug)]
pub struct IfAstNode {
    pub condition: Box<AstNode>,
    pub label: String,
    pub loc: Loc,
}

#[derive(Debug)]
pub struct RetAstNode {
    pub var: Box<AstNode>,
    pub loc: Loc,
}

/// An instruction or expression of the intermediate language.
#[derive(Debug)]
pub enum AstNode {
    Iden(IdenAstNode),
    Num(NumAstNode),
    Call(CallAstNode),
    Arith(ArithAstNode),
    Relop(RelopAstNode),
    Unary(UnaryAstNode),
    Alloc(AllocAstNode),
    Load(LoadAstNode),
    Store(StoreAstNode),
    Function(FunctionAstNode),
    Assignment(AssignmentAstNode),
    Goto(GotoAstNode),
    Label(LabelAstNode),
    If(IfAstNode),
    Ret(RetAstNode),
}

/// The mathematical content of an [`AstNode`]: the same tree with every
/// string replaced by the sequence of its characters and every vector by the
/// sequence of its elements.
#[allow(inconsistent_fields)]
pub enum Node {
    Iden { name: Seq<char>, loc: LocView },
    Num { num: i32, loc: LocView },
    Call { id: Seq<char>, name: Seq<char>, params: Seq<Node>, loc: LocView },
    Arith { op: ArithOp, lhs: Box<Node>, rhs: Box<Node>, loc: LocView },
    Relop { op: RelOp, lhs: Box<Node>, rhs: Box<Node>, loc: LocView },
    Unary { op: UnaryOp, var: Box<Node>, loc: LocView },
    Alloc { size: Box<Node>, loc: LocView },
    Load { ptr: Seq<char>, loc: LocView },
    Store { ptr: Seq<char>, op: Box<Node>, loc: LocView },
    Function { name: Seq<char>, args: Seq<Node>, body: Seq<Node>, loc: LocView },
    Assignment { name: Seq<char>, var: Box<Node>, loc: LocView },
    Goto { name: Seq<char>, loc: LocView },
    Label { name: Seq<char>, body: Seq<Node>, loc: LocView },
    If { condition: Box<Node>, label: Seq<char>, loc: LocView },
    Ret { var: Box<Node>, loc: LocView },
}

/// The content of a node, computed by recursion over the tree.
pub open spec fn node_view(node: AstNode) -> Node
    decreases node,
{
        match node {
            AstNode::Iden(n) => Node::Iden { name: n.name@, loc: n.loc@ },
            AstNode::Num(n) => Node::Num { num: n.num, loc: n.loc@ },
            AstNode::Call(n) => Node::Call {
                id: n.id@,
                name: n.name@,
                params: Seq::new(
                    n.params.len() as nat,
                    |i: int|
                        if 0 <= i < n.params.len() {
                            node_view(n.params[i])
                        } else {
                            arbitrary()
                        },
                ),
                loc: n.loc@,
            },
            AstNode::Arith(n) => Node::Arith {
                op: n.op,
                lhs: Box::new(node_view(*n.lhs)),
                rhs: Box::new(node_view(*n.rhs)),
                loc: n.loc@,
            },
            AstNode::Relop(n) => Node::Relop {
                op: n.op,
                lhs: Box::new(node_view(*n.lhs)),
                rhs: Box::new(node_view(*n.rhs)),
                loc: n.loc@,
            },
            AstNode::Unary(n) => Node::Unary { op: n.op, var: Box::new(node_view(*n.var)), loc: n.loc@ },
            AstNode::Alloc(n) => Node::Alloc { size: Box::new(node_view(*n.size)), loc: n.loc@ },
            AstNode::Load(n) => Node::Load { ptr: n.ptr@, loc: n.loc@ },
            AstNode::Store(n) => Node::Store { ptr: n.ptr@, op: Box::new(node_view(*n.op)), loc: n.loc@ },
            AstNode::Function(n) => Node::Function {
                name: n.name@,
                args: Seq::new(
                    n.args.len() as nat,
                    |i: int|
                        if 0 <= i < n.args.len() {
                            node_view(n.args[i])
                        } else {
                            arbitrary()
                        },
                ),
                body: Seq::new(
                    n.body.len() as nat,
                    |i: int|
                        if 0 <= i < n.body.len() {
                            node_view(n.body[i])
                        } else {
                            arbitrary()
                        },
                ),
                loc: n.loc@,
            },
            AstNode::Assignment(n) => Node::Assignment {
                name: n.name@,
                var: Box::new(node_view(*n.var)),
                loc: n.loc@,
            },
            AstNode::Goto(n) => Node::Goto { name: n.name@, loc: n.loc@ },
            AstNode::Label(n) => Node::Label {
                name: n.name@,
                body: Seq::new(
                    n.body.len() as nat,
                    |i: int|
                        if 0 <= i < n.body.len() {
                            node_view(n.body[i])
                        } else {
                            arbitrary()
                        },
                ),
                loc: n.loc@,
            },
            AstNode::If(n) => Node::If {
                condition: Box::new(node_view(*n.condition)),
                label: n.label@,
                loc: n.loc@,
            },
            AstNode::Ret(n) => Node::Ret { var: Box::new(node_view(*n.var)), loc: n.loc@ },
        }
}

impl View for AstNode {
    type V = Node;

    open spec fn view(&self) -> Node {
        node_view(*self)
    }
}

/// The contents of a vector of nodes, element by element.
pub open spec fn nodes_view(v: Seq<AstNode>) -> Seq<Node> {
    Seq::new(v.len(), |i: int| v[i]@)
}

/// The view of a composite node holds the views of the elements of its
/// vectors.
pub proof fn lemma_view_children(n: AstNode)
    ensures
        n matches AstNode::Call(c) ==> n@->Call_params == nodes_view(c.params@),
        n matches AstNode::Function(f) ==> n@->Function_args == nodes_view(f.args@)
            && n@->Function_body == nodes_view(f.body@),
        n matches AstNode::Label(l) ==> n@->Label_body == nodes_view(l.body@),
{
    match n {
        AstNode::Call(c) => {
            assert(n@ is Call);
            assert(n@->Call_params.len() == c.params@.len());
            assert forall|i: int| 0 <= i < c.params@.len() implies n@->Call_params[i] == c.params@[i]@ by {}
            assert(n@->Call_params =~= nodes_view(c.params@));
        },
        AstNode::Function(f) => {
            assert(n@->Function_args =~= nodes_view(f.args@));
            assert(n@->Function_body =~= nodes_view(f.body@));
        },
        AstNode::Label(l) => {
            assert(n@->Label_body =~= nodes_view(l.body@));
        },
        _ => {},
    }
}


/// The views of a vector of strings, element by element.
pub open spec fn names_view(v: Seq<String>) -> Seq<Seq<char>> {
    Seq::new(v.len(), |i: int| v[i]@)
}

/// Whether a node ends a straight-line run of instructions in the source
/// text: a jump, a conditional jump or a label.
pub open spec fn is_terminator(n: Node) -> bool {
    n is Goto || n is Label || n is If
}

/// The identifier that a node defines, if it defines one: the target of an
/// assignment, the result of a call, the pointer of a store.
pub open spec fn production(n: Node) -> Option<Seq<char>> {
    match n {
        Node::Call { id, .. } => Some(id),
        Node::Assignment { name, .. } => Some(name),
        Node::Store { ptr, .. } => Some(ptr),
        _ => None,
    }
}

/// The source position of a node.
pub open spec fn loc_of(n: Node) -> LocView {
    match n {
        Node::Iden { loc, .. } => loc,
        Node::Num { loc, .. } => loc,
        Node::Call { loc, .. } => loc,
        Node::Arith { loc, .. } => loc,
        Node::Relop { loc, .. } => loc,
        Node::Unary { loc, .. } => loc,
        Node::Alloc { loc, .. } => loc,
        Node::Load { loc, .. } => loc,
        Node::Store { loc, .. } => loc,
        Node::Function { loc, .. } => loc,
        Node::Assignment { loc, .. } => loc,
        Node::Goto { loc, .. } => loc,
        Node::Label { loc, .. } => loc,
        Node::If { loc, .. } => loc,
        Node::Ret { loc, .. } => loc,
    }
}

/// The identifiers that a node reads, in the order of their occurrence, with
/// repetitions. A function reads what its argument nodes read; labels and
/// jumps read nothing.
pub open spec fn dependencies(n: Node) -> Seq<Seq<char>>
    decreases n,
{
    match n {
        Node::Iden { name, .. } => seq![name],
        Node::Num { .. } => Seq::empty(),
        Node::Call { params, .. } => dependencies_of_all(params),
        Node::Arith { lhs, rhs, .. } => dependencies(*lhs) + dependencies(*rhs),
        Node::Relop { lhs, rhs, .. } => dependencies(*lhs) + dependencies(*rhs),
        Node::Unary { var, .. } => dependencies(*var),
        Node::Alloc { size, .. } => dependencies(*size),
        Node::Load { ptr, .. } => seq![ptr],
        Node::Store { ptr, op, .. } => seq![ptr] + dependencies(*op),
        Node::Function { args, .. } => dependencies_of_all(args),
        Node::Assignment { var, .. } => dependencies(*var),
        Node::Goto { .. } => Seq::empty(),
        Node::Label { .. } => Seq::empty(),
        Node::If { condition, .. } => dependencies(*condition),
        Node::Ret { var, .. } => dependencies(*var),
    }
}

/// The identifiers that the nodes of a list read, list order first.
pub open spec fn dependencies_of_all(nodes: Seq<Node>) -> Seq<Seq<char>>
    decreases nodes,
{
    if nodes.len() == 0 {
        Seq::empty()
    } else {
        dependencies_of_all(nodes.drop_last()) + dependencies(nodes.last())
    }
}

/// The abstract value of an integer result: the constant, where 32 bits
/// hold it, else `Nac`.
pub open spec fn constant_of(x: int) -> Value {
    if i32::MIN <= x <= i32::MAX {
        Value::Constant(x as i32)
    } else {
        Value::Nac
    }
}

/// The quotient of `a` by `b`, rounded towards zero.
pub open spec fn quotient(a: int, b: int) -> int
    recommends
        b != 0,
{
    if a >= 0 && b > 0 {
        a / b
    } else if a < 0 && b < 0 {
        (-a) / (-b)
    } else if a < 0 {
        -((-a) / b)
    } else {
        -(a / (-b))
    }
}

/// The value of an arithmetic operation on two constants. A result that 32
/// bits do not hold, and a division by zero, are left to the running
/// program: they give `Nac`.
pub open spec fn fold_arith(op: ArithOp, a: i32, b: i32) -> Value {
    match op {
        ArithOp::Sum => constant_of(a + b),
        ArithOp::Sub => constant_of(a - b),
        ArithOp::Mul => constant_of(a * b),
        ArithOp::Div => if b == 0 {
            Value::Nac
        } else {
            constant_of(quotient(a as int, b as int))
        },
    }
}

/// Whether a relation holds of two constants.
pub open spec fn relation_holds(op: RelOp, a: i32, b: i32) -> bool {
    match op {
        RelOp::Eq => a == b,
        RelOp::Neq => a != b,
        RelOp::Gt => a > b,
        RelOp::Lt => a < b,
        RelOp::Ge => a >= b,
        RelOp::Le => a <= b,
    }
}

/// The value of a relational operation on two constants: 1 where the
/// relation holds, else 0.
pub open spec fn fold_relop(op: RelOp, a: i32, b: i32) -> Value {
    Value::Constant(if relation_holds(op, a, b) { 1i32 } else { 0i32 })
}

/// The value of a unary operation on a constant.
pub open spec fn fold_unary(op: UnaryOp, a: i32) -> Value {
    match op {
        UnaryOp::Neg => constant_of(-a),
    }
}

/// The abstract value of an expression, from its literals alone. A read of
/// an identifier is `Nac`: what is known of identifiers enters by
/// [`reduced`], before the evaluation.
pub open spec fn evaluate(n: Node) -> Value
    decreases n,
{
    match n {
        Node::Num { num, .. } => Value::Constant(num),
        Node::Arith { op, lhs, rhs, .. } => match (evaluate(*lhs), evaluate(*rhs)) {
            (Value::Constant(a), Value::Constant(b)) => fold_arith(op, a, b),
            _ => Value::Nac,
        },
        Node::Relop { op, lhs, rhs, .. } => match (evaluate(*lhs), evaluate(*rhs)) {
            (Value::Constant(a), Value::Constant(b)) => fold_relop(op, a, b),
            _ => Value::Nac,
        },
        Node::Unary { op, var, .. } => match evaluate(*var) {
            Value::Constant(a) => fold_unary(op, a),
            _ => Value::Nac,
        },
        Node::Assignment { var, .. } => evaluate(*var),
        Node::Ret { var, .. } => evaluate(*var),
        _ => Value::Nac,
    }
}

/// The node with what the state knows put in: a read of an identifier bound
/// to a constant becomes that literal, a load through a pointer whose cell
/// holds a constant becomes that literal, and the operands of arithmetic,
/// relational and unary operations, assignments, stores and returns are
/// treated likewise. Every other node stays as it is.
pub open spec fn reduced(n: Node, state: Map<Seq<char>, Value>) -> Node
    decreases n,
{
    match n {
        Node::Iden { name, loc } => match lookup(state, name) {
            Value::Constant(c) => Node::Num { num: c, loc },
            _ => n,
        },
        Node::Load { ptr, loc } => match lookup(state, ptr) {
            Value::Pointer(cell) => match *cell {
                Value::Constant(c) => Node::Num { num: c, loc },
                _ => n,
            },
            _ => n,
        },
        Node::Arith { op, lhs, rhs, loc } => Node::Arith {
            op,
            lhs: Box::new(reduced(*lhs, state)),
            rhs: Box::new(reduced(*rhs, state)),
            loc,
        },
        Node::Relop { op, lhs, rhs, loc } => Node::Relop {
            op,
            lhs: Box::new(reduced(*lhs, state)),
            rhs: Box::new(reduced(*rhs, state)),
            loc,
        },
        Node::Unary { op, var, loc } => Node::Unary { op, var: Box::new(reduced(*var, state)), loc },
        Node::Store { ptr, op, loc } => Node::Store { ptr, op: Box::new(reduced(*op, state)), loc },
        Node::Assignment { name, var, loc } => Node::Assignment {
            name,
            var: Box::new(reduced(*var, state)),
            loc,
        },
        Node::Ret { var, loc } => Node::Ret { var: Box::new(reduced(*var, state)), loc },
        _ => n,
    }
}

/// The state after an instruction, from the state before it. An assignment
/// binds its target to the value of its reduced right-hand side, a call
/// binds its result to `Nac`, a store binds its pointer to a cell that holds
/// the value of the reduced operand. Every other node leaves the state as
/// it is.
pub open spec fn transfer(n: Node, state: Map<Seq<char>, Value>) -> Map<Seq<char>, Value> {
    match n {
        Node::Call { id, .. } => state.insert(id, Value::Nac),
        Node::Store { ptr, op, .. } => state.insert(
            ptr,
            Value::Pointer(Box::new(evaluate(reduced(*op, state)))),
        ),
        Node::Assignment { name, var, .. } => state.insert(name, evaluate(reduced(*var, state))),
        _ => state,
    }
}


/// A copy of a vector of nodes.
pub fn clone_nodes(nodes: &Vec<AstNode>) -> (res: Vec<AstNode>)
    ensures
        nodes_view(res@) == nodes_view(nodes@),
    decreases nodes,
{
    let mut res: Vec<AstNode> = Vec::new();
    let mut i: usize = 0;
    while i < nodes.len()
        invariant
            i <= nodes.len(),
            res.len() == i,
            forall|j: int| 0 <= j < i ==> res@[j]@ == nodes@[j]@,
        decreases nodes.len() - i,
    {
        proof {
            vstd::std_specs::vec::axiom_vec_index_decreases(*nodes, i as int);
        }
        res.push(nodes[i].clone());
        i += 1;
    }
    assert(nodes_view(res@) =~= nodes_view(nodes@));
    res
}

impl Clone for AstNode {
    fn clone(&self) -> (res: Self)
        ensures
            res@ == self@,
        decreases self,
    {
        let res = match self {
            AstNode::Iden(n) => AstNode::Iden(IdenAstNode { name: n.name.clone(), loc: n.loc.clone() }),
            AstNode::Num(n) => AstNode::Num(NumAstNode { num: n.num, loc: n.loc.clone() }),
            AstNode::Call(n) => AstNode::Call(
                CallAstNode {
                    id: n.id.clone(),
                    name: n.name.clone(),
                    params: clone_nodes(&n.params),
                    loc: n.loc.clone(),
                },
            ),
            AstNode::Arith(n) => AstNode::Arith(
                ArithAstNode {
                    op: n.op,
                    lhs: Box::new((*n.lhs).clone()),
                    rhs: Box::new((*n.rhs).clone()),
                    loc: n.loc.clone(),
                },
            ),
            AstNode::Relop(n) => AstNode::Relop(
                RelopAstNode {
                    op: n.op,
                    lhs: Box::new((*n.lhs).clone()),
                    rhs: Box::new((*n.rhs).clone()),
                    loc: n.loc.clone(),
                },
            ),
            AstNode::Unary(n) => AstNode::Unary(
                UnaryAstNode { op: n.op, var: Box::new((*n.var).clone()), loc: n.loc.clone() },
            ),
            AstNode::Alloc(n) => AstNode::Alloc(
                AllocAstNode { size: Box::new((*n.size).clone()), loc: n.loc.clone() },
            ),
            AstNode::Load(n) => AstNode::Load(LoadAstNode { ptr: n.ptr.clone(), loc: n.loc.clone() }),
            AstNode::Store(n) => AstNode::Store(
                StoreAstNode { ptr: n.ptr.clone(), op: Box::new((*n.op).clone()), loc: n.loc.clone() },
            ),
            AstNode::Function(n) => AstNode::Function(
                FunctionAstNode {
                    name: n.name.clone(),
                    args: clone_nodes(&n.args),
                    body: clone_nodes(&n.body),
                    loc: n.loc.clone(),
                },
            ),
            AstNode::Assignment(n) => AstNode::Assignment(
                AssignmentAstNode {
                    name: n.name.clone(),
                    var: Box::new((*n.var).clone()),
                    loc: n.loc.clone(),
                },
            ),
            AstNode::Goto(n) => AstNode::Goto(GotoAstNode { name: n.name.clone(), loc: n.loc.clone() }),
            AstNode::Label(n) => AstNode::Label(
                LabelAstNode { name: n.name.clone(), body: clone_nodes(&n.body), loc: n.loc.clone() },
            ),
            AstNode::If(n) => AstNode::If(
                IfAstNode {
                    condition: Box::new((*n.condition).clone()),
                    label: n.label.clone(),
                    loc: n.loc.clone(),
                },
            ),
            AstNode::Ret(n) => AstNode::Ret(
                RetAstNode { var: Box::new((*n.var).clone()), loc: n.loc.clone() },
            ),
        };
        proof {
            lemma_view_children(res);
            lemma_view_children(*self);
        }
        res
    }
}

impl AstNode {
    /// Whether the node is a jump, a conditional jump or a label.
    pub fn is_terminator(&self) -> (res: bool)
        ensures
            res == is_terminator(self@),
    {
        match self {
            AstNode::Goto(_) => true,
            AstNode::Label(_) => true,
            AstNode::If(_) => true,
            _ => false,
        }
    }

    /// The identifier that the node defines, if it defines one.
    pub fn production(&self) -> (res: Option<String>)
        ensures
            match res {
                Some(name) => production(self@) == Some(name@),
                None => production(self@) is None,
            },
    {
        match self {
            AstNode::Call(node) => Some(node.id.clone()),
            AstNode::Assignment(node) => Some(node.name.clone()),
            AstNode::Store(node) => Some(node.ptr.clone()),
            _ => None,
        }
    }

    /// The source position of the node.
    pub fn loc(&self) -> (res: Loc)
        ensures
            res@ == loc_of(self@),
    {
        match self {
            AstNode::Iden(node) => node.loc.clone(),
            AstNode::Num(node) => node.loc.clone(),
            AstNode::Call(node) => node.loc.clone(),
            AstNode::Arith(node) => node.loc.clone(),
            AstNode::Relop(node) => node.loc.clone(),
            AstNode::Unary(node) => node.loc.clone(),
            AstNode::Function(node) => node.loc.clone(),
            AstNode::Assignment(node) => node.loc.clone(),
            AstNode::Goto(node) => node.loc.clone(),
            AstNode::Label(node) => node.loc.clone(),
            AstNode::If(node) => node.loc.clone(),
            AstNode::Ret(node) => node.loc.clone(),
            AstNode::Alloc(node) => node.loc.clone(),
            AstNode::Load(node) => node.loc.clone(),
            AstNode::Store(node) => node.loc.clone(),
        }
    }

    /// The abstract value of the node, from its literals alone.
    pub fn evaluate(&self) -> (res: Value)
        ensures
            res == evaluate(self@),
        decreases self,
    {
        match self {
            AstNode::Num(c) => Value::Constant(c.num),
            AstNode::Arith(node) => {
                match (node.lhs.evaluate(), node.rhs.evaluate()) {
                    (Value::Constant(c1), Value::Constant(c2)) => {
                        let folded = match node.op {
                            ArithOp::Sum => c1.checked_add(c2),
                            ArithOp::Sub => c1.checked_sub(c2),
                            ArithOp::Mul => c1.checked_mul(c2),
                            ArithOp::Div => c1.checked_div(c2),
                        };
                        match folded {
                            Some(c) => Value::Constant(c),
                            None => Value::Nac,
                        }
                    },
                    _ => Value::Nac,
                }
            },
            AstNode::Relop(node) => {
                match (node.lhs.evaluate(), node.rhs.evaluate()) {
                    (Value::Constant(c1), Value::Constant(c2)) => {
                        let holds = match node.op {
                            RelOp::Eq => c1 == c2,
                            RelOp::Neq => c1 != c2,
                            RelOp::Gt => c1 > c2,
                            RelOp::Lt => c1 < c2,
                            RelOp::Ge => c1 >= c2,
                            RelOp::Le => c1 <= c2,
                        };
                        if holds {
                            Value::Constant(1)
                        } else {
                            Value::Constant(0)
                        }
                    },
                    _ => Value::Nac,
                }
            },
            AstNode::Unary(node) => {
                match node.var.evaluate() {
                    Value::Constant(c) => match node.op {
                        UnaryOp::Neg => match 0i32.checked_sub(c) {
                            Some(r) => Value::Constant(r),
                            None => Value::Nac,
                        },
                    },
                    _ => Value::Nac,
                }
            },
            AstNode::Assignment(node) => node.var.evaluate(),
            AstNode::Ret(node) => node.var.evaluate(),
            _ => Value::Nac,
        }
    }
}


/// The identifiers that a node names as operands: every identifier read or
/// written in it, but for the arguments of a call, which names its result
/// only.
pub open spec fn operands(n: Node) -> Set<Seq<char>>
    decreases n,
{
    match n {
        Node::Iden { name, .. } => set![name],
        Node::Num { .. } => Set::empty(),
        Node::Call { id, .. } => set![id],
        Node::Arith { lhs, rhs, .. } => operands(*lhs).union(operands(*rhs)),
        Node::Relop { lhs, rhs, .. } => operands(*lhs).union(operands(*rhs)),
        Node::Unary { var, .. } => operands(*var),
        Node::Alloc { size, .. } => operands(*size),
        Node::Load { ptr, .. } => set![ptr],
        Node::Store { ptr, op, .. } => set![ptr].union(operands(*op)),
        Node::Function { args, body, .. } => operands_of_all(args).union(operands_of_all(body)),
        Node::Assignment { name, var, .. } => set![name].union(operands(*var)),
        Node::Goto { .. } => Set::empty(),
        Node::Label { body, .. } => operands_of_all(body),
        Node::If { condition, .. } => operands(*condition),
        Node::Ret { var, .. } => operands(*var),
    }
}

/// The operands of the nodes of a list.
pub open spec fn operands_of_all(nodes: Seq<Node>) -> Set<Seq<char>>
    decreases nodes,
{
    if nodes.len() == 0 {
        Set::empty()
    } else {
        operands_of_all(nodes.drop_last()).union(operands(nodes.last()))
    }
}

/// A list of names with `name` behind it, unless the list holds it.
pub open spec fn with_name(names: Seq<Seq<char>>, name: Seq<char>) -> Seq<Seq<char>> {
    if names.contains(name) {
        names
    } else {
        names.push(name)
    }
}

/// The list `acc` with the operands of a node behind it, in the order of
/// their first occurrence, each name once.
pub open spec fn operands_onto(n: Node, acc: Seq<Seq<char>>) -> Seq<Seq<char>>
    decreases n,
{
    match n {
        Node::Iden { name, .. } => with_name(acc, name),
        Node::Num { .. } => acc,
        Node::Call { id, .. } => with_name(acc, id),
        Node::Arith { lhs, rhs, .. } => operands_onto(*rhs, operands_onto(*lhs, acc)),
        Node::Relop { lhs, rhs, .. } => operands_onto(*rhs, operands_onto(*lhs, acc)),
        Node::Unary { var, .. } => operands_onto(*var, acc),
        Node::Alloc { size, .. } => operands_onto(*size, acc),
        Node::Load { ptr, .. } => with_name(acc, ptr),
        Node::Store { ptr, op, .. } => operands_onto(*op, with_name(acc, ptr)),
        Node::Function { args, body, .. } => operands_of_all_onto(
            body,
            operands_of_all_onto(args, acc),
        ),
        Node::Assignment { name, var, .. } => operands_onto(*var, with_name(acc, name)),
        Node::Goto { .. } => acc,
        Node::Label { body, .. } => operands_of_all_onto(body, acc),
        Node::If { condition, .. } => operands_onto(*condition, acc),
        Node::Ret { var, .. } => operands_onto(*var, acc),
    }
}

/// The list `acc` with the operands of the nodes of a list behind it.
pub open spec fn operands_of_all_onto(nodes: Seq<Node>, acc: Seq<Seq<char>>) -> Seq<Seq<char>>
    decreases nodes,
{
    if nodes.len() == 0 {
        acc
    } else {
        operands_onto(nodes.last(), operands_of_all_onto(nodes.drop_last(), acc))
    }
}

/// The operands of a node, in the order of their first occurrence, each
/// name once.
pub open spec fn operand_list(n: Node) -> Seq<Seq<char>> {
    operands_onto(n, Seq::empty())
}

/// Adds a name to a list of distinct names, unless the list holds it.
pub fn add_name(names: &mut Vec<String>, name: String)
    requires
        names_view(old(names)@).no_duplicates(),
    ensures
        names_view(final(names)@).no_duplicates(),
        names_view(final(names)@).to_set() == names_view(old(names)@).to_set().insert(name@),
        names_view(old(names)@).contains(name@) ==> final(names)@ == old(names)@,
        !names_view(old(names)@).contains(name@) ==> final(names)@ == old(names)@.push(name),
        names_view(final(names)@) == with_name(names_view(old(names)@), name@),
{
    let mut i: usize = 0;
    while i < names.len()
        invariant
            i <= names.len(),
            names@ == old(names)@,
            names_view(names@).no_duplicates(),
            forall|j: int| 0 <= j < i ==> names@[j]@ != name@,
        decreases names.len() - i,
    {
        if names[i] == name {
            proof {
                let nv = names_view(names@);
                assert(nv[i as int] == name@);
                assert(nv.to_set().insert(name@) =~= nv.to_set());
            }
            return ;
        }
        i += 1;
    }
    proof {
        let nv = names_view(names@);
        assert(!nv.contains(name@));
        assert(names_view(names@.push(name)) =~= nv.push(name@));
        assert forall|x: Seq<char>| nv.push(name@).contains(x) <==> nv.contains(x) || x == name@ by {
            vstd::seq_lib::lemma_seq_contains_after_push(nv, name@, x);
        }
        assert(nv.push(name@).to_set() =~= nv.to_set().insert(name@));
    }
    names.push(name);
}

/// Adds the identifiers that the nodes of a list read to `res`, in order.
fn append_dependencies(nodes: &Vec<AstNode>, res: &mut Vec<String>)
    ensures
        names_view(final(res)@) == names_view(old(res)@) + dependencies_of_all(nodes_view(nodes@)),
    decreases nodes,
{
    let ghost nv = nodes_view(nodes@);
    let mut i: usize = 0;
    assert(nv.take(0) =~= Seq::<Node>::empty());
    assert(names_view(res@) + Seq::<Seq<char>>::empty() =~= names_view(res@));
    while i < nodes.len()
        invariant
            i <= nodes.len(),
            nv == nodes_view(nodes@),
            names_view(res@) == names_view(old(res)@) + dependencies_of_all(nv.take(i as int)),
        decreases nodes.len() - i,
    {
        proof {
            vstd::std_specs::vec::axiom_vec_index_decreases(*nodes, i as int);
        }
        let mut more = nodes[i].dependencies();
        let ghost before = res@;
        let ghost added = more@;
        res.append(&mut more);
        proof {
            assert(names_view(before + added) =~= names_view(before) + names_view(added));
            assert(nv.take(i as int + 1).drop_last() =~= nv.take(i as int));
            assert(nv.take(i as int + 1).last() == nodes@[i as int]@);
            assert(names_view(res@) =~= names_view(old(res)@) + dependencies_of_all(
                nv.take(i as int + 1),
            ));
        }
        i += 1;
    }
    assert(nv.take(nodes.len() as int) =~= nv);
}

/// Adds the operands of the nodes of a list to a list of distinct names.
fn collect_operands_of_all(nodes: &Vec<AstNode>, acc: &mut Vec<String>)
    requires
        names_view(old(acc)@).no_duplicates(),
    ensures
        names_view(final(acc)@).no_duplicates(),
        names_view(final(acc)@).to_set() == names_view(old(acc)@).to_set().union(
            operands_of_all(nodes_view(nodes@)),
        ),
        names_view(final(acc)@) == operands_of_all_onto(
            nodes_view(nodes@),
            names_view(old(acc)@),
        ),
    decreases nodes,
{
    let ghost nv = nodes_view(nodes@);
    let mut i: usize = 0;
    assert(nv.take(0) =~= Seq::<Node>::empty());
    assert(names_view(acc@).to_set().union(Set::empty()) =~= names_view(acc@).to_set());
    while i < nodes.len()
        invariant
            i <= nodes.len(),
            nv == nodes_view(nodes@),
            names_view(acc@).no_duplicates(),
            names_view(acc@).to_set() == names_view(old(acc)@).to_set().union(
                operands_of_all(nv.take(i as int)),
            ),
            names_view(acc@) == operands_of_all_onto(nv.take(i as int), names_view(old(acc)@)),
        decreases nodes.len() - i,
    {
        proof {
            vstd::std_specs::vec::axiom_vec_index_decreases(*nodes, i as int);
        }
        nodes[i].collect_operands(acc);
        proof {
            assert(nv.take(i as int + 1).drop_last() =~= nv.take(i as int));
            assert(nv.take(i as int + 1).last() == nodes@[i as int]@);
            assert(names_view(acc@).to_set() =~= names_view(old(acc)@).to_set().union(
                operands_of_all(nv.take(i as int + 1)),
            ));
        }
        i += 1;
    }
    assert(nv.take(nodes.len() as int) =~= nv);
}

impl AstNode {
    /// The identifiers that the node reads, in the order of their
    /// occurrence, with repetitions.
    pub fn dependencies(&self) -> (res: Vec<String>)
        ensures
            names_view(res@) == dependencies(self@),
        decreases self,
    {
        let mut res: Vec<String> = Vec::new();
        assert(names_view(res@) =~= Seq::<Seq<char>>::empty());
        proof {
            lemma_view_children(*self);
        }
        match self {
            AstNode::Iden(node) => {
                res.push(node.name.clone());
                assert(names_view(res@) =~= seq![node.name@]);
            },
            AstNode::Num(_) => {},
            AstNode::Call(node) => {
                append_dependencies(&node.params, &mut res);
                assert(names_view(res@) =~= dependencies(self@));
            },
            AstNode::Arith(node) => {
                let mut l = node.lhs.dependencies();
                let mut r = node.rhs.dependencies();
                let ghost lv = l@;
                let ghost rv = r@;
                res.append(&mut l);
                res.append(&mut r);
                assert(names_view(res@) =~= names_view(lv) + names_view(rv));
            },
            AstNode::Relop(node) => {
                let mut l = node.lhs.dependencies();
                let mut r = node.rhs.dependencies();
                let ghost lv = l@;
                let ghost rv = r@;
                res.append(&mut l);
                res.append(&mut r);
                assert(names_view(res@) =~= names_view(lv) + names_view(rv));
            },
            AstNode::Unary(node) => {
                res = node.var.dependencies();
            },
            AstNode::Function(node) => {
                append_dependencies(&node.args, &mut res);
                assert(names_view(res@) =~= dependencies(self@));
            },
            AstNode::Assignment(node) => {
                res = node.var.dependencies();
            },
            AstNode::Goto(_) => {},
            AstNode::Label(_) => {},
            AstNode::If(node) => {
                res = node.condition.dependencies();
            },
            AstNode::Ret(node) => {
                res = node.var.dependencies();
            },
            AstNode::Alloc(node) => {
                res = node.size.dependencies();
            },
            AstNode::Load(node) => {
                res.push(node.ptr.clone());
                assert(names_view(res@) =~= seq![node.ptr@]);
            },
            AstNode::Store(node) => {
                res.push(node.ptr.clone());
                let mut r = node.op.dependencies();
                let ghost rv = r@;
                res.append(&mut r);
                assert(names_view(res@) =~= seq![node.ptr@] + names_view(rv));
            },
        }
        res
    }

    /// Adds the operands of the node to a list of distinct names.
    pub fn collect_operands(&self, acc: &mut Vec<String>)
        requires
            names_view(old(acc)@).no_duplicates(),
        ensures
            names_view(final(acc)@).no_duplicates(),
            names_view(final(acc)@).to_set() == names_view(old(acc)@).to_set().union(
                operands(self@),
            ),
            names_view(final(acc)@) == operands_onto(self@, names_view(old(acc)@)),
        decreases self,
    {
        let ghost start = names_view(acc@).to_set();
        proof {
            lemma_view_children(*self);
            assert(start.union(Set::empty()) =~= start);
        }
        match self {
            AstNode::Iden(node) => {
                add_name(acc, node.name.clone());
                assert(start.insert(node.name@) =~= start.union(set![node.name@]));
            },
            AstNode::Num(_) => {},
            AstNode::Call(node) => {
                add_name(acc, node.id.clone());
                assert(start.insert(node.id@) =~= start.union(set![node.id@]));
            },
            AstNode::Arith(node) => {
                node.lhs.collect_operands(acc);
                node.rhs.collect_operands(acc);
                assert(names_view(acc@).to_set() =~= start.union(operands(self@)));
            },
            AstNode::Relop(node) => {
                node.lhs.collect_operands(acc);
                node.rhs.collect_operands(acc);
                assert(names_view(acc@).to_set() =~= start.union(operands(self@)));
            },
            AstNode::Unary(node) => {
                node.var.collect_operands(acc);
            },
            AstNode::Alloc(node) => {
                node.size.collect_operands(acc);
            },
            AstNode::Load(node) => {
                add_name(acc, node.ptr.clone());
                assert(start.insert(node.ptr@) =~= start.union(set![node.ptr@]));
            },
            AstNode::Store(node) => {
                add_name(acc, node.ptr.clone());
                node.op.collect_operands(acc);
                assert(names_view(acc@).to_set() =~= start.union(operands(self@)));
            },
            AstNode::Function(node) => {
                collect_operands_of_all(&node.args, acc);
                collect_operands_of_all(&node.body, acc);
                assert(names_view(acc@).to_set() =~= start.union(operands(self@)));
            },
            AstNode::Assignment(node) => {
                add_name(acc, node.name.clone());
                node.var.collect_operands(acc);
                assert(names_view(acc@).to_set() =~= start.union(operands(self@)));
            },
            AstNode::Goto(_) => {},
            AstNode::Label(node) => {
                collect_operands_of_all(&node.body, acc);
            },
            AstNode::If(node) => {
                node.condition.collect_operands(acc);
            },
            AstNode::Ret(node) => {
                node.var.collect_operands(acc);
            },
        }
    }

    /// The operands of the node, each once, in the order of their first
    /// occurrence.
    pub fn value_operands(&self) -> (res: Vec<String>)
        ensures
            names_view(res@).no_duplicates(),
            names_view(res@).to_set() == operands(self@),
            names_view(res@) == operand_list(self@),
    {
        let mut res: Vec<String> = Vec::new();
        assert(names_view(res@) =~= Seq::<Seq<char>>::empty());
        assert(Seq::<Seq<char>>::empty().to_set() =~= Set::<Seq<char>>::empty());
        self.collect_operands(&mut res);
        assert(Set::<Seq<char>>::empty().union(operands(self@)) =~= operands(self@));
        res
    }
}


impl AstNode {
    /// The node with what `state` knows put in.
    pub fn reduced_version(&self, state: &State) -> (res: AstNode)
        ensures
            res@ == reduced(self@, state@),
        decreases self,
    {
        match self {
            AstNode::Iden(node) => {
                match state.get(&node.name) {
                    Some(Value::Constant(c)) => AstNode::Num(
                        NumAstNode { num: *c, loc: node.loc.clone() },
                    ),
                    _ => self.clone(),
                }
            },
            AstNode::Load(node) => {
                match state.get(&node.ptr) {
                    Some(Value::Pointer(cell)) => match &**cell {
                        Value::Constant(c) => AstNode::Num(
                            NumAstNode { num: *c, loc: node.loc.clone() },
                        ),
                        _ => self.clone(),
                    },
                    _ => self.clone(),
                }
            },
            AstNode::Arith(node) => AstNode::Arith(
                ArithAstNode {
                    op: node.op,
                    lhs: Box::new(node.lhs.reduced_version(state)),
                    rhs: Box::new(node.rhs.reduced_version(state)),
                    loc: node.loc.clone(),
                },
            ),
            AstNode::Relop(node) => AstNode::Relop(
                RelopAstNode {
                    op: node.op,
                    lhs: Box::new(node.lhs.reduced_version(state)),
                    rhs: Box::new(node.rhs.reduced_version(state)),
                    loc: node.loc.clone(),
                },
            ),
            AstNode::Unary(node) => AstNode::Unary(
                UnaryAstNode {
                    op: node.op,
                    var: Box::new(node.var.reduced_version(state)),
                    loc: node.loc.clone(),
                },
            ),
            AstNode::Store(node) => AstNode::Store(
                StoreAstNode {
                    ptr: node.ptr.clone(),
                    op: Box::new(node.op.reduced_version(state)),
                    loc: node.loc.clone(),
                },
            ),
            AstNode::Assignment(node) => AstNode::Assignment(
                AssignmentAstNode {
                    name: node.name.clone(),
                    var: Box::new(node.var.reduced_version(state)),
                    loc: node.loc.clone(),
                },
            ),
            AstNode::Ret(node) => AstNode::Ret(
                RetAstNode { var: Box::new(node.var.reduced_version(state)), loc: node.loc.clone() },
            ),
            _ => self.clone(),
        }
    }

    /// Puts what `state` knows into the node, in place.
    pub fn reduce(&mut self, state: &State)
        ensures
            final(self)@ == reduced(old(self)@, state@),
    {
        let next = self.reduced_version(state);
        *self = next;
    }

    /// Moves `state` from before the node to after it.
    pub fn update_evaluations(&self, state: &mut State)
        ensures
            final(state)@ == transfer(self@, old(state)@),
    {
        match self {
            AstNode::Call(node) => {
                state.insert(node.id.clone(), Value::Nac);
            },
            AstNode::Store(node) => {
                let value = node.op.reduced_version(state).evaluate();
                state.insert(node.ptr.clone(), Value::Pointer(Box::new(value)));
            },
            AstNode::Assignment(node) => {
                let value = node.var.reduced_version(state).evaluate();
                state.insert(node.name.clone(), value);
            },
            _ => {},
        }
    }
}


impl Clone for FunctionAstNode {
    fn clone(&self) -> (res: Self)
        ensures
            AstNode::Function(res)@ == AstNode::Function(*self)@,
    {
        let res = FunctionAstNode {
            name: self.name.clone(),
            args: clone_nodes(&self.args),
            body: clone_nodes(&self.body),
            loc: self.loc.clone(),
        };
        proof {
            lemma_view_children(AstNode::Function(res));
            lemma_view_children(AstNode::Function(*self));
        }
        res
    }
}

impl Clone for LabelAstNode {
    fn clone(&self) -> (res: Self)
        ensures
            AstNode::Label(res)@ == AstNode::Label(*self)@,
    {
        let res = LabelAstNode {
            name: self.name.clone(),
            body: clone_nodes(&self.body),
            loc: self.loc.clone(),
        };
        proof {
            lemma_view_children(AstNode::Label(res));
            lemma_view_children(AstNode::Label(*self));
        }
        res
    }
}


impl AstNode {
    /// The read of an identifier.
    pub fn iden(name: String, loc: Loc) -> (res: AstNode)
        ensures
            res@ == (Node::Iden { name: name@, loc: loc@ }),
    {
        AstNode::Iden(IdenAstNode { name, loc })
    }

    /// An integer literal.
    pub fn num(num: i32, loc: Loc) -> (res: AstNode)
        ensures
            res@ == (Node::Num { num, loc: loc@ }),
    {
        AstNode::Num(NumAstNode { num, loc })
    }

    /// An arithmetic operation on two operands.
    pub fn arith(op: ArithOp, lhs: AstNode, rhs: AstNode, loc: Loc) -> (res: AstNode)
        ensures
            res@ == (Node::Arith { op, lhs: Box::new(lhs@), rhs: Box::new(rhs@), loc: loc@ }),
    {
        AstNode::Arith(ArithAstNode { op, lhs: Box::new(lhs), rhs: Box::new(rhs), loc })
    }

    /// A relation between two operands.
    pub fn relop(op: RelOp, lhs: AstNode, rhs: AstNode, loc: Loc) -> (res: AstNode)
        ensures
            res@ == (Node::Relop { op, lhs: Box::new(lhs@), rhs: Box::new(rhs@), loc: loc@ }),
    {
        AstNode::Relop(RelopAstNode { op, lhs: Box::new(lhs), rhs: Box::new(rhs), loc })
    }

    /// A unary operation on an operand.
    pub fn unary(op: UnaryOp, var: AstNode, loc: Loc) -> (res: AstNode)
        ensures
            res@ == (Node::Unary { op, var: Box::new(var@), loc: loc@ }),
    {
        AstNode::Unary(UnaryAstNode { op, var: Box::new(var), loc })
    }

    /// An allocation of `size` cells.
    pub fn allocation(size: AstNode, loc: Loc) -> (res: AstNode)
        ensures
            res@ == (Node::Alloc { size: Box::new(size@), loc: loc@ }),
    {
        AstNode::Alloc(AllocAstNode { size: Box::new(size), loc })
    }

    /// A load through the pointer `ptr`.
    pub fn load(ptr: String, loc: Loc) -> (res: AstNode)
        ensures
            res@ == (Node::Load { ptr: ptr@, loc: loc@ }),
    {
        AstNode::Load(LoadAstNode { ptr, loc })
    }

    /// A store of `op` through the pointer `ptr`.
    pub fn store(ptr: String, op: AstNode, loc: Loc) -> (res: AstNode)
        ensures
            res@ == (Node::Store { ptr: ptr@, op: Box::new(op@), loc: loc@ }),
    {
        AstNode::Store(StoreAstNode { ptr, op: Box::new(op), loc })
    }

    /// A call of `name` with the parameters `params`, whose result is bound
    /// to `id`.
    pub fn call(id: String, name: String, params: Vec<AstNode>, loc: Loc) -> (res: AstNode)
        ensures
            res@ == (Node::Call {
                id: id@,
                name: name@,
                params: nodes_view(params@),
                loc: loc@,
            }),
    {
        let res = AstNode::Call(CallAstNode { id, name, params, loc });
        proof {
            lemma_view_children(res);
        }
        res
    }

    /// The assignment of `var` to `name`.
    pub fn assignment(name: String, var: AstNode, loc: Loc) -> (res: AstNode)
        ensures
            res@ == (Node::Assignment { name: name@, var: Box::new(var@), loc: loc@ }),
    {
        AstNode::Assignment(AssignmentAstNode { name, var: Box::new(var), loc })
    }

    /// A jump to the label `name`.
    pub fn goto(name: String, loc: Loc) -> (res: AstNode)
        ensures
            res@ == (Node::Goto { name: name@, loc: loc@ }),
    {
        AstNode::Goto(GotoAstNode { name, loc })
    }

    /// The label `name` with its body.
    pub fn label(name: String, body: Vec<AstNode>, loc: Loc) -> (res: AstNode)
        ensures
            res@ == (Node::Label { name: name@, body: nodes_view(body@), loc: loc@ }),
    {
        let res = AstNode::Label(LabelAstNode { name, body, loc });
        proof {
            lemma_view_children(res);
        }
        res
    }

    /// A jump to `label` taken where `condition` holds.
    pub fn branch(condition: AstNode, label: String, loc: Loc) -> (res: AstNode)
        ensures
            res@ == (Node::If { condition: Box::new(condition@), label: label@, loc: loc@ }),
    {
        AstNode::If(IfAstNode { condition: Box::new(condition), label, loc })
    }

    /// A return of `var`.
    pub fn ret(var: AstNode, loc: Loc) -> (res: AstNode)
        ensures
            res@ == (Node::Ret { var: Box::new(var@), loc: loc@ }),
    {
        AstNode::Ret(RetAstNode { var: Box::new(var), loc })
    }

    /// The function `name` with its arguments and its body.
    pub fn function(name: String, args: Vec<AstNode>, body: Vec<AstNode>, loc: Loc) -> (res:
        AstNode)
        ensures
            res@ == (Node::Function {
                name: name@,
                args: nodes_view(args@),
                body: nodes_view(body@),
                loc: loc@,
            }),
    {
        let res = AstNode::Function(FunctionAstNode { name, args, body, loc });
        proof {
            lemma_view_children(res);
        }
        res
    }
}


/// Whether a list of names holds `name`.
pub fn holds_name(names: &Vec<String>, name: &String) -> (res: bool)
    ensures
        res == names_view(names@).contains(name@),
{
    let mut i: usize = 0;
    while i < names.len()
        invariant
            i <= names.len(),
            forall|k: int| 0 <= k < i ==> names@[k]@ != name@,
        decreases names.len() - i,
    {
        if names[i] == *name {
            assert(names_view(names@)[i as int] == name@);
            return true;
        }
        i += 1;
    }
    assert(!names_view(names@).contains(name@)) by {
        if names_view(names@).contains(name@) {
            let k = choose|k: int|
                0 <= k < names_view(names@).len() && names_view(names@)[k] == name@;
            assert(names@[k]@ != name@);
        }
    }
    false
}


/// A copy of a list of names.
pub fn clone_names(names: &Vec<String>) -> (res: Vec<String>)
    ensures
        names_view(res@) == names_view(names@),
{
    let mut res: Vec<String> = Vec::new();
    let mut i: usize = 0;
    while i < names.len()
        invariant
            i <= names.len(),
            res.len() == i,
            forall|k: int| 0 <= k < i ==> res@[k]@ == names@[k]@,
        decreases names.len() - i,
    {
        res.push(names[i].clone());
        i += 1;
    }
    assert(names_view(res@) =~= names_view(names@));
    res
}

} // verus!
