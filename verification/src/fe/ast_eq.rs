use vstd::prelude::*;
use vstd::std_specs::cmp::PartialEqSpecImpl;
use crate::fe::ast::{lemma_view_children, nodes_view, AstNode, Node};

verus! {

/// Whether two nodes are alike: of one kind, with like parts. Positions
/// do not count, and neither does the identifier to which a call binds its
/// result.
pub open spec fn alike(a: Node, b: Node) -> bool
    decreases a,
{
    match (a, b) {
        (Node::Iden { name: x, .. }, Node::Iden { name: y, .. }) => x == y,
        (Node::Num { num: x, .. }, Node::Num { num: y, .. }) => x == y,
        (Node::Call { name: x, params: p, .. }, Node::Call { name: y, params: q, .. }) => x == y
            && all_alike(p, q),
        (
            Node::Arith { op: o, lhs: l, rhs: r, .. },
            Node::Arith { op: p, lhs: m, rhs: s, .. },
        ) => alike(*l, *m) && o == p && alike(*r, *s),
        (
            Node::Relop { op: o, lhs: l, rhs: r, .. },
            Node::Relop { op: p, lhs: m, rhs: s, .. },
        ) => alike(*l, *m) && o == p && alike(*r, *s),
        (Node::Unary { op: o, var: v, .. }, Node::Unary { op: p, var: w, .. }) => alike(*v, *w)
            && o == p,
        (Node::Alloc { size: x, .. }, Node::Alloc { size: y, .. }) => alike(*x, *y),
        (Node::Load { ptr: x, .. }, Node::Load { ptr: y, .. }) => x == y,
        (Node::Store { ptr: x, op: v, .. }, Node::Store { ptr: y, op: w, .. }) => x == y && alike(
            *v,
            *w,
        ),
        (
            Node::Function { name: x, args: a1, body: b1, .. },
            Node::Function { name: y, args: a2, body: b2, .. },
        ) => x == y && all_alike(a1, a2) && all_alike(b1, b2),
        (Node::Assignment { name: x, var: v, .. }, Node::Assignment { name: y, var: w, .. }) => x
            == y && alike(*v, *w),
        (Node::Goto { name: x, .. }, Node::Goto { name: y, .. }) => x == y,
        (Node::Label { name: x, body: b1, .. }, Node::Label { name: y, body: b2, .. }) => x == y
            && all_alike(b1, b2),
        (Node::If { condition: c, label: x, .. }, Node::If { condition: d, label: y, .. }) => alike(
            *c,
            *d,
        ) && x == y,
        (Node::Ret { var: v, .. }, Node::Ret { var: w, .. }) => alike(*v, *w),
        _ => false,
    }
}

/// Whether two lists of nodes are alike: of one length, with like nodes at
/// each place.
pub open spec fn all_alike(a: Seq<Node>, b: Seq<Node>) -> bool
    decreases a,
{
    a.len() == b.len() && (a.len() == 0 || (all_alike(a.drop_last(), b.drop_last()) && alike(
        a.last(),
        b.last(),
    )))
}

/// Every node is like itself.
pub proof fn lemma_alike_reflexive(a: Node)
    ensures
        alike(a, a),
    decreases a,
{
    match a {
        Node::Call { params, .. } => {
            lemma_all_alike_reflexive(params);
        },
        Node::Arith { lhs, rhs, .. } => {
            lemma_alike_reflexive(*lhs);
            lemma_alike_reflexive(*rhs);
        },
        Node::Relop { lhs, rhs, .. } => {
            lemma_alike_reflexive(*lhs);
            lemma_alike_reflexive(*rhs);
        },
        Node::Unary { var, .. } => {
            lemma_alike_reflexive(*var);
        },
        Node::Alloc { size, .. } => {
            lemma_alike_reflexive(*size);
        },
        Node::Store { op, .. } => {
            lemma_alike_reflexive(*op);
        },
        Node::Function { args, body, .. } => {
            lemma_all_alike_reflexive(args);
            lemma_all_alike_reflexive(body);
        },
        Node::Assignment { var, .. } => {
            lemma_alike_reflexive(*var);
        },
        Node::Label { body, .. } => {
            lemma_all_alike_reflexive(body);
        },
        Node::If { condition, .. } => {
            lemma_alike_reflexive(*condition);
        },
        Node::Ret { var, .. } => {
            lemma_alike_reflexive(*var);
        },
        _ => {},
    }
}

/// Every list of nodes is like itself.
pub proof fn lemma_all_alike_reflexive(a: Seq<Node>)
    ensures
        all_alike(a, a),
    decreases a,
{
    if a.len() > 0 {
        lemma_all_alike_reflexive(a.drop_last());
        lemma_alike_reflexive(a.last());
    }
}

/// Whether two lists of nodes are alike.
pub fn nodes_alike(a: &Vec<AstNode>, b: &Vec<AstNode>) -> (res: bool)
    ensures
        res == all_alike(nodes_view(a@), nodes_view(b@)),
    decreases a,
{
    let ghost av = nodes_view(a@);
    let ghost bv = nodes_view(b@);
    if a.len() != b.len() {
        return false;
    }
    let mut i: usize = 0;
    assert(av.take(0) =~= Seq::<Node>::empty());
    assert(bv.take(0) =~= Seq::<Node>::empty());
    while i < a.len()
        invariant
            i <= a.len(),
            a.len() == b.len(),
            av == nodes_view(a@),
            bv == nodes_view(b@),
            all_alike(av.take(i as int), bv.take(i as int)),
        decreases a.len() - i,
    {
        proof {
            vstd::std_specs::vec::axiom_vec_index_decreases(*a, i as int);
            assert(av.take(i as int + 1).drop_last() =~= av.take(i as int));
            assert(bv.take(i as int + 1).drop_last() =~= bv.take(i as int));
        }
        if !a[i].same(&b[i]) {
            proof {
                lemma_unlike_prefix(av, bv, i as int + 1);
            }
            return false;
        }
        i += 1;
    }
    assert(av.take(a.len() as int) =~= av);
    assert(bv.take(a.len() as int) =~= bv);
    true
}

/// Lists with unlike starts are unlike.
proof fn lemma_unlike_prefix(a: Seq<Node>, b: Seq<Node>, upto: int)
    requires
        a.len() == b.len(),
        0 <= upto <= a.len(),
        !all_alike(a.take(upto), b.take(upto)),
    ensures
        !all_alike(a, b),
    decreases a.len() - upto,
{
    if upto < a.len() {
        assert(a.take(upto + 1).drop_last() =~= a.take(upto));
        assert(b.take(upto + 1).drop_last() =~= b.take(upto));
        lemma_unlike_prefix(a, b, upto + 1);
    } else {
        assert(a.take(upto) =~= a);
        assert(b.take(upto) =~= b);
    }
}

impl AstNode {
    /// Whether two nodes are alike.
    pub fn same(&self, other: &AstNode) -> (res: bool)
        ensures
            res == alike(self@, other@),
        decreases self,
    {
        proof {
            lemma_view_children(*self);
            lemma_view_children(*other);
        }
        match (self, other) {
            (AstNode::Iden(a), AstNode::Iden(b)) => a.name == b.name,
            (AstNode::Num(a), AstNode::Num(b)) => a.num == b.num,
            (AstNode::Call(a), AstNode::Call(b)) => a.name == b.name && nodes_alike(
                &a.params,
                &b.params,
            ),
            (AstNode::Arith(a), AstNode::Arith(b)) => a.lhs.same(&*b.lhs) && a.op == b.op
                && a.rhs.same(&*b.rhs),
            (AstNode::Relop(a), AstNode::Relop(b)) => a.lhs.same(&*b.lhs) && a.op == b.op
                && a.rhs.same(&*b.rhs),
            (AstNode::Unary(a), AstNode::Unary(b)) => a.var.same(&*b.var) && a.op == b.op,
            (AstNode::Alloc(a), AstNode::Alloc(b)) => a.size.same(&*b.size),
            (AstNode::Load(a), AstNode::Load(b)) => a.ptr == b.ptr,
            (AstNode::Store(a), AstNode::Store(b)) => a.ptr == b.ptr && a.op.same(&*b.op),
            (AstNode::Function(a), AstNode::Function(b)) => a.name == b.name && nodes_alike(
                &a.args,
                &b.args,
            ) && nodes_alike(&a.body, &b.body),
            (AstNode::Assignment(a), AstNode::Assignment(b)) => a.name == b.name && a.var.same(
                &*b.var,
            ),
            (AstNode::Goto(a), AstNode::Goto(b)) => a.name == b.name,
            (AstNode::Label(a), AstNode::Label(b)) => a.name == b.name && nodes_alike(
                &a.body,
                &b.body,
            ),
            (AstNode::If(a), AstNode::If(b)) => a.condition.same(&*b.condition) && a.label
                == b.label,
            (AstNode::Ret(a), AstNode::Ret(b)) => a.var.same(&*b.var),
            _ => false,
        }
    }
}

impl PartialEq for AstNode {
    fn eq(&self, other: &Self) -> (res: bool) {
        self.same(other)
    }
}

impl PartialEqSpecImpl for AstNode {
    open spec fn obeys_eq_spec() -> bool {
        true
    }

    open spec fn eq_spec(&self, other: &Self) -> bool {
        alike(self@, other@)
    }
}

} // verus!
