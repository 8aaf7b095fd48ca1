use vstd::prelude::*;
use crate::fe::ast::{lemma_view_children, nodes_view, ArithOp, AstNode, Node, RelOp, UnaryOp};
use crate::fe::loc::{Loc, LocView};
use crate::text::{decimal, i32_to_string, repeated, signed_decimal, usize_to_string};

verus! {

/// The mnemonic of an arithmetic operation.
pub open spec fn arith_mnemonic(op: ArithOp) -> Seq<char> {
    match op {
        ArithOp::Sum => "add"@,
        ArithOp::Sub => "sub"@,
        ArithOp::Mul => "mul"@,
        ArithOp::Div => "div"@,
    }
}

/// The sign of an arithmetic operation in source text.
pub open spec fn arith_symbol(op: ArithOp) -> Seq<char> {
    match op {
        ArithOp::Sum => "+"@,
        ArithOp::Sub => "-"@,
        ArithOp::Mul => "*"@,
        ArithOp::Div => "/"@,
    }
}

/// The sign of a relation in source text.
pub open spec fn rel_symbol(op: RelOp) -> Seq<char> {
    match op {
        RelOp::Eq => "=="@,
        RelOp::Neq => "!="@,
        RelOp::Gt => ">"@,
        RelOp::Lt => "<"@,
        RelOp::Ge => ">="@,
        RelOp::Le => "<="@,
    }
}

/// The sign of a unary operation in source text.
pub open spec fn unary_symbol(op: UnaryOp) -> Seq<char> {
    match op {
        UnaryOp::Neg => "-"@,
    }
}

/// The text of a position: file, row and column, with colons between.
pub open spec fn loc_text(loc: LocView) -> Seq<char> {
    loc.filepath + ":"@ + decimal(loc.row as nat) + ":"@ + decimal(loc.col as nat)
}

/// The source text of a node. An expression is written on the spot; an
/// instruction is written as a line behind the padding `pad`, and the
/// instructions inside a function or a label stand four spaces deeper.
pub open spec fn render(n: Node, pad: Seq<char>) -> Seq<char>
    decreases n,
{
    match n {
        Node::Iden { name, .. } => name,
        Node::Num { num, .. } => signed_decimal(num as int),
        Node::Call { id, name, params, .. } => render_lines(params, pad + "param "@) + pad + id
            + " = call "@ + name + ", "@ + decimal(params.len()) + "\n"@,
        Node::Arith { op, lhs, rhs, .. } => render(*lhs, Seq::empty()) + " "@ + arith_symbol(op)
            + " "@ + render(*rhs, Seq::empty()),
        Node::Relop { op, lhs, rhs, .. } => render(*lhs, Seq::empty()) + " "@ + rel_symbol(op)
            + " "@ + render(*rhs, Seq::empty()),
        Node::Unary { op, var, .. } => unary_symbol(op) + render(*var, Seq::empty()),
        Node::Alloc { size, .. } => "alloc "@ + render(*size, Seq::empty()),
        Node::Load { ptr, .. } => "load "@ + ptr,
        Node::Store { ptr, op, .. } => pad + "store "@ + ptr + ", "@ + render(*op, Seq::empty())
            + "\n"@,
        Node::Function { name, args, body, .. } => pad + "function "@ + name + ", "@ + decimal(
            args.len(),
        ) + "\n"@ + render_lines(args, pad + "    "@ + "arg "@) + render_all(body, pad + "    "@),
        Node::Assignment { name, var, .. } => pad + name + " = "@ + render(*var, Seq::empty())
            + "\n"@,
        Node::Goto { name, .. } => pad + "goto "@ + name + "\n"@,
        Node::Label { name, body, .. } => pad + "label "@ + name + "\n"@ + render_all(
            body,
            pad + "    "@,
        ),
        Node::If { condition, label, .. } => pad + "if ("@ + render(*condition, Seq::empty())
            + ") goto "@ + label + "\n"@,
        Node::Ret { var, .. } => pad + "ret "@ + render(*var, Seq::empty()) + "\n"@,
    }
}

/// One line for each node of a list: `lead`, the node written on the spot,
/// and a line feed.
pub open spec fn render_lines(nodes: Seq<Node>, lead: Seq<char>) -> Seq<char>
    decreases nodes,
{
    if nodes.len() == 0 {
        Seq::empty()
    } else {
        render_lines(nodes.drop_last(), lead) + lead + render(nodes.last(), Seq::empty()) + "\n"@
    }
}

/// The nodes of a list, each written behind the padding `pad`.
pub open spec fn render_all(nodes: Seq<Node>, pad: Seq<char>) -> Seq<char>
    decreases nodes,
{
    if nodes.len() == 0 {
        Seq::empty()
    } else {
        render_all(nodes.drop_last(), pad) + render(nodes.last(), pad)
    }
}

impl ArithOp {
    /// The mnemonic of the operation.
    pub fn to_string(&self) -> (res: String)
        ensures
            res@ == arith_mnemonic(*self),
    {
        String::from_str(
            match self {
                ArithOp::Sum => "add",
                ArithOp::Sub => "sub",
                ArithOp::Mul => "mul",
                ArithOp::Div => "div",
            },
        )
    }

    /// The sign of the operation in source text.
    pub fn symbol(&self) -> (res: &'static str)
        ensures
            res@ == arith_symbol(*self),
    {
        match self {
            ArithOp::Sum => "+",
            ArithOp::Sub => "-",
            ArithOp::Mul => "*",
            ArithOp::Div => "/",
        }
    }
}

impl RelOp {
    /// The sign of the relation in source text.
    pub fn symbol(&self) -> (res: &'static str)
        ensures
            res@ == rel_symbol(*self),
    {
        match self {
            RelOp::Eq => "==",
            RelOp::Neq => "!=",
            RelOp::Gt => ">",
            RelOp::Lt => "<",
            RelOp::Ge => ">=",
            RelOp::Le => "<=",
        }
    }
}

impl UnaryOp {
    /// The sign of the operation in source text.
    pub fn symbol(&self) -> (res: &'static str)
        ensures
            res@ == unary_symbol(*self),
    {
        match self {
            UnaryOp::Neg => "-",
        }
    }
}

impl Loc {
    /// The text of the position.
    pub fn to_text(&self) -> (res: String)
        ensures
            res@ == loc_text(self@),
    {
        let mut res = self.filepath.clone();
        res.append(":");
        res.append(usize_to_string(self.row).as_str());
        res.append(":");
        res.append(usize_to_string(self.col).as_str());
        res
    }
}

/// Writes one line for each node of a list behind `out`.
fn print_lines(nodes: &Vec<AstNode>, lead: &String, out: &mut String)
    ensures
        final(out)@ == old(out)@ + render_lines(nodes_view(nodes@), lead@),
    decreases nodes, 0nat,
{
    let ghost nv = nodes_view(nodes@);
    let mut i: usize = 0;
    assert(nv.take(0) =~= Seq::<Node>::empty());
    assert(out@ + Seq::<char>::empty() =~= out@);
    while i < nodes.len()
        invariant
            i <= nodes.len(),
            nv == nodes_view(nodes@),
            out@ == old(out)@ + render_lines(nv.take(i as int), lead@),
        decreases nodes.len() - i,
    {
        proof {
            vstd::std_specs::vec::axiom_vec_index_decreases(*nodes, i as int);
            assert(nv.take(i as int + 1).drop_last() =~= nv.take(i as int));
        }
        let empty = String::new();
        let text = nodes[i].print_padded(&empty);
        out.append(lead.as_str());
        out.append(text.as_str());
        out.append("\n");
        assert(out@ =~= old(out)@ + render_lines(nv.take(i as int + 1), lead@));
        i += 1;
    }
    assert(nv.take(nodes.len() as int) =~= nv);
}

/// Writes the nodes of a list behind `out`, each behind the padding `pad`.
fn print_all(nodes: &Vec<AstNode>, pad: &String, out: &mut String)
    ensures
        final(out)@ == old(out)@ + render_all(nodes_view(nodes@), pad@),
    decreases nodes, 0nat,
{
    let ghost nv = nodes_view(nodes@);
    let mut i: usize = 0;
    assert(nv.take(0) =~= Seq::<Node>::empty());
    assert(out@ + Seq::<char>::empty() =~= out@);
    while i < nodes.len()
        invariant
            i <= nodes.len(),
            nv == nodes_view(nodes@),
            out@ == old(out)@ + render_all(nv.take(i as int), pad@),
        decreases nodes.len() - i,
    {
        proof {
            vstd::std_specs::vec::axiom_vec_index_decreases(*nodes, i as int);
            assert(nv.take(i as int + 1).drop_last() =~= nv.take(i as int));
        }
        let text = nodes[i].print_padded(pad);
        out.append(text.as_str());
        assert(out@ =~= old(out)@ + render_all(nv.take(i as int + 1), pad@));
        i += 1;
    }
    assert(nv.take(nodes.len() as int) =~= nv);
}

impl AstNode {
    /// The source text of the node behind the padding `pad`.
    pub fn print_padded(&self, pad: &String) -> (res: String)
        ensures
            res@ == render(self@, pad@),
        decreases self, 1nat,
    {
        let empty = String::new();
        proof {
            lemma_view_children(*self);
        }
        match self {
            AstNode::Iden(node) => node.name.clone(),
            AstNode::Num(node) => i32_to_string(node.num),
            AstNode::Call(node) => {
                let mut res = String::new();
                let mut lead = pad.clone();
                lead.append("param ");
                print_lines(&node.params, &lead, &mut res);
                res.append(pad.as_str());
                res.append(node.id.as_str());
                res.append(" = call ");
                res.append(node.name.as_str());
                res.append(", ");
                res.append(usize_to_string(node.params.len()).as_str());
                res.append("\n");
                assert(res@ =~= render(self@, pad@));
                res
            },
            AstNode::Arith(node) => {
                let mut res = node.lhs.print_padded(&empty);
                res.append(" ");
                res.append(node.op.symbol());
                res.append(" ");
                res.append(node.rhs.print_padded(&empty).as_str());
                assert(res@ =~= render(self@, pad@));
                res
            },
            AstNode::Relop(node) => {
                let mut res = node.lhs.print_padded(&empty);
                res.append(" ");
                res.append(node.op.symbol());
                res.append(" ");
                res.append(node.rhs.print_padded(&empty).as_str());
                assert(res@ =~= render(self@, pad@));
                res
            },
            AstNode::Unary(node) => {
                let mut res = String::from_str(node.op.symbol());
                res.append(node.var.print_padded(&empty).as_str());
                res
            },
            AstNode::Alloc(node) => {
                let mut res = String::from_str("alloc ");
                res.append(node.size.print_padded(&empty).as_str());
                res
            },
            AstNode::Load(node) => {
                let mut res = String::from_str("load ");
                res.append(node.ptr.as_str());
                res
            },
            AstNode::Store(node) => {
                let mut res = pad.clone();
                res.append("store ");
                res.append(node.ptr.as_str());
                res.append(", ");
                res.append(node.op.print_padded(&empty).as_str());
                res.append("\n");
                assert(res@ =~= render(self@, pad@));
                res
            },
            AstNode::Function(node) => {
                let mut res = pad.clone();
                res.append("function ");
                res.append(node.name.as_str());
                res.append(", ");
                res.append(usize_to_string(node.args.len()).as_str());
                res.append("\n");
                let mut deeper = pad.clone();
                deeper.append("    ");
                let mut lead = deeper.clone();
                lead.append("arg ");
                print_lines(&node.args, &lead, &mut res);
                print_all(&node.body, &deeper, &mut res);
                assert(res@ =~= render(self@, pad@));
                res
            },
            AstNode::Assignment(node) => {
                let mut res = pad.clone();
                res.append(node.name.as_str());
                res.append(" = ");
                res.append(node.var.print_padded(&empty).as_str());
                res.append("\n");
                assert(res@ =~= render(self@, pad@));
                res
            },
            AstNode::Goto(node) => {
                let mut res = pad.clone();
                res.append("goto ");
                res.append(node.name.as_str());
                res.append("\n");
                assert(res@ =~= render(self@, pad@));
                res
            },
            AstNode::Label(node) => {
                let mut res = pad.clone();
                res.append("label ");
                res.append(node.name.as_str());
                res.append("\n");
                let mut deeper = pad.clone();
                deeper.append("    ");
                print_all(&node.body, &deeper, &mut res);
                assert(res@ =~= render(self@, pad@));
                res
            },
            AstNode::If(node) => {
                let mut res = pad.clone();
                res.append("if (");
                res.append(node.condition.print_padded(&empty).as_str());
                res.append(") goto ");
                res.append(node.label.as_str());
                res.append("\n");
                assert(res@ =~= render(self@, pad@));
                res
            },
            AstNode::Ret(node) => {
                let mut res = pad.clone();
                res.append("ret ");
                res.append(node.var.print_padded(&empty).as_str());
                res.append("\n");
                assert(res@ =~= render(self@, pad@));
                res
            },
        }
    }

    /// The source text of the node at a depth of `indent_sz` levels of four
    /// spaces.
    pub fn print(&self, indent_sz: usize) -> (res: String)
        ensures
            res@ == render(self@, repeated("    "@, indent_sz as nat)),
    {
        let pad = crate::text::indent(indent_sz, String::new());
        assert(pad@ =~= repeated("    "@, indent_sz as nat));
        self.print_padded(&pad)
    }

    /// The source text of the node, without indentation.
    pub fn to_text(&self) -> (res: String)
        ensures
            res@ == render(self@, Seq::empty()),
    {
        let empty = String::new();
        self.print_padded(&empty)
    }
}

} // verus!
