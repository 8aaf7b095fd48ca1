use vstd::prelude::*;
use crate::fe::ast::{
    add_name, holds_name, lemma_view_children, names_view, nodes_view, AstNode, Node,
};
use crate::fe::render::render;
use crate::fe::token::{Failure, SyntaxError};
use crate::trn::transpiler::Transpiler;

verus! {

/// The translation into WebAssembly text.
#[derive(Clone, Copy, Debug)]
pub struct WatTranspiler;

/// The parameters of a function in WebAssembly text.
pub open spec fn wat_params(args: Seq<Node>) -> Seq<char>
    decreases args.len(),
{
    if args.len() == 0 {
        Seq::empty()
    } else {
        wat_params(args.drop_last()) + " (param $"@ + render(args.last(), Seq::empty())
            + " i32)"@
    }
}

/// The lines of a node behind the padding `pad`, and the labels seen after
/// it, from the labels `seen` before it.
///
/// A function is a `func` with its body and a final constant. A label is
/// a `block` with its body, and is seen from its start on. A jump is a
/// `br` where its label has been seen, else nothing. Any other node is
/// nothing.
pub open spec fn wat_node(node: Node, pad: Seq<char>, seen: Set<Seq<char>>) -> (
    Seq<Seq<char>>,
    Set<Seq<char>>,
)
    decreases node,
{
    match node {
        Node::Function { name, args, body, .. } => {
            let inner = wat_nodes(body, pad + "    "@, seen);
            (
                seq![
                    pad + "(func $"@ + name + " (export \""@ + name + "\")"@ + wat_params(args)
                        + " (result i32)"@,
                ] + inner.0 + seq![pad + "    "@ + "i32.const 0"@, pad + "    )"@],
                inner.1,
            )
        },
        Node::Label { name, body, .. } => {
            let inner = wat_nodes(body, pad + "    "@, seen.insert(name));
            (seq![pad + "(block $"@ + name] + inner.0 + seq![pad + ")"@], inner.1)
        },
        Node::Goto { name, .. } => if seen.contains(name) {
            (seq![pad + "br $"@ + name], seen)
        } else {
            (Seq::empty(), seen)
        },
        _ => (Seq::empty(), seen),
    }
}

/// The lines of the nodes of a list, and the labels seen after them.
pub open spec fn wat_nodes(nodes: Seq<Node>, pad: Seq<char>, seen: Set<Seq<char>>) -> (
    Seq<Seq<char>>,
    Set<Seq<char>>,
)
    decreases nodes,
{
    if nodes.len() == 0 {
        (Seq::empty(), seen)
    } else {
        let before = wat_nodes(nodes.drop_last(), pad, seen);
        let last = wat_node(nodes.last(), pad, before.1);
        (before.0 + last.0, last.1)
    }
}

/// The lines of a program as a WebAssembly module.
pub open spec fn wat_module(nodes: Seq<Node>) -> Seq<Seq<char>> {
    seq!["(module"@] + wat_nodes(nodes, "    "@, Set::empty()).0 + seq![")"@]
}

/// A line: the padding and the text behind it.
pub fn make_line(pad: &String, text: &str) -> (res: String)
    ensures
        res@ == pad@ + text@,
{
    let mut line = pad.clone();
    line.append(text);
    line
}

/// Writes the lines of the nodes of a list behind `lines`.
pub fn transpile_nodes_to_wat(
    nodes: &Vec<AstNode>,
    pad: &String,
    vis_labels: &mut Vec<String>,
    lines: &mut Vec<String>,
)
    requires
        names_view(old(vis_labels)@).no_duplicates(),
    ensures
        names_view(final(vis_labels)@).no_duplicates(),
        names_view(final(lines)@) == names_view(old(lines)@) + wat_nodes(
            nodes_view(nodes@),
            pad@,
            names_view(old(vis_labels)@).to_set(),
        ).0,
        names_view(final(vis_labels)@).to_set() == wat_nodes(
            nodes_view(nodes@),
            pad@,
            names_view(old(vis_labels)@).to_set(),
        ).1,
    decreases nodes, 0nat,
{
    let ghost nv = nodes_view(nodes@);
    let ghost seen = names_view(vis_labels@).to_set();
    let ghost head = names_view(lines@);
    let mut i: usize = 0;
    assert(nv.take(0) =~= Seq::<Node>::empty());
    assert(head + Seq::<Seq<char>>::empty() =~= head);
    while i < nodes.len()
        invariant
            i <= nodes.len(),
            nv == nodes_view(nodes@),
            seen == names_view(old(vis_labels)@).to_set(),
            head == names_view(old(lines)@),
            names_view(vis_labels@).no_duplicates(),
            names_view(lines@) == head + wat_nodes(nv.take(i as int), pad@, seen).0,
            names_view(vis_labels@).to_set() == wat_nodes(nv.take(i as int), pad@, seen).1,
        decreases nodes.len() - i,
    {
        let ghost before = wat_nodes(nv.take(i as int), pad@, seen);
        proof {
            vstd::std_specs::vec::axiom_vec_index_decreases(*nodes, i as int);
            assert(nv.take(i as int + 1).drop_last() =~= nv.take(i as int));
        }
        transpile_node_to_wat(&nodes[i], pad, vis_labels, lines);
        proof {
            let last = wat_node(nodes@[i as int]@, pad@, before.1);
            assert(head + before.0 + last.0 =~= head + (before.0 + last.0));
        }
        i += 1;
    }
    assert(nv.take(nodes.len() as int) =~= nv);
}

/// Writes the lines of a node behind `lines`.
pub fn transpile_node_to_wat(
    node: &AstNode,
    pad: &String,
    vis_labels: &mut Vec<String>,
    lines: &mut Vec<String>,
)
    requires
        names_view(old(vis_labels)@).no_duplicates(),
    ensures
        names_view(final(vis_labels)@).no_duplicates(),
        names_view(final(lines)@) == names_view(old(lines)@) + wat_node(
            node@,
            pad@,
            names_view(old(vis_labels)@).to_set(),
        ).0,
        names_view(final(vis_labels)@).to_set() == wat_node(
            node@,
            pad@,
            names_view(old(vis_labels)@).to_set(),
        ).1,
    decreases node, 1nat,
{
    let ghost head = names_view(lines@);
    let ghost seen = names_view(vis_labels@).to_set();
    proof {
        lemma_view_children(*node);
        assert(head + Seq::<Seq<char>>::empty() =~= head);
    }
    match node {
        AstNode::Function(function_node) => {
            let mut line = make_line(pad, "(func $");
            line.append(function_node.name.as_str());
            line.append(" (export \"");
            line.append(function_node.name.as_str());
            line.append("\")");
            let ghost start = line@;
            let ghost av = nodes_view(function_node.args@);
            let mut k: usize = 0;
            assert(av.take(0) =~= Seq::<Node>::empty());
            assert(start + Seq::<char>::empty() =~= start);
            while k < function_node.args.len()
                invariant
                    k <= function_node.args.len(),
                    av == nodes_view(function_node.args@),
                    line@ == start + wat_params(av.take(k as int)),
                decreases function_node.args.len() - k,
            {
                let ghost sofar = wat_params(av.take(k as int));
                proof {
                    assert(av.take(k as int + 1).drop_last() =~= av.take(k as int));
                }
                let text = function_node.args[k].to_text();
                line.append(" (param $");
                line.append(text.as_str());
                line.append(" i32)");
                assert(line@ =~= start + (sofar + " (param $"@ + text@ + " i32)"@));
                k += 1;
            }
            assert(av.take(function_node.args.len() as int) =~= av);
            line.append(" (result i32)");
            let ghost first = line@;
            assert(first =~= pad@ + "(func $"@ + function_node.name@ + " (export \""@
                + function_node.name@ + "\")"@ + wat_params(av) + " (result i32)"@);
            lines.push(line);
            assert(names_view(lines@) =~= head + seq![first]);
            let mut deeper = pad.clone();
            deeper.append("    ");
            transpile_nodes_to_wat(&function_node.body, &deeper, vis_labels, lines);
            let ghost inner = wat_nodes(nodes_view(function_node.body@), deeper@, seen);
            let ghost mid = names_view(lines@);
            lines.push(make_line(&deeper, "i32.const 0"));
            lines.push(make_line(pad, "    )"));
            assert(names_view(lines@) =~= mid + seq![
                pad@ + "    "@ + "i32.const 0"@,
                pad@ + "    )"@,
            ]);
            assert(names_view(lines@) =~= head + (seq![first] + inner.0 + seq![
                pad@ + "    "@ + "i32.const 0"@,
                pad@ + "    )"@,
            ]));
        },
        AstNode::Label(label_node) => {
            let mut line = make_line(pad, "(block $");
            line.append(label_node.name.as_str());
            let ghost first = line@;
            lines.push(line);
            assert(names_view(lines@) =~= head + seq![first]);
            add_name(vis_labels, label_node.name.clone());
            let mut deeper = pad.clone();
            deeper.append("    ");
            transpile_nodes_to_wat(&label_node.body, &deeper, vis_labels, lines);
            let ghost inner = wat_nodes(
                nodes_view(label_node.body@),
                deeper@,
                seen.insert(label_node.name@),
            );
            let ghost mid = names_view(lines@);
            lines.push(make_line(pad, ")"));
            assert(names_view(lines@) =~= mid + seq![pad@ + ")"@]);
            assert(names_view(lines@) =~= head + (seq![first] + inner.0 + seq![pad@ + ")"@]));
        },
        AstNode::Goto(goto_node) => {
            if holds_name(vis_labels, &goto_node.name) {
                let mut line = make_line(pad, "br $");
                line.append(goto_node.name.as_str());
                let ghost first = line@;
                lines.push(line);
                assert(names_view(lines@) =~= head + seq![first]);
            }
        },
        _ => {},
    }
}

impl Transpiler for WatTranspiler {
    open spec fn lines_for(&self, nodes: Seq<Node>) -> Result<Seq<Seq<char>>, Failure> {
        Ok(wat_module(nodes))
    }

    fn transpile(&self, nodes: &Vec<AstNode>) -> (res: Result<Vec<String>, SyntaxError>) {
        let mut lines: Vec<String> = Vec::new();
        lines.push(String::from_str("(module"));
        assert(names_view(lines@) =~= seq!["(module"@]);
        let mut vis_labels: Vec<String> = Vec::new();
        assert(names_view(vis_labels@) =~= Seq::<Seq<char>>::empty());
        assert(Seq::<Seq<char>>::empty().to_set() =~= Set::<Seq<char>>::empty());
        let pad = String::from_str("    ");
        transpile_nodes_to_wat(nodes, &pad, &mut vis_labels, &mut lines);
        let ghost mid = names_view(lines@);
        lines.push(String::from_str(")"));
        assert(names_view(lines@) =~= mid + seq![")"@]);
        Ok(lines)
    }
}

} // verus!
