use vstd::prelude::*;
use crate::fe::ast::{
    add_name, holds_name, lemma_view_children, names_view, nodes_view, AstNode, FunctionAstNode,
    Node,
};
use crate::mw::ast_pass::AstPass;
use crate::fe::token::{Failure, SyntaxError};

verus! {

/// The pass that removes the labels of a function that no jump names.
#[derive(Clone, Copy, Debug)]
pub struct ReduceAstPass;

/// The labels that the jumps in a node name.
pub open spec fn labels_used_in(node: Node) -> Set<Seq<char>>
    decreases node,
{
    match node {
        Node::Label { body, .. } => labels_used(body),
        Node::Goto { name, .. } => set![name],
        Node::If { label, .. } => set![label],
        _ => Set::empty(),
    }
}

/// The labels that the jumps in the nodes of a list name.
pub open spec fn labels_used(nodes: Seq<Node>) -> Set<Seq<char>>
    decreases nodes,
{
    if nodes.len() == 0 {
        Set::empty()
    } else {
        labels_used(nodes.drop_last()).union(labels_used_in(nodes.last()))
    }
}

/// Whether no function stands in a node: in it or in the body of a label of
/// it.
pub open spec fn free_of_functions(node: Node) -> bool
    decreases node,
{
    match node {
        Node::Function { .. } => false,
        Node::Label { body, .. } => all_free_of_functions(body),
        _ => true,
    }
}

pub open spec fn all_free_of_functions(nodes: Seq<Node>) -> bool
    decreases nodes,
{
    if nodes.len() == 0 {
        true
    } else {
        all_free_of_functions(nodes.drop_last()) && free_of_functions(nodes.last())
    }
}

/// The nodes of a list without the labels that are not among `used`.
pub open spec fn without_unused(nodes: Seq<Node>, used: Set<Seq<char>>) -> Seq<Node>
    decreases nodes.len(),
{
    if nodes.len() == 0 {
        Seq::empty()
    } else {
        let kept = without_unused(nodes.drop_last(), used);
        match nodes.last() {
            Node::Label { name, .. } => if used.contains(name) {
                kept.push(nodes.last())
            } else {
                kept
            },
            _ => kept.push(nodes.last()),
        }
    }
}

/// A node with the unused labels of its body removed, if it is a function.
pub open spec fn trimmed(node: Node) -> Node {
    match node {
        Node::Function { name, args, body, loc } => Node::Function {
            name,
            args,
            body: without_unused(body, labels_used(body)),
            loc,
        },
        _ => node,
    }
}

/// Whether the pass takes a node: a function must hold no function.
pub open spec fn trimmable(node: Node) -> bool {
    match node {
        Node::Function { body, .. } => all_free_of_functions(body),
        _ => true,
    }
}

proof fn lemma_free_at(nodes: Seq<Node>, i: int)
    requires
        all_free_of_functions(nodes),
        0 <= i < nodes.len(),
    ensures
        free_of_functions(nodes[i]),
    decreases nodes.len(),
{
    if i < nodes.len() - 1 {
        lemma_free_at(nodes.drop_last(), i);
    }
}

/// Adds the labels that the jumps in the nodes of a list name to a list of
/// distinct names.
fn collect_useful_labels(body: &Vec<AstNode>, labels: &mut Vec<String>)
    requires
        all_free_of_functions(nodes_view(body@)),
        names_view(old(labels)@).no_duplicates(),
    ensures
        names_view(final(labels)@).no_duplicates(),
        names_view(final(labels)@).to_set() == names_view(old(labels)@).to_set().union(
            labels_used(nodes_view(body@)),
        ),
    decreases body,
{
    let ghost nv = nodes_view(body@);
    let ghost start = names_view(labels@).to_set();
    let mut i: usize = 0;
    assert(nv.take(0) =~= Seq::<Node>::empty());
    assert(start.union(Set::empty()) =~= start);
    while i < body.len()
        invariant
            i <= body.len(),
            nv == nodes_view(body@),
            all_free_of_functions(nv),
            start == names_view(old(labels)@).to_set(),
            names_view(labels@).no_duplicates(),
            names_view(labels@).to_set() == start.union(labels_used(nv.take(i as int))),
        decreases body.len() - i,
    {
        let ghost sofar = names_view(labels@).to_set();
        proof {
            vstd::std_specs::vec::axiom_vec_index_decreases(*body, i as int);
            assert(nv.take(i as int + 1).drop_last() =~= nv.take(i as int));
            lemma_view_children(body@[i as int]);
            lemma_free_at(nv, i as int);
            assert(nv.take(i as int + 1).last() == body@[i as int]@);
            assert(labels_used(nv.take(i as int + 1)) == labels_used(nv.take(i as int)).union(
                labels_used_in(body@[i as int]@),
            ));
        }
        let ghost here = labels_used_in(body@[i as int]@);
        match &body[i] {
            AstNode::Label(label_node) => {
                collect_useful_labels(&label_node.body, labels);
            },
            AstNode::Goto(goto_node) => {
                add_name(labels, goto_node.name.clone());
                assert(sofar.insert(goto_node.name@) =~= sofar.union(set![goto_node.name@]));
            },
            AstNode::If(if_node) => {
                add_name(labels, if_node.label.clone());
                assert(sofar.insert(if_node.label@) =~= sofar.union(set![if_node.label@]));
            },
            _ => {
                assert(sofar.union(Set::empty()) =~= sofar);
            },
        }
        assert(names_view(labels@).to_set() =~= sofar.union(here));
        assert(sofar.union(here) =~= start.union(labels_used(nv.take(i as int)).union(here)));
        i += 1;
    }
    assert(nv.take(body.len() as int) =~= nv);
}

/// The labels that the jumps in the nodes of a list name, each once.
pub fn get_useful_labels(body: &Vec<AstNode>) -> (res: Vec<String>)
    requires
        all_free_of_functions(nodes_view(body@)),
    ensures
        names_view(res@).no_duplicates(),
        names_view(res@).to_set() == labels_used(nodes_view(body@)),
{
    let mut labels: Vec<String> = Vec::new();
    assert(names_view(labels@) =~= Seq::<Seq<char>>::empty());
    assert(Seq::<Seq<char>>::empty().to_set() =~= Set::<Seq<char>>::empty());
    collect_useful_labels(body, &mut labels);
    assert(Set::<Seq<char>>::empty().union(labels_used(nodes_view(body@))) =~= labels_used(
        nodes_view(body@),
    ));
    labels
}

/// Removes the labels of a function that no jump in it names.
pub fn reduce_function_node(function_node: &mut FunctionAstNode)
    requires
        trimmable(AstNode::Function(*old(function_node))@),
    ensures
        AstNode::Function(*final(function_node))@ == trimmed(AstNode::Function(*old(function_node))@),
{
    proof {
        lemma_view_children(AstNode::Function(*function_node));
    }
    let useful_labels = get_useful_labels(&function_node.body);
    let ghost used = names_view(useful_labels@).to_set();
    let ghost nv = nodes_view(function_node.body@);
    let mut new_body: Vec<AstNode> = Vec::new();
    let mut i: usize = 0;
    assert(nv.take(0) =~= Seq::<Node>::empty());
    assert(nodes_view(new_body@) =~= Seq::<Node>::empty());
    while i < function_node.body.len()
        invariant
            i <= function_node.body.len(),
            *function_node == *old(function_node),
            nv == nodes_view(function_node.body@),
            used == names_view(useful_labels@).to_set(),
            nodes_view(new_body@) == without_unused(nv.take(i as int), used),
        decreases function_node.body.len() - i,
    {
        let ghost before = nodes_view(new_body@);
        proof {
            assert(nv.take(i as int + 1).drop_last() =~= nv.take(i as int));
            lemma_view_children(function_node.body@[i as int]);
        }
        let node = &function_node.body[i];
        let keep = match node {
            AstNode::Label(label_node) => holds_name(&useful_labels, &label_node.name),
            _ => true,
        };
        if keep {
            let copy = node.clone();
            new_body.push(copy);
            assert(nodes_view(new_body@) =~= before.push(copy@));
        }
        i += 1;
    }
    assert(nv.take(function_node.body.len() as int) =~= nv);
    function_node.body = new_body;
    proof {
        lemma_view_children(AstNode::Function(*function_node));
    }
}

/// Whether the pass takes the first `upto` nodes of a list.
pub open spec fn all_trimmable(nodes: Seq<Node>, upto: int) -> bool {
    forall|i: int| 0 <= i < upto && i < nodes.len() ==> trimmable(#[trigger] nodes[i])
}

impl AstPass for ReduceAstPass {
    open spec fn admits(&self, nodes: Seq<Node>) -> bool {
        all_trimmable(nodes, nodes.len() as int)
    }

    open spec fn outcome(&self, nodes: Seq<Node>) -> Result<Seq<Node>, Failure> {
        Ok(Seq::new(nodes.len(), |i: int| trimmed(nodes[i])))
    }

    fn apply(&self, nodes: &mut Vec<AstNode>) -> (res: Result<(), SyntaxError>) {
        let ghost nv = nodes_view(nodes@);
        let n = nodes.len();
        let mut i: usize = 0;
        while i < n
            invariant
                i <= n,
                n == nodes.len(),
                nv == nodes_view(old(nodes)@),
                nv.len() == n,
                all_trimmable(nv, n as int),
                forall|k: int| 0 <= k < i ==> (#[trigger] nodes@[k])@ == trimmed(nv[k]),
                forall|k: int| i <= k < n ==> (#[trigger] nodes@[k])@ == nv[k],
            decreases n - i,
        {
            assert(trimmable(nv[i as int]));
            let fixed: Option<AstNode> = match &nodes[i] {
                AstNode::Function(function_node) => {
                    let mut copy = function_node.clone();
                    reduce_function_node(&mut copy);
                    Some(AstNode::Function(copy))
                },
                _ => None,
            };
            match fixed {
                Some(node) => {
                    nodes.set(i, node);
                },
                None => {},
            }
            i += 1;
        }
        assert(nodes_view(nodes@) =~= Seq::new(nv.len(), |i: int| trimmed(nv[i])));
        Ok(())
    }

    open spec fn title(&self) -> Seq<char> {
        "reduce_ast_pass"@
    }

    fn name(&self) -> (res: String) {
        String::from_str("reduce_ast_pass")
    }
}

} // verus!
