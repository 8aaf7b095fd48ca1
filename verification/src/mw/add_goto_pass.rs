use vstd::prelude::*;
use crate::fe::ast::{clone_nodes, lemma_view_children, nodes_view, AstNode, Node};
use crate::mw::ast_pass::AstPass;
use crate::fe::token::{Failure, SyntaxError};

verus! {

/// The pass that makes falling into a label explicit: where control would
/// run from an instruction or from the end of a label into the label that
/// follows, it puts a jump to that label.
#[derive(Clone, Copy, Debug)]
pub struct AddGotoPass;

/// The jump to the label that follows node `i` of a list, if a label
/// follows it.
pub open spec fn jump_to_next(nodes: Seq<Node>, i: int) -> Option<Node> {
    if 0 <= i && i + 1 < nodes.len() {
        match nodes[i + 1] {
            Node::Label { name, loc, .. } => Some(Node::Goto { name, loc }),
            _ => None,
        }
    } else {
        None
    }
}

/// Whether control runs off the end of a list of instructions: whether its
/// last instruction is neither a jump nor a return.
pub open spec fn runs_off(body: Seq<Node>) -> bool
    recommends
        body.len() > 0,
{
    !(body.last() is Goto || body.last() is Ret)
}

/// The lists that the pass takes: those in which every label has a body,
/// in the list itself and in the bodies of its functions.
pub open spec fn labels_have_bodies(nodes: Seq<Node>, upto: int) -> bool
    decreases nodes, upto + 1,
{
    if upto <= 0 {
        true
    } else {
        labels_have_bodies(nodes, upto - 1) && (upto - 1 < nodes.len() ==> node_has_bodies(
            nodes,
            upto - 1,
        ))
    }
}

pub open spec fn node_has_bodies(nodes: Seq<Node>, i: int) -> bool
    recommends
        0 <= i < nodes.len(),
    decreases nodes, 0int,
    when 0 <= i < nodes.len()
{
    match nodes[i] {
        Node::Label { body, .. } => body.len() > 0,
        Node::Function { body, .. } => labels_have_bodies(body, body.len() as int),
        _ => true,
    }
}

/// What node `i` of a list becomes: a function gets the jumps put into
/// its body; a label off whose end control runs into a label gets the
/// jump to that label as its last instruction; a jump stays; any other node
/// that a label follows is followed by the jump to that label.
pub open spec fn fixed_at(nodes: Seq<Node>, i: int) -> Seq<Node>
    recommends
        0 <= i < nodes.len(),
    decreases nodes, 0int,
    when 0 <= i < nodes.len()
{
    match nodes[i] {
        Node::Function { name, args, body, loc } => seq![
            Node::Function { name, args, body: with_gotos_upto(body, body.len() as int), loc },
        ],
        Node::Label { name, body, loc } => if runs_off(body) && jump_to_next(nodes, i) is Some {
            seq![Node::Label { name, body: body.push(jump_to_next(nodes, i).unwrap()), loc }]
        } else {
            seq![nodes[i]]
        },
        Node::Goto { .. } => seq![nodes[i]],
        _ => match jump_to_next(nodes, i) {
            Some(jump) => seq![nodes[i], jump],
            None => seq![nodes[i]],
        },
    }
}

/// What the first `upto` nodes of a list become.
pub open spec fn with_gotos_upto(nodes: Seq<Node>, upto: int) -> Seq<Node>
    decreases nodes, upto + 1,
{
    if upto <= 0 || upto > nodes.len() {
        Seq::empty()
    } else {
        with_gotos_upto(nodes, upto - 1) + fixed_at(nodes, upto - 1)
    }
}

/// What a list becomes.
pub open spec fn with_gotos(nodes: Seq<Node>) -> Seq<Node> {
    with_gotos_upto(nodes, nodes.len() as int)
}

/// The list with the jumps put in.
pub fn add_gotos(nodes: &Vec<AstNode>) -> (res: Vec<AstNode>)
    requires
        labels_have_bodies(nodes_view(nodes@), nodes.len() as int),
    ensures
        nodes_view(res@) == with_gotos(nodes_view(nodes@)),
    decreases nodes,
{
    let ghost nv = nodes_view(nodes@);
    let mut out: Vec<AstNode> = Vec::new();
    let mut ix: usize = 0;
    assert(nodes_view(out@) =~= Seq::<Node>::empty());
    while ix < nodes.len()
        invariant
            ix <= nodes.len(),
            nv == nodes_view(nodes@),
            labels_have_bodies(nv, nodes.len() as int),
            nodes_view(out@) == with_gotos_upto(nv, ix as int),
        decreases nodes.len() - ix,
    {
        let node = &nodes[ix];
        let ghost before = nodes_view(out@);
        proof {
            vstd::std_specs::vec::axiom_vec_index_decreases(*nodes, ix as int);
            lemma_view_children(*node);
            lemma_has_bodies(nv, nodes.len() as int, ix as int);
            if ix + 1 < nodes.len() {
                lemma_view_children(nodes@[ix as int + 1]);
            }
        }
        let jump: Option<AstNode> = if ix + 1 < nodes.len() {
            match &nodes[ix + 1] {
                AstNode::Label(next) => Some(AstNode::goto(next.name.clone(), next.loc.clone())),
                _ => None,
            }
        } else {
            None
        };
        assert(match jump {
            Some(j) => jump_to_next(nv, ix as int) == Some(j@),
            None => jump_to_next(nv, ix as int) is None,
        });
        match node {
            AstNode::Function(function) => {
                let body = add_gotos(&function.body);
                let fixed = AstNode::function(
                    function.name.clone(),
                    clone_nodes(&function.args),
                    body,
                    function.loc.clone(),
                );
                out.push(fixed);
                assert(nodes_view(out@) =~= before + fixed_at(nv, ix as int));
            },
            AstNode::Label(label) => {
                let mut body = clone_nodes(&label.body);
                let last = &label.body[label.body.len() - 1];
                let open = match last {
                    AstNode::Goto(_) => false,
                    AstNode::Ret(_) => false,
                    _ => true,
                };
                assert(open == runs_off(nodes_view(label.body@))) by {
                    assert(nodes_view(label.body@).last() == last@);
                }
                match jump {
                    Some(j) => {
                        if open {
                            let ghost copied = nodes_view(body@);
                            body.push(j);
                            assert(nodes_view(body@) =~= copied.push(j@));
                        }
                    },
                    None => {},
                }
                let fixed = AstNode::label(label.name.clone(), body, label.loc.clone());
                out.push(fixed);
                assert(nodes_view(out@) =~= before + fixed_at(nv, ix as int));
            },
            AstNode::Goto(_) => {
                let fixed = node.clone();
                out.push(fixed);
                assert(nodes_view(out@) =~= before + fixed_at(nv, ix as int));
            },
            _ => {
                let fixed = node.clone();
                out.push(fixed);
                match jump {
                    Some(j) => {
                        out.push(j);
                        assert(nodes_view(out@) =~= before + seq![fixed@, j@]);
                    },
                    None => {
                        assert(nodes_view(out@) =~= before + seq![fixed@]);
                    },
                }
            },
        }
        ix += 1;
    }
    out
}

/// Whether every label of a list has a body, in the list itself and in the
/// bodies of its functions.
pub fn has_label_bodies(nodes: &Vec<AstNode>) -> (res: bool)
    ensures
        res == labels_have_bodies(nodes_view(nodes@), nodes.len() as int),
    decreases nodes,
{
    let ghost nv = nodes_view(nodes@);
    let mut ix: usize = 0;
    while ix < nodes.len()
        invariant
            ix <= nodes.len(),
            nv == nodes_view(nodes@),
            labels_have_bodies(nv, ix as int),
        decreases nodes.len() - ix,
    {
        proof {
            vstd::std_specs::vec::axiom_vec_index_decreases(*nodes, ix as int);
            lemma_view_children(nodes@[ix as int]);
        }
        let fine = match &nodes[ix] {
            AstNode::Label(label) => label.body.len() > 0,
            AstNode::Function(function) => has_label_bodies(&function.body),
            _ => true,
        };
        assert(fine == node_has_bodies(nv, ix as int));
        if !fine {
            proof {
                if labels_have_bodies(nv, nodes.len() as int) {
                    lemma_has_bodies(nv, nodes.len() as int, ix as int);
                }
            }
            return false;
        }
        ix += 1;
    }
    true
}

proof fn lemma_has_bodies(nodes: Seq<Node>, upto: int, i: int)
    requires
        0 <= i < upto <= nodes.len(),
        labels_have_bodies(nodes, upto),
    ensures
        node_has_bodies(nodes, i),
    decreases upto,
{
    if i < upto - 1 {
        lemma_has_bodies(nodes, upto - 1, i);
    }
}

impl AstPass for AddGotoPass {
    open spec fn admits(&self, nodes: Seq<Node>) -> bool {
        labels_have_bodies(nodes, nodes.len() as int)
    }

    open spec fn outcome(&self, nodes: Seq<Node>) -> Result<Seq<Node>, Failure> {
        Ok(with_gotos(nodes))
    }

    fn apply(&self, nodes: &mut Vec<AstNode>) -> (res: Result<(), SyntaxError>) {
        let fixed = add_gotos(nodes);
        *nodes = fixed;
        Ok(())
    }

    open spec fn title(&self) -> Seq<char> {
        "add_goto_pass"@
    }

    fn name(&self) -> (res: String) {
        String::from_str("add_goto_pass")
    }
}

} // verus!
