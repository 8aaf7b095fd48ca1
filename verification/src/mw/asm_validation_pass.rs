use vstd::prelude::*;
use crate::fe::ast::{loc_of, nodes_view, AstNode, Node};
use crate::mw::ast_pass::AstPass;
use crate::fe::token::{Failure, SyntaxError};

verus! {

/// The pass that checks that a program is a list of functions with a
/// function `main` among them.
#[derive(Clone, Copy, Debug)]
pub struct AsmValidationPass;

/// Whether one of the first `upto` nodes is the function `main`.
pub open spec fn has_main(nodes: Seq<Node>, upto: int) -> bool {
    exists|i: int| 0 <= i < upto && i < nodes.len() && is_main(#[trigger] nodes[i])
}

/// Whether a node is the function `main`.
pub open spec fn is_main(node: Node) -> bool {
    node matches Node::Function { name, .. } && name == "main"@
}

/// The index of the first node that is no function, or the length of the
/// list.
pub open spec fn first_stranger(nodes: Seq<Node>, from: int) -> int
    decreases nodes.len() - from,
{
    if 0 <= from < nodes.len() && nodes[from] is Function {
        first_stranger(nodes, from + 1)
    } else {
        from
    }
}

/// What is wrong with the top level of a program: nothing with an empty
/// one; else the first node that is no function; else that no function
/// is called `main`.
pub open spec fn top_level_failure(nodes: Seq<Node>) -> Option<Failure> {
    if nodes.len() == 0 {
        None
    } else if first_stranger(nodes, 0) < nodes.len() {
        Some(
            Failure {
                loc: loc_of(nodes[first_stranger(nodes, 0)]),
                message: "expected top level function instruction"@,
            },
        )
    } else if !has_main(nodes, nodes.len() as int) {
        Some(
            Failure {
                loc: loc_of(nodes[0]),
                message: "program entry point aka function 'main' not found"@,
            },
        )
    } else {
        None
    }
}

impl AstPass for AsmValidationPass {
    open spec fn admits(&self, nodes: Seq<Node>) -> bool {
        true
    }

    open spec fn outcome(&self, nodes: Seq<Node>) -> Result<Seq<Node>, Failure> {
        match top_level_failure(nodes) {
            Some(failure) => Err(failure),
            None => Ok(nodes),
        }
    }

    fn apply(&self, nodes: &mut Vec<AstNode>) -> (res: Result<(), SyntaxError>) {
        if nodes.len() == 0 {
            return Ok(());
        }
        let ghost nv = nodes_view(nodes@);
        let main = String::from_str("main");
        let mut found: bool = false;
        let mut i: usize = 0;
        while i < nodes.len()
            invariant
                i <= nodes.len(),
                nv == nodes_view(nodes@),
                nodes@ == old(nodes)@,
                main@ == "main"@,
                first_stranger(nv, 0) == first_stranger(nv, i as int),
                found == has_main(nv, i as int),
            decreases nodes.len() - i,
        {
            match &nodes[i] {
                AstNode::Function(function_node) => {
                    assert(nv[i as int] is Function);
                    if function_node.name == main {
                        found = true;
                        assert(is_main(nv[i as int]));
                    } else {
                        assert(!is_main(nv[i as int]));
                    }
                },
                node => {
                    assert(!(nv[i as int] is Function));
                    return Err(
                        SyntaxError {
                            loc: node.loc(),
                            message: String::from_str("expected top level function instruction"),
                        },
                    );
                },
            }
            i += 1;
        }
        if !found {
            return Err(
                SyntaxError {
                    loc: nodes[0].loc(),
                    message: String::from_str("program entry point aka function 'main' not found"),
                },
            );
        }
        Ok(())
    }

    open spec fn title(&self) -> Seq<char> {
        "asm_validation_pass"@
    }

    fn name(&self) -> (res: String) {
        String::from_str("asm_validation_pass")
    }
}

} // verus!
