use vstd::prelude::*;
use crate::fe::ast::{
    lemma_view_children, nodes_view, AstNode, FunctionAstNode, GotoAstNode, IfAstNode,
    LabelAstNode, Node,
};
use crate::opt::cfg::{targets, well_formed, BasicBlock, Block, ControlFlowGraph, Exit, Graph, Jump};
use crate::fe::loc::{null_loc, Loc};
use crate::text::{decimal, usize_to_string};

verus! {

/// The label under which a block is written out: its own label, or the
/// decimal numeral of its id where it has none.
pub open spec fn block_label(block: Block) -> Seq<char> {
    match block.label {
        Some(name) => name,
        None => decimal(block.id as nat),
    }
}

/// The instructions that spell out how control leaves a block: nothing, a
/// jump, or a conditional jump followed by a jump.
pub open spec fn exit_nodes(g: Graph, next: Exit) -> Seq<Node> {
    match next {
        Exit::Return => Seq::empty(),
        Exit::Unconditional { target } => seq![
            Node::Goto { name: block_label(g.blocks[target as int]), loc: null_loc() },
        ],
        Exit::Conditional { condition, goto, otherwise } => seq![
            Node::If {
                condition: Box::new(condition),
                label: block_label(g.blocks[goto as int]),
                loc: null_loc(),
            },
            Node::Goto { name: block_label(g.blocks[otherwise as int]), loc: null_loc() },
        ],
    }
}

/// The labelled block of instructions that block `i` is written out as: its
/// instructions, then the instructions of its exit.
pub open spec fn lowered_block(g: Graph, i: int) -> Node {
    Node::Label {
        name: block_label(g.blocks[i]),
        body: g.blocks[i].insts + exit_nodes(g, g.blocks[i].next),
        loc: null_loc(),
    }
}

/// The function that a graph is written out as: the function of the graph
/// with one labelled block for each block of the graph, in order, as its
/// body.
pub open spec fn lowered(g: Graph) -> Node
    recommends
        g.function is Function,
{
    Node::Function {
        name: g.function->Function_name,
        args: g.function->Function_args,
        body: Seq::new(g.blocks.len(), |i: int| lowered_block(g, i)),
        loc: g.function->Function_loc,
    }
}

impl BasicBlock {
    /// The label under which the block is written out.
    pub fn label(&self) -> (res: String)
        ensures
            res@ == block_label(self@),
    {
        match &self.label {
            Some(name) => name.clone(),
            None => usize_to_string(self.id),
        }
    }

    /// The labelled block of instructions that the block is written out as.
    pub fn generate_label_ast_node(&self, cfg: &ControlFlowGraph) -> (res: LabelAstNode)
        requires
            forall|k: int|
                0 <= k < targets(self@.next).len() ==> (#[trigger] targets(self@.next)[k])
                    < cfg@.blocks.len(),
        ensures
            AstNode::Label(res)@ == (Node::Label {
                name: block_label(self@),
                body: self@.insts + exit_nodes(cfg@, self@.next),
                loc: null_loc(),
            }),
    {
        let mut body: Vec<AstNode> = Vec::new();
        let mut i: usize = 0;
        while i < self.insts.len()
            invariant
                i <= self.insts.len(),
                body.len() == i,
                forall|j: int| 0 <= j < i ==> body@[j]@ == self.insts@[j]@,
            decreases self.insts.len() - i,
        {
            body.push(self.insts[i].clone());
            i += 1;
        }
        assert(nodes_view(body@) =~= self@.insts);
        let ghost copied = body@;
        match &self.next {
            Some(Jump::Unconditional(target)) => {
                assert(targets(self@.next)[0] == *target);
                let name = cfg.basic_blocks[*target].label();
                body.push(AstNode::Goto(GotoAstNode { name, loc: Loc::null() }));
            },
            Some(Jump::Conditional(jump)) => {
                assert(targets(self@.next)[0] == jump.goto);
                assert(targets(self@.next)[1] == jump.otherwise);
                let goto_name = cfg.basic_blocks[jump.goto].label();
                let otherwise_name = cfg.basic_blocks[jump.otherwise].label();
                body.push(
                    AstNode::If(
                        IfAstNode {
                            condition: Box::new(jump.condition.clone()),
                            label: goto_name,
                            loc: Loc::null(),
                        },
                    ),
                );
                body.push(AstNode::Goto(GotoAstNode { name: otherwise_name, loc: Loc::null() }));
            },
            None => {},
        }
        assert(nodes_view(body@) =~= self@.insts + exit_nodes(cfg@, self@.next));
        let res = LabelAstNode { name: self.label(), body, loc: Loc::null() };
        proof {
            lemma_view_children(AstNode::Label(res));
        }
        res
    }
}

impl ControlFlowGraph {
    /// The function that the graph is written out as.
    pub fn generate_ast(&self) -> (res: AstNode)
        requires
            well_formed(self@),
        ensures
            res@ == lowered(self@),
    {
        let mut body: Vec<AstNode> = Vec::new();
        let mut i: usize = 0;
        while i < self.basic_blocks.len()
            invariant
                i <= self.basic_blocks.len(),
                well_formed(self@),
                body.len() == i,
                forall|j: int| 0 <= j < i ==> body@[j]@ == lowered_block(self@, j),
            decreases self.basic_blocks.len() - i,
        {
            let block = &self.basic_blocks[i];
            proof {
                assert(block@ == self@.blocks[i as int]);
                assert forall|k: int| 0 <= k < targets(block@.next).len() implies (
                #[trigger] targets(block@.next)[k]) < self@.blocks.len() by {
                    assert(crate::opt::cfg::successors(self@.blocks[i as int])[k] < self@.blocks.len());
                }
            }
            body.push(AstNode::Label(block.generate_label_ast_node(self)));
            i += 1;
        }
        let res = AstNode::Function(
            FunctionAstNode {
                name: self.function.name.clone(),
                args: crate::fe::ast::clone_nodes(&self.function.args),
                body,
                loc: self.function.loc.clone(),
            },
        );
        proof {
            lemma_view_children(res);
            lemma_view_children(AstNode::Function(self.function));
            assert(res@->Function_body =~= lowered(self@)->Function_body);
        }
        res
    }
}

} // verus!
