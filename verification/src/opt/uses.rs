use vstd::prelude::*;
use crate::fe::ast::{dependencies, holds_name, nodes_view, production, AstNode, Node};
use crate::opt::cfg::{well_formed, ControlFlowGraph, Graph};
use crate::opt::reach::{preorder, visit_order};

verus! {

/// The places among the first `upto` instructions of block `b` that read
/// `name`, each as the pair of `b` and the index of the instruction.
pub open spec fn uses_in_block(insts: Seq<Node>, b: usize, name: Seq<char>, upto: int) -> Seq<
    (usize, usize),
>
    decreases upto,
{
    if upto <= 0 {
        Seq::empty()
    } else if dependencies(insts[upto - 1]).contains(name) {
        uses_in_block(insts, b, name, upto - 1).push((b, (upto - 1) as usize))
    } else {
        uses_in_block(insts, b, name, upto - 1)
    }
}

/// The places in the first `upto` blocks of `order` that read `name`, in
/// that order of the blocks and in the order of their instructions.
pub open spec fn uses_along(g: Graph, name: Seq<char>, order: Seq<usize>, upto: int) -> Seq<
    (usize, usize),
>
    decreases upto,
{
    if upto <= 0 {
        Seq::empty()
    } else {
        uses_along(g, name, order, upto - 1) + uses_in_block(
            g.blocks[order[upto - 1] as int].insts,
            order[upto - 1],
            name,
            g.blocks[order[upto - 1] as int].insts.len() as int,
        )
    }
}

/// The places that use what a node defines: none where it defines nothing,
/// else the places that read the identifier it defines, in the blocks that
/// a depth-first walk from the entry comes to, in the order of the walk.
pub open spec fn uses(g: Graph, inst: Node) -> Seq<(usize, usize)> {
    match production(inst) {
        Some(name) => uses_along(g, name, preorder(g), preorder(g).len() as int),
        None => Seq::empty(),
    }
}

impl ControlFlowGraph {
    /// The places of the instructions that use what `inst` defines, each as
    /// the pair of the index of its block and its index in the block.
    pub fn get_uses(&self, inst: &AstNode) -> (res: Vec<(usize, usize)>)
        requires
            well_formed(self@),
        ensures
            res@ == uses(self@, inst@),
    {
        let mut res: Vec<(usize, usize)> = Vec::new();
        let name = match inst.production() {
            Some(name) => name,
            None => {
                return res;
            },
        };
        let order = visit_order(self);
        let n = self.basic_blocks.len();
        let mut k: usize = 0;
        while k < order.len()
            invariant
                k <= order.len(),
                n == self@.blocks.len(),
                order@ == preorder(self@),
                forall|m: int| 0 <= m < order.len() ==> (#[trigger] order@[m]) < n,
                res@ == uses_along(self@, name@, order@, k as int),
            decreases order.len() - k,
        {
            let b = order[k];
            let insts = &self.basic_blocks[b].insts;
            let ghost nv = nodes_view(insts@);
            let ghost before = res@;
            assert(nv == self@.blocks[b as int].insts);
            let mut i: usize = 0;
            assert(before + Seq::<(usize, usize)>::empty() =~= before);
            while i < insts.len()
                invariant
                    i <= insts.len(),
                    nv == nodes_view(insts@),
                    res@ == before + uses_in_block(nv, b, name@, i as int),
                decreases insts.len() - i,
            {
                if holds_name(&insts[i].dependencies(), &name) {
                    res.push((b, i));
                }
                assert(res@ =~= before + uses_in_block(nv, b, name@, i as int + 1));
                i += 1;
            }
            k += 1;
        }
        res
    }
}

} // verus!
