use vstd::prelude::*;
use crate::opt::cfg::{well_formed, ControlFlowGraph, Graph};
use crate::opt::constant_propagation_pass::ConstantPropagationPass;
use crate::opt::reduce_pass::ReducePass;

verus! {

/// A transformation of the graph of one function, in place.
pub trait CompilerPass {
    /// The graph that the pass makes of a graph.
    spec fn effect(&self, g: Graph) -> Graph;

    fn run_on_function(&self, cfg: &mut ControlFlowGraph)
        requires
            well_formed(old(cfg)@),
        ensures
            final(cfg)@ == self.effect(old(cfg)@),
            well_formed(final(cfg)@),
    ;
}

/// The passes that the library offers.
#[derive(Clone, Copy, Debug)]
pub enum Pass {
    Reduce(ReducePass),
    ConstantPropagation(ConstantPropagationPass),
}

impl CompilerPass for Pass {
    open spec fn effect(&self, g: Graph) -> Graph {
        match self {
            Pass::Reduce(pass) => pass.effect(g),
            Pass::ConstantPropagation(pass) => pass.effect(g),
        }
    }

    fn run_on_function(&self, cfg: &mut ControlFlowGraph) {
        match self {
            Pass::Reduce(pass) => pass.run_on_function(cfg),
            Pass::ConstantPropagation(pass) => pass.run_on_function(cfg),
        }
    }
}

/// An ordered list of passes.
#[derive(Debug)]
pub struct CompilerPassManager {
    pub passes: Vec<Pass>,
}

/// The graph after the passes of a list, applied in order, once each.
pub open spec fn run_all(passes: Seq<Pass>, g: Graph) -> Graph
    decreases passes.len(),
{
    if passes.len() == 0 {
        g
    } else {
        passes.last().effect(run_all(passes.drop_last(), g))
    }
}

impl CompilerPassManager {
    /// A manager without passes.
    pub fn new() -> (res: Self)
        ensures
            res.passes@ == Seq::<Pass>::empty(),
    {
        CompilerPassManager { passes: Vec::new() }
    }

    /// Registers a pass behind those registered before.
    pub fn add(&mut self, pass: Pass)
        ensures
            final(self).passes@ == old(self).passes@.push(pass),
    {
        self.passes.push(pass);
    }

    /// Applies the registered passes to a graph, in the order of their
    /// registration, once each.
    pub fn run(&self, cfg: &mut ControlFlowGraph)
        requires
            well_formed(old(cfg)@),
        ensures
            final(cfg)@ == run_all(self.passes@, old(cfg)@),
            well_formed(final(cfg)@),
    {
        let mut i: usize = 0;
        assert(self.passes@.take(0) =~= Seq::<Pass>::empty());
        while i < self.passes.len()
            invariant
                i <= self.passes.len(),
                well_formed(cfg@),
                cfg@ == run_all(self.passes@.take(i as int), old(cfg)@),
            decreases self.passes.len() - i,
        {
            proof {
                assert(self.passes@.take(i as int + 1).drop_last() =~= self.passes@.take(i as int));
            }
            self.passes[i].run_on_function(cfg);
            i += 1;
        }
        assert(self.passes@.take(self.passes.len() as int) =~= self.passes@);
    }
}

/// The default pipeline: dead-block elimination, then constant propagation.
pub open spec fn optimized(g: Graph) -> Graph {
    crate::opt::constant_propagation_pass::propagated(crate::opt::reduce_pass::pruned(g))
}

/// Runs the default pipeline on the graph of every function.
pub fn run_default_compiler_pass_manager(cfg_table: &mut Vec<ControlFlowGraph>)
    requires
        forall|i: int| 0 <= i < old(cfg_table).len() ==> well_formed(#[trigger] old(cfg_table)@[i]@),
    ensures
        final(cfg_table).len() == old(cfg_table).len(),
        forall|i: int|
            0 <= i < old(cfg_table).len() ==> (#[trigger] final(cfg_table)@[i])@ == optimized(
                old(cfg_table)@[i]@,
            ) && well_formed(final(cfg_table)@[i]@),
{
    let mut pass_manager = CompilerPassManager::new();
    pass_manager.add(Pass::Reduce(ReducePass));
    pass_manager.add(Pass::ConstantPropagation(ConstantPropagationPass));
    let ghost passes = pass_manager.passes@;
    proof {
        assert(passes =~= seq![Pass::Reduce(ReducePass), Pass::ConstantPropagation(ConstantPropagationPass)]);
        assert(passes.drop_last() =~= seq![Pass::Reduce(ReducePass)]);
        assert(passes.drop_last().drop_last() =~= Seq::<Pass>::empty());
        assert forall|g: Graph| #[trigger] run_all(passes, g) == optimized(g) by {
            assert(run_all(passes.drop_last().drop_last(), g) == g);
            assert(run_all(passes.drop_last(), g) == crate::opt::reduce_pass::pruned(g));
        }
    }
    let n = cfg_table.len();
    let mut i: usize = 0;
    while i < n
        invariant
            i <= n,
            n == cfg_table.len(),
            n == old(cfg_table).len(),
            passes == pass_manager.passes@,
            forall|g: Graph| #[trigger] run_all(passes, g) == optimized(g),
            forall|k: int|
                0 <= k < i ==> (#[trigger] cfg_table@[k])@ == optimized(old(cfg_table)@[k]@)
                    && well_formed(cfg_table@[k]@),
            forall|k: int| i <= k < n ==> (#[trigger] cfg_table@[k]) == old(cfg_table)@[k],
            forall|k: int| 0 <= k < n ==> well_formed(#[trigger] old(cfg_table)@[k]@),
        decreases n - i,
    {
        assert(cfg_table@[i as int] == old(cfg_table)@[i as int]);
        pass_manager.run(&mut cfg_table[i]);
        i += 1;
    }
}

} // verus!
