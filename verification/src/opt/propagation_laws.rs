use vstd::prelude::*;
use crate::fe::ast::{reduced, transfer, Node};
use crate::opt::cfg::{same_shape, Graph};
use crate::opt::constant_propagation_pass::{
    analysis, entry_state, initial_states, iterate, lemma_rewrite_keeps_shape, meet, propagated,
    rewrite, rewrite_block, rewritten_block, run_block, sweep, sweep_along, sweep_limit, Facts,
};
use crate::opt::reach::{
    lemma_preorder_in_order, lemma_same_shape_reachable, lemma_same_shape_walk, preorder,
    reachable,
};

verus! {

/// Reducing a node twice under one state gives what reducing it once gives.
pub proof fn lemma_reduced_twice(n: Node, state: Facts)
    ensures
        reduced(reduced(n, state), state) == reduced(n, state),
    decreases n,
{
    match n {
        Node::Arith { op, lhs, rhs, loc } => {
            lemma_reduced_twice(*lhs, state);
            lemma_reduced_twice(*rhs, state);
        },
        Node::Relop { op, lhs, rhs, loc } => {
            lemma_reduced_twice(*lhs, state);
            lemma_reduced_twice(*rhs, state);
        },
        Node::Unary { op, var, loc } => {
            lemma_reduced_twice(*var, state);
        },
        Node::Store { ptr, op, loc } => {
            lemma_reduced_twice(*op, state);
        },
        Node::Assignment { name, var, loc } => {
            lemma_reduced_twice(*var, state);
        },
        Node::Ret { var, loc } => {
            lemma_reduced_twice(*var, state);
        },
        _ => {},
    }
}

/// A reduced instruction moves the state under which it was reduced as the
/// instruction itself does.
pub proof fn lemma_transfer_reduced(n: Node, state: Facts)
    ensures
        transfer(reduced(n, state), state) == transfer(n, state),
{
    match n {
        Node::Store { ptr, op, loc } => {
            lemma_reduced_twice(*op, state);
        },
        Node::Assignment { name, var, loc } => {
            lemma_reduced_twice(*var, state);
        },
        _ => {},
    }
}

/// The rewritten instructions of a block move its entry state as the
/// instructions themselves do.
pub proof fn lemma_run_rewritten(insts: Seq<Node>, state: Facts)
    ensures
        rewrite_block(insts, state).len() == insts.len(),
        run_block(rewrite_block(insts, state), state) == run_block(insts, state),
    decreases insts.len(),
{
    if insts.len() > 0 {
        let front = insts.drop_last();
        lemma_run_rewritten(front, state);
        let before = run_block(front, state);
        let done = rewrite_block(insts, state);
        assert(done.drop_last() =~= rewrite_block(front, state));
        lemma_transfer_reduced(insts.last(), before);
    }
}

/// Rewriting the instructions of a block twice from one entry state gives
/// what rewriting them once gives.
pub proof fn lemma_rewrite_block_twice(insts: Seq<Node>, state: Facts)
    ensures
        rewrite_block(rewrite_block(insts, state), state) == rewrite_block(insts, state),
    decreases insts.len(),
{
    if insts.len() > 0 {
        let front = insts.drop_last();
        lemma_rewrite_block_twice(front, state);
        lemma_run_rewritten(front, state);
        let done = rewrite_block(insts, state);
        assert(done.drop_last() =~= rewrite_block(front, state));
        lemma_reduced_twice(insts.last(), run_block(front, state));
    }
}

/// The entry state of a block is a matter of the shape of the graph.
pub proof fn lemma_same_shape_meet(g: Graph, h: Graph, states: Seq<Facts>, prevs: Seq<usize>)
    requires
        same_shape(g, h),
    ensures
        meet(g, states, prevs) == meet(h, states, prevs),
    decreases prevs.len(),
{
    if prevs.len() > 0 {
        lemma_same_shape_meet(g, h, states, prevs.drop_last());
        lemma_same_shape_reachable(g, h, prevs.last() as int);
    }
}

/// The rewrite is idempotent: rewriting a rewritten graph under the same
/// recorded states changes nothing.
pub proof fn lemma_rewrite_idempotent(g: Graph, states: Seq<Facts>)
    ensures
        rewrite(rewrite(g, states), states) == rewrite(g, states),
{
    let h = rewrite(g, states);
    lemma_rewrite_keeps_shape(g, states);
    assert forall|b: int| 0 <= b < g.blocks.len() implies rewritten_block(h, states, b)
        == rewritten_block(g, states, b) by {
        lemma_same_shape_reachable(g, h, b);
        lemma_same_shape_meet(g, h, states, g.blocks[b].prevs);
        if reachable(g, b) {
            lemma_rewrite_block_twice(g.blocks[b].insts, entry_state(g, states, b));
        }
    }
    assert(rewrite(h, states).blocks =~= h.blocks);
}

/// An order names blocks of the graph, each once.
pub open spec fn in_order(g: Graph, order: Seq<usize>) -> bool {
    order.no_duplicates() && forall|k: int|
        0 <= k < order.len() ==> (#[trigger] order[k]) < g.blocks.len()
}

proof fn lemma_sweep_along_len(g: Graph, states: Seq<Facts>, order: Seq<usize>, upto: int)
    requires
        states.len() == g.blocks.len(),
        in_order(g, order),
        upto <= order.len(),
    ensures
        sweep_along(g, states, order, upto).len() == states.len(),
    decreases upto,
{
    if upto > 0 {
        lemma_sweep_along_len(g, states, order, upto - 1);
    }
}

/// What a sweep records for a block, it records when it comes to that
/// block; the rest of the sweep leaves it alone.
proof fn lemma_sweep_along_keeps(
    g: Graph,
    states: Seq<Facts>,
    order: Seq<usize>,
    upto: int,
    hi: int,
    at: int,
)
    requires
        states.len() == g.blocks.len(),
        in_order(g, order),
        0 <= at < upto <= hi <= order.len(),
    ensures
        sweep_along(g, states, order, hi)[order[at] as int] == sweep_along(
            g,
            states,
            order,
            upto,
        )[order[at] as int],
    decreases hi - upto,
{
    if upto < hi {
        lemma_sweep_along_keeps(g, states, order, upto, hi - 1, at);
        lemma_sweep_along_len(g, states, order, hi - 1);
        assert(order[hi - 1] != order[at]);
    }
}

/// Under stable recorded states no step of a sweep changes anything.
proof fn lemma_stable_prefix(g: Graph, states: Seq<Facts>, order: Seq<usize>, upto: int)
    requires
        states.len() == g.blocks.len(),
        in_order(g, order),
        sweep_along(g, states, order, order.len() as int) == states,
        0 <= upto <= order.len(),
    ensures
        sweep_along(g, states, order, upto) == states,
    decreases upto,
{
    if upto > 0 {
        lemma_stable_prefix(g, states, order, upto - 1);
        lemma_sweep_along_keeps(g, states, order, upto, order.len() as int, upto - 1);
        assert(sweep_along(g, states, order, upto) =~= states);
    }
}

proof fn lemma_stable_prefix_rewritten(g: Graph, states: Seq<Facts>, order: Seq<usize>, upto: int)
    requires
        states.len() == g.blocks.len(),
        in_order(g, order),
        sweep_along(g, states, order, order.len() as int) == states,
        0 <= upto <= order.len(),
    ensures
        sweep_along(rewrite(g, states), states, order, upto) == states,
    decreases upto,
{
    if upto > 0 {
        let h = rewrite(g, states);
        let b = order[upto - 1] as int;
        lemma_stable_prefix_rewritten(g, states, order, upto - 1);
        lemma_stable_prefix(g, states, order, upto - 1);
        lemma_stable_prefix(g, states, order, upto);
        lemma_rewrite_keeps_shape(g, states);
        lemma_same_shape_reachable(g, h, b);
        lemma_same_shape_meet(g, h, states, g.blocks[b].prevs);
        if reachable(g, b) {
            lemma_run_rewritten(g.blocks[b].insts, entry_state(g, states, b));
        }
        assert(sweep_along(h, states, order, upto) =~= states);
    }
}

/// The order of the sweep is a matter of the shape of the graph.
pub proof fn lemma_same_shape_preorder(g: Graph, h: Graph)
    requires
        crate::opt::cfg::same_shape(g, h),
    ensures
        preorder(g) == preorder(h),
{
    lemma_same_shape_walk(
        g,
        h,
        seq![g.entry],
        Seq::new(g.blocks.len(), |i: int| false),
        Seq::empty(),
    );
}

/// Stable recorded states stay stable under the rewrite: where a sweep
/// over a graph changes nothing, a sweep over the graph rewritten under
/// those states changes nothing either.
pub proof fn lemma_stable_states_stay_stable(g: Graph, states: Seq<Facts>)
    requires
        states.len() == g.blocks.len(),
        sweep(g, states) == states,
    ensures
        sweep(rewrite(g, states), states) == states,
{
    lemma_preorder_in_order(g);
    lemma_rewrite_keeps_shape(g, states);
    lemma_same_shape_preorder(g, rewrite(g, states));
    lemma_stable_prefix_rewritten(g, states, preorder(g), preorder(g).len() as int);
}

proof fn lemma_iterate_stable(g: Graph, states: Seq<Facts>, fuel: nat)
    requires
        states.len() == g.blocks.len(),
        iterate(g, states, fuel) is Some,
    ensures
        iterate(g, states, fuel).unwrap().len() == g.blocks.len(),
        sweep(g, iterate(g, states, fuel).unwrap()) == iterate(g, states, fuel).unwrap(),
    decreases fuel,
{
    if fuel > 0 {
        let next = sweep(g, states);
        if next != states {
            lemma_preorder_in_order(g);
            lemma_sweep_along_len(g, states, preorder(g), preorder(g).len() as int);
            lemma_iterate_stable(g, next, (fuel - 1) as nat);
        }
    }
}

/// The result of the analysis is stable: one more sweep over the graph
/// changes no recorded state.
pub proof fn lemma_analysis_stable(g: Graph)
    requires
        analysis(g) is Some,
    ensures
        analysis(g).unwrap().len() == g.blocks.len(),
        sweep(g, analysis(g).unwrap()) == analysis(g).unwrap(),
{
    lemma_iterate_stable(g, initial_states(g), sweep_limit(g));
}

/// After constant propagation the states that the analysis found are stable
/// for the rewritten graph, and rewriting it once more under them changes
/// nothing.
pub proof fn lemma_propagation_settles(g: Graph)
    requires
        analysis(g) is Some,
    ensures
        sweep(propagated(g), analysis(g).unwrap()) == analysis(g).unwrap(),
        rewrite(propagated(g), analysis(g).unwrap()) == propagated(g),
{
    lemma_analysis_stable(g);
    lemma_stable_states_stay_stable(g, analysis(g).unwrap());
    lemma_rewrite_idempotent(g, analysis(g).unwrap());
}

} // verus!
