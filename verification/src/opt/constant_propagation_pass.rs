use vstd::prelude::*;
use crate::fe::ast::{nodes_view, reduced, transfer, AstNode, Node};
use crate::opt::cfg::{
    lemma_same_shape_well_formed, same_shape, well_formed, Block, ControlFlowGraph, Graph,
};
use crate::opt::lattice::Value;
use crate::opt::pass::CompilerPass;
use crate::opt::reach::{preorder, reachable, reachable_blocks, visit_order};
use crate::opt::state::{join_states, State};
use crate::opt::table::Table;

verus! {

/// The pass that finds the identifiers with a known constant value and puts
/// the constants in their place.
#[derive(Clone, Copy, Debug)]
pub struct ConstantPropagationPass;

/// What is known at one program point.
pub type Facts = Map<Seq<char>, Value>;

/// The contents of a vector of states, element by element.
pub open spec fn states_view(v: Seq<State>) -> Seq<Facts> {
    Seq::new(v.len(), |i: int| v[i]@)
}

/// The state after the instructions of a list, from the state before them.
pub open spec fn run_block(insts: Seq<Node>, state: Facts) -> Facts
    decreases insts.len(),
{
    if insts.len() == 0 {
        state
    } else {
        transfer(insts.last(), run_block(insts.drop_last(), state))
    }
}

/// The state on entry to a block with the predecessors `prevs`: the join of
/// the recorded states of the reachable ones.
pub open spec fn meet(g: Graph, states: Seq<Facts>, prevs: Seq<usize>) -> Facts
    decreases prevs.len(),
{
    if prevs.len() == 0 {
        Map::empty()
    } else if reachable(g, prevs.last() as int) {
        join_states(meet(g, states, prevs.drop_last()), states[prevs.last() as int])
    } else {
        meet(g, states, prevs.drop_last())
    }
}

/// The state on entry to block `b`.
pub open spec fn entry_state(g: Graph, states: Seq<Facts>, b: int) -> Facts {
    meet(g, states, g.blocks[b].prevs)
}

/// The recorded states after the first `upto` blocks of a sweep along
/// `order`: each block in turn records the state after its instructions,
/// from its entry state under the states recorded so far.
pub open spec fn sweep_along(g: Graph, states: Seq<Facts>, order: Seq<usize>, upto: int) -> Seq<
    Facts,
>
    decreases upto,
{
    if upto <= 0 {
        states
    } else {
        let before = sweep_along(g, states, order, upto - 1);
        let b = order[upto - 1] as int;
        before.update(b, run_block(g.blocks[b].insts, entry_state(g, before, b)))
    }
}

/// The recorded states after one sweep over the blocks that a depth-first
/// walk from the entry comes to, in the order of the walk.
pub open spec fn sweep(g: Graph, states: Seq<Facts>) -> Seq<Facts> {
    sweep_along(g, states, preorder(g), preorder(g).len() as int)
}

/// The recorded states that no further sweep changes, reached from
/// `states` by at most `fuel` sweeps; `None` where that many do not reach
/// them.
pub open spec fn iterate(g: Graph, states: Seq<Facts>, fuel: nat) -> Option<Seq<Facts>>
    decreases fuel,
{
    if fuel == 0 {
        None
    } else {
        let next = sweep(g, states);
        if next == states {
            Some(states)
        } else {
            iterate(g, next, (fuel - 1) as nat)
        }
    }
}

/// The recorded states before the first sweep: nothing is known of any
/// identifier in any block.
pub open spec fn initial_states(g: Graph) -> Seq<Facts> {
    Seq::new(g.blocks.len(), |i: int| Map::<Seq<char>, Value>::empty())
}

/// The number of instructions in the first `upto` blocks.
pub open spec fn instruction_count(g: Graph, upto: int) -> nat
    decreases upto,
{
    if upto <= 0 {
        0
    } else {
        instruction_count(g, upto - 1) + g.blocks[upto - 1].insts.len()
    }
}

/// The number of sweeps after which the analysis is given up.
///
/// While what is recorded only rises, every sweep but the last raises what
/// is recorded for an identifier in a block; that happens at most three
/// times for each block and each instruction that defines an identifier,
/// and the states are stable after so many sweeps and two more. An
/// analysis that is not stable then does not rise. The number is cut off at
/// what a machine word holds.
pub open spec fn sweep_limit(g: Graph) -> nat {
    let most = 3 * g.blocks.len() * (instruction_count(g, g.blocks.len() as int) + 1) + 2;
    if most > usize::MAX {
        usize::MAX as nat
    } else {
        most
    }
}

/// The result of the analysis: the stable recorded states, where sweeping
/// from the initial states reaches stable ones within the limit.
pub open spec fn analysis(g: Graph) -> Option<Seq<Facts>> {
    iterate(g, initial_states(g), sweep_limit(g))
}

/// The instructions of a list, each reduced under the state that holds
/// before it, from the state before the list.
pub open spec fn rewrite_block(insts: Seq<Node>, state: Facts) -> Seq<Node>
    decreases insts.len(),
{
    if insts.len() == 0 {
        Seq::empty()
    } else {
        rewrite_block(insts.drop_last(), state).push(
            reduced(insts.last(), run_block(insts.drop_last(), state)),
        )
    }
}

/// Block `b` after the rewrite: a reachable block has its instructions
/// rewritten from its entry state; nothing else changes.
pub open spec fn rewritten_block(g: Graph, states: Seq<Facts>, b: int) -> Block {
    if reachable(g, b) {
        Block {
            insts: rewrite_block(g.blocks[b].insts, entry_state(g, states, b)),
            ..g.blocks[b]
        }
    } else {
        g.blocks[b]
    }
}

/// The graph with the instructions of every reachable block rewritten under
/// the recorded states.
pub open spec fn rewrite(g: Graph, states: Seq<Facts>) -> Graph {
    Graph { blocks: Seq::new(g.blocks.len(), |b: int| rewritten_block(g, states, b)), ..g }
}

/// The graph after constant propagation: rewritten under the result of the
/// analysis, or unchanged where the analysis has none.
pub open spec fn propagated(g: Graph) -> Graph {
    match analysis(g) {
        Some(states) => rewrite(g, states),
        None => g,
    }
}

/// The state on entry to a block: the join of the recorded states of its
/// reachable predecessors.
fn meet_operator(
    Ghost(g): Ghost<Graph>,
    prevs: &Vec<usize>,
    context: &Vec<State>,
    visited: &Vec<bool>,
) -> (res: State)
    requires
        context.len() == g.blocks.len(),
        visited.len() == g.blocks.len(),
        forall|i: int| 0 <= i < visited.len() ==> visited[i] == reachable(g, i),
        forall|k: int| 0 <= k < prevs.len() ==> prevs[k] < g.blocks.len(),
    ensures
        res@ == meet(g, states_view(context@), prevs@),
{
    let mut res: State = Table::new();
    let mut i: usize = 0;
    assert(prevs@.take(0) =~= Seq::<usize>::empty());
    while i < prevs.len()
        invariant
            i <= prevs.len(),
            context.len() == g.blocks.len(),
            visited.len() == g.blocks.len(),
            forall|k: int| 0 <= k < visited.len() ==> visited[k] == reachable(g, k),
            forall|k: int| 0 <= k < prevs.len() ==> prevs[k] < g.blocks.len(),
            res@ == meet(g, states_view(context@), prevs@.take(i as int)),
        decreases prevs.len() - i,
    {
        proof {
            assert(prevs@.take(i as int + 1).drop_last() =~= prevs@.take(i as int));
        }
        let p = prevs[i];
        if visited[p] {
            res.join_with(&context[p]);
        }
        i += 1;
    }
    assert(prevs@.take(prevs.len() as int) =~= prevs@);
    res
}

/// Moves a state over the instructions of a block.
fn run_instructions(insts: &Vec<AstNode>, state: &mut State)
    ensures
        final(state)@ == run_block(nodes_view(insts@), old(state)@),
{
    let ghost nv = nodes_view(insts@);
    let mut i: usize = 0;
    assert(nv.take(0) =~= Seq::<Node>::empty());
    while i < insts.len()
        invariant
            i <= insts.len(),
            nv == nodes_view(insts@),
            state@ == run_block(nv.take(i as int), old(state)@),
        decreases insts.len() - i,
    {
        proof {
            assert(nv.take(i as int + 1).drop_last() =~= nv.take(i as int));
        }
        insts[i].update_evaluations(state);
        i += 1;
    }
    assert(nv.take(insts.len() as int) =~= nv);
}

/// One sweep of the analysis along `order`.
fn update_evaluations(
    cfg: &ControlFlowGraph,
    order: &Vec<usize>,
    visited: &Vec<bool>,
    context: &mut Vec<State>,
)
    requires
        well_formed(cfg@),
        order@ == preorder(cfg@),
        forall|k: int| 0 <= k < order.len() ==> (#[trigger] order@[k]) < cfg@.blocks.len(),
        old(context).len() == cfg@.blocks.len(),
        visited.len() == cfg@.blocks.len(),
        forall|i: int| 0 <= i < visited.len() ==> visited[i] == reachable(cfg@, i),
    ensures
        final(context).len() == cfg@.blocks.len(),
        states_view(final(context)@) == sweep(cfg@, states_view(old(context)@)),
{
    let ghost g = cfg@;
    let ghost start = states_view(context@);
    let n = cfg.basic_blocks.len();
    let mut k: usize = 0;
    while k < order.len()
        invariant
            k <= order.len(),
            g == cfg@,
            well_formed(g),
            order@ == preorder(g),
            forall|m: int| 0 <= m < order.len() ==> (#[trigger] order@[m]) < n,
            n == g.blocks.len(),
            context.len() == n,
            visited.len() == n,
            forall|i: int| 0 <= i < visited.len() ==> visited[i] == reachable(g, i),
            states_view(context@) == sweep_along(g, start, order@, k as int),
        decreases order.len() - k,
    {
        let b = order[k];
        proof {
            assert forall|m: int| 0 <= m < cfg.basic_blocks[b as int].prevs.len() implies cfg.basic_blocks[b as int].prevs[m]
                < n by {
                assert(g.blocks[b as int].prevs[m] < g.blocks.len());
            }
        }
        let ghost before = states_view(context@);
        let mut state = meet_operator(Ghost(g), &cfg.basic_blocks[b].prevs, context, visited);
        run_instructions(&cfg.basic_blocks[b].insts, &mut state);
        context.set(b, state);
        assert(states_view(context@) =~= before.update(b as int, state@));
        k += 1;
    }
}

/// The number of sweeps after which the analysis is given up.
fn sweep_limit_of(cfg: &ControlFlowGraph) -> (res: usize)
    ensures
        res == sweep_limit(cfg@),
{
    let ghost g = cfg@;
    let n = cfg.basic_blocks.len();
    let mut count: usize = 0;
    let mut fits: bool = true;
    let mut i: usize = 0;
    while i < n
        invariant
            i <= n,
            g == cfg@,
            n == g.blocks.len(),
            fits ==> count == instruction_count(g, i as int),
            !fits ==> instruction_count(g, i as int) > usize::MAX,
        decreases n - i,
    {
        let more = cfg.basic_blocks[i].insts.len();
        assert(more == g.blocks[i as int].insts.len());
        if fits {
            match count.checked_add(more) {
                Some(sum) => {
                    count = sum;
                },
                None => {
                    fits = false;
                },
            }
        }
        i += 1;
    }
    let ghost all = instruction_count(g, n as int);
    if !fits {
        if n == 0 {
            return 2;
        }
        assert(3 * n * (all + 1) + 2 > usize::MAX) by (nonlinear_arith)
            requires
                n >= 1,
                all > usize::MAX,
        ;
        return usize::MAX;
    }
    let product = match count.checked_add(1) {
        Some(each) => match n.checked_mul(each) {
            Some(pairs) => match pairs.checked_mul(3) {
                Some(raises) => raises.checked_add(2),
                None => None,
            },
            None => None,
        },
        None => None,
    };
    proof {
        assert(3 * n * (all + 1) == (n * (all + 1)) * 3) by (nonlinear_arith);
        if n >= 1 {
            assert(n * (all + 1) >= all + 1) by (nonlinear_arith)
                requires
                    n >= 1,
            ;
        } else {
            assert(n * (all + 1) == 0) by (nonlinear_arith)
                requires
                    n == 0,
            ;
        }
    }
    match product {
        Some(limit) => limit,
        None => usize::MAX,
    }
}

/// Whether two lists of recorded states are the same.
fn same_states(a: &Vec<State>, b: &Vec<State>) -> (res: bool)
    requires
        a.len() == b.len(),
    ensures
        res == (states_view(a@) == states_view(b@)),
{
    let mut i: usize = 0;
    while i < a.len()
        invariant
            i <= a.len(),
            a.len() == b.len(),
            forall|k: int| 0 <= k < i ==> a@[k]@ == b@[k]@,
        decreases a.len() - i,
    {
        if !a[i].equals(&b[i]) {
            assert(states_view(a@)[i as int] != states_view(b@)[i as int]);
            return false;
        }
        i += 1;
    }
    assert(states_view(a@) =~= states_view(b@));
    true
}

/// A copy of a list of recorded states.
fn copy_states(a: &Vec<State>) -> (res: Vec<State>)
    ensures
        res.len() == a.len(),
        states_view(res@) == states_view(a@),
{
    let mut res: Vec<State> = Vec::new();
    let mut i: usize = 0;
    while i < a.len()
        invariant
            i <= a.len(),
            res.len() == i,
            forall|k: int| 0 <= k < i ==> res@[k]@ == a@[k]@,
        decreases a.len() - i,
    {
        res.push(a[i].duplicate());
        i += 1;
    }
    assert(states_view(res@) =~= states_view(a@));
    res
}

/// Rewrites the instructions of a block from its entry state.
fn rewrite_instructions(insts: &mut Vec<AstNode>, state: &mut State)
    ensures
        nodes_view(final(insts)@) == rewrite_block(nodes_view(old(insts)@), old(state)@),
{
    let ghost nv = nodes_view(insts@);
    let ghost s0 = state@;
    let n = insts.len();
    let mut i: usize = 0;
    assert(nv.take(0) =~= Seq::<Node>::empty());
    while i < n
        invariant
            i <= n,
            n == insts.len(),
            nv == nodes_view(old(insts)@),
            nv.len() == n,
            s0 == old(state)@,
            state@ == run_block(nv.take(i as int), s0),
            forall|k: int| 0 <= k < i ==> (#[trigger] insts@[k])@ == rewrite_block(
                nv.take(i as int),
                s0,
            )[k],
            rewrite_block(nv.take(i as int), s0).len() == i,
            forall|k: int| i <= k < n ==> (#[trigger] insts@[k])@ == nv[k],
        decreases n - i,
    {
        proof {
            assert(nv.take(i as int + 1).drop_last() =~= nv.take(i as int));
        }
        let next = insts[i].reduced_version(state);
        insts[i].update_evaluations(state);
        insts.set(i, next);
        i += 1;
    }
    assert(nv.take(n as int) =~= nv);
    assert(nodes_view(insts@) =~= rewrite_block(nv, s0));
}

/// Rewrites the instructions of every reachable block under the recorded
/// states.
fn update_cfg(cfg: &mut ControlFlowGraph, visited: &Vec<bool>, context: &Vec<State>)
    requires
        well_formed(old(cfg)@),
        context.len() == old(cfg)@.blocks.len(),
        visited.len() == old(cfg)@.blocks.len(),
        forall|i: int| 0 <= i < visited.len() ==> visited[i] == reachable(old(cfg)@, i),
    ensures
        final(cfg)@ == rewrite(old(cfg)@, states_view(context@)),
{
    let ghost g = cfg@;
    let ghost states = states_view(context@);
    let n = cfg.basic_blocks.len();
    let mut b: usize = 0;
    while b < n
        invariant
            b <= n,
            g == old(cfg)@,
            well_formed(g),
            states == states_view(context@),
            n == g.blocks.len(),
            n == cfg.basic_blocks.len(),
            context.len() == n,
            visited.len() == n,
            cfg.function == old(cfg).function,
            cfg.entry == old(cfg).entry,
            cfg.label_table == old(cfg).label_table,
            forall|i: int| 0 <= i < visited.len() ==> visited[i] == reachable(g, i),
            forall|k: int| 0 <= k < b ==> (#[trigger] cfg@.blocks[k]) == rewritten_block(
                g,
                states,
                k,
            ),
            forall|k: int| b <= k < n ==> (#[trigger] cfg@.blocks[k]) == g.blocks[k],
        decreases n - b,
    {
        let ghost before = cfg@;
        proof {
            assert(before.blocks[b as int] == g.blocks[b as int]);
        }
        if visited[b] {
            proof {
                assert forall|k: int| 0 <= k < cfg.basic_blocks[b as int].prevs.len() implies cfg.basic_blocks[b as int].prevs[k]
                    < n by {
                    assert(g.blocks[b as int].prevs[k] < g.blocks.len());
                }
            }
            let mut state = meet_operator(
                Ghost(g),
                &cfg.basic_blocks[b].prevs,
                context,
                visited,
            );
            rewrite_instructions(&mut cfg.basic_blocks[b].insts, &mut state);
        }
        proof {
            assert forall|k: int| 0 <= k < n && k != b implies (#[trigger] cfg@.blocks[k])
                == before.blocks[k] by {}
            let now = cfg@.blocks[b as int];
            let goal = rewritten_block(g, states, b as int);
            assert(now.insts == goal.insts);
            assert(now.prevs == goal.prevs);
            assert(now.next == goal.next);
        }
        b += 1;
    }
    assert(cfg@.blocks =~= rewrite(g, states).blocks);
}


/// Branch conditions are never folded: constant propagation changes
/// instructions inside blocks and nothing else. Every block keeps its id,
/// its label, its predecessors and its exit, the condition of a conditional
/// jump included, and the number of its instructions.
pub proof fn lemma_propagation_keeps_shape(g: Graph)
    ensures
        same_shape(g, propagated(g)),
        forall|b: int|
            0 <= b < g.blocks.len() ==> (#[trigger] propagated(g).blocks[b]).insts.len()
                == g.blocks[b].insts.len(),
{
    match analysis(g) {
        Some(states) => {
            lemma_rewrite_keeps_shape(g, states);
        },
        None => {},
    }
}

/// The rewrite changes instructions inside blocks and nothing else.
pub proof fn lemma_rewrite_keeps_shape(g: Graph, states: Seq<Facts>)
    ensures
        same_shape(g, rewrite(g, states)),
        forall|b: int|
            0 <= b < g.blocks.len() ==> (#[trigger] rewrite(g, states).blocks[b]).insts.len()
                == g.blocks[b].insts.len(),
{
    assert forall|b: int| 0 <= b < g.blocks.len() implies (#[trigger] rewrite(
        g,
        states,
    ).blocks[b]).insts.len() == g.blocks[b].insts.len() by {
        lemma_rewrite_block_len(g.blocks[b].insts, entry_state(g, states, b));
    }
}

proof fn lemma_rewrite_block_len(insts: Seq<Node>, state: Facts)
    ensures
        rewrite_block(insts, state).len() == insts.len(),
    decreases insts.len(),
{
    if insts.len() > 0 {
        lemma_rewrite_block_len(insts.drop_last(), state);
    }
}

impl CompilerPass for ConstantPropagationPass {
    open spec fn effect(&self, g: Graph) -> Graph {
        propagated(g)
    }

    /// Runs the analysis to its stable state and rewrites the instructions
    /// of the graph under it.
    fn run_on_function(&self, cfg: &mut ControlFlowGraph) {
        let ghost g = cfg@;
        proof {
            lemma_propagation_keeps_shape(g);
            lemma_same_shape_well_formed(g, propagated(g));
        }
        let visited = reachable_blocks(cfg);
        let order = visit_order(cfg);
        let limit = sweep_limit_of(cfg);
        let n = cfg.basic_blocks.len();
        let mut context: Vec<State> = Vec::new();
        let mut i: usize = 0;
        while i < n
            invariant
                i <= n,
                context.len() == i,
                forall|k: int| 0 <= k < i ==> context@[k]@ == Map::<Seq<char>, Value>::empty(),
            decreases n - i,
        {
            context.push(Table::new());
            i += 1;
        }
        assert(states_view(context@) =~= initial_states(g));
        let mut sweeps: usize = 0;
        let mut stable: bool = false;
        while sweeps < limit && !stable
            invariant
                g == cfg@,
                well_formed(g),
                limit == sweep_limit(g),
                order@ == preorder(g),
                forall|k: int| 0 <= k < order.len() ==> (#[trigger] order@[k]) < n,
                n == g.blocks.len(),
                context.len() == n,
                visited.len() == n,
                forall|k: int| 0 <= k < visited.len() ==> visited[k] == reachable(g, k),
                stable ==> analysis(g) == Some(states_view(context@)),
                sweeps <= limit,
                !stable ==> analysis(g) == iterate(
                    g,
                    states_view(context@),
                    (limit - sweeps) as nat,
                ),
            decreases limit - sweeps + (if stable { 0int } else { 1int }),
        {
            let mut new_context = copy_states(&context);
            update_evaluations(cfg, &order, &visited, &mut new_context);
            if same_states(&context, &new_context) {
                stable = true;
            } else {
                context = new_context;
                sweeps += 1;
            }
        }
        if stable {
            update_cfg(cfg, &visited, &context);
        }
    }
}

} // verus!
