use vstd::prelude::*;
use crate::opt::cfg::{
    blocks_view, successors, targets, well_formed, Block, ConditionalJump, ControlFlowGraph,
    Exit, Graph, Jump,
};
use crate::opt::reach::{reachable, reachable_blocks};
use crate::opt::pass::CompilerPass;
use crate::opt::table::Table;

verus! {

/// The pass that removes the blocks that cannot be reached from the entry.
#[derive(Clone, Copy, Debug)]
pub struct ReducePass;

/// The index that block `i` has once the unreachable blocks are gone: the
/// number of reachable blocks before it.
pub open spec fn new_index(g: Graph, i: int) -> nat
    decreases i,
{
    if i <= 0 {
        0
    } else {
        new_index(g, i - 1) + if reachable(g, i - 1) {
            1nat
        } else {
            0nat
        }
    }
}

/// A predecessor list with the unreachable blocks taken out and the others
/// under their new indices.
pub open spec fn remap_prevs(g: Graph, prevs: Seq<usize>) -> Seq<usize>
    decreases prevs.len(),
{
    if prevs.len() == 0 {
        Seq::empty()
    } else if reachable(g, prevs.last() as int) {
        remap_prevs(g, prevs.drop_last()).push(new_index(g, prevs.last() as int) as usize)
    } else {
        remap_prevs(g, prevs.drop_last())
    }
}

/// An exit with its targets under their new indices.
pub open spec fn remap_exit(g: Graph, next: Exit) -> Exit {
    match next {
        Exit::Return => Exit::Return,
        Exit::Unconditional { target } => Exit::Unconditional {
            target: new_index(g, target as int) as usize,
        },
        Exit::Conditional { condition, goto, otherwise } => Exit::Conditional {
            condition,
            goto: new_index(g, goto as int) as usize,
            otherwise: new_index(g, otherwise as int) as usize,
        },
    }
}

/// Block `i` with its jump and its predecessors under their new indices.
pub open spec fn remapped(g: Graph, i: int) -> Block {
    Block {
        prevs: remap_prevs(g, g.blocks[i].prevs),
        next: remap_exit(g, g.blocks[i].next),
        ..g.blocks[i]
    }
}

/// The reachable blocks among the blocks `lo` up to `hi`, remapped, in
/// order.
pub open spec fn survivors(g: Graph, lo: int, hi: int) -> Seq<Block>
    decreases hi - lo,
{
    if hi <= lo {
        Seq::empty()
    } else if reachable(g, hi - 1) {
        survivors(g, lo, hi - 1).push(remapped(g, hi - 1))
    } else {
        survivors(g, lo, hi - 1)
    }
}

/// The blocks of a list, each with its position as its id.
pub open spec fn reindexed(blocks: Seq<Block>) -> Seq<Block> {
    Seq::new(blocks.len(), |j: int| Block { id: j as usize, ..blocks[j] })
}

/// The label table without the labels of unreachable blocks, the others
/// under the new indices of their blocks.
pub open spec fn remap_labels(g: Graph) -> Map<Seq<char>, usize> {
    Map::new(
        |name: Seq<char>| g.labels.contains_key(name) && reachable(g, g.labels[name] as int),
        |name: Seq<char>| new_index(g, g.labels[name] as int) as usize,
    )
}

/// The graph without the blocks that cannot be reached from the entry. The
/// blocks that stay keep their order and their instructions; their ids, their
/// jumps, their predecessor lists and the label table follow the new
/// indices.
pub open spec fn pruned(g: Graph) -> Graph {
    Graph {
        function: g.function,
        entry: new_index(g, g.entry as int) as usize,
        blocks: reindexed(survivors(g, 0, g.blocks.len() as int)),
        labels: remap_labels(g),
    }
}

pub proof fn lemma_new_index_bound(g: Graph, i: int)
    requires
        0 <= i,
    ensures
        new_index(g, i) <= i,
    decreases i,
{
    if i > 0 {
        lemma_new_index_bound(g, i - 1);
    }
}

/// The survivors of a range are the survivor at its start, if that block is
/// one, followed by the survivors of the rest.
pub proof fn lemma_survivors_front(g: Graph, lo: int, hi: int)
    requires
        lo < hi,
    ensures
        survivors(g, lo, hi) == (if reachable(g, lo) {
            seq![remapped(g, lo)]
        } else {
            Seq::empty()
        }) + survivors(g, lo + 1, hi),
    decreases hi - lo,
{
    let head = if reachable(g, lo) {
        seq![remapped(g, lo)]
    } else {
        Seq::empty()
    };
    if hi == lo + 1 {
        assert(survivors(g, lo, lo) =~= Seq::<Block>::empty());
        assert(survivors(g, lo + 1, hi) =~= Seq::<Block>::empty());
        assert(survivors(g, lo, hi) =~= head + survivors(g, lo + 1, hi));
    } else {
        lemma_survivors_front(g, lo, hi - 1);
        assert(survivors(g, lo, hi) =~= head + survivors(g, lo + 1, hi));
    }
}

impl ControlFlowGraph {
    /// Gives every block its position as its id.
    pub fn reindex_basic_blocks(&mut self)
        ensures
            final(self)@ == (Graph { blocks: reindexed(old(self)@.blocks), ..old(self)@ }),
    {
        let n = self.basic_blocks.len();
        let mut ix: usize = 0;
        while ix < n
            invariant
                ix <= n,
                n == self.basic_blocks.len(),
                n == old(self)@.blocks.len(),
                self.function == old(self).function,
                self.entry == old(self).entry,
                self.label_table == old(self).label_table,
                forall|k: int|
                    0 <= k < ix ==> (#[trigger] self@.blocks[k]) == reindexed(
                        old(self)@.blocks,
                    )[k],
                forall|k: int| ix <= k < n ==> (#[trigger] self@.blocks[k]) == old(self)@.blocks[k],
            decreases n - ix,
        {
            let ghost before = self@;
            self.basic_blocks[ix].id = ix;
            proof {
                assert forall|k: int| 0 <= k < n && k != ix implies (#[trigger] self@.blocks[k])
                    == before.blocks[k] by {}
                assert(before.blocks[ix as int] == old(self)@.blocks[ix as int]);
            }
            ix += 1;
        }
        assert(self@.blocks =~= reindexed(old(self)@.blocks));
    }
}

/// The new index of every block: the number of marked blocks before it.
fn new_indices(cfg: &ControlFlowGraph, visited: &Vec<bool>) -> (remap: Vec<usize>)
    requires
        visited.len() == cfg@.blocks.len(),
        forall|i: int| 0 <= i < visited.len() ==> visited[i] == reachable(cfg@, i),
    ensures
        remap.len() == cfg@.blocks.len(),
        forall|i: int| 0 <= i < remap.len() ==> remap[i] == new_index(cfg@, i),
{
    let n = visited.len();
    let mut remap: Vec<usize> = Vec::new();
    let mut count: usize = 0;
    let mut i: usize = 0;
    while i < n
        invariant
            i <= n,
            n == visited.len(),
            n == cfg@.blocks.len(),
            remap.len() == i,
            count == new_index(cfg@, i as int),
            count <= i,
            forall|k: int| 0 <= k < visited.len() ==> visited[k] == reachable(cfg@, k),
            forall|k: int| 0 <= k < i ==> remap[k] == new_index(cfg@, k),
        decreases n - i,
    {
        remap.push(count);
        if visited[i] {
            count += 1;
        }
        i += 1;
    }
    remap
}

/// A predecessor list without the unmarked blocks, the others under their
/// new indices.
fn remap_list(
    Ghost(g): Ghost<Graph>,
    prevs: &Vec<usize>,
    visited: &Vec<bool>,
    remap: &Vec<usize>,
) -> (res: Vec<usize>)
    requires
        visited.len() == g.blocks.len(),
        remap.len() == g.blocks.len(),
        forall|i: int| 0 <= i < visited.len() ==> visited[i] == reachable(g, i),
        forall|i: int| 0 <= i < remap.len() ==> remap[i] == new_index(g, i),
        forall|k: int| 0 <= k < prevs.len() ==> prevs[k] < g.blocks.len(),
    ensures
        res@ == remap_prevs(g, prevs@),
{
    let mut res: Vec<usize> = Vec::new();
    let mut i: usize = 0;
    assert(prevs@.take(0) =~= Seq::<usize>::empty());
    while i < prevs.len()
        invariant
            i <= prevs.len(),
            visited.len() == g.blocks.len(),
            remap.len() == g.blocks.len(),
            forall|k: int| 0 <= k < visited.len() ==> visited[k] == reachable(g, k),
            forall|k: int| 0 <= k < remap.len() ==> remap[k] == new_index(g, k),
            forall|k: int| 0 <= k < prevs.len() ==> prevs[k] < g.blocks.len(),
            res@ == remap_prevs(g, prevs@.take(i as int)),
        decreases prevs.len() - i,
    {
        proof {
            assert(prevs@.take(i as int + 1).drop_last() =~= prevs@.take(i as int));
        }
        let p = prevs[i];
        if visited[p] {
            res.push(remap[p]);
        }
        i += 1;
    }
    assert(prevs@.take(prevs.len() as int) =~= prevs@);
    res
}


/// The blocks of a graph, each remapped.
pub open spec fn all_remapped(g: Graph) -> Seq<Block> {
    Seq::new(g.blocks.len(), |i: int| remapped(g, i))
}

/// Puts the jumps and the predecessor lists of all blocks under the new
/// indices.
fn remap_blocks(cfg: &mut ControlFlowGraph, visited: &Vec<bool>, remap: &Vec<usize>)
    requires
        well_formed(old(cfg)@),
        visited.len() == old(cfg)@.blocks.len(),
        remap.len() == old(cfg)@.blocks.len(),
        forall|i: int| 0 <= i < visited.len() ==> visited[i] == reachable(old(cfg)@, i),
        forall|i: int| 0 <= i < remap.len() ==> remap[i] == new_index(old(cfg)@, i),
    ensures
        final(cfg)@ == (Graph { blocks: all_remapped(old(cfg)@), ..old(cfg)@ }),
{
    let ghost g = cfg@;
    let n = cfg.basic_blocks.len();
    let mut i: usize = 0;
    while i < n
        invariant
            i <= n,
            g == old(cfg)@,
            well_formed(g),
            n == cfg.basic_blocks.len(),
            n == g.blocks.len(),
            visited.len() == n,
            remap.len() == n,
            cfg.function == old(cfg).function,
            cfg.entry == old(cfg).entry,
            cfg.label_table == old(cfg).label_table,
            forall|k: int| 0 <= k < visited.len() ==> visited[k] == reachable(g, k),
            forall|k: int| 0 <= k < remap.len() ==> remap[k] == new_index(g, k),
            forall|k: int| 0 <= k < i ==> (#[trigger] cfg@.blocks[k]) == remapped(g, k),
            forall|k: int| i <= k < n ==> (#[trigger] cfg@.blocks[k]) == g.blocks[k],
        decreases n - i,
    {
        let ghost before = cfg@;
        proof {
            assert(before.blocks[i as int] == g.blocks[i as int]);
            assert forall|k: int| 0 <= k < cfg.basic_blocks[i as int].prevs.len() implies cfg.basic_blocks[i as int].prevs[k]
                < n by {
                assert(g.blocks[i as int].prevs[k] < g.blocks.len());
            }
            assert forall|k: int| 0 <= k < targets(g.blocks[i as int].next).len() implies (
            #[trigger] targets(g.blocks[i as int].next)[k]) < n by {
                assert(successors(g.blocks[i as int])[k] < g.blocks.len());
            }
        }
        let prevs = remap_list(Ghost(g), &cfg.basic_blocks[i].prevs, visited, remap);
        assert(prevs@ == remap_prevs(g, g.blocks[i as int].prevs)) by {
            assert(cfg@.blocks[i as int].prevs == g.blocks[i as int].prevs);
        }
        let next = match cfg.basic_blocks[i].next.take() {
            Some(Jump::Unconditional(target)) => {
                assert(targets(g.blocks[i as int].next)[0] == target);
                Some(Jump::Unconditional(remap[target]))
            },
            Some(Jump::Conditional(jump)) => {
                assert(targets(g.blocks[i as int].next)[0] == jump.goto);
                assert(targets(g.blocks[i as int].next)[1] == jump.otherwise);
                Some(
                    Jump::Conditional(
                        ConditionalJump {
                            condition: jump.condition,
                            goto: remap[jump.goto],
                            otherwise: remap[jump.otherwise],
                        },
                    ),
                )
            },
            None => None,
        };
        cfg.basic_blocks[i].next = next;
        cfg.basic_blocks[i].prevs = prevs;
        proof {
            assert forall|k: int| 0 <= k < n && k != i implies (#[trigger] cfg@.blocks[k])
                == before.blocks[k] by {}
            let now = cfg@.blocks[i as int];
            let goal = remapped(g, i as int);
            assert(now.next == goal.next);
            assert(now.prevs == goal.prevs);
            assert(now.insts == goal.insts);
        }
        i += 1;
    }
    assert(cfg@.blocks =~= all_remapped(g));
}


/// The label table under the new indices, without the labels of unmarked
/// blocks.
fn remap_table(
    Ghost(g): Ghost<Graph>,
    table: &Table<usize>,
    visited: &Vec<bool>,
    remap: &Vec<usize>,
) -> (res: Table<usize>)
    requires
        table@ == g.labels,
        forall|name: Seq<char>| #[trigger] g.labels.contains_key(name) ==> g.labels[name]
            < g.blocks.len(),
        visited.len() == g.blocks.len(),
        remap.len() == g.blocks.len(),
        forall|i: int| 0 <= i < visited.len() ==> visited[i] == reachable(g, i),
        forall|i: int| 0 <= i < remap.len() ==> remap[i] == new_index(g, i),
    ensures
        res@ == remap_labels(g),
{
    let mut res: Table<usize> = Table::new();
    let n = table.len();
    let mut i: usize = 0;
    while i < n
        invariant
            i <= n,
            n == table.names().len(),
            table@ == g.labels,
            forall|name: Seq<char>| #[trigger] g.labels.contains_key(name) ==> g.labels[name]
                < g.blocks.len(),
            visited.len() == g.blocks.len(),
            remap.len() == g.blocks.len(),
            forall|k: int| 0 <= k < visited.len() ==> visited[k] == reachable(g, k),
            forall|k: int| 0 <= k < remap.len() ==> remap[k] == new_index(g, k),
            forall|name: Seq<char>|
                #![trigger table@.contains_key(name)]
                #![trigger table.names().contains(name)]
                table@.contains_key(name) <==> table.names().contains(name),
            forall|name: Seq<char>|
                #![trigger res@.contains_key(name)]
                res@.contains_key(name) <==> table.names().take(i as int).contains(name)
                    && reachable(g, g.labels[name] as int),
            forall|name: Seq<char>| #[trigger]
                res@.contains_key(name) ==> res@[name] == new_index(g, g.labels[name] as int),
        decreases n - i,
    {
        let name = table.name_at(i);
        let ghost key = name@;
        let ghost before = res@;
        match table.get(name) {
            Some(ix) => {
                if visited[*ix] {
                    res.insert(name.clone(), remap[*ix]);
                }
            },
            None => {},
        }
        proof {
            assert(table.names().take(i as int + 1) =~= table.names().take(i as int).push(key));
            assert forall|k: Seq<char>|
                #![trigger res@.contains_key(k)]
                res@.contains_key(k) <==> table.names().take(i as int + 1).contains(k)
                    && reachable(g, g.labels[k] as int) by {
                vstd::seq_lib::lemma_seq_contains_after_push(
                    table.names().take(i as int),
                    key,
                    k,
                );
                assert(before.contains_key(k) <==> table.names().take(i as int).contains(k)
                    && reachable(g, g.labels[k] as int));
            }
        }
        i += 1;
    }
    proof {
        assert(table.names().take(n as int) =~= table.names());
        assert(res@ =~= remap_labels(g));
    }
    res
}

/// Takes the unmarked blocks out of the graph, from the last to the first.
fn remove_unvisited(Ghost(g): Ghost<Graph>, cfg: &mut ControlFlowGraph, visited: &Vec<bool>)
    requires
        old(cfg)@.blocks == all_remapped(g),
        visited.len() == g.blocks.len(),
        forall|i: int| 0 <= i < visited.len() ==> visited[i] == reachable(g, i),
    ensures
        final(cfg)@ == (Graph {
            blocks: survivors(g, 0, g.blocks.len() as int),
            ..old(cfg)@
        }),
{
    let n = visited.len();
    let ghost all = all_remapped(g);
    let mut i: usize = n;
    proof {
        assert(all.take(n as int) =~= all);
        assert(all + survivors(g, n as int, n as int) =~= all);
    }
    while i > 0
        invariant
            i <= n,
            n == g.blocks.len(),
            visited.len() == n,
            all == all_remapped(g),
            cfg.function == old(cfg).function,
            cfg.entry == old(cfg).entry,
            cfg.label_table == old(cfg).label_table,
            forall|k: int| 0 <= k < visited.len() ==> visited[k] == reachable(g, k),
            cfg@.blocks == all.take(i as int) + survivors(g, i as int, n as int),
        decreases i,
    {
        i -= 1;
        let ghost before = cfg.basic_blocks@;
        proof {
            lemma_survivors_front(g, i as int, n as int);
            assert(all.take(i as int + 1) =~= all.take(i as int).push(all[i as int]));
            assert(cfg@.blocks.len() == i + 1 + survivors(g, i as int + 1, n as int).len());
        }
        if !visited[i] {
            let gone = cfg.basic_blocks.remove(i);
            assert(cfg@.blocks =~= blocks_view(before).remove(i as int));
            assert(cfg@.blocks =~= all.take(i as int) + survivors(g, i as int, n as int));
        } else {
            assert(cfg@.blocks =~= all.take(i as int) + survivors(g, i as int, n as int));
        }
    }
    assert(all.take(0) + survivors(g, 0, n as int) =~= survivors(g, 0, n as int));
}

impl CompilerPass for ReducePass {
    open spec fn effect(&self, g: Graph) -> Graph {
        pruned(g)
    }

    /// Removes the blocks that cannot be reached from the entry, and gives
    /// the blocks that stay their new positions as ids.
    fn run_on_function(&self, cfg: &mut ControlFlowGraph) {
        let ghost g = cfg@;
        proof {
            crate::opt::reduce_laws::lemma_pruned_well_formed(g);
        }
        let visited = reachable_blocks(cfg);
        let remap = new_indices(cfg, &visited);
        let label_table = remap_table(Ghost(g), &cfg.label_table, &visited, &remap);
        remap_blocks(cfg, &visited, &remap);
        cfg.label_table = label_table;
        cfg.entry = remap[cfg.entry];
        remove_unvisited(Ghost(g), cfg, &visited);
        cfg.reindex_basic_blocks();
    }
}

} // verus!
