use vstd::prelude::*;
use crate::opt::cfg::{edge, successors, targets, well_formed, Block, Exit, Graph};
use crate::opt::reach::{
    is_path, lemma_entry_reachable, lemma_reachable_in_range, lemma_reachable_step, reachable,
};
use crate::opt::reduce_pass::{
    lemma_new_index_bound, new_index, pruned, reindexed, remap_exit, remap_labels, remap_prevs,
    remapped, survivors,
};

verus! {

/// New indices do not decrease with old ones.
pub proof fn lemma_new_index_monotone(g: Graph, i: int, j: int)
    requires
        0 <= i <= j,
    ensures
        new_index(g, i) <= new_index(g, j),
    decreases j - i,
{
    if i < j {
        lemma_new_index_monotone(g, i, j - 1);
    }
}

/// A reachable block gets a smaller new index than every later block.
pub proof fn lemma_new_index_strict(g: Graph, i: int, j: int)
    requires
        0 <= i < j,
        reachable(g, i),
    ensures
        new_index(g, i) < new_index(g, j),
{
    lemma_new_index_monotone(g, i + 1, j);
}

/// Two reachable blocks with one new index are one block.
pub proof fn lemma_new_index_injective(g: Graph, i: int, j: int)
    requires
        0 <= i,
        0 <= j,
        reachable(g, i),
        reachable(g, j),
        new_index(g, i) == new_index(g, j),
    ensures
        i == j,
{
    if i < j {
        lemma_new_index_strict(g, i, j);
    } else if j < i {
        lemma_new_index_strict(g, j, i);
    }
}

/// As many blocks survive of the first `hi` as the new index of `hi` says,
/// and each reachable one among them stands at its new index.
pub proof fn lemma_survivors_index(g: Graph, hi: int)
    requires
        0 <= hi,
    ensures
        survivors(g, 0, hi).len() == new_index(g, hi),
        forall|i: int|
            0 <= i < hi && reachable(g, i) ==> new_index(g, i) < new_index(g, hi)
                && #[trigger] survivors(g, 0, hi)[new_index(g, i) as int] == remapped(g, i),
    decreases hi,
{
    if hi > 0 {
        lemma_survivors_index(g, hi - 1);
        assert forall|i: int| 0 <= i < hi && reachable(g, i) implies new_index(g, i) < new_index(
            g,
            hi,
        ) && #[trigger] survivors(g, 0, hi)[new_index(g, i) as int] == remapped(g, i) by {
            lemma_new_index_strict(g, i, hi);
            if i < hi - 1 {
                assert(survivors(g, 0, hi - 1)[new_index(g, i) as int] == remapped(g, i));
            }
        }
    }
}

/// Every new index below the number of survivors belongs to a reachable
/// block.
pub proof fn lemma_origin(g: Graph, hi: int, j: int) -> (i: int)
    requires
        0 <= hi,
        0 <= j < new_index(g, hi),
    ensures
        0 <= i < hi,
        reachable(g, i),
        new_index(g, i) == j,
    decreases hi,
{
    if reachable(g, hi - 1) && new_index(g, hi - 1) == j {
        hi - 1
    } else {
        lemma_origin(g, hi - 1, j)
    }
}

/// Entry `k` of `prevs` is a reachable block whose new index is `q`.
pub open spec fn remapped_from(g: Graph, prevs: Seq<usize>, k: int, q: usize) -> bool {
    &&& 0 <= k < prevs.len()
    &&& reachable(g, prevs[k] as int)
    &&& new_index(g, prevs[k] as int) == q
}

/// What a remapped predecessor list holds: the new indices of the reachable
/// blocks of the list.
pub proof fn lemma_remap_prevs(g: Graph, prevs: Seq<usize>)
    ensures
        forall|q: usize| #[trigger]
            remap_prevs(g, prevs).contains(q) <==> exists|k: int| remapped_from(g, prevs, k, q),
    decreases prevs.len(),
{
    if prevs.len() > 0 {
        let front = prevs.drop_last();
        let last = prevs.len() - 1;
        lemma_remap_prevs(g, front);
        lemma_new_index_bound(g, prevs.last() as int);
        assert forall|q: usize| #[trigger]
            remap_prevs(g, prevs).contains(q) <==> exists|k: int|
                remapped_from(g, prevs, k, q) by {
            if reachable(g, prevs.last() as int) {
                vstd::seq_lib::lemma_seq_contains_after_push(
                    remap_prevs(g, front),
                    new_index(g, prevs.last() as int) as usize,
                    q,
                );
            }
            if remap_prevs(g, prevs).contains(q) {
                if remap_prevs(g, front).contains(q) {
                    let k = choose|k: int| remapped_from(g, front, k, q);
                    assert(front[k] == prevs[k]);
                    assert(remapped_from(g, prevs, k, q));
                } else {
                    assert(reachable(g, prevs.last() as int));
                    assert(q == new_index(g, prevs.last() as int) as usize);
                    assert(remapped_from(g, prevs, last, q));
                }
                assert(exists|k: int| remapped_from(g, prevs, k, q));
            }
            if exists|k: int| remapped_from(g, prevs, k, q) {
                let k = choose|k: int| remapped_from(g, prevs, k, q);
                if k < front.len() {
                    assert(front[k] == prevs[k]);
                    assert(remapped_from(g, front, k, q));
                    assert(remap_prevs(g, front).contains(q));
                } else {
                    assert(k == last);
                }
                assert(remap_prevs(g, prevs).contains(q));
            }
        }
    } else {
        assert forall|q: usize| #[trigger]
            remap_prevs(g, prevs).contains(q) <==> exists|k: int|
                remapped_from(g, prevs, k, q) by {
            if exists|k: int| remapped_from(g, prevs, k, q) {
                let k = choose|k: int| remapped_from(g, prevs, k, q);
            }
        }
    }
}


/// The number of blocks of the pruned graph is the number of reachable
/// blocks, and each reachable block stands in it at its new index, remapped
/// and with that index as its id.
pub proof fn lemma_pruned_blocks(g: Graph)
    ensures
        pruned(g).blocks.len() == new_index(g, g.blocks.len() as int),
        new_index(g, g.blocks.len() as int) <= g.blocks.len(),
        forall|i: int|
            0 <= i < g.blocks.len() && reachable(g, i) ==> new_index(g, i) < pruned(
                g,
            ).blocks.len() && #[trigger] pruned(g).blocks[new_index(g, i) as int] == (Block {
                id: new_index(g, i) as usize,
                ..remapped(g, i)
            }),
{
    let n = g.blocks.len() as int;
    lemma_survivors_index(g, n);
    lemma_new_index_bound(g, n);
    assert forall|i: int| 0 <= i < g.blocks.len() && reachable(g, i) implies new_index(g, i)
        < pruned(g).blocks.len() && #[trigger] pruned(g).blocks[new_index(g, i) as int] == (Block {
        id: new_index(g, i) as usize,
        ..remapped(g, i)
    }) by {
        assert(survivors(g, 0, n)[new_index(g, i) as int] == remapped(g, i));
    }
}

/// A reachable block stands in the pruned graph at its new index.
pub proof fn lemma_pruned_block_at(g: Graph, i: int)
    requires
        0 <= i < g.blocks.len(),
        reachable(g, i),
    ensures
        new_index(g, i) < pruned(g).blocks.len(),
        new_index(g, i) <= i,
        pruned(g).blocks[new_index(g, i) as int] == (Block {
            id: new_index(g, i) as usize,
            ..remapped(g, i)
        }),
{
    lemma_pruned_blocks(g);
    lemma_new_index_bound(g, i);
    let b = pruned(g).blocks[new_index(g, i) as int];
}

/// The targets of a remapped exit are the new indices of the targets.
pub proof fn lemma_remap_targets(g: Graph, next: Exit)
    ensures
        targets(remap_exit(g, next)).len() == targets(next).len(),
        forall|k: int|
            0 <= k < targets(next).len() ==> #[trigger] targets(remap_exit(g, next))[k]
                == new_index(g, targets(next)[k] as int) as usize,
{
}

/// A jump out of a reachable block is a jump of the pruned graph, between
/// the new indices.
pub proof fn lemma_pruned_edge(g: Graph, a: int, b: int)
    requires
        well_formed(g),
        reachable(g, a),
        edge(g, a, b),
    ensures
        reachable(g, b),
        edge(pruned(g), new_index(g, a) as int, new_index(g, b) as int),
{
    lemma_reachable_step(g, a, b);
    lemma_pruned_blocks(g);
    let p = pruned(g);
    let k = choose|k: int|
        0 <= k < successors(g.blocks[a]).len() && successors(g.blocks[a])[k] == b as usize;
    lemma_remap_targets(g, g.blocks[a].next);
    lemma_new_index_bound(g, b);
    let block = p.blocks[new_index(g, a) as int];
    assert(block.next == remap_exit(g, g.blocks[a].next));
    assert(successors(block)[k] == new_index(g, b) as usize);
    assert(p.blocks[new_index(g, b) as int].id == new_index(g, b));
}

/// A jump of the pruned graph between the new indices of two reachable
/// blocks is a jump between them.
pub proof fn lemma_pruned_edge_back(g: Graph, a: int, b: int)
    requires
        well_formed(g),
        0 <= a < g.blocks.len(),
        0 <= b < g.blocks.len(),
        reachable(g, a),
        reachable(g, b),
        edge(pruned(g), new_index(g, a) as int, new_index(g, b) as int),
    ensures
        edge(g, a, b),
{
    lemma_pruned_blocks(g);
    let p = pruned(g);
    let block = p.blocks[new_index(g, a) as int];
    assert(block.next == remap_exit(g, g.blocks[a].next));
    let k = choose|k: int|
        0 <= k < successors(block).len() && successors(block)[k] == new_index(g, b) as usize;
    lemma_remap_targets(g, g.blocks[a].next);
    let t = successors(g.blocks[a])[k];
    assert(t < g.blocks.len());
    assert(edge(g, a, t as int));
    lemma_reachable_step(g, a, t as int);
    lemma_new_index_bound(g, t as int);
    lemma_new_index_bound(g, b);
    lemma_new_index_injective(g, t as int, b);
}

/// Pruning keeps a consistent graph consistent.
pub proof fn lemma_pruned_well_formed(g: Graph)
    requires
        well_formed(g),
    ensures
        well_formed(pruned(g)),
{
    let p = pruned(g);
    let n = g.blocks.len() as int;
    let m = new_index(g, n);
    lemma_pruned_blocks(g);
    lemma_entry_reachable(g);
    lemma_new_index_bound(g, g.entry as int);
    assert(p.blocks[p.entry as int].prevs =~= Seq::<usize>::empty()) by {
        assert(g.blocks[g.entry as int].prevs =~= Seq::<usize>::empty());
        assert(p.blocks[new_index(g, g.entry as int) as int].prevs == remap_prevs(
            g,
            g.blocks[g.entry as int].prevs,
        ));
    }
    assert(p.blocks[p.entry as int].label is None) by {
        assert(p.blocks[new_index(g, g.entry as int) as int].label == g.blocks[g.entry as int].label);
    }
    assert forall|j: int| 0 <= j < p.blocks.len() implies (#[trigger] p.blocks[j]).id == j by {}
    assert forall|j: int, k: int|
        0 <= j < p.blocks.len() && 0 <= k < successors(p.blocks[j]).len() implies (
    #[trigger] successors(p.blocks[j])[k]) < p.blocks.len() by {
        let i = lemma_origin(g, n, j);
        assert(p.blocks[new_index(g, i) as int].next == remap_exit(g, g.blocks[i].next));
        lemma_remap_targets(g, g.blocks[i].next);
        let t = successors(g.blocks[i])[k];
        assert(t < n);
        assert(edge(g, i, t as int));
        lemma_reachable_step(g, i, t as int);
        lemma_pruned_block_at(g, t as int);
    }
    assert forall|j: int, k: int|
        0 <= j < p.blocks.len() && 0 <= k < p.blocks[j].prevs.len() implies (
    #[trigger] p.blocks[j].prevs[k]) < p.blocks.len() by {
        let i = lemma_origin(g, n, j);
        assert(p.blocks[new_index(g, i) as int].prevs == remap_prevs(g, g.blocks[i].prevs));
        lemma_remap_prevs(g, g.blocks[i].prevs);
        let q = p.blocks[j].prevs[k];
        assert(remap_prevs(g, g.blocks[i].prevs).contains(q));
        let w = choose|w: int| remapped_from(g, g.blocks[i].prevs, w, q);
        let src = g.blocks[i].prevs[w];
        assert(src < n);
        lemma_pruned_block_at(g, src as int);
    }
    assert forall|a: int, b: int| 0 <= a < p.blocks.len() && 0 <= b < p.blocks.len() implies (
    p.blocks[b].prevs.contains(a as usize) <==> #[trigger] edge(p, a, b)) by {
        let i = lemma_origin(g, n, a);
        let j = lemma_origin(g, n, b);
        assert(p.blocks[new_index(g, j) as int].prevs == remap_prevs(g, g.blocks[j].prevs));
        lemma_remap_prevs(g, g.blocks[j].prevs);
        let au = a as usize;
        if p.blocks[b].prevs.contains(au) {
            let w = choose|w: int| remapped_from(g, g.blocks[j].prevs, w, au);
            let src = g.blocks[j].prevs[w];
            lemma_new_index_injective(g, src as int, i);
            assert(g.blocks[j].prevs.contains(i as usize));
            assert(edge(g, i, j));
            lemma_pruned_edge(g, i, j);
        }
        if edge(p, a, b) {
            lemma_pruned_edge_back(g, i, j);
            assert(g.blocks[j].prevs.contains(i as usize));
            let w = choose|w: int|
                0 <= w < g.blocks[j].prevs.len() && g.blocks[j].prevs[w] == i as usize;
            assert(remapped_from(g, g.blocks[j].prevs, w, au));
        }
    }
    assert forall|name: Seq<char>| #[trigger] p.labels.contains_key(name) implies p.labels[name]
        < p.blocks.len() && p.blocks[p.labels[name] as int].label == Some(name) by {
        let l = g.labels[name] as int;
        assert(l < n);
        lemma_pruned_block_at(g, l);
    }
    assert forall|j: int| 0 <= j < p.blocks.len() implies (match (#[trigger] p.blocks[j]).label {
        Some(name) => p.labels.contains_key(name) && p.labels[name] == j,
        None => true,
    }) by {
        let i = lemma_origin(g, n, j);
        assert(p.blocks[new_index(g, i) as int].label == g.blocks[i].label);
        assert(match g.blocks[i].label {
            Some(name) => g.labels.contains_key(name) && g.labels[name] == i,
            None => true,
        });
    }
}


proof fn lemma_path_survives(g: Graph, path: Seq<int>, at: int)
    requires
        well_formed(g),
        is_path(g, path),
        0 <= at < path.len(),
    ensures
        0 <= path[at] < g.blocks.len(),
        reachable(g, path[at]),
        reachable(pruned(g), new_index(g, path[at]) as int),
    decreases at,
{
    if at == 0 {
        lemma_entry_reachable(g);
        lemma_pruned_block_at(g, g.entry as int);
        lemma_entry_reachable(pruned(g));
    } else {
        lemma_path_survives(g, path, at - 1);
        assert(edge(g, path[at - 1], path[at - 1 + 1]));
        lemma_pruned_edge(g, path[at - 1], path[at]);
        lemma_reachable_step(
            pruned(g),
            new_index(g, path[at - 1]) as int,
            new_index(g, path[at]) as int,
        );
    }
}

/// No reachable block is removed: a block that can be reached from the
/// entry stands in the pruned graph, at its new index, with its label and
/// its instructions, and can be reached from the entry there.
pub proof fn lemma_reachable_blocks_stay(g: Graph, i: int)
    requires
        well_formed(g),
        reachable(g, i),
    ensures
        0 <= i < g.blocks.len(),
        new_index(g, i) < pruned(g).blocks.len(),
        pruned(g).blocks[new_index(g, i) as int].insts == g.blocks[i].insts,
        pruned(g).blocks[new_index(g, i) as int].label == g.blocks[i].label,
        reachable(pruned(g), new_index(g, i) as int),
{
    lemma_reachable_in_range(g, i);
    lemma_pruned_block_at(g, i);
    let path = choose|path: Seq<int>| is_path(g, path) && path.last() == i;
    lemma_path_survives(g, path, path.len() - 1);
}

/// Every block that remains is reachable: each block of the pruned graph
/// can be reached from its entry along jumps.
pub proof fn lemma_remaining_blocks_reachable(g: Graph, j: int)
    requires
        well_formed(g),
        0 <= j < pruned(g).blocks.len(),
    ensures
        reachable(pruned(g), j),
{
    lemma_pruned_blocks(g);
    let i = lemma_origin(g, g.blocks.len() as int, j);
    lemma_reachable_blocks_stay(g, i);
}

proof fn lemma_new_index_identity(g: Graph, i: int)
    requires
        0 <= i <= g.blocks.len(),
        forall|j: int| 0 <= j < g.blocks.len() ==> reachable(g, j),
    ensures
        new_index(g, i) == i,
    decreases i,
{
    if i > 0 {
        lemma_new_index_identity(g, i - 1);
    }
}

proof fn lemma_remap_prevs_identity(g: Graph, prevs: Seq<usize>)
    requires
        forall|j: int| 0 <= j < g.blocks.len() ==> reachable(g, j),
        forall|k: int| 0 <= k < prevs.len() ==> prevs[k] < g.blocks.len(),
    ensures
        remap_prevs(g, prevs) == prevs,
    decreases prevs.len(),
{
    if prevs.len() > 0 {
        lemma_remap_prevs_identity(g, prevs.drop_last());
        lemma_new_index_identity(g, prevs.last() as int);
        assert(prevs.drop_last().push(prevs.last()) =~= prevs);
    } else {
        assert(remap_prevs(g, prevs) =~= prevs);
    }
}

proof fn lemma_survivors_identity(g: Graph, hi: int)
    requires
        well_formed(g),
        0 <= hi <= g.blocks.len(),
        forall|j: int| 0 <= j < g.blocks.len() ==> reachable(g, j),
    ensures
        survivors(g, 0, hi) == g.blocks.take(hi),
    decreases hi,
{
    if hi > 0 {
        lemma_survivors_identity(g, hi - 1);
        let i = hi - 1;
        assert(remapped(g, i) == g.blocks[i]) by {
            assert forall|k: int| 0 <= k < g.blocks[i].prevs.len() implies g.blocks[i].prevs[k]
                < g.blocks.len() by {}
            lemma_remap_prevs_identity(g, g.blocks[i].prevs);
            match g.blocks[i].next {
                Exit::Return => {},
                Exit::Unconditional { target } => {
                    assert(successors(g.blocks[i])[0] == target);
                    lemma_new_index_identity(g, target as int);
                },
                Exit::Conditional { condition, goto, otherwise } => {
                    assert(successors(g.blocks[i])[0] == goto);
                    assert(successors(g.blocks[i])[1] == otherwise);
                    lemma_new_index_identity(g, goto as int);
                    lemma_new_index_identity(g, otherwise as int);
                },
            }
        }
        assert(g.blocks.take(hi) =~= g.blocks.take(hi - 1).push(g.blocks[i]));
    } else {
        assert(g.blocks.take(0) =~= Seq::<Block>::empty());
    }
}

/// Pruning a consistent graph whose blocks are all reachable changes
/// nothing.
pub proof fn lemma_pruned_fixed(g: Graph)
    requires
        well_formed(g),
        forall|j: int| 0 <= j < g.blocks.len() ==> reachable(g, j),
    ensures
        pruned(g) == g,
{
    let n = g.blocks.len() as int;
    lemma_survivors_identity(g, n);
    assert(g.blocks.take(n) =~= g.blocks);
    assert(reindexed(g.blocks) =~= g.blocks);
    lemma_new_index_identity(g, g.entry as int);
    assert(remap_labels(g) =~= g.labels) by {
        assert forall|name: Seq<char>| g.labels.contains_key(name) implies #[trigger]
            remap_labels(g).contains_key(name) && remap_labels(g)[name] == g.labels[name] by {
            lemma_new_index_identity(g, g.labels[name] as int);
        }
    }
}

/// Dead-block elimination is idempotent: pruning a pruned graph changes
/// nothing.
pub proof fn lemma_pruned_idempotent(g: Graph)
    requires
        well_formed(g),
    ensures
        pruned(pruned(g)) == pruned(g),
{
    let p = pruned(g);
    lemma_pruned_well_formed(g);
    assert forall|j: int| 0 <= j < p.blocks.len() implies reachable(p, j) by {
        lemma_remaining_blocks_reachable(g, j);
    }
    lemma_pruned_fixed(p);
}

} // verus!
