use vstd::prelude::*;
use crate::opt::cfg::{edge, same_shape, successors, ControlFlowGraph, Graph};

verus! {

/// `path` is a walk along jumps that starts at the entry.
pub open spec fn is_path(g: Graph, path: Seq<int>) -> bool {
    &&& path.len() > 0
    &&& path[0] == g.entry
    &&& 0 <= path[0] < g.blocks.len()
    &&& forall|k: int| 0 <= k < path.len() - 1 ==> #[trigger] edge(g, path[k], path[k + 1])
}

/// Block `b` can be reached from the entry along jumps.
pub open spec fn reachable(g: Graph, b: int) -> bool {
    exists|path: Seq<int>| is_path(g, path) && path.last() == b
}

/// Every jump of the graph names a block, and so does the entry.
pub open spec fn jumps_in_range(g: Graph) -> bool {
    &&& g.entry < g.blocks.len()
    &&& forall|i: int, k: int|
        0 <= i < g.blocks.len() && 0 <= k < successors(g.blocks[i]).len() ==> (
        #[trigger] successors(g.blocks[i])[k]) < g.blocks.len()
}

/// The entry is reachable.
pub proof fn lemma_entry_reachable(g: Graph)
    requires
        g.entry < g.blocks.len(),
    ensures
        reachable(g, g.entry as int),
{
    let path = seq![g.entry as int];
    assert(is_path(g, path) && path.last() == g.entry);
}

/// A block that a reachable block jumps to is reachable.
pub proof fn lemma_reachable_step(g: Graph, from: int, to: int)
    requires
        reachable(g, from),
        edge(g, from, to),
    ensures
        reachable(g, to),
{
    let path = choose|path: Seq<int>| is_path(g, path) && path.last() == from;
    let longer = path.push(to);
    assert forall|k: int| 0 <= k < longer.len() - 1 implies #[trigger] edge(
        g,
        longer[k],
        longer[k + 1],
    ) by {
        if k < path.len() - 1 {
            assert(edge(g, path[k], path[k + 1]));
        }
    }
    assert(is_path(g, longer) && longer.last() == to);
}

/// A reachable block is a block of the graph.
pub proof fn lemma_reachable_in_range(g: Graph, b: int)
    requires
        reachable(g, b),
    ensures
        0 <= b < g.blocks.len(),
{
    let path = choose|path: Seq<int>| is_path(g, path) && path.last() == b;
    if path.len() > 1 {
        assert(edge(g, path[path.len() - 2], path[path.len() - 2 + 1]));
    }
}

/// A set of blocks that holds the entry and, with each block, the blocks it
/// jumps to, holds every reachable block.
pub proof fn lemma_closed_set_holds_reachable(g: Graph, marked: Seq<bool>, b: int)
    requires
        marked.len() == g.blocks.len(),
        g.entry < g.blocks.len(),
        marked[g.entry as int],
        forall|i: int, j: int| 0 <= i < marked.len() && marked[i] && #[trigger] edge(g, i, j) ==> marked[j],
        reachable(g, b),
    ensures
        marked[b],
{
    let path = choose|path: Seq<int>| is_path(g, path) && path.last() == b;
    lemma_path_marked(g, marked, path, path.len() - 1);
}

proof fn lemma_path_marked(g: Graph, marked: Seq<bool>, path: Seq<int>, at: int)
    requires
        marked.len() == g.blocks.len(),
        g.entry < g.blocks.len(),
        marked[g.entry as int],
        forall|i: int, j: int| 0 <= i < marked.len() && marked[i] && #[trigger] edge(g, i, j) ==> marked[j],
        is_path(g, path),
        0 <= at < path.len(),
    ensures
        0 <= path[at] < marked.len(),
        marked[path[at]],
    decreases at,
{
    if at > 0 {
        lemma_path_marked(g, marked, path, at - 1);
        assert(edge(g, path[at - 1], path[at - 1 + 1]));
    }
}

/// Reachability is a matter of shape.
pub proof fn lemma_same_shape_reachable(g: Graph, h: Graph, b: int)
    requires
        same_shape(g, h),
    ensures
        reachable(g, b) == reachable(h, b),
{
    if reachable(g, b) {
        let path = choose|path: Seq<int>| is_path(g, path) && path.last() == b;
        assert forall|k: int| 0 <= k < path.len() - 1 implies #[trigger] edge(
            h,
            path[k],
            path[k + 1],
        ) by {
            assert(edge(g, path[k], path[k + 1]));
        }
        assert(is_path(h, path));
    }
    if reachable(h, b) {
        let path = choose|path: Seq<int>| is_path(h, path) && path.last() == b;
        assert forall|k: int| 0 <= k < path.len() - 1 implies #[trigger] edge(
            g,
            path[k],
            path[k + 1],
        ) by {
            assert(edge(h, path[k], path[k + 1]));
        }
        assert(is_path(g, path));
    }
}

/// The number of `true` entries of a list.
pub open spec fn count_true(s: Seq<bool>) -> nat
    decreases s.len(),
{
    if s.len() == 0 {
        0
    } else {
        count_true(s.drop_last()) + if s.last() {
            1nat
        } else {
            0nat
        }
    }
}

pub proof fn lemma_count_true_bound(s: Seq<bool>)
    ensures
        count_true(s) <= s.len(),
    decreases s.len(),
{
    if s.len() > 0 {
        lemma_count_true_bound(s.drop_last());
    }
}

pub proof fn lemma_count_true_set(s: Seq<bool>, at: int)
    requires
        0 <= at < s.len(),
        !s[at],
    ensures
        count_true(s.update(at, true)) == count_true(s) + 1,
    decreases s.len(),
{
    let t = s.update(at, true);
    if at == s.len() - 1 {
        assert(t.drop_last() =~= s.drop_last());
    } else {
        lemma_count_true_set(s.drop_last(), at);
        assert(t.drop_last() =~= s.drop_last().update(at, true));
    }
}

/// Marks the blocks that can be reached from the entry.
pub fn reachable_blocks(cfg: &ControlFlowGraph) -> (visited: Vec<bool>)
    requires
        jumps_in_range(cfg@),
    ensures
        visited.len() == cfg@.blocks.len(),
        forall|i: int| 0 <= i < visited.len() ==> visited[i] == reachable(cfg@, i),
{
    let ghost g = cfg@;
    let n = cfg.basic_blocks.len();
    let mut visited: Vec<bool> = Vec::new();
    let mut i: usize = 0;
    while i < n
        invariant
            i <= n,
            visited.len() == i,
            forall|j: int| 0 <= j < i ==> !visited[j],
        decreases n - i,
    {
        visited.push(false);
        i += 1;
    }
    let mut stack: Vec<usize> = Vec::new();
    visited.set(cfg.entry, true);
    stack.push(cfg.entry);
    proof {
        lemma_entry_reachable(g);
        lemma_count_true_bound(visited@);
        assert(stack@[0] == cfg.entry);
        assert forall|i: int| 0 <= i < n && visited[i] implies stack@.contains(i as usize) by {
            assert(i == cfg.entry);
        }
    }
    while stack.len() > 0
        invariant
            g == cfg@,
            n == g.blocks.len(),
            jumps_in_range(g),
            visited.len() == n,
            visited[g.entry as int],
            forall|i: int| 0 <= i < n && visited[i] ==> reachable(g, i),
            forall|k: int| 0 <= k < stack.len() ==> stack[k] < n && visited[stack[k] as int],
            forall|i: int, j: int|
                0 <= i < n && visited[i] && !stack@.contains(i as usize) && #[trigger] edge(g, i, j)
                    ==> visited[j],
            count_true(visited@) <= n,
        decreases 2 * (n - count_true(visited@)) + stack.len(),
    {
        let ghost stack_before = stack@;
        let ghost measure = 2 * (n - count_true(visited@)) + stack.len();
        let b = stack.pop().unwrap();
        assert(stack_before =~= stack@.push(b));
        assert forall|i: usize| stack_before.contains(i) <==> stack@.contains(i) || i == b by {
            vstd::seq_lib::lemma_seq_contains_after_push(stack@, b, i);
        }
        let succs = cfg.basic_blocks[b].successors();
        assert(succs@ == successors(g.blocks[b as int]));
        let mut k: usize = 0;
        while k < succs.len()
            invariant
                g == cfg@,
                n == g.blocks.len(),
                jumps_in_range(g),
                b < n,
                visited.len() == n,
                visited[g.entry as int],
                visited[b as int],
                succs@ == successors(g.blocks[b as int]),
                k <= succs.len(),
                forall|i: int| 0 <= i < n && visited[i] ==> reachable(g, i),
                forall|m: int| 0 <= m < stack.len() ==> stack[m] < n && visited[stack[m] as int],
                forall|i: int, j: int|
                    0 <= i < n && visited[i] && i != b && !stack@.contains(i as usize)
                        && #[trigger] edge(g, i, j) ==> visited[j],
                forall|m: int| 0 <= m < k ==> visited[succs[m] as int],
                count_true(visited@) <= n,
                2 * (n - count_true(visited@)) + stack.len() < measure,
            decreases succs.len() - k,
        {
            let s = succs[k];
            assert(successors(g.blocks[b as int])[k as int] < n);
            if !visited[s] {
                let ghost marks = visited@;
                let ghost pending = stack@;
                visited.set(s, true);
                stack.push(s);
                proof {
                    assert(edge(g, b as int, s as int)) by {
                        assert(successors(g.blocks[b as int])[k as int] == s);
                    }
                    lemma_reachable_step(g, b as int, s as int);
                    lemma_count_true_set(marks, s as int);
                    lemma_count_true_bound(visited@);
                    assert forall|i: usize| stack@.contains(i) <==> pending.contains(i) || i
                        == s by {
                        vstd::seq_lib::lemma_seq_contains_after_push(pending, s, i);
                    }
                    assert forall|i: int, j: int|
                        0 <= i < n && visited[i] && i != b && !stack@.contains(i as usize)
                            && #[trigger] edge(g, i, j) implies visited[j] by {
                        assert(!pending.contains(i as usize));
                        assert(marks[i]);
                        assert(marks[j]);
                    }
                }
            }
            k += 1;
        }
        proof {
            assert forall|i: int, j: int|
                0 <= i < n && visited[i] && !stack@.contains(i as usize) && #[trigger] edge(
                    g,
                    i,
                    j,
                ) implies visited[j] by {
                if i == b {
                    let m = choose|m: int| 0 <= m < succs@.len() && succs@[m] == j as usize;
                    assert(visited[succs[m] as int]);
                }
            }
        }
    }
    proof {
        assert forall|i: int| 0 <= i < visited.len() implies visited[i] == reachable(g, i) by {
            if reachable(g, i) {
                assert forall|a: int, c: int|
                    0 <= a < visited@.len() && visited@[a] && #[trigger] edge(g, a, c) implies visited@[c] by {
                    assert(!stack@.contains(a as usize));
                }
                lemma_closed_set_holds_reachable(g, visited@, i);
            }
        }
    }
    visited
}


/// The blocks that a block jumps to, the last first: a stack that receives
/// them hands out the first of them first.
pub open spec fn pending(g: Graph, b: int) -> Seq<usize> {
    successors(g.blocks[b]).reverse()
}

/// How much of a walk is left at most: three steps for each unseen block
/// and one for each block that waits.
pub open spec fn walk_left(stack: Seq<usize>, seen: Seq<bool>) -> nat {
    (3 * (seen.len() - count_true(seen)) + stack.len()) as nat
}

/// The rest of a depth-first walk: the blocks in `order`, followed by the
/// blocks that the walk still comes to, each at its first visit. The
/// blocks of `stack` wait for their visit, the last of them next; `seen`
/// marks the blocks that have had theirs.
pub open spec fn walk(g: Graph, stack: Seq<usize>, seen: Seq<bool>, order: Seq<usize>) -> Seq<
    usize,
>
    decreases walk_left(stack, seen),
{
    if stack.len() == 0 || seen.len() != g.blocks.len() {
        order
    } else {
        let b = stack.last();
        let rest = stack.drop_last();
        proof {
            lemma_count_true_bound(seen);
        }
        if b >= seen.len() || seen[b as int] {
            walk(g, rest, seen, order)
        } else {
            proof {
                lemma_count_true_set(seen, b as int);
                lemma_count_true_bound(seen.update(b as int, true));
            }
            walk(g, rest + pending(g, b as int), seen.update(b as int, true), order.push(b))
        }
    }
}

/// The blocks that a depth-first walk from the entry comes to, in the order
/// of their first visit. Where a block jumps to two blocks, the walk goes
/// to the taken one first.
pub open spec fn preorder(g: Graph) -> Seq<usize> {
    walk(g, seq![g.entry], Seq::new(g.blocks.len(), |i: int| false), Seq::empty())
}

/// What holds of the order of a walk at every step: its blocks are blocks
/// of the graph, each stands in it once, and they are the seen ones.
pub open spec fn walk_in_order(g: Graph, seen: Seq<bool>, order: Seq<usize>) -> bool {
    &&& seen.len() == g.blocks.len()
    &&& order.no_duplicates()
    &&& forall|k: int| 0 <= k < order.len() ==> (#[trigger] order[k]) < g.blocks.len()
    &&& forall|b: usize| b < seen.len() ==> (seen[b as int] <==> #[trigger] order.contains(b))
}

/// A walk gives blocks of the graph, each once.
pub proof fn lemma_walk_in_order(g: Graph, stack: Seq<usize>, seen: Seq<bool>, order: Seq<usize>)
    requires
        walk_in_order(g, seen, order),
    ensures
        walk(g, stack, seen, order).no_duplicates(),
        forall|k: int|
            0 <= k < walk(g, stack, seen, order).len() ==> (#[trigger] walk(
                g,
                stack,
                seen,
                order,
            )[k]) < g.blocks.len(),
    decreases walk_left(stack, seen),
{
    if stack.len() == 0 {
    } else {
        let b = stack.last();
        let rest = stack.drop_last();
        lemma_count_true_bound(seen);
        if b >= seen.len() || seen[b as int] {
            lemma_walk_in_order(g, rest, seen, order);
        } else {
            lemma_count_true_set(seen, b as int);
            lemma_count_true_bound(seen.update(b as int, true));
            let next_seen = seen.update(b as int, true);
            let next_order = order.push(b);
            assert(!order.contains(b));
            assert forall|c: usize| c < next_seen.len() implies (next_seen[c as int]
                <==> #[trigger] next_order.contains(c)) by {
                vstd::seq_lib::lemma_seq_contains_after_push(order, b, c);
                assert(seen[c as int] <==> order.contains(c));
            }
            assert(next_order.no_duplicates()) by {
                assert forall|i: int, j: int|
                    0 <= i < next_order.len() && 0 <= j < next_order.len() && i
                        != j implies next_order[i] != next_order[j] by {
                    if i < order.len() && j < order.len() {
                    } else if i < order.len() {
                        assert(order.contains(order[i]));
                    } else {
                        assert(order.contains(order[j]));
                    }
                }
            }
            lemma_walk_in_order(g, rest + pending(g, b as int), next_seen, next_order);
        }
    }
}

/// The order of a depth-first walk names blocks of the graph, each once.
pub proof fn lemma_preorder_in_order(g: Graph)
    ensures
        preorder(g).no_duplicates(),
        forall|k: int| 0 <= k < preorder(g).len() ==> (#[trigger] preorder(g)[k]) < g.blocks.len(),
{
    let seen = Seq::new(g.blocks.len(), |i: int| false);
    let order = Seq::<usize>::empty();
    assert forall|b: usize| b < seen.len() implies (seen[b as int] <==> #[trigger] order.contains(
        b,
    )) by {}
    lemma_walk_in_order(g, seq![g.entry], seen, order);
}

/// A walk is a matter of the shape of the graph.
pub proof fn lemma_same_shape_walk(
    g: Graph,
    h: Graph,
    stack: Seq<usize>,
    seen: Seq<bool>,
    order: Seq<usize>,
)
    requires
        same_shape(g, h),
    ensures
        walk(g, stack, seen, order) == walk(h, stack, seen, order),
    decreases walk_left(stack, seen),
{
    if stack.len() == 0 || seen.len() != g.blocks.len() {
    } else {
        let b = stack.last();
        let rest = stack.drop_last();
        lemma_count_true_bound(seen);
        if b >= seen.len() || seen[b as int] {
            lemma_same_shape_walk(g, h, rest, seen, order);
        } else {
            lemma_count_true_set(seen, b as int);
            lemma_count_true_bound(seen.update(b as int, true));
            lemma_same_shape_walk(
                g,
                h,
                rest + pending(g, b as int),
                seen.update(b as int, true),
                order.push(b),
            );
        }
    }
}

/// What holds of a walk at every step: the seen blocks and the blocks that
/// wait are reachable; a block that a seen block jumps to is seen or
/// waits; and the entry is seen or waits.
pub open spec fn walk_covers(g: Graph, stack: Seq<usize>, seen: Seq<bool>) -> bool {
    &&& forall|b: int| 0 <= b < seen.len() && seen[b] ==> #[trigger] reachable(g, b)
    &&& forall|k: int|
        0 <= k < stack.len() ==> stack[k] < g.blocks.len() && reachable(
            g,
            (#[trigger] stack[k]) as int,
        )
    &&& forall|i: int, j: int|
        0 <= i < seen.len() && seen[i] && #[trigger] edge(g, i, j) ==> seen[j] || stack.contains(
            j as usize,
        )
    &&& seen[g.entry as int] || stack.contains(g.entry)
}

/// A walk comes to exactly the blocks that can be reached.
pub proof fn lemma_walk_covers(g: Graph, stack: Seq<usize>, seen: Seq<bool>, order: Seq<usize>)
    requires
        jumps_in_range(g),
        g.blocks.len() <= usize::MAX,
        walk_in_order(g, seen, order),
        walk_covers(g, stack, seen),
    ensures
        forall|b: usize|
            b < g.blocks.len() ==> (#[trigger] walk(g, stack, seen, order).contains(b)
                <==> reachable(g, b as int)),
    decreases walk_left(stack, seen),
{
    if stack.len() == 0 {
        assert(walk(g, stack, seen, order) == order);
        assert forall|b: usize| b < g.blocks.len() implies (#[trigger] order.contains(b)
            <==> reachable(g, b as int)) by {
            assert(seen[b as int] <==> order.contains(b));
            if reachable(g, b as int) {
                assert forall|i: int, j: int|
                    0 <= i < seen.len() && seen[i] && #[trigger] edge(g, i, j) implies seen[j] by {
                    assert(!stack.contains(j as usize));
                }
                assert(!stack.contains(g.entry));
                lemma_closed_set_holds_reachable(g, seen, b as int);
            }
        }
    } else {
        let b = stack.last();
        let rest = stack.drop_last();
        lemma_count_true_bound(seen);
        assert(stack =~= rest.push(b));
        assert forall|x: usize| stack.contains(x) <==> rest.contains(x) || x == b by {
            vstd::seq_lib::lemma_seq_contains_after_push(rest, b, x);
        }
        assert(stack[stack.len() - 1] < g.blocks.len());
        if seen[b as int] {
            assert(walk_covers(g, rest, seen)) by {
                assert forall|k: int| 0 <= k < rest.len() implies rest[k] < g.blocks.len()
                    && reachable(g, (#[trigger] rest[k]) as int) by {
                    assert(rest[k] == stack[k]);
                }
                assert forall|i: int, j: int|
                    0 <= i < seen.len() && seen[i] && #[trigger] edge(g, i, j) implies seen[j]
                    || rest.contains(j as usize) by {
                    assert(seen[j] || stack.contains(j as usize));
                    assert((j as usize) as int == j);
                }
            }
            lemma_walk_covers(g, rest, seen, order);
            assert(walk(g, stack, seen, order) == walk(g, rest, seen, order));
        } else {
            lemma_count_true_set(seen, b as int);
            lemma_count_true_bound(seen.update(b as int, true));
            let next_seen = seen.update(b as int, true);
            let next_order = order.push(b);
            let next_stack = rest + pending(g, b as int);
            let succ = successors(g.blocks[b as int]);
            assert(reachable(g, stack[stack.len() - 1] as int));
            assert forall|x: usize| next_stack.contains(x) <==> rest.contains(x) || succ.contains(
                x,
            ) by {
                if next_stack.contains(x) {
                    let k = choose|k: int| 0 <= k < next_stack.len() && next_stack[k] == x;
                    if k < rest.len() {
                        assert(rest[k] == x);
                    } else {
                        let m = k - rest.len();
                        assert(pending(g, b as int)[m] == succ[succ.len() - 1 - m]);
                    }
                }
                if rest.contains(x) {
                    let k = choose|k: int| 0 <= k < rest.len() && rest[k] == x;
                    assert(next_stack[k] == x);
                }
                if succ.contains(x) {
                    let m = choose|m: int| 0 <= m < succ.len() && succ[m] == x;
                    assert(pending(g, b as int)[succ.len() - 1 - m] == x);
                    assert(next_stack[rest.len() + succ.len() - 1 - m] == x);
                }
            }
            assert(walk_covers(g, next_stack, next_seen)) by {
                assert forall|k: int| 0 <= k < next_stack.len() implies next_stack[k]
                    < g.blocks.len() && reachable(g, (#[trigger] next_stack[k]) as int) by {
                    if k < rest.len() {
                        assert(next_stack[k] == stack[k]);
                    } else {
                        let m = k - rest.len();
                        let t = succ[succ.len() - 1 - m];
                        assert(pending(g, b as int)[m] == t);
                        assert(t < g.blocks.len());
                        assert(edge(g, b as int, t as int));
                        lemma_reachable_step(g, b as int, t as int);
                    }
                }
                assert forall|i: int, j: int|
                    0 <= i < next_seen.len() && next_seen[i] && #[trigger] edge(
                        g,
                        i,
                        j,
                    ) implies next_seen[j] || next_stack.contains(j as usize) by {
                    assert((j as usize) as int == j);
                    if i == b {
                        assert(succ.contains(j as usize));
                    } else {
                        assert(seen[i]);
                        assert(seen[j] || stack.contains(j as usize));
                    }
                }
            }
            assert(walk_in_order(g, next_seen, next_order)) by {
                assert(!order.contains(b));
                assert forall|c: usize| c < next_seen.len() implies (next_seen[c as int]
                    <==> #[trigger] next_order.contains(c)) by {
                    vstd::seq_lib::lemma_seq_contains_after_push(order, b, c);
                    assert(seen[c as int] <==> order.contains(c));
                }
                assert forall|i: int, j: int|
                    0 <= i < next_order.len() && 0 <= j < next_order.len() && i
                        != j implies next_order[i] != next_order[j] by {
                    if i < order.len() && j < order.len() {
                    } else if i < order.len() {
                        assert(order.contains(order[i]));
                    } else {
                        assert(order.contains(order[j]));
                    }
                }
            }
            lemma_walk_covers(g, next_stack, next_seen, next_order);
            assert(walk(g, stack, seen, order) == walk(g, next_stack, next_seen, next_order));
        }
    }
}

/// A depth-first walk from the entry comes to exactly the blocks that can
/// be reached from it.
pub proof fn lemma_preorder_covers(g: Graph)
    requires
        jumps_in_range(g),
        g.blocks.len() <= usize::MAX,
    ensures
        forall|b: usize|
            b < g.blocks.len() ==> (#[trigger] preorder(g).contains(b) <==> reachable(
                g,
                b as int,
            )),
{
    let seen = Seq::new(g.blocks.len(), |i: int| false);
    let order = Seq::<usize>::empty();
    let stack = seq![g.entry];
    assert forall|b: usize| b < seen.len() implies (seen[b as int] <==> #[trigger] order.contains(
        b,
    )) by {}
    lemma_entry_reachable(g);
    assert(stack[0] == g.entry);
    lemma_walk_covers(g, stack, seen, order);
}

/// The blocks that a depth-first walk from the entry comes to, in the order
/// of their first visit.
pub fn visit_order(cfg: &ControlFlowGraph) -> (order: Vec<usize>)
    requires
        jumps_in_range(cfg@),
    ensures
        order@ == preorder(cfg@),
        order@.no_duplicates(),
        forall|k: int| 0 <= k < order.len() ==> (#[trigger] order@[k]) < cfg@.blocks.len(),
        forall|b: usize|
            b < cfg@.blocks.len() ==> (#[trigger] order@.contains(b) <==> reachable(
                cfg@,
                b as int,
            )),
{
    let ghost g = cfg@;
    let n = cfg.basic_blocks.len();
    proof {
        lemma_preorder_covers(g);
    }
    let mut seen: Vec<bool> = Vec::new();
    let mut i: usize = 0;
    while i < n
        invariant
            i <= n,
            seen.len() == i,
            forall|j: int| 0 <= j < i ==> !seen[j],
        decreases n - i,
    {
        seen.push(false);
        i += 1;
    }
    assert(seen@ =~= Seq::new(g.blocks.len(), |i: int| false));
    let mut stack: Vec<usize> = Vec::new();
    stack.push(cfg.entry);
    assert(stack@ =~= seq![g.entry]);
    let mut order: Vec<usize> = Vec::new();
    proof {
        lemma_preorder_in_order(g);
        lemma_count_true_bound(seen@);
    }
    while stack.len() > 0
        invariant
            g == cfg@,
            n == g.blocks.len(),
            seen.len() == n,
            jumps_in_range(g),
            count_true(seen@) <= n,
            forall|k: int| 0 <= k < stack.len() ==> stack[k] < n,
            preorder(g) == walk(g, stack@, seen@, order@),
        decreases walk_left(stack@, seen@),
    {
        let ghost before = stack@;
        let ghost marks = seen@;
        let b = stack.pop().unwrap();
        assert(before.drop_last() =~= stack@);
        let succs = cfg.basic_blocks[b].successors();
        assert(succs@ == successors(g.blocks[b as int]));
        if !seen[b] {
            seen.set(b, true);
            order.push(b);
            proof {
                lemma_count_true_set(marks, b as int);
                lemma_count_true_bound(seen@);
            }
            let ghost rest = stack@;
            let mut k: usize = succs.len();
            assert(succs@.reverse().take(0) =~= Seq::<usize>::empty());
            assert(rest + Seq::<usize>::empty() =~= rest);
            while k > 0
                invariant
                    k <= succs.len(),
                    n == g.blocks.len(),
                    jumps_in_range(g),
                    b < n,
                    succs@ == successors(g.blocks[b as int]),
                    forall|m: int| 0 <= m < stack.len() ==> stack[m] < n,
                    stack@ == rest + succs@.reverse().take(succs.len() - k),
                decreases k,
            {
                k -= 1;
                assert(successors(g.blocks[b as int])[k as int] < n);
                let ghost sofar = stack@;
                stack.push(succs[k]);
                proof {
                    let rev = succs@.reverse();
                    let done = succs.len() - k - 1;
                    assert(rev[done] == succs@[k as int]);
                    assert(rev.take(done + 1) =~= rev.take(done).push(rev[done]));
                    assert(stack@ =~= rest + rev.take(done + 1));
                }
            }
            proof {
                assert(succs@.reverse().take(succs.len() as int) =~= succs@.reverse());
                assert(succs.len() <= 2) by {
                    match g.blocks[b as int].next {
                        crate::opt::cfg::Exit::Return => {},
                        crate::opt::cfg::Exit::Unconditional { target } => {},
                        crate::opt::cfg::Exit::Conditional { condition, goto, otherwise } => {},
                    }
                }
            }
        }
    }
    order
}

} // verus!
