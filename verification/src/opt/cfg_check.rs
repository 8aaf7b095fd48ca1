use vstd::prelude::*;
use crate::opt::cfg::{edge, successors, well_formed, ControlFlowGraph, Graph};

verus! {

/// Whether a list of block indices holds `x`.
fn holds_index(list: &Vec<usize>, x: usize) -> (res: bool)
    ensures
        res == list@.contains(x),
{
    let mut i: usize = 0;
    while i < list.len()
        invariant
            i <= list.len(),
            forall|k: int| 0 <= k < i ==> list@[k] != x,
        decreases list.len() - i,
    {
        if list[i] == x {
            return true;
        }
        i += 1;
    }
    false
}

/// The entry is a block without predecessors and without a label.
pub open spec fn entry_in_order(g: Graph) -> bool {
    &&& g.entry < g.blocks.len()
    &&& g.blocks[g.entry as int].prevs.len() == 0
    &&& g.blocks[g.entry as int].label is None
}

/// Block `i` carries its index as its id, and its jumps and predecessors
/// name blocks.
pub open spec fn block_in_range(g: Graph, i: int) -> bool {
    &&& g.blocks[i].id == i
    &&& forall|k: int|
        0 <= k < successors(g.blocks[i]).len() ==> (#[trigger] successors(g.blocks[i])[k])
            < g.blocks.len()
    &&& forall|k: int|
        0 <= k < g.blocks[i].prevs.len() ==> (#[trigger] g.blocks[i].prevs[k]) < g.blocks.len()
}

/// Every predecessor of block `j` jumps to it, and every block that block
/// `j` jumps to lists it as a predecessor.
pub open spec fn block_agrees(g: Graph, j: int) -> bool {
    &&& forall|k: int|
        0 <= k < g.blocks[j].prevs.len() ==> edge(g, (#[trigger] g.blocks[j].prevs[k]) as int, j)
    &&& forall|k: int|
        0 <= k < successors(g.blocks[j]).len() ==> g.blocks[(#[trigger] successors(
            g.blocks[j],
        )[k]) as int].prevs.contains(j as usize)
}

/// The label of block `i`, if it has one, stands in the label table for
/// it.
pub open spec fn label_registered(g: Graph, i: int) -> bool {
    match g.blocks[i].label {
        Some(name) => g.labels.contains_key(name) && g.labels[name] == i,
        None => true,
    }
}

/// The label table names a block for `name`, which carries that label.
pub open spec fn entry_resolves(g: Graph, name: Seq<char>) -> bool {
    g.labels[name] < g.blocks.len() && g.blocks[g.labels[name] as int].label == Some(name)
}

/// A graph is consistent where its entry is in order, every block is in
/// range and agrees with its neighbours, and the label table and the labels
/// of the blocks match.
pub proof fn lemma_well_formed_by_parts(g: Graph)
    ensures
        well_formed(g) <==> (entry_in_order(g) && (forall|i: int|
            0 <= i < g.blocks.len() ==> #[trigger] block_in_range(g, i)) && (forall|j: int|
            0 <= j < g.blocks.len() ==> #[trigger] block_agrees(g, j)) && (forall|i: int|
            0 <= i < g.blocks.len() ==> #[trigger] label_registered(g, i)) && (forall|
            name: Seq<char>,
        | #[trigger] g.labels.contains_key(name) ==> entry_resolves(g, name))),
{
    let parts = entry_in_order(g) && (forall|i: int|
        0 <= i < g.blocks.len() ==> #[trigger] block_in_range(g, i)) && (forall|j: int|
        0 <= j < g.blocks.len() ==> #[trigger] block_agrees(g, j)) && (forall|i: int|
        0 <= i < g.blocks.len() ==> #[trigger] label_registered(g, i)) && (forall|name: Seq<char>|
     #[trigger] g.labels.contains_key(name) ==> entry_resolves(g, name));
    if well_formed(g) {
        assert forall|i: int| 0 <= i < g.blocks.len() implies #[trigger] block_in_range(g, i) by {
            assert(g.blocks[i].id == i);
        }
        assert forall|j: int| 0 <= j < g.blocks.len() implies #[trigger] block_agrees(g, j) by {
            assert forall|k: int| 0 <= k < g.blocks[j].prevs.len() implies edge(
                g,
                (#[trigger] g.blocks[j].prevs[k]) as int,
                j,
            ) by {
                let p = g.blocks[j].prevs[k];
                assert(p < g.blocks.len());
                assert(g.blocks[j].prevs.contains(p));
                assert(edge(g, p as int, j) <==> g.blocks[j].prevs.contains(p));
            }
            assert forall|k: int| 0 <= k < successors(g.blocks[j]).len() implies g.blocks[(
            #[trigger] successors(g.blocks[j])[k]) as int].prevs.contains(j as usize) by {
                let s = successors(g.blocks[j])[k];
                assert(s < g.blocks.len());
                assert(edge(g, j, s as int));
            }
        }
        assert forall|i: int| 0 <= i < g.blocks.len() implies #[trigger] label_registered(
            g,
            i,
        ) by {
            let b = g.blocks[i];
        }
        assert(parts);
    }
    if parts {
        assert forall|i: int| 0 <= i < g.blocks.len() implies (#[trigger] g.blocks[i]).id == i by {
            assert(block_in_range(g, i));
        }
        assert forall|i: int, k: int|
            0 <= i < g.blocks.len() && 0 <= k < successors(g.blocks[i]).len() implies (
        #[trigger] successors(g.blocks[i])[k]) < g.blocks.len() by {
            assert(block_in_range(g, i));
        }
        assert forall|i: int, k: int|
            0 <= i < g.blocks.len() && 0 <= k < g.blocks[i].prevs.len() implies (
        #[trigger] g.blocks[i].prevs[k]) < g.blocks.len() by {
            assert(block_in_range(g, i));
        }
        assert forall|i: int, j: int| 0 <= i < g.blocks.len() && 0 <= j < g.blocks.len() implies (
        g.blocks[j].prevs.contains(i as usize) <==> #[trigger] edge(g, i, j)) by {
            assert(block_agrees(g, j));
            assert(block_agrees(g, i));
            if g.blocks[j].prevs.contains(i as usize) {
                let k = choose|k: int|
                    0 <= k < g.blocks[j].prevs.len() && g.blocks[j].prevs[k] == i as usize;
                assert(edge(g, g.blocks[j].prevs[k] as int, j));
            }
            if edge(g, i, j) {
                let k = choose|k: int|
                    0 <= k < successors(g.blocks[i]).len() && successors(g.blocks[i])[k]
                        == j as usize;
                assert(g.blocks[successors(g.blocks[i])[k] as int].prevs.contains(i as usize));
            }
        }
        assert forall|name: Seq<char>| #[trigger] g.labels.contains_key(name) implies g.labels[name]
            < g.blocks.len() && g.blocks[g.labels[name] as int].label == Some(name) by {
            assert(entry_resolves(g, name));
        }
        assert forall|i: int| 0 <= i < g.blocks.len() implies (match (
        #[trigger] g.blocks[i]).label {
            Some(name) => g.labels.contains_key(name) && g.labels[name] == i,
            None => true,
        }) by {
            assert(label_registered(g, i));
        }
        assert(well_formed(g));
    }
}

impl ControlFlowGraph {
    /// Whether block `i` carries its index as its id, and its jumps and
    /// predecessors name blocks.
    fn block_is_in_range(&self, i: usize) -> (res: bool)
        requires
            i < self@.blocks.len(),
        ensures
            res == block_in_range(self@, i as int),
    {
        let n = self.basic_blocks.len();
        let block = &self.basic_blocks[i];
        assert(block@ == self@.blocks[i as int]);
        if block.id != i {
            return false;
        }
        let succs = block.successors();
        let mut k: usize = 0;
        while k < succs.len()
            invariant
                k <= succs.len(),
                n == self@.blocks.len(),
                succs@ == successors(self@.blocks[i as int]),
                forall|m: int| 0 <= m < k ==> (#[trigger] succs@[m]) < n,
            decreases succs.len() - k,
        {
            if succs[k] >= n {
                assert(!(successors(self@.blocks[i as int])[k as int] < n));
                return false;
            }
            k += 1;
        }
        let mut k: usize = 0;
        while k < block.prevs.len()
            invariant
                k <= block.prevs.len(),
                n == self@.blocks.len(),
                block@ == self@.blocks[i as int],
                forall|m: int| 0 <= m < k ==> (#[trigger] block.prevs@[m]) < n,
            decreases block.prevs.len() - k,
        {
            if block.prevs[k] >= n {
                assert(!(self@.blocks[i as int].prevs[k as int] < n));
                return false;
            }
            k += 1;
        }
        true
    }

    /// Whether block `j` and its neighbours agree on the jumps between
    /// them.
    fn block_agrees_with_neighbours(&self, j: usize) -> (res: bool)
        requires
            forall|i: int| 0 <= i < self@.blocks.len() ==> #[trigger] block_in_range(self@, i),
            j < self@.blocks.len(),
        ensures
            res == block_agrees(self@, j as int),
    {
        let block = &self.basic_blocks[j];
        assert(block@ == self@.blocks[j as int]);
        assert(block_in_range(self@, j as int));
        let mut k: usize = 0;
        while k < block.prevs.len()
            invariant
                k <= block.prevs.len(),
                j < self@.blocks.len(),
                block@ == self@.blocks[j as int],
                block_in_range(self@, j as int),
                forall|m: int|
                    0 <= m < k ==> edge(self@, (#[trigger] block.prevs@[m]) as int, j as int),
            decreases block.prevs.len() - k,
        {
            let p = block.prevs[k];
            assert(self@.blocks[j as int].prevs[k as int] < self@.blocks.len());
            let from = &self.basic_blocks[p];
            assert(from@ == self@.blocks[p as int]);
            if !holds_index(&from.successors(), j) {
                assert(!edge(self@, self@.blocks[j as int].prevs[k as int] as int, j as int));
                return false;
            }
            k += 1;
        }
        let succs = block.successors();
        let mut k: usize = 0;
        while k < succs.len()
            invariant
                k <= succs.len(),
                j < self@.blocks.len(),
                succs@ == successors(self@.blocks[j as int]),
                block_in_range(self@, j as int),
                forall|m: int|
                    0 <= m < k ==> self@.blocks[(#[trigger] succs@[m]) as int].prevs.contains(j),
            decreases succs.len() - k,
        {
            let s = succs[k];
            assert(successors(self@.blocks[j as int])[k as int] < self@.blocks.len());
            let to = &self.basic_blocks[s];
            assert(to@ == self@.blocks[s as int]);
            if !holds_index(&to.prevs, j) {
                assert(!self@.blocks[successors(self@.blocks[j as int])[k as int] as int].prevs.contains(
                    j,
                ));
                return false;
            }
            k += 1;
        }
        true
    }

    /// Whether the label of block `i`, if it has one, stands in the label
    /// table for it.
    fn label_is_registered(&self, i: usize) -> (res: bool)
        requires
            i < self@.blocks.len(),
        ensures
            res == label_registered(self@, i as int),
    {
        let block = &self.basic_blocks[i];
        assert(block@ == self@.blocks[i as int]);
        match &block.label {
            Some(name) => match self.label_table.get(name) {
                Some(ix) => *ix == i,
                None => false,
            },
            None => true,
        }
    }

    /// Whether the label table names a block for every label in it, which
    /// carries that label.
    fn table_resolves(&self) -> (res: bool)
        ensures
            res == (forall|name: Seq<char>| #[trigger]
                self@.labels.contains_key(name) ==> entry_resolves(self@, name)),
    {
        let n = self.label_table.len();
        let mut k: usize = 0;
        while k < n
            invariant
                k <= n,
                n == self.label_table.names().len(),
                forall|name: Seq<char>|
                    #![trigger self.label_table@.contains_key(name)]
                    #![trigger self.label_table.names().contains(name)]
                    self.label_table@.contains_key(name) <==> self.label_table.names().contains(
                        name,
                    ),
                forall|m: int|
                    0 <= m < k ==> entry_resolves(self@, #[trigger] self.label_table.names()[m]),
            decreases n - k,
        {
            let name = self.label_table.name_at(k);
            let fine = match self.label_table.get(name) {
                Some(ix) => {
                    if *ix < self.basic_blocks.len() {
                        let block = &self.basic_blocks[*ix];
                        assert(block@ == self@.blocks[*ix as int]);
                        match &block.label {
                            Some(label) => *label == *name,
                            None => false,
                        }
                    } else {
                        false
                    }
                },
                None => false,
            };
            if !fine {
                assert(self@.labels.contains_key(name@));
                assert(!entry_resolves(self@, name@));
                return false;
            }
            k += 1;
        }
        proof {
            assert forall|name: Seq<char>| #[trigger]
                self@.labels.contains_key(name) implies entry_resolves(self@, name) by {
                assert(self.label_table.names().contains(name));
                let m = choose|m: int|
                    0 <= m < self.label_table.names().len() && self.label_table.names()[m]
                        == name;
                assert(entry_resolves(self@, self.label_table.names()[m]));
            }
        }
        true
    }

    /// Whether the graph is consistent.
    pub fn is_well_formed(&self) -> (res: bool)
        ensures
            res == well_formed(self@),
    {
        proof {
            lemma_well_formed_by_parts(self@);
        }
        let n = self.basic_blocks.len();
        if self.entry >= n {
            return false;
        }
        let entry = &self.basic_blocks[self.entry];
        assert(entry@ == self@.blocks[self.entry as int]);
        if entry.prevs.len() != 0 || entry.label.is_some() {
            return false;
        }
        let mut i: usize = 0;
        while i < n
            invariant
                i <= n,
                n == self@.blocks.len(),
                forall|k: int| 0 <= k < i ==> #[trigger] block_in_range(self@, k),
                forall|k: int| 0 <= k < i ==> #[trigger] label_registered(self@, k),
            decreases n - i,
        {
            if !self.block_is_in_range(i) || !self.label_is_registered(i) {
                proof {
                    lemma_well_formed_by_parts(self@);
                    assert(!block_in_range(self@, i as int) || !label_registered(self@, i as int));
                }
                return false;
            }
            i += 1;
        }
        let mut j: usize = 0;
        while j < n
            invariant
                j <= n,
                n == self@.blocks.len(),
                forall|k: int| 0 <= k < n ==> #[trigger] block_in_range(self@, k),
                forall|k: int| 0 <= k < j ==> #[trigger] block_agrees(self@, k),
            decreases n - j,
        {
            if !self.block_agrees_with_neighbours(j) {
                proof {
                    lemma_well_formed_by_parts(self@);
                    assert(!block_agrees(self@, j as int));
                }
                return false;
            }
            j += 1;
        }
        self.table_resolves()
    }
}

} // verus!
