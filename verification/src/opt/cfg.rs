use vstd::prelude::*;
use crate::fe::ast::{lemma_view_children, nodes_view, AstNode, FunctionAstNode, Node};
use crate::opt::table::Table;

verus! {

/// A jump taken where `condition` holds, with the block that follows where it
/// does not.
#[derive(Debug)]
pub struct ConditionalJump {
    pub condition: AstNode,
    pub goto: usize,
    pub otherwise: usize,
}

/// How control leaves a block that does not end the function.
#[derive(Debug)]
pub enum Jump {
    Unconditional(usize),
    Conditional(ConditionalJump),
}

/// A straight-line run of instructions. Blocks live in the vector of their
/// graph and name each other by their index in it.
#[derive(Debug)]
pub struct BasicBlock {
    pub id: usize,
    pub label: Option<String>,
    pub insts: Vec<AstNode>,
    pub prevs: Vec<usize>,
    pub next: Option<Jump>,
}

/// A handle on a block of a graph: its index.
#[derive(Clone, Copy, Debug, PartialEq, Eq, Structural)]
pub struct BasicBlockRef(pub usize);

/// The control-flow graph of one function.
#[derive(Debug)]
pub struct ControlFlowGraph {
    pub function: FunctionAstNode,
    pub entry: usize,
    pub basic_blocks: Vec<BasicBlock>,
    pub label_table: Table<usize>,
}

/// The mathematical content of an optional [`Jump`].
pub enum Exit {
    Return,
    Unconditional { target: usize },
    Conditional { condition: Node, goto: usize, otherwise: usize },
}

/// The mathematical content of a [`BasicBlock`].
pub struct Block {
    pub id: usize,
    pub label: Option<Seq<char>>,
    pub insts: Seq<Node>,
    pub prevs: Seq<usize>,
    pub next: Exit,
}

/// The mathematical content of a [`ControlFlowGraph`].
pub struct Graph {
    pub function: Node,
    pub entry: usize,
    pub blocks: Seq<Block>,
    pub labels: Map<Seq<char>, usize>,
}

pub open spec fn exit_view(next: Option<Jump>) -> Exit {
    match next {
        None => Exit::Return,
        Some(Jump::Unconditional(target)) => Exit::Unconditional { target },
        Some(Jump::Conditional(jump)) => Exit::Conditional {
            condition: jump.condition@,
            goto: jump.goto,
            otherwise: jump.otherwise,
        },
    }
}

pub open spec fn label_view(label: Option<String>) -> Option<Seq<char>> {
    match label {
        None => None,
        Some(name) => Some(name@),
    }
}

impl View for BasicBlock {
    type V = Block;

    open spec fn view(&self) -> Block {
        Block {
            id: self.id,
            label: label_view(self.label),
            insts: nodes_view(self.insts@),
            prevs: self.prevs@,
            next: exit_view(self.next),
        }
    }
}

pub open spec fn blocks_view(blocks: Seq<BasicBlock>) -> Seq<Block> {
    Seq::new(blocks.len(), |i: int| blocks[i]@)
}

impl View for ControlFlowGraph {
    type V = Graph;

    open spec fn view(&self) -> Graph {
        Graph {
            function: AstNode::Function(self.function)@,
            entry: self.entry,
            blocks: blocks_view(self.basic_blocks@),
            labels: self.label_table@,
        }
    }
}

/// The blocks that control may reach next from a block: none, the target
/// of its jump, or the taken and the not-taken block of its conditional jump,
/// in that order.
pub open spec fn successors(block: Block) -> Seq<usize> {
    targets(block.next)
}

/// The blocks that an exit names.
pub open spec fn targets(next: Exit) -> Seq<usize> {
    match next {
        Exit::Return => Seq::empty(),
        Exit::Unconditional { target } => seq![target],
        Exit::Conditional { goto, otherwise, .. } => seq![goto, otherwise],
    }
}

/// `from` jumps to `to`.
pub open spec fn edge(g: Graph, from: int, to: int) -> bool {
    &&& 0 <= from < g.blocks.len()
    &&& 0 <= to < g.blocks.len()
    &&& successors(g.blocks[from]).contains(to as usize)
}

/// The graph is consistent:
/// the entry is a block without predecessors, every block carries its index
/// as its id, every jump and every predecessor names a block, a block lists
/// as predecessors exactly the blocks that jump to it, and the label table
/// names exactly the labelled blocks, each under its own label.
pub open spec fn well_formed(g: Graph) -> bool {
    &&& g.entry < g.blocks.len()
    &&& g.blocks[g.entry as int].prevs.len() == 0
    &&& g.blocks[g.entry as int].label is None
    &&& forall|i: int| 0 <= i < g.blocks.len() ==> (#[trigger] g.blocks[i]).id == i
    &&& forall|i: int, k: int|
        0 <= i < g.blocks.len() && 0 <= k < successors(g.blocks[i]).len() ==> (
        #[trigger] successors(g.blocks[i])[k]) < g.blocks.len()
    &&& forall|i: int, k: int|
        0 <= i < g.blocks.len() && 0 <= k < g.blocks[i].prevs.len() ==> (
        #[trigger] g.blocks[i].prevs[k]) < g.blocks.len()
    &&& forall|i: int, j: int|
        0 <= i < g.blocks.len() && 0 <= j < g.blocks.len() ==> (g.blocks[j].prevs.contains(
            i as usize,
        ) <==> #[trigger] edge(g, i, j))
    &&& forall|name: Seq<char>| #[trigger]
        g.labels.contains_key(name) ==> g.labels[name] < g.blocks.len()
            && g.blocks[g.labels[name] as int].label == Some(name)
    &&& forall|i: int|
        0 <= i < g.blocks.len() ==> (match (#[trigger] g.blocks[i]).label {
            Some(name) => g.labels.contains_key(name) && g.labels[name] == i,
            None => true,
        })
}

impl BasicBlock {
    /// A block without instructions, label, predecessors or jump.
    pub fn new(id: usize) -> (res: Self)
        ensures
            res@ == (Block {
                id,
                label: None,
                insts: Seq::empty(),
                prevs: Seq::empty(),
                next: Exit::Return,
            }),
    {
        let res = BasicBlock { id, label: None, insts: Vec::new(), prevs: Vec::new(), next: None };
        assert(res@.insts =~= Seq::empty());
        res
    }

    /// Appends an instruction.
    pub fn add_inst(&mut self, node: AstNode)
        ensures
            final(self)@ == (Block { insts: old(self)@.insts.push(node@), ..old(self)@ }),
    {
        self.insts.push(node);
        assert(nodes_view(self.insts@) =~= nodes_view(old(self).insts@).push(node@));
    }

    /// Records a predecessor.
    pub fn add_prev(&mut self, prev: usize)
        ensures
            final(self)@ == (Block { prevs: old(self)@.prevs.push(prev), ..old(self)@ }),
    {
        self.prevs.push(prev);
    }

    /// Makes the block end in a jump to `target`.
    pub fn set_unconditional_jump(&mut self, target: usize)
        ensures
            final(self)@ == (Block { next: Exit::Unconditional { target }, ..old(self)@ }),
    {
        self.next = Some(Jump::Unconditional(target));
    }

    /// Makes the block end in a conditional jump.
    pub fn set_conditional_jump(&mut self, jump: ConditionalJump)
        ensures
            final(self)@ == (Block {
                next: Exit::Conditional {
                    condition: jump.condition@,
                    goto: jump.goto,
                    otherwise: jump.otherwise,
                },
                ..old(self)@
            }),
    {
        self.next = Some(Jump::Conditional(jump));
    }

    /// The blocks that control may reach next.
    pub fn successors(&self) -> (res: Vec<usize>)
        ensures
            res@ == successors(self@),
    {
        let mut res: Vec<usize> = Vec::new();
        match &self.next {
            Some(Jump::Conditional(jump)) => {
                res.push(jump.goto);
                res.push(jump.otherwise);
                assert(res@ =~= seq![jump.goto, jump.otherwise]);
            },
            Some(Jump::Unconditional(target)) => {
                res.push(*target);
                assert(res@ =~= seq![*target]);
            },
            None => {
                assert(res@ =~= Seq::empty());
            },
        }
        res
    }
}

impl BasicBlockRef {
    /// The block that the handle stands for.
    pub fn borrow<'a>(&self, cfg: &'a ControlFlowGraph) -> (res: &'a BasicBlock)
        requires
            self.0 < cfg@.blocks.len(),
        ensures
            res@ == cfg@.blocks[self.0 as int],
    {
        &cfg.basic_blocks[self.0]
    }
}


/// A sequence of block indices with every occurrence of `x` taken out.
pub open spec fn without(s: Seq<usize>, x: usize) -> Seq<usize>
    decreases s.len(),
{
    if s.len() == 0 {
        s
    } else if s.last() == x {
        without(s.drop_last(), x)
    } else {
        without(s.drop_last(), x).push(s.last())
    }
}

/// `without(s, x)` holds what `s` holds, but for `x`.
pub proof fn lemma_without(s: Seq<usize>, x: usize)
    ensures
        forall|y: usize| #[trigger] without(s, x).contains(y) <==> s.contains(y) && y != x,
    decreases s.len(),
{
    if s.len() > 0 {
        lemma_without(s.drop_last(), x);
        assert forall|y: usize| #[trigger] without(s, x).contains(y) <==> s.contains(y) && y
            != x by {
            vstd::seq_lib::lemma_seq_contains_after_push(s.drop_last(), s.last(), y);
            vstd::seq_lib::lemma_seq_contains_after_push(
                without(s.drop_last(), x),
                s.last(),
                y,
            );
            assert(s.drop_last().push(s.last()) =~= s);
        }
    }
}

/// The block that a new index gets: empty, with the given label.
pub open spec fn fresh_block(id: usize, label: Option<Seq<char>>) -> Block {
    Block { id, label, insts: Seq::empty(), prevs: Seq::empty(), next: Exit::Return }
}

/// The graph with one more empty block at the end, registered under its
/// label if it has one.
pub open spec fn push_block(g: Graph, label: Option<Seq<char>>) -> Graph {
    Graph {
        blocks: g.blocks.push(fresh_block(g.blocks.len() as usize, label)),
        labels: match label {
            Some(name) => g.labels.insert(name, g.blocks.len() as usize),
            None => g.labels,
        },
        ..g
    }
}

/// The graph in which `name` has a block: the graph itself where the label
/// table knows the name, else the graph with a new block for it.
pub open spec fn resolve(g: Graph, name: Seq<char>) -> Graph {
    if g.labels.contains_key(name) {
        g
    } else {
        push_block(g, Some(name))
    }
}

/// The index of the block of `name` in `resolve(g, name)`.
pub open spec fn resolved(g: Graph, name: Seq<char>) -> usize {
    if g.labels.contains_key(name) {
        g.labels[name]
    } else {
        g.blocks.len() as usize
    }
}

/// The graph with `node` appended to the instructions of block `at`.
pub open spec fn with_inst(g: Graph, at: int, node: Node) -> Graph {
    Graph {
        blocks: g.blocks.update(
            at,
            Block { insts: g.blocks[at].insts.push(node), ..g.blocks[at] },
        ),
        ..g
    }
}

/// The graph in which block `from` ends the function: its jump, if it had
/// one, is gone, and no block lists it as a predecessor.
pub open spec fn unlinked(g: Graph, from: int) -> Graph {
    if g.blocks[from].next is Return {
        g
    } else {
        Graph {
            blocks: Seq::new(
                g.blocks.len(),
                |j: int|
                    Block {
                        prevs: without(g.blocks[j].prevs, from as usize),
                        next: if j == from {
                            Exit::Return
                        } else {
                            g.blocks[j].next
                        },
                        ..g.blocks[j]
                    },
            ),
            ..g
        }
    }
}

/// The graph with `from` recorded as a predecessor of `to`.
pub open spec fn with_prev(g: Graph, to: int, from: int) -> Graph {
    Graph {
        blocks: g.blocks.update(
            to,
            Block { prevs: g.blocks[to].prevs.push(from as usize), ..g.blocks[to] },
        ),
        ..g
    }
}

/// The graph with `next` as the exit of block `from`.
pub open spec fn with_exit(g: Graph, from: int, next: Exit) -> Graph {
    Graph { blocks: g.blocks.update(from, Block { next, ..g.blocks[from] }), ..g }
}

/// The graph in which block `from` ends in a jump to `to`, in place of the
/// jump that it had.
pub open spec fn jump_to(g: Graph, from: int, to: int) -> Graph {
    with_prev(
        with_exit(unlinked(g, from), from, Exit::Unconditional { target: to as usize }),
        to,
        from,
    )
}

/// The graph in which block `from` ends in a conditional jump to `goto`,
/// with `otherwise` as the block that follows, in place of the jump that it
/// had.
pub open spec fn branch_to(g: Graph, from: int, condition: Node, goto: int, otherwise: int) -> Graph {
    with_prev(
        with_prev(
            with_exit(
                unlinked(g, from),
                from,
                Exit::Conditional { condition, goto: goto as usize, otherwise: otherwise as usize },
            ),
            goto,
            from,
        ),
        otherwise,
        from,
    )
}

pub proof fn lemma_push_block_well_formed(g: Graph, label: Option<Seq<char>>)
    requires
        well_formed(g),
        g.blocks.len() < usize::MAX,
        label matches Some(name) ==> !g.labels.contains_key(name),
    ensures
        well_formed(push_block(g, label)),
{
    let h = push_block(g, label);
    let n = g.blocks.len() as int;
    assert forall|i: int, j: int| 0 <= i < h.blocks.len() && 0 <= j < h.blocks.len() implies (
    h.blocks[j].prevs.contains(i as usize) <==> #[trigger] edge(h, i, j)) by {
        if i < n && j < n {
            assert(edge(g, i, j) == edge(h, i, j));
        } else if i < n {
            if edge(h, i, j) {
                let k = choose|k: int|
                    0 <= k < successors(g.blocks[i]).len() && successors(g.blocks[i])[k] == j as usize;
                assert(successors(g.blocks[i])[k] < n);
            }
        }
    }
    assert forall|i: int| 0 <= i < h.blocks.len() implies (match (#[trigger] h.blocks[i]).label {
        Some(name) => h.labels.contains_key(name) && h.labels[name] == i,
        None => true,
    }) by {
        if i < n {
            assert(g.blocks[i].label == h.blocks[i].label);
        }
    }
    assert forall|i: int, k: int|
        0 <= i < h.blocks.len() && 0 <= k < successors(h.blocks[i]).len() implies (
    #[trigger] successors(h.blocks[i])[k]) < h.blocks.len() by {
        if i < n {
            assert(successors(g.blocks[i])[k] < n);
        }
    }
    assert forall|i: int, k: int|
        0 <= i < h.blocks.len() && 0 <= k < h.blocks[i].prevs.len() implies (
    #[trigger] h.blocks[i].prevs[k]) < h.blocks.len() by {
        if i < n {
            assert(g.blocks[i].prevs[k] < n);
        }
    }
    assert forall|name: Seq<char>| #[trigger] h.labels.contains_key(name) implies h.labels[name]
        < h.blocks.len() && h.blocks[h.labels[name] as int].label == Some(name) by {
        if g.labels.contains_key(name) {
            assert(g.labels[name] < n);
        }
    }
}

/// Two graphs have the same shape: the same entry, function and labels,
/// and block by block the same id, label, predecessors and exit. Only the
/// instructions inside the blocks may differ.
pub open spec fn same_shape(g: Graph, h: Graph) -> bool {
    &&& h.function == g.function
    &&& h.entry == g.entry
    &&& h.labels == g.labels
    &&& h.blocks.len() == g.blocks.len()
    &&& forall|i: int|
        0 <= i < g.blocks.len() ==> (#[trigger] h.blocks[i]).id == g.blocks[i].id
            && h.blocks[i].label == g.blocks[i].label && h.blocks[i].prevs == g.blocks[i].prevs
            && h.blocks[i].next == g.blocks[i].next
}

/// Consistency is a matter of shape.
pub proof fn lemma_same_shape_well_formed(g: Graph, h: Graph)
    requires
        well_formed(g),
        same_shape(g, h),
    ensures
        well_formed(h),
{
    assert forall|i: int, j: int| 0 <= i < h.blocks.len() && 0 <= j < h.blocks.len() implies (
    h.blocks[j].prevs.contains(i as usize) <==> #[trigger] edge(h, i, j)) by {
        assert(edge(g, i, j) == edge(h, i, j));
    }
    assert forall|i: int, k: int|
        0 <= i < h.blocks.len() && 0 <= k < successors(h.blocks[i]).len() implies (
    #[trigger] successors(h.blocks[i])[k]) < h.blocks.len() by {
        assert(successors(g.blocks[i])[k] < g.blocks.len());
    }
    assert forall|i: int, k: int|
        0 <= i < h.blocks.len() && 0 <= k < h.blocks[i].prevs.len() implies (
    #[trigger] h.blocks[i].prevs[k]) < h.blocks.len() by {
        assert(g.blocks[i].prevs[k] < g.blocks.len());
    }
    assert forall|i: int| 0 <= i < h.blocks.len() implies (match (#[trigger] h.blocks[i]).label {
        Some(name) => h.labels.contains_key(name) && h.labels[name] == i,
        None => true,
    }) by {
        assert(g.blocks[i].label == h.blocks[i].label);
    }
    assert forall|name: Seq<char>| #[trigger] h.labels.contains_key(name) implies h.labels[name]
        < h.blocks.len() && h.blocks[h.labels[name] as int].label == Some(name) by {
        assert(g.blocks[g.labels[name] as int].label == Some(name));
    }
    assert(h.blocks[h.entry as int].prevs == g.blocks[g.entry as int].prevs);
}

pub proof fn lemma_with_inst_well_formed(g: Graph, at: int, node: Node)
    requires
        well_formed(g),
        0 <= at < g.blocks.len(),
    ensures
        well_formed(with_inst(g, at, node)),
{
    lemma_same_shape_well_formed(g, with_inst(g, at, node));
}

pub proof fn lemma_unlinked_well_formed(g: Graph, from: int)
    requires
        well_formed(g),
        0 <= from < g.blocks.len(),
    ensures
        well_formed(unlinked(g, from)),
        unlinked(g, from).blocks.len() == g.blocks.len(),
        unlinked(g, from).blocks[from].next is Return,
        forall|j: int|
            0 <= j < g.blocks.len() ==> !(#[trigger] unlinked(g, from).blocks[j]).prevs.contains(
                from as usize,
            ),
{
    let h = unlinked(g, from);
    if g.blocks[from].next is Return {
        assert forall|j: int| 0 <= j < g.blocks.len() implies !(#[trigger] h.blocks[j]).prevs.contains(
            from as usize,
        ) by {
            assert(!edge(g, from, j));
        }
    } else {
        assert forall|j: int| 0 <= j < g.blocks.len() implies !(#[trigger] h.blocks[j]).prevs.contains(
            from as usize,
        ) by {
            lemma_without(g.blocks[j].prevs, from as usize);
        }
        assert forall|i: int, j: int| 0 <= i < h.blocks.len() && 0 <= j < h.blocks.len() implies (
        h.blocks[j].prevs.contains(i as usize) <==> #[trigger] edge(h, i, j)) by {
            lemma_without(g.blocks[j].prevs, from as usize);
            if i != from {
                assert(edge(g, i, j) == edge(h, i, j));
            } else {
                assert(successors(h.blocks[from]) =~= Seq::<usize>::empty());
            }
        }
        assert forall|i: int, k: int|
            0 <= i < h.blocks.len() && 0 <= k < successors(h.blocks[i]).len() implies (
        #[trigger] successors(h.blocks[i])[k]) < h.blocks.len() by {
            assert(successors(g.blocks[i])[k] < g.blocks.len());
        }
        assert forall|i: int, k: int|
            0 <= i < h.blocks.len() && 0 <= k < h.blocks[i].prevs.len() implies (
        #[trigger] h.blocks[i].prevs[k]) < h.blocks.len() by {
            lemma_without(g.blocks[i].prevs, from as usize);
            let p = h.blocks[i].prevs[k];
            assert(h.blocks[i].prevs.contains(p));
            assert(g.blocks[i].prevs.contains(p));
            let m = choose|m: int| 0 <= m < g.blocks[i].prevs.len() && g.blocks[i].prevs[m] == p;
            assert(g.blocks[i].prevs[m] < g.blocks.len());
        }
        assert forall|i: int| 0 <= i < h.blocks.len() implies (match (#[trigger] h.blocks[i]).label {
            Some(name) => h.labels.contains_key(name) && h.labels[name] == i,
            None => true,
        }) by {
            assert(g.blocks[i].label == h.blocks[i].label);
        }
        assert(h.blocks[h.entry as int].prevs =~= Seq::<usize>::empty()) by {
            assert(g.blocks[g.entry as int].prevs =~= Seq::<usize>::empty());
        }
    }
}

/// Giving a block without a jump an exit whose targets are blocks other than
/// the entry, and recording it as their predecessor, keeps a graph
/// consistent.
pub proof fn lemma_linked_well_formed(g: Graph, from: int, next: Exit, h: Graph)
    requires
        well_formed(g),
        0 <= from < g.blocks.len(),
        g.blocks[from].next is Return,
        forall|j: int| 0 <= j < g.blocks.len() ==> !(#[trigger] g.blocks[j]).prevs.contains(
            from as usize,
        ),
        h.function == g.function,
        h.entry == g.entry,
        h.labels == g.labels,
        h.blocks.len() == g.blocks.len(),
        forall|k: int|
            0 <= k < targets(next).len() ==> (
            #[trigger] targets(next)[k]) < g.blocks.len()
                && targets(next)[k] != g.entry,
        forall|j: int|
            0 <= j < g.blocks.len() ==> (#[trigger] h.blocks[j]).id == g.blocks[j].id
                && h.blocks[j].label == g.blocks[j].label && h.blocks[j].next == (if j == from {
                next
            } else {
                g.blocks[j].next
            }),
        forall|j: int, p: usize|
            0 <= j < g.blocks.len() ==> (#[trigger] h.blocks[j].prevs.contains(p) <==> g.blocks[j].prevs.contains(
                p,
            ) || (p == from && targets(next).contains(j as usize))),
    ensures
        well_formed(h),
{
    let succ = targets(next);
    assert(successors(h.blocks[from]) == succ);
    assert forall|i: int, j: int| 0 <= i < h.blocks.len() && 0 <= j < h.blocks.len() implies (
    h.blocks[j].prevs.contains(i as usize) <==> #[trigger] edge(h, i, j)) by {
        if i != from {
            assert(edge(g, i, j) == edge(h, i, j));
        } else {
            assert(!edge(g, from, j));
        }
    }
    assert forall|i: int, k: int|
        0 <= i < h.blocks.len() && 0 <= k < successors(h.blocks[i]).len() implies (
    #[trigger] successors(h.blocks[i])[k]) < h.blocks.len() by {
        if i != from {
            assert(successors(g.blocks[i])[k] < g.blocks.len());
        } else {
            assert(succ[k] < g.blocks.len());
        }
    }
    assert forall|i: int, k: int|
        0 <= i < h.blocks.len() && 0 <= k < h.blocks[i].prevs.len() implies (
    #[trigger] h.blocks[i].prevs[k]) < h.blocks.len() by {
        let p = h.blocks[i].prevs[k];
        assert(h.blocks[i].prevs.contains(p));
        if g.blocks[i].prevs.contains(p) {
            let m = choose|m: int| 0 <= m < g.blocks[i].prevs.len() && g.blocks[i].prevs[m] == p;
            assert(g.blocks[i].prevs[m] < g.blocks.len());
        }
    }
    assert forall|i: int| 0 <= i < h.blocks.len() implies (match (#[trigger] h.blocks[i]).label {
        Some(name) => h.labels.contains_key(name) && h.labels[name] == i,
        None => true,
    }) by {
        assert(g.blocks[i].label == h.blocks[i].label);
    }
    assert forall|name: Seq<char>| #[trigger] h.labels.contains_key(name) implies h.labels[name]
        < h.blocks.len() && h.blocks[h.labels[name] as int].label == Some(name) by {
        assert(g.blocks[g.labels[name] as int].label == Some(name));
    }
    assert(h.blocks[h.entry as int].prevs.len() == 0) by {
        let e = h.entry as int;
        if h.blocks[e].prevs.len() > 0 {
            let p = h.blocks[e].prevs[0];
            assert(h.blocks[e].prevs.contains(p));
            assert(g.blocks[e].prevs =~= Seq::<usize>::empty());
            assert(!g.blocks[e].prevs.contains(p));
            let k = choose|k: int| 0 <= k < succ.len() && succ[k] == e as usize;
            assert(succ[k] != g.entry);
        }
    }
}

pub proof fn lemma_jump_to_well_formed(g: Graph, from: int, to: int)
    requires
        well_formed(g),
        0 <= from < g.blocks.len(),
        0 <= to < g.blocks.len(),
        to != g.entry,
    ensures
        well_formed(jump_to(g, from, to)),
        jump_to(g, from, to).blocks.len() == g.blocks.len(),
        jump_to(g, from, to).labels == g.labels,
        jump_to(g, from, to).entry == g.entry,
{
    lemma_unlinked_well_formed(g, from);
    let u = unlinked(g, from);
    let next = Exit::Unconditional { target: to as usize };
    let h = jump_to(g, from, to);
    let succ = targets(next);
    assert(succ =~= seq![to as usize]);
    assert forall|j: int, p: usize| 0 <= j < u.blocks.len() implies (
    #[trigger] h.blocks[j].prevs.contains(p) <==> u.blocks[j].prevs.contains(p) || (p == from
        && succ.contains(j as usize))) by {
        if j == to {
            vstd::seq_lib::lemma_seq_contains_after_push(u.blocks[j].prevs, from as usize, p);
            assert(succ[0] == to as usize);
        } else {
            if succ.contains(j as usize) {
                let k = choose|k: int| 0 <= k < succ.len() && succ[k] == j as usize;
            }
        }
    }
    lemma_linked_well_formed(u, from, next, h);
}

pub proof fn lemma_branch_to_well_formed(
    g: Graph,
    from: int,
    condition: Node,
    goto: int,
    otherwise: int,
)
    requires
        well_formed(g),
        0 <= from < g.blocks.len(),
        0 <= goto < g.blocks.len(),
        0 <= otherwise < g.blocks.len(),
        goto != g.entry,
        otherwise != g.entry,
    ensures
        well_formed(branch_to(g, from, condition, goto, otherwise)),
        branch_to(g, from, condition, goto, otherwise).blocks.len() == g.blocks.len(),
        branch_to(g, from, condition, goto, otherwise).labels == g.labels,
        branch_to(g, from, condition, goto, otherwise).entry == g.entry,
{
    lemma_unlinked_well_formed(g, from);
    let u = unlinked(g, from);
    let next = Exit::Conditional { condition, goto: goto as usize, otherwise: otherwise as usize };
    let e = with_exit(u, from, next);
    let m = with_prev(e, goto, from);
    let h = branch_to(g, from, condition, goto, otherwise);
    let succ = targets(next);
    assert(succ =~= seq![goto as usize, otherwise as usize]);
    assert forall|j: int, p: usize| 0 <= j < u.blocks.len() implies (
    #[trigger] h.blocks[j].prevs.contains(p) <==> u.blocks[j].prevs.contains(p) || (p == from
        && succ.contains(j as usize))) by {
        assert(succ[0] == goto as usize);
        assert(succ[1] == otherwise as usize);
        if succ.contains(j as usize) {
            let k = choose|k: int| 0 <= k < succ.len() && succ[k] == j as usize;
        }
        vstd::seq_lib::lemma_seq_contains_after_push(e.blocks[goto].prevs, from as usize, p);
        vstd::seq_lib::lemma_seq_contains_after_push(m.blocks[otherwise].prevs, from as usize, p);
    }
    lemma_linked_well_formed(u, from, next, h);
}


/// A copy of a list of block indices with every occurrence of `x` taken out.
fn remove_index(list: &Vec<usize>, x: usize) -> (res: Vec<usize>)
    ensures
        res@ == without(list@, x),
{
    let mut res: Vec<usize> = Vec::new();
    let mut i: usize = 0;
    assert(list@.take(0) =~= Seq::<usize>::empty());
    while i < list.len()
        invariant
            i <= list.len(),
            res@ == without(list@.take(i as int), x),
        decreases list.len() - i,
    {
        proof {
            assert(list@.take(i as int + 1).drop_last() =~= list@.take(i as int));
        }
        if list[i] != x {
            res.push(list[i]);
        }
        i += 1;
    }
    assert(list@.take(list.len() as int) =~= list@);
    res
}

impl ControlFlowGraph {
    /// The graph of `function` that holds the entry block and nothing else.
    pub fn new(function: FunctionAstNode, entry: BasicBlock) -> (res: Self)
        ensures
            res@ == (Graph {
                function: AstNode::Function(function)@,
                entry: 0,
                blocks: seq![entry@],
                labels: Map::empty(),
            }),
    {
        let mut basic_blocks: Vec<BasicBlock> = Vec::new();
        basic_blocks.push(entry);
        let res = ControlFlowGraph { function, entry: 0, basic_blocks, label_table: Table::new() };
        assert(res@.blocks =~= seq![entry@]);
        res
    }

    /// Appends a block.
    pub fn add_basic_block(&mut self, basic_block: BasicBlock)
        ensures
            final(self)@ == (Graph {
                blocks: old(self)@.blocks.push(basic_block@),
                ..old(self)@
            }),
    {
        self.basic_blocks.push(basic_block);
        assert(self@.blocks =~= old(self)@.blocks.push(basic_block@));
    }

    /// Appends a block and enters it in the label table under `label`.
    pub fn add_label_with_basic_block(&mut self, label: String, basic_block: BasicBlock)
        ensures
            final(self)@ == (Graph {
                blocks: old(self)@.blocks.push(basic_block@),
                labels: old(self)@.labels.insert(label@, old(self)@.blocks.len() as usize),
                ..old(self)@
            }),
    {
        let at = self.basic_blocks.len();
        self.basic_blocks.push(basic_block);
        self.label_table.insert(label, at);
        assert(self@.blocks =~= old(self)@.blocks.push(basic_block@));
    }

    /// The index of the block that the label table holds for `label`.
    pub fn get_basic_block(&self, label: &String) -> (res: Option<usize>)
        ensures
            res == (if self@.labels.contains_key(label@) && self@.labels[label@]
                < self@.blocks.len() {
                Some(self@.labels[label@])
            } else {
                None
            }),
    {
        match self.label_table.get(label) {
            Some(ix) => if *ix < self.basic_blocks.len() {
                Some(*ix)
            } else {
                None
            },
            None => None,
        }
    }

    /// The index that the next block gets.
    pub fn get_new_id(&self) -> (res: usize)
        ensures
            res == self@.blocks.len(),
    {
        self.basic_blocks.len()
    }

    /// Takes the jump of block `from` away, and `from` out of every
    /// predecessor list.
    pub fn unlink(&mut self, from: usize)
        requires
            from < old(self)@.blocks.len(),
        ensures
            final(self)@ == unlinked(old(self)@, from as int),
    {
        if self.basic_blocks[from].next.is_none() {
            return ;
        }
        let n = self.basic_blocks.len();
        let mut j: usize = 0;
        while j < n
            invariant
                j <= n,
                from < n,
                n == self.basic_blocks.len(),
                n == old(self)@.blocks.len(),
                self.function == old(self).function,
                self.entry == old(self).entry,
                self.label_table == old(self).label_table,
                !(old(self)@.blocks[from as int].next is Return),
                forall|k: int|
                    0 <= k < j ==> (#[trigger] self@.blocks[k]) == unlinked(
                        old(self)@,
                        from as int,
                    ).blocks[k],
                forall|k: int| j <= k < n ==> (#[trigger] self@.blocks[k]) == old(self)@.blocks[k],
            decreases n - j,
        {
            let prevs = remove_index(&self.basic_blocks[j].prevs, from);
            let ghost before = self@;
            self.basic_blocks[j].prevs = prevs;
            if j == from {
                self.basic_blocks[j].next = None;
            }
            proof {
                assert forall|k: int| 0 <= k < n && k != j implies (#[trigger] self@.blocks[k])
                    == before.blocks[k] by {}
                let target = unlinked(old(self)@, from as int).blocks[j as int];
                let now = self@.blocks[j as int];
                assert(before.blocks[j as int] == old(self)@.blocks[j as int]);
                assert(now.prevs == target.prevs);
                assert(now.next == target.next);
                assert(now.insts == target.insts);
                assert(now.label == target.label);
                assert(now.id == target.id);
            }
            j += 1;
        }
        assert(self@.blocks =~= unlinked(old(self)@, from as int).blocks);
    }

    /// Makes block `from` end in a jump to block `to`.
    pub fn link_unconditional(&mut self, from: usize, to: usize)
        requires
            from < old(self)@.blocks.len(),
            to < old(self)@.blocks.len(),
        ensures
            final(self)@ == jump_to(old(self)@, from as int, to as int),
    {
        self.unlink(from);
        let ghost u = self@;
        self.basic_blocks[from].set_unconditional_jump(to);
        let ghost e = self@;
        assert(e.blocks =~= with_exit(u, from as int, Exit::Unconditional { target: to }).blocks);
        self.basic_blocks[to].add_prev(from);
        assert(self@.blocks =~= with_prev(e, to as int, from as int).blocks);
    }

    /// Makes block `from` end in a conditional jump to block `goto`, with
    /// block `otherwise` as the one that follows.
    pub fn link_conditional(&mut self, from: usize, condition: AstNode, goto: usize, otherwise: usize)
        requires
            from < old(self)@.blocks.len(),
            goto < old(self)@.blocks.len(),
            otherwise < old(self)@.blocks.len(),
        ensures
            final(self)@ == branch_to(
                old(self)@,
                from as int,
                condition@,
                goto as int,
                otherwise as int,
            ),
    {
        self.unlink(from);
        let ghost u = self@;
        let ghost next = Exit::Conditional { condition: condition@, goto, otherwise };
        self.basic_blocks[from].set_conditional_jump(ConditionalJump { condition, goto, otherwise });
        let ghost e = self@;
        assert(e.blocks =~= with_exit(u, from as int, next).blocks);
        self.basic_blocks[goto].add_prev(from);
        let ghost m = self@;
        assert(m.blocks =~= with_prev(e, goto as int, from as int).blocks);
        self.basic_blocks[otherwise].add_prev(from);
        assert(self@.blocks =~= with_prev(m, otherwise as int, from as int).blocks);
    }

    /// Appends an instruction to block `at`.
    pub fn push_inst(&mut self, at: usize, node: AstNode)
        requires
            at < old(self)@.blocks.len(),
        ensures
            final(self)@ == with_inst(old(self)@, at as int, node@),
    {
        self.basic_blocks[at].add_inst(node);
        assert(self@.blocks =~= with_inst(old(self)@, at as int, node@).blocks);
    }
}


/// Where a list of instructions stands: in the body of a label, which a jump
/// or a return ends, or in the body of a function, where what follows a jump
/// or a return is dead up to the next label.
#[derive(Clone, Copy, Debug, PartialEq, Eq, Structural)]
pub enum Context {
    InsideLabel,
    InsideFunction,
}

/// The state of graph construction between two instructions of a list: the
/// graph so far, the block that receives the next instruction, whether the
/// instructions that follow are dead, and whether the list has ended early.
pub struct Cursor {
    pub graph: Graph,
    pub cur: usize,
    pub skip: bool,
    pub stopped: bool,
}

/// The cursor at the start of a list whose instructions go to block `cur`.
pub open spec fn start(graph: Graph, cur: usize) -> Cursor {
    Cursor { graph, cur, skip: false, stopped: false }
}

/// The cursor after one instruction.
///
/// A label gets its block (a new one unless the label table knows the name)
/// and its body is scanned into that block; dead code ends with it, and the
/// current block stays where it has a jump, else becomes the block of the
/// label. Dead instructions other than labels are dropped. A live jump
/// links the current block to the block of its target; a live return is
/// appended to the current block; either ends the list inside a label and
/// makes what follows dead inside a function. A live conditional jump links
/// the current block to the block of its target and to a new block, which
/// becomes the current one. Any other live instruction is appended to the
/// current block.
pub open spec fn step(c: Cursor, node: Node, context: Context) -> Cursor
    decreases node,
{
    match node {
        Node::Label { name, body, .. } => {
            let block = resolved(c.graph, name);
            let inner = scan(start(resolve(c.graph, name), block), body, Context::InsideLabel);
            Cursor {
                graph: inner.graph,
                cur: if inner.graph.blocks[c.cur as int].next is Return {
                    block
                } else {
                    c.cur
                },
                skip: false,
                stopped: false,
            }
        },
        Node::Goto { name, .. } => if c.skip {
            c
        } else {
            Cursor {
                graph: jump_to(
                    resolve(c.graph, name),
                    c.cur as int,
                    resolved(c.graph, name) as int,
                ),
                cur: c.cur,
                skip: context is InsideFunction,
                stopped: context is InsideLabel,
            }
        },
        Node::Ret { .. } => if c.skip {
            c
        } else {
            Cursor {
                graph: with_inst(c.graph, c.cur as int, node),
                cur: c.cur,
                skip: context is InsideFunction,
                stopped: context is InsideLabel,
            }
        },
        Node::If { condition, label, .. } => if c.skip {
            c
        } else {
            let named = resolve(c.graph, label);
            Cursor {
                graph: branch_to(
                    push_block(named, None),
                    c.cur as int,
                    *condition,
                    resolved(c.graph, label) as int,
                    named.blocks.len() as int,
                ),
                cur: named.blocks.len() as usize,
                skip: false,
                stopped: false,
            }
        },
        _ => if c.skip {
            c
        } else {
            Cursor { graph: with_inst(c.graph, c.cur as int, node), ..c }
        },
    }
}

/// The cursor after a list of instructions: one step for each of them, in
/// order, up to the one that ends the list.
pub open spec fn scan(c: Cursor, body: Seq<Node>, context: Context) -> Cursor
    decreases body,
{
    if body.len() == 0 {
        c
    } else {
        let before = scan(c, body.drop_last(), context);
        if before.stopped {
            before
        } else {
            step(before, body.last(), context)
        }
    }
}

/// A list that has ended at one of its instructions ignores the rest.
pub proof fn lemma_scan_stopped(c: Cursor, body: Seq<Node>, context: Context, upto: int)
    requires
        0 <= upto <= body.len(),
        scan(c, body.take(upto), context).stopped,
    ensures
        scan(c, body, context) == scan(c, body.take(upto), context),
    decreases body.len() - upto,
{
    if upto == body.len() {
        assert(body.take(upto) =~= body);
    } else {
        assert(body.take(upto + 1).drop_last() =~= body.take(upto));
        lemma_scan_stopped(c, body, context, upto + 1);
    }
}

/// The graph of a function: an empty entry block that jumps to a first
/// block, into which the body is scanned.
pub open spec fn graph_of(function: Node) -> Graph
    recommends
        function is Function,
{
    let entry = Block { next: Exit::Unconditional { target: 1 }, ..fresh_block(0, None) };
    let first = Block { prevs: seq![0usize], ..fresh_block(1, None) };
    let initial = Graph { function, entry: 0, blocks: seq![entry, first], labels: Map::empty() };
    scan(start(initial, 1), function->Function_body, Context::InsideFunction).graph
}

/// The block of `name`: the one that the label table holds, or a new one.
fn resolve_label(cfg: &mut ControlFlowGraph, name: &String) -> (res: usize)
    requires
        well_formed(old(cfg)@),
    ensures
        final(cfg)@ == resolve(old(cfg)@, name@),
        res == resolved(old(cfg)@, name@),
        well_formed(final(cfg)@),
        res < final(cfg)@.blocks.len(),
        res != final(cfg)@.entry,
        final(cfg)@.blocks.len() >= old(cfg)@.blocks.len(),
{
    match cfg.get_basic_block(name) {
        Some(ix) => {
            assert(cfg@.blocks[ix as int].label == Some(name@));
            ix
        },
        None => {
            let id = cfg.get_new_id();
            let mut block = BasicBlock::new(id);
            block.label = Some(name.clone());
            cfg.add_label_with_basic_block(name.clone(), block);
            proof {
                assert(cfg@.blocks =~= push_block(old(cfg)@, Some(name@)).blocks);
                assert(cfg@ == push_block(old(cfg)@, Some(name@)));
                assert(cfg.basic_blocks.len() == cfg@.blocks.len());
                lemma_push_block_well_formed(old(cfg)@, Some(name@));
            }
            id
        },
    }
}

/// Scans a list of instructions into the graph, starting in block `cur_bb`.
pub fn process_body(
    body: &Vec<AstNode>,
    cur_bb: usize,
    cfg: &mut ControlFlowGraph,
    context: Context,
)
    requires
        well_formed(old(cfg)@),
        cur_bb < old(cfg)@.blocks.len(),
    ensures
        final(cfg)@ == scan(start(old(cfg)@, cur_bb), nodes_view(body@), context).graph,
        well_formed(final(cfg)@),
        final(cfg)@.blocks.len() >= old(cfg)@.blocks.len(),
    decreases body,
{
    let ghost nv = nodes_view(body@);
    let ghost c0 = start(cfg@, cur_bb);
    let mut cur: usize = cur_bb;
    let mut skip_inst: bool = false;
    let mut i: usize = 0;
    assert(nv.take(0) =~= Seq::<Node>::empty());
    while i < body.len()
        invariant
            i <= body.len(),
            nv == nodes_view(body@),
            c0 == start(old(cfg)@, cur_bb),
            scan(c0, nv.take(i as int), context) == (Cursor {
                graph: cfg@,
                cur,
                skip: skip_inst,
                stopped: false,
            }),
            well_formed(cfg@),
            cur < cfg@.blocks.len(),
            cfg@.blocks.len() >= old(cfg)@.blocks.len(),
        decreases body.len() - i,
    {
        let node = &body[i];
        let ghost before = scan(c0, nv.take(i as int), context);
        proof {
            vstd::std_specs::vec::axiom_vec_index_decreases(*body, i as int);
            assert(nv.take(i as int + 1).drop_last() =~= nv.take(i as int));
            assert(nv.take(i as int + 1).last() == node@);
            assert(scan(c0, nv.take(i as int + 1), context) == step(before, node@, context));
            lemma_view_children(*node);
        }
        match node {
            AstNode::Label(label) => {
                let new_bb = resolve_label(cfg, &label.name);
                process_body(&label.body, new_bb, cfg, Context::InsideLabel);
                skip_inst = false;
                if cfg.basic_blocks[cur].next.is_none() {
                    cur = new_bb;
                }
            },
            AstNode::Goto(goto) => {
                if !skip_inst {
                    let new_bb = resolve_label(cfg, &goto.name);
                    proof {
                        lemma_jump_to_well_formed(cfg@, cur as int, new_bb as int);
                    }
                    cfg.link_unconditional(cur, new_bb);
                    match context {
                        Context::InsideLabel => {
                            proof {
                                lemma_scan_stopped(c0, nv, context, i as int + 1);
                            }
                            return ;
                        },
                        Context::InsideFunction => {
                            skip_inst = true;
                        },
                    }
                }
            },
            AstNode::Ret(_) => {
                if !skip_inst {
                    proof {
                        lemma_with_inst_well_formed(cfg@, cur as int, node@);
                    }
                    cfg.push_inst(cur, node.clone());
                    match context {
                        Context::InsideLabel => {
                            proof {
                                lemma_scan_stopped(c0, nv, context, i as int + 1);
                            }
                            return ;
                        },
                        Context::InsideFunction => {
                            skip_inst = true;
                        },
                    }
                }
            },
            AstNode::If(if_inst) => {
                if !skip_inst {
                    let then_bb = resolve_label(cfg, &if_inst.label);
                    let ghost named = cfg@;
                    let else_bb = cfg.get_new_id();
                    cfg.add_basic_block(BasicBlock::new(else_bb));
                    proof {
                        assert(cfg@.blocks =~= push_block(named, None).blocks);
                        assert(cfg@ == push_block(named, None));
                        assert(cfg.basic_blocks.len() == cfg@.blocks.len());
                        lemma_push_block_well_formed(named, None);
                        lemma_branch_to_well_formed(
                            cfg@,
                            cur as int,
                            (*if_inst.condition)@,
                            then_bb as int,
                            else_bb as int,
                        );
                    }
                    cfg.link_conditional(cur, (*if_inst.condition).clone(), then_bb, else_bb);
                    cur = else_bb;
                }
            },
            _ => {
                if !skip_inst {
                    proof {
                        lemma_with_inst_well_formed(cfg@, cur as int, node@);
                    }
                    cfg.push_inst(cur, node.clone());
                }
            },
        }
        i += 1;
    }
    assert(nv.take(body.len() as int) =~= nv);
}

/// Builds the control-flow graph of a function.
pub fn cfg_from_function(node: &FunctionAstNode) -> (res: ControlFlowGraph)
    ensures
        res@ == graph_of(AstNode::Function(*node)@),
        well_formed(res@),
{
    let entry = BasicBlock::new(0);
    let mut cfg = ControlFlowGraph::new(node.clone(), entry);
    let cur_bb = cfg.get_new_id();
    cfg.add_basic_block(BasicBlock::new(cur_bb));
    let ghost two = cfg@;
    proof {
        let g0 = Graph {
            function: AstNode::Function(*node)@,
            entry: 0,
            blocks: seq![fresh_block(0, None)],
            labels: Map::empty(),
        };
        assert(two.blocks =~= push_block(g0, None).blocks);
        assert(well_formed(g0)) by {
            assert(targets(g0.blocks[0].next) =~= Seq::<usize>::empty());
            assert forall|i: int, j: int|
                0 <= i < g0.blocks.len() && 0 <= j < g0.blocks.len() implies (
            g0.blocks[j].prevs.contains(i as usize) <==> #[trigger] edge(g0, i, j)) by {}
        }
        lemma_push_block_well_formed(g0, None);
        lemma_jump_to_well_formed(two, 0, 1);
    }
    cfg.link_unconditional(0, cur_bb);
    proof {
        let entry_block = Block { next: Exit::Unconditional { target: 1 }, ..fresh_block(0, None) };
        let first = Block { prevs: seq![0usize], ..fresh_block(1, None) };
        assert(cfg@.blocks =~= seq![entry_block, first]);
        lemma_view_children(AstNode::Function(*node));
    }
    process_body(&node.body, cur_bb, &mut cfg, Context::InsideFunction);
    cfg
}

/// Builds the control-flow graph of every function of a program. Nodes
/// other than functions are passed over.
pub fn cfg_table_from_program(nodes: &Vec<AstNode>) -> (res: Vec<ControlFlowGraph>)
    ensures
        graphs_view(res@) == graphs_of(nodes_view(nodes@)),
        forall|i: int| 0 <= i < res.len() ==> well_formed(#[trigger] res@[i]@),
{
    let mut cfg_table: Vec<ControlFlowGraph> = Vec::new();
    let ghost nv = nodes_view(nodes@);
    let mut i: usize = 0;
    assert(nv.take(0) =~= Seq::<Node>::empty());
    assert(graphs_view(cfg_table@) =~= Seq::<Graph>::empty());
    while i < nodes.len()
        invariant
            i <= nodes.len(),
            nv == nodes_view(nodes@),
            graphs_view(cfg_table@) == graphs_of(nv.take(i as int)),
            forall|k: int| 0 <= k < cfg_table.len() ==> well_formed(#[trigger] cfg_table@[k]@),
        decreases nodes.len() - i,
    {
        proof {
            assert(nv.take(i as int + 1).drop_last() =~= nv.take(i as int));
            assert(nv.take(i as int + 1).last() == nodes@[i as int]@);
        }
        if let AstNode::Function(function_node) = &nodes[i] {
            let ghost before = cfg_table@;
            let cfg = cfg_from_function(function_node);
            cfg_table.push(cfg);
            assert(graphs_view(cfg_table@) =~= graphs_view(before).push(cfg@));
        }
        i += 1;
    }
    assert(nv.take(nodes.len() as int) =~= nv);
    cfg_table
}

/// The contents of a vector of graphs, element by element.
pub open spec fn graphs_view(v: Seq<ControlFlowGraph>) -> Seq<Graph> {
    Seq::new(v.len(), |i: int| v[i]@)
}

/// The graphs of the functions of a program, in program order.
pub open spec fn graphs_of(nodes: Seq<Node>) -> Seq<Graph>
    decreases nodes.len(),
{
    if nodes.len() == 0 {
        Seq::empty()
    } else if nodes.last() is Function {
        graphs_of(nodes.drop_last()).push(graph_of(nodes.last()))
    } else {
        graphs_of(nodes.drop_last())
    }
}

} // verus!
