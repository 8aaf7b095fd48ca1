use vstd::prelude::*;
use vstd::string::StrSliceExecFns;
use crate::fe::ast::{nodes_view, Node};
use crate::opt::cfg::{
    graphs_view, successors, well_formed, BasicBlock, Block, ControlFlowGraph, Graph,
};
use crate::fe::render::{render, render_all};
use crate::text::{decimal, usize_to_string};

verus! {

/// The name of a block in listings: its id in square brackets, followed
/// inside them by a dash and its label where it has one.
pub open spec fn block_name(block: Block) -> Seq<char> {
    "["@ + decimal(block.id as nat) + (match block.label {
        Some(name) => " - "@ + name,
        None => Seq::empty(),
    }) + "]"@
}

/// The heading of a block in listings: its name and the numbers of its
/// predecessors and successors.
pub open spec fn block_properties(block: Block) -> Seq<char> {
    block_name(block) + " [#Predecessor="@ + decimal(block.prevs.len()) + "] [#Successor="@
        + decimal(successors(block).len()) + "]\n"@
}

/// The names of the blocks of a list, each followed by a comma.
pub open spec fn names_of(g: Graph, list: Seq<usize>) -> Seq<char>
    decreases list.len(),
{
    if list.len() == 0 {
        Seq::empty()
    } else {
        names_of(g, list.drop_last()) + block_name(g.blocks[list.last() as int]) + ","@
    }
}

/// The listing of block `i`: a mark on the entry, the heading, the
/// instructions, the names of the predecessors and of the successors where
/// there are any, and a rule.
pub open spec fn block_listing(g: Graph, i: int) -> Seq<char> {
    let block = g.blocks[i];
    entry_mark(g, i) + block_properties(block) + render_all(block.insts, Seq::empty())
        + predecessors_line(g, block) + successors_line(g, block)
        + "=====================================\n"@
}

/// The mark before the listing of the entry block.
pub open spec fn entry_mark(g: Graph, i: int) -> Seq<char> {
    if i == g.entry {
        "[Entry] "@
    } else {
        Seq::empty()
    }
}

/// The names of the predecessors of a block, where it has any.
pub open spec fn predecessors_line(g: Graph, block: Block) -> Seq<char> {
    if block.prevs.len() > 0 {
        "[Predecessors="@ + names_of(g, block.prevs) + "] "@
    } else {
        Seq::empty()
    }
}

/// The names of the successors of a block, where it has any, and the end
/// of the line.
pub open spec fn successors_line(g: Graph, block: Block) -> Seq<char> {
    if successors(block).len() > 0 {
        "[Successors="@ + names_of(g, successors(block)) + "]\n"@
    } else {
        "\n"@
    }
}

/// The listings of the first `upto` blocks.
pub open spec fn block_listings(g: Graph, upto: int) -> Seq<char>
    decreases upto,
{
    if upto <= 0 {
        Seq::empty()
    } else {
        block_listings(g, upto - 1) + block_listing(g, upto - 1)
    }
}

/// The listing of a graph: a rule, then the listing of every block.
pub open spec fn graph_listing(g: Graph) -> Seq<char> {
    "=====================================\n"@ + block_listings(g, g.blocks.len() as int)
}

/// A text with `\l` in place of every line feed, and with `\l` at the end
/// where it does not end in one.
pub open spec fn record_lines(text: Seq<char>) -> Seq<char> {
    left_aligned(text) + (if text.len() > 0 && text.last() == '\n' {
        Seq::empty()
    } else {
        "\\l"@
    })
}

/// A text with `\l` in place of every line feed.
pub open spec fn left_aligned(text: Seq<char>) -> Seq<char>
    decreases text.len(),
{
    if text.len() == 0 {
        Seq::empty()
    } else if text.last() == '\n' {
        left_aligned(text.drop_last()) + "\\l"@
    } else {
        left_aligned(text.drop_last()).push(text.last())
    }
}

/// The instructions of a list as the lines of a record.
pub open spec fn record_of(insts: Seq<Node>) -> Seq<char>
    decreases insts.len(),
{
    if insts.len() == 0 {
        Seq::empty()
    } else {
        record_of(insts.drop_last()) + record_lines(render(insts.last(), Seq::empty()))
    }
}

/// The node of a block in a drawing of the graph of `function`.
pub open spec fn dot_node(function: Seq<char>, block: Block) -> Seq<char> {
    "        "@ + function + "_BB"@ + decimal(block.id as nat) + " [shape=record label=\""@
        + block_name(block) + "\\n"@ + record_of(block.insts) + "\"];"@
}

/// The arrow from a block to the block with the id `to`.
pub open spec fn dot_edge(function: Seq<char>, block: Block, to: usize) -> Seq<char> {
    "        "@ + function + "_BB"@ + decimal(block.id as nat) + " -> "@ + function + "_BB"@
        + decimal(to as nat) + ";"@
}

/// The arrow from a block to the exit.
pub open spec fn dot_exit(function: Seq<char>, block: Block) -> Seq<char> {
    "        "@ + function + "_BB"@ + decimal(block.id as nat) + " -> "@ + function + "_EXIT;"@
}

/// The arrows out of a block to the blocks of a list.
pub open spec fn dot_edges(g: Graph, function: Seq<char>, block: Block, list: Seq<usize>) -> Seq<
    Seq<char>,
>
    decreases list.len(),
{
    if list.len() == 0 {
        Seq::empty()
    } else {
        dot_edges(g, function, block, list.drop_last()).push(
            dot_edge(function, block, g.blocks[list.last() as int].id),
        )
    }
}

/// The lines of a block in a drawing: its node, then one arrow to each
/// successor, or the arrow to the exit where it has none.
pub open spec fn dot_block(g: Graph, function: Seq<char>, block: Block) -> Seq<Seq<char>> {
    seq![dot_node(function, block)] + (if successors(block).len() == 0 {
        seq![dot_exit(function, block)]
    } else {
        dot_edges(g, function, block, successors(block))
    })
}

/// The lines of the first `upto` blocks in a drawing.
pub open spec fn dot_blocks(g: Graph, function: Seq<char>, upto: int) -> Seq<Seq<char>>
    decreases upto,
{
    if upto <= 0 {
        Seq::empty()
    } else {
        dot_blocks(g, function, upto - 1) + dot_block(g, function, g.blocks[upto - 1])
    }
}

/// The lines of a graph in a drawing: a cluster named after the function,
/// with an entry, an exit, an arrow from the entry to the entry block, and
/// the lines of every block.
pub open spec fn dot_graph(g: Graph) -> Seq<Seq<char>>
    recommends
        g.function is Function,
{
    let name = g.function->Function_name;
    seq![
        "    subgraph cluster_"@ + name + " {"@,
        "        label=\""@ + name + "\";"@,
        "        graph [style=filled];"@,
        "        "@ + name + "_ENTRY [label=\"ENTRY\"];"@,
        "        "@ + name + "_EXIT [label=\"EXIT\"];"@,
        "        "@ + name + "_ENTRY -> "@ + name + "_BB"@ + decimal(
            g.blocks[g.entry as int].id as nat,
        ) + ";"@,
    ] + dot_blocks(g, name, g.blocks.len() as int) + seq!["    }"@]
}

impl BasicBlock {
    /// The name of the block in listings.
    pub fn name(&self) -> (res: String)
        ensures
            res@ == block_name(self@),
    {
        let mut res = String::from_str("[");
        res.append(usize_to_string(self.id).as_str());
        match &self.label {
            Some(name) => {
                res.append(" - ");
                res.append(name.as_str());
            },
            None => {},
        }
        res.append("]");
        assert(res@ =~= block_name(self@));
        res
    }

    /// The heading of the block in listings.
    pub fn properties(&self) -> (res: String)
        ensures
            res@ == block_properties(self@),
    {
        let mut res = self.name();
        res.append(" [#Predecessor=");
        res.append(usize_to_string(self.prevs.len()).as_str());
        res.append("] [#Successor=");
        res.append(usize_to_string(self.successors().len()).as_str());
        res.append("]\n");
        assert(res@ =~= block_properties(self@));
        res
    }

    /// The instructions of the block as source text.
    pub fn to_text(&self) -> (res: String)
        ensures
            res@ == render_all(self@.insts, Seq::empty()),
    {
        let ghost nv = nodes_view(self.insts@);
        let mut res = String::new();
        let mut i: usize = 0;
        assert(nv.take(0) =~= Seq::<Node>::empty());
        while i < self.insts.len()
            invariant
                i <= self.insts.len(),
                nv == nodes_view(self.insts@),
                res@ == render_all(nv.take(i as int), Seq::empty()),
            decreases self.insts.len() - i,
        {
            proof {
                assert(nv.take(i as int + 1).drop_last() =~= nv.take(i as int));
            }
            res.append(self.insts[i].to_text().as_str());
            i += 1;
        }
        assert(nv.take(self.insts.len() as int) =~= nv);
        res
    }
}

/// A text with `\l` in place of every line feed, and with `\l` at the end
/// where it does not end in one.
pub fn record_text(text: &str) -> (res: String)
    ensures
        res@ == record_lines(text@),
{
    let n = text.unicode_len();
    let mut res = String::new();
    let mut i: usize = 0;
    let mut ends_in_line_feed = false;
    assert(text@.take(0) =~= Seq::<char>::empty());
    while i < n
        invariant
            i <= n,
            n == text@.len(),
            res@ == left_aligned(text@.take(i as int)),
            ends_in_line_feed == (i > 0 && text@[i as int - 1] == '\n'),
        decreases n - i,
    {
        proof {
            assert(text@.take(i as int + 1).drop_last() =~= text@.take(i as int));
        }
        let c = text.get_char(i);
        if c == '\n' {
            res.append("\\l");
            ends_in_line_feed = true;
        } else {
            let one = text.substring_char(i, i + 1);
            assert(one@ =~= seq![c]);
            res.append(one);
            ends_in_line_feed = false;
            assert(res@ =~= left_aligned(text@.take(i as int)).push(c));
        }
        i += 1;
    }
    assert(text@.take(n as int) =~= text@);
    if !ends_in_line_feed {
        res.append("\\l");
    }
    assert(res@ =~= record_lines(text@));
    res
}


/// The views of a vector of lines, element by element.
pub open spec fn lines_view(v: Seq<String>) -> Seq<Seq<char>> {
    Seq::new(v.len(), |i: int| v[i]@)
}

/// The text of a drawing of the graphs of a program, with `title` as its
/// name: the lines of every graph, each graph followed by an empty line.
pub open spec fn dot_text(graphs: Seq<Graph>, title: Seq<char>) -> Seq<char> {
    "digraph \""@ + title + "\" {\n"@ + dot_clusters(graphs) + "}\n"@
}

/// The lines of the graphs of a list, each graph followed by an empty
/// line.
pub open spec fn dot_clusters(graphs: Seq<Graph>) -> Seq<char>
    decreases graphs.len(),
{
    if graphs.len() == 0 {
        Seq::empty()
    } else {
        dot_clusters(graphs.drop_last()) + crate::text::lines_text(dot_graph(graphs.last()))
            + "\n"@
    }
}

impl ControlFlowGraph {
    /// The names of the blocks of a list, each followed by a comma.
    fn names_text(&self, list: &Vec<usize>) -> (res: String)
        requires
            forall|k: int| 0 <= k < list.len() ==> list[k] < self@.blocks.len(),
        ensures
            res@ == names_of(self@, list@),
    {
        let mut res = String::new();
        let mut i: usize = 0;
        assert(list@.take(0) =~= Seq::<usize>::empty());
        while i < list.len()
            invariant
                i <= list.len(),
                forall|k: int| 0 <= k < list.len() ==> list[k] < self@.blocks.len(),
                res@ == names_of(self@, list@.take(i as int)),
            decreases list.len() - i,
        {
            proof {
                assert(list@.take(i as int + 1).drop_last() =~= list@.take(i as int));
            }
            res.append(self.basic_blocks[list[i]].name().as_str());
            res.append(",");
            i += 1;
        }
        assert(list@.take(list.len() as int) =~= list@);
        res
    }

    /// The names of the predecessors of block `ix`, where it has any.
    fn predecessors_text(&self, ix: usize) -> (res: String)
        requires
            well_formed(self@),
            ix < self@.blocks.len(),
        ensures
            res@ == predecessors_line(self@, self@.blocks[ix as int]),
    {
        let block = &self.basic_blocks[ix];
        proof {
            assert(block@ == self@.blocks[ix as int]);
            assert forall|k: int| 0 <= k < block.prevs.len() implies block.prevs[k]
                < self@.blocks.len() by {
                assert(self@.blocks[ix as int].prevs[k] < self@.blocks.len());
            }
        }
        let mut res = String::new();
        if block.prevs.len() > 0 {
            res.append("[Predecessors=");
            res.append(self.names_text(&block.prevs).as_str());
            res.append("] ");
            assert(res@ =~= predecessors_line(self@, self@.blocks[ix as int]));
        }
        res
    }

    /// The names of the successors of block `ix`, where it has any, and the
    /// end of the line.
    fn successors_text(&self, ix: usize) -> (res: String)
        requires
            well_formed(self@),
            ix < self@.blocks.len(),
        ensures
            res@ == successors_line(self@, self@.blocks[ix as int]),
    {
        let block = &self.basic_blocks[ix];
        proof {
            assert(block@ == self@.blocks[ix as int]);
            assert forall|k: int| 0 <= k < successors(block@).len() implies successors(block@)[k]
                < self@.blocks.len() by {
                assert(successors(self@.blocks[ix as int])[k] < self@.blocks.len());
            }
        }
        let succs = block.successors();
        let mut res = String::new();
        if succs.len() > 0 {
            res.append("[Successors=");
            res.append(self.names_text(&succs).as_str());
            res.append("]\n");
            assert(res@ =~= successors_line(self@, self@.blocks[ix as int]));
        } else {
            res.append("\n");
            assert(res@ =~= successors_line(self@, self@.blocks[ix as int]));
        }
        res
    }

    /// The listing of block `ix`.
    fn block_text(&self, ix: usize) -> (res: String)
        requires
            well_formed(self@),
            ix < self@.blocks.len(),
        ensures
            res@ == block_listing(self@, ix as int),
    {
        let block = &self.basic_blocks[ix];
        assert(block@ == self@.blocks[ix as int]);
        let mut res = String::new();
        if ix == self.entry {
            res.append("[Entry] ");
        }
        assert(res@ =~= entry_mark(self@, ix as int));
        res.append(block.properties().as_str());
        res.append(block.to_text().as_str());
        res.append(self.predecessors_text(ix).as_str());
        res.append(self.successors_text(ix).as_str());
        res.append("=====================================\n");
        res
    }

    /// The listing of the graph: for every block its heading, its
    /// instructions and the names of its neighbours.
    pub fn to_text(&self) -> (res: String)
        requires
            well_formed(self@),
        ensures
            res@ == graph_listing(self@),
    {
        let mut res = String::from_str("=====================================\n");
        let ghost head = res@;
        let mut ix: usize = 0;
        assert(head + Seq::<char>::empty() =~= head);
        while ix < self.basic_blocks.len()
            invariant
                ix <= self.basic_blocks.len(),
                well_formed(self@),
                res@ == head + block_listings(self@, ix as int),
            decreases self.basic_blocks.len() - ix,
        {
            let text = self.block_text(ix);
            let ghost before = block_listings(self@, ix as int);
            res.append(text.as_str());
            assert(head + before + text@ =~= head + (before + text@));
            ix += 1;
        }
        res
    }
}

impl BasicBlock {
    /// The instructions of the block as the lines of a record.
    fn record(&self) -> (res: String)
        ensures
            res@ == record_of(self@.insts),
    {
        let ghost nv = nodes_view(self.insts@);
        let mut res = String::new();
        let mut i: usize = 0;
        assert(nv.take(0) =~= Seq::<Node>::empty());
        while i < self.insts.len()
            invariant
                i <= self.insts.len(),
                nv == nodes_view(self.insts@),
                res@ == record_of(nv.take(i as int)),
            decreases self.insts.len() - i,
        {
            proof {
                assert(nv.take(i as int + 1).drop_last() =~= nv.take(i as int));
            }
            let text = self.insts[i].to_text();
            res.append(record_text(text.as_str()).as_str());
            i += 1;
        }
        assert(nv.take(self.insts.len() as int) =~= nv);
        res
    }

    /// The lines of the block in a drawing of the graph of `function_name`.
    pub fn transpile_to_dot(&self, cfg: &ControlFlowGraph, function_name: &String) -> (lines: Vec<
        String,
    >)
        requires
            forall|k: int|
                0 <= k < successors(self@).len() ==> (#[trigger] successors(self@)[k])
                    < cfg@.blocks.len(),
        ensures
            lines_view(lines@) == dot_block(cfg@, function_name@, self@),
    {
        let mut lines: Vec<String> = Vec::new();
        let id_text = usize_to_string(self.id);
        let mut node = String::from_str("        ");
        node.append(function_name.as_str());
        node.append("_BB");
        node.append(id_text.as_str());
        node.append(" [shape=record label=\"");
        node.append(self.name().as_str());
        node.append("\\n");
        node.append(self.record().as_str());
        node.append("\"];");
        assert(node@ =~= dot_node(function_name@, self@));
        lines.push(node);
        assert(lines_view(lines@) =~= seq![dot_node(function_name@, self@)]);
        let succs = self.successors();
        let mut k: usize = 0;
        assert(succs@.take(0) =~= Seq::<usize>::empty());
        assert(lines_view(lines@) =~= seq![dot_node(function_name@, self@)] + dot_edges(
            cfg@,
            function_name@,
            self@,
            succs@.take(0),
        ));
        while k < succs.len()
            invariant
                k <= succs.len(),
                succs@ == successors(self@),
                id_text@ == decimal(self.id as nat),
                forall|m: int|
                    0 <= m < successors(self@).len() ==> (#[trigger] successors(self@)[m])
                        < cfg@.blocks.len(),
                lines_view(lines@) == seq![dot_node(function_name@, self@)] + dot_edges(
                    cfg@,
                    function_name@,
                    self@,
                    succs@.take(k as int),
                ),
            decreases succs.len() - k,
        {
            proof {
                assert(succs@.take(k as int + 1).drop_last() =~= succs@.take(k as int));
                assert(successors(self@)[k as int] < cfg@.blocks.len());
            }
            let to = cfg.basic_blocks[succs[k]].id;
            let mut line = String::from_str("        ");
            line.append(function_name.as_str());
            line.append("_BB");
            line.append(id_text.as_str());
            line.append(" -> ");
            line.append(function_name.as_str());
            line.append("_BB");
            line.append(usize_to_string(to).as_str());
            line.append(";");
            assert(line@ =~= dot_edge(function_name@, self@, to));
            let ghost before = lines_view(lines@);
            lines.push(line);
            assert(lines_view(lines@) =~= before.push(line@));
            assert(lines_view(lines@) =~= seq![dot_node(function_name@, self@)] + dot_edges(
                cfg@,
                function_name@,
                self@,
                succs@.take(k as int + 1),
            ));
            k += 1;
        }
        assert(succs@.take(succs.len() as int) =~= succs@);
        if succs.len() == 0 {
            let mut line = String::from_str("        ");
            line.append(function_name.as_str());
            line.append("_BB");
            line.append(id_text.as_str());
            line.append(" -> ");
            line.append(function_name.as_str());
            line.append("_EXIT;");
            assert(line@ =~= dot_exit(function_name@, self@));
            let ghost before = lines_view(lines@);
            lines.push(line);
            assert(lines_view(lines@) =~= before.push(line@));
            assert(lines_view(lines@) =~= dot_block(cfg@, function_name@, self@));
        }
        lines
    }
}

impl ControlFlowGraph {
    /// The lines of the graph in a drawing.
    pub fn transpile_to_dot(&self) -> (lines: Vec<String>)
        requires
            well_formed(self@),
        ensures
            lines_view(lines@) == dot_graph(self@),
    {
        let name = &self.function.name;
        let mut lines: Vec<String> = Vec::new();
        let mut l0 = String::from_str("    subgraph cluster_");
        l0.append(name.as_str());
        l0.append(" {");
        let mut l1 = String::from_str("        label=\"");
        l1.append(name.as_str());
        l1.append("\";");
        let l2 = String::from_str("        graph [style=filled];");
        let mut l3 = String::from_str("        ");
        l3.append(name.as_str());
        l3.append("_ENTRY [label=\"ENTRY\"];");
        let mut l4 = String::from_str("        ");
        l4.append(name.as_str());
        l4.append("_EXIT [label=\"EXIT\"];");
        let mut l5 = String::from_str("        ");
        l5.append(name.as_str());
        l5.append("_ENTRY -> ");
        l5.append(name.as_str());
        l5.append("_BB");
        l5.append(usize_to_string(self.basic_blocks[self.entry].id).as_str());
        l5.append(";");
        let ghost head = seq![l0@, l1@, l2@, l3@, l4@, l5@];
        lines.push(l0);
        lines.push(l1);
        lines.push(l2);
        lines.push(l3);
        lines.push(l4);
        lines.push(l5);
        assert(lines_view(lines@) =~= head);
        assert(head + Seq::<Seq<char>>::empty() =~= head);
        let mut ix: usize = 0;
        while ix < self.basic_blocks.len()
            invariant
                ix <= self.basic_blocks.len(),
                well_formed(self@),
                name@ == self@.function->Function_name,
                lines_view(lines@) == head + dot_blocks(self@, name@, ix as int),
            decreases self.basic_blocks.len() - ix,
        {
            let block = &self.basic_blocks[ix];
            proof {
                assert(block@ == self@.blocks[ix as int]);
                assert forall|k: int| 0 <= k < successors(block@).len() implies (
                #[trigger] successors(block@)[k]) < self@.blocks.len() by {
                    assert(successors(self@.blocks[ix as int])[k] < self@.blocks.len());
                }
            }
            let mut more = block.transpile_to_dot(self, name);
            let ghost before = lines@;
            let ghost added = more@;
            lines.append(&mut more);
            assert(lines_view(before + added) =~= lines_view(before) + lines_view(added));
            assert(lines_view(lines@) =~= head + dot_blocks(self@, name@, ix as int + 1));
            ix += 1;
        }
        let ghost before = lines_view(lines@);
        lines.push(String::from_str("    }"));
        assert(lines_view(lines@) =~= before.push("    }"@));
        assert(head =~= dot_graph(self@).take(6));
        assert(lines_view(lines@) =~= dot_graph(self@));
        lines
    }
}

/// The text of a drawing of the graphs of a program, with `title` as its
/// name.
pub fn cfg_table_to_dot(cfg_table: &Vec<ControlFlowGraph>, title: &String) -> (res: String)
    requires
        forall|i: int| 0 <= i < cfg_table.len() ==> well_formed(#[trigger] cfg_table@[i]@),
    ensures
        res@ == dot_text(graphs_view(cfg_table@), title@),
{
    let ghost gv = graphs_view(cfg_table@);
    let mut res = String::from_str("digraph \"");
    res.append(title.as_str());
    res.append("\" {\n");
    let ghost head = res@;
    let mut i: usize = 0;
    assert(gv.take(0) =~= Seq::<Graph>::empty());
    assert(head + Seq::<char>::empty() =~= head);
    while i < cfg_table.len()
        invariant
            i <= cfg_table.len(),
            gv == graphs_view(cfg_table@),
            forall|k: int| 0 <= k < cfg_table.len() ==> well_formed(#[trigger] cfg_table@[k]@),
            res@ == head + dot_clusters(gv.take(i as int)),
        decreases cfg_table.len() - i,
    {
        proof {
            assert(gv.take(i as int + 1).drop_last() =~= gv.take(i as int));
            assert(gv.take(i as int + 1).last() == cfg_table@[i as int]@);
        }
        let lines = cfg_table[i].transpile_to_dot();
        let ghost lv = lines_view(lines@);
        let ghost before = res@;
        let mut k: usize = 0;
        assert(lv.take(0) =~= Seq::<Seq<char>>::empty());
        assert(before + Seq::<char>::empty() =~= before);
        while k < lines.len()
            invariant
                k <= lines.len(),
                lv == lines_view(lines@),
                res@ == before + crate::text::lines_text(lv.take(k as int)),
            decreases lines.len() - k,
        {
            let ghost sofar = crate::text::lines_text(lv.take(k as int));
            proof {
                assert(lv.take(k as int + 1).drop_last() =~= lv.take(k as int));
                assert(lv.take(k as int + 1).last() == lines@[k as int]@);
            }
            res.append(lines[k].as_str());
            res.append("\n");
            assert(before + sofar + lines@[k as int]@ + "\n"@ =~= before + (sofar + lines@[k
                as int]@ + "\n"@));
            k += 1;
        }
        assert(lv.take(lines.len() as int) =~= lv);
        res.append("\n");
        proof {
            let done = dot_clusters(gv.take(i as int));
            let here = crate::text::lines_text(lv);
            assert(head + done + here + "\n"@ =~= head + (done + here + "\n"@));
        }
        i += 1;
    }
    assert(gv.take(cfg_table.len() as int) =~= gv);
    res.append("}\n");
    assert(res@ =~= dot_text(gv, title@));
    res
}

} // verus!
