use vstd::prelude::*;
use crate::fe::ast::{
    add_name, clone_names, dependencies, holds_name, lemma_view_children, loc_of, names_view,
    nodes_view, production, AstNode, IdenAstNode, Node,
};
use crate::mw::ast_pass::AstPass;
use crate::fe::loc::{Loc, LocView};
use crate::fe::token::{Failure, SyntaxError};

verus! {

/// The pass that checks that every identifier is defined before it is read
/// and that every jump names a label of its function.
#[derive(Clone, Copy, Debug)]
pub struct ValidateIdenPass;

/// The identifiers and the labels that are known at one place of a
/// function.
#[derive(Debug)]
pub struct Context {
    pub idens: Vec<String>,
    pub labels: Vec<String>,
}

/// The mathematical content of a [`Context`].
pub struct Known {
    pub idens: Set<Seq<char>>,
    pub labels: Set<Seq<char>>,
}

impl View for Context {
    type V = Known;

    open spec fn view(&self) -> Known {
        Known {
            idens: names_view(self.idens@).to_set(),
            labels: names_view(self.labels@).to_set(),
        }
    }
}

impl Context {
    /// Each name is listed once.
    pub open spec fn well_formed(&self) -> bool {
        names_view(self.idens@).no_duplicates() && names_view(self.labels@).no_duplicates()
    }
}

pub open spec fn unknown_identifier(loc: LocView, name: Seq<char>) -> Failure {
    Failure { loc, message: "unknown identifier '"@ + name + "'"@ }
}

pub open spec fn unknown_label(loc: LocView, name: Seq<char>) -> Failure {
    Failure { loc, message: "unknown label identifier '"@ + name + "'"@ }
}

pub open spec fn repeated_label(loc: LocView, name: Seq<char>) -> Failure {
    Failure { loc, message: "label identifier already exists '"@ + name + "'"@ }
}

/// The index of the first of the names from `from` on that is not known, or
/// the length of the list.
pub open spec fn first_unknown(names: Seq<Seq<char>>, known: Set<Seq<char>>, from: int) -> int
    decreases names.len() - from,
{
    if 0 <= from < names.len() && known.contains(names[from]) {
        first_unknown(names, known, from + 1)
    } else {
        from
    }
}

/// What is known after a node, or what is wrong with it.
///
/// A node must read known identifiers only; what it defines is known after
/// it. The body of a function is checked node by node. A label must be
/// new; it is known after it, and its body is checked node by node, but
/// what the body makes known is forgotten at its end.
pub open spec fn check_node(node: Node, known: Known) -> Result<Known, Failure>
    decreases node,
{
    let deps = dependencies(node);
    if first_unknown(deps, known.idens, 0) < deps.len() {
        Err(unknown_identifier(loc_of(node), deps[first_unknown(deps, known.idens, 0)]))
    } else {
        let defined = match production(node) {
            Some(name) => Known { idens: known.idens.insert(name), ..known },
            None => known,
        };
        match node {
            Node::Function { body, .. } => check_nodes(body, defined),
            Node::Label { name, body, loc } => if defined.labels.contains(name) {
                Err(repeated_label(loc, name))
            } else {
                let inside = Known { labels: defined.labels.insert(name), ..defined };
                match check_nodes(body, inside) {
                    Ok(_) => Ok(inside),
                    Err(failure) => Err(failure),
                }
            },
            Node::Ret { var, .. } => match *var {
                Node::Iden { name, loc } => if defined.idens.contains(name) {
                    Ok(defined)
                } else {
                    Err(unknown_identifier(loc, name))
                },
                _ => Ok(defined),
            },
            _ => Ok(defined),
        }
    }
}

/// What is known after the nodes of a list, or what is wrong with the first
/// of them with which something is wrong.
pub open spec fn check_nodes(nodes: Seq<Node>, known: Known) -> Result<Known, Failure>
    decreases nodes,
{
    if nodes.len() == 0 {
        Ok(known)
    } else {
        match check_nodes(nodes.drop_last(), known) {
            Ok(before) => check_node(nodes.last(), before),
            Err(failure) => Err(failure),
        }
    }
}

/// What is wrong with the jumps of a node: the first jump in it, in the
/// order of the text, that names no known label.
pub open spec fn check_jumps(node: Node, labels: Set<Seq<char>>) -> Option<Failure>
    decreases node,
{
    match node {
        Node::Function { body, .. } => check_jumps_of_all(body, labels),
        Node::Label { body, .. } => check_jumps_of_all(body, labels),
        Node::If { label, loc, .. } => if labels.contains(label) {
            None
        } else {
            Some(unknown_label(loc, label))
        },
        Node::Goto { name, loc } => if labels.contains(name) {
            None
        } else {
            Some(unknown_label(loc, name))
        },
        _ => None,
    }
}

pub open spec fn check_jumps_of_all(nodes: Seq<Node>, labels: Set<Seq<char>>) -> Option<Failure>
    decreases nodes,
{
    if nodes.len() == 0 {
        None
    } else {
        match check_jumps_of_all(nodes.drop_last(), labels) {
            Some(failure) => Some(failure),
            None => check_jumps(nodes.last(), labels),
        }
    }
}

/// What is wrong with a top-level node, checked from nothing known.
pub open spec fn check_top(node: Node) -> Option<Failure> {
    match check_node(node, Known { idens: Set::empty(), labels: Set::empty() }) {
        Err(failure) => Some(failure),
        Ok(known) => check_jumps(node, known.labels),
    }
}

/// What is wrong with the first of the first `upto` top-level nodes with
/// which something is wrong.
pub open spec fn check_program(nodes: Seq<Node>, upto: int) -> Option<Failure>
    decreases upto,
{
    if upto <= 0 {
        None
    } else {
        match check_program(nodes, upto - 1) {
            Some(failure) => Some(failure),
            None => check_top(nodes[upto - 1]),
        }
    }
}


/// A message with a name between quotes behind it.
fn quoted(lead: &str, name: &String) -> (res: String)
    ensures
        res@ == lead@ + name@ + "'"@,
{
    let mut res = String::from_str(lead);
    res.append(name.as_str());
    res.append("'");
    res
}

impl Context {
    /// The context in which nothing is known.
    pub fn new() -> (res: Self)
        ensures
            res@ == (Known { idens: Set::empty(), labels: Set::empty() }),
            res.well_formed(),
    {
        let res = Context { idens: Vec::new(), labels: Vec::new() };
        assert(names_view(res.idens@) =~= Seq::<Seq<char>>::empty());
        assert(names_view(res.labels@) =~= Seq::<Seq<char>>::empty());
        assert(Seq::<Seq<char>>::empty().to_set() =~= Set::<Seq<char>>::empty());
        res
    }

    /// Checks that the identifier that a node reads is known.
    pub fn validate_iden(&self, node: &IdenAstNode) -> (res: Result<(), SyntaxError>)
        ensures
            match res {
                Ok(_) => self@.idens.contains(node.name@),
                Err(e) => !self@.idens.contains(node.name@) && e@ == unknown_identifier(
                    node.loc@,
                    node.name@,
                ),
            },
    {
        if holds_name(&self.idens, &node.name) {
            Ok(())
        } else {
            Err(
                SyntaxError {
                    loc: node.loc.clone(),
                    message: quoted("unknown identifier '", &node.name),
                },
            )
        }
    }

    /// Makes an identifier known.
    pub fn insert_iden(&mut self, iden: String)
        requires
            old(self).well_formed(),
        ensures
            final(self).well_formed(),
            final(self)@ == (Known { idens: old(self)@.idens.insert(iden@), ..old(self)@ }),
    {
        add_name(&mut self.idens, iden);
    }

    /// Checks that a label is known.
    pub fn validate_label(&self, label: &String, loc: Loc) -> (res: Result<(), SyntaxError>)
        ensures
            match res {
                Ok(_) => self@.labels.contains(label@),
                Err(e) => !self@.labels.contains(label@) && e@ == unknown_label(loc@, label@),
            },
    {
        if holds_name(&self.labels, label) {
            Ok(())
        } else {
            Err(SyntaxError { loc, message: quoted("unknown label identifier '", label) })
        }
    }

    /// Makes a label known, which must be new.
    pub fn insert_label(&mut self, label: &String, loc: Loc) -> (res: Result<(), SyntaxError>)
        requires
            old(self).well_formed(),
        ensures
            final(self).well_formed(),
            match res {
                Ok(_) => !old(self)@.labels.contains(label@) && final(self)@ == (Known {
                    labels: old(self)@.labels.insert(label@),
                    ..old(self)@
                }),
                Err(e) => old(self)@.labels.contains(label@) && e@ == repeated_label(
                    loc@,
                    label@,
                ),
            },
    {
        if holds_name(&self.labels, label) {
            return Err(
                SyntaxError { loc, message: quoted("label identifier already exists '", label) },
            );
        }
        add_name(&mut self.labels, label.clone());
        Ok(())
    }

    /// A copy of the context.
    pub fn duplicate(&self) -> (res: Self)
        ensures
            res@ == self@,
            self.well_formed() ==> res.well_formed(),
    {
        Context { idens: clone_names(&self.idens), labels: clone_names(&self.labels) }
    }
}

/// What a check gave agrees with what the definition gives.
pub open spec fn checked(res: Result<(), SyntaxError>, after: Known, want: Result<Known, Failure>) -> bool {
    match res {
        Ok(_) => want == Ok::<Known, Failure>(after),
        Err(e) => want == Err::<Known, Failure>(e@),
    }
}

/// What a check of jumps gave agrees with what the definition gives.
pub open spec fn jumps_checked(res: Result<(), SyntaxError>, want: Option<Failure>) -> bool {
    match res {
        Ok(_) => want is None,
        Err(e) => want == Some(e@),
    }
}

/// Checks the nodes of a list in turn.
fn validate_nodes(nodes: &Vec<AstNode>, context: &mut Context) -> (res: Result<(), SyntaxError>)
    requires
        old(context).well_formed(),
    ensures
        final(context).well_formed(),
        checked(res, final(context)@, check_nodes(nodes_view(nodes@), old(context)@)),
    decreases nodes, 0nat,
{
    let ghost nv = nodes_view(nodes@);
    let ghost known = context@;
    let mut i: usize = 0;
    assert(nv.take(0) =~= Seq::<Node>::empty());
    while i < nodes.len()
        invariant
            i <= nodes.len(),
            nv == nodes_view(nodes@),
            known == old(context)@,
            context.well_formed(),
            check_nodes(nv.take(i as int), known) == Ok::<Known, Failure>(context@),
        decreases nodes.len() - i,
    {
        proof {
            vstd::std_specs::vec::axiom_vec_index_decreases(*nodes, i as int);
            assert(nv.take(i as int + 1).drop_last() =~= nv.take(i as int));
        }
        match validate_node(&nodes[i], context) {
            Ok(_) => {},
            Err(e) => {
                proof {
                    lemma_check_nodes_fails(nv, known, i as int + 1);
                }
                return Err(e);
            },
        }
        i += 1;
    }
    assert(nv.take(nodes.len() as int) =~= nv);
    Ok(())
}

/// A list whose first nodes fail fails as a whole, with their error.
proof fn lemma_check_nodes_fails(nodes: Seq<Node>, known: Known, upto: int)
    requires
        0 <= upto <= nodes.len(),
        check_nodes(nodes.take(upto), known) is Err,
    ensures
        check_nodes(nodes, known) == check_nodes(nodes.take(upto), known),
    decreases nodes.len() - upto,
{
    if upto < nodes.len() {
        assert(nodes.take(upto + 1).drop_last() =~= nodes.take(upto));
        lemma_check_nodes_fails(nodes, known, upto + 1);
    } else {
        assert(nodes.take(upto) =~= nodes);
    }
}

/// Checks a node: what it reads, what it defines, and what it holds.
pub fn validate_node(node: &AstNode, context: &mut Context) -> (res: Result<(), SyntaxError>)
    requires
        old(context).well_formed(),
    ensures
        final(context).well_formed(),
        checked(res, final(context)@, check_node(node@, old(context)@)),
    decreases node, 1nat,
{
    let ghost known = context@;
    let deps = node.dependencies();
    let mut i: usize = 0;
    while i < deps.len()
        invariant
            i <= deps.len(),
            names_view(deps@) == dependencies(node@),
            context@ == known,
            context.well_formed(),
            first_unknown(dependencies(node@), known.idens, 0) == first_unknown(
                dependencies(node@),
                known.idens,
                i as int,
            ),
        decreases deps.len() - i,
    {
        assert(names_view(deps@)[i as int] == deps@[i as int]@);
        if !holds_name(&context.idens, &deps[i]) {
            return Err(
                SyntaxError {
                    loc: node.loc(),
                    message: quoted("unknown identifier '", &deps[i]),
                },
            );
        }
        i += 1;
    }
    if let Some(prod) = node.production() {
        context.insert_iden(prod);
    }
    proof {
        lemma_view_children(*node);
    }
    match node {
        AstNode::Function(function) => validate_nodes(&function.body, context),
        AstNode::Label(label) => {
            match context.insert_label(&label.name, label.loc.clone()) {
                Ok(_) => {},
                Err(e) => {
                    return Err(e);
                },
            }
            let mut inner_context = context.duplicate();
            match validate_nodes(&label.body, &mut inner_context) {
                Ok(_) => Ok(()),
                Err(e) => Err(e),
            }
        },
        AstNode::Ret(ret) => {
            proof {
                reveal_with_fuel(crate::fe::ast::node_view, 2);
            }
            match &*ret.var {
                AstNode::Iden(iden_var) => context.validate_iden(iden_var),
                _ => Ok(()),
            }
        },
        _ => Ok(()),
    }
}

/// Checks the jumps of the nodes of a list in turn.
fn validate_labels(nodes: &Vec<AstNode>, context: &Context) -> (res: Result<(), SyntaxError>)
    ensures
        jumps_checked(res, check_jumps_of_all(nodes_view(nodes@), context@.labels)),
    decreases nodes, 0nat,
{
    let ghost nv = nodes_view(nodes@);
    let mut i: usize = 0;
    assert(nv.take(0) =~= Seq::<Node>::empty());
    while i < nodes.len()
        invariant
            i <= nodes.len(),
            nv == nodes_view(nodes@),
            check_jumps_of_all(nv.take(i as int), context@.labels) is None,
        decreases nodes.len() - i,
    {
        proof {
            vstd::std_specs::vec::axiom_vec_index_decreases(*nodes, i as int);
            assert(nv.take(i as int + 1).drop_last() =~= nv.take(i as int));
        }
        match validate_label(&nodes[i], context) {
            Ok(_) => {},
            Err(e) => {
                proof {
                    lemma_check_jumps_fails(nv, context@.labels, i as int + 1);
                }
                return Err(e);
            },
        }
        i += 1;
    }
    assert(nv.take(nodes.len() as int) =~= nv);
    Ok(())
}

proof fn lemma_check_jumps_fails(nodes: Seq<Node>, labels: Set<Seq<char>>, upto: int)
    requires
        0 <= upto <= nodes.len(),
        check_jumps_of_all(nodes.take(upto), labels) is Some,
    ensures
        check_jumps_of_all(nodes, labels) == check_jumps_of_all(nodes.take(upto), labels),
    decreases nodes.len() - upto,
{
    if upto < nodes.len() {
        assert(nodes.take(upto + 1).drop_last() =~= nodes.take(upto));
        lemma_check_jumps_fails(nodes, labels, upto + 1);
    } else {
        assert(nodes.take(upto) =~= nodes);
    }
}

/// Checks that every jump in a node names a known label.
pub fn validate_label(node: &AstNode, context: &Context) -> (res: Result<(), SyntaxError>)
    ensures
        jumps_checked(res, check_jumps(node@, context@.labels)),
    decreases node, 1nat,
{
    proof {
        lemma_view_children(*node);
    }
    match node {
        AstNode::Function(function) => validate_labels(&function.body, context),
        AstNode::Label(label) => validate_labels(&label.body, context),
        AstNode::If(branch) => context.validate_label(&branch.label, branch.loc.clone()),
        AstNode::Goto(goto) => context.validate_label(&goto.name, goto.loc.clone()),
        _ => Ok(()),
    }
}

impl AstPass for ValidateIdenPass {
    open spec fn admits(&self, nodes: Seq<Node>) -> bool {
        true
    }

    open spec fn outcome(&self, nodes: Seq<Node>) -> Result<Seq<Node>, Failure> {
        match check_program(nodes, nodes.len() as int) {
            Some(failure) => Err(failure),
            None => Ok(nodes),
        }
    }

    fn apply(&self, nodes: &mut Vec<AstNode>) -> (res: Result<(), SyntaxError>) {
        let ghost nv = nodes_view(nodes@);
        let mut i: usize = 0;
        while i < nodes.len()
            invariant
                i <= nodes.len(),
                nv == nodes_view(nodes@),
                nodes@ == old(nodes)@,
                check_program(nv, i as int) is None,
            decreases nodes.len() - i,
        {
            let mut context = Context::new();
            match validate_node(&nodes[i], &mut context) {
                Ok(_) => {},
                Err(e) => {
                    proof {
                        lemma_check_program_fails(nv, i as int + 1, nodes.len() as int);
                    }
                    return Err(e);
                },
            }
            match validate_label(&nodes[i], &context) {
                Ok(_) => {},
                Err(e) => {
                    proof {
                        lemma_check_program_fails(nv, i as int + 1, nodes.len() as int);
                    }
                    return Err(e);
                },
            }
            i += 1;
        }
        Ok(())
    }

    open spec fn title(&self) -> Seq<char> {
        "validate_iden_pass"@
    }

    fn name(&self) -> (res: String) {
        String::from_str("validate_iden_pass")
    }
}

proof fn lemma_check_program_fails(nodes: Seq<Node>, upto: int, all: int)
    requires
        0 <= upto <= all,
        check_program(nodes, upto) is Some,
    ensures
        check_program(nodes, all) == check_program(nodes, upto),
    decreases all - upto,
{
    if upto < all {
        lemma_check_program_fails(nodes, upto, all - 1);
    }
}

} // verus!
