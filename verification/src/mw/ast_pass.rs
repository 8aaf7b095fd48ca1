use vstd::prelude::*;
use crate::fe::ast::{nodes_view, AstNode, Node};
use crate::mw::add_goto_pass::{labels_have_bodies, with_gotos, AddGotoPass};
use crate::mw::asm_validation_pass::{top_level_failure, AsmValidationPass};
use crate::mw::reduce_ast_pass::ReduceAstPass;
use crate::fe::token::{Failure, SyntaxError};
use crate::mw::validate_iden_pass::{check_program, ValidateIdenPass};

verus! {

/// A check or a transformation of a program as a list of nodes, in place.
pub trait AstPass {
    /// The programs that the pass takes.
    spec fn admits(&self, nodes: Seq<Node>) -> bool;

    /// What the pass makes of a program: the program after it, or what it
    /// found wrong with the program.
    spec fn outcome(&self, nodes: Seq<Node>) -> Result<Seq<Node>, Failure>;

    fn apply(&self, nodes: &mut Vec<AstNode>) -> (res: Result<(), SyntaxError>)
        requires
            self.admits(nodes_view(old(nodes)@)),
        ensures
            match res {
                Ok(_) => self.outcome(nodes_view(old(nodes)@)) == Ok::<Seq<Node>, Failure>(
                    nodes_view(final(nodes)@),
                ),
                Err(e) => self.outcome(nodes_view(old(nodes)@)) == Err::<Seq<Node>, Failure>(e@),
            },
    ;

    /// The name of the pass.
    spec fn title(&self) -> Seq<char>;

    fn name(&self) -> (res: String)
        ensures
            res@ == self.title(),
    ;
}


/// The passes over lists of nodes that the library offers.
#[derive(Clone, Copy, Debug)]
pub enum AstPassKind {
    AsmValidation(AsmValidationPass),
    ValidateIden(ValidateIdenPass),
    AddGoto(AddGotoPass),
    ReduceAst(ReduceAstPass),
}

impl AstPass for AstPassKind {
    open spec fn admits(&self, nodes: Seq<Node>) -> bool {
        match self {
            AstPassKind::AsmValidation(pass) => pass.admits(nodes),
            AstPassKind::ValidateIden(pass) => pass.admits(nodes),
            AstPassKind::AddGoto(pass) => pass.admits(nodes),
            AstPassKind::ReduceAst(pass) => pass.admits(nodes),
        }
    }

    open spec fn outcome(&self, nodes: Seq<Node>) -> Result<Seq<Node>, Failure> {
        match self {
            AstPassKind::AsmValidation(pass) => pass.outcome(nodes),
            AstPassKind::ValidateIden(pass) => pass.outcome(nodes),
            AstPassKind::AddGoto(pass) => pass.outcome(nodes),
            AstPassKind::ReduceAst(pass) => pass.outcome(nodes),
        }
    }

    fn apply(&self, nodes: &mut Vec<AstNode>) -> (res: Result<(), SyntaxError>) {
        match self {
            AstPassKind::AsmValidation(pass) => pass.apply(nodes),
            AstPassKind::ValidateIden(pass) => pass.apply(nodes),
            AstPassKind::AddGoto(pass) => pass.apply(nodes),
            AstPassKind::ReduceAst(pass) => pass.apply(nodes),
        }
    }

    open spec fn title(&self) -> Seq<char> {
        match self {
            AstPassKind::AsmValidation(pass) => pass.title(),
            AstPassKind::ValidateIden(pass) => pass.title(),
            AstPassKind::AddGoto(pass) => pass.title(),
            AstPassKind::ReduceAst(pass) => pass.title(),
        }
    }

    fn name(&self) -> (res: String) {
        match self {
            AstPassKind::AsmValidation(pass) => pass.name(),
            AstPassKind::ValidateIden(pass) => pass.name(),
            AstPassKind::AddGoto(pass) => pass.name(),
            AstPassKind::ReduceAst(pass) => pass.name(),
        }
    }
}

/// An ordered list of passes over lists of nodes.
#[derive(Debug)]
pub struct AstPassManager {
    pub passes: Vec<AstPassKind>,
}

/// What the passes from `from` on make of a program, applied in order: the
/// program after the last of them, or what the first pass that fails
/// found wrong.
pub open spec fn run_from(passes: Seq<AstPassKind>, from: int, nodes: Seq<Node>) -> Result<
    Seq<Node>,
    Failure,
>
    decreases passes.len() - from,
{
    if !(0 <= from < passes.len()) {
        Ok(nodes)
    } else {
        match passes[from].outcome(nodes) {
            Ok(next) => run_from(passes, from + 1, next),
            Err(failure) => Err(failure),
        }
    }
}

/// Whether each of the passes from `from` on takes the program that the
/// passes before it hand to it.
pub open spec fn admitted_from(passes: Seq<AstPassKind>, from: int, nodes: Seq<Node>) -> bool
    decreases passes.len() - from,
{
    if !(0 <= from < passes.len()) {
        true
    } else {
        passes[from].admits(nodes) && (match passes[from].outcome(nodes) {
            Ok(next) => admitted_from(passes, from + 1, next),
            Err(_) => true,
        })
    }
}

impl AstPassManager {
    /// A manager without passes.
    pub fn new() -> (res: Self)
        ensures
            res.passes@ == Seq::<AstPassKind>::empty(),
    {
        AstPassManager { passes: Vec::new() }
    }

    /// Registers a pass behind those registered before.
    pub fn add(&mut self, pass: AstPassKind)
        ensures
            final(self).passes@ == old(self).passes@.push(pass),
    {
        self.passes.push(pass);
    }

    /// Applies the registered passes to a program, in the order of their
    /// registration, up to the first that fails.
    pub fn run(&self, nodes: &mut Vec<AstNode>) -> (res: Result<(), SyntaxError>)
        requires
            admitted_from(self.passes@, 0, nodes_view(old(nodes)@)),
        ensures
            match res {
                Ok(_) => run_from(self.passes@, 0, nodes_view(old(nodes)@)) == Ok::<
                    Seq<Node>,
                    Failure,
                >(nodes_view(final(nodes)@)),
                Err(e) => run_from(self.passes@, 0, nodes_view(old(nodes)@)) == Err::<
                    Seq<Node>,
                    Failure,
                >(e@),
            },
    {
        let ghost start = nodes_view(nodes@);
        let mut i: usize = 0;
        while i < self.passes.len()
            invariant
                i <= self.passes.len(),
                start == nodes_view(old(nodes)@),
                admitted_from(self.passes@, i as int, nodes_view(nodes@)),
                run_from(self.passes@, 0, start) == run_from(
                    self.passes@,
                    i as int,
                    nodes_view(nodes@),
                ),
            decreases self.passes.len() - i,
        {
            match self.passes[i].apply(nodes) {
                Ok(_) => {},
                Err(e) => {
                    return Err(e);
                },
            }
            i += 1;
        }
        Ok(())
    }
}

/// What the default passes make of a program: the program with explicit
/// jumps into labels, where its top level, its identifiers and its labels
/// are in order; else what is wrong with the first of these.
pub open spec fn prepared(nodes: Seq<Node>) -> Result<Seq<Node>, Failure> {
    match top_level_failure(nodes) {
        Some(failure) => Err(failure),
        None => match check_program(nodes, nodes.len() as int) {
            Some(failure) => Err(failure),
            None => Ok(with_gotos(nodes)),
        },
    }
}

/// Runs the default passes on a program: the check of the top level, the
/// check of identifiers and labels, and the pass that makes jumps into
/// labels explicit.
pub fn run_default_ast_pass_manager(nodes: &mut Vec<AstNode>) -> (res: Result<(), SyntaxError>)
    requires
        labels_have_bodies(nodes_view(old(nodes)@), old(nodes).len() as int),
    ensures
        match res {
            Ok(_) => prepared(nodes_view(old(nodes)@)) == Ok::<Seq<Node>, Failure>(
                nodes_view(final(nodes)@),
            ),
            Err(e) => prepared(nodes_view(old(nodes)@)) == Err::<Seq<Node>, Failure>(e@),
        },
{
    let mut ast_pass_manager = AstPassManager::new();
    ast_pass_manager.add(AstPassKind::AsmValidation(AsmValidationPass));
    ast_pass_manager.add(AstPassKind::ValidateIden(ValidateIdenPass));
    ast_pass_manager.add(AstPassKind::AddGoto(AddGotoPass));
    proof {
        let passes = ast_pass_manager.passes@;
        let nv = nodes_view(nodes@);
        assert(passes =~= seq![
            AstPassKind::AsmValidation(AsmValidationPass),
            AstPassKind::ValidateIden(ValidateIdenPass),
            AstPassKind::AddGoto(AddGotoPass),
        ]);
        reveal_with_fuel(run_from, 4);
        reveal_with_fuel(admitted_from, 4);
        assert(run_from(passes, 0, nv) == prepared(nv));
        assert(admitted_from(passes, 0, nv));
    }
    ast_pass_manager.run(nodes)
}

} // verus!
