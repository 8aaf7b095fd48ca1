use vstd::prelude::*;
use crate::fe::ast::{
    lemma_view_children, loc_of, names_view, nodes_view, operand_list, ArithAstNode,
    AssignmentAstNode, AstNode, CallAstNode, IfAstNode, LabelAstNode, Node, RelOp, RelopAstNode,
    RetAstNode,
};
use crate::fe::loc::{Loc, LocView};
use crate::fe::render::arith_mnemonic;
use crate::text::{decimal, i32_to_string, signed_decimal, usize_to_string};
use crate::fe::token::{Failure, SyntaxError};
use crate::trn::transpiler::Transpiler;

verus! {

/// The translation into flat assembler text for Linux on x86-64. The lines
/// of `footer` close the text.
#[derive(Debug)]
pub struct FasmTranspiler {
    pub footer: Vec<String>,
}

/// What an instruction works on.
#[derive(Debug)]
pub enum Operand {
    Register(String),
    Memory(String),
    Immediate(i32),
}

/// What is known while a function is translated: the identifiers that have
/// a place on the stack, in the order of their places, whether the
/// function is the entry point, and its name.
#[derive(Debug)]
pub struct Context {
    pub slots: Vec<String>,
    pub value_operands_len: usize,
    pub entry_point: bool,
    pub function_name: String,
}

/// The mathematical content of a [`Context`].
pub struct Frame {
    pub slots: Seq<Seq<char>>,
    pub entry_point: bool,
    pub function_name: Seq<char>,
}

impl View for Context {
    type V = Frame;

    open spec fn view(&self) -> Frame {
        Frame {
            slots: names_view(self.slots@),
            entry_point: self.entry_point,
            function_name: self.function_name@,
        }
    }
}

impl Context {
    /// Every identifier has one place, and the size of the frame fits a
    /// 32-bit immediate.
    pub open spec fn well_formed(&self) -> bool {
        &&& names_view(self.slots@).no_duplicates()
        &&& self.value_operands_len == self.slots.len()
        &&& 4 * self.slots.len() <= i32::MAX
    }
}

/// The lines of a translation, or what cannot be translated.
pub type Lines = Result<Seq<Seq<char>>, Failure>;

/// The text of an operand.
pub open spec fn operand_text(operand: Operand) -> Seq<char> {
    match operand {
        Operand::Register(reg) => reg@,
        Operand::Memory(mem) => mem@,
        Operand::Immediate(val) => signed_decimal(val as int),
    }
}

/// An instruction with two operands.
pub open spec fn instruction(opcode: Seq<char>, to: Seq<char>, from: Seq<char>) -> Seq<char> {
    opcode + " "@ + to + ", "@ + from
}

/// The place on the stack with the index `index`.
pub open spec fn slot_text(index: int) -> Seq<char> {
    "[rsp+"@ + decimal((4 * index) as nat) + "]"@
}

/// The register that carries argument `ix` of a call.
pub open spec fn argument_register(ix: int) -> Seq<char> {
    if ix == 0 {
        "edi"@
    } else if ix == 1 {
        "esi"@
    } else if ix == 2 {
        "edx"@
    } else if ix == 3 {
        "ecx"@
    } else if ix == 4 {
        "r8d"@
    } else {
        "r9d"@
    }
}

pub open spec fn unknown_operand(loc: LocView, name: Seq<char>) -> Failure {
    Failure { loc, message: "unknown identifier '"@ + name + "'"@ }
}

pub open spec fn no_operand(loc: LocView) -> Failure {
    Failure { loc, message: "expected an identifier or a number as operand"@ }
}

pub open spec fn too_many(loc: LocView, what: Seq<char>) -> Failure {
    Failure { loc, message: "fasm target currently only supports '6' "@ + what + " at max"@ }
}

pub open spec fn frame_too_large(loc: LocView) -> Failure {
    Failure { loc, message: "the identifiers of the function do not fit its frame"@ }
}

pub open spec fn not_a_function(loc: LocView) -> Failure {
    Failure { loc, message: "only function nodes are allowed in top level scope"@ }
}

/// The place of an identifier on the stack.
pub open spec fn slot_of(frame: Frame, name: Seq<char>, loc: LocView) -> Result<Seq<char>, Failure> {
    if frame.slots.contains(name) {
        Ok(slot_text(frame.slots.index_of(name)))
    } else {
        Err(unknown_operand(loc, name))
    }
}

/// The text of a node as an operand: the place of an identifier, or a
/// number.
pub open spec fn operand_of(node: Node, frame: Frame) -> Result<Seq<char>, Failure> {
    match node {
        Node::Iden { name, loc } => slot_of(frame, name, loc),
        Node::Num { num, .. } => Ok(signed_decimal(num as int)),
        _ => Err(no_operand(loc_of(node))),
    }
}

/// The lines of `first` followed by the lines of `second`, or the first
/// error of the two.
pub open spec fn then(first: Lines, second: Lines) -> Lines {
    match first {
        Err(failure) => Err(failure),
        Ok(lines) => match second {
            Err(failure) => Err(failure),
            Ok(more) => Ok(lines + more),
        },
    }
}

/// One line: an instruction behind the padding, or the first error of its
/// operands.
pub open spec fn inst_line(
    pad: Seq<char>,
    opcode: Seq<char>,
    to: Result<Seq<char>, Failure>,
    from: Result<Seq<char>, Failure>,
) -> Lines {
    match to {
        Err(failure) => Err(failure),
        Ok(target) => match from {
            Err(failure) => Err(failure),
            Ok(source) => Ok(seq![pad + instruction(opcode, target, source)]),
        },
    }
}

/// A register as an operand.
pub open spec fn reg(name: Seq<char>) -> Result<Seq<char>, Failure> {
    Ok(name)
}

/// A number as an operand.
pub open spec fn imm(val: int) -> Result<Seq<char>, Failure> {
    Ok(signed_decimal(val))
}

/// The conditional move that takes the result of a comparison.
pub open spec fn conditional_move(op: RelOp) -> Seq<char> {
    match op {
        RelOp::Eq => "cmove"@,
        RelOp::Neq => "cmovne"@,
        RelOp::Gt => "cmovg"@,
        RelOp::Lt => "cmovl"@,
        RelOp::Ge => "cmovge"@,
        RelOp::Le => "cmovle"@,
    }
}

/// The name of a label in the assembly text.
pub open spec fn label_name(frame: Frame, name: Seq<char>) -> Seq<char> {
    frame.function_name + "_label_"@ + name
}

/// The lines that load the parameters of a call into the argument
/// registers, for the first `upto` parameters.
pub open spec fn parameter_moves(params: Seq<Node>, upto: int, pad: Seq<char>, frame: Frame) -> Lines
    decreases upto,
{
    if upto <= 0 {
        Ok(Seq::empty())
    } else {
        then(
            parameter_moves(params, upto - 1, pad, frame),
            inst_line(
                pad,
                "mov"@,
                reg(argument_register(upto - 1)),
                operand_of(params[upto - 1], frame),
            ),
        )
    }
}

/// The lines of a node behind the padding `pad`.
///
/// A value is computed into `r15d`. An assignment stores `r15d` in the
/// place of its target; a call loads its parameters into the argument
/// registers and stores `eax` in the place of its result; a label and its
/// jumps carry the name of the function; a return in the entry point ends
/// the process, elsewhere it returns. Allocations, loads and stores are
/// not translated.
pub open spec fn fasm_node(node: Node, pad: Seq<char>, frame: Frame) -> Lines
    decreases node,
{
    match node {
        Node::Iden { .. } => inst_line(pad, "mov"@, reg("r15d"@), operand_of(node, frame)),
        Node::Num { num, .. } => inst_line(pad, "mov"@, reg("r15d"@), imm(num as int)),
        Node::Arith { op, lhs, rhs, .. } => then(
            fasm_node(*lhs, pad, frame),
            inst_line(pad, arith_mnemonic(op), reg("r15d"@), operand_of(*rhs, frame)),
        ),
        Node::Relop { op, lhs, rhs, .. } => then(
            fasm_node(*lhs, pad, frame),
            then(
                inst_line(pad, "cmp"@, reg("r15d"@), operand_of(*rhs, frame)),
                then(
                    inst_line(pad, "mov"@, reg("r15d"@), imm(0)),
                    then(
                        inst_line(pad, "mov"@, reg("r14d"@), imm(1)),
                        inst_line(pad, conditional_move(op), reg("r15d"@), reg("r14d"@)),
                    ),
                ),
            ),
        ),
        Node::Unary { var, .. } => inst_line(pad, "neg"@, reg("r15d"@), operand_of(*var, frame)),
        Node::If { condition, label, .. } => then(
            fasm_node(*condition, pad, frame),
            then(
                inst_line(pad, "cmp"@, reg("r15d"@), imm(1)),
                Ok(seq![pad + "je "@ + label_name(frame, label)]),
            ),
        ),
        Node::Assignment { name, var, loc } => then(
            fasm_node(*var, pad, frame),
            inst_line(pad, "mov"@, slot_of(frame, name, loc), reg("r15d"@)),
        ),
        Node::Call { id, name, params, loc } => if params.len() > 6 {
            Err(too_many(loc, "parameters"@))
        } else {
            then(
                parameter_moves(params, params.len() as int, pad, frame),
                then(
                    Ok(seq![pad + "call "@ + name]),
                    inst_line(pad, "mov"@, slot_of(frame, id, loc), reg("eax"@)),
                ),
            )
        },
        Node::Label { name, body, .. } => then(
            Ok(seq![pad + label_name(frame, name) + ":"@]),
            fasm_nodes(body, pad + "    "@, frame),
        ),
        Node::Goto { name, .. } => Ok(seq![pad + "jmp "@ + label_name(frame, name)]),
        Node::Ret { var, .. } => if frame.entry_point {
            then(
                inst_line(pad, "mov"@, reg("eax"@), imm(60)),
                then(
                    inst_line(pad, "mov"@, reg("edi"@), operand_of(*var, frame)),
                    then(
                        inst_line(pad, "add"@, reg("rsp"@), imm(4 * frame.slots.len() as int)),
                        Ok(seq![pad + "syscall"@]),
                    ),
                ),
            )
        } else {
            then(
                inst_line(pad, "mov"@, reg("eax"@), operand_of(*var, frame)),
                then(
                    inst_line(pad, "add"@, reg("rsp"@), imm(4 * frame.slots.len() as int)),
                    Ok(seq![pad + "ret"@]),
                ),
            )
        },
        _ => Ok(Seq::empty()),
    }
}

/// The lines of the nodes of a list.
pub open spec fn fasm_nodes(nodes: Seq<Node>, pad: Seq<char>, frame: Frame) -> Lines
    decreases nodes,
{
    if nodes.len() == 0 {
        Ok(Seq::empty())
    } else {
        then(fasm_nodes(nodes.drop_last(), pad, frame), fasm_node(nodes.last(), pad, frame))
    }
}

/// The lines that store the arguments of a function from the argument
/// registers, for the first `upto` arguments.
pub open spec fn argument_moves(args: Seq<Node>, upto: int, pad: Seq<char>, frame: Frame) -> Lines
    decreases upto,
{
    if upto <= 0 {
        Ok(Seq::empty())
    } else {
        then(
            argument_moves(args, upto - 1, pad, frame),
            inst_line(
                pad,
                "mov"@,
                operand_of(args[upto - 1], frame),
                reg(argument_register(upto - 1)),
            ),
        )
    }
}

/// The frame of a function: a place for each of its operands, in the
/// order of their first occurrence.
pub open spec fn frame_of(function: Node) -> Frame
    recommends
        function is Function,
{
    Frame {
        slots: operand_list(function),
        entry_point: function->Function_name == "main"@,
        function_name: function->Function_name,
    }
}

/// The lines of a top-level node, which must be a function: its name, the
/// reservation of its frame, the stores of its arguments, and its body.
pub open spec fn fasm_function(node: Node, pad: Seq<char>) -> Lines {
    match node {
        Node::Function { name, args, body, loc } => {
            let frame = frame_of(node);
            if 4 * frame.slots.len() > i32::MAX {
                Err(frame_too_large(loc))
            } else if args.len() > 6 {
                Err(too_many(loc, "arguments"@))
            } else {
                then(
                    Ok(seq![pad + name + ":"@]),
                    then(
                        inst_line(pad + "    "@, "sub"@, reg("rsp"@), imm(4 * frame.slots.len() as int)),
                        then(
                            argument_moves(args, args.len() as int, pad + "    "@, frame),
                            fasm_nodes(body, pad + "    "@, frame),
                        ),
                    ),
                )
            }
        },
        _ => Err(not_a_function(loc_of(node))),
    }
}

/// The lines of the first `upto` top-level nodes.
pub open spec fn fasm_program(nodes: Seq<Node>, upto: int) -> Lines
    decreases upto,
{
    if upto <= 0 {
        Ok(Seq::empty())
    } else {
        then(fasm_program(nodes, upto - 1), fasm_function(nodes[upto - 1], Seq::empty()))
    }
}

/// The lines that open an assembly text.
pub open spec fn fasm_header() -> Seq<Seq<char>> {
    seq![
        "format ELF64 executable 3"@,
        "entry main"@,
        "segment gnustack"@,
        "segment executable"@,
    ]
}

/// The assembly text of a program: the opening lines, the lines of its
/// functions, and the closing lines.
pub open spec fn fasm_text(nodes: Seq<Node>, footer: Seq<Seq<char>>) -> Lines {
    then(Ok(fasm_header()), then(fasm_program(nodes, nodes.len() as int), Ok(footer)))
}


/// What an executable translation gave agrees with what the definition
/// gives: on success the lines stand behind those that were there.
pub open spec fn emitted(
    res: Result<(), SyntaxError>,
    before: Seq<Seq<char>>,
    after: Seq<Seq<char>>,
    want: Lines,
) -> bool {
    match res {
        Ok(_) => want is Ok && after == before + want->Ok_0,
        Err(e) => want == Err::<Seq<Seq<char>>, Failure>(e@),
    }
}

/// What an executable operand agrees with what the definition gives.
pub open spec fn operand_agrees(res: Result<Operand, SyntaxError>, want: Result<Seq<char>, Failure>) -> bool {
    match res {
        Ok(operand) => want == Ok::<Seq<char>, Failure>(operand_text(operand)),
        Err(e) => want == Err::<Seq<char>, Failure>(e@),
    }
}

impl Operand {
    /// The text of the operand.
    pub fn value(&self) -> (res: String)
        ensures
            res@ == operand_text(*self),
    {
        match self {
            Operand::Register(reg) => reg.clone(),
            Operand::Memory(mem) => mem.clone(),
            Operand::Immediate(val) => i32_to_string(*val),
        }
    }

    /// The register `name`.
    pub fn register(name: &str) -> (res: Operand)
        ensures
            operand_text(res) == name@,
    {
        Operand::Register(String::from_str(name))
    }
}

impl Context {
    /// The context of a function without identifiers.
    pub fn new() -> (res: Self)
        ensures
            res@.slots == Seq::<Seq<char>>::empty(),
            !res.entry_point,
            res.function_name@ == Seq::<char>::empty(),
            res.well_formed(),
    {
        let res = Context {
            slots: Vec::new(),
            value_operands_len: 0,
            entry_point: false,
            function_name: String::new(),
        };
        assert(names_view(res.slots@) =~= Seq::<Seq<char>>::empty());
        res
    }

    /// The place of an identifier on the stack.
    pub fn slot(&self, name: &String, loc: &Loc) -> (res: Result<Operand, SyntaxError>)
        requires
            self.well_formed(),
        ensures
            operand_agrees(res, slot_of(self@, name@, loc@)),
    {
        let ghost slots = names_view(self.slots@);
        let mut i: usize = 0;
        while i < self.slots.len()
            invariant
                i <= self.slots.len(),
                slots == names_view(self.slots@),
                slots.no_duplicates(),
                4 * self.slots.len() <= i32::MAX,
                forall|k: int| 0 <= k < i ==> slots[k] != name@,
            decreases self.slots.len() - i,
        {
            if self.slots[i] == *name {
                proof {
                    assert(slots[i as int] == name@);
                    let found = slots.index_of(name@);
                    assert(slots.contains(name@));
                    assert(found == i);
                }
                let mut text = String::from_str("[rsp+");
                text.append(usize_to_string(i * 4).as_str());
                text.append("]");
                return Ok(Operand::Memory(text));
            }
            i += 1;
        }
        proof {
            if slots.contains(name@) {
                let k = choose|k: int| 0 <= k < slots.len() && slots[k] == name@;
                assert(slots[k] != name@);
            }
        }
        let mut message = String::from_str("unknown identifier '");
        message.append(name.as_str());
        message.append("'");
        Err(SyntaxError { loc: loc.clone(), message })
    }
}

/// An instruction with two operands.
pub fn inst(opcode: &str, to: &Operand, from: &Operand) -> (res: String)
    ensures
        res@ == instruction(opcode@, operand_text(*to), operand_text(*from)),
{
    let mut res = String::from_str(opcode);
    res.append(" ");
    res.append(to.value().as_str());
    res.append(", ");
    res.append(from.value().as_str());
    res
}

/// The registers that carry the arguments of a call, in order.
pub fn call_convention() -> (res: Vec<String>)
    ensures
        res.len() == 6,
        forall|i: int| 0 <= i < 6 ==> (#[trigger] res@[i])@ == argument_register(i),
{
    let mut res: Vec<String> = Vec::new();
    res.push(String::from_str("edi"));
    res.push(String::from_str("esi"));
    res.push(String::from_str("edx"));
    res.push(String::from_str("ecx"));
    res.push(String::from_str("r8d"));
    res.push(String::from_str("r9d"));
    res
}

/// The operand that a node is: the place of an identifier, or a number.
pub fn ast_node_to_operand(node: &AstNode, context: &Context) -> (res: Result<
    Operand,
    SyntaxError,
>)
    requires
        context.well_formed(),
    ensures
        operand_agrees(res, operand_of(node@, context@)),
{
    match node {
        AstNode::Iden(iden_node) => context.slot(&iden_node.name, &iden_node.loc),
        AstNode::Num(num_node) => Ok(Operand::Immediate(num_node.num)),
        _ => Err(
            SyntaxError {
                loc: node.loc(),
                message: String::from_str("expected an identifier or a number as operand"),
            },
        ),
    }
}

/// Writes one instruction behind `out`.
fn emit(
    pad: &String,
    opcode: &str,
    to: Result<Operand, SyntaxError>,
    from: Result<Operand, SyntaxError>,
    out: &mut Vec<String>,
    Ghost(want_to): Ghost<Result<Seq<char>, Failure>>,
    Ghost(want_from): Ghost<Result<Seq<char>, Failure>>,
) -> (res: Result<(), SyntaxError>)
    requires
        operand_agrees(to, want_to),
        operand_agrees(from, want_from),
    ensures
        emitted(
            res,
            names_view(old(out)@),
            names_view(final(out)@),
            inst_line(pad@, opcode@, want_to, want_from),
        ),
{
    let target = match to {
        Ok(operand) => operand,
        Err(e) => {
            return Err(e);
        },
    };
    let source = match from {
        Ok(operand) => operand,
        Err(e) => {
            return Err(e);
        },
    };
    let mut line = pad.clone();
    line.append(inst(opcode, &target, &source).as_str());
    let ghost before = names_view(out@);
    out.push(line);
    assert(names_view(out@) =~= before + seq![line@]);
    Ok(())
}

/// Writes one line behind `out`.
fn emit_line(line: String, out: &mut Vec<String>)
    ensures
        names_view(final(out)@) == names_view(old(out)@) + seq![line@],
{
    let ghost before = names_view(out@);
    out.push(line);
    assert(names_view(out@) =~= before + seq![line@]);
}

proof fn lemma_then_ok(before: Seq<Seq<char>>, first: Lines, second: Lines)
    requires
        first is Ok,
        second is Ok,
    ensures
        then(first, second) is Ok,
        before + first->Ok_0 + second->Ok_0 == before + then(first, second)->Ok_0,
{
    assert(before + first->Ok_0 + second->Ok_0 =~= before + (first->Ok_0 + second->Ok_0));
}


/// The conditional move that takes the result of a comparison.
fn conditional_move_name(op: RelOp) -> (res: &'static str)
    ensures
        res@ == conditional_move(op),
{
    match op {
        RelOp::Eq => "cmove",
        RelOp::Neq => "cmovne",
        RelOp::Gt => "cmovg",
        RelOp::Lt => "cmovl",
        RelOp::Ge => "cmovge",
        RelOp::Le => "cmovle",
    }
}

/// The name of a label in the assembly text, behind `lead` and before
/// `tail`.
fn label_line(pad: &String, lead: &str, context: &Context, name: &String, tail: &str) -> (res:
    String)
    ensures
        res@ == pad@ + lead@ + label_name(context@, name@) + tail@,
{
    let mut line = pad.clone();
    line.append(lead);
    line.append(context.function_name.as_str());
    line.append("_label_");
    line.append(name.as_str());
    line.append(tail);
    assert(line@ =~= pad@ + lead@ + label_name(context@, name@) + tail@);
    line
}

/// Writes the lines of the nodes of a list behind `out`.
pub fn transpile_nodes(nodes: &Vec<AstNode>, pad: &String, context: &Context, out: &mut Vec<String>) -> (res:
    Result<(), SyntaxError>)
    requires
        context.well_formed(),
    ensures
        emitted(
            res,
            names_view(old(out)@),
            names_view(final(out)@),
            fasm_nodes(nodes_view(nodes@), pad@, context@),
        ),
    decreases nodes, 0nat,
{
    let ghost nv = nodes_view(nodes@);
    let ghost head = names_view(out@);
    let mut i: usize = 0;
    assert(nv.take(0) =~= Seq::<Node>::empty());
    assert(head + Seq::<Seq<char>>::empty() =~= head);
    while i < nodes.len()
        invariant
            i <= nodes.len(),
            nv == nodes_view(nodes@),
            head == names_view(old(out)@),
            context.well_formed(),
            fasm_nodes(nv.take(i as int), pad@, context@) is Ok,
            names_view(out@) == head + fasm_nodes(nv.take(i as int), pad@, context@)->Ok_0,
        decreases nodes.len() - i,
    {
        let ghost sofar = fasm_nodes(nv.take(i as int), pad@, context@);
        proof {
            vstd::std_specs::vec::axiom_vec_index_decreases(*nodes, i as int);
            assert(nv.take(i as int + 1).drop_last() =~= nv.take(i as int));
        }
        match transpile_node(&nodes[i], pad, context, out) {
            Ok(_) => {
                proof {
                    lemma_then_ok(head, sofar, fasm_node(nodes@[i as int]@, pad@, context@));
                }
            },
            Err(e) => {
                proof {
                    lemma_fasm_nodes_fails(nv, pad@, context@, i as int + 1);
                }
                return Err(e);
            },
        }
        i += 1;
    }
    assert(nv.take(nodes.len() as int) =~= nv);
    Ok(())
}

/// A list whose first nodes cannot be translated cannot be translated, for
/// the same reason.
proof fn lemma_fasm_nodes_fails(nodes: Seq<Node>, pad: Seq<char>, frame: Frame, upto: int)
    requires
        0 <= upto <= nodes.len(),
        fasm_nodes(nodes.take(upto), pad, frame) is Err,
    ensures
        fasm_nodes(nodes, pad, frame) == fasm_nodes(nodes.take(upto), pad, frame),
    decreases nodes.len() - upto,
{
    if upto < nodes.len() {
        assert(nodes.take(upto + 1).drop_last() =~= nodes.take(upto));
        lemma_fasm_nodes_fails(nodes, pad, frame, upto + 1);
    } else {
        assert(nodes.take(upto) =~= nodes);
    }
}

/// Writes the moves of the parameters of a call behind `out`.
fn transpile_params(params: &Vec<AstNode>, pad: &String, context: &Context, out: &mut Vec<String>) -> (res:
    Result<(), SyntaxError>)
    requires
        context.well_formed(),
        params.len() <= 6,
    ensures
        emitted(
            res,
            names_view(old(out)@),
            names_view(final(out)@),
            parameter_moves(nodes_view(params@), params.len() as int, pad@, context@),
        ),
{
    let ghost nv = nodes_view(params@);
    let ghost head = names_view(out@);
    let registers = call_convention();
    let mut ix: usize = 0;
    assert(head + Seq::<Seq<char>>::empty() =~= head);
    while ix < params.len()
        invariant
            ix <= params.len(),
            params.len() <= 6,
            registers.len() == 6,
            forall|i: int| 0 <= i < 6 ==> (#[trigger] registers@[i])@ == argument_register(i),
            nv == nodes_view(params@),
            head == names_view(old(out)@),
            context.well_formed(),
            parameter_moves(nv, ix as int, pad@, context@) is Ok,
            names_view(out@) == head + parameter_moves(nv, ix as int, pad@, context@)->Ok_0,
        decreases params.len() - ix,
    {
        let ghost sofar = parameter_moves(nv, ix as int, pad@, context@);
        let ghost want_from = operand_of(nv[ix as int], context@);
        let ghost want_to = reg(argument_register(ix as int));
        let to = Operand::Register(registers[ix].clone());
        match emit(
            pad,
            "mov",
            Ok(to),
            ast_node_to_operand(&params[ix], context),
            out,
            Ghost(want_to),
            Ghost(want_from),
        ) {
            Ok(_) => {
                proof {
                    lemma_then_ok(head, sofar, inst_line(pad@, "mov"@, want_to, want_from));
                }
            },
            Err(e) => {
                proof {
                    lemma_parameter_moves_fails(
                        nv,
                        ix as int + 1,
                        params.len() as int,
                        pad@,
                        context@,
                    );
                }
                return Err(e);
            },
        }
        ix += 1;
    }
    Ok(())
}

proof fn lemma_parameter_moves_fails(
    params: Seq<Node>,
    upto: int,
    all: int,
    pad: Seq<char>,
    frame: Frame,
)
    requires
        0 <= upto <= all,
        parameter_moves(params, upto, pad, frame) is Err,
    ensures
        parameter_moves(params, all, pad, frame) == parameter_moves(params, upto, pad, frame),
    decreases all - upto,
{
    if upto < all {
        lemma_parameter_moves_fails(params, upto, all - 1, pad, frame);
    }
}

/// Writes the lines of an arithmetic operation behind `out`.
fn transpile_arith(n: &ArithAstNode, pad: &String, context: &Context, out: &mut Vec<String>) -> (res: Result<
    (),
    SyntaxError,
>)
    requires
        context.well_formed(),
    ensures
        emitted(
            res,
            names_view(old(out)@),
            names_view(final(out)@),
            fasm_node(AstNode::Arith(*n)@, pad@, context@),
        ),
    decreases n, 0nat,
{
    let ghost head = names_view(out@);
    let ghost frame = context@;
    proof {
        lemma_view_children(AstNode::Arith(*n));
        assert(head + Seq::<Seq<char>>::empty() =~= head);
    }
    let ghost first = fasm_node((*n.lhs)@, pad@, frame);
    let ghost second = inst_line(
        pad@,
        arith_mnemonic(n.op),
        reg("r15d"@),
        operand_of((*n.rhs)@, frame),
    );
    transpile_node(&*n.lhs, pad, context, out)?;
    emit(
        pad,
        n.op.to_string().as_str(),
        Ok(Operand::register("r15d")),
        ast_node_to_operand(&*n.rhs, context),
        out,
        Ghost(reg("r15d"@)),
        Ghost(operand_of((*n.rhs)@, frame)),
    )?;
    proof {
        lemma_then_ok(head, first, second);
    }
    Ok(())
}

/// Writes the lines of a comparison behind `out`.
fn transpile_relop(n: &RelopAstNode, pad: &String, context: &Context, out: &mut Vec<String>) -> (res: Result<
    (),
    SyntaxError,
>)
    requires
        context.well_formed(),
    ensures
        emitted(
            res,
            names_view(old(out)@),
            names_view(final(out)@),
            fasm_node(AstNode::Relop(*n)@, pad@, context@),
        ),
    decreases n, 0nat,
{
    let ghost head = names_view(out@);
    let ghost frame = context@;
    proof {
        lemma_view_children(AstNode::Relop(*n));
        assert(head + Seq::<Seq<char>>::empty() =~= head);
    }
    let ghost l0 = fasm_node((*n.lhs)@, pad@, frame);
    let ghost l1 = inst_line(pad@, "cmp"@, reg("r15d"@), operand_of((*n.rhs)@, frame));
    let ghost l2 = inst_line(pad@, "mov"@, reg("r15d"@), imm(0));
    let ghost l3 = inst_line(pad@, "mov"@, reg("r14d"@), imm(1));
    let ghost l4 = inst_line(pad@, conditional_move(n.op), reg("r15d"@), reg("r14d"@));
    transpile_node(&*n.lhs, pad, context, out)?;
    emit(
        pad,
        "cmp",
        Ok(Operand::register("r15d")),
        ast_node_to_operand(&*n.rhs, context),
        out,
        Ghost(reg("r15d"@)),
        Ghost(operand_of((*n.rhs)@, frame)),
    )?;
    emit(
        pad,
        "mov",
        Ok(Operand::register("r15d")),
        Ok(Operand::Immediate(0)),
        out,
        Ghost(reg("r15d"@)),
        Ghost(imm(0)),
    )?;
    emit(
        pad,
        "mov",
        Ok(Operand::register("r14d")),
        Ok(Operand::Immediate(1)),
        out,
        Ghost(reg("r14d"@)),
        Ghost(imm(1)),
    )?;
    emit(
        pad,
        conditional_move_name(n.op),
        Ok(Operand::register("r15d")),
        Ok(Operand::register("r14d")),
        out,
        Ghost(reg("r15d"@)),
        Ghost(reg("r14d"@)),
    )?;
    proof {
        lemma_then_ok(head + l0->Ok_0 + l1->Ok_0 + l2->Ok_0, l3, l4);
        lemma_then_ok(head + l0->Ok_0 + l1->Ok_0, l2, then(l3, l4));
        lemma_then_ok(head + l0->Ok_0, l1, then(l2, then(l3, l4)));
        lemma_then_ok(head, l0, then(l1, then(l2, then(l3, l4))));
    }
    Ok(())
}

/// Writes the lines of a conditional jump behind `out`.
fn transpile_if(n: &IfAstNode, pad: &String, context: &Context, out: &mut Vec<String>) -> (res: Result<
    (),
    SyntaxError,
>)
    requires
        context.well_formed(),
    ensures
        emitted(
            res,
            names_view(old(out)@),
            names_view(final(out)@),
            fasm_node(AstNode::If(*n)@, pad@, context@),
        ),
    decreases n, 0nat,
{
    let ghost head = names_view(out@);
    let ghost frame = context@;
    proof {
        lemma_view_children(AstNode::If(*n));
        assert(head + Seq::<Seq<char>>::empty() =~= head);
    }
    let ghost l0 = fasm_node((*n.condition)@, pad@, frame);
    let ghost l1 = inst_line(pad@, "cmp"@, reg("r15d"@), imm(1));
    transpile_node(&*n.condition, pad, context, out)?;
    emit(
        pad,
        "cmp",
        Ok(Operand::register("r15d")),
        Ok(Operand::Immediate(1)),
        out,
        Ghost(reg("r15d"@)),
        Ghost(imm(1)),
    )?;
    let line = label_line(pad, "je ", context, &n.label, "");
    assert(line@ =~= pad@ + "je "@ + label_name(frame, n.label@)) by {
        reveal_strlit("");
    }
    emit_line(line, out);
    proof {
        let l2: Lines = Ok(seq![line@]);
        lemma_then_ok(head + l0->Ok_0, l1, l2);
        lemma_then_ok(head, l0, then(l1, l2));
    }
    Ok(())
}

/// Writes the lines of an assignment behind `out`.
fn transpile_assignment(n: &AssignmentAstNode, pad: &String, context: &Context, out: &mut Vec<String>) -> (res: Result<
    (),
    SyntaxError,
>)
    requires
        context.well_formed(),
    ensures
        emitted(
            res,
            names_view(old(out)@),
            names_view(final(out)@),
            fasm_node(AstNode::Assignment(*n)@, pad@, context@),
        ),
    decreases n, 0nat,
{
    let ghost head = names_view(out@);
    let ghost frame = context@;
    proof {
        lemma_view_children(AstNode::Assignment(*n));
        assert(head + Seq::<Seq<char>>::empty() =~= head);
    }
    let ghost l0 = fasm_node((*n.var)@, pad@, frame);
    let ghost want_to = slot_of(frame, n.name@, n.loc@);
    let ghost l1 = inst_line(pad@, "mov"@, want_to, reg("r15d"@));
    transpile_node(&*n.var, pad, context, out)?;
    emit(
        pad,
        "mov",
        context.slot(&n.name, &n.loc),
        Ok(Operand::register("r15d")),
        out,
        Ghost(want_to),
        Ghost(reg("r15d"@)),
    )?;
    proof {
        lemma_then_ok(head, l0, l1);
    }
    Ok(())
}

/// Writes the lines of a call behind `out`.
fn transpile_call(n: &CallAstNode, pad: &String, context: &Context, out: &mut Vec<String>) -> (res: Result<
    (),
    SyntaxError,
>)
    requires
        context.well_formed(),
    ensures
        emitted(
            res,
            names_view(old(out)@),
            names_view(final(out)@),
            fasm_node(AstNode::Call(*n)@, pad@, context@),
        ),
    decreases n, 0nat,
{
    let ghost head = names_view(out@);
    let ghost frame = context@;
    proof {
        lemma_view_children(AstNode::Call(*n));
        assert(head + Seq::<Seq<char>>::empty() =~= head);
    }
    if n.params.len() > 6 {
        let mut message = String::from_str("fasm target currently only supports '6' ");
        message.append("parameters");
        message.append(" at max");
        return Err(SyntaxError { loc: n.loc.clone(), message });
    }
    let ghost l0 = parameter_moves(nodes_view(n.params@), n.params.len() as int, pad@, frame);
    let ghost want_to = slot_of(frame, n.id@, n.loc@);
    let ghost l2 = inst_line(pad@, "mov"@, want_to, reg("eax"@));
    transpile_params(&n.params, pad, context, out)?;
    let mut line = pad.clone();
    line.append("call ");
    line.append(n.name.as_str());
    emit_line(line, out);
    emit(
        pad,
        "mov",
        context.slot(&n.id, &n.loc),
        Ok(Operand::register("eax")),
        out,
        Ghost(want_to),
        Ghost(reg("eax"@)),
    )?;
    proof {
        let l1: Lines = Ok(seq![line@]);
        lemma_then_ok(head + l0->Ok_0, l1, l2);
        lemma_then_ok(head, l0, then(l1, l2));
    }
    Ok(())
}

/// Writes the lines of a label behind `out`.
fn transpile_label(n: &LabelAstNode, pad: &String, context: &Context, out: &mut Vec<String>) -> (res: Result<
    (),
    SyntaxError,
>)
    requires
        context.well_formed(),
    ensures
        emitted(
            res,
            names_view(old(out)@),
            names_view(final(out)@),
            fasm_node(AstNode::Label(*n)@, pad@, context@),
        ),
    decreases n, 0nat,
{
    let ghost head = names_view(out@);
    let ghost frame = context@;
    proof {
        lemma_view_children(AstNode::Label(*n));
        assert(head + Seq::<Seq<char>>::empty() =~= head);
    }
    let line = label_line(pad, "", context, &n.name, ":");
    assert(line@ =~= pad@ + label_name(frame, n.name@) + ":"@) by {
        reveal_strlit("");
        assert(pad@ + ""@ =~= pad@);
    }
    emit_line(line, out);
    let mut deeper = pad.clone();
    deeper.append("    ");
    let ghost l1 = fasm_nodes(nodes_view(n.body@), deeper@, frame);
    transpile_nodes(&n.body, &deeper, context, out)?;
    proof {
        let l0: Lines = Ok(seq![line@]);
        lemma_then_ok(head, l0, l1);
    }
    Ok(())
}

/// Writes the lines of a return behind `out`.
fn transpile_ret(n: &RetAstNode, pad: &String, context: &Context, out: &mut Vec<String>) -> (res: Result<
    (),
    SyntaxError,
>)
    requires
        context.well_formed(),
    ensures
        emitted(
            res,
            names_view(old(out)@),
            names_view(final(out)@),
            fasm_node(AstNode::Ret(*n)@, pad@, context@),
        ),
    decreases n, 0nat,
{
    let ghost head = names_view(out@);
    let ghost frame = context@;
    proof {
        lemma_view_children(AstNode::Ret(*n));
        assert(head + Seq::<Seq<char>>::empty() =~= head);
    }
    let ghost want = operand_of((*n.var)@, frame);
    let ghost size = imm(4 * frame.slots.len() as int);
    let frame_size: i32 = (context.value_operands_len * 4) as i32;
    if context.entry_point {
        let ghost l0 = inst_line(pad@, "mov"@, reg("eax"@), imm(60));
        let ghost l1 = inst_line(pad@, "mov"@, reg("edi"@), want);
        let ghost l2 = inst_line(pad@, "add"@, reg("rsp"@), size);
        emit(
            pad,
            "mov",
            Ok(Operand::register("eax")),
            Ok(Operand::Immediate(60)),
            out,
            Ghost(reg("eax"@)),
            Ghost(imm(60)),
        )?;
        emit(
            pad,
            "mov",
            Ok(Operand::register("edi")),
            ast_node_to_operand(&*n.var, context),
            out,
            Ghost(reg("edi"@)),
            Ghost(want),
        )?;
        emit(
            pad,
            "add",
            Ok(Operand::register("rsp")),
            Ok(Operand::Immediate(frame_size)),
            out,
            Ghost(reg("rsp"@)),
            Ghost(size),
        )?;
        let mut line = pad.clone();
        line.append("syscall");
        emit_line(line, out);
        proof {
            let l3: Lines = Ok(seq![line@]);
            lemma_then_ok(head + l0->Ok_0 + l1->Ok_0, l2, l3);
            lemma_then_ok(head + l0->Ok_0, l1, then(l2, l3));
            lemma_then_ok(head, l0, then(l1, then(l2, l3)));
        }
        Ok(())
    } else {
        let ghost l0 = inst_line(pad@, "mov"@, reg("eax"@), want);
        let ghost l1 = inst_line(pad@, "add"@, reg("rsp"@), size);
        emit(
            pad,
            "mov",
            Ok(Operand::register("eax")),
            ast_node_to_operand(&*n.var, context),
            out,
            Ghost(reg("eax"@)),
            Ghost(want),
        )?;
        emit(
            pad,
            "add",
            Ok(Operand::register("rsp")),
            Ok(Operand::Immediate(frame_size)),
            out,
            Ghost(reg("rsp"@)),
            Ghost(size),
        )?;
        let mut line = pad.clone();
        line.append("ret");
        emit_line(line, out);
        proof {
            let l2: Lines = Ok(seq![line@]);
            lemma_then_ok(head + l0->Ok_0, l1, l2);
            lemma_then_ok(head, l0, then(l1, l2));
        }
        Ok(())
    }
}

/// Writes the lines of a node behind `out`.
pub fn transpile_node(node: &AstNode, pad: &String, context: &Context, out: &mut Vec<String>) -> (res:
    Result<(), SyntaxError>)
    requires
        context.well_formed(),
    ensures
        emitted(
            res,
            names_view(old(out)@),
            names_view(final(out)@),
            fasm_node(node@, pad@, context@),
        ),
    decreases node, 1nat,
{
    let ghost head = names_view(out@);
    let ghost frame = context@;
    proof {
        assert(head + Seq::<Seq<char>>::empty() =~= head);
    }
    match node {
        AstNode::Iden(_) => emit(
            pad,
            "mov",
            Ok(Operand::register("r15d")),
            ast_node_to_operand(node, context),
            out,
            Ghost(reg("r15d"@)),
            Ghost(operand_of(node@, frame)),
        ),
        AstNode::Num(num_node) => emit(
            pad,
            "mov",
            Ok(Operand::register("r15d")),
            Ok(Operand::Immediate(num_node.num)),
            out,
            Ghost(reg("r15d"@)),
            Ghost(imm(num_node.num as int)),
        ),
        AstNode::Arith(arith_node) => transpile_arith(arith_node, pad, context, out),
        AstNode::Relop(relop_node) => transpile_relop(relop_node, pad, context, out),
        AstNode::Unary(unary_node) => emit(
            pad,
            "neg",
            Ok(Operand::register("r15d")),
            ast_node_to_operand(&*unary_node.var, context),
            out,
            Ghost(reg("r15d"@)),
            Ghost(operand_of((*unary_node.var)@, frame)),
        ),
        AstNode::If(if_node) => transpile_if(if_node, pad, context, out),
        AstNode::Assignment(assignment_node) => transpile_assignment(
            assignment_node,
            pad,
            context,
            out,
        ),
        AstNode::Call(call_node) => transpile_call(call_node, pad, context, out),
        AstNode::Label(label_node) => transpile_label(label_node, pad, context, out),
        AstNode::Goto(goto_node) => {
            let line = label_line(pad, "jmp ", context, &goto_node.name, "");
            assert(line@ =~= pad@ + "jmp "@ + label_name(frame, goto_node.name@)) by {
                reveal_strlit("");
            }
            emit_line(line, out);
            Ok(())
        },
        AstNode::Ret(ret_node) => transpile_ret(ret_node, pad, context, out),
        _ => Ok(()),
    }
}


/// Writes the stores of the arguments of a function behind `out`.
fn transpile_args(args: &Vec<AstNode>, pad: &String, context: &Context, out: &mut Vec<String>) -> (res:
    Result<(), SyntaxError>)
    requires
        context.well_formed(),
        args.len() <= 6,
    ensures
        emitted(
            res,
            names_view(old(out)@),
            names_view(final(out)@),
            argument_moves(nodes_view(args@), args.len() as int, pad@, context@),
        ),
{
    let ghost nv = nodes_view(args@);
    let ghost head = names_view(out@);
    let registers = call_convention();
    let mut ix: usize = 0;
    assert(head + Seq::<Seq<char>>::empty() =~= head);
    while ix < args.len()
        invariant
            ix <= args.len(),
            args.len() <= 6,
            registers.len() == 6,
            forall|i: int| 0 <= i < 6 ==> (#[trigger] registers@[i])@ == argument_register(i),
            nv == nodes_view(args@),
            head == names_view(old(out)@),
            context.well_formed(),
            argument_moves(nv, ix as int, pad@, context@) is Ok,
            names_view(out@) == head + argument_moves(nv, ix as int, pad@, context@)->Ok_0,
        decreases args.len() - ix,
    {
        let ghost sofar = argument_moves(nv, ix as int, pad@, context@);
        let ghost want_to = operand_of(nv[ix as int], context@);
        let ghost want_from = reg(argument_register(ix as int));
        let from = Operand::Register(registers[ix].clone());
        match emit(
            pad,
            "mov",
            ast_node_to_operand(&args[ix], context),
            Ok(from),
            out,
            Ghost(want_to),
            Ghost(want_from),
        ) {
            Ok(_) => {
                proof {
                    lemma_then_ok(head, sofar, inst_line(pad@, "mov"@, want_to, want_from));
                }
            },
            Err(e) => {
                proof {
                    lemma_argument_moves_fails(nv, ix as int + 1, args.len() as int, pad@, context@);
                }
                return Err(e);
            },
        }
        ix += 1;
    }
    Ok(())
}

proof fn lemma_argument_moves_fails(args: Seq<Node>, upto: int, all: int, pad: Seq<char>, frame: Frame)
    requires
        0 <= upto <= all,
        argument_moves(args, upto, pad, frame) is Err,
    ensures
        argument_moves(args, all, pad, frame) == argument_moves(args, upto, pad, frame),
    decreases all - upto,
{
    if upto < all {
        lemma_argument_moves_fails(args, upto, all - 1, pad, frame);
    }
}

/// Writes the lines of a top-level node, which must be a function, behind
/// `out`.
pub fn transpile_function(node: &AstNode, pad: &String, out: &mut Vec<String>) -> (res: Result<
    (),
    SyntaxError,
>)
    ensures
        emitted(res, names_view(old(out)@), names_view(final(out)@), fasm_function(node@, pad@)),
{
    let ghost head = names_view(out@);
    let function_node = match node {
        AstNode::Function(function_node) => function_node,
        _ => {
            return Err(
                SyntaxError {
                    loc: node.loc(),
                    message: String::from_str("only function nodes are allowed in top level scope"),
                },
            );
        },
    };
    proof {
        lemma_view_children(*node);
    }
    let slots = node.value_operands();
    if slots.len() > 0x1fff_ffff {
        return Err(
            SyntaxError {
                loc: function_node.loc.clone(),
                message: String::from_str("the identifiers of the function do not fit its frame"),
            },
        );
    }
    if function_node.args.len() > 6 {
        let mut message = String::from_str("fasm target currently only supports '6' ");
        message.append("arguments");
        message.append(" at max");
        return Err(SyntaxError { loc: function_node.loc.clone(), message });
    }
    let value_operands_len = slots.len();
    let context = Context {
        slots,
        value_operands_len,
        entry_point: function_node.name == String::from_str("main"),
        function_name: function_node.name.clone(),
    };
    let ghost frame = context@;
    assert(frame == frame_of(node@));
    let mut line = pad.clone();
    line.append(function_node.name.as_str());
    line.append(":");
    emit_line(line, out);
    let mut deeper = pad.clone();
    deeper.append("    ");
    let ghost size = imm(4 * frame.slots.len() as int);
    let ghost l0: Lines = Ok(seq![line@]);
    let ghost l1 = inst_line(deeper@, "sub"@, reg("rsp"@), size);
    let ghost l2 = argument_moves(
        nodes_view(function_node.args@),
        function_node.args.len() as int,
        deeper@,
        frame,
    );
    let ghost l3 = fasm_nodes(nodes_view(function_node.body@), deeper@, frame);
    emit(
        &deeper,
        "sub",
        Ok(Operand::register("rsp")),
        Ok(Operand::Immediate((value_operands_len * 4) as i32)),
        out,
        Ghost(reg("rsp"@)),
        Ghost(size),
    )?;
    transpile_args(&function_node.args, &deeper, &context, out)?;
    transpile_nodes(&function_node.body, &deeper, &context, out)?;
    proof {
        lemma_then_ok(head + l0->Ok_0 + l1->Ok_0, l2, l3);
        lemma_then_ok(head + l0->Ok_0, l1, then(l2, l3));
        lemma_then_ok(head, l0, then(l1, then(l2, l3)));
    }
    Ok(())
}

/// Writes the lines of the top-level nodes of a program behind `out`.
pub fn top_level_transpilation(nodes: &Vec<AstNode>, out: &mut Vec<String>) -> (res: Result<
    (),
    SyntaxError,
>)
    ensures
        emitted(
            res,
            names_view(old(out)@),
            names_view(final(out)@),
            fasm_program(nodes_view(nodes@), nodes.len() as int),
        ),
{
    let ghost nv = nodes_view(nodes@);
    let ghost head = names_view(out@);
    let pad = String::new();
    let mut i: usize = 0;
    assert(head + Seq::<Seq<char>>::empty() =~= head);
    while i < nodes.len()
        invariant
            i <= nodes.len(),
            nv == nodes_view(nodes@),
            head == names_view(old(out)@),
            pad@ == Seq::<char>::empty(),
            fasm_program(nv, i as int) is Ok,
            names_view(out@) == head + fasm_program(nv, i as int)->Ok_0,
        decreases nodes.len() - i,
    {
        let ghost sofar = fasm_program(nv, i as int);
        match transpile_function(&nodes[i], &pad, out) {
            Ok(_) => {
                proof {
                    lemma_then_ok(head, sofar, fasm_function(nv[i as int], pad@));
                }
            },
            Err(e) => {
                proof {
                    lemma_fasm_program_fails(nv, i as int + 1, nodes.len() as int);
                }
                return Err(e);
            },
        }
        i += 1;
    }
    Ok(())
}

proof fn lemma_fasm_program_fails(nodes: Seq<Node>, upto: int, all: int)
    requires
        0 <= upto <= all,
        fasm_program(nodes, upto) is Err,
    ensures
        fasm_program(nodes, all) == fasm_program(nodes, upto),
    decreases all - upto,
{
    if upto < all {
        lemma_fasm_program_fails(nodes, upto, all - 1);
    }
}

/// The lines that open an assembly text.
pub fn header() -> (res: Vec<String>)
    ensures
        names_view(res@) == fasm_header(),
{
    let mut res: Vec<String> = Vec::new();
    res.push(String::from_str("format ELF64 executable 3"));
    res.push(String::from_str("entry main"));
    res.push(String::from_str("segment gnustack"));
    res.push(String::from_str("segment executable"));
    assert(names_view(res@) =~= fasm_header());
    res
}

impl Transpiler for FasmTranspiler {
    open spec fn lines_for(&self, nodes: Seq<Node>) -> Result<Seq<Seq<char>>, Failure> {
        fasm_text(nodes, names_view(self.footer@))
    }

    fn transpile(&self, nodes: &Vec<AstNode>) -> (res: Result<Vec<String>, SyntaxError>) {
        let mut lines = header();
        let ghost l0: Lines = Ok(fasm_header());
        let ghost l1 = fasm_program(nodes_view(nodes@), nodes.len() as int);
        let ghost l2: Lines = Ok(names_view(self.footer@));
        match top_level_transpilation(nodes, &mut lines) {
            Ok(_) => {},
            Err(e) => {
                return Err(e);
            },
        }
        let mut footer = crate::fe::ast::clone_names(&self.footer);
        let ghost before = lines@;
        let ghost added = footer@;
        lines.append(&mut footer);
        proof {
            assert(names_view(before + added) =~= names_view(before) + names_view(added));
            assert(fasm_header() + l1->Ok_0 + l2->Ok_0 =~= fasm_header() + (l1->Ok_0 + l2->Ok_0));
        }
        Ok(lines)
    }
}

} // verus!
