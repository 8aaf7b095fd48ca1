use vstd::prelude::*;
use crate::fe::ast::{ArithOp, Node, RelOp, UnaryOp};
use crate::text::{decimal, signed_decimal};
use crate::fe::token::{kind_tag, kind_text, unexpected, Failure, Token, TokenKind};

verus! {

/// What a parser gives: a value and the index of the next token, or an
/// error.
pub type Parsed<T> = Result<(T, int), Failure>;

/// How tightly a keyword encloses what follows it. A list of instructions
/// ends before a token that encloses as tightly as the list itself.
#[derive(Clone, Copy, Debug, PartialEq, Eq, Structural)]
pub enum Precedence {
    Default,
    Label,
    Function,
    Start,
}

pub open spec fn prec_rank(prec: Precedence) -> int {
    match prec {
        Precedence::Default => 0,
        Precedence::Label => 10,
        Precedence::Function => 20,
        Precedence::Start => 100,
    }
}

pub open spec fn token_rank(kind: TokenKind) -> int {
    match kind {
        TokenKind::Function => 20,
        TokenKind::Label => 10,
        _ => 0,
    }
}

/// A list of tokens that ends in the end-of-file token.
pub open spec fn ends_in_eof(tokens: Seq<Token>) -> bool {
    tokens.len() > 0 && tokens.last().kind is Eof
}

/// The number of tokens from token `ix` on.
pub open spec fn left(tokens: Seq<Token>, ix: int) -> nat {
    if 0 <= ix < tokens.len() {
        (tokens.len() - ix) as nat
    } else {
        0
    }
}

/// The first of two errors, if there is one.
pub open spec fn first(a: Option<Failure>, b: Option<Failure>) -> Option<Failure> {
    if a is Some {
        a
    } else {
        b
    }
}

/// The error of token `ix` where a token of the kind `kind` is due.
pub open spec fn expect(tokens: Seq<Token>, ix: int, kind: TokenKind) -> Option<Failure> {
    if kind_tag(tokens[ix].kind) == kind_tag(kind) {
        None
    } else {
        Some(unexpected(tokens[ix], seq![kind_text(kind)]))
    }
}

/// The error of token `ix` where an identifier is due.
pub open spec fn expect_iden(tokens: Seq<Token>, ix: int) -> Option<Failure> {
    if tokens[ix].kind is Iden {
        None
    } else {
        Some(unexpected(tokens[ix], seq!["iden"@]))
    }
}

/// The error of token `ix` where a number is due.
pub open spec fn expect_num(tokens: Seq<Token>, ix: int) -> Option<Failure> {
    if tokens[ix].kind is Num {
        None
    } else {
        Some(unexpected(tokens[ix], seq!["num"@]))
    }
}

/// The error of token `ix` where an identifier or a number is due.
pub open spec fn expect_operand(tokens: Seq<Token>, ix: int) -> Option<Failure> {
    if tokens[ix].kind is Iden || tokens[ix].kind is Num {
        None
    } else {
        Some(unexpected(tokens[ix], seq!["iden"@, "num"@]))
    }
}

/// The error of token `ix` where the sign of a relation is due.
pub open spec fn expect_relop(tokens: Seq<Token>, ix: int) -> Option<Failure> {
    if relop_of(tokens[ix].kind) is Some {
        None
    } else {
        Some(unexpected(tokens[ix], seq!["=="@, "!="@, ">"@, "<"@, ">="@, "<="@]))
    }
}

/// The name that the identifier token `ix` holds.
pub open spec fn iden_at(tokens: Seq<Token>, ix: int) -> Seq<char> {
    match tokens[ix].kind {
        TokenKind::Iden(name) => name@,
        _ => Seq::empty(),
    }
}

/// The number that the number token `ix` holds.
pub open spec fn num_at(tokens: Seq<Token>, ix: int) -> i32 {
    match tokens[ix].kind {
        TokenKind::Num(num) => num,
        _ => 0,
    }
}

/// The operand that token `ix` is.
pub open spec fn operand_at(tokens: Seq<Token>, ix: int) -> Node {
    match tokens[ix].kind {
        TokenKind::Num(num) => Node::Num { num, loc: tokens[ix].loc@ },
        _ => Node::Iden { name: iden_at(tokens, ix), loc: tokens[ix].loc@ },
    }
}

/// The arithmetic operation that a kind of token is the sign of.
pub open spec fn arith_of(kind: TokenKind) -> Option<ArithOp> {
    match kind {
        TokenKind::Plus => Some(ArithOp::Sum),
        TokenKind::Minus => Some(ArithOp::Sub),
        TokenKind::Mul => Some(ArithOp::Mul),
        TokenKind::Div => Some(ArithOp::Div),
        _ => None,
    }
}

/// The relation that a kind of token is the sign of.
pub open spec fn relop_of(kind: TokenKind) -> Option<RelOp> {
    match kind {
        TokenKind::Eq => Some(RelOp::Eq),
        TokenKind::Neq => Some(RelOp::Neq),
        TokenKind::Gt => Some(RelOp::Gt),
        TokenKind::Lt => Some(RelOp::Lt),
        TokenKind::Ge => Some(RelOp::Ge),
        TokenKind::Le => Some(RelOp::Le),
        _ => None,
    }
}

/// The unary operation that a kind of token is the sign of.
pub open spec fn unary_of(kind: TokenKind) -> Option<UnaryOp> {
    match kind {
        TokenKind::Minus => Some(UnaryOp::Neg),
        _ => None,
    }
}

/// The error for a call that announces `found` parameters where `due` are
/// given.
pub open spec fn wrong_param_count(tokens: Seq<Token>, ix: int, due: nat, found: i32) -> Failure {
    Failure {
        loc: tokens[ix].loc@,
        message: "expected param count to be '"@ + decimal(due) + "'; but found '"@
            + signed_decimal(found as int) + "'"@,
    }
}

/// `goto NAME` and the end of the line.
pub open spec fn parse_goto(tokens: Seq<Token>, ix: int) -> Parsed<Node> {
    match first(
        expect(tokens, ix, TokenKind::Goto),
        first(expect_iden(tokens, ix + 1), expect(tokens, ix + 2, TokenKind::Eol)),
    ) {
        Some(failure) => Err(failure),
        None => Ok((Node::Goto { name: iden_at(tokens, ix + 1), loc: tokens[ix].loc@ }, ix + 3)),
    }
}

/// `ret OPERAND` and the end of the line.
pub open spec fn parse_ret(tokens: Seq<Token>, ix: int) -> Parsed<Node> {
    match first(
        expect(tokens, ix, TokenKind::Ret),
        first(expect_operand(tokens, ix + 1), expect(tokens, ix + 2, TokenKind::Eol)),
    ) {
        Some(failure) => Err(failure),
        None => Ok(
            (Node::Ret { var: Box::new(operand_at(tokens, ix + 1)), loc: tokens[ix].loc@ }, ix + 3),
        ),
    }
}

/// `if (OPERAND RELATION OPERAND) goto NAME` and the end of the line.
pub open spec fn parse_if(tokens: Seq<Token>, ix: int) -> Parsed<Node> {
    match first(
        expect(tokens, ix, TokenKind::If),
        first(
            expect(tokens, ix + 1, TokenKind::LParen),
            first(
                expect_operand(tokens, ix + 2),
                first(
                    expect_relop(tokens, ix + 3),
                    first(
                        expect_operand(tokens, ix + 4),
                        first(
                            expect(tokens, ix + 5, TokenKind::RParen),
                            first(
                                expect(tokens, ix + 6, TokenKind::Goto),
                                first(
                                    expect_iden(tokens, ix + 7),
                                    expect(tokens, ix + 8, TokenKind::Eol),
                                ),
                            ),
                        ),
                    ),
                ),
            ),
        ),
    ) {
        Some(failure) => Err(failure),
        None => Ok(
            (
                Node::If {
                    condition: Box::new(
                        Node::Relop {
                            op: relop_of(tokens[ix + 3].kind).unwrap(),
                            lhs: Box::new(operand_at(tokens, ix + 2)),
                            rhs: Box::new(operand_at(tokens, ix + 4)),
                            loc: tokens[ix + 2].loc@,
                        },
                    ),
                    label: iden_at(tokens, ix + 7),
                    loc: tokens[ix].loc@,
                },
                ix + 9,
            ),
        ),
    }
}

/// The assignment of `var` to the identifier that token `ix` holds.
pub open spec fn assignment_at(tokens: Seq<Token>, ix: int, var: Node) -> Node {
    Node::Assignment { name: iden_at(tokens, ix), var: Box::new(var), loc: tokens[ix].loc@ }
}

/// `NAME = ` followed by a negated operand, a call without parameters, an
/// allocation, a load, an operation on two operands or one operand, and the
/// end of the line.
pub open spec fn parse_assignment(tokens: Seq<Token>, ix: int) -> Parsed<Node> {
    let var_loc = tokens[ix + 2].loc@;
    match first(expect_iden(tokens, ix), expect(tokens, ix + 1, TokenKind::Equal)) {
        Some(failure) => Err(failure),
        None => match tokens[ix + 2].kind {
            TokenKind::Minus => match first(
                expect_operand(tokens, ix + 3),
                expect(tokens, ix + 4, TokenKind::Eol),
            ) {
                Some(failure) => Err(failure),
                None => Ok(
                    (
                        assignment_at(
                            tokens,
                            ix,
                            Node::Unary {
                                op: UnaryOp::Neg,
                                var: Box::new(operand_at(tokens, ix + 3)),
                                loc: var_loc,
                            },
                        ),
                        ix + 5,
                    ),
                ),
            },
            TokenKind::Call => match first(
                expect_iden(tokens, ix + 3),
                first(
                    expect(tokens, ix + 4, TokenKind::Comma),
                    first(
                        expect_num(tokens, ix + 5),
                        first(
                            if num_at(tokens, ix + 5) != 0 {
                                Some(wrong_param_count(tokens, ix + 5, 0, num_at(tokens, ix + 5)))
                            } else {
                                None
                            },
                            expect(tokens, ix + 6, TokenKind::Eol),
                        ),
                    ),
                ),
            ) {
                Some(failure) => Err(failure),
                None => Ok(
                    (
                        Node::Call {
                            id: iden_at(tokens, ix),
                            name: iden_at(tokens, ix + 3),
                            params: Seq::empty(),
                            loc: tokens[ix].loc@,
                        },
                        ix + 7,
                    ),
                ),
            },
            TokenKind::Alloc => match first(
                expect_operand(tokens, ix + 3),
                expect(tokens, ix + 4, TokenKind::Eol),
            ) {
                Some(failure) => Err(failure),
                None => Ok(
                    (
                        assignment_at(
                            tokens,
                            ix,
                            Node::Alloc { size: Box::new(operand_at(tokens, ix + 3)), loc: var_loc },
                        ),
                        ix + 5,
                    ),
                ),
            },
            TokenKind::Load => match first(
                expect_iden(tokens, ix + 3),
                expect(tokens, ix + 4, TokenKind::Eol),
            ) {
                Some(failure) => Err(failure),
                None => Ok(
                    (
                        assignment_at(
                            tokens,
                            ix,
                            Node::Load { ptr: iden_at(tokens, ix + 3), loc: var_loc },
                        ),
                        ix + 5,
                    ),
                ),
            },
            _ => match expect_operand(tokens, ix + 2) {
                Some(failure) => Err(failure),
                None => if arith_of(tokens[ix + 3].kind) is Some {
                    match first(
                        expect_operand(tokens, ix + 4),
                        expect(tokens, ix + 5, TokenKind::Eol),
                    ) {
                        Some(failure) => Err(failure),
                        None => Ok(
                            (
                                assignment_at(
                                    tokens,
                                    ix,
                                    Node::Arith {
                                        op: arith_of(tokens[ix + 3].kind).unwrap(),
                                        lhs: Box::new(operand_at(tokens, ix + 2)),
                                        rhs: Box::new(operand_at(tokens, ix + 4)),
                                        loc: var_loc,
                                    },
                                ),
                                ix + 6,
                            ),
                        ),
                    }
                } else if relop_of(tokens[ix + 3].kind) is Some {
                    match first(
                        expect_operand(tokens, ix + 4),
                        expect(tokens, ix + 5, TokenKind::Eol),
                    ) {
                        Some(failure) => Err(failure),
                        None => Ok(
                            (
                                assignment_at(
                                    tokens,
                                    ix,
                                    Node::Relop {
                                        op: relop_of(tokens[ix + 3].kind).unwrap(),
                                        lhs: Box::new(operand_at(tokens, ix + 2)),
                                        rhs: Box::new(operand_at(tokens, ix + 4)),
                                        loc: var_loc,
                                    },
                                ),
                                ix + 6,
                            ),
                        ),
                    }
                } else {
                    match expect(tokens, ix + 3, TokenKind::Eol) {
                        Some(failure) => Err(failure),
                        None => Ok((assignment_at(tokens, ix, operand_at(tokens, ix + 2)), ix + 4)),
                    }
                },
            },
        },
    }
}

/// The lines `param OPERAND` from token `ix` on, behind the parameters
/// `acc`.
pub open spec fn parse_params(tokens: Seq<Token>, ix: int, acc: Seq<Node>) -> Parsed<Seq<Node>>
    decreases left(tokens, ix),
{
    if 0 <= ix < tokens.len() && tokens[ix].kind is Param {
        match first(expect_operand(tokens, ix + 1), expect(tokens, ix + 2, TokenKind::Eol)) {
            Some(failure) => Err(failure),
            None => parse_params(tokens, ix + 3, acc.push(operand_at(tokens, ix + 1))),
        }
    } else {
        Ok((acc, ix))
    }
}

/// The lines `param OPERAND`, then `NAME = call NAME, COUNT` with the
/// number of those lines as the count, and the end of the line.
pub open spec fn parse_param(tokens: Seq<Token>, ix: int) -> Parsed<Node> {
    match parse_params(tokens, ix, Seq::empty()) {
        Err(failure) => Err(failure),
        Ok((params, at)) => match first(
            expect_iden(tokens, at),
            first(
                expect(tokens, at + 1, TokenKind::Equal),
                first(
                    expect(tokens, at + 2, TokenKind::Call),
                    first(
                        expect_iden(tokens, at + 3),
                        first(
                            expect(tokens, at + 4, TokenKind::Comma),
                            first(
                                expect_num(tokens, at + 5),
                                first(
                                    if params.len() != num_at(tokens, at + 5) {
                                        Some(
                                            wrong_param_count(
                                                tokens,
                                                at + 5,
                                                params.len(),
                                                num_at(tokens, at + 5),
                                            ),
                                        )
                                    } else {
                                        None
                                    },
                                    expect(tokens, at + 6, TokenKind::Eol),
                                ),
                            ),
                        ),
                    ),
                ),
            ),
        ) {
            Some(failure) => Err(failure),
            None => Ok(
                (
                    Node::Call {
                        id: iden_at(tokens, at),
                        name: iden_at(tokens, at + 3),
                        params,
                        loc: tokens[at].loc@,
                    },
                    at + 7,
                ),
            ),
        },
    }
}

/// The lines `arg NAME` of `remaining` arguments from token `ix` on, behind
/// the arguments `acc`.
pub open spec fn parse_args(tokens: Seq<Token>, ix: int, remaining: int, acc: Seq<Node>) -> Parsed<
    Seq<Node>,
>
    decreases remaining,
{
    if remaining <= 0 {
        Ok((acc, ix))
    } else {
        match first(
            expect(tokens, ix, TokenKind::Arg),
            first(expect_iden(tokens, ix + 1), expect(tokens, ix + 2, TokenKind::Eol)),
        ) {
            Some(failure) => Err(failure),
            None => parse_args(
                tokens,
                ix + 3,
                remaining - 1,
                acc.push(Node::Iden { name: iden_at(tokens, ix + 1), loc: tokens[ix + 1].loc@ }),
            ),
        }
    }
}

/// The argument lines end where they start or later.
pub proof fn lemma_parse_args_advances(tokens: Seq<Token>, ix: int, remaining: int, acc: Seq<Node>)
    ensures
        parse_args(tokens, ix, remaining, acc) matches Ok((_, next)) ==> next >= ix,
    decreases remaining,
{
    if remaining > 0 {
        lemma_parse_args_advances(
            tokens,
            ix + 3,
            remaining - 1,
            acc.push(Node::Iden { name: iden_at(tokens, ix + 1), loc: tokens[ix + 1].loc@ }),
        );
    }
}

/// The index behind the rest of a line: behind its end-of-line token, or
/// at the end-of-file token.
pub open spec fn skip_line(tokens: Seq<Token>, ix: int) -> int
    decreases left(tokens, ix),
{
    if !(0 <= ix < tokens.len()) || tokens[ix].kind is Eof {
        ix
    } else if tokens[ix].kind is Eol {
        ix + 1
    } else {
        skip_line(tokens, ix + 1)
    }
}

pub proof fn lemma_skip_line_advances(tokens: Seq<Token>, ix: int)
    ensures
        skip_line(tokens, ix) >= ix,
    decreases left(tokens, ix),
{
    if 0 <= ix < tokens.len() && !(tokens[ix].kind is Eof) && !(tokens[ix].kind is Eol) {
        lemma_skip_line_advances(tokens, ix + 1);
    }
}

/// The kinds with which an instruction can start, as written in messages.
pub open spec fn instruction_starts() -> Seq<Seq<char>> {
    seq!["function"@, "label"@, "goto"@, "iden"@, "ret"@, "param"@, "if"@, "EOL"@]
}

/// `function NAME, COUNT`, the end of the line, `COUNT` lines `arg NAME`,
/// and the instructions up to the next function.
pub open spec fn parse_function(tokens: Seq<Token>, ix: int) -> Parsed<Node>
    decreases left(tokens, ix), 0int,
    when 0 <= ix < tokens.len()
{
    match first(
        expect(tokens, ix, TokenKind::Function),
        first(
            expect_iden(tokens, ix + 1),
            first(
                expect(tokens, ix + 2, TokenKind::Comma),
                first(expect_num(tokens, ix + 3), expect(tokens, ix + 4, TokenKind::Eol)),
            ),
        ),
    ) {
        Some(failure) => Err(failure),
        None => match parse_args(tokens, ix + 5, num_at(tokens, ix + 3) as int, Seq::empty()) {
            Err(failure) => Err(failure),
            Ok((args, at)) => {
                proof {
                    lemma_parse_args_advances(
                        tokens,
                        ix + 5,
                        num_at(tokens, ix + 3) as int,
                        Seq::empty(),
                    );
                }
                match build(tokens, at, Precedence::Function, Seq::empty()) {
                    Err(failure) => Err(failure),
                    Ok((body, next)) => Ok(
                        (
                            Node::Function {
                                name: iden_at(tokens, ix + 1),
                                args,
                                body,
                                loc: tokens[ix].loc@,
                            },
                            next,
                        ),
                    ),
                }
            },
        },
    }
}

/// `label NAME`, the end of the line, and the instructions up to the next
/// label or function.
pub open spec fn parse_label(tokens: Seq<Token>, ix: int) -> Parsed<Node>
    decreases left(tokens, ix), 0int,
    when 0 <= ix < tokens.len()
{
    match first(
        expect(tokens, ix, TokenKind::Label),
        first(expect_iden(tokens, ix + 1), expect(tokens, ix + 2, TokenKind::Eol)),
    ) {
        Some(failure) => Err(failure),
        None => match build(tokens, ix + 3, Precedence::Label, Seq::empty()) {
            Err(failure) => Err(failure),
            Ok((body, next)) => Ok(
                (Node::Label { name: iden_at(tokens, ix + 1), body, loc: tokens[ix].loc@ }, next),
            ),
        },
    }
}

/// The instruction that starts at token `ix`, which is not a comment nor
/// the end of a line.
pub open spec fn parse_item(tokens: Seq<Token>, ix: int) -> Parsed<Node>
    decreases left(tokens, ix), 1int,
    when 0 <= ix < tokens.len()
{
    match tokens[ix].kind {
        TokenKind::Function => parse_function(tokens, ix),
        TokenKind::Label => parse_label(tokens, ix),
        TokenKind::Goto => parse_goto(tokens, ix),
        TokenKind::Iden(_) => parse_assignment(tokens, ix),
        TokenKind::Ret => parse_ret(tokens, ix),
        TokenKind::Param => parse_param(tokens, ix),
        TokenKind::If => parse_if(tokens, ix),
        _ => Err(unexpected(tokens[ix], instruction_starts())),
    }
}

/// The instructions from token `ix` up to the end of the file or to a token
/// that encloses as tightly as `prec`, behind the instructions `acc`.
/// Comments and empty lines are passed over.
///
/// The test on the index behind an instruction makes the definition
/// well-founded; an instruction always ends behind its start
/// ([`lemma_parse_item_advances`]).
pub open spec fn build(tokens: Seq<Token>, ix: int, prec: Precedence, acc: Seq<Node>) -> Parsed<
    Seq<Node>,
>
    decreases left(tokens, ix), 2int,
{
    if !(0 <= ix < tokens.len()) || tokens[ix].kind is Eof || token_rank(tokens[ix].kind)
        >= prec_rank(prec) {
        Ok((acc, ix))
    } else if tokens[ix].kind is Eol {
        build(tokens, ix + 1, prec, acc)
    } else if tokens[ix].kind is Comment {
        proof {
            lemma_skip_line_advances(tokens, ix + 1);
        }
        build(tokens, skip_line(tokens, ix + 1), prec, acc)
    } else {
        match parse_item(tokens, ix) {
            Err(failure) => Err(failure),
            Ok((node, next)) => if next > ix {
                build(tokens, next, prec, acc.push(node))
            } else {
                Ok((acc.push(node), next))
            },
        }
    }
}

/// The program that a list of tokens is: its instructions from the first
/// token to the end of the file.
pub open spec fn parse_program(tokens: Seq<Token>) -> Result<Seq<Node>, Failure> {
    match build(tokens, 0, Precedence::Start, Seq::empty()) {
        Ok((nodes, _)) => Ok(nodes),
        Err(failure) => Err(failure),
    }
}


/// The parameter lines end where they start or later.
pub proof fn lemma_parse_params_advances(tokens: Seq<Token>, ix: int, acc: Seq<Node>)
    ensures
        parse_params(tokens, ix, acc) matches Ok((_, next)) ==> next >= ix,
    decreases left(tokens, ix),
{
    if 0 <= ix < tokens.len() && tokens[ix].kind is Param {
        if first(expect_operand(tokens, ix + 1), expect(tokens, ix + 2, TokenKind::Eol)) is None {
            lemma_parse_params_advances(tokens, ix + 3, acc.push(operand_at(tokens, ix + 1)));
        }
    }
}

/// An instruction ends behind its start.
pub proof fn lemma_parse_item_advances(tokens: Seq<Token>, ix: int)
    requires
        0 <= ix < tokens.len(),
    ensures
        parse_item(tokens, ix) matches Ok((_, next)) ==> next > ix,
    decreases left(tokens, ix), 1int,
{
    match tokens[ix].kind {
        TokenKind::Function => {
            if parse_function(tokens, ix) is Ok {
                let count = num_at(tokens, ix + 3) as int;
                lemma_parse_args_advances(tokens, ix + 5, count, Seq::empty());
                let at = parse_args(tokens, ix + 5, count, Seq::empty())->Ok_0.1;
                lemma_build_advances(tokens, at, Precedence::Function, Seq::empty());
            }
        },
        TokenKind::Label => {
            if parse_label(tokens, ix) is Ok {
                lemma_build_advances(tokens, ix + 3, Precedence::Label, Seq::empty());
            }
        },
        TokenKind::Param => {
            lemma_parse_params_advances(tokens, ix, Seq::empty());
        },
        _ => {},
    }
}

/// A list of instructions ends where it starts or later.
pub proof fn lemma_build_advances(tokens: Seq<Token>, ix: int, prec: Precedence, acc: Seq<Node>)
    ensures
        build(tokens, ix, prec, acc) matches Ok((_, next)) ==> next >= ix,
    decreases left(tokens, ix), 2int,
{
    if !(0 <= ix < tokens.len()) || tokens[ix].kind is Eof || token_rank(tokens[ix].kind)
        >= prec_rank(prec) {
    } else if tokens[ix].kind is Eol {
        lemma_build_advances(tokens, ix + 1, prec, acc);
    } else if tokens[ix].kind is Comment {
        lemma_skip_line_advances(tokens, ix + 1);
        lemma_build_advances(tokens, skip_line(tokens, ix + 1), prec, acc);
    } else {
        lemma_parse_item_advances(tokens, ix);
        match parse_item(tokens, ix) {
            Err(failure) => {},
            Ok((node, next)) => {
                lemma_build_advances(tokens, next, prec, acc.push(node));
            },
        }
    }
}

} // verus!
