use vstd::prelude::*;
use crate::fe::ast::{nodes_view, ArithOp, AstNode, Node, RelOp, UnaryOp};
use crate::fe::grammar;
use crate::fe::grammar::{
    arith_of, ends_in_eof, expect, expect_iden, expect_num, expect_operand, iden_at, num_at,
    operand_at, prec_rank, relop_of, token_rank, unary_of, Parsed, Precedence,
};
use crate::fe::loc::Loc;
use crate::text::{decimal, i32_to_string, signed_decimal, usize_to_string};
use crate::fe::token::{kind_text, texts_of, unexpected, Failure, SyntaxError, Token, TokenKind};

verus! {

/// The list of nodes that a parser holds.
#[derive(Debug)]
pub struct Parser {
    pub nodes: Vec<AstNode>,
}

/// What an executable parser gave agrees with what the grammar gives.
pub open spec fn agrees(res: Result<AstNode, SyntaxError>, next: usize, want: Parsed<Node>) -> bool {
    match res {
        Ok(node) => want == Ok::<(Node, int), Failure>((node@, next as int)),
        Err(e) => want == Err::<(Node, int), Failure>(e@),
    }
}

impl ArithOp {
    /// The arithmetic operation that a token is the sign of.
    pub fn new(token: &Token) -> (res: Result<Self, SyntaxError>)
        ensures
            match res {
                Ok(op) => arith_of(token.kind) == Some(op),
                Err(e) => arith_of(token.kind) is None && e@ == unexpected(
                    *token,
                    seq!["+"@, "-"@, "*"@, "/"@],
                ),
            },
    {
        match token.kind {
            TokenKind::Plus => Ok(ArithOp::Sum),
            TokenKind::Minus => Ok(ArithOp::Sub),
            TokenKind::Mul => Ok(ArithOp::Mul),
            TokenKind::Div => Ok(ArithOp::Div),
            _ => {
                let mut expected: Vec<TokenKind> = Vec::new();
                expected.push(TokenKind::Plus);
                expected.push(TokenKind::Minus);
                expected.push(TokenKind::Mul);
                expected.push(TokenKind::Div);
                assert(texts_of(expected@) =~= seq!["+"@, "-"@, "*"@, "/"@]);
                Err(token.error_token_kind_mismatch(expected))
            },
        }
    }
}

impl RelOp {
    /// The relation that a token is the sign of.
    pub fn new(token: &Token) -> (res: Result<Self, SyntaxError>)
        ensures
            match res {
                Ok(op) => relop_of(token.kind) == Some(op),
                Err(e) => relop_of(token.kind) is None && e@ == unexpected(
                    *token,
                    seq!["=="@, "!="@, ">"@, "<"@, ">="@, "<="@],
                ),
            },
    {
        match token.kind {
            TokenKind::Eq => Ok(RelOp::Eq),
            TokenKind::Neq => Ok(RelOp::Neq),
            TokenKind::Gt => Ok(RelOp::Gt),
            TokenKind::Lt => Ok(RelOp::Lt),
            TokenKind::Ge => Ok(RelOp::Ge),
            TokenKind::Le => Ok(RelOp::Le),
            _ => {
                let mut expected: Vec<TokenKind> = Vec::new();
                expected.push(TokenKind::Eq);
                expected.push(TokenKind::Neq);
                expected.push(TokenKind::Gt);
                expected.push(TokenKind::Lt);
                expected.push(TokenKind::Ge);
                expected.push(TokenKind::Le);
                assert(texts_of(expected@) =~= seq!["=="@, "!="@, ">"@, "<"@, ">="@, "<="@]);
                Err(token.error_token_kind_mismatch(expected))
            },
        }
    }
}

impl UnaryOp {
    /// The unary operation that a token is the sign of.
    pub fn new(token: &Token) -> (res: Result<Self, SyntaxError>)
        ensures
            match res {
                Ok(op) => unary_of(token.kind) == Some(op),
                Err(e) => unary_of(token.kind) is None && e@ == unexpected(*token, seq!["-"@]),
            },
    {
        match token.kind {
            TokenKind::Minus => Ok(UnaryOp::Neg),
            _ => {
                let mut expected: Vec<TokenKind> = Vec::new();
                expected.push(TokenKind::Minus);
                assert(texts_of(expected@) =~= seq!["-"@]);
                Err(token.error_token_kind_mismatch(expected))
            },
        }
    }
}

/// How tightly a token encloses what follows it.
pub fn token_prec(token: &Token) -> (res: Precedence)
    ensures
        prec_rank(res) == token_rank(token.kind),
{
    match token.kind {
        TokenKind::Function => Precedence::Function,
        TokenKind::Label => Precedence::Label,
        _ => Precedence::Default,
    }
}

fn rank(prec: Precedence) -> (res: u8)
    ensures
        res == prec_rank(prec),
{
    match prec {
        Precedence::Default => 0,
        Precedence::Label => 10,
        Precedence::Function => 20,
        Precedence::Start => 100,
    }
}

/// Takes an identifier token and gives its name.
pub fn eat_iden(tokens: &Vec<Token>, ix: &mut usize) -> (res: Result<String, SyntaxError>)
    requires
        ends_in_eof(tokens@),
        *old(ix) < tokens.len(),
    ensures
        match res {
            Ok(name) => expect_iden(tokens@, *old(ix) as int) is None && name@ == iden_at(
                tokens@,
                *old(ix) as int,
            ) && *final(ix) == *old(ix) + 1 && *final(ix) < tokens.len(),
            Err(e) => expect_iden(tokens@, *old(ix) as int) == Some(e@),
        },
{
    match &tokens[*ix].kind {
        TokenKind::Iden(id) => {
            let name = id.clone();
            *ix += 1;
            Ok(name)
        },
        _ => {
            let mut expected: Vec<TokenKind> = Vec::new();
            expected.push(TokenKind::Iden(String::new()));
            assert(texts_of(expected@) =~= seq!["iden"@]);
            Err(tokens[*ix].error_token_kind_mismatch(expected))
        },
    }
}

/// Takes a number token and gives its number.
pub fn eat_num(tokens: &Vec<Token>, ix: &mut usize) -> (res: Result<i32, SyntaxError>)
    requires
        ends_in_eof(tokens@),
        *old(ix) < tokens.len(),
    ensures
        match res {
            Ok(num) => expect_num(tokens@, *old(ix) as int) is None && num == num_at(
                tokens@,
                *old(ix) as int,
            ) && *final(ix) == *old(ix) + 1 && *final(ix) < tokens.len(),
            Err(e) => expect_num(tokens@, *old(ix) as int) == Some(e@),
        },
{
    match tokens[*ix].kind {
        TokenKind::Num(num) => {
            *ix += 1;
            Ok(num)
        },
        _ => {
            let mut expected: Vec<TokenKind> = Vec::new();
            expected.push(TokenKind::Num(0));
            assert(texts_of(expected@) =~= seq!["num"@]);
            Err(tokens[*ix].error_token_kind_mismatch(expected))
        },
    }
}

/// Takes an identifier or a number and gives it as an operand.
pub fn eat_operand(tokens: &Vec<Token>, ix: &mut usize) -> (res: Result<AstNode, SyntaxError>)
    requires
        ends_in_eof(tokens@),
        *old(ix) < tokens.len(),
    ensures
        match res {
            Ok(node) => expect_operand(tokens@, *old(ix) as int) is None && node@ == operand_at(
                tokens@,
                *old(ix) as int,
            ) && *final(ix) == *old(ix) + 1 && *final(ix) < tokens.len(),
            Err(e) => expect_operand(tokens@, *old(ix) as int) == Some(e@),
        },
{
    let loc = tokens[*ix].loc.clone();
    match &tokens[*ix].kind {
        TokenKind::Iden(id) => {
            let name = id.clone();
            *ix += 1;
            Ok(AstNode::iden(name, loc))
        },
        TokenKind::Num(num) => {
            let num = *num;
            *ix += 1;
            Ok(AstNode::num(num, loc))
        },
        _ => {
            let mut expected: Vec<TokenKind> = Vec::new();
            expected.push(TokenKind::Iden(String::new()));
            expected.push(TokenKind::Num(0));
            assert(texts_of(expected@) =~= seq!["iden"@, "num"@]);
            Err(tokens[*ix].error_token_kind_mismatch(expected))
        },
    }
}

/// Takes a token of the kind `expected_kind`, which is not the end of the
/// file.
pub fn assert_n_eat(tokens: &Vec<Token>, expected_kind: TokenKind, ix: &mut usize) -> (res: Result<
    (),
    SyntaxError,
>)
    requires
        ends_in_eof(tokens@),
        *old(ix) < tokens.len(),
        !(expected_kind is Eof),
    ensures
        match res {
            Ok(_) => expect(tokens@, *old(ix) as int, expected_kind) is None && *final(ix) == *old(
                ix,
            ) + 1 && *final(ix) < tokens.len(),
            Err(e) => expect(tokens@, *old(ix) as int, expected_kind) == Some(e@),
        },
{
    let ghost text = kind_text(expected_kind);
    match tokens[*ix].assert_token_kind(expected_kind) {
        Ok(_) => {
            *ix += 1;
            Ok(())
        },
        Err(e) => {
            assert(texts_of(seq![expected_kind]) =~= seq![text]);
            Err(e)
        },
    }
}


/// Parses `goto NAME`.
pub fn parse_goto(tokens: &Vec<Token>, ix: &mut usize) -> (res: Result<AstNode, SyntaxError>)
    requires
        ends_in_eof(tokens@),
        *old(ix) < tokens.len(),
    ensures
        agrees(res, *final(ix), grammar::parse_goto(tokens@, *old(ix) as int)),
        res is Ok ==> *old(ix) < *final(ix) < tokens.len(),
{
    let loc = tokens[*ix].loc.clone();
    assert_n_eat(tokens, TokenKind::Goto, ix)?;
    let name = eat_iden(tokens, ix)?;
    assert_n_eat(tokens, TokenKind::Eol, ix)?;
    Ok(AstNode::goto(name, loc))
}


/// Parses `ret OPERAND`.
pub fn parse_ret(tokens: &Vec<Token>, ix: &mut usize) -> (res: Result<AstNode, SyntaxError>)
    requires
        ends_in_eof(tokens@),
        *old(ix) < tokens.len(),
    ensures
        agrees(res, *final(ix), grammar::parse_ret(tokens@, *old(ix) as int)),
        res is Ok ==> *old(ix) < *final(ix) < tokens.len(),
{
    let loc = tokens[*ix].loc.clone();
    assert_n_eat(tokens, TokenKind::Ret, ix)?;
    let var = eat_operand(tokens, ix)?;
    assert_n_eat(tokens, TokenKind::Eol, ix)?;
    Ok(AstNode::ret(var, loc))
}

/// Parses `if (OPERAND RELATION OPERAND) goto NAME`.
pub fn parse_if(tokens: &Vec<Token>, ix: &mut usize) -> (res: Result<AstNode, SyntaxError>)
    requires
        ends_in_eof(tokens@),
        *old(ix) < tokens.len(),
    ensures
        agrees(res, *final(ix), grammar::parse_if(tokens@, *old(ix) as int)),
        res is Ok ==> *old(ix) < *final(ix) < tokens.len(),
{
    let loc = tokens[*ix].loc.clone();
    assert_n_eat(tokens, TokenKind::If, ix)?;
    assert_n_eat(tokens, TokenKind::LParen, ix)?;
    let relop_loc = tokens[*ix].loc.clone();
    let lhs = eat_operand(tokens, ix)?;
    let op = RelOp::new(&tokens[*ix])?;
    *ix += 1;
    let rhs = eat_operand(tokens, ix)?;
    let condition = AstNode::relop(op, lhs, rhs, relop_loc);
    assert_n_eat(tokens, TokenKind::RParen, ix)?;
    assert_n_eat(tokens, TokenKind::Goto, ix)?;
    let name = eat_iden(tokens, ix)?;
    assert_n_eat(tokens, TokenKind::Eol, ix)?;
    Ok(AstNode::branch(condition, name, loc))
}

/// The error for a call that announces `found` parameters where `due` are
/// given.
fn param_count_error(loc: &Loc, due: usize, found: i32) -> (res: SyntaxError)
    ensures
        res@ == (Failure {
            loc: loc@,
            message: "expected param count to be '"@ + decimal(due as nat) + "'; but found '"@
                + signed_decimal(found as int) + "'"@,
        }),
{
    let mut message = String::from_str("expected param count to be '");
    message.append(usize_to_string(due).as_str());
    message.append("'; but found '");
    message.append(i32_to_string(found).as_str());
    message.append("'");
    SyntaxError { loc: loc.clone(), message }
}

/// Parses an assignment or a call without parameters.
pub fn parse_assignment(tokens: &Vec<Token>, ix: &mut usize) -> (res: Result<AstNode, SyntaxError>)
    requires
        ends_in_eof(tokens@),
        *old(ix) < tokens.len(),
    ensures
        agrees(res, *final(ix), grammar::parse_assignment(tokens@, *old(ix) as int)),
        res is Ok ==> *old(ix) < *final(ix) < tokens.len(),
{
    let loc = tokens[*ix].loc.clone();
    let id = eat_iden(tokens, ix)?;
    assert_n_eat(tokens, TokenKind::Equal, ix)?;
    let var_loc = tokens[*ix].loc.clone();
    if tokens[*ix].is_unary() {
        let op = UnaryOp::new(&tokens[*ix])?;
        *ix += 1;
        let var = eat_operand(tokens, ix)?;
        assert_n_eat(tokens, TokenKind::Eol, ix)?;
        return Ok(AstNode::assignment(id, AstNode::unary(op, var, var_loc), loc));
    }
    if let TokenKind::Call = tokens[*ix].kind {
        assert_n_eat(tokens, TokenKind::Call, ix)?;
        let name = eat_iden(tokens, ix)?;
        assert_n_eat(tokens, TokenKind::Comma, ix)?;
        let param_count_loc = tokens[*ix].loc.clone();
        let param_count = eat_num(tokens, ix)?;
        if param_count != 0 {
            return Err(param_count_error(&param_count_loc, 0, param_count));
        }
        assert_n_eat(tokens, TokenKind::Eol, ix)?;
        let params: Vec<AstNode> = Vec::new();
        assert(nodes_view(params@) =~= Seq::<Node>::empty());
        return Ok(AstNode::call(id, name, params, loc));
    }
    if let TokenKind::Alloc = tokens[*ix].kind {
        assert_n_eat(tokens, TokenKind::Alloc, ix)?;
        let size = eat_operand(tokens, ix)?;
        assert_n_eat(tokens, TokenKind::Eol, ix)?;
        return Ok(AstNode::assignment(id, AstNode::allocation(size, var_loc), loc));
    }
    if let TokenKind::Load = tokens[*ix].kind {
        assert_n_eat(tokens, TokenKind::Load, ix)?;
        let ptr = eat_iden(tokens, ix)?;
        assert_n_eat(tokens, TokenKind::Eol, ix)?;
        return Ok(AstNode::assignment(id, AstNode::load(ptr, var_loc), loc));
    }
    let lhs = eat_operand(tokens, ix)?;
    if tokens[*ix].is_arith() {
        let op = ArithOp::new(&tokens[*ix])?;
        *ix += 1;
        let rhs = eat_operand(tokens, ix)?;
        assert_n_eat(tokens, TokenKind::Eol, ix)?;
        return Ok(AstNode::assignment(id, AstNode::arith(op, lhs, rhs, var_loc), loc));
    }
    if tokens[*ix].is_relop() {
        let op = RelOp::new(&tokens[*ix])?;
        *ix += 1;
        let rhs = eat_operand(tokens, ix)?;
        assert_n_eat(tokens, TokenKind::Eol, ix)?;
        return Ok(AstNode::assignment(id, AstNode::relop(op, lhs, rhs, var_loc), loc));
    }
    assert_n_eat(tokens, TokenKind::Eol, ix)?;
    Ok(AstNode::assignment(id, lhs, loc))
}

/// Parses the parameter lines of a call and the call.
pub fn parse_param(tokens: &Vec<Token>, ix: &mut usize) -> (res: Result<AstNode, SyntaxError>)
    requires
        ends_in_eof(tokens@),
        *old(ix) < tokens.len(),
    ensures
        agrees(res, *final(ix), grammar::parse_param(tokens@, *old(ix) as int)),
        res is Ok ==> *old(ix) < *final(ix) < tokens.len(),
{
    let ghost start = *ix as int;
    let ghost want = grammar::parse_params(tokens@, start, Seq::empty());
    let mut params: Vec<AstNode> = Vec::new();
    assert(nodes_view(params@) =~= Seq::<Node>::empty());
    loop
        invariant_except_break
            want == grammar::parse_params(tokens@, *ix as int, nodes_view(params@)),
        invariant
            ends_in_eof(tokens@),
            start == *old(ix),
            start <= *ix < tokens.len(),
            want == grammar::parse_params(tokens@, start, Seq::empty()),
        ensures
            want == Ok::<(Seq<Node>, int), Failure>((nodes_view(params@), *ix as int)),
        decreases tokens.len() - *ix,
    {
        if let TokenKind::Param = tokens[*ix].kind {
        } else {
            break ;
        }
        let ghost before = nodes_view(params@);
        let ghost at = *ix as int;
        match assert_n_eat(tokens, TokenKind::Param, ix) {
            Ok(_) => {},
            Err(e) => {
                return Err(e);
            },
        }
        match eat_operand(tokens, ix) {
            Ok(node) => {
                params.push(node);
            },
            Err(e) => {
                return Err(e);
            },
        }
        match assert_n_eat(tokens, TokenKind::Eol, ix) {
            Ok(_) => {},
            Err(e) => {
                return Err(e);
            },
        }
        assert(nodes_view(params@) =~= before.push(operand_at(tokens@, at + 1)));
    }
    let loc = tokens[*ix].loc.clone();
    let id = eat_iden(tokens, ix)?;
    assert_n_eat(tokens, TokenKind::Equal, ix)?;
    assert_n_eat(tokens, TokenKind::Call, ix)?;
    let name = eat_iden(tokens, ix)?;
    assert_n_eat(tokens, TokenKind::Comma, ix)?;
    let param_loc = tokens[*ix].loc.clone();
    let param_count = eat_num(tokens, ix)?;
    if param_count < 0 || param_count as usize != params.len() {
        return Err(param_count_error(&param_loc, params.len(), param_count));
    }
    assert_n_eat(tokens, TokenKind::Eol, ix)?;
    Ok(AstNode::call(id, name, params, loc))
}

/// Passes over a comment up to the end of its line.
pub fn parse_comment(tokens: &Vec<Token>, ix: &mut usize) -> (res: Result<(), SyntaxError>)
    requires
        ends_in_eof(tokens@),
        *old(ix) < tokens.len(),
    ensures
        match res {
            Ok(_) => expect(tokens@, *old(ix) as int, TokenKind::Comment) is None && *final(ix)
                == grammar::skip_line(tokens@, *old(ix) + 1) && *old(ix) < *final(ix)
                < tokens.len(),
            Err(e) => expect(tokens@, *old(ix) as int, TokenKind::Comment) == Some(e@),
        },
{
    assert_n_eat(tokens, TokenKind::Comment, ix)?;
    let ghost start = *ix as int;
    loop
        invariant_except_break
            grammar::skip_line(tokens@, start) == grammar::skip_line(tokens@, *ix as int),
        invariant
            ends_in_eof(tokens@),
            start <= *ix < tokens.len(),
        ensures
            grammar::skip_line(tokens@, start) == *ix,
        decreases tokens.len() - *ix,
    {
        match tokens[*ix].kind {
            TokenKind::Eof => {
                break ;
            },
            TokenKind::Eol => {
                *ix += 1;
                break ;
            },
            _ => {},
        }
        *ix += 1;
    }
    Ok(())
}


/// What an executable parser of lists gave agrees with what the grammar
/// gives.
pub open spec fn list_agrees(
    res: Result<Vec<AstNode>, SyntaxError>,
    next: usize,
    want: Parsed<Seq<Node>>,
) -> bool {
    match res {
        Ok(nodes) => want == Ok::<(Seq<Node>, int), Failure>((nodes_view(nodes@), next as int)),
        Err(e) => want == Err::<(Seq<Node>, int), Failure>(e@),
    }
}

/// Parses the argument lines of a function.
fn parse_args(tokens: &Vec<Token>, ix: &mut usize, arg_count: i32) -> (res: Result<
    Vec<AstNode>,
    SyntaxError,
>)
    requires
        ends_in_eof(tokens@),
        *old(ix) < tokens.len(),
    ensures
        list_agrees(
            res,
            *final(ix),
            grammar::parse_args(tokens@, *old(ix) as int, arg_count as int, Seq::empty()),
        ),
        res is Ok ==> *old(ix) <= *final(ix) < tokens.len(),
{
    let ghost start = *ix as int;
    let ghost want = grammar::parse_args(tokens@, start, arg_count as int, Seq::empty());
    let mut args: Vec<AstNode> = Vec::new();
    let mut done: i32 = 0;
    assert(nodes_view(args@) =~= Seq::<Node>::empty());
    while done < arg_count
        invariant
            ends_in_eof(tokens@),
            start == *old(ix),
            start <= *ix < tokens.len(),
            0 <= done,
            done <= arg_count || arg_count < 0,
            want == grammar::parse_args(tokens@, start, arg_count as int, Seq::empty()),
            want == grammar::parse_args(
                tokens@,
                *ix as int,
                arg_count - done,
                nodes_view(args@),
            ),
        decreases arg_count - done,
    {
        let ghost before = nodes_view(args@);
        let ghost at = *ix as int;
        match assert_n_eat(tokens, TokenKind::Arg, ix) {
            Ok(_) => {},
            Err(e) => {
                return Err(e);
            },
        }
        let arg_loc = tokens[*ix].loc.clone();
        match eat_iden(tokens, ix) {
            Ok(name) => {
                args.push(AstNode::iden(name, arg_loc));
            },
            Err(e) => {
                return Err(e);
            },
        }
        match assert_n_eat(tokens, TokenKind::Eol, ix) {
            Ok(_) => {},
            Err(e) => {
                return Err(e);
            },
        }
        assert(nodes_view(args@) =~= before.push(
            Node::Iden { name: iden_at(tokens@, at + 1), loc: tokens@[at + 1].loc@ },
        ));
        done += 1;
    }
    Ok(args)
}

/// Parses a function: its heading, its argument lines and its body.
pub fn parse_function(tokens: &Vec<Token>, ix: &mut usize) -> (res: Result<AstNode, SyntaxError>)
    requires
        ends_in_eof(tokens@),
        *old(ix) < tokens.len(),
    ensures
        agrees(res, *final(ix), grammar::parse_function(tokens@, *old(ix) as int)),
        res is Ok ==> *old(ix) < *final(ix) < tokens.len(),
    decreases tokens.len() - *old(ix), 0nat,
{
    let loc = tokens[*ix].loc.clone();
    assert_n_eat(tokens, TokenKind::Function, ix)?;
    let name = eat_iden(tokens, ix)?;
    assert_n_eat(tokens, TokenKind::Comma, ix)?;
    let arg_count = eat_num(tokens, ix)?;
    assert_n_eat(tokens, TokenKind::Eol, ix)?;
    let args = parse_args(tokens, ix, arg_count)?;
    let body = build_ast_prec(tokens, ix, Precedence::Function)?;
    Ok(AstNode::function(name, args, body, loc))
}

/// Parses a label: its heading and its body.
pub fn parse_label(tokens: &Vec<Token>, ix: &mut usize) -> (res: Result<AstNode, SyntaxError>)
    requires
        ends_in_eof(tokens@),
        *old(ix) < tokens.len(),
    ensures
        agrees(res, *final(ix), grammar::parse_label(tokens@, *old(ix) as int)),
        res is Ok ==> *old(ix) < *final(ix) < tokens.len(),
    decreases tokens.len() - *old(ix), 0nat,
{
    let loc = tokens[*ix].loc.clone();
    assert_n_eat(tokens, TokenKind::Label, ix)?;
    let name = eat_iden(tokens, ix)?;
    assert_n_eat(tokens, TokenKind::Eol, ix)?;
    let body = build_ast_prec(tokens, ix, Precedence::Label)?;
    Ok(AstNode::label(name, body, loc))
}

/// Parses the instruction that starts at the current token.
fn parse_item(tokens: &Vec<Token>, ix: &mut usize) -> (res: Result<AstNode, SyntaxError>)
    requires
        ends_in_eof(tokens@),
        *old(ix) < tokens.len(),
    ensures
        agrees(res, *final(ix), grammar::parse_item(tokens@, *old(ix) as int)),
        res is Ok ==> *old(ix) < *final(ix) < tokens.len(),
    decreases tokens.len() - *old(ix), 1nat,
{
    match tokens[*ix].kind {
        TokenKind::Function => parse_function(tokens, ix),
        TokenKind::Label => parse_label(tokens, ix),
        TokenKind::Goto => parse_goto(tokens, ix),
        TokenKind::Iden(_) => parse_assignment(tokens, ix),
        TokenKind::Ret => parse_ret(tokens, ix),
        TokenKind::Param => parse_param(tokens, ix),
        TokenKind::If => parse_if(tokens, ix),
        _ => {
            let mut expected: Vec<TokenKind> = Vec::new();
            expected.push(TokenKind::Function);
            expected.push(TokenKind::Label);
            expected.push(TokenKind::Goto);
            expected.push(TokenKind::Iden(String::new()));
            expected.push(TokenKind::Ret);
            expected.push(TokenKind::Param);
            expected.push(TokenKind::If);
            expected.push(TokenKind::Eol);
            assert(texts_of(expected@) =~= grammar::instruction_starts());
            Err(tokens[*ix].error_token_kind_mismatch(expected))
        },
    }
}

/// Parses the instructions up to the end of the file or to a token that
/// encloses as tightly as `prec`.
pub fn build_ast_prec(tokens: &Vec<Token>, ix: &mut usize, prec: Precedence) -> (res: Result<
    Vec<AstNode>,
    SyntaxError,
>)
    requires
        ends_in_eof(tokens@),
        *old(ix) < tokens.len(),
    ensures
        list_agrees(
            res,
            *final(ix),
            grammar::build(tokens@, *old(ix) as int, prec, Seq::empty()),
        ),
        res is Ok ==> *old(ix) <= *final(ix) < tokens.len(),
    decreases tokens.len() - *old(ix), 2nat,
{
    let ghost start = *ix as int;
    let ghost want = grammar::build(tokens@, start, prec, Seq::empty());
    let mut nodes: Vec<AstNode> = Vec::new();
    assert(nodes_view(nodes@) =~= Seq::<Node>::empty());
    loop
        invariant_except_break
            want == grammar::build(tokens@, *ix as int, prec, nodes_view(nodes@)),
        invariant
            ends_in_eof(tokens@),
            start == *old(ix),
            start <= *ix < tokens.len(),
            want == grammar::build(tokens@, start, prec, Seq::empty()),
        ensures
            want == Ok::<(Seq<Node>, int), Failure>((nodes_view(nodes@), *ix as int)),
        decreases tokens.len() - *ix,
    {
        if let TokenKind::Eof = tokens[*ix].kind {
            break ;
        }
        if rank(token_prec(&tokens[*ix])) >= rank(prec) {
            break ;
        }
        match tokens[*ix].kind {
            TokenKind::Eol => {
                *ix += 1;
            },
            TokenKind::Comment => {
                match parse_comment(tokens, ix) {
                    Ok(_) => {},
                    Err(e) => {
                        return Err(e);
                    },
                }
            },
            _ => {
                let ghost before = nodes_view(nodes@);
                match parse_item(tokens, ix) {
                    Ok(node) => {
                        nodes.push(node);
                        assert(nodes_view(nodes@) =~= before.push(node@));
                    },
                    Err(e) => {
                        return Err(e);
                    },
                }
            },
        }
    }
    Ok(nodes)
}

impl Parser {
    /// Parses a list of tokens that ends in the end-of-file token.
    pub fn new(tokens: Vec<Token>) -> (res: Result<Self, SyntaxError>)
        requires
            ends_in_eof(tokens@),
        ensures
            match res {
                Ok(parser) => grammar::parse_program(tokens@) == Ok::<Seq<Node>, Failure>(
                    nodes_view(parser.nodes@),
                ),
                Err(e) => grammar::parse_program(tokens@) == Err::<Seq<Node>, Failure>(e@),
            },
    {
        let mut ix: usize = 0;
        match build_ast_prec(&tokens, &mut ix, Precedence::Start) {
            Ok(nodes) => Ok(Parser { nodes }),
            Err(e) => Err(e),
        }
    }
}

} // verus!
