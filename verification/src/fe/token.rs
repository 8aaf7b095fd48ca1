use vstd::prelude::*;
use crate::fe::loc::{Loc, LocView};

verus! {

/// The kinds of tokens of the language.
#[derive(Debug)]
pub enum TokenKind {
    Function,
    Iden(String),
    Num(i32),
    Comma,
    Arg,
    Equal,
    Plus,
    Minus,
    Mul,
    Comment,
    Alloc,
    Load,
    Store,
    Div,
    Goto,
    Label,
    If,
    LParen,
    RParen,
    Eq,
    Neq,
    Gt,
    Lt,
    Ge,
    Le,
    Param,
    Call,
    Ret,
    Eol,
    Eof,
}

/// A token of a source text with its position.
#[derive(Debug)]
pub struct Token {
    pub kind: TokenKind,
    pub loc: Loc,
}

/// An error in a source text: where it is and what it is.
#[derive(Debug)]
pub struct SyntaxError {
    pub loc: Loc,
    pub message: String,
}

/// The mathematical content of a [`SyntaxError`].
pub struct Failure {
    pub loc: LocView,
    pub message: Seq<char>,
}

impl View for SyntaxError {
    type V = Failure;

    open spec fn view(&self) -> Failure {
        Failure { loc: self.loc@, message: self.message@ }
    }
}

/// The place of a kind in the list of kinds, whatever an identifier or a
/// number holds.
pub open spec fn kind_tag(kind: TokenKind) -> int {
    match kind {
        TokenKind::Function => 0,
        TokenKind::Iden(_) => 1,
        TokenKind::Num(_) => 2,
        TokenKind::Comma => 3,
        TokenKind::Arg => 4,
        TokenKind::Equal => 5,
        TokenKind::Plus => 6,
        TokenKind::Minus => 7,
        TokenKind::Mul => 8,
        TokenKind::Comment => 9,
        TokenKind::Alloc => 10,
        TokenKind::Load => 11,
        TokenKind::Store => 12,
        TokenKind::Div => 13,
        TokenKind::Goto => 14,
        TokenKind::Label => 15,
        TokenKind::If => 16,
        TokenKind::LParen => 17,
        TokenKind::RParen => 18,
        TokenKind::Eq => 19,
        TokenKind::Neq => 20,
        TokenKind::Gt => 21,
        TokenKind::Lt => 22,
        TokenKind::Ge => 23,
        TokenKind::Le => 24,
        TokenKind::Param => 25,
        TokenKind::Call => 26,
        TokenKind::Ret => 27,
        TokenKind::Eol => 28,
        TokenKind::Eof => 29,
    }
}

/// How a kind is written in messages.
pub open spec fn kind_text(kind: TokenKind) -> Seq<char> {
    match kind {
        TokenKind::Function => "function"@,
        TokenKind::Iden(_) => "iden"@,
        TokenKind::Num(_) => "num"@,
        TokenKind::Comma => ","@,
        TokenKind::Arg => "arg"@,
        TokenKind::Equal => "="@,
        TokenKind::Plus => "+"@,
        TokenKind::Minus => "-"@,
        TokenKind::Mul => "*"@,
        TokenKind::Div => "/"@,
        TokenKind::Comment => "//"@,
        TokenKind::Alloc => "alloc"@,
        TokenKind::Load => "load"@,
        TokenKind::Store => "store"@,
        TokenKind::Goto => "goto"@,
        TokenKind::Label => "label"@,
        TokenKind::If => "if"@,
        TokenKind::LParen => "("@,
        TokenKind::RParen => ")"@,
        TokenKind::Eq => "=="@,
        TokenKind::Neq => "!="@,
        TokenKind::Gt => ">"@,
        TokenKind::Lt => "<"@,
        TokenKind::Ge => ">="@,
        TokenKind::Le => "<="@,
        TokenKind::Param => "param"@,
        TokenKind::Call => "call"@,
        TokenKind::Ret => "ret"@,
        TokenKind::Eol => "EOL"@,
        TokenKind::Eof => "EOF"@,
    }
}

/// Whether two kinds are the same and, where they are identifiers or
/// numbers, hold the same.
pub open spec fn same_kind(a: TokenKind, b: TokenKind) -> bool {
    match (a, b) {
        (TokenKind::Iden(x), TokenKind::Iden(y)) => x@ == y@,
        (TokenKind::Num(x), TokenKind::Num(y)) => x == y,
        _ => kind_tag(a) == kind_tag(b),
    }
}

/// The texts of a list of kinds.
pub open spec fn texts_of(kinds: Seq<TokenKind>) -> Seq<Seq<char>> {
    Seq::new(kinds.len(), |i: int| kind_text(kinds[i]))
}

/// The texts of a list, with ` | ` between them.
pub open spec fn alternatives(texts: Seq<Seq<char>>) -> Seq<char>
    decreases texts.len(),
{
    if texts.len() == 0 {
        Seq::empty()
    } else if texts.len() == 1 {
        texts[0]
    } else {
        alternatives(texts.drop_last()) + " | "@ + texts.last()
    }
}

/// The message for a token written `got` where one of the kinds written
/// `expected` was due.
pub open spec fn wrong_token_message(expected: Seq<Seq<char>>, got: Seq<char>) -> Seq<char> {
    if expected.len() == 0 {
        "expected no token; but got token of kind '"@ + got + "'"@
    } else if expected.len() == 1 {
        "expected token of kind '"@ + expected[0] + "'; but got '"@ + got + "'"@
    } else {
        "expected token of kinds '"@ + alternatives(expected) + "'; but got '"@ + got + "'"@
    }
}

/// The error for token `token` where one of the kinds written `expected`
/// was due.
pub open spec fn unexpected(token: Token, expected: Seq<Seq<char>>) -> Failure {
    Failure { loc: token.loc@, message: wrong_token_message(expected, kind_text(token.kind)) }
}

/// The error for token `token` where one of the kinds `expected` was due.
pub open spec fn mismatch(expected: Seq<TokenKind>, token: Token) -> Failure {
    unexpected(token, texts_of(expected))
}

impl TokenKind {
    /// The place of the kind in the list of kinds.
    pub fn tag(&self) -> (res: u8)
        ensures
            res == kind_tag(*self),
    {
        match self {
            TokenKind::Function => 0,
            TokenKind::Iden(_) => 1,
            TokenKind::Num(_) => 2,
            TokenKind::Comma => 3,
            TokenKind::Arg => 4,
            TokenKind::Equal => 5,
            TokenKind::Plus => 6,
            TokenKind::Minus => 7,
            TokenKind::Mul => 8,
            TokenKind::Comment => 9,
            TokenKind::Alloc => 10,
            TokenKind::Load => 11,
            TokenKind::Store => 12,
            TokenKind::Div => 13,
            TokenKind::Goto => 14,
            TokenKind::Label => 15,
            TokenKind::If => 16,
            TokenKind::LParen => 17,
            TokenKind::RParen => 18,
            TokenKind::Eq => 19,
            TokenKind::Neq => 20,
            TokenKind::Gt => 21,
            TokenKind::Lt => 22,
            TokenKind::Ge => 23,
            TokenKind::Le => 24,
            TokenKind::Param => 25,
            TokenKind::Call => 26,
            TokenKind::Ret => 27,
            TokenKind::Eol => 28,
            TokenKind::Eof => 29,
        }
    }

    /// How the kind is written in messages.
    pub fn text(&self) -> (res: &'static str)
        ensures
            res@ == kind_text(*self),
    {
        match self {
            TokenKind::Function => "function",
            TokenKind::Iden(_) => "iden",
            TokenKind::Num(_) => "num",
            TokenKind::Comma => ",",
            TokenKind::Arg => "arg",
            TokenKind::Equal => "=",
            TokenKind::Plus => "+",
            TokenKind::Minus => "-",
            TokenKind::Mul => "*",
            TokenKind::Div => "/",
            TokenKind::Comment => "//",
            TokenKind::Alloc => "alloc",
            TokenKind::Load => "load",
            TokenKind::Store => "store",
            TokenKind::Goto => "goto",
            TokenKind::Label => "label",
            TokenKind::If => "if",
            TokenKind::LParen => "(",
            TokenKind::RParen => ")",
            TokenKind::Eq => "==",
            TokenKind::Neq => "!=",
            TokenKind::Gt => ">",
            TokenKind::Lt => "<",
            TokenKind::Ge => ">=",
            TokenKind::Le => "<=",
            TokenKind::Param => "param",
            TokenKind::Call => "call",
            TokenKind::Ret => "ret",
            TokenKind::Eol => "EOL",
            TokenKind::Eof => "EOF",
        }
    }

    /// Whether two kinds are the same and hold the same.
    pub fn equals(&self, other: &TokenKind) -> (res: bool)
        ensures
            res == same_kind(*self, *other),
    {
        match (self, other) {
            (TokenKind::Iden(x), TokenKind::Iden(y)) => *x == *y,
            (TokenKind::Num(x), TokenKind::Num(y)) => *x == *y,
            _ => self.tag() == other.tag(),
        }
    }
}

impl Clone for TokenKind {
    fn clone(&self) -> (res: Self)
        ensures
            res == *self,
    {
        match self {
            TokenKind::Function => TokenKind::Function,
            TokenKind::Iden(name) => TokenKind::Iden(name.clone()),
            TokenKind::Num(num) => TokenKind::Num(*num),
            TokenKind::Comma => TokenKind::Comma,
            TokenKind::Arg => TokenKind::Arg,
            TokenKind::Equal => TokenKind::Equal,
            TokenKind::Plus => TokenKind::Plus,
            TokenKind::Minus => TokenKind::Minus,
            TokenKind::Mul => TokenKind::Mul,
            TokenKind::Comment => TokenKind::Comment,
            TokenKind::Alloc => TokenKind::Alloc,
            TokenKind::Load => TokenKind::Load,
            TokenKind::Store => TokenKind::Store,
            TokenKind::Div => TokenKind::Div,
            TokenKind::Goto => TokenKind::Goto,
            TokenKind::Label => TokenKind::Label,
            TokenKind::If => TokenKind::If,
            TokenKind::LParen => TokenKind::LParen,
            TokenKind::RParen => TokenKind::RParen,
            TokenKind::Eq => TokenKind::Eq,
            TokenKind::Neq => TokenKind::Neq,
            TokenKind::Gt => TokenKind::Gt,
            TokenKind::Lt => TokenKind::Lt,
            TokenKind::Ge => TokenKind::Ge,
            TokenKind::Le => TokenKind::Le,
            TokenKind::Param => TokenKind::Param,
            TokenKind::Call => TokenKind::Call,
            TokenKind::Ret => TokenKind::Ret,
            TokenKind::Eol => TokenKind::Eol,
            TokenKind::Eof => TokenKind::Eof,
        }
    }
}

impl Token {
    pub fn new(kind: TokenKind, loc: Loc) -> (res: Self)
        ensures
            res.kind == kind,
            res.loc == loc,
    {
        Token { kind, loc }
    }

    /// Whether the token is the sign of an arithmetic operation.
    pub fn is_arith(&self) -> (res: bool)
        ensures
            res == (self.kind is Plus || self.kind is Minus || self.kind is Mul || self.kind is Div),
    {
        match self.kind {
            TokenKind::Plus | TokenKind::Minus | TokenKind::Mul | TokenKind::Div => true,
            _ => false,
        }
    }

    /// Whether the token is the sign of a relation.
    pub fn is_relop(&self) -> (res: bool)
        ensures
            res == (self.kind is Eq || self.kind is Neq || self.kind is Gt || self.kind is Lt
                || self.kind is Ge || self.kind is Le),
    {
        match self.kind {
            TokenKind::Eq
            | TokenKind::Neq
            | TokenKind::Gt
            | TokenKind::Lt
            | TokenKind::Ge
            | TokenKind::Le => true,
            _ => false,
        }
    }

    /// Whether the token is the sign of a unary operation.
    pub fn is_unary(&self) -> (res: bool)
        ensures
            res == (self.kind is Minus),
    {
        match self.kind {
            TokenKind::Minus => true,
            _ => false,
        }
    }

    /// The error for this token where one of the kinds `expected_kinds` was
    /// due.
    pub fn error_token_kind_mismatch(&self, expected_kinds: Vec<TokenKind>) -> (res: SyntaxError)
        ensures
            res@ == mismatch(expected_kinds@, *self),
    {
        let mut message = String::new();
        if expected_kinds.len() == 0 {
            message.append("expected no token; but got token of kind '");
            message.append(self.kind.text());
            message.append("'");
            assert(message@ =~= mismatch(expected_kinds@, *self).message);
        } else if expected_kinds.len() == 1 {
            message.append("expected token of kind '");
            message.append(expected_kinds[0].text());
            message.append("'; but got '");
            message.append(self.kind.text());
            message.append("'");
            assert(message@ =~= mismatch(expected_kinds@, *self).message);
        } else {
            let ghost texts = texts_of(expected_kinds@);
            let mut list = String::from_str(expected_kinds[0].text());
            let mut i: usize = 1;
            assert(texts.take(1) =~= seq![texts[0]]);
            while i < expected_kinds.len()
                invariant
                    1 <= i <= expected_kinds.len(),
                    texts == texts_of(expected_kinds@),
                    list@ == alternatives(texts.take(i as int)),
                decreases expected_kinds.len() - i,
            {
                proof {
                    assert(texts.take(i as int + 1).drop_last() =~= texts.take(i as int));
                }
                list.append(" | ");
                list.append(expected_kinds[i].text());
                i += 1;
            }
            assert(texts.take(expected_kinds.len() as int) =~= texts);
            message.append("expected token of kinds '");
            message.append(list.as_str());
            message.append("'; but got '");
            message.append(self.kind.text());
            message.append("'");
            assert(message@ =~= mismatch(expected_kinds@, *self).message);
        }
        SyntaxError { loc: self.loc.clone(), message }
    }

    /// Checks that the token is of the kind `expected_kind`; an identifier
    /// stands for every identifier and a number for every number.
    pub fn assert_token_kind(&self, expected_kind: TokenKind) -> (res: Result<(), SyntaxError>)
        ensures
            match res {
                Ok(_) => kind_tag(self.kind) == kind_tag(expected_kind),
                Err(e) => kind_tag(self.kind) != kind_tag(expected_kind) && e@ == mismatch(
                    seq![expected_kind],
                    *self,
                ),
            },
    {
        if self.kind.tag() == expected_kind.tag() {
            Ok(())
        } else {
            let mut expected: Vec<TokenKind> = Vec::new();
            expected.push(expected_kind);
            assert(expected@ =~= seq![expected_kind]);
            Err(self.error_token_kind_mismatch(expected))
        }
    }
}

} // verus!
