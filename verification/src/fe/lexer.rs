use vstd::prelude::*;
use vstd::string::StrSliceExecFns;
use crate::fe::grammar::{ends_in_eof};
use crate::fe::loc::{Loc, LocView};
use crate::fe::token::{kind_tag, Failure, SyntaxError, Token, TokenKind};

verus! {

/// Whether a character is white space. The classes of characters are those
/// of the Unicode standard, as the standard library decides them.
pub uninterp spec fn is_space(c: char) -> bool;

/// Whether a character is a letter.
pub uninterp spec fn is_letter(c: char) -> bool;

/// Whether a character is a letter or a numeric character.
pub uninterp spec fn is_letter_or_numeric(c: char) -> bool;

/// Whether a character is a numeric character.
pub uninterp spec fn is_numeric(c: char) -> bool;

/// `char::is_whitespace` of the standard library: whether the character has
/// the Unicode property `White_Space`. The result depends on the character
/// alone.
#[verifier::external_body]
fn char_is_whitespace(c: char) -> (res: bool)
    ensures
        res == is_space(c),
{
    c.is_whitespace()
}

/// `char::is_alphabetic` of the standard library: whether the character has
/// the Unicode property `Alphabetic`. The result depends on the character
/// alone.
#[verifier::external_body]
fn char_is_alphabetic(c: char) -> (res: bool)
    ensures
        res == is_letter(c),
{
    c.is_alphabetic()
}

/// `char::is_alphanumeric` of the standard library: whether the character
/// is alphabetic or numeric. The result depends on the character alone.
#[verifier::external_body]
fn char_is_alphanumeric(c: char) -> (res: bool)
    ensures
        res == is_letter_or_numeric(c),
{
    c.is_alphanumeric()
}

/// `char::is_numeric` of the standard library: whether the character is in
/// one of the Unicode general categories for numbers. The result depends on
/// the character alone.
#[verifier::external_body]
fn char_is_numeric(c: char) -> (res: bool)
    ensures
        res == is_numeric(c),
{
    c.is_numeric()
}

/// What a token says: its kind by its place in the list of kinds, the name
/// that an identifier holds, the number that a number holds, and its
/// position.
pub struct Lexeme {
    pub tag: int,
    pub name: Seq<char>,
    pub num: i32,
    pub loc: LocView,
}

/// What a token says.
pub open spec fn lexeme_of(token: Token) -> Lexeme {
    Lexeme {
        tag: kind_tag(token.kind),
        name: match token.kind {
            TokenKind::Iden(name) => name@,
            _ => Seq::empty(),
        },
        num: match token.kind {
            TokenKind::Num(num) => num,
            _ => 0,
        },
        loc: token.loc@,
    }
}

/// What the tokens of a list say.
pub open spec fn lexemes_of(tokens: Seq<Token>) -> Seq<Lexeme> {
    Seq::new(tokens.len(), |i: int| lexeme_of(tokens[i]))
}

/// A token without a name or a number.
pub open spec fn plain(tag: int, loc: LocView) -> Lexeme {
    Lexeme { tag, name: Seq::empty(), num: 0, loc }
}

/// The position of the character `at` of line `row` of `file`: columns are
/// counted from one.
pub open spec fn place(file: Seq<char>, row: usize, at: int) -> LocView {
    LocView { row, col: (at + 1) as usize, filepath: file }
}

/// The index of the first character from `at` on that is no white space.
pub open spec fn skip_spaces(line: Seq<char>, at: int) -> int
    decreases line.len() - at,
{
    if 0 <= at < line.len() && is_space(line[at]) {
        skip_spaces(line, at + 1)
    } else {
        at
    }
}

/// Whether `word` stands in `line` at `at`.
pub open spec fn stands_at(line: Seq<char>, at: int, word: Seq<char>) -> bool {
    0 <= at && at + word.len() <= line.len() && line.subrange(at, at + word.len()) == word
}

/// The operator that stands at `at`: its kind and its length. Where one
/// operator starts another, the longer one is meant.
pub open spec fn operator_at(line: Seq<char>, at: int) -> Option<(int, int)> {
    if stands_at(line, at, "=="@) {
        Some((19, 2))
    } else if stands_at(line, at, "="@) {
        Some((5, 1))
    } else if stands_at(line, at, "+"@) {
        Some((6, 1))
    } else if stands_at(line, at, "-"@) {
        Some((7, 1))
    } else if stands_at(line, at, "*"@) {
        Some((8, 1))
    } else if stands_at(line, at, "//"@) {
        Some((9, 2))
    } else if stands_at(line, at, "/"@) {
        Some((13, 1))
    } else if stands_at(line, at, "!="@) {
        Some((20, 2))
    } else if stands_at(line, at, ">="@) {
        Some((23, 2))
    } else if stands_at(line, at, "<="@) {
        Some((24, 2))
    } else if stands_at(line, at, ">"@) {
        Some((21, 1))
    } else if stands_at(line, at, "<"@) {
        Some((22, 1))
    } else if stands_at(line, at, ","@) {
        Some((3, 1))
    } else if stands_at(line, at, "("@) {
        Some((17, 1))
    } else if stands_at(line, at, ")"@) {
        Some((18, 1))
    } else {
        None
    }
}

/// The kind of a keyword, if the word is one.
pub open spec fn keyword(word: Seq<char>) -> Option<int> {
    if word == "function"@ {
        Some(0)
    } else if word == "arg"@ {
        Some(4)
    } else if word == "goto"@ {
        Some(14)
    } else if word == "label"@ {
        Some(15)
    } else if word == "if"@ {
        Some(16)
    } else if word == "param"@ {
        Some(25)
    } else if word == "call"@ {
        Some(26)
    } else if word == "ret"@ {
        Some(27)
    } else {
        None
    }
}

/// The index behind the letters and numeric characters from `at` on.
pub open spec fn word_end(line: Seq<char>, at: int) -> int
    decreases line.len() - at,
{
    if 0 <= at < line.len() && is_letter_or_numeric(line[at]) {
        word_end(line, at + 1)
    } else {
        at
    }
}

/// The index behind the numeric characters from `at` on.
pub open spec fn number_end(line: Seq<char>, at: int) -> int
    decreases line.len() - at,
{
    if 0 <= at < line.len() && is_numeric(line[at]) {
        number_end(line, at + 1)
    } else {
        at
    }
}

/// The number that a character adds to a numeral: its distance from `0`.
pub open spec fn digit_of(c: char) -> i32 {
    (c as u32 as i32 - 48) as i32
}

/// The number that the characters from `from` up to `to` spell, in 32 bits:
/// each character takes the number so far times ten, plus its distance from
/// `0`, and what leaves 32 bits wraps around.
pub open spec fn number_value(line: Seq<char>, from: int, to: int) -> i32
    decreases to - from,
{
    if to <= from {
        0
    } else {
        vstd::wrapping::i32_specs::wrapping_add(
            vstd::wrapping::i32_specs::wrapping_mul(number_value(line, from, to - 1), 10),
            digit_of(line[to - 1]),
        )
    }
}

/// The error for a character with which no token starts.
pub open spec fn stray(file: Seq<char>, row: usize, line: Seq<char>, at: int) -> Failure {
    Failure { loc: place(file, row, at), message: "unexpected token '"@.push(line[at]) + "'"@ }
}

/// The tokens of a line from the character `at` on, with the end-of-line
/// token as the last: operators, keywords, identifiers and numbers, with
/// white space between them passed over.
pub open spec fn lex_line(file: Seq<char>, row: usize, line: Seq<char>, at: int) -> Result<
    Seq<Lexeme>,
    Failure,
>
    decreases line.len() - at,
{
    let start = skip_spaces(line, at);
    if !(0 <= at <= start < line.len()) {
        Ok(seq![plain(28, place(file, row, at))])
    } else {
        let loc = place(file, row, start);
        let next = if operator_at(line, start) is Some {
            Some((plain(operator_at(line, start).unwrap().0, loc), start + operator_at(line, start).unwrap().1))
        } else if is_letter(line[start]) {
            let end = word_end(line, start + 1);
            let word = line.subrange(start, end);
            Some(
                (
                    match keyword(word) {
                        Some(tag) => plain(tag, loc),
                        None => Lexeme { tag: 1, name: word, num: 0, loc },
                    },
                    end,
                ),
            )
        } else if is_numeric(line[start]) {
            let end = number_end(line, start);
            Some((Lexeme { tag: 2, name: Seq::empty(), num: number_value(line, start, end), loc }, end))
        } else {
            None
        };
        match next {
            None => Err(stray(file, row, line, start)),
            Some((lexeme, end)) => if !(start < end <= line.len()) {
                Err(stray(file, row, line, start))
            } else {
                match lex_line(file, row, line, end) {
                    Ok(rest) => Ok(seq![lexeme] + rest),
                    Err(failure) => Err(failure),
                }
            },
        }
    }
}


/// The tokens `before` followed by what is given for the rest.
pub open spec fn behind(before: Seq<Lexeme>, rest: Result<Seq<Lexeme>, Failure>) -> Result<
    Seq<Lexeme>,
    Failure,
> {
    match rest {
        Ok(more) => Ok(before + more),
        Err(failure) => Err(failure),
    }
}

/// The tokens of the first `upto` lines of a text; the lines are numbered
/// from one.
pub open spec fn lex_lines(file: Seq<char>, lines: Seq<Seq<char>>, upto: int) -> Result<
    Seq<Lexeme>,
    Failure,
>
    decreases upto,
{
    if upto <= 0 {
        Ok(Seq::empty())
    } else {
        match lex_lines(file, lines, upto - 1) {
            Ok(before) => behind(before, lex_line(file, upto as usize, lines[upto - 1], 0)),
            Err(failure) => Err(failure),
        }
    }
}

/// The tokens of a text: nothing for a text without lines, else the tokens
/// of its lines and the end-of-file token, at the position of the last
/// end-of-line token.
pub open spec fn lex(file: Seq<char>, lines: Seq<Seq<char>>) -> Result<Seq<Lexeme>, Failure> {
    if lines.len() == 0 {
        Ok(Seq::empty())
    } else {
        match lex_lines(file, lines, lines.len() as int) {
            Ok(tokens) => Ok(tokens.push(plain(29, tokens.last().loc))),
            Err(failure) => Err(failure),
        }
    }
}

proof fn lemma_stands_at_one(line: Seq<char>, at: int, c: char)
    requires
        0 <= at,
    ensures
        stands_at(line, at, seq![c]) <==> at < line.len() && line[at] == c,
{
    if at < line.len() {
        let part = line.subrange(at, at + 1);
        assert(part[0] == line[at]);
        if line[at] == c {
            assert(part =~= seq![c]);
        } else {
            assert(seq![c][0] == c);
        }
    }
}

proof fn lemma_stands_at_two(line: Seq<char>, at: int, c: char, d: char)
    requires
        0 <= at,
    ensures
        stands_at(line, at, seq![c, d]) <==> at + 1 < line.len() && line[at] == c && line[at + 1]
            == d,
{
    if at + 1 < line.len() {
        let part = line.subrange(at, at + 2);
        assert(part[0] == line[at]);
        assert(part[1] == line[at + 1]);
        if line[at] == c && line[at + 1] == d {
            assert(part =~= seq![c, d]);
        } else {
            assert(seq![c, d][0] == c);
            assert(seq![c, d][1] == d);
        }
    }
}

/// The operator that stands at `at`, and its length.
fn operator(line: &str, at: usize, n: usize) -> (res: Option<(TokenKind, usize)>)
    requires
        n == line@.len(),
        at < n,
    ensures
        match res {
            Some((kind, len)) => operator_at(line@, at as int) == Some((kind_tag(kind), len as int))
                && 1 <= len <= 2 && at + len <= n && !(kind is Iden) && !(kind is Num),
            None => operator_at(line@, at as int) is None,
        },
{
    let c = line.get_char(at);
    let d = if at + 1 < n {
        Some(line.get_char(at + 1))
    } else {
        None
    };
    proof {
        reveal_strlit("==");
        reveal_strlit("=");
        reveal_strlit("+");
        reveal_strlit("-");
        reveal_strlit("*");
        reveal_strlit("//");
        reveal_strlit("/");
        reveal_strlit("!=");
        reveal_strlit(">=");
        reveal_strlit("<=");
        reveal_strlit(">");
        reveal_strlit("<");
        reveal_strlit(",");
        reveal_strlit("(");
        reveal_strlit(")");
        assert("=="@ =~= seq!['=', '=']);
        assert("="@ =~= seq!['=']);
        assert("+"@ =~= seq!['+']);
        assert("-"@ =~= seq!['-']);
        assert("*"@ =~= seq!['*']);
        assert("//"@ =~= seq!['/', '/']);
        assert("/"@ =~= seq!['/']);
        assert("!="@ =~= seq!['!', '=']);
        assert(">="@ =~= seq!['>', '=']);
        assert("<="@ =~= seq!['<', '=']);
        assert(">"@ =~= seq!['>']);
        assert("<"@ =~= seq!['<']);
        assert(","@ =~= seq![',']);
        assert("("@ =~= seq!['(']);
        assert(")"@ =~= seq![')']);
        lemma_stands_at_two(line@, at as int, '=', '=');
        lemma_stands_at_one(line@, at as int, '=');
        lemma_stands_at_one(line@, at as int, '+');
        lemma_stands_at_one(line@, at as int, '-');
        lemma_stands_at_one(line@, at as int, '*');
        lemma_stands_at_two(line@, at as int, '/', '/');
        lemma_stands_at_one(line@, at as int, '/');
        lemma_stands_at_two(line@, at as int, '!', '=');
        lemma_stands_at_two(line@, at as int, '>', '=');
        lemma_stands_at_two(line@, at as int, '<', '=');
        lemma_stands_at_one(line@, at as int, '>');
        lemma_stands_at_one(line@, at as int, '<');
        lemma_stands_at_one(line@, at as int, ',');
        lemma_stands_at_one(line@, at as int, '(');
        lemma_stands_at_one(line@, at as int, ')');
    }
    let followed_by_equal = match d {
        Some(e) => e == '=',
        None => false,
    };
    let followed_by_slash = match d {
        Some(e) => e == '/',
        None => false,
    };
    if c == '=' {
        if followed_by_equal {
            Some((TokenKind::Eq, 2))
        } else {
            Some((TokenKind::Equal, 1))
        }
    } else if c == '+' {
        Some((TokenKind::Plus, 1))
    } else if c == '-' {
        Some((TokenKind::Minus, 1))
    } else if c == '*' {
        Some((TokenKind::Mul, 1))
    } else if c == '/' {
        if followed_by_slash {
            Some((TokenKind::Comment, 2))
        } else {
            Some((TokenKind::Div, 1))
        }
    } else if c == '!' {
        if followed_by_equal {
            Some((TokenKind::Neq, 2))
        } else {
            None
        }
    } else if c == '>' {
        if followed_by_equal {
            Some((TokenKind::Ge, 2))
        } else {
            Some((TokenKind::Gt, 1))
        }
    } else if c == '<' {
        if followed_by_equal {
            Some((TokenKind::Le, 2))
        } else {
            Some((TokenKind::Lt, 1))
        }
    } else if c == ',' {
        Some((TokenKind::Comma, 1))
    } else if c == '(' {
        Some((TokenKind::LParen, 1))
    } else if c == ')' {
        Some((TokenKind::RParen, 1))
    } else {
        None
    }
}

/// The keyword that a word is, or the identifier that it is.
fn word_kind(word: &str) -> (res: TokenKind)
    ensures
        match keyword(word@) {
            Some(tag) => kind_tag(res) == tag && !(res is Iden) && !(res is Num),
            None => res matches TokenKind::Iden(name) && name@ == word@,
        },
{
    let text = String::from_str(word);
    if text == String::from_str("function") {
        TokenKind::Function
    } else if text == String::from_str("arg") {
        TokenKind::Arg
    } else if text == String::from_str("goto") {
        TokenKind::Goto
    } else if text == String::from_str("label") {
        TokenKind::Label
    } else if text == String::from_str("if") {
        TokenKind::If
    } else if text == String::from_str("param") {
        TokenKind::Param
    } else if text == String::from_str("call") {
        TokenKind::Call
    } else if text == String::from_str("ret") {
        TokenKind::Ret
    } else {
        TokenKind::Iden(text)
    }
}


/// The tokens of a text.
#[derive(Debug)]
pub struct Lexer {
    pub tokens: Vec<Token>,
}

/// What an executable lexer gave agrees with what the definition gives.
pub open spec fn lexed(res: Result<Vec<Token>, SyntaxError>, want: Result<Seq<Lexeme>, Failure>) -> bool {
    match res {
        Ok(tokens) => want == Ok::<Seq<Lexeme>, Failure>(lexemes_of(tokens@)),
        Err(e) => want == Err::<Seq<Lexeme>, Failure>(e@),
    }
}

/// The error for a character with which no token starts.
fn stray_error(filepath: &String, row: usize, line: &str, at: usize) -> (res: SyntaxError)
    requires
        at < line@.len(),
        at < usize::MAX,
    ensures
        res@ == stray(filepath@, row, line@, at as int),
{
    let mut message = String::from_str("unexpected token '");
    let one = line.substring_char(at, at + 1);
    assert(one@ =~= seq![line@[at as int]]);
    message.append(one);
    message.append("'");
    assert(message@ =~= "unexpected token '"@.push(line@[at as int]) + "'"@);
    SyntaxError { loc: Loc::new(row, at + 1, filepath.clone()), message }
}

/// The tokens of one line, with the end-of-line token as the last.
pub fn tokenize_line(filepath: &String, row: usize, line: &str) -> (res: Result<Vec<Token>, SyntaxError>)
    requires
        line@.len() < usize::MAX,
    ensures
        lexed(res, lex_line(filepath@, row, line@, 0)),
        res matches Ok(tokens) ==> tokens.len() > 0 && tokens@.last().kind is Eol && forall|i: int|
            0 <= i < tokens.len() ==> !((#[trigger] tokens@[i]).kind is Eof),
{
    let n = line.unicode_len();
    let ghost file = filepath@;
    let ghost want = lex_line(file, row, line@, 0);
    let mut tokens: Vec<Token> = Vec::new();
    let mut at: usize = 0;
    assert(lexemes_of(tokens@) =~= Seq::<Lexeme>::empty());
    assert(behind(Seq::<Lexeme>::empty(), want) == want) by {
        if want is Ok {
            assert(Seq::<Lexeme>::empty() + want->Ok_0 =~= want->Ok_0);
        }
    }
    loop
        invariant_except_break
            want == behind(lexemes_of(tokens@), lex_line(file, row, line@, at as int)),
        invariant
            n == line@.len(),
            n < usize::MAX,
            file == filepath@,
            at <= n,
            want == lex_line(file, row, line@, 0),
            forall|i: int| 0 <= i < tokens.len() ==> !((#[trigger] tokens@[i]).kind is Eof),
        ensures
            want == behind(
                lexemes_of(tokens@),
                Ok::<Seq<Lexeme>, Failure>(seq![plain(28, place(file, row, at as int))]),
            ),
        decreases n - at,
    {
        let mut start: usize = at;
        while start < n && char_is_whitespace(line.get_char(start))
            invariant
                n == line@.len(),
                at <= start <= n,
                skip_spaces(line@, at as int) == skip_spaces(line@, start as int),
            decreases n - start,
        {
            start += 1;
        }
        if start >= n {
            break ;
        }
        let ghost before = lexemes_of(tokens@);
        let loc = Loc::new(row, start + 1, filepath.clone());
        let c = line.get_char(start);
        let end: usize;
        let kind: TokenKind;
        match operator(line, start, n) {
            Some((k, len)) => {
                kind = k;
                end = start + len;
            },
            None => {
                if char_is_alphabetic(c) {
                    let mut stop: usize = start + 1;
                    while stop < n && char_is_alphanumeric(line.get_char(stop))
                        invariant
                            n == line@.len(),
                            start < stop <= n,
                            word_end(line@, start + 1) == word_end(line@, stop as int),
                        decreases n - stop,
                    {
                        stop += 1;
                    }
                    kind = word_kind(line.substring_char(start, stop));
                    end = stop;
                } else if char_is_numeric(c) {
                    let mut stop: usize = start;
                    let mut num: i32 = 0;
                    while stop < n && char_is_numeric(line.get_char(stop))
                        invariant
                            n == line@.len(),
                            start <= stop <= n,
                            number_end(line@, start as int) == number_end(line@, stop as int),
                            num == number_value(line@, start as int, stop as int),
                        decreases n - stop,
                    {
                        let digit = (line.get_char(stop) as u32) as i32 - 48;
                        num = num.wrapping_mul(10).wrapping_add(digit);
                        stop += 1;
                    }
                    kind = TokenKind::Num(num);
                    end = stop;
                } else {
                    return Err(stray_error(filepath, row, line, start));
                }
            },
        }
        let token = Token::new(kind, loc);
        tokens.push(token);
        proof {
            assert(lexemes_of(tokens@) =~= before.push(lexeme_of(token)));
            let rest = lex_line(file, row, line@, end as int);
            if rest is Ok {
                assert(before + (seq![lexeme_of(token)] + rest->Ok_0) =~= before.push(
                    lexeme_of(token),
                ) + rest->Ok_0);
            }
        }
        at = end;
    }
    let ghost before = lexemes_of(tokens@);
    let token = Token::new(TokenKind::Eol, Loc::new(row, at + 1, filepath.clone()));
    tokens.push(token);
    proof {
        assert(lexemes_of(tokens@) =~= before + seq![plain(28, place(file, row, at as int))]);
    }
    Ok(tokens)
}

impl Lexer {
    /// The tokens of a text, given as the list of its lines and the name of
    /// its file.
    pub fn new(content: &Vec<String>, filepath: String) -> (res: Result<Self, SyntaxError>)
        requires
            forall|i: int| 0 <= i < content.len() ==> (#[trigger] content@[i])@.len() < usize::MAX,
        ensures
            match res {
                Ok(lexer) => lex(filepath@, crate::fe::ast::names_view(content@)) == Ok::<
                    Seq<Lexeme>,
                    Failure,
                >(lexemes_of(lexer.tokens@)) && (content.len() > 0 ==> ends_in_eof(
                    lexer.tokens@,
                )),
                Err(e) => lex(filepath@, crate::fe::ast::names_view(content@)) == Err::<
                    Seq<Lexeme>,
                    Failure,
                >(e@),
            },
    {
        let ghost lines = crate::fe::ast::names_view(content@);
        let ghost file = filepath@;
        let mut tokens: Vec<Token> = Vec::new();
        assert(lexemes_of(tokens@) =~= Seq::<Lexeme>::empty());
        if content.len() == 0 {
            return Ok(Lexer { tokens });
        }
        let mut i: usize = 0;
        while i < content.len()
            invariant
                i <= content.len(),
                lines == crate::fe::ast::names_view(content@),
                file == filepath@,
                forall|k: int|
                    0 <= k < content.len() ==> (#[trigger] content@[k])@.len() < usize::MAX,
                lex_lines(file, lines, i as int) == Ok::<Seq<Lexeme>, Failure>(
                    lexemes_of(tokens@),
                ),
                i > 0 ==> tokens.len() > 0 && tokens@.last().kind is Eol,
            decreases content.len() - i,
        {
            let ghost before = lexemes_of(tokens@);
            assert(lines[i as int] == content@[i as int]@);
            let mut more = match tokenize_line(&filepath, i + 1, content[i].as_str()) {
                Ok(more) => more,
                Err(e) => {
                    proof {
                        lemma_lex_lines_fails(file, lines, i as int + 1, content.len() as int);
                    }
                    return Err(e);
                },
            };
            let ghost sofar = tokens@;
            let ghost added = more@;
            tokens.append(&mut more);
            assert(lexemes_of(sofar + added) =~= lexemes_of(sofar) + lexemes_of(added));
            i += 1;
        }
        let last = &tokens[tokens.len() - 1];
        let eof = Token::new(TokenKind::Eof, last.loc.clone());
        let ghost before = lexemes_of(tokens@);
        tokens.push(eof);
        assert(lexemes_of(tokens@) =~= before.push(plain(29, before.last().loc)));
        Ok(Lexer { tokens })
    }
}

/// A text whose first lines fail fails as a whole, with their error.
proof fn lemma_lex_lines_fails(file: Seq<char>, lines: Seq<Seq<char>>, upto: int, all: int)
    requires
        0 <= upto <= all,
        lex_lines(file, lines, upto) is Err,
    ensures
        lex_lines(file, lines, all) == lex_lines(file, lines, upto),
    decreases all - upto,
{
    if upto < all {
        lemma_lex_lines_fails(file, lines, upto, all - 1);
    }
}

} // verus!
