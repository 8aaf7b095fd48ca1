use irl::fe::ast::{ArithOp, AstNode, RelOp, UnaryOp};
use irl::fe::lexer::{tokenize_line, Lexer};
use irl::fe::loc::Loc;
use irl::fe::parser::{
    assert_n_eat, build_ast_prec, eat_iden, eat_num, eat_operand, parse_assignment, parse_comment,
    parse_function, parse_goto, parse_if, parse_label, parse_param, parse_ret, token_prec, Parser,
};
use irl::fe::grammar::Precedence;
use irl::fe::token::{SyntaxError, Token, TokenKind};

fn lex(text: &str) -> Vec<Token> {
    let lines: Vec<String> = text.lines().map(|l| l.to_string()).collect();
    Lexer::new(&lines, "t.irl".to_string()).unwrap().tokens
}

fn lex_error(text: &str) -> SyntaxError {
    let lines: Vec<String> = text.lines().map(|l| l.to_string()).collect();
    Lexer::new(&lines, "t.irl".to_string()).unwrap_err()
}

fn kinds(tokens: &Vec<Token>) -> Vec<String> {
    tokens.iter().map(|t| format!("{:?}", t.kind)).collect()
}

fn parse(text: &str) -> Vec<AstNode> {
    Parser::new(lex(text)).unwrap().nodes
}

fn parse_error(text: &str) -> SyntaxError {
    Parser::new(lex(text)).unwrap_err()
}

fn text_of(nodes: &Vec<AstNode>) -> String {
    nodes.iter().map(|n| n.to_text()).collect::<Vec<String>>().join("")
}

#[test]
fn an_empty_text_has_no_tokens() {
    let lines: Vec<String> = vec![];
    assert!(Lexer::new(&lines, "t.irl".to_string()).unwrap().tokens.is_empty());
}

#[test]
fn a_line_ends_in_an_end_of_line_token_and_a_text_in_an_end_of_file_token() {
    let tokens = lex("a = 2");
    assert_eq!(kinds(&tokens), vec!["Iden(\"a\")", "Equal", "Num(2)", "Eol", "Eof"]);
    let places: Vec<(usize, usize)> = tokens.iter().map(|t| (t.loc.row, t.loc.col)).collect();
    assert_eq!(places, vec![(1, 1), (1, 3), (1, 5), (1, 6), (1, 6)]);
    assert_eq!(tokens[0].loc.filepath, "t.irl");
}

#[test]
fn white_space_at_the_end_of_a_line_does_not_move_the_end_of_line_token() {
    let tokens = lex("  goto   L   \n");
    assert_eq!(kinds(&tokens), vec!["Goto", "Iden(\"L\")", "Eol", "Eof"]);
    let places: Vec<(usize, usize)> = tokens.iter().map(|t| (t.loc.row, t.loc.col)).collect();
    assert_eq!(places, vec![(1, 3), (1, 10), (1, 11), (1, 11)]);
}

#[test]
fn the_longer_operator_is_taken() {
    let tokens = lex("== = != >= <= > < // / + - * , ( )");
    assert_eq!(
        kinds(&tokens),
        vec![
            "Eq", "Equal", "Neq", "Ge", "Le", "Gt", "Lt", "Comment", "Div", "Plus", "Minus",
            "Mul", "Comma", "LParen", "RParen", "Eol", "Eof"
        ]
    );
    assert_eq!(kinds(&lex("a===b")), vec!["Iden(\"a\")", "Eq", "Equal", "Iden(\"b\")", "Eol", "Eof"]);
}

#[test]
fn keywords_are_told_from_identifiers() {
    let tokens = lex("function arg goto label if param call ret functions alloc load store x1");
    assert_eq!(
        kinds(&tokens),
        vec![
            "Function",
            "Arg",
            "Goto",
            "Label",
            "If",
            "Param",
            "Call",
            "Ret",
            "Iden(\"functions\")",
            "Iden(\"alloc\")",
            "Iden(\"load\")",
            "Iden(\"store\")",
            "Iden(\"x1\")",
            "Eol",
            "Eof"
        ]
    );
}

#[test]
fn numbers_are_read_in_decimal_and_wrap_at_32_bits() {
    assert_eq!(kinds(&lex("0 7 120")), vec!["Num(0)", "Num(7)", "Num(120)", "Eol", "Eof"]);
    assert_eq!(kinds(&lex("2147483647")), vec!["Num(2147483647)", "Eol", "Eof"]);
    assert_eq!(kinds(&lex("2147483648")), vec!["Num(-2147483648)", "Eol", "Eof"]);
    assert_eq!(kinds(&lex("4294967301")), vec!["Num(5)", "Eol", "Eof"]);
    assert_eq!(kinds(&lex("12ab")), vec!["Num(12)", "Iden(\"ab\")", "Eol", "Eof"]);
}

#[test]
fn rows_are_counted_from_one() {
    let tokens = lex("a = 1\n\nret a");
    let rows: Vec<usize> = tokens.iter().map(|t| t.loc.row).collect();
    assert_eq!(rows, vec![1, 1, 1, 1, 2, 3, 3, 3, 3]);
    assert_eq!(tokens[4].loc.col, 1);
}

#[test]
fn a_character_with_which_no_token_starts_is_an_error() {
    let e = lex_error("a = 1\n  b = #");
    assert_eq!(e.message, "unexpected token '#'");
    assert_eq!((e.loc.row, e.loc.col), (2, 7));
    let e = lex_error("a ! b");
    assert_eq!(e.message, "unexpected token '!'");
}

#[test]
fn tokenize_line_gives_the_tokens_of_one_line() {
    let tokens = tokenize_line(&"f".to_string(), 9, "ret 5").unwrap();
    assert_eq!(kinds(&tokens), vec!["Ret", "Num(5)", "Eol"]);
    assert_eq!(tokens[1].loc.row, 9);
}

#[test]
fn token_predicates_tell_the_signs_apart() {
    let t = |kind| Token::new(kind, Loc::null());
    assert!(t(TokenKind::Plus).is_arith() && t(TokenKind::Div).is_arith());
    assert!(!t(TokenKind::Eq).is_arith());
    assert!(t(TokenKind::Le).is_relop() && t(TokenKind::Neq).is_relop());
    assert!(!t(TokenKind::Equal).is_relop());
    assert!(t(TokenKind::Minus).is_unary());
    assert!(!t(TokenKind::Plus).is_unary());
    assert_eq!(ArithOp::new(&t(TokenKind::Mul)).unwrap(), ArithOp::Mul);
    assert_eq!(RelOp::new(&t(TokenKind::Ge)).unwrap(), RelOp::Ge);
    assert_eq!(UnaryOp::new(&t(TokenKind::Minus)).unwrap(), UnaryOp::Neg);
    assert_eq!(
        ArithOp::new(&t(TokenKind::Eq)).unwrap_err().message,
        "expected token of kinds '+ | - | * | /'; but got '=='"
    );
    assert_eq!(
        RelOp::new(&t(TokenKind::Plus)).unwrap_err().message,
        "expected token of kinds '== | != | > | < | >= | <='; but got '+'"
    );
    assert_eq!(
        UnaryOp::new(&t(TokenKind::Plus)).unwrap_err().message,
        "expected token of kind '-'; but got '+'"
    );
}

#[test]
fn token_kinds_compare_and_print() {
    assert!(TokenKind::Iden("a".to_string()).equals(&TokenKind::Iden("a".to_string())));
    assert!(!TokenKind::Iden("a".to_string()).equals(&TokenKind::Iden("b".to_string())));
    assert!(!TokenKind::Num(1).equals(&TokenKind::Num(2)));
    assert!(TokenKind::Eol.equals(&TokenKind::Eol));
    assert!(!TokenKind::Eol.equals(&TokenKind::Eof));
    assert_eq!(TokenKind::Comment.text(), "//");
    assert_eq!(TokenKind::Eof.text(), "EOF");
    assert_eq!(TokenKind::Iden("x".to_string()).text(), "iden");
    assert_eq!(TokenKind::Num(3).tag(), 2);
    assert_eq!(format!("{:?}", TokenKind::Iden("q".to_string()).clone()), "Iden(\"q\")");
}

#[test]
fn a_mismatch_names_what_was_expected() {
    let token = Token::new(TokenKind::Num(4), Loc::new(2, 3, "f".to_string()));
    assert!(token.assert_token_kind(TokenKind::Num(0)).is_ok());
    let e = token.assert_token_kind(TokenKind::Comma).unwrap_err();
    assert_eq!(e.message, "expected token of kind ','; but got 'num'");
    assert_eq!((e.loc.row, e.loc.col), (2, 3));
    let e = token.error_token_kind_mismatch(vec![]);
    assert_eq!(e.message, "expected no token; but got token of kind 'num'");
    let e = token.error_token_kind_mismatch(vec![TokenKind::Eol, TokenKind::Eof, TokenKind::If]);
    assert_eq!(e.message, "expected token of kinds 'EOL | EOF | if'; but got 'num'");
}

#[test]
fn the_eaters_take_one_token() {
    let tokens = lex("x 5 ,");
    let mut ix = 0;
    assert_eq!(eat_iden(&tokens, &mut ix).unwrap(), "x");
    assert_eq!(ix, 1);
    assert_eq!(eat_num(&tokens, &mut ix).unwrap(), 5);
    assert_eq!(ix, 2);
    assert!(assert_n_eat(&tokens, TokenKind::Comma, &mut ix).is_ok());
    assert_eq!(ix, 3);
    let mut ix = 0;
    assert_eq!(eat_num(&tokens, &mut ix).unwrap_err().message, "expected token of kind 'num'; but got 'iden'");
    let mut ix = 2;
    assert_eq!(
        eat_operand(&tokens, &mut ix).unwrap_err().message,
        "expected token of kinds 'iden | num'; but got ','"
    );
    let mut ix = 1;
    assert_eq!(eat_operand(&tokens, &mut ix).unwrap().to_text(), "5");
    assert_eq!(
        assert_n_eat(&tokens, TokenKind::Eol, &mut ix).unwrap_err().message,
        "expected token of kind 'EOL'; but got ','"
    );
}

#[test]
fn statements_parse_to_their_nodes() {
    let mut ix = 0;
    assert_eq!(parse_goto(&lex("goto L"), &mut ix).unwrap().to_text(), "goto L\n");
    assert_eq!(ix, 3);
    let mut ix = 0;
    assert_eq!(parse_ret(&lex("ret 5"), &mut ix).unwrap().to_text(), "ret 5\n");
    let mut ix = 0;
    assert_eq!(
        parse_if(&lex("if (a <= 3) goto L"), &mut ix).unwrap().to_text(),
        "if (a <= 3) goto L\n"
    );
    assert_eq!(ix, 9);
    for line in ["c = a + b", "c = a / 2", "c = a != b", "c = -a", "c = 7", "c = b"] {
        let mut ix = 0;
        assert_eq!(parse_assignment(&lex(line), &mut ix).unwrap().to_text(), format!("{}\n", line));
    }
    let mut ix = 0;
    assert_eq!(parse_assignment(&lex("y = call f, 0"), &mut ix).unwrap().to_text(), "y = call f, 0\n");
    assert_eq!(ix, 7);
    let mut ix = 0;
    assert_eq!(
        parse_param(&lex("param a\nparam 3\ny = call f, 2"), &mut ix).unwrap().to_text(),
        "param a\nparam 3\ny = call f, 2\n"
    );
}

#[test]
fn statements_that_are_cut_short_are_errors() {
    let mut ix = 0;
    assert_eq!(
        parse_goto(&lex("goto"), &mut ix).unwrap_err().message,
        "expected token of kind 'iden'; but got 'EOL'"
    );
    let mut ix = 0;
    assert_eq!(
        parse_if(&lex("if (a + 3) goto L"), &mut ix).unwrap_err().message,
        "expected token of kinds '== | != | > | < | >= | <='; but got '+'"
    );
    let mut ix = 0;
    assert_eq!(
        parse_assignment(&lex("c = a + "), &mut ix).unwrap_err().message,
        "expected token of kinds 'iden | num'; but got 'EOL'"
    );
    let mut ix = 0;
    assert_eq!(
        parse_assignment(&lex("y = call f, 2"), &mut ix).unwrap_err().message,
        "expected param count to be '0'; but found '2'"
    );
    let mut ix = 0;
    let e = parse_param(&lex("param a\ny = call f, 3"), &mut ix).unwrap_err();
    assert_eq!(e.message, "expected param count to be '1'; but found '3'");
    assert_eq!((e.loc.row, e.loc.col), (2, 13));
}

#[test]
fn a_comment_runs_to_the_end_of_its_line() {
    let tokens = lex("// a b c\nret 1");
    let mut ix = 0;
    assert!(parse_comment(&tokens, &mut ix).is_ok());
    assert_eq!(ix, 5);
    assert_eq!(text_of(&parse("// a = 1\nret 1\n// ret 2\n")), "ret 1\n");
    assert_eq!(
        parse_error("ret 1 // ret 2\n").message,
        "expected token of kind 'EOL'; but got '//'"
    );
}

#[test]
fn functions_and_labels_enclose_what_follows_them() {
    let source = "function f, 2\narg a\narg b\nc = a + b\nlabel L\nd = c\ngoto M\nlabel M\nret d\nfunction main, 0\nret 0\n";
    let nodes = parse(source);
    assert_eq!(nodes.len(), 2);
    assert_eq!(
        nodes[0].to_text(),
        "function f, 2\n    arg a\n    arg b\n    c = a + b\n    label L\n        d = c\n        goto M\n    label M\n        ret d\n"
    );
    assert_eq!(nodes[1].to_text(), "function main, 0\n    ret 0\n");
    match &nodes[0] {
        AstNode::Function(f) => {
            assert_eq!(f.args.len(), 2);
            assert_eq!(f.body.len(), 3);
            assert_eq!((f.loc.row, f.loc.col), (1, 1));
        },
        _ => panic!("no function"),
    }
    let tokens = lex(source);
    let mut ix = 0;
    assert!(parse_function(&tokens, &mut ix).is_ok());
    assert!(matches!(tokens[ix].kind, TokenKind::Function));
    let tokens = lex("label L\na = 1\nlabel M\n");
    let mut ix = 0;
    assert_eq!(parse_label(&tokens, &mut ix).unwrap().to_text(), "label L\n    a = 1\n");
    assert!(matches!(tokens[ix].kind, TokenKind::Label));
    let mut ix = 0;
    assert_eq!(build_ast_prec(&tokens, &mut ix, Precedence::Label).unwrap().len(), 0);
    let mut ix = 0;
    assert_eq!(build_ast_prec(&tokens, &mut ix, Precedence::Function).unwrap().len(), 2);
    assert_eq!(token_prec(&tokens[0]), Precedence::Label);
}

#[test]
fn a_token_with_which_no_instruction_starts_is_an_error() {
    let e = parse_error("a = 1\n+ 2");
    assert_eq!(
        e.message,
        "expected token of kinds 'function | label | goto | iden | ret | param | if | EOL'; but got '+'"
    );
    assert_eq!((e.loc.row, e.loc.col), (2, 1));
    let e = parse_error("function f, 1\nret 0");
    assert_eq!(e.message, "expected token of kind 'arg'; but got 'ret'");
}
