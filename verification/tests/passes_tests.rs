use irl::mw::add_goto_pass::{add_gotos, AddGotoPass};
use irl::mw::asm_validation_pass::AsmValidationPass;
use irl::fe::ast::AstNode;
use irl::mw::ast_pass::{run_default_ast_pass_manager, AstPass, AstPassKind, AstPassManager};
use irl::fe::lexer::Lexer;
use irl::fe::loc::Loc;
use irl::fe::parser::Parser;
use irl::mw::reduce_ast_pass::{get_useful_labels, reduce_function_node, ReduceAstPass};
use irl::mw::validate_iden_pass::{validate_label, validate_node, Context, ValidateIdenPass};

fn program(text: &str) -> Vec<AstNode> {
    let lines: Vec<String> = text.lines().map(|l| l.to_string()).collect();
    Parser::new(Lexer::new(&lines, "t.irl".to_string()).unwrap().tokens).unwrap().nodes
}

fn text_of(nodes: &Vec<AstNode>) -> String {
    nodes.iter().map(|n| n.to_text()).collect::<Vec<String>>().join("")
}

#[test]
fn a_program_must_be_a_list_of_functions_with_a_main() {
    let mut nodes = program("function main, 0\nret 0\nfunction f, 0\nret 1\n");
    let before = text_of(&nodes);
    assert!(AsmValidationPass.apply(&mut nodes).is_ok());
    assert_eq!(text_of(&nodes), before);
    let mut nodes = program("function f, 0\nret 1\n");
    let e = AsmValidationPass.apply(&mut nodes).unwrap_err();
    assert_eq!(e.message, "program entry point aka function 'main' not found");
    assert_eq!((e.loc.row, e.loc.col), (1, 1));
    let mut nodes = program("function main, 0\nret 1\n");
    nodes.push(AstNode::num(3, Loc::new(7, 2, "t.irl".to_string())));
    nodes.push(AstNode::num(4, Loc::new(8, 2, "t.irl".to_string())));
    let e = AsmValidationPass.apply(&mut nodes).unwrap_err();
    assert_eq!(e.message, "expected top level function instruction");
    assert_eq!((e.loc.row, e.loc.col), (7, 2));
    let mut nodes: Vec<AstNode> = vec![];
    assert!(AsmValidationPass.apply(&mut nodes).is_ok());
    assert_eq!(AsmValidationPass.name(), "asm_validation_pass");
}

#[test]
fn an_identifier_must_be_defined_before_it_is_read() {
    let mut nodes = program("function main, 0\na = 1\nb = a + 2\nret b\n");
    assert!(ValidateIdenPass.apply(&mut nodes).is_ok());
    let mut nodes = program("function main, 0\na = 1\nb = c + 2\nret b\n");
    let e = ValidateIdenPass.apply(&mut nodes).unwrap_err();
    assert_eq!(e.message, "unknown identifier 'c'");
    assert_eq!((e.loc.row, e.loc.col), (3, 1));
    let mut nodes = program("function main, 0\nret z\n");
    assert_eq!(ValidateIdenPass.apply(&mut nodes).unwrap_err().message, "unknown identifier 'z'");
    assert_eq!(ValidateIdenPass.name(), "validate_iden_pass");
}

#[test]
fn what_a_label_defines_is_forgotten_at_its_end() {
    let mut nodes =
        program("function main, 0\ngoto L\nlabel L\nx = 1\ngoto M\nlabel M\nret x\n");
    assert_eq!(ValidateIdenPass.apply(&mut nodes).unwrap_err().message, "unknown identifier 'x'");
    let mut nodes =
        program("function main, 0\nx = 0\ngoto L\nlabel L\nx = 1\ngoto M\nlabel M\nret x\n");
    assert!(ValidateIdenPass.apply(&mut nodes).is_ok());
}

#[test]
fn the_arguments_of_a_function_count_as_read_before_they_are_defined() {
    let mut nodes = program("function f, 1\narg a\nret 0\n");
    assert_eq!(ValidateIdenPass.apply(&mut nodes).unwrap_err().message, "unknown identifier 'a'");
}

#[test]
fn a_jump_must_name_a_label_of_its_function() {
    let mut nodes = program("function main, 0\ngoto L\nlabel L\nret 0\n");
    assert!(ValidateIdenPass.apply(&mut nodes).is_ok());
    let mut nodes = program("function main, 0\ngoto M\nlabel L\nret 0\n");
    let e = ValidateIdenPass.apply(&mut nodes).unwrap_err();
    assert_eq!(e.message, "unknown label identifier 'M'");
    assert_eq!((e.loc.row, e.loc.col), (2, 1));
    let mut nodes = program("function main, 0\nif (1 < 2) goto M\nlabel L\nret 0\n");
    assert_eq!(
        ValidateIdenPass.apply(&mut nodes).unwrap_err().message,
        "unknown label identifier 'M'"
    );
    let mut nodes =
        program("function f, 0\ngoto L\nlabel L\nret 0\nfunction main, 0\ngoto L\n");
    assert_eq!(
        ValidateIdenPass.apply(&mut nodes).unwrap_err().message,
        "unknown label identifier 'L'"
    );
}

#[test]
fn a_label_must_be_new() {
    let mut nodes = program("function main, 0\nlabel L\nret 0\nlabel L\nret 1\n");
    let e = ValidateIdenPass.apply(&mut nodes).unwrap_err();
    assert_eq!(e.message, "label identifier already exists 'L'");
    assert_eq!((e.loc.row, e.loc.col), (4, 1));
}

#[test]
fn the_context_knows_what_was_put_into_it() {
    let mut context = Context::new();
    context.insert_iden("a".to_string());
    context.insert_iden("a".to_string());
    assert_eq!(context.idens, vec!["a"]);
    assert!(context.insert_label(&"L".to_string(), Loc::null()).is_ok());
    assert!(context.insert_label(&"L".to_string(), Loc::null()).is_err());
    assert!(context.validate_label(&"L".to_string(), Loc::null()).is_ok());
    assert_eq!(
        context.validate_label(&"M".to_string(), Loc::null()).unwrap_err().message,
        "unknown label identifier 'M'"
    );
    let copy = context.duplicate();
    assert_eq!(copy.idens, context.idens);
    assert_eq!(copy.labels, context.labels);
    let nodes = program("a = 1\nb = a\ngoto L\ngoto Q\n");
    let mut fresh = Context::new();
    assert!(validate_node(&nodes[0], &mut fresh).is_ok());
    assert!(validate_node(&nodes[1], &mut fresh).is_ok());
    assert_eq!(fresh.idens, vec!["a", "b"]);
    assert!(validate_label(&nodes[2], &context).is_ok());
    assert!(validate_label(&nodes[3], &context).is_err());
}

#[test]
fn falling_into_a_label_becomes_a_jump() {
    let mut nodes = program(
        "function main, 0\na = 1\nlabel L\nb = 2\nlabel M\nc = 3\ngoto N\nlabel N\nret a\nlabel O\nd = 4\n",
    );
    assert!(AddGotoPass.apply(&mut nodes).is_ok());
    assert_eq!(
        text_of(&nodes),
        "function main, 0\n    a = 1\n    goto L\n    label L\n        b = 2\n        goto M\n    label M\n        c = 3\n        goto N\n    label N\n        ret a\n    label O\n        d = 4\n"
    );
    match &nodes[0] {
        AstNode::Function(f) => match &f.body[1] {
            AstNode::Goto(g) => assert_eq!((g.loc.row, g.loc.col), (3, 1)),
            _ => panic!("no jump"),
        },
        _ => panic!("no function"),
    }
    let once = text_of(&nodes);
    assert!(AddGotoPass.apply(&mut nodes).is_ok());
    assert_eq!(text_of(&nodes), once);
    assert_eq!(AddGotoPass.name(), "add_goto_pass");
}

#[test]
fn a_return_or_a_branch_before_a_label_is_followed_by_a_jump_too() {
    let nodes = program("ret 1\nlabel L\nif (1 < 2) goto L\nlabel M\ngoto L\nlabel N\nret 0\n");
    assert_eq!(
        text_of(&add_gotos(&nodes)),
        "ret 1\ngoto L\nlabel L\n    if (1 < 2) goto L\n    goto M\nlabel M\n    goto L\nlabel N\n    ret 0\n"
    );
}

#[test]
fn labels_that_no_jump_names_are_removed() {
    let mut nodes = program(
        "function main, 0\ngoto B\nlabel A\nif (1 < 2) goto C\ngoto A2\nlabel B\nret 0\nlabel C\nret 1\nlabel D\nret 2\n",
    );
    match &nodes[0] {
        AstNode::Function(f) => assert_eq!(get_useful_labels(&f.body), vec!["B", "C", "A2"]),
        _ => panic!("no function"),
    }
    assert!(ReduceAstPass.apply(&mut nodes).is_ok());
    assert_eq!(
        text_of(&nodes),
        "function main, 0\n    goto B\n    label B\n        ret 0\n    label C\n        ret 1\n"
    );
    assert_eq!(ReduceAstPass.name(), "reduce_ast_pass");
    let mut other = program("function g, 0\nlabel X\nret 0\n");
    match other.pop().unwrap() {
        AstNode::Function(mut f) => {
            reduce_function_node(&mut f);
            assert!(f.body.is_empty());
        },
        _ => panic!("no function"),
    }
}

#[test]
fn the_default_passes_check_and_then_add_jumps() {
    let mut nodes = program("function main, 0\na = 1\nlabel L\nret a\n");
    assert!(run_default_ast_pass_manager(&mut nodes).is_ok());
    assert_eq!(
        text_of(&nodes),
        "function main, 0\n    a = 1\n    goto L\n    label L\n        ret a\n"
    );
    let mut nodes = program("function f, 0\nret b\n");
    assert_eq!(
        run_default_ast_pass_manager(&mut nodes).unwrap_err().message,
        "program entry point aka function 'main' not found"
    );
    let mut nodes = program("function main, 0\nret b\n");
    assert_eq!(
        run_default_ast_pass_manager(&mut nodes).unwrap_err().message,
        "unknown identifier 'b'"
    );
}

#[test]
fn a_manager_runs_its_passes_up_to_the_first_that_fails() {
    let mut manager = AstPassManager::new();
    manager.add(AstPassKind::AddGoto(AddGotoPass));
    manager.add(AstPassKind::AsmValidation(AsmValidationPass));
    manager.add(AstPassKind::ReduceAst(ReduceAstPass));
    let mut nodes = program("function f, 0\na = 1\nlabel L\nret a\n");
    let e = manager.run(&mut nodes).unwrap_err();
    assert_eq!(e.message, "program entry point aka function 'main' not found");
    assert_eq!(text_of(&nodes), "function f, 0\n    a = 1\n    goto L\n    label L\n        ret a\n");
    assert_eq!(AstPassKind::ValidateIden(ValidateIdenPass).name(), "validate_iden_pass");
    let empty = AstPassManager::new();
    assert!(empty.run(&mut nodes).is_ok());
}
