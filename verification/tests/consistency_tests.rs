use irl::mw::add_goto_pass::has_label_bodies;
use irl::fe::ast::AstNode;
use irl::opt::cfg::{cfg_from_function, cfg_table_from_program, ControlFlowGraph, Jump};
use irl::opt::constant_propagation_pass::ConstantPropagationPass;
use irl::fe::lexer::Lexer;
use irl::fe::parser::Parser;
use irl::opt::pass::CompilerPass;
use irl::opt::reach::reachable_blocks;
use irl::opt::reduce_pass::ReducePass;

fn program(text: &str) -> Vec<AstNode> {
    let lines: Vec<String> = text.lines().map(|l| l.to_string()).collect();
    Parser::new(Lexer::new(&lines, "t.irl".to_string()).unwrap().tokens).unwrap().nodes
}

fn graph(text: &str) -> ControlFlowGraph {
    cfg_table_from_program(&program(text)).pop().unwrap()
}

const BRANCHES: &str = "function main, 0\nx = 0\nif (1 < 2) goto E\nt = 5\ngoto E\nlabel E\nx = t\ngoto L\nlabel D\ngoto L\nlabel L\ny = x\nif (y < 3) goto L\ngoto F\nlabel F\nret y\n";

#[test]
fn a_built_graph_is_consistent_and_stays_so() {
    let mut cfg = graph(BRANCHES);
    assert!(cfg.is_well_formed());
    ReducePass.run_on_function(&mut cfg);
    assert!(cfg.is_well_formed());
    assert_eq!(reachable_blocks(&cfg), vec![true; cfg.basic_blocks.len()]);
    ConstantPropagationPass.run_on_function(&mut cfg);
    assert!(cfg.is_well_formed());
}

#[test]
fn a_graph_with_a_fault_is_not_consistent() {
    let fresh = || graph(BRANCHES);
    let mut cfg = fresh();
    cfg.entry = cfg.basic_blocks.len();
    assert!(!cfg.is_well_formed());
    let mut cfg = fresh();
    cfg.basic_blocks[0].prevs.push(1);
    assert!(!cfg.is_well_formed());
    let mut cfg = fresh();
    cfg.basic_blocks[0].label = Some("entry".to_string());
    assert!(!cfg.is_well_formed());
    let mut cfg = fresh();
    cfg.basic_blocks[2].id = 7;
    assert!(!cfg.is_well_formed());
    let mut cfg = fresh();
    cfg.basic_blocks[1].prevs.clear();
    assert!(!cfg.is_well_formed());
    let mut cfg = fresh();
    cfg.basic_blocks[1].prevs.push(4);
    assert!(!cfg.is_well_formed());
    let mut cfg = fresh();
    cfg.basic_blocks[1].prevs.push(400);
    assert!(!cfg.is_well_formed());
    let mut cfg = fresh();
    cfg.basic_blocks[0].next = Some(Jump::Unconditional(99));
    assert!(!cfg.is_well_formed());
    let mut cfg = fresh();
    cfg.basic_blocks[0].next = None;
    assert!(!cfg.is_well_formed());
    let mut cfg = fresh();
    cfg.basic_blocks[2].label = Some("other".to_string());
    assert!(!cfg.is_well_formed());
    let mut cfg = fresh();
    cfg.basic_blocks[3].label = Some("other".to_string());
    assert!(!cfg.is_well_formed());
    let mut cfg = fresh();
    cfg.label_table.insert("E".to_string(), 1);
    assert!(!cfg.is_well_formed());
    let mut cfg = fresh();
    cfg.label_table.insert("ghost".to_string(), 1);
    assert!(!cfg.is_well_formed());
}

#[test]
fn a_label_without_instructions_has_no_body() {
    assert!(has_label_bodies(&program("function main, 0\nlabel L\nret 0\n")));
    assert!(!has_label_bodies(&program("function main, 0\nlabel L\nlabel M\nret 0\n")));
    assert!(!has_label_bodies(&program("label L\n")));
    let none: Vec<AstNode> = vec![];
    assert!(has_label_bodies(&none));
}

#[test]
fn a_value_that_was_unknown_early_stays_unknown_around_a_loop() {
    let mut cfg = graph(BRANCHES);
    ReducePass.run_on_function(&mut cfg);
    ConstantPropagationPass.run_on_function(&mut cfg);
    let e = cfg.get_basic_block(&"E".to_string()).unwrap();
    let l = cfg.get_basic_block(&"L".to_string()).unwrap();
    assert_eq!(cfg.basic_blocks[e].to_text(), "x = 5\n");
    assert_eq!(cfg.basic_blocks[l].to_text(), "y = x\n");
    // the literal that the first run put in place of `t` lets a second run
    // see the value of `x` at once
    ConstantPropagationPass.run_on_function(&mut cfg);
    assert_eq!(cfg.basic_blocks[l].to_text(), "y = 5\n");
    let twice = format!("{:?}", cfg);
    ConstantPropagationPass.run_on_function(&mut cfg);
    assert_eq!(format!("{:?}", cfg), twice);
}

#[test]
fn the_graph_of_an_empty_function_is_an_entry_and_an_empty_block() {
    let nodes = program("function main, 0\n");
    let cfg = match &nodes[0] {
        AstNode::Function(f) => cfg_from_function(f),
        _ => panic!("no function"),
    };
    assert_eq!(cfg.basic_blocks.len(), 2);
    assert!(cfg.is_well_formed());
    assert_eq!(cfg.generate_ast().to_text(), "function main, 0\n    label 0\n        goto 1\n    label 1\n");
}

#[test]
fn the_analysis_walks_the_graph_depth_first() {
    // 0 entry, 1 P, 2 E, 3 Q, 4 A, 5 B, 6 C, 7 exit; A -> C -> B -> A is a
    // loop whose blocks are numbered against its direction
    let nodes = program("function main, 0\nret 0\n");
    let f = match &nodes[0] {
        AstNode::Function(f) => f.clone(),
        _ => panic!("no function"),
    };
    let mut cfg = ControlFlowGraph::new(
        irl::fe::ast::FunctionAstNode { name: f.name, args: vec![], body: vec![], loc: f.loc },
        irl::opt::cfg::BasicBlock::new(0),
    );
    for id in 1..8 {
        cfg.add_basic_block(irl::opt::cfg::BasicBlock::new(id));
    }
    let stmt = |text: &str| program(text).pop().unwrap();
    let cond = match stmt("if (1 < 2) goto X") {
        AstNode::If(i) => *i.condition,
        _ => panic!("no branch"),
    };
    cfg.link_unconditional(0, 1);
    cfg.link_conditional(1, cond.clone(), 2, 3);
    cfg.push_inst(2, stmt("v = t"));
    cfg.link_unconditional(2, 4);
    cfg.push_inst(3, stmt("t = 5"));
    cfg.link_unconditional(3, 2);
    cfg.link_unconditional(4, 6);
    cfg.link_unconditional(5, 4);
    cfg.link_conditional(6, cond, 5, 7);
    cfg.push_inst(7, stmt("ret v"));
    assert!(cfg.is_well_formed());
    assert_eq!(irl::opt::reach::visit_order(&cfg), vec![0, 1, 2, 4, 6, 5, 7, 3]);
    ConstantPropagationPass.run_on_function(&mut cfg);
    assert_eq!(cfg.basic_blocks[2].to_text(), "v = 5\n");
    assert_eq!(cfg.basic_blocks[7].to_text(), "ret v\n");
    assert!(cfg.is_well_formed());
}
