use irl::fe::ast::{
    AllocAstNode, ArithAstNode, ArithOp, AssignmentAstNode, AstNode, CallAstNode,
    FunctionAstNode, GotoAstNode, IdenAstNode, IfAstNode, LabelAstNode, LoadAstNode, NumAstNode,
    RelOp, RelopAstNode, RetAstNode, StoreAstNode,
};
use irl::opt::cfg::{cfg_from_function, cfg_table_from_program, BasicBlockRef, ControlFlowGraph, Jump};
use irl::opt::constant_propagation_pass::ConstantPropagationPass;
use irl::fe::loc::Loc;
use irl::opt::pass::{run_default_compiler_pass_manager, CompilerPass, CompilerPassManager, Pass};
use irl::opt::reach::reachable_blocks;
use irl::opt::reduce_pass::ReducePass;

fn iden(name: &str) -> AstNode {
    AstNode::Iden(IdenAstNode { name: name.to_string(), loc: Loc::null() })
}

fn num(n: i32) -> AstNode {
    AstNode::Num(NumAstNode { num: n, loc: Loc::null() })
}

fn assign(name: &str, v: AstNode) -> AstNode {
    AstNode::Assignment(AssignmentAstNode {
        name: name.to_string(),
        var: Box::new(v),
        loc: Loc::null(),
    })
}

fn add(l: AstNode, r: AstNode) -> AstNode {
    AstNode::Arith(ArithAstNode {
        op: ArithOp::Sum,
        lhs: Box::new(l),
        rhs: Box::new(r),
        loc: Loc::null(),
    })
}

fn less(l: AstNode, r: AstNode) -> AstNode {
    AstNode::Relop(RelopAstNode {
        op: RelOp::Lt,
        lhs: Box::new(l),
        rhs: Box::new(r),
        loc: Loc::null(),
    })
}

fn ret(v: AstNode) -> AstNode {
    AstNode::Ret(RetAstNode { var: Box::new(v), loc: Loc::null() })
}

fn goto(name: &str) -> AstNode {
    AstNode::Goto(GotoAstNode { name: name.to_string(), loc: Loc::null() })
}

fn label(name: &str, body: Vec<AstNode>) -> AstNode {
    AstNode::Label(LabelAstNode { name: name.to_string(), body, loc: Loc::null() })
}

fn branch(cond: AstNode, name: &str) -> AstNode {
    AstNode::If(IfAstNode { condition: Box::new(cond), label: name.to_string(), loc: Loc::null() })
}

fn function(name: &str, body: Vec<AstNode>) -> FunctionAstNode {
    FunctionAstNode { name: name.to_string(), args: vec![], body, loc: Loc::null() }
}

fn show(node: &AstNode) -> String {
    format!("{:?}", node)
}

fn insts(cfg: &ControlFlowGraph, block: usize) -> Vec<String> {
    cfg.basic_blocks[block].insts.iter().map(show).collect()
}

fn optimize(f: FunctionAstNode) -> ControlFlowGraph {
    let mut table = cfg_table_from_program(&vec![AstNode::Function(f)]);
    run_default_compiler_pass_manager(&mut table);
    table.pop().unwrap()
}

#[test]
fn a_function_starts_with_an_empty_entry_that_jumps_to_its_first_block() {
    let cfg = cfg_from_function(&function("main", vec![assign("a", num(1)), ret(iden("a"))]));
    assert_eq!(cfg.entry, 0);
    assert_eq!(cfg.basic_blocks.len(), 2);
    assert!(cfg.basic_blocks[0].insts.is_empty());
    assert!(cfg.basic_blocks[0].prevs.is_empty());
    assert_eq!(cfg.basic_blocks[0].successors(), vec![1]);
    assert_eq!(cfg.basic_blocks[1].prevs, vec![0]);
    assert_eq!(cfg.basic_blocks[1].insts.len(), 2);
    assert!(cfg.basic_blocks[1].successors().is_empty());
    assert_eq!(BasicBlockRef(1).borrow(&cfg).id, 1);
}

#[test]
fn code_between_a_goto_and_the_next_label_is_dropped() {
    let body = vec![
        assign("a", num(1)),
        goto("L2"),
        assign("dead", num(9)),
        label("L2", vec![ret(iden("a"))]),
    ];
    let cfg = cfg_from_function(&function("main", body));
    assert_eq!(cfg.basic_blocks.len(), 3);
    for block in cfg.basic_blocks.iter() {
        for inst in block.insts.iter() {
            assert!(!show(inst).contains("dead"));
        }
    }
    assert_eq!(insts(&cfg, 1), vec![show(&assign("a", num(1)))]);
    assert_eq!(cfg.basic_blocks[1].successors(), vec![2]);
    assert_eq!(cfg.basic_blocks[2].label, Some("L2".to_string()));
    assert_eq!(cfg.basic_blocks[2].prevs, vec![1]);
    assert_eq!(insts(&cfg, 2), vec![show(&ret(iden("a")))]);
}

#[test]
fn code_after_a_return_is_dropped_up_to_the_next_label() {
    let body = vec![
        ret(num(0)),
        assign("dead", num(9)),
        goto("L"),
        branch(less(num(0), num(1)), "L"),
        label("L", vec![ret(num(1))]),
    ];
    let cfg = cfg_from_function(&function("main", body));
    assert_eq!(cfg.basic_blocks.len(), 3);
    assert_eq!(insts(&cfg, 1), vec![show(&ret(num(0)))]);
    assert!(cfg.basic_blocks[1].successors().is_empty());
    assert!(cfg.basic_blocks[2].prevs.is_empty());
}

#[test]
fn a_goto_ends_the_body_of_a_label() {
    let body = vec![
        goto("A"),
        label("A", vec![assign("x", num(1)), goto("B"), assign("dead", num(2))]),
        label("B", vec![ret(iden("x"))]),
    ];
    let cfg = cfg_from_function(&function("main", body));
    assert_eq!(cfg.basic_blocks.len(), 4);
    assert_eq!(insts(&cfg, 2), vec![show(&assign("x", num(1)))]);
    assert_eq!(cfg.basic_blocks[2].successors(), vec![3]);
    assert_eq!(cfg.basic_blocks[3].prevs, vec![2]);
}

#[test]
fn a_conditional_jump_continues_in_a_new_block() {
    let body = vec![
        assign("i", num(0)),
        branch(less(iden("i"), num(10)), "T"),
        assign("j", num(1)),
        goto("T"),
        label("T", vec![ret(iden("i"))]),
    ];
    let cfg = cfg_from_function(&function("main", body));
    // 0 entry, 1 first, 2 T, 3 the block after the conditional jump
    assert_eq!(cfg.basic_blocks.len(), 4);
    assert_eq!(cfg.basic_blocks[1].successors(), vec![2, 3]);
    match &cfg.basic_blocks[1].next {
        Some(Jump::Conditional(jump)) => {
            assert_eq!(show(&jump.condition), show(&less(iden("i"), num(10))))
        },
        _ => panic!("no conditional jump"),
    }
    assert_eq!(cfg.basic_blocks[3].label, None);
    assert_eq!(insts(&cfg, 3), vec![show(&assign("j", num(1)))]);
    assert_eq!(cfg.basic_blocks[3].successors(), vec![2]);
    assert_eq!(cfg.basic_blocks[2].prevs, vec![1, 3]);
    assert_eq!(cfg.basic_blocks[3].prevs, vec![1]);
}

#[test]
fn a_label_is_resolved_once() {
    let body = vec![
        goto("L"),
        label("L", vec![assign("x", num(1)), branch(less(iden("x"), num(3)), "L"), goto("L")]),
    ];
    let cfg = cfg_from_function(&function("main", body));
    // 0 entry, 1 first, 2 L, 3 the block after the conditional jump
    assert_eq!(cfg.basic_blocks.len(), 4);
    assert_eq!(cfg.get_basic_block(&"L".to_string()), Some(2));
    assert_eq!(cfg.get_basic_block(&"M".to_string()), None);
    assert_eq!(cfg.basic_blocks[2].successors(), vec![2, 3]);
    assert_eq!(cfg.basic_blocks[3].successors(), vec![2]);
    assert_eq!(cfg.basic_blocks[2].prevs, vec![1, 2, 3]);
}

#[test]
fn a_second_jump_out_of_a_block_replaces_the_first() {
    let body = vec![
        goto("A"),
        label("X", vec![ret(num(0))]),
        goto("B"),
        label("A", vec![ret(num(1))]),
        label("B", vec![ret(num(2))]),
    ];
    let cfg = cfg_from_function(&function("main", body));
    let a = cfg.get_basic_block(&"A".to_string()).unwrap();
    let b = cfg.get_basic_block(&"B".to_string()).unwrap();
    assert_eq!(cfg.basic_blocks[1].successors(), vec![b]);
    assert!(cfg.basic_blocks[a].prevs.is_empty());
    assert_eq!(cfg.basic_blocks[b].prevs, vec![1]);
}

#[test]
fn after_a_label_an_open_block_hands_over_to_the_block_of_the_label() {
    let body = vec![
        assign("a", num(1)),
        label("L", vec![assign("b", num(2))]),
        assign("c", num(3)),
    ];
    let cfg = cfg_from_function(&function("main", body));
    let l = cfg.get_basic_block(&"L".to_string()).unwrap();
    assert_eq!(insts(&cfg, 1), vec![show(&assign("a", num(1)))]);
    assert_eq!(insts(&cfg, l), vec![show(&assign("b", num(2))), show(&assign("c", num(3)))]);
}

#[test]
fn only_functions_get_a_graph() {
    let program = vec![
        AstNode::Function(function("f", vec![ret(num(1))])),
        num(3),
        AstNode::Function(function("main", vec![ret(num(0))])),
    ];
    let table = cfg_table_from_program(&program);
    assert_eq!(table.len(), 2);
    assert_eq!(table[0].function.name, "f");
    assert_eq!(table[1].function.name, "main");
}

#[test]
fn reachable_blocks_marks_what_the_entry_reaches() {
    let body = vec![
        goto("A"),
        label("Dead", vec![goto("A")]),
        label("A", vec![ret(num(1))]),
    ];
    let cfg = cfg_from_function(&function("main", body));
    assert_eq!(reachable_blocks(&cfg), vec![true, true, true, false]);
}

#[test]
fn a_block_that_nothing_jumps_to_is_removed() {
    let body = vec![
        assign("a", num(1)),
        goto("End"),
        label("Dead", vec![assign("d", num(1)), goto("End")]),
        label("End", vec![ret(iden("a"))]),
    ];
    let mut cfg = cfg_from_function(&function("main", body));
    assert_eq!(cfg.basic_blocks.len(), 4);
    let end = cfg.get_basic_block(&"End".to_string()).unwrap();
    assert_eq!(cfg.basic_blocks[end].prevs.len(), 2);
    ReducePass.run_on_function(&mut cfg);
    assert_eq!(cfg.basic_blocks.len(), 3);
    assert_eq!(cfg.get_basic_block(&"Dead".to_string()), None);
    assert_eq!(cfg.get_basic_block(&"End".to_string()), Some(2));
    for (ix, block) in cfg.basic_blocks.iter().enumerate() {
        assert_eq!(block.id, ix);
        assert_ne!(block.label, Some("Dead".to_string()));
    }
    assert_eq!(cfg.entry, 0);
    assert_eq!(cfg.basic_blocks[0].successors(), vec![1]);
    assert_eq!(cfg.basic_blocks[1].successors(), vec![2]);
    assert_eq!(cfg.basic_blocks[2].prevs, vec![1]);
    assert_eq!(insts(&cfg, 2), vec![show(&ret(iden("a")))]);
}

#[test]
fn removing_dead_blocks_twice_is_removing_them_once() {
    let body = vec![
        branch(less(num(0), num(1)), "B"),
        goto("C"),
        label("A", vec![goto("B")]),
        label("B", vec![goto("C")]),
        label("D", vec![goto("A")]),
        label("C", vec![ret(num(0))]),
    ];
    let mut cfg = cfg_from_function(&function("main", body));
    ReducePass.run_on_function(&mut cfg);
    let once = format!("{:?}", cfg);
    assert_eq!(reachable_blocks(&cfg), vec![true; cfg.basic_blocks.len()]);
    ReducePass.run_on_function(&mut cfg);
    assert_eq!(format!("{:?}", cfg), once);
}

#[test]
fn reindexing_gives_every_block_its_position() {
    let mut cfg = cfg_from_function(&function("main", vec![goto("L"), label("L", vec![ret(num(0))])]));
    cfg.basic_blocks[2].id = 40;
    cfg.reindex_basic_blocks();
    for (ix, block) in cfg.basic_blocks.iter().enumerate() {
        assert_eq!(block.id, ix);
    }
}

#[test]
fn arithmetic_on_known_values_is_folded() {
    let body = vec![
        assign("a", num(2)),
        assign("b", num(3)),
        assign("c", add(iden("a"), iden("b"))),
        ret(iden("c")),
    ];
    let cfg = optimize(function("main", body));
    assert_eq!(
        insts(&cfg, 1),
        vec![
            show(&assign("a", num(2))),
            show(&assign("b", num(3))),
            show(&assign("c", add(num(2), num(3)))),
            show(&ret(num(5))),
        ]
    );
}

#[test]
fn a_load_after_a_store_of_a_constant_is_folded() {
    let body = vec![
        assign("p", AstNode::Alloc(AllocAstNode { size: Box::new(num(1)), loc: Loc::null() })),
        AstNode::Store(StoreAstNode { ptr: "p".to_string(), op: Box::new(num(7)), loc: Loc::null() }),
        assign("x", AstNode::Load(LoadAstNode { ptr: "p".to_string(), loc: Loc::null() })),
        ret(iden("x")),
    ];
    let cfg = optimize(function("main", body));
    let out = insts(&cfg, 1);
    assert_eq!(out[2], show(&assign("x", num(7))));
    assert_eq!(out[3], show(&ret(num(7))));
}

#[test]
fn the_result_of_a_call_is_not_folded() {
    let call = AstNode::Call(CallAstNode {
        id: "y".to_string(),
        name: "f".to_string(),
        params: vec![],
        loc: Loc::null(),
    });
    let body = vec![
        assign("y", num(4)),
        call.clone(),
        assign("z", add(iden("y"), num(1))),
        ret(iden("z")),
    ];
    let cfg = optimize(function("main", body));
    assert_eq!(
        insts(&cfg, 1),
        vec![
            show(&assign("y", num(4))),
            show(&call),
            show(&assign("z", add(iden("y"), num(1)))),
            show(&ret(iden("z"))),
        ]
    );
}

#[test]
fn a_use_before_a_second_assignment_gets_the_first_value() {
    let body = vec![
        assign("a", num(1)),
        assign("b", iden("a")),
        assign("a", num(2)),
        ret(iden("b")),
    ];
    let cfg = optimize(function("main", body));
    assert_eq!(
        insts(&cfg, 1),
        vec![
            show(&assign("a", num(1))),
            show(&assign("b", num(1))),
            show(&assign("a", num(2))),
            show(&ret(num(1))),
        ]
    );
}

#[test]
fn a_value_that_differs_between_predecessors_is_not_folded() {
    let body = vec![
        assign("k", num(5)),
        branch(less(iden("u"), num(1)), "T"),
        assign("a", num(1)),
        goto("J"),
        label("T", vec![assign("a", num(2)), goto("J")]),
        label("J", vec![assign("r", add(iden("a"), iden("k"))), ret(iden("r"))]),
    ];
    let cfg = optimize(function("main", body));
    let j = cfg.get_basic_block(&"J".to_string()).unwrap();
    assert_eq!(
        insts(&cfg, j),
        vec![show(&assign("r", add(iden("a"), num(5)))), show(&ret(iden("r")))]
    );
}

#[test]
fn a_value_that_a_loop_changes_is_not_folded() {
    let body = vec![
        assign("i", num(0)),
        assign("n", num(10)),
        goto("Loop"),
        label(
            "Loop",
            vec![
                assign("i", add(iden("i"), num(1))),
                branch(less(iden("i"), iden("n")), "Loop"),
                goto("Done"),
            ],
        ),
        label("Done", vec![ret(iden("i"))]),
    ];
    let cfg = optimize(function("main", body));
    let l = cfg.get_basic_block(&"Loop".to_string()).unwrap();
    let d = cfg.get_basic_block(&"Done".to_string()).unwrap();
    assert_eq!(insts(&cfg, l), vec![show(&assign("i", add(iden("i"), num(1))))]);
    assert_eq!(insts(&cfg, d), vec![show(&ret(iden("i")))]);
}

#[test]
fn the_condition_of_a_branch_is_never_folded() {
    let cond = less(iden("a"), iden("b"));
    let body = vec![
        assign("a", num(0)),
        assign("b", num(1)),
        branch(cond.clone(), "T"),
        goto("T"),
        label("T", vec![ret(iden("a"))]),
    ];
    let cfg = optimize(function("main", body));
    match &cfg.basic_blocks[1].next {
        Some(Jump::Conditional(jump)) => assert_eq!(show(&jump.condition), show(&cond)),
        _ => panic!("no conditional jump"),
    }
    let t = cfg.get_basic_block(&"T".to_string()).unwrap();
    assert_eq!(insts(&cfg, t), vec![show(&ret(num(0)))]);
    match cfg.generate_ast() {
        AstNode::Function(f) => match &f.body[1] {
            AstNode::Label(l) => {
                assert_eq!(show(&l.body[2]), show(&branch(cond.clone(), "T")));
            },
            _ => panic!("no label"),
        },
        _ => panic!("no function"),
    }
}

#[test]
fn propagating_constants_twice_is_propagating_them_once() {
    let body = vec![
        assign("a", num(2)),
        assign("b", add(iden("a"), num(3))),
        branch(less(iden("b"), num(1)), "T"),
        assign("c", iden("b")),
        goto("T"),
        label("T", vec![assign("d", add(iden("a"), iden("b"))), ret(iden("d"))]),
    ];
    let mut cfg = cfg_from_function(&function("main", body));
    ConstantPropagationPass.run_on_function(&mut cfg);
    let once = format!("{:?}", cfg);
    ConstantPropagationPass.run_on_function(&mut cfg);
    assert_eq!(format!("{:?}", cfg), once);
}

#[test]
fn unreachable_blocks_are_left_alone_by_constant_propagation() {
    let body = vec![
        assign("a", num(2)),
        goto("End"),
        label("Dead", vec![assign("d", num(1)), assign("e", iden("d")), goto("End")]),
        label("End", vec![ret(iden("a"))]),
    ];
    let mut cfg = cfg_from_function(&function("main", body));
    ConstantPropagationPass.run_on_function(&mut cfg);
    let dead = cfg.get_basic_block(&"Dead".to_string()).unwrap();
    let end = cfg.get_basic_block(&"End".to_string()).unwrap();
    assert_eq!(
        insts(&cfg, dead),
        vec![show(&assign("d", num(1))), show(&assign("e", iden("d")))]
    );
    assert_eq!(insts(&cfg, end), vec![show(&ret(num(2)))]);
}

#[test]
fn the_manager_runs_its_passes_in_order() {
    let body = vec![
        assign("a", num(2)),
        goto("End"),
        label("Dead", vec![assign("a", num(3)), goto("End")]),
        label("End", vec![ret(iden("a"))]),
    ];
    let mut first = cfg_from_function(&function("main", body.clone()));
    let mut manager = CompilerPassManager::new();
    manager.add(Pass::ConstantPropagation(ConstantPropagationPass));
    manager.add(Pass::Reduce(ReducePass));
    manager.run(&mut first);
    let mut second = cfg_from_function(&function("main", body));
    ConstantPropagationPass.run_on_function(&mut second);
    ReducePass.run_on_function(&mut second);
    assert_eq!(format!("{:?}", first), format!("{:?}", second));
    assert_eq!(first.basic_blocks.len(), 3);
    let empty = CompilerPassManager::new();
    let before = format!("{:?}", first);
    empty.run(&mut first);
    assert_eq!(format!("{:?}", first), before);
}

#[test]
fn lowering_writes_one_labelled_block_for_each_block() {
    let body = vec![
        assign("i", num(0)),
        branch(less(iden("i"), num(10)), "T"),
        goto("T"),
        label("T", vec![ret(iden("i"))]),
    ];
    let f = function("main", body);
    let cfg = cfg_from_function(&f);
    let expected = AstNode::Function(FunctionAstNode {
        name: "main".to_string(),
        args: vec![],
        body: vec![
            label("0", vec![goto("1")]),
            label("1", vec![assign("i", num(0)), branch(less(iden("i"), num(10)), "T"), goto("3")]),
            label("T", vec![ret(iden("i"))]),
            label("3", vec![goto("T")]),
        ],
        loc: Loc::null(),
    });
    assert_eq!(show(&cfg.generate_ast()), show(&expected));
    assert_eq!(cfg.basic_blocks[3].label(), "3");
    assert_eq!(cfg.basic_blocks[2].label(), "T");
}
