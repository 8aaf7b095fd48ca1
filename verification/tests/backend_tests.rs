use irl::fe::ast::AstNode;
use irl::mw::ast_pass::run_default_ast_pass_manager;
use irl::opt::cfg::{cfg_table_from_program, ControlFlowGraph};
use irl::opt::cfg_text::{cfg_table_to_dot, record_text};
use irl::cli::CliOptions;
use irl::trn::fasm_transpiler::{
    ast_node_to_operand, call_convention, header, inst, Context, FasmTranspiler, Operand,
};
use irl::fe::lexer::Lexer;
use irl::fe::loc::Loc;
use irl::fe::parser::Parser;
use irl::opt::pass::run_default_compiler_pass_manager;
use irl::text::{i32_to_string, indent, u64_to_string, usize_to_string};
use irl::trn::transpiler::{remove_extension, replace_extension, transpile, Step, Target, Transpiler};
use irl::trn::wat_transpiler::{make_line, WatTranspiler};

fn program(text: &str) -> Vec<AstNode> {
    let lines: Vec<String> = text.lines().map(|l| l.to_string()).collect();
    Parser::new(Lexer::new(&lines, "t.irl".to_string()).unwrap().tokens).unwrap().nodes
}

fn graphs(text: &str) -> Vec<ControlFlowGraph> {
    let mut nodes = program(text);
    run_default_ast_pass_manager(&mut nodes).unwrap();
    let mut table = cfg_table_from_program(&nodes);
    run_default_compiler_pass_manager(&mut table);
    table
}

fn compiled(text: &str) -> Vec<AstNode> {
    graphs(text).iter().map(|g| g.generate_ast()).collect()
}

const SUM: &str = "function main, 0\na = 2\nb = 3\nc = a + b\nret c\n";

const LOOP: &str = "function main, 0\ni = 0\nlabel again\ni = i + 1\nif (i < 10) goto again\nlabel done\nret i\nlabel never\nret 0\n";

#[test]
fn numbers_are_written_in_decimal() {
    assert_eq!(u64_to_string(0), "0");
    assert_eq!(u64_to_string(7), "7");
    assert_eq!(u64_to_string(10), "10");
    assert_eq!(u64_to_string(u64::MAX), "18446744073709551615");
    assert_eq!(usize_to_string(4096), "4096");
    assert_eq!(i32_to_string(0), "0");
    assert_eq!(i32_to_string(-1), "-1");
    assert_eq!(i32_to_string(i32::MAX), "2147483647");
    assert_eq!(i32_to_string(i32::MIN), "-2147483648");
}

#[test]
fn indent_puts_four_spaces_for_each_level() {
    assert_eq!(indent(0, "x".to_string()), "x");
    assert_eq!(indent(2, "x y".to_string()), "        x y");
}

#[test]
fn a_source_text_compiles_to_folded_blocks() {
    let out = compiled(SUM);
    assert_eq!(out.len(), 1);
    assert_eq!(
        out[0].to_text(),
        "function main, 0\n    label 0\n        goto 1\n    label 1\n        a = 2\n        b = 3\n        c = 2 + 3\n        ret 5\n"
    );
}

#[test]
fn a_loop_compiles_to_blocks_that_jump_back() {
    let out = compiled(LOOP);
    assert_eq!(
        out[0].to_text(),
        "function main, 0\n    label 0\n        goto 1\n    label 1\n        i = 0\n        goto again\n    label again\n        i = i + 1\n        if (i < 10) goto again\n        goto 3\n    label 3\n        goto done\n    label done\n        ret i\n"
    );
}

#[test]
fn nodes_print_as_source_text() {
    let nodes = program("function f, 1\narg a\nparam a\nparam 2\ny = call g, 2\nlabel L\nz = -y\nret z\n");
    assert_eq!(
        nodes[0].print(1),
        "    function f, 1\n        arg a\n        param a\n        param 2\n        y = call g, 2\n        label L\n            z = -y\n            ret z\n"
    );
    let store = AstNode::store("p".to_string(), AstNode::num(-7, Loc::null()), Loc::null());
    assert_eq!(store.print(1), "    store p, -7\n");
    let load = AstNode::assignment(
        "x".to_string(),
        AstNode::load("p".to_string(), Loc::null()),
        Loc::null(),
    );
    assert_eq!(load.to_text(), "x = load p\n");
    let alloc = AstNode::assignment(
        "p".to_string(),
        AstNode::allocation(AstNode::num(4, Loc::null()), Loc::null()),
        Loc::null(),
    );
    assert_eq!(alloc.to_text(), "p = alloc 4\n");
    assert_eq!(Loc::new(3, 14, "a.irl".to_string()).to_text(), "a.irl:3:14");
}

#[test]
fn a_graph_lists_its_blocks() {
    let table = graphs(SUM);
    assert_eq!(table[0].basic_blocks[1].name(), "[1]");
    assert_eq!(table[0].basic_blocks[1].properties(), "[1] [#Predecessor=1] [#Successor=0]\n");
    assert_eq!(table[0].basic_blocks[1].to_text(), "a = 2\nb = 3\nc = 2 + 3\nret 5\n");
    let rule = "=====================================\n";
    assert_eq!(
        table[0].to_text(),
        format!(
            "{r}[Entry] [0] [#Predecessor=0] [#Successor=1]\n[Successors=[1],]\n{r}[1] [#Predecessor=1] [#Successor=0]\na = 2\nb = 3\nc = 2 + 3\nret 5\n[Predecessors=[0],] \n{r}",
            r = rule
        )
    );
    let table = graphs(LOOP);
    assert_eq!(table[0].basic_blocks[2].name(), "[2 - again]");
    assert_eq!(table[0].basic_blocks[2].properties(), "[2 - again] [#Predecessor=2] [#Successor=2]\n");
}

#[test]
fn a_graph_draws_its_blocks() {
    let table = graphs(SUM);
    assert_eq!(
        table[0].transpile_to_dot(),
        vec![
            "    subgraph cluster_main {",
            "        label=\"main\";",
            "        graph [style=filled];",
            "        main_ENTRY [label=\"ENTRY\"];",
            "        main_EXIT [label=\"EXIT\"];",
            "        main_ENTRY -> main_BB0;",
            "        main_BB0 [shape=record label=\"[0]\\n\"];",
            "        main_BB0 -> main_BB1;",
            "        main_BB1 [shape=record label=\"[1]\\na = 2\\lb = 3\\lc = 2 + 3\\lret 5\\l\"];",
            "        main_BB1 -> main_EXIT;",
            "    }",
        ]
    );
    let text = cfg_table_to_dot(&table, &"a.dot".to_string());
    assert!(text.starts_with("digraph \"a.dot\" {\n    subgraph cluster_main {\n"));
    assert!(text.ends_with("        main_BB1 -> main_EXIT;\n    }\n\n}\n"));
    let none: Vec<ControlFlowGraph> = vec![];
    assert_eq!(cfg_table_to_dot(&none, &"x".to_string()), "digraph \"x\" {\n}\n");
    assert_eq!(record_text("a\nb"), "a\\lb\\l");
    assert_eq!(record_text("a\n"), "a\\l");
    assert_eq!(record_text(""), "\\l");
}

#[test]
fn uses_are_the_places_that_read_what_a_node_defines() {
    let table = graphs(LOOP);
    let cfg = &table[0];
    let def = &cfg.basic_blocks[1].insts[0];
    assert_eq!(cfg.get_uses(def), vec![(2, 0), (4, 0)]);
    let ret = &cfg.basic_blocks[4].insts[0];
    assert!(cfg.get_uses(ret).is_empty());
}

#[test]
fn extensions_are_taken_off_as_often_as_they_stand() {
    assert_eq!(remove_extension(&"a/b.irl".to_string(), "irl"), "a/b.");
    assert_eq!(remove_extension(&"b.irlirl".to_string(), "irl"), "b.");
    assert_eq!(remove_extension(&"b.txt".to_string(), "irl"), "b.txt");
    assert_eq!(remove_extension(&"irl".to_string(), "irl"), "");
    assert_eq!(remove_extension(&"b.irl".to_string(), ""), "b.irl");
    assert_eq!(remove_extension(&"b.irl".to_string(), "x.b.irl"), "b.irl");
    assert_eq!(replace_extension(&"a/b.irl".to_string(), "irl", "wat"), "a/b.wat");
}

fn steps(wat: bool, wasm: bool, fasm: bool) -> Vec<String> {
    let mut options = CliOptions::new("p.irl".to_string());
    options.wat = wat;
    options.wasm = wasm;
    options.fasm = fasm;
    transpile(&options, &"p.irl".to_string())
        .iter()
        .map(|s| match s {
            Step::Write { target: Target::Wat, path } => format!("wat {}", path),
            Step::Write { target: Target::Fasm, path } => format!("fasm {}", path),
            Step::Run { args } => args.join(" "),
        })
        .collect()
}

#[test]
fn the_options_decide_the_steps() {
    assert!(steps(false, false, false).is_empty());
    assert_eq!(steps(true, false, false), vec!["wat p.wat"]);
    assert_eq!(steps(true, false, true), vec!["wat p.wat"]);
    assert_eq!(steps(false, true, false), vec!["wat p.wat", "wat2wasm p.wat -o p.wasm"]);
    assert_eq!(
        steps(true, true, true),
        vec!["wat p.wat", "wat2wasm p.wat -o p.wasm", "fasm p.fasm"]
    );
    assert_eq!(steps(false, false, true), vec!["fasm p.fasm"]);
}

#[test]
fn reports_are_made_only_where_asked_for() {
    let mut options = CliOptions::new("p.irl".to_string());
    assert_eq!(options.verbose_message(&"x".to_string()), None);
    options.verbose = true;
    assert_eq!(options.verbose_message(&"lexing complete".to_string()), Some("p.irl: info: lexing complete".to_string()));
    assert_eq!(options.verbose_error(&"bad".to_string()), Some("p.irl: error: bad".to_string()));
}

#[test]
fn wat_text_has_a_block_for_each_label() {
    let out = compiled(LOOP);
    let lines = WatTranspiler.transpile(&out).unwrap();
    assert_eq!(
        lines,
        vec![
            "(module",
            "    (func $main (export \"main\") (result i32)",
            "        (block $0",
            "        )",
            "        (block $1",
            "        )",
            "        (block $again",
            "        )",
            "        (block $3",
            "        )",
            "        (block $done",
            "        )",
            "        i32.const 0",
            "        )",
            ")",
        ]
    );
    let jumps = program("function main, 0\ngoto L\nlabel L\ngoto L\n");
    assert_eq!(
        WatTranspiler.transpile(&jumps).unwrap(),
        vec![
            "(module",
            "    (func $main (export \"main\") (result i32)",
            "        (block $L",
            "            br $L",
            "        )",
            "        i32.const 0",
            "        )",
            ")",
        ]
    );
    let with_args = vec![AstNode::function(
        "f".to_string(),
        vec![AstNode::iden("a".to_string(), Loc::null()), AstNode::iden("b".to_string(), Loc::null())],
        vec![],
        Loc::null(),
    )];
    assert_eq!(
        WatTranspiler.transpile(&with_args).unwrap()[1],
        "    (func $f (export \"f\") (param $a i32) (param $b i32) (result i32)"
    );
    assert_eq!(make_line(&"  ".to_string(), "x"), "  x");
}

#[test]
fn assembly_text_keeps_every_identifier_on_the_stack() {
    let out = compiled(SUM);
    let transpiler = FasmTranspiler { footer: vec!["; end".to_string()] };
    assert_eq!(
        transpiler.transpile(&out).unwrap(),
        vec![
            "format ELF64 executable 3",
            "entry main",
            "segment gnustack",
            "segment executable",
            "main:",
            "    sub rsp, 12",
            "    main_label_0:",
            "        jmp main_label_1",
            "    main_label_1:",
            "        mov r15d, 2",
            "        mov [rsp+0], r15d",
            "        mov r15d, 3",
            "        mov [rsp+4], r15d",
            "        mov r15d, 2",
            "        add r15d, 3",
            "        mov [rsp+8], r15d",
            "        mov eax, 60",
            "        mov edi, 5",
            "        add rsp, 12",
            "        syscall",
            "; end",
        ]
    );
}

#[test]
fn assembly_text_of_branches_calls_and_returns() {
    let nodes = program(
        "function f, 2\narg a\narg b\nt = a >= b\nif (t == 1) goto L\nparam a\nparam 7\nr = call g, 2\nn = -r\nret n\nlabel L\nret 0\n",
    );
    let transpiler = FasmTranspiler { footer: vec![] };
    assert_eq!(
        transpiler.transpile(&nodes).unwrap()[4..].to_vec(),
        vec![
            "f:",
            "    sub rsp, 20",
            "    mov [rsp+0], edi",
            "    mov [rsp+4], esi",
            "    mov r15d, [rsp+0]",
            "    cmp r15d, [rsp+4]",
            "    mov r15d, 0",
            "    mov r14d, 1",
            "    cmovge r15d, r14d",
            "    mov [rsp+8], r15d",
            "    mov r15d, [rsp+8]",
            "    cmp r15d, 1",
            "    mov r15d, 0",
            "    mov r14d, 1",
            "    cmove r15d, r14d",
            "    cmp r15d, 1",
            "    je f_label_L",
            "    mov edi, [rsp+0]",
            "    mov esi, 7",
            "    call g",
            "    mov [rsp+12], eax",
            "    neg r15d, [rsp+12]",
            "    mov [rsp+16], r15d",
            "    mov eax, [rsp+16]",
            "    add rsp, 20",
            "    ret",
            "    f_label_L:",
            "        mov eax, 0",
            "        add rsp, 20",
            "        ret",
        ]
    );
    assert_eq!(header().len(), 4);
    assert_eq!(call_convention(), vec!["edi", "esi", "edx", "ecx", "r8d", "r9d"]);
    assert_eq!(
        inst("mov", &Operand::Register("eax".to_string()), &Operand::Immediate(-3)),
        "mov eax, -3"
    );
    assert_eq!(Operand::Memory("[rsp+4]".to_string()).value(), "[rsp+4]");
}

#[test]
fn what_the_assembler_cannot_take_is_an_error() {
    let transpiler = FasmTranspiler { footer: vec![] };
    let stray = vec![AstNode::num(1, Loc::new(4, 5, "f".to_string()))];
    let e = transpiler.transpile(&stray).unwrap_err();
    assert_eq!(e.message, "only function nodes are allowed in top level scope");
    assert_eq!((e.loc.row, e.loc.col), (4, 5));
    let nodes = program("function main, 0\nparam q\nr = call g, 1\nret r\n");
    assert_eq!(transpiler.transpile(&nodes).unwrap_err().message, "unknown identifier 'q'");
    let nodes = program(
        "function main, 0\nparam 1\nparam 2\nparam 3\nparam 4\nparam 5\nparam 6\nparam 7\nr = call g, 7\nret r\n",
    );
    assert_eq!(
        transpiler.transpile(&nodes).unwrap_err().message,
        "fasm target currently only supports '6' parameters at max"
    );
    let nodes = program(
        "function g, 7\narg a\narg b\narg c\narg d\narg e\narg f\narg h\nret 0\n",
    );
    assert_eq!(
        transpiler.transpile(&nodes).unwrap_err().message,
        "fasm target currently only supports '6' arguments at max"
    );
    let context = Context::new();
    let nested = AstNode::ret(AstNode::num(1, Loc::null()), Loc::null());
    assert_eq!(
        ast_node_to_operand(&nested, &context).unwrap_err().message,
        "expected an identifier or a number as operand"
    );
    assert_eq!(
        context.slot(&"x".to_string(), &Loc::null()).unwrap_err().message,
        "unknown identifier 'x'"
    );
}
