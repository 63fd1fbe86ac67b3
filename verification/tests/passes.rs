use haribote_lang::error::Fault;
use haribote_lang::lexer::{Token, TokenType};
use haribote_lang::optimize::cfg::ic_to_cfg;
use haribote_lang::parser::{dump_operation, Operation, Parser};
use haribote_lang::var_map::VariableMap;

fn ident(name: &str) -> Token {
    Token::new(String::from(name), TokenType::Ident)
}

fn program(ops: Vec<Operation>) -> Parser {
    let mut parser = Parser::new(String::new());
    parser.internal_code = ops;
    parser
}

fn listing(parser: &Parser) -> Vec<String> {
    let mut lines = Vec::new();
    for op in &parser.internal_code {
        lines.push(dump_operation(op));
    }
    lines
}

fn label(var: &mut VariableMap, name: &str) -> i32 {
    var.label_get(&ident(name)).unwrap()
}

#[test]
fn cfg_edges_of_each_kind_of_instruction() {
    // 0: x = 1   1: ifGoto x, A   2: goto B   3(A): x = 2   4(B): nop
    let mut var = VariableMap::new();
    var.label_set(&ident("A"), 3);
    var.label_set(&ident("B"), 4);
    let ops = vec![
        Operation::Copy(ident("x"), Token::new_num(1, None)),
        Operation::IfGoto(ident("x"), ident("A")),
        Operation::Goto(ident("B")),
        Operation::Copy(ident("x"), Token::new_num(2, None)),
        Operation::Nop,
    ];
    let cfg = ic_to_cfg(&ops, &mut var).unwrap();
    assert_eq!(cfg.succs, vec![vec![1], vec![3, 2], vec![4], vec![4], vec![5], vec![]]);
    assert_eq!(cfg.preds, vec![vec![], vec![0], vec![1], vec![1], vec![2, 3], vec![4]]);
    assert_eq!(cfg.nodes.len(), 5);
}

#[test]
fn cfg_jump_to_the_end_and_twin_edges() {
    // An IfGoto to the next instruction has two edges to it.
    let mut var = VariableMap::new();
    var.label_set(&ident("N"), 1);
    var.label_set(&ident("E"), 2);
    let ops = vec![Operation::IfGoto(ident("c"), ident("N")), Operation::Goto(ident("E"))];
    let cfg = ic_to_cfg(&ops, &mut var).unwrap();
    assert_eq!(cfg.succs, vec![vec![1, 1], vec![2], vec![]]);
    assert_eq!(cfg.preds, vec![vec![], vec![0, 0], vec![1]]);
}

#[test]
fn cfg_of_the_empty_program() {
    let mut var = VariableMap::new();
    let cfg = ic_to_cfg(&Vec::new(), &mut var).unwrap();
    assert_eq!(cfg.succs, vec![Vec::<usize>::new()]);
    assert_eq!(cfg.preds, vec![Vec::<usize>::new()]);
}

#[test]
fn cfg_reports_unresolved_labels() {
    let mut var = VariableMap::new();
    let ops = vec![Operation::Goto(ident("nowhere"))];
    assert_eq!(ic_to_cfg(&ops, &mut var).err(), Some(Fault::UndefinedLabel));
    var.label_set(&ident("far"), 2);
    let ops = vec![Operation::Goto(ident("far"))];
    assert_eq!(ic_to_cfg(&ops, &mut var).err(), Some(Fault::LabelOutOfRange));
    var.label_set(&ident("neg"), -1);
    let ops = vec![Operation::IfGoto(ident("x"), ident("neg"))];
    assert_eq!(ic_to_cfg(&ops, &mut var).err(), Some(Fault::LabelOutOfRange));
}

#[test]
fn jump_chain_is_collapsed() {
    // goto A; A: goto B; B: goto C; C:
    let mut var = VariableMap::new();
    var.label_set(&ident("A"), 1);
    var.label_set(&ident("B"), 2);
    var.label_set(&ident("C"), 3);
    let mut parser = program(vec![
        Operation::Goto(ident("A")),
        Operation::Goto(ident("B")),
        Operation::Goto(ident("C")),
    ]);
    parser.optimize_jump_chain(&mut var).unwrap();
    assert_eq!(listing(&parser), vec!["goto C", "goto C", "goto C"]);
}

#[test]
fn jump_chain_from_source() {
    let mut var = VariableMap::new();
    let mut parser =
        Parser::new(String::from("if (x) goto A; y = 1; A: goto B; z = 2; B: goto C; C: w = 3;"));
    parser.compile(&mut var).unwrap();
    parser.optimize_jump_chain(&mut var).unwrap();
    assert_eq!(
        listing(&parser),
        vec![
            "ifGoto x, C",
            "copy y, i32 1",
            "goto C",
            "copy z, i32 2",
            "goto C",
            "copy w, i32 3"
        ]
    );
}

#[test]
fn self_jump_is_left_alone() {
    let mut var = VariableMap::new();
    var.label_set(&ident("A"), 0);
    let mut parser = program(vec![Operation::Goto(ident("A"))]);
    parser.optimize_jump_chain(&mut var).unwrap();
    assert_eq!(listing(&parser), vec!["goto A"]);
}

#[test]
fn mutual_jumps_are_left_alone() {
    // A: goto B; B: goto A;
    let mut var = VariableMap::new();
    var.label_set(&ident("A"), 0);
    var.label_set(&ident("B"), 1);
    let mut parser = program(vec![Operation::Goto(ident("B")), Operation::Goto(ident("A"))]);
    parser.optimize_jump_chain(&mut var).unwrap();
    assert_eq!(listing(&parser), vec!["goto B", "goto A"]);
}

#[test]
fn chain_into_a_loop_of_jumps_is_left_alone() {
    // goto A; A: goto B; B: goto A;  -- the chain from the first jump never ends
    let mut var = VariableMap::new();
    var.label_set(&ident("S"), 1);
    var.label_set(&ident("A"), 2);
    var.label_set(&ident("B"), 3);
    let mut parser = program(vec![
        Operation::Goto(ident("S")),
        Operation::Goto(ident("A")),
        Operation::Goto(ident("B")),
        Operation::Goto(ident("A")),
    ]);
    parser.optimize_jump_chain(&mut var).unwrap();
    assert_eq!(listing(&parser)[0], "goto S");
}

#[test]
fn jump_chain_reports_undefined_label() {
    let mut var = VariableMap::new();
    var.label_set(&ident("A"), 1);
    let mut parser = program(vec![Operation::Goto(ident("A")), Operation::Goto(ident("gone"))]);
    assert_eq!(parser.optimize_jump_chain(&mut var), Err(Fault::UndefinedLabel));
    assert_eq!(listing(&parser), vec!["goto A", "goto gone"]);
}

#[test]
fn nops_are_removed_and_labels_move_up() {
    let mut var = VariableMap::new();
    var.label_set(&ident("zero"), 0);
    var.label_set(&ident("one"), 1);
    var.label_set(&ident("two"), 2);
    var.label_set(&ident("four"), 4);
    var.label_set(&ident("end"), 5);
    var.label_set(&ident("past"), 9);
    var.label_set(&ident("neg"), -3);
    let mut parser = program(vec![
        Operation::Nop,
        Operation::Copy(ident("a"), Token::new_num(1, None)),
        Operation::Nop,
        Operation::Nop,
        Operation::Copy(ident("b"), Token::new_num(2, None)),
    ]);
    parser.remove_nop(&mut var);
    assert_eq!(listing(&parser), vec!["copy a, i32 1", "copy b, i32 2"]);
    assert_eq!(label(&mut var, "zero"), 0);
    assert_eq!(label(&mut var, "one"), 0);
    assert_eq!(label(&mut var, "two"), 1);
    assert_eq!(label(&mut var, "four"), 1);
    assert_eq!(label(&mut var, "end"), 2);
    assert_eq!(label(&mut var, "past"), 6);
    assert_eq!(label(&mut var, "neg"), -3);
}

#[test]
fn unreachable_instructions_are_removed() {
    // x = 1; goto L; y = 2; z = 3; L: w = 4;
    let mut var = VariableMap::new();
    let mut parser = Parser::new(String::from("x = 1; goto L; y = 2; z = 3; L: w = 4; E:"));
    parser.compile(&mut var).unwrap();
    assert_eq!(label(&mut var, "L"), 4);
    assert_eq!(label(&mut var, "E"), 5);
    parser.remove_unreachable_ops(&mut var).unwrap();
    assert_eq!(listing(&parser), vec!["copy x, i32 1", "goto L", "copy w, i32 4"]);
    assert_eq!(label(&mut var, "L"), 2);
    assert_eq!(label(&mut var, "E"), 3);
}

#[test]
fn reachable_loop_is_kept() {
    let mut var = VariableMap::new();
    let mut parser = Parser::new(String::from("A: i = i + 1; if (i < 3) goto A; goto E; i = 0; E:"));
    parser.compile(&mut var).unwrap();
    let before = listing(&parser).len();
    parser.remove_unreachable_ops(&mut var).unwrap();
    assert_eq!(listing(&parser).len(), before - 1);
    assert_eq!(label(&mut var, "A"), 0);
    assert_eq!(label(&mut var, "E"), before as i32 - 1);
}

#[test]
fn unreachable_removal_reports_undefined_label() {
    let mut var = VariableMap::new();
    let mut parser = program(vec![Operation::Goto(ident("gone")), Operation::Time]);
    assert_eq!(parser.remove_unreachable_ops(&mut var), Err(Fault::UndefinedLabel));
    assert_eq!(listing(&parser), vec!["goto gone", "time"]);
}

#[test]
fn jump_to_the_next_instruction_is_removed() {
    // goto A; A: x = 1; goto B; y = 2; B:
    let mut var = VariableMap::new();
    let mut parser = Parser::new(String::from("goto A; A: x = 1; goto B; y = 2; B:"));
    parser.compile(&mut var).unwrap();
    parser.remove_unnecessary_jump(&mut var).unwrap();
    assert_eq!(listing(&parser), vec!["copy x, i32 1", "goto B", "copy y, i32 2"]);
    assert_eq!(label(&mut var, "A"), 0);
    assert_eq!(label(&mut var, "B"), 3);
    let mut parser = program(vec![Operation::Goto(ident("gone"))]);
    assert_eq!(parser.remove_unnecessary_jump(&mut var), Err(Fault::UndefinedLabel));
}

#[test]
fn constants_are_folded() {
    let mut var = VariableMap::new();
    let mut parser = Parser::new(String::from("a = 2; b = a * 3 + 1; c = b; d = e; print b;"));
    parser.compile(&mut var).unwrap();
    parser.optimize_constant_folding(&mut var).unwrap();
    assert_eq!(
        listing(&parser),
        vec![
            "copy a, i32 2",
            "copy _tmp0, i32 6",
            "copy _tmp1, i32 7",
            "copy b, i32 7",
            "copy c, i32 7",
            "copy d, e",
            "print b"
        ]
    );
}

#[test]
fn comparisons_fold_to_one_or_zero() {
    let mut var = VariableMap::new();
    let mut parser =
        Parser::new(String::from("a = 2 < 3; b = 3 <= 2; c = 2 == 2; d = 2 != 2; e = 7 / 2 - 9;"));
    parser.compile(&mut var).unwrap();
    parser.optimize_constant_folding(&mut var).unwrap();
    let lines = listing(&parser);
    assert_eq!(lines[1], "copy a, i32 1");
    assert_eq!(lines[3], "copy b, i32 0");
    assert_eq!(lines[5], "copy c, i32 1");
    assert_eq!(lines[7], "copy d, i32 0");
    assert_eq!(lines[10], "copy e, i32 -6");
}

#[test]
fn folding_keeps_what_a_loop_changes() {
    let mut var = VariableMap::new();
    let mut parser = Parser::new(String::from("i = 0; A: i = i + 1; goto A;"));
    parser.compile(&mut var).unwrap();
    parser.optimize_constant_folding(&mut var).unwrap();
    assert_eq!(
        listing(&parser),
        vec!["copy i, i32 0", "add _tmp0, i, i32 1", "copy i, _tmp0", "goto A"]
    );
}

#[test]
fn folding_reports_division_by_constant_zero() {
    let mut var = VariableMap::new();
    let mut parser = Parser::new(String::from("a = 0; b = 5 / a;"));
    parser.compile(&mut var).unwrap();
    let before = listing(&parser);
    assert_eq!(parser.optimize_constant_folding(&mut var), Err(Fault::ZeroDivision));
    assert_eq!(listing(&parser), before);
}
