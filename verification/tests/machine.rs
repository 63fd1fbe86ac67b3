use haribote_lang::error::Fault;
use haribote_lang::exec::Effect;
use haribote_lang::lexer::{Token, TokenType};
use haribote_lang::parser::{BinOp, Operation, Parser};
use haribote_lang::pipeline::{run, Options, RunError};
use haribote_lang::var_map::VariableMap;

fn ident(name: &str) -> Token {
    Token::new(String::from(name), TokenType::Ident)
}

fn plain() -> Options {
    Options { emit_ir: false, execute: true, optimize: false }
}

fn value(var: &mut VariableMap, name: &str) -> i32 {
    var.get(&ident(name))
}

#[test]
fn operators_wrap_and_truncate() {
    assert_eq!(BinOp::Add.apply(i32::MAX, 1), Ok(i32::MIN));
    assert_eq!(BinOp::Sub.apply(i32::MIN, 1), Ok(i32::MAX));
    assert_eq!(BinOp::Mul.apply(65536, 65536), Ok(0));
    assert_eq!(BinOp::Div.apply(7, 2), Ok(3));
    assert_eq!(BinOp::Div.apply(-7, 2), Ok(-3));
    assert_eq!(BinOp::Div.apply(7, -2), Ok(-3));
    assert_eq!(BinOp::Div.apply(-7, -2), Ok(3));
    assert_eq!(BinOp::Div.apply(0, 5), Ok(0));
    assert_eq!(BinOp::Div.apply(i32::MIN, -1), Ok(i32::MIN));
    assert_eq!(BinOp::Div.apply(1, 0), Err(Fault::ZeroDivision));
    assert_eq!(BinOp::Eq.apply(3, 3), Ok(1));
    assert_eq!(BinOp::Ne.apply(3, 3), Ok(0));
    assert_eq!(BinOp::Lt.apply(-1, 0), Ok(1));
    assert_eq!(BinOp::Le.apply(1, 0), Ok(0));
}

#[test]
fn division_by_zero_keeps_the_store() {
    let mut var = VariableMap::new();
    let report = run(String::from("a = 7; b = 0; let v[2]; v[1] = 9; c = a / b; a = 1;"), &plain(), &mut var);
    assert_eq!(report.error, Some(RunError::Fault(Fault::ZeroDivision)));
    assert_eq!(value(&mut var, "a"), 7);
    assert_eq!(value(&mut var, "b"), 0);
    assert_eq!(var.array_get(&ident("v"), 1), Ok(9));
    assert_eq!(var.map.get(&String::from("c")), None);
}

#[test]
fn division_by_zero_is_found_by_the_optimizer_too() {
    let mut var = VariableMap::new();
    var.set(&ident("kept"), 3);
    let report = run(String::from("a = 7; b = 0; c = a / b;"), &Options::new(), &mut var);
    assert_eq!(report.error, Some(RunError::Fault(Fault::ZeroDivision)));
    assert_eq!(report.output.len(), 0);
    assert_eq!(value(&mut var, "kept"), 3);
    assert_eq!(var.map.get(&String::from("a")), None);
}

#[test]
fn reading_a_variable_records_it() {
    let mut var = VariableMap::new();
    let report = run(String::from("x = y + 1;"), &plain(), &mut var);
    assert_eq!(report.error, None);
    assert_eq!(var.map.get(&String::from("y")), Some(&0));
    assert_eq!(value(&mut var, "x"), 1);
}

#[test]
fn printing_shows_texts_and_numbers() {
    let mut var = VariableMap::new();
    let src = "x = 0 - 12; print \"x is \"; println x; println 5; println \"a\\nb\"; time;";
    let report = run(String::from(src), &Options::new(), &mut var);
    assert_eq!(report.error, None);
    assert_eq!(
        report.output,
        vec![
            Effect::Print(String::from("x is ")),
            Effect::Println(String::from("-12")),
            Effect::Println(String::from("5")),
            Effect::Println(String::from("a\nb")),
            Effect::Time,
        ]
    );
}

#[test]
fn printing_a_symbol_is_a_fault() {
    let mut parser = Parser::new(String::new());
    parser.internal_code = vec![Operation::Print(Token::new(String::from("+"), TokenType::Simbol))];
    let mut var = VariableMap::new();
    let done = parser.exec(&mut var);
    assert_eq!(done.fault, Some(Fault::CannotPrint));
    assert_eq!(done.output.len(), 0);
}

#[test]
fn reading_a_text_is_a_fault() {
    let mut var = VariableMap::new();
    let report = run(String::from("a = \"text\";"), &plain(), &mut var);
    assert_eq!(report.error, Some(RunError::Fault(Fault::BadOperand)));
}

#[test]
fn array_faults() {
    let mut var = VariableMap::new();
    let report = run(String::from("x = a[0];"), &plain(), &mut var);
    assert_eq!(report.error, Some(RunError::Fault(Fault::UndeclaredArray)));
    let report = run(String::from("let a[2]; x = a[2];"), &plain(), &mut var);
    assert_eq!(report.error, Some(RunError::Fault(Fault::IndexOutOfBounds)));
    let report = run(String::from("i = 0 - 1; a[i] = 3;"), &plain(), &mut var);
    assert_eq!(report.error, Some(RunError::Fault(Fault::IndexOutOfBounds)));
    let report = run(String::from("i = 0 - 1; b[i] = 3;"), &plain(), &mut var);
    assert_eq!(report.error, Some(RunError::Fault(Fault::UndeclaredArray)));
    let report = run(String::from("n = 0 - 1; let c[n];"), &plain(), &mut var);
    assert_eq!(report.error, Some(RunError::Fault(Fault::NegativeArraySize)));
    let report = run(String::from("a[1] = 4; x = a[1];"), &plain(), &mut var);
    assert_eq!(report.error, None);
    assert_eq!(value(&mut var, "x"), 4);
}

#[test]
fn a_new_array_replaces_the_old_one() {
    let mut var = VariableMap::new();
    run(String::from("let a[2]; a[0] = 5; let a[3];"), &plain(), &mut var);
    assert_eq!(var.array_get(&ident("a"), 0), Ok(0));
    assert_eq!(var.array_get(&ident("a"), 2), Ok(0));
    assert_eq!(var.array_get(&ident("a"), 3), Err(Fault::IndexOutOfBounds));
}

#[test]
fn jumps_follow_the_label_table() {
    let mut var = VariableMap::new();
    let report = run(String::from("goto nowhere;"), &plain(), &mut var);
    assert_eq!(report.error, Some(RunError::Fault(Fault::UndefinedLabel)));
    // A label that stands for no instruction of the program ends the run.
    var.label_set(&ident("far"), 100);
    let report = run(String::from("x = 1; goto far; x = 2;"), &plain(), &mut var);
    assert_eq!(report.error, None);
    assert_eq!(value(&mut var, "x"), 1);
    // A condition of 0 falls through.
    let report = run(String::from("c = 0; if (c) goto far; x = 3;"), &plain(), &mut var);
    assert_eq!(report.error, None);
    assert_eq!(value(&mut var, "x"), 3);
}

#[test]
fn steps_can_be_made_one_by_one() {
    let mut var = VariableMap::new();
    let mut parser = Parser::new(String::from("x = 2; A: print x; goto A;"));
    parser.compile(&mut var).unwrap();
    let first = parser.step(0, &mut var).unwrap();
    assert_eq!((first.next, first.effect), (1, None));
    let second = parser.step(1, &mut var).unwrap();
    assert_eq!((second.next, second.effect), (2, Some(Effect::Print(String::from("2")))));
    let third = parser.step(2, &mut var).unwrap();
    assert_eq!((third.next, third.effect), (1, None));
}

#[test]
fn the_step_budget_stops_an_endless_loop() {
    let mut var = VariableMap::new();
    let mut parser = Parser::new(String::from("A: i = i + 1; goto A;"));
    parser.compile(&mut var).unwrap();
    let done = parser.exec_within(&mut var, 10);
    assert_eq!(done.fault, Some(Fault::StepLimit));
    // add, copy, goto: three steps a round; the tenth step is the add of the fourth round
    assert_eq!(value(&mut var, "i"), 3);
    assert_eq!(value(&mut var, "_tmp0"), 4);
    let mut fresh = VariableMap::new();
    let done = parser.exec_within(&mut fresh, 0);
    assert_eq!(done.fault, Some(Fault::StepLimit));
}

#[test]
fn the_store_lasts_over_runs() {
    let mut var = VariableMap::new();
    run(String::from("a = 5;"), &Options::new(), &mut var);
    run(String::from("b = a * 2;"), &Options::new(), &mut var);
    assert_eq!(value(&mut var, "b"), 10);
}

#[test]
fn nothing_runs_without_the_execute_option() {
    let mut var = VariableMap::new();
    let opts = Options { emit_ir: true, execute: false, optimize: true };
    let report = run(String::from("a = 5; goto E; a = 6; E: print a;"), &opts, &mut var);
    assert_eq!(report.error, None);
    assert_eq!(report.output.len(), 0);
    assert_eq!(var.map.get(&String::from("a")), None);
    assert_eq!(
        report.listing,
        Some(vec![
            String::from("\tcopy a, i32 5"),
            String::from("\tgoto E"),
            String::from("E:"),
            String::from("\tprint a"),
        ])
    );
}

#[test]
fn while_loop_with_else_and_nested_blocks() {
    let mut var = VariableMap::new();
    let src = "n = 0; for (i = 0; i < 5; i = i + 1) { if (i == 2) { n = n + 10; } else { n = n + 1; } }";
    let report = run(String::from(src), &Options::new(), &mut var);
    assert_eq!(report.error, None);
    assert_eq!(value(&mut var, "n"), 14);
    let mut unoptimized = VariableMap::new();
    run(String::from(src), &plain(), &mut unoptimized);
    assert_eq!(value(&mut unoptimized, "n"), 14);
}

#[test]
fn assignment_is_an_expression() {
    let mut var = VariableMap::new();
    run(String::from("a = b = 3 + 4; c = a + (b - 1) * 2;"), &Options::new(), &mut var);
    assert_eq!(value(&mut var, "a"), 7);
    assert_eq!(value(&mut var, "b"), 7);
    assert_eq!(value(&mut var, "c"), 19);
}
