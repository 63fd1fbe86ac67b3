use haribote_lang::lexer::{Token, TokenType};
use haribote_lang::optimize::cfg::ic_to_cfg;
use haribote_lang::parser::Parser;
use haribote_lang::pipeline::{run, Options};
use haribote_lang::var_map::VariableMap;

#[test]
fn test_add() {
    let src = String::from("result = 100 + 200 - 50;");
    let mut var = VariableMap::new();
    run(src, &Options::new(), &mut var);
    let result = var.get(&Token::new(String::from("result"), TokenType::Ident));
    assert_eq!(result, 250);
}

#[test]
fn test_expr() {
    let src = String::from("a = 10 + 2 * 7 - 4;");
    let mut var = VariableMap::new();
    run(src, &Options::new(), &mut var);
    let result = var.get(&Token::new(String::from("a"), TokenType::Ident));
    assert_eq!(result, 20);
}

#[test]
fn test_int_var() {
    let src = String::from("result = 1; result = result + result * 2; result = result + 4;");
    let mut var = VariableMap::new();
    run(src, &Options::new(), &mut var);
    let result = var.get(&Token::new(String::from("result"), TokenType::Ident));
    assert_eq!(result, 7);
}

#[test]
fn test_goto() {
    let src = String::from(
        "result = 1; goto A; B: result = result * 4; goto C; A: result = result + 2; goto B; C:",
    );
    let mut var = VariableMap::new();
    run(src, &Options::new(), &mut var);
    let result = var.get(&Token::new(String::from("result"), TokenType::Ident));
    assert_eq!(result, 12);
}

#[test]
fn test_if() {
    let src = String::from(
        "a = 2; if (a <= 2) { if (a == 1) {} else { result = 10; } } else { a = 0; }",
    );
    let mut var = VariableMap::new();
    run(src, &Options::new(), &mut var);
    let result = var.get(&Token::new(String::from("result"), TokenType::Ident));
    assert_eq!(result, 10);
}

#[test]
fn test_for() {
    let src = String::from("sum = 0; i = 0; for (;i <= 10; i = i + 1) { sum = sum + i; }");
    let mut var = VariableMap::new();
    run(src, &Options::new(), &mut var);
    let sum = var.get(&Token::new(String::from("sum"), TokenType::Ident));
    assert_eq!(sum, 55);
}

#[test]
fn test_array() {
    let src = String::from("let a[3]; a[1] = 1; a[2] = 2;");
    let mut var = VariableMap::new();
    run(src, &Options::new(), &mut var);
    let a = [
        var.array_get(&Token::new("a".to_string(), TokenType::Ident), 0).unwrap(),
        var.array_get(&Token::new("a".to_string(), TokenType::Ident), 1).unwrap(),
        var.array_get(&Token::new("a".to_string(), TokenType::Ident), 2).unwrap(),
    ];
    assert_eq!(a, [0, 1, 2]);
}

#[test]
fn test_build_cfg() {
    let src = String::from("a = 3; b = a; A: b = 100; goto A;");
    let mut var_map = VariableMap::new();
    let mut parser = Parser::new(src);
    let _ = parser.compile(&mut var_map);
    parser.dump_internal_code(&mut var_map);
    ic_to_cfg(&parser.internal_code, &mut var_map).unwrap();
}

#[test]
fn cfg_of_a_loop() {
    let src = String::from("a = 3; b = a; A: b = 100; goto A;");
    let mut var_map = VariableMap::new();
    let mut parser = Parser::new(src);
    parser.compile(&mut var_map).unwrap();
    let cfg = ic_to_cfg(&parser.internal_code, &mut var_map).unwrap();
    assert_eq!(cfg.succs, vec![vec![1], vec![2], vec![3], vec![2], vec![]]);
    assert_eq!(cfg.preds, vec![vec![], vec![0], vec![1, 3], vec![2], vec![]]);
}
