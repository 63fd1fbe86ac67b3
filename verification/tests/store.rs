use haribote_lang::error::Fault;
use haribote_lang::lexer::{Lexer, Token, TokenType};
use haribote_lang::name_map::NameMap;
use haribote_lang::var_map::VariableMap;

#[test]
fn test_numerical_literals() {
    let mut var = VariableMap::new();
    assert_eq!(var.get(&Token::new_num(100, None)), 100);
    assert_eq!(var.get(&Token::new(String::from("a"), TokenType::Ident)), 0);
}

#[test]
fn test_lexer() {
    let src = String::from("v200 = 200; if(v200 / 4 == 900) goto end;");
    let mut lexer = Lexer::new(src);
    lexer.lex().unwrap();
    let mut tok_strs = Vec::new();
    for tok in lexer.tokens {
        tok_strs.push(tok.string);
    }
    assert_eq!(
        tok_strs,
        vec![
            "v200", "=", "200", ";", "if", "(", "v200", "/", "4", "==", "900", ")", "goto",
            "end", ";", ";", "", "", ""
        ]
    );
}

#[test]
fn variables_arrays_and_labels_are_apart() {
    let mut var = VariableMap::new();
    let x = Token::new(String::from("x"), TokenType::Ident);
    var.set(&x, 5);
    var.array_init(&x, 2);
    var.label_set(&x, 9);
    assert_eq!(var.get(&x), 5);
    assert_eq!(var.array_get(&x, 0), Ok(0));
    assert_eq!(var.label_get(&x), Ok(9));
    var.set(&x, -1);
    assert_eq!(var.get(&x), -1);
    assert_eq!(var.array_set(&x, 1, 7), Ok(()));
    assert_eq!(var.array_get(&x, 1), Ok(7));
    assert_eq!(var.array_get(&x, 0), Ok(0));
}

#[test]
fn store_faults() {
    let mut var = VariableMap::new();
    let a = Token::new(String::from("a"), TokenType::Ident);
    assert_eq!(var.array_get(&a, 0), Err(Fault::UndeclaredArray));
    assert_eq!(var.array_set(&a, 0, 1), Err(Fault::UndeclaredArray));
    assert_eq!(var.label_get(&a), Err(Fault::UndefinedLabel));
    var.array_init(&a, 0);
    assert_eq!(var.array_get(&a, 0), Err(Fault::IndexOutOfBounds));
    assert_eq!(var.array_set(&a, 0, 1), Err(Fault::IndexOutOfBounds));
    var.array_init(&a, 3);
    assert_eq!(var.array_set(&a, 3, 1), Err(Fault::IndexOutOfBounds));
    assert_eq!(var.array_get(&a, 2), Ok(0));
}

#[test]
fn a_read_records_the_default() {
    let mut var = VariableMap::new();
    let a = Token::new(String::from("a"), TokenType::Ident);
    assert_eq!(var.map.len(), 0);
    assert_eq!(var.get(&a), 0);
    assert_eq!(var.map.len(), 1);
    assert_eq!(var.get(&Token::new_num(-7, None)), -7);
    assert_eq!(var.map.len(), 1);
}

#[test]
fn name_map_keeps_the_order_of_first_insertion() {
    let mut map: NameMap<i32> = NameMap::new();
    map.insert(String::from("b"), 1);
    map.insert(String::from("a"), 2);
    map.insert(String::from("b"), 3);
    assert_eq!(map.len(), 2);
    assert_eq!((map.name_at(0).as_str(), *map.value_at(0)), ("b", 3));
    assert_eq!((map.name_at(1).as_str(), *map.value_at(1)), ("a", 2));
    assert_eq!(map.position(&String::from("a")), Some(1));
    assert_eq!(map.get(&String::from("c")), None);
    assert_eq!(map.remove(&String::from("b")), Some(3));
    assert_eq!(map.remove(&String::from("b")), None);
    assert_eq!(map.len(), 1);
    assert_eq!(map.get(&String::from("a")), Some(&2));
}
