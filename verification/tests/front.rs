use haribote_lang::lexer::{
    dump_token, is_normal_symbol, is_one_char_symbol, is_whitespace, LexError, Lexer, Token,
    TokenType,
};
use haribote_lang::parser::{dump_operation, Operation, Parser, SyntaxError};
use haribote_lang::var_map::VariableMap;

fn lex(src: &str) -> Result<Vec<Token>, LexError> {
    let mut lexer = Lexer::new(String::from(src));
    lexer.lex().map(|()| lexer.tokens)
}

fn compile(src: &str) -> Result<Vec<String>, SyntaxError> {
    let mut var = VariableMap::new();
    let mut parser = Parser::new(String::from(src));
    parser.compile(&mut var)?;
    Ok(parser.internal_code.iter().map(dump_operation).collect())
}

#[test]
fn tokens_have_kinds_and_lines() {
    let toks = lex("x1 = 42;\n  print \"hi\\n\" <= y").unwrap();
    let got: Vec<(String, TokenType, Option<i32>)> =
        toks.into_iter().map(|t| (t.string, t.ty, t.line)).collect();
    let want = vec![
        (String::from("x1"), TokenType::Ident, Some(0)),
        (String::from("="), TokenType::Simbol, Some(0)),
        (String::from("42"), TokenType::NumLiteral(42), Some(0)),
        (String::from(";"), TokenType::Simbol, Some(0)),
        (String::from("print"), TokenType::Ident, Some(1)),
        (String::from("hi\n"), TokenType::StrLiteral, Some(1)),
        (String::from("<="), TokenType::Simbol, Some(1)),
        (String::from("y"), TokenType::Ident, Some(1)),
        (String::from(";"), TokenType::Simbol, None),
        (String::from(""), TokenType::Simbol, None),
        (String::from(""), TokenType::StrLiteral, None),
        (String::from(""), TokenType::StrLiteral, None),
    ];
    assert_eq!(got, want);
}

#[test]
fn empty_text_has_the_closing_tokens_only() {
    let toks = lex("").unwrap();
    assert_eq!(toks.len(), 4);
    assert_eq!(toks[0].string, ";");
    let toks = lex(" \t\r\n").unwrap();
    assert_eq!(toks.len(), 4);
}

#[test]
fn symbols_run_together_but_brackets_stand_alone() {
    let toks = lex("a==-b((").unwrap();
    let texts: Vec<&str> = toks.iter().map(|t| t.string.as_str()).collect();
    assert_eq!(texts, vec!["a", "==-", "b", "(", "(", ";", "", "", ""]);
}

#[test]
fn lexer_errors() {
    assert_eq!(lex("a = \"open").err(), Some(LexError::UnterminatedString));
    assert_eq!(lex("a = @;").err(), Some(LexError::UnexpectedChar));
    assert_eq!(lex("a_b").err(), Some(LexError::UnexpectedChar));
    assert_eq!(lex("a = 2147483648;").err(), Some(LexError::NumberTooLarge));
    assert_eq!(lex("a = 99999999999999999999999;").err(), Some(LexError::NumberTooLarge));
    assert_eq!(lex("a = 2147483647;").unwrap()[2].ty, TokenType::NumLiteral(2147483647));
    assert_eq!(lex("007").unwrap()[0].ty, TokenType::NumLiteral(7));
}

#[test]
fn a_failed_lex_changes_nothing() {
    let mut lexer = Lexer::new(String::from("a = @"));
    assert_eq!(lexer.lex(), Err(LexError::UnexpectedChar));
    assert_eq!(lexer.tokens.len(), 0);
    assert_eq!(lexer.pos, 0);
}

#[test]
fn character_classes() {
    assert!(is_whitespace(' ') && is_whitespace('\n') && is_whitespace('\t') && is_whitespace('\r'));
    assert!(!is_whitespace('a'));
    for c in "(){}[];,".chars() {
        assert!(is_one_char_symbol(c));
        assert!(!is_normal_symbol(c));
    }
    for c in "=+-*/!%&~|<>?:.#".chars() {
        assert!(is_normal_symbol(c));
        assert!(!is_one_char_symbol(c));
    }
    assert!(!is_normal_symbol('a') && !is_one_char_symbol('"'));
}

#[test]
fn tokens_are_built_and_shown() {
    let t = Token::new(String::from("x"), TokenType::Ident);
    assert_eq!((t.string.as_str(), t.ty, t.line), ("x", TokenType::Ident, None));
    assert!(t.matches("x") && !t.matches("xy") && !t.matches(""));
    let t = Token::new_with_line_num(String::from("+"), TokenType::Simbol, 3);
    assert_eq!(t.line, Some(3));
    assert_eq!(dump_token(&t), "+(Simbol)");
    let n = Token::new_num(-2147483648, Some(1));
    assert_eq!((n.string.as_str(), n.ty, n.line), ("-2147483648", TokenType::NumLiteral(-2147483648), Some(1)));
    assert_eq!(Token::new_num(0, None).string, "0");
    assert_eq!(Token::new_num(1000, None).string, "1000");
    assert_eq!(dump_token(&n), "i32 -2147483648");
    assert_eq!(dump_token(&Token::new(String::from("name"), TokenType::Ident)), "name");
    assert_eq!(dump_token(&Token::new(String::from("a b"), TokenType::StrLiteral)), "Str \"a b\"");
    assert_eq!(n.clone(), n);
}

#[test]
fn instructions_are_shown() {
    let a = || Token::new(String::from("a"), TokenType::Ident);
    let b = || Token::new(String::from("b"), TokenType::Ident);
    let one = || Token::new_num(1, None);
    assert_eq!(dump_operation(&Operation::Copy(a(), one())), "copy a, i32 1");
    assert_eq!(dump_operation(&Operation::Add(a(), b(), one())), "add a, b, i32 1");
    assert_eq!(dump_operation(&Operation::Sub(a(), b(), one())), "sub a, b, i32 1");
    assert_eq!(dump_operation(&Operation::Mul(a(), b(), one())), "mul a, b, i32 1");
    assert_eq!(dump_operation(&Operation::Div(a(), b(), one())), "div a, b, i32 1");
    assert_eq!(dump_operation(&Operation::Eq(a(), b(), one())), "eq a, b, i32 1");
    assert_eq!(dump_operation(&Operation::Ne(a(), b(), one())), "ne a, b, i32 1");
    assert_eq!(dump_operation(&Operation::Lt(a(), b(), one())), "lt a, b, i32 1");
    assert_eq!(dump_operation(&Operation::Le(a(), b(), one())), "le a, b, i32 1");
    assert_eq!(dump_operation(&Operation::Print(a())), "print a");
    assert_eq!(dump_operation(&Operation::Println(one())), "println i32 1");
    assert_eq!(dump_operation(&Operation::Time), "time");
    assert_eq!(dump_operation(&Operation::Goto(a())), "goto a");
    assert_eq!(dump_operation(&Operation::IfGoto(a(), b())), "ifGoto a, b");
    assert_eq!(dump_operation(&Operation::ArrayNew(a(), one())), "arrayNew a, i32 1");
    assert_eq!(dump_operation(&Operation::ArraySet(a(), one(), b())), "arraySet a, i32 1, b");
    assert_eq!(dump_operation(&Operation::ArrayGet(a(), b(), one())), "arrayGetElem a, b, i32 1");
    assert_eq!(dump_operation(&Operation::Nop), "nop");
}

#[test]
fn statements_compile_to_instructions() {
    assert_eq!(compile("a = 1;").unwrap(), vec!["copy a, i32 1"]);
    assert_eq!(
        compile("a = b + c * 2;").unwrap(),
        vec!["mul _tmp0, c, i32 2", "add _tmp1, b, _tmp0", "copy a, _tmp1"]
    );
    assert_eq!(
        compile("a = (b - 1) / 2 != c;").unwrap(),
        vec!["sub _tmp0, b, i32 1", "div _tmp1, _tmp0, i32 2", "ne _tmp2, _tmp1, c", "copy a, _tmp2"]
    );
    assert_eq!(compile("print 1 + 2;").unwrap(), vec!["add _tmp0, i32 1, i32 2", "print _tmp0"]);
    assert_eq!(compile("println \"s\";").unwrap(), vec!["println Str \"s\""]);
    assert_eq!(compile("time;").unwrap(), vec!["time"]);
    assert_eq!(compile("goto A;").unwrap(), vec!["goto A"]);
    assert_eq!(
        compile("if (a < b) goto L;").unwrap(),
        vec!["lt _tmp0, a, b", "ifGoto _tmp0, L"]
    );
    assert_eq!(compile("let v[n + 1];").unwrap(), vec!["add _tmp0, n, i32 1", "arrayNew v, _tmp0"]);
    assert_eq!(
        compile("v[i + 1] = v[j] * 2;").unwrap(),
        vec![
            "add _tmp0, i, i32 1",
            "arrayGetElem _tmp1, v, j",
            "mul _tmp2, _tmp1, i32 2",
            "arraySet v, _tmp0, _tmp2"
        ]
    );
    assert_eq!(compile("a = b = 1;").unwrap(), vec!["copy b, i32 1", "copy a, i32 1"]);
    assert_eq!(compile("a + 1;").unwrap(), vec!["add _tmp0, a, i32 1"]);
    assert_eq!(compile(";;").unwrap(), Vec::<String>::new());
    assert_eq!(compile("").unwrap(), Vec::<String>::new());
}

#[test]
fn blocks_compile_to_jumps() {
    assert_eq!(
        compile("if (a) { b = 1; }").unwrap(),
        vec!["eq _tmp0, a, i32 0", "ifGoto _tmp0, _tmpLabel0", "copy b, i32 1"]
    );
    assert_eq!(
        compile("if (a) { b = 1; } else { b = 2; }").unwrap(),
        vec![
            "eq _tmp0, a, i32 0",
            "ifGoto _tmp0, _tmpLabel0",
            "copy b, i32 1",
            "goto _tmpLabel1",
            "copy b, i32 2"
        ]
    );
    assert_eq!(
        compile("for (i = 0; i < 3; i = i + 1) { print i; }").unwrap(),
        vec![
            "copy i, i32 0",
            "lt _tmp0, i, i32 3",
            "eq _tmp1, _tmp0, i32 0",
            "ifGoto _tmp1, _tmpLabel0",
            "print i",
            "add _tmp0, i, i32 1",
            "copy i, _tmp0",
            "lt _tmp1, i, i32 3",
            "ifGoto _tmp1, _tmpLabel1"
        ]
    );
    assert_eq!(compile("for (;;) { time; }").unwrap(), vec!["time", "goto _tmpLabel1"]);
}

#[test]
fn labels_stand_for_the_next_instruction() {
    let mut var = VariableMap::new();
    let mut parser = Parser::new(String::from("A: a = 1; B: C: if (a) { b = 2; } D:"));
    parser.compile(&mut var).unwrap();
    let at = |var: &mut VariableMap, name: &str| {
        var.label_get(&Token::new(String::from(name), TokenType::Ident)).unwrap()
    };
    assert_eq!(at(&mut var, "A"), 0);
    assert_eq!(at(&mut var, "B"), 1);
    assert_eq!(at(&mut var, "C"), 1);
    assert_eq!(at(&mut var, "_tmpLabel0"), 4);
    assert_eq!(at(&mut var, "D"), 4);
    assert_eq!(
        parser.dump_internal_code(&mut var),
        vec![
            "A:",
            "\tcopy a, i32 1",
            "B:",
            "C:",
            "\teq _tmp0, a, i32 0",
            "\tifGoto _tmp0, _tmpLabel0",
            "\tcopy b, i32 2",
            "_tmpLabel0:",
            "D:"
        ]
    );
}

#[test]
fn syntax_errors() {
    assert_eq!(compile("a = \"open;").err(), Some(SyntaxError::Lex(LexError::UnterminatedString)));
    assert_eq!(compile("a = (1 + 2;").err(), Some(SyntaxError::MissingParenthesis));
    assert_eq!(compile("a = v[1;").err(), Some(SyntaxError::UnmatchedBracket));
    assert_eq!(compile("}").err(), Some(SyntaxError::UnmatchedBraces));
    assert_eq!(compile("} else {").err(), Some(SyntaxError::UnmatchedBraces));
    assert_eq!(compile("for (;;) { } else { }").err(), Some(SyntaxError::UnmatchedElse));
    assert_eq!(compile("if (a) { } else { } else { }").err(), Some(SyntaxError::UnmatchedElse));
    assert_eq!(compile("a b c").err(), Some(SyntaxError::UnknownStatement));
    assert_eq!(compile("= 1;").err(), Some(SyntaxError::UnknownStatement));
    assert_eq!(compile("a = -b;").err(), Some(SyntaxError::UnknownStatement));
}

#[test]
fn expressions_can_be_read_alone() {
    let mut parser = Parser::new(String::from("1 + 2 * x"));
    assert_eq!(parser.expr_len(0), Ok(5));
    assert_eq!(parser.expr_len(2), Ok(3));
    assert_eq!(parser.expr_len(4), Ok(1));
    let value = parser.evaluate_expr(0).unwrap();
    assert_eq!(value.string, "_tmp1");
    assert_eq!(parser.expr_pos, 5);
    assert_eq!(parser.internal_code.len(), 2);
    let mut parser = Parser::new(String::from("(a) + b"));
    assert_eq!(parser.expr_len(0), Ok(3));
    assert_eq!(parser.evaluate_expr(0).unwrap().string, "_tmp0");
    let mut parser = Parser::new(String::from("-b * +c"));
    assert_eq!(parser.evaluate_expr(0).unwrap().string, "_tmp1");
    let lines: Vec<String> = parser.internal_code.iter().map(dump_operation).collect();
    assert_eq!(lines, vec!["sub _tmp0, i32 0, b", "mul _tmp1, _tmp0, c"]);
    let mut parser = Parser::new(String::from("; x"));
    assert_eq!(parser.evaluate_opt_expr(0), Ok(None));
    assert_eq!(parser.evaluate_opt_expr(1).unwrap().unwrap().string, "x");
    assert_eq!(parser.evaluate_opt_expr(99), Err(SyntaxError::UnexpectedEnd));
}
