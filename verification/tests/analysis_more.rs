use haribote_lang::error::Fault;
use haribote_lang::optimize::cfg::ic_to_cfg;
use haribote_lang::optimize::constant::ConstMap;
use haribote_lang::parser::Parser;
use haribote_lang::var_map::VariableMap;
use std::collections::HashMap;

fn facts(facts: &ConstMap) -> HashMap<String, Option<i32>> {
    let mut map = HashMap::new();
    for i in 0..facts.outs.len() {
        map.insert(facts.outs.name_at(i).clone(), *facts.outs.value_at(i));
    }
    map
}

fn analyze(src: &str) -> Result<Vec<HashMap<String, Option<i32>>>, Fault> {
    let mut var_map = VariableMap::new();
    let mut parser = Parser::new(String::from(src));
    parser.compile(&mut var_map).unwrap();
    let cfg = ic_to_cfg(&parser.internal_code, &mut var_map).unwrap();
    cfg.constant_propagation().map(|maps| maps.iter().map(facts).collect())
}

#[test]
fn branches_that_agree_keep_the_constant() {
    // 0: x = 1; 1: ifGoto c, A; 2: x = 1; 3(A): y = x
    let outs = analyze("x = 1; if (c) goto A; x = 1; A: y = x;").unwrap();
    assert_eq!(outs[3].get("x"), Some(&Some(1)));
    assert_eq!(outs[3].get("y"), Some(&Some(1)));
}

#[test]
fn branches_that_differ_lose_the_constant() {
    let outs = analyze("x = 1; if (c) goto A; x = 2; A: y = x;").unwrap();
    assert_eq!(outs[2].get("x"), Some(&Some(2)));
    assert_eq!(outs[3].get("x"), Some(&None));
    assert_eq!(outs[3].get("y"), Some(&None));
}

#[test]
fn a_fact_of_one_branch_only_is_kept() {
    // x is bound on the path through instruction 1 only
    let outs = analyze("if (c) goto A; x = 5; A: y = x;").unwrap();
    assert_eq!(outs[2].get("x"), Some(&Some(5)));
    assert_eq!(outs[2].get("y"), Some(&Some(5)));
}

#[test]
fn other_instructions_pass_the_facts_on() {
    let outs = analyze("x = 4; print x; time; let a[x]; a[0] = x; y = a[0]; goto E; E:").unwrap();
    for out in &outs[1..5] {
        assert_eq!(out.get("x"), Some(&Some(4)));
        assert_eq!(out.len(), 1);
    }
    assert_eq!(outs[0].len(), 1);
}

#[test]
fn the_analysis_is_a_fixed_point() {
    // Running it again gives the same facts.
    let first = analyze("s = 0; i = 0; A: s = s + i; i = i + 1; if (i <= 10) goto A; r = s;").unwrap();
    let second = analyze("s = 0; i = 0; A: s = s + i; i = i + 1; if (i <= 10) goto A; r = s;").unwrap();
    assert_eq!(first, second);
    assert_eq!(first[0].get("s"), Some(&Some(0)));
    assert_eq!(first[first.len() - 1].get("r"), Some(&None));
}

#[test]
fn division_by_constant_zero_is_a_fault() {
    assert_eq!(analyze("a = 0; b = 1 / a;").err(), Some(Fault::ZeroDivision));
    assert!(analyze("b = 1 / a;").is_ok());
}

#[test]
fn a_run_that_does_not_settle_is_given_up() {
    let src = "x = 1; z = z; A: z = x; x = y; y = z; goto A; y = 1;";
    assert_eq!(analyze(src).err(), Some(Fault::StepLimit));
}

#[test]
fn the_budget_bounds_the_steps() {
    let mut var_map = VariableMap::new();
    let mut parser = Parser::new(String::from("a = 1; b = a; c = b;"));
    parser.compile(&mut var_map).unwrap();
    let cfg = ic_to_cfg(&parser.internal_code, &mut var_map).unwrap();
    assert_eq!(cfg.constant_propagation_within(2).err(), Some(Fault::StepLimit));
    let maps = cfg.constant_propagation_within(3).unwrap();
    assert_eq!(facts(&maps[2]).get("c"), Some(&Some(1)));
    assert!(cfg.constant_propagation_within(0).is_err());
}

#[test]
fn empty_program_has_no_facts() {
    assert_eq!(analyze("").unwrap().len(), 0);
}
