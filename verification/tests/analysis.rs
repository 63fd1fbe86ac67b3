use haribote_lang::optimize::cfg::ic_to_cfg;
use haribote_lang::optimize::constant::ConstMap;
use haribote_lang::parser::Parser;
use haribote_lang::var_map::VariableMap;
use std::collections::HashMap;

fn outs(facts: &ConstMap) -> HashMap<String, Option<i32>> {
    let mut map = HashMap::new();
    for i in 0..facts.outs.len() {
        map.insert(facts.outs.name_at(i).clone(), *facts.outs.value_at(i));
    }
    map
}

#[test]
fn test_constant_propagation_on_acyclic_graph() {
    let src = String::from("a = 1; b = 2; c = 3; c = e;");
    let mut var_map = VariableMap::new();
    let mut parser = Parser::new(src);
    let _ = parser.compile(&mut var_map);
    let cfg = ic_to_cfg(&parser.internal_code, &mut var_map).unwrap();
    let const_maps = cfg.constant_propagation().unwrap();
    let mut c = HashMap::new();
    c.insert(String::from("a"), Some(1));
    assert_eq!(outs(&const_maps[0]), c);
    c.insert(String::from("b"), Some(2));
    assert_eq!(outs(&const_maps[1]), c);
    c.insert(String::from("c"), Some(3));
    assert_eq!(outs(&const_maps[2]), c);
    c.insert(String::from("c"), None);
    assert_eq!(outs(&const_maps[3]), c);
}

#[test]
fn test_constant_propagation_on_cyclic_graph() {
    let src = String::from("i = 0; A: i = i + 1; goto A;");
    let mut var_map = VariableMap::new();
    let mut parser = Parser::new(src);
    let _ = parser.compile(&mut var_map);
    let cfg = ic_to_cfg(&parser.internal_code, &mut var_map).unwrap();
    let const_maps = cfg.constant_propagation().unwrap();
    println!("{:?}", const_maps);
    let mut c = HashMap::new();
    c.insert(String::from("i"), Some(0));
    assert_eq!(outs(&const_maps[0]), c);
    c.insert(String::from("i"), None);
    c.insert(String::from("_tmp0"), None);
    assert_eq!(outs(&const_maps[1]), c);
    assert_eq!(outs(&const_maps[2]), c);
    assert_eq!(outs(&const_maps[3]), c);
}
