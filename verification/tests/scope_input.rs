use rust_actions::scope_input::{map_uint_vars, parse_keyed_scope, parse_u32};
use rust_actions::Value;

fn names(pairs: &[(&str, u32)]) -> Vec<(String, u32)> {
    pairs.iter().map(|(k, v)| (String::from(*k), *v)).collect()
}

#[test]
fn mapped_inputs_are_bound_and_others_dropped() {
    let vars = vec![
        (String::from("hallo"), Value::from("a")),
        (String::from("unused"), Value::from("b")),
        (String::from("count"), Value::Int(3)),
    ];
    let scope = map_uint_vars(vars, &names(&[("hallo", 24110), ("count", 1), ("missing", 9)]));
    assert_eq!(scope.len(), 2);
    assert!(scope[&24110] == "a");
    assert!(scope[&1] == 3i64);
    assert!(!scope.contains_key(&9));
}

#[test]
fn first_input_wins_when_names_share_an_id() {
    let vars = vec![
        (String::from("x"), Value::Int(1)),
        (String::from("y"), Value::Int(2)),
    ];
    let scope = map_uint_vars(vars, &names(&[("x", 5), ("y", 5)]));
    assert_eq!(scope.len(), 1);
    assert!(scope[&5] == 1i64);
}

#[test]
fn empty_inputs_give_empty_scope() {
    assert!(map_uint_vars(vec![], &names(&[("x", 1)])).is_empty());
    assert!(map_uint_vars(vec![(String::from("x"), Value::Nil)], &vec![]).is_empty());
}

#[test]
fn parse_u32_accepts_what_str_parse_accepts() {
    for text in ["0", "7", "+7", "0042", "4294967295", "24110", "", "+", "-1", "4294967296", "1a", " 1", "++1", "99999999999", "٣"] {
        assert_eq!(parse_u32(text), text.parse::<u32>().ok(), "text {:?}", text);
    }
}

#[test]
fn keyed_scope_binds_parsed_ids() {
    let scope = parse_keyed_scope(vec![
        (String::from("100"), Value::Int(1)),
        (String::from("24110"), Value::from("v")),
    ])
    .unwrap();
    assert_eq!(scope.len(), 2);
    assert!(scope[&100] == 1i64);
    assert!(scope[&24110] == "v");
}

#[test]
fn keyed_scope_refuses_a_bad_key() {
    assert!(parse_keyed_scope(vec![
        (String::from("1"), Value::Int(1)),
        (String::from("a"), Value::Int(2)),
    ])
    .is_none());
    assert!(parse_keyed_scope(vec![]).unwrap().is_empty());
}

#[test]
fn keyed_scope_first_of_equal_ids_wins() {
    let scope = parse_keyed_scope(vec![
        (String::from("1"), Value::Int(1)),
        (String::from("01"), Value::Int(2)),
    ])
    .unwrap();
    assert_eq!(scope.len(), 1);
    assert!(scope[&1] == 1i64);
}
