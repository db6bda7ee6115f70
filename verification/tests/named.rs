use rust_actions::action;
use rust_actions::named::{Context, Value, ValueType};

#[test]
fn it_works() -> Result<(), String> {
    let expected = "yes2".to_string();

    // emulate a generated function by wit-bindgen
    let nice_function = |p: String| expected == p;

    let result = action();
    assert!(nice_function(result.try_into()?));

    Ok(())
}

#[test]
fn named_type_names() {
    assert_eq!(ValueType::String.to_string(), "string");
    assert_eq!(ValueType::Int.to_string(), "integer");
    assert_eq!(ValueType::Nil.to_string(), "nil");
    assert_eq!(Value::from(5i64).as_type(), ValueType::Int);
    assert_eq!(Value::default().as_type(), ValueType::Nil);
}

#[test]
fn named_read_after_write() {
    let mut ctx = Context::new();
    assert!(matches!(ctx.get("a"), Value::Nil));
    ctx.set("a", Value::from("x"));
    assert!(ctx.get("a") == "x");
    assert!(matches!(ctx.get("b"), Value::Nil));
    ctx.set("a", Value::from(3i64));
    assert!(matches!(ctx.get("a"), Value::Int(3)));
}

#[test]
fn named_write_reaches_outer_binding() {
    let mut ctx = Context::new();
    ctx.set("outer", Value::from("1"));
    ctx.push();
    ctx.set("outer", Value::from("2"));
    ctx.set("local", Value::from("3"));
    assert_eq!(ctx.depth(), 2);
    ctx.pop();
    assert!(ctx.get("outer") == "2");
    assert!(matches!(ctx.get("local"), Value::Nil));
}

#[test]
fn named_pop_on_empty_stack_does_nothing() {
    let mut ctx = Context::new();
    ctx.pop();
    ctx.pop();
    assert_eq!(ctx.depth(), 0);
    assert!(matches!(ctx.get("a"), Value::Nil));
}

#[test]
fn named_conversion_errors() {
    let r: Result<i64, String> = Value::from("a").try_into();
    assert_eq!(r, Err(String::from("Invalid type expected integer found string")));
    let r: Result<(), String> = Value::Int(1).try_into();
    assert_eq!(r, Err(String::from("Invalid type expected nil found integer")));
    let r: Result<String, String> = Value::Nil.try_into();
    assert_eq!(r, Err(String::from("Invalid type expected string found nil")));
    let r: Result<i64, String> = Value::from(-9i64).try_into();
    assert_eq!(r, Ok(-9));
    assert!(Value::from(String::from("q")) == String::from("q"));
    assert!(Value::Nil != "q");
}

#[test]
fn named_values_compare_by_kind_and_content() {
    assert!(Value::from("a") == Value::from("a"));
    assert!(Value::from("a") != Value::from("b"));
    assert!(Value::Int(1) == Value::Int(1));
    assert!(Value::Int(1) != Value::from("1"));
    assert!(Value::Nil == Value::Nil);
    assert!(Value::from("a") < Value::from("b"));
    assert!(Value::from("zz") < Value::Int(-5));
    assert!(Value::Int(-5) < Value::Int(3));
    assert!(Value::Int(i64::MAX) < Value::Nil);
    assert_eq!(Value::from("é").partial_cmp(&Value::from("z")), Some(std::cmp::Ordering::Greater));
    assert_eq!(Value::Int(2).cmp(&Value::Int(2)), std::cmp::Ordering::Equal);
    let mut values = vec![Value::Nil, Value::Int(2), Value::from("b"), Value::Int(-1), Value::from("a")];
    values.sort();
    assert_eq!(values, vec![Value::from("a"), Value::from("b"), Value::Int(-1), Value::Int(2), Value::Nil]);
    for a in &values {
        for b in &values {
            assert_eq!(a.partial_cmp(b), Some(a.cmp(b)));
        }
    }
}

#[test]
fn named_context_lists_innermost_scope_first() {
    let mut ctx = Context::new();
    ctx.set("outer", Value::Int(1));
    ctx.push();
    ctx.set("inner", Value::Int(2));
    let shown = format!("{:?}", ctx);
    assert!(shown.find("inner").unwrap() < shown.find("outer").unwrap());
}
