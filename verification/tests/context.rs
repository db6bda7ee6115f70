use rust_actions::context::Scope;
use rust_actions::scope_input::map_uint_vars;
use rust_actions::{Context, Value};

fn input(pairs: Vec<(&str, Value)>) -> Vec<(String, Value)> {
    pairs.into_iter().map(|(k, v)| (String::from(k), v)).collect()
}

fn mapping(pairs: &[(&str, u32)]) -> Vec<(String, u32)> {
    pairs.iter().map(|(k, v)| (String::from(*k), *v)).collect()
}

fn scope(ctx: &mut Context, vars: Vec<(String, Value)>, names: Vec<(String, u32)>, body: impl FnOnce(&mut Context)) {
    ctx.push(map_uint_vars(vars, &names));
    body(ctx);
    ctx.pop();
}

fn hallo(input: String) -> String {
    input + ", hallo!"
}

fn looped_hallo(input: (String, String, i64)) -> String {
    input.0 + &input.1 + &input.2.to_string() + ", hallo!"
}

fn nested_scope(vars: Vec<(String, Value)>) -> Value {
    let mut ctx = Context::new();
    scope(&mut ctx, vars, mapping(&[("hallo", 24110)]), |ctx| {
        scope(
            ctx,
            input(vec![("hallo", Value::String(String::from("Inner scope")))]),
            mapping(&[("hallo", 24110)]),
            |ctx| ctx.set(24110, Value::String(String::from("Very inner scope"))),
        );
        let input: String = ctx.get(24110).try_into().unwrap();
        ctx.set(24110, Value::from(hallo(input)));
        let result = ctx.get(24110);
        ctx.set_result(result);
    });
    ctx.result()
}

fn multiple_action_steps(vars: Vec<(String, Value)>) -> Value {
    let mut ctx = Context::new();
    scope(&mut ctx, vars, mapping(&[("hallo", 24110)]), |ctx| {
        let input: String = ctx.get(24110).try_into().unwrap();
        ctx.set(24110, Value::from(hallo(input)));
        let input: String = ctx.get(24110).try_into().unwrap();
        ctx.set(24110, Value::from(hallo(input)));
        let result = ctx.get(24110);
        ctx.set_result(result);
    });
    ctx.result()
}

fn conditional(vars: Vec<(String, Value)>) -> Value {
    let mut ctx = Context::new();
    scope(&mut ctx, vars, mapping(&[("hallo", 24110)]), |ctx| {
        if ctx.get(24110) == "Go to path 1!" {
            scope(ctx, vec![], vec![], |ctx| {
                let value = ctx.get(24110);
                ctx.set(24110, multiple_action_steps(input(vec![("hallo", value)])));
                let result = ctx.get(24110);
                ctx.set_result(result);
            });
        } else {
            scope(ctx, vec![], vec![], |ctx| {
                ctx.set_result(Value::String(String::from("Else hit!")));
            });
        }
    });
    ctx.result()
}

fn loop_steps(vars: Vec<(String, Value)>) -> Value {
    let mut ctx = Context::new();
    scope(&mut ctx, vars, mapping(&[("array", 3), ("hallo", 24110)]), |ctx| {
        let arr = ctx.get(3);
        let items: Vec<Value> = arr.try_into().unwrap();
        for (index, iterator) in items.into_iter().enumerate() {
            scope(
                ctx,
                input(vec![("iterator", iterator), ("index", Value::Int(index as i64))]),
                mapping(&[("index", 1), ("iterator", 2)]),
                |ctx| {
                    let input = (
                        ctx.get(24110).try_into().unwrap(),
                        ctx.get(2).try_into().unwrap(),
                        ctx.get(1).try_into().unwrap(),
                    );
                    ctx.set(24110, Value::from(looped_hallo(input)));
                },
            );
        }
        let result = ctx.get(24110);
        ctx.set_result(result);
    });
    ctx.result()
}

#[test]
fn nested_scope_test() {
    assert!(
        nested_scope(input(vec![("hallo", Value::String(String::from("hallo_value")))]))
            == "hallo_value, hallo!"
    );
}

#[test]
fn conditional_path_1_test() {
    assert!(
        conditional(input(vec![("hallo", Value::String(String::from("Go to path 1!")))]))
            == "Go to path 1!, hallo!, hallo!"
    );
}

#[test]
fn conditional_else_test() {
    assert!(
        conditional(input(vec![("hallo", Value::String(String::from("Don't go to path 1!")))]))
            == "Else hit!"
    );
}

#[test]
fn multiple_action_steps_test() {
    assert!(
        multiple_action_steps(input(vec![("hallo", Value::String(String::from("hallo_value")))]))
            == "hallo_value, hallo!, hallo!"
    );
}

#[test]
fn loop_steps_test() {
    assert!(
        loop_steps(input(vec![
            (
                "array",
                Value::Vec(vec![
                    Value::String(String::from("First")),
                    Value::String(String::from("Second")),
                    Value::String(String::from("Third")),
                ]),
            ),
            ("hallo", Value::String(String::from(""))),
        ])) == "First0, hallo!Second1, hallo!Third2, hallo!"
    );
}

#[test]
fn fresh_context_reads_nil() {
    let ctx = Context::new();
    assert_eq!(ctx.depth(), 1);
    assert!(matches!(ctx.get(0), Value::Nil));
    assert!(matches!(ctx.result(), Value::Nil));
    assert!(matches!(Context::default().get(5), Value::Nil));
}

#[test]
fn read_after_write_and_other_keys() {
    let mut ctx = Context::new();
    ctx.set(1, Value::Int(10));
    ctx.set(2, Value::from("two"));
    assert!(ctx.get(1) == 10i64);
    assert!(ctx.get(2) == "two");
    ctx.set(1, Value::Int(11));
    assert!(ctx.get(1) == 11i64);
    assert!(ctx.get(2) == "two");
    assert!(matches!(ctx.get(3), Value::Nil));
}

#[test]
fn pushed_scope_shadows_and_pop_restores() {
    let mut ctx = Context::new();
    ctx.set(7, Value::from("outer"));
    let mut inner: Scope = Scope::new();
    inner.insert(7, Value::from("inner"));
    ctx.push(inner);
    assert!(ctx.get(7) == "inner");
    ctx.set(7, Value::from("changed inner"));
    ctx.pop();
    assert!(ctx.get(7) == "outer");
}

#[test]
fn write_to_outer_variable_survives_pop() {
    let mut ctx = Context::new();
    ctx.set(7, Value::from("outer"));
    ctx.push(Scope::new());
    ctx.set(7, Value::from("written"));
    ctx.set(8, Value::from("local"));
    ctx.pop();
    assert!(ctx.get(7) == "written");
    assert!(matches!(ctx.get(8), Value::Nil));
}

#[test]
fn pop_on_empty_stack_does_nothing() {
    let mut ctx = Context::new();
    ctx.pop();
    assert_eq!(ctx.depth(), 0);
    ctx.pop();
    assert_eq!(ctx.depth(), 0);
    assert!(matches!(ctx.get(1), Value::Nil));
}

#[test]
fn result_read_after_write() {
    let mut ctx = Context::new();
    ctx.set_result(Value::Int(5));
    assert!(ctx.result() == 5i64);
    ctx.set(1, Value::Nil);
    assert!(ctx.result() == 5i64);
}

#[test]
fn context_lists_innermost_scope_first() {
    let mut ctx = Context::new();
    ctx.set(1, Value::Int(111));
    let mut inner: Scope = Scope::new();
    inner.insert(2, Value::Int(222));
    ctx.push(inner);
    let shown = format!("{:?}", ctx);
    assert!(shown.find("222").unwrap() < shown.find("111").unwrap());
    assert_eq!(ctx.scopes().len(), 2);
    assert!(ctx.scopes()[0][&2] == 222i64);
}
