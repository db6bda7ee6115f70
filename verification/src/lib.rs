//! Scoped variable contexts for chained action steps, and the dynamic values they hold.

pub mod context;
pub mod display;
pub mod named;
pub mod order;
pub mod scope_input;
pub mod scopes;
mod seal;
pub mod value;

pub use context::Context;
pub use value::{Value, ValueType};

use vstd::prelude::*;

verus! {

/// Runs a short chain of steps on a name-keyed context: it binds `123` to `yes1`, and,
/// finding it so, opens a scope in which it copies `123` into a new local `124`, overwrites
/// `123` with `yes2` (which reaches the outer binding) and `124` with the integer `123`, then
/// closes that scope. Then it reads `123`, which holds `yes2`.
pub fn action() -> (v: named::Value)
    ensures
        v is String && v->String_0@ == "yes2"@,
{
    let mut context = named::Context::new();
    let ghost s0 = context@;
    proof {
        reveal_strlit("123");
        reveal_strlit("124");
        assert("123"@[2] != "124"@[2]);
        assert(s0[0] == Map::<Seq<char>, named::Value>::empty());
        scopes::lemma_innermost_none(s0, "124"@);
    }
    let yes1 = named::Value::from("yes1");
    let ghost va = yes1;
    context.set("123", yes1);
    let ghost s1 = context@;
    proof {
        scopes::law_read_after_write(s0, "123"@, va);
        scopes::law_write_keeps_others(s0, "123"@, va, "124"@);
        scopes::law_write_keeps_depth(s0, "123"@, va);
    }
    if context.get("123") == "yes1" {
        context.push();
        proof {
            scopes::law_read_through_push(s1, Map::empty(), "123"@);
        }
        let oke = context.get("123");
        let yes2 = named::Value::from("yes2");
        let ghost vb = yes2;
        let ghost s2 = context@;
        context.set("123", yes2);
        let ghost s3 = context@;
        proof {
            scopes::law_write_then_pop(s1, Map::empty(), "123"@, vb);
            scopes::law_write_keeps_depth(s2, "123"@, vb);
            scopes::law_write_keeps_others(s1, "123"@, vb, "124"@);
            scopes::law_read_after_write(s1, "123"@, vb);
            assert(s3 =~= scopes::open_scope(s3.drop_first(), s3[0]));
            scopes::law_write_then_pop(s3.drop_first(), s3[0], "124"@, oke);
            scopes::law_write_keeps_depth(s3, "124"@, oke);
        }
        context.set("124", oke);
        let ghost s4 = context@;
        let ghost int_value = named::Value::Int(123);
        proof {
            assert(s4 =~= scopes::open_scope(s4.drop_first(), s4[0]));
            scopes::law_write_then_pop(s4.drop_first(), s4[0], "124"@, int_value);
            scopes::law_write_keeps_depth(s4, "124"@, int_value);
        }
        context.set("124", named::Value::from(123i64));
        context.pop();
    }
    if context.get("124") == "yes1" {
        context.get("123")
    } else {
        context.get("123")
    }
}

} // verus!
