//! The context that a chain of action steps runs in: a stack of variable scopes keyed
//! by numeric variable ids, and the result that the chain hands back.

use std::collections::{HashMap, VecDeque};
use vstd::prelude::*;
use crate::scopes::{
    assign, close_scope, law_fresh_stack_unbound, law_read_after_write, law_write_keeps_others,
    lemma_innermost, lemma_innermost_none, lemma_innermost_unique, lookup, open_scope,
};
use crate::value::Value;

verus! {

broadcast use {vstd::std_specs::hash::group_hash_axioms, vstd::std_specs::vecdeque::group_vec_dequeue_axioms};

/// One scope: the variables bound at one level of nesting, by id.
pub type Scope = HashMap<u32, Value>;

/// The variable scopes of a running chain of action steps, and its result.
#[derive(Debug, Clone)]
pub struct Context {
    scopes: VecDeque<Scope>,
    result: Value,
}

/// The content of a [`Context`]: its scopes, innermost first, and its result.
pub struct ContextView {
    pub scopes: Seq<Map<u32, Value>>,
    pub result: Value,
}

/// What reading a variable gives: its innermost binding, or `Nil` when it is unbound.
pub open spec fn value_or_nil(v: Option<Value>) -> Value {
    match v {
        Some(x) => x,
        None => Value::Nil,
    }
}

impl View for Context {
    type V = ContextView;

    closed spec fn view(&self) -> ContextView {
        ContextView {
            scopes: self.scopes@.map_values(|m: Scope| m@),
            result: self.result,
        }
    }
}

impl ContextView {
    /// What reading variable `key` gives in this context.
    pub open spec fn read(self, key: u32) -> Value {
        value_or_nil(lookup(self.scopes, key))
    }
}

/// A fresh context reads every variable as `Nil`.
pub proof fn law_fresh_context_reads_nil(key: u32)
    ensures
        (ContextView { scopes: seq![Map::<u32, Value>::empty()], result: Value::Nil }).read(key)
            == Value::Nil,
{
    law_fresh_stack_unbound::<u32, Value>(key);
}

/// After `set(key, v)`, `get(key)` reads `v`, and every other variable reads as before.
pub proof fn law_get_after_set(c: ContextView, key: u32, v: Value, other: u32)
    requires
        c.scopes.len() > 0,
    ensures
        (ContextView { scopes: assign(c.scopes, key, v), result: c.result }).read(key) == v,
        other != key ==> (ContextView { scopes: assign(c.scopes, key, v), result: c.result }).read(
            other,
        ) == c.read(other),
{
    law_read_after_write(c.scopes, key, v);
    if other != key {
        law_write_keeps_others(c.scopes, key, v, other);
    }
}

impl Context {
    /// A context with one empty scope and a `Nil` result.
    pub fn new() -> (ctx: Context)
        ensures
            ctx@.scopes == seq![Map::<u32, Value>::empty()],
            ctx@.result == Value::Nil,
    {
        let mut ctx = Context { scopes: VecDeque::new(), result: Value::Nil };
        ctx.push(HashMap::new());
        assert(ctx@.scopes =~= seq![Map::<u32, Value>::empty()]);
        ctx
    }

    /// The number of scopes on the stack.
    pub fn depth(&self) -> (n: usize)
        ensures
            n == self@.scopes.len(),
    {
        self.scopes.len()
    }

    /// The scopes, innermost first.
    pub fn scopes(&self) -> (r: &VecDeque<Scope>)
        ensures
            r@.map_values(|m: Scope| m@) == self@.scopes,
    {
        &self.scopes
    }

    /// Opens a new innermost scope holding the bindings of `map`.
    pub fn push(&mut self, map: Scope)
        ensures
            final(self)@.scopes == open_scope(old(self)@.scopes, map@),
            final(self)@.result == old(self)@.result,
    {
        self.scopes.push_front(map);
        assert(self@.scopes =~= open_scope(old(self)@.scopes, map@));
    }

    /// Closes the innermost scope, dropping its bindings; does nothing when there is none.
    pub fn pop(&mut self)
        ensures
            final(self)@.scopes == close_scope(old(self)@.scopes),
            final(self)@.result == old(self)@.result,
    {
        let _ = self.scopes.pop_front();
        assert(self@.scopes =~= close_scope(old(self)@.scopes));
    }

    /// Writes `value` to variable `key`: in the innermost scope that binds it,
    /// or, when none does, in the innermost scope.
    pub fn set(&mut self, key: u32, value: Value)
        requires
            old(self)@.scopes.len() > 0,
        ensures
            final(self)@.scopes == assign(old(self)@.scopes, key, value),
            final(self)@.result == old(self)@.result,
    {
        let ghost s = old(self)@.scopes;
        proof {
            lemma_innermost(s, key);
        }
        let mut i: usize = 0;
        while i < self.scopes.len()
            invariant
                i <= self.scopes.len(),
                self@ == old(self)@,
                s == old(self)@.scopes,
                forall|j: int| 0 <= j < i ==> !(#[trigger] s[j]).contains_key(key),
            decreases self.scopes.len() - i,
        {
            if self.scopes[i].contains_key(&key) {
                proof {
                    lemma_innermost_unique(s, key, i as int);
                }
                let mut scope = self.scopes.remove(i).unwrap();
                scope.insert(key, value);
                self.scopes.insert(i, scope);
                assert(self@.scopes =~= assign(s, key, value));
                return;
            }
            i += 1;
        }
        proof {
            lemma_innermost_none(s, key);
        }
        let mut scope = self.scopes.pop_front().unwrap();
        scope.insert(key, value);
        self.scopes.push_front(scope);
        assert(self@.scopes =~= assign(s, key, value));
    }

    /// Reads variable `key`: a copy of its innermost binding, or `Nil` when it is unbound.
    pub fn get(&self, key: u32) -> (v: Value)
        ensures
            v@ == self@.read(key)@,
    {
        let ghost s = self@.scopes;
        proof {
            lemma_innermost(s, key);
        }
        let mut i: usize = 0;
        while i < self.scopes.len()
            invariant
                i <= self.scopes.len(),
                s == self@.scopes,
                forall|j: int| 0 <= j < i ==> !(#[trigger] s[j]).contains_key(key),
            decreases self.scopes.len() - i,
        {
            match self.scopes[i].get(&key) {
                Some(v) => {
                    proof {
                        lemma_innermost_unique(s, key, i as int);
                    }
                    return v.clone();
                },
                None => {},
            }
            i += 1;
        }
        proof {
            lemma_innermost_none(s, key);
        }
        Value::Nil
    }

    /// Replaces the result of the chain.
    pub fn set_result(&mut self, value: Value)
        ensures
            final(self)@.scopes == old(self)@.scopes,
            final(self)@.result == value,
    {
        self.result = value;
    }

    /// A copy of the result of the chain.
    pub fn result(&self) -> (v: Value)
        ensures
            v@ == self@.result@,
    {
        self.result.clone()
    }
}

impl Default for Context {
    fn default() -> (ctx: Context)
        ensures
            ctx@.scopes == seq![Map::<u32, Value>::empty()],
            ctx@.result == Value::Nil,
    {
        Context::new()
    }
}

} // verus!
