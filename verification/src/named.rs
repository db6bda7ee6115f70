//! A context whose variables are keyed by name, holding a smaller set of values
//! (strings, integers and `Nil`).

use std::collections::VecDeque;
use vstd::prelude::*;
use vstd::std_specs::cmp::{PartialEqSpec, PartialEqSpecImpl};
use vstd::std_specs::convert::{FromSpec, FromSpecImpl, TryFromSpecImpl};
use crate::scopes::{
    assign, close_scope, lemma_innermost, lemma_innermost_none, lemma_innermost_unique, lookup,
    open_scope,
};

verus! {

broadcast use vstd::std_specs::vecdeque::group_vec_dequeue_axioms;

/// The kind of a [`Value`], without its payload.
#[derive(Debug, Clone, Copy, PartialEq, Eq, Structural, PartialOrd, Ord)]
pub enum ValueType {
    String,
    Int,
    Nil,
}

/// The name under which a value type is shown to users.
pub open spec fn named_type_name(t: ValueType) -> Seq<char> {
    match t {
        ValueType::String => "string"@,
        ValueType::Int => "integer"@,
        ValueType::Nil => "nil"@,
    }
}

impl ValueType {
    /// The user-facing name of this type: `string`, `integer` or `nil`.
    pub fn to_string(&self) -> (s: String)
        ensures
            s@ == named_type_name(*self),
    {
        match self {
            ValueType::String => String::from_str("string"),
            ValueType::Int => String::from_str("integer"),
            ValueType::Nil => String::from_str("nil"),
        }
    }
}

/// A value held by a named variable. Values are ordered first by kind (strings, then
/// integers, then `Nil`), then by content.
#[derive(Debug, Ord)]
pub enum Value {
    String(String),
    Int(i64),
    Nil,
}

impl Value {
    /// The type tag of a value.
    pub open spec fn kind(self) -> ValueType {
        match self {
            Value::String(_) => ValueType::String,
            Value::Int(_) => ValueType::Int,
            Value::Nil => ValueType::Nil,
        }
    }

    /// The type tag of this value.
    pub fn as_type(&self) -> (t: ValueType)
        ensures
            t == self.kind(),
    {
        match self {
            Value::String(_) => ValueType::String,
            Value::Int(_) => ValueType::Int,
            Value::Nil => ValueType::Nil,
        }
    }
}

/// Whether two values have the same kind and content.
pub open spec fn same_value(a: Value, b: Value) -> bool {
    match (a, b) {
        (Value::String(x), Value::String(y)) => x@ == y@,
        (Value::Int(x), Value::Int(y)) => x == y,
        (Value::Nil, Value::Nil) => true,
        _ => false,
    }
}

impl PartialEq for Value {
    fn eq(&self, other: &Value) -> (r: bool) {
        match (self, other) {
            (Value::String(a), Value::String(b)) => *a == *b,
            (Value::Int(a), Value::Int(b)) => *a == *b,
            (Value::Nil, Value::Nil) => true,
            _ => false,
        }
    }
}

impl PartialEqSpecImpl for Value {
    open spec fn obeys_eq_spec() -> bool {
        true
    }

    open spec fn eq_spec(&self, other: &Value) -> bool {
        same_value(*self, *other)
    }
}

impl Eq for Value {}

impl Clone for Value {
    fn clone(&self) -> (r: Value)
        ensures
            r == *self,
    {
        match self {
            Value::String(s) => Value::String(s.clone()),
            Value::Int(i) => Value::Int(*i),
            Value::Nil => Value::Nil,
        }
    }
}

impl Default for Value {
    fn default() -> (r: Value)
        ensures
            r == Value::Nil,
    {
        Value::Nil
    }
}

impl<'a> From<&'a str> for Value {
    fn from(value: &'a str) -> (r: Value)
        ensures
            r is String && r->String_0@ == value@,
    {
        Value::String(String::from_str(value))
    }
}

impl<'a> FromSpecImpl<&'a str> for Value {
    /// A string slice is copied into a new `String`, which no spec value names,
    /// so the content is stated by the `ensures` of `from` instead.
    open spec fn obeys_from_spec() -> bool {
        false
    }

    open spec fn from_spec(v: &'a str) -> Value {
        arbitrary()
    }
}

impl From<String> for Value {
    fn from(value: String) -> (r: Value)
        ensures
            r matches Value::String(x) && x@ == value@,
    {
        Value::String(value)
    }
}

impl FromSpecImpl<String> for Value {
    open spec fn obeys_from_spec() -> bool {
        true
    }

    open spec fn from_spec(v: String) -> Value {
        Value::String(v)
    }
}

impl From<i64> for Value {
    fn from(value: i64) -> (r: Value)
        ensures
            r == Value::Int(value),
    {
        Value::Int(value)
    }
}

impl FromSpecImpl<i64> for Value {
    open spec fn obeys_from_spec() -> bool {
        true
    }

    open spec fn from_spec(v: i64) -> Value {
        Value::Int(v)
    }
}

/// The message of a failed conversion out of a [`Value`]:
/// `Invalid type expected <expected> found <type name>`.
pub open spec fn named_mismatch_message(expected: Seq<char>, found: ValueType) -> Seq<char> {
    "Invalid type expected "@ + expected + " found "@ + named_type_name(found)
}

fn mismatch(expected: &str, found: ValueType) -> (m: String)
    ensures
        m@ == named_mismatch_message(expected@, found),
{
    let mut m = String::from_str("Invalid type expected ");
    m.append(expected);
    m.append(" found ");
    let name = found.to_string();
    m.append(name.as_str());
    m
}

impl<'a> PartialEq<&'a str> for Value {
    fn eq(&self, other: &&'a str) -> (r: bool) {
        match self {
            Value::String(s) => *s == String::from_str(*other),
            _ => false,
        }
    }
}

impl<'a> PartialEqSpecImpl<&'a str> for Value {
    open spec fn obeys_eq_spec() -> bool {
        true
    }

    open spec fn eq_spec(&self, other: &&'a str) -> bool {
        self is String && self->String_0@ == (*other)@
    }
}

impl PartialEq<String> for Value {
    fn eq(&self, other: &String) -> (r: bool) {
        match self {
            Value::String(s) => *s == *other,
            _ => false,
        }
    }
}

impl PartialEqSpecImpl<String> for Value {
    open spec fn obeys_eq_spec() -> bool {
        true
    }

    open spec fn eq_spec(&self, other: &String) -> bool {
        self is String && self->String_0@ == other@
    }
}

/// A value equals a string exactly when it is a string with the same characters; two values
/// are equal exactly when they have the same kind and the same text or number.
pub proof fn law_named_eq_meaning<'a>(v: Value, w: Value, s: &'a str, t: String)
    ensures
        <Value as PartialEqSpec<&'a str>>::obeys_eq_spec(),
        <Value as PartialEqSpec<&'a str>>::eq_spec(&v, &s) == (v matches Value::String(x) && x@
            == s@),
        <Value as PartialEqSpec<String>>::obeys_eq_spec(),
        <Value as PartialEqSpec<String>>::eq_spec(&v, &t) == (v matches Value::String(x) && x@
            == t@),
        <Value as PartialEqSpec<Value>>::obeys_eq_spec(),
        <Value as PartialEqSpec<Value>>::eq_spec(&v, &v),
        <Value as PartialEqSpec<Value>>::eq_spec(&v, &w) == <Value as PartialEqSpec<
            Value,
        >>::eq_spec(&w, &v),
        <Value as PartialEqSpec<Value>>::eq_spec(&v, &w) ==> v.kind() == w.kind(),
        (v matches Value::String(x) && w matches Value::String(y)) ==> (<Value as PartialEqSpec<
            Value,
        >>::eq_spec(&v, &w) == (v->String_0@ == w->String_0@)),
        (v matches Value::Int(x) && w matches Value::Int(y)) ==> (<Value as PartialEqSpec<
            Value,
        >>::eq_spec(&v, &w) == (v->Int_0 == w->Int_0)),
{
}

/// Converting a string or an integer into a value keeps its text (empty or not) or number.
pub proof fn law_named_from_keeps_content(s: String, i: i64)
    ensures
        <Value as FromSpec<String>>::obeys_from_spec(),
        <Value as FromSpec<String>>::from_spec(s) matches Value::String(x) && x@ == s@,
        <Value as FromSpec<i64>>::obeys_from_spec(),
        <Value as FromSpec<i64>>::from_spec(i) == Value::Int(i),
{
}

impl TryFrom<Value> for String {
    type Error = String;

    fn try_from(value: Value) -> (r: Result<String, String>)
        ensures
            value is String ==> r == Ok::<String, String>(value->String_0),
            !(value is String) ==> (r matches Err(e) && e@ == named_mismatch_message(
                "string"@,
                value.kind(),
            )),
    {
        match value {
            Value::String(x) => Ok(x),
            _ => Err(mismatch("string", value.as_type())),
        }
    }
}

impl TryFromSpecImpl<Value> for String {
    /// The error message is a new `String`, which no spec value names,
    /// so the result is stated by the `ensures` of `try_from` instead.
    open spec fn obeys_try_from_spec() -> bool {
        false
    }

    open spec fn try_from_spec(v: Value) -> Result<String, String> {
        arbitrary()
    }
}

impl TryFrom<Value> for i64 {
    type Error = String;

    fn try_from(value: Value) -> (r: Result<i64, String>)
        ensures
            value is Int ==> r == Ok::<i64, String>(value->Int_0),
            !(value is Int) ==> (r matches Err(e) && e@ == named_mismatch_message(
                "integer"@,
                value.kind(),
            )),
    {
        match value {
            Value::Int(x) => Ok(x),
            _ => Err(mismatch("integer", value.as_type())),
        }
    }
}

impl TryFromSpecImpl<Value> for i64 {
    /// The error message is a new `String`, which no spec value names,
    /// so the result is stated by the `ensures` of `try_from` instead.
    open spec fn obeys_try_from_spec() -> bool {
        false
    }

    open spec fn try_from_spec(v: Value) -> Result<i64, String> {
        arbitrary()
    }
}

impl TryFrom<Value> for () {
    type Error = String;

    fn try_from(value: Value) -> (r: Result<(), String>)
        ensures
            value is Nil ==> r is Ok,
            !(value is Nil) ==> (r matches Err(e) && e@ == named_mismatch_message(
                "nil"@,
                value.kind(),
            )),
    {
        match value {
            Value::Nil => Ok(()),
            _ => Err(mismatch("nil", value.as_type())),
        }
    }
}

impl TryFromSpecImpl<Value> for () {
    /// The error message is a new `String`, which no spec value names,
    /// so the result is stated by the `ensures` of `try_from` instead.
    open spec fn obeys_try_from_spec() -> bool {
        false
    }

    open spec fn try_from_spec(v: Value) -> Result<(), String> {
        arbitrary()
    }
}

/// No two bindings of a scope have the same name.
pub open spec fn unique_names(s: Seq<(String, Value)>) -> bool {
    forall|i: int, j: int|
        0 <= i < s.len() && 0 <= j < s.len() && i != j ==> (#[trigger] s[i]).0@ != (#[trigger] s[j]).0@
}

/// Whether some binding of a scope has this name.
pub open spec fn binds(s: Seq<(String, Value)>, name: Seq<char>) -> bool {
    exists|i: int| 0 <= i < s.len() && (#[trigger] s[i]).0@ == name
}

/// The variables of one scope, as a map from names to values.
pub open spec fn bindings(s: Seq<(String, Value)>) -> Map<Seq<char>, Value> {
    Map::new(
        |name: Seq<char>| binds(s, name),
        |name: Seq<char>| s[choose|i: int| 0 <= i < s.len() && (#[trigger] s[i]).0@ == name].1,
    )
}

/// In a scope with unique names, the binding at index `i` gives the value of its name.
proof fn lemma_bindings_at(s: Seq<(String, Value)>, i: int)
    requires
        unique_names(s),
        0 <= i < s.len(),
    ensures
        bindings(s).contains_key(s[i].0@),
        bindings(s)[s[i].0@] == s[i].1,
{
    let name = s[i].0@;
    assert(binds(s, name));
    let j = choose|j: int| 0 <= j < s.len() && (#[trigger] s[j]).0@ == name;
    assert(j == i);
}

/// Replacing the value of binding `i` rebinds its name and keeps the others.
proof fn lemma_bindings_update(s: Seq<(String, Value)>, i: int, k: String, v: Value)
    requires
        unique_names(s),
        0 <= i < s.len(),
        k@ == s[i].0@,
    ensures
        unique_names(s.update(i, (k, v))),
        bindings(s.update(i, (k, v))) == bindings(s).insert(k@, v),
{
    let t = s.update(i, (k, v));
    assert(unique_names(t)) by {
        assert forall|a: int, b: int|
            0 <= a < t.len() && 0 <= b < t.len() && a != b implies (#[trigger] t[a]).0@ != (
            #[trigger] t[b]).0@ by {
            assert(t[a].0@ == s[a].0@ && t[b].0@ == s[b].0@);
        }
    }
    assert forall|name: Seq<char>| binds(t, name) == #[trigger] bindings(s).insert(
        s[i].0@,
        v,
    ).contains_key(name) by {
        if binds(t, name) {
            let j = choose|j: int| 0 <= j < t.len() && (#[trigger] t[j]).0@ == name;
            assert(s[j].0@ == name);
        }
        if binds(s, name) {
            let j = choose|j: int| 0 <= j < s.len() && (#[trigger] s[j]).0@ == name;
            assert(t[j].0@ == name);
        }
        if name == s[i].0@ {
            assert(t[i].0@ == name);
        }
    }
    assert forall|name: Seq<char>| #[trigger] bindings(t).contains_key(name) implies bindings(
        t,
    )[name] == bindings(s).insert(s[i].0@, v)[name] by {
        let j = choose|j: int| 0 <= j < t.len() && (#[trigger] t[j]).0@ == name;
        lemma_bindings_at(t, j);
        if j != i {
            lemma_bindings_at(s, j);
        }
    }
    assert(bindings(t) =~= bindings(s).insert(s[i].0@, v));
}

/// Adding a binding of a new name binds it and keeps the others.
proof fn lemma_bindings_push(s: Seq<(String, Value)>, k: String, v: Value)
    requires
        unique_names(s),
        !binds(s, k@),
    ensures
        unique_names(s.push((k, v))),
        bindings(s.push((k, v))) == bindings(s).insert(k@, v),
{
    let t = s.push((k, v));
    assert(unique_names(t)) by {
        assert forall|a: int, b: int|
            0 <= a < t.len() && 0 <= b < t.len() && a != b implies (#[trigger] t[a]).0@ != (
            #[trigger] t[b]).0@ by {
            if a < s.len() && b < s.len() {
                assert(t[a] == s[a] && t[b] == s[b]);
            } else if a < s.len() {
                assert(t[a] == s[a]);
            } else {
                assert(t[b] == s[b]);
            }
        }
    }
    assert forall|name: Seq<char>| binds(t, name) == #[trigger] bindings(s).insert(
        k@,
        v,
    ).contains_key(name) by {
        if binds(t, name) {
            let j = choose|j: int| 0 <= j < t.len() && (#[trigger] t[j]).0@ == name;
            if j < s.len() {
                assert(s[j].0@ == name);
            }
        }
        if binds(s, name) {
            let j = choose|j: int| 0 <= j < s.len() && (#[trigger] s[j]).0@ == name;
            assert(t[j].0@ == name);
        }
        if name == k@ {
            assert(t[s.len() as int].0@ == name);
        }
    }
    assert forall|name: Seq<char>| #[trigger] bindings(t).contains_key(name) implies bindings(
        t,
    )[name] == bindings(s).insert(k@, v)[name] by {
        let j = choose|j: int| 0 <= j < t.len() && (#[trigger] t[j]).0@ == name;
        lemma_bindings_at(t, j);
        if j < s.len() {
            assert(t[j] == s[j]);
            lemma_bindings_at(s, j);
        }
    }
    assert(bindings(t) =~= bindings(s).insert(k@, v));
}

/// The index of the binding named `key`, if any.
fn find_binding(scope: &Vec<(String, Value)>, key: &String) -> (r: Option<usize>)
    ensures
        match r {
            Some(i) => i < scope@.len() && scope@[i as int].0@ == key@,
            None => !binds(scope@, key@),
        },
{
    let mut i: usize = 0;
    while i < scope.len()
        invariant
            i <= scope.len(),
            forall|j: int| 0 <= j < i ==> (#[trigger] scope@[j]).0@ != key@,
        decreases scope.len() - i,
    {
        if scope[i].0 == *key {
            return Some(i);
        }
        i += 1;
    }
    None
}

/// The variable scopes of a chain of steps whose variables are keyed by name.
#[derive(Debug)]
pub struct Context {
    scopes: VecDeque<Vec<(String, Value)>>,
}

impl Context {
    #[verifier::type_invariant]
    spec fn well_formed(self) -> bool {
        forall|i: int| 0 <= i < self.scopes@.len() ==> unique_names(#[trigger] self.scopes@[i]@)
    }
}

impl View for Context {
    /// The scopes, innermost first.
    type V = Seq<Map<Seq<char>, Value>>;

    closed spec fn view(&self) -> Seq<Map<Seq<char>, Value>> {
        self.scopes@.map_values(|s: Vec<(String, Value)>| bindings(s@))
    }
}

/// What reading a variable gives: its innermost binding, or `Nil` when it is unbound.
pub open spec fn named_read(s: Seq<Map<Seq<char>, Value>>, key: Seq<char>) -> Value {
    match lookup(s, key) {
        Some(v) => v,
        None => Value::Nil,
    }
}

impl Context {
    /// A context with one empty scope.
    pub fn new() -> (ctx: Context)
        ensures
            ctx@ == seq![Map::<Seq<char>, Value>::empty()],
    {
        let mut ctx = Context { scopes: VecDeque::new() };
        ctx.push();
        assert(bindings(Seq::<(String, Value)>::empty()) =~= Map::<Seq<char>, Value>::empty());
        assert(ctx@ =~= seq![Map::<Seq<char>, Value>::empty()]);
        ctx
    }

    /// The number of scopes on the stack.
    pub fn depth(&self) -> (n: usize)
        ensures
            n == self@.len(),
    {
        self.scopes.len()
    }

    /// Opens a new, empty, innermost scope.
    pub fn push(&mut self)
        ensures
            final(self)@ == open_scope(old(self)@, Map::empty()),
    {
        proof {
            use_type_invariant(&*self);
        }
        let mut scopes = VecDeque::new();
        std::mem::swap(&mut scopes, &mut self.scopes);
        scopes.push_front(Vec::new());
        assert forall|j: int| 0 <= j < scopes@.len() implies unique_names(#[trigger] scopes@[j]@) by {
            if j > 0 {
                assert(scopes@[j] == old(self).scopes@[j - 1]);
            }
        }
        self.scopes = scopes;
        assert(bindings(Seq::<(String, Value)>::empty()) =~= Map::<Seq<char>, Value>::empty());
        assert(self@ =~= open_scope(old(self)@, Map::empty()));
    }

    /// Closes the innermost scope, dropping its bindings; does nothing when there is none.
    pub fn pop(&mut self)
        ensures
            final(self)@ == close_scope(old(self)@),
    {
        proof {
            use_type_invariant(&*self);
        }
        let mut scopes = VecDeque::new();
        std::mem::swap(&mut scopes, &mut self.scopes);
        let _ = scopes.pop_front();
        assert forall|j: int| 0 <= j < scopes@.len() implies unique_names(#[trigger] scopes@[j]@) by {
            assert(scopes@[j] == old(self).scopes@[j + 1]);
        }
        self.scopes = scopes;
        assert(self@ =~= close_scope(old(self)@));
    }

    /// Writes `value` to the variable named `key`: in the innermost scope that binds it,
    /// or, when none does, in the innermost scope.
    pub fn set(&mut self, key: &str, value: Value)
        requires
            old(self)@.len() > 0,
        ensures
            final(self)@ == assign(old(self)@, key@, value),
    {
        proof {
            use_type_invariant(&*self);
        }
        let name = String::from_str(key);
        let ghost s = old(self)@;
        proof {
            lemma_innermost(s, name@);
        }
        let mut scopes = VecDeque::new();
        std::mem::swap(&mut scopes, &mut self.scopes);
        let ghost orig = scopes@;
        assert(orig == old(self).scopes@);
        let mut i: usize = 0;
        while i < scopes.len()
            invariant
                i <= scopes.len(),
                name@ == key@,
                scopes@ == orig,
                s == old(self)@,
                s == orig.map_values(|sc: Vec<(String, Value)>| bindings(sc@)),
                forall|j: int| 0 <= j < orig.len() ==> unique_names(#[trigger] orig[j]@),
                forall|j: int| 0 <= j < i ==> !(#[trigger] s[j]).contains_key(name@),
            decreases scopes.len() - i,
        {
            match find_binding(&scopes[i], &name) {
                Some(b) => {
                    proof {
                        assert(s[i as int] == bindings(orig[i as int]@));
                        lemma_bindings_at(orig[i as int]@, b as int);
                        lemma_innermost_unique(s, name@, i as int);
                        lemma_bindings_update(orig[i as int]@, b as int, name, value);
                    }
                    let mut scope = scopes.remove(i).unwrap();
                    scope.set(b, (name, value));
                    scopes.insert(i, scope);
                    assert(scopes@ =~= orig.update(i as int, scope));
                    assert forall|j: int| 0 <= j < scopes@.len() implies unique_names(
                        #[trigger] scopes@[j]@,
                    ) by {
                        if j != i {
                            assert(scopes@[j] == orig[j]);
                        }
                    }
                    self.scopes = scopes;
                    assert(self@ =~= assign(s, key@, value));
                    return;
                },
                None => {
                    assert(s[i as int] == bindings(orig[i as int]@));
                },
            }
            i += 1;
        }
        proof {
            lemma_innermost_none(s, name@);
            assert(s[0] == bindings(orig[0]@));
            lemma_bindings_push(orig[0]@, name, value);
        }
        let mut scope = scopes.pop_front().unwrap();
        scope.push((name, value));
        scopes.push_front(scope);
        assert(scopes@ =~= orig.update(0, scope));
        assert forall|j: int| 0 <= j < scopes@.len() implies unique_names(#[trigger] scopes@[j]@) by {
            if j != 0 {
                assert(scopes@[j] == orig[j]);
            }
        }
        self.scopes = scopes;
        assert(self@ =~= assign(s, key@, value));
    }

    /// Reads the variable named `key`: a copy of its innermost binding, or `Nil` when it is
    /// unbound.
    pub fn get(&self, key: &str) -> (v: Value)
        ensures
            v == named_read(self@, key@),
    {
        proof {
            use_type_invariant(self);
        }
        let name = String::from_str(key);
        let ghost s = self@;
        proof {
            lemma_innermost(s, name@);
        }
        let mut i: usize = 0;
        while i < self.scopes.len()
            invariant
                i <= self.scopes.len(),
                name@ == key@,
                s == self@,
                forall|j: int| 0 <= j < self.scopes@.len() ==> unique_names(#[trigger] self.scopes@[j]@),
                forall|j: int| 0 <= j < i ==> !(#[trigger] s[j]).contains_key(name@),
            decreases self.scopes.len() - i,
        {
            let scope = &self.scopes[i];
            assert(s[i as int] == bindings(scope@));
            match find_binding(scope, &name) {
                Some(b) => {
                    proof {
                        lemma_bindings_at(scope@, b as int);
                        lemma_innermost_unique(s, name@, i as int);
                    }
                    let r = scope[b].1.clone();
                    assert(lookup(s, name@) == Some(scope@[b as int].1));
                    assert(r == named_read(s, name@));
                    return r;
                },
                None => {},
            }
            i += 1;
        }
        proof {
            lemma_innermost_none(s, name@);
        }
        Value::Nil
    }
}

} // verus!
