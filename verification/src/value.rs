//! The dynamic value that action steps pass to one another, and its type tag.

use vstd::prelude::*;
use vstd::std_specs::cmp::{PartialEqSpec, PartialEqSpecImpl};
use vstd::std_specs::iter::IteratorSpec;
use vstd::std_specs::convert::{FromSpec, FromSpecImpl, TryFromSpecImpl};

verus! {

broadcast use {vstd::std_specs::vec::group_vec_axioms, vstd::string::group_string_axioms};

/// The kind of a [`Value`], without its payload.
#[derive(Debug, Clone, Copy, PartialEq, Eq, Structural, PartialOrd, Ord)]
pub enum ValueType {
    String,
    Number,
    Int,
    Vec,
    Nil,
}

/// The name under which a value type is shown to users.
pub open spec fn value_type_name(t: ValueType) -> Seq<char> {
    match t {
        ValueType::String => "string"@,
        ValueType::Number => "number"@,
        ValueType::Int => "integer"@,
        ValueType::Vec => "vector"@,
        ValueType::Nil => "null"@,
    }
}

impl ValueType {
    /// The user-facing name of this type: `string`, `number`, `integer`, `vector` or `null`.
    pub fn to_string(&self) -> (s: String)
        ensures
            s@ == value_type_name(*self),
    {
        match self {
            ValueType::String => String::from_str("string"),
            ValueType::Number => String::from_str("number"),
            ValueType::Int => String::from_str("integer"),
            ValueType::Vec => String::from_str("vector"),
            ValueType::Nil => String::from_str("null"),
        }
    }
}

/// A dynamically typed value.
///
/// A number is held as the IEEE-754 bit pattern of an `f64` (what `f64::to_bits` gives),
/// so that the value can be stored, copied and compared without floating-point arithmetic.
#[derive(Debug)]
pub enum Value {
    String(String),
    Number(u64),
    Int(i64),
    Vec(Vec<Value>),
    Nil,
}

/// The mathematical content of a [`Value`]: strings as character sequences,
/// vectors as sequences of contents.
pub enum ValueView {
    String(Seq<char>),
    Number(u64),
    Int(i64),
    Vec(Seq<ValueView>),
    Nil,
}

impl View for Value {
    type V = ValueView;

    open spec fn view(&self) -> ValueView
        decreases self,
    {
        match self {
            Value::String(s) => ValueView::String(s@),
            Value::Number(n) => ValueView::Number(*n),
            Value::Int(i) => ValueView::Int(*i),
            Value::Vec(v) => ValueView::Vec(views_of(v@)),
            Value::Nil => ValueView::Nil,
        }
    }
}

/// The contents of each value of a sequence, in order.
pub open spec fn views_of(s: Seq<Value>) -> Seq<ValueView>
    decreases s,
{
    if s.len() == 0 {
        Seq::empty()
    } else {
        views_of(s.drop_last()).push(s.last().view())
    }
}

impl Clone for Value {
    /// A copy of the value, with the same content.
    fn clone(&self) -> (r: Self)
        ensures
            r@ == self@,
        decreases self,
    {
        match self {
            Value::String(s) => Value::String(s.clone()),
            Value::Number(n) => Value::Number(*n),
            Value::Int(i) => Value::Int(*i),
            Value::Vec(v) => {
                let mut out: Vec<Value> = Vec::new();
                let mut i: usize = 0;
                while i < v.len()
                    invariant
                        i <= v.len(),
                        views_of(out@) == views_of(v@.take(i as int)),
                        *self == Value::Vec(*v),
                    decreases v.len() - i,
                {
                    proof {
                        assert(decreases_to!(*self => self->Vec_0));
                        assert(decreases_to!(self->Vec_0 => self->Vec_0@));
                        assert(decreases_to!(self->Vec_0@ => v@[i as int]));
                    }
                    let c = v[i].clone();
                    let ghost before = out@;
                    out.push(c);
                    proof {
                        assert(out@.drop_last() =~= before);
                        assert(v@.take(i + 1).drop_last() =~= v@.take(i as int));
                    }
                    i += 1;
                }
                proof {
                    assert(v@.take(i as int) =~= v@);
                }
                Value::Vec(out)
            },
            Value::Nil => Value::Nil,
        }
    }
}

impl ValueView {
    /// The type tag of a value.
    pub open spec fn value_type(self) -> ValueType {
        match self {
            ValueView::String(_) => ValueType::String,
            ValueView::Number(_) => ValueType::Number,
            ValueView::Int(_) => ValueType::Int,
            ValueView::Vec(_) => ValueType::Vec,
            ValueView::Nil => ValueType::Nil,
        }
    }
}

/// The message of a failed conversion out of a [`Value`]:
/// `Invalid type expected <expected> found <type name>`.
pub open spec fn mismatch_message(expected: Seq<char>, found: ValueType) -> Seq<char> {
    "Invalid type expected "@ + expected + " found "@ + value_type_name(found)
}

fn mismatch(expected: &str, found: ValueType) -> (m: String)
    ensures
        m@ == mismatch_message(expected@, found),
{
    let mut m = String::from_str("Invalid type expected ");
    m.append(expected);
    m.append(" found ");
    let name = found.to_string();
    m.append(name.as_str());
    m
}

/// Whether two strings hold the same characters.
fn str_eq(a: &str, b: &str) -> (r: bool)
    ensures
        r == (a@ == b@),
{
    let mut ia = a.chars();
    let mut ib = b.chars();
    let ghost mut n: int = 0;
    loop
        invariant
            0 <= n <= a@.len(),
            n <= b@.len(),
            ia.remaining() == a@.skip(n),
            ib.remaining() == b@.skip(n),
            a@.take(n) == b@.take(n),
        decreases a@.len() - n,
    {
        let ca = ia.next();
        let cb = ib.next();
        match (ca, cb) {
            (None, None) => {
                assert(a@ =~= a@.take(n));
                assert(b@ =~= b@.take(n));
                return true;
            },
            (Some(x), Some(y)) => {
                if x != y {
                    assert(a@[n] == x && b@[n] == y);
                    return false;
                }
                proof {
                    assert(a@.take(n + 1) =~= a@.take(n).push(x));
                    assert(b@.take(n + 1) =~= b@.take(n).push(y));
                    n = n + 1;
                }
            },
            _ => {
                return false;
            },
        }
    }
}

impl Value {
    /// The type tag of this value.
    pub fn as_type(&self) -> (t: ValueType)
        ensures
            t == self@.value_type(),
    {
        match self {
            Value::String(_) => ValueType::String,
            Value::Number(_) => ValueType::Number,
            Value::Int(_) => ValueType::Int,
            Value::Vec(_) => ValueType::Vec,
            Value::Nil => ValueType::Nil,
        }
    }

    /// Whether two values have the same content; numbers are compared by bit pattern.
    fn content_eq(&self, other: &Value) -> (r: bool)
        ensures
            r == (self@ == other@),
        decreases self,
    {
        match (self, other) {
            (Value::String(a), Value::String(b)) => *a == *b,
            (Value::Number(a), Value::Number(b)) => *a == *b,
            (Value::Int(a), Value::Int(b)) => *a == *b,
            (Value::Nil, Value::Nil) => true,
            (Value::Vec(a), Value::Vec(b)) => {
                assert(self@ == ValueView::Vec(views_of(a@)));
                assert(other@ == ValueView::Vec(views_of(b@)));
                if a.len() != b.len() {
                    proof {
                        lemma_views_of_len(a@);
                        lemma_views_of_len(b@);
                    }
                    return false;
                }
                let mut i: usize = 0;
                while i < a.len()
                    invariant
                        i <= a.len() == b.len(),
                        views_of(a@.take(i as int)) == views_of(b@.take(i as int)),
                        *self == Value::Vec(*a),
                        self@ == ValueView::Vec(views_of(a@)),
                        other@ == ValueView::Vec(views_of(b@)),
                    decreases a.len() - i,
                {
                    proof {
                        assert(decreases_to!(*self => self->Vec_0));
                        assert(decreases_to!(self->Vec_0 => self->Vec_0@));
                        assert(decreases_to!(self->Vec_0@ => a@[i as int]));
                    }
                    if !a[i].content_eq(&b[i]) {
                        proof {
                            lemma_views_of_index(a@, i as int);
                            lemma_views_of_index(b@, i as int);
                            assert(views_of(a@)[i as int] != views_of(b@)[i as int]);
                        }
                        return false;
                    }
                    proof {
                        assert(a@.take(i + 1).drop_last() =~= a@.take(i as int));
                        assert(b@.take(i + 1).drop_last() =~= b@.take(i as int));
                    }
                    i += 1;
                }
                proof {
                    assert(a@.take(i as int) =~= a@);
                    assert(b@.take(i as int) =~= b@);
                }
                true
            },
            _ => false,
        }
    }
}

/// `views_of` keeps the length of the sequence.
pub proof fn lemma_views_of_len(s: Seq<Value>)
    ensures
        views_of(s).len() == s.len(),
    decreases s.len(),
{
    if s.len() > 0 {
        assert(views_of(s) == views_of(s.drop_last()).push(s.last()@));
        lemma_views_of_len(s.drop_last());
    } else {
        assert(views_of(s) == Seq::<ValueView>::empty());
    }
}

/// `views_of` maps each element to its content.
pub proof fn lemma_views_of_index(s: Seq<Value>, i: int)
    requires
        0 <= i < s.len(),
    ensures
        views_of(s)[i] == s[i]@,
    decreases s.len(),
{
    assert(views_of(s) == views_of(s.drop_last()).push(s.last()@));
    lemma_views_of_len(s.drop_last());
    if i < s.len() - 1 {
        lemma_views_of_index(s.drop_last(), i);
    }
}

impl Default for Value {
    fn default() -> (r: Value)
        ensures
            r == Value::Nil,
    {
        Value::Nil
    }
}

impl<'a> From<&'a str> for Value {
    fn from(value: &'a str) -> (r: Value)
        ensures
            r@ == ValueView::String(value@),
    {
        Value::String(String::from_str(value))
    }
}

impl<'a> FromSpecImpl<&'a str> for Value {
    /// A string slice is copied into a new `String`, which no spec value names,
    /// so the content is stated by the `ensures` of `from` instead.
    open spec fn obeys_from_spec() -> bool {
        false
    }

    open spec fn from_spec(v: &'a str) -> Value {
        arbitrary()
    }
}

impl From<String> for Value {
    fn from(value: String) -> (r: Value)
        ensures
            r@ == ValueView::String(value@),
    {
        Value::String(value)
    }
}

impl FromSpecImpl<String> for Value {
    open spec fn obeys_from_spec() -> bool {
        true
    }

    open spec fn from_spec(v: String) -> Value {
        Value::String(v)
    }
}

impl From<i64> for Value {
    fn from(value: i64) -> (r: Value)
        ensures
            r@ == ValueView::Int(value),
    {
        Value::Int(value)
    }
}

impl FromSpecImpl<i64> for Value {
    open spec fn obeys_from_spec() -> bool {
        true
    }

    open spec fn from_spec(v: i64) -> Value {
        Value::Int(v)
    }
}

impl From<i32> for Value {
    fn from(value: i32) -> (r: Value)
        ensures
            r@ matches ValueView::Int(x) && x == value,
    {
        Value::Int(value as i64)
    }
}

impl FromSpecImpl<i32> for Value {
    open spec fn obeys_from_spec() -> bool {
        true
    }

    open spec fn from_spec(v: i32) -> Value {
        Value::Int(v as i64)
    }
}

impl From<u32> for Value {
    fn from(value: u32) -> (r: Value)
        ensures
            r@ matches ValueView::Int(x) && x == value,
    {
        Value::Int(value as i64)
    }
}

impl FromSpecImpl<u32> for Value {
    open spec fn obeys_from_spec() -> bool {
        true
    }

    open spec fn from_spec(v: u32) -> Value {
        Value::Int(v as i64)
    }
}

impl From<Vec<Value>> for Value {
    fn from(value: Vec<Value>) -> (r: Value) {
        Value::Vec(value)
    }
}

impl FromSpecImpl<Vec<Value>> for Value {
    open spec fn obeys_from_spec() -> bool {
        true
    }

    open spec fn from_spec(v: Vec<Value>) -> Value {
        Value::Vec(v)
    }
}

/// Converting a string, an integer or a vector into a value keeps its content: the text of
/// the string (empty or not), the number, or the items of the vector, in order.
pub proof fn law_from_keeps_content(s: String, i: i64, j: i32, u: u32, v: Vec<Value>)
    ensures
        <Value as FromSpec<String>>::obeys_from_spec(),
        <Value as FromSpec<String>>::from_spec(s)@ == ValueView::String(s@),
        <Value as FromSpec<i64>>::obeys_from_spec(),
        <Value as FromSpec<i64>>::from_spec(i)@ == ValueView::Int(i),
        <Value as FromSpec<i32>>::obeys_from_spec(),
        <Value as FromSpec<i32>>::from_spec(j)@ matches ValueView::Int(x) && x == j,
        <Value as FromSpec<u32>>::obeys_from_spec(),
        <Value as FromSpec<u32>>::from_spec(u)@ matches ValueView::Int(x) && x == u,
        <Value as FromSpec<Vec<Value>>>::obeys_from_spec(),
        <Value as FromSpec<Vec<Value>>>::from_spec(v)@ matches ValueView::Vec(items) && items.len()
            == v@.len() && forall|k: int| 0 <= k < v@.len() ==> items[k] == (#[trigger] v@[k])@,
{
    let items = views_of(v@);
    lemma_views_of_len(v@);
    assert forall|k: int| 0 <= k < v@.len() implies items[k] == (#[trigger] v@[k])@ by {
        lemma_views_of_index(v@, k);
    }
}

/// The primitive types that a [`Value`] can be compared with directly. Only this crate
/// implements it.
pub trait Sealed: crate::seal::Sealing {}

impl Sealed for u32 {}

impl Sealed for i32 {}

impl Sealed for i64 {}

impl Sealed for () {}

impl<'a> PartialEq<&'a str> for Value {
    fn eq(&self, other: &&'a str) -> (r: bool) {
        match self {
            Value::String(s) => str_eq(s.as_str(), *other),
            _ => false,
        }
    }
}

impl<'a> PartialEqSpecImpl<&'a str> for Value {
    open spec fn obeys_eq_spec() -> bool {
        true
    }

    open spec fn eq_spec(&self, other: &&'a str) -> bool {
        self@ == ValueView::String((*other)@)
    }
}

impl PartialEq<String> for Value {
    fn eq(&self, other: &String) -> (r: bool) {
        match self {
            Value::String(s) => *s == *other,
            _ => false,
        }
    }
}

impl PartialEqSpecImpl<String> for Value {
    open spec fn obeys_eq_spec() -> bool {
        true
    }

    open spec fn eq_spec(&self, other: &String) -> bool {
        self@ == ValueView::String(other@)
    }
}

impl<T: Copy + Sealed> PartialEq<T> for Value where Value: From<T> {
    fn eq(&self, other: &T) -> (r: bool) {
        let o = Value::from(*other);
        self.content_eq(&o)
    }
}

impl<T: Copy + Sealed> PartialEqSpecImpl<T> for Value where Value: From<T> {
    open spec fn obeys_eq_spec() -> bool {
        <Value as FromSpec<T>>::obeys_from_spec()
    }

    open spec fn eq_spec(&self, other: &T) -> bool {
        self@ == <Value as FromSpec<T>>::from_spec(*other)@
    }
}

/// A value equals a string exactly when it is a string with the same characters, and
/// equals an integer exactly when it is an integer with the same number.
pub proof fn law_eq_meaning<'a>(v: Value, s: &'a str, t: String, i: i64, j: i32, u: u32)
    ensures
        <Value as PartialEqSpec<&'a str>>::obeys_eq_spec(),
        <Value as PartialEqSpec<&'a str>>::eq_spec(&v, &s) == (v matches Value::String(x) && x@
            == s@),
        <Value as PartialEqSpec<String>>::obeys_eq_spec(),
        <Value as PartialEqSpec<String>>::eq_spec(&v, &t) == (v matches Value::String(x) && x@
            == t@),
        <Value as PartialEqSpec<i64>>::obeys_eq_spec(),
        <Value as PartialEqSpec<i64>>::eq_spec(&v, &i) == (v matches Value::Int(x) && x == i),
        <Value as PartialEqSpec<i32>>::obeys_eq_spec(),
        <Value as PartialEqSpec<i32>>::eq_spec(&v, &j) == (v matches Value::Int(x) && x == j),
        <Value as PartialEqSpec<u32>>::obeys_eq_spec(),
        <Value as PartialEqSpec<u32>>::eq_spec(&v, &u) == (v matches Value::Int(x) && x == u),
{
}

impl TryFrom<Value> for String {
    type Error = String;

    fn try_from(value: Value) -> (r: Result<String, String>)
        ensures
            value is String ==> r == Ok::<String, String>(value->String_0),
            !(value is String) ==> (r matches Err(e) && e@ == mismatch_message("string"@, value@.value_type())),
    {
        match value {
            Value::String(x) => Ok(x),
            _ => Err(mismatch("string", value.as_type())),
        }
    }
}

impl TryFromSpecImpl<Value> for String {
    /// The error message is a new `String`, which no spec value names,
    /// so the result is stated by the `ensures` of `try_from` instead.
    open spec fn obeys_try_from_spec() -> bool {
        false
    }

    open spec fn try_from_spec(v: Value) -> Result<String, String> {
        arbitrary()
    }
}

impl TryFrom<Value> for i64 {
    type Error = String;

    fn try_from(value: Value) -> (r: Result<i64, String>)
        ensures
            value is Int ==> r == Ok::<i64, String>(value->Int_0),
            !(value is Int) ==> (r matches Err(e) && e@ == mismatch_message("integer"@, value@.value_type())),
    {
        match value {
            Value::Int(x) => Ok(x),
            _ => Err(mismatch("integer", value.as_type())),
        }
    }
}

impl TryFromSpecImpl<Value> for i64 {
    /// The error message is a new `String`, which no spec value names,
    /// so the result is stated by the `ensures` of `try_from` instead.
    open spec fn obeys_try_from_spec() -> bool {
        false
    }

    open spec fn try_from_spec(v: Value) -> Result<i64, String> {
        arbitrary()
    }
}

impl TryFrom<Value> for Vec<Value> {
    type Error = String;

    fn try_from(value: Value) -> (r: Result<Vec<Value>, String>)
        ensures
            value is Vec ==> r == Ok::<Vec<Value>, String>(value->Vec_0),
            !(value is Vec) ==> (r matches Err(e) && e@ == mismatch_message("vec"@, value@.value_type())),
    {
        match value {
            Value::Vec(x) => Ok(x),
            _ => Err(mismatch("vec", value.as_type())),
        }
    }
}

impl TryFromSpecImpl<Value> for Vec<Value> {
    /// The error message is a new `String`, which no spec value names,
    /// so the result is stated by the `ensures` of `try_from` instead.
    open spec fn obeys_try_from_spec() -> bool {
        false
    }

    open spec fn try_from_spec(v: Value) -> Result<Vec<Value>, String> {
        arbitrary()
    }
}

impl TryFrom<Value> for () {
    type Error = String;

    fn try_from(value: Value) -> (r: Result<(), String>)
        ensures
            value is Nil ==> r is Ok,
            !(value is Nil) ==> (r matches Err(e) && e@ == mismatch_message("nil"@, value@.value_type())),
    {
        match value {
            Value::Nil => Ok(()),
            _ => Err(mismatch("nil", value.as_type())),
        }
    }
}

impl TryFromSpecImpl<Value> for () {
    /// The error message is a new `String`, which no spec value names,
    /// so the result is stated by the `ensures` of `try_from` instead.
    open spec fn obeys_try_from_spec() -> bool {
        false
    }

    open spec fn try_from_spec(v: Value) -> Result<(), String> {
        arbitrary()
    }
}

} // verus!
