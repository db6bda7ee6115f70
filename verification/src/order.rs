//! Ordering string values against plain strings.
//!
//! Strings are ordered lexicographically by their characters. UTF-8 encodes characters so
//! that this is the same order as that of their bytes, which is how `str` orders itself.

use core::cmp::Ordering;
use vstd::prelude::*;
use vstd::std_specs::cmp::PartialOrdSpecImpl;
use vstd::std_specs::iter::IteratorSpec;
use crate::named;
use crate::value::{Value, ValueView};

verus! {

broadcast use vstd::string::group_string_axioms;

/// The lexicographic order of two character sequences.
pub open spec fn lex_order(a: Seq<char>, b: Seq<char>) -> Ordering
    decreases a.len(),
{
    if a.len() == 0 {
        if b.len() == 0 {
            Ordering::Equal
        } else {
            Ordering::Less
        }
    } else if b.len() == 0 {
        Ordering::Greater
    } else if a[0] < b[0] {
        Ordering::Less
    } else if b[0] < a[0] {
        Ordering::Greater
    } else {
        lex_order(a.drop_first(), b.drop_first())
    }
}

/// The opposite of an ordering.
pub open spec fn flipped(o: Ordering) -> Ordering {
    match o {
        Ordering::Less => Ordering::Greater,
        Ordering::Equal => Ordering::Equal,
        Ordering::Greater => Ordering::Less,
    }
}

/// Swapping the two strings flips their order.
pub proof fn law_lex_order_antisymmetric(a: Seq<char>, b: Seq<char>)
    ensures
        lex_order(b, a) == flipped(lex_order(a, b)),
    decreases a.len(),
{
    if a.len() > 0 && b.len() > 0 && a[0] == b[0] {
        law_lex_order_antisymmetric(a.drop_first(), b.drop_first());
    }
}

/// Two strings are ordered equal exactly when they are the same string.
pub proof fn law_lex_order_equal(a: Seq<char>, b: Seq<char>)
    ensures
        (lex_order(a, b) == Ordering::Equal) == (a == b),
    decreases a.len(),
{
    if a.len() > 0 && b.len() > 0 && a[0] == b[0] {
        law_lex_order_equal(a.drop_first(), b.drop_first());
        if a.drop_first() == b.drop_first() {
            assert(a =~= seq![a[0]] + a.drop_first());
            assert(b =~= seq![b[0]] + b.drop_first());
        }
    } else if a.len() > 0 && b.len() > 0 {
        assert(a[0] != b[0]);
    } else if a.len() != b.len() {
        assert(a.len() != b.len());
    } else {
        assert(a =~= b);
    }
}

/// A string is ordered before every longer string that it begins.
pub proof fn law_lex_order_prefix_first(a: Seq<char>, c: Seq<char>)
    requires
        c.len() > 0,
    ensures
        lex_order(a, a + c) == Ordering::Less,
    decreases a.len(),
{
    if a.len() > 0 {
        assert((a + c).drop_first() =~= a.drop_first() + c);
        assert((a + c)[0] == a[0]);
        law_lex_order_prefix_first(a.drop_first(), c);
    }
}

/// Two strings that agree on their first `i` characters and differ at the next are ordered
/// as those characters are.
pub proof fn law_lex_order_first_difference(a: Seq<char>, b: Seq<char>, i: int)
    requires
        0 <= i < a.len(),
        i < b.len(),
        a.take(i) == b.take(i),
        a[i] != b[i],
    ensures
        lex_order(a, b) == if a[i] < b[i] {
            Ordering::Less
        } else {
            Ordering::Greater
        },
    decreases i,
{
    if i > 0 {
        assert(a[0] == a.take(i)[0]);
        assert(b[0] == b.take(i)[0]);
        assert(a.drop_first().take(i - 1) =~= a.take(i).drop_first());
        assert(b.drop_first().take(i - 1) =~= b.take(i).drop_first());
        law_lex_order_first_difference(a.drop_first(), b.drop_first(), i - 1);
    }
}

/// Compares two strings lexicographically by their characters.
pub fn compare_str(a: &str, b: &str) -> (r: Ordering)
    ensures
        r == lex_order(a@, b@),
{
    let mut ia = a.chars();
    let mut ib = b.chars();
    let ghost mut n: int = 0;
    assert(a@.skip(0) =~= a@);
    assert(b@.skip(0) =~= b@);
    loop
        invariant
            0 <= n <= a@.len(),
            n <= b@.len(),
            ia.remaining() == a@.skip(n),
            ib.remaining() == b@.skip(n),
            lex_order(a@, b@) == lex_order(a@.skip(n), b@.skip(n)),
        decreases a@.len() - n,
    {
        let ca = ia.next();
        let cb = ib.next();
        match (ca, cb) {
            (None, None) => {
                return Ordering::Equal;
            },
            (None, Some(_)) => {
                return Ordering::Less;
            },
            (Some(_), None) => {
                return Ordering::Greater;
            },
            (Some(x), Some(y)) => {
                if x < y {
                    return Ordering::Less;
                }
                if y < x {
                    return Ordering::Greater;
                }
                proof {
                    assert(a@.skip(n).drop_first() =~= a@.skip(n + 1));
                    assert(b@.skip(n).drop_first() =~= b@.skip(n + 1));
                    n = n + 1;
                }
            },
        }
    }
}

impl PartialOrd<String> for Value {
    fn partial_cmp(&self, other: &String) -> (r: Option<Ordering>) {
        match self {
            Value::String(s) => Some(compare_str(s.as_str(), other.as_str())),
            _ => None,
        }
    }
}

impl PartialOrdSpecImpl<String> for Value {
    open spec fn obeys_partial_cmp_spec() -> bool {
        true
    }

    open spec fn partial_cmp_spec(&self, other: &String) -> Option<Ordering> {
        match self@ {
            ValueView::String(s) => Some(lex_order(s, other@)),
            _ => None,
        }
    }
}

impl<'a> PartialOrd<&'a str> for Value {
    fn partial_cmp(&self, other: &&'a str) -> (r: Option<Ordering>) {
        match self {
            Value::String(s) => Some(compare_str(s.as_str(), *other)),
            _ => None,
        }
    }
}

impl<'a> PartialOrdSpecImpl<&'a str> for Value {
    open spec fn obeys_partial_cmp_spec() -> bool {
        true
    }

    open spec fn partial_cmp_spec(&self, other: &&'a str) -> Option<Ordering> {
        match self@ {
            ValueView::String(s) => Some(lex_order(s, (*other)@)),
            _ => None,
        }
    }
}

/// The place of a kind of named value in the order of values.
pub open spec fn named_rank(v: named::Value) -> int {
    match v {
        named::Value::String(_) => 0,
        named::Value::Int(_) => 1,
        named::Value::Nil => 2,
    }
}

/// The order of named values: by kind (strings, then integers, then `Nil`), then strings
/// lexicographically and integers numerically.
pub open spec fn named_order(a: named::Value, b: named::Value) -> Ordering {
    match (a, b) {
        (named::Value::String(x), named::Value::String(y)) => lex_order(x@, y@),
        (named::Value::Int(x), named::Value::Int(y)) => if x < y {
            Ordering::Less
        } else if y < x {
            Ordering::Greater
        } else {
            Ordering::Equal
        },
        _ => if named_rank(a) < named_rank(b) {
            Ordering::Less
        } else if named_rank(b) < named_rank(a) {
            Ordering::Greater
        } else {
            Ordering::Equal
        },
    }
}

/// Swapping two named values flips their order, and they are ordered equal exactly when
/// they have the same kind and content.
pub proof fn law_named_order_antisymmetric(a: named::Value, b: named::Value)
    ensures
        named_order(b, a) == flipped(named_order(a, b)),
        (named_order(a, b) == Ordering::Equal) == named::same_value(a, b),
{
    match (a, b) {
        (named::Value::String(x), named::Value::String(y)) => {
            law_lex_order_antisymmetric(x@, y@);
            law_lex_order_equal(x@, y@);
        },
        _ => {},
    }
}

fn named_rank_of(v: &named::Value) -> (r: u8)
    ensures
        r == named_rank(*v),
{
    match v {
        named::Value::String(_) => 0,
        named::Value::Int(_) => 1,
        named::Value::Nil => 2,
    }
}

impl PartialOrd for named::Value {
    fn partial_cmp(&self, other: &named::Value) -> (r: Option<Ordering>) {
        match (self, other) {
            (named::Value::String(a), named::Value::String(b)) => Some(
                compare_str(a.as_str(), b.as_str()),
            ),
            (named::Value::Int(a), named::Value::Int(b)) => {
                if *a < *b {
                    Some(Ordering::Less)
                } else if *b < *a {
                    Some(Ordering::Greater)
                } else {
                    Some(Ordering::Equal)
                }
            },
            _ => {
                let ra = named_rank_of(self);
                let rb = named_rank_of(other);
                if ra < rb {
                    Some(Ordering::Less)
                } else if rb < ra {
                    Some(Ordering::Greater)
                } else {
                    Some(Ordering::Equal)
                }
            },
        }
    }
}

impl PartialOrdSpecImpl for named::Value {
    open spec fn obeys_partial_cmp_spec() -> bool {
        true
    }

    open spec fn partial_cmp_spec(&self, other: &named::Value) -> Option<Ordering> {
        Some(named_order(*self, *other))
    }
}

} // verus!
