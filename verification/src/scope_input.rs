//! Building a new scope from the inputs that a caller hands to a nested chain of steps.
//!
//! Inputs arrive by name. A name mapping says which variable id each name stands for;
//! inputs whose names are not mapped are left out. Inputs may also arrive keyed by the
//! decimal text of their variable ids.

use std::collections::HashMap;
use vstd::prelude::*;
use vstd::std_specs::iter::IteratorSpec;
use crate::context::Scope;
use crate::display::{decimal_digits, decimal_text, digit_char};
use crate::value::Value;

verus! {

broadcast use {vstd::std_specs::hash::group_hash_axioms, vstd::string::group_string_axioms};

/// The variable id that `name` stands for in `mapping`: that of its first entry with this name.
pub open spec fn mapped_id(mapping: Seq<(String, u32)>, name: Seq<char>) -> Option<u32>
    decreases mapping.len(),
{
    if mapping.len() == 0 {
        None
    } else if mapping[0].0@ == name {
        Some(mapping[0].1)
    } else {
        mapped_id(mapping.drop_first(), name)
    }
}

/// A name stands for an id only through an entry with exactly that name, the first one;
/// a name that no entry has stands for nothing.
pub proof fn law_mapped_id_exact(m: Seq<(String, u32)>, n: Seq<char>)
    ensures
        (mapped_id(m, n) is None) == (forall|i: int| 0 <= i < m.len() ==> (#[trigger] m[i]).0@ != n),
        mapped_id(m, n) is Some ==> exists|i: int|
            0 <= i < m.len() && (#[trigger] m[i]).0@ == n && m[i].1 == mapped_id(m, n)->0 && (
            forall|j: int| 0 <= j < i ==> (#[trigger] m[j]).0@ != n),
    decreases m.len(),
{
    if m.len() > 0 {
        let rest = m.drop_first();
        law_mapped_id_exact(rest, n);
        if m[0].0@ != n {
            assert forall|i: int| 0 <= i < rest.len() implies (#[trigger] rest[i]) == m[i + 1] by {}
            if mapped_id(rest, n) is Some {
                let i = choose|i: int|
                    0 <= i < rest.len() && (#[trigger] rest[i]).0@ == n && rest[i].1 == mapped_id(
                        rest,
                        n,
                    )->0 && (forall|j: int| 0 <= j < i ==> (#[trigger] rest[j]).0@ != n);
                assert(m[i + 1] == rest[i]);
                assert forall|j: int| 0 <= j < i + 1 implies (#[trigger] m[j]).0@ != n by {
                    if j > 0 {
                        assert(m[j] == rest[j - 1]);
                    }
                }
            } else {
                assert forall|i: int| 0 <= i < m.len() implies (#[trigger] m[i]).0@ != n by {
                    if i > 0 {
                        assert(m[i] == rest[i - 1]);
                    }
                }
            }
        } else {
            assert(m[0].0@ == n);
        }
    }
}

/// The scope that named inputs make under `mapping`: each input whose name is mapped is
/// bound to the id of its name; of inputs whose names share an id, the first one wins.
pub open spec fn mapped_scope(vars: Seq<(String, Value)>, mapping: Seq<(String, u32)>) -> Map<
    u32,
    Value,
>
    decreases vars.len(),
{
    if vars.len() == 0 {
        Map::empty()
    } else {
        let rest = mapped_scope(vars.drop_first(), mapping);
        match mapped_id(mapping, vars[0].0@) {
            Some(id) => rest.insert(id, vars[0].1),
            None => rest,
        }
    }
}

/// An input is bound in the scope that named inputs make exactly when its name is mapped:
/// the scope binds an id exactly when some input's name is mapped to it, and then to the
/// value of the first such input.
pub proof fn law_mapped_scope_binds(
    vars: Seq<(String, Value)>,
    mapping: Seq<(String, u32)>,
    id: u32,
    i: int,
)
    requires
        0 <= i < vars.len(),
        mapped_id(mapping, vars[i].0@) == Some(id),
        forall|j: int| 0 <= j < i ==> mapped_id(mapping, (#[trigger] vars[j]).0@) != Some(id),
    ensures
        mapped_scope(vars, mapping).contains_key(id),
        mapped_scope(vars, mapping)[id] == vars[i].1,
    decreases i,
{
    if i > 0 {
        let rest = vars.drop_first();
        assert(rest[i - 1] == vars[i]);
        assert forall|j: int| 0 <= j < i - 1 implies mapped_id(mapping, (#[trigger] rest[j]).0@)
            != Some(id) by {
            assert(rest[j] == vars[j + 1]);
        }
        law_mapped_scope_binds(rest, mapping, id, i - 1);
    }
}

/// An id that no input's name is mapped to is not bound in the scope that named inputs make.
pub proof fn law_mapped_scope_unbound(vars: Seq<(String, Value)>, mapping: Seq<(String, u32)>, id: u32)
    requires
        forall|j: int| 0 <= j < vars.len() ==> mapped_id(mapping, (#[trigger] vars[j]).0@) != Some(id),
    ensures
        !mapped_scope(vars, mapping).contains_key(id),
    decreases vars.len(),
{
    if vars.len() > 0 {
        let rest = vars.drop_first();
        assert forall|j: int| 0 <= j < rest.len() implies mapped_id(mapping, (#[trigger] rest[j]).0@)
            != Some(id) by {
            assert(rest[j] == vars[j + 1]);
        }
        law_mapped_scope_unbound(rest, mapping, id);
        assert(mapped_id(mapping, vars[0].0@) != Some(id));
    }
}

/// Looks `name` up in `mapping`.
fn find_id(mapping: &Vec<(String, u32)>, name: &String) -> (r: Option<u32>)
    ensures
        r == mapped_id(mapping@, name@),
{
    let mut j: usize = 0;
    assert(mapping@.skip(0) =~= mapping@);
    while j < mapping.len()
        invariant
            j <= mapping.len(),
            mapped_id(mapping@, name@) == mapped_id(mapping@.skip(j as int), name@),
        decreases mapping.len() - j,
    {
        assert(mapping@.skip(j as int).drop_first() =~= mapping@.skip(j + 1));
        if mapping[j].0 == *name {
            return Some(mapping[j].1);
        }
        j += 1;
    }
    None
}

/// The scope that the named inputs `vars` make under `uint_mapping`
/// (see [`mapped_scope`]).
pub fn map_uint_vars(vars: Vec<(String, Value)>, uint_mapping: &Vec<(String, u32)>) -> (scope:
    Scope)
    ensures
        scope@ == mapped_scope(vars@, uint_mapping@),
{
    let ghost all = vars@;
    let mut vars = vars;
    let mut scope: Scope = HashMap::new();
    assert(all.skip(all.len() as int) =~= Seq::<(String, Value)>::empty());
    while vars.len() > 0
        invariant
            vars@ == all.take(vars.len() as int),
            vars.len() <= all.len(),
            scope@ == mapped_scope(all.skip(vars.len() as int), uint_mapping@),
        decreases vars.len(),
    {
        let n = vars.len();
        let (name, value) = vars.pop().unwrap();
        proof {
            assert(all.skip(n - 1).drop_first() =~= all.skip(n as int));
            assert(all.skip(n - 1)[0] == all[n - 1]);
            assert(vars@ =~= all.take(n - 1));
        }
        match find_id(uint_mapping, &name) {
            Some(id) => {
                scope.insert(id, value);
            },
            None => {},
        }
    }
    assert(all.skip(0) =~= all);
    scope
}

/// Whether `c` is an ASCII decimal digit.
pub open spec fn is_digit(c: char) -> bool {
    '0' <= c <= '9'
}

/// The number that a sequence of decimal digits denotes.
pub open spec fn digits_value(s: Seq<char>) -> nat
    decreases s.len(),
{
    if s.len() == 0 {
        0
    } else {
        digits_value(s.drop_last()) * 10 + (s.last() as nat - '0' as nat) as nat
    }
}

/// The digits of a decimal numeral: the text without one leading `+`.
pub open spec fn numeral_digits(s: Seq<char>) -> Seq<char> {
    if s.len() > 0 && s[0] == '+' {
        s.drop_first()
    } else {
        s
    }
}

/// The `u32` that a decimal text denotes, as `str::parse::<u32>` reads it: an optional `+`,
/// then one or more ASCII digits, denoting a number no larger than `u32::MAX`.
pub open spec fn parsed_u32(s: Seq<char>) -> Option<u32> {
    let d = numeral_digits(s);
    if d.len() > 0 && (forall|i: int| 0 <= i < d.len() ==> is_digit(#[trigger] d[i]))
        && digits_value(d) <= u32::MAX {
        Some(digits_value(d) as u32)
    } else {
        None
    }
}

/// Appending digits never makes the denoted number smaller.
pub proof fn lemma_digits_value_grows(s: Seq<char>, n: int)
    requires
        0 <= n <= s.len(),
        forall|i: int| 0 <= i < s.len() ==> is_digit(#[trigger] s[i]),
    ensures
        digits_value(s.take(n)) <= digits_value(s),
    decreases s.len() - n,
{
    if n < s.len() {
        lemma_digits_value_grows(s, n + 1);
        assert(s.take(n + 1).drop_last() =~= s.take(n));
    } else {
        assert(s.take(n) =~= s);
    }
}

/// The decimal digits of a number are digits, and denote that number.
proof fn lemma_decimal_digits_denote(k: nat)
    ensures
        forall|i: int| 0 <= i < decimal_digits(k).len() ==> is_digit(#[trigger] decimal_digits(k)[i]),
        digits_value(decimal_digits(k)) == k,
        k > 0 ==> decimal_digits(k).len() > 0,
    decreases k,
{
    if k > 0 {
        let q = k / 10;
        let d = k % 10;
        lemma_decimal_digits_denote(q);
        let s = decimal_digits(k);
        assert(s == decimal_digits(q).push(digit_char(d)));
        assert(s.drop_last() =~= decimal_digits(q));
        assert(digit_char(d) as nat == '0' as nat + d);
        assert(is_digit(digit_char(d)));
        assert forall|i: int| 0 <= i < s.len() implies is_digit(#[trigger] s[i]) by {
            if i < s.len() - 1 {
                assert(s[i] == decimal_digits(q)[i]);
            }
        }
    }
}

/// Reading the decimal text of any `u32` gives back that number: every ASCII digit is read,
/// with its place value.
pub proof fn law_parse_reads_decimal(n: u32)
    ensures
        parsed_u32(decimal_text(n as int)) == Some(n),
{
    let t = decimal_text(n as int);
    if n == 0 {
        assert(t == seq!['0']);
        assert(numeral_digits(t) == t);
        assert(t.drop_last() =~= Seq::<char>::empty());
        assert(digits_value(t.drop_last()) == 0);
        assert(t.last() == '0');
        assert(digits_value(t) == digits_value(t.drop_last()) * 10 + (t.last() as nat - '0' as nat) as nat);
        assert(digits_value(t) == 0);
    } else {
        lemma_decimal_digits_denote(n as nat);
        assert(t == decimal_digits(n as nat));
        assert(is_digit(t[0]));
        assert(numeral_digits(t) == t);
    }
}

/// Every nonempty text of ASCII digits `0` to `9` whose number fits a `u32` is read as that
/// number.
pub proof fn law_parse_reads_ascii_digits(d: Seq<char>)
    requires
        d.len() > 0,
        forall|i: int| 0 <= i < d.len() ==> '0' <= #[trigger] d[i] <= '9',
        digits_value(d) <= u32::MAX,
    ensures
        parsed_u32(d) == Some(digits_value(d) as u32),
{
    assert('0' <= d[0] <= '9');
    assert(numeral_digits(d) == d);
    assert forall|i: int| 0 <= i < d.len() implies is_digit(#[trigger] d[i]) by {
        assert('0' <= d[i] <= '9');
    }
}

/// Reads a decimal `u32` (see [`parsed_u32`]).
pub fn parse_u32(text: &str) -> (r: Option<u32>)
    ensures
        r == parsed_u32(text@),
{
    let ghost s = text@;
    let ghost d = numeral_digits(s);
    let mut chars = text.chars();
    let mut cur = chars.next();
    if cur.is_none() {
        return None;
    }
    if cur == Some('+') {
        cur = chars.next();
        proof {
            assert(d == s.drop_first());
            if d.len() > 0 {
                assert(d.drop_first() =~= d.skip(1));
            }
        }
    } else {
        proof {
            assert(d == s);
            assert(d.drop_first() =~= d.skip(1));
        }
    }
    if cur.is_none() {
        return None;
    }
    let mut value: u64 = 0;
    let ghost mut n: int = 0;
    assert(d.take(0) =~= Seq::<char>::empty());
    loop
        invariant
            s == text@,
            d == numeral_digits(s),
            d.len() > 0,
            0 <= n <= d.len(),
            cur == if n < d.len() {
                Some(d[n])
            } else {
                None::<char>
            },
            n < d.len() ==> chars.remaining() == d.skip(n + 1),
            n == d.len() ==> chars.remaining().len() == 0,
            forall|i: int| 0 <= i < n ==> is_digit(#[trigger] d[i]),
            value == digits_value(d.take(n)),
            value <= u32::MAX,
        decreases d.len() - n,
    {
        match cur {
            None => {
                assert(d.take(n) =~= d);
                assert(parsed_u32(s) == Some(value as u32));
                return Some(value as u32);
            },
            Some(ch) => {
                if ch < '0' || ch > '9' {
                    assert(!is_digit(d[n]));
                    return None;
                }
                let digit = (ch as u32 - '0' as u32) as u64;
                let next = value * 10 + digit;
                proof {
                    assert(d.take(n + 1).drop_last() =~= d.take(n));
                    n = n + 1;
                }
                if next > 0xffff_ffff {
                    proof {
                        assert(digits_value(d.take(n)) > u32::MAX);
                        if forall|i: int| 0 <= i < d.len() ==> is_digit(#[trigger] d[i]) {
                            lemma_digits_value_grows(d, n);
                        }
                        assert(parsed_u32(s) is None);
                    }
                    return None;
                }
                value = next;
                proof {
                    if n < d.len() {
                        assert(d.skip(n).drop_first() =~= d.skip(n + 1));
                    }
                }
                cur = chars.next();
            },
        }
    }
}

/// Whether every input key is the decimal text of a variable id.
pub open spec fn keys_parse(entries: Seq<(String, Value)>) -> bool {
    forall|i: int| 0 <= i < entries.len() ==> (#[trigger] parsed_u32(entries[i].0@)) is Some
}

/// The scope that inputs keyed by the decimal text of their variable ids make;
/// of inputs whose keys denote one id, the first one wins.
pub open spec fn keyed_scope(entries: Seq<(String, Value)>) -> Map<u32, Value>
    decreases entries.len(),
{
    if entries.len() == 0 {
        Map::empty()
    } else {
        keyed_scope(entries.drop_first()).insert(
            parsed_u32(entries[0].0@)->0,
            entries[0].1,
        )
    }
}

/// In the scope that keyed inputs make, an id is bound exactly when some key denotes it.
pub proof fn law_keyed_scope_domain(entries: Seq<(String, Value)>, id: u32)
    ensures
        keyed_scope(entries).contains_key(id) <==> exists|i: int|
            0 <= i < entries.len() && parsed_u32((#[trigger] entries[i]).0@)->0 == id,
    decreases entries.len(),
{
    if entries.len() > 0 {
        let rest = entries.drop_first();
        law_keyed_scope_domain(rest, id);
        if exists|i: int| 0 <= i < entries.len() && parsed_u32((#[trigger] entries[i]).0@)->0 == id {
            let i = choose|i: int|
                0 <= i < entries.len() && parsed_u32((#[trigger] entries[i]).0@)->0 == id;
            if i > 0 {
                assert(rest[i - 1] == entries[i]);
            }
        }
        if exists|i: int| 0 <= i < rest.len() && parsed_u32((#[trigger] rest[i]).0@)->0 == id {
            let i = choose|i: int| 0 <= i < rest.len() && parsed_u32((#[trigger] rest[i]).0@)->0 == id;
            assert(entries[i + 1] == rest[i]);
        }
    }
}

/// In the scope that keyed inputs make, an id is bound to the value of the first input
/// whose key denotes it.
pub proof fn law_keyed_scope_first_wins(entries: Seq<(String, Value)>, id: u32, i: int)
    requires
        0 <= i < entries.len(),
        parsed_u32(entries[i].0@) == Some(id),
        forall|j: int| 0 <= j < i ==> parsed_u32((#[trigger] entries[j]).0@)->0 != id,
    ensures
        keyed_scope(entries).contains_key(id),
        keyed_scope(entries)[id] == entries[i].1,
    decreases i,
{
    if i > 0 {
        let rest = entries.drop_first();
        assert(rest[i - 1] == entries[i]);
        assert(parsed_u32(entries[0].0@)->0 != id);
        assert forall|j: int| 0 <= j < i - 1 implies parsed_u32((#[trigger] rest[j]).0@)->0 != id by {
            assert(rest[j] == entries[j + 1]);
        }
        law_keyed_scope_first_wins(rest, id, i - 1);
    }
}

/// The scope that `entries`, keyed by the decimal text of variable ids, make
/// (see [`keyed_scope`]), or `None` when some key is not such a text.
pub fn parse_keyed_scope(entries: Vec<(String, Value)>) -> (r: Option<Scope>)
    ensures
        r is None <==> !keys_parse(entries@),
        r matches Some(scope) ==> scope@ == keyed_scope(entries@),
{
    let ghost all = entries@;
    let mut rest = entries;
    let mut scope: Scope = HashMap::new();
    assert(all.skip(all.len() as int) =~= Seq::<(String, Value)>::empty());
    while rest.len() > 0
        invariant
            rest@ == all.take(rest.len() as int),
            all == entries@,
            rest.len() <= all.len(),
            keys_parse(all.skip(rest.len() as int)),
            scope@ == keyed_scope(all.skip(rest.len() as int)),
        decreases rest.len(),
    {
        let n = rest.len();
        let (key, value) = rest.pop().unwrap();
        proof {
            assert(all.skip(n - 1).drop_first() =~= all.skip(n as int));
            assert(all.skip(n - 1)[0] == all[n - 1]);
            assert(rest@ =~= all.take(n - 1));
        }
        match parse_u32(key.as_str()) {
            Some(id) => {
                scope.insert(id, value);
                proof {
                    assert forall|i: int| 0 <= i < all.skip(n - 1).len() implies (#[trigger] parsed_u32(
                        all.skip(n - 1)[i].0@,
                    )) is Some by {
                        if i > 0 {
                            assert(all.skip(n - 1)[i] == all.skip(n as int)[i - 1]);
                        }
                    }
                }
            },
            None => {
                assert(parsed_u32(all[n - 1].0@) is None);
                return None;
            },
        }
    }
    assert(all.skip(0) =~= all);
    Some(scope)
}

} // verus!
