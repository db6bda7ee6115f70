//! The mathematical model of a stack of variable scopes, shared by the contexts of this crate,
//! and the laws that reading and writing variables obey in it.
//!
//! A stack is a sequence of maps; its first map is the innermost scope.
//! A variable is read from the innermost scope that binds it. Writing a variable
//! changes it in the innermost scope that binds it, or binds it in the innermost scope
//! when no scope does.

use vstd::prelude::*;

verus! {

/// The index of the innermost scope that binds `k`, or `-1` when no scope does.
pub open spec fn innermost<K, V>(s: Seq<Map<K, V>>, k: K) -> int
    decreases s.len(),
{
    if s.len() == 0 {
        -1
    } else if s[0].contains_key(k) {
        0
    } else {
        let i = innermost(s.drop_first(), k);
        if i < 0 {
            -1
        } else {
            i + 1
        }
    }
}

/// What reading `k` gives: the binding of the innermost scope that binds it.
pub open spec fn lookup<K, V>(s: Seq<Map<K, V>>, k: K) -> Option<V> {
    let i = innermost(s, k);
    if i < 0 {
        None
    } else {
        Some(s[i][k])
    }
}

/// The scope that a write of `k` changes: the innermost one that binds it,
/// or else the innermost one.
pub open spec fn write_target<K, V>(s: Seq<Map<K, V>>, k: K) -> int {
    let i = innermost(s, k);
    if i < 0 {
        0
    } else {
        i
    }
}

/// The stack after writing `v` to `k`.
pub open spec fn assign<K, V>(s: Seq<Map<K, V>>, k: K, v: V) -> Seq<Map<K, V>>
    recommends
        s.len() > 0,
{
    let j = write_target(s, k);
    s.update(j, s[j].insert(k, v))
}

/// The stack after opening the scope `m` inside the others.
pub open spec fn open_scope<K, V>(s: Seq<Map<K, V>>, m: Map<K, V>) -> Seq<Map<K, V>> {
    seq![m] + s
}

/// The stack after closing its innermost scope; an empty stack stays empty.
pub open spec fn close_scope<K, V>(s: Seq<Map<K, V>>) -> Seq<Map<K, V>> {
    if s.len() > 0 {
        s.drop_first()
    } else {
        s
    }
}

/// `innermost` is the smallest index of a scope that binds the key.
pub proof fn lemma_innermost<K, V>(s: Seq<Map<K, V>>, k: K)
    ensures
        -1 <= innermost(s, k) < s.len(),
        innermost(s, k) >= 0 ==> s[innermost(s, k)].contains_key(k),
        forall|j: int|
            0 <= j < s.len() && (innermost(s, k) < 0 || j < innermost(s, k)) ==> !(
            #[trigger] s[j]).contains_key(k),
    decreases s.len(),
{
    if s.len() > 0 && !s[0].contains_key(k) {
        let t = s.drop_first();
        lemma_innermost(t, k);
        assert forall|j: int|
            0 <= j < s.len() && (innermost(s, k) < 0 || j < innermost(s, k)) implies !(
            #[trigger] s[j]).contains_key(k) by {
            if j > 0 {
                assert(s[j] == t[j - 1]);
            }
        }
    }
}

/// A scope index is the innermost binder of a key exactly when it binds it and no scope
/// inside it does.
pub proof fn lemma_innermost_unique<K, V>(s: Seq<Map<K, V>>, k: K, i: int)
    requires
        0 <= i < s.len(),
        s[i].contains_key(k),
        forall|j: int| 0 <= j < i ==> !(#[trigger] s[j]).contains_key(k),
    ensures
        innermost(s, k) == i,
{
    lemma_innermost(s, k);
}

/// No scope binds the key exactly when `innermost` is `-1`.
pub proof fn lemma_innermost_none<K, V>(s: Seq<Map<K, V>>, k: K)
    requires
        forall|j: int| 0 <= j < s.len() ==> !(#[trigger] s[j]).contains_key(k),
    ensures
        innermost(s, k) == -1,
{
    lemma_innermost(s, k);
}

/// Reading a variable right after writing it gives what was written.
pub proof fn law_read_after_write<K, V>(s: Seq<Map<K, V>>, k: K, v: V)
    requires
        s.len() > 0,
    ensures
        lookup(assign(s, k, v), k) == Some(v),
{
    lemma_innermost(s, k);
    let t = assign(s, k, v);
    let j = write_target(s, k);
    assert forall|m: int| 0 <= m < j implies !(#[trigger] t[m]).contains_key(k) by {
        assert(t[m] == s[m]);
    }
    lemma_innermost_unique(t, k, j);
}

/// Writing a variable leaves every other variable as it reads.
pub proof fn law_write_keeps_others<K, V>(s: Seq<Map<K, V>>, k: K, v: V, other: K)
    requires
        s.len() > 0,
        other != k,
    ensures
        lookup(assign(s, k, v), other) == lookup(s, other),
{
    lemma_innermost(s, k);
    lemma_innermost(s, other);
    let t = assign(s, k, v);
    let j = write_target(s, k);
    assert forall|m: int| 0 <= m < s.len() implies (#[trigger] t[m]).contains_key(other)
        == s[m].contains_key(other) && (s[m].contains_key(other) ==> t[m][other] == s[m][other]) by {
        if m == j {
            assert(t[m] == s[m].insert(k, v));
        }
    }
    let i = innermost(s, other);
    if i >= 0 {
        lemma_innermost_unique(t, other, i);
    } else {
        lemma_innermost_none(t, other);
    }
}

/// Writing a variable leaves the number of scopes unchanged.
pub proof fn law_write_keeps_depth<K, V>(s: Seq<Map<K, V>>, k: K, v: V)
    requires
        s.len() > 0,
    ensures
        assign(s, k, v).len() == s.len(),
{
    lemma_innermost(s, k);
}

/// A scope opened inside the others shadows them.
pub proof fn law_read_through_push<K, V>(s: Seq<Map<K, V>>, m: Map<K, V>, k: K)
    ensures
        lookup(open_scope(s, m), k) == if m.contains_key(k) {
            Some(m[k])
        } else {
            lookup(s, k)
        },
{
    let p = open_scope(s, m);
    assert(p.drop_first() =~= s);
    lemma_innermost(s, k);
    if !m.contains_key(k) {
        if innermost(s, k) >= 0 {
            assert(p[innermost(s, k) + 1] == s[innermost(s, k)]);
        }
    }
}

/// Writing a variable in a scope opened inside the others, then closing that scope:
/// the write survives exactly when the variable was bound outside the opened scope and
/// not in it; otherwise the stack outside is as it was.
pub proof fn law_write_then_pop<K, V>(s: Seq<Map<K, V>>, m: Map<K, V>, k: K, v: V)
    ensures
        close_scope(assign(open_scope(s, m), k, v)) == if !m.contains_key(k) && lookup(s, k) is Some {
            assign(s, k, v)
        } else {
            s
        },
{
    let p = open_scope(s, m);
    assert(p.drop_first() =~= s);
    lemma_innermost(s, k);
    if !m.contains_key(k) && lookup(s, k) is Some {
        assert(innermost(p, k) == innermost(s, k) + 1);
        assert(assign(p, k, v).drop_first() =~= assign(s, k, v));
    } else {
        assert(write_target(p, k) == 0);
        assert(assign(p, k, v).drop_first() =~= s);
    }
}

/// Closing a scope right after opening it gives back the stack as it was.
pub proof fn law_pop_undoes_push<K, V>(s: Seq<Map<K, V>>, m: Map<K, V>)
    ensures
        close_scope(open_scope(s, m)) == s,
{
    assert(open_scope(s, m).drop_first() =~= s);
}

/// Nothing is bound in a stack of one empty scope.
pub proof fn law_fresh_stack_unbound<K, V>(k: K)
    ensures
        lookup(seq![Map::<K, V>::empty()], k) is None,
{
    let s = seq![Map::<K, V>::empty()];
    assert(s[0] == Map::<K, V>::empty());
    lemma_innermost_none(s, k);
}

} // verus!
