//! Byte-wise ordering of storage keys.
//!
//! The contract's storage orders its keys by their raw bytes, lexicographically
//! (a proper prefix comes first). Every ordered collection of the registry is a
//! strictly ascending sequence of such keys; this module holds that order, its
//! laws, and the position at which a new key is placed.
use vstd::prelude::*;

verus! {

/// `a` comes strictly before `b` in lexicographic byte order.
pub open spec fn lex_lt(a: Seq<u8>, b: Seq<u8>) -> bool
    decreases a.len(),
{
    if b.len() == 0 {
        false
    } else if a.len() == 0 {
        true
    } else if a[0] != b[0] {
        a[0] < b[0]
    } else {
        lex_lt(a.drop_first(), b.drop_first())
    }
}

/// Every key comes strictly before every later key.
pub open spec fn strictly_sorted(keys: Seq<Seq<u8>>) -> bool {
    forall|i: int, j: int| 0 <= i < j < keys.len() ==> lex_lt(#[trigger] keys[i], #[trigger] keys[j])
}

/// How many keys come strictly before `k`: the position at which `k` is
/// placed in a strictly sorted sequence.
pub open spec fn count_below(keys: Seq<Seq<u8>>, k: Seq<u8>) -> nat
    decreases keys.len(),
{
    if keys.len() == 0 {
        0
    } else {
        count_below(keys.drop_last(), k) + if lex_lt(keys.last(), k) {
            1nat
        } else {
            0nat
        }
    }
}

pub proof fn lemma_lex_irreflexive(a: Seq<u8>)
    ensures
        !lex_lt(a, a),
    decreases a.len(),
{
    if a.len() > 0 {
        lemma_lex_irreflexive(a.drop_first());
    }
}

pub proof fn lemma_lex_transitive(a: Seq<u8>, b: Seq<u8>, c: Seq<u8>)
    requires
        lex_lt(a, b),
        lex_lt(b, c),
    ensures
        lex_lt(a, c),
    decreases a.len(),
{
    if a.len() > 0 && b.len() > 0 && c.len() > 0 && a[0] == b[0] && b[0] == c[0] {
        lemma_lex_transitive(a.drop_first(), b.drop_first(), c.drop_first());
    }
}

pub proof fn lemma_lex_total(a: Seq<u8>, b: Seq<u8>)
    requires
        a != b,
    ensures
        lex_lt(a, b) || lex_lt(b, a),
    decreases a.len(),
{
    if a.len() > 0 && b.len() > 0 && a[0] == b[0] {
        if a.drop_first() == b.drop_first() {
            assert(a =~= seq![a[0]] + a.drop_first());
            assert(b =~= seq![b[0]] + b.drop_first());
        } else {
            lemma_lex_total(a.drop_first(), b.drop_first());
        }
    } else if a.len() == 0 && b.len() == 0 {
        assert(a =~= b);
    }
}

pub proof fn lemma_lex_asymmetric(a: Seq<u8>, b: Seq<u8>)
    requires
        lex_lt(a, b),
    ensures
        !lex_lt(b, a),
{
    if lex_lt(b, a) {
        lemma_lex_transitive(a, b, a);
        lemma_lex_irreflexive(a);
    }
}

/// In a strictly sorted sequence, exactly the keys before position
/// `count_below(keys, k)` come before `k`.
pub proof fn lemma_count_below_split(keys: Seq<Seq<u8>>, k: Seq<u8>)
    requires
        strictly_sorted(keys),
    ensures
        count_below(keys, k) <= keys.len(),
        forall|j: int| 0 <= j < count_below(keys, k) ==> lex_lt(#[trigger] keys[j], k),
        forall|j: int| count_below(keys, k) <= j < keys.len() ==> !lex_lt(#[trigger] keys[j], k),
    decreases keys.len(),
{
    if keys.len() > 0 {
        let init = keys.drop_last();
        assert(strictly_sorted(init));
        lemma_count_below_split(init, k);
        let c = count_below(init, k);
        let n = init.len();
        if lex_lt(keys.last(), k) {
            if c < n {
                assert(lex_lt(keys[c as int], keys.last()));
                lemma_lex_transitive(keys[c as int], keys.last(), k);
                assert(init[c as int] == keys[c as int]);
                assert(false);
            }
            assert forall|j: int| 0 <= j < count_below(keys, k) implies lex_lt(#[trigger] keys[j], k) by {
                if j < n {
                    assert(init[j] == keys[j]);
                }
            }
        } else {
            assert forall|j: int| 0 <= j < count_below(keys, k) implies lex_lt(#[trigger] keys[j], k) by {
                assert(init[j] == keys[j]);
            }
            assert forall|j: int| count_below(keys, k) <= j < keys.len() implies !lex_lt(#[trigger] keys[j], k) by {
                if j < n {
                    assert(init[j] == keys[j]);
                }
            }
        }
    }
}

/// A position with only smaller keys before it and no smaller key at it is
/// `count_below`.
pub proof fn lemma_count_below_unique(keys: Seq<Seq<u8>>, k: Seq<u8>, i: int)
    requires
        strictly_sorted(keys),
        0 <= i <= keys.len(),
        forall|j: int| 0 <= j < i ==> lex_lt(#[trigger] keys[j], k),
        i < keys.len() ==> !lex_lt(keys[i], k),
    ensures
        count_below(keys, k) == i,
{
    lemma_count_below_split(keys, k);
    let c = count_below(keys, k) as int;
    if c < i {
        assert(lex_lt(keys[c], k));
    } else if c > i {
        assert(lex_lt(keys[i], k));
    }
}

/// Placing a new key at `count_below` keeps the sequence strictly sorted.
pub proof fn lemma_insert_sorted(keys: Seq<Seq<u8>>, k: Seq<u8>)
    requires
        strictly_sorted(keys),
        !keys.contains(k),
    ensures
        count_below(keys, k) <= keys.len(),
        strictly_sorted(keys.insert(count_below(keys, k) as int, k)),
{
    lemma_count_below_split(keys, k);
    let p = count_below(keys, k) as int;
    let r = keys.insert(p, k);
    assert forall|j: int| p <= j < keys.len() implies lex_lt(k, #[trigger] keys[j]) by {
        if keys[j] == k {
            assert(keys.contains(k));
        }
        lemma_lex_total(k, keys[j]);
    }
    assert forall|i: int, j: int| 0 <= i < j < r.len() implies lex_lt(#[trigger] r[i], #[trigger] r[j]) by {
        if j < p {
            assert(r[i] == keys[i] && r[j] == keys[j]);
        } else if j == p {
            assert(r[i] == keys[i]);
        } else if i < p {
            assert(r[i] == keys[i] && r[j] == keys[j - 1]);
            lemma_lex_transitive(keys[i], k, keys[j - 1]);
        } else if i == p {
            assert(r[j] == keys[j - 1]);
        } else {
            assert(r[i] == keys[i - 1] && r[j] == keys[j - 1]);
        }
    }
}

/// Removing a key keeps the sequence strictly sorted.
pub proof fn lemma_remove_sorted(keys: Seq<Seq<u8>>, p: int)
    requires
        strictly_sorted(keys),
        0 <= p < keys.len(),
    ensures
        strictly_sorted(keys.remove(p)),
{
    let r = keys.remove(p);
    assert forall|i: int, j: int| 0 <= i < j < r.len() implies lex_lt(#[trigger] r[i], #[trigger] r[j]) by {
        let a = if i < p { i } else { i + 1 };
        let b = if j < p { j } else { j + 1 };
        assert(r[i] == keys[a] && r[j] == keys[b]);
    }
}

/// In a strictly sorted sequence each key occurs at most once.
pub proof fn lemma_sorted_unique(keys: Seq<Seq<u8>>, i: int, j: int)
    requires
        strictly_sorted(keys),
        0 <= i < keys.len(),
        0 <= j < keys.len(),
        keys[i] == keys[j],
    ensures
        i == j,
{
    if i < j {
        lemma_lex_irreflexive(keys[i]);
    } else if j < i {
        lemma_lex_irreflexive(keys[i]);
    }
}

/// Keys each strictly before the next are strictly sorted.
pub proof fn lemma_adjacent_sorted(keys: Seq<Seq<u8>>)
    requires
        forall|i: int| 0 <= i < keys.len() - 1 ==> lex_lt(#[trigger] keys[i], keys[i + 1]),
    ensures
        strictly_sorted(keys),
{
    assert forall|i: int, j: int| 0 <= i < j < keys.len() implies lex_lt(#[trigger] keys[i], #[trigger] keys[j]) by {
        lemma_chain(keys, i, j);
    }
}

proof fn lemma_chain(keys: Seq<Seq<u8>>, i: int, j: int)
    requires
        forall|k: int| 0 <= k < keys.len() - 1 ==> lex_lt(#[trigger] keys[k], keys[k + 1]),
        0 <= i < j < keys.len(),
    ensures
        lex_lt(keys[i], keys[j]),
    decreases j - i,
{
    if j > i + 1 {
        lemma_chain(keys, i, j - 1);
        lemma_lex_transitive(keys[i], keys[j - 1], keys[j]);
    }
}

/// Byte-wise comparison of two keys.
pub fn bytes_lt(a: &[u8], b: &[u8]) -> (r: bool)
    ensures
        r == lex_lt(a@, b@),
{
    let mut i: usize = 0;
    assert(a@.skip(0) =~= a@);
    assert(b@.skip(0) =~= b@);
    while i < a.len() && i < b.len()
        invariant
            i <= a.len(),
            i <= b.len(),
            lex_lt(a@, b@) == lex_lt(a@.skip(i as int), b@.skip(i as int)),
        decreases a.len() - i,
    {
        if a[i] != b[i] {
            return a[i] < b[i];
        }
        assert(a@.skip(i as int).drop_first() =~= a@.skip(i + 1));
        assert(b@.skip(i as int).drop_first() =~= b@.skip(i + 1));
        i = i + 1;
    }
    i < b.len()
}

/// Byte-wise equality of two keys.
pub fn bytes_eq(a: &[u8], b: &[u8]) -> (r: bool)
    ensures
        r == (a@ == b@),
{
    if a.len() != b.len() {
        return false;
    }
    let mut i: usize = 0;
    while i < a.len()
        invariant
            i <= a.len(),
            a.len() == b.len(),
            forall|j: int| 0 <= j < i ==> a@[j] == b@[j],
        decreases a.len() - i,
    {
        if a[i] != b[i] {
            return false;
        }
        i = i + 1;
    }
    assert(a@ =~= b@);
    true
}

} // verus!
