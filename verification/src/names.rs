//! The order of names.
//!
//! Options are kept and walked in the lexicographic order of their names,
//! character by character. This module defines that order over the views of
//! strings, proves that it is a strict total order, and decides it on `&str`.

use vstd::prelude::*;
use vstd::std_specs::iter::IteratorSpec;

verus! {

/// How one name stands to another in the order of names.
#[derive(Clone, Copy, Debug, PartialEq, Eq)]
pub enum NameOrder {
    /// The first name comes before the second.
    Before,
    /// The two names are the same.
    Same,
    /// The first name comes after the second.
    After,
}

/// `a` and `b` agree on their first `k` characters, and at position `k` either
/// `a` has ended while `b` goes on, or `a` holds the smaller character.
pub open spec fn precedes_at(a: Seq<char>, b: Seq<char>, k: int) -> bool {
    &&& 0 <= k <= a.len()
    &&& k < b.len()
    &&& a.take(k) == b.take(k)
    &&& k < a.len() ==> a[k] < b[k]
}

/// `a` comes strictly before `b` in lexicographic order.
pub open spec fn name_lt(a: Seq<char>, b: Seq<char>) -> bool {
    exists|k: int| precedes_at(a, b, k)
}

/// A sequence of names is strictly increasing.
pub open spec fn strictly_increasing(names: Seq<Seq<char>>) -> bool {
    forall|i: int, j: int| 0 <= i < j < names.len() ==> name_lt(names[i], names[j])
}

/// Two names that agree up to `k` agree at every position below `k`.
proof fn lemma_take_agrees(a: Seq<char>, b: Seq<char>, k: int, i: int)
    requires
        0 <= i < k <= a.len(),
        k <= b.len(),
        a.take(k) == b.take(k),
    ensures
        a[i] == b[i],
{
    assert(a.take(k)[i] == a[i]);
    assert(b.take(k)[i] == b[i]);
}

/// Two names that agree up to `k` agree up to every `j` below `k`.
proof fn lemma_take_shorter(a: Seq<char>, b: Seq<char>, k: int, j: int)
    requires
        0 <= j <= k <= a.len(),
        k <= b.len(),
        a.take(k) == b.take(k),
    ensures
        a.take(j) == b.take(j),
{
    assert(a.take(j) =~= a.take(k).take(j));
    assert(b.take(j) =~= b.take(k).take(j));
}

/// No name comes before itself.
pub proof fn lemma_name_lt_irreflexive(a: Seq<char>)
    ensures
        !name_lt(a, a),
{
}

/// Of two names, at most one comes before the other.
pub proof fn lemma_name_lt_asymmetric(a: Seq<char>, b: Seq<char>)
    requires
        name_lt(a, b),
    ensures
        !name_lt(b, a),
{
    if name_lt(b, a) {
        let k1 = choose|k: int| precedes_at(a, b, k);
        let k2 = choose|k: int| precedes_at(b, a, k);
        if k1 < k2 {
            lemma_take_agrees(b, a, k2, k1);
        } else if k2 < k1 {
            lemma_take_agrees(a, b, k1, k2);
        }
    }
}

/// The order of names is transitive.
pub proof fn lemma_name_lt_transitive(a: Seq<char>, b: Seq<char>, c: Seq<char>)
    requires
        name_lt(a, b),
        name_lt(b, c),
    ensures
        name_lt(a, c),
{
    let k1 = choose|k: int| precedes_at(a, b, k);
    let k2 = choose|k: int| precedes_at(b, c, k);
    if k1 < k2 {
        lemma_take_shorter(b, c, k2, k1);
        lemma_take_agrees(b, c, k2, k1);
        assert(precedes_at(a, c, k1));
    } else if k2 < k1 {
        lemma_take_shorter(a, b, k1, k2);
        lemma_take_agrees(a, b, k1, k2);
        assert(precedes_at(a, c, k2));
    } else {
        assert(precedes_at(a, c, k1));
    }
}

/// Two names that agree on their first `k` characters are the same, or one of
/// them comes before the other.
proof fn lemma_total_from(a: Seq<char>, b: Seq<char>, k: int)
    requires
        0 <= k <= a.len(),
        k <= b.len(),
        a.take(k) == b.take(k),
    ensures
        a == b || name_lt(a, b) || name_lt(b, a),
    decreases a.len() - k,
{
    if k == a.len() {
        if k == b.len() {
            assert(a.take(k) =~= a);
            assert(b.take(k) =~= b);
        } else {
            assert(precedes_at(a, b, k));
        }
    } else if k == b.len() {
        assert(precedes_at(b, a, k));
    } else if a[k] < b[k] {
        assert(precedes_at(a, b, k));
    } else if b[k] < a[k] {
        assert(precedes_at(b, a, k));
    } else {
        assert(a.take(k + 1) =~= a.take(k).push(a[k]));
        assert(b.take(k + 1) =~= b.take(k).push(b[k]));
        lemma_total_from(a, b, k + 1);
    }
}

/// Any two names are the same, or one of them comes before the other.
pub proof fn lemma_name_lt_total(a: Seq<char>, b: Seq<char>)
    ensures
        a == b || name_lt(a, b) || name_lt(b, a),
{
    assert(a.take(0) =~= b.take(0));
    lemma_total_from(a, b, 0);
}

/// Two strictly increasing runs of names that hold the same names are the
/// same run.
pub proof fn lemma_strictly_increasing_unique(a: Seq<Seq<char>>, b: Seq<Seq<char>>)
    requires
        strictly_increasing(a),
        strictly_increasing(b),
        forall|name: Seq<char>| a.contains(name) <==> b.contains(name),
    ensures
        a == b,
    decreases a.len(),
{
    if a.len() == 0 {
        if b.len() > 0 {
            assert(b.contains(b[0]));
        }
        assert(a =~= b);
    } else {
        assert(a.contains(a[0]));
        assert(b.len() > 0);
        assert(b.contains(b[0]));
        let i = choose|i: int| 0 <= i < b.len() && b[i] == a[0];
        let j = choose|j: int| 0 <= j < a.len() && a[j] == b[0];
        if i > 0 {
            assert(name_lt(b[0], b[i]));
            if j > 0 {
                assert(name_lt(a[0], a[j]));
                lemma_name_lt_asymmetric(a[0], b[0]);
            }
        }
        assert(a[0] == b[0]);
        let ta = a.drop_first();
        let tb = b.drop_first();
        lemma_name_lt_irreflexive(a[0]);
        assert forall|name: Seq<char>| ta.contains(name) <==> tb.contains(name) by {
            if ta.contains(name) {
                let k = choose|k: int| 0 <= k < ta.len() && ta[k] == name;
                assert(a[k + 1] == name);
                assert(name_lt(a[0], a[k + 1]));
                assert(a.contains(name));
                let m = choose|m: int| 0 <= m < b.len() && b[m] == name;
                assert(m > 0);
                assert(tb[m - 1] == name);
            }
            if tb.contains(name) {
                let k = choose|k: int| 0 <= k < tb.len() && tb[k] == name;
                assert(b[k + 1] == name);
                assert(name_lt(b[0], b[k + 1]));
                assert(b.contains(name));
                let m = choose|m: int| 0 <= m < a.len() && a[m] == name;
                assert(m > 0);
                assert(ta[m - 1] == name);
            }
        }
        assert forall|x: int, y: int| 0 <= x < y < ta.len() implies name_lt(ta[x], ta[y]) by {
            assert(ta[x] == a[x + 1] && ta[y] == a[y + 1]);
        }
        assert forall|x: int, y: int| 0 <= x < y < tb.len() implies name_lt(tb[x], tb[y]) by {
            assert(tb[x] == b[x + 1] && tb[y] == b[y + 1]);
        }
        lemma_strictly_increasing_unique(ta, tb);
        assert(a =~= seq![a[0]] + ta);
        assert(b =~= seq![b[0]] + tb);
    }
}

/// Decides how `a` stands to `b` in the order of names, in one pass over both.
pub fn order_names(a: &str, b: &str) -> (r: NameOrder)
    ensures
        r is Before <==> name_lt(a@, b@),
        r is Same <==> a@ == b@,
        r is After <==> name_lt(b@, a@),
{
    let mut rest_a = a.chars();
    let mut rest_b = b.chars();
    let ghost mut k: int = 0;
    assert(a@.take(0) =~= b@.take(0));
    assert(a@.skip(0) =~= a@);
    assert(b@.skip(0) =~= b@);
    loop
        invariant
            0 <= k <= a@.len(),
            k <= b@.len(),
            rest_a.remaining() == a@.skip(k),
            rest_b.remaining() == b@.skip(k),
            a@.take(k) == b@.take(k),
        decreases a@.len() - k,
    {
        let next_a = rest_a.next();
        let next_b = rest_b.next();
        match (next_a, next_b) {
            (None, None) => {
                proof {
                    assert(a@.take(k) =~= a@);
                    assert(b@.take(k) =~= b@);
                    lemma_name_lt_irreflexive(a@);
                }
                return NameOrder::Same;
            },
            (None, Some(_)) => {
                proof {
                    assert(precedes_at(a@, b@, k));
                    lemma_name_lt_asymmetric(a@, b@);
                }
                return NameOrder::Before;
            },
            (Some(_), None) => {
                proof {
                    assert(precedes_at(b@, a@, k));
                    lemma_name_lt_asymmetric(b@, a@);
                }
                return NameOrder::After;
            },
            (Some(x), Some(y)) => {
                assert(x == a@[k] && y == b@[k]);
                if x < y {
                    proof {
                        assert(precedes_at(a@, b@, k));
                        lemma_name_lt_asymmetric(a@, b@);
                    }
                    return NameOrder::Before;
                } else if y < x {
                    proof {
                        assert(precedes_at(b@, a@, k));
                        lemma_name_lt_asymmetric(b@, a@);
                    }
                    return NameOrder::After;
                }
                proof {
                    assert(a@.take(k + 1) =~= a@.take(k).push(a@[k]));
                    assert(b@.take(k + 1) =~= b@.take(k).push(b@[k]));
                    assert(a@.skip(k).drop_first() =~= a@.skip(k + 1));
                    assert(b@.skip(k).drop_first() =~= b@.skip(k + 1));
                    k = k + 1;
                }
            },
        }
    }
}

} // verus!
