//! Ordering rows: a strict order on their views, and a sort by it.

use vstd::prelude::*;
use vstd::seq_lib::*;

verus! {

/// The views of a sequence of values, in order.
pub open spec fn views<T: View>(s: Seq<T>) -> Seq<T::V> {
    Seq::new(s.len(), |i: int| s[i]@)
}

/// A value whose views are ordered by a strict order: nothing precedes
/// itself, and the order is transitive. Two views of which neither precedes
/// the other are tied.
pub trait Ranked: View + Sized {
    /// Whether `a` stands before `b`.
    spec fn precedes(a: Self::V, b: Self::V) -> bool;

    /// Whether `self` stands before `other`.
    fn comes_before(&self, other: &Self) -> (r: bool)
        ensures
            r == Self::precedes(self@, other@),
    ;

    proof fn lemma_irreflexive(a: Self::V)
        ensures
            !Self::precedes(a, a),
    ;

    proof fn lemma_transitive(a: Self::V, b: Self::V, c: Self::V)
        requires
            Self::precedes(a, b),
            Self::precedes(b, c),
        ensures
            Self::precedes(a, c),
    ;
}

/// Whether no element of `s` precedes an earlier one.
pub open spec fn in_order<T: Ranked>(s: Seq<T::V>) -> bool {
    forall|i: int, j: int| 0 <= i < j < s.len() ==> !T::precedes(#[trigger] s[j], #[trigger] s[i])
}

/// Whether each element of `s` precedes every later one. Such a sequence
/// holds no view twice.
pub open spec fn strictly_in_order<T: Ranked>(s: Seq<T::V>) -> bool {
    forall|i: int, j: int| 0 <= i < j < s.len() ==> T::precedes(#[trigger] s[i], #[trigger] s[j])
}

/// Whether, of any two elements of `s` at different indices, one precedes
/// the other.
pub open spec fn connected<T: Ranked>(s: Seq<T::V>) -> bool {
    forall|i: int, j: int|
        0 <= i < s.len() && 0 <= j < s.len() && i != j ==> T::precedes(
            #[trigger] s[i],
            #[trigger] s[j],
        ) || T::precedes(s[j], s[i])
}

/// Whether `out` holds the views of `of`, each once, strictly in order.
pub open spec fn is_ranking<T: Ranked>(out: Seq<T::V>, of: Seq<T::V>) -> bool {
    &&& strictly_in_order::<T>(out)
    &&& out.len() == of.len()
    &&& forall|x: T::V| out.contains(x) <==> of.contains(x)
}

/// The views of `of`, each once, strictly in order. Where `of` is
/// connected there is one such sequence, by [`lemma_ranking`].
pub open spec fn ranking<T: Ranked>(of: Seq<T::V>) -> Seq<T::V> {
    choose|out: Seq<T::V>| is_ranking::<T>(out, of)
}

/// Two sequences that are strictly in order and hold the same views are equal.
pub proof fn lemma_strict_order_unique<T: Ranked>(a: Seq<T::V>, b: Seq<T::V>)
    requires
        strictly_in_order::<T>(a),
        strictly_in_order::<T>(b),
        forall|x: T::V| a.contains(x) <==> b.contains(x),
    ensures
        a == b,
    decreases a.len(),
{
    if a.len() == 0 {
        if b.len() > 0 {
            assert(b.contains(b[0]));
        }
        assert(a =~= b);
    } else if b.len() == 0 {
        assert(a.contains(a[0]));
    } else {
        assert(a.contains(a[0]));
        assert(b.contains(b[0]));
        let i = choose|i: int| 0 <= i < b.len() && b[i] == a[0];
        let j = choose|j: int| 0 <= j < a.len() && a[j] == b[0];
        if i > 0 {
            if j > 0 {
                T::lemma_transitive(a[0], a[j], b[i]);
            }
            T::lemma_irreflexive(a[0]);
        }
        assert(a[0] == b[0]);
        let a1 = a.drop_first();
        let b1 = b.drop_first();
        assert forall|x: T::V| a1.contains(x) <==> b1.contains(x) by {
            if a1.contains(x) {
                let k = choose|k: int| 0 <= k < a1.len() && a1[k] == x;
                assert(a[k + 1] == x);
                assert(a.contains(x));
                let m = choose|m: int| 0 <= m < b.len() && b[m] == x;
                if m == 0 {
                    T::lemma_irreflexive(x);
                }
                assert(b1[m - 1] == x);
            }
            if b1.contains(x) {
                let k = choose|k: int| 0 <= k < b1.len() && b1[k] == x;
                assert(b[k + 1] == x);
                assert(b.contains(x));
                let m = choose|m: int| 0 <= m < a.len() && a[m] == x;
                if m == 0 {
                    T::lemma_irreflexive(x);
                }
                assert(a1[m - 1] == x);
            }
        }
        assert(strictly_in_order::<T>(a1)) by {
            assert forall|p: int, q: int| 0 <= p < q < a1.len() implies T::precedes(
                #[trigger] a1[p],
                #[trigger] a1[q],
            ) by {
                assert(a1[p] == a[p + 1] && a1[q] == a[q + 1]);
            }
        }
        assert(strictly_in_order::<T>(b1)) by {
            assert forall|p: int, q: int| 0 <= p < q < b1.len() implies T::precedes(
                #[trigger] b1[p],
                #[trigger] b1[q],
            ) by {
                assert(b1[p] == b[p + 1] && b1[q] == b[q + 1]);
            }
        }
        lemma_strict_order_unique::<T>(a1, b1);
        assert(a =~= seq![a[0]] + a1);
        assert(b =~= seq![b[0]] + b1);
    }
}

/// A sequence whose elements are connected has a ranking.
pub proof fn lemma_ranking_exists<T: Ranked>(of: Seq<T::V>) -> (out: Seq<T::V>)
    requires
        connected::<T>(of),
    ensures
        is_ranking::<T>(out, of),
    decreases of.len(),
{
    if of.len() == 0 {
        let out = Seq::<T::V>::empty();
        assert forall|x: T::V| out.contains(x) <==> of.contains(x) by {
            if of.contains(x) {
                let i = choose|i: int| 0 <= i < of.len() && of[i] == x;
            }
        }
        out
    } else {
        let rest = of.drop_last();
        let x = of.last();
        assert(connected::<T>(rest)) by {
            assert forall|i: int, j: int|
                0 <= i < rest.len() && 0 <= j < rest.len() && i != j implies T::precedes(
                #[trigger] rest[i],
                #[trigger] rest[j],
            ) || T::precedes(rest[j], rest[i]) by {
                assert(rest[i] == of[i] && rest[j] == of[j]);
            }
        }
        let r = lemma_ranking_exists::<T>(rest);
        let k = first_after::<T>(r, x, 0);
        lemma_first_after::<T>(r, x, 0);
        let out = r.insert(k, x);
        assert forall|i: int, j: int| 0 <= i < j < out.len() implies T::precedes(
            #[trigger] out[i],
            #[trigger] out[j],
        ) by {
            if j < k {
                assert(out[i] == r[i] && out[j] == r[j]);
            } else if j == k {
                assert(out[i] == r[i]);
                assert(!T::precedes(x, r[i]));
                assert(r.contains(r[i]));
                assert(rest.contains(r[i]));
                let p = choose|p: int| 0 <= p < rest.len() && rest[p] == r[i];
                assert(of[p] == r[i]);
                assert(of[of.len() - 1] == x);
            } else if i == k {
                assert(out[j] == r[j - 1]);
                if j - 1 > k {
                    T::lemma_transitive(x, r[k], r[j - 1]);
                }
            } else if i < k {
                assert(out[i] == r[i] && out[j] == r[j - 1]);
            } else {
                assert(out[i] == r[i - 1] && out[j] == r[j - 1]);
            }
        }
        assert forall|y: T::V| out.contains(y) <==> of.contains(y) by {
            if out.contains(y) {
                let i = choose|i: int| 0 <= i < out.len() && out[i] == y;
                if i == k {
                    assert(of[of.len() - 1] == y);
                } else {
                    let m = if i < k { i } else { i - 1 };
                    assert(r[m] == y);
                    assert(r.contains(y));
                    assert(rest.contains(y));
                    let p = choose|p: int| 0 <= p < rest.len() && rest[p] == y;
                    assert(of[p] == y);
                }
            }
            if of.contains(y) {
                let p = choose|p: int| 0 <= p < of.len() && of[p] == y;
                if p == of.len() - 1 {
                    assert(out[k] == y);
                } else {
                    assert(rest[p] == y);
                    assert(rest.contains(y));
                    assert(r.contains(y));
                    let m = choose|m: int| 0 <= m < r.len() && r[m] == y;
                    if m < k {
                        assert(out[m] == y);
                    } else {
                        assert(out[m + 1] == y);
                    }
                }
            }
        }
        out
    }
}

/// The first index from `from` on at which `x` precedes the element of `s`,
/// or the length of `s` where there is none.
pub open spec fn first_after<T: Ranked>(s: Seq<T::V>, x: T::V, from: int) -> int
    decreases s.len() - from,
{
    if from < 0 || from >= s.len() || T::precedes(x, s[from]) {
        from
    } else {
        first_after::<T>(s, x, from + 1)
    }
}

proof fn lemma_first_after<T: Ranked>(s: Seq<T::V>, x: T::V, from: int)
    requires
        0 <= from <= s.len(),
    ensures
        from <= first_after::<T>(s, x, from) <= s.len(),
        forall|i: int| from <= i < first_after::<T>(s, x, from) ==> !T::precedes(x, #[trigger] s[i]),
        first_after::<T>(s, x, from) < s.len() ==> T::precedes(
            x,
            s[first_after::<T>(s, x, from)],
        ),
    decreases s.len() - from,
{
    if from < s.len() && !T::precedes(x, s[from]) {
        lemma_first_after::<T>(s, x, from + 1);
    }
}

/// A sequence whose elements are connected has one ranking, and
/// [`ranking`] is it.
pub proof fn lemma_ranking<T: Ranked>(of: Seq<T::V>)
    requires
        connected::<T>(of),
    ensures
        is_ranking::<T>(ranking::<T>(of), of),
        forall|out: Seq<T::V>| #[trigger] is_ranking::<T>(out, of) ==> out == ranking::<T>(of),
{
    let witness = lemma_ranking_exists::<T>(of);
    assert forall|out: Seq<T::V>| #[trigger] is_ranking::<T>(out, of) implies out == ranking::<T>(
        of,
    ) by {
        lemma_strict_order_unique::<T>(out, ranking::<T>(of));
    }
}

/// The values of `rows`, of which one of any two precedes the other,
/// rearranged so that each precedes every later one.
pub fn rank<T: Ranked>(rows: Vec<T>) -> (out: Vec<T>)
    requires
        connected::<T>(views(rows@)),
    ensures
        is_ranking::<T>(views(out@), views(rows@)),
        views(out@) == ranking::<T>(views(rows@)),
{
    let ghost given = rows@;
    let out = sort(rows);
    proof {
        broadcast use vstd::multiset::group_multiset_axioms;
        let a = views(given);
        let b = views(out@);
        to_multiset_len(given);
        to_multiset_len(out@);
        assert forall|x: T| out@.contains(x) <==> given.contains(x) by {
            to_multiset_contains(out@, x);
            to_multiset_contains(given, x);
        }
        assert(given.no_duplicates()) by {
            assert forall|i: int, j: int|
                0 <= i < given.len() && 0 <= j < given.len() && i != j implies given[i]
                != given[j] by {
                if given[i] == given[j] {
                    assert(a[i] == a[j]);
                    T::lemma_irreflexive(a[i]);
                }
            }
        }
        given.lemma_multiset_has_no_duplicates();
        out@.lemma_multiset_has_no_duplicates_conv();
        assert forall|i: int, j: int| 0 <= i < j < b.len() implies T::precedes(
            #[trigger] b[i],
            #[trigger] b[j],
        ) by {
            assert(out@.contains(out@[i]));
            assert(out@.contains(out@[j]));
            assert(given.contains(out@[i]));
            assert(given.contains(out@[j]));
            let p = choose|p: int| 0 <= p < given.len() && given[p] == out@[i];
            let q = choose|q: int| 0 <= q < given.len() && given[q] == out@[j];
            assert(out@[i] != out@[j]);
            assert(a[p] == b[i] && a[q] == b[j]);
        }
        assert forall|x: T::V| b.contains(x) <==> a.contains(x) by {
            if b.contains(x) {
                let i = choose|i: int| 0 <= i < b.len() && b[i] == x;
                assert(out@.contains(out@[i]));
                assert(given.contains(out@[i]));
                let p = choose|p: int| 0 <= p < given.len() && given[p] == out@[i];
                assert(a[p] == x);
            }
            if a.contains(x) {
                let p = choose|p: int| 0 <= p < a.len() && a[p] == x;
                assert(given.contains(given[p]));
                assert(out@.contains(given[p]));
                let i = choose|i: int| 0 <= i < out@.len() && out@[i] == given[p];
                assert(b[i] == x);
            }
        }
        lemma_ranking::<T>(a);
    }
    out
}

/// The values of `items`, rearranged so that none precedes an earlier one.
pub fn sort<T: Ranked>(items: Vec<T>) -> (out: Vec<T>)
    ensures
        in_order::<T>(views(out@)),
        out@.to_multiset() == items@.to_multiset(),
{
    let ghost all = items@;
    let mut rest = items;
    let mut out: Vec<T> = Vec::new();
    proof {
        assert(out@.to_multiset().add(rest@.to_multiset()) =~= all.to_multiset()) by {
            broadcast use vstd::multiset::group_multiset_axioms;
            assert(out@ =~= Seq::<T>::empty());
            out@.to_multiset_ensures();
        }
    }
    while rest.len() > 0
        invariant
            in_order::<T>(views(out@)),
            out@.to_multiset().add(rest@.to_multiset()) == all.to_multiset(),
        decreases rest.len(),
    {
        let ghost before = rest@;
        let ghost sorted = out@;
        let x = rest.pop().unwrap();
        let mut k: usize = 0;
        while k < out.len() && !x.comes_before(&out[k])
            invariant
                k <= out.len(),
                forall|i: int| 0 <= i < k ==> !T::precedes(x@, #[trigger] out@[i]@),
            decreases out.len() - k,
        {
            k += 1;
        }
        out.insert(k, x);
        proof {
            broadcast use vstd::multiset::group_multiset_axioms;
            assert(before =~= rest@.push(x));
            to_multiset_build(rest@, x);
            to_multiset_insert(sorted, k as int, x);
            assert(out@.to_multiset().add(rest@.to_multiset()) =~= all.to_multiset());
            let s = views(out@);
            let old_s = views(sorted);
            assert forall|i: int, j: int| 0 <= i < j < s.len() implies !T::precedes(
                #[trigger] s[j],
                #[trigger] s[i],
            ) by {
                if j < k {
                    assert(s[i] == old_s[i] && s[j] == old_s[j]);
                } else if j == k {
                    assert(s[i] == old_s[i]);
                } else if i == k {
                    assert(s[j] == old_s[j - 1]);
                    if T::precedes(s[j], s[i]) {
                        assert(T::precedes(s[i], old_s[k as int]));
                        if j - 1 == k {
                            T::lemma_transitive(s[j], s[i], s[j]);
                            T::lemma_irreflexive(s[j]);
                        } else {
                            T::lemma_transitive(s[j], s[i], old_s[k as int]);
                            assert(!T::precedes(old_s[j - 1], old_s[k as int]));
                        }
                    }
                } else if i < k {
                    assert(s[i] == old_s[i] && s[j] == old_s[j - 1]);
                } else {
                    assert(s[i] == old_s[i - 1] && s[j] == old_s[j - 1]);
                }
            }
        }
    }
    proof {
        broadcast use vstd::multiset::group_multiset_axioms;
        assert(rest@ =~= Seq::<T>::empty());
        rest@.to_multiset_ensures();
        assert(out@.to_multiset() =~= all.to_multiset());
    }
    out
}

} // verus!
