//! Laws of the order of arrays: over a totally ordered element kind, arrays
//! are totally ordered too.

use crate::model;
use crate::model::ArrayView;
use crate::value;
use crate::value::ArrayValue;
use std::cmp::Ordering;
use vstd::prelude::*;

verus! {

/// Among three values of a totally ordered kind: if the first is not
/// greater than the second and the second not greater than the third, the
/// first is not greater than the third, and it is equal to the third only
/// if all three are equal.
proof fn lemma_values_chain<T: ArrayValue>(a: T, b: T, c: T)
    requires
        value::is_total_order::<T>(),
        a.order(&b) != Ordering::Greater,
        b.order(&c) != Ordering::Greater,
    ensures
        a.order(&c) != Ordering::Greater,
        a.order(&c) == Ordering::Equal ==> a.order(&b) == Ordering::Equal && b.order(&c)
            == Ordering::Equal,
{
    assert(b.order(&a) == value::flipped(a.order(&b)));
    assert(c.order(&b) == value::flipped(b.order(&c)));
    assert(c.order(&a) == value::flipped(a.order(&c)));
    if a.order(&c) == Ordering::Equal {
        // c is not greater than a, so b is not greater than a, and c not greater than b
        assert(b.order(&c) != Ordering::Greater && c.order(&a) != Ordering::Greater ==> b.order(&a)
            != Ordering::Greater);
        assert(c.order(&a) != Ordering::Greater && a.order(&b) != Ordering::Greater ==> c.order(&b)
            != Ordering::Greater);
    }
}

proof fn lemma_lex_flips<T: ArrayValue>(a: Seq<T>, b: Seq<T>, from: int, tie: Ordering)
    requires
        value::is_total_order::<T>(),
        0 <= from,
    ensures
        model::lex_order(b, a, from, value::flipped(tie)) == value::flipped(
            model::lex_order(a, b, from, tie),
        ),
    decreases a.len() - from,
{
    if from < a.len() && from < b.len() {
        assert(b[from].order(&a[from]) == value::flipped(a[from].order(&b[from])));
        if a[from].order(&b[from]) == Ordering::Equal {
            lemma_lex_flips(a, b, from + 1, tie);
        }
    }
}

proof fn lemma_lex_equal<T: ArrayValue>(a: Seq<T>, b: Seq<T>, from: int)
    requires
        0 <= from,
    ensures
        model::lex_order(a, b, from, model::length_order(a.len(), b.len())) == Ordering::Equal <==> (
        a.len() == b.len() && forall|k: int|
            from <= k < a.len() ==> a[k].order(&b[k]) == Ordering::Equal),
    decreases a.len() - from,
{
    if from < a.len() && from < b.len() {
        if a[from].order(&b[from]) == Ordering::Equal {
            lemma_lex_equal(a, b, from + 1);
        }
    }
}

proof fn lemma_lex_chain<T: ArrayValue>(a: Seq<T>, b: Seq<T>, c: Seq<T>, from: int)
    requires
        value::is_total_order::<T>(),
        0 <= from,
        model::lex_order(a, b, from, model::length_order(a.len(), b.len())) != Ordering::Greater,
        model::lex_order(b, c, from, model::length_order(b.len(), c.len())) != Ordering::Greater,
    ensures
        model::lex_order(a, c, from, model::length_order(a.len(), c.len())) != Ordering::Greater,
    decreases a.len() - from,
{
    if from < a.len() && from < b.len() && from < c.len() {
        lemma_values_chain(a[from], b[from], c[from]);
        if a[from].order(&c[from]) == Ordering::Equal {
            lemma_lex_chain(a, b, c, from + 1);
        }
    }
}

/// Every array is equal to itself in the order of arrays.
pub proof fn lemma_order_reflexive<T: ArrayValue>(a: ArrayView<T>)
    requires
        value::is_total_order::<T>(),
    ensures
        a.order(a) == Ordering::Equal,
{
    assert forall|k: int| 0 <= k < a.data.len() implies a.data[k].order(&a.data[k])
        == Ordering::Equal by {
        assert(a.data[k].order(&a.data[k]) == value::flipped(a.data[k].order(&a.data[k])));
    }
    lemma_lex_equal(a.data, a.data, 0);
}

/// Comparing two arrays the other way round gives the opposite answer.
pub proof fn lemma_order_flips<T: ArrayValue>(a: ArrayView<T>, b: ArrayView<T>)
    requires
        value::is_total_order::<T>(),
    ensures
        b.order(a) == value::flipped(a.order(b)),
{
    lemma_lex_flips(a.data, b.data, 0, model::length_order(a.data.len(), b.data.len()));
}

/// In the order of arrays, not-greater is transitive.
pub proof fn lemma_order_transitive<T: ArrayValue>(
    a: ArrayView<T>,
    b: ArrayView<T>,
    c: ArrayView<T>,
)
    requires
        value::is_total_order::<T>(),
        a.order(b) != Ordering::Greater,
        b.order(c) != Ordering::Greater,
    ensures
        a.order(c) != Ordering::Greater,
{
    lemma_lex_chain(a.data, b.data, c.data, 0);
}

/// Two arrays tie in the order exactly if they hold equally many elements
/// and equal values at every index; for arrays of one shape, that is to be
/// equal with padding counted.
pub proof fn lemma_order_equal<T: ArrayValue>(a: ArrayView<T>, b: ArrayView<T>)
    ensures
        a.order(b) == Ordering::Equal <==> a.data.len() == b.data.len() && model::same_values(
            a.data,
            b.data,
        ),
        a.shape == b.shape ==> (a.order(b) == Ordering::Equal <==> a.value_eq(b)),
{
    lemma_lex_equal(a.data, b.data, 0);
}

} // verus!
