//! The mathematical model of an array: its shape, its elements in row-major
//! order and its fill flag, with the notions the contracts are stated over.

use crate::shape;
use crate::value::ArrayValue;
use std::cmp::Ordering;
use vstd::prelude::*;

verus! {

/// What an array is, apart from how it is stored.
pub struct ArrayView<T> {
    /// The size of each dimension; its length is the rank.
    pub shape: Seq<usize>,
    /// The elements, in row-major order.
    pub data: Seq<T>,
    /// Whether the elements may end in padding.
    pub fill: bool,
}

impl<T> ArrayView<T> {
    /// The invariant of every array: it holds exactly as many elements as
    /// its shape asks for.
    pub open spec fn wf(self) -> bool {
        shape::shape_product(self.shape) == self.data.len()
    }

    /// The number of dimensions.
    pub open spec fn rank(self) -> nat {
        self.shape.len()
    }

    /// The leading dimension; a scalar counts as one row.
    pub open spec fn row_count(self) -> nat {
        shape::row_count_of(self.shape)
    }

    /// The number of elements in each row.
    pub open spec fn row_len(self) -> nat {
        shape::row_len_of(self.shape)
    }

    /// The elements of row `i`.
    pub open spec fn row_data(self, i: int) -> Seq<T> {
        self.data.subrange(i * self.row_len(), (i + 1) * self.row_len())
    }

    /// Row `i` as an array of its own, with the fill flag `fill`.
    pub open spec fn row(self, i: int, fill: bool) -> ArrayView<T> {
        ArrayView { shape: shape::row_shape(self.shape), data: self.row_data(i), fill }
    }

    /// The rows in index order, each with the fill flag `fill`.
    pub open spec fn rows(self, fill: bool) -> Seq<ArrayView<T>> {
        Seq::new(self.row_count(), |i: int| self.row(i, fill))
    }

    /// The `k`-th block of `row_len` elements counted from the back of the
    /// data, as an array with the fill flag `fill`.
    pub open spec fn row_from_back(self, k: int, fill: bool) -> ArrayView<T> {
        ArrayView {
            shape: shape::row_shape(self.shape),
            data: self.data.subrange(
                self.data.len() - (k + 1) * self.row_len(),
                self.data.len() - k * self.row_len(),
            ),
            fill,
        }
    }

    /// The rows taken off the back of the data one after another.
    pub open spec fn rows_rev(self, fill: bool) -> Seq<ArrayView<T>> {
        Seq::new(self.row_count(), |k: int| self.row_from_back(k, fill))
    }

    /// The same array as the only row of an array one rank higher.
    pub open spec fn as_single_row(self) -> ArrayView<T> {
        ArrayView { shape: shape::with_leading(1, self.shape), data: self.data, fill: self.fill }
    }

    /// The same array, marked as filled if `fill` is set.
    pub open spec fn or_fill(self, fill: bool) -> ArrayView<T> {
        ArrayView { shape: self.shape, data: self.data, fill: self.fill || fill }
    }

    /// The array without rows and without a row shape.
    pub open spec fn empty(fill: bool) -> ArrayView<T> {
        ArrayView { shape: seq![0usize], data: Seq::empty(), fill }
    }
}

/// Every row of a well-formed array lies within its data.
pub proof fn lemma_row_bounds<T>(a: ArrayView<T>, i: int)
    requires
        a.wf(),
        0 <= i < a.row_count(),
    ensures
        0 <= i * a.row_len() <= (i + 1) * a.row_len() <= a.data.len(),
        (i + 1) * a.row_len() == i * a.row_len() + a.row_len(),
        a.row_data(i).len() == a.row_len(),
        a.row_len() <= a.data.len(),
{
    shape::lemma_product_rows(a.shape);
    let n = a.row_count() as int;
    let l = a.row_len() as int;
    assert(0 <= i * l <= (i + 1) * l <= n * l && (i + 1) * l == i * l + l && l <= n * l)
        by (nonlinear_arith)
        requires
            0 <= i < n,
            0 <= l,
    ;
}

/// The end of the run that starts at `from` and holds fill values only (if
/// `fill` is set) or no fill value at all (if it is not): the index of the
/// first element from `from` on that is of the other sort, or the length of
/// `s` where there is none.
pub open spec fn run_end<T: ArrayValue>(s: Seq<T>, from: int, fill: bool) -> int
    decreases s.len() - from,
{
    if 0 <= from < s.len() && s[from].is_fill() == fill {
        run_end(s, from + 1, fill)
    } else {
        from
    }
}

/// What is left of `s` when a leading run of fill values is skipped and the
/// values after it are taken up to the next fill value.
pub open spec fn unpadded<T: ArrayValue>(s: Seq<T>) -> Seq<T> {
    let start = run_end(s, 0, true);
    s.subrange(start, run_end(s, start, false))
}

/// Whether `a` and `b` hold equal values at every index that both have.
pub open spec fn same_values<T: ArrayValue>(a: Seq<T>, b: Seq<T>) -> bool {
    forall|i: int| 0 <= i < a.len() && i < b.len() ==> a[i].order(&b[i]) == Ordering::Equal
}

/// Whether every element of `s` is a fill value.
pub open spec fn all_fill<T: ArrayValue>(s: Seq<T>) -> bool {
    forall|j: int| 0 <= j < s.len() ==> s[j].is_fill()
}

impl<T: ArrayValue> ArrayView<T> {
    /// The logical length: for a list, the number of elements before the
    /// first fill value; for any other rank, the number of rows.
    pub open spec fn len(self) -> nat {
        if self.rank() == 1 {
            run_end(self.data, 0, false) as nat
        } else {
            self.row_count()
        }
    }

    /// Equality that looks past padding: the shapes and flat lengths are
    /// the same, and the unpadded parts of the data hold equal values as
    /// far as the shorter of the two goes.
    pub open spec fn fill_eq(self, other: ArrayView<T>) -> bool {
        &&& self.shape == other.shape
        &&& self.data.len() == other.data.len()
        &&& same_values(unpadded(self.data), unpadded(other.data))
    }

    /// Of the first `n` rows, how many are left when the rows that hold fill
    /// values only are taken off the end.
    pub open spec fn kept_rows(self, n: int) -> int
        decreases n,
    {
        if n > 0 && all_fill(self.row_data(n - 1)) {
            self.kept_rows(n - 1)
        } else {
            n
        }
    }

    /// The array without its trailing rows of fill values. An array that is
    /// not marked as filled, and a scalar, stay as they are.
    pub open spec fn truncated(self) -> ArrayView<T> {
        if !self.fill || self.rank() == 0 {
            self
        } else {
            let kept = self.kept_rows(self.row_count() as int);
            ArrayView {
                shape: self.shape.update(0, kept as usize),
                data: self.data.take(kept * self.row_len()),
                fill: self.fill,
            }
        }
    }
}

/// A run ends within the sequence; its elements are all of the one sort and
/// the element after it, if there is one, is of the other.
pub proof fn lemma_run_end<T: ArrayValue>(s: Seq<T>, from: int, fill: bool)
    requires
        0 <= from <= s.len(),
    ensures
        from <= run_end(s, from, fill) <= s.len(),
        forall|i: int| from <= i < run_end(s, from, fill) ==> s[i].is_fill() == fill,
        run_end(s, from, fill) < s.len() ==> s[run_end(s, from, fill)].is_fill() != fill,
    decreases s.len() - from,
{
    if from < s.len() && s[from].is_fill() == fill {
        lemma_run_end(s, from + 1, fill);
    }
}

/// Taking fill rows off the end leaves between no row and all of them, and
/// the last row left is not a fill row.
pub proof fn lemma_kept_rows<T: ArrayValue>(a: ArrayView<T>, n: int)
    requires
        0 <= n,
    ensures
        0 <= a.kept_rows(n) <= n,
        a.kept_rows(n) > 0 ==> !all_fill(a.row_data(a.kept_rows(n) - 1)),
        forall|i: int| a.kept_rows(n) <= i < n ==> all_fill(#[trigger] a.row_data(i)),
    decreases n,
{
    if n > 0 && all_fill(a.row_data(n - 1)) {
        lemma_kept_rows(a, n - 1);
    }
}

/// Truncating an array that has been truncated changes nothing.
pub proof fn lemma_truncate_idempotent<T: ArrayValue>(a: ArrayView<T>)
    requires
        a.wf(),
    ensures
        a.truncated().wf(),
        a.truncated().truncated() == a.truncated(),
{
    if a.fill && a.rank() > 0 {
        let n = a.row_count() as int;
        let l = a.row_len() as int;
        let kept = a.kept_rows(n);
        let t = a.truncated();
        lemma_kept_rows(a, n);
        shape::lemma_product_rows(a.shape);
        assert(shape::row_shape(t.shape) =~= shape::row_shape(a.shape));
        shape::lemma_product_rows(t.shape);
        assert(0 <= kept * l <= n * l) by (nonlinear_arith)
            requires
                0 <= kept <= n,
                0 <= l,
        ;
        assert(t.row_count() == kept);
        assert(t.wf());
        if kept > 0 {
            lemma_row_bounds(t, kept - 1);
            assert(t.row_data(kept - 1) =~= a.row_data(kept - 1));
        }
        assert(t.kept_rows(kept) == kept);
        assert(t.shape.update(0, kept as usize) =~= t.shape);
        assert(t.data.take(kept * l) =~= t.data);
    }
}

/// How two lengths compare: the shorter comes first.
pub open spec fn length_order(a: nat, b: nat) -> Ordering {
    if a < b {
        Ordering::Less
    } else if a == b {
        Ordering::Equal
    } else {
        Ordering::Greater
    }
}

/// How `a` and `b` compare from index `from` on: by the first pair of
/// elements at one index that are not equal, and by `tie` where one of the
/// two ends before such a pair is met.
pub open spec fn lex_order<T: ArrayValue>(a: Seq<T>, b: Seq<T>, from: int, tie: Ordering) -> Ordering
    decreases a.len() - from,
{
    if 0 <= from < a.len() && from < b.len() {
        if a[from].order(&b[from]) == Ordering::Equal {
            lex_order(a, b, from + 1, tie)
        } else {
            a[from].order(&b[from])
        }
    } else {
        tie
    }
}

/// Whether `t` can come of cloning `u` and converting the clone.
pub open spec fn converts_to<U: Clone + Into<T>, T>(u: U, t: T) -> bool {
    exists|c: U| cloned(u, c) && #[trigger] call_ensures(U::into, (c,), t)
}

/// Whether `conv` lists conversions of the first elements of `src`, one for
/// one.
pub open spec fn converted<U: Clone + Into<T>, T>(src: Seq<U>, conv: Seq<T>) -> bool {
    &&& conv.len() <= src.len()
    &&& forall|i: int| 0 <= i < conv.len() ==> converts_to(#[trigger] src[i], conv[i])
}

impl<T: ArrayValue> ArrayView<T> {
    /// The order of two arrays, which does not look past padding: by the
    /// first pair of elements at one index that are not equal, and on a
    /// full tie by the flat length, the shorter first.
    pub open spec fn order(self, other: ArrayView<T>) -> Ordering {
        lex_order(self.data, other.data, 0, length_order(self.data.len(), other.data.len()))
    }

    /// Equality that does not look past padding: the same shape and flat
    /// length, and equal values at every index.
    pub open spec fn value_eq(self, other: ArrayView<T>) -> bool {
        &&& self.shape == other.shape
        &&& self.data.len() == other.data.len()
        &&& same_values(self.data, other.data)
    }

    /// Whether `equal` is the answer to whether `self` equals an array of
    /// shape `shape` with `len` elements, of which `conv` holds the first
    /// after conversion: as many as it takes to decide.
    pub open spec fn equal_through(
        self,
        shape: Seq<usize>,
        len: nat,
        conv: Seq<T>,
        equal: bool,
    ) -> bool {
        if self.shape == shape && self.data.len() == len {
            &&& conv.len() == len || !same_values(self.data, conv)
            &&& equal == (conv.len() == len && same_values(self.data, conv))
        } else {
            !equal
        }
    }

    /// Whether `o` is how `self` compares with an array of `len` elements,
    /// of which `conv` holds the first after conversion: as many as it
    /// takes to decide.
    pub open spec fn ordered_through(self, len: nat, conv: Seq<T>, o: Ordering) -> bool {
        &&& conv.len() <= len
        &&& conv.len() == self.data.len() || conv.len() == len || !same_values(self.data, conv)
        &&& o == lex_order(self.data, conv, 0, length_order(self.data.len(), len))
    }
}

/// Elements that are equal do not decide the order: it is the order from
/// the first index after them.
pub proof fn lemma_lex_order_skip<T: ArrayValue>(
    a: Seq<T>,
    b: Seq<T>,
    from: int,
    upto: int,
    tie: Ordering,
)
    requires
        0 <= from <= upto,
        upto <= a.len(),
        upto <= b.len(),
        forall|k: int| from <= k < upto ==> a[k].order(&b[k]) == Ordering::Equal,
    ensures
        lex_order(a, b, from, tie) == lex_order(a, b, upto, tie),
    decreases upto - from,
{
    if from < upto {
        lemma_lex_order_skip(a, b, from + 1, upto, tie);
    }
}

/// The rows taken off the back of the data are the rows in index order,
/// last row first.
pub proof fn lemma_rows_rev_reverses<T>(a: ArrayView<T>, fill: bool)
    requires
        a.wf(),
    ensures
        a.rows_rev(fill) == a.rows(fill).reverse(),
{
    shape::lemma_product_rows(a.shape);
    let n = a.row_count() as int;
    let l = a.row_len() as int;
    assert forall|k: int| 0 <= k < n implies a.row_from_back(k, fill) == a.row(n - 1 - k, fill) by {
        assert(n * l - (k + 1) * l == (n - 1 - k) * l && n * l - k * l == (n - 1 - k + 1) * l)
            by (nonlinear_arith);
    }
    assert(a.rows_rev(fill) =~= a.rows(fill).reverse());
}

/// A scalar has one row, and that row holds what the scalar holds.
pub proof fn lemma_scalar_rows<T>(a: ArrayView<T>, fill: bool)
    requires
        a.wf(),
        a.rank() == 0,
    ensures
        a.row_count() == 1,
        a.rows(fill).len() == 1,
        a.rows(fill)[0].shape == a.shape,
        a.rows(fill)[0].data == a.data,
        a.rows_rev(fill) == a.rows(fill),
{
    lemma_row_bounds(a, 0);
    shape::lemma_product_rows(a.shape);
    assert(a.row_data(0) =~= a.data);
    assert(a.row_from_back(0, fill).data =~= a.data);
    assert(a.rows_rev(fill) =~= a.rows(fill));
}

} // verus!
