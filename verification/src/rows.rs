//! Splitting an array into its rows and building one from rows.

use crate::array::Array;
use crate::model;
use crate::model::ArrayView;
use crate::shape;
use crate::value::ArrayValue;
use vstd::prelude::*;

verus! {

broadcast use vstd::std_specs::vec::group_vec_axioms;

/// The views of a sequence of arrays.
pub open spec fn views<T>(arrays: Seq<Array<T>>) -> Seq<ArrayView<T>> {
    arrays.map_values(|a: Array<T>| a@)
}

/// The dimensions of one row of an array with dimensions `dims`.
fn row_dims(dims: &Vec<usize>) -> (rest: Vec<usize>)
    ensures
        rest@ == shape::row_shape(dims@),
{
    let rank: usize = dims.len();
    if rank == 0 {
        Vec::new()
    } else {
        vstd::slice::slice_to_vec(vstd::slice::slice_subrange(dims.as_slice(), 1, rank))
    }
}

/// Whether the row operation `op` accepts every pair of well-formed arrays
/// and returns well-formed arrays only.
pub open spec fn keeps_wf<T, E, F: Fn(Array<T>, Array<T>) -> Result<Array<T>, E>>(op: F) -> bool {
    &&& forall|a: Array<T>, b: Array<T>| a.wf() && b.wf() ==> call_requires(op, (a, b))
    &&& forall|a: Array<T>, b: Array<T>, r: Array<T>|
        #[trigger] call_ensures(op, (a, b), Ok::<Array<T>, E>(r)) ==> r.wf()
}

/// Whether `out` is what comes of combining the first `n` of `rows`, two at
/// least: `couple` joins the first two rows, and `join` appends each later
/// row to what has been built so far. Every row after the first is handed
/// over marked as filled if `fill` is set.
pub open spec fn combined_through<
    T,
    E,
    C: Fn(Array<T>, Array<T>) -> Result<Array<T>, E>,
    J: Fn(Array<T>, Array<T>) -> Result<Array<T>, E>,
>(rows: Seq<Array<T>>, fill: bool, couple: C, join: J, n: int, out: Result<Array<T>, E>) -> bool
    decreases n,
{
    if n < 2 || n > rows.len() {
        false
    } else if n == 2 {
        exists|second: Array<T>|
            second@ == rows[1]@.or_fill(fill) && #[trigger] call_ensures(
                couple,
                (rows[0], second),
                out,
            )
    } else {
        exists|built: Array<T>, next: Array<T>|
            {
                &&& combined_through(rows, fill, couple, join, n - 1, Ok(built))
                &&& next@ == rows[n - 1]@.or_fill(fill)
                &&& #[trigger] call_ensures(join, (built, next), out)
            }
    }
}

/// Whether `out` is what rebuilding an array from `rows` gives: the empty
/// array for no rows, the row itself under a new leading dimension of 1 for
/// one row, and for more rows whatever `couple` and `join` make of them, up
/// to the last row or to the first failure.
pub open spec fn rebuilt<
    T: ArrayValue,
    E,
    C: Fn(Array<T>, Array<T>) -> Result<Array<T>, E>,
    J: Fn(Array<T>, Array<T>) -> Result<Array<T>, E>,
>(rows: Seq<Array<T>>, fill: bool, couple: C, join: J, out: Result<Array<T>, E>) -> bool {
    if rows.len() == 0 {
        out matches Ok(a) && a@ == ArrayView::<T>::empty(T::DEFAULT_FILL)
    } else if rows.len() == 1 {
        out matches Ok(a) && a@ == rows[0]@.as_single_row()
    } else {
        exists|n: int|
            {
                &&& #[trigger] combined_through(rows, fill, couple, join, n, out)
                &&& n < rows.len() ==> out is Err
            }
    }
}

impl<T: ArrayValue> Array<T> {
    /// The elements of row `row`.
    pub fn row(&self, row: usize) -> (elems: &[T])
        requires
            self.wf(),
            row < self@.row_count(),
        ensures
            elems@ == self@.row_data(row as int),
    {
        proof {
            self.lemma_row_len_fits();
            model::lemma_row_bounds(self@, row as int);
        }
        let row_len: usize = self.row_len();
        assert(row * row_len + row_len == (row + 1) * row_len) by (nonlinear_arith);
        let start: usize = row * row_len;
        vstd::slice::slice_subrange(self.data.as_slice(), start, start + row_len)
    }

    /// The rows as arrays of their own, first row first. Each holds the
    /// next `row_len` elements of the data and starts out with the kind's
    /// default fill flag; a scalar gives one row that holds its element.
    pub fn into_rows(self) -> (rows: Vec<Array<T>>)
        requires
            self.wf(),
        ensures
            views(rows@) == self@.rows(T::DEFAULT_FILL),
            forall|i: int| 0 <= i < rows@.len() ==> (#[trigger] rows@[i]).wf(),
    {
        let ghost whole = self@;
        let row_count: usize = self.row_count();
        let mut rows: Vec<Array<T>> = Vec::new();
        if row_count == 0 {
            assert(views(rows@) =~= whole.rows(T::DEFAULT_FILL));
            return rows;
        }
        proof {
            self.lemma_row_len_fits();
        }
        let row_len: usize = self.row_len();
        let dims: Vec<usize> = row_dims(&self.shape);
        proof {
            shape::lemma_product_rows(whole.shape);
        }
        if row_len == 0 {
            let mut r: usize = 0;
            while r < row_count
                invariant
                    whole.wf(),
                    row_count == whole.row_count(),
                    whole.row_len() == 0,
                    dims@ == shape::row_shape(whole.shape),
                    r <= row_count,
                    rows@.len() == r,
                    forall|i: int|
                        0 <= i < r ==> (#[trigger] rows@[i])@ == whole.row(i, T::DEFAULT_FILL),
                    forall|i: int| 0 <= i < r ==> (#[trigger] rows@[i]).wf(),
                decreases row_count - r,
            {
                let elems: Vec<T> = Vec::new();
                proof {
                    assert(elems@ =~= whole.row_data(r as int));
                }
                rows.push(Array::new(dims.clone(), elems));
                r += 1;
            }
        } else {
            let mut elems: Vec<T> = Vec::new();
            for x in it: self.data
                invariant
                    whole.wf(),
                    it.seq() == whole.data,
                    row_count == whole.row_count(),
                    row_len == whole.row_len(),
                    row_len > 0,
                    whole.data.len() == row_count * row_len,
                    dims@ == shape::row_shape(whole.shape),
                    elems@.len() < row_len,
                    it.index() == rows@.len() * row_len + elems@.len(),
                    elems@ == whole.data.subrange(rows@.len() * row_len, it.index()),
                    forall|i: int|
                        0 <= i < rows@.len() ==> (#[trigger] rows@[i])@ == whole.row(
                            i,
                            T::DEFAULT_FILL,
                        ),
                    forall|i: int| 0 <= i < rows@.len() ==> (#[trigger] rows@[i]).wf(),
            {
                proof {
                    assert(elems@.push(x) =~= whole.data.subrange(
                        rows@.len() * row_len,
                        it.index() + 1,
                    ));
                }
                elems.push(x);
                if elems.len() == row_len {
                    let full: Vec<T> = elems;
                    elems = Vec::new();
                    proof {
                        let r = rows@.len() as int;
                        let l = row_len as int;
                        assert((r + 1) * l == r * l + l) by (nonlinear_arith);
                        assert(full@ == whole.row_data(r));
                        assert(elems@ =~= whole.data.subrange((r + 1) * l, it.index() + 1));
                    }
                    rows.push(Array::new(dims.clone(), full));
                }
            }
            proof {
                let r = rows@.len() as int;
                let n = row_count as int;
                let l = row_len as int;
                let j = elems@.len() as int;
                assert(r == n) by (nonlinear_arith)
                    requires
                        n * l == r * l + j,
                        0 <= j < l,
                        0 <= r,
                        0 <= n,
                ;
            }
        }
        proof {
            assert(views(rows@) =~= whole.rows(T::DEFAULT_FILL));
        }
        rows
    }

    /// The rows as arrays of their own, last row first: each is the block
    /// of `row_len` elements at the back of what is left of the data.
    pub fn into_rows_rev(self) -> (rows: Vec<Array<T>>)
        requires
            self.wf(),
        ensures
            views(rows@) == self@.rows_rev(T::DEFAULT_FILL),
            forall|i: int| 0 <= i < rows@.len() ==> (#[trigger] rows@[i]).wf(),
    {
        let ghost whole = self@;
        let row_count: usize = self.row_count();
        let mut rows: Vec<Array<T>> = Vec::new();
        if row_count == 0 {
            assert(views(rows@) =~= whole.rows_rev(T::DEFAULT_FILL));
            return rows;
        }
        proof {
            self.lemma_row_len_fits();
        }
        let row_len: usize = self.row_len();
        let dims: Vec<usize> = row_dims(&self.shape);
        let mut data: Vec<T> = self.data;
        let mut k: usize = 0;
        while k < row_count
            invariant
                whole.wf(),
                row_count == whole.row_count(),
                row_len == whole.row_len(),
                dims@ == shape::row_shape(whole.shape),
                k <= row_count,
                rows@.len() == k,
                data@ == whole.data.take(whole.data.len() - k * row_len),
                forall|i: int|
                    0 <= i < k ==> (#[trigger] rows@[i])@ == whole.row_from_back(
                        i,
                        T::DEFAULT_FILL,
                    ),
                forall|i: int| 0 <= i < k ==> (#[trigger] rows@[i]).wf(),
            decreases row_count - k,
        {
            proof {
                shape::lemma_product_rows(whole.shape);
                let n = row_count as int;
                let l = row_len as int;
                let kk = k as int;
                assert(0 <= kk * l && (kk + 1) * l == kk * l + l && (kk + 1) * l <= n * l)
                    by (nonlinear_arith)
                    requires
                        0 <= kk < n,
                        0 <= l,
                ;
            }
            let end: usize = data.len() - row_len;
            let tail: Vec<T> = data.split_off(end);
            proof {
                assert(tail@ =~= whole.row_from_back(k as int, T::DEFAULT_FILL).data);
                assert(data@ =~= whole.data.take(whole.data.len() - (k + 1) * row_len));
            }
            let row = Array::new(dims.clone(), tail);
            rows.push(row);
            k += 1;
        }
        proof {
            assert(views(rows@) =~= whole.rows_rev(T::DEFAULT_FILL));
        }
        rows
    }
    /// Builds one array from a sequence of rows.
    ///
    /// No rows give the empty array, one row gives that row under a new
    /// leading dimension of 1. With more rows the first two go to `couple`
    /// and every further row goes to `join` together with what has been
    /// built; each row after the first is marked as filled if `fill` is
    /// set. The first failure of either operation is returned as it is.
    pub fn from_row_arrays<
        E,
        C: Fn(Array<T>, Array<T>) -> Result<Array<T>, E>,
        J: Fn(Array<T>, Array<T>) -> Result<Array<T>, E>,
    >(values: Vec<Array<T>>, fill: bool, couple: C, join: J) -> (out: Result<Array<T>, E>)
        requires
            forall|i: int| 0 <= i < values@.len() ==> (#[trigger] values@[i]).wf(),
            keeps_wf(couple),
            keeps_wf(join),
        ensures
            rebuilt(values@, fill, couple, join, out),
            out matches Ok(a) ==> a.wf(),
    {
        let ghost rows = values@;
        let total: usize = values.len();
        let mut built: Option<Array<T>> = None;
        let mut count: usize = 0;
        for row in it: values
            invariant
                it.seq() == rows,
                rows.len() == total,
                count == it.index(),
                forall|i: int| 0 <= i < rows.len() ==> (#[trigger] rows[i]).wf(),
                keeps_wf(couple),
                keeps_wf(join),
                count == 0 ==> built is None,
                count == 1 ==> built == Some(rows[0]),
                count >= 2 ==> (built matches Some(a) && a.wf() && combined_through(
                    rows,
                    fill,
                    couple,
                    join,
                    count as int,
                    Ok(a),
                )),
        {
            match built {
                None => {
                    built = Some(row);
                },
                Some(value) => {
                    let mut next = row;
                    next.fill = next.fill || fill;
                    let combined = if count == 1 {
                        couple(value, next)
                    } else {
                        join(value, next)
                    };
                    proof {
                        assert(combined_through(rows, fill, couple, join, count + 1, combined));
                    }
                    match combined {
                        Ok(a) => {
                            built = Some(a);
                        },
                        Err(e) => {
                            return Err(e);
                        },
                    }
                },
            }
            count += 1;
        }
        match built {
            None => Ok(Array::default()),
            Some(value) => {
                let mut value = value;
                if count == 1 {
                    value.shape.insert(0, 1);
                    proof {
                        assert(value.shape@ =~= shape::with_leading(1, rows[0].shape@));
                        shape::lemma_product_concat(seq![1usize], rows[0].shape@);
                        shape::lemma_product_single(1usize);
                    }
                }
                Ok(value)
            },
        }
    }
}

/// Whether `couple` stacks two well-formed arrays of one shape: it returns
/// an array of two rows, the first array and then the second.
pub open spec fn stacks_pairs<T, E, C: Fn(Array<T>, Array<T>) -> Result<Array<T>, E>>(
    couple: C,
) -> bool {
    forall|a: Array<T>, b: Array<T>, out: Result<Array<T>, E>|
        #[trigger] call_ensures(couple, (a, b), out) && a.wf() && b.wf() && a@.shape == b@.shape
            ==> (out matches Ok(r) && r@.shape == shape::with_leading(2, a@.shape) && r@.data
            == a@.data + b@.data)
}

/// Whether `join` appends a row to a well-formed array whose rows have the
/// shape of that row: it returns the array with one row more, the new row
/// last.
pub open spec fn appends_rows<T, E, J: Fn(Array<T>, Array<T>) -> Result<Array<T>, E>>(
    join: J,
) -> bool {
    forall|a: Array<T>, row: Array<T>, out: Result<Array<T>, E>|
        #[trigger] call_ensures(join, (a, row), out) && a.wf() && row.wf() && a@.rank() > 0
            && a@.shape[0] < usize::MAX && shape::row_shape(a@.shape) == row@.shape
            ==> (out matches Ok(r) && r@.shape == a@.shape.update(0, (a@.shape[0] + 1) as usize)
            && r@.data == a@.data + row@.data)
}

/// Combining the first `n` rows of an array, with operations that stack
/// and append, gives the array made of these rows.
proof fn lemma_combined_rows<
    T: ArrayValue,
    E,
    C: Fn(Array<T>, Array<T>) -> Result<Array<T>, E>,
    J: Fn(Array<T>, Array<T>) -> Result<Array<T>, E>,
>(a: ArrayView<T>, rows: Seq<Array<T>>, couple: C, join: J, n: int, out: Result<Array<T>, E>)
    requires
        a.wf(),
        a.rank() >= 1,
        views(rows) == a.rows(T::DEFAULT_FILL),
        stacks_pairs(couple),
        appends_rows(join),
        combined_through(rows, false, couple, join, n, out),
    ensures
        2 <= n <= rows.len(),
        out matches Ok(r) && r@.shape == a.shape.update(0, n as usize) && r@.data == a.data.take(
            n * a.row_len(),
        ) && r.wf(),
    decreases n,
{
    let l = a.row_len() as int;
    let count = a.row_count() as int;
    assert(rows.len() == count) by {
        assert(views(rows).len() == rows.len());
    }
    assert forall|i: int| 0 <= i < count implies (#[trigger] rows[i])@ == a.row(
        i,
        T::DEFAULT_FILL,
    ) && rows[i].wf() by {
        assert(views(rows)[i] == rows[i]@);
        model::lemma_row_bounds(a, i);
    }
    shape::lemma_product_rows(a.shape);
    let target = a.shape.update(0, n as usize);
    assert(shape::row_shape(target) =~= shape::row_shape(a.shape));
    shape::lemma_product_rows(target);
    assert(0 <= (n - 1) * l && n * l == (n - 1) * l + l && n * l <= count * l) by (nonlinear_arith)
        requires
            2 <= n <= count,
            0 <= l,
    ;
    model::lemma_row_bounds(a, n - 1);
    if n == 2 {
        let second = choose|second: Array<T>|
            second@ == rows[1]@.or_fill(false) && #[trigger] call_ensures(
                couple,
                (rows[0], second),
                out,
            );
        model::lemma_row_bounds(a, 0);
        assert(second@ == rows[1]@);
        let r = out->Ok_0;
        assert(r@.shape =~= target);
        assert(r@.data =~= a.data.take(2 * l));
    } else {
        let (built, next) = choose|built: Array<T>, next: Array<T>|
            {
                &&& combined_through(rows, false, couple, join, n - 1, Ok(built))
                &&& next@ == rows[n - 1]@.or_fill(false)
                &&& #[trigger] call_ensures(join, (built, next), out)
            };
        lemma_combined_rows(a, rows, couple, join, n - 1, Ok::<Array<T>, E>(built));
        assert(next@ == rows[n - 1]@);
        assert(shape::row_shape(built@.shape) =~= next@.shape);
        let r = out->Ok_0;
        assert(r@.shape =~= target);
        assert(r@.data =~= a.data.take(n * l));
    }
}

/// An array of rank one or more comes back from its rows: rebuilding from
/// the rows, with operations that stack and append and without marking the
/// rows as filled, gives an array of the same shape and the same data.
///
/// An array without rows comes back only if it is a list: from no rows, the
/// empty list is all that can be rebuilt.
pub proof fn lemma_rows_round_trip<
    T: ArrayValue,
    E,
    C: Fn(Array<T>, Array<T>) -> Result<Array<T>, E>,
    J: Fn(Array<T>, Array<T>) -> Result<Array<T>, E>,
>(a: ArrayView<T>, rows: Seq<Array<T>>, couple: C, join: J, out: Result<Array<T>, E>)
    requires
        a.wf(),
        a.rank() >= 1,
        a.row_count() > 0 || a.rank() == 1,
        views(rows) == a.rows(T::DEFAULT_FILL),
        stacks_pairs(couple),
        appends_rows(join),
        rebuilt(rows, false, couple, join, out),
    ensures
        out matches Ok(r) && r@.shape == a.shape && r@.data == a.data,
{
    let l = a.row_len() as int;
    let count = a.row_count() as int;
    assert(rows.len() == count) by {
        assert(views(rows).len() == rows.len());
    }
    shape::lemma_product_rows(a.shape);
    if count == 0 {
        let r = out->Ok_0;
        assert(r@.shape =~= a.shape);
        assert(r@.data =~= a.data);
    } else if count == 1 {
        assert(views(rows)[0] == rows[0]@);
        model::lemma_row_bounds(a, 0);
        let r = out->Ok_0;
        assert(r@.shape =~= a.shape);
        assert(r@.data =~= a.data);
    } else {
        let n = choose|n: int|
            {
                &&& #[trigger] combined_through(rows, false, couple, join, n, out)
                &&& n < rows.len() ==> out is Err
            };
        lemma_combined_rows(a, rows, couple, join, n, out);
        let r = out->Ok_0;
        assert(r@.shape =~= a.shape);
        assert(r@.data =~= a.data);
    }
}

} // verus!
