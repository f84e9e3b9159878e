//! Views of single rows: a row of an array, seen in place.

use crate::array::Array;
use crate::compare;
use crate::fill;
use crate::model;
use crate::model::ArrayView;
use crate::shape;
use crate::value::ArrayValue;
use std::cmp::Ordering;
use std::ops::Deref;
use vstd::prelude::*;

verus! {

/// One row of an array, borrowed from it. A row view holds no elements of
/// its own; it always belongs to a well-formed array and names one of its
/// rows.
pub struct Row<'a, T> {
    array: &'a Array<T>,
    row: usize,
}

impl<'a, T> Row<'a, T> {
    #[verifier::type_invariant]
    spec fn valid(&self) -> bool {
        self.array.wf() && self.row < self.array@.row_count()
    }

    /// The array that the row belongs to.
    pub closed spec fn array(&self) -> ArrayView<T> {
        self.array@
    }

    /// The index of the row in its array.
    pub closed spec fn index(&self) -> nat {
        self.row as nat
    }
}

/// A row is seen as the sequence of its elements.
impl<'a, T> View for Row<'a, T> {
    type V = Seq<T>;

    open spec fn view(&self) -> Seq<T> {
        self.array().row_data(self.index() as int)
    }
}

impl<'a, T> Clone for Row<'a, T> {
    fn clone(&self) -> (copy: Self)
        ensures
            copy == *self,
    {
        proof {
            use_type_invariant(self);
        }
        Row { array: self.array, row: self.row }
    }
}

impl<'a, T> Copy for Row<'a, T> {

}

impl<'a, T: ArrayValue> Row<'a, T> {
    /// The elements of the row.
    pub fn as_ref(&self) -> (elems: &[T])
        ensures
            elems@ == self@,
            self.array().wf(),
            self.index() < self.array().row_count(),
    {
        proof {
            use_type_invariant(self);
        }
        self.array.row(self.row)
    }

    /// The dimensions of the row: those of its array without the first.
    pub(crate) fn row_dims(&self) -> (dims: &[usize])
        ensures
            dims@ == shape::row_shape(self.array().shape),
    {
        let all: &[usize] = self.array.shape.as_slice();
        let rank: usize = all.len();
        if rank == 0 {
            all
        } else {
            vstd::slice::slice_subrange(all, 1, rank)
        }
    }
}

impl<'a, T: ArrayValue> Deref for Row<'a, T> {
    type Target = [T];

    fn deref(&self) -> (elems: &[T])
        ensures
            elems@ == self@,
    {
        self.as_ref()
    }
}

impl<T: ArrayValue> Array<T> {
    /// Views of the rows, first row first; a scalar has one row.
    pub fn rows(&self) -> (rows: Vec<Row<'_, T>>)
        requires
            self.wf(),
        ensures
            rows@.len() == self@.row_count(),
            forall|i: int|
                0 <= i < rows@.len() ==> {
                    &&& (#[trigger] rows@[i]).array() == self@
                    &&& rows@[i].index() == i
                    &&& rows@[i]@ == self@.row_data(i)
                },
    {
        let row_count: usize = self.row_count();
        let mut rows: Vec<Row<'_, T>> = Vec::new();
        let mut i: usize = 0;
        while i < row_count
            invariant
                self.wf(),
                row_count == self@.row_count(),
                i <= row_count,
                rows@.len() == i,
                forall|k: int|
                    0 <= k < i ==> {
                        &&& (#[trigger] rows@[k]).array() == self@
                        &&& rows@[k].index() == k
                    },
            decreases row_count - i,
        {
            rows.push(Row { array: self, row: i });
            i += 1;
        }
        rows
    }
}

/// Two rows are equal when they hold equal values at every index that both
/// have.
impl<'a, T: ArrayValue> PartialEq for Row<'a, T> {
    fn eq(&self, other: &Self) -> (equal: bool) {
        fill::values_agree(self.as_ref(), other.as_ref())
    }
}

impl<'a, T: ArrayValue> vstd::std_specs::cmp::PartialEqSpecImpl for Row<'a, T> {
    open spec fn obeys_eq_spec() -> bool {
        true
    }

    open spec fn eq_spec(&self, other: &Self) -> bool {
        model::same_values(self@, other@)
    }
}

impl<'a, T: ArrayValue> Eq for Row<'a, T> {

}

impl<'a, T: ArrayValue> Row<'a, T> {
    /// How two rows compare: by the first pair of elements at one index
    /// that are not equal, and on a full tie by the flat lengths of the
    /// arrays that the rows belong to.
    pub open spec fn order(&self, other: &Self) -> Ordering {
        model::lex_order(
            self@,
            other@,
            0,
            model::length_order(self.array().data.len(), other.array().data.len()),
        )
    }

    /// The order of two rows.
    pub fn cmp(&self, other: &Self) -> (o: Ordering)
        ensures
            o == self.order(other),
    {
        let tie = compare::length_order(self.array.data.len(), other.array.data.len());
        compare::lex_cmp(self.as_ref(), other.as_ref(), tie)
    }
}

/// Rows are ordered as `cmp` orders them.
impl<'a, T: ArrayValue> PartialOrd for Row<'a, T> {
    fn partial_cmp(&self, other: &Self) -> (o: Option<Ordering>) {
        Some(self.cmp(other))
    }
}

impl<'a, T: ArrayValue> vstd::std_specs::cmp::PartialOrdSpecImpl for Row<'a, T> {
    open spec fn obeys_partial_cmp_spec() -> bool {
        true
    }

    open spec fn partial_cmp_spec(&self, other: &Self) -> Option<Ordering> {
        Some(self.order(other))
    }
}

} // verus!
