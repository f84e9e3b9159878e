//! The array type: a shape, the flat row-major data and a fill flag.

use crate::model;
use crate::model::ArrayView;
use crate::shape;
use crate::value::ArrayValue;
use vstd::prelude::*;

verus! {

/// A multidimensional array in flat storage.
///
/// `data` holds the elements in row-major order; a well-formed array holds
/// exactly as many as the product of `shape`. `fill` records that the array
/// came out of a ragged join and may end in fill values.
pub struct Array<T> {
    pub shape: Vec<usize>,
    pub data: Vec<T>,
    pub fill: bool,
}

impl<T> View for Array<T> {
    type V = ArrayView<T>;

    open spec fn view(&self) -> ArrayView<T> {
        ArrayView { shape: self.shape@, data: self.data@, fill: self.fill }
    }
}

impl<T> Array<T> {
    /// The invariant: as many elements as the shape asks for.
    pub open spec fn wf(&self) -> bool {
        self@.wf()
    }

    /// The row length of a well-formed array that has a row is a length of
    /// stored data, and so it is a machine number.
    pub proof fn lemma_row_len_fits(&self)
        requires
            self.wf(),
            self@.row_count() > 0,
        ensures
            self@.row_len() <= self@.data.len() <= usize::MAX,
    {
        broadcast use vstd::std_specs::vec::group_vec_axioms;

        model::lemma_row_bounds(self@, 0);
        assert(self.data.len() == self@.data.len());
    }
}

/// The array without rows: shape `[0]`, no elements, and the kind's default
/// fill flag.
impl<T: ArrayValue> Default for Array<T> {
    fn default() -> (a: Self)
        ensures
            a@ == ArrayView::<T>::empty(T::DEFAULT_FILL),
            a.wf(),
    {
        let shape: Vec<usize> = vec![0];
        proof {
            assert(shape@ =~= seq![0usize]);
            shape::lemma_product_single(0usize);
        }
        Array { shape, data: Vec::new(), fill: T::DEFAULT_FILL }
    }
}

impl<T: ArrayValue> Array<T> {
    /// An array of the given shape over the given elements.
    pub fn new(shape: Vec<usize>, data: Vec<T>) -> (a: Self)
        requires
            shape::shape_product(shape@) == data@.len(),
        ensures
            a@ == (ArrayView { shape: shape@, data: data@, fill: T::DEFAULT_FILL }),
            a.wf(),
    {
        Array { shape, data, fill: T::DEFAULT_FILL }
    }

    /// Whether the array holds as many elements as its shape asks for.
    pub fn validate_shape(&self) -> (ok: bool)
        ensures
            ok == self.wf(),
    {
        shape::validate_shape(self.shape.as_slice(), self.data.as_slice())
    }

    /// The scalar array that holds `data`.
    pub fn unit(data: T) -> (a: Self)
        ensures
            a@ == (ArrayView {
                shape: Seq::<usize>::empty(),
                data: seq![data],
                fill: T::DEFAULT_FILL,
            }),
            a.wf(),
    {
        let mut elems: Vec<T> = Vec::new();
        elems.push(data);
        proof {
            assert(elems@ =~= seq![data]);
        }
        Array::new(Vec::new(), elems)
    }

    /// The leading dimension, or 1 for a scalar.
    pub fn row_count(&self) -> (n: usize)
        ensures
            n == self@.row_count(),
    {
        if self.shape.len() == 0 {
            1
        } else {
            self.shape[0]
        }
    }

    /// The number of elements in storage.
    pub fn flat_len(&self) -> (n: usize)
        ensures
            n == self@.data.len(),
            self.wf() ==> n == shape::shape_product(self@.shape),
    {
        self.data.len()
    }

    /// The number of elements in one row.
    pub fn row_len(&self) -> (n: usize)
        requires
            self@.row_len() <= usize::MAX,
        ensures
            n == self@.row_len(),
    {
        let rank: usize = self.shape.len();
        let rest = if rank == 0 {
            vstd::slice::slice_subrange(self.shape.as_slice(), 0, 0)
        } else {
            vstd::slice::slice_subrange(self.shape.as_slice(), 1, rank)
        };
        proof {
            assert(rest@ =~= shape::row_shape(self@.shape));
        }
        match shape::product_of(rest) {
            Some(p) => p,
            None => 0,
        }
    }

    /// The number of dimensions.
    pub fn rank(&self) -> (n: usize)
        ensures
            n == self@.rank(),
    {
        self.shape.len()
    }

    /// Clears the fill flag; shape and data stay as they are.
    pub fn reset_fill(&mut self)
        ensures
            final(self)@ == (ArrayView { fill: false, ..old(self)@ }),
    {
        self.fill = false;
    }
}

} // verus!
