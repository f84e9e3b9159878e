//! What is common to everything that has a shape and flat data: arrays,
//! references to them, pairs of borrowed shape and data, and row views.

use crate::array::Array;
use crate::row::Row;
use crate::shape;
use crate::value::ArrayValue;
use vstd::prelude::*;

verus! {

/// Whether two shapes agree in every dimension that both have.
pub open spec fn prefixes_match(a: Seq<usize>, b: Seq<usize>) -> bool {
    forall|i: int| 0 <= i < a.len() && i < b.len() ==> a[i] == b[i]
}

/// The `i`-th piece of `data` when it is cut into pieces of `size`
/// elements; the last piece holds what is left.
pub open spec fn chunk<T>(data: Seq<T>, size: nat, i: int) -> Seq<T> {
    data.subrange(
        i * size,
        if (i + 1) * size <= data.len() {
            (i + 1) * size
        } else {
            data.len() as int
        },
    )
}

/// Whether `count` is the number of pieces that `len` elements fall into
/// when they are cut into pieces of `size`.
pub open spec fn is_chunk_count(len: nat, size: nat, count: nat) -> bool {
    &&& count * size >= len
    &&& count > 0 ==> (count - 1) * size < len
}

/// Anything with a shape and flat data.
pub trait Arrayish {
    type Value: ArrayValue;

    /// The shape as a sequence.
    spec fn shape_view(&self) -> Seq<usize>;

    /// The data as a sequence.
    spec fn data_view(&self) -> Seq<Self::Value>;

    fn shape(&self) -> (dims: &[usize])
        ensures
            dims@ == self.shape_view(),
    ;

    fn data(&self) -> (elems: &[Self::Value])
        ensures
            elems@ == self.data_view(),
    ;

    /// The number of dimensions.
    fn rank(&self) -> (n: usize)
        ensures
            n == self.shape_view().len(),
    {
        self.shape().len()
    }

    /// The number of elements in storage.
    fn flat_len(&self) -> (n: usize)
        ensures
            n == self.data_view().len(),
    {
        self.data().len()
    }

    /// The number of elements in one row.
    fn row_len(&self) -> (n: usize)
        requires
            shape::row_len_of(self.shape_view()) <= usize::MAX,
        ensures
            n == shape::row_len_of(self.shape_view()),
    {
        let dims: &[usize] = self.shape();
        let rank: usize = dims.len();
        let rest = if rank == 0 {
            vstd::slice::slice_subrange(dims, 0, 0)
        } else {
            vstd::slice::slice_subrange(dims, 1, rank)
        };
        proof {
            assert(rest@ =~= shape::row_shape(self.shape_view()));
        }
        match shape::product_of(rest) {
            Some(p) => p,
            None => 0,
        }
    }

    /// The data cut into pieces of one row length each, in order. The last
    /// piece is shorter where the data do not divide evenly.
    fn rows(&self) -> (rows: Vec<&[Self::Value]>)
        requires
            0 < shape::row_len_of(self.shape_view()) <= usize::MAX,
        ensures
            is_chunk_count(
                self.data_view().len(),
                shape::row_len_of(self.shape_view()),
                rows@.len(),
            ),
            forall|i: int|
                0 <= i < rows@.len() ==> (#[trigger] rows@[i])@ == chunk(
                    self.data_view(),
                    shape::row_len_of(self.shape_view()),
                    i,
                ),
    {
        let size: usize = self.row_len();
        let elems: &[Self::Value] = self.data();
        let len: usize = elems.len();
        let mut rows: Vec<&[Self::Value]> = Vec::new();
        let mut start: usize = 0;
        proof {
            assert(rows@.len() * size == 0) by (nonlinear_arith)
                requires
                    rows@.len() == 0,
            ;
        }
        while start < len
            invariant
                size > 0,
                len == elems@.len(),
                start <= len,
                start < len ==> start == rows@.len() * size,
                start == len ==> is_chunk_count(len as nat, size as nat, rows@.len() as nat),
                forall|i: int|
                    0 <= i < rows@.len() ==> (#[trigger] rows@[i])@ == chunk(elems@, size as nat, i),
            decreases len - start,
        {
            let end: usize = if len - start < size {
                len
            } else {
                start + size
            };
            proof {
                let k = rows@.len() as int;
                let s = size as int;
                assert((k + 1) * s == k * s + s) by (nonlinear_arith);
                assert((k + 1) - 1 == k);
            }
            rows.push(vstd::slice::slice_subrange(elems, start, end));
            start = end;
        }
        rows
    }

}

/// Whether the shapes of `a` and `b` agree in every dimension that both
/// have.
pub fn shape_prefixes_match<A: Arrayish, B: Arrayish>(a: &A, b: &B) -> (m: bool)
    ensures
        m == prefixes_match(a.shape_view(), b.shape_view()),
{
    same_prefix(a.shape(), b.shape())
}

/// Whether `a` and `b` agree in every dimension that both have.
fn same_prefix(a: &[usize], b: &[usize]) -> (m: bool)
    ensures
        m == prefixes_match(a@, b@),
{
    let n: usize = if a.len() < b.len() {
        a.len()
    } else {
        b.len()
    };
    let mut i: usize = 0;
    while i < n
        invariant
            n <= a@.len(),
            n <= b@.len(),
            n == a@.len() || n == b@.len(),
            i <= n,
            forall|k: int| 0 <= k < i ==> a@[k] == b@[k],
        decreases n - i,
    {
        if a[i] != b[i] {
            return false;
        }
        i += 1;
    }
    true
}

impl<'a, A: Arrayish> Arrayish for &'a A {
    type Value = A::Value;

    open spec fn shape_view(&self) -> Seq<usize> {
        (**self).shape_view()
    }

    open spec fn data_view(&self) -> Seq<Self::Value> {
        (**self).data_view()
    }

    fn shape(&self) -> (dims: &[usize]) {
        A::shape(self)
    }

    fn data(&self) -> (elems: &[Self::Value]) {
        A::data(self)
    }
}

impl<T: ArrayValue> Arrayish for Array<T> {
    type Value = T;

    open spec fn shape_view(&self) -> Seq<usize> {
        self@.shape
    }

    open spec fn data_view(&self) -> Seq<T> {
        self@.data
    }

    fn shape(&self) -> (dims: &[usize]) {
        self.shape.as_slice()
    }

    fn data(&self) -> (elems: &[T]) {
        self.data.as_slice()
    }
}

impl<'a, T: ArrayValue> Arrayish for (&'a [usize], &'a [T]) {
    type Value = T;

    open spec fn shape_view(&self) -> Seq<usize> {
        self.0@
    }

    open spec fn data_view(&self) -> Seq<T> {
        self.1@
    }

    fn shape(&self) -> (dims: &[usize]) {
        self.0
    }

    fn data(&self) -> (elems: &[T]) {
        self.1
    }
}

impl<'a, T: ArrayValue> Arrayish for (&'a [usize], &'a mut [T]) {
    type Value = T;

    open spec fn shape_view(&self) -> Seq<usize> {
        self.0@
    }

    open spec fn data_view(&self) -> Seq<T> {
        self.1@
    }

    fn shape(&self) -> (dims: &[usize]) {
        self.0
    }

    fn data(&self) -> (elems: &[T]) {
        self.1
    }
}

/// A row view has the shape of its array without the leading dimension.
impl<'a, T: ArrayValue> Arrayish for Row<'a, T> {
    type Value = T;

    open spec fn shape_view(&self) -> Seq<usize> {
        shape::row_shape(self.array().shape)
    }

    open spec fn data_view(&self) -> Seq<T> {
        self@
    }

    fn shape(&self) -> (dims: &[usize]) {
        self.row_dims()
    }

    fn data(&self) -> (elems: &[T]) {
        self.as_ref()
    }
}

} // verus!
