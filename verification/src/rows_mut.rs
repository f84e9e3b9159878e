//! Rows that can be written to in place.

use crate::array::Array;
use crate::arrayish;
use crate::model;
use crate::shape;
use crate::value::ArrayValue;
use vstd::prelude::*;

verus! {

/// Cuts `data` into pieces of `size` elements that can be written to.
///
/// Wraps `<[T]>::chunks_mut`, which hands out the slice piece by piece from
/// the front, each piece `size` long but for the last, which holds what is
/// left; the pieces do not overlap, and what is written to a piece is
/// written to its place in the slice. It panics for a size of zero.
#[verifier::external_body]
fn chunks_mut<'a, T>(data: &'a mut [T], size: usize) -> (chunks: Vec<&'a mut [T]>)
    requires
        size > 0,
    ensures
        arrayish::is_chunk_count(old(data)@.len(), size as nat, chunks@.len()),
        forall|i: int|
            0 <= i < chunks@.len() ==> chunks@[i]@ == #[trigger] arrayish::chunk(
                old(data)@,
                size as nat,
                i,
            ),
        final(data)@.len() == old(data)@.len(),
        forall|i: int|
            0 <= i < chunks@.len() ==> final(chunks@[i])@ == #[trigger] arrayish::chunk(
                final(data)@,
                size as nat,
                i,
            ),
{
    data.chunks_mut(size).collect()
}

impl<T: ArrayValue> Array<T> {
    /// The rows as slices that can be written to, first row first. What is
    /// written to a row is written to the array; its shape and fill flag
    /// stay as they are.
    pub fn rows_mut(&mut self) -> (rows: Vec<&mut [T]>)
        requires
            old(self).wf(),
            0 < old(self)@.row_len() <= usize::MAX,
        ensures
            rows@.len() == old(self)@.row_count(),
            forall|i: int|
                0 <= i < rows@.len() ==> rows@[i]@ == #[trigger] old(self)@.row_data(i),
            final(self)@.shape == old(self)@.shape,
            final(self)@.fill == old(self)@.fill,
            final(self).wf(),
            forall|i: int|
                0 <= i < rows@.len() ==> final(rows@[i])@ == #[trigger] final(self)@.row_data(i),
    {
        let row_len: usize = self.row_len();
        let ghost before = self@;
        proof {
            shape::lemma_product_rows(before.shape);
        }
        let rows = chunks_mut(self.data.as_mut_slice(), row_len);
        proof {
            let n = before.row_count() as int;
            let k = rows@.len() as int;
            let l = row_len as int;
            assert(k == n) by (nonlinear_arith)
                requires
                    k * l >= n * l,
                    k > 0 ==> (k - 1) * l < n * l,
                    l > 0,
                    k >= 0,
                    n >= 0,
            ;
            assert forall|v: model::ArrayView<T>, i: int|
                v.wf() && 0 <= i < v.row_count() implies #[trigger] v.row_data(i)
                == arrayish::chunk(v.data, v.row_len(), i) by {
                model::lemma_row_bounds(v, i);
            }
        }
        rows
    }
}

} // verus!
