//! Fill values: the logical length of a padded list, the removal of padding
//! rows, and the equality that looks past padding.

use crate::array::Array;
use crate::model;
use crate::shape;
use crate::value::ArrayValue;
use std::cmp::Ordering;
use vstd::prelude::*;

verus! {

/// The end of the run of fill values, or of other values, that starts at
/// `from`.
fn scan_run<T: ArrayValue>(elems: &[T], from: usize, fill: bool) -> (end: usize)
    requires
        from <= elems@.len(),
    ensures
        end == model::run_end(elems@, from as int, fill),
        from <= end <= elems@.len(),
{
    let n: usize = elems.len();
    let mut i: usize = from;
    while i < n && elems[i].is_fill_value() == fill
        invariant
            n == elems@.len(),
            from <= i <= n,
            model::run_end(elems@, from as int, fill) == model::run_end(elems@, i as int, fill),
        decreases n - i,
    {
        i += 1;
    }
    i
}

/// Whether `elems` holds fill values only.
fn is_all_fill<T: ArrayValue>(elems: &[T]) -> (all: bool)
    ensures
        all == model::all_fill(elems@),
{
    let n: usize = elems.len();
    let mut i: usize = 0;
    while i < n
        invariant
            n == elems@.len(),
            i <= n,
            forall|j: int| 0 <= j < i ==> elems@[j].is_fill(),
        decreases n - i,
    {
        if !elems[i].is_fill_value() {
            return false;
        }
        i += 1;
    }
    true
}

impl<T: ArrayValue> Array<T> {
    /// The logical length: for a list, the number of elements before the
    /// first fill value; for any other rank, the number of rows.
    pub fn len(&self) -> (n: usize)
        ensures
            n == self@.len(),
    {
        if self.shape.len() == 1 {
            scan_run(self.data.as_slice(), 0, false)
        } else {
            self.row_count()
        }
    }

    /// Removes the trailing rows that hold fill values only. Nothing
    /// happens to an array that is not marked as filled, or to a scalar.
    pub fn truncate(&mut self)
        requires
            old(self).wf(),
        ensures
            final(self)@ == old(self)@.truncated(),
            final(self).wf(),
    {
        let ghost before = self@;
        proof {
            model::lemma_truncate_idempotent(before);
        }
        if !self.fill || self.shape.len() == 0 {
            return;
        }
        let row_count: usize = self.row_count();
        if row_count == 0 {
            proof {
                shape::lemma_product_rows(before.shape);
                assert(before.shape.update(0, 0usize) =~= before.shape);
                assert(before.data.take(0) =~= before.data);
            }
            return;
        }
        proof {
            self.lemma_row_len_fits();
            shape::lemma_product_rows(before.shape);
        }
        let row_len: usize = self.row_len();
        let mut new_len: usize = row_count;
        while new_len > 0
            invariant_except_break
                before.kept_rows(row_count as int) == before.kept_rows(new_len as int),
            invariant
                self@ == before,
                before.wf(),
                row_count == before.row_count(),
                0 <= new_len <= row_count,
            ensures
                new_len == before.kept_rows(row_count as int),
            decreases new_len,
        {
            if is_all_fill(self.row(new_len - 1)) {
                new_len -= 1;
            } else {
                break;
            }
        }
        proof {
            let kept = new_len as int;
            let n = row_count as int;
            let l = row_len as int;
            assert(0 <= kept * l <= n * l) by (nonlinear_arith)
                requires
                    0 <= kept <= n,
                    0 <= l,
            ;
        }
        self.data.truncate(new_len * row_len);
        self.shape[0] = new_len;
    }
}

/// Whether `a` and `b` hold equal values at every index that both have.
pub(crate) fn values_agree<T: ArrayValue>(a: &[T], b: &[T]) -> (agree: bool)
    ensures
        agree == model::same_values(a@, b@),
{
    let n: usize = if a.len() < b.len() {
        a.len()
    } else {
        b.len()
    };
    let mut i: usize = 0;
    while i < n
        invariant
            n <= a@.len(),
            n <= b@.len(),
            n == a@.len() || n == b@.len(),
            i <= n,
            forall|k: int| 0 <= k < i ==> a@[k].order(&b@[k]) == Ordering::Equal,
        decreases n - i,
    {
        match a[i].cmp(&b[i]) {
            Ordering::Equal => {},
            _ => {
                return false;
            },
        }
        i += 1;
    }
    true
}

/// Two arrays are equal when their shapes and flat lengths are the same and
/// their data agree once padding is set aside: in each, a leading run of
/// fill values is skipped and the values after it are taken up to the next
/// fill value; these two runs are compared value by value as far as the
/// shorter goes.
impl<T: ArrayValue> PartialEq for Array<T> {
    fn eq(&self, other: &Self) -> (equal: bool) {
        if !(self.shape == other.shape && self.data.len() == other.data.len()) {
            return false;
        }
        let a: &[T] = self.data.as_slice();
        let b: &[T] = other.data.as_slice();
        let a_start: usize = scan_run(a, 0, true);
        let a_end: usize = scan_run(a, a_start, false);
        let b_start: usize = scan_run(b, 0, true);
        let b_end: usize = scan_run(b, b_start, false);
        proof {
            assert(self.shape@ =~= other.shape@);
        }
        values_agree(
            vstd::slice::slice_subrange(a, a_start, a_end),
            vstd::slice::slice_subrange(b, b_start, b_end),
        )
    }
}

impl<T: ArrayValue> vstd::std_specs::cmp::PartialEqSpecImpl for Array<T> {
    open spec fn obeys_eq_spec() -> bool {
        true
    }

    open spec fn eq_spec(&self, other: &Self) -> bool {
        self@.fill_eq(other@)
    }
}

impl<T: ArrayValue> Eq for Array<T> {

}

} // verus!
