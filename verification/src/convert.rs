//! Making arrays from other values, and arrays of one element kind from
//! arrays of another.

use crate::array::Array;
use crate::model::ArrayView;
use crate::shape;
use crate::value::ArrayValue;
use vstd::prelude::*;
use vstd::string::StrSliceExecFns;

verus! {

broadcast use vstd::std_specs::vec::group_vec_axioms;

/// `line` followed by as many null characters as it takes to make it
/// `width` characters long.
pub open spec fn padded(line: Seq<char>, width: nat) -> Seq<char> {
    line + Seq::new((width - line.len()) as nat, |i: int| '\0')
}

/// Whether `width` is the length of the longest of `lines`, or zero where
/// there are none.
pub open spec fn is_widest(lines: Seq<String>, width: nat) -> bool {
    &&& forall|i: int| 0 <= i < lines.len() ==> (#[trigger] lines[i])@.len() <= width
    &&& lines.len() == 0 ==> width == 0
    &&& lines.len() > 0 ==> exists|i: int| 0 <= i < lines.len() && (#[trigger] lines[i])@.len() == width
}

impl<T: Clone> Clone for Array<T> {
    /// An array of the same shape and fill flag, over clones of the
    /// elements.
    fn clone(&self) -> (copy: Self)
        ensures
            copy@.shape == self@.shape,
            copy@.fill == self@.fill,
            copy@.data.len() == self@.data.len(),
            forall|i: int|
                0 <= i < self@.data.len() ==> cloned(self@.data[i], #[trigger] copy@.data[i]),
            self.wf() ==> copy.wf(),
    {
        Array { shape: self.shape.clone(), data: self.data.clone(), fill: self.fill }
    }
}

impl<T: ArrayValue> Array<T> {
    /// The array of the same shape and fill flag whose elements are those
    /// of `self`, converted one for one.
    pub fn convert<U>(self) -> (out: Array<U>) where T: Into<U>
        ensures
            out@.shape == self@.shape,
            out@.fill == self@.fill,
            out@.data.len() == self@.data.len(),
            forall|i: int|
                0 <= i < self@.data.len() ==> call_ensures(
                    T::into,
                    (self@.data[i],),
                    #[trigger] out@.data[i],
                ),
            <T as vstd::std_specs::convert::IntoSpec<U>>::obeys_into_spec() ==> out@.data
                == self@.data.map_values(
                |x: T| vstd::std_specs::convert::IntoSpec::<U>::into_spec(x),
            ),
            self.wf() ==> out.wf(),
    {
        let ghost old_data = self@.data;
        let mut data: Vec<U> = Vec::new();
        for x in it: self.data
            invariant
                it.seq() == old_data,
                data@.len() == it.index(),
                forall|i: int|
                    0 <= i < data@.len() ==> call_ensures(
                        T::into,
                        (old_data[i],),
                        #[trigger] data@[i],
                    ),
        {
            data.push(x.into());
        }
        proof {
            if <T as vstd::std_specs::convert::IntoSpec<U>>::obeys_into_spec() {
                assert(data@ =~= old_data.map_values(|x: T| vstd::std_specs::convert::IntoSpec::<U>::into_spec(x)));
            }
        }
        Array { shape: self.shape, data, fill: self.fill }
    }

    /// The array that rows of `self` are folded into: a scalar gives a clone
    /// of itself, any other array one with the shape of its rows and no
    /// elements.
    pub fn empty_row(&self) -> (row: Self)
        ensures
            self@.rank() == 0 ==> {
                &&& row@.shape == self@.shape
                &&& row@.fill == self@.fill
                &&& row@.data.len() == self@.data.len()
                &&& forall|i: int|
                    0 <= i < self@.data.len() ==> cloned(self@.data[i], #[trigger] row@.data[i])
            },
            self@.rank() > 0 ==> row@ == (ArrayView {
                shape: shape::row_shape(self@.shape),
                data: Seq::<T>::empty(),
                fill: T::DEFAULT_FILL,
            }),
    {
        let rank: usize = self.shape.len();
        if rank == 0 {
            return self.clone();
        }
        let dims: Vec<usize> = vstd::slice::slice_to_vec(
            vstd::slice::slice_subrange(self.shape.as_slice(), 1, rank),
        );
        Array { shape: dims, data: Vec::new(), fill: T::DEFAULT_FILL }
    }
}

/// A value as a scalar array.
impl<T: ArrayValue> From<T> for Array<T> {
    fn from(data: T) -> (a: Self)
        ensures
            a@ == (ArrayView {
                shape: Seq::<usize>::empty(),
                data: seq![data],
                fill: T::DEFAULT_FILL,
            }),
            a.wf(),
    {
        Array::unit(data)
    }
}

impl<T: ArrayValue> vstd::std_specs::convert::FromSpecImpl<T> for Array<T> {
    open spec fn obeys_from_spec() -> bool {
        false
    }

    open spec fn from_spec(data: T) -> Self {
        arbitrary()
    }
}

/// A shape and elements as an array. The array is well-formed if there are
/// as many elements as the shape asks for.
impl<T: ArrayValue> From<(Vec<usize>, Vec<T>)> for Array<T> {
    fn from(parts: (Vec<usize>, Vec<T>)) -> (a: Self)
        ensures
            a@ == (ArrayView { shape: parts.0@, data: parts.1@, fill: T::DEFAULT_FILL }),
    {
        Array { shape: parts.0, data: parts.1, fill: T::DEFAULT_FILL }
    }
}

impl<T: ArrayValue> vstd::std_specs::convert::FromSpecImpl<(Vec<usize>, Vec<T>)> for Array<T> {
    open spec fn obeys_from_spec() -> bool {
        false
    }

    open spec fn from_spec(parts: (Vec<usize>, Vec<T>)) -> Self {
        arbitrary()
    }
}

/// A sequence of elements as a list.
impl<T: ArrayValue> From<Vec<T>> for Array<T> {
    fn from(data: Vec<T>) -> (a: Self)
        ensures
            a@.shape.len() == 1,
            a@.shape[0] == data@.len(),
            a@.data == data@,
            a@.fill == T::DEFAULT_FILL,
            a.wf(),
    {
        let len: usize = data.len();
        let dims: Vec<usize> = vec![len];
        proof {
            assert(dims@ =~= seq![len]);
            shape::lemma_product_single(len);
        }
        Array::new(dims, data)
    }
}

impl<T: ArrayValue> vstd::std_specs::convert::FromSpecImpl<Vec<T>> for Array<T> {
    open spec fn obeys_from_spec() -> bool {
        false
    }

    open spec fn from_spec(data: Vec<T>) -> Self {
        arbitrary()
    }
}

/// Appends the characters of `s` to `out`.
fn push_chars(out: &mut Vec<char>, s: &str)
    ensures
        final(out)@ == old(out)@ + s@,
{
    for c in it: s.chars()
        invariant
            it.seq() == s@,
            out@ == old(out)@ + s@.take(it.index()),
    {
        proof {
            assert(s@.take(it.index() + 1) =~= s@.take(it.index()).push(c));
        }
        out.push(c);
    }
    proof {
        assert(s@.take(s@.len() as int) =~= s@);
    }
}

/// A string as a list of its characters.
impl From<String> for Array<char> {
    fn from(s: String) -> (a: Self)
        ensures
            a@.shape.len() == 1,
            a@.shape[0] == s@.len(),
            a@.data == s@,
            a@.fill == char::DEFAULT_FILL,
            a.wf(),
    {
        let mut data: Vec<char> = Vec::new();
        push_chars(&mut data, s.as_str());
        proof {
            assert(data@ =~= s@);
        }
        Array::from(data)
    }
}

impl vstd::std_specs::convert::FromSpecImpl<String> for Array<char> {
    open spec fn obeys_from_spec() -> bool {
        false
    }

    open spec fn from_spec(s: String) -> Self {
        arbitrary()
    }
}

impl Array<char> {
    /// Lines of text as a table of characters: one row for each line, as
    /// wide as the longest line, with every shorter line padded with null
    /// characters.
    pub fn from_lines(lines: Vec<String>) -> (a: Self)
        ensures
            a.wf(),
            a@.fill == char::DEFAULT_FILL,
            a@.shape.len() == 2,
            a@.shape[0] == lines@.len(),
            is_widest(lines@, a@.shape[1] as nat),
            forall|i: int|
                0 <= i < lines@.len() ==> #[trigger] a@.row_data(i) == padded(
                    lines@[i]@,
                    a@.shape[1] as nat,
                ),
    {
        let count: usize = lines.len();
        let mut width: usize = 0;
        let mut i: usize = 0;
        while i < count
            invariant
                count == lines@.len(),
                i <= count,
                is_widest(lines@.take(i as int), width as nat),
            decreases count - i,
        {
            let len: usize = lines[i].as_str().unicode_len();
            proof {
                let before = lines@.take(i as int);
                let after = lines@.take(i + 1);
                assert(forall|k: int| 0 <= k < i ==> after[k] == before[k]);
                assert(after[i as int] == lines@[i as int]);
                if len > width {
                    assert(after[i as int]@.len() == len);
                } else if i > 0 {
                    let w = choose|k: int| 0 <= k < before.len() && (#[trigger] before[k])@.len() == width;
                    assert(after[w]@.len() == width);
                } else {
                    assert(after[0]@.len() == width);
                }
            }
            if len > width {
                width = len;
            }
            i += 1;
        }
        proof {
            assert(lines@.take(count as int) =~= lines@);
        }
        let mut data: Vec<char> = Vec::new();
        let mut r: usize = 0;
        while r < count
            invariant
                count == lines@.len(),
                r <= count,
                is_widest(lines@, width as nat),
                data@.len() == r * width,
                forall|k: int|
                    0 <= k < r ==> #[trigger] data@.subrange(k * width, (k + 1) * width) == padded(
                        lines@[k]@,
                        width as nat,
                    ),
            decreases count - r,
        {
            let ghost before = data@;
            let ghost line = lines@[r as int]@;
            push_chars(&mut data, lines[r].as_str());
            let mut pad: usize = lines[r].as_str().unicode_len();
            while pad < width
                invariant
                    line.len() <= pad <= width,
                    data@ == before + line + Seq::new((pad - line.len()) as nat, |i: int| '\0'),
                decreases width - pad,
            {
                proof {
                    assert(Seq::new((pad + 1 - line.len()) as nat, |i: int| '\0') =~= Seq::new(
                        (pad - line.len()) as nat,
                        |i: int| '\0',
                    ).push('\0'));
                }
                data.push('\0');
                pad += 1;
            }
            proof {
                let w = width as int;
                let rr = r as int;
                assert((rr + 1) * w == rr * w + w) by (nonlinear_arith);
                assert(data@ =~= before + padded(line, width as nat));
                assert(data@.subrange(rr * w, (rr + 1) * w) =~= padded(line, width as nat));
                assert forall|k: int| 0 <= k < r implies #[trigger] data@.subrange(
                    k * w,
                    (k + 1) * w,
                ) == padded(lines@[k]@, width as nat) by {
                    assert(0 <= k * w && (k + 1) * w <= rr * w && (k + 1) * w == k * w + w)
                        by (nonlinear_arith)
                        requires
                            0 <= k < rr,
                            0 <= w,
                    ;
                    assert(data@.subrange(k * w, (k + 1) * w) =~= before.subrange(
                        k * w,
                        (k + 1) * w,
                    ));
                }
            }
            r += 1;
        }
        let mut dims: Vec<usize> = Vec::new();
        dims.push(count);
        dims.push(width);
        proof {
            assert(dims@ =~= seq![count].push(width));
            shape::lemma_product_push(seq![count], width);
            shape::lemma_product_single(count);
            assert(shape::row_shape(dims@) =~= seq![width]);
            shape::lemma_product_single(width);
        }
        Array::new(dims, data)
    }
}

} // verus!
