//! The text of an array.

use crate::array::Array;
use crate::model::ArrayView;
use crate::text;
use crate::value::ArrayValue;
use vstd::prelude::*;
use vstd::string::StringExecFns;

verus! {

/// The texts of `items` with `sep` between each two neighbours.
pub open spec fn joined<T: ArrayValue>(items: Seq<T>, sep: Seq<char>) -> Seq<char>
    decreases items.len(),
{
    if items.len() == 0 {
        Seq::empty()
    } else if items.len() == 1 {
        items[0].rendered()
    } else {
        joined(items.drop_last(), sep) + sep + items.last().rendered()
    }
}

/// The decimal numerals of `dims` with a space between each two
/// neighbours.
pub open spec fn joined_dims(dims: Seq<usize>) -> Seq<char>
    decreases dims.len(),
{
    if dims.len() == 0 {
        Seq::empty()
    } else if dims.len() == 1 {
        text::decimal(dims[0] as nat)
    } else {
        joined_dims(dims.drop_last()) + seq![' '] + text::decimal(dims.last() as nat)
    }
}

/// The texts of `items`, each after a space.
pub open spec fn spaced<T: ArrayValue>(items: Seq<T>) -> Seq<char>
    decreases items.len(),
{
    if items.len() == 0 {
        Seq::empty()
    } else {
        spaced(items.drop_last()) + seq![' '] + items.last().rendered()
    }
}

impl<T: ArrayValue> ArrayView<T> {
    /// The text of the array. A scalar is shown as its element alone. A
    /// list is shown as its elements between the delimiters of their kind,
    /// with the kind's separator between neighbours. An array of higher
    /// rank is shown in brackets: its dimensions with spaces between them,
    /// a comma, and every element after a space.
    pub open spec fn rendered(self) -> Seq<char> {
        if self.rank() == 0 {
            self.data[0].rendered()
        } else if self.rank() == 1 {
            T::delims().0 + joined(self.data, T::separator()) + T::delims().1
        } else {
            seq!['['] + joined_dims(self.shape) + seq![','] + spaced(self.data) + seq![']']
        }
    }
}

impl<T: ArrayValue> Array<T> {
    /// The text of the array.
    pub fn to_string(&self) -> (s: String)
        requires
            self@.rank() == 0 ==> self@.data.len() > 0,
        ensures
            s@ == self@.rendered(),
    {
        let mut out = String::new();
        let rank: usize = self.shape.len();
        let len: usize = self.data.len();
        if rank == 0 {
            let item = self.data[0].render();
            out.append(item.as_str());
            proof {
                assert(out@ =~= self@.rendered());
            }
        } else if rank == 1 {
            let delims = T::format_delims();
            let sep = T::format_sep();
            out.append(delims.0);
            let ghost open = out@;
            let mut i: usize = 0;
            while i < len
                invariant
                    len == self@.data.len(),
                    i <= len,
                    open == T::delims().0,
                    sep@ == T::separator(),
                    out@ == open + joined(self@.data.take(i as int), T::separator()),
                decreases len - i,
            {
                let item = self.data[i].render();
                proof {
                    let next = self@.data.take(i + 1);
                    assert(next.drop_last() =~= self@.data.take(i as int));
                    assert(next.last() == self@.data[i as int]);
                }
                if i > 0 {
                    out.append(sep);
                }
                out.append(item.as_str());
                proof {
                    assert(out@ =~= open + joined(self@.data.take(i + 1), T::separator()));
                }
                i += 1;
            }
            out.append(delims.1);
            proof {
                assert(self@.data.take(len as int) =~= self@.data);
            }
        } else {
            text::push_char(&mut out, '[');
            let mut d: usize = 0;
            while d < rank
                invariant
                    rank == self@.shape.len(),
                    d <= rank,
                    out@ == seq!['['] + joined_dims(self@.shape.take(d as int)),
                decreases rank - d,
            {
                proof {
                    let next = self@.shape.take(d + 1);
                    assert(next.drop_last() =~= self@.shape.take(d as int));
                    assert(next.last() == self@.shape[d as int]);
                }
                if d > 0 {
                    text::push_char(&mut out, ' ');
                }
                text::push_decimal(&mut out, self.shape[d]);
                proof {
                    assert(out@ =~= seq!['['] + joined_dims(self@.shape.take(d + 1)));
                }
                d += 1;
            }
            text::push_char(&mut out, ',');
            proof {
                assert(self@.shape.take(rank as int) =~= self@.shape);
            }
            let ghost head = out@;
            let mut i: usize = 0;
            while i < len
                invariant
                    len == self@.data.len(),
                    i <= len,
                    out@ == head + spaced(self@.data.take(i as int)),
                decreases len - i,
            {
                let item = self.data[i].render();
                proof {
                    let next = self@.data.take(i + 1);
                    assert(next.drop_last() =~= self@.data.take(i as int));
                    assert(next.last() == self@.data[i as int]);
                }
                text::push_char(&mut out, ' ');
                out.append(item.as_str());
                proof {
                    assert(out@ =~= head + spaced(self@.data.take(i + 1)));
                }
                i += 1;
            }
            text::push_char(&mut out, ']');
            proof {
                assert(self@.data.take(len as int) =~= self@.data);
                assert(out@ =~= self@.rendered());
            }
        }
        out
    }
}

} // verus!
