//! Comparisons that do not look past padding: the order of arrays, and
//! equality and order against an array of another element kind.

use crate::array::Array;
use crate::model;
use crate::value::ArrayValue;
use std::cmp::Ordering;
use vstd::prelude::*;

verus! {

/// How two lengths compare.
pub(crate) fn length_order(a: usize, b: usize) -> (o: Ordering)
    ensures
        o == (if a < b {
            Ordering::Less
        } else if a == b {
            Ordering::Equal
        } else {
            Ordering::Greater
        }),
{
    if a < b {
        Ordering::Less
    } else if a == b {
        Ordering::Equal
    } else {
        Ordering::Greater
    }
}

/// How `a` and `b` compare element by element, with `tie` as the answer
/// where one of the two ends before a difference is met.
pub(crate) fn lex_cmp<T: ArrayValue>(a: &[T], b: &[T], tie: Ordering) -> (o: Ordering)
    ensures
        o == model::lex_order(a@, b@, 0, tie),
{
    let n: usize = if a.len() < b.len() {
        a.len()
    } else {
        b.len()
    };
    let mut i: usize = 0;
    let ghost mut done: int = 0;
    while i < n
        invariant
            n <= a@.len(),
            n <= b@.len(),
            n == a@.len() || n == b@.len(),
            i <= n,
            done == i,
            forall|k: int| 0 <= k < i ==> a@[k].order(&b@[k]) == Ordering::Equal,
        decreases n - i,
    {
        let o = a[i].cmp(&b[i]);
        match o {
            Ordering::Equal => {},
            _ => {
                proof {
                    model::lemma_lex_order_skip(a@, b@, 0, done, tie);
                }
                return o;
            },
        }
        i += 1;
        proof {
            done = done + 1;
        }
    }
    proof {
        model::lemma_lex_order_skip(a@, b@, 0, done, tie);
    }
    tie
}

impl<T: ArrayValue> Array<T> {
    /// The order of two arrays. Fill values count like any other value:
    /// the data are compared element by element in storage order, and on a
    /// full tie the array with fewer elements comes first.
    pub fn cmp(&self, other: &Self) -> (o: Ordering)
        ensures
            o == self@.order(other@),
    {
        let tie = length_order(self.data.len(), other.data.len());
        lex_cmp(self.data.as_slice(), other.data.as_slice(), tie)
    }

    /// Whether `self` equals `other` once each element of `other` is
    /// converted to the kind of `self`. Fill values count like any other
    /// value. The elements of `other` are converted one after another, and
    /// no further than the first that differs.
    pub fn val_eq<U: Into<T> + Clone>(&self, other: &Array<U>) -> (equal: bool)
        ensures
            exists|conv: Seq<T>|
                {
                    &&& #[trigger] model::converted(other@.data, conv)
                    &&& self@.equal_through(other@.shape, other@.data.len(), conv, equal)
                },
    {
        let ghost mut conv: Seq<T> = Seq::empty();
        if !(self.shape == other.shape && self.data.len() == other.data.len()) {
            proof {
                assert(model::converted(other@.data, conv));
            }
            return false;
        }
        proof {
            assert(self.shape@ =~= other.shape@);
        }
        let n: usize = self.data.len();
        let mut i: usize = 0;
        while i < n
            invariant
                n == self@.data.len(),
                n == other@.data.len(),
                self@.shape == other@.shape,
                i <= n,
                conv.len() == i,
                model::converted(other@.data, conv),
                model::same_values(self@.data, conv),
            decreases n - i,
        {
            let c: T = other.data[i].clone().into();
            proof {
                conv = conv.push(c);
            }
            if !self.data[i].eq(&c) {
                proof {
                    assert(model::converted(other@.data, conv));
                }
                return false;
            }
            i += 1;
        }
        proof {
            assert(model::converted(other@.data, conv));
        }
        true
    }

    /// How `self` compares with `other` once each element of `other` is
    /// converted to the kind of `self`, in the order of arrays. The
    /// elements of `other` are converted one after another, and no further
    /// than the first that differs.
    pub fn val_cmp<U: Into<T> + Clone>(&self, other: &Array<U>) -> (o: Ordering)
        ensures
            exists|conv: Seq<T>|
                {
                    &&& #[trigger] model::converted(other@.data, conv)
                    &&& self@.ordered_through(other@.data.len(), conv, o)
                },
    {
        let ghost mut conv: Seq<T> = Seq::empty();
        let tie = length_order(self.data.len(), other.data.len());
        let n: usize = if self.data.len() < other.data.len() {
            self.data.len()
        } else {
            other.data.len()
        };
        let mut i: usize = 0;
        let ghost mut done: int = 0;
        while i < n
            invariant
                n <= self@.data.len(),
                n <= other@.data.len(),
                n == self@.data.len() || n == other@.data.len(),
                i <= n,
                done == i,
                conv.len() == i,
                tie == model::length_order(self@.data.len(), other@.data.len()),
                model::converted(other@.data, conv),
                model::same_values(self@.data, conv),
            decreases n - i,
        {
            let c: T = other.data[i].clone().into();
            let o = self.data[i].cmp(&c);
            proof {
                model::lemma_lex_order_skip(self@.data, conv.push(c), 0, done, tie);
                conv = conv.push(c);
            }
            match o {
                Ordering::Equal => {},
                _ => {
                    proof {
                        assert(self@.data[done].order(&conv[done]) != Ordering::Equal);
                        assert(model::lex_order(self@.data, conv, done, tie) == o);
                        assert(model::converted(other@.data, conv));
                    }
                    return o;
                },
            }
            i += 1;
            proof {
                done = done + 1;
            }
        }
        proof {
            model::lemma_lex_order_skip(self@.data, conv, 0, done, tie);
            assert(model::converted(other@.data, conv));
        }
        tie
    }
}

/// Arrays are ordered as `cmp` orders them.
impl<T: ArrayValue> PartialOrd for Array<T> {
    fn partial_cmp(&self, other: &Self) -> (o: Option<Ordering>) {
        Some(self.cmp(other))
    }
}

impl<T: ArrayValue> vstd::std_specs::cmp::PartialOrdSpecImpl for Array<T> {
    open spec fn obeys_partial_cmp_spec() -> bool {
        true
    }

    open spec fn partial_cmp_spec(&self, other: &Self) -> Option<Ordering> {
        Some(self@.order(other@))
    }
}

} // verus!
