//! The contract every element kind fulfils, and the kinds defined here:
//! characters and bytes.

use crate::text;
use std::cmp::Ordering;
use vstd::prelude::*;

verus! {

/// The ordering seen from the other side.
pub open spec fn flipped(o: Ordering) -> Ordering {
    match o {
        Ordering::Less => Ordering::Greater,
        Ordering::Equal => Ordering::Equal,
        Ordering::Greater => Ordering::Less,
    }
}

/// Whether the order of the kind `T` is total: comparing the other way
/// round gives the opposite answer, so that every value is equal to itself,
/// and not-greater is transitive.
pub open spec fn is_total_order<T: ArrayValue>() -> bool {
    &&& forall|a: T, b: T| #[trigger] b.order(&a) == flipped(a.order(&b))
    &&& forall|a: T, b: T, c: T|
        #[trigger] a.order(&b) != Ordering::Greater && #[trigger] b.order(&c) != Ordering::Greater
            ==> a.order(&c) != Ordering::Greater
}

/// What an array needs from the values it stores: a total order, a reserved
/// fill value that pads ragged rows, and a way to show a value as text.
///
/// The spec functions say what the methods compute. A kind that is declared
/// in verified code defines them, and its methods are proved against them.
/// A kind that is declared elsewhere leaves them undefined; what is proved
/// of its arrays then holds as far as its methods are functions of their
/// arguments.
pub trait ArrayValue: Clone + Sized {
    /// The name of the kind.
    const NAME: &'static str;

    /// Whether a newly made array of this kind is taken to hold padding.
    const DEFAULT_FILL: bool = false;

    /// How `self` compares with `other` in the kind's total order.
    open spec fn order(&self, other: &Self) -> Ordering {
        arbitrary()
    }

    /// Whether `self` is the kind's fill value.
    open spec fn is_fill(&self) -> bool {
        arbitrary()
    }

    /// The text that shows `self`.
    open spec fn rendered(&self) -> Seq<char> {
        arbitrary()
    }

    /// The text before and after a list of values of this kind.
    open spec fn delims() -> (Seq<char>, Seq<char>) {
        arbitrary()
    }

    /// The text between two neighbours in a list of values of this kind.
    open spec fn separator() -> Seq<char> {
        arbitrary()
    }

    /// How `self` compares with `other`. Every pair of values has an
    /// answer, also a pair with a fill value in it.
    fn cmp(&self, other: &Self) -> (o: Ordering)
        ensures
            o == self.order(other),
    ;

    /// The fill value of the kind.
    fn fill_value() -> (v: Self)
        ensures
            v.is_fill(),
    ;

    /// Whether `self` and `other` compare as equal.
    fn eq(&self, other: &Self) -> (b: bool)
        ensures
            b == (self.order(other) == Ordering::Equal),
    {
        match self.cmp(other) {
            Ordering::Equal => true,
            _ => false,
        }
    }

    /// The text before and after a list of values of this kind.
    fn format_delims() -> (d: (&'static str, &'static str))
        ensures
            d.0@ == Self::delims().0,
            d.1@ == Self::delims().1,
    ;

    /// The text between two neighbours in a list of values of this kind.
    fn format_sep() -> (s: &'static str)
        ensures
            s@ == Self::separator(),
    ;

    /// Whether `self` is the fill value of the kind.
    fn is_fill_value(&self) -> (b: bool)
        ensures
            b == self.is_fill(),
    ;

    /// The text that shows `self`, as a string.
    fn render(&self) -> (s: String)
        ensures
            s@ == self.rendered(),
    ;
}

/// How two numbers compare.
pub open spec fn int_order(a: int, b: int) -> Ordering {
    if a < b {
        Ordering::Less
    } else if a == b {
        Ordering::Equal
    } else {
        Ordering::Greater
    }
}

/// Characters are ordered by code point; the null character is the fill
/// value. A list of characters is shown as a bare run.
impl ArrayValue for char {
    const NAME: &'static str = "character";

    const DEFAULT_FILL: bool = true;

    open spec fn order(&self, other: &Self) -> Ordering {
        if *self < *other {
            Ordering::Less
        } else if *self == *other {
            Ordering::Equal
        } else {
            Ordering::Greater
        }
    }

    open spec fn is_fill(&self) -> bool {
        *self == '\0'
    }

    open spec fn rendered(&self) -> Seq<char> {
        seq![*self]
    }

    open spec fn delims() -> (Seq<char>, Seq<char>) {
        (Seq::empty(), Seq::empty())
    }

    open spec fn separator() -> Seq<char> {
        Seq::empty()
    }

    fn cmp(&self, other: &Self) -> (o: Ordering) {
        if *self < *other {
            Ordering::Less
        } else if *self == *other {
            Ordering::Equal
        } else {
            Ordering::Greater
        }
    }

    fn fill_value() -> (v: Self)
        ensures
            v == '\0',
    {
        '\0'
    }

    fn format_delims() -> (d: (&'static str, &'static str)) {
        proof {
            reveal_strlit("");
        }
        ("", "")
    }

    fn format_sep() -> (s: &'static str) {
        proof {
            reveal_strlit("");
        }
        ""
    }

    fn is_fill_value(&self) -> (b: bool) {
        *self == '\0'
    }

    fn render(&self) -> (s: String) {
        let mut s = String::new();
        text::push_char(&mut s, *self);
        s
    }
}

/// A small integer, or the fill value that stands for none.
#[derive(Clone, Copy, Debug, PartialEq, Eq, PartialOrd, Ord, Hash, Structural)]
pub enum Byte {
    Value(u8),
    Fill,
}

impl Byte {
    /// The place of the byte in the order: its number, with the fill value
    /// after all numbers.
    pub open spec fn rank(self) -> int {
        match self {
            Byte::Value(v) => v as int,
            Byte::Fill => 256,
        }
    }
}

impl From<u8> for Byte {
    fn from(v: u8) -> (b: Byte) {
        Byte::Value(v)
    }
}

impl vstd::std_specs::convert::FromSpecImpl<u8> for Byte {
    open spec fn obeys_from_spec() -> bool {
        true
    }

    open spec fn from_spec(v: u8) -> Byte {
        Byte::Value(v)
    }
}

/// Bytes are ordered by number, with the fill value last. A number is shown
/// in decimal and the fill value as an underscore; a list of bytes is
/// bracketed and space-separated.
impl ArrayValue for Byte {
    const NAME: &'static str = "byte";

    open spec fn order(&self, other: &Self) -> Ordering {
        int_order(self.rank(), other.rank())
    }

    open spec fn is_fill(&self) -> bool {
        *self == Byte::Fill
    }

    open spec fn rendered(&self) -> Seq<char> {
        match *self {
            Byte::Value(v) => text::decimal(v as nat),
            Byte::Fill => seq!['_'],
        }
    }

    open spec fn delims() -> (Seq<char>, Seq<char>) {
        (seq!['['], seq![']'])
    }

    open spec fn separator() -> Seq<char> {
        seq![' ']
    }

    fn cmp(&self, other: &Self) -> (o: Ordering) {
        match (*self, *other) {
            (Byte::Value(a), Byte::Value(b)) => {
                if a < b {
                    Ordering::Less
                } else if a == b {
                    Ordering::Equal
                } else {
                    Ordering::Greater
                }
            },
            (Byte::Value(_), Byte::Fill) => Ordering::Less,
            (Byte::Fill, Byte::Value(_)) => Ordering::Greater,
            (Byte::Fill, Byte::Fill) => Ordering::Equal,
        }
    }

    fn fill_value() -> (v: Self)
        ensures
            v == Byte::Fill,
    {
        Byte::Fill
    }

    fn format_delims() -> (d: (&'static str, &'static str)) {
        proof {
            reveal_strlit("[");
            reveal_strlit("]");
        }
        ("[", "]")
    }

    fn format_sep() -> (s: &'static str) {
        proof {
            reveal_strlit(" ");
        }
        " "
    }

    fn is_fill_value(&self) -> (b: bool) {
        match *self {
            Byte::Fill => true,
            Byte::Value(_) => false,
        }
    }

    fn render(&self) -> (s: String) {
        let mut s = String::new();
        match *self {
            Byte::Value(v) => {
                text::push_decimal(&mut s, v as usize);
            },
            Byte::Fill => {
                text::push_char(&mut s, '_');
            },
        }
        s
    }
}

/// Characters and bytes are totally ordered.
pub proof fn lemma_total_orders()
    ensures
        is_total_order::<char>(),
        is_total_order::<Byte>(),
{
}

/// New arrays of characters count as filled, new arrays of bytes do not.
pub proof fn lemma_default_fill()
    ensures
        char::DEFAULT_FILL,
        !Byte::DEFAULT_FILL,
{
}

} // verus!
