//! Shapes: sequences of dimension sizes and their products.

use vstd::prelude::*;

verus! {

/// The product of all dimensions of `shape`. The empty shape has product 1.
pub open spec fn shape_product(shape: Seq<usize>) -> nat
    decreases shape.len(),
{
    if shape.len() == 0 {
        1
    } else {
        shape_product(shape.drop_last()) * (shape.last() as nat)
    }
}

/// The shape of one row: `shape` without its leading dimension. A scalar
/// shape has no leading dimension to lose and stays empty.
pub open spec fn row_shape(shape: Seq<usize>) -> Seq<usize> {
    if shape.len() == 0 {
        shape
    } else {
        shape.subrange(1, shape.len() as int)
    }
}

/// The number of rows: the leading dimension, or 1 for a scalar shape.
pub open spec fn row_count_of(shape: Seq<usize>) -> nat {
    if shape.len() == 0 {
        1
    } else {
        shape[0] as nat
    }
}

/// The number of elements in one row: the product of all dimensions but the
/// first.
pub open spec fn row_len_of(shape: Seq<usize>) -> nat {
    shape_product(row_shape(shape))
}

/// `shape` with a new leading dimension `n`.
pub open spec fn with_leading(n: usize, shape: Seq<usize>) -> Seq<usize> {
    seq![n] + shape
}

/// The product of a shape that ends in `d` is the product of the rest times `d`.
pub proof fn lemma_product_push(shape: Seq<usize>, d: usize)
    ensures
        shape_product(shape.push(d)) == shape_product(shape) * (d as nat),
{
    assert(shape.push(d).drop_last() =~= shape);
}

/// The product of a concatenation is the product of the products.
pub proof fn lemma_product_concat(a: Seq<usize>, b: Seq<usize>)
    ensures
        shape_product(a + b) == shape_product(a) * shape_product(b),
    decreases b.len(),
{
    if b.len() == 0 {
        assert(a + b =~= a);
        assert(shape_product(b) == 1);
        assert(shape_product(a) * 1 == shape_product(a));
    } else {
        lemma_product_concat(a, b.drop_last());
        assert((a + b).drop_last() =~= a + b.drop_last());
        assert((a + b).last() == b.last());
        let pa = shape_product(a) as int;
        let pb = shape_product(b.drop_last()) as int;
        let d = b.last() as int;
        assert(shape_product(a + b) == (pa * pb) * d);
        assert(shape_product(b) == pb * d);
        assert((pa * pb) * d == pa * (pb * d)) by (nonlinear_arith);
    }
}

/// The product of a one-dimensional shape is its only dimension.
pub proof fn lemma_product_single(d: usize)
    ensures
        shape_product(seq![d]) == d as nat,
{
    assert(seq![d].drop_last() =~= Seq::<usize>::empty());
    assert(shape_product(Seq::<usize>::empty()) == 1);
    assert(seq![d].last() == d);
    assert(shape_product(seq![d]) == 1 * (d as nat));
}

/// A shape's product is its row count times its row length.
pub proof fn lemma_product_rows(shape: Seq<usize>)
    ensures
        shape_product(shape) == row_count_of(shape) * row_len_of(shape),
{
    if shape.len() > 0 {
        assert(shape =~= seq![shape[0]] + row_shape(shape));
        lemma_product_concat(seq![shape[0]], row_shape(shape));
        lemma_product_single(shape[0]);
    } else {
        assert(shape_product(shape) == 1);
        assert(row_count_of(shape) * row_len_of(shape) == 1 * 1);
    }
}

/// A shape with a zero dimension has product zero.
pub proof fn lemma_product_zero(shape: Seq<usize>, k: int)
    requires
        0 <= k < shape.len(),
        shape[k] == 0,
    ensures
        shape_product(shape) == 0,
    decreases shape.len(),
{
    if k < shape.len() - 1 {
        lemma_product_zero(shape.drop_last(), k);
    }
    let p = shape_product(shape.drop_last()) as int;
    let d = shape.last() as int;
    assert(p == 0 || d == 0);
    assert(p * d == 0) by (nonlinear_arith)
        requires
            p == 0 || d == 0,
    ;
}

/// Without a zero dimension the product is positive, and the product of a
/// prefix never exceeds the product of the whole.
pub proof fn lemma_product_prefix(shape: Seq<usize>, n: int)
    requires
        0 <= n <= shape.len(),
        forall|k: int| 0 <= k < shape.len() ==> shape[k] > 0,
    ensures
        0 < shape_product(shape.take(n)) <= shape_product(shape),
    decreases shape.len() - n,
{
    if n == shape.len() {
        assert(shape.take(n) =~= shape);
        lemma_product_positive(shape);
    } else {
        lemma_product_prefix(shape, n + 1);
        assert(shape.take(n + 1).drop_last() =~= shape.take(n));
        let p = shape_product(shape.take(n)) as int;
        let d = shape[n] as int;
        assert(shape.take(n + 1).last() == shape[n]);
        assert(p <= p * d && (p * d > 0 ==> p > 0)) by (nonlinear_arith)
            requires
                p >= 0,
                d >= 1,
        ;
    }
}

/// Without a zero dimension the product is positive.
pub proof fn lemma_product_positive(shape: Seq<usize>)
    requires
        forall|k: int| 0 <= k < shape.len() ==> shape[k] > 0,
    ensures
        shape_product(shape) > 0,
    decreases shape.len(),
{
    if shape.len() > 0 {
        lemma_product_positive(shape.drop_last());
        let p = shape_product(shape.drop_last()) as int;
        let d = shape.last() as int;
        assert(p * d > 0) by (nonlinear_arith)
            requires
                p > 0,
                d > 0,
        ;
    }
}

/// The product of `dims`, or `None` when it does not fit in a `usize`.
pub fn product_of(dims: &[usize]) -> (r: Option<usize>)
    ensures
        match r {
            Some(p) => p == shape_product(dims@),
            None => shape_product(dims@) > usize::MAX,
        },
{
    let n: usize = dims.len();
    let mut i: usize = 0;
    while i < n
        invariant
            n == dims@.len(),
            i <= n,
            forall|k: int| 0 <= k < i ==> dims@[k] > 0,
        decreases n - i,
    {
        if dims[i] == 0 {
            proof {
                lemma_product_zero(dims@, i as int);
            }
            return Some(0);
        }
        i += 1;
    }
    let mut acc: usize = 1;
    let mut j: usize = 0;
    while j < n
        invariant
            n == dims@.len(),
            j <= n,
            forall|k: int| 0 <= k < n ==> dims@[k] > 0,
            acc == shape_product(dims@.take(j as int)),
        decreases n - j,
    {
        proof {
            assert(dims@.take(j + 1).drop_last() =~= dims@.take(j as int));
            assert(dims@.take(j + 1).last() == dims@[j as int]);
            lemma_product_prefix(dims@, j + 1);
        }
        match acc.checked_mul(dims[j]) {
            Some(next) => {
                acc = next;
            },
            None => {
                return None;
            },
        }
        j += 1;
    }
    proof {
        assert(dims@.take(n as int) =~= dims@);
    }
    Some(acc)
}

/// Whether `data` holds exactly as many elements as `shape` asks for.
pub fn validate_shape<T>(shape: &[usize], data: &[T]) -> (ok: bool)
    ensures
        ok == (shape_product(shape@) == data@.len()),
{
    let len: usize = data.len();
    match product_of(shape) {
        Some(p) => p == len,
        None => false,
    }
}

} // verus!
