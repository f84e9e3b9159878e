//! Building the text of values: single characters and decimal numbers.

use vstd::prelude::*;

verus! {

/// The character that shows the digit `d`.
pub open spec fn digit(d: nat) -> char {
    if d == 0 {
        '0'
    } else if d == 1 {
        '1'
    } else if d == 2 {
        '2'
    } else if d == 3 {
        '3'
    } else if d == 4 {
        '4'
    } else if d == 5 {
        '5'
    } else if d == 6 {
        '6'
    } else if d == 7 {
        '7'
    } else if d == 8 {
        '8'
    } else {
        '9'
    }
}

/// The decimal numeral of `n`, most significant digit first, without
/// leading zeros.
pub open spec fn decimal(n: nat) -> Seq<char>
    decreases n,
{
    if n < 10 {
        seq![digit(n)]
    } else {
        decimal(n / 10).push(digit(n % 10))
    }
}

/// The digits of `tail`, least significant first, written after `head`.
pub open spec fn with_digits(head: Seq<char>, tail: Seq<char>) -> Seq<char> {
    head + tail.reverse()
}

fn digit_char(d: usize) -> (c: char)
    requires
        d < 10,
    ensures
        c == digit(d as nat),
{
    if d == 0 {
        '0'
    } else if d == 1 {
        '1'
    } else if d == 2 {
        '2'
    } else if d == 3 {
        '3'
    } else if d == 4 {
        '4'
    } else if d == 5 {
        '5'
    } else if d == 6 {
        '6'
    } else if d == 7 {
        '7'
    } else if d == 8 {
        '8'
    } else {
        '9'
    }
}

/// Appends one character to `out`. Wraps `String::push`, which adds the
/// character at the end and changes nothing else.
#[verifier::external_body]
pub(crate) fn push_char(out: &mut String, c: char)
    ensures
        final(out)@ == old(out)@.push(c),
{
    out.push(c)
}

/// Appends the decimal numeral of `n` to `out`.
pub fn push_decimal(out: &mut String, n: usize)
    ensures
        final(out)@ == old(out)@ + decimal(n as nat),
{
    let mut low: Vec<char> = Vec::new();
    let mut m: usize = n;
    while m >= 10
        invariant
            decimal(n as nat) == with_digits(decimal(m as nat), low@),
        decreases m,
    {
        let c = digit_char(m % 10);
        proof {
            let d = digit((m % 10) as nat);
            assert(low@.push(d).reverse() =~= seq![d] + low@.reverse());
            assert(decimal(m as nat) == decimal((m / 10) as nat).push(d));
            assert(with_digits(decimal((m / 10) as nat), low@.push(d)) =~= with_digits(
                decimal(m as nat),
                low@,
            ));
        }
        low.push(c);
        m = m / 10;
    }
    push_char(out, digit_char(m));
    let mut k: usize = low.len();
    while k > 0
        invariant
            k <= low@.len(),
            out@ == old(out)@ + seq![digit(m as nat)] + low@.reverse().take(low@.len() - k),
        decreases k,
    {
        k -= 1;
        proof {
            let r = low@.reverse();
            let i = low@.len() - k - 1;
            assert(r[i] == low@[k as int]);
            assert(r.take(i + 1) =~= r.take(i).push(r[i]));
        }
        push_char(out, low[k]);
    }
    proof {
        assert(low@.reverse().take(low@.len() as int) =~= low@.reverse());
        assert(decimal(m as nat) == seq![digit(m as nat)]);
        assert(out@ =~= old(out)@ + decimal(n as nat));
    }
}

} // verus!
