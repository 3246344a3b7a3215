//! Text building blocks: decimal rendering of integers and small string helpers
//! whose results are stated exactly over `Seq<char>`.

use vstd::prelude::*;

verus! {

/// The character of a single decimal digit.
pub open spec fn digit_char(d: nat) -> char {
    if d == 0 { '0' }
    else if d == 1 { '1' }
    else if d == 2 { '2' }
    else if d == 3 { '3' }
    else if d == 4 { '4' }
    else if d == 5 { '5' }
    else if d == 6 { '6' }
    else if d == 7 { '7' }
    else if d == 8 { '8' }
    else { '9' }
}

/// The decimal rendering of a natural number, most significant digit first.
pub open spec fn decimal(n: nat) -> Seq<char>
    decreases n,
{
    if n < 10 {
        seq![digit_char(n)]
    } else {
        decimal(n / 10).push(digit_char(n % 10))
    }
}

/// The decimal rendering of an integer, with a leading '-' when negative.
pub open spec fn signed_decimal(n: int) -> Seq<char> {
    if n < 0 {
        seq!['-'] + decimal((-n) as nat)
    } else {
        decimal(n as nat)
    }
}

/// Appends the decimal rendering of a signed `n` to `s`.
pub fn push_signed_decimal(s: &mut String, n: i64)
    ensures
        final(s)@ == old(s)@ + signed_decimal(n as int),
{
    if n < 0 {
        push_char(s, '-');
        let magnitude: u128 = (0i128 - n as i128) as u128;
        push_decimal(s, magnitude);
        assert(final(s)@ =~= old(s)@ + signed_decimal(n as int));
    } else {
        push_decimal(s, n as u128);
    }
}

/// Appends one character to a string (std's `String::push`).
#[verifier::external_body]
pub(crate) fn push_char(s: &mut String, c: char)
    ensures
        final(s)@ == old(s)@.push(c),
{
    s.push(c)
}

fn digit(d: u128) -> (c: char)
    requires
        d < 10,
    ensures
        c == digit_char(d as nat),
{
    match d {
        0 => '0',
        1 => '1',
        2 => '2',
        3 => '3',
        4 => '4',
        5 => '5',
        6 => '6',
        7 => '7',
        8 => '8',
        _ => '9',
    }
}

/// Appends the decimal rendering of `n` to `s`.
pub fn push_decimal(s: &mut String, n: u128)
    ensures
        final(s)@ == old(s)@ + decimal(n as nat),
{
    let mut rev: Vec<char> = Vec::new();
    let mut m: u128 = n;
    while m >= 10
        invariant
            decimal(n as nat) =~= decimal(m as nat) + rev@.reverse(),
        decreases m,
    {
        let d = digit(m % 10);
        proof {
            assert(rev@.push(d).reverse() =~= seq![d] + rev@.reverse());
        }
        rev.push(d);
        m = m / 10;
    }
    let d = digit(m);
    rev.push(d);
    proof {
        assert(rev@.reverse() =~= seq![d] + rev@.drop_last().reverse());
    }
    let ghost start = s@;
    let mut i: usize = rev.len();
    while i > 0
        invariant
            i <= rev@.len(),
            s@ =~= start + rev@.reverse().subrange(0, (rev@.len() - i) as int),
            decimal(n as nat) =~= rev@.reverse(),
        decreases i,
    {
        i = i - 1;
        push_char(s, rev[i]);
        proof {
            assert(rev@.reverse()[(rev@.len() - 1 - i) as int] == rev@[i as int]);
            assert(rev@.reverse().subrange(0, (rev@.len() - i) as int) =~= rev@.reverse().subrange(
                0,
                (rev@.len() - i - 1) as int,
            ).push(rev@[i as int]));
        }
    }
    assert(rev@.reverse().subrange(0, rev@.len() as int) =~= rev@.reverse());
}

/// The decimal rendering of `n` as a new string.
pub fn decimal_string(n: u128) -> (s: String)
    ensures
        s@ == decimal(n as nat),
{
    let mut s = String::new();
    push_decimal(&mut s, n);
    assert(Seq::<char>::empty() + decimal(n as nat) =~= decimal(n as nat));
    s
}

} // verus!
