//! Decimal text of numbers, built character by character.
use vstd::prelude::*;

verus! {

/// Relies on `String::push`: the character is appended at the end.
#[verifier::external_body]
pub(crate) fn push_char(s: &mut String, c: char)
    ensures
        final(s)@ == old(s)@.push(c),
{
    s.push(c)
}

/// The character of a decimal digit.
pub open spec fn digit_char(d: nat) -> char {
    if d == 0 {
        '0'
    } else if d == 1 {
        '1'
    } else if d == 2 {
        '2'
    } else if d == 3 {
        '3'
    } else if d == 4 {
        '4'
    } else if d == 5 {
        '5'
    } else if d == 6 {
        '6'
    } else if d == 7 {
        '7'
    } else if d == 8 {
        '8'
    } else {
        '9'
    }
}

/// Decimal text of a natural number, without leading zeros.
pub open spec fn nat_text(n: nat) -> Seq<char>
    decreases n,
{
    if n < 10 {
        seq![digit_char(n)]
    } else {
        nat_text(n / 10).push(digit_char(n % 10))
    }
}

/// The last `k` decimal digits of `f`, padded with zeros on the left.
pub open spec fn fixed_digits(f: nat, k: nat) -> Seq<char>
    decreases k,
{
    if k == 0 {
        Seq::empty()
    } else {
        fixed_digits(f / 10, (k - 1) as nat).push(digit_char(f % 10))
    }
}

/// The text with its trailing zero digits removed.
pub open spec fn trim_zeros(t: Seq<char>) -> Seq<char>
    decreases t.len(),
{
    if t.len() > 0 && t.last() == '0' {
        trim_zeros(t.drop_last())
    } else {
        t
    }
}

pub fn digit_of(d: u64) -> (c: char)
    requires
        d < 10,
    ensures
        c == digit_char(d as nat),
{
    match d {
        0 => '0',
        1 => '1',
        2 => '2',
        3 => '3',
        4 => '4',
        5 => '5',
        6 => '6',
        7 => '7',
        8 => '8',
        _ => '9',
    }
}

/// Appends the decimal text of `n`.
pub fn push_nat(s: &mut String, n: u64)
    ensures
        final(s)@ == old(s)@ + nat_text(n as nat),
    decreases n,
{
    if n >= 10 {
        push_nat(s, n / 10);
    }
    push_char(s, digit_of(n % 10));
    assert(s@ =~= old(s)@ + nat_text(n as nat));
}

/// Appends the last `k` digits of `f`, padded with zeros.
pub fn push_fixed_digits(s: &mut String, f: u64, k: u64)
    ensures
        final(s)@ == old(s)@ + fixed_digits(f as nat, k as nat),
    decreases k,
{
    if k > 0 {
        push_fixed_digits(s, f / 10, k - 1);
        push_char(s, digit_of(f % 10));
    }
    assert(s@ =~= old(s)@ + fixed_digits(f as nat, k as nat));
}

proof fn lemma_trim_fixed(f: nat, k: nat)
    requires
        k > 0,
        f % 10 == 0,
    ensures
        trim_zeros(fixed_digits(f, k)) == trim_zeros(fixed_digits(f / 10, (k - 1) as nat)),
{
    let t = fixed_digits(f, k);
    assert(t.drop_last() =~= fixed_digits(f / 10, (k - 1) as nat));
}

/// Appends the digits of `f` as `k` places of a fraction, without trailing zeros.
pub fn push_fraction(s: &mut String, f: u64, k: u64)
    ensures
        final(s)@ == old(s)@ + trim_zeros(fixed_digits(f as nat, k as nat)),
{
    let mut g = f;
    let mut w = k;
    while w > 0 && g % 10 == 0
        invariant
            trim_zeros(fixed_digits(f as nat, k as nat)) == trim_zeros(
                fixed_digits(g as nat, w as nat),
            ),
        decreases w,
    {
        proof {
            lemma_trim_fixed(g as nat, w as nat);
        }
        g = g / 10;
        w = w - 1;
    }
    proof {
        let t = fixed_digits(g as nat, w as nat);
        if w > 0 {
            assert(t.last() == digit_char((g % 10) as nat));
            assert(t.last() != '0');
        }
        assert(trim_zeros(t) == t);
    }
    push_fixed_digits(s, g, w);
}

} // verus!
