//! Coordinates as fixed-point numbers held to the millionth of a unit.
use vstd::prelude::*;
use crate::text::{
    push_char, push_nat, push_fraction, nat_text, fixed_digits, trim_zeros, digit_char, digit_of,
};

verus! {

/// Millionths in one unit.
pub const SCALE: i64 = 1_000_000;

/// Bound on the magnitude of a number, in millionths.
pub const LIMIT: i64 = 1_000_000_000_000_000_000;

/// Bound on the whole part of a number literal: one at or above it is out of range.
pub const WHOLE_LIMIT: u64 = 1_000_000_000_000;

/// A number with six decimal places, held as a count of millionths.
#[derive(Clone, Copy, Debug, PartialEq, Eq)]
pub struct Num {
    micros: i64,
}

impl View for Num {
    type V = int;

    closed spec fn view(&self) -> int {
        self.micros as int
    }
}

impl Num {
    #[verifier::type_invariant]
    spec fn bounded(self) -> bool {
        -LIMIT < self.micros < LIMIT
    }

    /// A number is its count of millionths.
    pub proof fn lemma_view_injective(a: Num, b: Num)
        requires
            a@ == b@,
        ensures
            a == b,
    {
    }

    /// The number with the given count of millionths.
    pub fn from_micros(micros: i64) -> (r: Num)
        requires
            -LIMIT < micros < LIMIT,
        ensures
            r@ == micros,
    {
        Num { micros }
    }

    /// The whole number `v`.
    pub fn from_int(v: i32) -> (r: Num)
        ensures
            r@ == v * SCALE,
    {
        Num { micros: v as i64 * SCALE }
    }

    /// Zero.
    pub fn zero() -> (r: Num)
        ensures
            r@ == 0,
    {
        Num { micros: 0 }
    }

    /// The count of millionths.
    pub fn micros(&self) -> (r: i64)
        ensures
            r == self@,
            -LIMIT < r < LIMIT,
    {
        proof {
            use_type_invariant(self);
        }
        self.micros
    }
}

pub open spec fn is_digit(c: char) -> bool {
    '0' <= c && c <= '9'
}

pub open spec fn digit_value(c: char) -> nat {
    (c as u32 - '0' as u32) as nat
}

pub open spec fn all_digits(t: Seq<char>) -> bool {
    forall|k: int| 0 <= k < t.len() ==> is_digit(#[trigger] t[k])
}

/// The value of a run of decimal digits.
pub open spec fn digits_value(t: Seq<char>) -> nat
    decreases t.len(),
{
    if t.len() == 0 {
        0
    } else {
        digits_value(t.drop_last()) * 10 + digit_value(t.last())
    }
}

/// How many digits the text starts with.
pub open spec fn leading_digits(t: Seq<char>) -> nat
    decreases t.len(),
{
    if t.len() > 0 && is_digit(t[0]) {
        1 + leading_digits(t.drop_first())
    } else {
        0
    }
}

/// The first `k` places of a decimal fraction whose digits are `f`, as an integer.
pub open spec fn fraction_value(f: Seq<char>, k: nat) -> nat
    decreases k,
{
    if k == 0 {
        0
    } else {
        fraction_value(f, (k - 1) as nat) * 10 + if k - 1 < f.len() {
            digit_value(f[k - 1])
        } else {
            0
        }
    }
}

/// The value, in millionths, of the text of a number literal: an optional `-`,
/// digits, and optionally a `.` with more digits. Places past the sixth are
/// dropped. Malformed text, and text whose magnitude reaches `LIMIT`, reads as zero.
pub open spec fn literal_micros(t: Seq<char>) -> int {
    let neg = t.len() > 0 && t[0] == '-';
    let body = if neg {
        t.drop_first()
    } else {
        t
    };
    let n = leading_digits(body);
    let rest = body.subrange(n as int, body.len() as int);
    let well_formed = n > 0 && (rest.len() == 0 || (rest[0] == '.' && all_digits(
        rest.drop_first(),
    )));
    let frac = if rest.len() == 0 {
        0
    } else {
        fraction_value(rest.drop_first(), 6)
    };
    let mag = digits_value(body.take(n as int)) * SCALE + frac;
    if well_formed && mag < LIMIT {
        if neg {
            -mag
        } else {
            mag
        }
    } else {
        0
    }
}

proof fn lemma_digits_prefix(t: Seq<char>, k: int)
    requires
        0 <= k <= t.len(),
    ensures
        digits_value(t.take(k)) <= digits_value(t),
    decreases t.len() - k,
{
    if k < t.len() {
        lemma_digits_prefix(t, k + 1);
        assert(t.take(k + 1).drop_last() =~= t.take(k));
    } else {
        assert(t.take(k) =~= t);
    }
}

proof fn lemma_leading_digits(t: Seq<char>, k: int)
    requires
        0 <= k <= t.len(),
        forall|j: int| 0 <= j < k ==> is_digit(#[trigger] t[j]),
    ensures
        leading_digits(t) == k + leading_digits(t.subrange(k, t.len() as int)),
    decreases k,
{
    if k > 0 {
        let u = t.drop_first();
        lemma_leading_digits(u, k - 1);
        assert(u.subrange(k - 1, u.len() as int) =~= t.subrange(k, t.len() as int));
    } else {
        assert(t.subrange(0, t.len() as int) =~= t);
    }
}

proof fn lemma_leading_digits_bound(t: Seq<char>)
    ensures
        leading_digits(t) <= t.len(),
        forall|j: int| 0 <= j < leading_digits(t) ==> is_digit(#[trigger] t[j]),
    decreases t.len(),
{
    if t.len() > 0 && is_digit(t[0]) {
        lemma_leading_digits_bound(t.drop_first());
        assert forall|j: int| 0 <= j < leading_digits(t) implies is_digit(#[trigger] t[j]) by {
            if j > 0 {
                assert(t[j] == t.drop_first()[j - 1]);
            }
        }
    }
}

/// The number that the literal `chars[lo..hi]` denotes.
pub fn literal_value(chars: &Vec<char>, lo: usize, hi: usize) -> (r: Num)
    requires
        lo <= hi <= chars@.len(),
    ensures
        r@ == literal_micros(chars@.subrange(lo as int, hi as int)),
{
    let ghost t = chars@.subrange(lo as int, hi as int);
    let neg = lo < hi && chars[lo] == '-';
    let start: usize = if neg {
        lo + 1
    } else {
        lo
    };
    let ghost body = if neg {
        t.drop_first()
    } else {
        t
    };
    assert(body =~= chars@.subrange(start as int, hi as int));
    proof {
        if t.len() > 0 {
            assert(t[0] == chars@[lo as int]);
        }
    }
    assert(neg == (t.len() > 0 && t[0] == '-'));
    // whole part
    let mut i: usize = start;
    let mut whole: u64 = 0;
    while i < hi && '0' <= chars[i] && chars[i] <= '9'
        invariant
            start <= i <= hi <= chars@.len(),
            body == chars@.subrange(start as int, hi as int),
            t == chars@.subrange(lo as int, hi as int),
            neg == (t.len() > 0 && t[0] == '-'),
            body == if neg {
                t.drop_first()
            } else {
                t
            },
            forall|j: int| 0 <= j < i - start ==> is_digit(#[trigger] body[j]),
            whole == digits_value(body.take(i - start)),
            whole < WHOLE_LIMIT,
        decreases hi - i,
    {
        let d = (chars[i] as u32 - '0' as u32) as u64;
        proof {
            let k = i - start;
            assert(body.take(k + 1).drop_last() =~= body.take(k));
            assert(body[k] == chars@[i as int]);
        }
        whole = whole * 10 + d;
        i = i + 1;
        if whole >= WHOLE_LIMIT {
            proof {
                let k = i - start;
                lemma_leading_digits(body, k);
                lemma_leading_digits_bound(body);
                let n = leading_digits(body);
                assert(body.take(n as int).take(k) =~= body.take(k));
                lemma_digits_prefix(body.take(n as int), k);
                let w = digits_value(body.take(n as int));
                assert(w * SCALE >= LIMIT) by (nonlinear_arith)
                    requires
                        w >= WHOLE_LIMIT,
                ;
            }
            return Num::zero();
        }
    }
    let n: usize = i - start;
    proof {
        lemma_leading_digits(body, n as int);
        let rest0 = body.subrange(n as int, body.len() as int);
        if rest0.len() > 0 {
            assert(rest0[0] == body[n as int]);
        }
        assert(leading_digits(rest0) == 0);
    }
    let ghost rest = body.subrange(n as int, body.len() as int);
    assert(rest =~= chars@.subrange(i as int, hi as int));
    assert(body.take(n as int) =~= body.take(i - start));
    if n == 0 {
        return Num::zero();
    }
    if i == hi {
        assert(rest.len() == 0);
        assert(whole * SCALE < LIMIT) by (nonlinear_arith)
            requires
                whole < WHOLE_LIMIT,
        ;
        let mag: i64 = whole as i64 * SCALE;
        return if neg {
            Num { micros: -mag }
        } else {
            Num { micros: mag }
        };
    }
    assert(rest[0] == chars@[i as int]);
    if chars[i] != '.' {
        return Num::zero();
    }
    // fraction: check the digits and keep the first six places
    let ghost f = rest.drop_first();
    assert(f =~= chars@.subrange(i + 1, hi as int));
    if !digits_in(chars, i + 1, hi) {
        return Num::zero();
    }
    let frac = fraction_in(chars, i + 1, hi);
    let mag: u64 = whole * 1_000_000 + frac;
    if mag >= LIMIT as u64 {
        return Num::zero();
    }
    if neg {
        Num { micros: -(mag as i64) }
    } else {
        Num { micros: mag as i64 }
    }
}


/// Whether `chars[lo..hi]` holds decimal digits only.
fn digits_in(chars: &Vec<char>, lo: usize, hi: usize) -> (r: bool)
    requires
        lo <= hi <= chars@.len(),
    ensures
        r == all_digits(chars@.subrange(lo as int, hi as int)),
{
    let ghost f = chars@.subrange(lo as int, hi as int);
    let mut j: usize = lo;
    while j < hi
        invariant
            lo <= j <= hi <= chars@.len(),
            f == chars@.subrange(lo as int, hi as int),
            forall|k: int| 0 <= k < j - lo ==> is_digit(#[trigger] f[k]),
        decreases hi - j,
    {
        assert(f[j - lo] == chars@[j as int]);
        if !('0' <= chars[j] && chars[j] <= '9') {
            return false;
        }
        j = j + 1;
    }
    true
}

/// The first six places of the fraction whose digits are `chars[lo..hi]`.
fn fraction_in(chars: &Vec<char>, lo: usize, hi: usize) -> (r: u64)
    requires
        lo <= hi <= chars@.len(),
        all_digits(chars@.subrange(lo as int, hi as int)),
    ensures
        r == fraction_value(chars@.subrange(lo as int, hi as int), 6),
        r < 1_000_000,
{
    let ghost f = chars@.subrange(lo as int, hi as int);
    let mut frac: u64 = 0;
    let mut k: u64 = 0;
    while k < 6
        invariant
            k <= 6,
            lo <= hi <= chars@.len(),
            f == chars@.subrange(lo as int, hi as int),
            all_digits(f),
            frac == fraction_value(f, k as nat),
            frac < pow10(k as nat),
        decreases 6 - k,
    {
        let d: u64 = if (k as usize) < hi - lo {
            let p: usize = lo + k as usize;
            assert(f[k as int] == chars@[p as int]);
            assert(is_digit(f[k as int]));
            (chars[p] as u32 - '0' as u32) as u64
        } else {
            0
        };
        proof {
            lemma_pow10_six(k as nat);
            assert(pow10((k + 1) as nat) == 10 * pow10(k as nat));
        }
        frac = frac * 10 + d;
        k = k + 1;
    }
    proof {
        lemma_pow10_six(6);
    }
    frac
}

pub open spec fn pow10(k: nat) -> nat
    decreases k,
{
    if k == 0 {
        1
    } else {
        10 * pow10((k - 1) as nat)
    }
}

proof fn lemma_pow10_six(k: nat)
    requires
        k <= 6,
    ensures
        pow10(k) <= 1_000_000,
{
    reveal_with_fuel(pow10, 7);
}

/// Decimal text of a count of millionths: a `-` for a negative value, the whole
/// part, and the fraction without trailing zeros (with no `.` when it is zero).
pub open spec fn num_text(v: int) -> Seq<char> {
    let a = if v < 0 {
        -v
    } else {
        v
    };
    let sign = if v < 0 {
        seq!['-']
    } else {
        Seq::empty()
    };
    let f = (a % (SCALE as int)) as nat;
    let frac = if f == 0 {
        Seq::empty()
    } else {
        seq!['.'] + trim_zeros(fixed_digits(f, 6))
    };
    sign + nat_text((a / (SCALE as int)) as nat) + frac
}

/// Appends the decimal text of a count of millionths.
pub fn push_micros(s: &mut String, m: i64)
    requires
        m > i64::MIN,
    ensures
        final(s)@ == old(s)@ + num_text(m as int),
{
    let a: u64 = if m < 0 {
        push_char(s, '-');
        (-m) as u64
    } else {
        m as u64
    };
    push_nat(s, a / 1_000_000);
    let f = a % 1_000_000;
    if f != 0 {
        push_char(s, '.');
        push_fraction(s, f, 6);
    }
    assert(s@ =~= old(s)@ + num_text(m as int));
}

/// Appends the decimal text of `n`.
pub fn push_num(s: &mut String, n: Num)
    ensures
        final(s)@ == old(s)@ + num_text(n@),
{
    push_micros(s, n.micros());
}


/// The text that Rust's `Debug` gives for the `f64` nearest a count of
/// millionths (for values of at most fifteen significant digits, where that
/// float prints back as the same decimal): `0.0` for zero; under a ten
/// thousandth, exponent form (`5e-6`, `1.2e-5`); a whole number with `.0`;
/// otherwise the decimal text.
pub open spec fn num_debug_text(v: int) -> Seq<char> {
    let a = if v < 0 {
        -v
    } else {
        v
    };
    let sign = if v < 0 {
        seq!['-']
    } else {
        Seq::empty()
    };
    if a == 0 {
        "0.0"@
    } else if a < 10 {
        sign + seq![digit_char(a as nat)] + "e-6"@
    } else if a < 100 {
        sign + seq![digit_char((a / 10) as nat)] + (if a % 10 == 0 {
            Seq::empty()
        } else {
            seq!['.', digit_char((a % 10) as nat)]
        }) + "e-5"@
    } else if a % (SCALE as int) == 0 {
        num_text(v) + ".0"@
    } else {
        num_text(v)
    }
}

/// Appends the text that `Debug` gives for `n` as a float.
pub fn push_num_debug(s: &mut String, n: Num)
    ensures
        final(s)@ == old(s)@ + num_debug_text(n@),
{
    let m = n.micros();
    let a: u64 = if m < 0 {
        (-m) as u64
    } else {
        m as u64
    };
    if a == 0 {
        s.append("0.0");
    } else if a < 100 {
        if m < 0 {
            push_char(s, '-');
        }
        if a < 10 {
            push_char(s, digit_of(a));
            s.append("e-6");
        } else {
            push_char(s, digit_of(a / 10));
            if a % 10 != 0 {
                push_char(s, '.');
                push_char(s, digit_of(a % 10));
            }
            s.append("e-5");
        }
    } else {
        push_micros(s, m);
        if a % 1_000_000 == 0 {
            s.append(".0");
        }
    }
    assert(s@ =~= old(s)@ + num_debug_text(n@));
}

} // verus!
