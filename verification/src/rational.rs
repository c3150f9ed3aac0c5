//! Exact rational numbers over 64-bit integers.  A value is a normalized
//! fraction `num / den` with `den > 0` and `gcd(|num|, den) == 1`; every
//! operation states the exact mathematical result it produces, and an
//! operation whose exact result cannot be represented reports an overflow
//! error instead of returning a wrong value.

use vstd::prelude::*;

verus! {

use vstd::arithmetic::div_mod::{
    lemma_fundamental_div_mod,
    lemma_mod_self_0,
    lemma_breakdown,
    lemma_mod_multiples_basic,
    lemma_div_multiples_vanish,
};
use vstd::arithmetic::mul::{lemma_mul_strictly_positive, lemma_mul_nonzero};
use crate::errors::MyError;
use crate::text::{dec_digits, dec_digits_vec, chars_to_string, push_char};

/// Absolute value.
pub open spec fn iabs(n: int) -> int {
    if n < 0 {
        -n
    } else {
        n
    }
}

/// Greatest common divisor by Euclid's rule, for nonnegative arguments.
pub open spec fn gcd(a: int, b: int) -> int
    decreases b,
{
    if b <= 0 {
        a
    } else {
        gcd(b, a % b)
    }
}

/// The normalized form of the fraction `n / d` for `d != 0`: the sign moves
/// to the numerator and both parts are divided by their greatest common
/// divisor.
pub open spec fn norm_pair(n: int, d: int) -> (int, int) {
    let sn: int = if d < 0 {
        -n
    } else {
        n
    };
    let sd: int = if d < 0 {
        -d
    } else {
        d
    };
    let g = gcd(iabs(sn), sd);
    let q = iabs(sn) / g;
    ((if sn < 0 {
        -q
    } else {
        q
    }), sd / g)
}

/// Whether a normalized fraction fits the 64-bit representation.
pub open spec fn fits(p: (int, int)) -> bool {
    &&& -(i64::MAX as int) <= p.0 <= i64::MAX as int
    &&& 1 <= p.1 <= i64::MAX as int
}

/// The exact sum of two fractions, normalized.
pub open spec fn rat_add(a: (int, int), b: (int, int)) -> (int, int) {
    norm_pair(a.0 * b.1 + b.0 * a.1, a.1 * b.1)
}

/// The exact difference of two fractions, normalized.
pub open spec fn rat_sub(a: (int, int), b: (int, int)) -> (int, int) {
    norm_pair(a.0 * b.1 - b.0 * a.1, a.1 * b.1)
}

/// The exact product of two fractions, normalized.
pub open spec fn rat_mul(a: (int, int), b: (int, int)) -> (int, int) {
    norm_pair(a.0 * b.0, a.1 * b.1)
}

/// The exact quotient of two fractions, normalized; meaningful for `b` not
/// zero.
pub open spec fn rat_div(a: (int, int), b: (int, int)) -> (int, int) {
    norm_pair(a.0 * b.1, a.1 * b.0)
}

/// The negation of a fraction.
pub open spec fn rat_neg(a: (int, int)) -> (int, int) {
    (-a.0, a.1)
}

/// Value equality of fractions with positive denominators.
pub open spec fn rat_eq(a: (int, int), b: (int, int)) -> bool {
    a.0 * b.1 == b.0 * a.1
}

/// Strict order on fractions with positive denominators.
pub open spec fn rat_lt(a: (int, int), b: (int, int)) -> bool {
    a.0 * b.1 < b.0 * a.1
}

/// Non-strict order on fractions with positive denominators.
pub open spec fn rat_le(a: (int, int), b: (int, int)) -> bool {
    a.0 * b.1 <= b.0 * a.1
}

/// The greatest common divisor is positive when an argument is, and it
/// divides both arguments.
pub proof fn lemma_gcd_divides(a: int, b: int)
    requires
        a >= 0,
        b >= 0,
    ensures
        gcd(a, b) >= 0,
        a > 0 || b > 0 ==> gcd(a, b) > 0,
        gcd(a, b) > 0 ==> a % gcd(a, b) == 0 && b % gcd(a, b) == 0,
    decreases b,
{
    if b == 0 {
        if a > 0 {
            lemma_mod_self_0(a);
            assert(0int % a == 0);
        }
    } else {
        lemma_gcd_divides(b, a % b);
        let g = gcd(b, a % b);
        assert(gcd(a, b) == g);
        assert(g > 0);
        let q = a / b;
        let r = a % b;
        lemma_fundamental_div_mod(a, b);
        assert(a == b * q + r);
        let bq = b / g;
        let rq = r / g;
        lemma_fundamental_div_mod(b, g);
        lemma_fundamental_div_mod(r, g);
        assert(b == g * bq);
        assert(r == g * rq);
        assert(a == g * (bq * q + rq)) by (nonlinear_arith)
            requires
                a == b * q + r,
                b == g * bq,
                r == g * rq,
        ;
        lemma_mod_multiples_basic(bq * q + rq, g);
        assert((bq * q + rq) * g == g * (bq * q + rq)) by (nonlinear_arith);
    }
}

/// Scaling both arguments scales the greatest common divisor.
pub proof fn lemma_gcd_scale(k: int, a: int, b: int)
    requires
        k > 0,
        a >= 0,
        b >= 0,
    ensures
        gcd(k * a, k * b) == k * gcd(a, b),
    decreases b,
{
    if b == 0 {
        assert(k * b == 0) by (nonlinear_arith)
            requires
                b == 0,
        ;
    } else {
        assert(k * b > 0) by (nonlinear_arith)
            requires
                k > 0,
                b > 0,
        ;
        assert(k * a >= 0) by (nonlinear_arith)
            requires
                k > 0,
                a >= 0,
        ;
        lemma_breakdown(k * a, k, b);
        assert((k * a) % (k * b) == k * (((k * a) / k) % b) + (k * a) % k);
        lemma_mod_multiples_basic(a, k);
        assert(k * a == a * k) by (nonlinear_arith);
        assert((k * a) % k == 0);
        lemma_div_multiples_vanish(a, k);
        assert((k * a) / k == a);
        assert((k * a) % (k * b) == k * (a % b));
        lemma_gcd_scale(k, b, a % b);
        assert(gcd(k * a, k * b) == gcd(k * b, (k * a) % (k * b)));
    }
}

/// Dividing two nonnegative numbers by their greatest common divisor
/// leaves coprime numbers.
pub proof fn lemma_gcd_coprime(a: int, b: int)
    requires
        a >= 0,
        b > 0,
    ensures
        gcd(a, b) > 0,
        gcd(a / gcd(a, b), b / gcd(a, b)) == 1,
{
    let g = gcd(a, b);
    lemma_gcd_divides(a, b);
    let aq = a / g;
    let bq = b / g;
    lemma_fundamental_div_mod(a, g);
    lemma_fundamental_div_mod(b, g);
    assert(a == g * aq);
    assert(b == g * bq);
    assert(aq >= 0 && bq >= 0) by (nonlinear_arith)
        requires
            a == g * aq,
            b == g * bq,
            a >= 0,
            b > 0,
            g > 0,
    ;
    lemma_gcd_scale(g, aq, bq);
    assert(gcd(g * aq, g * bq) == g * gcd(aq, bq));
    assert(g == g * gcd(aq, bq));
    assert(gcd(aq, bq) == 1) by (nonlinear_arith)
        requires
            g == g * gcd(aq, bq),
            g > 0,
    ;
}

/// Ten to the power `k`.
pub open spec fn pow10(k: nat) -> int
    decreases k,
{
    if k == 0 {
        1
    } else {
        10 * pow10((k - 1) as nat)
    }
}

/// The smallest scale `j >= k` (up to eighteen) whose power of ten the
/// denominator divides, if any.
pub open spec fn find_scale(d: int, k: nat) -> Option<nat>
    decreases 19 - k,
{
    if k > 18 {
        None
    } else if pow10(k) % d == 0 {
        Some(k)
    } else {
        find_scale(d, k + 1)
    }
}

/// The decimal form of an integer, with a leading minus sign when negative.
pub open spec fn int_text(n: int) -> Seq<char> {
    if n < 0 {
        seq!['-'] + dec_digits((-n) as nat)
    } else {
        dec_digits(n as nat)
    }
}

/// A run of zero characters.
pub open spec fn zeros(j: nat) -> Seq<char>
    decreases j,
{
    if j == 0 {
        Seq::<char>::empty()
    } else {
        seq!['0'] + zeros((j - 1) as nat)
    }
}

/// The decimal digits of `m`, left-padded with zeros to at least `k + 1`
/// characters.
pub open spec fn padded_digits(m: nat, k: nat) -> Seq<char> {
    let ds = dec_digits(m);
    if ds.len() >= k + 1 {
        ds
    } else {
        zeros((k + 1 - ds.len()) as nat) + ds
    }
}

/// The finite decimal form of `n / d` scaled by ten to the `k`: sign,
/// integer part, point, `k` fractional digits.
pub open spec fn decimal_text(n: int, d: int, k: nat) -> Seq<char> {
    let m = (iabs(n) * pow10(k) / d) as nat;
    let ds = padded_digits(m, k);
    let cut = ds.len() - k;
    (if n < 0 {
        seq!['-']
    } else {
        Seq::<char>::empty()
    }) + ds.subrange(0, cut as int) + seq!['.'] + ds.subrange(cut as int, ds.len() as int)
}

/// The printed form of the normalized fraction `n / d`: an integer when
/// `d` is one, a finite decimal when `d` divides a power of ten up to
/// eighteen, and `n/d` otherwise.
pub open spec fn rat_text(n: int, d: int) -> Seq<char> {
    if d == 1 {
        int_text(n)
    } else {
        match find_scale(d, 1) {
            Option::Some(k) => decimal_text(n, d, k),
            Option::None => int_text(n) + seq!['/'] + dec_digits(d as nat),
        }
    }
}

pub proof fn lemma_pow10_pos(k: nat)
    ensures
        pow10(k) >= 1,
    decreases k,
{
    if k > 0 {
        lemma_pow10_pos((k - 1) as nat);
    }
}

pub proof fn lemma_pow10_mono(j: nat, k: nat)
    requires
        j <= k,
    ensures
        pow10(j) <= pow10(k),
    decreases k,
{
    if j < k {
        lemma_pow10_mono(j, (k - 1) as nat);
        lemma_pow10_pos((k - 1) as nat);
    }
}

proof fn lemma_zeros_all(j: nat)
    ensures
        zeros(j).len() == j,
        forall|i: int| 0 <= i < j ==> zeros(j)[i] == '0',
    decreases j,
{
    if j > 0 {
        lemma_zeros_all((j - 1) as nat);
    }
}

/// Appends the characters of `src[a..b]` to `dst`.
fn append_range(dst: &mut Vec<char>, src: &Vec<char>, a: usize, b: usize)
    requires
        a <= b <= src@.len(),
    ensures
        final(dst)@ == old(dst)@ + src@.subrange(a as int, b as int),
{
    let mut i: usize = a;
    while i < b
        invariant
            a <= i <= b <= src@.len(),
            dst@ == old(dst)@ + src@.subrange(a as int, i as int),
        decreases b - i,
    {
        dst.push(src[i]);
        proof {
            assert(old(dst)@ + src@.subrange(a as int, i as int) + seq![src@[i as int]] =~= old(
                dst,
            )@ + src@.subrange(a as int, i + 1));
        }
        i = i + 1;
    }
}

/// The decimal form of a 64-bit integer as a string.
pub fn int_string(n: i64) -> (s: String)
    requires
        n > i64::MIN,
    ensures
        s@ == int_text(n as int),
{
    if n < 0 {
        let mut s = String::new();
        push_char(&mut s, '-');
        let mag: u64 = (-(n as i128)) as u64;
        let dv = dec_digits_vec(mag as u128);
        crate::text::append_chars(&mut s, &dv);
        proof {
            assert(Seq::<char>::empty().push('-') + dec_digits(mag as nat) =~= seq!['-']
                + dec_digits((-(n as int)) as nat));
        }
        s
    } else {
        let dv = dec_digits_vec(n as u128);
        chars_to_string(&dv)
    }
}

fn find_scale_exec(d: u64, k: u32, p: u64) -> (r: Option<(u32, u64)>)
    requires
        1 <= k <= 19,
        d >= 1,
        p as int == pow10(k as nat),
    ensures
        match r {
            Option::Some(kp) => {
                &&& find_scale(d as int, k as nat) == Option::Some(kp.0 as nat)
                &&& kp.1 as int == pow10(kp.0 as nat)
                &&& kp.1 % d == 0
                &&& 1 <= kp.0 <= 18
            },
            Option::None => find_scale(d as int, k as nat) is None,
        },
    decreases 20 - k,
{
    if k > 18 {
        None
    } else if p % d == 0 {
        Some((k, p))
    } else {
        proof {
            lemma_pow10_mono(k as nat, 18);
            reveal_with_fuel(pow10, 19);
            assert(pow10(18) == 1000000000000000000int);
        }
        find_scale_exec(d, k + 1, p * 10)
    }
}

/// An exact rational number: a normalized fraction of 64-bit integers.
#[derive(Debug, Clone, Copy, PartialEq, Eq)]
pub struct Rational {
    pub num: i64,
    pub den: i64,
}

impl View for Rational {
    type V = (int, int);

    open spec fn view(&self) -> (int, int) {
        (self.num as int, self.den as int)
    }
}

fn gcd_u128(a: u128, b: u128) -> (g: u128)
    ensures
        g as int == gcd(a as int, b as int),
    decreases b,
{
    if b == 0 {
        a
    } else {
        gcd_u128(b, a % b)
    }
}

impl Rational {
    /// A well-formed value: positive denominator, numerator clear of the
    /// one unrepresentable magnitude, and the fraction in lowest terms.
    pub open spec fn wf(self) -> bool {
        &&& self.den > 0
        &&& self.num > i64::MIN
        &&& gcd(iabs(self.num as int), self.den as int) == 1
    }

    /// Builds the normalized form of `n / d` when it is representable,
    /// and reports overflow exactly when it is not.
    pub fn normalize_i128(n: i128, d: i128) -> (r: Result<Rational, MyError>)
        requires
            d != 0,
            n > i128::MIN,
            d > i128::MIN,
        ensures
            ({
                let p = norm_pair(n as int, d as int);
                match r {
                    Ok(q) => q.wf() && q@ == p && fits(p),
                    Err(e) => e == MyError::NumberOverflowError && !fits(p),
                }
            }),
    {
        let sn: i128 = if d < 0 {
            -n
        } else {
            n
        };
        let sd: i128 = if d < 0 {
            -d
        } else {
            d
        };
        let neg = sn < 0;
        let mag: u128 = if neg {
            (-sn) as u128
        } else {
            sn as u128
        };
        let denm: u128 = sd as u128;
        proof {
            assert(mag as int == iabs(sn as int));
            assert(denm as int == sd as int);
        }
        let g = gcd_u128(mag, denm);
        proof {
            lemma_gcd_divides(mag as int, denm as int);
            lemma_gcd_coprime(mag as int, denm as int);
        }
        let qn = mag / g;
        let qd = denm / g;
        proof {
            let gi = g as int;
            lemma_fundamental_div_mod(denm as int, gi);
            assert(denm as int == gi * (qd as int));
            assert(qd >= 1) by (nonlinear_arith)
                requires
                    denm as int == (g as int) * (qd as int),
                    denm > 0,
                    g > 0,
            ;
        }
        if qn <= (i64::MAX as u128) && qd <= (i64::MAX as u128) {
            let num: i64 = if neg {
                -(qn as i64)
            } else {
                qn as i64
            };
            let den: i64 = qd as i64;
            let result = Rational { num, den };
            proof {
                assert(iabs(result.num as int) == qn as int);
                assert(result@ == norm_pair(n as int, d as int));
            }
            Ok(result)
        } else {
            Err(MyError::NumberOverflowError)
        }
    }

    /// The rational with the given integer value.
    pub fn from_int(n: i64) -> (r: Rational)
        requires
            n > i64::MIN,
        ensures
            r.wf(),
            r@ == (n as int, 1int),
    {
        proof {
            let a = iabs(n as int);
            assert(a % 1int == 0);
            assert(gcd(a, 1) == gcd(1, a % 1));
            assert(gcd(1, 0) == 1);
        }
        Rational { num: n, den: 1 }
    }

    /// The normalized rational with value `num / den`.
    pub fn new(num: i64, den: i64) -> (r: Rational)
        requires
            den > 0,
            num > i64::MIN,
        ensures
            r.wf(),
            r@ == norm_pair(num as int, den as int),
    {
        proof {
            let ni = num as int;
            let di = den as int;
            let g = gcd(iabs(ni), di);
            lemma_gcd_divides(iabs(ni), di);
            lemma_fundamental_div_mod(iabs(ni), g);
            lemma_fundamental_div_mod(di, g);
            assert(iabs(ni) / g <= iabs(ni) && 1 <= di / g && di / g <= di) by (nonlinear_arith)
                requires
                    iabs(ni) == g * (iabs(ni) / g),
                    di == g * (di / g),
                    g > 0,
                    iabs(ni) >= 0,
                    di > 0,
            ;
            assert(fits(norm_pair(ni, di)));
        }
        let r = Self::normalize_i128(num as i128, den as i128);
        match r {
            Ok(q) => q,
            Err(_) => {
                proof {
                    assert(false);
                }
                Rational { num: 0, den: 1 }
            },
        }
    }

    /// Exact addition; overflow reported when the normalized sum does not
    /// fit.
    pub fn checked_add(self, other: Rational) -> (r: Result<Rational, MyError>)
        requires
            self.wf(),
            other.wf(),
        ensures
            ({
                let p = rat_add(self@, other@);
                match r {
                    Ok(q) => q.wf() && q@ == p && fits(p),
                    Err(e) => e == MyError::NumberOverflowError && !fits(p),
                }
            }),
    {
        let n1 = self.num as i128;
        let d1 = self.den as i128;
        let n2 = other.num as i128;
        let d2 = other.den as i128;
        proof {
            let m = i64::MAX as int;
            assert(-(m * m) <= n1 as int * d2 as int <= m * m && -(m * m) <= n2 as int * d1 as int
                <= m * m && 0 < d1 as int * d2 as int <= m * m) by (nonlinear_arith)
                requires
                    -m <= n1 as int <= m,
                    -m <= n2 as int <= m,
                    0 < d1 as int <= m,
                    0 < d2 as int <= m,
            ;
            assert(m * m < 0x40000000000000000000000000000000int) by (nonlinear_arith)
                requires
                    m == 0x7fffffffffffffffint,
            ;
        }
        let n = n1 * d2 + n2 * d1;
        let d = d1 * d2;
        Self::normalize_i128(n, d)
    }

    /// Exact subtraction.
    pub fn checked_sub(self, other: Rational) -> (r: Result<Rational, MyError>)
        requires
            self.wf(),
            other.wf(),
        ensures
            ({
                let p = rat_sub(self@, other@);
                match r {
                    Ok(q) => q.wf() && q@ == p && fits(p),
                    Err(e) => e == MyError::NumberOverflowError && !fits(p),
                }
            }),
    {
        let n1 = self.num as i128;
        let d1 = self.den as i128;
        let n2 = other.num as i128;
        let d2 = other.den as i128;
        proof {
            let m = i64::MAX as int;
            assert(-(m * m) <= n1 as int * d2 as int <= m * m && -(m * m) <= n2 as int * d1 as int
                <= m * m && 0 < d1 as int * d2 as int <= m * m) by (nonlinear_arith)
                requires
                    -m <= n1 as int <= m,
                    -m <= n2 as int <= m,
                    0 < d1 as int <= m,
                    0 < d2 as int <= m,
            ;
            assert(m * m < 0x40000000000000000000000000000000int) by (nonlinear_arith)
                requires
                    m == 0x7fffffffffffffffint,
            ;
        }
        let n = n1 * d2 - n2 * d1;
        let d = d1 * d2;
        Self::normalize_i128(n, d)
    }

    /// Exact multiplication.
    pub fn checked_mul(self, other: Rational) -> (r: Result<Rational, MyError>)
        requires
            self.wf(),
            other.wf(),
        ensures
            ({
                let p = rat_mul(self@, other@);
                match r {
                    Ok(q) => q.wf() && q@ == p && fits(p),
                    Err(e) => e == MyError::NumberOverflowError && !fits(p),
                }
            }),
    {
        let n1 = self.num as i128;
        let d1 = self.den as i128;
        let n2 = other.num as i128;
        let d2 = other.den as i128;
        proof {
            let m = i64::MAX as int;
            assert(-(m * m) <= n1 as int * n2 as int <= m * m && 0 < d1 as int * d2 as int <= m
                * m) by (nonlinear_arith)
                requires
                    -m <= n1 as int <= m,
                    -m <= n2 as int <= m,
                    0 < d1 as int <= m,
                    0 < d2 as int <= m,
            ;
            assert(m * m < 0x40000000000000000000000000000000int) by (nonlinear_arith)
                requires
                    m == 0x7fffffffffffffffint,
            ;
        }
        let n = n1 * n2;
        let d = d1 * d2;
        Self::normalize_i128(n, d)
    }

    /// Exact division by a nonzero rational.
    pub fn checked_div(self, other: Rational) -> (r: Result<Rational, MyError>)
        requires
            self.wf(),
            other.wf(),
            other.num != 0,
        ensures
            ({
                let p = rat_div(self@, other@);
                match r {
                    Ok(q) => q.wf() && q@ == p && fits(p),
                    Err(e) => e == MyError::NumberOverflowError && !fits(p),
                }
            }),
    {
        let n1 = self.num as i128;
        let d1 = self.den as i128;
        let n2 = other.num as i128;
        let d2 = other.den as i128;
        proof {
            let m = i64::MAX as int;
            assert(-(m * m) <= n1 as int * d2 as int <= m * m && -(m * m) <= d1 as int * n2 as int
                <= m * m) by (nonlinear_arith)
                requires
                    -m <= n1 as int <= m,
                    -m <= n2 as int <= m,
                    0 < d1 as int <= m,
                    0 < d2 as int <= m,
            ;
            assert(m * m < 0x40000000000000000000000000000000int) by (nonlinear_arith)
                requires
                    m == 0x7fffffffffffffffint,
            ;
            lemma_mul_nonzero(d1 as int, n2 as int);
        }
        let n = n1 * d2;
        let d = d1 * n2;
        Self::normalize_i128(n, d)
    }

    /// Exact negation; always representable.
    pub fn neg_val(self) -> (r: Rational)
        requires
            self.wf(),
        ensures
            r.wf(),
            r@ == rat_neg(self@),
    {
        Rational { num: -self.num, den: self.den }
    }

    /// Whether the value is exactly zero.
    pub fn is_zero(&self) -> (r: bool)
        ensures
            r == (self@.0 == 0),
    {
        self.num == 0
    }

    /// Exact value equality.
    pub fn eq_val(self, other: Rational) -> (r: bool)
        requires
            self.wf(),
            other.wf(),
        ensures
            r == rat_eq(self@, other@),
    {
        proof {
            let m = i64::MAX as int;
            assert(-(m * m) <= self.num as int * other.den as int <= m * m && -(m * m)
                <= other.num as int * self.den as int <= m * m) by (nonlinear_arith)
                requires
                    -m <= self.num as int <= m,
                    -m <= other.num as int <= m,
                    0 < self.den as int <= m,
                    0 < other.den as int <= m,
            ;
            assert(m * m < 0x40000000000000000000000000000000int) by (nonlinear_arith)
                requires
                    m == 0x7fffffffffffffffint,
            ;
        }
        let l = (self.num as i128) * (other.den as i128);
        let rr = (other.num as i128) * (self.den as i128);
        l == rr
    }

    /// Exact strict order.
    pub fn lt_val(self, other: Rational) -> (r: bool)
        requires
            self.wf(),
            other.wf(),
        ensures
            r == rat_lt(self@, other@),
    {
        proof {
            let m = i64::MAX as int;
            assert(-(m * m) <= self.num as int * other.den as int <= m * m && -(m * m)
                <= other.num as int * self.den as int <= m * m) by (nonlinear_arith)
                requires
                    -m <= self.num as int <= m,
                    -m <= other.num as int <= m,
                    0 < self.den as int <= m,
                    0 < other.den as int <= m,
            ;
            assert(m * m < 0x40000000000000000000000000000000int) by (nonlinear_arith)
                requires
                    m == 0x7fffffffffffffffint,
            ;
        }
        let l = (self.num as i128) * (other.den as i128);
        let rr = (other.num as i128) * (self.den as i128);
        l < rr
    }

    /// The printed form of this value.
    pub fn to_text(&self) -> (s: String)
        requires
            self.wf(),
        ensures
            s@ == rat_text(self@.0, self@.1),
    {
        if self.den == 1 {
            int_string(self.num)
        } else {
            proof {
                reveal_with_fuel(pow10, 2);
            }
            match find_scale_exec(self.den as u64, 1, 10) {
                Some(kp) => {
                    let k = kp.0;
                    let p = kp.1;
                    let f: u64 = p / (self.den as u64);
                    let mag: u64 = if self.num < 0 {
                        (-(self.num as i128)) as u64
                    } else {
                        self.num as u64
                    };
                    proof {
                        let d = self.den as int;
                        let pi = p as int;
                        let fi = f as int;
                        let magi = mag as int;
                        assert(magi == iabs(self@.0));
                        lemma_fundamental_div_mod(pi, d);
                        assert(pi == d * fi);
                        assert(magi * pi == d * (magi * fi)) by (nonlinear_arith)
                            requires
                                pi == d * fi,
                        ;
                        lemma_div_multiples_vanish(magi * fi, d);
                        assert((magi * pi) / d == magi * fi);
                        lemma_pow10_mono(k as nat, 18);
                        reveal_with_fuel(pow10, 19);
                        assert(pow10(18) == 1000000000000000000int);
                        assert(fi >= 0 && fi <= pi) by (nonlinear_arith)
                            requires
                                pi == d * fi,
                                d >= 2,
                                pi >= 1,
                        ;
                        assert(0 <= magi * fi
                            < 0x10000000000000000000000000000000int) by (nonlinear_arith)
                            requires
                                0 <= magi < 0x8000000000000000int,
                                0 <= fi <= 1000000000000000000int,
                        ;
                    }
                    let m: u128 = (mag as u128) * (f as u128);
                    let ds = dec_digits_vec(m);
                    let kk = k as usize;
                    let mut padded: Vec<char> = Vec::new();
                    let dslen = ds.len();
                    if dslen < kk + 1 {
                        let need = kk + 1 - dslen;
                        let mut j: usize = 0;
                        while j < need
                            invariant
                                j <= need,
                                padded@.len() == j,
                                forall|i: int| 0 <= i < j ==> padded@[i] == '0',
                            decreases need - j,
                        {
                            padded.push('0');
                            j = j + 1;
                        }
                        proof {
                            lemma_zeros_all(need as nat);
                            assert(padded@ =~= zeros(need as nat));
                        }
                    }
                    append_range(&mut padded, &ds, 0, dslen);
                    proof {
                        assert(ds@.subrange(0, dslen as int) =~= ds@);
                        assert(padded@ == padded_digits(m as nat, k as nat));
                    }
                    let plen = padded.len();
                    let cut = plen - kk;
                    let mut out: Vec<char> = Vec::new();
                    if self.num < 0 {
                        out.push('-');
                    }
                    let ghost sign: Seq<char> = if self.num < 0 {
                        seq!['-']
                    } else {
                        Seq::<char>::empty()
                    };
                    proof {
                        assert(out@ =~= sign);
                    }
                    append_range(&mut out, &padded, 0, cut);
                    out.push('.');
                    append_range(&mut out, &padded, cut, plen);
                    proof {
                        assert(out@ =~= sign + padded@.subrange(0, cut as int) + seq!['.']
                            + padded@.subrange(cut as int, plen as int));
                        assert(out@ =~= decimal_text(self@.0, self@.1, k as nat));
                    }
                    chars_to_string(&out)
                },
                None => {
                    let mut s = int_string(self.num);
                    push_char(&mut s, '/');
                    let dv = dec_digits_vec(self.den as u128);
                    crate::text::append_chars(&mut s, &dv);
                    proof {
                        assert(int_text(self@.0).push('/') + dec_digits(self@.1 as nat) =~=
                            int_text(self@.0) + seq!['/'] + dec_digits(self@.1 as nat));
                    }
                    s
                },
            }
        }
    }

    /// Exact non-strict order.
    pub fn le_val(self, other: Rational) -> (r: bool)
        requires
            self.wf(),
            other.wf(),
        ensures
            r == rat_le(self@, other@),
    {
        !other.lt_val(self)
    }
}

} // verus!
