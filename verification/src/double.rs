//! Numbers of double precision, such as points in time in seconds, and what is made of them: whole
//! nanoseconds, samples and digits.

use vstd::prelude::*;

verus! {

/// The least number of 53 binary digits.
pub const TOP: u64 = 0x10_0000_0000_0000;

/// A fraction, not always in lowest terms.
pub struct Fraction {
    pub num: nat,
    pub den: nat,
}

/// The whole number nearest to a fraction; the even one of two that are equally near.
pub open spec fn rounded(num: nat, den: nat) -> nat {
    let q = num / den;
    let rest = num % den;
    if 2 * rest < den || (2 * rest == den && q % 2 == 0) {
        q
    } else {
        q + 1
    }
}

/// The number of double precision nearest to a fraction. A number with 53 binary digits in front of
/// the point is taken to the nearest whole one; any other is scaled by powers of two, and back.
pub open spec fn nearest(num: nat, den: nat) -> Fraction
    decreases
            if num < den * TOP {
                den * TOP - num
            } else if num >= 2 * den * TOP {
                num - 2 * den * TOP + 1
            } else {
                0
            },
{
    if num == 0 || den == 0 {
        Fraction { num: 0, den: 1 }
    } else if num < den * TOP {
        let d = nearest(2 * num, den);
        Fraction { num: d.num, den: 2 * d.den }
    } else if num >= 2 * den * TOP {
        let d = nearest(num, 2 * den);
        Fraction { num: 2 * d.num, den: d.den }
    } else {
        Fraction { num: rounded(num, den), den: 1 }
    }
}

/// A whole number of double precision. Up to 53 binary digits nothing is lost.
pub open spec fn whole(n: nat) -> nat {
    if n < 2 * TOP {
        n
    } else {
        nearest(n, 1).num
    }
}

/// The quotient of two whole numbers.
pub open spec fn quotient(n: nat, k: nat) -> Fraction {
    nearest(whole(n), whole(k))
}

/// The product with a whole number.
pub open spec fn product(d: Fraction, k: nat) -> Fraction {
    nearest(d.num * k, d.den)
}

/// The sum with one half.
pub open spec fn half_more(d: Fraction) -> Fraction {
    nearest(2 * d.num + d.den, 2 * d.den)
}

/// A point in time in seconds: the whole seconds and the part of a second, added.
pub open spec fn seconds_of(ns: nat) -> Fraction {
    let part = nearest(ns % 1_000_000_000, 1_000_000_000);
    nearest(ns / 1_000_000_000 * part.den + part.num, part.den)
}

/// Seconds as whole nanoseconds.
pub open spec fn nanoseconds_of(d: Fraction) -> nat {
    rounded(d.num * 1_000_000_000, d.den)
}

/// The least whole number that is not below a number.
pub open spec fn raised(d: Fraction) -> nat {
    if d.num % d.den == 0 {
        d.num / d.den
    } else {
        d.num / d.den + 1
    }
}

/// How many nanoseconds so many samples take at so many samples per second.
pub open spec fn span_ns(samples: nat, rate: nat) -> nat {
    nanoseconds_of(quotient(samples, rate))
}

/// Whether a number is a power of two.
pub open spec fn is_power(n: nat) -> bool
    decreases n,
{
    n == 1 || (n > 1 && n % 2 == 0 && is_power(n / 2))
}

/// Whether a number differs from a fraction by no more than so many halves of its last digit.
pub open spec fn is_near(d: Fraction, num: nat, den: nat, halves: nat) -> bool {
    let x = d.num * den;
    let y = num * d.den;
    &&& 0x20_0000_0000_0000 * x <= 0x20_0000_0000_0000 * y + halves * y
    &&& 0x20_0000_0000_0000 * y <= 0x20_0000_0000_0000 * x + halves * y
}

/// Rounding moves a number by no more than a half, and never past a whole number.
proof fn lemma_rounded(num: nat, den: nat, least: nat)
    requires
        den > 0,
        num >= least * den,
    ensures
        rounded(num, den) >= least,
        2 * (rounded(num, den) * den) <= 2 * num + den,
        2 * num <= 2 * (rounded(num, den) * den) + den,
{
    let q = num / den;
    vstd::arithmetic::div_mod::lemma_fundamental_div_mod(num as int, den as int);
    assert((q + 1) * den == q * den + den) by (nonlinear_arith);
    assert(den * q == q * den) by (nonlinear_arith);
    assert(q >= least) by (nonlinear_arith)
        requires
            num >= least * den,
            num == q * den + num % den,
            num % den < den,
            den > 0,
    ;
}

/// The nearest number has 53 binary digits, and differs from the fraction by no more than half of
/// the last of them.
pub proof fn lemma_nearest(num: nat, den: nat)
    requires
        num > 0,
        den > 0,
    ensures
        ({
            let r = nearest(num, den);
            &&& is_power(r.den)
            &&& r.den > 0
            &&& r.num >= TOP
            &&& num < 2 * den * TOP ==> r.num <= 2 * TOP && r.den * num < 2 * den * TOP
            &&& num >= den * TOP ==> r.den == 1
            &&& is_near(r, num, den, 1)
        }),
    decreases
            if num < den * TOP {
                den * TOP - num
            } else if num >= 2 * den * TOP {
                num - 2 * den * TOP + 1
            } else {
                0
            },
{
    let r = nearest(num, den);
    if num < den * TOP {
        lemma_nearest(2 * num, den);
        let d = nearest(2 * num, den);
        assert(r.den * num == d.den * (2 * num) && num * r.den == (2 * num) * d.den)
            by (nonlinear_arith)
            requires
                r.den == 2 * d.den,
        ;
        assert((2 * d.den) / 2 == d.den);
    } else if num >= 2 * den * TOP {
        lemma_nearest(num, 2 * den);
        let d = nearest(num, 2 * den);
        assert(r.num * den == d.num * (2 * den)) by (nonlinear_arith)
            requires
                r.num == 2 * d.num,
        ;
    } else {
        lemma_rounded(num, den, TOP as nat);
        assert(r.num <= 2 * TOP) by (nonlinear_arith)
            requires
                2 * (r.num * den) <= 2 * num + den,
                num < 2 * den * TOP,
                den > 0,
        ;
    }
}

/// Scaling both sides of a fraction changes nothing.
proof fn lemma_scaled(num: nat, den: nat)
    ensures
        nearest(2 * num, 2 * den) == nearest(num, den),
    decreases
            if num < den * TOP {
                den * TOP - num
            } else if num >= 2 * den * TOP {
                num - 2 * den * TOP + 1
            } else {
                0
            },
{
    if num == 0 || den == 0 {
    } else if num < den * TOP {
        lemma_scaled(2 * num, den);
    } else if num >= 2 * den * TOP {
        lemma_scaled(num, 2 * den);
    } else {
        let q = num / den;
        vstd::arithmetic::div_mod::lemma_div_denominator(2 * num as int, 2, den as int);
        assert((2 * num) / (2 * den) == q);
        vstd::arithmetic::div_mod::lemma_fundamental_div_mod(num as int, den as int);
        vstd::arithmetic::div_mod::lemma_fundamental_div_mod(2 * num as int, 2 * den as int);
        assert((2 * den) * q == 2 * (den * q)) by (nonlinear_arith);
    }
}

/// A number of double precision.
#[derive(Debug, Clone, Copy)]
pub struct Double {
    num: u128,
    den: u128,
}

impl View for Double {
    type V = Fraction;

    closed spec fn view(&self) -> Fraction {
        Fraction { num: self.num as nat, den: self.den as nat }
    }
}

fn round(num: u128, den: u128) -> (r: u128)
    requires
        den > 0,
        num < u128::MAX,
    ensures
        r == rounded(num as nat, den as nat),
{
    let q: u128 = num / den;
    let rest: u128 = num % den;
    proof {
        assert(q <= num) by (nonlinear_arith)
            requires
                q == num / den,
                den > 0,
        ;
    }
    let other: u128 = den - rest;
    if rest < other || (rest == other && q % 2 == 0) {
        q
    } else {
        q + 1
    }
}

/// The number nearest to a fraction.
fn nearest_to(num: u128, den: u128) -> (r: Double)
    requires
        0 < den,
        num == 0 || den < num * 0x4_0000_0000_0000,
        num < 0x100_0000_0000_0000_0000_0000_0000_0000,
        den < 0x2_0000_0000_0000_0000 || is_power(den as nat) || num >= den * TOP,
    ensures
        r@ == nearest(num as nat, den as nat),
    decreases
            if num < den * TOP {
                den * TOP - num
            } else if num >= 2 * den * TOP {
                num - 2 * den * TOP + 1
            } else {
                0
            },
{
    if num == 0 {
        return Double { num: 0, den: 1 };
    }
    proof {
        lemma_nearest(num as nat, den as nat);
        lemma_small(num as nat, den as nat, 0x4_0000_0000_0000);
    }
    if num / 0x10_0000_0000_0000 < den {
        let d = if den % 2 == 0 {
            proof {
                lemma_scaled(num as nat, den as nat / 2);
            }
            nearest_to(num, den / 2)
        } else {
            nearest_to(2 * num, den)
        };
        proof {
            lemma_nearest(2 * num as nat, den as nat);
        }
        Double { num: d.num, den: 2 * d.den }
    } else if num / 0x20_0000_0000_0000 >= den {
        let d = nearest_to(num, 2 * den);
        proof {
            lemma_nearest(num as nat, 2 * den as nat);
            assert(num * d@.den == num) by (nonlinear_arith)
                requires
                    d@.den == 1,
            ;
            assert(d.num <= num) by (nonlinear_arith)
                requires
                    0x20_0000_0000_0000 * (d.num * (2 * den)) <= 0x20_0000_0000_0001 * num,
                    den > 0,
            ;
        }
        Double { num: 2 * d.num, den: d.den }
    } else {
        Double { num: round(num, den), den: 1 }
    }
}

/// A number that is not too small has no large denominator.
proof fn lemma_small(num: nat, den: nat, most: nat)
    requires
        num > 0,
        den > 0,
        den < num * most,
    ensures
        nearest(num, den).den <= 0x20_0000_0000_0000 * most,
{
    lemma_nearest(num, den);
    let r = nearest(num, den);
    if num < 2 * den * TOP {
        assert(r.den <= 0x20_0000_0000_0000 * most) by (nonlinear_arith)
            requires
                r.den * num < 2 * den * TOP,
                TOP == 0x10_0000_0000_0000,
                den < num * most,
                num > 0,
        ;
    } else {
        assert(most >= 1) by (nonlinear_arith)
            requires
                0 < den < num * most,
        ;
    }
}

/// The nearest number is no larger than twice the numerator, unless that is small.
proof fn lemma_size(num: nat, den: nat)
    requires
        den > 0,
    ensures
        nearest(num, den).num <= 2 * TOP || nearest(num, den).num <= 2 * num,
{
    if num > 0 {
        lemma_nearest(num, den);
        let r = nearest(num, den);
        if num >= 2 * den * TOP {
            lemma_nearest(num, 2 * den);
            let d = nearest(num, 2 * den);
            assert(num * d.den == num) by (nonlinear_arith)
                requires
                    d.den == 1,
            ;
            assert(d.num <= num) by (nonlinear_arith)
                requires
                    0x20_0000_0000_0000 * (d.num * (2 * den)) <= 0x20_0000_0000_0001 * num,
                    den > 0,
            ;
        }
    }
}

impl Double {
    /// Whether this is a number that can be counted with.
    pub closed spec fn is_some_number(&self) -> bool {
        self.den > 0 && self.num < 0x1000_0000_0000_0000_0000_0000_0000_0000
    }

    /// Whether this is not too large to be multiplied.
    pub closed spec fn is_countable(&self) -> bool {
        self.den > 0 && self.num < 0x100_0000_0000_0000_0000_0000
    }

    /// Whether this has no more than 53 binary digits in front of the point, and is not too small.
    pub closed spec fn is_small(&self) -> bool {
        &&& self.num == 0 || self.den < self.num * 0x2000_0000_0000
        &&& self.num <= 2 * TOP
        &&& self.den < 0x100_0000_0000_0000_0000_0000_0000
        &&& is_power(self.den as nat)
        &&& self.den > 0
    }

    /// Whether this is neither too large nor too small to be multiplied.
    pub closed spec fn is_moderate(&self) -> bool {
        &&& self.num == 0 || self.den < self.num * 0x2_0000_0000_0000
        &&& self.num < 0x100_0000_0000_0000_0000_0000
        &&& self.den < 0x100_0000_0000_0000_0000_0000_0000
        &&& is_power(self.den as nat)
        &&& self.den > 0
    }

    /// A point in time in seconds.
    pub fn seconds(ns: u64) -> (r: Self)
        ensures
            r@ == seconds_of(ns as nat),
            r.is_some_number(),
            r.is_countable(),
            r.is_small(),
            r.is_moderate(),
    {
        let part = nearest_to((ns % 1_000_000_000) as u128, 1_000_000_000);
        let whole: u128 = (ns / 1_000_000_000) as u128;
        proof {
            let n = ns as nat % 1_000_000_000;
            if n > 0 {
                lemma_nearest(n, 1_000_000_000);
                lemma_small(n, 1_000_000_000, 0x4000_0000);
            }
            assert(whole * part.den <= 0x8_0000_0000 * part.den) by (nonlinear_arith)
                requires
                    whole <= 0x8_0000_0000,
                    part.den >= 0,
            ;
            assert(whole > 0 ==> whole * part.den >= part.den) by (nonlinear_arith)
                requires
                    whole >= 0,
                    part.den >= 0,
            ;
            assert(whole == 0 ==> whole * part.den == 0);
        }
        let num: u128 = whole * part.den + part.num;
        let r = nearest_to(num, part.den);
        proof {
            if num > 0 {
                lemma_nearest(num as nat, part.den as nat);
                if whole > 0 {
                    lemma_small(num as nat, part.den as nat, 2);
                } else {
                    lemma_small(num as nat, part.den as nat, 0x1_0000_0000);
                }
            }
        }
        r
    }

    /// The product with a whole number.
    pub fn times(self, k: u32) -> (r: Self)
        requires
            self.is_moderate(),
        ensures
            r@ == product(self@, k as nat),
            r.is_some_number(),
            self.is_small() ==> r.is_moderate(),
    {
        proof {
            assert(self.num * k < 0x100_0000_0000_0000_0000_0000_0000_0000) by (nonlinear_arith)
                requires
                    self.num < 0x100_0000_0000_0000_0000_0000,
                    0 <= k <= 0xffff_ffff,
            ;
            assert(k >= 1 ==> self.num * k >= self.num) by (nonlinear_arith)
                requires
                    self.num >= 0,
            ;
            assert(k == 0 || self.num == 0 ==> self.num * k == 0) by (nonlinear_arith);
        }
        let num: u128 = self.num * k as u128;
        let r = nearest_to(num, self.den);
        proof {
            lemma_size(num as nat, self.den as nat);
            if num > 0 {
                lemma_nearest(num as nat, self.den as nat);
                if self.is_small() {
                    lemma_small(num as nat, self.den as nat, 0x2000_0000_0000);
                    assert(num <= 2 * TOP * 0xffff_ffff) by (nonlinear_arith)
                        requires
                            num == self.num * k,
                            self.num <= 2 * TOP,
                            k <= 0xffff_ffff,
                    ;
                }
            }
        }
        r
    }

    /// The quotient of two whole numbers.
    pub fn ratio(n: u64, k: u64) -> (r: Self)
        requires
            k > 0,
            n == 0 || k < n * 0x1_0000_0000_0000,
        ensures
            r@ == quotient(n as nat, k as nat),
            r.is_some_number(),
            r.is_countable(),
            n < 0x20_0000_0000_0000 && k < n * 0x200_0000_0000 ==> r.is_small()
                && r.is_moderate(),
    {
        let num: u128 = whole_of(n);
        let den: u128 = whole_of(k);
        let r = nearest_to(num, den);
        proof {
            lemma_size(num as nat, den as nat);
            if num > 0 {
                lemma_nearest(num as nat, den as nat);
                if k < n * 0x200_0000_0000 {
                    lemma_small(num as nat, den as nat, 0x800_0000_0000);
                }
            }
        }
        r
    }

    /// The sum with one half.
    pub fn plus_half(self) -> (r: Self)
        requires
            self.is_moderate(),
        ensures
            r@ == half_more(self@),
            r.is_some_number(),
    {
        proof {
            assert((2 * self.den) / 2 == self.den);
        }
        let r = nearest_to(2 * self.num + self.den, 2 * self.den);
        proof {
            lemma_nearest((2 * self.num + self.den) as nat, (2 * self.den) as nat);
            lemma_size((2 * self.num + self.den) as nat, (2 * self.den) as nat);
        }
        r
    }

    /// The number cut to a whole one.
    pub fn floor(self) -> (r: u128)
        requires
            self.is_some_number(),
        ensures
            r == self@.num / self@.den,
    {
        self.num / self.den
    }

    /// The number raised to a whole one.
    pub fn ceil(self) -> (r: u128)
        requires
            self.is_some_number(),
        ensures
            r == raised(self@),
    {
        let q: u128 = self.num / self.den;
        if self.num % self.den == 0 {
            q
        } else {
            proof {
                vstd::arithmetic::div_mod::lemma_div_is_ordered_by_denominator(
                    self.num as int,
                    2,
                    self.den as int,
                );
            }
            q + 1
        }
    }

    /// So many times the number, to the nearest whole one.
    pub fn rounded_times(self, k: u32) -> (r: u128)
        requires
            self.is_countable(),
        ensures
            r == rounded(self@.num * k as nat, self@.den),
    {
        proof {
            assert(self.num * k < 0x100_0000_0000_0000_0000_0000_0000_0000) by (nonlinear_arith)
                requires
                    self.num < 0x100_0000_0000_0000_0000_0000,
                    0 <= k <= 0xffff_ffff,
            ;
        }
        round(self.num * k as u128, self.den)
    }
}

/// How many nanoseconds so many samples take at so many samples per second.
pub fn span(samples: u64, rate: u64) -> (r: u128)
    requires
        0 < rate < 0x1_0000_0000_0000,
    ensures
        r == span_ns(samples as nat, rate as nat),
{
    let d = Double::ratio(samples, rate);
    d.rounded_times(1_000_000_000)
}

/// A whole number of double precision.
fn whole_of(n: u64) -> (r: u128)
    ensures
        r == whole(n as nat),
        n > 0 ==> r > 0,
        r <= 2 * n,
        n <= 2 * r,
{
    if n < 0x20_0000_0000_0000 {
        n as u128
    } else {
        proof {
            lemma_whole(n as nat);
        }
        nearest_to(n as u128, 1).num
    }
}

/// A whole number changes by a factor of less than two.
proof fn lemma_whole(n: nat)
    ensures
        whole(n) <= 2 * n <= 4 * whole(n),
{
    if n >= 2 * TOP {
        lemma_nearest(n, 1);
        let r = nearest(n, 1);
        assert(r.num * 1 == r.num && n * r.den == n) by (nonlinear_arith)
            requires
                r.den == 1,
        ;
    }
}

/// How large a length can be.
pub proof fn lemma_span_bound(samples: nat, rate: nat)
    requires
        0 < rate < 2 * TOP,
    ensures
        span_ns(samples, rate) * rate <= 4_000_000_000 * samples + rate,
{
    let w = whole(samples);
    let d = quotient(samples, rate);
    let ns = span_ns(samples, rate);
    lemma_whole(samples);
    if w == 0 {
        assert(ns * rate == 0) by (nonlinear_arith)
            requires
                ns == 0,
        ;
    } else {
        lemma_nearest(w, rate);
        lemma_rounded(d.num * 1_000_000_000, d.den, 0);
        assert(d.num * rate <= 2 * (w * d.den)) by (nonlinear_arith)
            requires
                0x20_0000_0000_0000 * (d.num * rate) <= 0x20_0000_0000_0001 * (w * d.den),
                w * d.den >= 0,
        ;
        assert(ns * rate <= 4_000_000_000 * samples + rate) by (nonlinear_arith)
            requires
                2 * (ns * d.den) <= 2 * (d.num * 1_000_000_000) + d.den,
                d.num * rate <= 2 * (w * d.den),
                w <= 2 * samples,
                d.den > 0,
                rate > 0,
        ;
    }
}

/// A whole number of up to 53 binary digits is exact.
pub proof fn law_whole_numbers_are_exact(n: nat)
    requires
        n < 2 * TOP,
    ensures
        nearest(n, 1).num == n * nearest(n, 1).den,
    decreases 2 * TOP - n,
{
    if 0 < n < TOP {
        law_whole_numbers_are_exact(2 * n);
        let d = nearest(2 * n, 1);
        assert((2 * n) * d.den == n * (2 * d.den)) by (nonlinear_arith);
    } else {
        assert(n > 0 ==> rounded(n, 1) == n);
        assert(n * 1 == n) by (nonlinear_arith);
    }
}

proof fn lemma_bound(num: nat, den: nat, most: nat)
    requires
        den > 0,
        num <= most * den,
    ensures
        nearest(num, den).num <= 2 * most * nearest(num, den).den,
        nearest(num, den).den > 0,
{
    let r = nearest(num, den);
    if num > 0 {
        lemma_nearest(num, den);
        assert(r.num * den <= 2 * (num * r.den)) by (nonlinear_arith)
            requires
                0x20_0000_0000_0000 * (r.num * den) <= 0x20_0000_0000_0001 * (num * r.den),
                num * r.den >= 0,
        ;
        assert(r.num <= 2 * most * r.den) by (nonlinear_arith)
            requires
                r.num * den <= 2 * (num * r.den),
                num <= most * den,
                den > 0,
        ;
    }
}

/// How large a point in time is, in seconds and multiplied.
pub proof fn lemma_time_bound(ns: u64, k: nat)
    ensures
        ({
            let secs = seconds_of(ns as nat);
            let p = product(secs, k);
            &&& secs.den > 0
            &&& p.den > 0
            &&& secs.num <= 0x10_0000_0000 * secs.den
            &&& p.num / p.den <= 0x20_0000_0000 * k
        }),
{
    let n = ns as nat % 1_000_000_000;
    let whole = ns as nat / 1_000_000_000;
    let part = nearest(n, 1_000_000_000);
    lemma_bound(n, 1_000_000_000, 1);
    assert(whole * part.den + part.num <= 18_446_744_076 * part.den) by (nonlinear_arith)
        requires
            whole <= 18_446_744_074,
            part.num <= 2 * 1 * part.den,
    ;
    lemma_bound(whole * part.den + part.num, part.den, 18_446_744_076);
    let secs = seconds_of(ns as nat);
    assert(secs.num <= 0x10_0000_0000 * secs.den) by (nonlinear_arith)
        requires
            secs.num <= 2 * 18_446_744_076 * secs.den,
            secs.den >= 0,
    ;
    assert(secs.num * k <= (0x10_0000_0000 * k) * secs.den) by (nonlinear_arith)
        requires
            secs.num <= 0x10_0000_0000 * secs.den,
    ;
    let most = 0x10_0000_0000 * k;
    lemma_bound(secs.num * k, secs.den, most);
    let p = product(secs, k);
    vstd::arithmetic::div_mod::lemma_div_is_ordered(
        p.num as int,
        (2 * most * p.den) as int,
        p.den as int,
    );
    vstd::arithmetic::div_mod::lemma_div_multiples_vanish(2 * most as int, p.den as int);
    assert(p.den * (2 * most) == 2 * most * p.den) by (nonlinear_arith);
}

/// How large a point in time is in milliseconds.
pub proof fn lemma_millis_bound(ns: u64)
    ensures
        rounded(seconds_of(ns as nat).num * 1000, seconds_of(ns as nat).den) <= u64::MAX,
{
    let secs = seconds_of(ns as nat);
    lemma_time_bound(ns, 0);
    let ms = rounded(secs.num * 1000, secs.den);
    lemma_rounded(secs.num * 1000, secs.den, 0);
    assert(ms <= 0x10_0000_0000 * 1000 + 1) by (nonlinear_arith)
        requires
            2 * (ms * secs.den) <= 2 * (secs.num * 1000) + secs.den,
            secs.num <= 0x10_0000_0000 * secs.den,
            secs.den > 0,
    ;
}

/// The start is no seconds.
pub proof fn lemma_start()
    ensures
        seconds_of(0) == (Fraction { num: 0, den: 1 }),
{
    let part = nearest(0, 1_000_000_000);
    let whole = 0nat / 1_000_000_000;
    assert(whole * part.den + part.num == 0) by (nonlinear_arith)
        requires
            whole == 0,
            part.num == 0,
    ;
}

proof fn lemma_scale_up(a: int, b: int, w: int)
    by (nonlinear_arith)
    requires
        a <= b,
        w >= 0,
    ensures
        a * w <= b * w,
{
}

/// Rounding once more adds a little more than one half of the last digit.
proof fn lemma_near_again(d: Fraction, num: nat, den: nat, halves: nat, k: nat)
    requires
        is_near(d, num, den, halves),
        halves <= 10,
        d.den > 0,
        den > 0,
    ensures
        is_near(product(d, k), num * k, den, halves + 2),
        product(d, k).den > 0,
{
    let n = d.num * k;
    let r = product(d, k);
    let u: int = (d.num * den) as int;
    let v: int = (num * d.den) as int;
    let x: int = (r.num * den) as int;
    let y: int = ((num * k) * r.den) as int;
    let h: int = halves as int;
    assert(v >= 0 && u >= 0 && y >= 0);
    if n == 0 {
        assert(d.num == 0 || k == 0) by (nonlinear_arith)
            requires
                n == d.num * k,
                n == 0,
        ;
        if k > 0 {
            assert(num == 0) by (nonlinear_arith)
                requires
                    0x20_0000_0000_0000 * v <= 0x20_0000_0000_0000 * u + h * v,
                    u == d.num * den,
                    d.num == 0,
                    v == num * d.den,
                    d.den > 0,
                    0 <= h <= 10,
                    num >= 0,
            ;
        }
        assert(x == 0 && y == 0) by (nonlinear_arith)
            requires
                x == r.num * den,
                r.num == 0,
                y == (num * k) * r.den,
                num == 0 || k == 0,
        ;
    } else {
        lemma_nearest(n, d.den);
        let p: int = (r.num * d.den) as int;
        let q: int = (n * r.den) as int;
        let w: int = (k * r.den) as int;
        let a: int = p * den;
        let b: int = v * w;
        let c: int = q * den;
        assert(a == x * d.den && b == y * d.den && c == u * w && w >= 0) by (nonlinear_arith)
            requires
                a == p * den,
                b == v * w,
                c == q * den,
                p == r.num * d.den,
                q == n * r.den,
                n == d.num * k,
                w == k * r.den,
                u == d.num * den,
                v == num * d.den,
                x == r.num * den,
                y == (num * k) * r.den,
                k >= 0,
                r.den >= 0,
        ;
        lemma_scale_up(0x20_0000_0000_0000 * p, 0x20_0000_0000_0001 * q, den as int);
        lemma_scale_up(0x20_0000_0000_0000 * q, 0x20_0000_0000_0000 * p + q, den as int);
        lemma_scale_up(0x20_0000_0000_0000 * u, 0x20_0000_0000_0000 * v + h * v, w);
        lemma_scale_up(0x20_0000_0000_0000 * v, 0x20_0000_0000_0000 * u + h * v, w);
        assert((0x20_0000_0000_0000 * v + h * v) * w == 0x20_0000_0000_0000 * b + h * b && (
        0x20_0000_0000_0000 * u + h * v) * w == 0x20_0000_0000_0000 * c + h * b && b >= 0)
            by (nonlinear_arith)
            requires
                b == v * w,
                c == u * w,
                v >= 0,
                w >= 0,
        ;
        assert((0x20_0000_0000_0000 * p) * den == 0x20_0000_0000_0000 * a && (0x20_0000_0000_0001 * q)
            * den == 0x20_0000_0000_0001 * c && (0x20_0000_0000_0000 * q) * den
            == 0x20_0000_0000_0000 * c && (0x20_0000_0000_0000 * p + q) * den
            == 0x20_0000_0000_0000 * a + c && (0x20_0000_0000_0000 * u) * w
            == 0x20_0000_0000_0000 * c && (0x20_0000_0000_0000 * v) * w == 0x20_0000_0000_0000 * b)
            by (nonlinear_arith)
            requires
                a == p * den,
                c == q * den,
                c == u * w,
                b == v * w,
        ;
        assert(0x20_0000_0000_0000 * a <= 0x20_0000_0000_0000 * c + c);
        assert(0x20_0000_0000_0000 * c <= 0x20_0000_0000_0000 * a + c);
        assert(h * b <= 10 * b) by (nonlinear_arith)
            requires
                h <= 10,
                b >= 0,
        ;
        assert(c <= 2 * b);
        assert(0x20_0000_0000_0000 * a <= 0x20_0000_0000_0000 * b + h * b + 2 * b);
        assert(0x20_0000_0000_0000 * b <= 0x20_0000_0000_0000 * a + h * b + 2 * b);
        assert(0x20_0000_0000_0000 * x <= 0x20_0000_0000_0000 * y + (h + 2) * y
            && 0x20_0000_0000_0000 * y <= 0x20_0000_0000_0000 * x + (h + 2) * y)
            by (nonlinear_arith)
            requires
                0x20_0000_0000_0000 * a <= 0x20_0000_0000_0000 * b + h * b + 2 * b,
                0x20_0000_0000_0000 * b <= 0x20_0000_0000_0000 * a + h * b + 2 * b,
                a == x * d.den,
                b == y * d.den,
                d.den > 0,
        ;
    }
}

/// A point in time in seconds is near to what its nanoseconds make.
proof fn lemma_seconds_near(ns: nat)
    ensures
        is_near(seconds_of(ns), ns, 1_000_000_000, 3),
        seconds_of(ns).den > 0,
{
    let n = ns % 1_000_000_000;
    let whole = ns / 1_000_000_000;
    let part = nearest(n, 1_000_000_000);
    if n > 0 {
        lemma_nearest(n, 1_000_000_000);
    }
    let sum = Fraction { num: whole * part.den + part.num, den: part.den };
    assert(ns * part.den == 1_000_000_000 * (whole * part.den) + n * part.den) by (nonlinear_arith)
        requires
            ns == 1_000_000_000 * whole + n,
    ;
    assert(whole * part.den >= 0);
    assert(n == 0 ==> n * part.den == 0);
    let x: int = (whole * part.den) as int;
    let y: int = (n * part.den) as int;
    assert(y == 0 && part.num == 0 || n > 0) by (nonlinear_arith)
        requires
            y == n * part.den,
            n == 0 ==> part.num == 0,
            n >= 0,
    ;
    assert(sum.num * 1_000_000_000 == 1_000_000_000 * x + 1_000_000_000 * part.num);
    lemma_near_again(sum, ns, 1_000_000_000, 1, 1);
}

/// A point in time that is counted in units of so many to the second is less than two units from the
/// place that was meant.
pub proof fn lemma_units_near(ns: u64, k: nat)
    requires
        k > 0,
        ns < 0x10_0000_0000_0000,
    ensures
        ({
            let p = product(seconds_of(ns as nat), k);
            let t = p.num / p.den;
            &&& t * 1_000_000_000 <= (ns + 3) * k
            &&& ns * k < (t + 1) * 1_000_000_000 + 3 * k
        }),
{
    lemma_seconds_near(ns as nat);
    lemma_near_again(seconds_of(ns as nat), ns as nat, 1_000_000_000, 3, k);
    let p = product(seconds_of(ns as nat), k);
    let t = p.num / p.den;
    let y: int = ((ns as nat * k) * p.den) as int;
    vstd::arithmetic::div_mod::lemma_fundamental_div_mod(p.num as int, p.den as int);
    assert(5 * y <= 0x20_0000_0000_0000 * (3 * (k * p.den))) by (nonlinear_arith)
        requires
            y == (ns as nat * k) * p.den,
            ns < 0x10_0000_0000_0000,
            k >= 0,
            p.den >= 0,
    ;
    assert(p.num * 1_000_000_000 <= y + 3 * (k * p.den));
    assert(y <= p.num * 1_000_000_000 + 3 * (k * p.den));
    assert(t * 1_000_000_000 <= (ns + 3) * k && ns * k < (t + 1) * 1_000_000_000 + 3 * k)
        by (nonlinear_arith)
        requires
            p.num * 1_000_000_000 <= y + 3 * (k * p.den),
            y <= p.num * 1_000_000_000 + 3 * (k * p.den),
            y == (ns as nat * k) * p.den,
            p.num == p.den * t + p.num % p.den,
            0 <= p.num % p.den < p.den,
            p.den > 0,
    ;
}

/// A length of whole samples is within a nanosecond of what they make.
pub proof fn lemma_span_near(samples: nat, rate: nat)
    requires
        0 < rate < 2 * TOP,
        samples < 0x10_0000_0000_0000,
        samples * 1_000_000_000 <= 0x20_0000_0000_0000 * rate,
    ensures
        (2 * span_ns(samples, rate)) * rate <= 2 * (samples * 1_000_000_000) + 3 * rate,
        2 * (samples * 1_000_000_000) <= (2 * span_ns(samples, rate)) * rate + 3 * rate,
{
    let d = quotient(samples, rate);
    let ns = span_ns(samples, rate);
    if samples > 0 {
        lemma_nearest(samples, rate);
        lemma_rounded(d.num * 1_000_000_000, d.den, 0);
        let x: int = (d.num * rate) as int;
        let y: int = (samples * d.den) as int;
        assert(y * 1_000_000_000 <= 0x20_0000_0000_0000 * (rate * d.den)) by (nonlinear_arith)
            requires
                y == samples * d.den,
                samples * 1_000_000_000 <= 0x20_0000_0000_0000 * rate,
                d.den >= 0,
        ;
        let z: int = (rate * d.den) as int;
        assert(x * 1_000_000_000 <= y * 1_000_000_000 + z);
        assert(y * 1_000_000_000 <= x * 1_000_000_000 + z);
        assert((2 * ns) * rate <= 2 * (samples * 1_000_000_000) + 3 * rate && 2 * (samples
            * 1_000_000_000) <= (2 * ns) * rate + 3 * rate) by (nonlinear_arith)
            requires
                2 * (ns * d.den) <= 2 * (d.num * 1_000_000_000) + d.den,
                2 * (d.num * 1_000_000_000) <= 2 * (ns * d.den) + d.den,
                x * 1_000_000_000 <= y * 1_000_000_000 + z,
                y * 1_000_000_000 <= x * 1_000_000_000 + z,
                x == d.num * rate,
                y == samples * d.den,
                z == rate * d.den,
                d.den > 0,
                rate > 0,
        ;
    } else {
        assert((2 * ns) * rate == 0) by (nonlinear_arith)
            requires
                ns == 0,
        ;
    }
}

/// How large a multiple of a quotient is, a half added.
pub proof fn lemma_multiple_bound(n: u64, k: u64, m: u32)
    requires
        k > 0,
        n < 0x100_0000,
    ensures
        ({
            let p = half_more(product(quotient(n as nat, k as nat), m as nat));
            &&& p.den > 0
            &&& p.num / p.den <= i64::MAX
        }),
{
    let w = whole(k as nat);
    lemma_whole(k as nat);
    assert(n <= 0x100_0000 * w) by (nonlinear_arith)
        requires
            n < 0x100_0000,
            w >= 1,
    ;
    lemma_bound(n as nat, w, 0x100_0000);
    let q = quotient(n as nat, k as nat);
    assert(q.num * m <= 0x200_0000_0000_0000 * q.den) by (nonlinear_arith)
        requires
            q.num <= 2 * 0x100_0000 * q.den,
            m <= 0xffff_ffff,
            q.den >= 0,
    ;
    lemma_bound(q.num * m as nat, q.den, 0x200_0000_0000_0000);
    let d = product(q, m as nat);
    assert(2 * d.num + d.den <= 0x401_0000_0000_0000 * (2 * d.den)) by (nonlinear_arith)
        requires
            d.num <= 2 * 0x200_0000_0000_0000 * d.den,
            d.den >= 0,
    ;
    lemma_bound(2 * d.num + d.den, 2 * d.den, 0x401_0000_0000_0000);
    let p = half_more(d);
    let most = 2 * 0x401_0000_0000_0000 as nat;
    vstd::arithmetic::div_mod::lemma_div_is_ordered(
        p.num as int,
        (most * p.den) as int,
        p.den as int,
    );
    vstd::arithmetic::div_mod::lemma_div_multiples_vanish(most as int, p.den as int);
    assert(p.den * most == most * p.den) by (nonlinear_arith);
}

/// How large the tenths of a thousandth are.
pub proof fn lemma_tenths_bound(n: u64)
    ensures
        rounded(quotient(n as nat, 1000).num * 10, quotient(n as nat, 1000).den) <= u64::MAX,
{
    let w = whole(n as nat);
    let d = quotient(n as nat, 1000);
    lemma_whole(n as nat);
    lemma_bound(w, 1000, 0x100_0000_0000_0000);
    let t = rounded(d.num * 10, d.den);
    lemma_rounded(d.num * 10, d.den, 0);
    assert(t <= u64::MAX) by (nonlinear_arith)
        requires
            2 * (t * d.den) <= 2 * (d.num * 10) + d.den,
            d.num <= 2 * 0x100_0000_0000_0000 * d.den,
            d.den > 0,
    ;
}

/// A number half way between two whole ones goes to the even one; any other goes to the whole number
/// that is less than a half away.
pub proof fn law_rounded(q: nat, den: nat, rest: nat)
    requires
        rest < den,
    ensures
        2 * rest < den ==> rounded(q * den + rest, den) == q,
        2 * rest > den ==> rounded(q * den + rest, den) == q + 1,
        2 * rest == den ==> rounded(q * den + rest, den) % 2 == 0,
{
    vstd::arithmetic::div_mod::lemma_fundamental_div_mod_converse(
        (q * den + rest) as int,
        den as int,
        q as int,
        rest as int,
    );
}

/// A point in time in thousandths of a second is within half a thousandth, and two nanoseconds, of
/// the place that was meant.
pub proof fn lemma_millis_near(ns: u64)
    requires
        ns < 0x10_0000_0000_0000,
    ensures
        ({
            let ms = rounded(seconds_of(ns as nat).num * 1000, seconds_of(ns as nat).den);
            &&& 2 * (ms * 1_000_000) <= 2 * ns + 1_000_004
            &&& 2 * ns <= 2 * (ms * 1_000_000) + 1_000_004
        }),
{
    let d = seconds_of(ns as nat);
    lemma_seconds_near(ns as nat);
    let ms = rounded(d.num * 1000, d.den);
    lemma_rounded(d.num * 1000, d.den, 0);
    let x: int = (d.num * 1_000_000_000) as int;
    let y: int = (ns as nat * d.den) as int;
    assert(3 * y <= 0x20_0000_0000_0000 * (2 * d.den)) by (nonlinear_arith)
        requires
            y == ns as nat * d.den,
            ns < 0x10_0000_0000_0000,
            d.den >= 0,
    ;
    assert(x <= y + 2 * d.den);
    assert(y <= x + 2 * d.den);
    assert(2 * (ms * 1_000_000) <= 2 * ns + 1_000_004 && 2 * ns <= 2 * (ms * 1_000_000) + 1_000_004)
        by (nonlinear_arith)
        requires
            x == d.num * 1_000_000_000,
            y == ns as nat * d.den,
            x <= y + 2 * d.den,
            y <= x + 2 * d.den,
            2 * (ms * d.den) <= 2 * (d.num * 1000) + d.den,
            2 * (d.num * 1000) <= 2 * (ms * d.den) + d.den,
            d.den > 0,
    ;
}

/// The tenths of a thousandth are within half a tenth of what the number makes.
pub proof fn lemma_tenths_near(n: u64)
    requires
        n < 0x1_0000_0000,
    ensures
        ({
            let t = rounded(quotient(n as nat, 1000).num * 10, quotient(n as nat, 1000).den);
            &&& 100 * t <= n + 51
            &&& n <= 100 * t + 51
        }),
{
    let d = quotient(n as nat, 1000);
    let t = rounded(d.num * 10, d.den);
    if n > 0 {
        lemma_nearest(n as nat, 1000);
        lemma_rounded(d.num * 10, d.den, 0);
        let y: int = (n as nat * d.den) as int;
        assert(y <= 0x1_0000_0000 * d.den) by (nonlinear_arith)
            requires
                y == n as nat * d.den,
                n < 0x1_0000_0000,
                d.den >= 0,
        ;
        assert(1000 * d.num <= y + d.den);
        assert(y <= 1000 * d.num + d.den);
        assert(100 * t <= n + 51 && n <= 100 * t + 51) by (nonlinear_arith)
            requires
                y == n as nat * d.den,
                1000 * d.num <= y + d.den,
                y <= 1000 * d.num + d.den,
                2 * (t * d.den) <= 2 * (d.num * 10) + d.den,
                2 * (d.num * 10) <= 2 * (t * d.den) + d.den,
                d.den > 0,
        ;
    }
}

/// A multiple of a quotient, a half added and rounded down, is within one of what the numbers make.
pub proof fn lemma_multiple_near(n: u64, k: u64, m: u32)
    requires
        0 < k < 0x1_0000_0000,
        0 < n < 0x100_0000,
        0 < m < 0x100_0000,
    ensures
        ({
            let p = half_more(product(quotient(n as nat, k as nat), m as nat));
            let t = p.num / p.den;
            &&& t * k <= n * m + k
            &&& n * m <= t * k + k
        }),
{
    let q = quotient(n as nat, k as nat);
    lemma_nearest(n as nat, k as nat);
    lemma_near_again(q, n as nat, k as nat, 1, m as nat);
    let d = product(q, m as nat);
    let all = n as nat * m as nat;
    let x: int = (d.num * k as nat) as int;
    let y: int = (all * d.den) as int;
    assert(0 < all <= 0x1_0000_0000_0000) by (nonlinear_arith)
        requires
            all == n as nat * m as nat,
            0 < n < 0x100_0000,
            0 < m < 0x100_0000,
    ;
    assert(y <= 0x1_0000_0000_0000 * d.den) by (nonlinear_arith)
        requires
            y == all * d.den,
            all <= 0x1_0000_0000_0000,
            d.den >= 0,
    ;
    assert(8 * x <= 8 * y + d.den);
    assert(8 * y <= 8 * x + d.den);
    let num = 2 * d.num + d.den;
    lemma_nearest(num, 2 * d.den);
    let h = half_more(d);
    let t = h.num / h.den;
    vstd::arithmetic::div_mod::lemma_fundamental_div_mod(h.num as int, h.den as int);
    assert(num <= 0x4_0000_0000_0000 * d.den) by (nonlinear_arith)
        requires
            num == 2 * d.num + d.den,
            x == d.num * k as nat,
            k >= 1,
            8 * x <= 8 * y + d.den,
            y <= 0x1_0000_0000_0000 * d.den,
    ;
    let z: int = (num * h.den) as int;
    let g: int = (d.den * h.den) as int;
    assert(z <= 0x4_0000_0000_0000 * g) by (nonlinear_arith)
        requires
            z == num * h.den,
            g == d.den * h.den,
            num <= 0x4_0000_0000_0000 * d.den,
            h.den >= 0,
    ;
    let w: int = (h.num * (2 * d.den)) as int;
    assert(8 * w <= 8 * z + 2 * g);
    assert(8 * z <= 8 * w + 2 * g);
    let rest: int = (h.num % h.den) as int;
    assert(16 * (t * d.den) <= 16 * d.num + 10 * d.den && 16 * d.num <= 16 * (t * d.den) + 10 * d.den)
        by (nonlinear_arith)
        requires
            8 * w <= 8 * z + 2 * g,
            8 * z <= 8 * w + 2 * g,
            w == h.num * (2 * d.den),
            z == num * h.den,
            g == d.den * h.den,
            num == 2 * d.num + d.den,
            h.num == h.den * t + rest,
            0 <= rest < h.den,
            d.den > 0,
            h.den > 0,
    ;
    assert(t * k as nat <= all + k as nat && all <= t * k as nat + k as nat) by (nonlinear_arith)
        requires
            16 * (t * d.den) <= 16 * d.num + 10 * d.den,
            16 * d.num <= 16 * (t * d.den) + 10 * d.den,
            8 * x <= 8 * y + d.den,
            8 * y <= 8 * x + d.den,
            x == d.num * k as nat,
            y == all * d.den,
            d.den > 0,
            k >= 1,
    ;
}

/// A point in time in interleaved samples, raised to a whole one, is less than two samples above what
/// the numbers make, and no more than one below.
pub proof fn lemma_raised_near(ns: u64, rate: nat, channels: nat)
    requires
        rate > 0,
        channels > 0,
        (ns as nat * rate) * channels <= 0x4_0000_0000_0000 * 1_000_000_000,
    ensures
        ({
            let n = raised(product(product(seconds_of(ns as nat), rate), channels));
            &&& n * 1_000_000_000 < (ns as nat * rate) * channels + 2_000_000_000
            &&& (ns as nat * rate) * channels <= n * 1_000_000_000 + 1_000_000_000
        }),
{
    let secs = seconds_of(ns as nat);
    lemma_seconds_near(ns as nat);
    lemma_near_again(secs, ns as nat, 1_000_000_000, 3, rate);
    let d = product(secs, rate);
    lemma_near_again(d, ns as nat * rate, 1_000_000_000, 5, channels);
    let r = product(d, channels);
    let all = (ns as nat * rate) * channels;
    let n = raised(r);
    let x: int = (r.num * 1_000_000_000) as int;
    let y: int = (all * r.den) as int;
    assert(7 * y <= 0x20_0000_0000_0000 * (1_000_000_000 * r.den)) by (nonlinear_arith)
        requires
            y == all * r.den,
            all <= 0x4_0000_0000_0000 * 1_000_000_000,
            r.den >= 0,
    ;
    assert(x <= y + 1_000_000_000 * r.den);
    assert(y <= x + 1_000_000_000 * r.den);
    let q = r.num / r.den;
    let rest: int = r.num as int % r.den as int;
    vstd::arithmetic::div_mod::lemma_fundamental_div_mod(r.num as int, r.den as int);
    assert(r.num == r.den * q + rest);
    assert(r.num <= n * r.den < r.num + r.den) by (nonlinear_arith)
        requires
            r.num == r.den * q + rest,
            0 <= rest < r.den,
            rest == 0 ==> n == q,
            rest != 0 ==> n == q + 1,
    ;
    assert(n * 1_000_000_000 < all + 2_000_000_000 && all <= n * 1_000_000_000 + 1_000_000_000)
        by (nonlinear_arith)
        requires
            r.num <= n * r.den < r.num + r.den,
            x == r.num * 1_000_000_000,
            y == all * r.den,
            x <= y + 1_000_000_000 * r.den,
            y <= x + 1_000_000_000 * r.den,
            r.den > 0,
    ;
}

} // verus!
