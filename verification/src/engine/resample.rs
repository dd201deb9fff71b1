//! Changing the sample rate by a rational factor: which input frames and which row of the filter go
//! into which output frame.
//!
//! With the factor in lowest terms as `l / m`, output frame `n` lies at the input time `n * m / l`.
//! The whole part of that picks the input frames, the remainder the row of the filter. The
//! coefficients and the samples are the caller's.

use vstd::arithmetic::div_mod::{
    lemma_div_is_ordered,
    lemma_fundamental_div_mod,
    lemma_mod_bound,
    lemma_mod_multiples_basic,
};
use vstd::prelude::*;

verus! {

/// How many output frames are produced at a time.
pub const BATCH_FRAMES: usize = 512;

/// Whether one number divides another.
pub open spec fn divides(d: int, a: int) -> bool {
    exists|k: int| a == #[trigger] (d * k)
}

proof fn lemma_divides_mod(d: int, a: int)
    requires
        d > 0,
    ensures
        divides(d, a) <==> a % d == 0,
{
    if divides(d, a) {
        let k = choose|k: int| a == #[trigger] (d * k);
        lemma_mod_multiples_basic(k, d);
        assert(k * d == d * k) by (nonlinear_arith);
    }
    if a % d == 0 {
        lemma_fundamental_div_mod(a, d);
        assert(a == d * (a / d));
    }
}

/// A step of Euclid's algorithm keeps the common divisors.
proof fn lemma_euclid(a: int, b: int, d: int)
    requires
        b > 0,
    ensures
        divides(d, a) && divides(d, b) <==> divides(d, b) && divides(d, a % b),
{
    lemma_fundamental_div_mod(a, b);
    let q = a / b;
    if divides(d, b) {
        let j = choose|j: int| b == #[trigger] (d * j);
        if divides(d, a) {
            let k = choose|k: int| a == #[trigger] (d * k);
            assert(a % b == d * (k - j * q)) by (nonlinear_arith)
                requires
                    a == b * q + a % b,
                    b == d * j,
                    a == d * k,
            ;
        }
        if divides(d, a % b) {
            let k = choose|k: int| a % b == #[trigger] (d * k);
            assert(a == d * (j * q + k)) by (nonlinear_arith)
                requires
                    a == b * q + a % b,
                    b == d * j,
                    a % b == d * k,
            ;
        }
    }
}

/// The greatest common divisor, and 1 for two zeros.
pub fn gcd(a: u64, b: u64) -> (r: u64)
    ensures
        r >= 1,
        a == 0 && b == 0 ==> r == 1,
        divides(r as int, a as int),
        divides(r as int, b as int),
        a > 0 || b > 0 ==> forall|d: int|
            d > 0 && #[trigger] divides(d, a as int) && divides(d, b as int) ==> d <= r,
{
    let mut x: u64 = a;
    let mut y: u64 = b;
    while y != 0
        invariant
            a == 0 && b == 0 ==> x == 0 && y == 0,
            a > 0 || b > 0 ==> x > 0 || y > 0,
            forall|d: int|
                #![trigger divides(d, a as int)]
                #![trigger divides(d, x as int)]
                (divides(d, a as int) && divides(d, b as int) <==> divides(d, x as int) && divides(
                    d,
                    y as int,
                )),
        decreases y,
    {
        let t: u64 = x % y;
        proof {
            assert forall|d: int|
                (divides(d, x as int) && divides(d, y as int)) == (#[trigger] divides(d, y as int)
                    && divides(d, t as int)) by {
                lemma_euclid(x as int, y as int, d);
            }
            assert forall|d: int|
                #![trigger divides(d, a as int)]
                #![trigger divides(d, y as int)]
                (divides(d, a as int) && divides(d, b as int)) == (divides(d, y as int) && divides(
                    d,
                    t as int,
                )) by {
                lemma_euclid(x as int, y as int, d);
                assert(divides(d, x as int) == divides(d, x as int));
            }
        }
        x = y;
        y = t;
    }
    proof {
        assert(0 == x * 0);
        assert(x == x * 1);
        assert(divides(x as int, x as int) && divides(x as int, y as int));
        if a == 0 && b == 0 {
            assert(0 == 1int * 0);
        } else {
            assert forall|d: int|
                d > 0 && #[trigger] divides(d, a as int) && divides(d, b as int) implies d <= x by {
                assert(divides(d, x as int));
                let k = choose|k: int| x as int == #[trigger] (d * k);
                assert(d <= x) by (nonlinear_arith)
                    requires
                        x == d * k,
                        x > 0,
                        d > 0,
                ;
            }
        }
    }
    if x == 0 {
        1
    } else {
        x
    }
}

/// A factor between two rates in lowest terms.
#[derive(Debug, Clone, Copy, PartialEq, Eq, Structural)]
pub struct Ratio {
    /// How many rows the filter has: the factor by which the rate goes up.
    pub l: u64,
    /// The factor by which it goes down.
    pub m: u64,
}

/// The greatest divisor that a number has in common with 0 is the number itself.
proof fn lemma_own_divisor(a: int, g: int, k: int)
    requires
        a > 0,
        g >= 1,
        a == g * k,
        divides(a, a) && divides(a, 0) ==> a <= g,
    ensures
        k == 1,
{
    assert(a == a * 1);
    assert(0 == a * 0);
    assert(divides(a, a));
    assert(divides(a, 0));
    assert(k == 1) by (nonlinear_arith)
        requires
            a > 0,
            g >= a,
            a == g * k,
    ;
}

/// Whether a ratio in lowest terms leads from one rate to another. Where a rate is missing, nothing
/// changes.
pub open spec fn leads(r: Ratio, src_rate: u32, dst_rate: u32) -> bool {
    if src_rate == 0 || dst_rate == 0 {
        r.l == 1 && r.m == 1
    } else {
        &&& r.l * src_rate == r.m * dst_rate
        &&& forall|d: int|
            d > 0 && #[trigger] divides(d, r.l as int) && divides(d, r.m as int) ==> d == 1
    }
}

/// The factor between two rates.
pub fn ratio_of(src_rate: u32, dst_rate: u32) -> (r: Ratio)
    ensures
        1 <= r.l <= 0xffff_ffff,
        1 <= r.m <= 0xffff_ffff,
        leads(r, src_rate, dst_rate),
{
    let g: u64 = gcd(src_rate as u64, dst_rate as u64);
    let up: u64 = dst_rate as u64 / g;
    let down: u64 = src_rate as u64 / g;
    proof {
        let s = src_rate as int;
        let t = dst_rate as int;
        let gi = g as int;
        lemma_fundamental_div_mod(s, gi);
        lemma_fundamental_div_mod(t, gi);
        lemma_divides_mod(gi, s);
        lemma_divides_mod(gi, t);
        assert(s == gi * down && t == gi * up);
        assert(up <= t && down <= s) by (nonlinear_arith)
            requires
                s == gi * down,
                t == gi * up,
                gi >= 1,
                up >= 0,
                down >= 0,
        ;
        if s == 0 && t > 0 {
            lemma_own_divisor(t, gi, up as int);
        }
        if t == 0 && s > 0 {
            lemma_own_divisor(s, gi, down as int);
        }
        if s > 0 && t > 0 {
            assert(up >= 1 && down >= 1) by (nonlinear_arith)
                requires
                    s == gi * down,
                    t == gi * up,
                    s > 0,
                    t > 0,
                    gi >= 1,
            ;
            assert(up * s == down * t) by (nonlinear_arith)
                requires
                    s == gi * down,
                    t == gi * up,
            ;
            assert forall|d: int|
                d > 0 && #[trigger] divides(d, up as int) && divides(d, down as int) implies d == 1 by {
                let j = choose|j: int| up as int == #[trigger] (d * j);
                let k = choose|k: int| down as int == #[trigger] (d * k);
                assert(t == (gi * d) * j && s == (gi * d) * k) by (nonlinear_arith)
                    requires
                        t == gi * up,
                        s == gi * down,
                        up == d * j,
                        down == d * k,
                ;
                assert(divides(gi * d, t) && divides(gi * d, s));
                assert(gi * d > 0) by (nonlinear_arith)
                    requires
                        gi >= 1,
                        d > 0,
                ;
                assert(gi * d <= gi);
                assert(d == 1) by (nonlinear_arith)
                    requires
                        gi * d <= gi,
                        gi >= 1,
                        d > 0,
                ;
            }
        }
    }
    Ratio {
        l: if up == 0 {
            1
        } else {
            up
        },
        m: if down == 0 {
            1
        } else {
            down
        },
    }
}

/// The least power of two that is no less than `n`, looking from `p` on.
pub open spec fn power_from(p: nat, n: nat) -> nat
    decreases
            if p < n {
                n - p
            } else {
                0
            },
{
    if p == 0 || p >= n {
        p
    } else {
        power_from(2 * p, n)
    }
}

proof fn lemma_power_from(p: nat, n: nat)
    requires
        1 <= p,
    ensures
        power_from(p, n) >= n,
        power_from(p, n) >= p,
        p < n ==> power_from(p, n) < 2 * n,
    decreases
            if p < n {
                n - p
            } else {
                0
            },
{
    if p < n {
        lemma_power_from(2 * p, n);
    }
}

/// How many input frames are kept: the filter's length, rounded up to a power of two.
pub fn ring_frames(taps: usize) -> (r: usize)
    requires
        taps <= 0x1000_0000,
    ensures
        r == power_from(
            1,
            if taps < 2 {
                2
            } else {
                taps as nat
            },
        ),
        r >= taps,
        r >= 2,
        r <= 0x2000_0000,
{
    let want: usize = if taps < 2 {
        2
    } else {
        taps
    };
    let mut p: usize = 1;
    proof {
        lemma_power_from(1, want as nat);
    }
    while p < want
        invariant
            1 <= p,
            p < 2 * want,
            want <= 0x1000_0000,
            power_from(1, want as nat) == power_from(p as nat, want as nat),
        decreases
                if p < want {
                    want - p
                } else {
                    0
                },
    {
        p = 2 * p;
    }
    p
}

/// What goes into an output frame: input frame `f`, for `first <= f <= last`, meets the coefficient
/// at `row + (newest - f)`.
#[derive(Debug, Clone, Copy, PartialEq, Eq, Structural)]
pub struct Window {
    /// Where the filter's row starts among the coefficients.
    pub row: usize,
    /// The newest input frame that the row reaches, whether there is one or not.
    pub newest: u64,
    pub first: u64,
    pub last: u64,
}

/// The state of a conversion.
#[derive(Debug, Clone, Copy, PartialEq, Eq, Structural)]
pub struct Resampler {
    pub ratio: Ratio,
    pub taps: usize,
    /// How many input frames are kept.
    pub ring: usize,
    /// How many input frames have been read.
    pub have: u64,
    /// Whether the input has ended.
    pub ended: bool,
    /// The next output frame.
    pub n: u64,
}

impl Resampler {
    /// How far the filter reaches ahead of an input time.
    pub open spec fn lead(self) -> int {
        self.taps as int / 2
    }

    /// The newest input frame that the next output frame uses.
    pub open spec fn newest(self) -> int {
        self.n * self.ratio.m / self.ratio.l as int + self.lead()
    }

    /// The oldest.
    pub open spec fn oldest(self) -> int {
        self.newest() - self.taps + 1
    }

    pub open spec fn valid(self) -> bool {
        &&& 1 <= self.ratio.l <= 0xffff_ffff
        &&& 1 <= self.ratio.m <= 0xffff_ffff
        &&& 1 <= self.taps <= 4096
        &&& self.ring >= self.taps
        &&& self.ring >= 2
        &&& self.have <= self.newest() + 1
    }

    /// The conversion before its first frame.
    pub open spec fn restarted(self) -> Resampler {
        Resampler { have: 0, ended: false, n: 0, ..self }
    }

    /// Whether another input frame is wanted before the next output frame.
    pub open spec fn wants(self) -> bool {
        !self.ended && self.have <= self.newest()
    }

    /// The conversion after an input frame, or after the end of the input.
    pub open spec fn fed(self, ok: bool) -> Resampler {
        if ok {
            Resampler { have: (self.have + 1) as u64, ..self }
        } else {
            Resampler { ended: true, ..self }
        }
    }

    /// The conversion at the next output frame.
    pub open spec fn advanced(self) -> Resampler {
        Resampler { n: (self.n + 1) as u64, ..self }
    }

    /// What the next output frame is made of, where there is any input for it.
    pub open spec fn window_of(self) -> Option<Window> {
        let first = if self.oldest() < 0 {
            0
        } else {
            self.oldest()
        };
        let last = if self.newest() < self.have {
            self.newest()
        } else {
            self.have - 1
        };
        if last < first {
            None
        } else {
            Some(
                Window {
                    row: ((self.n * self.ratio.m) % self.ratio.l as int * self.taps) as usize,
                    newest: self.newest() as u64,
                    first: first as u64,
                    last: last as u64,
                },
            )
        }
    }

    /// A conversion before its first frame. The length of the filter is the caller's choice.
    pub fn new(src_rate: u32, dst_rate: u32, taps: usize) -> (r: Self)
        requires
            1 <= taps <= 4096,
        ensures
            r.valid(),
            r.taps == taps,
            r.have == 0,
            r.n == 0,
            !r.ended,
            leads(r.ratio, src_rate, dst_rate),
            r.ring == power_from(
                1,
                if taps < 2 {
                    2
                } else {
                    taps as nat
                },
            ),
    {
        let ratio = ratio_of(src_rate, dst_rate);
        let r = Resampler { ratio, taps, ring: ring_frames(taps), have: 0, ended: false, n: 0 };
        proof {
            assert(0 * ratio.m == 0);
            assert(0int / ratio.l as int == 0) by (nonlinear_arith)
                requires
                    ratio.l >= 1,
            ;
        }
        r
    }

    /// Starts over, as after a jump in the input.
    pub fn reset(&mut self)
        requires
            old(self).valid(),
        ensures
            final(self).valid(),
            *final(self) == old(self).restarted(),
    {
        self.have = 0;
        self.ended = false;
        self.n = 0;
        proof {
            assert(0 * self.ratio.m == 0);
            assert(0int / self.ratio.l as int == 0) by (nonlinear_arith)
                requires
                    self.ratio.l >= 1,
            ;
        }
    }

    fn split(&self) -> (r: (u64, u64))
        requires
            self.valid(),
            self.n * self.ratio.m <= 0x7fff_ffff_ffff_0000,
        ensures
            r.0 == self.n * self.ratio.m / self.ratio.l as int,
            r.1 == self.n * self.ratio.m % self.ratio.l as int,
            r.0 <= 0x7fff_ffff_ffff_0000,
            r.1 < self.ratio.l,
    {
        let t: u64 = self.n * self.ratio.m;
        proof {
            assert(t / self.ratio.l <= t) by (nonlinear_arith)
                requires
                    self.ratio.l >= 1,
            ;
        }
        (t / self.ratio.l, t % self.ratio.l)
    }

    /// Whether another input frame has to be read before the next output frame.
    pub fn wants_input(&self) -> (r: bool)
        requires
            self.valid(),
            self.n * self.ratio.m <= 0x7fff_ffff_ffff_0000,
        ensures
            r == self.wants(),
    {
        let (q, _) = self.split();
        !self.ended && self.have <= q + (self.taps / 2) as u64
    }

    /// Where in the ring an input frame is kept.
    pub fn slot(&self, frame: u64) -> (r: usize)
        requires
            self.valid(),
        ensures
            r == frame as int % self.ring as int,
            r < self.ring,
    {
        (frame % self.ring as u64) as usize
    }

    /// Takes note that the next input frame has been read into its slot, or that there is none.
    pub fn frame_read(&mut self, ok: bool)
        requires
            old(self).valid(),
            !old(self).ended,
            old(self).have <= old(self).newest(),
            old(self).have < u64::MAX,
        ensures
            final(self).valid(),
            *final(self) == old(self).fed(ok),
    {
        if ok {
            self.have = self.have + 1;
        } else {
            self.ended = true;
        }
    }

    /// What the next output frame is made of. Nothing means that the output ends.
    pub fn window(&self) -> (r: Option<Window>)
        requires
            self.valid(),
            self.n * self.ratio.m <= 0x7fff_ffff_ffff_0000,
        ensures
            r == self.window_of(),
            r matches Some(w) ==> {
                &&& w.first <= w.last <= w.newest
                &&& w.last < self.have
                &&& w.newest - w.first < self.taps
                &&& w.row + self.taps <= self.ratio.l * self.taps
            },
    {
        let (q, p) = self.split();
        let newest: u64 = q + (self.taps / 2) as u64;
        let first: u64 = if newest + 1 < self.taps as u64 {
            0
        } else {
            newest + 1 - self.taps as u64
        };
        if self.have == 0 {
            return None;
        }
        let last: u64 = if newest < self.have {
            newest
        } else {
            self.have - 1
        };
        if last < first {
            return None;
        }
        proof {
            assert(p * self.taps + self.taps <= self.ratio.l * self.taps) by (nonlinear_arith)
                requires
                    p + 1 <= self.ratio.l,
            ;
            assert(self.ratio.l * self.taps <= 0xffff_ffff * 4096) by (nonlinear_arith)
                requires
                    self.ratio.l <= 0xffff_ffff,
                    self.taps <= 4096,
            ;
        }
        let row: u64 = p * self.taps as u64;
        Some(Window { row: row as usize, newest, first, last })
    }

    /// Goes on to the next output frame.
    pub fn advance(&mut self)
        requires
            old(self).valid(),
            old(self).n < u64::MAX,
        ensures
            final(self).valid(),
            *final(self) == old(self).advanced(),
    {
        proof {
            let m = self.ratio.m;
            assert(self.n * m <= (self.n + 1) * m) by (nonlinear_arith)
                requires
                    m >= 1,
            ;
            lemma_div_is_ordered(
                self.n * self.ratio.m,
                (self.n + 1) * self.ratio.m,
                self.ratio.l as int,
            );
        }
        self.n = self.n + 1;
    }
}

/// How many samples are left of a stretch, or one where none is.
pub open spec fn span_left(len: int, pos: int) -> int {
    if len == pos {
        1
    } else {
        len - pos
    }
}

/// How many samples a source says that its current stretch still has: never none, so that what comes
/// after it is not taken for more of the same.
pub fn span_len(len: usize, pos: usize) -> (r: usize)
    requires
        pos <= len,
    ensures
        r == span_left(len as int, pos as int),
{
    if len == pos {
        1
    } else {
        len - pos
    }
}

/// No frame that an output frame is made of has been overwritten: nothing that was read after it
/// went into its slot.
pub proof fn law_window_is_in_the_ring(s: Resampler, f: int, g: int)
    requires
        s.valid(),
        s.window_of() is Some,
        s.window_of()->0.first <= f <= s.window_of()->0.last,
        f < g < s.have,
        s.newest() <= u64::MAX,
    ensures
        f % s.ring as int != g % s.ring as int,
{
    let c = s.ring as int;
    assert(0 < g - f < c);
    if f % c == g % c {
        lemma_fundamental_div_mod(f, c);
        lemma_fundamental_div_mod(g, c);
        let a = f / c;
        let b = g / c;
        assert(g - f == c * (b - a)) by (nonlinear_arith)
            requires
                f == c * a + f % c,
                g == c * b + g % c,
                f % c == g % c,
        ;
        assert(false) by (nonlinear_arith)
            requires
                0 < c * (b - a) < c,
        ;
    }
}

/// Long input does not drift: once an input of `s.have` frames has ended, there is an output frame
/// `n` exactly as long as its input time lies before the end of the input plus the reach of the
/// filter, however long the input is.
pub proof fn law_no_drift(s: Resampler)
    requires
        s.valid(),
        s.have >= 1,
    ensures
        s.window_of() is Some <==> s.n * s.ratio.m < (s.have + s.taps - s.lead() - 1) * s.ratio.l,
{
    let t = s.n * s.ratio.m;
    let l = s.ratio.l as int;
    let q = t / l;
    let k = s.have + s.taps - s.lead() - 1;
    assert(t >= 0) by (nonlinear_arith)
        requires
            t == s.n * s.ratio.m,
            s.n >= 0,
            s.ratio.m >= 0,
    ;
    lemma_fundamental_div_mod(t, l);
    lemma_mod_bound(t, l);
    assert(q >= 0) by (nonlinear_arith)
        requires
            t == l * q + t % l,
            0 <= t % l < l,
            t >= 0,
            l >= 1,
    ;
    if q < k {
        assert(t < k * l) by (nonlinear_arith)
            requires
                t == l * q + t % l,
                t % l < l,
                q + 1 <= k,
                l >= 1,
        ;
    } else {
        assert(t >= k * l) by (nonlinear_arith)
            requires
                t == l * q + t % l,
                0 <= t % l,
                q >= k,
                l >= 1,
        ;
    }
}

/// Without any input there is no output.
pub proof fn law_empty_input_ends(s: Resampler)
    requires
        s.have == 0,
    ensures
        s.window_of() is None,
{
}

/// The ring is the least power of two that the filter fits into.
pub proof fn law_ring_size(k: nat, taps: nat)
    requires
        k >= 1,
        k < taps <= 2 * k,
        crate::double::is_power(k),
    ensures
        power_from(1, taps) == 2 * k,
{
    lemma_powers_lead_up(1, k, taps);
    assert(power_from(2 * k, taps) == 2 * k);
}

proof fn lemma_powers_lead_up(p: nat, k: nat, n: nat)
    requires
        crate::double::is_power(k),
        p == 1,
        k < n,
    ensures
        power_from(p, n) == power_from(2 * k, n),
    decreases k,
{
    if k > 1 {
        assert(k / 2 * 2 == k);
        lemma_powers_lead_up(p, k / 2, n);
        assert(2 * (k / 2) == k);
        assert(power_from(k, n) == power_from(2 * k, n));
    }
}

/// The window of an output frame lies around its input time: it is as many frames long as the filter,
/// half of them ahead, and its row is that of the part of a frame that the time is behind a frame.
pub proof fn law_window_lies_around_its_time(s: Resampler)
    requires
        s.valid(),
        s.window_of() is Some,
        s.newest() <= u64::MAX,
        s.ratio.l * s.taps <= usize::MAX,
    ensures
        ({
            let w = s.window_of()->0;
            let part = s.n * s.ratio.m - s.ratio.l * (w.newest - s.taps as int / 2);
            &&& 0 <= part < s.ratio.l
            &&& w.row == part * s.taps
            &&& w.first == if w.newest + 1 < s.taps {
                0
            } else {
                w.newest + 1 - s.taps
            }
            &&& s.have > w.newest ==> w.last == w.newest
            &&& s.have <= w.newest ==> w.last == s.have - 1
        }),
{
    let t = s.n * s.ratio.m;
    let l = s.ratio.l as int;
    lemma_fundamental_div_mod(t, l);
    lemma_mod_bound(t, l);
    let w = s.window_of()->0;
    let part = t % l;
    assert(0 <= part * s.taps <= s.ratio.l * s.taps) by (nonlinear_arith)
        requires
            0 <= part < l,
            l == s.ratio.l,
            s.taps >= 0,
    ;
    assert(s.n * s.ratio.m >= 0) by (nonlinear_arith)
        requires
            s.n >= 0,
            s.ratio.m >= 0,
    ;
    assert(t / l >= 0) by (nonlinear_arith)
        requires
            t >= 0,
            l >= 1,
    ;
    assert(w.newest - s.taps as int / 2 == t / l);
}

/// Input is read as long as it lasts, up to the newest frame that the next output frame uses; each
/// frame counts once, and each output frame once.
pub proof fn law_frames_count_once(s: Resampler)
    requires
        s.have < u64::MAX,
        s.n < u64::MAX,
    ensures
        s.wants() <==> !s.ended && s.have <= s.newest(),
        s.fed(true).have == s.have + 1,
        s.fed(true).n == s.n && s.fed(true).ended == s.ended,
        s.fed(false).ended,
        !s.fed(false).wants(),
        s.fed(false).have == s.have,
        s.advanced().n == s.n + 1,
        s.advanced().have == s.have && s.advanced().ended == s.ended,
        s.restarted().have == 0 && s.restarted().n == 0 && !s.restarted().ended,
        s.restarted().ratio == s.ratio && s.restarted().taps == s.taps && s.restarted().ring == s.ring,
{
}

/// Where the rates are the same every output frame has an input frame of its own.
pub proof fn law_same_rate(r: Ratio, rate: u32)
    requires
        rate > 0,
        leads(r, rate, rate),
        r.l >= 1,
        r.m >= 1,
    ensures
        r.l == 1,
        r.m == 1,
{
    assert(r.l == r.m) by (nonlinear_arith)
        requires
            r.l * rate == r.m * rate,
            rate > 0,
    ;
    assert(r.l as int == r.l as int * 1);
    assert(divides(r.l as int, r.l as int));
    assert(divides(r.l as int, r.m as int));
}

/// A stretch that is not over says how much of it is left, and one that is over says one.
pub proof fn law_span_left(len: int, pos: int)
    requires
        0 <= pos <= len,
    ensures
        span_left(len, pos) > 0,
        pos < len ==> pos + span_left(len, pos) == len,
        span_left(len, len) == 1,
{
}

/// Where a rate is missing the frames stay as they are.
pub proof fn law_missing_rate(r: Ratio, rate: u32)
    ensures
        leads(r, 0, rate) ==> r.l == 1 && r.m == 1,
        leads(r, rate, 0) ==> r.l == 1 && r.m == 1,
{
}

} // verus!
