//! Which input samples of a DSD stream go into which output sample.
//!
//! A DSD stream is one bit per sample at several megahertz. Its output samples are the inner
//! products of a low-pass filter with the last `TAPS` input samples, taken at every `decim`-th
//! input sample. Here it is settled which input that is, block after block; the products themselves
//! are left to the caller.

use crate::engine::dsd::{copy_bytes, push_bytes, NCHUNK, TAPS};
use vstd::prelude::*;
use vstd::slice::slice_subrange;

verus! {

/// The multiples of `step` from `from` up to `to`, in order.
pub open spec fn grid(from: int, to: int, step: int) -> Seq<int>
    decreases to - from,
{
    if step <= 0 || from >= to {
        Seq::empty()
    } else if from % step == 0 {
        seq![from] + grid(from + 1, to, step)
    } else {
        grid(from + 1, to, step)
    }
}

/// Where the output samples of a stretch of input lie: at the multiples of `step`, and not before
/// there is enough input for the filter.
pub open spec fn output_points(from: int, to: int, step: int, lead: int) -> Seq<int> {
    grid(
        if from < lead {
            lead
        } else {
            from
        },
        to,
        step,
    )
}

/// The samples of a byte, the lowest bit first.
pub open spec fn samples_of(b: u8) -> Seq<bool> {
    Seq::new(8, |k: int| (b >> (k as u8)) & 1 == 1)
}

/// The samples of a run of bytes.
pub open spec fn all_samples(s: Seq<u8>) -> Seq<bool> {
    Seq::new(s.len() * 8, |i: int| samples_of(s[i / 8])[i % 8])
}

/// `n` bytes of zero.
pub open spec fn silence(n: nat) -> Seq<u8> {
    Seq::new(n, |i: int| 0u8)
}

/// The last `n` bytes of a stream, with zeros before its start.
pub open spec fn last_bytes(fed: Seq<u8>, n: nat) -> Seq<u8> {
    let s = silence(n) + fed;
    s.subrange(s.len() - n, s.len() as int)
}

proof fn lemma_grid_empty(from: int, to: int, step: int)
    requires
        from >= to,
    ensures
        grid(from, to, step) == Seq::<int>::empty(),
{
}

/// Nothing lies between a point that is no multiple and the next multiple.
proof fn lemma_grid_skip(from: int, next: int, to: int, step: int)
    requires
        step > 0,
        from <= next,
        forall|x: int| from <= x < next ==> #[trigger] (x % step) != 0,
    ensures
        grid(from, to, step) == if next <= to {
            grid(next, to, step)
        } else {
            Seq::<int>::empty()
        },
    decreases next - from,
{
    if from < next {
        assert(from % step != 0);
        lemma_grid_skip(from + 1, next, to, step);
        if from >= to {
            lemma_grid_empty(next, to, step);
        }
    }
}

proof fn lemma_between_multiples(q: int, step: int)
    requires
        step > 0,
        q % step == 0,
    ensures
        forall|x: int| q < x < q + step ==> #[trigger] (x % step) != 0,
        (q + step) % step == 0,
{
    assert forall|x: int| q < x < q + step implies #[trigger] (x % step) != 0 by {
        vstd::arithmetic::div_mod::lemma_fundamental_div_mod(x, step);
        vstd::arithmetic::div_mod::lemma_fundamental_div_mod(q, step);
        if x % step == 0 {
            let a = x / step;
            let b = q / step;
            assert(0 < step * a - step * b < step);
            assert(0 < step * (a - b) < step) by (nonlinear_arith)
                requires
                    0 < step * a - step * b < step,
            ;
            assert(false) by (nonlinear_arith)
                requires
                    0 < step * (a - b) < step,
                    step > 0,
            ;
        }
    }
    vstd::arithmetic::div_mod::lemma_mod_add_multiples_vanish(q, step);
}

proof fn lemma_round_up(from: int, step: int)
    requires
        step > 0,
        from % step != 0,
    ensures
        ({
            let next = from + step - from % step;
            &&& next % step == 0
            &&& forall|x: int| from <= x < next ==> #[trigger] (x % step) != 0
        }),
{
    let low = from - from % step;
    vstd::arithmetic::div_mod::lemma_fundamental_div_mod(from, step);
    assert(low == step * (from / step));
    vstd::arithmetic::div_mod::lemma_mod_multiples_basic(from / step, step);
    assert(step * (from / step) == (from / step) * step) by (nonlinear_arith);
    assert(low % step == 0);
    lemma_between_multiples(low, step);
}

/// Streams of raw bytes, cut into blocks at will, and the windows that the filter sees.
#[derive(Debug)]
pub struct ByteFeed {
    /// How many bytes lie between two output samples.
    pub step: u64,
    /// How many bytes of each channel have been fed.
    pub bytes_in: u64,
    /// The last bytes of each channel.
    pub carry: Vec<Vec<u8>>,
}

impl ByteFeed {
    pub open spec fn valid(&self) -> bool {
        &&& self.step >= 1
        &&& forall|c: int| 0 <= c < self.carry@.len() ==> (#[trigger] self.carry@[c])@.len() == NCHUNK
    }

    /// Whether this feed has taken exactly the given streams.
    pub open spec fn has_taken(&self, fed: Seq<Seq<u8>>) -> bool {
        &&& self.valid()
        &&& fed.len() == self.carry@.len()
        &&& forall|c: int|
            0 <= c < fed.len() ==> (#[trigger] fed[c]).len() == self.bytes_in && self.carry@[c]@
                == last_bytes(fed[c], NCHUNK as nat)
    }

    /// A feed before its first byte.
    pub fn new(channels: usize, step: u64) -> (r: Self)
        requires
            step >= 1,
        ensures
            r.valid(),
            r.step == step,
            r.bytes_in == 0,
            r.carry@.len() == channels,
            r.has_taken(Seq::new(channels as nat, |c: int| Seq::<u8>::empty())),
    {
        let carry = silent_carry(channels);
        let r = ByteFeed { step, bytes_in: 0, carry };
        proof {
            let fed = Seq::new(channels as nat, |c: int| Seq::<u8>::empty());
            assert forall|c: int| 0 <= c < fed.len() implies (#[trigger] fed[c]).len() == r.bytes_in
                && r.carry@[c]@ == last_bytes(fed[c], NCHUNK as nat) by {
                assert(last_bytes(Seq::<u8>::empty(), NCHUNK as nat) =~= silence(NCHUNK as nat));
                assert(r.carry@[c]@ =~= silence(NCHUNK as nat));
            }
        }
        r
    }

    /// Forgets what was fed, as after a jump in the stream.
    pub fn reset(&mut self)
        requires
            old(self).valid(),
        ensures
            final(self).valid(),
            final(self).step == old(self).step,
            final(self).bytes_in == 0,
            final(self).carry@.len() == old(self).carry@.len(),
            forall|c: int|
                0 <= c < final(self).carry@.len() ==> (#[trigger] final(self).carry@[c])@ == silence(
                    NCHUNK as nat,
                ),
    {
        self.carry = silent_carry(self.carry.len());
        self.bytes_in = 0;
    }

    /// Takes one block of every channel, all of one length. The result is what the filter works on:
    /// the bytes of each channel from `NCHUNK` before the block on, and where in them the windows of
    /// the output samples start. A window is `NCHUNK` bytes long and ends right before its sample.
    pub fn feed(&mut self, blocks: &[Vec<u8>]) -> (r: (Vec<Vec<u8>>, Vec<usize>))
        requires
            old(self).valid(),
            old(self).carry@.len() > 0,
            blocks@.len() >= old(self).carry@.len(),
            forall|c: int|
                0 <= c < blocks@.len() ==> (#[trigger] blocks@[c])@.len() == blocks@[0]@.len(),
            blocks@[0]@.len() + NCHUNK <= usize::MAX,
            old(self).bytes_in + blocks@[0]@.len() + old(self).step <= u64::MAX,
        ensures
            final(self).valid(),
            final(self).step == old(self).step,
            final(self).bytes_in == old(self).bytes_in + blocks@[0]@.len(),
            final(self).carry@.len() == old(self).carry@.len(),
            r.0@.len() == old(self).carry@.len(),
            forall|c: int|
                0 <= c < r.0@.len() ==> (#[trigger] r.0@[c])@ == old(self).carry@[c]@ + blocks@[c]@,
            forall|c: int|
                0 <= c < r.0@.len() ==> (#[trigger] final(self).carry@[c])@ == (old(
                    self,
                ).carry@[c]@ + blocks@[c]@).subrange(
                    blocks@[c]@.len() as int,
                    blocks@[c]@.len() + NCHUNK,
                ),
            ({
                let pts = output_points(
                    old(self).bytes_in as int,
                    old(self).bytes_in + blocks@[0]@.len(),
                    old(self).step as int,
                    NCHUNK as int,
                );
                &&& r.1@.len() == pts.len()
                &&& forall|k: int|
                    0 <= k < pts.len() ==> #[trigger] r.1@[k] == pts[k] - old(self).bytes_in && r.1@[k]
                        < blocks@[0]@.len()
            }),
    {
        let len: usize = blocks[0].len();
        let base: u64 = self.bytes_in;
        let mut work: Vec<Vec<u8>> = Vec::new();
        let mut next: Vec<Vec<u8>> = Vec::new();
        let mut ch: usize = 0;
        while ch < self.carry.len()
            invariant
                self.valid(),
                self.step == old(self).step,
                self.bytes_in == base,
                self.carry == old(self).carry,
                blocks@.len() >= self.carry@.len(),
                self.carry@.len() > 0,
                len == blocks@[0]@.len(),
                len + NCHUNK <= usize::MAX,
                forall|c: int|
                    0 <= c < blocks@.len() ==> (#[trigger] blocks@[c])@.len() == blocks@[0]@.len(),
                ch <= self.carry@.len(),
                work@.len() == ch,
                next@.len() == ch,
                forall|c: int|
                    0 <= c < ch ==> (#[trigger] work@[c])@ == self.carry@[c]@ + blocks@[c]@,
                forall|c: int|
                    0 <= c < ch ==> (#[trigger] next@[c])@ == (self.carry@[c]@
                        + blocks@[c]@).subrange(len as int, len + NCHUNK),
            decreases self.carry@.len() - ch,
        {
            let mut w = copy_bytes(self.carry[ch].as_slice());
            push_bytes(&mut w, blocks[ch].as_slice());
            let n: usize = w.len();
            let tail = copy_bytes(slice_subrange(w.as_slice(), n - NCHUNK, n));
            work.push(w);
            next.push(tail);
            ch = ch + 1;
        }
        let end: u64 = base + len as u64;
        let step: u64 = self.step;
        let from: u64 = if base < NCHUNK as u64 {
            NCHUNK as u64
        } else {
            base
        };
        let ghost pts = output_points(base as int, end as int, step as int, NCHUNK as int);
        let mut starts: Vec<usize> = Vec::new();
        let rem: u64 = from % step;
        if from < end {
            let mut q: u64 = if rem == 0 {
                from
            } else {
                from + (step - rem)
            };
            proof {
                if rem != 0 {
                    lemma_round_up(from as int, step as int);
                }
                lemma_grid_skip(from as int, q as int, end as int, step as int);
                if q >= end {
                    lemma_grid_empty(q as int, end as int, step as int);
                }
                assert(starts@.len() + grid(q as int, end as int, step as int).len() == pts.len());
                assert(pts =~= Seq::<int>::empty() + grid(q as int, end as int, step as int));
            }
            while q < end
                invariant
                    step >= 1,
                    base <= q,
                    q % step == 0,
                    end == base + len,
                    end + step <= u64::MAX,
                    starts@.len() <= pts.len(),
                    pts =~= pts.take(starts@.len() as int) + grid(q as int, end as int, step as int),
                    forall|k: int|
                        0 <= k < starts@.len() ==> #[trigger] starts@[k] == pts[k] - base && starts@[k]
                            < len,
                decreases
                        if q < end {
                            end - q
                        } else {
                            0
                        },
            {
                proof {
                    let n = starts@.len() as int;
                    let g = grid(q as int, end as int, step as int);
                    assert(g == seq![q as int] + grid(q + 1, end as int, step as int));
                    assert(pts.len() == n + g.len());
                    assert(g[0] == q);
                    assert((pts.take(n) + g)[n] == q);
                    assert(pts[n] == q);
                    lemma_between_multiples(q as int, step as int);
                    lemma_grid_skip(q + 1, q + step, end as int, step as int);
                    if q + step > end {
                        lemma_grid_empty(q + step, end as int, step as int);
                    }
                    let h = grid(q + step, end as int, step as int);
                    assert(g =~= seq![q as int] + h);
                    assert(pts.take(n + 1) + h =~= pts.take(n) + g);
                }
                starts.push((q - base) as usize);
                q = q + step;
            }
            proof {
                lemma_grid_empty(q as int, end as int, step as int);
                assert(pts.len() == starts@.len());
            }
        } else {
            proof {
                lemma_grid_empty(from as int, end as int, step as int);
            }
        }
        self.carry = next;
        self.bytes_in = end;
        (work, starts)
    }
}

fn silent_carry(channels: usize) -> (r: Vec<Vec<u8>>)
    ensures
        r@.len() == channels,
        forall|c: int| 0 <= c < channels ==> (#[trigger] r@[c])@ == silence(NCHUNK as nat),
{
    let mut r: Vec<Vec<u8>> = Vec::new();
    let mut c: usize = 0;
    while c < channels
        invariant
            c <= channels,
            r@.len() == c,
            forall|k: int| 0 <= k < c ==> (#[trigger] r@[k])@ == silence(NCHUNK as nat),
        decreases channels - c,
    {
        let mut v: Vec<u8> = Vec::new();
        let mut i: usize = 0;
        while i < NCHUNK
            invariant
                i <= NCHUNK,
                v@ =~= silence(i as nat),
            decreases NCHUNK - i,
        {
            v.push(0);
            i = i + 1;
        }
        r.push(v);
        c = c + 1;
    }
    r
}

/// Streams of samples, for decimations at which output samples do not fall between whole bytes.
#[derive(Debug)]
pub struct SampleFeed {
    /// How many samples lie between two output samples.
    pub decim: u64,
    /// How many samples of each channel have been fed.
    pub samples_in: u64,
    /// The last samples of each channel, as many as the filter is long or as there have been.
    pub carry: Vec<Vec<bool>>,
}

/// How many samples are kept after `n`.
pub open spec fn kept(n: int) -> int {
    if n < TAPS {
        n
    } else {
        TAPS as int
    }
}

impl SampleFeed {
    pub open spec fn valid(&self) -> bool {
        &&& self.decim >= 1
        &&& forall|c: int|
            0 <= c < self.carry@.len() ==> (#[trigger] self.carry@[c])@.len() == kept(
                self.samples_in as int,
            )
    }

    /// Whether this feed has taken exactly the given streams.
    pub open spec fn has_taken(&self, fed: Seq<Seq<u8>>) -> bool {
        &&& self.valid()
        &&& fed.len() == self.carry@.len()
        &&& forall|c: int|
            0 <= c < fed.len() ==> (#[trigger] fed[c]).len() * 8 == self.samples_in
                && self.carry@[c]@ == all_samples(fed[c]).subrange(
                self.samples_in - kept(self.samples_in as int),
                self.samples_in as int,
            )
    }

    /// A feed before its first sample.
    pub fn new(channels: usize, decim: u64) -> (r: Self)
        requires
            decim >= 1,
        ensures
            r.decim == decim,
            r.samples_in == 0,
            r.carry@.len() == channels,
            r.has_taken(Seq::new(channels as nat, |c: int| Seq::<u8>::empty())),
    {
        let r = SampleFeed { decim, samples_in: 0, carry: empty_carry(channels) };
        proof {
            let fed = Seq::new(channels as nat, |c: int| Seq::<u8>::empty());
            assert forall|c: int| 0 <= c < fed.len() implies (#[trigger] fed[c]).len() * 8
                == r.samples_in && r.carry@[c]@ == all_samples(fed[c]).subrange(0, 0) by {
                assert(r.carry@[c]@ =~= all_samples(fed[c]).subrange(0, 0));
            }
        }
        r
    }

    /// Forgets what was fed, as after a jump in the stream.
    pub fn reset(&mut self)
        requires
            old(self).valid(),
        ensures
            final(self).valid(),
            final(self).decim == old(self).decim,
            final(self).samples_in == 0,
            final(self).carry@.len() == old(self).carry@.len(),
    {
        self.carry = empty_carry(self.carry.len());
        self.samples_in = 0;
    }

    /// Takes one block of every channel, all of one length. The result is what the filter works on:
    /// the samples of each channel that were kept and those of the block, and where in them the
    /// windows of the output samples end. A window is `TAPS` samples long.
    pub fn feed(&mut self, blocks: &[Vec<u8>]) -> (r: (Vec<Vec<bool>>, Vec<usize>))
        requires
            old(self).valid(),
            old(self).carry@.len() > 0,
            blocks@.len() >= old(self).carry@.len(),
            forall|c: int|
                0 <= c < blocks@.len() ==> (#[trigger] blocks@[c])@.len() == blocks@[0]@.len(),
            blocks@[0]@.len() * 8 + TAPS <= usize::MAX,
            old(self).samples_in + blocks@[0]@.len() * 8 <= u64::MAX,
        ensures
            final(self).valid(),
            final(self).decim == old(self).decim,
            final(self).samples_in == old(self).samples_in + blocks@[0]@.len() * 8,
            final(self).carry@.len() == old(self).carry@.len(),
            r.0@.len() == old(self).carry@.len(),
            forall|c: int|
                0 <= c < r.0@.len() ==> (#[trigger] r.0@[c])@ == old(self).carry@[c]@ + all_samples(
                    blocks@[c]@,
                ),
            forall|c: int|
                0 <= c < r.0@.len() ==> (#[trigger] final(self).carry@[c])@ == last_samples(
                    old(self).carry@[c]@ + all_samples(blocks@[c]@),
                ),
            ({
                let pts = output_points(
                    old(self).samples_in as int,
                    old(self).samples_in + blocks@[0]@.len() * 8,
                    old(self).decim as int,
                    TAPS as int,
                );
                &&& r.1@.len() == pts.len()
                &&& forall|k: int|
                    0 <= k < pts.len() ==> #[trigger] r.1@[k] == pts[k] - (old(self).samples_in - kept(
                        old(self).samples_in as int,
                    )) && TAPS <= r.1@[k]
            }),
    {
        let len: usize = blocks[0].len();
        let carried: usize = self.carry[0].len();
        let base: u64 = self.samples_in - carried as u64;
        let mut work: Vec<Vec<bool>> = Vec::new();
        let mut next: Vec<Vec<bool>> = Vec::new();
        let mut ch: usize = 0;
        while ch < self.carry.len()
            invariant
                self.valid(),
                self.decim == old(self).decim,
                self.samples_in == old(self).samples_in,
                self.carry == old(self).carry,
                blocks@.len() >= self.carry@.len(),
                self.carry@.len() > 0,
                len == blocks@[0]@.len(),
                len * 8 + TAPS <= usize::MAX,
                forall|c: int|
                    0 <= c < blocks@.len() ==> (#[trigger] blocks@[c])@.len() == blocks@[0]@.len(),
                ch <= self.carry@.len(),
                work@.len() == ch,
                next@.len() == ch,
                forall|c: int|
                    0 <= c < ch ==> (#[trigger] work@[c])@ == self.carry@[c]@ + all_samples(
                        blocks@[c]@,
                    ),
                forall|c: int|
                    0 <= c < ch ==> (#[trigger] next@[c])@ == last_samples(
                        self.carry@[c]@ + all_samples(blocks@[c]@),
                    ),
            decreases self.carry@.len() - ch,
        {
            let mut w: Vec<bool> = Vec::new();
            push_samples(&mut w, self.carry[ch].as_slice());
            expand(&mut w, blocks[ch].as_slice());
            let n: usize = w.len();
            let keep: usize = if n < TAPS {
                n
            } else {
                TAPS
            };
            let mut tail: Vec<bool> = Vec::new();
            push_samples(&mut tail, slice_subrange(w.as_slice(), n - keep, n));
            proof {
                assert(tail@ =~= last_samples(w@));
            }
            work.push(w);
            next.push(tail);
            ch = ch + 1;
        }
        let n: usize = carried + len * 8;
        let end: u64 = self.samples_in + len as u64 * 8;
        let ghost pts = output_points(
            self.samples_in as int,
            end as int,
            self.decim as int,
            TAPS as int,
        );
        let mut ends: Vec<usize> = Vec::new();
        let mut local: usize = TAPS;
        proof {
            if n <= TAPS {
                lemma_grid_empty(base + TAPS, end as int, self.decim as int);
            }
            assert(pts =~= pts.take(0) + grid(base + local, end as int, self.decim as int));
        }
        while local < n
            invariant
                self.decim >= 1,
                TAPS <= local,
                n == end - base,
                ends@.len() <= pts.len(),
                local <= n ==> pts =~= pts.take(ends@.len() as int) + grid(
                    base + local,
                    end as int,
                    self.decim as int,
                ),
                n <= TAPS ==> pts.len() == 0,
                n > TAPS ==> local <= n,
                forall|k: int|
                    0 <= k < ends@.len() ==> #[trigger] ends@[k] == pts[k] - base && TAPS <= ends@[k],
            decreases n - local,
        {
            let global: u64 = base + local as u64;
            proof {
                let m = ends@.len() as int;
                let g = grid(global as int, end as int, self.decim as int);
                let h = grid(global + 1, end as int, self.decim as int);
                assert(global % self.decim == (global as int) % (self.decim as int));
                if global as int % self.decim as int == 0 {
                    assert(g == seq![global as int] + h);
                    assert((pts.take(m) + g)[m] == global);
                    assert(pts.take(m + 1) + h =~= pts.take(m) + g);
                } else {
                    assert(g == h);
                }
            }
            if global % self.decim == 0 {
                ends.push(local);
            }
            local = local + 1;
        }
        proof {
            if n > TAPS {
                lemma_grid_empty(base + local, end as int, self.decim as int);
                assert(pts.len() == ends@.len());
            }
        }
        self.carry = next;
        self.samples_in = end;
        (work, ends)
    }
}

/// The last samples, as many as are kept.
pub open spec fn last_samples(s: Seq<bool>) -> Seq<bool> {
    s.subrange(s.len() - kept(s.len() as int), s.len() as int)
}

fn empty_carry(channels: usize) -> (r: Vec<Vec<bool>>)
    ensures
        r@.len() == channels,
        forall|c: int| 0 <= c < channels ==> (#[trigger] r@[c])@.len() == 0,
{
    let mut r: Vec<Vec<bool>> = Vec::new();
    let mut c: usize = 0;
    while c < channels
        invariant
            c <= channels,
            r@.len() == c,
            forall|k: int| 0 <= k < c ==> (#[trigger] r@[k])@.len() == 0,
        decreases channels - c,
    {
        r.push(Vec::new());
        c = c + 1;
    }
    r
}

fn push_samples(out: &mut Vec<bool>, b: &[bool])
    ensures
        final(out)@ == old(out)@ + b@,
{
    let mut i: usize = 0;
    let ghost base = out@;
    while i < b.len()
        invariant
            i <= b@.len(),
            out@ =~= base + b@.take(i as int),
        decreases b@.len() - i,
    {
        out.push(b[i]);
        i = i + 1;
    }
    proof {
        assert(b@.take(b@.len() as int) =~= b@);
    }
}

/// Appends the samples of some bytes.
fn expand(out: &mut Vec<bool>, b: &[u8])
    ensures
        final(out)@ == old(out)@ + all_samples(b@),
{
    let mut i: usize = 0;
    let ghost base = out@;
    while i < b.len()
        invariant
            i <= b@.len(),
            out@ =~= base + all_samples(b@.take(i as int)),
        decreases b@.len() - i,
    {
        let v: u8 = b[i];
        let mut k: u8 = 0;
        let ghost so_far = out@;
        while k < 8
            invariant
                k <= 8,
                out@ =~= so_far + samples_of(v).take(k as int),
            decreases 8 - k,
        {
            out.push((v >> k) & 1 == 1);
            k = k + 1;
        }
        proof {
            lemma_samples_add(b@.take(i as int), seq![v]);
            assert(b@.take(i as int) + seq![v] =~= b@.take(i + 1));
            assert(all_samples(seq![v]) =~= samples_of(v).take(8));
        }
        i = i + 1;
    }
    proof {
        assert(b@.take(b@.len() as int) =~= b@);
    }
}

proof fn lemma_samples_add(a: Seq<u8>, b: Seq<u8>)
    ensures
        all_samples(a + b) == all_samples(a) + all_samples(b),
{
    let l = all_samples(a + b);
    let r = all_samples(a) + all_samples(b);
    assert(l.len() == r.len());
    assert forall|i: int| 0 <= i < l.len() implies l[i] == r[i] by {
        if i < a.len() * 8 {
            assert((a + b)[i / 8] == a[i / 8]);
        } else {
            let j = i - a.len() * 8;
            assert(i / 8 == a.len() + j / 8 && i % 8 == j % 8);
            assert((a + b)[i / 8] == b[j / 8]);
        }
    }
    assert(l =~= r);
}

proof fn lemma_samples_window(a: Seq<u8>, i: int, j: int)
    requires
        0 <= i <= j <= a.len(),
    ensures
        all_samples(a.subrange(i, j)) == all_samples(a).subrange(i * 8, j * 8),
{
    let l = all_samples(a.subrange(i, j));
    let r = all_samples(a).subrange(i * 8, j * 8);
    assert(l.len() == r.len());
    assert forall|k: int| 0 <= k < l.len() implies l[k] == r[k] by {
        assert((i * 8 + k) / 8 == i + k / 8 && (i * 8 + k) % 8 == k % 8);
    }
    assert(l =~= r);
}

proof fn lemma_grid_split(from: int, mid: int, to: int, step: int)
    requires
        from <= mid <= to,
    ensures
        grid(from, to, step) == grid(from, mid, step) + grid(mid, to, step),
    decreases mid - from,
{
    if from < mid {
        lemma_grid_split(from + 1, mid, to, step);
        if step > 0 && from % step == 0 {
            assert(grid(from, to, step) =~= grid(from, mid, step) + grid(mid, to, step));
        }
    } else {
        assert(grid(from, to, step) =~= grid(from, mid, step) + grid(mid, to, step));
    }
}

/// How a stream is cut into blocks makes no difference to where its output samples lie: those of
/// two stretches, one after the other, are those of both together.
pub proof fn law_cuts_do_not_matter(from: int, mid: int, to: int, step: int, lead: int)
    requires
        from <= mid <= to,
    ensures
        output_points(from, to, step, lead) == output_points(from, mid, step, lead)
            + output_points(mid, to, step, lead),
{
    if mid >= lead {
        let start = if from < lead {
            lead
        } else {
            from
        };
        lemma_grid_split(start, mid, to, step);
    } else {
        lemma_grid_empty(lead, mid, step);
        assert(output_points(from, to, step, lead) =~= output_points(from, mid, step, lead)
            + output_points(mid, to, step, lead));
    }
}

/// Every block continues the stream: after it the feed has taken the longer stream, and the window
/// of the output sample at byte `q` holds the bytes of the stream right before `q`, wherever the
/// blocks were cut.
pub proof fn law_windows_follow_the_stream(
    before: ByteFeed,
    after: ByteFeed,
    fed: Seq<Seq<u8>>,
    blocks: Seq<Seq<u8>>,
    c: int,
    q: int,
)
    requires
        before.has_taken(fed),
        after.valid(),
        after.carry@.len() == fed.len(),
        blocks.len() == fed.len(),
        0 <= c < fed.len(),
        forall|k: int|
            0 <= k < fed.len() ==> (#[trigger] blocks[k]).len() == after.bytes_in - before.bytes_in,
        forall|k: int|
            0 <= k < fed.len() ==> (#[trigger] after.carry@[k])@ == (before.carry@[k]@
                + blocks[k]).subrange(blocks[k].len() as int, blocks[k].len() + NCHUNK),
        before.bytes_in <= q <= after.bytes_in,
        q >= NCHUNK,
    ensures
        after.has_taken(Seq::new(fed.len(), |k: int| fed[k] + blocks[k])),
        (before.carry@[c]@ + blocks[c]).subrange(
            q - before.bytes_in,
            q - before.bytes_in + NCHUNK,
        ) == (fed[c] + blocks[c]).subrange(q - NCHUNK, q),
{
    let whole = Seq::new(fed.len(), |k: int| fed[k] + blocks[k]);
    assert forall|k: int| 0 <= k < whole.len() implies (#[trigger] whole[k]).len() == after.bytes_in
        && after.carry@[k]@ == last_bytes(whole[k], NCHUNK as nat) by {
        assert(fed[k].len() == before.bytes_in);
        assert(blocks[k].len() == after.bytes_in - before.bytes_in);
        assert(before.carry@[k]@ == last_bytes(fed[k], NCHUNK as nat));
        assert(after.carry@[k]@ =~= last_bytes(whole[k], NCHUNK as nat));
    }
    assert(fed[c].len() == before.bytes_in);
    assert(blocks[c].len() == after.bytes_in - before.bytes_in);
    assert(before.carry@[c]@ == last_bytes(fed[c], NCHUNK as nat));
    assert((before.carry@[c]@ + blocks[c]).subrange(
        q - before.bytes_in,
        q - before.bytes_in + NCHUNK,
    ) =~= (fed[c] + blocks[c]).subrange(q - NCHUNK, q));
}

/// The same of a feed by samples: after a block it has taken the longer stream, and the window of
/// the output sample at sample `g` holds the samples of the stream right before `g`.
pub proof fn law_sample_windows_follow_the_stream(
    before: SampleFeed,
    after: SampleFeed,
    fed: Seq<Seq<u8>>,
    blocks: Seq<Seq<u8>>,
    c: int,
    g: int,
)
    requires
        before.has_taken(fed),
        after.valid(),
        after.carry@.len() == fed.len(),
        blocks.len() == fed.len(),
        0 <= c < fed.len(),
        forall|k: int|
            0 <= k < fed.len() ==> (#[trigger] blocks[k]).len() * 8 == after.samples_in
                - before.samples_in,
        forall|k: int|
            0 <= k < fed.len() ==> (#[trigger] after.carry@[k])@ == last_samples(
                before.carry@[k]@ + all_samples(blocks[k]),
            ),
        before.samples_in <= g <= after.samples_in,
        g >= TAPS,
    ensures
        after.has_taken(Seq::new(fed.len(), |k: int| fed[k] + blocks[k])),
        ({
            let local = g - (before.samples_in - kept(before.samples_in as int));
            (before.carry@[c]@ + all_samples(blocks[c])).subrange(local - TAPS, local)
                == all_samples(fed[c] + blocks[c]).subrange(g - TAPS, g)
        }),
{
    let whole = Seq::new(fed.len(), |k: int| fed[k] + blocks[k]);
    assert forall|k: int| 0 <= k < whole.len() implies (#[trigger] whole[k]).len() * 8
        == after.samples_in && after.carry@[k]@ == all_samples(whole[k]).subrange(
        after.samples_in - kept(after.samples_in as int),
        after.samples_in as int,
    ) by {
        assert(fed[k].len() * 8 == before.samples_in);
        assert(blocks[k].len() * 8 == after.samples_in - before.samples_in);
        lemma_samples_add(fed[k], blocks[k]);
        assert(after.carry@[k]@ == last_samples(before.carry@[k]@ + all_samples(blocks[k])));
        assert(after.carry@[k]@ =~= all_samples(whole[k]).subrange(
            after.samples_in - kept(after.samples_in as int),
            after.samples_in as int,
        ));
    }
    assert(fed[c].len() * 8 == before.samples_in);
    assert(blocks[c].len() * 8 == after.samples_in - before.samples_in);
    lemma_samples_add(fed[c], blocks[c]);
    let local = g - (before.samples_in - kept(before.samples_in as int));
    assert((before.carry@[c]@ + all_samples(blocks[c])).subrange(local - TAPS, local)
        =~= all_samples(fed[c] + blocks[c]).subrange(g - TAPS, g));
}

/// The two ways of filtering agree: at a decimation of eight times `step` the output samples lie at
/// the same places, counted in bytes and in samples.
pub proof fn law_both_ways_same_places(from: int, to: int, step: int)
    requires
        step >= 1,
        0 <= from <= to,
    ensures
        output_points(from * 8, to * 8, step * 8, TAPS as int) == output_points(
            from,
            to,
            step,
            NCHUNK as int,
        ).map_values(|q: int| q * 8),
{
    let start = if from < NCHUNK {
        NCHUNK as int
    } else {
        from
    };
    lemma_grid_scaled(start, to, step);
}

proof fn lemma_grid_scaled(from: int, to: int, step: int)
    requires
        step >= 1,
    ensures
        grid(from * 8, to * 8, step * 8) == grid(from, to, step).map_values(|q: int| q * 8),
    decreases to - from,
{
    if from >= to {
        assert(grid(from * 8, to * 8, step * 8) =~= grid(from, to, step).map_values(
            |q: int| q * 8,
        ));
    } else {
        lemma_grid_scaled(from + 1, to, step);
        let f = |q: int| q * 8;
        assert((from * 8) % (step * 8) == (from % step) * 8) by {
            lemma_mod_eight(from, step);
        }
        assert forall|x: int| from * 8 < x < from * 8 + 8 implies #[trigger] (x % (step * 8)) != 0 by {
            lemma_mod_eight_between(x, step);
        }
        lemma_grid_skip(from * 8 + 1, from * 8 + 8, to * 8, step * 8);
        if from % step == 0 {
            assert(grid(from, to, step) == seq![from] + grid(from + 1, to, step));
            assert(grid(from * 8, to * 8, step * 8) == seq![from * 8] + grid(
                from * 8 + 1,
                to * 8,
                step * 8,
            ));
            assert(grid(from * 8, to * 8, step * 8) =~= grid(from, to, step).map_values(f));
        } else {
            assert(grid(from * 8, to * 8, step * 8) =~= grid(from, to, step).map_values(f));
        }
    }
}

proof fn lemma_mod_eight(x: int, step: int)
    requires
        step >= 1,
    ensures
        (x * 8) % (step * 8) == (x % step) * 8,
{
    vstd::arithmetic::div_mod::lemma_fundamental_div_mod(x, step);
    let q = x / step;
    let m = x % step;
    assert(x * 8 == q * (step * 8) + m * 8) by (nonlinear_arith)
        requires
            x == step * q + m,
    ;
    assert(0 <= m * 8 < step * 8);
    vstd::arithmetic::div_mod::lemma_fundamental_div_mod_converse(x * 8, step * 8, q, m * 8);
}

proof fn lemma_mod_eight_between(x: int, step: int)
    requires
        step >= 1,
        x % 8 != 0,
    ensures
        x % (step * 8) != 0,
{
    if x % (step * 8) == 0 {
        vstd::arithmetic::div_mod::lemma_fundamental_div_mod(x, step * 8);
        let q = x / (step * 8);
        assert(x == 8 * (step * q)) by (nonlinear_arith)
            requires
                x == (step * 8) * q,
        ;
        assert(x % 8 == 0);
    }
}

/// The two ways of filtering agree: the samples of the bytes in a window are the samples in the
/// window of the same output sample.
pub proof fn law_both_ways_same_windows(stream: Seq<u8>, q: int)
    requires
        NCHUNK <= q <= stream.len(),
    ensures
        all_samples(stream.subrange(q - NCHUNK, q)) == all_samples(stream).subrange(
            q * 8 - TAPS,
            q * 8,
        ),
{
    lemma_samples_window(stream, q - NCHUNK, q);
}

/// The tap that meets sample `bit` of byte `chunk` in a window.
pub open spec fn tap(chunk: int, bit: int) -> int {
    TAPS - 1 - (chunk * 8 + bit)
}

/// Which tap of the filter meets sample `bit` of byte `chunk` in a window: the newest sample meets
/// the first tap.
pub fn tap_of(chunk: usize, bit: usize) -> (r: usize)
    requires
        chunk < NCHUNK,
        bit < 8,
    ensures
        r == tap(chunk as int, bit as int),
        r < TAPS,
{
    TAPS - 1 - (chunk * 8 + bit)
}

/// A table over bytes pairs each tap with the sample that it meets when the window is gone through
/// sample by sample, the newest first.
pub proof fn law_tables_pair_alike(window: Seq<u8>, chunk: int, bit: int)
    requires
        window.len() == NCHUNK,
        0 <= chunk < NCHUNK,
        0 <= bit < 8,
    ensures
        ({
            let tap = TAPS - 1 - (chunk * 8 + bit);
            samples_of(window[chunk])[bit] == all_samples(window)[TAPS - 1 - tap]
        }),
{
    assert((chunk * 8 + bit) / 8 == chunk && (chunk * 8 + bit) % 8 == bit);
}

/// The output samples of a stretch lie at the multiples of the step in it, at every one and nowhere
/// else, once there is enough input for the filter.
pub proof fn law_output_points(from: int, to: int, step: int, lead: int, x: int)
    requires
        step > 0,
        from <= to,
    ensures
        output_points(from, to, step, lead).contains(x) <==> from <= x < to && lead <= x && x % step == 0,
{
    let start = if from < lead {
        lead
    } else {
        from
    };
    lemma_grid_holds(start, to, step, x);
}

proof fn lemma_grid_holds(from: int, to: int, step: int, x: int)
    requires
        step > 0,
    ensures
        grid(from, to, step).contains(x) <==> from <= x < to && x % step == 0,
    decreases to - from,
{
    if from < to {
        lemma_grid_holds(from + 1, to, step, x);
        let rest = grid(from + 1, to, step);
        let all = grid(from, to, step);
        if from % step == 0 {
            assert(all =~= seq![from] + rest);
            assert(all[0] == from);
            if rest.contains(x) {
                let k = choose|k: int| 0 <= k < rest.len() && rest[k] == x;
                assert(all[k + 1] == x);
            }
            if all.contains(x) && x != from {
                let k = choose|k: int| 0 <= k < all.len() && all[k] == x;
                assert(rest[k - 1] == x);
            }
        }
    }
}

/// The first sample of a byte is its lowest bit, and the last its highest; what lies before a stream
/// is zero bytes.
pub proof fn law_samples_of_a_byte(b: u8, n: nat, i: int)
    ensures
        samples_of(b).len() == 8,
        samples_of(b)[0] == (b % 2 == 1),
        samples_of(b)[1] == (b / 2 % 2 == 1),
        samples_of(b)[7] == (b >= 128),
        silence(n).len() == n,
        0 <= i < n ==> silence(n)[i] == 0,
        TAPS == 256,
        NCHUNK == 32,
{
    assert((b >> 0u8) & 1 == b % 2) by (bit_vector);
    assert((b >> 1u8) & 1 == b / 2 % 2) by (bit_vector);
    assert((b >> 7u8) & 1 == 1 <==> b >= 128) by (bit_vector);
}

/// The last bytes of a stream are its end, with zeros in front where it is shorter.
pub proof fn law_last_bytes(fed: Seq<u8>, n: nat, i: int)
    requires
        0 <= i < n,
    ensures
        last_bytes(fed, n).len() == n,
        fed.len() >= n ==> last_bytes(fed, n) == fed.skip(fed.len() - n),
        i < n - fed.len() ==> last_bytes(fed, n)[i] == 0,
        n - fed.len() <= i ==> last_bytes(fed, n)[i] == fed[i - (n - fed.len())],
{
    if fed.len() >= n {
        assert(last_bytes(fed, n) =~= fed.skip(fed.len() - n));
    }
}

/// The newest sample of a window meets the first tap and the oldest the last; each step back in time
/// is one tap on.
pub proof fn law_taps(chunk: int, bit: int)
    requires
        0 <= chunk < 32,
        0 <= bit < 8,
    ensures
        tap(31, 7) == 0,
        tap(0, 0) == 255,
        0 <= tap(chunk, bit) < 256,
        bit < 7 ==> tap(chunk, bit + 1) == tap(chunk, bit) - 1,
        chunk < 31 ==> tap(chunk + 1, 0) == tap(chunk, 7) - 1,
{
}

/// As many samples are kept as the filter is long, or all there are.
pub proof fn law_kept(n: int)
    requires
        n >= 0,
    ensures
        n <= 256 ==> kept(n) == n,
        n >= 256 ==> kept(n) == 256,
{
}

} // verus!
