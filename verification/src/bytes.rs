//! Reading numbers out of runs of bytes.

use vstd::prelude::*;

verus! {

/// The number that the bytes from `at` on denote, lowest byte first.
pub open spec fn le_value(b: Seq<u8>, at: int, n: nat) -> nat
    decreases n,
{
    if n == 0 {
        0
    } else {
        b[at] as nat + 256 * le_value(b, at + 1, (n - 1) as nat)
    }
}

/// Eight bytes denote a number below 2^64.
pub proof fn lemma_le_bound(b: Seq<u8>, at: int)
    ensures
        le_value(b, at, 8) <= 0xffff_ffff_ffff_ffff,
{
    reveal_with_fuel(le_value, 9);
}

/// The number that eight bytes denote, lowest byte first.
pub fn le_u64(b: &[u8], at: usize) -> (r: u64)
    requires
        at + 8 <= b@.len(),
    ensures
        r == le_value(b@, at as int, 8),
{
    let n: usize = b.len();
    let mut v: u64 = 0;
    let mut k: usize = 8;
    proof {
        lemma_le_bound(b@, at as int);
    }
    while k > 0
        invariant
            k <= 8,
            n == b@.len(),
            at + 8 <= n,
            v == le_value(b@, at + k, (8 - k) as nat),
            v < pow256((8 - k) as nat),
        decreases k,
    {
        k = k - 1;
        proof {
            lemma_pow256_step((7 - k) as nat);
            lemma_pow256_max((8 - k) as nat);
            assert(le_value(b@, at + k, (8 - k) as nat) == b@[at + k] as nat + 256 * le_value(
                b@,
                at + k + 1,
                (7 - k) as nat,
            ));
        }
        v = b[at + k] as u64 + 256 * v;
    }
    v
}

/// The powers of 256.
spec fn pow256(n: nat) -> nat
    decreases n,
{
    if n == 0 {
        1
    } else {
        256 * pow256((n - 1) as nat)
    }
}

proof fn lemma_pow256_step(n: nat)
    ensures
        pow256(n + 1) == 256 * pow256(n),
        pow256(n) >= 1,
    decreases n,
{
    if n > 0 {
        lemma_pow256_step((n - 1) as nat);
    }
}

proof fn lemma_pow256_max(n: nat)
    requires
        n <= 8,
    ensures
        pow256(n) <= 0x1_0000_0000_0000_0000,
{
    reveal_with_fuel(pow256, 9);
}

/// The first byte counts once, the next 256 times as much, and so on: eight bytes of a number in
/// base 256 give the number back.
pub proof fn law_lowest_byte_first(b: Seq<u8>, at: int)
    ensures
        le_value(b, at, 0) == 0,
        le_value(b, at, 1) == b[at],
        le_value(b, at, 4) == b[at] + b[at + 1] * 0x100 + b[at + 2] * 0x1_0000 + b[at + 3] * 0x100_0000,
        le_value(b, at, 8) == le_value(b, at, 4) + 0x1_0000_0000 * le_value(b, at + 4, 4),
{
    reveal_with_fuel(le_value, 9);
}

} // verus!
