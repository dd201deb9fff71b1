//! The order of play: shuffling, and which entry of the queue comes next or came before.

use crate::models::{PlayMode, QueueTrack};
use vstd::prelude::*;

verus! {

/// Playing further into a track than this makes "previous" start it over, where the user wants so.
pub const PREVIOUS_RESTART_THRESHOLD_NS: u64 = 3_000_000_000;

/// One step of the xorshift generator.
pub open spec fn xorshift_of(seed: u64) -> u64 {
    let a = seed ^ (seed << 13);
    let b = a ^ (a >> 7);
    b ^ (b << 17)
}

/// `s` with two of its entries exchanged.
pub open spec fn swapped(s: Seq<usize>, i: int, j: int) -> Seq<usize> {
    s.update(i, s[j]).update(j, s[i])
}

/// The Fisher-Yates shuffle from position `i` down, driven by the generator.
pub open spec fn shuffle_from(s: Seq<usize>, seed: u64, i: int) -> Seq<usize>
    decreases i,
{
    if i <= 0 {
        s
    } else {
        let next = xorshift_of(seed);
        shuffle_from(swapped(s, i, next as int % (i + 1)), next, i - 1)
    }
}

/// The numbers from 0 up to `n`.
pub open spec fn identity(n: nat) -> Seq<usize> {
    Seq::new(n, |i: int| i as usize)
}

/// Where `x` stands in `s`.
pub open spec fn place_of(s: Seq<usize>, x: usize) -> Option<int>
    decreases s.len(),
{
    if s.len() == 0 {
        None
    } else if s[0] == x {
        Some(0)
    } else {
        match place_of(s.drop_first(), x) {
            Some(i) => Some(i + 1),
            None => None,
        }
    }
}

/// `s` with `x` exchanged to the front.
pub open spec fn with_first(s: Seq<usize>, x: Option<usize>) -> Seq<usize> {
    match x {
        Some(v) => match place_of(s, v) {
            Some(p) => swapped(s, 0, p),
            None => s,
        },
        None => s,
    }
}

/// The order in which the positions of a queue play: shuffled with the current one in front, or
/// just ascending.
pub open spec fn perm_of(len: nat, idx: Option<usize>, mode: PlayMode, seed: u64) -> Seq<usize> {
    if mode == PlayMode::Shuffle && len > 0 {
        with_first(shuffle_from(identity(len), seed, len - 1), idx)
    } else {
        identity(len)
    }
}

/// Where playing stands in that order.
pub open spec fn perm_start(len: nat, idx: Option<usize>, mode: PlayMode) -> usize {
    if mode == PlayMode::Shuffle && len > 0 {
        0
    } else {
        match idx {
            Some(i) => if len > 0 && i >= len {
                (len - 1) as usize
            } else if len == 0 {
                0
            } else {
                i
            },
            None => 0,
        }
    }
}

/// Whether `p` holds each number below `n` exactly once.
pub open spec fn is_permutation(p: Seq<usize>, n: nat) -> bool {
    &&& p.len() == n
    &&& forall|i: int| 0 <= i < n ==> #[trigger] p[i] < n
    &&& p.no_duplicates()
    &&& forall|k: usize| k < n ==> #[trigger] p.contains(k)
}

proof fn lemma_swap_permutation(p: Seq<usize>, n: nat, i: int, j: int)
    requires
        is_permutation(p, n),
        0 <= i < n,
        0 <= j < n,
    ensures
        is_permutation(swapped(p, i, j), n),
{
    let q = swapped(p, i, j);
    assert forall|k: usize| k < n implies #[trigger] q.contains(k) by {
        assert(p.contains(k));
        let m = choose|m: int| 0 <= m < p.len() && p[m] == k;
        if m == i {
            assert(q[j] == k);
        } else if m == j {
            assert(q[i] == k);
        } else {
            assert(q[m] == k);
        }
    }
}

proof fn lemma_identity_permutation(n: nat)
    requires
        n <= usize::MAX,
    ensures
        is_permutation(identity(n), n),
{
    assert forall|k: usize| k < n implies #[trigger] identity(n).contains(k) by {
        assert(identity(n)[k as int] == k);
    }
}

proof fn lemma_shuffle_permutation(s: Seq<usize>, n: nat, seed: u64, i: int)
    requires
        is_permutation(s, n),
        i < n,
    ensures
        is_permutation(shuffle_from(s, seed, i), n),
    decreases i,
{
    if i > 0 {
        let next = xorshift_of(seed);
        lemma_swap_permutation(s, n, i, next as int % (i + 1));
        lemma_shuffle_permutation(swapped(s, i, next as int % (i + 1)), n, next, i - 1);
    }
}

proof fn lemma_place_of(s: Seq<usize>, x: usize, i: int)
    requires
        0 <= i < s.len(),
        s[i] == x,
        forall|j: int| 0 <= j < i ==> s[j] != x,
    ensures
        place_of(s, x) == Some(i),
    decreases s.len(),
{
    if i > 0 {
        assert(s[0] != x);
        assert forall|j: int| 0 <= j < i - 1 implies s.drop_first()[j] != x by {
            assert(s.drop_first()[j] == s[j + 1]);
        }
        lemma_place_of(s.drop_first(), x, i - 1);
    }
}

proof fn lemma_place_of_none(s: Seq<usize>, x: usize)
    requires
        !s.contains(x),
    ensures
        place_of(s, x) is None,
    decreases s.len(),
{
    if s.len() > 0 {
        assert(s[0] != x);
        assert forall|j: int| 0 <= j < s.drop_first().len() implies s.drop_first()[j] != x by {
            assert(s.drop_first()[j] == s[j + 1]);
        }
        lemma_place_of_none(s.drop_first(), x);
    }
}

proof fn lemma_place_of_found(s: Seq<usize>, x: usize)
    requires
        s.contains(x),
    ensures
        place_of(s, x) matches Some(p) && 0 <= p < s.len() && s[p] == x,
    decreases s.len(),
{
    if s[0] != x {
        let m = choose|m: int| 0 <= m < s.len() && s[m] == x;
        assert(s.drop_first()[m - 1] == x);
        lemma_place_of_found(s.drop_first(), x);
    }
}

/// The order of play visits every entry of the queue exactly once, and a shuffle starts with the
/// entry that is current.
pub proof fn law_order_visits_all(len: nat, idx: Option<usize>, mode: PlayMode, seed: u64)
    requires
        len <= usize::MAX,
    ensures
        is_permutation(perm_of(len, idx, mode, seed), len),
        mode == PlayMode::Shuffle && idx is Some && idx->0 < len ==> perm_of(
            len,
            idx,
            mode,
            seed,
        )[0] == idx->0,
{
    lemma_identity_permutation(len);
    if mode == PlayMode::Shuffle && len > 0 {
        let s = shuffle_from(identity(len), seed, len - 1);
        lemma_shuffle_permutation(identity(len), len, seed, len - 1);
        if let Some(v) = idx {
            if s.contains(v) {
                lemma_place_of_found(s, v);
                lemma_swap_permutation(s, len, 0, place_of(s, v)->0);
            } else {
                lemma_place_of_none(s, v);
            }
        }
    }
}

/// One step of the generator.
pub fn xorshift(seed: u64) -> (r: u64)
    ensures
        r == xorshift_of(seed),
{
    let a: u64 = seed ^ (seed << 13);
    let b: u64 = a ^ (a >> 7);
    b ^ (b << 17)
}

/// Exchanges two entries.
fn swap(v: &mut Vec<usize>, i: usize, j: usize)
    requires
        i < old(v)@.len(),
        j < old(v)@.len(),
    ensures
        final(v)@ == swapped(old(v)@, i as int, j as int),
{
    let a: usize = v[i];
    let b: usize = v[j];
    v.set(i, b);
    v.set(j, a);
}

/// Where a number stands.
fn find_place(v: &[usize], x: usize) -> (r: Option<usize>)
    ensures
        r matches Some(p) ==> p < v@.len() && place_of(v@, x) == Some(p as int),
        r is None ==> place_of(v@, x) is None,
{
    let mut p: usize = 0;
    while p < v.len()
        invariant
            p <= v@.len(),
            forall|j: int| 0 <= j < p ==> v@[j] != x,
        decreases v@.len() - p,
    {
        if v[p] == x {
            proof {
                lemma_place_of(v@, x, p as int);
            }
            return Some(p);
        }
        p = p + 1;
    }
    proof {
        lemma_place_of_none(v@, x);
    }
    None
}

/// The order of play of a queue, and where playing stands in it. The seed is any number; a shuffle
/// depends on nothing else.
pub fn play_order(len: usize, idx: Option<usize>, mode: PlayMode, seed: u64) -> (r: (
    Vec<usize>,
    usize,
))
    ensures
        r.0@ == perm_of(len as nat, idx, mode, seed),
        r.1 == perm_start(len as nat, idx, mode),
        is_permutation(r.0@, len as nat),
{
    let mut v: Vec<usize> = Vec::new();
    let mut k: usize = 0;
    while k < len
        invariant
            k <= len,
            v@ =~= identity(k as nat),
        decreases len - k,
    {
        v.push(k);
        k = k + 1;
    }
    proof {
        law_order_visits_all(len as nat, idx, mode, seed);
        lemma_identity_permutation(len as nat);
    }
    if mode != PlayMode::Shuffle || len == 0 {
        let start: usize = match idx {
            Some(i) => if len == 0 {
                0
            } else if i >= len {
                len - 1
            } else {
                i
            },
            None => 0,
        };
        return (v, start);
    }
    let ghost goal = shuffle_from(identity(len as nat), seed, len - 1);
    let mut s: u64 = seed;
    let mut i: usize = len - 1;
    while i > 0
        invariant
            i < len,
            v@.len() == len,
            goal == shuffle_from(v@, s, i as int),
        decreases i,
    {
        s = xorshift(s);
        let m: u64 = i as u64 + 1;
        let j: usize = (s % m) as usize;
        swap(&mut v, i, j);
        i = i - 1;
    }
    if let Some(cur) = idx {
        if let Some(p) = find_place(v.as_slice(), cur) {
            swap(&mut v, 0, p);
        }
    }
    (v, 0)
}

/// The track ids of a queue in the order of play.
pub open spec fn order_of(queue: Seq<QueueTrack>, mode: PlayMode, perm: Seq<usize>) -> Seq<i64> {
    if mode == PlayMode::Shuffle && perm.len() == queue.len() && perm.len() > 0 {
        perm.map_values(|i: usize| queue[i as int].track_id)
    } else {
        queue.map_values(|q: QueueTrack| q.track_id)
    }
}

/// The track ids of a queue in the order of play.
pub fn playback_order(queue: &[QueueTrack], mode: PlayMode, perm: &[usize]) -> (r: Vec<i64>)
    requires
        forall|i: int| 0 <= i < perm@.len() ==> #[trigger] perm@[i] < queue@.len(),
    ensures
        r@ == order_of(queue@, mode, perm@),
{
    let mut r: Vec<i64> = Vec::new();
    let mut k: usize = 0;
    if mode == PlayMode::Shuffle && perm.len() == queue.len() && perm.len() > 0 {
        while k < perm.len()
            invariant
                k <= perm@.len(),
                forall|i: int| 0 <= i < perm@.len() ==> #[trigger] perm@[i] < queue@.len(),
                r@.len() == k,
                forall|i: int| 0 <= i < k ==> #[trigger] r@[i] == queue@[perm@[i] as int].track_id,
            decreases perm@.len() - k,
        {
            r.push(queue[perm[k]].track_id);
            k = k + 1;
        }
    } else {
        while k < queue.len()
            invariant
                k <= queue@.len(),
                r@.len() == k,
                forall|i: int| 0 <= i < k ==> #[trigger] r@[i] == queue@[i].track_id,
            decreases queue@.len() - k,
        {
            r.push(queue[k].track_id);
            k = k + 1;
        }
    }
    proof {
        assert(r@ =~= order_of(queue@, mode, perm@));
    }
    r
}

/// Every track of the queue is in the order of play, as often as it is in the queue.
pub proof fn law_order_keeps_tracks(queue: Seq<QueueTrack>, idx: Option<usize>, mode: PlayMode, seed: u64)
    requires
        queue.len() <= usize::MAX,
    ensures
        order_of(queue, mode, perm_of(queue.len(), idx, mode, seed)).to_multiset() == queue.map_values(
            |q: QueueTrack| q.track_id,
        ).to_multiset(),
{
    let perm = perm_of(queue.len(), idx, mode, seed);
    let ids = queue.map_values(|q: QueueTrack| q.track_id);
    law_order_visits_all(queue.len(), idx, mode, seed);
    if mode == PlayMode::Shuffle && queue.len() > 0 {
        let f = |i: usize| ids[i as int];
        assert(order_of(queue, mode, perm) =~= perm.map_values(f));
        lemma_identity_permutation(queue.len());
        assert(identity(queue.len()).map_values(f) =~= ids);
        lemma_permuted_multiset(perm, identity(queue.len()), queue.len());
        lemma_map_multiset(perm, identity(queue.len()), f);
    }
}

/// Two permutations hold the same numbers.
proof fn lemma_permuted_multiset(p: Seq<usize>, q: Seq<usize>, n: nat)
    requires
        is_permutation(p, n),
        is_permutation(q, n),
    ensures
        p.to_multiset() == q.to_multiset(),
{
    broadcast use vstd::seq_lib::group_to_multiset_ensures;

    p.lemma_multiset_has_no_duplicates();
    q.lemma_multiset_has_no_duplicates();
    assert forall|k: usize| p.to_multiset().count(k) == q.to_multiset().count(k) by {
        if k < n {
            assert(p.contains(k) && q.contains(k));
        } else {
            assert(!p.contains(k));
            assert(!q.contains(k));
        }
    }
    assert(p.to_multiset() =~= q.to_multiset());
}

/// Mapping keeps the equality of what two sequences hold.
proof fn lemma_map_multiset(a: Seq<usize>, b: Seq<usize>, f: spec_fn(usize) -> i64)
    requires
        a.to_multiset() == b.to_multiset(),
    ensures
        a.map_values(f).to_multiset() == b.map_values(f).to_multiset(),
    decreases a.len(),
{
    broadcast use vstd::seq_lib::group_to_multiset_ensures;

    assert(a.len() == a.to_multiset().len());
    assert(b.len() == b.to_multiset().len());
    if a.len() > 0 {
        let x = a.last();
        assert(a.to_multiset().count(x) > 0);
        assert(b.to_multiset().count(x) > 0);
        assert(b.contains(x));
        let k = choose|k: int| 0 <= k < b.len() && b[k] == x;
        let a2 = a.drop_last();
        let b2 = b.remove(k);
        assert(a =~= a2.push(x));
        assert(a2.to_multiset() =~= a.to_multiset().remove(x));
        assert(b2.to_multiset() =~= b.to_multiset().remove(x));
        lemma_map_multiset(a2, b2, f);
        assert(a.map_values(f) =~= a2.map_values(f).push(f(x)));
        assert(b2.map_values(f) =~= b.map_values(f).remove(k));
        assert(b.map_values(f)[k] == f(x));
        assert(a.map_values(f).to_multiset() =~= a2.map_values(f).to_multiset().insert(f(x)));
        assert(b.map_values(f).remove(k).to_multiset() =~= b.map_values(f).to_multiset().remove(
            f(x),
        ));
        assert(b.map_values(f).to_multiset().count(f(x)) > 0) by {
            assert(b.map_values(f).contains(f(x)));
        }
        assert(b.map_values(f).to_multiset() =~= b2.map_values(f).to_multiset().insert(f(x)));
    } else {
        assert(a.map_values(f) =~= b.map_values(f));
    }
}

/// The entry after `cur`, and the place in the order of play that goes with it. By hand the end of
/// the queue wraps around in every mode; at the natural end of a track, sequential play stops
/// there.
pub open spec fn next_of(
    len: nat,
    idx: Option<usize>,
    mode: PlayMode,
    perm: Seq<usize>,
    perm_pos: usize,
    manual: bool,
) -> (Option<usize>, usize) {
    let cur = match idx {
        Some(i) => i,
        None => 0,
    };
    if len == 0 {
        (None, perm_pos)
    } else {
        match mode {
            PlayMode::Shuffle => if perm_pos + 1 >= perm.len() {
                (Some(perm[0]), 0)
            } else {
                (Some(perm[perm_pos + 1]), (perm_pos + 1) as usize)
            },
            PlayMode::Sequential => if cur + 1 < len {
                (Some((cur + 1) as usize), perm_pos)
            } else if manual {
                (Some(0), perm_pos)
            } else {
                (None, perm_pos)
            },
            _ => (Some(((cur + 1) % len as int) as usize), perm_pos),
        }
    }
}

/// The entry that plays next, and the new place in the order of play.
pub fn next_index(
    len: usize,
    idx: Option<usize>,
    mode: PlayMode,
    perm: &[usize],
    perm_pos: usize,
    manual: bool,
) -> (r: (Option<usize>, usize))
    requires
        idx matches Some(i) ==> i < len,
        is_permutation(perm@, len as nat),
        perm_pos < len || len == 0,
    ensures
        r == next_of(len as nat, idx, mode, perm@, perm_pos, manual),
        r.0 matches Some(n) ==> n < len,
        r.1 < len || len == 0,
{
    if len == 0 {
        return (None, perm_pos);
    }
    let cur: usize = match idx {
        Some(i) => i,
        None => 0,
    };
    match mode {
        PlayMode::Shuffle => {
            let p: usize = perm_pos + 1;
            if p >= perm.len() {
                (Some(perm[0]), 0)
            } else {
                (Some(perm[p]), p)
            }
        },
        PlayMode::Sequential => if cur + 1 < len {
            (Some(cur + 1), perm_pos)
        } else if manual {
            (Some(0), perm_pos)
        } else {
            (None, perm_pos)
        },
        _ => (Some((cur + 1) % len), perm_pos),
    }
}

/// What the step back depends on.
#[derive(Clone, Copy, Debug)]
pub struct PreviousInput<'a> {
    pub len: usize,
    pub current: usize,
    /// How far the current track has played.
    pub pos_ns: u64,
    /// Whether the user wants a track that has played for a while to start over.
    pub restart_on_previous: bool,
    pub play_mode: PlayMode,
    /// The order of play; an empty one counts as ascending.
    pub perm: &'a [usize],
    pub perm_pos: usize,
}

/// Where the step back leads.
#[derive(Clone, Copy, Debug, PartialEq, Eq, Structural)]
pub struct PreviousStep {
    /// The entry to play; the current one starts over.
    pub index: usize,
    /// The place in the order of play.
    pub perm_pos: usize,
}

/// Where the step back leads.
pub open spec fn previous_of(
    len: nat,
    current: usize,
    pos_ns: u64,
    restart_on_previous: bool,
    mode: PlayMode,
    perm: Seq<usize>,
    perm_pos: usize,
) -> PreviousStep {
    if restart_on_previous && pos_ns > PREVIOUS_RESTART_THRESHOLD_NS {
        PreviousStep { index: current, perm_pos }
    } else if mode == PlayMode::Shuffle && perm.len() > 0 {
        let p = if perm_pos == 0 {
            perm.len() - 1
        } else {
            perm_pos - 1
        };
        PreviousStep { index: perm[p], perm_pos: p as usize }
    } else {
        PreviousStep {
            index: if current == 0 {
                (len - 1) as usize
            } else {
                (current - 1) as usize
            },
            perm_pos,
        }
    }
}

/// The step back: to the entry before, wrapping around at the start, or to the start of the current
/// track where the user wants that and it has played for more than three seconds.
pub fn previous_step(inp: PreviousInput<'_>) -> (r: PreviousStep)
    requires
        inp.len > 0,
        inp.perm_pos <= inp.perm@.len() || inp.perm@.len() == 0,
    ensures
        r == previous_of(
            inp.len as nat,
            inp.current,
            inp.pos_ns,
            inp.restart_on_previous,
            inp.play_mode,
            inp.perm@,
            inp.perm_pos,
        ),
{
    if inp.restart_on_previous && inp.pos_ns > PREVIOUS_RESTART_THRESHOLD_NS {
        return PreviousStep { index: inp.current, perm_pos: inp.perm_pos };
    }
    if inp.play_mode == PlayMode::Shuffle && inp.perm.len() > 0 {
        let p: usize = if inp.perm_pos == 0 {
            inp.perm.len() - 1
        } else {
            inp.perm_pos - 1
        };
        return PreviousStep { index: inp.perm[p], perm_pos: p };
    }
    PreviousStep {
        index: if inp.current == 0 {
            inp.len - 1
        } else {
            inp.current - 1
        },
        perm_pos: inp.perm_pos,
    }
}

/// A step forward by hand and then a step back lead to where one was, in every mode.
pub proof fn law_previous_undoes_next(
    len: nat,
    cur: usize,
    mode: PlayMode,
    perm: Seq<usize>,
    perm_pos: usize,
    pos_ns: u64,
)
    requires
        0 < len <= usize::MAX,
        cur < len,
        is_permutation(perm, len),
        perm_pos < len,
        mode == PlayMode::Shuffle ==> perm[perm_pos as int] == cur,
    ensures
        ({
            let (next, next_pos) = next_of(len, Some(cur), mode, perm, perm_pos, true);
            &&& next is Some
            &&& previous_of(len, next->0, pos_ns, false, mode, perm, next_pos) == PreviousStep {
                index: cur,
                perm_pos,
            }
        }),
{
    if cur + 1 < len {
        vstd::arithmetic::div_mod::lemma_small_mod((cur + 1) as nat, len);
    } else {
        assert(cur + 1 == len);
        vstd::arithmetic::div_mod::lemma_mod_self_0(len as int);
    }
}

/// A step of the generator adds to the bits the bits 13 places up, then those 7 places down, then
/// those 17 places up, each without carry; no number but 0 leads to 0.
pub proof fn law_generator(seed: u64, a: u64, b: u64)
    requires
        a == seed ^ ((seed * 8192 % 0x1_0000_0000_0000_0000) as u64),
        b == a ^ a / 128,
    ensures
        xorshift_of(seed) == b ^ ((b * 131_072 % 0x1_0000_0000_0000_0000) as u64),
        seed != 0 ==> xorshift_of(seed) != 0,
        xorshift_of(0) == 0,
{
    assert(seed << 13 == (seed * 8192 % 0x1_0000_0000_0000_0000) as u64) by (bit_vector);
    assert(a >> 7 == a / 128) by (bit_vector);
    assert(b << 17 == (b * 131_072 % 0x1_0000_0000_0000_0000) as u64) by (bit_vector);
    let r = xorshift_of(seed);
    assert(seed != 0 ==> r != 0) by (bit_vector)
        requires
            a == seed ^ (seed << 13),
            b == a ^ (a >> 7),
            r == b ^ (b << 17),
    ;
    assert((0u64 ^ (0u64 << 13)) == 0) by (bit_vector);
    assert((0u64 ^ (0u64 >> 7)) == 0) by (bit_vector);
    assert((0u64 ^ (0u64 << 17)) == 0) by (bit_vector);
}

/// A shuffle settles the places from the last one down: each gets what stands at the place that the
/// generator names among those not settled yet, and is not touched again.
pub proof fn law_shuffle_settles_from_the_end(s: Seq<usize>, seed: u64, i: int)
    requires
        0 < i < s.len(),
    ensures
        shuffle_from(s, seed, i).len() == s.len(),
        shuffle_from(s, seed, i)[i] == s[xorshift_of(seed) as int % (i + 1)],
        forall|k: int| i < k < s.len() ==> #[trigger] shuffle_from(s, seed, i)[k] == s[k],
        shuffle_from(s, seed, 0) == s,
    decreases i,
{
    let next = xorshift_of(seed);
    let j = next as int % (i + 1);
    let t = swapped(s, i, j);
    assert(0 <= j <= i);
    if i > 1 {
        law_shuffle_settles_from_the_end(t, next, i - 1);
    } else {
        assert(shuffle_from(t, next, 0) == t);
    }
}

/// Except when shuffled, a queue plays in its own order from the entry that is current; a shuffle
/// starts at the front of its order.
pub proof fn law_order_starts_at_the_current(len: nat, idx: Option<usize>, mode: PlayMode, seed: u64, i: int)
    requires
        len <= usize::MAX,
    ensures
        mode != PlayMode::Shuffle && 0 <= i < len ==> perm_of(len, idx, mode, seed)[i] == i,
        mode != PlayMode::Shuffle && idx is Some && idx->0 < len ==> perm_start(len, idx, mode)
            == idx->0,
        mode != PlayMode::Shuffle && idx is Some && idx->0 >= len > 0 ==> perm_start(len, idx, mode)
            == len - 1,
        mode == PlayMode::Shuffle ==> perm_start(len, idx, mode) == 0 || len == 0,
        idx is None ==> perm_start(len, idx, mode) == 0,
        perm_start(0, idx, mode) == 0,
{
}

/// The ids of the order of play are those of the entries that it names, one for one.
pub proof fn law_order_names_the_tracks(queue: Seq<QueueTrack>, mode: PlayMode, perm: Seq<usize>, i: int)
    requires
        is_permutation(perm, queue.len()),
        0 <= i < queue.len(),
    ensures
        order_of(queue, mode, perm).len() == queue.len(),
        mode == PlayMode::Shuffle ==> order_of(queue, mode, perm)[i] == queue[perm[i] as int].track_id,
        mode != PlayMode::Shuffle ==> order_of(queue, mode, perm)[i] == queue[i].track_id,
{
}

/// The next entry is the one behind; behind the last comes the first, except that sequential play
/// ends there by itself. A shuffle goes along its order.
pub proof fn law_next_is_the_one_behind(
    len: nat,
    cur: usize,
    mode: PlayMode,
    perm: Seq<usize>,
    perm_pos: usize,
    manual: bool,
)
    requires
        0 < len <= usize::MAX,
        cur < len,
        perm.len() == len,
        perm_pos < len,
    ensures
        ({
            let (next, at) = next_of(len, Some(cur), mode, perm, perm_pos, manual);
            &&& mode != PlayMode::Shuffle && cur + 1 < len ==> next == Some((cur + 1) as usize)
            &&& mode != PlayMode::Shuffle && mode != PlayMode::Sequential && cur + 1 == len ==> next
                == Some(0usize)
            &&& mode == PlayMode::Sequential && cur + 1 == len && manual ==> next == Some(0usize)
            &&& mode == PlayMode::Sequential && cur + 1 == len && !manual ==> next is None
            &&& mode != PlayMode::Shuffle ==> at == perm_pos
            &&& mode == PlayMode::Shuffle && perm_pos + 1 < len ==> at == perm_pos + 1 && next == Some(
                perm[perm_pos + 1],
            )
            &&& mode == PlayMode::Shuffle && perm_pos + 1 == len ==> at == 0 && next == Some(perm[0])
            &&& next_of(0, Some(cur), mode, perm, perm_pos, manual).0 is None
        }),
{
    if cur + 1 < len {
        vstd::arithmetic::div_mod::lemma_small_mod((cur + 1) as nat, len);
    } else {
        vstd::arithmetic::div_mod::lemma_mod_self_0(len as int);
    }
}

/// The step back leads to the entry in front, and from the first to the last; a track that has
/// played for more than three seconds starts over where the user wants that.
pub proof fn law_previous_is_the_one_in_front(
    len: nat,
    cur: usize,
    pos_ns: u64,
    restart: bool,
    mode: PlayMode,
    perm: Seq<usize>,
    perm_pos: usize,
)
    requires
        0 < len <= usize::MAX,
        cur < len,
        perm.len() == len,
        perm_pos < len,
    ensures
        ({
            let r = previous_of(len, cur, pos_ns, restart, mode, perm, perm_pos);
            &&& restart && pos_ns > 3_000_000_000 ==> r.index == cur && r.perm_pos == perm_pos
            &&& !(restart && pos_ns > 3_000_000_000) ==> {
                &&& mode != PlayMode::Shuffle && cur > 0 ==> r.index == cur - 1
                &&& mode != PlayMode::Shuffle && cur == 0 ==> r.index == len - 1
                &&& mode != PlayMode::Shuffle ==> r.perm_pos == perm_pos
                &&& mode == PlayMode::Shuffle && perm_pos > 0 ==> r.perm_pos == perm_pos - 1 && r.index
                    == perm[perm_pos - 1]
                &&& mode == PlayMode::Shuffle && perm_pos == 0 ==> r.perm_pos == len - 1 && r.index
                    == perm[len - 1]
            }
        }),
{
}

/// An order of play that is empty counts as ascending.
pub proof fn law_previous_without_an_order(len: nat, cur: usize, mode: PlayMode, perm_pos: usize)
    requires
        0 < len <= usize::MAX,
        cur < len,
    ensures
        previous_of(len, cur, 0, false, mode, Seq::empty(), perm_pos) == (PreviousStep {
            index: if cur == 0 {
                (len - 1) as usize
            } else {
                (cur - 1) as usize
            },
            perm_pos,
        }),
{
}

} // verus!
