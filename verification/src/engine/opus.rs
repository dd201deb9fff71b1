//! Ogg Opus: the length of a file, the size of a packet, and the samples that are dropped at the
//! start.

use crate::bytes::{le_u64, le_value};
use crate::double::{lemma_span_near, span, span_ns};
use crate::engine::audio::{bytes_at, ogg_magic};
use crate::error::{AppError, E_DECODE};
use vstd::prelude::*;

verus! {

/// Opus always decodes to this rate.
pub const OPUS_RATE: u32 = 48_000;

/// How many bytes at the end of a file are searched for the last page.
pub const TAIL_SCAN: u64 = 65_536;

/// The length of an Ogg page's head up to its granule position.
pub const PAGE_HEAD: usize = 14;

/// Where the part of a file starts that is searched.
pub open spec fn tail_from(len: nat) -> int {
    if len < TAIL_SCAN {
        0
    } else {
        len - TAIL_SCAN
    }
}

/// Where the end of a file starts that is searched for the last page.
pub fn tail_start(len: u64) -> (r: u64)
    ensures
        r == tail_from(len as nat),
{
    if len < TAIL_SCAN {
        0
    } else {
        len - TAIL_SCAN
    }
}

/// Whether a page starts here that completes a packet.
pub open spec fn is_page(b: Seq<u8>, i: int) -> bool {
    &&& i + PAGE_HEAD < b.len()
    &&& b.subrange(i, i + 4) == ogg_magic()
    &&& le_value(b, i + 6, 8) != u64::MAX
}

/// Whether the page that starts here is the last of its stream.
pub open spec fn is_last_page(b: Seq<u8>, i: int) -> bool {
    is_page(b, i) && b[i + 5] as int / 4 % 2 == 1
}

/// The last place before `upto` where a page starts, or where a stream's last page starts.
pub open spec fn page_before(b: Seq<u8>, upto: int, last: bool) -> Option<int>
    decreases upto,
{
    if upto <= 0 {
        None
    } else if is_page(b, upto - 1) && (last ==> is_last_page(b, upto - 1)) {
        Some(upto - 1)
    } else {
        page_before(b, upto - 1, last)
    }
}

/// The granule position that tells the length of a file, by the file's end: that of the page that
/// ends the stream, else that of the last page that has one.
pub open spec fn granule_of(b: Seq<u8>) -> Option<nat> {
    match page_before(b, b.len() as int, true) {
        Some(i) => Some(le_value(b, i + 6, 8)),
        None => match page_before(b, b.len() as int, false) {
            Some(i) => Some(le_value(b, i + 6, 8)),
            None => None,
        },
    }
}

proof fn lemma_no_page_at_end(b: Seq<u8>, upto: int, last: bool)
    requires
        upto <= b.len(),
    ensures
        page_before(b, upto, last) == page_before(
            b,
            if upto + PAGE_HEAD > b.len() {
                b.len() - PAGE_HEAD
            } else {
                upto
            },
            last,
        ),
    decreases upto,
{
    if upto > 0 && upto + PAGE_HEAD > b.len() {
        lemma_no_page_at_end(b, upto - 1, last);
    }
}

/// The granule position that tells the length of a file, by the file's end.
pub fn last_granule(tail: &[u8]) -> (r: Option<u64>)
    ensures
        r is Some <==> granule_of(tail@) is Some,
        r matches Some(g) ==> g == granule_of(tail@)->0,
{
    let n: usize = tail.len();
    if n < PAGE_HEAD {
        proof {
            lemma_no_page_at_end(tail@, n as int, true);
            lemma_no_page_at_end(tail@, n as int, false);
        }
        return None;
    }
    let ogg: [u8; 4] = [79, 103, 103, 83];
    proof {
        assert(ogg@ =~= ogg_magic());
        lemma_no_page_at_end(tail@, n as int, true);
        lemma_no_page_at_end(tail@, n as int, false);
    }
    let mut fallback: Option<u64> = None;
    let mut i: usize = n - PAGE_HEAD;
    while i > 0
        invariant
            n == tail@.len(),
            i + PAGE_HEAD <= n,
            ogg@ == ogg_magic(),
            page_before(tail@, n as int, true) == page_before(tail@, i as int, true),
            fallback is None ==> page_before(tail@, n as int, false) == page_before(
                tail@,
                i as int,
                false,
            ),
            fallback matches Some(g) ==> page_before(tail@, n as int, false) matches Some(k) && g
                == le_value(tail@, k + 6, 8),
        decreases i,
    {
        i = i - 1;
        if bytes_at(tail, i, ogg.as_slice()) {
            let granule: u64 = le_u64(tail, i + 6);
            if granule != 0xffff_ffff_ffff_ffff {
                if tail[i + 5] / 4 % 2 == 1 {
                    return Some(granule);
                }
                if fallback.is_none() {
                    fallback = Some(granule);
                }
            }
        }
    }
    fallback
}

/// What playing starts with.
#[derive(Debug, Clone, Copy, PartialEq, Eq, Structural)]
pub struct OpusStream {
    pub channels: u16,
    /// How many samples of each channel are still to be dropped.
    pub pre_skip_left: usize,
    /// The length in nanoseconds, if the file's end tells it.
    pub total_ns: Option<u128>,
}

/// The length in nanoseconds of a file that ends at some granule position. What is dropped at the
/// start is part of the position, and not of the length, which is counted in seconds of double
/// precision and then taken to the nearest nanosecond.
pub open spec fn playable_ns(granule: int, pre_skip: int) -> int {
    let samples = if granule < pre_skip {
        0
    } else {
        granule - pre_skip
    };
    span_ns(samples as nat, OPUS_RATE as nat) as int
}

/// What playing a file starts with, by what its head says and by its end.
pub fn open(channel_count: u8, pre_skip: u16, tail: &[u8]) -> (r: Result<OpusStream, AppError>)
    ensures
        r is Ok <==> channel_count != 0,
        r matches Err(e) ==> e.code@ == E_DECODE@ && e.message@ == "Opus 声道数为 0"@,
        r matches Ok(s) ==> s.starts(channel_count, pre_skip, tail@),
{
    if channel_count == 0 {
        return Err(AppError::new(E_DECODE, "Opus 声道数为 0".to_owned()));
    }
    let total_ns: Option<u128> = match last_granule(tail) {
        Some(g) => {
            let playable: u64 = if g < pre_skip as u64 {
                0
            } else {
                g - pre_skip as u64
            };
            Some(span(playable, 48_000))
        },
        None => None,
    };
    Ok(OpusStream { channels: channel_count as u16, pre_skip_left: pre_skip as usize, total_ns })
}

/// How many samples a frame holds at 48 kHz, by the first byte of its packet: from 2.5 to 20 ms for
/// music, 10 or 20 ms for the mixed mode, from 10 to 60 ms for speech.
pub open spec fn frame_samples(toc: u8) -> nat {
    let size = toc as int / 8 % 4;
    let doubled: nat = if size == 0 {
        1
    } else if size == 1 {
        2
    } else if size == 2 {
        4
    } else {
        8
    };
    if toc >= 128 {
        120 * doubled
    } else if toc >= 96 {
        if size % 2 == 1 {
            960
        } else {
            480
        }
    } else if size == 3 {
        2880
    } else {
        480 * doubled
    }
}

/// How many frames a packet holds, where it says so.
pub open spec fn frame_count(packet: Seq<u8>) -> Option<nat> {
    if packet.len() == 0 {
        None
    } else if packet[0] % 4 == 0 {
        Some(1)
    } else if packet[0] % 4 != 3 {
        Some(2)
    } else if packet.len() < 2 || packet[1] % 64 == 0 {
        None
    } else {
        Some((packet[1] % 64) as nat)
    }
}

/// How many samples of each channel a packet holds at 48 kHz: its frames, up to 120 ms.
pub open spec fn packet_samples(packet: Seq<u8>) -> Option<nat> {
    match frame_count(packet) {
        Some(n) => if n * frame_samples(packet[0]) > 5760 {
            None
        } else {
            Some(n * frame_samples(packet[0]))
        },
        None => None,
    }
}

/// Calls `opus_pure::packet::samples_48k`, which reads the length of a packet off its first one or
/// two bytes: the number of frames times the samples of a frame. It fails on a packet that is
/// empty, that gives no number of frames, or that would be longer than 120 ms.
#[verifier::external_body]
fn samples_48k(packet: &[u8]) -> (r: Option<usize>)
    ensures
        r is Some <==> packet_samples(packet@) is Some,
        r matches Some(n) ==> n == packet_samples(packet@)->0,
{
    match opus_pure::packet::samples_48k(packet) {
        Ok(n) => Some(n),
        Err(_) => None,
    }
}

/// What a packet needs to be decoded.
#[derive(Debug, Clone, Copy, PartialEq, Eq, Structural)]
pub struct PacketSize {
    pub per_channel: usize,
    /// The samples of all channels, which the output has to have room for.
    pub need: usize,
}

impl OpusStream {
    /// Whether playing a file starts like this.
    pub open spec fn starts(self, channel_count: u8, pre_skip: u16, tail: Seq<u8>) -> bool {
        &&& self.channels == channel_count
        &&& self.pre_skip_left == pre_skip
        &&& self.total_ns == match granule_of(tail) {
            Some(g) => Some(playable_ns(g as int, pre_skip as int) as u128),
            None => None::<u128>,
        }
    }

    /// Whether a packet needs so much room.
    pub open spec fn fits(self, p: PacketSize, packet: Seq<u8>) -> bool {
        &&& p.per_channel == packet_samples(packet)->0
        &&& p.need == p.per_channel * self.channels
    }

    /// Whether a packet of `n` samples of each channel leads from one state to another, and which of
    /// the samples are played.
    pub open spec fn plays(self, n: usize, now: OpusStream, r: Option<(usize, usize)>) -> bool {
        &&& now == (OpusStream {
            pre_skip_left: (self.pre_skip_left - dropped(self.pre_skip_left, n)) as usize,
            ..self
        })
        &&& r is None <==> self.pre_skip_left > 0 && n <= self.pre_skip_left
        &&& r matches Some((from, len)) ==> {
            &&& from == dropped(self.pre_skip_left, n) * self.channels
            &&& from + len == n * self.channels
        }
    }

    /// What a packet needs to be decoded. Nothing means that there is nothing in it: read on.
    pub fn packet_size(&self, packet: &[u8]) -> (r: Option<PacketSize>)
        ensures
            r is Some <==> packet@.len() > 0 && packet_samples(packet@) is Some && packet_samples(
                packet@,
            )->0 > 0,
            r matches Some(p) ==> self.fits(p, packet@),
    {
        if packet.len() == 0 {
            return None;
        }
        match samples_48k(packet) {
            Some(n) => {
                if n == 0 {
                    return None;
                }
                proof {
                    assert(n <= 5760);
                    assert(n * self.channels <= 5760 * 65535) by (nonlinear_arith)
                        requires
                            n <= 5760,
                            self.channels <= 65535,
                    ;
                }
                Some(PacketSize { per_channel: n, need: n * self.channels as usize })
            },
            None => None,
        }
    }

    /// Takes note that a packet has been decoded to `n` samples of each channel. The result is which
    /// of them are played, as the first and the number of samples of all channels together. Nothing
    /// means that all of them are dropped: read on.
    pub fn decoded(&mut self, n: usize) -> (r: Option<(usize, usize)>)
        requires
            n * old(self).channels <= usize::MAX,
        ensures
            old(self).plays(n, *final(self), r),
    {
        let channels: usize = self.channels as usize;
        let mut from: usize = 0;
        if self.pre_skip_left > 0 {
            let drop: usize = if n < self.pre_skip_left {
                n
            } else {
                self.pre_skip_left
            };
            self.pre_skip_left = self.pre_skip_left - drop;
            if drop == n {
                return None;
            }
            proof {
                assert(drop * channels <= n * channels) by (nonlinear_arith)
                    requires
                        drop <= n,
                ;
            }
            from = drop * channels;
        }
        Some((from, n * channels - from))
    }
}

/// How many of `n` samples are dropped where `left` have to be.
pub open spec fn dropped(left: usize, n: usize) -> int {
    if n < left {
        n as int
    } else {
        left as int
    }
}

/// How many samples are still to be dropped after packets of these lengths.
pub open spec fn left_after(left: int, lengths: Seq<usize>) -> int
    decreases lengths.len(),
{
    if lengths.len() == 0 {
        left
    } else {
        let before = left_after(left, lengths.drop_last());
        before - dropped(before as usize, lengths.last())
    }
}

/// How many samples packets of these lengths have.
pub open spec fn all_of(lengths: Seq<usize>) -> int
    decreases lengths.len(),
{
    if lengths.len() == 0 {
        0
    } else {
        all_of(lengths.drop_last()) + lengths.last()
    }
}

/// However the start of a stream is cut into packets, exactly the samples that have to be dropped
/// are dropped, or all of them where there are fewer.
pub proof fn law_pre_skip(left: usize, lengths: Seq<usize>)
    ensures
        left_after(left as int, lengths) == if all_of(lengths) < left {
            left - all_of(lengths)
        } else {
            0
        },
        all_of(lengths) >= 0,
    decreases lengths.len(),
{
    if lengths.len() > 0 {
        law_pre_skip(left, lengths.drop_last());
    }
}

/// The last 64 KiB of a file are searched, or all of a shorter one.
pub proof fn law_tail(len: nat)
    ensures
        len <= 65_536 ==> tail_from(len) == 0,
        len >= 65_536 ==> len - tail_from(len) == 65_536,
{
}

proof fn lemma_page_before(b: Seq<u8>, upto: int, last: bool, i: int)
    requires
        0 <= i < upto,
        is_page(b, i) && (last ==> is_last_page(b, i)),
        forall|k: int| i < k < upto ==> !(#[trigger] is_page(b, k) && (last ==> is_last_page(b, k))),
    ensures
        page_before(b, upto, last) == Some(i),
    decreases upto,
{
    if i < upto - 1 {
        assert(!(is_page(b, upto - 1) && (last ==> is_last_page(b, upto - 1))));
        lemma_page_before(b, upto - 1, last, i);
    }
}

proof fn lemma_no_page(b: Seq<u8>, upto: int, last: bool)
    requires
        forall|k: int| 0 <= k < upto ==> !(#[trigger] is_page(b, k) && (last ==> is_last_page(b, k))),
    ensures
        page_before(b, upto, last) is None,
    decreases upto,
{
    if upto > 0 {
        assert(!(is_page(b, upto - 1) && (last ==> is_last_page(b, upto - 1))));
        lemma_no_page(b, upto - 1, last);
    }
}

/// The length of a file is told by the page that ends its stream, and where several do by the last
/// of them.
pub proof fn law_last_page_tells(b: Seq<u8>, i: int)
    requires
        0 <= i < b.len(),
        is_last_page(b, i),
        forall|k: int| i < k < b.len() ==> !#[trigger] is_last_page(b, k),
    ensures
        granule_of(b) == Some(le_value(b, i + 6, 8)),
{
    assert forall|k: int| i < k < b.len() implies !(#[trigger] is_page(b, k) && is_last_page(b, k)) by {
        assert(!is_last_page(b, k));
    }
    lemma_page_before(b, b.len() as int, true, i);
}

/// Where no page ends a stream the last page tells the length, and where there is no page nothing
/// does.
pub proof fn law_any_page_tells(b: Seq<u8>, i: int)
    requires
        forall|k: int| 0 <= k < b.len() ==> !#[trigger] is_last_page(b, k),
    ensures
        0 <= i < b.len() && is_page(b, i) && (forall|k: int|
            i < k < b.len() ==> !#[trigger] is_page(b, k)) ==> granule_of(b) == Some(
            le_value(b, i + 6, 8),
        ),
        (forall|k: int| 0 <= k < b.len() ==> !#[trigger] is_page(b, k)) ==> granule_of(b) is None,
{
    assert forall|k: int| 0 <= k < b.len() implies !(#[trigger] is_page(b, k) && is_last_page(b, k)) by {
        assert(!is_last_page(b, k));
    }
    lemma_no_page(b, b.len() as int, true);
    if 0 <= i < b.len() && is_page(b, i) && (forall|k: int|
        i < k < b.len() ==> !#[trigger] is_page(b, k)) {
        lemma_page_before(b, b.len() as int, false, i);
    }
    if forall|k: int| 0 <= k < b.len() ==> !#[trigger] is_page(b, k) {
        lemma_no_page(b, b.len() as int, false);
    }
}

/// A page is known by its magic, gives its position behind six bytes, and says in the third bit of
/// its flags that it ends the stream.
pub proof fn law_page_layout(b: Seq<u8>, i: int)
    requires
        0 <= i,
        i + 14 < b.len(),
    ensures
        is_page(b, i) <==> b[i] == 79 && b[i + 1] == 103 && b[i + 2] == 103 && b[i + 3] == 83 && le_value(
            b,
            i + 6,
            8,
        ) < u64::MAX,
        is_last_page(b, i) <==> is_page(b, i) && (b[i + 5] as int % 8 >= 4),
{
    crate::bytes::lemma_le_bound(b, i + 6);
    let s = b.subrange(i, i + 4);
    if b[i] == 79 && b[i + 1] == 103 && b[i + 2] == 103 && b[i + 3] == 83 {
        assert(s =~= ogg_magic());
    }
    if s == ogg_magic() {
        assert(s[0] == 79 && s[1] == 103 && s[2] == 103 && s[3] == 83);
        assert(s[0] == b[i] && s[1] == b[i + 1] && s[2] == b[i + 2] && s[3] == b[i + 3]);
    }
}

/// A file plays for the samples behind those that are dropped, at 48000 to the second; where all are
/// dropped it plays for no time.
pub proof fn law_playable(granule: int, pre_skip: int)
    requires
        0 <= pre_skip,
        granule < 0x40_0000_0000,
    ensures
        granule <= pre_skip ==> playable_ns(granule, pre_skip) == 0,
        granule > pre_skip ==> {
            let samples = granule - pre_skip;
            let ns = playable_ns(granule, pre_skip);
            &&& 2 * ns * 48_000 <= 2 * samples * 1_000_000_000 + 3 * 48_000
            &&& 2 * samples * 1_000_000_000 <= 2 * ns * 48_000 + 3 * 48_000
        },
{
    if granule > pre_skip {
        lemma_span_near((granule - pre_skip) as nat, 48_000);
    } else {
        lemma_span_near(0, 48_000);
        assert(span_ns(0, 48_000) == 0);
    }
}

/// A stream has the channels and drops the samples that the head of the file names, and its length
/// is that of the file's end.
pub proof fn law_stream_starts(s: OpusStream, channel_count: u8, pre_skip: u16, tail: Seq<u8>)
    requires
        s.starts(channel_count, pre_skip, tail),
    ensures
        s.channels == channel_count,
        s.pre_skip_left == pre_skip,
        granule_of(tail) is None ==> s.total_ns is None,
        granule_of(tail) matches Some(g) ==> s.total_ns == Some(
            playable_ns(g as int, pre_skip as int) as u128,
        ),
{
}

/// The sizes of frames in the order of their configurations: for speech 10, 20, 40 and 60 ms, mixed
/// 10 and 20 ms, for music 2.5, 5, 10 and 20 ms, at 48 samples to the millisecond.
pub proof fn law_frame_sizes(toc: u8)
    ensures
        toc < 96 && toc as int / 8 % 4 == 0 ==> frame_samples(toc) == 10 * 48,
        toc < 96 && toc as int / 8 % 4 == 1 ==> frame_samples(toc) == 20 * 48,
        toc < 96 && toc as int / 8 % 4 == 2 ==> frame_samples(toc) == 40 * 48,
        toc < 96 && toc as int / 8 % 4 == 3 ==> frame_samples(toc) == 60 * 48,
        96 <= toc < 128 && toc as int / 8 % 2 == 0 ==> frame_samples(toc) == 10 * 48,
        96 <= toc < 128 && toc as int / 8 % 2 == 1 ==> frame_samples(toc) == 20 * 48,
        toc >= 128 && toc as int / 8 % 4 == 0 ==> 2 * frame_samples(toc) == 5 * 48,
        toc >= 128 && toc as int / 8 % 4 == 1 ==> frame_samples(toc) == 5 * 48,
        toc >= 128 && toc as int / 8 % 4 == 2 ==> frame_samples(toc) == 10 * 48,
        toc >= 128 && toc as int / 8 % 4 == 3 ==> frame_samples(toc) == 20 * 48,
{
}

/// The two lowest bits of a packet tell how many frames it holds: one, two, two, or as many as the
/// next byte says; together they last no longer than 120 ms.
pub proof fn law_frame_counts(packet: Seq<u8>)
    ensures
        packet.len() > 0 && packet[0] % 4 == 0 ==> frame_count(packet) == Some(1nat),
        packet.len() > 0 && packet[0] % 4 == 1 ==> frame_count(packet) == Some(2nat),
        packet.len() > 0 && packet[0] % 4 == 2 ==> frame_count(packet) == Some(2nat),
        packet.len() > 1 && packet[0] % 4 == 3 && packet[1] % 64 > 0 ==> frame_count(packet) == Some(
            (packet[1] % 64) as nat,
        ),
        packet.len() == 0 ==> frame_count(packet) is None,
        packet_samples(packet) matches Some(n) ==> n <= 120 * 48 && frame_count(packet) is Some && n
            == frame_count(packet)->0 * frame_samples(packet[0]),
{
}

/// The room that a packet needs is that of its samples in every channel.
pub proof fn law_packet_room(s: OpusStream, p: PacketSize, packet: Seq<u8>)
    requires
        s.fits(p, packet),
    ensures
        s.channels == 1 ==> p.need == p.per_channel,
        s.channels == 2 ==> p.need == 2 * p.per_channel,
        p.per_channel == packet_samples(packet)->0,
{
}

/// What is played of a packet is its end: the samples to be dropped come off its front, in every
/// channel, and count down what is still to be dropped.
pub proof fn law_front_is_dropped(s: OpusStream, n: usize, now: OpusStream, r: Option<(usize, usize)>)
    requires
        s.plays(n, now, r),
    ensures
        now.channels == s.channels && now.total_ns == s.total_ns,
        s.pre_skip_left == 0 ==> r is Some && (r->0).0 == 0 && (r->0).1 == n * s.channels && now == s,
        0 < s.pre_skip_left < n ==> r is Some && (r->0).0 == s.pre_skip_left * s.channels && (r->0).1 == n
            * s.channels - (r->0).0 && now.pre_skip_left == 0,
        s.pre_skip_left >= n && s.pre_skip_left > 0 ==> r is None && now.pre_skip_left
            == s.pre_skip_left - n,
{
    assert(0 * s.channels == 0);
}

} // verus!
