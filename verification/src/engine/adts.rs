//! AAC in ADTS: the frame headers, the frames of a stream, and the configuration that a decoder
//! needs.

use crate::double::{
    lemma_span_bound, lemma_span_near, lemma_start, lemma_time_bound, lemma_units_near, product,
    seconds_of, span, span_ns, Double,
};
use crate::error::{AppError, E_DECODE};
use vstd::prelude::*;

verus! {

/// The sample rates that a header can name, by their index.
pub const ADTS_RATES: [u32; 13] = [
    96000,
    88200,
    64000,
    48000,
    44100,
    32000,
    24000,
    22050,
    16000,
    12000,
    11025,
    8000,
    7350,
];

/// How many samples of each channel a frame holds.
pub const AAC_FRAME_SAMPLES: u64 = 1024;

/// Counting the frames of a stream stops here.
pub const MAX_FRAMES: u64 = 20_000_000;

/// The length of a header without a checksum.
pub const HEADER: usize = 7;

#[derive(Debug, Clone, Copy, PartialEq, Eq, Structural)]
pub struct AdtsHeader {
    /// Whether the header has no checksum and is seven bytes long, not nine.
    pub protection_absent: bool,
    pub freq_index: u8,
    pub sample_rate: u32,
    /// The channel configuration, from 1 to 7.
    pub channel_config: u8,
    /// The audio object type: 1 is main, 2 low complexity, 3 scalable rate, 4 long-term prediction.
    pub aot: u8,
    /// The length of the frame, header included.
    pub frame_len: usize,
}

/// What the first bytes of a frame say: twelve set bits, a version bit, a layer of 00, the checksum
/// flag; two bits of profile, four of the rate's index, a private bit, three of the channel
/// configuration; four flags; thirteen bits of the frame's length.
pub open spec fn header_of(b: Seq<u8>) -> Option<AdtsHeader> {
    let index = b[2] as int / 4 % 16;
    let config = b[2] as int % 2 * 4 + b[3] as int / 64;
    if b.len() < HEADER || b[0] != 0xff || b[1] as int / 16 != 15 || b[1] as int / 2 % 4 != 0 {
        None
    } else if index >= ADTS_RATES@.len() || config == 0 {
        None
    } else {
        Some(
            AdtsHeader {
                protection_absent: b[1] as int % 2 == 1,
                freq_index: index as u8,
                sample_rate: ADTS_RATES@[index],
                channel_config: config as u8,
                aot: (b[2] as int / 64 + 1) as u8,
                frame_len: (b[3] as int % 4 * 2048 + b[4] as int * 8 + b[5] as int / 32) as usize,
            },
        )
    }
}

/// Reads the header of a frame. A stream that leaves the channels to its contents is not taken.
pub fn parse_header(b: &[u8]) -> (r: Option<AdtsHeader>)
    ensures
        r == header_of(b@),
        r matches Some(h) ==> 1 <= h.channel_config <= 7 && 1 <= h.aot <= 4 && h.freq_index < 13
            && h.frame_len <= 8191 && 7350 <= h.sample_rate <= 96000,
{
    if b.len() < HEADER {
        return None;
    }
    if b[0] != 0xff || b[1] / 16 != 15 || b[1] / 2 % 4 != 0 {
        return None;
    }
    let freq_index: u8 = b[2] / 4 % 16;
    let channel_config: u8 = b[2] % 2 * 4 + b[3] / 64;
    if freq_index as usize >= ADTS_RATES.len() || channel_config == 0 {
        return None;
    }
    let frame_len: usize = b[3] as usize % 4 * 2048 + b[4] as usize * 8 + b[5] as usize / 32;
    let sample_rate: u32 = ADTS_RATES[freq_index as usize];
    Some(
        AdtsHeader {
            protection_absent: b[1] % 2 == 1,
            freq_index,
            sample_rate,
            channel_config,
            aot: b[2] / 64 + 1,
            frame_len,
        },
    )
}

/// The two bytes of configuration that a decoder wants: five bits of object type, four of the
/// rate's index, four of the channel configuration, three of 0.
pub open spec fn config_of(h: AdtsHeader) -> Seq<u8> {
    seq![
        (h.aot as int % 32 * 8 + h.freq_index as int % 16 / 2) as u8,
        (h.freq_index as int % 2 * 128 + h.channel_config as int % 16 * 8) as u8,
    ]
}

/// The configuration that a decoder wants.
pub fn audio_specific_config(h: &AdtsHeader) -> (r: [u8; 2])
    ensures
        r@ == config_of(*h),
{
    let first: u8 = h.aot % 32 * 8 + h.freq_index % 16 / 2;
    let second: u8 = h.freq_index % 2 * 128 + h.channel_config % 16 * 8;
    let r = [first, second];
    proof {
        assert(r@ =~= config_of(*h));
    }
    r
}

/// A decoder reads back from the configuration what the header said.
pub proof fn law_config_tells_all(h: AdtsHeader)
    requires
        h.aot < 32,
        h.freq_index < 16,
        h.channel_config < 16,
    ensures
        config_of(h)[0] as int / 8 == h.aot,
        config_of(h)[0] as int % 8 * 2 + config_of(h)[1] as int / 128 == h.freq_index,
        config_of(h)[1] as int / 8 % 16 == h.channel_config,
        config_of(h)[1] as int % 8 == 0,
{
}

/// The place of a channel.
#[derive(Debug, Clone, Copy, PartialEq, Eq, Structural)]
pub enum Place {
    FrontLeft,
    FrontRight,
    FrontCentre,
    LowFrequency,
    RearLeft,
    RearRight,
    RearCentre,
}

/// The places that a channel configuration has channels in.
pub open spec fn places_of(config: int) -> Seq<Place> {
    let front = seq![Place::FrontLeft, Place::FrontRight, Place::FrontCentre];
    let low = seq![Place::LowFrequency];
    let rear = seq![Place::RearLeft, Place::RearRight];
    let centre = seq![Place::RearCentre];
    if config == 1 || config == 2 || config == 3 {
        front.take(config)
    } else if config == 4 {
        front + centre
    } else if config == 5 {
        front + rear
    } else if config == 6 {
        front + low + rear
    } else {
        front + low + rear + centre
    }
}

/// The places that a channel configuration has channels in. An unknown configuration counts as the
/// largest.
pub fn channels_of(config: u8) -> (r: Vec<Place>)
    ensures
        r@ == places_of(config as int),
        1 <= config <= 7 ==> r@.len() == config,
{
    let mut r: Vec<Place> = Vec::new();
    r.push(Place::FrontLeft);
    if config != 1 {
        r.push(Place::FrontRight);
        if config != 2 {
            r.push(Place::FrontCentre);
        }
    }
    if config == 0 || config >= 6 {
        r.push(Place::LowFrequency);
    }
    if config == 0 || config >= 5 {
        r.push(Place::RearLeft);
        r.push(Place::RearRight);
    }
    if config == 0 || config == 4 || config >= 7 {
        r.push(Place::RearCentre);
    }
    assert(r@ =~= places_of(config as int));
    r
}

/// The header at some place in a stream, if there is one that gives a usable length.
pub open spec fn frame_at(file: Seq<u8>, off: int) -> Option<AdtsHeader> {
    if off + HEADER > file.len() {
        None
    } else {
        match header_of(file.subrange(off, off + HEADER)) {
            Some(h) => if h.frame_len < HEADER {
                None
            } else {
                Some(h)
            },
            None => None,
        }
    }
}

/// Where a walk from header to header ends that starts at `off` and passes at most `left` frames.
pub open spec fn walk_end(file: Seq<u8>, off: int, left: nat) -> int
    decreases left,
{
    if left == 0 {
        off
    } else {
        match frame_at(file, off) {
            Some(h) => walk_end(file, off + h.frame_len, (left - 1) as nat),
            None => off,
        }
    }
}

/// How many frames such a walk passes.
pub open spec fn walk_count(file: Seq<u8>, off: int, left: nat) -> nat
    decreases left,
{
    if left == 0 {
        0
    } else {
        match frame_at(file, off) {
            Some(h) => 1 + walk_count(file, off + h.frame_len, (left - 1) as nat),
            None => 0,
        }
    }
}

fn header_at(file: &[u8], off: usize) -> (r: Option<AdtsHeader>)
    requires
        off + HEADER <= usize::MAX,
    ensures
        r == frame_at(file@, off as int),
        r matches Some(h) ==> HEADER <= h.frame_len <= 8191,
{
    let n: usize = file.len();
    if off > n || n - off < HEADER {
        return None;
    }
    match parse_header(vstd::slice::slice_subrange(file, off, off + HEADER)) {
        Some(h) => if h.frame_len < HEADER {
            None
        } else {
            Some(h)
        },
        None => None,
    }
}

/// Walks from header to header, past at most `target` frames: where that ends, and how many frames
/// were passed.
fn walk(file: &[u8], target: u64) -> (r: (usize, u64))
    requires
        file@.len() + 8191 + HEADER <= usize::MAX,
    ensures
        r.0 == walk_end(file@, 0, target as nat),
        r.1 == walk_count(file@, 0, target as nat),
        r.1 <= target,
        r.0 <= file@.len() + 8191,
{
    let mut off: usize = 0;
    let mut n: u64 = 0;
    while n < target
        invariant
            file@.len() + 8191 + HEADER <= usize::MAX,
            n <= target,
            off <= file@.len() + 8191,
            walk_end(file@, 0, target as nat) == walk_end(
                file@,
                off as int,
                (target - n) as nat,
            ),
            walk_count(file@, 0, target as nat) == n + walk_count(
                file@,
                off as int,
                (target - n) as nat,
            ),
        decreases target - n,
    {
        match header_at(file, off) {
            Some(h) => {
                off = off + h.frame_len;
                n = n + 1;
            },
            None => {
                return (off, n);
            },
        }
    }
    (off, n)
}

/// How many frames a stream has.
pub fn count_frames(file: &[u8]) -> (r: u64)
    requires
        file@.len() + 8191 + HEADER <= usize::MAX,
    ensures
        r == walk_count(file@, 0, (MAX_FRAMES + 1) as nat),
        r <= MAX_FRAMES + 1,
{
    walk(file, MAX_FRAMES + 1).1
}

/// What playing starts with.
#[derive(Debug, Clone, Copy, PartialEq, Eq, Structural)]
pub struct AdtsStream {
    pub header: AdtsHeader,
    /// The length of the stream in nanoseconds, if it has a frame that can be counted.
    pub total_ns: Option<u64>,
}

/// The length of so many frames, counted in seconds of double precision and then taken to the nearest
/// nanosecond.
pub open spec fn frames_ns(frames: int, rate: int) -> int {
    span_ns((frames * AAC_FRAME_SAMPLES) as nat, rate as nat) as int
}

impl AdtsStream {
    /// Whether this is what a stream says.
    pub open spec fn describes(self, file: Seq<u8>) -> bool {
        let frames = walk_count(file, 0, (MAX_FRAMES + 1) as nat);
        &&& Some(self.header) == header_of(file.subrange(0, HEADER as int))
        &&& self.total_ns == if frames > 0 {
            Some(frames_ns(frames as int, self.header.sample_rate as int) as u64)
        } else {
            None::<u64>
        }
    }
}

/// Looks at a stream: its first header, and its length.
pub fn open(file: &[u8]) -> (r: Result<AdtsStream, AppError>)
    requires
        file@.len() + 8191 + HEADER <= usize::MAX,
    ensures
        r is Ok <==> file@.len() >= HEADER && header_of(file@.subrange(0, HEADER as int)) is Some,
        r matches Ok(s) ==> s.describes(file@),
        r matches Err(e) ==> e.code@ == E_DECODE@ && e.message@ == if file@.len() < HEADER {
            "读取 ADTS 帧头失败: failed to fill whole buffer"@
        } else {
            "不是有效的 ADTS(AAC) 流"@
        },
{
    if file.len() < HEADER {
        return Err(
            AppError::new(E_DECODE, "读取 ADTS 帧头失败: failed to fill whole buffer".to_owned()),
        );
    }
    let header = match parse_header(vstd::slice::slice_subrange(file, 0, HEADER)) {
        Some(h) => h,
        None => {
            return Err(AppError::new(E_DECODE, "不是有效的 ADTS(AAC) 流".to_owned()));
        },
    };
    let frames: u64 = count_frames(file);
    let total_ns: Option<u64> = if frames > 0 {
        let ns: u128 = span(frames * 1024, header.sample_rate as u64);
        proof {
            let x = (frames * AAC_FRAME_SAMPLES) as nat;
            let rate = header.sample_rate as nat;
            lemma_span_bound(x, rate);
            assert(7350 * ns <= 4_000_000_000 * x + 7350) by (nonlinear_arith)
                requires
                    ns * rate <= 4_000_000_000 * x + rate,
                    rate >= 7350,
                    x >= 0,
                    ns >= 0,
            ;
        }
        Some(ns as u64)
    } else {
        None
    };
    Ok(AdtsStream { header, total_ns })
}

/// Which bytes are decoded next.
#[derive(Debug, Clone, Copy, PartialEq, Eq, Structural)]
pub struct Payload {
    /// Where the frame's payload starts in the stream.
    pub start: usize,
    /// Where it ends, which is where reading goes on.
    pub end: usize,
}

/// How long a header is.
pub open spec fn header_len(h: AdtsHeader) -> int {
    if h.protection_absent {
        7
    } else {
        9
    }
}

/// The next payload from `off` on. Frames without one are passed over; at the first thing that is
/// no whole frame the stream ends.
pub open spec fn payload_from(file: Seq<u8>, off: int) -> Option<Payload>
    decreases file.len() - off,
{
    if off < 0 || off + HEADER > file.len() {
        None
    } else {
        match header_of(file.subrange(off, off + HEADER)) {
            None => None,
            Some(h) => {
                let start = off + header_len(h);
                let end = off + h.frame_len;
                if start > file.len() {
                    None
                } else if end <= start {
                    payload_from(file, start)
                } else if end > file.len() {
                    None
                } else {
                    Some(Payload { start: start as usize, end: end as usize })
                }
            },
        }
    }
}

/// The next payload from `off` on, or nothing at the end of the stream.
pub fn next_payload(file: &[u8], off: usize) -> (r: Option<Payload>)
    ensures
        r == payload_from(file@, off as int),
        r matches Some(p) ==> off < p.start < p.end <= file@.len(),
{
    let n: usize = file.len();
    let mut at: usize = off;
    loop
        invariant
            n == file@.len(),
            off <= at,
            at <= n || at == off,
            payload_from(file@, off as int) == payload_from(file@, at as int),
        decreases
                if at <= n {
                    n - at
                } else {
                    0
                },
    {
        if at > n || n - at < HEADER {
            return None;
        }
        let h = match parse_header(vstd::slice::slice_subrange(file, at, at + HEADER)) {
            Some(h) => h,
            None => {
                return None;
            },
        };
        let len: usize = if h.protection_absent {
            7
        } else {
            9
        };
        if len > n - at {
            return None;
        }
        if h.frame_len <= len {
            at = at + len;
        } else if h.frame_len > n - at {
            return None;
        } else {
            return Some(Payload { start: at + len, end: at + h.frame_len });
        }
    }
}

/// Where playing goes on after a jump.
#[derive(Debug, Clone, Copy, PartialEq, Eq, Structural)]
pub struct SeekPoint {
    pub offset: usize,
    /// The time stamp there, in samples of a channel.
    pub ts: u64,
}

/// Which frame a point in time falls into, counted in seconds of double precision.
pub open spec fn frame_of_time(pos_ns: nat, rate: nat) -> nat {
    let samples = product(seconds_of(pos_ns), rate);
    samples.num / samples.den / AAC_FRAME_SAMPLES as nat
}

impl SeekPoint {
    /// Whether this is where a jump to a point in time comes out.
    pub open spec fn is_at(self, file: Seq<u8>, pos_ns: nat, rate: nat) -> bool {
        let target = frame_of_time(pos_ns, rate);
        &&& self.offset == walk_end(file, 0, target)
        &&& self.ts == walk_count(file, 0, target) * AAC_FRAME_SAMPLES
    }
}

/// Goes to the frame of a point in time, or as far as there are frames.
pub fn seek(file: &[u8], pos_ns: u64, rate: u32) -> (r: SeekPoint)
    requires
        file@.len() + 8191 + HEADER <= usize::MAX,
        rate <= 96000,
    ensures
        r.is_at(file@, pos_ns as nat, rate as nat),
{
    proof {
        lemma_time_bound(pos_ns, rate as nat);
    }
    let samples: u128 = Double::seconds(pos_ns).times(rate).floor();
    let target: u64 = (samples / 1024) as u64;
    let (offset, n) = walk(file, target);
    SeekPoint { offset, ts: n * AAC_FRAME_SAMPLES }
}

/// Going to the start comes out at the start.
pub proof fn law_seek_to_start(file: Seq<u8>, rate: nat)
    ensures
        walk_end(file, 0, frame_of_time(0, rate)) == 0,
        walk_count(file, 0, frame_of_time(0, rate)) == 0,
{
    assert(0 * rate == 0);
    lemma_start();
}

/// A jump never comes out behind the frame that was asked for, and the time stamp is that of the
/// place it comes out at: no more frames are passed than were asked for, and all of them where the
/// stream has as many.
pub proof fn law_seek_lands_on_a_frame(file: Seq<u8>, target: nat, all: nat)
    requires
        target <= all,
    ensures
        walk_count(file, 0, target) <= target,
        target <= walk_count(file, 0, all) ==> walk_count(file, 0, target) == target,
{
    lemma_walk_prefix(file, 0, target, all);
}

proof fn lemma_walk_prefix(file: Seq<u8>, off: int, target: nat, all: nat)
    requires
        target <= all,
    ensures
        walk_count(file, off, target) <= target,
        target <= walk_count(file, off, all) ==> walk_count(file, off, target) == target,
    decreases target,
{
    if target > 0 {
        if let Some(h) = frame_at(file, off) {
            lemma_walk_prefix(file, off + h.frame_len, (target - 1) as nat, (all - 1) as nat);
        }
    }
}

/// The rates that a header can name.
pub proof fn law_header_rates()
    ensures
        ADTS_RATES@ == seq![
            96_000u32,
            88_200u32,
            64_000u32,
            48_000u32,
            44_100u32,
            32_000u32,
            24_000u32,
            22_050u32,
            16_000u32,
            12_000u32,
            11_025u32,
            8_000u32,
            7_350u32,
        ],
        AAC_FRAME_SAMPLES == 1024,
        HEADER == 7,
{
    assert(ADTS_RATES@ =~= seq![
        96_000u32,
        88_200u32,
        64_000u32,
        48_000u32,
        44_100u32,
        32_000u32,
        24_000u32,
        22_050u32,
        16_000u32,
        12_000u32,
        11_025u32,
        8_000u32,
        7_350u32,
    ]);
}

/// What is written into the bits of a header is read from it: the checksum flag, the profile, the
/// index of the rate, the channel configuration and the length, whatever the other bits are.
pub proof fn law_header_reads_back(
    version: int,
    absent: bool,
    profile: int,
    index: int,
    private: int,
    config: int,
    flags: int,
    len: int,
    rest: int,
    last: u8,
)
    requires
        0 <= version < 2,
        0 <= profile < 4,
        0 <= index < 13,
        0 <= private < 2,
        0 < config < 8,
        0 <= flags < 16,
        0 <= len < 8192,
        0 <= rest < 32,
    ensures
        header_of(
            seq![
                0xffu8,
                (240 + version * 8 + if absent {
                    1int
                } else {
                    0
                }) as u8,
                (profile * 64 + index * 4 + private * 2 + config / 4) as u8,
                (config % 4 * 64 + flags * 4 + len / 2048) as u8,
                (len / 8 % 256) as u8,
                (len % 8 * 32 + rest) as u8,
                last,
            ],
        ) == Some(
            AdtsHeader {
                protection_absent: absent,
                freq_index: index as u8,
                sample_rate: ADTS_RATES@[index],
                channel_config: config as u8,
                aot: (profile + 1) as u8,
                frame_len: len as usize,
            },
        ),
{
    let flag: int = if absent {
        1
    } else {
        0
    };
    let b1: int = 240 + version * 8 + flag;
    let b2: int = profile * 64 + index * 4 + private * 2 + config / 4;
    let b3: int = config % 4 * 64 + flags * 4 + len / 2048;
    let b5: int = len % 8 * 32 + rest;
    assert(b1 / 16 == 15 && b1 / 2 % 4 == 0 && b1 % 2 == flag);
    assert(b2 / 4 % 16 == index && b2 % 2 == config / 4 && b2 / 64 == profile);
    assert(b3 / 64 == config % 4 && b3 % 4 == len / 2048);
    assert(b5 / 32 == len % 8);
    assert(len / 2048 * 2048 + len / 8 % 256 * 8 + len % 8 == len);
}

/// A header starts with twelve set bits and a layer of 0, is seven bytes long at least, and names a
/// rate and its channels.
pub proof fn law_no_header(b: Seq<u8>)
    ensures
        b.len() < 7 ==> header_of(b) is None,
        b.len() >= 7 && b[0] != 0xff ==> header_of(b) is None,
        b.len() >= 7 && b[1] < 0xf0 ==> header_of(b) is None,
        b.len() >= 7 && b[1] as int / 2 % 4 != 0 ==> header_of(b) is None,
        b.len() >= 7 && b[2] as int / 4 % 16 >= 13 ==> header_of(b) is None,
        b.len() >= 7 && b[2] as int % 2 == 0 && b[3] < 64 ==> header_of(b) is None,
{
}

/// The places of the channels, by how many there are: left and right in front, then the centre, one
/// behind, two behind, the low one as well, and all of them.
pub proof fn law_places()
    ensures
        places_of(1) == seq![Place::FrontLeft],
        places_of(2) == seq![Place::FrontLeft, Place::FrontRight],
        places_of(3) == seq![Place::FrontLeft, Place::FrontRight, Place::FrontCentre],
        places_of(4) == seq![
            Place::FrontLeft,
            Place::FrontRight,
            Place::FrontCentre,
            Place::RearCentre,
        ],
        places_of(5) == seq![
            Place::FrontLeft,
            Place::FrontRight,
            Place::FrontCentre,
            Place::RearLeft,
            Place::RearRight,
        ],
        places_of(6) == seq![
            Place::FrontLeft,
            Place::FrontRight,
            Place::FrontCentre,
            Place::LowFrequency,
            Place::RearLeft,
            Place::RearRight,
        ],
        places_of(7) == seq![
            Place::FrontLeft,
            Place::FrontRight,
            Place::FrontCentre,
            Place::LowFrequency,
            Place::RearLeft,
            Place::RearRight,
            Place::RearCentre,
        ],
{
    assert(places_of(1) =~= seq![Place::FrontLeft]);
    assert(places_of(2) =~= seq![Place::FrontLeft, Place::FrontRight]);
    assert(places_of(3) =~= seq![Place::FrontLeft, Place::FrontRight, Place::FrontCentre]);
}

/// A frame is passed by its length: the walk goes on right behind it.
pub proof fn law_walk_goes_from_frame_to_frame(file: Seq<u8>, off: int, left: nat)
    ensures
        frame_at(file, off) matches Some(h) ==> {
            &&& h.frame_len >= 7
            &&& off + 7 <= file.len()
            &&& header_of(file.subrange(off, off + 7)) == Some(h)
            &&& walk_end(file, off, left + 1) == walk_end(file, off + h.frame_len, left)
            &&& walk_count(file, off, left + 1) == 1 + walk_count(file, off + h.frame_len, left)
        },
        frame_at(file, off) is None ==> walk_end(file, off, left) == off && walk_count(file, off, left)
            == 0,
        walk_end(file, off, 0) == off,
        walk_count(file, off, 0) == 0,
{
}

/// A payload starts behind its header, of seven bytes or with the checksum of nine, and ends with
/// its frame; a frame that is cut off has none.
pub proof fn law_payload(file: Seq<u8>, off: int)
    requires
        0 <= off,
        off + 7 <= file.len() <= usize::MAX,
        header_of(file.subrange(off, off + 7)) is Some,
    ensures
        ({
            let h = header_of(file.subrange(off, off + 7))->0;
            let skip: int = if h.protection_absent {
                7
            } else {
                9
            };
            &&& h.frame_len > skip && off + h.frame_len <= file.len() ==> payload_from(file, off) == Some(
                Payload { start: (off + skip) as usize, end: (off + h.frame_len) as usize },
            )
            &&& h.frame_len > skip && off + h.frame_len > file.len() ==> payload_from(file, off) is None
            &&& h.frame_len <= skip && off + skip <= file.len() ==> payload_from(file, off)
                == payload_from(file, off + skip)
        }),
{
}

/// The length of a stream is that of its frames, 1024 samples each, to within two nanoseconds.
pub proof fn law_frames_take_their_time(frames: int, rate: int)
    requires
        0 <= frames <= 20_000_001,
        7_350 <= rate <= 96_000,
    ensures
        2 * frames_ns(frames, rate) * rate <= 2 * (frames * 1024 * 1_000_000_000) + 3 * rate,
        2 * (frames * 1024 * 1_000_000_000) <= 2 * frames_ns(frames, rate) * rate + 3 * rate,
{
    let samples = (frames * 1024) as nat;
    assert(samples * 1_000_000_000 <= 0x20_0000_0000_0000 * rate) by (nonlinear_arith)
        requires
            samples <= 20_000_001 * 1024,
            rate >= 7_350,
    ;
    lemma_span_near(samples, rate as nat);
}

/// The frame of a point in time holds it: it starts no later, and the next one starts behind it, but
/// for the three nanoseconds that double precision may be off.
pub proof fn law_frame_holds_the_time(pos_ns: u64, rate: nat)
    requires
        pos_ns < 0x10_0000_0000_0000,
        rate > 0,
    ensures
        frame_of_time(pos_ns as nat, rate) * 1024 * 1_000_000_000 <= (pos_ns + 3) * rate,
        pos_ns * rate < (frame_of_time(pos_ns as nat, rate) + 1) * 1024 * 1_000_000_000 + 3 * rate,
{
    lemma_units_near(pos_ns, rate);
}

/// A stream is described by its first header, and has a length where it has a frame.
pub proof fn law_stream_description(s: AdtsStream, file: Seq<u8>)
    requires
        s.describes(file),
        file.len() >= 7,
    ensures
        header_of(file.subrange(0, 7)) == Some(s.header),
        frame_at(file, 0) is None ==> s.total_ns is None,
        frame_at(file, 0) is Some ==> s.total_ns is Some,
        s.total_ns matches Some(ns) ==> ns == frames_ns(
            walk_count(file, 0, 20_000_001) as int,
            s.header.sample_rate as int,
        ) as u64,
{
}

/// The time stamp behind a jump counts the samples of the frames that were passed.
pub proof fn law_time_stamps(p: SeekPoint, file: Seq<u8>, pos_ns: nat, rate: nat)
    requires
        p.is_at(file, pos_ns, rate),
    ensures
        p.ts == 1024 * walk_count(file, 0, frame_of_time(pos_ns, rate)),
        p.offset == walk_end(file, 0, frame_of_time(pos_ns, rate)),
        p.ts % 1024 == 0,
{
}

} // verus!
