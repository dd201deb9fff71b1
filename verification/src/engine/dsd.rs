//! DSD: the containers, what they say, the rate of the output, and the frames of a DSF file.

use crate::bytes::{le_u64, le_value};
use crate::double::{
    lemma_span_bound, lemma_span_near, lemma_time_bound, lemma_units_near, product, seconds_of, span, span_ns, Double,
};
use crate::error::{AppError, E_DECODE};
use crate::engine::audio::{begins_with, bytes_at, bytes_begin, dff_magic, dsf_magic};
use crate::lyrics::{chosen_tag, pick_embedded};
use crate::text::{chars_of, contains, contains_seq};
use vstd::prelude::*;
use vstd::slice::slice_subrange;
use vstd::string::StringExecFns;

verus! {

/// The sample rate of DSD64; other rates are multiples of it.
pub const DSD64_HZ: u32 = 2_822_400;

/// The length of the filter in input samples.
pub const TAPS: usize = 256;

/// How many bytes hold as many input samples as the filter is long.
pub const NCHUNK: usize = 32;

/// The length of a DSF header with its three chunk heads.
pub const DSF_HEAD: usize = 92;

/// `fmt ` with its blank
pub open spec fn fmt_id() -> Seq<u8> {
    seq![102u8, 109u8, 116u8, 32u8]
}

/// `data`
pub open spec fn data_id() -> Seq<u8> {
    seq![100u8, 97u8, 116u8, 97u8]
}

/// Whether these are the first bytes of a DSF file: the file head, then the head of a `fmt ` chunk.
pub open spec fn is_dsf(h: Seq<u8>) -> bool {
    h.len() >= DSF_HEAD && begins_with(h, dsf_magic()) && h.subrange(28, 32) == fmt_id()
}

/// Whether these are the first bytes of a DSDIFF file of the form `DSD `.
pub open spec fn is_dff(h: Seq<u8>) -> bool {
    h.len() >= 16 && begins_with(h, dff_magic()) && h.subrange(12, 16) == dsf_magic()
}

/// Whether the first bytes of a file are those of a DSD container.
pub fn is_dsd_container(head: &[u8]) -> (r: bool)
    ensures
        r == (is_dsf(head@) || is_dff(head@)),
{
    let dsf: [u8; 4] = [68, 83, 68, 32];
    let dff: [u8; 4] = [70, 82, 77, 56];
    let fmt: [u8; 4] = [102, 109, 116, 32];
    proof {
        assert(dsf@ =~= dsf_magic());
        assert(dff@ =~= dff_magic());
        assert(fmt@ =~= fmt_id());
    }
    if head.len() >= DSF_HEAD && bytes_begin(head, dsf.as_slice()) && bytes_at(
        head,
        28,
        fmt.as_slice(),
    ) {
        return true;
    }
    head.len() >= 16 && bytes_begin(head, dff.as_slice()) && bytes_at(head, 12, dsf.as_slice())
}

/// Where the audio starts, going from chunk to chunk from `pos` on: behind the head of the `data`
/// chunk. Each chunk gives its length, its head of twelve bytes included.
pub open spec fn data_from(h: Seq<u8>, pos: nat) -> Option<nat>
    decreases h.len() - pos,
{
    if pos + 12 > h.len() {
        None
    } else if h.subrange(pos as int, pos as int + 4) == data_id() {
        Some(pos + 12)
    } else {
        let size = le_value(h, pos as int + 4, 8);
        if size < 12 || pos + size > h.len() {
            None
        } else {
            data_from(h, pos + size)
        }
    }
}

/// Where the audio of a DSF file starts, by its first bytes. There is no answer for anything else.
pub fn dsf_data_offset(head: &[u8]) -> (r: Option<u64>)
    ensures
        is_dsf(head@) ==> r == match data_from(head@, 28) {
            Some(p) => Some(p as u64),
            None => None::<u64>,
        },
        !is_dsf(head@) ==> r is None,
{
    let dsf: [u8; 4] = [68, 83, 68, 32];
    let fmt: [u8; 4] = [102, 109, 116, 32];
    let data: [u8; 4] = [100, 97, 116, 97];
    proof {
        assert(dsf@ =~= dsf_magic());
        assert(fmt@ =~= fmt_id());
        assert(data@ =~= data_id());
    }
    let n: usize = head.len();
    if n < DSF_HEAD || !bytes_begin(head, dsf.as_slice()) || !bytes_at(head, 28, fmt.as_slice()) {
        return None;
    }
    let mut pos: usize = 28;
    loop
        invariant
            n == head@.len(),
            pos <= n,
            data@ == data_id(),
            is_dsf(head@),
            data_from(head@, 28) == data_from(head@, pos as nat),
        decreases n - pos,
    {
        if n - pos < 12 {
            return None;
        }
        if bytes_at(head, pos, data.as_slice()) {
            return Some(pos as u64 + 12);
        }
        let size: u64 = le_u64(head, pos + 4);
        if size < 12 || size > (n - pos) as u64 {
            return None;
        }
        pos = pos + size as usize;
    }
}

/// Doubles the decimation as long as the output rate stays at 60 kHz or more.
pub open spec fn widened(d: nat, rate: nat) -> nat
    decreases 512 - d,
{
    if d > 0 && d * 2 <= 512 && rate / (d * 2) >= 60_000 {
        widened(d * 2, rate)
    } else {
        d
    }
}

/// By how much the rate is divided: so that the output runs at 88.2 kHz or at 96 kHz where that
/// divides the rate, else by a power of two.
pub open spec fn decimation(rate: nat) -> nat {
    if rate > 88_200 && rate % 88_200 == 0 {
        rate / 88_200
    } else if rate > 96_000 && rate % 96_000 == 0 {
        rate / 96_000
    } else {
        widened(2, rate)
    }
}

/// By how much the rate is divided.
pub fn pick_decimation(rate: u32) -> (r: u32)
    ensures
        r == decimation(rate as nat),
        r >= 1,
{
    if rate > 88_200 && rate % 88_200 == 0 {
        return rate / 88_200;
    }
    if rate > 96_000 && rate % 96_000 == 0 {
        return rate / 96_000;
    }
    let mut d: u32 = 2;
    while d * 2 <= 512 && rate / (d * 2) >= 60_000
        invariant
            2 <= d <= 512,
            widened(2, rate as nat) == widened(d as nat, rate as nat),
        decreases 512 - d,
    {
        d = d * 2;
    }
    d
}

/// Every multiple of DSD64 comes out at 88.2 kHz, and its decimation is a multiple of eight, so that
/// output samples fall between whole bytes.
pub proof fn law_dsd_rates(k: nat)
    requires
        k >= 1,
    ensures
        decimation(k * DSD64_HZ as nat) == 32 * k,
        decimation(k * DSD64_HZ as nat) % 8 == 0,
        k * DSD64_HZ as nat / decimation(k * DSD64_HZ as nat) == 88_200,
{
    let rate = k * DSD64_HZ as nat;
    assert(rate == (32 * k) * 88_200);
    assert(rate / 88_200 == 32 * k && rate % 88_200 == 0);
    assert(88_200 * (32 * k) == rate);
    vstd::arithmetic::div_mod::lemma_div_by_multiple(88_200, 32 * k as int);
}

/// The rate in Hz of a stream that runs at a multiple of DSD64.
pub fn dsd_rate_hz(multiple: i32) -> (r: u32)
    ensures
        r == rate_of(multiple),
{
    if multiple <= 0 {
        return 0;
    }
    proof {
        assert(multiple * DSD64_HZ <= 0x7fff_ffff * 2_822_400) by (nonlinear_arith)
            requires
                multiple <= 0x7fff_ffff,
                DSD64_HZ == 2_822_400,
        ;
    }
    let v: u64 = multiple as u64 * DSD64_HZ as u64;
    if v > 0xffff_ffff {
        0xffff_ffff
    } else {
        v as u32
    }
}

/// The length in nanoseconds of audio of so many bytes, all channels together: eight samples to the
/// byte. Its seconds have to fit into 64 bits.
pub fn duration_of(bytes: u64, rate: u32, channels: u32) -> (r: u128)
    requires
        rate > 1 || channels > 1 || bytes < 0x1fff_ffff_ffff_ff80,
    ensures
        r == length_ns(bytes, rate as int, channels as int),
{
    let bits: u64 = if bytes > 0x1fff_ffff_ffff_ffff {
        0xffff_ffff_ffff_ffff
    } else {
        bytes * 8
    };
    let ch: u64 = if channels == 0 {
        1
    } else {
        channels as u64
    };
    let hz: u64 = if rate == 0 {
        1
    } else {
        rate as u64
    };
    span(bits / ch, hz)
}

/// What a DSD file says of itself.
#[derive(Debug, Clone)]
pub struct DsdMeta {
    pub title: String,
    pub artist: String,
    pub album: String,
    pub genre: String,
    pub year: Option<i64>,
    pub track_no: Option<i64>,
    pub duration_ms: i64,
    pub sample_rate: i64,
    pub channels: i64,
    /// The cover, with the extension that its media type suggests.
    pub picture: Option<(Vec<u8>, &'static str)>,
}

/// The extension that a media type suggests.
pub open spec fn suggested_ext(mime: Seq<char>) -> Seq<char> {
    if contains_seq(mime, "png"@) {
        "png"@
    } else if contains_seq(mime, "gif"@) {
        "gif"@
    } else if contains_seq(mime, "webp"@) {
        "webp"@
    } else {
        "jpg"@
    }
}

/// The extension that a media type suggests.
pub fn picture_ext(mime: &str) -> (r: &'static str)
    ensures
        r@ == suggested_ext(mime@),
{
    let m = chars_of(mime);
    let png = chars_of("png");
    let gif = chars_of("gif");
    let webp = chars_of("webp");
    if contains(m.as_slice(), png.as_slice()) {
        "png"
    } else if contains(m.as_slice(), gif.as_slice()) {
        "gif"
    } else if contains(m.as_slice(), webp.as_slice()) {
        "webp"
    } else {
        "jpg"
    }
}

/// What the tag of a DSD file says.
#[derive(Debug)]
pub struct DsdTag {
    pub title: Option<String>,
    pub artist: Option<String>,
    pub album: Option<String>,
    pub genre: Option<String>,
    pub year: Option<i32>,
    pub track: Option<u32>,
    /// The media type and the bytes of the first picture.
    pub picture: Option<(String, Vec<u8>)>,
}

/// What a DSD container says of its audio.
#[derive(Debug, Clone, Copy, PartialEq, Eq, Structural)]
pub struct DsdFacts {
    /// The rate as a multiple of DSD64.
    pub multiple: i32,
    pub channels: usize,
    /// The bytes of audio, all channels together.
    pub audio_length: u64,
    pub block_size: u32,
}

/// The rate in Hz that a container gives.
pub open spec fn rate_of(multiple: i32) -> int {
    if multiple <= 0 {
        0
    } else if multiple * DSD64_HZ > u32::MAX {
        u32::MAX as int
    } else {
        multiple * DSD64_HZ
    }
}

/// The length in nanoseconds of audio of so many bytes, all channels together: eight samples to the
/// byte. A rate or a channel count of 0 is taken for 1. The length is counted in seconds of double
/// precision, and then taken to the nearest nanosecond.
pub open spec fn length_ns(bytes: u64, rate: int, channels: int) -> int {
    let bits = if bytes * 8 > u64::MAX {
        u64::MAX as int
    } else {
        bytes * 8
    };
    let ch = if channels == 0 {
        1
    } else {
        channels
    };
    let hz = if rate == 0 {
        1
    } else {
        rate
    };
    span_ns((bits / ch) as nat, hz as nat) as int
}

/// A text of a tag, or no text.
pub open spec fn text_or_empty(t: Option<String>) -> Seq<char> {
    match t {
        Some(s) => s@,
        None => Seq::empty(),
    }
}

/// Whether this is what a DSD container and its tag say.
pub open spec fn is_probed(m: DsdMeta, facts: DsdFacts, tag: Option<DsdTag>) -> bool {
    &&& m.channels == facts.channels
    &&& m.sample_rate == rate_of(facts.multiple)
    &&& m.duration_ms == length_ns(
        facts.audio_length,
        rate_of(facts.multiple),
        facts.channels as int,
    ) / 1_000_000
    &&& tag is None ==> {
        &&& m.title@.len() == 0
        &&& m.artist@.len() == 0
        &&& m.album@.len() == 0
        &&& m.genre@.len() == 0
        &&& m.year is None
        &&& m.track_no is None
        &&& m.picture is None
    }
    &&& tag matches Some(t) ==> {
        &&& m.title@ == text_or_empty(t.title)
        &&& m.artist@ == text_or_empty(t.artist)
        &&& m.album@ == text_or_empty(t.album)
        &&& m.genre@ == text_or_empty(t.genre)
        &&& m.year == match t.year {
            Some(y) => Some(y as i64),
            None => None,
        }
        &&& m.track_no == match t.track {
            Some(n) => Some(n as i64),
            None => None,
        }
        &&& m.picture is Some <==> t.picture is Some
        &&& m.picture matches Some(p) ==> p.0@ == (t.picture->0).1@ && p.1@ == suggested_ext(
            (t.picture->0).0@,
        )
    }
}

/// What a DSD container holds, with what its tag adds; nothing where it gives no rate or no
/// channels, or where the file is no DSD container.
pub fn probe(head: &[u8], facts: DsdFacts, tag: Option<DsdTag>) -> (r: Option<DsdMeta>)
    requires
        facts.channels <= u32::MAX,
    ensures
        r is Some <==> (is_dsf(head@) || is_dff(head@)) && facts.multiple > 0 && facts.channels > 0,
        r matches Some(m) ==> is_probed(m, facts, tag),
{
    if !is_dsd_container(head) {
        return None;
    }
    let rate: u32 = dsd_rate_hz(facts.multiple);
    if rate == 0 || facts.channels == 0 {
        return None;
    }
    let ns: u128 = duration_of(facts.audio_length, rate, facts.channels as u32);
    proof {
        lemma_length_fits(facts.audio_length, rate as int, facts.channels as int);
    }
    let mut meta = DsdMeta {
        title: String::new(),
        artist: String::new(),
        album: String::new(),
        genre: String::new(),
        year: None,
        track_no: None,
        duration_ms: (ns / 1_000_000) as i64,
        sample_rate: rate as i64,
        channels: facts.channels as i64,
        picture: None,
    };
    if let Some(t) = tag {
        if let Some(v) = t.title {
            meta.title = v;
        }
        if let Some(v) = t.artist {
            meta.artist = v;
        }
        if let Some(v) = t.album {
            meta.album = v;
        }
        if let Some(v) = t.genre {
            meta.genre = v;
        }
        if let Some(y) = t.year {
            meta.year = Some(y as i64);
        }
        if let Some(n) = t.track {
            meta.track_no = Some(n as i64);
        }
        if let Some((mime, data)) = t.picture {
            let ext = picture_ext(mime.as_str());
            meta.picture = Some((data, ext));
        }
    }
    Some(meta)
}

/// No length of audio that a container can give exceeds what milliseconds can count.
proof fn lemma_length_fits(bytes: u64, rate: int, channels: int)
    requires
        DSD64_HZ <= rate <= u32::MAX,
        channels >= 1,
    ensures
        0 <= length_ns(bytes, rate, channels) / 1_000_000 <= i64::MAX,
{
    let bits = if bytes * 8 > u64::MAX {
        u64::MAX as int
    } else {
        bytes * 8
    };
    assert(0 <= bits / channels <= bits) by (nonlinear_arith)
        requires
            channels >= 1,
            bits >= 0,
    ;
    let x = (bits / channels) as nat;
    let ns = span_ns(x, rate as nat);
    lemma_span_bound(x, rate as nat);
    assert(2_822_400 * ns <= 4_000_000_000 * x + 2_822_400) by (nonlinear_arith)
        requires
            ns * rate <= 4_000_000_000 * x + rate,
            rate >= 2_822_400,
            x >= 0,
            ns >= 0,
    ;
}

/// The lyrics that a DSD file carries in its tag: the first text that is not blank, trimmed.
pub fn embedded_lyrics(head: &[u8], texts: &[String]) -> (r: Option<String>)
    ensures
        r is Some <==> (is_dsf(head@) || is_dff(head@)) && chosen_tag(texts@) is Some,
        r matches Some(t) ==> chosen_tag(texts@) == Some(t@),
{
    if !is_dsd_container(head) {
        return None;
    }
    pick_embedded(texts)
}

/// How a DSD file is played.
#[derive(Debug)]
pub struct DsdPlan {
    /// The rate of the input in Hz.
    pub dsd_rate_hz: u32,
    /// The rate of the output in Hz.
    pub sample_rate: u32,
    pub decim: u32,
    pub channels: u16,
    pub total_ns: u128,
    /// Whether output samples fall between whole bytes, so that the filter can be tabulated by
    /// bytes.
    pub by_bytes: bool,
    /// The frames of a DSF file; a file without them is read from front to back.
    pub blocks: Option<DsfBlocks>,
}

/// The message for a container that could not be read.
pub open spec fn bad_container(error: Seq<char>) -> Seq<char> {
    "不是有效的 DSD(DSF/DFF) 文件: "@ + error
}

/// The frames of a DSF file by its first bytes and what its container says, where they can be
/// counted at all.
pub open spec fn frames_of(head: Seq<u8>, facts: DsdFacts) -> Option<DsfBlocks> {
    if !is_dsf(head) || data_from(head, 28) is None || facts.block_size * facts.channels > usize::MAX
        || data_from(head, 28)->0 + facts.audio_length > u64::MAX {
        None
    } else {
        Some(
            first_frames(
                data_from(head, 28)->0 as u64,
                facts.block_size as usize,
                facts.channels,
                facts.audio_length,
            ),
        )
    }
}

/// Whether this is how a DSD file is played.
pub open spec fn is_plan(p: DsdPlan, head: Seq<u8>, f: DsdFacts, scalar: bool) -> bool {
    &&& p.dsd_rate_hz == rate_of(f.multiple)
    &&& p.decim == decimation(rate_of(f.multiple) as nat)
    &&& p.decim >= 1
    &&& p.sample_rate == p.dsd_rate_hz / p.decim
    &&& p.channels == f.channels
    &&& p.total_ns == length_ns(f.audio_length, rate_of(f.multiple), f.channels as int)
    &&& p.by_bytes == (p.decim % 8 == 0 && !scalar)
    &&& p.blocks == frames_of(head, f)
    &&& p.blocks matches Some(b) ==> b.valid()
}

/// Decides how a DSD file is played, by its first bytes and by what its container says or by the
/// error that reading the container gave. `scalar` asks for the plain way of filtering.
pub fn open(head: &[u8], facts: Result<DsdFacts, String>, scalar: bool) -> (r: Result<DsdPlan, AppError>)
    requires
        facts matches Ok(f) ==> f.channels <= u16::MAX,
    ensures
        r is Ok <==> (is_dsf(head@) || is_dff(head@)) && facts is Ok && facts->Ok_0.channels > 0
            && facts->Ok_0.multiple > 0,
        r matches Err(e) ==> {
            &&& e.code@ == E_DECODE@
            &&& e.message@ == if !is_dsf(head@) && !is_dff(head@) {
                "不是 DSF/DFF 容器（或文件头不完整）"@
            } else if facts is Err {
                bad_container(facts->Err_0@)
            } else {
                "DSD 文件缺少声道/采样率信息"@
            }
        },
        r matches Ok(p) ==> is_plan(p, head@, facts->Ok_0, scalar),
{
    if !is_dsd_container(head) {
        return Err(AppError::new(E_DECODE, "不是 DSF/DFF 容器（或文件头不完整）".to_owned()));
    }
    let f = match facts {
        Ok(f) => f,
        Err(e) => {
            let message = "不是有效的 DSD(DSF/DFF) 文件: ".to_owned().concat(e.as_str());
            return Err(AppError::new(E_DECODE, message));
        },
    };
    let rate: u32 = dsd_rate_hz(f.multiple);
    if f.channels == 0 || rate == 0 {
        return Err(AppError::new(E_DECODE, "DSD 文件缺少声道/采样率信息".to_owned()));
    }
    let decim: u32 = pick_decimation(rate);
    let total: u128 = duration_of(f.audio_length, rate, f.channels as u32);
    let blocks = match dsf_data_offset(head) {
        None => None,
        Some(off) => {
            let n: usize = head.len();
            proof {
                lemma_data_inside(head@, 28);
                assert(off <= n);
            }
            proof {
                assert(f.block_size * f.channels <= 0xffff_ffff * 0xffff) by (nonlinear_arith)
                    requires
                        f.block_size <= 0xffff_ffff,
                        f.channels <= 0xffff,
                ;
            }
            let frame: u64 = f.block_size as u64 * f.channels as u64;
            if frame > usize::MAX as u64 || f.audio_length > u64::MAX - off {
                None
            } else {
                Some(DsfBlocks::open(off, f.block_size as usize, f.channels, f.audio_length))
            }
        },
    };
    Ok(
        DsdPlan {
            dsd_rate_hz: rate,
            sample_rate: rate / decim,
            decim,
            channels: f.channels as u16,
            total_ns: total,
            by_bytes: decim % 8 == 0 && !scalar,
            blocks,
        },
    )
}

/// The audio starts inside what has been read, or right behind it.
proof fn lemma_data_inside(h: Seq<u8>, pos: nat)
    ensures
        data_from(h, pos) matches Some(p) ==> p <= h.len(),
    decreases h.len() - pos,
{
    if pos + 12 <= h.len() && h.subrange(pos as int, pos as int + 4) != data_id() {
        let size = le_value(h, pos as int + 4, 8);
        if size >= 12 && pos + size <= h.len() {
            lemma_data_inside(h, pos + size);
        }
    }
}

/// What to do with a frame that was read.
#[derive(Debug, Clone, Copy, PartialEq, Eq, Structural)]
pub enum FrameUse {
    /// There is nothing in it: read on.
    Skip,
    /// It lacks a channel: the stream ends here.
    End,
    Feed,
}

/// What becomes of a frame of so many bytes and blocks.
pub open spec fn use_of(read_size: nat, blocks: nat, channels: nat) -> FrameUse {
    if read_size == 0 || blocks == 0 {
        FrameUse::Skip
    } else if blocks < channels {
        FrameUse::End
    } else {
        FrameUse::Feed
    }
}

/// What to do with a frame of so many bytes and blocks.
pub fn frame_use(read_size: usize, blocks: usize, channels: u16) -> (r: FrameUse)
    ensures
        r == use_of(read_size as nat, blocks as nat, channels as nat),
{
    if read_size == 0 || blocks == 0 {
        FrameUse::Skip
    } else if blocks < channels as usize {
        FrameUse::End
    } else {
        FrameUse::Feed
    }
}

/// Which block a point in time falls into: eight samples to the byte.
pub open spec fn block_of_time(pos_ns: nat, rate: nat, block_size: nat) -> nat {
    let samples = product(seconds_of(pos_ns), rate);
    let bits = if samples.num / samples.den > u64::MAX {
        u64::MAX as nat
    } else {
        samples.num / samples.den
    };
    let block = if block_size == 0 {
        1
    } else {
        block_size
    };
    bits / 8 / block
}

/// Which block a point in time falls into, counted in seconds of double precision.
pub fn target_block(pos_ns: u64, rate: u32, block_size: u32) -> (r: u64)
    ensures
        r == block_of_time(pos_ns as nat, rate as nat, block_size as nat),
{
    let samples: u128 = Double::seconds(pos_ns).times(rate).floor();
    let bits: u64 = if samples > 0xffff_ffff_ffff_ffff {
        0xffff_ffff_ffff_ffff
    } else {
        samples as u64
    };
    let block: u64 = if block_size == 0 {
        1
    } else {
        block_size as u64
    };
    bits / 8 / block
}

/// The frames of a DSF file. A frame is one block of every channel, one after the other; the last
/// frame is padded to full length.
#[derive(Debug, Clone, Copy, PartialEq, Eq, Structural)]
pub struct DsfBlocks {
    /// Where the audio starts in the file.
    pub data_offset: u64,
    pub block_size: usize,
    pub channels: usize,
    /// How many bytes of audio there are, all channels together.
    pub audio_length: u64,
    /// How many of them have been read.
    pub consumed: u64,
}

/// The frames of a DSF file before the first is read. Sizes of 0 are taken for 1.
pub open spec fn first_frames(
    data_offset: u64,
    block_size: usize,
    channels: usize,
    audio_length: u64,
) -> DsfBlocks {
    DsfBlocks {
        data_offset,
        block_size: if block_size == 0 {
            1
        } else {
            block_size
        },
        channels: if channels == 0 {
            1
        } else {
            channels
        },
        audio_length,
        consumed: 0,
    }
}

/// The bytes of one channel in a frame, padding left out.
pub open spec fn channel_part(frame: Seq<u8>, ch: int, block_size: int, valid: int) -> Seq<u8> {
    frame.subrange(ch * block_size, ch * block_size + valid)
}

impl DsfBlocks {
    pub open spec fn valid(self) -> bool {
        &&& self.block_size >= 1
        &&& self.channels >= 1
        &&& self.block_size * self.channels <= usize::MAX
        &&& self.consumed <= self.audio_length
        &&& self.data_offset + self.audio_length <= u64::MAX
    }

    /// How many bytes of each channel are valid in the next frame.
    pub open spec fn valid_per_channel(self) -> int {
        let left = self.audio_length - self.consumed;
        if left >= self.block_size * self.channels {
            self.block_size as int
        } else {
            left / self.channels as int
        }
    }

    /// What is left to read after the next frame.
    pub open spec fn stepped(self) -> DsfBlocks {
        DsfBlocks {
            consumed: (self.consumed + self.valid_per_channel() * self.channels) as u64,
            ..self
        }
    }

    /// What is left to read from frame `index` on.
    pub open spec fn sought(self, index: int) -> DsfBlocks {
        let want = index * (self.block_size * self.channels);
        let off = if want > self.audio_length {
            self.audio_length as int
        } else {
            want
        };
        DsfBlocks { consumed: off as u64, ..self }
    }

    /// The frames from the start. Sizes of 0 are taken for 1.
    pub fn open(data_offset: u64, block_size: usize, channels: usize, audio_length: u64) -> (r: Self)
        requires
            block_size * channels <= usize::MAX,
            data_offset + audio_length <= u64::MAX,
        ensures
            r.valid(),
            r == first_frames(data_offset, block_size, channels, audio_length),
    {
        let block_size: usize = if block_size == 0 {
            1
        } else {
            block_size
        };
        let channels: usize = if channels == 0 {
            1
        } else {
            channels
        };
        DsfBlocks { data_offset, block_size, channels, audio_length, consumed: 0 }
    }

    /// The bytes of a frame.
    pub fn frame_size(&self) -> (r: usize)
        requires
            self.valid(),
        ensures
            r == self.block_size * self.channels,
    {
        self.block_size * self.channels
    }

    /// Goes to a frame, or to the end where there are fewer. The result is the place in the file.
    pub fn seek_to_frame(&mut self, index: u64) -> (r: u64)
        requires
            old(self).valid(),
        ensures
            final(self).valid(),
            *final(self) == old(self).sought(index as int),
            r == old(self).data_offset + final(self).consumed,
    {
        let frame: u128 = self.frame_size() as u128;
        proof {
            assert(index as int * (self.block_size * self.channels) <= 0xffff_ffff_ffff_ffff
                * 0xffff_ffff_ffff_ffff) by (nonlinear_arith)
                requires
                    index <= 0xffff_ffff_ffff_ffff,
                    0 <= self.block_size * self.channels <= 0xffff_ffff_ffff_ffff,
            ;
            assert(0 <= index as int * (self.block_size * self.channels)) by (nonlinear_arith)
                requires
                    0 <= index,
                    0 <= self.block_size * self.channels,
            ;
        }
        let want: u128 = index as u128 * frame;
        let off: u64 = if want > self.audio_length as u128 {
            self.audio_length
        } else {
            want as u64
        };
        self.consumed = off;
        self.data_offset + off
    }

    /// How many bytes of each channel are valid in the next frame, or nothing at the end. A whole
    /// frame has to be read from the file for it, padding included.
    pub fn next_frame(&mut self) -> (r: Option<usize>)
        requires
            old(self).valid(),
        ensures
            final(self).valid(),
            old(self).valid_per_channel() == 0 ==> r is None && *final(self) == *old(self),
            old(self).valid_per_channel() > 0 ==> r == Some(old(self).valid_per_channel() as usize)
                && *final(self) == old(self).stepped(),
    {
        let left: u64 = self.audio_length - self.consumed;
        let frame: u64 = self.frame_size() as u64;
        let valid: u64 = if left >= frame {
            self.block_size as u64
        } else {
            left / self.channels as u64
        };
        proof {
            assert(valid * self.channels <= left && valid <= self.block_size) by (nonlinear_arith)
                requires
                    left >= frame ==> valid == self.block_size,
                    left < frame ==> valid == left / (self.channels as u64),
                    frame == self.block_size * self.channels,
                    self.channels >= 1,
            ;
        }
        if valid == 0 {
            return None;
        }
        self.consumed = self.consumed + valid * self.channels as u64;
        Some(valid as usize)
    }

    /// Splits a frame that was read into its channels, padding left out.
    pub fn split_frame(&self, frame: &[u8], valid: usize) -> (r: Vec<Vec<u8>>)
        requires
            self.valid(),
            frame@.len() == self.block_size * self.channels,
            valid <= self.block_size,
        ensures
            r@.len() == self.channels,
            forall|ch: int|
                0 <= ch < self.channels ==> (#[trigger] r@[ch])@ == channel_part(
                    frame@,
                    ch,
                    self.block_size as int,
                    valid as int,
                ),
    {
        let mut out: Vec<Vec<u8>> = Vec::new();
        let mut ch: usize = 0;
        let mut start: usize = 0;
        while ch < self.channels
            invariant
                self.valid(),
                frame@.len() == self.block_size * self.channels,
                valid <= self.block_size,
                ch <= self.channels,
                start == ch * self.block_size,
                out@.len() == ch,
                forall|c: int|
                    0 <= c < ch ==> (#[trigger] out@[c])@ == frame@.subrange(
                        c * self.block_size,
                        c * self.block_size + valid,
                    ),
            decreases self.channels - ch,
        {
            proof {
                assert((ch + 1) * self.block_size <= self.block_size * self.channels)
                    by (nonlinear_arith)
                    requires
                        ch + 1 <= self.channels,
                ;
                assert((ch + 1) * self.block_size == ch * self.block_size + self.block_size)
                    by (nonlinear_arith);
            }
            out.push(copy_bytes(slice_subrange(frame, start, start + valid)));
            start = start + self.block_size;
            ch = ch + 1;
        }
        out
    }
}

pub(crate) fn copy_bytes(b: &[u8]) -> (r: Vec<u8>)
    ensures
        r@ == b@,
{
    let mut r: Vec<u8> = Vec::new();
    push_bytes(&mut r, b);
    r
}

pub(crate) fn push_bytes(out: &mut Vec<u8>, b: &[u8])
    ensures
        final(out)@ == old(out)@ + b@,
{
    let mut i: usize = 0;
    let ghost base = out@;
    while i < b.len()
        invariant
            i <= b@.len(),
            out@ =~= base + b@.take(i as int),
        decreases b@.len() - i,
    {
        out.push(b[i]);
        i = i + 1;
    }
    proof {
        assert(b@.take(b@.len() as int) =~= b@);
    }
}

/// The frames after some have been read one after the other.
pub open spec fn frames_read(d: DsfBlocks, k: nat) -> DsfBlocks
    decreases k,
{
    if k == 0 {
        d
    } else {
        frames_read(d, (k - 1) as nat).stepped()
    }
}

/// Going to a frame directly comes out where reading up to it does.
pub proof fn law_seek_is_reading_on(d: DsfBlocks, k: nat)
    requires
        d.valid(),
        d.consumed == 0,
        k * (d.block_size * d.channels) <= d.audio_length,
    ensures
        frames_read(d, k) == d.sought(k as int),
    decreases k,
{
    let frame = d.block_size * d.channels;
    assert(frame >= 1) by (nonlinear_arith)
        requires
            frame == d.block_size * d.channels,
            d.block_size >= 1,
            d.channels >= 1,
    ;
    if k > 0 {
        assert(k * frame == (k - 1) * frame + frame) by (nonlinear_arith);
        law_seek_is_reading_on(d, (k - 1) as nat);
        assert(0 <= (k - 1) * frame) by (nonlinear_arith)
            requires
                k >= 1,
                frame >= 1,
        ;
    } else {
        assert(0 * frame == 0);
    }
}

/// Both containers are known by their magic: `DSD ` with a `fmt ` chunk behind 28 bytes, and `FRM8`
/// with the form `DSD ` behind 12.
pub proof fn law_containers(h: Seq<u8>)
    ensures
        is_dsf(h) <==> h.len() >= 92 && h[0] == 68 && h[1] == 83 && h[2] == 68 && h[3] == 32 && h[28] == 102
            && h[29] == 109 && h[30] == 116 && h[31] == 32,
        is_dff(h) <==> h.len() >= 16 && h[0] == 70 && h[1] == 82 && h[2] == 77 && h[3] == 56 && h[12] == 68
            && h[13] == 83 && h[14] == 68 && h[15] == 32,
{
    if h.len() >= 16 {
        let a = h.subrange(0, 4);
        let b = h.subrange(12, 16);
        assert(a[0] == h[0] && a[1] == h[1] && a[2] == h[2] && a[3] == h[3]);
        assert(b[0] == h[12] && b[1] == h[13] && b[2] == h[14] && b[3] == h[15]);
        let (s, f) = (dsf_magic(), dff_magic());
        assert(s[0] == 68 && s[1] == 83 && s[2] == 68 && s[3] == 32);
        assert(f[0] == 70 && f[1] == 82 && f[2] == 77 && f[3] == 56);
        if a[0] == 70 && a[1] == 82 && a[2] == 77 && a[3] == 56 {
            assert(a =~= f);
        }
        if a[0] == 68 && a[1] == 83 && a[2] == 68 && a[3] == 32 {
            assert(a =~= s);
        }
        if b[0] == 68 && b[1] == 83 && b[2] == 68 && b[3] == 32 {
            assert(b =~= s);
        }
        if h.len() >= 92 {
            let c = h.subrange(28, 32);
            let t = fmt_id();
            assert(c[0] == h[28] && c[1] == h[29] && c[2] == h[30] && c[3] == h[31]);
            assert(t[0] == 102 && t[1] == 109 && t[2] == 116 && t[3] == 32);
            if c[0] == 102 && c[1] == 109 && c[2] == 116 && c[3] == 32 {
                assert(c =~= t);
            }
        }
    }
}

/// The audio starts right behind the twelve bytes of the `data` head; any other chunk is passed by
/// the length that it gives.
pub proof fn law_chunks(h: Seq<u8>, pos: nat)
    requires
        pos + 12 <= h.len(),
    ensures
        h[pos as int] == 100 && h[pos as int + 1] == 97 && h[pos as int + 2] == 116 && h[pos as int + 3] == 97 ==> data_from(h, pos)
            == Some(pos + 12),
        h[pos as int] != 100 && le_value(h, pos as int + 4, 8) >= 12 && pos + le_value(h, pos as int + 4, 8)
            <= h.len() ==> data_from(h, pos) == data_from(h, pos + le_value(h, pos as int + 4, 8)),
        h[pos as int] != 100 && le_value(h, pos as int + 4, 8) < 12 ==> data_from(h, pos) is None,
{
    let s = h.subrange(pos as int, pos as int + 4);
    assert(s[0] == h[pos as int] && s[1] == h[pos as int + 1] && s[2] == h[pos as int + 2] && s[3] == h[pos as int + 3]);
    assert(data_id()[0] == 100);
    if s[0] == 100 && s[1] == 97 && s[2] == 116 && s[3] == 97 {
        assert(s =~= data_id());
    }
}

proof fn lemma_widened(d: nat, rate: nat)
    requires
        d >= 2,
    ensures
        widened(d, rate) >= d,
        d <= 512 ==> widened(d, rate) <= 512,
        widened(d, rate) > d ==> rate / widened(d, rate) >= 60_000,
        d <= 256 && widened(d, rate) <= 256 ==> rate / (2 * widened(d, rate)) < 60_000,
    decreases 512 - d,
{
    if d * 2 <= 512 && rate / (d * 2) >= 60_000 {
        lemma_widened(d * 2, rate);
    }
}

/// The output runs at 88.2 kHz where that divides the rate, else at 96 kHz where that does, and else
/// as low as it can without falling below 60 kHz.
pub proof fn law_output_rates(rate: nat, k: nat)
    requires
        k >= 2,
    ensures
        decimation(88_200 * k) == k,
        decimation(96_000 * k) == k || (96_000 * k) % 88_200 == 0,
        rate % 88_200 != 0 && rate % 96_000 != 0 && decimation(rate) > 2 ==> rate / decimation(rate)
            >= 60_000,
        rate % 88_200 != 0 && rate % 96_000 != 0 && decimation(rate) <= 256 ==> rate / (2 * decimation(rate))
            < 60_000,
        rate % 88_200 != 0 && rate % 96_000 != 0 ==> 2 <= decimation(rate) <= 512,
{
    assert((88_200 * k) % 88_200 == 0 && (88_200 * k) / 88_200 == k);
    assert((96_000 * k) % 96_000 == 0 && (96_000 * k) / 96_000 == k);
    lemma_widened(2, rate);
}

/// A multiple of DSD64 runs at that many times 2.8224 MHz, as far as a rate can be counted.
pub proof fn law_rate_of(multiple: i32)
    ensures
        multiple <= 0 ==> rate_of(multiple) == 0,
        0 < multiple <= 1521 ==> rate_of(multiple) == multiple * 2_822_400,
        multiple > 1521 ==> rate_of(multiple) == u32::MAX,
{
    assert(multiple > 1521 ==> multiple * 2_822_400 > 0xffff_ffff);
}

/// The audio plays for its samples, eight to the byte and shared among the channels, at the rate: to
/// within two nanoseconds.
pub proof fn law_length(bytes: u64, rate: int, channels: int)
    requires
        bytes < 0x100_0000_0000,
        1_000_000 <= rate <= u32::MAX,
        1 <= channels <= 65_535,
    ensures
        ({
            let samples = bytes * 8 / channels;
            let ns = length_ns(bytes, rate, channels);
            &&& 2 * ns * rate <= 2 * (samples * 1_000_000_000) + 3 * rate
            &&& 2 * (samples * 1_000_000_000) <= 2 * ns * rate + 3 * rate
        }),
{
    let samples = bytes * 8 / channels;
    assert(0 <= samples <= bytes * 8) by (nonlinear_arith)
        requires
            samples == bytes * 8 / channels,
            channels >= 1,
            bytes >= 0,
    ;
    assert(samples * 1_000_000_000 <= 0x20_0000_0000_0000 * rate) by (nonlinear_arith)
        requires
            0 <= samples <= 0x800_0000_0000,
            rate >= 1_000_000,
    ;
    lemma_span_near(samples as nat, rate as nat);
}

/// The media type of a picture suggests the extension that it names, and else `jpg`.
pub proof fn law_suggested_extensions(mime: Seq<char>)
    ensures
        contains_seq(mime, "png"@) ==> suggested_ext(mime) == "png"@,
        contains_seq(mime, "gif"@) && !contains_seq(mime, "png"@) ==> suggested_ext(mime) == "gif"@,
        contains_seq(mime, "webp"@) && !contains_seq(mime, "png"@) && !contains_seq(mime, "gif"@)
            ==> suggested_ext(mime) == "webp"@,
        !contains_seq(mime, "png"@) && !contains_seq(mime, "gif"@) && !contains_seq(mime, "webp"@)
            ==> suggested_ext(mime) == "jpg"@,
        suggested_ext("image/png"@) == "png"@,
{
    reveal_strlit("png");
    reveal_strlit("image/png");
    assert("image/png"@.subrange(6, 6 + "png"@.len() as int) =~= "png"@);
}

/// What is known of a DSD file is what its container and its tag say, each in its place.
pub proof fn law_probe(m: DsdMeta, facts: DsdFacts, t: DsdTag)
    requires
        is_probed(m, facts, Some(t)),
    ensures
        m.channels == facts.channels,
        m.sample_rate == rate_of(facts.multiple),
        m.duration_ms == length_ns(facts.audio_length, rate_of(facts.multiple), facts.channels as int)
            / 1_000_000,
        t.title matches Some(s) ==> m.title@ == s@,
        t.artist matches Some(s) ==> m.artist@ == s@,
        t.album matches Some(s) ==> m.album@ == s@,
        t.genre matches Some(s) ==> m.genre@ == s@,
        t.title is None ==> m.title@.len() == 0,
        t.artist is None ==> m.artist@.len() == 0,
        t.album is None ==> m.album@.len() == 0,
        t.genre is None ==> m.genre@.len() == 0,
        t.year matches Some(y) ==> m.year == Some(y as i64),
        t.track matches Some(n) ==> m.track_no == Some(n as i64),
        t.year is None ==> m.year is None,
        t.track is None ==> m.track_no is None,
        t.picture matches Some(p) ==> m.picture is Some && (m.picture->0).0@ == p.1@ && (m.picture->0).1@
            == suggested_ext(p.0@),
        t.picture is None ==> m.picture is None,
{
}

/// Without a tag nothing but the audio is known.
pub proof fn law_probe_without_tag(m: DsdMeta, facts: DsdFacts)
    requires
        is_probed(m, facts, None),
    ensures
        m.title@.len() == 0 && m.artist@.len() == 0 && m.album@.len() == 0 && m.genre@.len() == 0,
        m.year is None && m.track_no is None && m.picture is None,
        m.channels == facts.channels && m.sample_rate == rate_of(facts.multiple),
{
}

/// The rate of the output is that of the input divided by the decimation, and the filter goes by
/// bytes where the decimation is made of whole bytes and the plain way is not asked for.
pub proof fn law_plan(p: DsdPlan, head: Seq<u8>, f: DsdFacts, scalar: bool)
    requires
        is_plan(p, head, f, scalar),
        1 <= f.multiple <= 1521,
    ensures
        p.dsd_rate_hz == f.multiple * 2_822_400,
        p.decim == 32 * f.multiple,
        p.sample_rate == 88_200,
        p.channels == f.channels,
        p.by_bytes == !scalar,
        p.total_ns == length_ns(f.audio_length, f.multiple * 2_822_400, f.channels as int),
        !is_dsf(head) ==> p.blocks is None,
        p.blocks matches Some(b) ==> b.consumed == 0 && b.audio_length == f.audio_length && Some(
            b.data_offset as nat,
        ) == data_from(head, 28) && (f.channels > 0 ==> b.channels == f.channels) && (f.block_size > 0
            ==> b.block_size == f.block_size),
{
    law_rate_of(f.multiple);
    law_dsd_rates(f.multiple as nat);
    lemma_data_inside(head, 28);
}

/// An empty frame is passed over; one that lacks a channel ends the stream; any other is fed.
pub proof fn law_frame_use(read_size: nat, blocks: nat, channels: nat)
    ensures
        use_of(0, blocks, channels) is Skip,
        use_of(read_size, 0, channels) is Skip,
        read_size > 0 && 0 < blocks < channels ==> use_of(read_size, blocks, channels) is End,
        read_size > 0 && blocks > 0 && blocks >= channels ==> use_of(read_size, blocks, channels) is Feed,
{
}

/// The block of a point in time holds it: eight samples to the byte, so that it starts no later and
/// the next one starts behind it, but for the three nanoseconds that double precision may be off.
pub proof fn law_block_holds_the_time(pos_ns: u64, rate: nat, block_size: nat)
    requires
        pos_ns < 0x10_0000_0000_0000,
        0 < rate <= u32::MAX,
        block_size > 0,
    ensures
        block_of_time(pos_ns as nat, rate, block_size) * block_size * 8 * 1_000_000_000 <= (pos_ns + 3)
            * rate,
        pos_ns * rate < (block_of_time(pos_ns as nat, rate, block_size) + 1) * block_size * 8
            * 1_000_000_000 + 3 * rate,
        block_of_time(pos_ns as nat, rate, 0) == block_of_time(pos_ns as nat, rate, 1),
{
    lemma_units_near(pos_ns, rate);
    lemma_time_bound(pos_ns, rate);
    let p = product(seconds_of(pos_ns as nat), rate);
    let t = p.num / p.den;
    assert(t <= u64::MAX) by (nonlinear_arith)
        requires
            t * 1_000_000_000 <= (pos_ns + 3) * rate,
            pos_ns < 0x10_0000_0000_0000,
            0 < rate <= u32::MAX,
    ;
    let bytes = t / 8;
    let block = bytes / block_size;
    vstd::arithmetic::div_mod::lemma_fundamental_div_mod(bytes as int, block_size as int);
    let rest: int = bytes as int % block_size as int;
    assert(bytes == block_size * block + rest);
    assert(block * block_size <= bytes < (block + 1) * block_size) by (nonlinear_arith)
        requires
            bytes == block_size * block + rest,
            0 <= rest < block_size,
    ;
    assert(block * block_size * 8 <= t < (block + 1) * block_size * 8);
}

/// A frame gives each channel a whole block, and the last one what is left, shared evenly; reading it
/// moves on by that much, and never past the end.
pub proof fn law_frames_share_the_audio(d: DsfBlocks)
    requires
        d.valid(),
    ensures
        d.audio_length - d.consumed >= d.block_size * d.channels ==> d.valid_per_channel() == d.block_size,
        d.audio_length - d.consumed < d.block_size * d.channels ==> d.valid_per_channel() * d.channels
            <= d.audio_length - d.consumed < (d.valid_per_channel() + 1) * d.channels,
        d.stepped().valid(),
        d.stepped().consumed == d.consumed + d.valid_per_channel() * d.channels,
        d.stepped().data_offset == d.data_offset && d.stepped().audio_length == d.audio_length,
{
    let left = d.audio_length - d.consumed;
    let ch = d.channels as int;
    if left >= d.block_size * d.channels {
    } else {
        let q = left / ch;
        vstd::arithmetic::div_mod::lemma_fundamental_div_mod(left, ch);
        assert(q * ch <= left < (q + 1) * ch) by (nonlinear_arith)
            requires
                left == ch * q + left % ch,
                0 <= left % ch < ch,
        ;
        assert(0 <= q * ch) by (nonlinear_arith)
            requires
                q == left / ch,
                left >= 0,
                ch >= 1,
        ;
    }
}

/// Going to a frame moves to that many whole frames, or to the end.
pub proof fn law_seek_to_frame(d: DsfBlocks, index: int)
    requires
        d.valid(),
        0 <= index,
    ensures
        index * (d.block_size * d.channels) <= d.audio_length ==> d.sought(index).consumed == index * (
        d.block_size * d.channels),
        index * (d.block_size * d.channels) > d.audio_length ==> d.sought(index).consumed
            == d.audio_length,
        d.sought(index).audio_length == d.audio_length,
        d.sought(0).consumed == 0,
{
    assert(index * (d.block_size * d.channels) >= 0) by (nonlinear_arith)
        requires
            index >= 0,
            d.block_size * d.channels >= 0,
    ;
    assert(d.block_size * d.channels >= 0) by (nonlinear_arith)
        requires
            d.block_size >= 1,
            d.channels >= 1,
    ;
    assert(0 * (d.block_size * d.channels) == 0);
}

/// The frames start at the audio, none of them read, and a size of 0 counts as 1.
pub proof fn law_first_frames(data_offset: u64, block_size: usize, channels: usize, audio_length: u64)
    ensures
        ({
            let d = first_frames(data_offset, block_size, channels, audio_length);
            &&& d.data_offset == data_offset
            &&& d.audio_length == audio_length
            &&& d.consumed == 0
            &&& block_size > 0 ==> d.block_size == block_size
            &&& block_size == 0 ==> d.block_size == 1
            &&& channels > 0 ==> d.channels == channels
            &&& channels == 0 ==> d.channels == 1
        }),
{
}

/// The channels of a frame stand one behind the other, each in a block of its own.
pub proof fn law_channels_stand_in_turn(a: Seq<u8>, b: Seq<u8>, size: int)
    requires
        a.len() == size,
        b.len() == size,
    ensures
        channel_part(a + b, 0, size, size) == a,
        channel_part(a + b, 1, size, size) == b,
        forall|n: int| 0 <= n <= size ==> #[trigger] channel_part(a + b, 1, size, n) == b.take(n),
{
    assert(0 * size == 0);
    assert(channel_part(a + b, 0, size, size) =~= a);
    assert(channel_part(a + b, 1, size, size) =~= b);
    assert forall|n: int| 0 <= n <= size implies #[trigger] channel_part(a + b, 1, size, n) == b.take(
        n,
    ) by {
        assert(channel_part(a + b, 1, size, n) =~= b.take(n));
    }
}

/// A rate or a channel count of 0 is taken for 1, and more bytes than can be counted in samples for
/// as many as can.
pub proof fn law_length_of_odd_files(bytes: u64, rate: int, channels: int)
    requires
        rate >= 0,
        channels >= 0,
    ensures
        length_ns(bytes, 0, channels) == length_ns(bytes, 1, channels),
        length_ns(bytes, rate, 0) == length_ns(bytes, rate, 1),
        bytes >= 0x2000_0000_0000_0000 ==> length_ns(bytes, rate, channels) == length_ns(
            u64::MAX,
            rate,
            channels,
        ),
{
}

} // verus!
