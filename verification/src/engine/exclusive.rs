//! The render side of exclusive output: what is known of a running stream, which format it gets,
//! and how samples are laid out for the device.

use crate::engine::backend::{
    accepted, combo_text, frame_bytes, label_of, supported_formats, Fallback, Fmt, RATES,
};
use crate::text::{decimal, decimal_of};
use vstd::prelude::*;
use vstd::string::StringExecFns;

verus! {

/// A running exclusive stream. The render thread reports the frames it has played and its end.
#[derive(Debug)]
pub struct ExclusiveSink {
    pub stop_requested: bool,
    pub played: u64,
    pub dead: bool,
    pub format_label: String,
    pub rate: u32,
    pub channels: usize,
}

impl ExclusiveSink {
    /// A stream that has just been opened.
    pub fn opened(format_label: String, rate: u32, channels: usize) -> (r: Self)
        ensures
            r == (ExclusiveSink {
                stop_requested: false,
                played: 0,
                dead: false,
                format_label,
                rate,
                channels,
            }),
    {
        ExclusiveSink { stop_requested: false, played: 0, dead: false, format_label, rate, channels }
    }

    /// A stream that was asked to end.
    pub open spec fn stopping(self) -> ExclusiveSink {
        ExclusiveSink { stop_requested: true, ..self }
    }

    /// A stream with what its render thread reports.
    pub open spec fn with_report(self, played: u64, dead: bool) -> ExclusiveSink {
        ExclusiveSink { played, dead, ..self }
    }

    /// Asks the render thread to end.
    pub fn stop(&mut self)
        ensures
            *final(self) == old(self).stopping(),
    {
        self.stop_requested = true;
    }

    /// Takes over what the render thread reports.
    pub fn refresh(&mut self, played: u64, dead: bool)
        ensures
            *final(self) == old(self).with_report(played, dead),
    {
        self.played = played;
        self.dead = dead;
    }

    pub fn played_frames(&self) -> (r: u64)
        ensures
            r == self.played,
    {
        self.played
    }

    pub fn format_label(&self) -> (r: &str)
        ensures
            r@ == self.format_label@,
    {
        self.format_label.as_str()
    }

    pub fn sample_rate(&self) -> (r: u32)
        ensures
            r == self.rate,
    {
        self.rate
    }

    pub fn channels(&self) -> (r: usize)
        ensures
            r == self.channels,
    {
        self.channels
    }

    /// Whether the render thread still runs; it ends when the device is lost.
    pub fn is_alive(&self) -> (r: bool)
        ensures
            r == !self.dead,
    {
        !self.dead
    }
}

/// The sample rates that a stream tries: the preferred one, then the usual ones.
pub open spec fn render_rate_order(prefer: Option<u32>) -> Seq<usize> {
    match prefer {
        Some(r) => seq![r as usize] + RATES@.filter(|x: usize| x != r as usize),
        None => RATES@,
    }
}

/// The sample rates that a stream tries, in order.
pub fn render_rates(prefer: Option<u32>) -> (r: Vec<usize>)
    ensures
        r@ == render_rate_order(prefer),
{
    let mut r: Vec<usize> = Vec::new();
    let mut i: usize = 0;
    match prefer {
        Some(p) => {
            let want: usize = p as usize;
            let ghost keep = |x: usize| x != want;
            r.push(want);
            proof {
                reveal(Seq::filter);
                assert(RATES@.take(0).filter(keep) =~= Seq::<usize>::empty());
                assert(r@ =~= seq![want] + RATES@.take(0).filter(keep));
            }
            while i < 8
                invariant
                    i <= 8,
                    keep == |x: usize| x != want,
                    r@ == seq![want] + RATES@.take(i as int).filter(keep),
                decreases 8 - i,
            {
                proof {
                    reveal(Seq::filter);
                    let t = RATES@.take(i + 1);
                    assert(t.drop_last() =~= RATES@.take(i as int));
                    assert(t.last() == RATES@[i as int]);
                    assert((seq![want] + RATES@.take(i as int).filter(keep)).push(RATES@[i as int])
                        =~= seq![want] + RATES@.take(i as int).filter(keep).push(RATES@[i as int]));
                }
                if RATES[i] != want {
                    r.push(RATES[i]);
                }
                i = i + 1;
            }
            proof {
                assert(RATES@.take(8) =~= RATES@);
            }
        },
        None => {
            while i < 8
                invariant
                    i <= 8,
                    r@ =~= RATES@.take(i as int),
                decreases 8 - i,
            {
                r.push(RATES[i]);
                i = i + 1;
            }
            proof {
                assert(RATES@.take(8) =~= RATES@);
            }
        },
    }
    r
}

/// The first combination that the driver accepts, going by rate and then by preference. `answers`
/// holds the driver's word on each of the preferred formats at each of the rates.
pub open spec fn first_combo(rates: Seq<usize>, answers: Seq<Seq<bool>>) -> Option<(usize, Fmt)>
    decreases rates.len(),
{
    if rates.len() == 0 {
        None
    } else if accepted(answers[0], 5).len() > 0 {
        Some((rates[0], accepted(answers[0], 5)[0]))
    } else {
        first_combo(rates.drop_first(), answers.drop_first())
    }
}

/// Picks the combination of rate and format for a stream.
pub fn choose_combo(rates: &[usize], answers: &[[bool; 5]]) -> (r: Option<(usize, Fmt)>)
    requires
        rates@.len() == answers@.len(),
    ensures
        r == first_combo(rates@, answers@.map_values(|a: [bool; 5]| a@)),
{
    let ghost all = answers@.map_values(|a: [bool; 5]| a@);
    let n: usize = rates.len();
    let mut i: usize = 0;
    proof {
        assert(rates@.subrange(0, n as int) =~= rates@);
        assert(all.subrange(0, n as int) =~= all);
    }
    while i < n
        invariant
            i <= n,
            n == rates@.len(),
            n == answers@.len(),
            all == answers@.map_values(|a: [bool; 5]| a@),
            first_combo(rates@, all) == first_combo(
                rates@.subrange(i as int, n as int),
                all.subrange(i as int, n as int),
            ),
        decreases n - i,
    {
        let fs = supported_formats(answers[i]);
        proof {
            let rs = rates@.subrange(i as int, n as int);
            let rest = all.subrange(i as int, n as int);
            assert(rs[0] == rates@[i as int]);
            assert(rest[0] == answers@[i as int]@);
            assert(rs.drop_first() =~= rates@.subrange(i + 1, n as int));
            assert(rest.drop_first() =~= all.subrange(i + 1, n as int));
        }
        if fs.len() > 0 {
            return Some((rates[i], fs[0]));
        }
        i = i + 1;
    }
    None
}

/// The largest sample code of an integer format.
pub open spec fn largest_code(fmt: Fmt) -> i32 {
    if fmt.store == 16 {
        32_767i32
    } else {
        8_388_607i32
    }
}

/// The largest sample code of an integer format: that of 16 bits in a container of 16, else that of
/// 24 bits.
pub fn full_scale(fmt: Fmt) -> (r: i32)
    ensures
        r == largest_code(fmt),
{
    if fmt.store == 16 {
        32_767
    } else {
        8_388_607
    }
}

/// The bytes of a 32 bit word, lowest first.
pub open spec fn le_bytes(w: u32) -> Seq<u8> {
    seq![
        (w & 0xff) as u8,
        ((w >> 8) & 0xff) as u8,
        ((w >> 16) & 0xff) as u8,
        ((w >> 24) & 0xff) as u8,
    ]
}

/// How the device sees a sample code: two bytes for containers of 16 bits, three for those of 24; the
/// word itself for floating point, whose code is its bit pattern; else 24 bits moved to the top of a
/// 32 bit word.
pub open spec fn code_bytes(code: u32, fmt: Fmt) -> Seq<u8> {
    if fmt.is_float {
        le_bytes(code)
    } else if fmt.store == 16 {
        le_bytes(code).take(2)
    } else if fmt.store == 24 {
        le_bytes(code).take(3)
    } else {
        le_bytes(code << 8)
    }
}

fn push_le(out: &mut Vec<u8>, w: u32)
    ensures
        final(out)@ == old(out)@ + le_bytes(w),
{
    let ghost base = out@;
    out.push((w & 0xff) as u8);
    out.push(((w >> 8) & 0xff) as u8);
    out.push(((w >> 16) & 0xff) as u8);
    out.push(((w >> 24) & 0xff) as u8);
    proof {
        assert(out@ =~= base + le_bytes(w));
    }
}

/// Appends one sample code (two's complement for integer formats, the bit pattern for floating
/// point) as the device wants it.
pub fn push_code(out: &mut Vec<u8>, code: u32, fmt: Fmt)
    ensures
        final(out)@ == old(out)@ + code_bytes(code, fmt),
{
    let ghost base = out@;
    if fmt.is_float {
        push_le(out, code);
    } else if fmt.store == 16 {
        out.push((code & 0xff) as u8);
        out.push(((code >> 8) & 0xff) as u8);
        proof {
            assert(out@ =~= base + le_bytes(code).take(2));
        }
    } else if fmt.store == 24 {
        out.push((code & 0xff) as u8);
        out.push(((code >> 8) & 0xff) as u8);
        out.push(((code >> 16) & 0xff) as u8);
        proof {
            assert(out@ =~= base + le_bytes(code).take(3));
        }
    } else {
        push_le(out, code << 8);
    }
}

/// What the caller is told of a stream that was opened: rate and format.
pub fn stream_label(rate: usize, fmt: Fmt) -> (r: String)
    ensures
        r@ == decimal_of(rate as nat) + "/"@ + label_of(fmt),
        r@ == combo_text((rate, fmt)),
{
    let mut r = decimal(rate as u64);
    let label = fmt.label();
    r.append("/");
    r.append(label.as_str());
    r
}

/// The combination of rate and format for a stream, or why there is none.
pub fn stream_format(rates: &[usize], answers: &[[bool; 5]]) -> (r: Result<
    (usize, Fmt),
    (Fallback, String),
>)
    requires
        rates@.len() == answers@.len(),
    ensures
        ({
            let combo = first_combo(rates@, answers@.map_values(|a: [bool; 5]| a@));
            &&& combo matches Some(c) ==> r == Ok::<(usize, Fmt), (Fallback, String)>(c)
            &&& combo is None ==> {
                &&& r is Err
                &&& r->Err_0.0 == Fallback::UnsupportedFormat
                &&& r->Err_0.1@ == "该设备在独占模式下没有任何可用格式"@
            }
        }),
{
    match choose_combo(rates, answers) {
        Some(c) => Ok(c),
        None => Err(
            (Fallback::UnsupportedFormat, "该设备在独占模式下没有任何可用格式".to_owned()),
        ),
    }
}

/// What the render thread does next.
#[derive(Debug, Clone, Copy, PartialEq, Eq, Structural)]
pub enum RenderStep {
    /// The stream ends.
    End,
    /// There is no room: wait again.
    Wait,
    /// Write so many frames.
    Fill(u32),
}

/// What follows a wait for the device.
pub open spec fn next_render(stop: bool, waited: bool, free: Option<u32>) -> RenderStep {
    if stop || !waited || free is None {
        RenderStep::End
    } else if free->0 == 0 {
        RenderStep::Wait
    } else {
        RenderStep::Fill(free->0)
    }
}

/// What the render thread does after it has waited for the device: `waited` says whether the wait
/// came to an end, `free` how many frames there is room for, where the device says so.
pub fn render_step(stop: bool, waited: bool, free: Option<u32>) -> (r: RenderStep)
    ensures
        r == next_render(stop, waited, free),
{
    if stop || !waited {
        return RenderStep::End;
    }
    match free {
        None => RenderStep::End,
        Some(n) => if n == 0 {
            RenderStep::Wait
        } else {
            RenderStep::Fill(n)
        },
    }
}

/// The bytes of some sample codes.
pub open spec fn packed(codes: Seq<u32>, fmt: Fmt) -> Seq<u8>
    decreases codes.len(),
{
    if codes.len() == 0 {
        Seq::empty()
    } else {
        packed(codes.drop_last(), fmt) + code_bytes(codes.last(), fmt)
    }
}

/// Sample codes filled up with silence.
pub open spec fn filled_up(codes: Seq<u32>, samples: nat) -> Seq<u32> {
    Seq::new(
        samples,
        |i: int|
            if i < codes.len() {
                codes[i]
            } else {
                0u32
            },
    )
}

/// The bytes that are written for so many samples. Where the source has run dry, silence is written:
/// the stream goes on.
pub fn render(codes: &[u32], samples: usize, fmt: Fmt) -> (r: Vec<u8>)
    ensures
        r@ == packed(filled_up(codes@, samples as nat), fmt),
{
    let mut out: Vec<u8> = Vec::new();
    let mut i: usize = 0;
    let ghost all = filled_up(codes@, samples as nat);
    proof {
        assert(all.take(0) =~= Seq::<u32>::empty());
    }
    while i < samples
        invariant
            all == filled_up(codes@, samples as nat),
            i <= samples,
            out@ == packed(all.take(i as int), fmt),
        decreases samples - i,
    {
        proof {
            assert(all.take(i + 1).drop_last() =~= all.take(i as int));
        }
        let code: u32 = if i < codes.len() {
            codes[i]
        } else {
            0
        };
        push_code(&mut out, code, fmt);
        i = i + 1;
    }
    proof {
        assert(all.take(samples as int) =~= all);
    }
    out
}

/// What is written has the length that the device expects: that of a frame for each frame.
pub proof fn law_bytes_fill_the_frames(codes: Seq<u32>, fmt: Fmt)
    requires
        fmt.store == 16 || fmt.store == 24 || fmt.store == 32,
        fmt.is_float ==> fmt.store == 32,
    ensures
        packed(codes, fmt).len() == codes.len() * (fmt.store as int / 8),
    decreases codes.len(),
{
    if codes.len() > 0 {
        law_bytes_fill_the_frames(codes.drop_last(), fmt);
        let n = codes.len() - 1;
        let w = fmt.store as int / 8;
        assert((n + 1) * w == n * w + w) by (nonlinear_arith);
    } else {
        assert(0 * (fmt.store as int / 8) == 0);
    }
}

/// A 24 bit code in a wider container keeps its low byte clear.
pub proof fn law_left_aligned(code: u32, fmt: Fmt)
    requires
        !fmt.is_float,
        fmt.store != 16,
        fmt.store != 24,
    ensures
        code_bytes(code, fmt).len() == 4,
        code_bytes(code, fmt)[0] == 0,
        code_bytes(code, fmt)[1] == le_bytes(code)[0],
        code_bytes(code, fmt)[2] == le_bytes(code)[1],
        code_bytes(code, fmt)[3] == le_bytes(code)[2],
{
    assert((code << 8) & 0xff == 0) by (bit_vector);
    assert(((code << 8) >> 8) & 0xff == code & 0xff) by (bit_vector);
    assert(((code << 8) >> 16) & 0xff == (code >> 8) & 0xff) by (bit_vector);
    assert(((code << 8) >> 24) & 0xff == (code >> 16) & 0xff) by (bit_vector);
}

/// A stream tries the rate that is preferred first, then every usual rate once, from the lowest up.
pub proof fn law_rates_in_order(prefer: u32)
    ensures
        render_rate_order(None) == RATES@,
        render_rate_order(Some(prefer))[0] == prefer,
        forall|x: usize|
            #![trigger render_rate_order(Some(prefer)).contains(x)]
            render_rate_order(Some(prefer)).contains(x) <==> x == prefer || RATES@.contains(x),
        prefer == 44_100 ==> render_rate_order(Some(prefer)) == RATES@,
{
    let keep = |x: usize| x != prefer as usize;
    let rest = RATES@.filter(keep);
    let all = render_rate_order(Some(prefer));
    assert forall|x: usize| #[trigger] all.contains(x) <==> x == prefer || RATES@.contains(x) by {
        if all.contains(x) {
            let k = choose|k: int| 0 <= k < all.len() && all[k] == x;
            if k > 0 {
                assert(rest[k - 1] == x);
                assert(rest.contains(x));
                lemma_filter_from(RATES@, keep, x);
            }
        }
        if x == prefer {
            assert(all[0] == x);
        } else if RATES@.contains(x) {
            lemma_filter_keeps(RATES@, keep, x);
            let k = choose|k: int| 0 <= k < rest.len() && rest[k] == x;
            assert(all[k + 1] == x);
        }
    }
    if prefer == 44_100 {
        reveal_with_fuel(Seq::filter, 9);
        assert(all =~= RATES@);
    }
}

proof fn lemma_filter_from(s: Seq<usize>, keep: spec_fn(usize) -> bool, x: usize)
    requires
        s.filter(keep).contains(x),
    ensures
        s.contains(x),
        keep(x),
    decreases s.len(),
{
    reveal(Seq::filter);
    if s.len() > 0 {
        let f = s.filter(keep);
        let g = s.drop_last().filter(keep);
        let k = choose|k: int| 0 <= k < f.len() && f[k] == x;
        if k < g.len() {
            assert(g[k] == x);
            assert(g.contains(x));
            lemma_filter_from(s.drop_last(), keep, x);
            let j = choose|j: int| 0 <= j < s.drop_last().len() && s.drop_last()[j] == x;
            assert(s[j] == x);
        } else {
            assert(s[s.len() - 1] == x);
        }
    }
}

proof fn lemma_filter_keeps(s: Seq<usize>, keep: spec_fn(usize) -> bool, x: usize)
    requires
        s.contains(x),
        keep(x),
    ensures
        s.filter(keep).contains(x),
    decreases s.len(),
{
    reveal(Seq::filter);
    let k = choose|k: int| 0 <= k < s.len() && s[k] == x;
    let f = s.filter(keep);
    let g = s.drop_last().filter(keep);
    if k < s.len() - 1 {
        assert(s.drop_last()[k] == x);
        lemma_filter_keeps(s.drop_last(), keep, x);
        let j = choose|j: int| 0 <= j < g.len() && g[j] == x;
        assert(f[j] == x);
    } else {
        assert(f[g.len() as int] == x);
    }
}

/// The combination that is chosen is of the first rate at which the driver accepts anything, and of
/// the best format that it accepts there.
pub proof fn law_first_combination(rates: Seq<usize>, answers: Seq<Seq<bool>>, i: int)
    requires
        rates.len() == answers.len(),
    ensures
        0 <= i < rates.len() && accepted(answers[i], 5).len() > 0 && (forall|j: int|
            0 <= j < i ==> accepted(#[trigger] answers[j], 5).len() == 0) ==> first_combo(rates, answers)
            == Some((rates[i], accepted(answers[i], 5)[0])),
        (forall|j: int| 0 <= j < rates.len() ==> accepted(#[trigger] answers[j], 5).len() == 0)
            ==> first_combo(rates, answers) is None,
    decreases rates.len(),
{
    if rates.len() > 0 {
        let r = rates.drop_first();
        let a = answers.drop_first();
        law_first_combination(r, a, i - 1);
        assert forall|j: int| 0 <= j < a.len() implies #[trigger] a[j] == answers[j + 1] by {}
        if i > 0 && i < rates.len() && (forall|j: int|
            0 <= j < i ==> accepted(#[trigger] answers[j], 5).len() == 0) {
            assert(accepted(answers[0], 5).len() == 0);
            assert forall|j: int| 0 <= j < i - 1 implies accepted(#[trigger] a[j], 5).len() == 0 by {
                assert(a[j] == answers[j + 1]);
            }
        }
        if forall|j: int| 0 <= j < rates.len() ==> accepted(#[trigger] answers[j], 5).len() == 0 {
            assert(accepted(answers[0], 5).len() == 0);
            assert forall|j: int| 0 <= j < r.len() implies accepted(#[trigger] a[j], 5).len() == 0 by {
                assert(a[j] == answers[j + 1]);
            }
        }
    }
}

/// The largest codes are those of two's complement: half of the range, less one.
pub proof fn law_largest_codes(fmt: Fmt)
    ensures
        fmt.store == 16 ==> 2 * (largest_code(fmt) + 1) == 65_536,
        fmt.store != 16 ==> 2 * (largest_code(fmt) + 1) == 16_777_216,
{
}

/// The bytes of a word, the lowest first, make up the word.
pub proof fn law_words_are_little_endian(w: u32)
    ensures
        le_bytes(w).len() == 4,
        le_bytes(w)[0] + le_bytes(w)[1] * 256 + le_bytes(w)[2] * 65_536 + le_bytes(w)[3] * 16_777_216
            == w,
{
    assert((w & 0xff) as u8 + ((w >> 8) & 0xff) as u8 * 256 + ((w >> 16) & 0xff) as u8 * 65_536 + ((w
        >> 24) & 0xff) as u8 * 16_777_216 == w) by (bit_vector);
}

/// A code of 16 or 24 bits takes its two or three lowest bytes, and one of floating point the whole
/// word.
pub proof fn law_code_bytes(code: u32, fmt: Fmt)
    ensures
        fmt.is_float ==> code_bytes(code, fmt) == le_bytes(code),
        !fmt.is_float && fmt.store == 16 ==> {
            let b = code_bytes(code, fmt);
            b.len() == 2 && b[0] + b[1] * 256 == code % 65_536
        },
        !fmt.is_float && fmt.store == 24 ==> {
            let b = code_bytes(code, fmt);
            b.len() == 3 && b[0] + b[1] * 256 + b[2] * 65_536 == code % 16_777_216
        },
        !fmt.is_float && fmt.store == 32 ==> {
            let b = code_bytes(code, fmt);
            b.len() == 4 && b[0] == 0 && b[1] + b[2] * 256 + b[3] * 65_536 == code % 16_777_216
        },
{
    law_words_are_little_endian(code);
    if !fmt.is_float && fmt.store == 32 {
        law_left_aligned(code, fmt);
    }
}

/// Samples are laid out one behind the other.
pub proof fn law_samples_in_turn(a: Seq<u32>, b: Seq<u32>, code: u32, fmt: Fmt)
    ensures
        packed(a + b, fmt) == packed(a, fmt) + packed(b, fmt),
        packed(seq![code], fmt) == code_bytes(code, fmt),
    decreases b.len(),
{
    assert(seq![code].drop_last() =~= Seq::<u32>::empty());
    assert(packed(seq![code].drop_last(), fmt) =~= Seq::<u8>::empty());
    assert(Seq::<u8>::empty() + code_bytes(code, fmt) =~= code_bytes(code, fmt));
    if b.len() == 0 {
        assert(a + b =~= a);
        assert(packed(a, fmt) + packed(b, fmt) =~= packed(a, fmt));
    } else {
        law_samples_in_turn(a, b.drop_last(), code, fmt);
        assert((a + b).drop_last() =~= a + b.drop_last());
        assert(packed(a + b, fmt) =~= packed(a, fmt) + packed(b, fmt));
    }
}

/// Where the samples run out silence follows; where there are enough nothing is added.
pub proof fn law_silence_follows(codes: Seq<u32>, samples: nat)
    ensures
        filled_up(codes, samples).len() == samples,
        samples <= codes.len() ==> filled_up(codes, samples) == codes.take(samples as int),
        forall|i: int| codes.len() <= i < samples ==> #[trigger] filled_up(codes, samples)[i] == 0,
        forall|i: int| 0 <= i < codes.len() && i < samples ==> #[trigger] filled_up(codes, samples)[i]
            == codes[i],
{
    if samples <= codes.len() {
        assert(filled_up(codes, samples) =~= codes.take(samples as int));
    }
}

/// The render thread ends when it is told to, or when the device does not answer; it waits where
/// there is no room, and else fills all the room there is.
pub proof fn law_render_steps(n: u32)
    ensures
        forall|waited: bool, free: Option<u32>| #[trigger] next_render(true, waited, free) is End,
        forall|stop: bool, free: Option<u32>| #[trigger] next_render(stop, false, free) is End,
        next_render(false, true, None) is End,
        next_render(false, true, Some(0)) is Wait,
        n > 0 ==> next_render(false, true, Some(n)) == RenderStep::Fill(n),
{
}

/// A stream that is asked to end changes in nothing else, and a report changes nothing but what it
/// reports.
pub proof fn law_stream_state(s: ExclusiveSink, played: u64, dead: bool)
    ensures
        s.stopping().stop_requested,
        s.stopping().played == s.played && s.stopping().dead == s.dead && s.stopping().rate == s.rate,
        s.with_report(played, dead).played == played,
        s.with_report(played, dead).dead == dead,
        s.with_report(played, dead).stop_requested == s.stop_requested && s.with_report(
            played,
            dead,
        ).rate == s.rate,
{
}

/// A frame of the device holds as many bytes as the codes of its channels.
pub proof fn law_frame_of_codes(codes: Seq<u32>, fmt: Fmt)
    requires
        fmt.store == 16 || fmt.store == 24 || fmt.store == 32,
        fmt.is_float ==> fmt.store == 32,
    ensures
        packed(codes, fmt).len() == frame_bytes(fmt, codes.len()),
{
    law_bytes_fill_the_frames(codes, fmt);
    assert(codes.len() * (fmt.store as int / 8) == (fmt.store as int / 8) * codes.len()) by (nonlinear_arith);
}

} // verus!
