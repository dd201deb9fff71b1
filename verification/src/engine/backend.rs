//! Exclusive output: which sample formats to ask a device for, how to read its refusals, and what
//! to tell the user about them.

use crate::double::{
    half_more, lemma_multiple_bound, lemma_multiple_near, lemma_tenths_bound, lemma_tenths_near, product,
    quotient, rounded, Double,
};
use crate::text::{
    chars_of, contains, contains_seq, decimal_of, lemma_decimal_digits, lemma_decimal_injective,
    opt_view, push_decimal, str_eq,
};
use vstd::prelude::*;
use vstd::string::StringExecFns;

verus! {

/// A sample format: `store` bits per sample of which `valid` carry the sample.
#[derive(Clone, Copy, PartialEq, Eq, Debug, Structural)]
pub struct Fmt {
    pub store: usize,
    pub valid: usize,
    pub is_float: bool,
}

/// The label of a format: valid bits, an `f` for floating point, then the container.
pub open spec fn label_of(f: Fmt) -> Seq<char> {
    decimal_of(f.valid as nat) + (if f.is_float {
        "f/"@
    } else {
        "/"@
    }) + decimal_of(f.store as nat)
}

/// The bytes of one frame of so many channels.
pub open spec fn frame_bytes(f: Fmt, channels: nat) -> nat {
    (f.store as nat / 8) * channels
}

impl Fmt {
    pub fn integer(store: usize, valid: usize) -> (r: Self)
        ensures
            r == (Fmt { store, valid, is_float: false }),
    {
        Fmt { store, valid, is_float: false }
    }

    pub fn float(bits: usize) -> (r: Self)
        ensures
            r == (Fmt { store: bits, valid: bits, is_float: true }),
    {
        Fmt { store: bits, valid: bits, is_float: true }
    }

    /// The label shown to the user, such as `24/32` for 24 bits in a container of 32.
    pub fn label(&self) -> (r: String)
        ensures
            r@ == label_of(*self),
    {
        let mut r = String::new();
        push_decimal(&mut r, self.valid as u64);
        if self.is_float {
            r.append("f/");
        } else {
            r.append("/");
        }
        push_decimal(&mut r, self.store as u64);
        proof {
            assert(r@ =~= label_of(*self));
        }
        r
    }

    /// The bytes of one frame.
    pub fn bytes_per_frame(&self, channels: usize) -> (r: usize)
        requires
            frame_bytes(*self, channels as nat) <= usize::MAX,
        ensures
            r == frame_bytes(*self, channels as nat),
    {
        (self.store / 8) * channels
    }
}

/// The formats in order of preference, from the most faithful to the most widely supported.
pub open spec fn preferred_formats() -> Seq<Fmt> {
    seq![
        Fmt { store: 32, valid: 24, is_float: false },
        Fmt { store: 24, valid: 24, is_float: false },
        Fmt { store: 32, valid: 32, is_float: false },
        Fmt { store: 32, valid: 32, is_float: true },
        Fmt { store: 16, valid: 16, is_float: false },
    ]
}

/// The formats in order of preference.
pub fn fmt_pref() -> (r: [Fmt; 5])
    ensures
        r@ == preferred_formats(),
{
    let r = [
        Fmt::integer(32, 24),
        Fmt::integer(24, 24),
        Fmt::integer(32, 32),
        Fmt::float(32),
        Fmt::integer(16, 16),
    ];
    proof {
        assert(r@ =~= preferred_formats());
    }
    r
}

/// The sample rates that a probe asks for.
pub const RATES: [usize; 8] = [44_100, 48_000, 88_200, 96_000, 176_400, 192_000, 352_800, 705_600];

/// Why exclusive output could not be had.
#[derive(Clone, Copy, Debug, PartialEq, Eq, Structural)]
pub enum Fallback {
    /// The device does not take the format.
    UnsupportedFormat,
    /// Another program holds the device.
    DeviceInUse,
    /// The system does not allow exclusive use.
    ExclusiveDisabled,
    /// The device has gone.
    DeviceInvalidated,
    /// The buffer has to be aligned to the device period; a retry settles it.
    NeedsAlignment,
    Other,
}

/// The class of an error by the result code in its text.
pub open spec fn class_of(err: Seq<char>) -> Fallback {
    if contains_seq(err, "0x88890008"@) {
        Fallback::UnsupportedFormat
    } else if contains_seq(err, "0x8889000A"@) {
        Fallback::DeviceInUse
    } else if contains_seq(err, "0x8889000E"@) {
        Fallback::ExclusiveDisabled
    } else if contains_seq(err, "0x88890004"@) {
        Fallback::DeviceInvalidated
    } else if contains_seq(err, "0x88890019"@) {
        Fallback::NeedsAlignment
    } else {
        Fallback::Other
    }
}

/// What the user is told about a fallback.
pub open spec fn hint_of(f: Fallback) -> Seq<char> {
    match f {
        Fallback::UnsupportedFormat => "该设备不支持这个采样格式，已回退共享模式"@,
        Fallback::DeviceInUse => "该设备正被其它程序独占，已回退共享模式"@,
        Fallback::ExclusiveDisabled =>
            "系统设置里禁用了独占控制（声音设置 → 设备属性 → 高级），已回退共享模式"@,
        Fallback::DeviceInvalidated => "设备已失效或被拔出，已回退共享模式"@,
        Fallback::NeedsAlignment => "需要对齐设备缓冲（已自动重试）"@,
        Fallback::Other => "独占模式初始化失败，已回退共享模式"@,
    }
}

fn has(err: &[char], code: &str) -> (r: bool)
    ensures
        r == contains_seq(err@, code@),
{
    let c = chars_of(code);
    contains(err, c.as_slice())
}

/// Classifies an error by the result code in its text.
pub fn classify(err: &str) -> (r: Fallback)
    ensures
        r == class_of(err@),
{
    let cs = chars_of(err);
    let e = cs.as_slice();
    if has(e, "0x88890008") {
        Fallback::UnsupportedFormat
    } else if has(e, "0x8889000A") {
        Fallback::DeviceInUse
    } else if has(e, "0x8889000E") {
        Fallback::ExclusiveDisabled
    } else if has(e, "0x88890004") {
        Fallback::DeviceInvalidated
    } else if has(e, "0x88890019") {
        Fallback::NeedsAlignment
    } else {
        Fallback::Other
    }
}

impl Fallback {
    /// One sentence for the user.
    pub fn hint(&self) -> (r: &'static str)
        ensures
            r@ == hint_of(*self),
    {
        match self {
            Fallback::UnsupportedFormat => "该设备不支持这个采样格式，已回退共享模式",
            Fallback::DeviceInUse => "该设备正被其它程序独占，已回退共享模式",
            Fallback::ExclusiveDisabled =>
                "系统设置里禁用了独占控制（声音设置 → 设备属性 → 高级），已回退共享模式",
            Fallback::DeviceInvalidated => "设备已失效或被拔出，已回退共享模式",
            Fallback::NeedsAlignment => "需要对齐设备缓冲（已自动重试）",
            Fallback::Other => "独占模式初始化失败，已回退共享模式",
        }
    }

    /// Whether the failure lies with the device, so that no other format will do better.
    pub fn is_device_level(&self) -> (r: bool)
        ensures
            r == device_level(*self),
    {
        match self {
            Fallback::DeviceInUse | Fallback::ExclusiveDisabled | Fallback::DeviceInvalidated => true,
            _ => false,
        }
    }
}

/// Whether the failure lies with the device.
pub open spec fn device_level(f: Fallback) -> bool {
    f == Fallback::DeviceInUse || f == Fallback::ExclusiveDisabled || f
        == Fallback::DeviceInvalidated
}

/// The length of a buffer in units of 100 ns, counted in double precision: that of one frame, times
/// the frames, to the nearest.
pub open spec fn period_of(rate: nat, frames: nat) -> nat {
    let p = half_more(product(quotient(10_000_000, rate), frames));
    p.num / p.den
}

/// The length of a buffer in units of 100 ns: what a device wants of a buffer that it reports as
/// `frames` long.
pub fn aligned_period_hns(rate: usize, frames: u32) -> (r: i64)
    ensures
        rate == 0 || frames == 0 ==> r == 0,
        rate > 0 && frames > 0 ==> r == period_of(rate as nat, frames as nat),
{
    if rate == 0 || frames == 0 {
        return 0;
    }
    proof {
        lemma_multiple_bound(10_000_000, rate as u64, frames);
    }
    Double::ratio(10_000_000, rate as u64).times(frames).plus_half().floor() as i64
}

/// The formats that a driver accepts, out of its answers on `fmt_pref`.
pub open spec fn accepted(answers: Seq<bool>, upto: int) -> Seq<Fmt>
    decreases upto,
{
    if upto <= 0 {
        Seq::empty()
    } else {
        let head = accepted(answers, upto - 1);
        if answers[upto - 1] {
            head.push(preferred_formats()[upto - 1])
        } else {
            head
        }
    }
}

/// The formats that are tried, out of a driver's answers on `fmt_pref`.
pub open spec fn tried(answers: Seq<bool>) -> Seq<Fmt> {
    if accepted(answers, 5).len() == 0 {
        seq![preferred_formats()[0]]
    } else {
        accepted(answers, 5)
    }
}

/// The formats to try at one sample rate, given the driver's answer on each of `fmt_pref`. A
/// driver that accepts none is still offered the first, since its answers can be wrong.
pub fn formats_to_try(answers: [bool; 5]) -> (r: Vec<Fmt>)
    ensures
        r@ == tried(answers@),
        r@.len() > 0,
{
    let mut r = supported_formats(answers);
    if r.len() == 0 {
        r.push(fmt_pref()[0]);
    }
    proof {
        assert(r@ =~= if accepted(answers@, 5).len() == 0 {
            seq![preferred_formats()[0]]
        } else {
            accepted(answers@, 5)
        });
    }
    r
}

/// The formats that the driver declares to accept, in order of preference, given its answer on
/// each of `fmt_pref`.
pub fn supported_formats(answers: [bool; 5]) -> (r: Vec<Fmt>)
    ensures
        r@ == accepted(answers@, 5),
{
    let pref = fmt_pref();
    let mut r: Vec<Fmt> = Vec::new();
    let mut i: usize = 0;
    while i < 5
        invariant
            i <= 5,
            pref@ == preferred_formats(),
            r@ == accepted(answers@, i as int),
        decreases 5 - i,
    {
        if answers[i] {
            r.push(pref[i]);
        }
        i = i + 1;
    }
    r
}

/// A failed attempt to open exclusive output.
#[derive(Debug, Clone)]
pub struct OpenFailure {
    pub kind: Fallback,
    pub message: String,
}

/// The position of the failure that is reported for all of them: the first whose class is known,
/// else the first.
pub open spec fn telling(errors: Seq<OpenFailure>) -> int {
    if exists|i: int| 0 <= i < errors.len() && #[trigger] errors[i].kind != Fallback::Other {
        choose|i: int|
            0 <= i < errors.len() && #[trigger] errors[i].kind != Fallback::Other && forall|j: int|
                0 <= j < i ==> errors[j].kind == Fallback::Other
    } else {
        0
    }
}

/// Picks the failure to report: the first whose class is known, else the first; none where there
/// was no attempt.
pub fn pick_fallback(errors: &[OpenFailure]) -> (r: Option<OpenFailure>)
    ensures
        r is None <==> errors@.len() == 0,
        r matches Some(f) ==> 0 <= telling(errors@) < errors@.len() && f == errors@[telling(
            errors@,
        )],
{
    if errors.len() == 0 {
        return None;
    }
    let mut i: usize = 0;
    while i < errors.len()
        invariant
            i <= errors@.len(),
            forall|j: int| 0 <= j < i ==> errors@[j].kind == Fallback::Other,
        decreases errors@.len() - i,
    {
        if errors[i].kind != Fallback::Other {
            proof {
                let t = telling(errors@);
                assert(errors@[i as int].kind != Fallback::Other);
                assert(t == i) by {
                    if t < i {
                        assert(errors@[t].kind == Fallback::Other);
                    }
                    if t > i {
                        assert(errors@[i as int].kind == Fallback::Other);
                    }
                }
            }
            return Some(OpenFailure { kind: errors[i].kind, message: errors[i].message.clone() });
        }
        i = i + 1;
    }
    Some(OpenFailure { kind: errors[0].kind, message: errors[0].message.clone() })
}

/// What to do about a failed initialisation.
#[derive(Debug, Clone)]
pub enum InitStep {
    /// Ask for the buffer size and initialise once more with the aligned period.
    Align,
    /// Report this text.
    GiveUp(String),
}

/// Whether a step is the one to take after an initialisation failed.
pub open spec fn follows_failure(r: InitStep, message: Seq<char>) -> bool {
    match r {
        InitStep::Align => class_of(message) == Fallback::NeedsAlignment,
        InitStep::GiveUp(text) => class_of(message) != Fallback::NeedsAlignment && text@ == message
            + "（"@ + hint_of(class_of(message)) + "）"@,
    }
}

/// Decides on a failed initialisation: a misaligned buffer is worth one retry, anything else is
/// reported with its hint.
pub fn after_init_failure(message: &str) -> (r: InitStep)
    ensures
        follows_failure(r, message@),
{
    let kind = classify(message);
    if kind == Fallback::NeedsAlignment {
        InitStep::Align
    } else {
        InitStep::GiveUp(message.to_owned().concat("（").concat(kind.hint()).concat("）"))
    }
}

/// What a device can do, for display.
#[derive(Clone, Debug)]
pub struct DeviceCaps {
    pub name: String,
    pub id: String,
    pub is_default: bool,
    /// The default format of shared mode.
    pub shared_format: String,
    /// The combinations accepted in exclusive mode, such as `44100/24/32`.
    pub exclusive: Vec<String>,
    /// The combination that could be initialised.
    pub init_ok: Option<String>,
    /// Why none could.
    pub init_hint: Option<String>,
}

/// The outcome of one trial initialisation.
#[derive(Clone, Debug)]
pub enum Attempt {
    /// No client could be had for it.
    NoClient,
    Opened,
    Failed(String),
}

/// How many of the accepted combinations are tried.
pub const MAX_ATTEMPTS: usize = 8;

/// A sample rate in kHz of double precision, rounded to one decimal.
pub open spec fn khz_of(rate: nat) -> Seq<char> {
    let d = quotient(rate, 1000);
    let tenths = rounded(d.num * 10, d.den);
    decimal_of(tenths / 10) + "."@ + decimal_of(tenths % 10)
}

/// What was learnt from the first `n` attempts: the label of the one that succeeded, and the last
/// failure before it.
pub open spec fn learnt(supported: Seq<(usize, Fmt)>, attempts: Seq<Attempt>, n: int) -> (
    Option<Seq<char>>,
    Option<Seq<char>>,
)
    decreases n,
{
    if n <= 0 {
        (None, None)
    } else {
        let (ok, hint) = learnt(supported, attempts, n - 1);
        let (rate, fmt) = supported[n - 1];
        if ok is Some {
            (ok, hint)
        } else {
            match attempts[n - 1] {
                Attempt::NoClient => (ok, hint),
                Attempt::Opened => (
                    Some(khz_of(rate as nat) + "kHz "@ + label_of(fmt)),
                    hint,
                ),
                Attempt::Failed(msg) => (ok, Some(label_of(fmt) + "："@ + msg@)),
            }
        }
    }
}

/// The text of an accepted combination.
pub open spec fn combo_text(c: (usize, Fmt)) -> Seq<char> {
    decimal_of(c.0 as nat) + "/"@ + label_of(c.1)
}

/// The combinations that a driver accepts, out of its answers on each of `fmt_pref` at each of
/// `RATES`.
pub open spec fn accepted_combos(answers: Seq<Seq<bool>>, rates: int) -> Seq<(usize, Fmt)>
    decreases rates,
{
    if rates <= 0 {
        Seq::empty()
    } else {
        accepted_combos(answers, rates - 1) + accepted(answers[rates - 1], 5).map_values(
            |f: Fmt| (RATES@[rates - 1], f),
        )
    }
}

/// The combinations that a driver accepts, by sample rate and then by preference, out of its
/// answers on each of `fmt_pref` at each of `RATES`.
pub fn supported_combos(answers: [[bool; 5]; 8]) -> (r: Vec<(usize, Fmt)>)
    ensures
        r@ == accepted_combos(answers@.map_values(|a: [bool; 5]| a@), 8),
{
    let ghost all = answers@.map_values(|a: [bool; 5]| a@);
    let mut r: Vec<(usize, Fmt)> = Vec::new();
    let mut i: usize = 0;
    while i < 8
        invariant
            i <= 8,
            all == answers@.map_values(|a: [bool; 5]| a@),
            r@ == accepted_combos(all, i as int),
        decreases 8 - i,
    {
        let fs = supported_formats(answers[i]);
        let ghost base = r@;
        let ghost want = fs@.map_values(|f: Fmt| (RATES@[i as int], f));
        let mut j: usize = 0;
        proof {
            assert(base + want.take(0) =~= base);
            assert(all[i as int] == answers@[i as int]@);
        }
        while j < fs.len()
            invariant
                i < 8,
                j <= fs@.len(),
                want == fs@.map_values(|f: Fmt| (RATES@[i as int], f)),
                r@ == base + want.take(j as int),
            decreases fs@.len() - j,
        {
            proof {
                assert(base + want.take(j + 1) =~= (base + want.take(j as int)).push(want[j as int]));
            }
            r.push((RATES[i], fs[j]));
            j = j + 1;
        }
        proof {
            assert(want.take(fs@.len() as int) =~= want);
        }
        i = i + 1;
    }
    r
}

fn khz(rate: usize) -> (r: String)
    ensures
        r@ == khz_of(rate as nat),
{
    proof {
        lemma_tenths_bound(rate as u64);
    }
    let tenths: u64 = Double::ratio(rate as u64, 1000).rounded_times(10) as u64;
    let mut r = String::new();
    push_decimal(&mut r, tenths / 10);
    r.append(".");
    push_decimal(&mut r, tenths % 10);
    proof {
        assert(r@ =~= khz_of(rate as nat));
    }
    r
}

/// Describes a device by its answers and by the trial initialisations that were made. The trials
/// stand for the first combinations of `supported`, in order; they end with the first success.
pub fn probe_report(
    name: String,
    id: String,
    is_default: bool,
    shared_format: String,
    supported: Vec<(usize, Fmt)>,
    attempts: &[Attempt],
) -> (r: DeviceCaps)
    requires
        attempts@.len() <= supported@.len(),
    ensures
        r.name == name,
        r.id == id,
        r.is_default == is_default,
        r.shared_format == shared_format,
        r.exclusive@.len() == supported@.len(),
        forall|i: int|
            0 <= i < supported@.len() ==> (#[trigger] r.exclusive@[i])@ == combo_text(supported@[i]),
        ({
            let (ok, hint) = learnt(supported@, attempts@, attempts@.len() as int);
            &&& opt_view(r.init_ok) == ok
            &&& opt_view(r.init_hint) == if supported@.len() == 0 {
                Some("该设备在独占模式下没有任何我试过的格式可用"@)
            } else {
                hint
            }
        }),
{
    let mut init_ok: Option<String> = None;
    let mut init_hint: Option<String> = None;
    let mut i: usize = 0;
    while i < attempts.len()
        invariant
            i <= attempts@.len(),
            attempts@.len() <= supported@.len(),
            (opt_view(init_ok), opt_view(init_hint)) == learnt(supported@, attempts@, i as int),
        decreases attempts@.len() - i,
    {
        let (rate, fmt) = supported[i];
        if init_ok.is_none() {
            match &attempts[i] {
                Attempt::NoClient => {},
                Attempt::Opened => {
                    let text = khz(rate).concat("kHz ").concat(fmt.label().as_str());
                    init_ok = Some(text);
                },
                Attempt::Failed(msg) => {
                    let text = fmt.label().concat("：").concat(msg.as_str());
                    init_hint = Some(text);
                },
            }
        }
        i = i + 1;
    }
    if supported.len() == 0 {
        init_hint = Some("该设备在独占模式下没有任何我试过的格式可用".to_owned());
    }
    let mut exclusive: Vec<String> = Vec::new();
    let mut k: usize = 0;
    while k < supported.len()
        invariant
            k <= supported@.len(),
            exclusive@.len() == k,
            forall|j: int| 0 <= j < k ==> (#[trigger] exclusive@[j])@ == combo_text(supported@[j]),
        decreases supported@.len() - k,
    {
        let (rate, fmt) = supported[k];
        let mut text = String::new();
        push_decimal(&mut text, rate as u64);
        text.append("/");
        text.append(fmt.label().as_str());
        proof {
            assert(text@ =~= combo_text(supported@[k as int]));
        }
        exclusive.push(text);
        k = k + 1;
    }
    DeviceCaps { name, id, is_default, shared_format, exclusive, init_ok, init_hint }
}

/// The text on a wave format.
pub open spec fn described(
    rate: nat,
    valid_bits: nat,
    bits: nat,
    is_float: bool,
    channels: nat,
) -> Seq<char> {
    decimal_of(rate) + "Hz "@ + decimal_of(valid_bits) + "/"@ + decimal_of(bits) + "bit "@ + (
    if is_float {
        "float"@
    } else {
        "PCM"@
    }) + " "@ + decimal_of(channels) + "ch"@
}

/// One line on a wave format: rate, valid and stored bits, kind and channels.
pub fn describe(rate: u32, valid_bits: u16, bits: u16, is_float: bool, channels: u16) -> (r: String)
    ensures
        r@ == described(rate as nat, valid_bits as nat, bits as nat, is_float, channels as nat),
{
    let mut r = String::new();
    push_decimal(&mut r, rate as u64);
    proof {
        assert(r@ =~= decimal_of(rate as nat));
    }
    r.append("Hz ");
    push_decimal(&mut r, valid_bits as u64);
    r.append("/");
    push_decimal(&mut r, bits as u64);
    r.append("bit ");
    if is_float {
        r.append("float");
    } else {
        r.append("PCM");
    }
    r.append(" ");
    push_decimal(&mut r, channels as u64);
    r.append("ch");
    r
}

/// Which output the user wants.
#[derive(Clone, Copy, Debug, PartialEq, Eq, Structural)]
pub enum OutputMode {
    /// Exclusive where it can be had, else shared.
    Auto,
    /// Exclusive, falling back to shared with a word to the user.
    Exclusive,
    Shared,
}

/// The name of an output mode.
pub open spec fn output_name(m: OutputMode) -> Seq<char> {
    match m {
        OutputMode::Auto => "auto"@,
        OutputMode::Exclusive => "exclusive"@,
        OutputMode::Shared => "shared"@,
    }
}

/// Whether an output mode allows exclusive output.
pub open spec fn may_be_exclusive(m: OutputMode) -> bool {
    m != OutputMode::Shared
}

/// The output mode of a name, if it is one.
pub open spec fn output_of(s: Seq<char>) -> Option<OutputMode> {
    if s == "auto"@ {
        Some(OutputMode::Auto)
    } else if s == "exclusive"@ {
        Some(OutputMode::Exclusive)
    } else if s == "shared"@ {
        Some(OutputMode::Shared)
    } else {
        None
    }
}

impl OutputMode {
    pub fn parse(s: &str) -> (r: Option<OutputMode>)
        ensures
            r == output_of(s@),
    {
        if str_eq(s, "auto") {
            Some(OutputMode::Auto)
        } else if str_eq(s, "exclusive") {
            Some(OutputMode::Exclusive)
        } else if str_eq(s, "shared") {
            Some(OutputMode::Shared)
        } else {
            None
        }
    }

    pub fn as_str(&self) -> (r: &'static str)
        ensures
            r@ == output_name(*self),
    {
        match self {
            OutputMode::Auto => "auto",
            OutputMode::Exclusive => "exclusive",
            OutputMode::Shared => "shared",
        }
    }

    /// Whether exclusive output may be tried.
    pub fn allows_exclusive(&self) -> (r: bool)
        ensures
            r == may_be_exclusive(*self),
    {
        match self {
            OutputMode::Shared => false,
            _ => true,
        }
    }
}

/// Reading the name of an output mode gives that mode back.
pub proof fn law_output_mode_round_trip(m: OutputMode)
    ensures
        output_of(output_name(m)) == Some(m),
{
    reveal_strlit("auto");
    reveal_strlit("exclusive");
    reveal_strlit("shared");
    assert("auto"@.len() != "exclusive"@.len());
    assert("auto"@.len() != "shared"@.len());
    assert("exclusive"@.len() != "shared"@.len());
}

/// A label tells two formats apart.
pub proof fn law_label_tells_formats_apart(a: Fmt, b: Fmt)
    requires
        label_of(a) == label_of(b),
    ensures
        a == b,
{
    reveal_strlit("f/");
    reveal_strlit("/");
    let (va, vb) = (decimal_of(a.valid as nat), decimal_of(b.valid as nat));
    let (sa, sb) = (decimal_of(a.store as nat), decimal_of(b.store as nat));
    let (la, lb) = (label_of(a), label_of(b));
    lemma_decimal_digits(a.valid as nat);
    lemma_decimal_digits(b.valid as nat);
    let (ka, kb) = (va.len() as int, vb.len() as int);
    assert(la[ka] == 'f' || la[ka] == '/');
    assert(lb[kb] == 'f' || lb[kb] == '/');
    if ka < kb {
        assert(lb[ka] == vb[ka]);
    }
    if kb < ka {
        assert(la[kb] == va[kb]);
    }
    assert(va =~= la.take(ka));
    assert(vb =~= lb.take(kb));
    lemma_decimal_injective(a.valid as nat, b.valid as nat);
    assert(a.is_float == (la[ka] == 'f'));
    assert(b.is_float == (lb[kb] == 'f'));
    let k = ka + if a.is_float {
        2int
    } else {
        1int
    };
    assert(sa =~= la.skip(k));
    assert(sb =~= lb.skip(k));
    lemma_decimal_injective(a.store as nat, b.store as nat);
}

/// A frame takes two, three or four bytes for each channel, as wide as its container is.
pub proof fn law_frame_bytes(f: Fmt, channels: nat)
    ensures
        f.store == 16 ==> frame_bytes(f, channels) == 2 * channels,
        f.store == 24 ==> frame_bytes(f, channels) == 3 * channels,
        f.store == 32 ==> frame_bytes(f, channels) == 4 * channels,
{
}

/// What is asked for first is 24 bits in a container of 32, then packed, then 32 bits, then floating
/// point, and 16 bits last.
pub proof fn law_format_preference()
    ensures
        preferred_formats().len() == 5,
        preferred_formats()[0] == (Fmt { store: 32, valid: 24, is_float: false }),
        preferred_formats()[1] == (Fmt { store: 24, valid: 24, is_float: false }),
        preferred_formats()[2] == (Fmt { store: 32, valid: 32, is_float: false }),
        preferred_formats()[3] == (Fmt { store: 32, valid: 32, is_float: true }),
        preferred_formats()[4] == (Fmt { store: 16, valid: 16, is_float: false }),
        forall|i: int| 0 <= i < 5 ==> (#[trigger] preferred_formats()[i]).valid <= preferred_formats()[i].store,
{
}

/// The label of a format reads: valid bits, stroke, container.
pub proof fn law_label(store: usize, valid: usize)
    ensures
        label_of(Fmt { store, valid, is_float: false }) == decimal_of(valid as nat) + "/"@ + decimal_of(
            store as nat,
        ),
        label_of(Fmt { store, valid, is_float: true }) == decimal_of(valid as nat) + "f/"@ + decimal_of(
            store as nat,
        ),
        combo_text((44_100, Fmt { store, valid, is_float: false })) == decimal_of(44_100) + "/"@ + (
        decimal_of(valid as nat) + "/"@ + decimal_of(store as nat)),
{
}

/// Whether a text holds one result code and none of the others.
pub open spec fn names_only(err: Seq<char>, code: Seq<char>) -> bool {
    &&& contains_seq(err, code)
    &&& code != "0x88890008"@ ==> !contains_seq(err, "0x88890008"@)
    &&& code != "0x8889000A"@ ==> !contains_seq(err, "0x8889000A"@)
    &&& code != "0x8889000E"@ ==> !contains_seq(err, "0x8889000E"@)
    &&& code != "0x88890004"@ ==> !contains_seq(err, "0x88890004"@)
    &&& code != "0x88890019"@ ==> !contains_seq(err, "0x88890019"@)
}

/// Each result code has its class, and a text without any of them has none.
pub proof fn law_result_codes(err: Seq<char>)
    ensures
        names_only(err, "0x88890008"@) ==> class_of(err) == Fallback::UnsupportedFormat,
        names_only(err, "0x8889000A"@) ==> class_of(err) == Fallback::DeviceInUse,
        names_only(err, "0x8889000E"@) ==> class_of(err) == Fallback::ExclusiveDisabled,
        names_only(err, "0x88890004"@) ==> class_of(err) == Fallback::DeviceInvalidated,
        names_only(err, "0x88890019"@) ==> class_of(err) == Fallback::NeedsAlignment,
        class_of(err) == Fallback::Other ==> !contains_seq(err, "0x88890008"@) && !contains_seq(
            err,
            "0x8889000A"@,
        ) && !contains_seq(err, "0x8889000E"@) && !contains_seq(err, "0x88890004"@) && !contains_seq(
            err,
            "0x88890019"@,
        ),
{
    reveal_strlit("0x88890008");
    reveal_strlit("0x8889000A");
    reveal_strlit("0x8889000E");
    reveal_strlit("0x88890004");
    reveal_strlit("0x88890019");
    assert("0x88890008"@[9] == '8' && "0x8889000A"@[9] == 'A' && "0x8889000E"@[9] == 'E');
    assert("0x88890004"@[9] == '4' && "0x88890019"@[9] == '9');
}

/// Each class has its own words, and it lies with the device where the device is taken, locked or
/// gone.
pub proof fn law_fallbacks()
    ensures
        hint_of(Fallback::UnsupportedFormat) == "该设备不支持这个采样格式，已回退共享模式"@,
        hint_of(Fallback::DeviceInUse) == "该设备正被其它程序独占，已回退共享模式"@,
        hint_of(Fallback::DeviceInvalidated) == "设备已失效或被拔出，已回退共享模式"@,
        hint_of(Fallback::NeedsAlignment) == "需要对齐设备缓冲（已自动重试）"@,
        hint_of(Fallback::Other) == "独占模式初始化失败，已回退共享模式"@,
        device_level(Fallback::DeviceInUse),
        device_level(Fallback::ExclusiveDisabled),
        device_level(Fallback::DeviceInvalidated),
        !device_level(Fallback::UnsupportedFormat),
        !device_level(Fallback::NeedsAlignment),
        !device_level(Fallback::Other),
{
}

/// The period of a buffer is as long as its frames take, to within one unit of 100 ns.
pub proof fn law_period(rate: u64, frames: u32)
    requires
        0 < rate < 0x1_0000_0000,
        0 < frames < 0x100_0000,
    ensures
        period_of(rate as nat, frames as nat) * rate <= 10_000_000 * frames + rate,
        10_000_000 * frames <= period_of(rate as nat, frames as nat) * rate + rate,
{
    lemma_multiple_near(10_000_000, rate, frames);
}

/// A sample rate is shown in kHz to the nearest tenth.
pub proof fn law_khz(rate: u64)
    requires
        rate < 0x1_0000_0000,
    ensures
        ({
            let tenths = rounded(quotient(rate as nat, 1000).num * 10, quotient(rate as nat, 1000).den);
            &&& 100 * tenths <= rate + 51
            &&& rate <= 100 * tenths + 51
            &&& khz_of(rate as nat) == decimal_of(tenths / 10) + "."@ + decimal_of(tenths % 10)
        }),
{
    lemma_tenths_near(rate);
}

/// A driver's answers choose among the formats: each that it accepts is there, no other is, and the
/// order of preference stays.
pub proof fn law_accepted_formats(answers: Seq<bool>, n: int)
    requires
        0 <= n <= 5,
        answers.len() == 5,
    ensures
        (forall|i: int| 0 <= i < n ==> !answers[i]) ==> accepted(answers, n).len() == 0,
        (forall|i: int| 0 <= i < n ==> answers[i]) ==> accepted(answers, n) == preferred_formats().take(n),
        forall|i: int|
            0 <= i < n && #[trigger] answers[i] ==> accepted(answers, n).contains(
                preferred_formats()[i],
            ),
        forall|f: Fmt| #[trigger]
            accepted(answers, n).contains(f) ==> exists|i: int|
                0 <= i < n && #[trigger] answers[i] && preferred_formats()[i] == f,
    decreases n,
{
    if n > 0 {
        law_accepted_formats(answers, n - 1);
        let head = accepted(answers, n - 1);
        let all = accepted(answers, n);
        let f = preferred_formats()[n - 1];
        assert(answers[n - 1] == answers[n - 1]);
        assert(preferred_formats().take(n) =~= preferred_formats().take(n - 1).push(f));
        if answers[n - 1] {
            assert(all[head.len() as int] == f);
        }
        assert forall|i: int| 0 <= i < n && #[trigger] answers[i] implies all.contains(
            preferred_formats()[i],
        ) by {
            if i < n - 1 {
                assert(head.contains(preferred_formats()[i]));
                let k = choose|k: int| 0 <= k < head.len() && head[k] == preferred_formats()[i];
                assert(all[k] == preferred_formats()[i]);
            }
        }
        assert forall|g: Fmt| #[trigger] all.contains(g) implies exists|i: int|
            0 <= i < n && #[trigger] answers[i] && preferred_formats()[i] == g by {
            let k = choose|k: int| 0 <= k < all.len() && all[k] == g;
            if k < head.len() {
                assert(head[k] == g);
                assert(head.contains(g));
                let i = choose|i: int|
                    0 <= i < n - 1 && #[trigger] answers[i] && preferred_formats()[i] == g;
                assert(answers[i]);
            } else {
                assert(answers[n - 1]);
            }
        }
    } else {
        assert(preferred_formats().take(0) =~= Seq::<Fmt>::empty());
    }
}

/// Something is always tried: what the driver accepts, and where it accepts nothing the format that
/// is preferred.
pub proof fn law_something_is_tried(answers: Seq<bool>)
    requires
        answers.len() == 5,
    ensures
        tried(answers).len() > 0,
        (forall|i: int| 0 <= i < 5 ==> !answers[i]) ==> tried(answers) == seq![
            Fmt { store: 32, valid: 24, is_float: false },
        ],
        (exists|i: int| 0 <= i < 5 && answers[i]) ==> tried(answers) == accepted(answers, 5),
{
    law_accepted_formats(answers, 5);
}

/// The failure that is reported is the first whose class is known, and else the first of all.
pub proof fn law_telling_failure(errors: Seq<OpenFailure>, i: int)
    ensures
        0 <= i < errors.len() && errors[i].kind != Fallback::Other && (forall|j: int|
            0 <= j < i ==> errors[j].kind == Fallback::Other) ==> telling(errors) == i,
        (forall|j: int| 0 <= j < errors.len() ==> errors[j].kind == Fallback::Other) ==> telling(errors)
            == 0,
{
    if 0 <= i < errors.len() && errors[i].kind != Fallback::Other && (forall|j: int|
        0 <= j < i ==> errors[j].kind == Fallback::Other) {
        let t = telling(errors);
        assert(errors[i].kind != Fallback::Other);
        if t < i {
            assert(errors[t].kind == Fallback::Other);
        }
        if t > i {
            assert(errors[i].kind == Fallback::Other);
        }
    }
}

/// Only a misaligned buffer is tried again; any other failure is reported, with its words behind the
/// message in brackets.
pub proof fn law_failure_is_reported(r: InitStep, message: Seq<char>)
    requires
        follows_failure(r, message),
    ensures
        r is Align <==> class_of(message) == Fallback::NeedsAlignment,
        r matches InitStep::GiveUp(text) ==> text@.take(message.len() as int) == message && text@.len()
            == message.len() + hint_of(class_of(message)).len() + 2,
        r matches InitStep::GiveUp(text) ==> text@.subrange(
            message.len() as int + 1,
            text@.len() - 1,
        ) == hint_of(class_of(message)),
{
    reveal_strlit("（");
    reveal_strlit("）");
    if let InitStep::GiveUp(text) = r {
        assert(text@.take(message.len() as int) =~= message);
        assert(text@.subrange(message.len() as int + 1, text@.len() - 1) =~= hint_of(
            class_of(message),
        ));
    }
}

/// The first combination that could be opened is the one that is shown, whatever was tried after it.
pub proof fn law_first_success_is_shown(
    supported: Seq<(usize, Fmt)>,
    attempts: Seq<Attempt>,
    i: int,
    n: int,
)
    requires
        0 <= i < n <= attempts.len(),
        attempts[i] is Opened,
        forall|j: int| 0 <= j < i ==> !(attempts[j] is Opened),
    ensures
        learnt(supported, attempts, n).0 == Some(
            khz_of(supported[i].0 as nat) + "kHz "@ + label_of(supported[i].1),
        ),
        learnt(supported, attempts, n).1 == learnt(supported, attempts, i).1,
    decreases n,
{
    law_no_success_is_shown(supported, attempts, i);
    if n > i + 1 {
        law_first_success_is_shown(supported, attempts, i, n - 1);
    }
}

/// As long as nothing could be opened no success is shown, and the words are those of the last
/// failure.
pub proof fn law_no_success_is_shown(supported: Seq<(usize, Fmt)>, attempts: Seq<Attempt>, n: int)
    requires
        0 <= n <= attempts.len(),
        forall|j: int| 0 <= j < n ==> !(attempts[j] is Opened),
    ensures
        learnt(supported, attempts, n).0 is None,
        n > 0 ==> (attempts[n - 1] matches Attempt::Failed(msg) ==> learnt(supported, attempts, n).1
            == Some(label_of(supported[n - 1].1) + "："@ + msg@)),
        n > 0 && attempts[n - 1] is NoClient ==> learnt(supported, attempts, n).1 == learnt(
            supported,
            attempts,
            n - 1,
        ).1,
        n == 0 ==> learnt(supported, attempts, n).1 is None,
    decreases n,
{
    if n > 0 {
        law_no_success_is_shown(supported, attempts, n - 1);
    }
}

/// The rates that are asked for are those of the two families, from the lowest up.
pub proof fn law_rates()
    ensures
        RATES@ == seq![
            44_100usize,
            48_000usize,
            88_200usize,
            96_000usize,
            176_400usize,
            192_000usize,
            352_800usize,
            705_600usize,
        ],
        MAX_ATTEMPTS == 8,
{
    assert(RATES@ =~= seq![
        44_100usize,
        48_000usize,
        88_200usize,
        96_000usize,
        176_400usize,
        192_000usize,
        352_800usize,
        705_600usize,
    ]);
}

/// The combinations at a rate stand behind those at the rates before it, and each is of that rate.
pub proof fn law_combinations_go_by_rate(answers: Seq<Seq<bool>>, n: int)
    requires
        0 < n <= 8,
    ensures
        ({
            let before = accepted_combos(answers, n - 1);
            let all = accepted_combos(answers, n);
            &&& all.len() == before.len() + accepted(answers[n - 1], 5).len()
            &&& all.take(before.len() as int) == before
            &&& forall|i: int|
                before.len() <= i < all.len() ==> (#[trigger] all[i]).0 == RATES@[n - 1] && all[i].1
                    == accepted(answers[n - 1], 5)[i - before.len()]
        }),
{
    let before = accepted_combos(answers, n - 1);
    let all = accepted_combos(answers, n);
    assert(all.take(before.len() as int) =~= before);
}

/// The line on a wave format tells floating point from whole numbers.
pub proof fn law_described(rate: nat, valid: nat, bits: nat, channels: nat)
    ensures
        described(rate, valid, bits, true, channels) == decimal_of(rate) + "Hz "@ + decimal_of(valid)
            + "/"@ + decimal_of(bits) + "bit "@ + "float"@ + " "@ + decimal_of(channels) + "ch"@,
        described(rate, valid, bits, false, channels) == decimal_of(rate) + "Hz "@ + decimal_of(valid)
            + "/"@ + decimal_of(bits) + "bit "@ + "PCM"@ + " "@ + decimal_of(channels) + "ch"@,
{
}

/// The three output modes by their names; only shared output rules exclusive output out.
pub proof fn law_output_names(s: Seq<char>)
    ensures
        output_of(s) == Some(OutputMode::Auto) <==> s == "auto"@,
        output_of(s) == Some(OutputMode::Exclusive) <==> s == "exclusive"@,
        output_of(s) == Some(OutputMode::Shared) <==> s == "shared"@,
        output_of(s) is None <==> s != "auto"@ && s != "exclusive"@ && s != "shared"@,
        output_name(OutputMode::Auto) == "auto"@,
        output_name(OutputMode::Exclusive) == "exclusive"@,
        output_name(OutputMode::Shared) == "shared"@,
        may_be_exclusive(OutputMode::Auto),
        may_be_exclusive(OutputMode::Exclusive),
        !may_be_exclusive(OutputMode::Shared),
{
    reveal_strlit("auto");
    reveal_strlit("exclusive");
    reveal_strlit("shared");
    assert("auto"@.len() != "exclusive"@.len());
    assert("auto"@.len() != "shared"@.len());
    assert("exclusive"@.len() != "shared"@.len());
}

} // verus!
