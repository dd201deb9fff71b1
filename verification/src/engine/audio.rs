//! The output side of the player: which output is open, whether to negotiate an exclusive one, what
//! to show of it, and how a source is fitted to it.

use crate::double::{
    lemma_raised_near, lemma_span_near, product, raised, seconds_of, span, span_ns, Double,
};
use crate::engine::backend::{
    device_level, formats_to_try, hint_of, pick_fallback, telling, tried, Fallback, Fmt, OpenFailure,
    OutputMode,
};
use crate::engine::downmix::{coeffs_for, layout};
use crate::engine::exclusive::ExclusiveSink;
use crate::models::AudioDeviceInfo;
use crate::text::{opt_clone, opt_eq, opt_view, str_eq};
use vstd::prelude::*;

verus! {

/// The output that is in use.
#[derive(Clone, Copy, Debug, PartialEq, Eq, Structural)]
pub enum Backend {
    Shared,
    Exclusive,
}

impl Default for Backend {
    fn default() -> (r: Self)
        ensures
            r == Backend::Shared,
    {
        Backend::Shared
    }
}

/// What the settings page shows of the output.
#[derive(Debug, PartialEq)]
pub struct OutputStatus {
    /// Whether an output has been opened at all.
    pub opened: bool,
    pub backend: Backend,
    /// The format of an exclusive output, such as `44100/24/32`.
    pub format: Option<String>,
    /// Why the output is shared although an exclusive one was wanted.
    pub fallback: Option<String>,
    /// The sample rate of the output.
    pub output_rate: Option<u32>,
    /// The sample rate of the source that was handed to it last.
    pub source_rate: Option<u32>,
    /// Whether the two differ.
    pub resampling: bool,
}

/// The status before anything was opened.
pub open spec fn fresh_status() -> OutputStatus {
    OutputStatus {
        opened: false,
        backend: Backend::Shared,
        format: None,
        fallback: None,
        output_rate: None,
        source_rate: None,
        resampling: false,
    }
}

impl Default for OutputStatus {
    fn default() -> (r: Self)
        ensures
            r == fresh_status(),
    {
        OutputStatus {
            opened: false,
            backend: Backend::Shared,
            format: None,
            fallback: None,
            output_rate: None,
            source_rate: None,
            resampling: false,
        }
    }
}

impl Clone for OutputStatus {
    fn clone(&self) -> (r: Self)
        ensures
            r == *self,
    {
        OutputStatus {
            opened: self.opened,
            backend: self.backend,
            format: opt_clone(&self.format),
            fallback: opt_clone(&self.fallback),
            output_rate: self.output_rate,
            source_rate: self.source_rate,
            resampling: self.resampling,
        }
    }
}

/// The configuration of an open shared output.
#[derive(Clone, Copy, Debug, PartialEq, Eq, Structural)]
pub struct SharedConfig {
    pub rate: u32,
    pub channels: usize,
}

/// What is known of the output: the open devices, the user's choices and the last negotiation.
#[derive(Debug)]
pub struct CoreAudio {
    /// The shared output, while it is open.
    pub shared: Option<SharedConfig>,
    /// The exclusive output, while it is open.
    pub exclusive: Option<ExclusiveSink>,
    /// The track rate for which the exclusive output was opened.
    pub exclusive_track_rate: Option<u32>,
    /// Whether exclusive output was refused; it is not asked for again until something changes.
    pub exclusive_denied: bool,
    /// Whether a player is attached to the output.
    pub has_player: bool,
    /// The volume in percent.
    pub volume: u8,
    /// Whether the output stream has reported an error.
    pub device_error: bool,
    /// The endpoint that was opened last; it is kept after the output is closed.
    pub endpoint_id: Option<String>,
    pub endpoint_name: Option<String>,
    /// The device that the user chose, or none to follow the system default.
    pub preferred: Option<String>,
    pub mode: OutputMode,
    /// What the user is told about the last fallback to shared output.
    pub last_fallback: Option<String>,
    /// The sample rate of the track that is to be played.
    pub current_track_rate: Option<u32>,
    pub status: OutputStatus,
}

/// Which output has to be opened.
#[derive(Clone, Copy, Debug, PartialEq, Eq, Structural)]
pub enum OpenPlan {
    /// None: the one that is open serves.
    Ready,
    /// Negotiate an exclusive one.
    Exclusive,
    /// Open the shared one.
    Shared,
}

/// The core without its exclusive output.
pub open spec fn without_exclusive(c: CoreAudio) -> CoreAudio {
    CoreAudio { exclusive: None, exclusive_track_rate: None, ..c }
}

/// The core without a player and without its exclusive output.
pub open spec fn player_cleared(c: CoreAudio) -> CoreAudio {
    CoreAudio { has_player: false, ..without_exclusive(c) }
}

/// The core with every output closed and the way to exclusive output open again.
pub open spec fn device_reset(c: CoreAudio) -> CoreAudio {
    CoreAudio { shared: None, exclusive_denied: false, last_fallback: None, ..player_cleared(c) }
}

/// The core with another preferred device, if it is another.
pub open spec fn preferring(c: CoreAudio, id: Option<String>) -> CoreAudio {
    if opt_view(c.preferred) == opt_view(id) {
        c
    } else {
        CoreAudio { preferred: id, exclusive_denied: false, ..c }
    }
}

/// The core in another output mode, if it is another.
pub open spec fn in_mode(c: CoreAudio, mode: OutputMode) -> CoreAudio {
    if c.mode == mode {
        c
    } else {
        CoreAudio { mode, exclusive_denied: false, ..c }
    }
}

/// The core without its last negotiation, its status back to that of an output not yet opened.
pub open spec fn fallback_forgotten(c: CoreAudio) -> CoreAudio {
    CoreAudio {
        last_fallback: None,
        exclusive_denied: false,
        status: OutputStatus { backend: c.status.backend, ..fresh_status() },
        ..c
    }
}

/// The sample rate of the open output.
pub open spec fn rate_of(c: CoreAudio) -> Option<u32> {
    match c.exclusive {
        Some(s) => Some(s.rate),
        None => match c.shared {
            Some(s) => Some(s.rate),
            None => None,
        },
    }
}

/// The channels of the open output.
pub open spec fn channels_of_output(c: CoreAudio) -> Option<usize> {
    match c.exclusive {
        Some(s) => Some(s.channels),
        None => match c.shared {
            Some(s) => Some(s.channels),
            None => None,
        },
    }
}

/// Which output has to be opened for a track of the given rate.
pub open spec fn plan_of(c: CoreAudio, track_rate: Option<u32>) -> OpenPlan {
    if c.shared is Some {
        OpenPlan::Ready
    } else if c.mode == OutputMode::Shared || c.exclusive_denied {
        OpenPlan::Shared
    } else if c.exclusive is Some && !(c.exclusive->0).dead && c.exclusive_track_rate
        == track_rate {
        OpenPlan::Ready
    } else {
        OpenPlan::Exclusive
    }
}

/// How a source is fitted to the output.
#[derive(Clone, Copy, Debug, PartialEq, Eq, Structural)]
pub struct AppendPlan {
    /// Mix the channels down to two.
    pub downmix: bool,
    /// Resample to this rate.
    pub resample_to: Option<u32>,
    /// The rate at which the beat meter sees the samples.
    pub meter_rate: u32,
}

/// How a source of the given rate and channels is fitted to the output of `c`.
pub open spec fn append_plan_of(c: CoreAudio, src_rate: u32, src_channels: usize) -> AppendPlan {
    let dst_rate = match rate_of(c) {
        Some(r) => r,
        None => src_rate,
    };
    let dst_channels = match channels_of_output(c) {
        Some(n) => n,
        None => 2,
    };
    AppendPlan {
        downmix: dst_channels == 2 && src_channels > 2 && layout(src_channels as int) is Some,
        resample_to: if src_rate != dst_rate && src_rate > 0 && dst_rate > 0 {
            Some(dst_rate)
        } else {
            None
        },
        meter_rate: dst_rate,
    }
}

/// An output made ready for a track: an exclusive stream that does not serve is given up.
pub open spec fn cleared_for(c: CoreAudio, track_rate: Option<u32>) -> CoreAudio {
    if plan_of(c, track_rate) == OpenPlan::Exclusive {
        without_exclusive(c)
    } else {
        c
    }
}

/// An output when a new player is begun for a track.
pub open spec fn begun(c: CoreAudio, track_rate: Option<u32>) -> CoreAudio {
    CoreAudio {
        has_player: false,
        current_track_rate: track_rate,
        ..cleared_for(c, track_rate)
    }
}

/// An output after an exclusive stream was opened for a track of some rate.
pub open spec fn with_exclusive(
    c: CoreAudio,
    sink: ExclusiveSink,
    track_rate: Option<u32>,
    id: Option<String>,
    name: String,
) -> CoreAudio {
    let opened = CoreAudio {
        endpoint_id: id,
        endpoint_name: Some(name),
        exclusive: Some(sink),
        exclusive_track_rate: track_rate,
        last_fallback: None,
        ..c
    };
    CoreAudio {
        status: OutputStatus {
            opened: true,
            backend: Backend::Exclusive,
            format: Some(sink.format_label),
            fallback: None,
            output_rate: Some(sink.rate),
            ..c.status
        },
        ..opened
    }
}

/// An output after a shared stream was opened.
pub open spec fn with_shared(
    c: CoreAudio,
    config: SharedConfig,
    id: Option<String>,
    name: String,
) -> CoreAudio {
    let opened = CoreAudio {
        shared: Some(config),
        endpoint_id: id,
        endpoint_name: Some(name),
        ..c
    };
    CoreAudio {
        status: OutputStatus {
            opened: true,
            backend: Backend::Shared,
            format: None,
            fallback: c.last_fallback,
            output_rate: rate_of(opened),
            ..c.status
        },
        ..opened
    }
}

/// An output after a source of some rate was put on it.
pub open spec fn with_source(c: CoreAudio, src_rate: u32) -> CoreAudio {
    CoreAudio {
        status: OutputStatus {
            source_rate: Some(src_rate),
            output_rate: rate_of(c),
            resampling: rate_of(c) matches Some(o) && o != src_rate,
            ..c.status
        },
        ..c
    }
}

/// Whether an output has failed since it was last asked.
pub open spec fn has_failed(c: CoreAudio) -> bool {
    c.device_error || (c.exclusive matches Some(s) && s.dead)
}

/// A volume in its range.
pub open spec fn in_range(volume: u8) -> u8 {
    if volume > 100 {
        100
    } else {
        volume
    }
}

/// The core before anything was opened or chosen.
pub open spec fn fresh_core() -> CoreAudio {
    CoreAudio {
        shared: None,
        exclusive: None,
        exclusive_track_rate: None,
        exclusive_denied: false,
        has_player: false,
        volume: 100,
        device_error: false,
        endpoint_id: None,
        endpoint_name: None,
        preferred: None,
        mode: OutputMode::Shared,
        last_fallback: None,
        current_track_rate: None,
        status: fresh_status(),
    }
}

impl CoreAudio {
    pub fn new() -> (r: Self)
        ensures
            r == fresh_core(),
    {
        CoreAudio {
            shared: None,
            exclusive: None,
            exclusive_track_rate: None,
            exclusive_denied: false,
            has_player: false,
            volume: 100,
            device_error: false,
            endpoint_id: None,
            endpoint_name: None,
            preferred: None,
            mode: OutputMode::Shared,
            last_fallback: None,
            current_track_rate: None,
            status: OutputStatus::default(),
        }
    }

    /// Sets the output mode; says whether it changed. A change gives exclusive output another
    /// chance.
    pub fn set_mode(&mut self, mode: OutputMode) -> (changed: bool)
        ensures
            changed == (old(self).mode != mode),
            *final(self) == in_mode(*old(self), mode),
    {
        if self.mode == mode {
            return false;
        }
        self.mode = mode;
        self.exclusive_denied = false;
        true
    }

    /// Forgets why the last negotiation fell back to shared output.
    pub fn forget_fallback(&mut self)
        ensures
            *final(self) == fallback_forgotten(*old(self)),
    {
        self.last_fallback = None;
        self.exclusive_denied = false;
        self.status = OutputStatus {
            opened: false,
            backend: self.status.backend,
            format: None,
            fallback: None,
            output_rate: None,
            source_rate: None,
            resampling: false,
        };
    }

    pub fn output_status(&self) -> (r: OutputStatus)
        ensures
            r == self.status,
    {
        self.status.clone()
    }

    /// Sets the preferred device; says whether it changed. A change gives exclusive output
    /// another chance.
    pub fn set_preferred(&mut self, id: Option<String>) -> (changed: bool)
        ensures
            changed == (opt_view(old(self).preferred) != opt_view(id)),
            *final(self) == preferring(*old(self), id),
    {
        if opt_eq(&self.preferred, &id) {
            return false;
        }
        self.preferred = id;
        self.exclusive_denied = false;
        true
    }

    /// The preferred device.
    pub fn preferred_device_id(&self) -> (r: Option<String>)
        ensures
            r == self.preferred,
    {
        opt_clone(&self.preferred)
    }

    /// The endpoint that was opened last.
    pub fn endpoint_id(&self) -> (r: Option<String>)
        ensures
            r == self.endpoint_id,
    {
        opt_clone(&self.endpoint_id)
    }

    pub fn endpoint_name(&self) -> (r: Option<String>)
        ensures
            r == self.endpoint_name,
    {
        opt_clone(&self.endpoint_name)
    }

    /// The sample rate of the open output.
    pub fn output_rate(&self) -> (r: Option<u32>)
        ensures
            r == rate_of(*self),
    {
        match &self.exclusive {
            Some(s) => Some(s.sample_rate()),
            None => match self.shared {
                Some(s) => Some(s.rate),
                None => None,
            },
        }
    }

    /// The channels of the open output.
    pub fn output_channels(&self) -> (r: Option<usize>)
        ensures
            r == channels_of_output(*self),
    {
        match &self.exclusive {
            Some(s) => Some(s.channels()),
            None => match self.shared {
                Some(s) => Some(s.channels),
                None => None,
            },
        }
    }

    /// Starts on a new player for a track of the given rate: the old player ends, and the output
    /// that is needed is named. An exclusive output that does not serve is given up.
    pub fn begin_player(&mut self, track_rate: Option<u32>) -> (plan: OpenPlan)
        ensures
            plan == plan_of(*old(self), track_rate),
            *final(self) == begun(*old(self), track_rate),
    {
        self.has_player = false;
        self.current_track_rate = track_rate;
        self.plan_open(track_rate)
    }

    /// Names the output that is needed for a track of the given rate. An exclusive output that
    /// does not serve is given up.
    pub fn plan_open(&mut self, track_rate: Option<u32>) -> (plan: OpenPlan)
        ensures
            plan == plan_of(*old(self), track_rate),
            *final(self) == cleared_for(*old(self), track_rate),
    {
        if self.shared.is_some() {
            return OpenPlan::Ready;
        }
        if self.mode.allows_exclusive() && !self.exclusive_denied {
            if let Some(s) = &self.exclusive {
                if s.is_alive() && self.exclusive_track_rate == track_rate {
                    return OpenPlan::Ready;
                }
            }
            self.drop_exclusive();
            return OpenPlan::Exclusive;
        }
        OpenPlan::Shared
    }

    /// Gives up the exclusive output.
    pub fn drop_exclusive(&mut self)
        ensures
            *final(self) == without_exclusive(*old(self)),
    {
        self.exclusive = None;
        self.exclusive_track_rate = None;
    }

    /// Takes over a negotiated exclusive output.
    pub fn exclusive_opened(
        &mut self,
        sink: ExclusiveSink,
        track_rate: Option<u32>,
        id: Option<String>,
        name: String,
    )
        ensures
            *final(self) == with_exclusive(*old(self), sink, track_rate, id, name),
    {
        let label = sink.format_label.clone();
        self.endpoint_id = id;
        self.endpoint_name = Some(name);
        self.exclusive = Some(sink);
        self.exclusive_track_rate = track_rate;
        self.last_fallback = None;
        self.publish(Backend::Exclusive, Some(label));
    }

    /// Records that no exclusive output could be had, and why.
    pub fn exclusive_failed(&mut self, kind: Fallback)
        ensures
            *final(self) == (CoreAudio {
                exclusive_denied: true,
                last_fallback: final(self).last_fallback,
                ..*old(self)
            }),
            opt_view(final(self).last_fallback) == Some(hint_of(kind)),
    {
        self.exclusive_denied = true;
        self.last_fallback = Some(kind.hint().to_owned());
    }

    /// Takes over a shared output.
    pub fn shared_opened(&mut self, config: SharedConfig, id: Option<String>, name: String)
        ensures
            *final(self) == with_shared(*old(self), config, id, name),
    {
        self.shared = Some(config);
        self.endpoint_id = id;
        self.endpoint_name = Some(name);
        self.publish(Backend::Shared, None);
    }

    fn publish(&mut self, backend: Backend, format: Option<String>)
        ensures
            *final(self) == (CoreAudio {
                status: OutputStatus {
                    opened: true,
                    backend,
                    format,
                    fallback: old(self).last_fallback,
                    output_rate: rate_of(*old(self)),
                    ..old(self).status
                },
                ..*old(self)
            }),
    {
        let rate = self.output_rate();
        self.status = OutputStatus {
            opened: true,
            backend,
            format,
            fallback: opt_clone(&self.last_fallback),
            output_rate: rate,
            source_rate: self.status.source_rate,
            resampling: self.status.resampling,
        };
    }

    /// Records that a player is attached to the output.
    pub fn player_created(&mut self)
        ensures
            *final(self) == (CoreAudio { has_player: true, ..*old(self) }),
    {
        self.has_player = true;
    }

    /// Whether a player is attached.
    pub fn sink_is_some(&self) -> (r: bool)
        ensures
            r == self.has_player,
    {
        self.has_player
    }

    /// Fits a source to the output and notes its rate in the status.
    pub fn append_plan(&mut self, src_rate: u32, src_channels: usize) -> (plan: AppendPlan)
        ensures
            plan == append_plan_of(*old(self), src_rate, src_channels),
            *final(self) == with_source(*old(self), src_rate),
    {
        let out = self.output_rate();
        let dst_rate: u32 = match out {
            Some(r) => r,
            None => src_rate,
        };
        self.status.source_rate = Some(src_rate);
        self.status.output_rate = out;
        self.status.resampling = match out {
            Some(o) => o != src_rate,
            None => false,
        };
        let dst_channels: usize = match self.output_channels() {
            Some(n) => n,
            None => 2,
        };
        let downmix = dst_channels == 2 && src_channels > 2 && coeffs_for(src_channels).is_some();
        let resample_to = if src_rate != dst_rate && src_rate > 0 && dst_rate > 0 {
            Some(dst_rate)
        } else {
            None
        };
        AppendPlan { downmix, resample_to, meter_rate: dst_rate }
    }

    /// Records an error of the output stream.
    pub fn note_device_error(&mut self)
        ensures
            *final(self) == (CoreAudio { device_error: true, ..*old(self) }),
    {
        self.device_error = true;
    }

    /// Whether the output has failed since the last call: its stream reported an error, or the
    /// exclusive render thread has ended.
    pub fn take_device_error(&mut self) -> (r: bool)
        ensures
            r == has_failed(*old(self)),
            *final(self) == (CoreAudio { device_error: false, ..*old(self) }),
    {
        let by_stream = self.device_error;
        self.device_error = false;
        let by_exclusive = match &self.exclusive {
            Some(s) => !s.is_alive(),
            None => false,
        };
        by_stream || by_exclusive
    }

    pub fn set_volume(&mut self, volume: u8)
        ensures
            *final(self) == (CoreAudio { volume: in_range(volume), ..*old(self) }),
    {
        self.volume = if volume > 100 {
            100
        } else {
            volume
        };
    }

    /// Detaches the player; the output stays open.
    pub fn stop_player(&mut self)
        ensures
            *final(self) == (CoreAudio { has_player: false, ..*old(self) }),
    {
        self.has_player = false;
    }

    /// Detaches the player and gives up an exclusive output.
    pub fn clear_player(&mut self)
        ensures
            *final(self) == player_cleared(*old(self)),
    {
        self.stop_player();
        self.drop_exclusive();
    }

    /// Closes every output, so that the next player opens one afresh.
    pub fn reset_device(&mut self)
        ensures
            *final(self) == device_reset(*old(self)),
    {
        self.clear_player();
        self.shared = None;
        self.exclusive_denied = false;
        self.last_fallback = None;
    }
}

impl Default for CoreAudio {
    fn default() -> (r: Self)
        ensures
            r == fresh_core(),
    {
        CoreAudio::new()
    }
}

/// The rates so far with one more candidate, unless it is too low to be a rate or already there.
pub open spec fn with_candidate(rates: Seq<u32>, r: Option<u32>) -> Seq<u32> {
    match r {
        Some(v) => if v >= 8_000 && !rates.contains(v) {
            rates.push(v)
        } else {
            rates
        },
        None => rates,
    }
}

/// The sample rates to negotiate, in order: that of the track, the default of the device, then
/// 48 kHz and 44.1 kHz.
pub open spec fn rate_candidates(track: Option<u32>, device: Option<u32>) -> Seq<u32> {
    with_candidate(
        with_candidate(
            with_candidate(with_candidate(Seq::empty(), track), device),
            Some(48_000),
        ),
        Some(44_100),
    )
}

fn add_candidate(rates: &mut Vec<u32>, r: Option<u32>)
    ensures
        final(rates)@ == with_candidate(old(rates)@, r),
{
    if let Some(v) = r {
        if v < 8_000 {
            return;
        }
        let mut i: usize = 0;
        while i < rates.len()
            invariant
                i <= rates@.len(),
                rates@ == old(rates)@,
                r == Some(v),
                forall|j: int| 0 <= j < i ==> rates@[j] != v,
            decreases rates@.len() - i,
        {
            if rates[i] == v {
                proof {
                    assert(rates@[i as int] == v);
                }
                return;
            }
            i = i + 1;
        }
        rates.push(v);
    }
}

/// The sample rates to negotiate for exclusive output, without repeats.
pub fn exclusive_rate_candidates(track_rate: Option<u32>, device_default: Option<u32>) -> (r: Vec<
    u32,
>)
    ensures
        r@ == rate_candidates(track_rate, device_default),
        r@.len() > 0,
{
    let mut out: Vec<u32> = Vec::new();
    add_candidate(&mut out, track_rate);
    add_candidate(&mut out, device_default);
    add_candidate(&mut out, Some(48_000));
    add_candidate(&mut out, Some(44_100));
    proof {
        law_rate_candidates(track_rate, device_default);
    }
    out
}

/// The candidates hold no rate twice and none below 8 kHz, always end in rates that nearly every
/// device takes, and begin with the track's own rate where it is one.
pub proof fn law_rate_candidates(track: Option<u32>, device: Option<u32>)
    ensures
        rate_candidates(track, device).no_duplicates(),
        forall|i: int| 0 <= i < rate_candidates(track, device).len() ==> #[trigger] rate_candidates(
            track,
            device,
        )[i] >= 8_000,
        rate_candidates(track, device).contains(48_000),
        rate_candidates(track, device).contains(44_100),
        track matches Some(t) ==> t >= 8_000 ==> rate_candidates(track, device)[0] == t,
{
    let a = with_candidate(Seq::empty(), track);
    let b = with_candidate(a, device);
    let c = with_candidate(b, Some(48_000));
    let d = with_candidate(c, Some(44_100));
    assert(c.contains(48_000)) by {
        if !b.contains(48_000) {
            assert(c[c.len() - 1] == 48_000);
        }
    }
    assert(d.contains(44_100)) by {
        if !c.contains(44_100) {
            assert(d[d.len() - 1] == 44_100);
        }
    }
    let k = choose|k: int| 0 <= k < c.len() && c[k] == 48_000;
    assert(d[k] == 48_000);
}

/// A negotiation of exclusive output: rate after rate, and at each rate format after format.
#[derive(Debug)]
pub struct Negotiation {
    pub rates: Vec<u32>,
    pub rate_pos: usize,
    pub formats: Vec<Fmt>,
    pub format_pos: usize,
    pub errors: Vec<OpenFailure>,
}

/// What a negotiation wants next.
#[derive(Debug, Clone)]
pub enum Ask {
    /// The driver's word on each of the preferred formats at this rate.
    Formats { rate: u32 },
    /// An attempt to start a stream.
    Start { rate: u32, fmt: Fmt },
    /// Nothing more: this is what to report.
    GiveUp { failure: OpenFailure },
}

impl Negotiation {
    pub open spec fn valid(self) -> bool {
        &&& self.rate_pos < self.rates@.len()
        &&& self.format_pos <= self.formats@.len()
    }

    /// Whether the driver's word on the formats leads from one state to another, and what is asked
    /// next.
    pub open spec fn learns_formats(self, answers: Seq<bool>, now: Negotiation, r: Ask) -> bool {
        &&& now.rates@ == self.rates@
        &&& now.rate_pos == self.rate_pos
        &&& now.errors@ == self.errors@
        &&& now.formats@ == tried(answers)
        &&& now.format_pos == 0
        &&& r == (Ask::Start { rate: self.rates@[self.rate_pos as int], fmt: now.formats@[0] })
    }

    /// Whether a failed attempt leads from one state to another, and what is asked next.
    pub open spec fn learns_failure(self, failure: OpenFailure, now: Negotiation, r: Ask) -> bool {
        &&& now.rates@ == self.rates@
        &&& now.formats@ == self.formats@
        &&& device_level(failure.kind) ==> {
            &&& r == (Ask::GiveUp { failure })
            &&& now.errors@ == self.errors@
            &&& now.rate_pos == self.rate_pos
            &&& now.format_pos == self.format_pos
        }
        &&& !device_level(failure.kind) ==> {
            &&& now.errors@ == self.errors@.push(failure)
            &&& if self.format_pos + 1 < self.formats@.len() {
                &&& now.rate_pos == self.rate_pos
                &&& now.format_pos == self.format_pos + 1
                &&& r == Ask::Start {
                    rate: self.rates@[self.rate_pos as int],
                    fmt: self.formats@[self.format_pos + 1],
                }
            } else if self.rate_pos + 1 < self.rates@.len() {
                &&& now.rate_pos == self.rate_pos + 1
                &&& now.format_pos == self.format_pos
                &&& r == Ask::Formats { rate: self.rates@[self.rate_pos + 1] }
            } else {
                let all = self.errors@.push(failure);
                &&& now.rate_pos == self.rate_pos
                &&& now.format_pos == self.format_pos
                &&& r == Ask::GiveUp { failure: all[telling(all)] }
            }
        }
    }

    /// Starts a negotiation; the first thing it wants is the formats at the first rate.
    pub fn begin(track_rate: Option<u32>, device_default: Option<u32>) -> (r: (Negotiation, Ask))
        ensures
            r.0.valid(),
            r.0.rates@ == rate_candidates(track_rate, device_default),
            r.0.rate_pos == 0,
            r.0.formats@.len() == 0,
            r.0.format_pos == 0,
            r.0.errors@.len() == 0,
            r.1 == (Ask::Formats { rate: rate_candidates(track_rate, device_default)[0] }),
    {
        let rates = exclusive_rate_candidates(track_rate, device_default);
        let first: u32 = rates[0];
        let n = Negotiation {
            rates,
            rate_pos: 0,
            formats: Vec::new(),
            format_pos: 0,
            errors: Vec::new(),
        };
        (n, Ask::Formats { rate: first })
    }

    /// Takes the driver's word on the formats at the current rate.
    pub fn formats_known(&mut self, answers: [bool; 5]) -> (r: Ask)
        requires
            old(self).valid(),
        ensures
            final(self).valid(),
            old(self).learns_formats(answers@, *final(self), r),
    {
        self.formats = formats_to_try(answers);
        self.format_pos = 0;
        Ask::Start { rate: self.rates[self.rate_pos], fmt: self.formats[0] }
    }

    /// Takes a failed attempt. A failure of the device ends the negotiation; else the next format
    /// is tried, then the next rate, and at the very end the most telling failure is reported.
    pub fn attempt_failed(&mut self, failure: OpenFailure) -> (r: Ask)
        requires
            old(self).valid(),
        ensures
            final(self).valid(),
            old(self).learns_failure(failure, *final(self), r),
    {
        if failure.kind.is_device_level() {
            return Ask::GiveUp { failure };
        }
        let last = OpenFailure { kind: failure.kind, message: failure.message.clone() };
        self.errors.push(failure);
        if self.format_pos < self.formats.len() && self.format_pos + 1 < self.formats.len() {
            self.format_pos = self.format_pos + 1;
            return Ask::Start {
                rate: self.rates[self.rate_pos],
                fmt: self.formats[self.format_pos],
            };
        }
        let rate_count: usize = self.rates.len();
        if self.rate_pos + 1 < rate_count {
            self.rate_pos = self.rate_pos + 1;
            return Ask::Formats { rate: self.rates[self.rate_pos] };
        }
        match pick_fallback(self.errors.as_slice()) {
            Some(f) => Ask::GiveUp { failure: f },
            None => Ask::GiveUp { failure: last },
        }
    }
}

/// The formats that need a decoder of their own.
#[derive(Clone, Copy, Debug, PartialEq, Eq, Structural)]
pub enum Kind {
    Opus,
    AdtsAac,
    Dsd,
}

/// Whether the bytes begin with the given ones.
pub open spec fn begins_with(b: Seq<u8>, p: Seq<u8>) -> bool {
    b.len() >= p.len() && b.subrange(0, p.len() as int) == p
}

/// Whether the given bytes occur.
pub open spec fn holds_bytes(b: Seq<u8>, p: Seq<u8>) -> bool {
    exists|i: int| 0 <= i <= b.len() - p.len() && #[trigger] b.subrange(i, i + p.len()) == p
}

/// `OggS`
pub open spec fn ogg_magic() -> Seq<u8> {
    seq![79u8, 103u8, 103u8, 83u8]
}

/// `OpusHead`
pub open spec fn opus_magic() -> Seq<u8> {
    seq![79u8, 112u8, 117u8, 115u8, 72u8, 101u8, 97u8, 100u8]
}

/// `DSD ` with its blank
pub open spec fn dsf_magic() -> Seq<u8> {
    seq![68u8, 83u8, 68u8, 32u8]
}

/// `FRM8`
pub open spec fn dff_magic() -> Seq<u8> {
    seq![70u8, 82u8, 77u8, 56u8]
}

/// Which decoder of its own a file needs, by the bytes at its start: Opus in Ogg, raw AAC with
/// ADTS headers, or DSD. Ogg with anything else in it needs none.
pub open spec fn kind_of(b: Seq<u8>) -> Option<Kind> {
    if begins_with(b, ogg_magic()) {
        if holds_bytes(b, opus_magic()) {
            Some(Kind::Opus)
        } else {
            None
        }
    } else if b.len() >= 2 && b[0] == 0xff && b[1] & 0xf6 == 0xf0 {
        Some(Kind::AdtsAac)
    } else if begins_with(b, dsf_magic()) || begins_with(b, dff_magic()) {
        Some(Kind::Dsd)
    } else {
        None
    }
}

/// Whether the bytes at `at` are the given ones.
pub fn bytes_at(b: &[u8], at: usize, p: &[u8]) -> (r: bool)
    requires
        at + p@.len() <= b@.len(),
    ensures
        r == (b@.subrange(at as int, at + p@.len()) == p@),
{
    let mut i: usize = 0;
    let n: usize = b.len();
    while i < p.len()
        invariant
            i <= p@.len(),
            n == b@.len(),
            at + p@.len() <= n,
            forall|j: int| 0 <= j < i ==> b@[at + j] == p@[j],
        decreases p@.len() - i,
    {
        if b[at + i] != p[i] {
            proof {
                assert(b@.subrange(at as int, at + p@.len())[i as int] != p@[i as int]);
            }
            return false;
        }
        i = i + 1;
    }
    proof {
        assert(b@.subrange(at as int, at + p@.len()) =~= p@);
    }
    true
}

/// Whether the bytes begin with the given ones.
pub fn bytes_begin(b: &[u8], p: &[u8]) -> (r: bool)
    ensures
        r == begins_with(b@, p@),
{
    b.len() >= p.len() && bytes_at(b, 0, p)
}

fn bytes_hold(b: &[u8], p: &[u8]) -> (r: bool)
    ensures
        r == holds_bytes(b@, p@),
{
    let n: usize = b.len();
    let m: usize = p.len();
    if n < m {
        return false;
    }
    let mut i: usize = 0;
    while i <= n - m
        invariant
            n == b@.len(),
            m == p@.len(),
            m <= n,
            i <= n - m + 1,
            forall|j: int| 0 <= j < i ==> #[trigger] b@.subrange(j, j + m) != p@,
        decreases n - m + 1 - i,
    {
        if bytes_at(b, i, p) {
            return true;
        }
        if i == n - m {
            return false;
        }
        i = i + 1;
    }
    false
}

/// Which decoder of its own a file needs, by its first bytes.
pub fn sniff(head: &[u8]) -> (r: Option<Kind>)
    ensures
        r == kind_of(head@),
{
    let ogg: [u8; 4] = [79, 103, 103, 83];
    let opus: [u8; 8] = [79, 112, 117, 115, 72, 101, 97, 100];
    let dsf: [u8; 4] = [68, 83, 68, 32];
    let dff: [u8; 4] = [70, 82, 77, 56];
    proof {
        assert(ogg@ =~= ogg_magic());
        assert(opus@ =~= opus_magic());
        assert(dsf@ =~= dsf_magic());
        assert(dff@ =~= dff_magic());
    }
    if bytes_begin(head, ogg.as_slice()) {
        return if bytes_hold(head, opus.as_slice()) {
            Some(Kind::Opus)
        } else {
            None
        };
    }
    if head.len() >= 2 && head[0] == 0xff && (head[1] & 0xf6) == 0xf0 {
        return Some(Kind::AdtsAac);
    }
    if bytes_begin(head, dsf.as_slice()) || bytes_begin(head, dff.as_slice()) {
        return Some(Kind::Dsd);
    }
    None
}

/// Whether seeking inside a file of this start is cheap enough for the audio thread: only formats
/// without a decoder of their own seek by their index.
pub fn inline_seek_is_cheap(head: &[u8]) -> (r: bool)
    ensures
        r == (kind_of(head@) is None),
{
    sniff(head).is_none()
}

/// The state of the default output of the system.
#[derive(Clone, Copy, Debug, PartialEq, Eq, Structural)]
pub enum DefaultOutput {
    /// There is one; it may be unplugged or disabled.
    Found { active: bool, state: u32 },
    /// There is none.
    Missing,
    /// It could not be asked for.
    Unknown,
}

/// Whether this is the entry of a device in the list of the settings page.
pub open spec fn is_entry(
    r: AudioDeviceInfo,
    id: String,
    name: String,
    default_id: Option<String>,
    selected: Option<String>,
) -> bool {
    &&& r.id == id
    &&& r.name == name
    &&& r.is_default == (opt_view(default_id) == Some(id@))
    &&& r.is_selected == (opt_view(selected) == Some(id@))
}

/// A device in the list of the settings page.
pub fn device_info(
    id: String,
    name: String,
    default_id: &Option<String>,
    selected: &Option<String>,
) -> (r: AudioDeviceInfo)
    ensures
        is_entry(r, id, name, *default_id, *selected),
{
    let is_default = match default_id {
        Some(d) => str_eq(d.as_str(), id.as_str()),
        None => false,
    };
    let is_selected = match selected {
        Some(d) => str_eq(d.as_str(), id.as_str()),
        None => false,
    };
    AudioDeviceInfo { id, name, is_default, is_selected }
}

/// A channel count that an output takes: at least one, and as many as can be counted.
pub open spec fn usable_channels(channels: nat) -> nat {
    if channels < 1 {
        1
    } else if channels > u16::MAX {
        u16::MAX as nat
    } else {
        channels
    }
}

/// A sample rate that an output takes.
pub open spec fn usable_rate(rate: u32) -> u32 {
    if rate == 0 {
        44_100
    } else {
        rate
    }
}

/// A channel count that an output takes.
pub fn nz_channels(channels: usize) -> (r: u16)
    ensures
        r == usable_channels(channels as nat),
        r > 0,
{
    if channels < 1 {
        1
    } else if channels > 65_535 {
        65_535
    } else {
        channels as u16
    }
}

/// A sample rate that an output takes.
pub fn nz_rate(rate: u32) -> (r: u32)
    ensures
        r == usable_rate(rate),
{
    if rate == 0 {
        44_100
    } else {
        rate
    }
}

/// How many interleaved samples lie before a point in time, counted in seconds of double precision
/// and rounded up.
pub open spec fn samples_until(target_ns: nat, rate: nat, channels: nat) -> nat {
    let n = raised(product(product(seconds_of(target_ns), rate), channels));
    if n > u64::MAX {
        u64::MAX as nat
    } else {
        n
    }
}

/// How many interleaved samples lie before a point in time.
pub fn samples_before(target_ns: u64, rate: u32, channels: u16) -> (r: u64)
    ensures
        r == samples_until(target_ns as nat, rate as nat, channels as nat),
{
    let n: u128 = Double::seconds(target_ns).times(rate).times(channels as u32).ceil();
    if n > 0xffff_ffff_ffff_ffff {
        0xffff_ffff_ffff_ffff
    } else {
        n as u64
    }
}

/// The point in time that a number of interleaved samples reaches.
pub open spec fn time_at(samples: nat, rate: nat, channels: nat) -> nat {
    span_ns(samples, rate * channels)
}

/// The point in time that a number of interleaved samples reaches, counted in seconds of double
/// precision and then taken to the nearest nanosecond.
pub fn time_of_samples(samples: u64, rate: u32, channels: u16) -> (r: u128)
    requires
        rate > 0,
        channels > 0,
    ensures
        r == time_at(samples as nat, rate as nat, channels as nat),
{
    proof {
        assert(0 < rate as int * channels <= 0xffff_ffff * 0xffff) by (nonlinear_arith)
            requires
                0 < rate <= 0xffff_ffff,
                0 < channels <= 0xffff,
        ;
    }
    span(samples, rate as u64 * channels as u64)
}

/// What reaches the output has the rate of the output, whichever kind it is: a source of another
/// rate is converted to it, up or down, and one of the same rate is left alone.
pub proof fn law_output_gets_its_own_rate(c: CoreAudio, src_rate: u32, src_channels: usize)
    requires
        src_rate > 0,
    ensures
        ({
            let plan = append_plan_of(c, src_rate, src_channels);
            let fitted = match plan.resample_to {
                Some(r) => r,
                None => src_rate,
            };
            &&& c.exclusive matches Some(x) ==> x.rate > 0 ==> fitted == x.rate && plan.meter_rate
                == x.rate && (plan.resample_to is None <==> src_rate == x.rate)
            &&& c.exclusive is None ==> (c.shared matches Some(x) ==> x.rate > 0 ==> fitted == x.rate
                && plan.meter_rate == x.rate && (plan.resample_to is None <==> src_rate == x.rate))
            &&& c.exclusive is None && c.shared is None ==> plan.resample_to is None
                && plan.meter_rate == src_rate
        }),
{
}

/// A source of more channels than two comes out of fitting with two, where the output has two and
/// the source is laid out in a known way; a source of one or two channels is never mixed down, nor
/// is any source for an output of another number of channels.
pub proof fn law_downmix_to_stereo_only(c: CoreAudio, src_rate: u32, src_channels: usize)
    ensures
        ({
            let plan = append_plan_of(c, src_rate, src_channels);
            let n = match c.exclusive {
                Some(x) => x.channels,
                None => match c.shared {
                    Some(x) => x.channels,
                    None => 2,
                },
            };
            plan.downmix <==> n == 2 && 3 <= src_channels <= 8
        }),
{
}

/// A shared output that is open serves every track. Where exclusive output is not wanted or was
/// refused, none is asked for. Where it is wanted, a running stream serves only tracks of the rate
/// that it was opened for, and in any other case an exclusive output is negotiated.
pub proof fn law_which_output_is_opened(c: CoreAudio, track_rate: Option<u32>)
    ensures
        ({
            let plan = plan_of(c, track_rate);
            &&& c.shared is Some ==> plan == OpenPlan::Ready
            &&& c.shared is None && (c.mode == OutputMode::Shared || c.exclusive_denied) ==> plan
                == OpenPlan::Shared
            &&& c.shared is None && c.mode != OutputMode::Shared && !c.exclusive_denied ==> {
                &&& plan != OpenPlan::Shared
                &&& plan == OpenPlan::Ready <==> (c.exclusive matches Some(x) && !x.dead
                    && c.exclusive_track_rate == track_rate)
            }
        }),
{
}

/// After a reset nothing is open and no player is attached, whatever was; a new negotiation may
/// succeed; and what the user has chosen stays.
pub proof fn law_reset_closes_everything(c: CoreAudio, src_rate: u32)
    ensures
        ({
            let r = device_reset(c);
            &&& r.shared is None
            &&& r.exclusive is None
            &&& r.exclusive_track_rate is None
            &&& !r.has_player
            &&& !r.exclusive_denied
            &&& r.last_fallback is None
            &&& rate_of(r) is None
            &&& channels_of_output(r) is None
            &&& r.mode == c.mode
            &&& r.preferred == c.preferred
            &&& r.volume == c.volume
            &&& r.endpoint_id == c.endpoint_id
            &&& r.endpoint_name == c.endpoint_name
            &&& r.current_track_rate == c.current_track_rate
            &&& r.status == c.status
            &&& plan_of(r, Some(src_rate)) == if c.mode == OutputMode::Shared {
                OpenPlan::Shared
            } else {
                OpenPlan::Exclusive
            }
        }),
{
}

/// Clearing the player ends it and an exclusive output with it; a shared output stays open.
pub proof fn law_clearing_keeps_the_shared_output(c: CoreAudio)
    ensures
        !player_cleared(c).has_player,
        player_cleared(c).exclusive is None,
        player_cleared(c).exclusive_track_rate is None,
        player_cleared(c).shared == c.shared,
        player_cleared(c).mode == c.mode,
        player_cleared(c).preferred == c.preferred,
        player_cleared(c).volume == c.volume,
        player_cleared(c).exclusive_denied == c.exclusive_denied,
        player_cleared(c).last_fallback == c.last_fallback,
        player_cleared(c).endpoint_id == c.endpoint_id,
        player_cleared(c).status == c.status,
        without_exclusive(c).has_player == c.has_player,
        without_exclusive(c).shared == c.shared,
        without_exclusive(c).exclusive is None,
{
}

/// A choice of the user is taken over, and gives exclusive output another chance; the same choice
/// again changes nothing. Neither closes an output.
pub proof fn law_choices_are_taken_over(c: CoreAudio, id: Option<String>, mode: OutputMode)
    ensures
        opt_view(preferring(c, id).preferred) == opt_view(id),
        opt_view(c.preferred) == opt_view(id) ==> preferring(c, id) == c,
        opt_view(c.preferred) != opt_view(id) ==> !preferring(c, id).exclusive_denied,
        preferring(c, id).mode == c.mode,
        preferring(c, id).shared == c.shared,
        preferring(c, id).exclusive == c.exclusive,
        preferring(c, id).volume == c.volume,
        preferring(c, id).has_player == c.has_player,
        in_mode(c, mode).mode == mode,
        c.mode == mode ==> in_mode(c, mode) == c,
        c.mode != mode ==> !in_mode(c, mode).exclusive_denied,
        in_mode(c, mode).preferred == c.preferred,
        in_mode(c, mode).shared == c.shared,
        in_mode(c, mode).exclusive == c.exclusive,
        in_mode(c, mode).volume == c.volume,
        in_mode(c, mode).has_player == c.has_player,
{
}

/// Forgetting a fallback leaves no trace of it, lets exclusive output be tried again, and closes
/// nothing.
pub proof fn law_fallback_is_forgotten(c: CoreAudio)
    ensures
        ({
            let r = fallback_forgotten(c);
            &&& r.last_fallback is None
            &&& !r.exclusive_denied
            &&& !r.status.opened
            &&& r.status.fallback is None
            &&& r.status.format is None
            &&& r.status.output_rate is None
            &&& r.status.source_rate is None
            &&& !r.status.resampling
            &&& r.status.backend == c.status.backend
            &&& r.shared == c.shared
            &&& r.exclusive == c.exclusive
            &&& r.exclusive_track_rate == c.exclusive_track_rate
            &&& r.mode == c.mode
            &&& r.preferred == c.preferred
            &&& r.volume == c.volume
            &&& r.has_player == c.has_player
            &&& r.current_track_rate == c.current_track_rate
        }),
{
}

/// At first nothing is open, nothing is chosen, and the volume is full.
pub proof fn law_fresh_output()
    ensures
        fresh_core().shared is None,
        fresh_core().exclusive is None,
        !fresh_core().has_player,
        !fresh_core().exclusive_denied,
        !fresh_core().device_error,
        fresh_core().volume == 100,
        fresh_core().preferred is None,
        fresh_core().endpoint_id is None,
        fresh_core().mode == OutputMode::Shared,
        !fresh_core().status.opened,
        fresh_core().status.backend == Backend::Shared,
        fresh_core().status.fallback is None,
        fresh_core().status.output_rate is None,
        !fresh_core().status.resampling,
{
}

/// The rates are asked for in the order of what they cost the sound: the track's own, the device's,
/// then 48 kHz before 44.1 kHz; there are no others.
pub proof fn law_rate_candidates_in_order(track: Option<u32>, device: Option<u32>)
    ensures
        ({
            let rates = rate_candidates(track, device);
            &&& 2 <= rates.len() <= 4
            &&& forall|i: int|
                0 <= i < rates.len() ==> Some(#[trigger] rates[i]) == track || Some(rates[i])
                    == device || rates[i] == 48_000 || rates[i] == 44_100
            &&& device matches Some(d) ==> d >= 8_000 ==> rates[0] == d || rates[1] == d
            &&& !(track matches Some(t) && t >= 8_000) ==> (device matches Some(d) ==> d >= 8_000
                ==> rates[0] == d)
            &&& track != Some(44_100u32) && device != Some(44_100u32) ==> rates.last() == 44_100
            &&& track is None && device is None ==> rates[0] == 48_000
        }),
{
    let a = with_candidate(Seq::empty(), track);
    let b = with_candidate(a, device);
    let c = with_candidate(b, Some(48_000));
    let d = with_candidate(c, Some(44_100));
    law_rate_candidates(track, device);
    if let Some(v) = device {
        if v >= 8_000 && a.contains(v) {
            assert(a[0] == v);
            assert(b[0] == v && c[0] == v && d[0] == v);
        }
    }
    assert(Seq::<u32>::empty().push(48_000)[0] == 48_000);
    if track != Some(44_100u32) && device != Some(44_100u32) {
        assert(!c.contains(44_100)) by {
            if c.contains(44_100) {
                let k = choose|k: int| 0 <= k < c.len() && c[k] == 44_100;
                assert(c[k] == 44_100);
            }
        }
    }
    assert(d.len() >= 2) by {
        let i = choose|i: int| 0 <= i < d.len() && d[i] == 48_000;
        let j = choose|j: int| 0 <= j < d.len() && d[j] == 44_100;
        assert(i != j);
    }
}

/// A file is known by its first bytes: `OggS` with `OpusHead` somewhere behind is Opus and no other
/// Ogg is special; a frame sync with the layer bits clear is raw AAC; `DSD ` and `FRM8` are DSD; and
/// nothing else needs a decoder of its own.
pub proof fn law_files_are_known_by_their_start(b: Seq<u8>)
    ensures
        kind_of(b) == Some(Kind::Opus) <==> b.len() >= 4 && b[0] == 0x4f && b[1] == 0x67 && b[2]
            == 0x67 && b[3] == 0x53 && exists|i: int|
            0 <= i && i + 8 <= b.len() && #[trigger] b[i] == 0x4f && b[i + 1] == 0x70 && b[i + 2]
                == 0x75 && b[i + 3] == 0x73 && b[i + 4] == 0x48 && b[i + 5] == 0x65 && b[i + 6]
                == 0x61 && b[i + 7] == 0x64,
        kind_of(b) == Some(Kind::AdtsAac) <==> b.len() >= 2 && b[0] == 0xff && b[1] / 16 == 0xf && (
        b[1] / 2) % 4 == 0,
        kind_of(b) == Some(Kind::Dsd) <==> b.len() >= 4 && (b[0] == 0x44 && b[1] == 0x53 && b[2]
            == 0x44 && b[3] == 0x20 || b[0] == 0x46 && b[1] == 0x52 && b[2] == 0x4d && b[3] == 0x38),
{
    lemma_begins(b, ogg_magic());
    lemma_begins(b, dsf_magic());
    lemma_begins(b, dff_magic());
    if b.len() >= 2 {
        let x = b[1];
        assert((x & 0xf6 == 0xf0) == (x / 16 == 0xf && (x / 2) % 4 == 0)) by (bit_vector);
    }
    if holds_bytes(b, opus_magic()) {
        let i = choose|i: int|
            0 <= i <= b.len() - opus_magic().len() && #[trigger] b.subrange(
                i,
                i + opus_magic().len(),
            ) == opus_magic();
        let w = b.subrange(i, i + 8);
        assert(w[0] == b[i] && w[1] == b[i + 1] && w[2] == b[i + 2] && w[3] == b[i + 3] && w[4] == b[i
            + 4] && w[5] == b[i + 5] && w[6] == b[i + 6] && w[7] == b[i + 7]);
    }
    assert forall|i: int|
        0 <= i && i + 8 <= b.len() && #[trigger] b[i] == 0x4f && b[i + 1] == 0x70 && b[i + 2] == 0x75
            && b[i + 3] == 0x73 && b[i + 4] == 0x48 && b[i + 5] == 0x65 && b[i + 6] == 0x61 && b[i
            + 7] == 0x64 implies holds_bytes(b, opus_magic()) by {
        assert(b.subrange(i, i + opus_magic().len()) =~= opus_magic());
    }
}

proof fn lemma_begins(b: Seq<u8>, p: Seq<u8>)
    requires
        p.len() == 4,
    ensures
        begins_with(b, p) <==> b.len() >= 4 && b[0] == p[0] && b[1] == p[1] && b[2] == p[2] && b[3]
            == p[3],
{
    if b.len() >= 4 {
        let w = b.subrange(0, 4);
        assert(w[0] == b[0] && w[1] == b[1] && w[2] == b[2] && w[3] == b[3]);
        if b[0] == p[0] && b[1] == p[1] && b[2] == p[2] && b[3] == p[3] {
            assert(w =~= p);
        }
    }
}

/// A stream that was opened is the output: its rate and its channels count, it serves tracks of the
/// rate it was opened for, and it is what is shown.
pub proof fn law_opened_stream_is_the_output(
    c: CoreAudio,
    sink: ExclusiveSink,
    track_rate: Option<u32>,
    id: Option<String>,
    name: String,
)
    ensures
        ({
            let r = with_exclusive(c, sink, track_rate, id, name);
            &&& rate_of(r) == Some(sink.rate)
            &&& channels_of_output(r) == Some(sink.channels)
            &&& r.status.opened
            &&& r.status.backend == Backend::Exclusive
            &&& r.status.format == Some(sink.format_label)
            &&& r.status.fallback is None
            &&& r.status.output_rate == Some(sink.rate)
            &&& r.endpoint_id == id
            &&& r.endpoint_name == Some(name)
            &&& r.last_fallback is None
            &&& r.volume == c.volume && r.mode == c.mode && r.preferred == c.preferred
            &&& c.shared is None && c.mode != OutputMode::Shared && !c.exclusive_denied && !sink.dead
                ==> plan_of(r, track_rate) == OpenPlan::Ready
        }),
{
}

/// A shared output that was opened is the output, and says why no exclusive one is.
pub proof fn law_opened_shared_output(
    c: CoreAudio,
    config: SharedConfig,
    id: Option<String>,
    name: String,
    track_rate: Option<u32>,
)
    ensures
        ({
            let r = with_shared(c, config, id, name);
            &&& c.exclusive is None ==> rate_of(r) == Some(config.rate) && channels_of_output(r) == Some(
                config.channels,
            ) && r.status.output_rate == Some(config.rate)
            &&& r.status.opened
            &&& r.status.backend == Backend::Shared
            &&& r.status.format is None
            &&& r.status.fallback == c.last_fallback
            &&& r.endpoint_id == id
            &&& r.endpoint_name == Some(name)
            &&& plan_of(r, track_rate) == OpenPlan::Ready
            &&& r.volume == c.volume && r.mode == c.mode && r.preferred == c.preferred
        }),
{
}

/// The status names both rates, and says that there is a conversion just where they differ.
pub proof fn law_source_is_shown(c: CoreAudio, src_rate: u32)
    ensures
        ({
            let r = with_source(c, src_rate);
            &&& r.status.source_rate == Some(src_rate)
            &&& r.status.output_rate == rate_of(c)
            &&& rate_of(c) matches Some(o) ==> (r.status.resampling <==> o != src_rate)
            &&& rate_of(c) is None ==> !r.status.resampling
            &&& r.status.backend == c.status.backend && r.status.opened == c.status.opened
            &&& rate_of(r) == rate_of(c)
        }),
{
}

/// An output has failed when its stream says so or its render thread has ended.
pub proof fn law_output_failures(c: CoreAudio)
    ensures
        c.device_error ==> has_failed(c),
        c.exclusive matches Some(s) ==> (s.dead ==> has_failed(c)),
        !c.device_error && c.exclusive is None ==> !has_failed(c),
        c.exclusive matches Some(s) ==> (!c.device_error && !s.dead ==> !has_failed(c)),
{
}

/// A volume is at most 100, and is kept where it is.
pub proof fn law_volume_range(volume: u8)
    ensures
        volume <= 100 ==> in_range(volume) == volume,
        volume > 100 ==> in_range(volume) == 100,
{
}

/// The attempts at a rate start with the format that is preferred among those the driver takes.
pub proof fn law_negotiation_starts_with_the_best(n: Negotiation, answers: Seq<bool>, now: Negotiation, r: Ask)
    requires
        n.learns_formats(answers, now, r),
        answers.len() == 5,
    ensures
        r is Start,
        r->Start_rate == n.rates@[n.rate_pos as int],
        r->fmt == tried(answers)[0],
        now.formats@ == tried(answers),
        now.format_pos == 0,
        now.rate_pos == n.rate_pos && now.rates@ == n.rates@ && now.errors@ == n.errors@,
{
}

/// A failed attempt leads to the next format at the same rate, behind the last format to the next
/// rate, and behind the last rate to the end; a failure of the device leads to the end at once, and
/// is what is reported.
pub proof fn law_negotiation_goes_on(n: Negotiation, failure: OpenFailure, now: Negotiation, r: Ask)
    requires
        n.learns_failure(failure, now, r),
        n.valid(),
    ensures
        failure.kind == Fallback::DeviceInUse || failure.kind == Fallback::ExclusiveDisabled
            || failure.kind == Fallback::DeviceInvalidated ==> r == (Ask::GiveUp { failure }),
        failure.kind == Fallback::UnsupportedFormat || failure.kind == Fallback::NeedsAlignment
            || failure.kind == Fallback::Other ==> {
            &&& now.errors@ == n.errors@.push(failure)
            &&& n.format_pos + 1 < n.formats@.len() ==> r is Start && r->Start_rate
                == n.rates@[n.rate_pos as int] && r->fmt == n.formats@[n.format_pos + 1]
                && now.format_pos == n.format_pos + 1
            &&& n.format_pos + 1 >= n.formats@.len() && n.rate_pos + 1 < n.rates@.len() ==> r
                == (Ask::Formats { rate: n.rates@[n.rate_pos + 1] }) && now.rate_pos == n.rate_pos + 1
            &&& n.format_pos + 1 >= n.formats@.len() && n.rate_pos + 1 >= n.rates@.len() ==> r is GiveUp
        },
        now.rates@ == n.rates@ && now.formats@ == n.formats@,
{
}

/// An output takes any count of channels but none, and any rate but 0, which stands for 44.1 kHz.
pub proof fn law_usable_values(channels: nat, rate: u32)
    ensures
        1 <= channels <= 65_535 ==> usable_channels(channels) == channels,
        usable_channels(0) == 1,
        channels > 65_535 ==> usable_channels(channels) == 65_535,
        rate > 0 ==> usable_rate(rate) == rate,
        usable_rate(0) == 44_100,
{
}

/// The samples before a point in time are those of all channels up to it: one for each channel and
/// each step of the rate, to within two.
pub proof fn law_samples_before(ns: u64, rate: nat, channels: nat)
    requires
        rate > 0,
        channels > 0,
        (ns as nat * rate) * channels <= 0x4_0000_0000_0000 * 1_000_000_000,
    ensures
        samples_until(ns as nat, rate, channels) * 1_000_000_000 < (ns as nat * rate) * channels
            + 2_000_000_000,
        (ns as nat * rate) * channels <= samples_until(ns as nat, rate, channels) * 1_000_000_000
            + 1_000_000_000,
{
    lemma_raised_near(ns, rate, channels);
}

/// Interleaved samples reach the point in time that they take at so many channels and steps of the
/// rate, to within two nanoseconds.
pub proof fn law_time_of_samples(samples: nat, rate: nat, channels: nat)
    requires
        0 < rate * channels < 0x20_0000_0000_0000,
        samples < 0x10_0000_0000_0000,
        samples * 1_000_000_000 <= 0x20_0000_0000_0000 * (rate * channels),
    ensures
        (2 * time_at(samples, rate, channels)) * (rate * channels) <= 2 * (samples * 1_000_000_000) + 3 * (
        rate * channels),
        2 * (samples * 1_000_000_000) <= (2 * time_at(samples, rate, channels)) * (rate * channels) + 3 * (
        rate * channels),
{
    lemma_span_near(samples, rate * channels);
}

/// A device is the default one or the selected one by its id.
pub proof fn law_device_entries(r: AudioDeviceInfo, id: String, name: String, other: String)
    ensures
        is_entry(r, id, name, Some(id), None) ==> r.id == id && r.name == name && r.is_default
            && !r.is_selected,
        is_entry(r, id, name, None, Some(id)) ==> !r.is_default && r.is_selected,
        other@ != id@ && is_entry(r, id, name, Some(other), Some(other)) ==> !r.is_default
            && !r.is_selected,
        is_entry(r, id, name, None, None) ==> !r.is_default && !r.is_selected,
{
}

/// A new player starts without an old one, for the rate of its track, and keeps what is open unless
/// an exclusive stream has to be opened anew.
pub proof fn law_player_begins(c: CoreAudio, track_rate: Option<u32>)
    ensures
        !begun(c, track_rate).has_player,
        begun(c, track_rate).current_track_rate == track_rate,
        begun(c, track_rate).shared == c.shared,
        c.shared is Some ==> begun(c, track_rate).exclusive == c.exclusive,
        c.shared is None && c.mode != OutputMode::Shared && !c.exclusive_denied
            && c.exclusive_track_rate != track_rate ==> begun(c, track_rate).exclusive is None && begun(
            c,
            track_rate,
        ).exclusive_track_rate is None,
        c.shared is None && c.mode == OutputMode::Shared ==> begun(c, track_rate).exclusive
            == c.exclusive,
        begun(c, track_rate).volume == c.volume && begun(c, track_rate).status == c.status,
{
}

/// Between rates of which one is 0 nothing is converted.
pub proof fn law_no_rate_no_conversion(c: CoreAudio, src_rate: u32, src_channels: usize)
    ensures
        append_plan_of(c, 0, src_channels).resample_to is None,
        rate_of(c) == Some(0u32) ==> append_plan_of(c, src_rate, src_channels).resample_to is None,
        rate_of(c) is None ==> append_plan_of(c, src_rate, src_channels).resample_to is None,
{
}

} // verus!
