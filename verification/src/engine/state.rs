//! The player as a state machine: its state, what it asks of the outside, and what every event does
//! to it.
//!
//! The player alternates between decisions and outside work (opening decoders and devices). Each
//! piece of outside work is an `Effect`. Where the machine waits for an answer, `Task` says which
//! answer it waits for and what is to be done with it.
//!
//! The functions here say what each event does; `engine::player` carries them out.

use crate::engine::audio::{device_reset, fallback_forgotten, in_mode, player_cleared, preferring, CoreAudio, DefaultOutput};
use crate::engine::backend::OutputMode;
use crate::engine::queue::{is_permutation, next_of, order_of, perm_of, perm_start, previous_of};
use crate::models::{NowPlaying, PlayMode, PlayerStateEvent, PlayerStatus, ProgressPayload, QueueItem, QueueTrack};
use crate::text::opt_view;
use vstd::prelude::*;

verus! {

/// How long before the end of a track the next one is opened.
pub const PREFETCH_LEAD_NS: u64 = 12_000_000_000;

/// How far the position has to fall for another track to be playing.
pub const SWITCH_MARGIN_NS: u64 = 500_000_000;

/// A position that moves less than this in a tick has not moved.
pub const STALL_MARGIN_NS: u64 = 20_000_000;

/// A remembered position below this is not worth a seek.
pub const RESUME_MARGIN_NS: u64 = 1_000_000_000;

/// How many ticks without movement mean that the output is dead.
pub const STALL_TICKS: u64 = 60;

/// How many ticks to wait for the device that was lost before any other is taken.
pub const DEVICE_WAIT_GRACE_TICKS: u64 = 160;

/// How many ticks lie between two attempts to get an output back.
pub const DEVICE_RETRY_TICKS: u64 = 20;

/// How many ticks lie between two progress events.
pub const PROGRESS_TICKS: u64 = 16;

/// What the user, or the system on the user's behalf, asks of the player.
#[allow(inconsistent_fields)]
#[derive(Debug)]
pub enum EngineCommand {
    SetQueue { items: Vec<QueueTrack>, start: usize, autoplay: bool },
    Toggle,
    Pause,
    Resume,
    Stop,
    Next,
    Previous,
    Seek { position_ns: u64 },
    /// Load an entry of the queue without playing it.
    LoadPaused { index: usize },
    SetVolume { volume: u8 },
    SetPlayMode { mode: PlayMode },
    /// Whether "previous" starts a track over that has played for a while.
    SetPreviousRestart { enabled: bool },
    /// Another output device; none follows the system default.
    SetOutputDevice { id: Option<String> },
    SetOutputMode { mode: OutputMode },
    /// Negotiate the output afresh.
    RetryOutput,
    Shutdown,
}

/// A track that is opened already and follows the current one without a gap.
#[derive(Debug, Clone, Copy, PartialEq, Eq, Structural)]
pub struct Pending {
    pub idx: usize,
    /// Where the current track stood when this one was opened.
    pub pos_at_prefetch: u64,
    /// Where playing stood at the last tick.
    pub last_pos: u64,
}

/// A track that could not be opened.
#[derive(Debug, PartialEq)]
pub struct TrackFailure {
    pub code: String,
    pub message: String,
    pub track_id: i64,
}

/// What follows an attempt to play an entry, however it went.
#[derive(Debug, Clone, Copy, PartialEq, Eq, Structural)]
pub enum After {
    /// Publish the state.
    Sync,
    /// Pause unless playing was going on, then publish.
    Hold { was_playing: bool },
    /// The output was changed: go on from `at`.
    Remigrate { at: u64, was_playing: bool },
    /// The output came back: go on from `at`.
    Recover { at: u64 },
}

/// What follows a seek.
#[derive(Debug, Clone, Copy, PartialEq, Eq, Structural)]
pub enum AfterSeek {
    Sync,
    Remigrate { was_playing: bool },
    Recover { at: u64 },
}

/// Which answer the player waits for.
#[allow(inconsistent_fields)]
#[derive(Debug, Clone, Copy, PartialEq, Eq, Structural)]
pub enum Task {
    Idle,
    /// A decoder for an entry that is to be played. `budget` more entries may be tried.
    LoadDecoder { index: usize, budget: usize, after: After },
    /// A player for it.
    LoadPlayer { index: usize, budget: usize, after: After, duration_ns: Option<u64> },
    /// A decoder for an entry that is to be loaded only.
    PausedDecoder { index: usize },
    PausedPlayer { index: usize, duration_ns: Option<u64> },
    /// A seek inside the running player.
    SeekInline { target_ns: u64, was_paused: bool, after: AfterSeek },
    /// A decoder at the target of a seek.
    SeekDecoder { was_paused: bool, after: AfterSeek },
    SeekPlayer { was_paused: bool, after: AfterSeek },
    /// A decoder for the entry that follows without a gap.
    /// `perm_pos` is its place in the order of play, taken over when the decoder is there.
    Prefetch { index: usize, perm_pos: usize },
    /// Whether the wanted output device is there.
    RecoverQuery,
    /// Whether the default output of the system is there.
    RecoverDefault,
    /// The output itself.
    RecoverOpen,
}

/// What the user is told about a failure.
#[derive(Debug, PartialEq)]
pub enum Notice {
    /// No output could be opened; playing starts when one appears.
    DeviceUnavailable,
    /// The output went away; playing goes on when it is back.
    DeviceLost,
    /// The output could not be opened for a track that was to be loaded only.
    OutputFailed,
    /// A track could not be opened.
    Track { code: String, message: String },
    /// Several tracks could not be opened; the code is that of the first.
    Skipped { code: String, count: usize },
}

/// Work for the outside.
#[allow(inconsistent_fields)]
#[derive(Debug, PartialEq)]
pub enum Effect {
    /// Reset the beat meter.
    BeatReset,
    /// Stop and drop the player, and an exclusive output with it.
    ClearPlayer,
    /// Stop and drop the player; the output stays.
    StopPlayer,
    /// Drop the player and every output.
    ResetDevice,
    Pause,
    Play,
    /// Append the opened decoder to the player.
    Append,
    SetVolume { volume: u8 },
    /// Publish the whole state and its event.
    SyncState,
    StateEvent,
    ProgressEvent,
    /// Bring the position in the published state up to date.
    RefreshPosition,
    Error { notice: Notice, track_id: Option<i64> },
    /// Open a decoder; the answer is `decoder_opened` or `decoder_failed`.
    OpenDecoder { path: String },
    /// Make a player for a track of this rate; the answer is `player_made`.
    NewPlayer { rate: u32 },
    /// Seek in the running player, if that is cheap for this file; the answer is `inline_sought`.
    SeekInline { path: String, target_ns: u64 },
    /// Open a decoder at a position; the answer is `decoder_sought` or `decoder_failed`.
    SeekDecoder { path: String, target_ns: u64 },
    /// Ask whether a device is active; the answer is `endpoint_known`.
    QueryEndpoint { id: String },
    /// Ask for the default output; the answer is `default_known`.
    ProbeDefault,
    /// Open an output; the answer is `output_opened`.
    EnsureOutput { id: Option<String> },
}

/// Which output a recovery goes for.
#[derive(Debug, PartialEq)]
pub enum RecoverTarget {
    /// This device: the one that was lost is back.
    Original(String),
    FollowDefault,
    KeepWaiting,
}

/// Which output a recovery goes for. The wanted device is taken as soon as it is active; only after
/// the grace period, and only where the user has not chosen a device, is the default taken.
pub open spec fn recover_target(
    wanted: Option<String>,
    active: Option<bool>,
    waited_ticks: u64,
    allow_fallback: bool,
) -> RecoverTarget {
    if wanted is Some && active == Some(true) {
        RecoverTarget::Original(wanted->0)
    } else if allow_fallback && waited_ticks >= DEVICE_WAIT_GRACE_TICKS {
        RecoverTarget::FollowDefault
    } else {
        RecoverTarget::KeepWaiting
    }
}

/// The state of the player.
pub struct EngineView {
    pub core: CoreAudio,
    pub queue: Seq<QueueTrack>,
    pub items: Seq<QueueItem>,
    pub order: Seq<i64>,
    pub idx: Option<usize>,
    pub perm: Seq<usize>,
    pub perm_pos: usize,
    pub status: PlayerStatus,
    pub play_mode: PlayMode,
    pub volume: u8,
    pub restart_on_previous: bool,
    pub seek_offset: u64,
    pub loaded: Option<QueueTrack>,
    pub suppress_end: bool,
    pub pending: Option<Pending>,
    pub pos_base: u64,
    pub last_pos: u64,
    pub stalled_ticks: u64,
    pub device_lost: bool,
    pub device_retry: u64,
    pub resume_at: u64,
    pub wait_ticks: u64,
    pub tick: u64,
    pub first_failure: Option<TrackFailure>,
    pub skip_count: usize,
    pub task: Task,
}

/// A state with the effects that led to it.
pub struct Step {
    pub e: EngineView,
    pub fx: Seq<Effect>,
}

/// The entry of a queue as callers see it.
pub open spec fn item_of(q: QueueTrack) -> QueueItem {
    QueueItem {
        track_id: q.track_id,
        title: q.title,
        artist: q.artist,
        album: q.album,
        duration_ns: q.duration_ns,
    }
}

/// What holds of the queue and of what is derived from it.
#[verifier::opaque]
pub open spec fn queue_fits(
    queue: Seq<QueueTrack>,
    items: Seq<QueueItem>,
    perm: Seq<usize>,
    order: Seq<i64>,
    mode: PlayMode,
) -> bool {
    &&& queue.len() <= usize::MAX
    &&& items == queue.map_values(|q: QueueTrack| item_of(q))
    &&& is_permutation(perm, queue.len())
    &&& order == order_of(queue, mode, perm)
}

/// What holds of the player at any time.
pub open spec fn fits(e: EngineView) -> bool {
    &&& e.idx matches Some(i) ==> i < e.queue.len()
    &&& queue_fits(e.queue, e.items, e.perm, e.order, e.play_mode)
    &&& e.perm_pos < e.queue.len() || e.queue.len() == 0
    &&& e.volume <= 100
    &&& e.pending matches Some(p) ==> p.idx < e.queue.len()
    &&& e.stalled_ticks < STALL_TICKS
    &&& e.device_retry <= DEVICE_RETRY_TICKS
}

/// What holds of the player between events.
pub open spec fn well_formed(e: EngineView) -> bool {
    fits(e) && task_fits(e)
}

/// What holds while the player waits for an answer.
pub open spec fn task_fits(e: EngineView) -> bool {
    match e.task {
        Task::Idle => true,
        Task::LoadDecoder { index, budget, .. } => loading(e, index, budget),
        Task::LoadPlayer { index, budget, .. } => loading(e, index, budget),
        Task::PausedDecoder { index } => index < e.queue.len() && e.loaded is Some,
        Task::PausedPlayer { index, .. } => index < e.queue.len() && e.loaded is Some,
        Task::SeekInline { .. } => e.loaded is Some,
        Task::SeekDecoder { .. } => e.loaded is Some,
        Task::SeekPlayer { .. } => e.loaded is Some,
        Task::Prefetch { index, perm_pos } => index < e.queue.len() && perm_pos < e.queue.len(),
        Task::RecoverQuery => e.idx is Some,
        Task::RecoverDefault => e.idx is Some,
        Task::RecoverOpen => e.idx is Some,
    }
}

/// What holds while an entry is being opened: it is the current one, and the entries that were
/// skipped and those that may still be tried make up the queue.
pub open spec fn loading(e: EngineView, index: usize, budget: usize) -> bool {
    &&& index < e.queue.len()
    &&& e.idx == Some(index)
    &&& e.loaded is Some
    &&& budget > 0
    &&& e.skip_count + budget == e.queue.len()
    &&& e.skip_count > 0 ==> e.first_failure is Some
}

pub open spec fn emit(s: Step, f: Effect) -> Step {
    Step { fx: s.fx.push(f), ..s }
}

pub open spec fn idle(s: Step) -> Step {
    Step { e: EngineView { task: Task::Idle, ..s.e }, ..s }
}

/// The position in the current track: that of the player, less what earlier tracks played on the
/// same player, plus what a seek skipped.
pub open spec fn position(e: EngineView, player_ns: u64) -> u64 {
    let t = player_ns + e.seek_offset - e.pos_base;
    if t < 0 {
        0
    } else if t > u64::MAX {
        u64::MAX
    } else {
        t as u64
    }
}

/// The length of an entry, or 0 where there is none.
pub open spec fn length_at(queue: Seq<QueueTrack>, i: usize) -> u64 {
    if i < queue.len() {
        queue[i as int].duration_ns
    } else {
        0
    }
}

/// The state with the length of an entry known.
pub open spec fn lengthened(e: EngineView, i: usize, duration_ns: Option<u64>) -> EngineView {
    match duration_ns {
        Some(d) => EngineView {
            queue: e.queue.update(i as int, QueueTrack { duration_ns: d, ..e.queue[i as int] }),
            items: e.items.update(i as int, QueueItem { duration_ns: d, ..e.items[i as int] }),
            ..e
        },
        None => e,
    }
}

/// The state with the length of an entry known.
pub open spec fn with_length(s: Step, i: usize, duration_ns: Option<u64>) -> Step {
    Step { e: lengthened(s.e, i, duration_ns), ..s }
}

/// The state with its order of play made afresh.
pub open spec fn reordered(e: EngineView, seed: u64) -> EngineView {
    let perm = perm_of(e.queue.len(), e.idx, e.play_mode, seed);
    EngineView {
        perm,
        perm_pos: perm_start(e.queue.len(), e.idx, e.play_mode),
        order: order_of(e.queue, e.play_mode, perm),
        ..e
    }
}

pub open spec fn paused(s: Step) -> Step {
    emit(Step { e: EngineView { status: PlayerStatus::Paused, ..s.e }, ..s }, Effect::Pause)
}

/// Starts to wait for an output, to go on from `at` when there is one.
#[verifier::opaque]
pub open spec fn waiting(s: Step, at: u64) -> Step {
    emit(
        Step {
            e: EngineView {
                resume_at: at,
                device_lost: true,
                device_retry: 0,
                wait_ticks: 0,
                pending: None,
                pos_base: 0,
                core: device_reset(s.e.core),
                ..s.e
            },
            ..s
        },
        Effect::ResetDevice,
    )
}

/// Makes an entry the current one and asks for its decoder.
pub open spec fn opening(s: Step, i: usize, task: Task) -> Step {
    emit(
        Step {
            e: EngineView {
                idx: Some(i),
                loaded: Some(s.e.queue[i as int]),
                seek_offset: 0,
                suppress_end: true,
                pending: None,
                pos_base: 0,
                last_pos: 0,
                stalled_ticks: 0,
                task,
                ..s.e
            },
            ..s
        },
        Effect::OpenDecoder { path: s.e.queue[i as int].path },
    )
}

/// Starts to play an entry. If it cannot be opened, the entries after it are tried, each at most
/// once.
#[verifier::opaque]
pub open spec fn load(s: Step, i: usize, after: After) -> Step {
    opening(
        Step { e: EngineView { first_failure: None, skip_count: 0, ..s.e }, ..s },
        i,
        Task::LoadDecoder { index: i, budget: s.e.queue.len() as usize, after },
    )
}

/// Tells the user about the entries that were skipped: one as it is, several in one word.
#[verifier::opaque]
pub open spec fn reported(s: Step) -> Step {
    if s.e.skip_count == 0 || s.e.first_failure is None {
        s
    } else {
        let f = s.e.first_failure->0;
        emit(
            s,
            Effect::Error {
                notice: if s.e.skip_count == 1 {
                    Notice::Track { code: f.code, message: f.message }
                } else {
                    Notice::Skipped { code: f.code, count: s.e.skip_count }
                },
                track_id: Some(f.track_id),
            },
        )
    }
}

/// What follows a seek.
#[verifier::opaque]
pub open spec fn sought(s: Step, after: AfterSeek) -> Step {
    match after {
        AfterSeek::Sync => idle(emit(s, Effect::SyncState)),
        AfterSeek::Remigrate { was_playing } => idle(
            emit(
                if was_playing {
                    s
                } else {
                    paused(s)
                },
                Effect::SyncState,
            ),
        ),
        AfterSeek::Recover { at } => if s.e.status == PlayerStatus::Playing {
            idle(emit(s, Effect::SyncState))
        } else {
            idle(Step { e: EngineView { resume_at: at, ..s.e }, ..s })
        },
    }
}

/// Starts a seek in the loaded track. The target is kept inside the track where its length is
/// known.
#[verifier::opaque]
pub open spec fn seek(s: Step, pos: u64, after: AfterSeek) -> Step {
    let s1 = Step {
        e: EngineView {
            pending: match s.e.pending {
                Some(p) => Some(Pending { pos_at_prefetch: pos, last_pos: pos, ..p }),
                None => None,
            },
            ..s.e
        },
        ..s
    };
    match s.e.loaded {
        None => sought(s1, after),
        Some(item) => {
            let dur = length_at(
                s.e.queue,
                match s.e.idx {
                    Some(i) => i,
                    None => 0,
                },
            );
            let target = if dur > 0 && pos > dur {
                dur
            } else {
                pos
            };
            emit(
                Step {
                    e: EngineView {
                        seek_offset: target,
                        task: Task::SeekInline {
                            target_ns: target,
                            was_paused: s.e.status == PlayerStatus::Paused,
                            after,
                        },
                        ..s1.e
                    },
                    ..s1
                },
                Effect::SeekInline { path: item.path, target_ns: target },
            )
        },
    }
}

/// What follows an attempt to play, however it went.
#[verifier::opaque]
pub open spec fn settled(s: Step, after: After) -> Step {
    match after {
        After::Sync => idle(emit(s, Effect::SyncState)),
        After::Hold { was_playing } => idle(
            emit(
                if was_playing {
                    s
                } else {
                    paused(s)
                },
                Effect::SyncState,
            ),
        ),
        After::Remigrate { at, was_playing } => if s.e.status == PlayerStatus::Playing {
            if at > RESUME_MARGIN_NS {
                seek(s, at, AfterSeek::Remigrate { was_playing })
            } else {
                sought(s, AfterSeek::Remigrate { was_playing })
            }
        } else {
            let w = waiting(s, at);
            idle(
                emit(
                    Step { e: EngineView { status: PlayerStatus::Paused, ..w.e }, ..w },
                    Effect::SyncState,
                ),
            )
        },
        After::Recover { at } => if s.e.status != PlayerStatus::Playing {
            idle(Step { e: EngineView { resume_at: at, ..s.e }, ..s })
        } else if at > RESUME_MARGIN_NS {
            seek(s, at, AfterSeek::Recover { at })
        } else {
            sought(s, AfterSeek::Recover { at })
        },
    }
}

/// Gives up on playing: nothing could be opened.
#[verifier::opaque]
pub open spec fn exhausted(s: Step, after: After) -> Step {
    settled(
        reported(
            Step {
                e: EngineView {
                    loaded: None,
                    suppress_end: false,
                    status: PlayerStatus::Paused,
                    ..s.e
                },
                ..s
            },
        ),
        after,
    )
}

/// A decoder was opened.
pub open spec fn on_decoder(s: Step, rate: u32, duration_ns: Option<u64>, player_ns: u64) -> Step {
    match s.e.task {
        Task::LoadDecoder { index, budget, after } => emit(
            Step {
                e: EngineView { task: Task::LoadPlayer { index, budget, after, duration_ns }, ..s.e },
                ..s
            },
            Effect::NewPlayer { rate },
        ),
        Task::PausedDecoder { index } => emit(
            Step {
                e: EngineView { task: Task::PausedPlayer { index, duration_ns }, ..s.e },
                ..s
            },
            Effect::NewPlayer { rate },
        ),
        Task::Prefetch { index, perm_pos } => {
            let s1 = with_length(s, index, duration_ns);
            let at = position(s1.e, player_ns);
            idle(
                emit(
                    Step {
                        e: EngineView {
                            perm_pos,
                            pending: Some(
                                Pending { idx: index, pos_at_prefetch: at, last_pos: at },
                            ),
                            ..s1.e
                        },
                        ..s1
                    },
                    Effect::Append,
                ),
            )
        },
        _ => s,
    }
}

/// A decoder could not be opened.
pub open spec fn on_decoder_failure(s: Step, code: String, message: String) -> Step {
    match s.e.task {
        Task::LoadDecoder { index, budget, after } => {
            let s1 = Step {
                e: EngineView {
                    loaded: None,
                    suppress_end: false,
                    first_failure: if s.e.skip_count == 0 {
                        Some(
                            TrackFailure {
                                code,
                                message,
                                track_id: s.e.queue[index as int].track_id,
                            },
                        )
                    } else {
                        s.e.first_failure
                    },
                    skip_count: (s.e.skip_count + 1) as usize,
                    ..s.e
                },
                ..s
            };
            if budget == 1 {
                exhausted(s1, after)
            } else {
                let (next, perm_pos) = next_of(
                    s.e.queue.len(),
                    s.e.idx,
                    s.e.play_mode,
                    s.e.perm,
                    s.e.perm_pos,
                    false,
                );
                let s2 = Step { e: EngineView { perm_pos, ..s1.e }, ..s1 };
                if next is Some && next->0 != index {
                    opening(
                        s2,
                        next->0,
                        Task::LoadDecoder { index: next->0, budget: (budget - 1) as usize, after },
                    )
                } else {
                    exhausted(s2, after)
                }
            }
        },
        Task::PausedDecoder { index } => idle(
            emit(
                emit(
                    Step {
                        e: EngineView { status: PlayerStatus::Paused, loaded: None, ..s.e },
                        ..s
                    },
                    Effect::Error {
                        notice: Notice::Track { code, message },
                        track_id: Some(s.e.queue[index as int].track_id),
                    },
                ),
                Effect::SyncState,
            ),
        ),
        Task::SeekDecoder { after, .. } => sought(
            emit(
                emit(
                    Step {
                        e: EngineView {
                            core: player_cleared(s.e.core),
                            status: PlayerStatus::Paused,
                            suppress_end: false,
                            ..s.e
                        },
                        ..s
                    },
                    Effect::ClearPlayer,
                ),
                Effect::Error {
                    notice: Notice::Track { code, message },
                    track_id: Some((s.e.loaded->0).track_id),
                },
            ),
            after,
        ),
        Task::Prefetch { .. } => idle(s),
        _ => s,
    }
}

/// A player was made, or could not be.
pub open spec fn on_player(s: Step, ok: bool) -> Step {
    match s.e.task {
        Task::LoadPlayer { index, after, duration_ns, .. } => if ok {
            let s1 = emit(with_length(s, index, duration_ns), Effect::Append);
            settled(
                reported(
                    Step {
                        e: EngineView {
                            status: PlayerStatus::Playing,
                            suppress_end: false,
                            ..s1.e
                        },
                        ..s1
                    },
                ),
                after,
            )
        } else {
            let s1 = waiting(
                reported(
                    Step {
                        e: EngineView {
                            status: PlayerStatus::Paused,
                            loaded: None,
                            suppress_end: false,
                            ..s.e
                        },
                        ..s
                    },
                ),
                0,
            );
            settled(
                if s.e.device_lost {
                    s1
                } else {
                    emit(
                        s1,
                        Effect::Error {
                            notice: Notice::DeviceUnavailable,
                            track_id: Some((s.e.loaded->0).track_id),
                        },
                    )
                },
                after,
            )
        },
        Task::PausedPlayer { index, duration_ns } => if ok {
            let s1 = with_length(s, index, duration_ns);
            let s2 = emit(emit(s1, Effect::Pause), Effect::Append);
            idle(
                emit(
                    Step { e: EngineView { status: PlayerStatus::Paused, ..s2.e }, ..s2 },
                    Effect::SyncState,
                ),
            )
        } else {
            idle(
                emit(
                    emit(
                        Step { e: EngineView { status: PlayerStatus::Paused, ..s.e }, ..s },
                        Effect::Error {
                            notice: Notice::OutputFailed,
                            track_id: Some((s.e.loaded->0).track_id),
                        },
                    ),
                    Effect::SyncState,
                ),
            )
        },
        Task::SeekPlayer { was_paused, after } => {
            let s1 = if ok {
                let a = emit(s, Effect::Append);
                if was_paused {
                    paused(a)
                } else {
                    Step { e: EngineView { status: PlayerStatus::Playing, ..a.e }, ..a }
                }
            } else {
                Step { e: EngineView { status: PlayerStatus::Paused, ..s.e }, ..s }
            };
            sought(Step { e: EngineView { suppress_end: false, ..s1.e }, ..s1 }, after)
        },
        _ => s,
    }
}

/// A seek in the running player was made, or could not be; then the track is opened again.
pub open spec fn on_inline_seek(s: Step, ok: bool) -> Step {
    match s.e.task {
        Task::SeekInline { target_ns, was_paused, after } => if ok {
            sought(
                Step { e: EngineView { seek_offset: 0, suppress_end: false, ..s.e }, ..s },
                after,
            )
        } else {
            emit(
                emit(
                    Step {
                        e: EngineView {
                            suppress_end: true,
                            core: CoreAudio { has_player: false, ..s.e.core },
                            task: Task::SeekDecoder { was_paused, after },
                            ..s.e
                        },
                        ..s
                    },
                    Effect::StopPlayer,
                ),
                Effect::SeekDecoder { path: (s.e.loaded->0).path, target_ns },
            )
        },
        _ => s,
    }
}

/// A decoder was opened at the target of a seek.
pub open spec fn on_sought_decoder(s: Step, rate: u32, actual_ns: u64) -> Step {
    match s.e.task {
        Task::SeekDecoder { was_paused, after } => emit(
            Step {
                e: EngineView {
                    seek_offset: actual_ns,
                    task: Task::SeekPlayer { was_paused, after },
                    ..s.e
                },
                ..s
            },
            Effect::NewPlayer { rate },
        ),
        _ => s,
    }
}

/// Moves on to the next entry.
#[verifier::opaque]
pub open spec fn advanced(s: Step, manual: bool) -> Step {
    if s.e.queue.len() == 0 {
        emit(s, Effect::SyncState)
    } else {
        let (next, perm_pos) = next_of(
            s.e.queue.len(),
            s.e.idx,
            s.e.play_mode,
            s.e.perm,
            s.e.perm_pos,
            manual,
        );
        match next {
            Some(n) => load(
                Step { e: EngineView { perm_pos, status: PlayerStatus::Paused, ..s.e }, ..s },
                n,
                After::Hold { was_playing: s.e.status == PlayerStatus::Playing },
            ),
            None => emit(
                emit(
                    Step {
                        e: EngineView {
                            perm_pos,
                            status: PlayerStatus::Stopped,
                            suppress_end: true,
                            core: player_cleared(s.e.core),
                            loaded: None,
                            ..s.e
                        },
                        ..s
                    },
                    Effect::ClearPlayer,
                ),
                Effect::SyncState,
            ),
        }
    }
}

/// The sum of two times, at most the largest one.
pub open spec fn capped_sum(a: u64, b: u64) -> u64 {
    if a + b > u64::MAX {
        u64::MAX
    } else {
        (a + b) as u64
    }
}

/// Goes back to the entry before.
#[verifier::opaque]
pub open spec fn stepped_back(s: Step, player_ns: u64) -> Step {
    if s.e.queue.len() == 0 {
        emit(s, Effect::SyncState)
    } else {
        let step = previous_of(
            s.e.queue.len(),
            match s.e.idx {
                Some(i) => i,
                None => 0,
            },
            capped_sum(player_ns, s.e.seek_offset),
            s.e.restart_on_previous,
            s.e.play_mode,
            s.e.perm,
            s.e.perm_pos,
        );
        load(
            Step {
                e: EngineView { perm_pos: step.perm_pos, status: PlayerStatus::Paused, ..s.e },
                ..s
            },
            step.index,
            After::Hold { was_playing: s.e.status == PlayerStatus::Playing },
        )
    }
}

/// Moves playing to the output that is wanted now.
#[verifier::opaque]
pub open spec fn remigrated(s: Step, player_ns: u64) -> Step {
    let s1 = emit(
        Step { e: EngineView { core: device_reset(s.e.core), ..s.e }, ..s },
        Effect::ResetDevice,
    );
    match s.e.idx {
        None => s1,
        Some(i) => load(
            Step { e: EngineView { status: PlayerStatus::Paused, ..s1.e }, ..s1 },
            i,
            After::Remigrate {
                at: position(s.e, player_ns),
                was_playing: s.e.status == PlayerStatus::Playing,
            },
        ),
    }
}

/// Takes a new queue, and plays it from the given entry if it is to.
#[verifier::opaque]
pub open spec fn queue_set(
    s: Step,
    items: Seq<QueueTrack>,
    start: usize,
    autoplay: bool,
    seed: u64,
) -> Step {
    let idx = if items.len() == 0 {
        None
    } else if start >= items.len() {
        Some((items.len() - 1) as usize)
    } else {
        Some(start)
    };
    let s1 = Step {
        e: reordered(
            EngineView {
                queue: items,
                items: items.map_values(|q: QueueTrack| item_of(q)),
                idx,
                pending: None,
                pos_base: 0,
                status: PlayerStatus::Paused,
                ..s.e
            },
            seed,
        ),
        ..s
    };
    if autoplay && idx is Some {
        load(s1, idx->0, After::Sync)
    } else {
        emit(
            emit(
                Step {
                    e: EngineView {
                        core: player_cleared(s1.e.core),
                        status: if autoplay {
                            PlayerStatus::Stopped
                        } else {
                            PlayerStatus::Paused
                        },
                        loaded: if autoplay {
                            s1.e.loaded
                        } else {
                            None
                        },
                        ..s1.e
                    },
                    ..s1
                },
                Effect::ClearPlayer,
            ),
            Effect::SyncState,
        )
    }
}

/// Pauses what plays, and plays what is paused or stopped.
#[verifier::opaque]
pub open spec fn toggled(s: Step) -> Step {
    match s.e.status {
        PlayerStatus::Playing => emit(paused(s), Effect::SyncState),
        PlayerStatus::Paused => if s.e.loaded is Some {
            emit(resumed(s), Effect::SyncState)
        } else if s.e.idx is Some {
            load(s, s.e.idx->0, After::Sync)
        } else {
            emit(s, Effect::SyncState)
        },
        PlayerStatus::Stopped => if s.e.idx is Some {
            load(
                Step { e: EngineView { status: PlayerStatus::Paused, ..s.e }, ..s },
                s.e.idx->0,
                After::Sync,
            )
        } else {
            s
        },
    }
}

/// Stops; an output that is waited for is waited for no longer.
#[verifier::opaque]
pub open spec fn stopped(s: Step) -> Step {
    let s1 = emit(
        Step {
            e: EngineView {
                device_lost: false,
                status: PlayerStatus::Stopped,
                suppress_end: true,
                core: player_cleared(s.e.core),
                loaded: None,
                pending: None,
                pos_base: 0,
                ..s.e
            },
            ..s
        },
        Effect::ClearPlayer,
    );
    if s.e.status == PlayerStatus::Stopped {
        s1
    } else {
        emit(s1, Effect::SyncState)
    }
}

/// Sets the volume, at most 100.
#[verifier::opaque]
pub open spec fn volume_set(s: Step, volume: u8) -> Step {
    let v = if volume > 100 {
        100
    } else {
        volume
    };
    emit(
        emit(
            Step {
                e: EngineView { volume: v, core: CoreAudio { volume: v, ..s.e.core }, ..s.e },
                ..s
            },
            Effect::SetVolume { volume: v },
        ),
        Effect::SyncState,
    )
}

/// The state as a command finds it: while an output is waited for, any command brings the next
/// attempt to get one forward.
pub open spec fn nudged(s: Step) -> Step {
    Step {
        e: EngineView {
            device_retry: if s.e.device_lost {
                DEVICE_RETRY_TICKS
            } else {
                s.e.device_retry
            },
            ..s.e
        },
        ..s
    }
}

/// Carries out a command.
pub open spec fn commanded(s0: Step, cmd: EngineCommand, seed: u64, player_ns: u64) -> Step {
    let s = nudged(s0);
    match cmd {
        EngineCommand::SetQueue { items, start, autoplay } => queue_set(
            s,
            items@,
            start,
            autoplay,
            seed,
        ),
        EngineCommand::LoadPaused { index } => if index < s.e.queue.len() {
            opening(s, index, Task::PausedDecoder { index })
        } else {
            emit(s, Effect::SyncState)
        },
        EngineCommand::Toggle => toggled(s),
        EngineCommand::Pause => if s.e.status == PlayerStatus::Playing {
            emit(paused(s), Effect::SyncState)
        } else {
            s
        },
        EngineCommand::Resume => if s.e.status == PlayerStatus::Paused && s.e.loaded is Some {
            emit(resumed(s), Effect::SyncState)
        } else {
            s
        },
        EngineCommand::Stop => stopped(s),
        EngineCommand::Next => advanced(s, true),
        EngineCommand::Previous => stepped_back(s, player_ns),
        EngineCommand::Seek { position_ns } => if s.e.loaded is Some {
            seek(s, position_ns, AfterSeek::Sync)
        } else {
            s
        },
        EngineCommand::SetVolume { volume } => volume_set(s, volume),
        EngineCommand::SetPlayMode { mode } => emit(
            Step { e: reordered(EngineView { play_mode: mode, ..s.e }, seed), ..s },
            Effect::SyncState,
        ),
        EngineCommand::SetPreviousRestart { enabled } => Step {
            e: EngineView { restart_on_previous: enabled, ..s.e },
            ..s
        },
        EngineCommand::SetOutputDevice { id } => {
            let s1 = Step { e: EngineView { core: preferring(s.e.core, id), ..s.e }, ..s };
            if opt_view(s.e.core.preferred) == opt_view(id) {
                s1
            } else {
                remigrated(s1, player_ns)
            }
        },
        EngineCommand::SetOutputMode { mode } => {
            let s1 = Step { e: EngineView { core: in_mode(s.e.core, mode), ..s.e }, ..s };
            if s.e.core.mode == mode {
                s1
            } else {
                remigrated(s1, player_ns)
            }
        },
        EngineCommand::RetryOutput => remigrated(
            Step { e: EngineView { core: fallback_forgotten(s.e.core), ..s.e }, ..s },
            player_ns,
        ),
        EngineCommand::Shutdown => s,
    }
}

/// Goes on playing, where there is a player.
pub open spec fn resumed(s: Step) -> Step {
    if s.e.core.has_player {
        emit(Step { e: EngineView { status: PlayerStatus::Playing, ..s.e }, ..s }, Effect::Play)
    } else {
        s
    }
}

/// The output is gone: playing stops, and goes on from here when an output is back.
pub open spec fn output_lost(s: Step, player_ns: u64) -> Step {
    match s.e.loaded {
        None => emit(
            Step { e: EngineView { core: device_reset(s.e.core), ..s.e }, ..s },
            Effect::ResetDevice,
        ),
        Some(t) => {
            let w = waiting(s, position(s.e, player_ns));
            emit(
                emit(
                    Step { e: EngineView { status: PlayerStatus::Paused, ..w.e }, ..w },
                    Effect::SyncState,
                ),
                Effect::Error { notice: Notice::DeviceLost, track_id: Some(t.track_id) },
            )
        },
    }
}

/// The device that a recovery wants: the one that the user chose, else the one in use last.
pub open spec fn wanted_device(c: CoreAudio) -> Option<String> {
    match c.preferred {
        Some(id) => Some(id),
        None => c.endpoint_id,
    }
}

/// Goes for an output.
pub open spec fn reopening(s: Step, id: Option<String>) -> Step {
    emit(
        emit(
            Step {
                e: EngineView { core: device_reset(s.e.core), task: Task::RecoverOpen, ..s.e },
                ..s
            },
            Effect::ResetDevice,
        ),
        Effect::EnsureOutput { id },
    )
}

/// Decides which output to go for, now that it is known whether the wanted device is there.
pub open spec fn on_endpoint(s: Step, active: Option<bool>) -> Step {
    match recover_target(
        wanted_device(s.e.core),
        active,
        s.e.wait_ticks,
        s.e.core.preferred is None,
    ) {
        RecoverTarget::Original(id) => reopening(s, Some(id)),
        RecoverTarget::FollowDefault => emit(
            Step { e: EngineView { task: Task::RecoverDefault, ..s.e }, ..s },
            Effect::ProbeDefault,
        ),
        RecoverTarget::KeepWaiting => idle(s),
    }
}

/// The default output is taken if it is active, or if nothing is known of it.
pub open spec fn on_default(s: Step, d: DefaultOutput) -> Step {
    match d {
        DefaultOutput::Found { active, .. } => if active {
            reopening(s, None)
        } else {
            idle(s)
        },
        DefaultOutput::Missing => idle(s),
        DefaultOutput::Unknown => reopening(s, None),
    }
}

/// The output is open, or could not be opened.
pub open spec fn on_output(s: Step, ok: bool) -> Step {
    if ok {
        load(
            Step {
                e: EngineView { device_lost: false, status: PlayerStatus::Paused, ..s.e },
                ..s
            },
            s.e.idx->0,
            After::Recover { at: s.e.resume_at },
        )
    } else {
        idle(s)
    }
}

/// One tick of waiting for an output.
pub open spec fn recovering(s: Step) -> Step {
    let s1 = Step {
        e: EngineView {
            wait_ticks: capped_sum(s.e.wait_ticks, 1),
            device_retry: (s.e.device_retry + 1) as u64,
            ..s.e
        },
        ..s
    };
    if s1.e.device_retry < DEVICE_RETRY_TICKS {
        s1
    } else {
        let s2 = Step { e: EngineView { device_retry: 0, ..s1.e }, ..s1 };
        match s.e.idx {
            None => Step { e: EngineView { device_lost: false, ..s2.e }, ..s2 },
            Some(_) => match wanted_device(s.e.core) {
                Some(id) => emit(
                    Step { e: EngineView { task: Task::RecoverQuery, ..s2.e }, ..s2 },
                    Effect::QueryEndpoint { id },
                ),
                None => on_endpoint(s2, None),
            },
        }
    }
}

/// The first part of a tick: a dead output is noticed, and a lost one is looked for.
pub open spec fn ticked(s: Step, player_ns: u64) -> Step {
    let failed = s.e.core.device_error || (s.e.core.exclusive matches Some(x) && x.dead);
    let s0 = Step {
        e: EngineView {
            tick: if s.e.tick == u64::MAX {
                0
            } else {
                (s.e.tick + 1) as u64
            },
            core: CoreAudio { device_error: false, ..s.e.core },
            ..s.e
        },
        ..s
    };
    let s1 = if s.e.status != PlayerStatus::Playing {
        emit(s0, Effect::BeatReset)
    } else {
        s0
    };
    let s2 = if failed && !s.e.device_lost {
        output_lost(s1, player_ns)
    } else {
        s1
    };
    if s2.e.device_lost {
        recovering(s2)
    } else {
        s2
    }
}

/// The second part of a tick: near the end of a track the next one is opened.
pub open spec fn prefetching(s: Step, player_ns: u64) -> Step {
    if s.e.pending is Some || s.e.queue.len() == 0 || s.e.status != PlayerStatus::Playing
        || s.e.idx is None {
        s
    } else {
        let dur = s.e.queue[s.e.idx->0 as int].duration_ns;
        if dur == 0 || dur > position(s.e, player_ns) + PREFETCH_LEAD_NS {
            s
        } else {
            let (next, perm_pos) = prefetch_of(s.e);
            match next {
                None => s,
                Some(n) => emit(
                    Step {
                        e: EngineView { task: Task::Prefetch { index: n, perm_pos }, ..s.e },
                        ..s
                    },
                    Effect::OpenDecoder { path: s.e.queue[n as int].path },
                ),
            }
        }
    }
}

/// The entry that follows without a gap, and the place in the order of play that goes with it: the
/// track itself where one track is repeated.
pub open spec fn prefetch_of(e: EngineView) -> (Option<usize>, usize) {
    if e.play_mode == PlayMode::LoopOne {
        (e.idx, e.perm_pos)
    } else {
        next_of(e.queue.len(), e.idx, e.play_mode, e.perm, e.perm_pos, false)
    }
}

/// The entry that was opened ahead is the one that plays now.
pub open spec fn switched(s: Step, idx: usize, player_ns: u64) -> Step {
    let before = match s.e.idx {
        Some(i) => length_at(s.e.queue, i),
        None => 0,
    };
    let s1 = Step {
        e: EngineView {
            pending: None,
            pos_base: if before > 0 && 2 * player_ns > before {
                before
            } else {
                0
            },
            seek_offset: 0,
            idx: Some(idx),
            loaded: Some(s.e.queue[idx as int]),
            suppress_end: false,
            ..s.e
        },
        ..s
    };
    emit(emit(emit(s1, Effect::SyncState), Effect::StateEvent), Effect::ProgressEvent)
}

/// A track has played to its end.
pub open spec fn ended(s: Step) -> Step {
    if s.e.play_mode == PlayMode::LoopOne {
        match s.e.idx {
            Some(i) => load(
                Step { e: EngineView { status: PlayerStatus::Paused, ..s.e }, ..s },
                i,
                After::Hold { was_playing: s.e.status == PlayerStatus::Playing },
            ),
            None => s,
        }
    } else {
        advanced(s, false)
    }
}

/// Watches whether the position moves; an output that stands still for long is dead.
pub open spec fn watched(s: Step, player_ns: u64) -> Step {
    let pos = position(s.e, player_ns);
    let moved = pos > s.e.last_pos + STALL_MARGIN_NS || s.e.last_pos > pos + STALL_MARGIN_NS;
    let resting = s.e.status != PlayerStatus::Playing || !s.e.core.has_player || s.e.suppress_end;
    if resting || moved {
        Step { e: EngineView { last_pos: pos, stalled_ticks: 0, ..s.e }, ..s }
    } else if s.e.stalled_ticks + 1 < STALL_TICKS {
        Step {
            e: EngineView {
                last_pos: pos,
                stalled_ticks: (s.e.stalled_ticks + 1) as u64,
                ..s.e
            },
            ..s
        }
    } else {
        output_lost(
            Step { e: EngineView { last_pos: pos, stalled_ticks: 0, ..s.e }, ..s },
            player_ns,
        )
    }
}

/// The last part of a tick: the switch to the track that was opened ahead, the natural end of a
/// track, the watch over the output, and the progress event.
pub open spec fn tick_over(s: Step, player_ns: u64, player_empty: bool) -> Step {
    if s.e.status != PlayerStatus::Playing {
        s
    } else {
        let pos = position(s.e, player_ns);
        match s.e.pending {
            Some(p) => if pos + SWITCH_MARGIN_NS < p.pos_at_prefetch || pos + SWITCH_MARGIN_NS
                < p.last_pos {
                switched(s, p.idx, player_ns)
            } else {
                progressed(
                    watched(
                        Step {
                            e: EngineView {
                                pending: Some(Pending { last_pos: pos, ..p }),
                                ..s.e
                            },
                            ..s
                        },
                        player_ns,
                    ),
                )
            },
            None => if !s.e.suppress_end && s.e.core.has_player && player_empty {
                ended(s)
            } else {
                progressed(watched(s, player_ns))
            },
        }
    }
}

/// Every so many ticks the progress is published.
pub open spec fn progressed(s: Step) -> Step {
    if s.e.status == PlayerStatus::Playing && s.e.tick % PROGRESS_TICKS == 0 {
        emit(emit(s, Effect::ProgressEvent), Effect::RefreshPosition)
    } else {
        s
    }
}

/// The track that is playing, with its position kept inside its length where that is known.
pub open spec fn now_playing(e: EngineView, player_ns: u64) -> Option<NowPlaying> {
    match e.idx {
        None => None,
        Some(i) => if i < e.queue.len() {
            let q = e.queue[i as int];
            let p = position(e, player_ns);
            Some(
                NowPlaying {
                    track_id: q.track_id,
                    title: q.title,
                    artist: q.artist,
                    album: q.album,
                    duration_ns: q.duration_ns,
                    cover_key: None,
                    position_ns: if q.duration_ns > 0 && p > q.duration_ns {
                        q.duration_ns
                    } else {
                        p
                    },
                },
            )
        } else {
            None
        },
    }
}

/// What callers are told about the current track: nothing while the player is stopped.
pub open spec fn shown(e: EngineView, player_ns: u64) -> Option<NowPlaying> {
    if e.status == PlayerStatus::Stopped {
        None
    } else {
        now_playing(e, player_ns)
    }
}

/// The state event.
pub open spec fn state_event_of(e: EngineView, player_ns: u64) -> PlayerStateEvent {
    PlayerStateEvent {
        status: e.status,
        play_mode: e.play_mode,
        volume: e.volume,
        queue_index: if e.status == PlayerStatus::Stopped {
            None
        } else {
            e.idx
        },
        queue_len: e.queue.len() as usize,
        current: shown(e, player_ns),
    }
}

/// The progress event.
pub open spec fn progress_of(e: EngineView, player_ns: u64) -> Option<ProgressPayload> {
    match now_playing(e, player_ns) {
        Some(np) => Some(
            ProgressPayload {
                track_id: np.track_id,
                position_ns: np.position_ns,
                duration_ns: np.duration_ns,
            },
        ),
        None => None,
    }
}

} // verus!
