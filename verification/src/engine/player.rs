//! The player: carries out commands, answers and ticks as `engine::state` describes them.

use crate::engine::audio::{fresh_core, CoreAudio, DefaultOutput};
use crate::engine::queue::{
    is_permutation, next_index, next_of, order_of, play_order, playback_order, previous_of,
    previous_step, PreviousInput,
};
use crate::engine::state::{
    advanced, capped_sum, commanded, ended, exhausted, fits, item_of, lengthened, load, now_playing,
    on_decoder, on_decoder_failure, on_default, on_endpoint, on_inline_seek, on_output, on_player,
    on_sought_decoder, opening, output_lost, paused, position, prefetch_of, prefetching, progress_of,
    progressed, queue_fits, queue_set, recover_target, recovering, remigrated, reopening, reordered,
    reported, resumed, seek, settled, shown, sought, state_event_of, stepped_back, stopped, switched,
    tick_over, ticked, toggled, volume_set, waiting, wanted_device, watched, well_formed, After,
    AfterSeek, Effect, EngineCommand, EngineView, Notice, Pending, RecoverTarget, Step, Task,
    TrackFailure, DEVICE_RETRY_TICKS, DEVICE_WAIT_GRACE_TICKS, PREFETCH_LEAD_NS, PROGRESS_TICKS,
    RESUME_MARGIN_NS, STALL_MARGIN_NS, STALL_TICKS, SWITCH_MARGIN_NS,
};
use crate::error::E_AUDIO_DEVICE;
use crate::models::{
    NowPlaying, PlayMode, PlayerErrorPayload, PlayerState, PlayerStateEvent, PlayerStatus,
    ProgressPayload, QueueItem, QueueTrack,
};
use crate::text::{decimal_of, opt_clone, push_decimal};
use vstd::prelude::*;
use vstd::string::StringExecFns;

verus! {

/// The player.
#[derive(Debug)]
pub struct Engine {
    pub core: CoreAudio,
    pub queue: Vec<QueueTrack>,
    /// The queue as callers see it.
    pub items: Vec<QueueItem>,
    /// The track ids in the order of play.
    pub order: Vec<i64>,
    /// The current entry of the queue.
    pub idx: Option<usize>,
    /// The positions of the queue in the order of play.
    pub perm: Vec<usize>,
    /// Where playing stands in that order.
    pub perm_pos: usize,
    pub status: PlayerStatus,
    pub play_mode: PlayMode,
    pub volume: u8,
    pub restart_on_previous: bool,
    /// What a seek by reopening has skipped.
    pub seek_offset: u64,
    pub loaded: Option<QueueTrack>,
    /// Set while the player is being exchanged, so that its emptiness is not taken for an end.
    pub suppress_end: bool,
    pub pending: Option<Pending>,
    /// Where the current track began on the player's clock.
    pub pos_base: u64,
    pub last_pos: u64,
    pub stalled_ticks: u64,
    /// Whether the output is gone and waited for.
    pub device_lost: bool,
    pub device_retry: u64,
    /// Where to go on when the output is back.
    pub resume_at: u64,
    pub wait_ticks: u64,
    pub tick: u64,
    /// The first of the entries skipped while loading.
    pub first_failure: Option<TrackFailure>,
    pub skip_count: usize,
    pub task: Task,
}

impl View for Engine {
    type V = EngineView;

    open spec fn view(&self) -> EngineView {
        EngineView {
            core: self.core,
            queue: self.queue@,
            items: self.items@,
            order: self.order@,
            idx: self.idx,
            perm: self.perm@,
            perm_pos: self.perm_pos,
            status: self.status,
            play_mode: self.play_mode,
            volume: self.volume,
            restart_on_previous: self.restart_on_previous,
            seek_offset: self.seek_offset,
            loaded: self.loaded,
            suppress_end: self.suppress_end,
            pending: self.pending,
            pos_base: self.pos_base,
            last_pos: self.last_pos,
            stalled_ticks: self.stalled_ticks,
            device_lost: self.device_lost,
            device_retry: self.device_retry,
            resume_at: self.resume_at,
            wait_ticks: self.wait_ticks,
            tick: self.tick,
            first_failure: self.first_failure,
            skip_count: self.skip_count,
            task: self.task,
        }
    }
}

/// The entry of a queue as callers see it.
pub fn to_queue_item(q: &QueueTrack) -> (r: QueueItem)
    ensures
        r == item_of(*q),
{
    QueueItem {
        track_id: q.track_id,
        title: q.title.clone(),
        artist: q.artist.clone(),
        album: q.album.clone(),
        duration_ns: q.duration_ns,
    }
}

fn to_items(queue: &[QueueTrack]) -> (r: Vec<QueueItem>)
    ensures
        r@ == queue@.map_values(|q: QueueTrack| item_of(q)),
{
    let mut r: Vec<QueueItem> = Vec::new();
    let mut i: usize = 0;
    while i < queue.len()
        invariant
            i <= queue@.len(),
            r@.len() == i,
            forall|j: int| 0 <= j < i ==> #[trigger] r@[j] == item_of(queue@[j]),
        decreases queue@.len() - i,
    {
        r.push(to_queue_item(&queue[i]));
        i = i + 1;
    }
    proof {
        assert(r@ =~= queue@.map_values(|q: QueueTrack| item_of(q)));
    }
    r
}

/// Which output a recovery goes for: the wanted device as soon as it is active, the default one
/// after the grace period where that is allowed, else none yet.
pub fn choose_recover_target(
    wanted: Option<String>,
    active: Option<bool>,
    waited_ticks: u64,
    allow_fallback: bool,
) -> (r: RecoverTarget)
    ensures
        r == recover_target(wanted, active, waited_ticks, allow_fallback),
{
    if let Some(id) = wanted {
        if active == Some(true) {
            return RecoverTarget::Original(id);
        }
    }
    if allow_fallback && waited_ticks >= DEVICE_WAIT_GRACE_TICKS {
        RecoverTarget::FollowDefault
    } else {
        RecoverTarget::KeepWaiting
    }
}

impl Engine {
    /// The state together with the effects so far.
    pub open spec fn step(&self, fx: Seq<Effect>) -> Step {
        Step { e: self@, fx }
    }

    /// A player with nothing to play.
    pub fn new() -> (r: Self)
        ensures
            well_formed(r@),
            r@.task == Task::Idle,
            r@.queue.len() == 0,
            r@.idx is None,
            r@.status == PlayerStatus::Stopped,
            r@.play_mode == PlayMode::LoopAll,
            r@.volume == 80,
            !r@.restart_on_previous,
            !r@.device_lost,
            r@.loaded is None,
            r@.pending is None,
            r@.core == fresh_core(),
            !r@.suppress_end,
            r@.seek_offset == 0,
            r@.pos_base == 0,
            r@.last_pos == 0,
            r@.stalled_ticks == 0,
            r@.device_retry == 0,
            r@.resume_at == 0,
            r@.wait_ticks == 0,
            r@.tick == 0,
            r@.first_failure is None,
            r@.skip_count == 0,
    {
        let r = Engine {
            core: CoreAudio::new(),
            queue: Vec::new(),
            items: Vec::new(),
            order: Vec::new(),
            idx: None,
            perm: Vec::new(),
            perm_pos: 0,
            status: PlayerStatus::Stopped,
            play_mode: PlayMode::LoopAll,
            volume: 80,
            restart_on_previous: false,
            seek_offset: 0,
            loaded: None,
            suppress_end: false,
            pending: None,
            pos_base: 0,
            last_pos: 0,
            stalled_ticks: 0,
            device_lost: false,
            device_retry: 0,
            resume_at: 0,
            wait_ticks: 0,
            tick: 0,
            first_failure: None,
            skip_count: 0,
            task: Task::Idle,
        };
        proof {
            reveal(queue_fits);
            assert(r@.items =~= r@.queue.map_values(|q: QueueTrack| item_of(q)));
            assert(r@.order =~= order_of(r@.queue, r@.play_mode, r@.perm));
        }
        r
    }

    /// Whether the player waits for no answer.
    pub fn is_idle(&self) -> (r: bool)
        ensures
            r == (self@.task == Task::Idle),
    {
        match self.task {
            Task::Idle => true,
            _ => false,
        }
    }

    /// The position in the current track, given the clock of the player.
    pub fn position_ns(&self, player_ns: u64) -> (r: u64)
        ensures
            r == position(self@, player_ns),
    {
        let t: u128 = player_ns as u128 + self.seek_offset as u128;
        let b: u128 = self.pos_base as u128;
        if t < b {
            0
        } else if t - b > 0xffff_ffff_ffff_ffff {
            0xffff_ffff_ffff_ffff
        } else {
            (t - b) as u64
        }
    }

    /// Makes the order of play afresh from a seed.
    pub fn rebuild_perm(&mut self, seed: u64)
        ensures
            final(self)@ == reordered(old(self)@, seed),
            is_permutation(final(self)@.perm, final(self)@.queue.len()),
            final(self)@.perm_pos < final(self)@.queue.len() || final(self)@.queue.len() == 0,
            old(self)@.items == old(self)@.queue.map_values(|q: QueueTrack| item_of(q))
                ==> queue_fits(
                final(self)@.queue,
                final(self)@.items,
                final(self)@.perm,
                final(self)@.order,
                final(self)@.play_mode,
            ),
    {
        proof {
            reveal(queue_fits);
        }
        let (perm, pos) = play_order(self.queue.len(), self.idx, self.play_mode, seed);
        let order = playback_order(self.queue.as_slice(), self.play_mode, perm.as_slice());
        self.perm = perm;
        self.perm_pos = pos;
        self.order = order;
    }

    fn set_length(&mut self, i: usize, duration_ns: Option<u64>)
        requires
            i < old(self)@.queue.len(),
            fits(old(self)@),
        ensures
            final(self)@ == lengthened(old(self)@, i, duration_ns),
            fits(final(self)@),
            final(self)@.queue.len() == old(self)@.queue.len(),
    {
        proof {
            reveal(queue_fits);
        }
        if let Some(d) = duration_ns {
            let mut q = self.queue[i].clone();
            q.duration_ns = d;
            let mut it = self.items[i].clone();
            it.duration_ns = d;
            self.queue.set(i, q);
            self.items.set(i, it);
            proof {
                assert(self@.items =~= self@.queue.map_values(|q: QueueTrack| item_of(q)));
                assert(self@.order =~= order_of(self@.queue, self@.play_mode, self@.perm));
            }
        }
    }

    /// Moves on to the next entry of the order of play.
    fn pick_next(&mut self, manual: bool) -> (r: Option<usize>)
        requires
            fits(old(self)@),
        ensures
            ({
                let n = next_of(
                    old(self)@.queue.len(),
                    old(self)@.idx,
                    old(self)@.play_mode,
                    old(self)@.perm,
                    old(self)@.perm_pos,
                    manual,
                );
                r == n.0 && final(self)@ == (EngineView { perm_pos: n.1, ..old(self)@ })
            }),
            fits(final(self)@),
            r matches Some(n) ==> n < final(self)@.queue.len(),
    {
        proof {
            reveal(queue_fits);
        }
        let (next, perm_pos) = next_index(
            self.queue.len(),
            self.idx,
            self.play_mode,
            self.perm.as_slice(),
            self.perm_pos,
            manual,
        );
        self.perm_pos = perm_pos;
        next
    }

    fn pause_inner(&mut self, out: &mut Vec<Effect>)
        requires
            fits(old(self)@),
        ensures
            final(self).step(final(out)@) == paused(old(self).step(old(out)@)),
            fits(final(self)@),
    {
        self.status = PlayerStatus::Paused;
        out.push(Effect::Pause);
    }

    fn resume_inner(&mut self, out: &mut Vec<Effect>)
        ensures
            final(self).step(final(out)@) == resumed(old(self).step(old(out)@)),
    {
        if self.core.sink_is_some() {
            self.status = PlayerStatus::Playing;
            out.push(Effect::Play);
        }
    }

    /// Starts to wait for an output, to go on from the given position.
    pub fn enter_device_wait(&mut self, resume_at: u64, out: &mut Vec<Effect>)
        ensures
            final(self).step(final(out)@) == waiting(old(self).step(old(out)@), resume_at),
            fits(old(self)@) ==> fits(final(self)@),
            final(self)@.queue.len() == old(self)@.queue.len(),
            final(self)@.idx == old(self)@.idx,
            final(self)@.task == old(self)@.task,
            final(self)@.status == old(self)@.status,
            final(self)@.loaded == old(self)@.loaded,
    {
        proof {
            reveal(waiting);
        }
        self.resume_at = resume_at;
        self.device_lost = true;
        self.device_retry = 0;
        self.wait_ticks = 0;
        self.pending = None;
        self.pos_base = 0;
        self.core.reset_device();
        out.push(Effect::ResetDevice);
    }

    fn open_entry(&mut self, i: usize, task: Task, out: &mut Vec<Effect>)
        requires
            i < old(self)@.queue.len(),
        ensures
            final(self).step(final(out)@) == opening(old(self).step(old(out)@), i, task),
    {
        let item = self.queue[i].clone();
        let path = item.path.clone();
        self.idx = Some(i);
        self.loaded = Some(item);
        self.seek_offset = 0;
        self.suppress_end = true;
        self.pending = None;
        self.pos_base = 0;
        self.last_pos = 0;
        self.stalled_ticks = 0;
        self.task = task;
        out.push(Effect::OpenDecoder { path });
    }

    /// Starts to play an entry.
    fn load_and_play(&mut self, i: usize, after: After, out: &mut Vec<Effect>)
        requires
            fits(old(self)@),
            i < old(self)@.queue.len(),
        ensures
            final(self).step(final(out)@) == load(old(self).step(old(out)@), i, after),
            well_formed(final(self)@),
    {
        proof {
            reveal(load);
        }
        self.first_failure = None;
        self.skip_count = 0;
        let budget: usize = self.queue.len();
        self.open_entry(i, Task::LoadDecoder { index: i, budget, after }, out);
    }

    fn emit_skip_report(&mut self, out: &mut Vec<Effect>)
        ensures
            final(self).step(final(out)@) == reported(old(self).step(old(out)@)),
            final(self)@ == old(self)@,
    {
        proof {
            reveal(reported);
        }
        if self.skip_count == 0 {
            return;
        }
        if let Some(f) = &self.first_failure {
            let code = f.code.clone();
            let notice = if self.skip_count == 1 {
                Notice::Track { code, message: f.message.clone() }
            } else {
                Notice::Skipped { code, count: self.skip_count }
            };
            out.push(Effect::Error { notice, track_id: Some(f.track_id) });
        }
    }

    fn finish_seek(&mut self, after: AfterSeek, out: &mut Vec<Effect>)
        requires
            fits(old(self)@),
        ensures
            final(self).step(final(out)@) == sought(old(self).step(old(out)@), after),
            well_formed(final(self)@),
    {
        proof {
            reveal(sought);
        }
        match after {
            AfterSeek::Sync => {
                out.push(Effect::SyncState);
            },
            AfterSeek::Remigrate { was_playing } => {
                if !was_playing {
                    self.pause_inner(out);
                }
                out.push(Effect::SyncState);
            },
            AfterSeek::Recover { at } => {
                if self.status == PlayerStatus::Playing {
                    out.push(Effect::SyncState);
                } else {
                    self.resume_at = at;
                }
            },
        }
        self.task = Task::Idle;
    }

    fn seek_to(&mut self, pos: u64, after: AfterSeek, out: &mut Vec<Effect>)
        requires
            fits(old(self)@),
        ensures
            final(self).step(final(out)@) == seek(old(self).step(old(out)@), pos, after),
            well_formed(final(self)@),
    {
        proof {
            reveal(seek);
        }
        if let Some(p) = self.pending {
            self.pending = Some(Pending { idx: p.idx, pos_at_prefetch: pos, last_pos: pos });
        }
        let path = match &self.loaded {
            Some(item) => item.path.clone(),
            None => {
                self.finish_seek(after, out);
                return;
            },
        };
        let i: usize = match self.idx {
            Some(i) => i,
            None => 0,
        };
        let dur: u64 = if i < self.queue.len() {
            self.queue[i].duration_ns
        } else {
            0
        };
        let target_ns: u64 = if dur > 0 && pos > dur {
            dur
        } else {
            pos
        };
        self.seek_offset = target_ns;
        let was_paused = self.status == PlayerStatus::Paused;
        self.task = Task::SeekInline { target_ns, was_paused, after };
        out.push(Effect::SeekInline { path, target_ns });
    }

    fn finish_load(&mut self, after: After, out: &mut Vec<Effect>)
        requires
            fits(old(self)@),
        ensures
            final(self).step(final(out)@) == settled(old(self).step(old(out)@), after),
            well_formed(final(self)@),
    {
        proof {
            reveal(settled);
        }
        match after {
            After::Sync => {
                out.push(Effect::SyncState);
                self.task = Task::Idle;
            },
            After::Hold { was_playing } => {
                if !was_playing {
                    self.pause_inner(out);
                }
                out.push(Effect::SyncState);
                self.task = Task::Idle;
            },
            After::Remigrate { at, was_playing } => {
                if self.status == PlayerStatus::Playing {
                    if at > RESUME_MARGIN_NS {
                        self.seek_to(at, AfterSeek::Remigrate { was_playing }, out);
                    } else {
                        self.finish_seek(AfterSeek::Remigrate { was_playing }, out);
                    }
                } else {
                    self.enter_device_wait(at, out);
                    self.status = PlayerStatus::Paused;
                    out.push(Effect::SyncState);
                    self.task = Task::Idle;
                }
            },
            After::Recover { at } => {
                if self.status != PlayerStatus::Playing {
                    self.resume_at = at;
                    self.task = Task::Idle;
                } else if at > RESUME_MARGIN_NS {
                    self.seek_to(at, AfterSeek::Recover { at }, out);
                } else {
                    self.finish_seek(AfterSeek::Recover { at }, out);
                }
            },
        }
    }

    fn give_up(&mut self, after: After, out: &mut Vec<Effect>)
        requires
            fits(old(self)@),
        ensures
            final(self).step(final(out)@) == exhausted(old(self).step(old(out)@), after),
            well_formed(final(self)@),
    {
        proof {
            reveal(exhausted);
        }
        self.loaded = None;
        self.suppress_end = false;
        self.status = PlayerStatus::Paused;
        self.emit_skip_report(out);
        self.finish_load(after, out);
    }

    /// Answers `OpenDecoder`: the decoder is open. `player_ns` is the clock of the player.
    pub fn decoder_opened(
        &mut self,
        rate: u32,
        duration_ns: Option<u64>,
        player_ns: u64,
        out: &mut Vec<Effect>,
    )
        requires
            well_formed(old(self)@),
        ensures
            final(self).step(final(out)@) == on_decoder(
                old(self).step(old(out)@),
                rate,
                duration_ns,
                player_ns,
            ),
            well_formed(final(self)@),
    {
        match self.task {
            Task::LoadDecoder { index, budget, after } => {
                self.task = Task::LoadPlayer { index, budget, after, duration_ns };
                out.push(Effect::NewPlayer { rate });
            },
            Task::PausedDecoder { index } => {
                self.task = Task::PausedPlayer { index, duration_ns };
                out.push(Effect::NewPlayer { rate });
            },
            Task::Prefetch { index, perm_pos } => {
                self.set_length(index, duration_ns);
                let at: u64 = self.position_ns(player_ns);
                self.perm_pos = perm_pos;
                out.push(Effect::Append);
                self.pending = Some(Pending { idx: index, pos_at_prefetch: at, last_pos: at });
                self.task = Task::Idle;
            },
            _ => {},
        }
    }

    /// Answers `OpenDecoder` or `SeekDecoder`: there is no decoder.
    pub fn decoder_failed(&mut self, code: String, message: String, out: &mut Vec<Effect>)
        requires
            well_formed(old(self)@),
        ensures
            final(self).step(final(out)@) == on_decoder_failure(
                old(self).step(old(out)@),
                code,
                message,
            ),
            well_formed(final(self)@),
    {
        match self.task {
            Task::LoadDecoder { index, budget, after } => {
                let len: usize = self.queue.len();
                proof {
                    assert(self.skip_count < len);
                }
                let track_id: i64 = self.queue[index].track_id;
                self.loaded = None;
                self.suppress_end = false;
                if self.skip_count == 0 {
                    self.first_failure = Some(TrackFailure { code, message, track_id });
                }
                self.skip_count = self.skip_count + 1;
                if budget == 1 {
                    self.give_up(after, out);
                    return;
                }
                let next = self.pick_next(false);
                match next {
                    Some(n) => {
                        if n != index {
                            self.open_entry(
                                n,
                                Task::LoadDecoder { index: n, budget: budget - 1, after },
                                out,
                            );
                        } else {
                            self.give_up(after, out);
                        }
                    },
                    None => {
                        self.give_up(after, out);
                    },
                }
            },
            Task::PausedDecoder { index } => {
                let track_id: i64 = self.queue[index].track_id;
                self.status = PlayerStatus::Paused;
                self.loaded = None;
                out.push(
                    Effect::Error {
                        notice: Notice::Track { code, message },
                        track_id: Some(track_id),
                    },
                );
                out.push(Effect::SyncState);
                self.task = Task::Idle;
            },
            Task::SeekDecoder { was_paused: _, after } => {
                let track_id = match &self.loaded {
                    Some(t) => Some(t.track_id),
                    None => None,
                };
                self.core.clear_player();
                self.status = PlayerStatus::Paused;
                self.suppress_end = false;
                out.push(Effect::ClearPlayer);
                out.push(Effect::Error { notice: Notice::Track { code, message }, track_id });
                self.finish_seek(after, out);
            },
            Task::Prefetch { .. } => {
                self.task = Task::Idle;
            },
            _ => {},
        }
    }

    /// Answers `NewPlayer`.
    pub fn player_made(&mut self, ok: bool, out: &mut Vec<Effect>)
        requires
            well_formed(old(self)@),
        ensures
            final(self).step(final(out)@) == on_player(old(self).step(old(out)@), ok),
            well_formed(final(self)@),
    {
        match self.task {
            Task::LoadPlayer { index, budget: _, after, duration_ns } => {
                if ok {
                    self.set_length(index, duration_ns);
                    out.push(Effect::Append);
                    self.status = PlayerStatus::Playing;
                    self.suppress_end = false;
                    self.emit_skip_report(out);
                    self.finish_load(after, out);
                } else {
                    let track_id = match &self.loaded {
                        Some(t) => Some(t.track_id),
                        None => None,
                    };
                    let first = !self.device_lost;
                    self.status = PlayerStatus::Paused;
                    self.loaded = None;
                    self.suppress_end = false;
                    self.emit_skip_report(out);
                    self.enter_device_wait(0, out);
                    if first {
                        out.push(Effect::Error { notice: Notice::DeviceUnavailable, track_id });
                    }
                    self.finish_load(after, out);
                }
            },
            Task::PausedPlayer { index, duration_ns } => {
                if ok {
                    self.set_length(index, duration_ns);
                    out.push(Effect::Pause);
                    out.push(Effect::Append);
                    self.status = PlayerStatus::Paused;
                } else {
                    let track_id = match &self.loaded {
                        Some(t) => Some(t.track_id),
                        None => None,
                    };
                    self.status = PlayerStatus::Paused;
                    out.push(Effect::Error { notice: Notice::OutputFailed, track_id });
                }
                out.push(Effect::SyncState);
                self.task = Task::Idle;
            },
            Task::SeekPlayer { was_paused, after } => {
                if ok {
                    out.push(Effect::Append);
                    if was_paused {
                        self.pause_inner(out);
                    } else {
                        self.status = PlayerStatus::Playing;
                    }
                } else {
                    self.status = PlayerStatus::Paused;
                }
                self.suppress_end = false;
                self.finish_seek(after, out);
            },
            _ => {},
        }
    }

    /// Answers `SeekInline`.
    pub fn inline_sought(&mut self, ok: bool, out: &mut Vec<Effect>)
        requires
            well_formed(old(self)@),
        ensures
            final(self).step(final(out)@) == on_inline_seek(old(self).step(old(out)@), ok),
            well_formed(final(self)@),
    {
        if let Task::SeekInline { target_ns, was_paused, after } = self.task {
            if ok {
                self.seek_offset = 0;
                self.suppress_end = false;
                self.finish_seek(after, out);
            } else {
                let path = match &self.loaded {
                    Some(t) => t.path.clone(),
                    None => {
                        proof {
                            assert(false);
                        }
                        return;
                    },
                };
                self.suppress_end = true;
                self.core.stop_player();
                self.task = Task::SeekDecoder { was_paused, after };
                out.push(Effect::StopPlayer);
                out.push(Effect::SeekDecoder { path, target_ns });
            }
        }
    }

    /// Answers `SeekDecoder`: the decoder is open and stands at `actual_ns`.
    pub fn decoder_sought(&mut self, rate: u32, actual_ns: u64, out: &mut Vec<Effect>)
        requires
            well_formed(old(self)@),
        ensures
            final(self).step(final(out)@) == on_sought_decoder(
                old(self).step(old(out)@),
                rate,
                actual_ns,
            ),
            well_formed(final(self)@),
    {
        if let Task::SeekDecoder { was_paused, after } = self.task {
            self.seek_offset = actual_ns;
            self.task = Task::SeekPlayer { was_paused, after };
            out.push(Effect::NewPlayer { rate });
        }
    }

    fn advance(&mut self, manual: bool, out: &mut Vec<Effect>)
        requires
            well_formed(old(self)@),
            old(self)@.task == Task::Idle,
        ensures
            final(self).step(final(out)@) == advanced(old(self).step(old(out)@), manual),
            well_formed(final(self)@),
    {
        proof {
            reveal(advanced);
        }
        if self.queue.len() == 0 {
            out.push(Effect::SyncState);
            return;
        }
        let next = self.pick_next(manual);
        match next {
            Some(n) => {
                let was_playing = self.status == PlayerStatus::Playing;
                self.status = PlayerStatus::Paused;
                self.load_and_play(n, After::Hold { was_playing }, out);
            },
            None => {
                self.status = PlayerStatus::Stopped;
                self.suppress_end = true;
                self.core.clear_player();
                self.loaded = None;
                out.push(Effect::ClearPlayer);
                out.push(Effect::SyncState);
            },
        }
    }

    /// Moves back to the previous entry of the order of play.
    fn pick_previous(&mut self, player_ns: u64) -> (r: usize)
        requires
            fits(old(self)@),
            old(self)@.queue.len() > 0,
        ensures
            ({
                let step = previous_of(
                    old(self)@.queue.len(),
                    match old(self)@.idx {
                        Some(i) => i,
                        None => 0,
                    },
                    capped_sum(player_ns, old(self)@.seek_offset),
                    old(self)@.restart_on_previous,
                    old(self)@.play_mode,
                    old(self)@.perm,
                    old(self)@.perm_pos,
                );
                r == step.index && final(self)@ == (EngineView {
                    perm_pos: step.perm_pos,
                    ..old(self)@
                })
            }),
            fits(final(self)@),
            r < final(self)@.queue.len(),
    {
        proof {
            reveal(queue_fits);
        }
        let current: usize = match self.idx {
            Some(i) => i,
            None => 0,
        };
        let step = previous_step(
            PreviousInput {
                len: self.queue.len(),
                current,
                pos_ns: player_ns.saturating_add(self.seek_offset),
                restart_on_previous: self.restart_on_previous,
                play_mode: self.play_mode,
                perm: self.perm.as_slice(),
                perm_pos: self.perm_pos,
            },
        );
        self.perm_pos = step.perm_pos;
        step.index
    }

    fn go_previous(&mut self, player_ns: u64, out: &mut Vec<Effect>)
        requires
            well_formed(old(self)@),
            old(self)@.task == Task::Idle,
        ensures
            final(self).step(final(out)@) == stepped_back(old(self).step(old(out)@), player_ns),
            well_formed(final(self)@),
    {
        proof {
            reveal(stepped_back);
        }
        if self.queue.len() == 0 {
            out.push(Effect::SyncState);
            return;
        }
        let was_playing = self.status == PlayerStatus::Playing;
        let index: usize = self.pick_previous(player_ns);
        self.status = PlayerStatus::Paused;
        self.load_and_play(index, After::Hold { was_playing }, out);
    }

    fn remigrate_output(&mut self, player_ns: u64, out: &mut Vec<Effect>)
        requires
            well_formed(old(self)@),
            old(self)@.task == Task::Idle,
        ensures
            final(self).step(final(out)@) == remigrated(old(self).step(old(out)@), player_ns),
            well_formed(final(self)@),
    {
        proof {
            reveal(remigrated);
        }
        let at: u64 = self.position_ns(player_ns);
        let was_playing = self.status == PlayerStatus::Playing;
        self.core.reset_device();
        out.push(Effect::ResetDevice);
        if let Some(i) = self.idx {
            self.status = PlayerStatus::Paused;
            self.load_and_play(i, After::Remigrate { at, was_playing }, out);
        }
    }

    fn set_queue(
        &mut self,
        items: Vec<QueueTrack>,
        start: usize,
        autoplay: bool,
        seed: u64,
        out: &mut Vec<Effect>,
    )
        requires
            well_formed(old(self)@),
            old(self)@.task == Task::Idle,
        ensures
            final(self).step(final(out)@) == queue_set(
                old(self).step(old(out)@),
                items@,
                start,
                autoplay,
                seed,
            ),
            well_formed(final(self)@),
    {
        proof {
            reveal(queue_set);
        }
        let len: usize = items.len();
        self.items = to_items(items.as_slice());
        self.queue = items;
        self.idx = if len == 0 {
            None
        } else if start >= len {
            Some(len - 1)
        } else {
            Some(start)
        };
        self.pending = None;
        self.pos_base = 0;
        self.status = PlayerStatus::Paused;
        self.rebuild_perm(seed);
        if autoplay {
            if let Some(i) = self.idx {
                self.load_and_play(i, After::Sync, out);
                return;
            }
            self.status = PlayerStatus::Stopped;
            self.core.clear_player();
        } else {
            self.core.clear_player();
            self.loaded = None;
        }
        out.push(Effect::ClearPlayer);
        out.push(Effect::SyncState);
    }

    fn toggle(&mut self, out: &mut Vec<Effect>)
        requires
            well_formed(old(self)@),
            old(self)@.task == Task::Idle,
        ensures
            final(self).step(final(out)@) == toggled(old(self).step(old(out)@)),
            well_formed(final(self)@),
    {
        proof {
            reveal(toggled);
        }
        match self.status {
            PlayerStatus::Playing => {
                self.pause_inner(out);
                out.push(Effect::SyncState);
            },
            PlayerStatus::Paused => {
                if self.loaded.is_some() {
                    self.resume_inner(out);
                    out.push(Effect::SyncState);
                } else if let Some(i) = self.idx {
                    self.load_and_play(i, After::Sync, out);
                } else {
                    out.push(Effect::SyncState);
                }
            },
            PlayerStatus::Stopped => {
                if let Some(i) = self.idx {
                    self.status = PlayerStatus::Paused;
                    self.load_and_play(i, After::Sync, out);
                }
            },
        }
    }

    fn stop(&mut self, out: &mut Vec<Effect>)
        requires
            well_formed(old(self)@),
            old(self)@.task == Task::Idle,
        ensures
            final(self).step(final(out)@) == stopped(old(self).step(old(out)@)),
            well_formed(final(self)@),
    {
        proof {
            reveal(stopped);
        }
        let was_stopped = self.status == PlayerStatus::Stopped;
        self.device_lost = false;
        self.status = PlayerStatus::Stopped;
        self.suppress_end = true;
        self.core.clear_player();
        self.loaded = None;
        self.pending = None;
        self.pos_base = 0;
        out.push(Effect::ClearPlayer);
        if !was_stopped {
            out.push(Effect::SyncState);
        }
    }

    fn set_volume(&mut self, volume: u8, out: &mut Vec<Effect>)
        requires
            well_formed(old(self)@),
            old(self)@.task == Task::Idle,
        ensures
            final(self).step(final(out)@) == volume_set(old(self).step(old(out)@), volume),
            well_formed(final(self)@),
    {
        proof {
            reveal(volume_set);
        }
        let v: u8 = if volume > 100 {
            100
        } else {
            volume
        };
        self.volume = v;
        self.core.set_volume(v);
        out.push(Effect::SetVolume { volume: v });
        out.push(Effect::SyncState);
    }

    fn set_play_mode(&mut self, mode: PlayMode, seed: u64)
        requires
            well_formed(old(self)@),
            old(self)@.task == Task::Idle,
        ensures
            final(self)@ == reordered(EngineView { play_mode: mode, ..old(self)@ }, seed),
            well_formed(final(self)@),
    {
        proof {
            assert(self@.items == self@.queue.map_values(|q: QueueTrack| item_of(q))) by {
                reveal(queue_fits);
            }
        }
        self.play_mode = mode;
        self.rebuild_perm(seed);
    }

    /// Carries out a command. The seed serves a shuffle; `player_ns` is the clock of the player.
    #[verifier::rlimit(40)]
    pub fn handle_command(
        &mut self,
        cmd: EngineCommand,
        seed: u64,
        player_ns: u64,
        out: &mut Vec<Effect>,
    )
        requires
            well_formed(old(self)@),
            old(self)@.task == Task::Idle,
        ensures
            final(self).step(final(out)@) == commanded(
                old(self).step(old(out)@),
                cmd,
                seed,
                player_ns,
            ),
            well_formed(final(self)@),
    {
        if self.device_lost {
            self.device_retry = DEVICE_RETRY_TICKS;
        }
        match cmd {
            EngineCommand::SetQueue { items, start, autoplay } => {
                self.set_queue(items, start, autoplay, seed, out);
            },
            EngineCommand::LoadPaused { index } => {
                if index < self.queue.len() {
                    self.open_entry(index, Task::PausedDecoder { index }, out);
                } else {
                    out.push(Effect::SyncState);
                }
            },
            EngineCommand::Toggle => {
                self.toggle(out);
            },
            EngineCommand::Pause => {
                if self.status == PlayerStatus::Playing {
                    self.pause_inner(out);
                    out.push(Effect::SyncState);
                }
            },
            EngineCommand::Resume => {
                if self.status == PlayerStatus::Paused && self.loaded.is_some() {
                    self.resume_inner(out);
                    out.push(Effect::SyncState);
                }
            },
            EngineCommand::Stop => {
                self.stop(out);
            },
            EngineCommand::Next => {
                self.advance(true, out);
            },
            EngineCommand::Previous => {
                self.go_previous(player_ns, out);
            },
            EngineCommand::Seek { position_ns } => {
                if self.loaded.is_some() {
                    self.seek_to(position_ns, AfterSeek::Sync, out);
                }
            },
            EngineCommand::SetVolume { volume } => {
                self.set_volume(volume, out);
            },
            EngineCommand::SetPlayMode { mode } => {
                self.set_play_mode(mode, seed);
                out.push(Effect::SyncState);
            },
            EngineCommand::SetPreviousRestart { enabled } => {
                self.restart_on_previous = enabled;
            },
            EngineCommand::SetOutputDevice { id } => {
                if self.core.set_preferred(id) {
                    self.remigrate_output(player_ns, out);
                }
            },
            EngineCommand::SetOutputMode { mode } => {
                if self.core.set_mode(mode) {
                    self.remigrate_output(player_ns, out);
                }
            },
            EngineCommand::RetryOutput => {
                self.core.forget_fallback();
                self.remigrate_output(player_ns, out);
            },
            EngineCommand::Shutdown => {},
        }
    }

    fn enter_device_lost(&mut self, player_ns: u64, out: &mut Vec<Effect>)
        requires
            well_formed(old(self)@),
            old(self)@.task == Task::Idle,
        ensures
            final(self).step(final(out)@) == output_lost(old(self).step(old(out)@), player_ns),
            well_formed(final(self)@),
            final(self)@.task == Task::Idle,
    {
        let track_id: i64 = match &self.loaded {
            Some(t) => t.track_id,
            None => {
                self.core.reset_device();
                out.push(Effect::ResetDevice);
                return;
            },
        };
        let at: u64 = self.position_ns(player_ns);
        self.enter_device_wait(at, out);
        self.status = PlayerStatus::Paused;
        out.push(Effect::SyncState);
        out.push(Effect::Error { notice: Notice::DeviceLost, track_id: Some(track_id) });
    }

    fn reopen(&mut self, id: Option<String>, out: &mut Vec<Effect>)
        ensures
            final(self).step(final(out)@) == reopening(old(self).step(old(out)@), id),
    {
        self.core.reset_device();
        self.task = Task::RecoverOpen;
        out.push(Effect::ResetDevice);
        out.push(Effect::EnsureOutput { id });
    }

    fn wanted(&self) -> (r: Option<String>)
        ensures
            r == wanted_device(self@.core),
    {
        match &self.core.preferred {
            Some(id) => Some(id.clone()),
            None => opt_clone(&self.core.endpoint_id),
        }
    }

    fn decide_recovery(&mut self, active: Option<bool>, out: &mut Vec<Effect>)
        requires
            well_formed(old(self)@),
            old(self)@.idx is Some,
        ensures
            final(self).step(final(out)@) == on_endpoint(old(self).step(old(out)@), active),
            well_formed(final(self)@),
    {
        let wanted = self.wanted();
        let allow_fallback = self.core.preferred.is_none();
        match choose_recover_target(wanted, active, self.wait_ticks, allow_fallback) {
            RecoverTarget::Original(id) => {
                self.reopen(Some(id), out);
            },
            RecoverTarget::FollowDefault => {
                self.task = Task::RecoverDefault;
                out.push(Effect::ProbeDefault);
            },
            RecoverTarget::KeepWaiting => {
                self.task = Task::Idle;
            },
        }
    }

    /// Answers `QueryEndpoint`: whether the device is active, if that could be found out.
    pub fn endpoint_known(&mut self, active: Option<bool>, out: &mut Vec<Effect>)
        requires
            well_formed(old(self)@),
        ensures
            final(self).step(final(out)@) == if old(self)@.task == Task::RecoverQuery {
                on_endpoint(old(self).step(old(out)@), active)
            } else {
                old(self).step(old(out)@)
            },
            well_formed(final(self)@),
    {
        if let Task::RecoverQuery = self.task {
            self.decide_recovery(active, out);
        }
    }

    /// Answers `ProbeDefault`.
    pub fn default_known(&mut self, found: DefaultOutput, out: &mut Vec<Effect>)
        requires
            well_formed(old(self)@),
        ensures
            final(self).step(final(out)@) == if old(self)@.task == Task::RecoverDefault {
                on_default(old(self).step(old(out)@), found)
            } else {
                old(self).step(old(out)@)
            },
            well_formed(final(self)@),
    {
        if let Task::RecoverDefault = self.task {
            let usable = match found {
                DefaultOutput::Found { active, state: _ } => active,
                DefaultOutput::Missing => false,
                DefaultOutput::Unknown => true,
            };
            if usable {
                self.reopen(None, out);
            } else {
                self.task = Task::Idle;
            }
        }
    }

    /// Answers `EnsureOutput`.
    pub fn output_opened(&mut self, ok: bool, out: &mut Vec<Effect>)
        requires
            well_formed(old(self)@),
        ensures
            final(self).step(final(out)@) == if old(self)@.task == Task::RecoverOpen {
                on_output(old(self).step(old(out)@), ok)
            } else {
                old(self).step(old(out)@)
            },
            well_formed(final(self)@),
    {
        if let Task::RecoverOpen = self.task {
            if !ok {
                self.task = Task::Idle;
                return;
            }
            if let Some(i) = self.idx {
                let at: u64 = self.resume_at;
                self.device_lost = false;
                self.status = PlayerStatus::Paused;
                self.load_and_play(i, After::Recover { at }, out);
            }
        }
    }

    fn try_recover_device(&mut self, out: &mut Vec<Effect>)
        requires
            well_formed(old(self)@),
            old(self)@.task == Task::Idle,
        ensures
            final(self).step(final(out)@) == recovering(old(self).step(old(out)@)),
            well_formed(final(self)@),
    {
        self.wait_ticks = self.wait_ticks.saturating_add(1);
        self.device_retry = self.device_retry + 1;
        if self.device_retry < DEVICE_RETRY_TICKS {
            return;
        }
        self.device_retry = 0;
        if self.idx.is_none() {
            self.device_lost = false;
            return;
        }
        match self.wanted() {
            Some(id) => {
                self.task = Task::RecoverQuery;
                out.push(Effect::QueryEndpoint { id });
            },
            None => {
                self.decide_recovery(None, out);
            },
        }
    }

    /// The first part of a tick.
    pub fn tick_begin(&mut self, player_ns: u64, out: &mut Vec<Effect>)
        requires
            well_formed(old(self)@),
            old(self)@.task == Task::Idle,
        ensures
            final(self).step(final(out)@) == ticked(old(self).step(old(out)@), player_ns),
            well_formed(final(self)@),
    {
        if self.status != PlayerStatus::Playing {
            out.push(Effect::BeatReset);
        }
        self.tick = if self.tick == 0xffff_ffff_ffff_ffff {
            0
        } else {
            self.tick + 1
        };
        let failed = self.core.take_device_error();
        if failed && !self.device_lost {
            self.enter_device_lost(player_ns, out);
        }
        if self.device_lost {
            self.try_recover_device(out);
        }
    }

    /// The entry to open ahead; a shuffle moves on to it.
    pub fn prefetch_target(&mut self) -> (r: Option<usize>)
        requires
            well_formed(old(self)@),
        ensures
            r == prefetch_of(old(self)@).0,
            final(self)@ == (EngineView { perm_pos: prefetch_of(old(self)@).1, ..old(self)@ }),
            well_formed(final(self)@),
            r matches Some(n) ==> n < final(self)@.queue.len(),
    {
        match self.play_mode {
            PlayMode::LoopOne => self.idx,
            _ => {
                self.pick_next(false)
            },
        }
    }

    /// The second part of a tick: near the end of a track the next one is opened.
    pub fn tick_prefetch(&mut self, player_ns: u64, out: &mut Vec<Effect>)
        requires
            well_formed(old(self)@),
            old(self)@.task == Task::Idle,
        ensures
            final(self).step(final(out)@) == prefetching(old(self).step(old(out)@), player_ns),
            well_formed(final(self)@),
    {
        if self.pending.is_some() || self.queue.len() == 0 || self.status != PlayerStatus::Playing {
            return;
        }
        let i: usize = match self.idx {
            Some(i) => i,
            None => {
                return;
            },
        };
        let dur: u64 = self.queue[i].duration_ns;
        if dur == 0 {
            return;
        }
        let pos: u64 = self.position_ns(player_ns);
        if dur as u128 > pos as u128 + PREFETCH_LEAD_NS as u128 {
            return;
        }
        let place: usize = self.perm_pos;
        let next = self.prefetch_target();
        let perm_pos: usize = self.perm_pos;
        self.perm_pos = place;
        if let Some(n) = next {
            let path = self.queue[n].path.clone();
            self.task = Task::Prefetch { index: n, perm_pos };
            out.push(Effect::OpenDecoder { path });
        }
    }

    fn switch_to_prefetched(&mut self, idx: usize, player_ns: u64, out: &mut Vec<Effect>)
        requires
            well_formed(old(self)@),
            old(self)@.task == Task::Idle,
            idx < old(self)@.queue.len(),
        ensures
            final(self).step(final(out)@) == switched(old(self).step(old(out)@), idx, player_ns),
            well_formed(final(self)@),
    {
        let before: u64 = match self.idx {
            Some(i) => self.queue[i].duration_ns,
            None => 0,
        };
        self.pending = None;
        self.pos_base = if before > 0 && 2 * player_ns as u128 > before as u128 {
            before
        } else {
            0
        };
        self.seek_offset = 0;
        self.idx = Some(idx);
        self.loaded = Some(self.queue[idx].clone());
        self.suppress_end = false;
        out.push(Effect::SyncState);
        out.push(Effect::StateEvent);
        out.push(Effect::ProgressEvent);
    }

    fn on_natural_end(&mut self, out: &mut Vec<Effect>)
        requires
            well_formed(old(self)@),
            old(self)@.task == Task::Idle,
        ensures
            final(self).step(final(out)@) == ended(old(self).step(old(out)@)),
            well_formed(final(self)@),
    {
        if self.play_mode == PlayMode::LoopOne {
            if let Some(i) = self.idx {
                let was_playing = self.status == PlayerStatus::Playing;
                self.status = PlayerStatus::Paused;
                self.load_and_play(i, After::Hold { was_playing }, out);
            }
        } else {
            self.advance(false, out);
        }
    }

    fn watchdog_device(&mut self, player_ns: u64, out: &mut Vec<Effect>)
        requires
            well_formed(old(self)@),
            old(self)@.task == Task::Idle,
        ensures
            final(self).step(final(out)@) == watched(old(self).step(old(out)@), player_ns),
            well_formed(final(self)@),
    {
        let pos: u64 = self.position_ns(player_ns);
        let last: u64 = self.last_pos;
        self.last_pos = pos;
        if self.status != PlayerStatus::Playing || !self.core.sink_is_some() || self.suppress_end {
            self.stalled_ticks = 0;
            return;
        }
        if pos as u128 > last as u128 + STALL_MARGIN_NS as u128 || last as u128 > pos as u128
            + STALL_MARGIN_NS as u128 {
            self.stalled_ticks = 0;
            return;
        }
        if self.stalled_ticks + 1 < STALL_TICKS {
            self.stalled_ticks = self.stalled_ticks + 1;
            return;
        }
        self.stalled_ticks = 0;
        self.enter_device_lost(player_ns, out);
    }

    fn publish_progress(&mut self, out: &mut Vec<Effect>)
        ensures
            final(self).step(final(out)@) == progressed(old(self).step(old(out)@)),
    {
        if self.status == PlayerStatus::Playing && self.tick % PROGRESS_TICKS == 0 {
            out.push(Effect::ProgressEvent);
            out.push(Effect::RefreshPosition);
        }
    }

    /// The last part of a tick. `player_empty` says whether the player has nothing left to play.
    pub fn tick_end(&mut self, player_ns: u64, player_empty: bool, out: &mut Vec<Effect>)
        requires
            well_formed(old(self)@),
            old(self)@.task == Task::Idle,
        ensures
            final(self).step(final(out)@) == tick_over(
                old(self).step(old(out)@),
                player_ns,
                player_empty,
            ),
            well_formed(final(self)@),
    {
        if self.status != PlayerStatus::Playing {
            return;
        }
        let pos: u64 = self.position_ns(player_ns);
        match self.pending {
            Some(p) => {
                let reach: u128 = pos as u128 + SWITCH_MARGIN_NS as u128;
                if reach < p.pos_at_prefetch as u128 || reach < p.last_pos as u128 {
                    self.switch_to_prefetched(p.idx, player_ns, out);
                } else {
                    self.pending = Some(
                        Pending {
                            idx: p.idx,
                            pos_at_prefetch: p.pos_at_prefetch,
                            last_pos: pos,
                        },
                    );
                    self.watchdog_device(player_ns, out);
                    self.publish_progress(out);
                }
            },
            None => {
                if !self.suppress_end && self.core.sink_is_some() && player_empty {
                    self.on_natural_end(out);
                } else {
                    self.watchdog_device(player_ns, out);
                    self.publish_progress(out);
                }
            },
        }
    }

    /// The current track with its position.
    pub fn current_item(&self, player_ns: u64) -> (r: Option<NowPlaying>)
        ensures
            r == now_playing(self@, player_ns),
    {
        let i: usize = match self.idx {
            Some(i) => i,
            None => {
                return None;
            },
        };
        if i >= self.queue.len() {
            return None;
        }
        let p: u64 = self.position_ns(player_ns);
        let d: u64 = self.queue[i].duration_ns;
        let position_ns: u64 = if d > 0 && p > d {
            d
        } else {
            p
        };
        let q = self.queue[i].clone();
        Some(
            NowPlaying {
                track_id: q.track_id,
                title: q.title,
                artist: q.artist,
                album: q.album,
                duration_ns: d,
                cover_key: None,
                position_ns,
            },
        )
    }

    fn shown_item(&self, player_ns: u64) -> (r: Option<NowPlaying>)
        ensures
            r == shown(self@, player_ns),
    {
        if self.status == PlayerStatus::Stopped {
            None
        } else {
            self.current_item(player_ns)
        }
    }

    /// The whole state for callers.
    pub fn snapshot(&self, player_ns: u64) -> (r: PlayerState)
        ensures
            is_snapshot(r, self@, player_ns),
    {
        let mut queue: Vec<QueueItem> = Vec::new();
        let mut k: usize = 0;
        while k < self.items.len()
            invariant
                k <= self.items@.len(),
                queue@ =~= self.items@.take(k as int),
            decreases self.items@.len() - k,
        {
            queue.push(self.items[k].clone());
            k = k + 1;
        }
        let mut order: Vec<i64> = Vec::new();
        let mut m: usize = 0;
        while m < self.order.len()
            invariant
                m <= self.order@.len(),
                order@ =~= self.order@.take(m as int),
            decreases self.order@.len() - m,
        {
            order.push(self.order[m]);
            m = m + 1;
        }
        proof {
            assert(self.items@.take(self.items@.len() as int) =~= self.items@);
            assert(self.order@.take(self.order@.len() as int) =~= self.order@);
        }
        PlayerState {
            status: self.status,
            play_mode: self.play_mode,
            volume: self.volume,
            queue,
            queue_index: if self.status == PlayerStatus::Stopped {
                None
            } else {
                self.idx
            },
            current: self.shown_item(player_ns),
            order,
        }
    }

    /// The state event for callers.
    pub fn state_event(&self, player_ns: u64) -> (r: PlayerStateEvent)
        ensures
            r == state_event_of(self@, player_ns),
    {
        PlayerStateEvent {
            status: self.status,
            play_mode: self.play_mode,
            volume: self.volume,
            queue_index: if self.status == PlayerStatus::Stopped {
                None
            } else {
                self.idx
            },
            queue_len: self.queue.len(),
            current: self.shown_item(player_ns),
        }
    }

    /// The progress event for callers.
    pub fn progress(&self, player_ns: u64) -> (r: Option<ProgressPayload>)
        ensures
            r == progress_of(self@, player_ns),
    {
        match self.current_item(player_ns) {
            Some(np) => Some(
                ProgressPayload {
                    track_id: np.track_id,
                    position_ns: np.position_ns,
                    duration_ns: np.duration_ns,
                },
            ),
            None => None,
        }
    }
}

/// Whether this is the whole state for callers.
pub open spec fn is_snapshot(r: PlayerState, e: EngineView, player_ns: u64) -> bool {
    &&& r.status == e.status
    &&& r.play_mode == e.play_mode
    &&& r.volume == e.volume
    &&& r.queue@ == e.items
    &&& r.queue_index == (if e.status == PlayerStatus::Stopped {
        None
    } else {
        e.idx
    })
    &&& r.current == shown(e, player_ns)
    &&& r.order@ == e.order
}

/// The code of a notice.
pub open spec fn notice_code(n: Notice) -> Seq<char> {
    match n {
        Notice::Track { code, .. } => code@,
        Notice::Skipped { code, .. } => code@,
        _ => E_AUDIO_DEVICE@,
    }
}

/// The text of a notice.
pub open spec fn notice_text(n: Notice) -> Seq<char> {
    match n {
        Notice::DeviceUnavailable => "音频输出设备不可用，接入设备后会自动开始播放"@,
        Notice::DeviceLost => "音频输出设备已断开（或已被其它程序占用），设备回来后会自动继续播放"@,
        Notice::OutputFailed => "无法打开音频输出设备（WASAPI）"@,
        Notice::Track { message, .. } => message@,
        Notice::Skipped { count, .. } => "已跳过 "@ + decimal_of(count as nat)
            + " 首无法播放的歌曲（文件损坏、格式不支持或已被移动）"@,
    }
}

/// The error event of a notice.
pub fn error_payload(notice: &Notice, track_id: Option<i64>) -> (r: PlayerErrorPayload)
    ensures
        r.code@ == notice_code(*notice),
        r.message@ == notice_text(*notice),
        r.track_id == track_id,
{
    match notice {
        Notice::DeviceUnavailable => PlayerErrorPayload {
            code: E_AUDIO_DEVICE.to_owned(),
            message: "音频输出设备不可用，接入设备后会自动开始播放".to_owned(),
            track_id,
        },
        Notice::DeviceLost => PlayerErrorPayload {
            code: E_AUDIO_DEVICE.to_owned(),
            message: "音频输出设备已断开（或已被其它程序占用），设备回来后会自动继续播放".to_owned(),
            track_id,
        },
        Notice::OutputFailed => PlayerErrorPayload {
            code: E_AUDIO_DEVICE.to_owned(),
            message: "无法打开音频输出设备（WASAPI）".to_owned(),
            track_id,
        },
        Notice::Track { code, message } => PlayerErrorPayload {
            code: code.clone(),
            message: message.clone(),
            track_id,
        },
        Notice::Skipped { code, count } => {
            let mut message = "已跳过 ".to_owned();
            push_decimal(&mut message, *count as u64);
            message.append(" 首无法播放的歌曲（文件损坏、格式不支持或已被移动）");
            PlayerErrorPayload { code: code.clone(), message, track_id }
        },
    }
}

/// A notice on the output is one on the device; a notice on tracks carries the code of the failure,
/// and where tracks were skipped their number.
pub proof fn law_notices(code: String, message: String, count: usize)
    ensures
        notice_code(Notice::DeviceUnavailable) == "AUDIO_DEVICE"@,
        notice_code(Notice::DeviceLost) == "AUDIO_DEVICE"@,
        notice_code(Notice::OutputFailed) == "AUDIO_DEVICE"@,
        notice_text(Notice::DeviceUnavailable) == "音频输出设备不可用，接入设备后会自动开始播放"@,
        notice_text(Notice::DeviceLost)
            == "音频输出设备已断开（或已被其它程序占用），设备回来后会自动继续播放"@,
        notice_text(Notice::OutputFailed) == "无法打开音频输出设备（WASAPI）"@,
        notice_code(Notice::Track { code, message }) == code@,
        notice_text(Notice::Track { code, message }) == message@,
        notice_code(Notice::Skipped { code, count }) == code@,
        notice_text(Notice::Skipped { code, count }) == "已跳过 "@ + decimal_of(count as nat)
            + " 首无法播放的歌曲（文件损坏、格式不支持或已被移动）"@,
{
}

} // verus!
