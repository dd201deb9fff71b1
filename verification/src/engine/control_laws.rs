//! What each command, tick and answer is for, stated over the player before and after.

use crate::engine::audio::DefaultOutput;
use crate::engine::backend::OutputMode;
use crate::engine::player::is_snapshot;
use crate::engine::queue::{is_permutation, law_order_visits_all};
use crate::engine::state::{
    advanced, capped_sum, commanded, ended, exhausted, item_of, length_at, lengthened, load, now_playing,
    on_decoder, on_decoder_failure, on_default, on_endpoint, on_inline_seek, on_output, on_player, on_sought_decoder,
    output_lost, position, prefetch_of, prefetching, progress_of, progressed, queue_fits, queue_set,
    recover_target, recovering, remigrated, reported, seek, settled, shown, sought, state_event_of,
    stepped_back, stopped, switched, tick_over, ticked, toggled, volume_set, waiting, wanted_device,
    watched, well_formed, After, AfterSeek, Effect, EngineCommand, EngineView, Notice, RecoverTarget,
    Step, Task,
};
use crate::models::{PlayMode, PlayerState, PlayerStatus, QueueTrack};
use crate::text::opt_view;
use vstd::prelude::*;

verus! {

/// Whether the queue and its order of play are the same.
pub open spec fn same_queue(a: EngineView, b: EngineView) -> bool {
    &&& a.queue == b.queue
    &&& a.items == b.items
    &&& a.order == b.order
    &&& a.perm == b.perm
    &&& a.play_mode == b.play_mode
}

/// Whether the same track is at the same place.
pub open spec fn same_place(a: EngineView, b: EngineView) -> bool {
    &&& a.idx == b.idx
    &&& a.loaded == b.loaded
    &&& a.perm_pos == b.perm_pos
    &&& a.seek_offset == b.seek_offset
    &&& a.pos_base == b.pos_base
    &&& a.pending == b.pending
}

/// Whether what the user has set is the same.
pub open spec fn same_settings(a: EngineView, b: EngineView) -> bool {
    &&& a.volume == b.volume
    &&& a.restart_on_previous == b.restart_on_previous
    &&& a.core.preferred == b.core.preferred
    &&& a.core.mode == b.core.mode
}

/// After a pause the player does not play. What played is paused where it is, and the output is told
/// to pause, once; what did not play is left alone.
pub proof fn law_pause(s: Step, seed: u64, player_ns: u64)
    ensures
        ({
            let r = commanded(s, EngineCommand::Pause, seed, player_ns);
            &&& r.e.status != PlayerStatus::Playing
            &&& same_queue(r.e, s.e)
            &&& same_place(r.e, s.e)
            &&& same_settings(r.e, s.e)
            &&& r.e.core == s.e.core
            &&& r.e.task == s.e.task
            &&& r.e.device_lost == s.e.device_lost
            &&& position(r.e, player_ns) == position(s.e, player_ns)
            &&& if s.e.status == PlayerStatus::Playing {
                &&& r.e.status == PlayerStatus::Paused
                &&& r.fx == s.fx.push(Effect::Pause).push(Effect::SyncState)
            } else {
                &&& r.e.status == s.e.status
                &&& r.fx == s.fx
            }
        }),
{
}

/// A paused track goes on where it is, if there is a player for it, and the output is told to play,
/// once. What is stopped or plays already is left alone.
pub proof fn law_resume(s: Step, seed: u64, player_ns: u64)
    ensures
        ({
            let r = commanded(s, EngineCommand::Resume, seed, player_ns);
            &&& same_queue(r.e, s.e)
            &&& same_place(r.e, s.e)
            &&& same_settings(r.e, s.e)
            &&& r.e.core == s.e.core
            &&& r.e.task == s.e.task
            &&& if s.e.status == PlayerStatus::Paused && s.e.loaded is Some && s.e.core.has_player {
                &&& r.e.status == PlayerStatus::Playing
                &&& r.fx == s.fx.push(Effect::Play).push(Effect::SyncState)
            } else {
                &&& r.e.status == s.e.status
                &&& r.fx == s.fx || r.fx == s.fx.push(Effect::SyncState)
            }
        }),
{
}

/// Pausing and going on leaves the player as it was.
pub proof fn law_resume_undoes_pause(s: Step, seed: u64, player_ns: u64)
    requires
        s.e.status == PlayerStatus::Playing,
        s.e.loaded is Some,
        s.e.core.has_player,
    ensures
        ({
            let p = commanded(s, EngineCommand::Pause, seed, player_ns);
            let r = commanded(p, EngineCommand::Resume, seed, player_ns);
            &&& r.e.status == PlayerStatus::Playing
            &&& r.e == EngineView { device_retry: r.e.device_retry, ..s.e }
            &&& r.fx == s.fx.push(Effect::Pause).push(Effect::SyncState).push(Effect::Play).push(
                Effect::SyncState,
            )
        }),
{
}

/// Toggling pauses what plays and goes on with what is paused; what is not loaded is opened, the
/// current entry of the queue; and with nothing to play nothing happens.
pub proof fn law_toggle(s: Step, seed: u64, player_ns: u64)
    ensures
        ({
            let r = commanded(s, EngineCommand::Toggle, seed, player_ns);
            let idle_entry = s.e.status == PlayerStatus::Stopped || (s.e.status
                == PlayerStatus::Paused && s.e.loaded is None);
            &&& same_queue(r.e, s.e)
            &&& same_settings(r.e, s.e)
            &&& r.e.idx == s.e.idx
            &&& s.e.status == PlayerStatus::Playing ==> r == commanded(
                s,
                EngineCommand::Pause,
                seed,
                player_ns,
            )
            &&& s.e.status == PlayerStatus::Paused && s.e.loaded is Some ==> r == commanded(
                s,
                EngineCommand::Resume,
                seed,
                player_ns,
            )
            &&& idle_entry && s.e.idx is Some ==> {
                let i = s.e.idx->0;
                &&& r.e.task == (Task::LoadDecoder {
                    index: i,
                    budget: s.e.queue.len() as usize,
                    after: After::Sync,
                })
                &&& r.fx == s.fx.push(Effect::OpenDecoder { path: s.e.queue[i as int].path })
            }
            &&& idle_entry && s.e.idx is None ==> r.e.status == s.e.status && r.e.task == s.e.task
                && (r.fx == s.fx || r.fx == s.fx.push(Effect::SyncState))
        }),
{
    reveal(toggled);
    reveal(load);
}

/// Stopping ends the player, keeps the queue with its current entry, and leaves a shared output
/// open.
pub proof fn law_stop(s: Step, seed: u64, player_ns: u64)
    ensures
        ({
            let r = commanded(s, EngineCommand::Stop, seed, player_ns);
            &&& r.e.status == PlayerStatus::Stopped
            &&& r.e.loaded is None
            &&& r.e.pending is None
            &&& !r.e.device_lost
            &&& !r.e.core.has_player
            &&& r.e.core.exclusive is None
            &&& r.e.core.shared == s.e.core.shared
            &&& same_queue(r.e, s.e)
            &&& same_settings(r.e, s.e)
            &&& r.e.idx == s.e.idx
            &&& r.e.perm_pos == s.e.perm_pos
            &&& r.fx == if s.e.status == PlayerStatus::Stopped {
                s.fx.push(Effect::ClearPlayer)
            } else {
                s.fx.push(Effect::ClearPlayer).push(Effect::SyncState)
            }
        }),
{
    reveal(stopped);
}

/// Whether an entry is being opened in place of the current one, and will play as before or stay
/// paused as before.
pub open spec fn goes_to(s: Step, r: Step, n: usize) -> bool {
    &&& r.e.idx == Some(n)
    &&& r.e.loaded == Some(s.e.queue[n as int])
    &&& r.e.task == (Task::LoadDecoder {
        index: n,
        budget: s.e.queue.len() as usize,
        after: After::Hold { was_playing: s.e.status == PlayerStatus::Playing },
    })
    &&& r.fx == s.fx.push(Effect::OpenDecoder { path: s.e.queue[n as int].path })
    &&& r.e.seek_offset == 0
    &&& r.e.pos_base == 0
    &&& r.e.pending is None
    &&& r.e.skip_count == 0
    &&& same_queue(r.e, s.e)
    &&& same_settings(r.e, s.e)
}

/// "Next" goes to the entry behind the current one, and from the last to the first, whatever is
/// repeated; in a shuffle, to the one that stands next in its order.
pub proof fn law_next(s: Step, seed: u64, player_ns: u64)
    requires
        well_formed(s.e),
    ensures
        ({
            let r = commanded(s, EngineCommand::Next, seed, player_ns);
            let len = s.e.queue.len();
            &&& len == 0 ==> r.fx == s.fx.push(Effect::SyncState) && same_place(r.e, s.e)
                && r.e.status == s.e.status
            &&& s.e.play_mode != PlayMode::Shuffle && s.e.idx is Some && s.e.idx->0 + 1 < len
                ==> goes_to(s, r, (s.e.idx->0 + 1) as usize) && r.e.perm_pos == s.e.perm_pos
            &&& s.e.play_mode != PlayMode::Shuffle && s.e.idx is Some && s.e.idx->0 + 1 == len
                ==> goes_to(s, r, 0) && r.e.perm_pos == s.e.perm_pos
            &&& s.e.play_mode == PlayMode::Shuffle && len > 0 && s.e.perm_pos + 1 < len ==> goes_to(
                s,
                r,
                s.e.perm[s.e.perm_pos + 1],
            ) && r.e.perm_pos == s.e.perm_pos + 1
            &&& s.e.play_mode == PlayMode::Shuffle && len > 0 && s.e.perm_pos + 1 == len ==> goes_to(
                s,
                r,
                s.e.perm[0],
            ) && r.e.perm_pos == 0
        }),
{
    reveal(advanced);
    reveal(load);
    reveal(queue_fits);
    if s.e.queue.len() > 0 {
        let len = s.e.queue.len() as int;
        vstd::arithmetic::div_mod::lemma_mod_self_0(len);
        if let Some(i) = s.e.idx {
            if i + 1 < len {
                vstd::arithmetic::div_mod::lemma_small_mod((i + 1) as nat, len as nat);
            }
        }
    }
}

/// "Previous" goes to the entry in front of the current one, and from the first to the last; in a
/// shuffle, to the one that stands before in its order. Where the user wants so, a track that has
/// played for more than three seconds starts over instead.
pub proof fn law_previous(s: Step, seed: u64, player_ns: u64)
    requires
        well_formed(s.e),
        s.e.idx is Some,
        s.e.seek_offset + player_ns <= u64::MAX,
    ensures
        ({
            let r = commanded(s, EngineCommand::Previous, seed, player_ns);
            let i = s.e.idx->0;
            let len = s.e.queue.len();
            let over = s.e.restart_on_previous && s.e.seek_offset + player_ns > 3_000_000_000;
            &&& over ==> goes_to(s, r, i) && r.e.perm_pos == s.e.perm_pos
            &&& !over && s.e.play_mode != PlayMode::Shuffle && i > 0 ==> goes_to(
                s,
                r,
                (i - 1) as usize,
            )
            &&& !over && s.e.play_mode != PlayMode::Shuffle && i == 0 ==> goes_to(
                s,
                r,
                (len - 1) as usize,
            )
            &&& !over && s.e.play_mode == PlayMode::Shuffle && s.e.perm_pos > 0 ==> goes_to(
                s,
                r,
                s.e.perm[s.e.perm_pos - 1],
            ) && r.e.perm_pos == s.e.perm_pos - 1
            &&& !over && s.e.play_mode == PlayMode::Shuffle && s.e.perm_pos == 0 ==> goes_to(
                s,
                r,
                s.e.perm[len - 1],
            ) && r.e.perm_pos == len - 1
        }),
{
    reveal(stepped_back);
    reveal(load);
    reveal(queue_fits);
}

/// A volume is taken as it is, up to 100, by the player and by the output alike; nothing else
/// changes.
pub proof fn law_volume(s: Step, volume: u8, seed: u64, player_ns: u64)
    ensures
        ({
            let r = commanded(s, EngineCommand::SetVolume { volume }, seed, player_ns);
            let v = r.e.volume;
            &&& v <= 100
            &&& volume <= 100 ==> v == volume
            &&& volume > 100 ==> v == 100
            &&& r.e.core.volume == v
            &&& r.fx == s.fx.push(Effect::SetVolume { volume: v }).push(Effect::SyncState)
            &&& same_queue(r.e, s.e)
            &&& same_place(r.e, s.e)
            &&& r.e.status == s.e.status
            &&& r.e.task == s.e.task
            &&& r.e.core.has_player == s.e.core.has_player
            &&& r.e.core.preferred == s.e.core.preferred
            &&& r.e.core.mode == s.e.core.mode
        }),
{
    reveal(volume_set);
}

/// Another play mode makes the order of play anew: every entry once, and the place in it that of the
/// current entry. What plays goes on.
pub proof fn law_play_mode(s: Step, mode: PlayMode, seed: u64, player_ns: u64)
    requires
        well_formed(s.e),
    ensures
        ({
            let r = commanded(s, EngineCommand::SetPlayMode { mode }, seed, player_ns);
            &&& r.e.play_mode == mode
            &&& r.e.queue == s.e.queue
            &&& r.e.items == s.e.items
            &&& r.e.idx == s.e.idx
            &&& r.e.loaded == s.e.loaded
            &&& r.e.status == s.e.status
            &&& r.e.seek_offset == s.e.seek_offset
            &&& r.e.pos_base == s.e.pos_base
            &&& r.e.task == s.e.task
            &&& r.e.core == s.e.core
            &&& r.e.volume == s.e.volume
            &&& r.fx == s.fx.push(Effect::SyncState)
            &&& is_permutation(r.e.perm, s.e.queue.len())
            &&& r.e.order.len() == s.e.queue.len()
            &&& s.e.idx matches Some(i) ==> r.e.perm[r.e.perm_pos as int] == i
            &&& mode != PlayMode::Shuffle ==> forall|k: int|
                0 <= k < r.e.perm.len() ==> r.e.perm[k] == k
            &&& mode == PlayMode::Shuffle && s.e.idx is Some ==> r.e.perm_pos == 0
        }),
{
    reveal(queue_fits);
    law_order_visits_all(s.e.queue.len(), s.e.idx, mode, seed);
}

/// The switch for "previous" is taken over and changes nothing else.
pub proof fn law_previous_restart(s: Step, enabled: bool, seed: u64, player_ns: u64)
    ensures
        ({
            let r = commanded(s, EngineCommand::SetPreviousRestart { enabled }, seed, player_ns);
            &&& r.e.restart_on_previous == enabled
            &&& r.fx == s.fx
            &&& same_queue(r.e, s.e)
            &&& same_place(r.e, s.e)
            &&& r.e.status == s.e.status
            &&& r.e.task == s.e.task
            &&& r.e.core == s.e.core
            &&& r.e.volume == s.e.volume
        }),
{
}

/// A new queue is taken as it is, at the entry that was asked for or the last one; every entry stands
/// once in its order of play. Where it is to play, that entry is opened; where not, nothing is
/// opened and nothing plays.
pub proof fn law_new_queue(
    s: Step,
    items: Vec<QueueTrack>,
    start: usize,
    autoplay: bool,
    seed: u64,
    player_ns: u64,
)
    requires
        s.e.task == Task::Idle,
        items@.len() <= usize::MAX,
    ensures
        ({
            let r = commanded(
                s,
                EngineCommand::SetQueue { items, start, autoplay },
                seed,
                player_ns,
            );
            let len = items@.len();
            &&& r.e.queue == items@
            &&& r.e.items.len() == len
            &&& forall|k: int|
                0 <= k < len ==> {
                    let q = #[trigger] r.e.items[k];
                    &&& q.track_id == items@[k].track_id
                    &&& q.title == items@[k].title
                    &&& q.artist == items@[k].artist
                    &&& q.album == items@[k].album
                    &&& q.duration_ns == items@[k].duration_ns
                }
            &&& len == 0 ==> r.e.idx is None
            &&& start < len ==> r.e.idx == Some(start)
            &&& 0 < len <= start ==> r.e.idx == Some((len - 1) as usize)
            &&& r.e.play_mode == s.e.play_mode
            &&& is_permutation(r.e.perm, len)
            &&& r.e.pending is None
            &&& same_settings(r.e, s.e)
            &&& autoplay && len > 0 ==> {
                let i = r.e.idx->0;
                &&& r.e.task == (Task::LoadDecoder {
                    index: i,
                    budget: len as usize,
                    after: After::Sync,
                })
                &&& r.fx == s.fx.push(Effect::OpenDecoder { path: items@[i as int].path })
            }
            &&& !(autoplay && len > 0) ==> {
                &&& r.e.task == Task::Idle
                &&& r.e.status != PlayerStatus::Playing
                &&& !r.e.core.has_player
                &&& r.fx == s.fx.push(Effect::ClearPlayer).push(Effect::SyncState)
            }
            &&& !autoplay ==> r.e.loaded is None && r.e.status == PlayerStatus::Paused
        }),
{
    reveal(queue_set);
    reveal(load);
    let len = items@.len();
    let idx: Option<usize> = if len == 0 {
        None
    } else if start >= len {
        Some((len - 1) as usize)
    } else {
        Some(start)
    };
    law_order_visits_all(len, idx, s.e.play_mode, seed);
}

/// An entry that is to be loaded only is opened and becomes the current one; one that is not there is
/// not.
pub proof fn law_load_paused(s: Step, index: usize, seed: u64, player_ns: u64)
    ensures
        ({
            let r = commanded(s, EngineCommand::LoadPaused { index }, seed, player_ns);
            &&& same_queue(r.e, s.e)
            &&& same_settings(r.e, s.e)
            &&& index < s.e.queue.len() ==> {
                &&& r.e.idx == Some(index)
                &&& r.e.loaded == Some(s.e.queue[index as int])
                &&& r.e.task == (Task::PausedDecoder { index })
                &&& r.fx == s.fx.push(Effect::OpenDecoder { path: s.e.queue[index as int].path })
                &&& r.e.seek_offset == 0
                &&& r.e.pos_base == 0
                &&& r.e.pending is None
            }
            &&& index >= s.e.queue.len() ==> same_place(r.e, s.e) && r.fx == s.fx.push(
                Effect::SyncState,
            )
        }),
{
}

/// A seek goes where it was asked to go, or to the end of a track that is shorter: the effect, the
/// task and the place that is shown meanwhile all say so. It stays in the loaded track, and whether
/// that was paused is remembered.
pub proof fn law_seek(s: Step, pos: u64, seed: u64, player_ns: u64)
    requires
        well_formed(s.e),
        s.e.idx is Some,
        s.e.loaded is Some,
    ensures
        ({
            let r = commanded(s, EngineCommand::Seek { position_ns: pos }, seed, player_ns);
            let dur = s.e.queue[s.e.idx->0 as int].duration_ns;
            let t = r.e.seek_offset;
            &&& dur == 0 || pos <= dur ==> t == pos
            &&& 0 < dur < pos ==> t == dur
            &&& r.fx == s.fx.push(
                Effect::SeekInline { path: (s.e.loaded->0).path, target_ns: t },
            )
            &&& r.e.task == (Task::SeekInline {
                target_ns: t,
                was_paused: s.e.status == PlayerStatus::Paused,
                after: AfterSeek::Sync,
            })
            &&& same_queue(r.e, s.e)
            &&& same_settings(r.e, s.e)
            &&& r.e.idx == s.e.idx
            &&& r.e.loaded == s.e.loaded
            &&& r.e.status == s.e.status
            &&& r.e.core == s.e.core
        }),
{
    reveal(seek);
}

/// Without a loaded track there is nothing to seek in.
pub proof fn law_seek_needs_a_track(s: Step, pos: u64, seed: u64, player_ns: u64)
    requires
        s.e.loaded is None,
    ensures
        ({
            let r = commanded(s, EngineCommand::Seek { position_ns: pos }, seed, player_ns);
            &&& r.fx == s.fx
            &&& same_queue(r.e, s.e)
            &&& same_place(r.e, s.e)
            &&& r.e.status == s.e.status
            &&& r.e.task == s.e.task
        }),
{
}

/// Another device or another output mode is taken over, and playing moves to it: the output is
/// closed, and the current entry is opened again to go on from where it stands. The same choice
/// again does nothing.
pub proof fn law_output_choice(s: Step, id: Option<String>, mode: OutputMode, seed: u64, player_ns: u64)
    requires
        well_formed(s.e),
        s.e.task == Task::Idle,
    ensures
        ({
            let d = commanded(s, EngineCommand::SetOutputDevice { id }, seed, player_ns);
            let m = commanded(s, EngineCommand::SetOutputMode { mode }, seed, player_ns);
            let t = commanded(s, EngineCommand::RetryOutput, seed, player_ns);
            &&& opt_view(d.e.core.preferred) == opt_view(id)
            &&& d.e.core.mode == s.e.core.mode
            &&& m.e.core.mode == mode
            &&& m.e.core.preferred == s.e.core.preferred
            &&& t.e.core.preferred == s.e.core.preferred
            &&& t.e.core.mode == s.e.core.mode
            &&& opt_view(s.e.core.preferred) == opt_view(id) ==> d.fx == s.fx && same_place(d.e, s.e)
                && d.e.core == s.e.core
            &&& s.e.core.mode == mode ==> m.fx == s.fx && same_place(m.e, s.e) && m.e.core == s.e.core
            &&& opt_view(s.e.core.preferred) != opt_view(id) ==> moves_over(s, d, player_ns)
            &&& s.e.core.mode != mode ==> moves_over(s, m, player_ns)
            &&& moves_over(s, t, player_ns)
        }),
{
    reveal(remigrated);
    reveal(load);
}

/// Whether playing moves to another output: what is open is closed, and the current entry, if there
/// is one, is opened again to go on from where it stands, or to stay paused there.
pub open spec fn moves_over(s: Step, r: Step, player_ns: u64) -> bool {
    &&& r.e.core.shared is None
    &&& r.e.core.exclusive is None
    &&& !r.e.core.has_player
    &&& !r.e.core.exclusive_denied
    &&& same_queue(r.e, s.e)
    &&& r.e.idx == s.e.idx
    &&& r.e.volume == s.e.volume
    &&& s.e.idx is None ==> r.fx == s.fx.push(Effect::ResetDevice) && r.e.task == Task::Idle
    &&& s.e.idx matches Some(i) ==> {
        &&& r.fx == s.fx.push(Effect::ResetDevice).push(
            Effect::OpenDecoder { path: s.e.queue[i as int].path },
        )
        &&& r.e.loaded == Some(s.e.queue[i as int])
        &&& r.e.task == (Task::LoadDecoder {
            index: i,
            budget: s.e.queue.len() as usize,
            after: After::Remigrate {
                at: position(s.e, player_ns),
                was_playing: s.e.status == PlayerStatus::Playing,
            },
        })
    }
}

/// The position runs with the player, nanosecond for nanosecond: it is what has played since the
/// last seek and since the track began on this player.
pub proof fn law_position_runs(e: EngineView, player_ns: u64, more: u64)
    requires
        player_ns + more <= u64::MAX,
        e.pos_base <= player_ns + e.seek_offset,
        player_ns + more + e.seek_offset - e.pos_base <= u64::MAX,
    ensures
        position(e, player_ns) == player_ns + e.seek_offset - e.pos_base,
        position(e, (player_ns + more) as u64) == position(e, player_ns) + more,
        e.seek_offset == 0 && e.pos_base == 0 ==> position(e, player_ns) == player_ns,
{
}

/// A position never lies before the start.
pub proof fn law_position_is_not_negative(e: EngineView, player_ns: u64)
    requires
        player_ns + e.seek_offset <= e.pos_base,
    ensures
        position(e, player_ns) == 0,
{
}

/// What callers are told about the current track is what the queue says of it, with the position
/// inside its length.
pub proof fn law_current_track_is_shown(e: EngineView, player_ns: u64)
    requires
        e.idx matches Some(i) ==> i < e.queue.len(),
    ensures
        e.idx is None ==> now_playing(e, player_ns) is None && progress_of(e, player_ns) is None,
        e.idx matches Some(i) ==> {
            let q = e.queue[i as int];
            let p = position(e, player_ns);
            &&& now_playing(e, player_ns) matches Some(np) && {
                &&& np.track_id == q.track_id
                &&& np.title == q.title
                &&& np.artist == q.artist
                &&& np.album == q.album
                &&& np.duration_ns == q.duration_ns
                &&& q.duration_ns == 0 || p <= q.duration_ns ==> np.position_ns == p
                &&& 0 < q.duration_ns < p ==> np.position_ns == q.duration_ns
            }
            &&& progress_of(e, player_ns) matches Some(pr) && {
                &&& pr.track_id == q.track_id
                &&& pr.duration_ns == q.duration_ns
                &&& pr.position_ns == (now_playing(e, player_ns)->0).position_ns
            }
            &&& e.status != PlayerStatus::Stopped ==> shown(e, player_ns) == now_playing(
                e,
                player_ns,
            )
        },
        e.status == PlayerStatus::Stopped ==> shown(e, player_ns) is None,
{
}

/// The state event tells the state as it is; a stopped player has no current entry.
pub proof fn law_state_event(e: EngineView, player_ns: u64)
    ensures
        ({
            let v = state_event_of(e, player_ns);
            &&& v.status == e.status
            &&& v.play_mode == e.play_mode
            &&& v.volume == e.volume
            &&& e.queue.len() <= usize::MAX ==> v.queue_len == e.queue.len()
            &&& v.current == shown(e, player_ns)
            &&& e.status != PlayerStatus::Stopped ==> v.queue_index == e.idx
            &&& e.status == PlayerStatus::Stopped ==> v.queue_index is None && v.current is None
        }),
{
}

/// An opened decoder gets a player of its own rate, and then its track plays: the decoder is appended
/// once, the length of the track is taken over, and no other entry changes.
pub proof fn law_opened_track_plays(
    s: Step,
    rate: u32,
    duration_ns: Option<u64>,
    player_ns: u64,
)
    requires
        s.e.task is LoadDecoder,
        s.e.task->LoadDecoder_after == After::Sync,
        s.e.task->LoadDecoder_index < s.e.queue.len(),
        s.e.skip_count == 0,
    ensures
        ({
            let i = s.e.task->LoadDecoder_index;
            let d = on_decoder(s, rate, duration_ns, player_ns);
            let r = on_player(d, true);
            &&& d.fx == s.fx.push(Effect::NewPlayer { rate })
            &&& d.e == EngineView { task: d.e.task, ..s.e }
            &&& r.fx == d.fx.push(Effect::Append).push(Effect::SyncState)
            &&& r.e.status == PlayerStatus::Playing
            &&& !r.e.suppress_end
            &&& r.e.task == Task::Idle
            &&& r.e.idx == s.e.idx
            &&& r.e.loaded == s.e.loaded
            &&& r.e.queue.len() == s.e.queue.len()
            &&& duration_ns matches Some(n) ==> r.e.queue[i as int].duration_ns == n
            &&& duration_ns is None ==> r.e.queue == s.e.queue
            &&& forall|k: int|
                0 <= k < s.e.queue.len() && k != i ==> r.e.queue[k] == s.e.queue[k]
            &&& r.e.queue[i as int].track_id == s.e.queue[i as int].track_id
            &&& r.e.queue[i as int].path == s.e.queue[i as int].path
        }),
{
    reveal(settled);
    reveal(reported);
}

/// Where no output could be opened, playing waits for one and the user is told so, unless it was
/// being waited for already.
pub proof fn law_no_output_is_waited_for(s: Step)
    requires
        s.e.task is LoadPlayer,
        s.e.task->LoadPlayer_after == After::Sync,
        s.e.loaded is Some,
        s.e.skip_count == 0,
    ensures
        ({
            let r = on_player(s, false);
            let told = Effect::Error {
                notice: Notice::DeviceUnavailable,
                track_id: Some((s.e.loaded->0).track_id),
            };
            &&& r.e.status == PlayerStatus::Paused
            &&& r.e.device_lost
            &&& r.e.resume_at == 0
            &&& r.e.loaded is None
            &&& r.e.idx == s.e.idx
            &&& r.e.task == Task::Idle
            &&& !r.e.core.has_player
            &&& r.fx == if s.e.device_lost {
                s.fx.push(Effect::ResetDevice).push(Effect::SyncState)
            } else {
                s.fx.push(Effect::ResetDevice).push(told).push(Effect::SyncState)
            }
        }),
{
    reveal(settled);
    reveal(reported);
    reveal(waiting);
}

/// A seek that the running player could make ends at once: its clock shows the place itself. One that
/// it could not make opens the same file at the same place.
pub proof fn law_seek_in_the_player(s: Step, ok: bool)
    requires
        s.e.task is SeekInline,
        s.e.task->SeekInline_after == AfterSeek::Sync,
        s.e.loaded is Some,
    ensures
        ({
            let r = on_inline_seek(s, ok);
            &&& r.e.status == s.e.status
            &&& r.e.idx == s.e.idx
            &&& r.e.loaded == s.e.loaded
            &&& r.e.queue == s.e.queue
            &&& ok ==> {
                &&& r.e.seek_offset == 0
                &&& !r.e.suppress_end
                &&& r.e.task == Task::Idle
                &&& r.fx == s.fx.push(Effect::SyncState)
            }
            &&& !ok ==> {
                &&& r.e.seek_offset == s.e.seek_offset
                &&& r.e.suppress_end
                &&& !r.e.core.has_player
                &&& r.e.task == (Task::SeekDecoder {
                    was_paused: s.e.task->SeekInline_was_paused,
                    after: AfterSeek::Sync,
                })
                &&& r.fx == s.fx.push(Effect::StopPlayer).push(
                    Effect::SeekDecoder {
                        path: (s.e.loaded->0).path,
                        target_ns: s.e.task->SeekInline_target_ns,
                    },
                )
            }
        }),
{
    reveal(sought);
}

/// A decoder at the target of a seek gets a new player, whose clock starts where the decoder really
/// stands; what was paused stays paused, and what played plays on.
pub proof fn law_seek_by_opening(s: Step, rate: u32, actual_ns: u64, ok: bool)
    requires
        s.e.task is SeekDecoder,
        s.e.task->SeekDecoder_after == AfterSeek::Sync,
    ensures
        ({
            let d = on_sought_decoder(s, rate, actual_ns);
            let r = on_player(d, ok);
            let was_paused = s.e.task->SeekDecoder_was_paused;
            &&& d.e.seek_offset == actual_ns
            &&& d.fx == s.fx.push(Effect::NewPlayer { rate })
            &&& r.e.seek_offset == actual_ns
            &&& r.e.idx == s.e.idx
            &&& r.e.loaded == s.e.loaded
            &&& r.e.task == Task::Idle
            &&& !r.e.suppress_end
            &&& ok && was_paused ==> r.e.status == PlayerStatus::Paused && r.fx == d.fx.push(
                Effect::Append,
            ).push(Effect::Pause).push(Effect::SyncState)
            &&& ok && !was_paused ==> r.e.status == PlayerStatus::Playing && r.fx == d.fx.push(
                Effect::Append,
            ).push(Effect::SyncState)
            &&& !ok ==> r.e.status == PlayerStatus::Paused && r.fx == d.fx.push(Effect::SyncState)
        }),
{
    reveal(sought);
}

/// After the output was changed, playing goes on from where it stood: by a seek there, unless that is
/// within the first second; and what was paused is paused again.
pub proof fn law_moved_playing_goes_on(s: Step, at: u64, was_playing: bool)
    requires
        s.e.status == PlayerStatus::Playing,
        s.e.loaded is Some,
        s.e.idx matches Some(i) && i < s.e.queue.len() && (s.e.queue[i as int].duration_ns == 0 || at
            <= s.e.queue[i as int].duration_ns),
    ensures
        ({
            let r = settled(s, After::Remigrate { at, was_playing });
            &&& at > 1_000_000_000 ==> {
                &&& r.e.seek_offset == at
                &&& r.fx == s.fx.push(
                    Effect::SeekInline { path: (s.e.loaded->0).path, target_ns: at },
                )
                &&& r.e.task is SeekInline
                &&& r.e.task->SeekInline_after == (AfterSeek::Remigrate { was_playing })
            }
            &&& at <= 1_000_000_000 ==> {
                &&& r.e.task == Task::Idle
                &&& r.e.status == if was_playing {
                    PlayerStatus::Playing
                } else {
                    PlayerStatus::Paused
                }
                &&& r.fx == if was_playing {
                    s.fx.push(Effect::SyncState)
                } else {
                    s.fx.push(Effect::Pause).push(Effect::SyncState)
                }
            }
            &&& sought(s, AfterSeek::Remigrate { was_playing }).e.status == if was_playing {
                PlayerStatus::Playing
            } else {
                PlayerStatus::Paused
            }
        }),
{
    reveal(settled);
    reveal(seek);
    reveal(sought);
}

/// A failed output is noticed at the next tick, and only then: playing is paused at its place and the
/// user is told; with nothing loaded the output is just closed.
pub proof fn law_failed_output_is_noticed(s: Step, player_ns: u64)
    requires
        s.e.task == Task::Idle,
        !s.e.device_lost,
        s.e.device_retry <= 10,
    ensures
        ({
            let r = ticked(s, player_ns);
            let failed = s.e.core.device_error || (s.e.core.exclusive matches Some(x) && x.dead);
            &&& !r.e.core.device_error
            &&& same_queue(r.e, s.e)
            &&& r.e.idx == s.e.idx
            &&& r.e.loaded == s.e.loaded
            &&& r.e.volume == s.e.volume
            &&& !failed ==> {
                &&& !r.e.device_lost
                &&& r.e.status == s.e.status
                &&& r.e.task == Task::Idle
                &&& same_place(r.e, s.e)
                &&& r.fx == if s.e.status == PlayerStatus::Playing {
                    s.fx
                } else {
                    s.fx.push(Effect::BeatReset)
                }
            }
            &&& failed ==> {
                &&& r.e.core.shared is None
                &&& r.e.core.exclusive is None
                &&& !r.e.core.has_player
                &&& r.e.device_lost == (s.e.loaded is Some)
                &&& s.e.loaded matches Some(t) ==> {
                    &&& r.e.status == PlayerStatus::Paused
                    &&& r.e.resume_at == position(s.e, player_ns)
                    &&& r.fx.contains(
                        Effect::Error { notice: Notice::DeviceLost, track_id: Some(t.track_id) },
                    )
                }
            }
        }),
{
    reveal(waiting);
    let r = ticked(s, player_ns);
    if r.fx.len() > 0 {
        assert(r.fx[r.fx.len() - 1] == r.fx.last());
    }
}

/// While an output is waited for, each tick counts, and every twentieth one asks for it.
pub proof fn law_recovery_is_tried_every_second(s: Step)
    requires
        s.e.device_lost,
        s.e.idx is Some,
        s.e.task == Task::Idle,
        s.e.device_retry < 1000,
        s.e.wait_ticks < 1_000_000,
    ensures
        ({
            let r = recovering(s);
            &&& r.e.wait_ticks == s.e.wait_ticks + 1
            &&& s.e.device_retry + 1 < 20 ==> r.e.device_retry == s.e.device_retry + 1 && r.fx == s.fx
                && r.e.task == Task::Idle
            &&& s.e.device_retry + 1 >= 20 ==> r.e.device_retry == 0
            &&& s.e.device_retry + 1 >= 20 && s.e.core.preferred is Some ==> r.fx == s.fx.push(
                Effect::QueryEndpoint { id: s.e.core.preferred->0 },
            )
            &&& s.e.device_retry + 1 >= 20 && s.e.core.preferred is None && s.e.core.endpoint_id is Some
                ==> r.fx == s.fx.push(Effect::QueryEndpoint { id: s.e.core.endpoint_id->0 })
            &&& same_queue(r.e, s.e)
            &&& same_place(r.e, s.e)
            &&& r.e.resume_at == s.e.resume_at
        }),
{
}

/// The device that was lost is opened as soon as it is there. The default of the system is only asked
/// for after eight seconds, which are 160 ticks, and only where the user has chosen no device; it
/// is opened where it is active or nothing is known of it.
pub proof fn law_recovery_opens_the_right_output(s: Step, active: Option<bool>, d: DefaultOutput)
    requires
        s.e.core.preferred is Some || s.e.core.endpoint_id is Some,
    ensures
        ({
            let r = on_endpoint(s, active);
            let id = match s.e.core.preferred {
                Some(p) => p,
                None => s.e.core.endpoint_id->0,
            };
            &&& active == Some(true) ==> r.e.task == Task::RecoverOpen && r.fx == s.fx.push(
                Effect::ResetDevice,
            ).push(Effect::EnsureOutput { id: Some(id) })
            &&& active != Some(true) && s.e.core.preferred is None && s.e.wait_ticks >= 160
                ==> r.e.task == Task::RecoverDefault && r.fx == s.fx.push(Effect::ProbeDefault)
            &&& active != Some(true) && (s.e.core.preferred is Some || s.e.wait_ticks < 160)
                ==> r.e.task == Task::Idle && r.fx == s.fx
        }),
        ({
            let r = on_default(s, d);
            let open = match d {
                DefaultOutput::Found { active, .. } => active,
                DefaultOutput::Missing => false,
                DefaultOutput::Unknown => true,
            };
            &&& open ==> r.e.task == Task::RecoverOpen && r.fx == s.fx.push(Effect::ResetDevice).push(
                Effect::EnsureOutput { id: None },
            )
            &&& !open ==> r.e.task == Task::Idle && r.fx == s.fx
        }),
{
}

/// An output that came back gets the entry that was playing, to go on from where it stood.
pub proof fn law_recovered_output_gets_the_track(s: Step)
    requires
        s.e.task == Task::RecoverOpen,
        s.e.idx is Some,
    ensures
        ({
            let r = on_output(s, true);
            let i = s.e.idx->0;
            &&& !r.e.device_lost
            &&& r.e.idx == s.e.idx
            &&& r.e.loaded == Some(s.e.queue[i as int])
            &&& r.fx == s.fx.push(Effect::OpenDecoder { path: s.e.queue[i as int].path })
            &&& r.e.task == (Task::LoadDecoder {
                index: i,
                budget: s.e.queue.len() as usize,
                after: After::Recover { at: s.e.resume_at },
            })
            &&& on_output(s, false).e.device_lost == s.e.device_lost
            &&& on_output(s, false).e.task == Task::Idle
            &&& on_output(s, false).fx == s.fx
        }),
{
    reveal(load);
}

/// The next track is opened when no more than twelve seconds are left, once, and only while playing;
/// it is the one that the natural end would go to.
pub proof fn law_next_track_is_opened_ahead(s: Step, player_ns: u64)
    requires
        well_formed(s.e),
        s.e.task == Task::Idle,
        s.e.idx is Some,
    ensures
        ({
            let r = prefetching(s, player_ns);
            let i = s.e.idx->0;
            let len = s.e.queue.len();
            let dur = s.e.queue[i as int].duration_ns;
            let near = s.e.pending is None && s.e.status == PlayerStatus::Playing && dur > 0 && position(
                s.e,
                player_ns,
            ) + 12_000_000_000 >= dur;
            &&& !near ==> r == s
            &&& r.e == EngineView { task: r.e.task, ..s.e }
            &&& near && s.e.play_mode == PlayMode::LoopOne ==> opens_ahead(s, r, i)
            &&& near && s.e.play_mode == PlayMode::LoopAll && i + 1 < len ==> opens_ahead(
                s,
                r,
                (i + 1) as usize,
            )
            &&& near && s.e.play_mode == PlayMode::LoopAll && i + 1 == len ==> opens_ahead(s, r, 0)
            &&& near && s.e.play_mode == PlayMode::Sequential && i + 1 < len ==> opens_ahead(
                s,
                r,
                (i + 1) as usize,
            )
            &&& near && s.e.play_mode == PlayMode::Sequential && i + 1 == len ==> r == s
            &&& near && s.e.play_mode == PlayMode::Shuffle && s.e.perm_pos + 1 < len ==> opens_ahead(
                s,
                r,
                s.e.perm[s.e.perm_pos + 1],
            )
            &&& near && s.e.play_mode == PlayMode::Shuffle && s.e.perm_pos + 1 == len ==> opens_ahead(
                s,
                r,
                s.e.perm[0],
            )
        }),
{
    reveal(queue_fits);
    let len = s.e.queue.len() as int;
    let i = s.e.idx->0;
    vstd::arithmetic::div_mod::lemma_mod_self_0(len);
    if i + 1 < len {
        vstd::arithmetic::div_mod::lemma_small_mod((i + 1) as nat, len as nat);
    }
}

/// Whether an entry is being opened ahead.
pub open spec fn opens_ahead(s: Step, r: Step, n: usize) -> bool {
    &&& r.e.task is Prefetch
    &&& r.e.task->Prefetch_index == n
    &&& r.fx == s.fx.push(Effect::OpenDecoder { path: s.e.queue[n as int].path })
}

/// A track that was opened ahead waits with the place that the current one has reached, and its
/// length is taken over.
pub proof fn law_opened_ahead(s: Step, rate: u32, duration_ns: Option<u64>, player_ns: u64)
    requires
        s.e.task is Prefetch,
        s.e.task->Prefetch_index < s.e.queue.len(),
    ensures
        ({
            let r = on_decoder(s, rate, duration_ns, player_ns);
            let n = s.e.task->Prefetch_index;
            &&& r.e.task == Task::Idle
            &&& r.fx == s.fx.push(Effect::Append)
            &&& r.e.pending matches Some(p) && p.idx == n && p.pos_at_prefetch == position(
                s.e,
                player_ns,
            ) && p.last_pos == position(s.e, player_ns)
            &&& r.e.perm_pos == s.e.task->Prefetch_perm_pos
            &&& r.e.idx == s.e.idx
            &&& r.e.status == s.e.status
            &&& r.e.loaded == s.e.loaded
            &&& duration_ns matches Some(d) ==> r.e.queue[n as int].duration_ns == d
            &&& forall|k: int|
                0 <= k < s.e.queue.len() && k != n ==> r.e.queue[k] == s.e.queue[k]
        }),
{
}

/// When the track that was opened ahead takes over, it is the current one and its position starts at
/// the start: the player counts on behind the track before, or has begun to count anew.
pub proof fn law_takes_over(s: Step, n: usize, player_ns: u64)
    requires
        s.e.idx is Some,
        n < s.e.queue.len(),
    ensures
        ({
            let r = switched(s, n, player_ns);
            let before = if s.e.idx->0 < s.e.queue.len() {
                s.e.queue[s.e.idx->0 as int].duration_ns
            } else {
                0
            };
            &&& r.e.idx == Some(n)
            &&& r.e.loaded == Some(s.e.queue[n as int])
            &&& r.e.pending is None
            &&& r.e.status == s.e.status
            &&& r.e.queue == s.e.queue
            &&& r.e.perm_pos == s.e.perm_pos
            &&& r.e.seek_offset == 0
            &&& before > 0 && 2 * player_ns > before && player_ns >= before ==> position(
                r.e,
                player_ns,
            ) == player_ns - before
            &&& before == 0 || 2 * player_ns <= before ==> position(r.e, player_ns) == player_ns
        }),
{
}

/// A tick that finds the player empty, with nothing opened ahead, ends the track; as long as it is
/// not empty the entry stays the same. Nothing happens while the player does not play.
pub proof fn law_track_ends_when_the_player_is_empty(s: Step, player_ns: u64, player_empty: bool)
    requires
        s.e.task == Task::Idle,
    ensures
        ({
            let r = tick_over(s, player_ns, player_empty);
            let playing = s.e.status == PlayerStatus::Playing;
            &&& !playing ==> r == s
            &&& playing && s.e.pending is None && !s.e.suppress_end && s.e.core.has_player
                && player_empty ==> r == ended(s)
            &&& playing && s.e.pending is None && !player_empty ==> r.e.idx == s.e.idx && r.e.task
                == Task::Idle && r.e.loaded == s.e.loaded
            &&& playing && (s.e.pending matches Some(p) && position(s.e, player_ns) + 500_000_000
                >= p.pos_at_prefetch && position(s.e, player_ns) + 500_000_000 >= p.last_pos)
                ==> r.e.idx == s.e.idx && r.e.task == Task::Idle
            &&& playing && (s.e.pending matches Some(p) && (position(s.e, player_ns) + 500_000_000
                < p.pos_at_prefetch || position(s.e, player_ns) + 500_000_000 < p.last_pos)) ==> r.e.idx
                == Some((s.e.pending->0).idx)
        }),
{
    reveal(waiting);
}

/// The natural end goes to the next entry of the order of play and plays it; one track that is
/// repeated starts over.
pub proof fn law_natural_end_goes_on(s: Step)
    requires
        well_formed(s.e),
        s.e.idx is Some,
    ensures
        ({
            let r = ended(s);
            let i = s.e.idx->0;
            let len = s.e.queue.len();
            &&& s.e.play_mode == PlayMode::LoopOne ==> goes_to(s, r, i)
            &&& (s.e.play_mode == PlayMode::LoopAll || s.e.play_mode == PlayMode::Sequential) && i + 1
                < len ==> goes_to(s, r, (i + 1) as usize)
            &&& s.e.play_mode == PlayMode::LoopAll && i + 1 == len ==> goes_to(s, r, 0)
            &&& s.e.play_mode == PlayMode::Shuffle && s.e.perm_pos + 1 < len ==> goes_to(
                s,
                r,
                s.e.perm[s.e.perm_pos + 1],
            ) && r.e.perm_pos == s.e.perm_pos + 1
            &&& s.e.play_mode == PlayMode::Shuffle && s.e.perm_pos + 1 == len ==> goes_to(
                s,
                r,
                s.e.perm[0],
            ) && r.e.perm_pos == 0
            &&& s.e.play_mode == PlayMode::Sequential && i + 1 == len ==> {
                &&& r.e.status == PlayerStatus::Stopped
                &&& r.fx == s.fx.push(Effect::ClearPlayer).push(Effect::SyncState)
                &&& r.e.idx == s.e.idx
                &&& !r.e.core.has_player
            }
        }),
{
    reveal(advanced);
    reveal(load);
    reveal(queue_fits);
    let len = s.e.queue.len() as int;
    let i = s.e.idx->0;
    vstd::arithmetic::div_mod::lemma_mod_self_0(len);
    if i + 1 < len {
        vstd::arithmetic::div_mod::lemma_small_mod((i + 1) as nat, len as nat);
    }
}

/// A position that moves by more than 20 ms has moved; sixty ticks without that, which are three
/// seconds, mean that the output is dead. A pause or a track that is being opened is no standstill.
pub proof fn law_standstill(s: Step, player_ns: u64)
    requires
        s.e.stalled_ticks < 60,
        s.e.last_pos < 0x7fff_ffff_ffff_ffff,
        position(s.e, player_ns) < 0x7fff_ffff_ffff_ffff,
    ensures
        ({
            let r = watched(s, player_ns);
            let p = position(s.e, player_ns);
            let rests = s.e.status != PlayerStatus::Playing || !s.e.core.has_player
                || s.e.suppress_end;
            let still = p <= s.e.last_pos + 20_000_000 && s.e.last_pos <= p + 20_000_000;
            &&& r.e.last_pos == p
            &&& rests || !still ==> r.e.stalled_ticks == 0 && r.fx == s.fx && r.e.status
                == s.e.status && r.e.device_lost == s.e.device_lost
            &&& !rests && still && s.e.stalled_ticks < 59 ==> r.e.stalled_ticks == s.e.stalled_ticks
                + 1 && r.fx == s.fx && r.e.status == s.e.status
            &&& !rests && still && s.e.stalled_ticks == 59 ==> r.e.stalled_ticks == 0
                && !r.e.core.has_player && r.fx.len() > s.fx.len()
            &&& !rests && still && s.e.stalled_ticks == 59 && s.e.loaded is Some ==> r.e.status
                == PlayerStatus::Paused && r.e.device_lost
        }),
{
    reveal(waiting);
}

/// Progress is told every sixteenth tick while playing, and otherwise not.
pub proof fn law_progress_is_told(s: Step)
    ensures
        progressed(s).e == s.e,
        s.e.status == PlayerStatus::Playing && s.e.tick % 16 == 0 ==> progressed(s).fx == s.fx.push(
            Effect::ProgressEvent,
        ).push(Effect::RefreshPosition),
        s.e.status != PlayerStatus::Playing || s.e.tick % 16 != 0 ==> progressed(s).fx == s.fx,
{
}

/// Ticks are counted one by one.
pub proof fn law_ticks_are_counted(s: Step, player_ns: u64)
    requires
        s.e.tick < u64::MAX,
    ensures
        ticked(s, player_ns).e.tick == s.e.tick + 1,
{
    reveal(waiting);
}

/// Losing the output tells the user which track it was, pauses, and closes the output.
pub proof fn law_lost_output_is_told(s: Step, player_ns: u64)
    ensures
        ({
            let r = output_lost(s, player_ns);
            &&& r.e.core.shared is None
            &&& r.e.core.exclusive is None
            &&& !r.e.core.has_player
            &&& same_queue(r.e, s.e)
            &&& s.e.loaded is None ==> r.fx == s.fx.push(Effect::ResetDevice) && r.e.status
                == s.e.status && r.e.device_lost == s.e.device_lost
            &&& s.e.loaded matches Some(t) ==> {
                &&& r.fx == s.fx.push(Effect::ResetDevice).push(Effect::SyncState).push(
                    Effect::Error { notice: Notice::DeviceLost, track_id: Some(t.track_id) },
                )
                &&& r.e.pending is None
                &&& r.e.device_retry == 0
                &&& r.e.wait_ticks == 0
            }
        }),
{
    reveal(waiting);
}

/// What callers see of an entry is the entry without its file.
pub proof fn law_entries_are_shown(q: QueueTrack)
    ensures
        item_of(q).track_id == q.track_id,
        item_of(q).title == q.title,
        item_of(q).artist == q.artist,
        item_of(q).album == q.album,
        item_of(q).duration_ns == q.duration_ns,
{
}

/// A length that is learnt is that of its entry, in the queue and in what is shown of it, and no
/// other entry changes.
pub proof fn law_length_is_learnt(e: EngineView, i: usize, j: int, d: u64)
    requires
        i < e.queue.len(),
        e.items.len() == e.queue.len(),
    ensures
        length_at(lengthened(e, i, Some(d)).queue, i) == d,
        lengthened(e, i, Some(d)).items[i as int].duration_ns == d,
        lengthened(e, i, Some(d)).queue[i as int].track_id == e.queue[i as int].track_id,
        lengthened(e, i, Some(d)).queue[i as int].path == e.queue[i as int].path,
        0 <= j < e.queue.len() && j != i ==> lengthened(e, i, Some(d)).queue[j] == e.queue[j]
            && lengthened(e, i, Some(d)).items[j] == e.items[j],
        lengthened(e, i, None) == e,
        lengthened(e, i, Some(d)).idx == e.idx && lengthened(e, i, Some(d)).status == e.status,
{
}

/// A recovery takes the wanted device as soon as it is there, and the default one only where the
/// user has not chosen, after 160 ticks.
pub proof fn law_which_device_is_recovered(id: String, waited: u64, allow: bool)
    ensures
        recover_target(Some(id), Some(true), waited, allow) == RecoverTarget::Original(id),
        waited >= 160 ==> recover_target(Some(id), Some(false), waited, true) is FollowDefault,
        waited >= 160 ==> recover_target(Some(id), None, waited, true) is FollowDefault,
        waited >= 160 ==> recover_target(None, Some(true), waited, true) is FollowDefault,
        waited < 160 ==> recover_target(Some(id), Some(false), waited, allow) is KeepWaiting,
        waited < 160 ==> recover_target(None, None, waited, allow) is KeepWaiting,
        recover_target(Some(id), Some(false), waited, false) is KeepWaiting,
{
}

/// The wanted device is the one that the user chose, else the one in use last.
pub proof fn law_wanted_device(e: EngineView)
    ensures
        e.core.preferred is Some ==> wanted_device(e.core) == e.core.preferred,
        e.core.preferred is None ==> wanted_device(e.core) == e.core.endpoint_id,
{
}

/// Two times add up, and stop at the largest.
pub proof fn law_times_add_up(a: u64, b: u64)
    ensures
        a + b <= u64::MAX ==> capped_sum(a, b) == a + b,
        a + b > u64::MAX ==> capped_sum(a, b) == u64::MAX,
{
}

/// What is opened ahead is what will play: the same track where one is repeated, else the next, and
/// nothing behind the last where play is sequential.
pub proof fn law_what_is_opened_ahead(e: EngineView, i: usize)
    requires
        e.idx == Some(i),
        i < e.queue.len() <= usize::MAX,
    ensures
        e.play_mode == PlayMode::LoopOne ==> prefetch_of(e).0 == Some(i),
        e.play_mode == PlayMode::Sequential && i + 1 < e.queue.len() ==> prefetch_of(e).0 == Some(
            (i + 1) as usize,
        ),
        e.play_mode == PlayMode::Sequential && i + 1 == e.queue.len() ==> prefetch_of(e).0 is None,
        e.play_mode == PlayMode::LoopAll && i + 1 < e.queue.len() ==> prefetch_of(e).0 == Some(
            (i + 1) as usize,
        ),
        e.play_mode == PlayMode::LoopAll && i + 1 == e.queue.len() ==> prefetch_of(e).0 == Some(0usize),
        e.play_mode != PlayMode::Shuffle ==> prefetch_of(e).1 == e.perm_pos,
        e.play_mode == PlayMode::Shuffle && e.perm_pos + 1 < e.perm.len() ==> prefetch_of(e) == (
            Some(e.perm[e.perm_pos + 1]),
            (e.perm_pos + 1) as usize,
        ),
{
    if i + 1 < e.queue.len() {
        vstd::arithmetic::div_mod::lemma_small_mod((i + 1) as nat, e.queue.len());
    } else {
        vstd::arithmetic::div_mod::lemma_mod_self_0(e.queue.len() as int);
    }
}

/// Callers see the state as it is; while stopped they see no track.
pub proof fn law_snapshot(r: PlayerState, e: EngineView, player_ns: u64)
    requires
        is_snapshot(r, e, player_ns),
    ensures
        r.status == e.status && r.play_mode == e.play_mode && r.volume == e.volume,
        r.queue@ == e.items,
        r.order@ == e.order,
        e.status == PlayerStatus::Stopped ==> r.queue_index is None && r.current is None,
        e.status != PlayerStatus::Stopped ==> r.queue_index == e.idx,
{
}

/// When a track takes over without a gap, the time of the one before it is behind the player just
/// where the player has come more than half way through that one; nothing else moves.
pub proof fn law_time_of_the_track_before(s: Step, n: usize, player_ns: u64)
    requires
        s.e.idx is Some,
        s.e.idx->0 < s.e.queue.len(),
        n < s.e.queue.len(),
    ensures
        ({
            let r = switched(s, n, player_ns);
            let before = s.e.queue[s.e.idx->0 as int].duration_ns;
            &&& before > 0 && player_ns > before - player_ns ==> r.e.pos_base == before
            &&& before > 0 && player_ns <= before - player_ns ==> r.e.pos_base == 0
            &&& before == 0 ==> r.e.pos_base == 0
            &&& !r.e.suppress_end
            &&& r.e.core == s.e.core
            &&& r.e.volume == s.e.volume && r.e.play_mode == s.e.play_mode
            &&& r.fx == s.fx.push(Effect::SyncState).push(Effect::StateEvent).push(
                Effect::ProgressEvent,
            )
        }),
{
}

/// While the end of a track is not to be taken for one, or without a player, an empty player is no
/// end: the track stays.
pub proof fn law_no_end_while_loading(s: Step, player_ns: u64)
    requires
        s.e.status == PlayerStatus::Playing,
        s.e.pending is None,
        s.e.suppress_end || !s.e.core.has_player,
    ensures
        ({
            let r = tick_over(s, player_ns, true);
            &&& r.e.idx == s.e.idx
            &&& r.e.loaded == s.e.loaded
            &&& r.e.status == PlayerStatus::Playing
            &&& r.e.task == s.e.task
            &&& r.e.stalled_ticks == 0
        }),
{
}

/// A track that is to be loaded paused and cannot be opened leaves nothing loaded, and the failure is
/// told as it is.
pub proof fn law_failed_paused_track(s: Step, code: String, message: String)
    requires
        s.e.task is PausedDecoder,
    ensures
        ({
            let i = s.e.task->PausedDecoder_index;
            let r = on_decoder_failure(s, code, message);
            &&& r.e.status == PlayerStatus::Paused
            &&& r.e.loaded is None
            &&& r.e.task == Task::Idle
            &&& r.e.idx == s.e.idx
            &&& same_queue(r.e, s.e)
            &&& r.fx == s.fx.push(
                Effect::Error {
                    notice: Notice::Track { code, message },
                    track_id: Some(s.e.queue[i as int].track_id),
                },
            ).push(Effect::SyncState)
        }),
{
}

/// A seek that cannot be made pauses: the player is given up and the failure is told.
pub proof fn law_failed_seek(s: Step, code: String, message: String, was_paused: bool)
    requires
        s.e.task == (Task::SeekDecoder { was_paused, after: AfterSeek::Sync }),
        s.e.loaded is Some,
    ensures
        ({
            let r = on_decoder_failure(s, code, message);
            &&& r.e.status == PlayerStatus::Paused
            &&& !r.e.core.has_player
            &&& !r.e.suppress_end
            &&& r.e.task == Task::Idle
            &&& r.e.loaded == s.e.loaded
            &&& r.e.idx == s.e.idx
            &&& same_queue(r.e, s.e)
            &&& r.fx == s.fx.push(Effect::ClearPlayer).push(
                Effect::Error {
                    notice: Notice::Track { code, message },
                    track_id: Some((s.e.loaded->0).track_id),
                },
            ).push(Effect::SyncState)
        }),
{
    reveal(sought);
}

/// A track that was loaded paused stays paused and silent; where there is no output for it that is
/// told.
pub proof fn law_paused_track_stays_paused(s: Step, duration_ns: Option<u64>)
    requires
        s.e.task is PausedPlayer,
        s.e.task->PausedPlayer_duration_ns == duration_ns,
        s.e.loaded is Some,
    ensures
        ({
            let i = s.e.task->PausedPlayer_index;
            let r = on_player(s, true);
            let f = on_player(s, false);
            &&& r.e.status == PlayerStatus::Paused && f.e.status == PlayerStatus::Paused
            &&& r.e.task == Task::Idle && f.e.task == Task::Idle
            &&& r.e.queue == lengthened(s.e, i, duration_ns).queue
            &&& f.e.queue == s.e.queue
            &&& r.e.loaded == s.e.loaded && f.e.loaded == s.e.loaded
            &&& r.fx == s.fx.push(Effect::Pause).push(Effect::Append).push(Effect::SyncState)
            &&& f.fx == s.fx.push(
                Effect::Error {
                    notice: Notice::OutputFailed,
                    track_id: Some((s.e.loaded->0).track_id),
                },
            ).push(Effect::SyncState)
        }),
{
}

/// Whatever plays next is not playing yet while it is being opened: the player pauses until then.
pub proof fn law_nothing_plays_while_opening(s: Step, player_ns: u64)
    requires
        s.e.queue.len() > 0,
        s.e.idx is Some,
        s.e.idx->0 < s.e.queue.len() <= usize::MAX,
        s.e.perm.len() == s.e.queue.len(),
    ensures
        advanced(s, true).e.status == PlayerStatus::Paused,
        stepped_back(s, player_ns).e.status == PlayerStatus::Paused,
        on_output(s, true).e.status == PlayerStatus::Paused,
        remigrated(s, player_ns).e.status == PlayerStatus::Paused,
        s.e.status != PlayerStatus::Playing && s.e.loaded is None ==> toggled(s).e.status
            == PlayerStatus::Paused,
        s.e.status == PlayerStatus::Stopped ==> toggled(s).e.status == PlayerStatus::Paused,
{
    reveal(advanced);
    reveal(stepped_back);
    reveal(remigrated);
    reveal(toggled);
    reveal(load);
}

/// Opening an entry starts its time afresh, whatever played before: from its start, with no end taken
/// for one and no standstill counted.
pub proof fn law_opening_starts_afresh(s: Step, i: usize, after: After)
    requires
        i < s.e.queue.len(),
    ensures
        ({
            let r = load(s, i, after);
            &&& r.e.idx == Some(i)
            &&& r.e.loaded == Some(s.e.queue[i as int])
            &&& r.e.seek_offset == 0 && r.e.pos_base == 0 && r.e.last_pos == 0
            &&& r.e.stalled_ticks == 0
            &&& r.e.suppress_end
            &&& r.e.pending is None
            &&& r.e.first_failure is None && r.e.skip_count == 0
            &&& r.e.core == s.e.core && r.e.status == s.e.status && r.e.perm_pos == s.e.perm_pos
            &&& r.e.device_lost == s.e.device_lost && r.e.resume_at == s.e.resume_at
            &&& r.fx == s.fx.push(Effect::OpenDecoder { path: s.e.queue[i as int].path })
        }),
{
    reveal(load);
}

/// Waiting for an output starts afresh: from the place that was reached, with no try made and no
/// tick waited, everything closed and nothing opened ahead.
pub proof fn law_waiting_starts_afresh(s: Step, at: u64)
    ensures
        ({
            let r = waiting(s, at);
            &&& r.e.device_lost
            &&& r.e.resume_at == at
            &&& r.e.device_retry == 0 && r.e.wait_ticks == 0
            &&& r.e.pending is None && r.e.pos_base == 0
            &&& r.e.core.shared is None && r.e.core.exclusive is None && !r.e.core.has_player
            &&& r.e.idx == s.e.idx && r.e.queue == s.e.queue && r.e.loaded == s.e.loaded
            &&& r.e.seek_offset == s.e.seek_offset && r.e.status == s.e.status
            &&& r.fx == s.fx.push(Effect::ResetDevice)
        }),
{
    reveal(waiting);
}

/// Where nothing could be opened nothing is loaded, and the player pauses.
pub proof fn law_nothing_could_be_opened(s: Step)
    ensures
        exhausted(s, After::Sync).e.status == PlayerStatus::Paused,
        exhausted(s, After::Sync).e.loaded is None,
        !exhausted(s, After::Sync).e.suppress_end,
        exhausted(s, After::Sync).e.task == Task::Idle,
        exhausted(s, After::Sync).e.idx == s.e.idx,
        s.e.skip_count == 1 ==> (s.e.first_failure matches Some(f) ==> exhausted(s, After::Sync).fx
            == s.fx.push(
            Effect::Error {
                notice: Notice::Track { code: f.code, message: f.message },
                track_id: Some(f.track_id),
            },
        ).push(Effect::SyncState)),
        s.e.skip_count > 1 ==> (s.e.first_failure matches Some(f) ==> exhausted(s, After::Sync).fx
            == s.fx.push(
            Effect::Error {
                notice: Notice::Skipped { code: f.code, count: s.e.skip_count },
                track_id: Some(f.track_id),
            },
        ).push(Effect::SyncState)),
{
    reveal(exhausted);
    reveal(settled);
    reveal(reported);
}

/// The first entry that fails is the one that is named, and the next entry is tried with one try
/// less.
pub proof fn law_failed_track_is_skipped(s: Step, code: String, message: String, budget: usize, i: usize)
    requires
        s.e.task == (Task::LoadDecoder { index: i, budget, after: After::Sync }),
        s.e.idx == Some(i),
        s.e.play_mode == PlayMode::LoopAll,
        i + 1 < s.e.queue.len() <= usize::MAX,
        budget > 1,
        s.e.skip_count < usize::MAX,
    ensures
        ({
            let r = on_decoder_failure(s, code, message);
            &&& r.e.idx == Some((i + 1) as usize)
            &&& r.e.loaded == Some(s.e.queue[i + 1])
            &&& r.e.skip_count == s.e.skip_count + 1
            &&& s.e.skip_count == 0 ==> (r.e.first_failure matches Some(f) && f.code == code && f.message
                == message && f.track_id == s.e.queue[i as int].track_id)
            &&& s.e.skip_count > 0 ==> r.e.first_failure == s.e.first_failure
            &&& r.e.task == (Task::LoadDecoder {
                index: (i + 1) as usize,
                budget: (budget - 1) as usize,
                after: After::Sync,
            })
            &&& r.fx == s.fx.push(Effect::OpenDecoder { path: s.e.queue[i + 1].path })
            &&& same_queue(r.e, s.e)
        }),
{
    vstd::arithmetic::div_mod::lemma_small_mod((i + 1) as nat, s.e.queue.len());
}

/// While nothing plays the beat stands still, and while something plays it is left alone.
pub proof fn law_beat_rests(s: Step, player_ns: u64)
    requires
        !s.e.device_lost,
        !s.e.core.device_error,
        s.e.core.exclusive is None,
    ensures
        s.e.status != PlayerStatus::Playing ==> ticked(s, player_ns).fx == s.fx.push(Effect::BeatReset),
        s.e.status == PlayerStatus::Playing ==> ticked(s, player_ns).fx == s.fx,
        ticked(s, player_ns).e.idx == s.e.idx && ticked(s, player_ns).e.status == s.e.status,
{
}

} // verus!
