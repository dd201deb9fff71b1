//! What the player promises across events.

use crate::engine::audio::{fallback_forgotten, in_mode, preferring, DefaultOutput};
use crate::engine::queue::next_of;
use crate::engine::state::{
    advanced, commanded, emit, ended, exhausted, fits, load, now_playing, nudged, on_decoder,
    on_decoder_failure, on_default, on_endpoint, on_inline_seek, on_output, on_player,
    on_sought_decoder, output_lost, position, prefetching, queue_fits, queue_set,
    recover_target, recovering, remigrated, reported, seek, settled, shown, sought, stepped_back,
    stopped, switched, tick_over, ticked, toggled, volume_set, waiting, wanted_device, watched,
    well_formed, with_length, After, AfterSeek, Effect, EngineCommand, EngineView, Notice, RecoverTarget, Step,
    Task, TrackFailure, DEVICE_WAIT_GRACE_TICKS, RESUME_MARGIN_NS, STALL_TICKS, SWITCH_MARGIN_NS,
};
use crate::models::{PlayMode, PlayerStatus};
use vstd::prelude::*;

verus! {

/// Whether the player is at rest: stopped, with nothing loaded and no output waited for.
pub open spec fn at_rest(e: EngineView) -> bool {
    &&& e.status == PlayerStatus::Stopped
    &&& e.loaded is None
    &&& !e.device_lost
    &&& e.task == Task::Idle
}

/// Stopping brings the player to rest, even while it waits for an output.
pub proof fn law_stop_brings_rest(s: Step, seed: u64, player_ns: u64)
    requires
        s.e.task == Task::Idle,
    ensures
        at_rest(commanded(s, EngineCommand::Stop, seed, player_ns).e),
{
    reveal(stopped);
}

/// A player at rest stays at rest, whatever happens to the output: it never starts to play by
/// itself.
pub proof fn law_rest_lasts(s: Step, player_ns: u64, player_empty: bool)
    requires
        at_rest(s.e),
    ensures
        at_rest(ticked(s, player_ns).e),
        prefetching(s, player_ns) == s,
        tick_over(s, player_ns, player_empty) == s,
{
}

/// Skipping comes to an end: each entry that cannot be opened either ends the attempt or leaves
/// fewer entries to be tried, and no attempt tries more entries than the queue has.
#[verifier::spinoff_prover]
#[verifier::rlimit(40)]
pub proof fn law_skipping_ends(s: Step, code: String, message: String)
    requires
        well_formed(s.e),
        s.e.task is LoadDecoder,
    ensures
        ({
            let r = on_decoder_failure(s, code, message);
            &&& s.e.task->LoadDecoder_budget <= s.e.queue.len()
            &&& r.e.task is LoadDecoder ==> r.e.task->LoadDecoder_budget
                < s.e.task->LoadDecoder_budget
            &&& r.e.skip_count == s.e.skip_count + 1
        }),
{
    reveal(exhausted);
    reveal(reported);
    reveal(settled);
    reveal(seek);
    reveal(sought);
    reveal(waiting);
    assert(s.e.skip_count + 1 <= s.e.queue.len());
    assert(s.e.queue.len() <= usize::MAX) by {
        reveal(queue_fits);
    }
}

/// How many notices there are among effects.
pub open spec fn notices(fx: Seq<Effect>) -> nat
    decreases fx.len(),
{
    if fx.len() == 0 {
        0
    } else if fx.last() is Error {
        notices(fx.drop_last()) + 1
    } else {
        notices(fx.drop_last())
    }
}

/// The last notice among effects.
pub open spec fn last_notice(fx: Seq<Effect>) -> Option<Effect>
    decreases fx.len(),
{
    if fx.len() == 0 {
        None
    } else if fx.last() is Error {
        Some(fx.last())
    } else {
        last_notice(fx.drop_last())
    }
}

broadcast proof fn lemma_notices(fx: Seq<Effect>, f: Effect)
    ensures
        #[trigger] notices(fx.push(f)) == notices(fx) + if f is Error {
            1nat
        } else {
            0
        },
{
    assert(fx.push(f).drop_last() =~= fx);
}

broadcast proof fn lemma_last_notice(fx: Seq<Effect>, f: Effect)
    ensures
        #[trigger] last_notice(fx.push(f)) == if f is Error {
            Some(f)
        } else {
            last_notice(fx)
        },
{
    assert(fx.push(f).drop_last() =~= fx);
}

/// What becomes of a load, by what the files turn out to be: the rate and the length of one that can
/// be opened, the code and the message for one that cannot. The output is there. No more than so many
/// files are tried.
pub open spec fn loaded_by(
    s: Step,
    files: spec_fn(usize) -> Result<(u32, Option<u64>), (String, String)>,
    tries: nat,
) -> Step
    decreases tries,
{
    match s.e.task {
        Task::LoadDecoder { index, .. } => if tries == 0 {
            s
        } else {
            match files(index) {
                Ok((rate, duration_ns)) => on_player(on_decoder(s, rate, duration_ns, 0), true),
                Err((code, message)) => loaded_by(
                    on_decoder_failure(s, code, message),
                    files,
                    (tries - 1) as nat,
                ),
            }
        },
        _ => s,
    }
}

/// The entry that comes after so many others in the order in which a load tries them, if it gets that
/// far: at most as many as there are in the queue, and none where the order ends or stands still.
pub open spec fn tried(
    e: EngineView,
    index: usize,
    perm_pos: usize,
    budget: nat,
    k: nat,
) -> Option<usize>
    decreases k,
{
    if k == 0 {
        Some(index)
    } else {
        let (next, place) = next_of(
            e.queue.len(),
            Some(index),
            e.play_mode,
            e.perm,
            perm_pos,
            false,
        );
        if budget > 1 && next is Some && next->0 != index {
            tried(e, next->0, place, (budget - 1) as nat, (k - 1) as nat)
        } else {
            None
        }
    }
}

/// What the user is told about entries that were skipped, by the first of them and their number.
pub open spec fn skip_notice(track_id: i64, code: String, message: String, count: nat) -> Effect {
    Effect::Error {
        notice: if count == 1 {
            Notice::Track { code, message }
        } else {
            Notice::Skipped { code, count: count as usize }
        },
        track_id: Some(track_id),
    }
}

/// Whether a step has told the user once about skipped entries, or nothing where there are none.
pub open spec fn told_once(s: Step, r: Step, first: Option<TrackFailure>, count: nat) -> bool {
    &&& notices(r.fx) == notices(s.fx) + if count == 0 {
        0nat
    } else {
        1
    }
    &&& count > 0 ==> first is Some && last_notice(r.fx) == Some(
        skip_notice((first->0).track_id, (first->0).code, (first->0).message, count),
    )
}

proof fn lemma_settled_tells_nothing(s: Step, after: After)
    ensures
        ({
            let r = settled(s, after);
            &&& notices(r.fx) == notices(s.fx)
            &&& last_notice(r.fx) == last_notice(s.fx)
            &&& r.e.idx == s.e.idx
            &&& r.e.loaded == s.e.loaded
            &&& s.e.status == PlayerStatus::Paused ==> r.e.status == PlayerStatus::Paused && r.e.task
                == Task::Idle
            &&& s.e.status == PlayerStatus::Playing ==> plays_after(r, after)
        }),
{
    broadcast use {lemma_notices, lemma_last_notice};

    reveal(settled);
    reveal(seek);
    reveal(sought);
    reveal(waiting);
}

proof fn lemma_reported_tells_once(s: Step, first: Option<TrackFailure>)
    requires
        first == s.e.first_failure,
        s.e.skip_count > 0 ==> first is Some,
    ensures
        told_once(s, reported(s), first, s.e.skip_count as nat),
        reported(s).e == s.e,
{
    broadcast use {lemma_notices, lemma_last_notice};

    reveal(reported);
}

proof fn lemma_tried_same(
    e: EngineView,
    f: EngineView,
    index: usize,
    perm_pos: usize,
    budget: nat,
    k: nat,
)
    requires
        e.queue == f.queue,
        e.play_mode == f.play_mode,
        e.perm == f.perm,
    ensures
        tried(e, index, perm_pos, budget, k) == tried(f, index, perm_pos, budget, k),
    decreases k,
{
    if k > 0 {
        let (next, place) = next_of(
            e.queue.len(),
            Some(index),
            e.play_mode,
            e.perm,
            perm_pos,
            false,
        );
        if budget > 1 && next is Some && next->0 != index {
            lemma_tried_same(e, f, next->0, place, (budget - 1) as nat, (k - 1) as nat);
        }
    }
}

/// The failure that is told about in the end.
spec fn first_of(
    s: Step,
    index: usize,
    files: spec_fn(usize) -> Result<(u32, Option<u64>), (String, String)>,
) -> Option<TrackFailure> {
    if s.e.skip_count > 0 {
        s.e.first_failure
    } else {
        match files(index) {
            Err((code, message)) => Some(
                TrackFailure { code, message, track_id: s.e.queue[index as int].track_id },
            ),
            Ok(_) => None,
        }
    }
}

/// What holds in the middle of a load.
spec fn in_load(s: Step, index: usize, budget: usize, after: After) -> bool {
    &&& s.e.task == (Task::LoadDecoder { index, budget, after })
    &&& s.e.idx == Some(index)
    &&& s.e.loaded == Some(s.e.queue[index as int])
    &&& budget > 0
    &&& s.e.skip_count + budget == s.e.queue.len() <= usize::MAX
    &&& s.e.skip_count > 0 ==> s.e.first_failure is Some
}

/// One entry that cannot be opened: the load goes on with the next one, or gives up.
#[verifier::spinoff_prover]
#[verifier::rlimit(40)]
proof fn lemma_one_failure(
    s: Step,
    index: usize,
    budget: usize,
    after: After,
    files: spec_fn(usize) -> Result<(u32, Option<u64>), (String, String)>,
)
    requires
        in_load(s, index, budget, after),
        files(index) is Err,
    ensures
        ({
            let r = on_decoder_failure(s, files(index)->Err_0.0, files(index)->Err_0.1);
            let (next, place) = next_of(
                s.e.queue.len(),
                Some(index),
                s.e.play_mode,
                s.e.perm,
                s.e.perm_pos,
                false,
            );
            if budget > 1 && next is Some && next->0 != index {
                &&& in_load(r, next->0, (budget - 1) as usize, after)
                &&& r.e.queue == s.e.queue
                &&& r.e.play_mode == s.e.play_mode
                &&& r.e.perm == s.e.perm
                &&& r.e.perm_pos == place
                &&& r.e.skip_count == s.e.skip_count + 1
                &&& r.e.first_failure == first_of(s, index, files)
                &&& notices(r.fx) == notices(s.fx)
            } else {
                &&& r.e.status == PlayerStatus::Paused
                &&& r.e.loaded is None
                &&& r.e.task == Task::Idle
                &&& told_once(s, r, first_of(s, index, files), s.e.skip_count as nat + 1)
            }
        }),
{
    broadcast use {lemma_notices, lemma_last_notice};

    let (code, message) = files(index)->Err_0;
    let first = first_of(s, index, files);
    let (next, place) = next_of(
        s.e.queue.len(),
        Some(index),
        s.e.play_mode,
        s.e.perm,
        s.e.perm_pos,
        false,
    );
    if !(budget > 1 && next is Some && next->0 != index) {
        reveal(exhausted);
        let s1 = Step {
            e: EngineView {
                loaded: None,
                suppress_end: false,
                first_failure: first,
                skip_count: (s.e.skip_count + 1) as usize,
                status: PlayerStatus::Paused,
                perm_pos: if budget == 1 {
                    s.e.perm_pos
                } else {
                    place
                },
                ..s.e
            },
            ..s
        };
        lemma_reported_tells_once(s1, first);
        lemma_settled_tells_nothing(reported(s1), after);
        assert(on_decoder_failure(s, code, message) == settled(reported(s1), after));
    }
}

/// One entry that can be opened ends the load.
#[verifier::spinoff_prover]
#[verifier::rlimit(40)]
proof fn lemma_one_success(
    s: Step,
    index: usize,
    budget: usize,
    after: After,
    rate: u32,
    duration_ns: Option<u64>,
)
    requires
        in_load(s, index, budget, after),
    ensures
        ({
            let r = on_player(on_decoder(s, rate, duration_ns, 0), true);
            &&& r.e.idx == Some(index)
            &&& r.e.loaded == Some(s.e.queue[index as int])
            &&& plays_after(r, after)
            &&& told_once(s, r, s.e.first_failure, s.e.skip_count as nat)
        }),
{
    broadcast use {lemma_notices, lemma_last_notice};

    let d = on_decoder(s, rate, duration_ns, 0);
    let a = emit(with_length(d, index, duration_ns), Effect::Append);
    let t = Step {
        e: EngineView { status: PlayerStatus::Playing, suppress_end: false, ..a.e },
        ..a
    };
    lemma_reported_tells_once(t, s.e.first_failure);
    lemma_settled_tells_nothing(reported(t), after);
    assert(on_player(d, true) == settled(reported(t), after));
}

/// Whether the player plays once an entry has been loaded, or is paused where it was to be only
/// loaded.
pub open spec fn plays_after(r: Step, after: After) -> bool {
    match after {
        After::Sync => r.e.status == PlayerStatus::Playing,
        After::Hold { was_playing } => r.e.status == if was_playing {
            PlayerStatus::Playing
        } else {
            PlayerStatus::Paused
        },
        After::Remigrate { was_playing, .. } => was_playing ==> r.e.status == PlayerStatus::Playing,
        After::Recover { .. } => r.e.status == PlayerStatus::Playing,
    }
}

proof fn lemma_load_from(
    s: Step,
    index: usize,
    budget: usize,
    after: After,
    files: spec_fn(usize) -> Result<(u32, Option<u64>), (String, String)>,
    tries: nat,
    k: nat,
)
    requires
        in_load(s, index, budget, after),
        tries >= budget,
        forall|j: nat|
            j < k ==> (#[trigger] tried(s.e, index, s.e.perm_pos, budget as nat, j)) is Some
                && files(tried(s.e, index, s.e.perm_pos, budget as nat, j)->0) is Err,
    ensures
        ({
            let last = tried(s.e, index, s.e.perm_pos, budget as nat, k);
            let r = loaded_by(s, files, tries);
            let first = if k == 0 {
                s.e.first_failure
            } else {
                first_of(s, index, files)
            };
            &&& last is Some && files(last->0) is Ok ==> {
                &&& r.e.idx == last
                &&& r.e.loaded == Some(s.e.queue[last->0 as int])
                &&& plays_after(r, after)
                &&& told_once(s, r, first, s.e.skip_count as nat + k)
            }
            &&& last is None ==> {
                &&& r.e.status == PlayerStatus::Paused
                &&& r.e.loaded is None
                &&& r.e.task == Task::Idle
                &&& told_once(s, r, first, s.e.skip_count as nat + k)
            }
        }),
    decreases k,
{
    let last = tried(s.e, index, s.e.perm_pos, budget as nat, k);
    if k == 0 {
        if let Ok((rate, duration_ns)) = files(index) {
            lemma_one_success(s, index, budget, after, rate, duration_ns);
        }
    } else {
        assert(tried(s.e, index, s.e.perm_pos, budget as nat, 0) == Some(index));
        lemma_one_failure(s, index, budget, after, files);
        let r = on_decoder_failure(s, files(index)->Err_0.0, files(index)->Err_0.1);
        let (next, place) = next_of(
            s.e.queue.len(),
            Some(index),
            s.e.play_mode,
            s.e.perm,
            s.e.perm_pos,
            false,
        );
        if budget > 1 && next is Some && next->0 != index {
            let left = (budget - 1) as usize;
            assert forall|j: nat| j < k - 1 implies (#[trigger] tried(
                r.e,
                next->0,
                place,
                left as nat,
                j,
            )) is Some && files(tried(r.e, next->0, place, left as nat, j)->0) is Err by {
                lemma_tried_same(s.e, r.e, next->0, place, left as nat, j);
                assert(tried(s.e, index, s.e.perm_pos, budget as nat, j + 1) == tried(
                    s.e,
                    next->0,
                    place,
                    left as nat,
                    j,
                ));
            }
            lemma_tried_same(s.e, r.e, next->0, place, left as nat, (k - 1) as nat);
            lemma_load_from(r, next->0, left, after, files, (tries - 1) as nat, (k - 1) as nat);
        } else {
            assert(last is None);
            if k > 1 {
                assert(tried(s.e, index, s.e.perm_pos, budget as nat, 1) is None);
            }
            assert(loaded_by(r, files, (tries - 1) as nat) == r);
        }
    }
}

/// A load ends with the first entry in the order of play that can be opened, counted from the one
/// that was asked for. Where that is the one asked for, the user is told nothing; otherwise just
/// once, about the first entry that was skipped and how many there were.
pub proof fn law_load_finds_the_first_that_opens(
    s: Step,
    index: usize,
    after: After,
    files: spec_fn(usize) -> Result<(u32, Option<u64>), (String, String)>,
    skipped: nat,
)
    requires
        fits(s.e),
        index < s.e.queue.len(),
        ({
            let order = |j: nat| tried(s.e, index, s.e.perm_pos, s.e.queue.len(), j);
            &&& order(skipped) is Some
            &&& files(order(skipped)->0) is Ok
            &&& forall|j: nat|
                j < skipped ==> (#[trigger] order(j)) is Some && files(order(j)->0) is Err
        }),
    ensures
        ({
            let found = tried(s.e, index, s.e.perm_pos, s.e.queue.len(), skipped)->0;
            let r = loaded_by(load(s, index, after), files, s.e.queue.len());
            &&& r.e.idx == Some(found)
            &&& r.e.loaded == Some(s.e.queue[found as int])
            &&& plays_after(r, after)
            &&& skipped == 0 ==> found == index && notices(r.fx) == notices(s.fx)
            &&& skipped > 0 ==> {
                let (code, message) = files(index)->Err_0;
                &&& notices(r.fx) == notices(s.fx) + 1
                &&& last_notice(r.fx) == Some(
                    skip_notice(s.e.queue[index as int].track_id, code, message, skipped),
                )
            }
        }),
{
    broadcast use {lemma_notices, lemma_last_notice};

    reveal(load);
    reveal(queue_fits);
    let l = load(s, index, after);
    let order = |j: nat| tried(s.e, index, s.e.perm_pos, s.e.queue.len(), j);
    assert forall|j: nat| j < skipped implies (#[trigger] tried(
        l.e,
        index,
        l.e.perm_pos,
        s.e.queue.len(),
        j,
    )) is Some && files(tried(l.e, index, l.e.perm_pos, s.e.queue.len(), j)->0) is Err by {
        lemma_tried_same(s.e, l.e, index, s.e.perm_pos, s.e.queue.len(), j);
        assert(order(j) is Some);
    }
    lemma_tried_same(s.e, l.e, index, s.e.perm_pos, s.e.queue.len(), skipped);
    if skipped > 0 {
        assert(order(0) is Some);
    }
    lemma_load_from(
        l,
        index,
        s.e.queue.len() as usize,
        after,
        files,
        s.e.queue.len(),
        skipped,
    );
}

/// A load that comes to the end of the order of play without finding an entry that can be opened
/// leaves the player paused with nothing loaded, and the user is told just once.
pub proof fn law_load_gives_up(
    s: Step,
    index: usize,
    after: After,
    files: spec_fn(usize) -> Result<(u32, Option<u64>), (String, String)>,
    skipped: nat,
)
    requires
        fits(s.e),
        index < s.e.queue.len(),
        ({
            let order = |j: nat| tried(s.e, index, s.e.perm_pos, s.e.queue.len(), j);
            &&& order(skipped) is None
            &&& forall|j: nat|
                j < skipped ==> (#[trigger] order(j)) is Some && files(order(j)->0) is Err
        }),
    ensures
        ({
            let r = loaded_by(load(s, index, after), files, s.e.queue.len());
            let (code, message) = files(index)->Err_0;
            &&& r.e.status == PlayerStatus::Paused
            &&& r.e.loaded is None
            &&& r.e.task == Task::Idle
            &&& notices(r.fx) == notices(s.fx) + 1
            &&& last_notice(r.fx) == Some(
                skip_notice(s.e.queue[index as int].track_id, code, message, skipped),
            )
        }),
{
    broadcast use {lemma_notices, lemma_last_notice};

    reveal(load);
    reveal(queue_fits);
    let l = load(s, index, after);
    let order = |j: nat| tried(s.e, index, s.e.perm_pos, s.e.queue.len(), j);
    assert forall|j: nat| j < skipped implies (#[trigger] tried(
        l.e,
        index,
        l.e.perm_pos,
        s.e.queue.len(),
        j,
    )) is Some && files(tried(l.e, index, l.e.perm_pos, s.e.queue.len(), j)->0) is Err by {
        lemma_tried_same(s.e, l.e, index, s.e.perm_pos, s.e.queue.len(), j);
        assert(order(j) is Some);
    }
    lemma_tried_same(s.e, l.e, index, s.e.perm_pos, s.e.queue.len(), skipped);
    assert(skipped > 0);
    assert(order(0) is Some);
    lemma_load_from(
        l,
        index,
        s.e.queue.len() as usize,
        after,
        files,
        s.e.queue.len(),
        skipped,
    );
}

/// A load tries no more entries than the queue has, so it always comes to one of the two ends.
pub proof fn law_load_comes_to_an_end(
    e: EngineView,
    index: usize,
    perm_pos: usize,
    budget: nat,
    k: nat,
)
    requires
        k >= budget,
        k > 0,
    ensures
        tried(e, index, perm_pos, budget, k) is None,
    decreases k,
{
    let (next, place) = next_of(
        e.queue.len(),
        Some(index),
        e.play_mode,
        e.perm,
        perm_pos,
        false,
    );
    if budget > 1 && next is Some && next->0 != index {
        law_load_comes_to_an_end(e, next->0, place, (budget - 1) as nat, (k - 1) as nat);
    }
}

/// A recovery that does not lead to playing keeps the position to go on from, and still waits for
/// the output or leaves the rest to the user.
pub proof fn law_recovery_keeps_position(s: Step, at: u64)
    requires
        s.e.status != PlayerStatus::Playing,
    ensures
        settled(s, After::Recover { at }).e.resume_at == at,
        settled(s, After::Recover { at }).e.device_lost == s.e.device_lost,
        settled(s, After::Recover { at }).e.task == Task::Idle,
{
    reveal(settled);
}

/// When the output fails again in the middle of a recovery, the player goes on waiting for it, and
/// still knows where to go on.
pub proof fn law_recovery_survives_device_failure(s: Step, at: u64)
    requires
        s.e.task is LoadPlayer,
        s.e.task->LoadPlayer_after == (After::Recover { at }),
    ensures
        ({
            let r = on_player(s, false);
            &&& r.e.resume_at == at
            &&& r.e.device_lost
            &&& r.e.status == PlayerStatus::Paused
            &&& r.e.task == Task::Idle
        }),
{
    reveal(waiting);
    reveal(reported);
    reveal(settled);
}

/// A recovered output is taken up where playing was: from a position worth a seek, by seeking
/// there; and the wait is over.
pub proof fn law_recovery_resumes(s: Step, at: u64)
    requires
        well_formed(s.e),
        s.e.task is LoadPlayer,
        s.e.task->LoadPlayer_after == (After::Recover { at }),
        !s.e.device_lost,
    ensures
        ({
            let r = on_player(s, true);
            &&& r.e.status == PlayerStatus::Playing
            &&& !r.e.device_lost
            &&& at <= RESUME_MARGIN_NS ==> r.e.task == Task::Idle && r.fx.last()
                == Effect::SyncState
            &&& at > RESUME_MARGIN_NS ==> r.e.task is SeekInline
                && r.e.task->SeekInline_target_ns <= at
        }),
{
    reveal(reported);
    reveal(settled);
    reveal(sought);
    reveal(seek);
}

/// The device that was lost is taken as soon as it is active, however long the wait was.
pub proof fn law_original_device_first(id: String, waited: u64, allow: bool)
    ensures
        recover_target(Some(id), Some(true), waited, allow) == RecoverTarget::Original(id),
{
}

/// Where the user has chosen a device, no other is ever taken in its place; where not, the default
/// is taken after the grace period and no earlier.
pub proof fn law_chosen_device_only(wanted: Option<String>, active: Option<bool>, waited: u64)
    requires
        active != Some(true),
    ensures
        recover_target(wanted, active, waited, false) == RecoverTarget::KeepWaiting,
        recover_target(wanted, active, waited, true) == if waited >= DEVICE_WAIT_GRACE_TICKS {
            RecoverTarget::FollowDefault
        } else {
            RecoverTarget::KeepWaiting
        },
{
}

/// A seek never leaves a track whose length is known.
pub proof fn law_seek_stays_inside(s: Step, pos: u64, after: AfterSeek)
    requires
        fits(s.e),
        s.e.loaded is Some,
        s.e.idx is Some,
        s.e.queue[s.e.idx->0 as int].duration_ns > 0,
    ensures
        seek(s, pos, after).e.task is SeekInline,
        seek(s, pos, after).e.seek_offset <= s.e.queue[s.e.idx->0 as int].duration_ns,
        seek(s, pos, after).e.seek_offset <= pos,
{
    reveal(seek);
}

/// A seek is not taken for the switch to the track that was opened ahead: as long as playing stands
/// no more than the margin before the target, the entry does not change.
pub proof fn law_seek_is_no_switch(s: Step, pos: u64, player_ns: u64, player_empty: bool)
    requires
        well_formed(s.e),
        s.e.loaded is Some,
        s.e.pending is Some,
        s.e.status == PlayerStatus::Playing,
    ensures
        ({
            let r = on_inline_seek(seek(s, pos, AfterSeek::Sync), true);
            position(r.e, player_ns) + SWITCH_MARGIN_NS >= pos ==> tick_over(
                r,
                player_ns,
                player_empty,
            ).e.idx == s.e.idx
        }),
{
    reveal(seek);
    reveal(sought);
    reveal(waiting);
}

/// The switch to the track that was opened ahead is noticed whenever the position falls by more than
/// the margin between two ticks, however short the tracks are.
pub proof fn law_switch_is_noticed(s: Step, player_ns: u64, player_empty: bool)
    requires
        well_formed(s.e),
        s.e.status == PlayerStatus::Playing,
        s.e.pending is Some,
        position(s.e, player_ns) + SWITCH_MARGIN_NS < (s.e.pending->0).last_pos,
    ensures
        ({
            let r = tick_over(s, player_ns, player_empty);
            &&& r.e.idx == Some((s.e.pending->0).idx)
            &&& r.e.loaded == Some(s.e.queue[(s.e.pending->0).idx as int])
            &&& r.e.pending is None
        }),
{
}

/// While a track is opened ahead, an empty player is not taken for the end of the queue.
pub proof fn law_no_end_while_pending(s: Step, player_ns: u64)
    requires
        s.e.pending is Some,
    ensures
        tick_over(s, player_ns, true) == tick_over(s, player_ns, false),
{
}

/// The position that callers see lies inside the track where its length is known.
pub proof fn law_position_inside_track(e: EngineView, player_ns: u64)
    ensures
        now_playing(e, player_ns) matches Some(np) ==> np.duration_ns > 0 ==> np.position_ns
            <= np.duration_ns,
{
}

/// A stopped player shows no track.
pub proof fn law_stopped_shows_nothing(e: EngineView, player_ns: u64)
    requires
        e.status == PlayerStatus::Stopped,
    ensures
        shown(e, player_ns) is None,
{
}

/// Changing the output moves playing over: the current entry is loaded again for the new output, and
/// where playing stood is kept to go on from.
pub proof fn law_output_change_keeps_place(s: Step, player_ns: u64)
    requires
        well_formed(s.e),
        s.e.task == Task::Idle,
        s.e.idx is Some,
    ensures
        ({
            let r = remigrated(s, player_ns);
            &&& r.e.idx == s.e.idx
            &&& r.e.task is LoadDecoder
            &&& r.e.task->LoadDecoder_after == After::Remigrate {
                at: position(s.e, player_ns),
                was_playing: s.e.status == PlayerStatus::Playing,
            }
        }),
{
    reveal(remigrated);
    reveal(load);
}

/// When the output is lost, the player pauses, keeps the place to go on from and the current entry,
/// and waits.
pub proof fn law_lost_output_keeps_place(s: Step, player_ns: u64)
    requires
        s.e.loaded is Some,
    ensures
        ({
            let r = output_lost(s, player_ns);
            &&& r.e.device_lost
            &&& r.e.resume_at == position(s.e, player_ns)
            &&& r.e.status == PlayerStatus::Paused
            &&& r.e.idx == s.e.idx
            &&& r.e.loaded == s.e.loaded
        }),
{
    reveal(waiting);
}

/// Waiting for an output never ends by itself, however long it takes: neither a tick nor an answer
/// that brings no output ends it, and the place to go on from stays.
pub proof fn law_waiting_is_patient(s: Step, active: Option<bool>, d: DefaultOutput)
    requires
        s.e.device_lost,
        s.e.idx is Some,
    ensures
        recovering(s).e.device_lost && recovering(s).e.resume_at == s.e.resume_at,
        on_endpoint(s, active).e.device_lost && on_endpoint(s, active).e.resume_at == s.e.resume_at,
        on_default(s, d).e.device_lost && on_default(s, d).e.resume_at == s.e.resume_at,
        on_output(s, false).e.device_lost && on_output(s, false).e.resume_at == s.e.resume_at,
{
}

/// While an output is waited for, any command makes the next tick try to get one.
pub proof fn law_command_hastens_recovery(s: Step)
    requires
        s.e.device_lost,
        s.e.idx is Some,
        wanted_device(s.e.core) is Some,
    ensures
        ({
            let r = recovering(nudged(s));
            &&& r.e.task == Task::RecoverQuery
            &&& r.fx == s.fx.push(Effect::QueryEndpoint { id: wanted_device(s.e.core)->0 })
        }),
{
}

/// A player that stands still is noticed: each tick without movement is counted, and the last of
/// them loses the output.
pub proof fn law_standing_still_is_noticed(s: Step, player_ns: u64)
    requires
        fits(s.e),
        s.e.status == PlayerStatus::Playing,
        s.e.core.has_player,
        !s.e.suppress_end,
        s.e.loaded is Some,
        position(s.e, player_ns) == s.e.last_pos,
    ensures
        s.e.stalled_ticks + 1 < STALL_TICKS ==> watched(s, player_ns).e.stalled_ticks
            == s.e.stalled_ticks + 1,
        s.e.stalled_ticks + 1 == STALL_TICKS ==> watched(s, player_ns).e.device_lost && watched(
            s,
            player_ns,
        ).e.resume_at == position(s.e, player_ns),
{
    reveal(waiting);
}

/// The next track follows without a gap: it is appended to the player that plays, and neither the
/// player nor the output is touched, when it is opened or when it takes over.
pub proof fn law_gapless_keeps_the_output(
    s: Step,
    rate: u32,
    duration_ns: Option<u64>,
    player_ns: u64,
    idx: usize,
)
    ensures
        s.e.task is Prefetch ==> {
            let r = on_decoder(s, rate, duration_ns, player_ns);
            &&& r.fx == s.fx.push(Effect::Append)
            &&& r.e.core == s.e.core
            &&& r.e.idx == s.e.idx
        },
        switched(s, idx, player_ns).e.core == s.e.core,
        switched(s, idx, player_ns).fx == s.fx + seq![
            Effect::SyncState,
            Effect::StateEvent,
            Effect::ProgressEvent,
        ],
{
    assert(switched(s, idx, player_ns).fx =~= s.fx + seq![
        Effect::SyncState,
        Effect::StateEvent,
        Effect::ProgressEvent,
    ]);
}

/// A track that cannot be opened ahead changes nothing: the player is as if it had never been tried,
/// its place in the order of play with it, so the natural end goes on to the same entry.
pub proof fn law_failed_prefetch_changes_nothing(
    s: Step,
    player_ns: u64,
    code: String,
    message: String,
)
    requires
        s.e.task == Task::Idle,
        prefetching(s, player_ns).e.task is Prefetch,
    ensures
        on_decoder_failure(prefetching(s, player_ns), code, message).e == s.e,
{
}

/// A track that is loaded only makes no sound: the player is paused before the track is appended,
/// and the state is that of a pause.
pub proof fn law_restored_track_is_silent(s: Step)
    requires
        s.e.task is PausedPlayer,
    ensures
        on_player(s, true).e.status == PlayerStatus::Paused,
        on_player(s, true).fx == s.fx + seq![Effect::Pause, Effect::Append, Effect::SyncState],
{
    assert(on_player(s, true).fx =~= s.fx + seq![
        Effect::Pause,
        Effect::Append,
        Effect::SyncState,
    ]);
}

/// The natural end of a track repeats it where one track is repeated, stops behind the last entry
/// where the queue is played once, and begins again where the whole queue is repeated.
pub proof fn law_natural_end(s: Step)
    requires
        well_formed(s.e),
        s.e.task == Task::Idle,
        s.e.idx is Some,
    ensures
        s.e.play_mode == PlayMode::LoopOne ==> ended(s).e.idx == s.e.idx && ended(
            s,
        ).e.task is LoadDecoder,
        s.e.play_mode == PlayMode::Sequential && s.e.idx->0 + 1 == s.e.queue.len() ==> {
            &&& ended(s).e.status == PlayerStatus::Stopped
            &&& ended(s).e.loaded is None
            &&& ended(s).e.task == Task::Idle
        },
        s.e.play_mode == PlayMode::LoopAll && s.e.idx->0 + 1 == s.e.queue.len() ==> ended(s).e.idx
            == Some(0usize) && ended(s).e.task is LoadDecoder,
{
    reveal(load);
    reveal(advanced);
    vstd::arithmetic::div_mod::lemma_mod_self_0(s.e.queue.len() as int);
}

/// Whether an effect is one that the player waits for an answer to.
pub open spec fn is_question(f: Effect) -> bool {
    f is OpenDecoder || f is NewPlayer || f is SeekInline || f is SeekDecoder || f is QueryEndpoint
        || f is ProbeDefault || f is EnsureOutput
}

/// Whether a task waits for the answer to an effect.
pub open spec fn awaits(task: Task, f: Effect) -> bool {
    match task {
        Task::Idle => false,
        Task::LoadDecoder { .. } => f is OpenDecoder,
        Task::LoadPlayer { .. } => f is NewPlayer,
        Task::PausedDecoder { .. } => f is OpenDecoder,
        Task::PausedPlayer { .. } => f is NewPlayer,
        Task::SeekInline { .. } => f is SeekInline,
        Task::SeekDecoder { .. } => f is SeekDecoder,
        Task::SeekPlayer { .. } => f is NewPlayer,
        Task::Prefetch { .. } => f is OpenDecoder,
        Task::RecoverQuery => f is QueryEndpoint,
        Task::RecoverDefault => f is ProbeDefault,
        Task::RecoverOpen => f is EnsureOutput,
    }
}

/// Whether effects have been added to others, and no question among them.
#[verifier::opaque]
pub open spec fn asks_nothing(before: Seq<Effect>, now: Seq<Effect>) -> bool {
    &&& before.is_prefix_of(now)
    &&& forall|i: int| before.len() <= i < now.len() ==> !is_question(#[trigger] now[i])
}

/// Whether a player that ends up idle has asked nothing, and one that ends up waiting has asked one
/// thing, at last: what it waits for.
pub open spec fn asks_what_it_awaits(before: Seq<Effect>, r: Step) -> bool {
    if r.e.task == Task::Idle {
        asks_nothing(before, r.fx)
    } else {
        &&& r.fx.len() > 0
        &&& awaits(r.e.task, r.fx.last())
        &&& asks_nothing(before, r.fx.drop_last())
    }
}

broadcast proof fn lemma_asks_nothing_more(before: Seq<Effect>, now: Seq<Effect>, f: Effect)
    requires
        asks_nothing(before, now),
        !is_question(f),
    ensures
        #[trigger] asks_nothing(before, now.push(f)),
{
    reveal(asks_nothing);
    assert(before =~= now.push(f).subrange(0, before.len() as int)) by {
        assert(before =~= now.subrange(0, before.len() as int));
    }
    assert forall|i: int| before.len() <= i < now.push(f).len() implies !is_question(
        #[trigger] now.push(f)[i],
    ) by {
        if i < now.len() {
            assert(now.push(f)[i] == now[i]);
        }
    }
}

broadcast proof fn lemma_last_asked(now: Seq<Effect>, f: Effect)
    ensures
        #[trigger] now.push(f).drop_last() == now,
{
    assert(now.push(f).drop_last() =~= now);
}

proof fn lemma_asks_nothing_yet(before: Seq<Effect>)
    ensures
        asks_nothing(before, before),
{
    reveal(asks_nothing);
    assert(before =~= before.subrange(0, before.len() as int));
}

proof fn lemma_load_asks(before: Seq<Effect>, s: Step, i: usize, after: After)
    requires
        asks_nothing(before, s.fx),
    ensures
        asks_what_it_awaits(before, load(s, i, after)),
{
    broadcast use {lemma_asks_nothing_more, lemma_last_asked};

    reveal(load);
}

proof fn lemma_sought_asks(before: Seq<Effect>, s: Step, after: AfterSeek)
    requires
        asks_nothing(before, s.fx),
    ensures
        asks_what_it_awaits(before, sought(s, after)),
{
    broadcast use {lemma_asks_nothing_more, lemma_last_asked};

    reveal(sought);
}

proof fn lemma_seek_asks(before: Seq<Effect>, s: Step, pos: u64, after: AfterSeek)
    requires
        asks_nothing(before, s.fx),
    ensures
        asks_what_it_awaits(before, seek(s, pos, after)),
{
    broadcast use {lemma_asks_nothing_more, lemma_last_asked};

    reveal(seek);
    reveal(sought);
}

proof fn lemma_settled_asks(before: Seq<Effect>, s: Step, after: After)
    requires
        asks_nothing(before, s.fx),
    ensures
        asks_what_it_awaits(before, settled(s, after)),
{
    broadcast use {lemma_asks_nothing_more, lemma_last_asked};

    reveal(settled);
    reveal(waiting);
    match after {
        After::Remigrate { at, was_playing } => {
            lemma_seek_asks(before, s, at, AfterSeek::Remigrate { was_playing });
            lemma_sought_asks(before, s, AfterSeek::Remigrate { was_playing });
        },
        After::Recover { at } => {
            lemma_seek_asks(before, s, at, AfterSeek::Recover { at });
            lemma_sought_asks(before, s, AfterSeek::Recover { at });
        },
        _ => {},
    }
}

proof fn lemma_reported_asks(before: Seq<Effect>, s: Step)
    requires
        asks_nothing(before, s.fx),
    ensures
        asks_nothing(before, reported(s).fx),
{
    broadcast use lemma_asks_nothing_more;

    reveal(reported);
}

proof fn lemma_exhausted_asks(before: Seq<Effect>, s: Step, after: After)
    requires
        asks_nothing(before, s.fx),
    ensures
        asks_what_it_awaits(before, exhausted(s, after)),
{
    reveal(exhausted);
    let s1 = Step {
        e: EngineView {
            loaded: None,
            suppress_end: false,
            status: PlayerStatus::Paused,
            ..s.e
        },
        ..s
    };
    lemma_reported_asks(before, s1);
    lemma_settled_asks(before, reported(s1), after);
}

proof fn lemma_advanced_asks(before: Seq<Effect>, s: Step, manual: bool)
    requires
        s.e.task == Task::Idle,
        asks_nothing(before, s.fx),
    ensures
        asks_what_it_awaits(before, advanced(s, manual)),
{
    broadcast use {lemma_asks_nothing_more, lemma_last_asked};

    reveal(advanced);
    reveal(load);
}

proof fn lemma_remigrated_asks(before: Seq<Effect>, s: Step, player_ns: u64)
    requires
        s.e.task == Task::Idle,
        asks_nothing(before, s.fx),
    ensures
        asks_what_it_awaits(before, remigrated(s, player_ns)),
{
    broadcast use {lemma_asks_nothing_more, lemma_last_asked};

    reveal(remigrated);
    reveal(load);
}

/// An idle player that carries out a command either stays idle and has asked nothing, or waits for
/// the answer to the one question that it has asked.
#[verifier::spinoff_prover]
#[verifier::rlimit(50)]
pub proof fn law_command_asks_what_it_awaits(
    s: Step,
    cmd: EngineCommand,
    seed: u64,
    player_ns: u64,
)
    requires
        s.e.task == Task::Idle,
    ensures
        asks_what_it_awaits(s.fx, commanded(s, cmd, seed, player_ns)),
{
    broadcast use {lemma_asks_nothing_more, lemma_last_asked};

    lemma_asks_nothing_yet(s.fx);
    let n = nudged(s);
    match cmd {
        EngineCommand::SetQueue { .. } => {
            reveal(queue_set);
            reveal(load);
        },
        EngineCommand::Toggle => {
            reveal(toggled);
            reveal(load);
        },
        EngineCommand::Stop => {
            reveal(stopped);
        },
        EngineCommand::Next => {
            lemma_advanced_asks(s.fx, n, true);
        },
        EngineCommand::Previous => {
            reveal(stepped_back);
            reveal(load);
        },
        EngineCommand::Seek { position_ns } => {
            lemma_seek_asks(s.fx, n, position_ns, AfterSeek::Sync);
        },
        EngineCommand::SetVolume { .. } => {
            reveal(volume_set);
        },
        EngineCommand::SetOutputDevice { id } => {
            lemma_remigrated_asks(
                s.fx,
                Step { e: EngineView { core: preferring(n.e.core, id), ..n.e }, ..n },
                player_ns,
            );
        },
        EngineCommand::SetOutputMode { mode } => {
            lemma_remigrated_asks(
                s.fx,
                Step { e: EngineView { core: in_mode(n.e.core, mode), ..n.e }, ..n },
                player_ns,
            );
        },
        EngineCommand::RetryOutput => {
            lemma_remigrated_asks(
                s.fx,
                Step { e: EngineView { core: fallback_forgotten(n.e.core), ..n.e }, ..n },
                player_ns,
            );
        },
        _ => {},
    }
}

/// So does an idle player at each of the three parts of a tick.
#[verifier::spinoff_prover]
#[verifier::rlimit(50)]
pub proof fn law_tick_asks_what_it_awaits(s: Step, player_ns: u64, player_empty: bool)
    requires
        s.e.task == Task::Idle,
    ensures
        asks_what_it_awaits(s.fx, ticked(s, player_ns)),
        asks_what_it_awaits(s.fx, prefetching(s, player_ns)),
        asks_what_it_awaits(s.fx, tick_over(s, player_ns, player_empty)),
{
    broadcast use {lemma_asks_nothing_more, lemma_last_asked};

    lemma_asks_nothing_yet(s.fx);
    reveal(waiting);
    lemma_advanced_asks(s.fx, s, false);
    if s.e.idx is Some {
        lemma_load_asks(
            s.fx,
            Step { e: EngineView { status: PlayerStatus::Paused, ..s.e }, ..s },
            s.e.idx->0,
            After::Hold { was_playing: s.e.status == PlayerStatus::Playing },
        );
    }
}

/// So does a player that waits for a decoder, when it is opened and when it cannot be.
#[verifier::spinoff_prover]
#[verifier::rlimit(50)]
pub proof fn law_decoder_answer_asks_what_it_awaits(
    s: Step,
    rate: u32,
    duration_ns: Option<u64>,
    player_ns: u64,
    code: String,
    message: String,
)
    requires
        s.e.task is LoadDecoder || s.e.task is PausedDecoder || s.e.task is Prefetch,
    ensures
        asks_what_it_awaits(s.fx, on_decoder(s, rate, duration_ns, player_ns)),
        asks_what_it_awaits(s.fx, on_decoder_failure(s, code, message)),
{
    broadcast use {lemma_asks_nothing_more, lemma_last_asked};

    lemma_asks_nothing_yet(s.fx);
    if let Task::LoadDecoder { after, .. } = s.e.task {
        assert forall|t: Step| t.fx == s.fx implies asks_what_it_awaits(
            s.fx,
            #[trigger] exhausted(t, after),
        ) by {
            lemma_exhausted_asks(s.fx, t, after);
        }
    }
}

/// So does a player that waits for a player of the output, when it is made and when it cannot be.
#[verifier::spinoff_prover]
#[verifier::rlimit(50)]
pub proof fn law_player_answer_asks_what_it_awaits(s: Step, ok: bool)
    requires
        s.e.task is LoadPlayer || s.e.task is PausedPlayer || s.e.task is SeekPlayer,
    ensures
        asks_what_it_awaits(s.fx, on_player(s, ok)),
{
    broadcast use {lemma_asks_nothing_more, lemma_last_asked};

    lemma_asks_nothing_yet(s.fx);
    reveal(waiting);
    assert forall|t: Step| asks_nothing(s.fx, t.fx) implies asks_nothing(
        s.fx,
        (#[trigger] reported(t)).fx,
    ) by {
        lemma_reported_asks(s.fx, t);
    }
    assert forall|t: Step, a: After| asks_nothing(s.fx, t.fx) implies asks_what_it_awaits(
        s.fx,
        #[trigger] settled(t, a),
    ) by {
        lemma_settled_asks(s.fx, t, a);
    }
    assert forall|t: Step, a: AfterSeek| asks_nothing(s.fx, t.fx) implies asks_what_it_awaits(
        s.fx,
        #[trigger] sought(t, a),
    ) by {
        lemma_sought_asks(s.fx, t, a);
    }
}

/// So does a player in the middle of a seek, at the answer that it waits for.
#[verifier::spinoff_prover]
pub proof fn law_seek_answer_asks_what_it_awaits(
    s: Step,
    ok: bool,
    rate: u32,
    actual_ns: u64,
    code: String,
    message: String,
)
    ensures
        s.e.task is SeekInline ==> asks_what_it_awaits(s.fx, on_inline_seek(s, ok)),
        s.e.task is SeekDecoder ==> asks_what_it_awaits(
            s.fx,
            on_sought_decoder(s, rate, actual_ns),
        ) && asks_what_it_awaits(s.fx, on_decoder_failure(s, code, message)),
{
    broadcast use {lemma_asks_nothing_more, lemma_last_asked};

    lemma_asks_nothing_yet(s.fx);
    assert forall|t: Step, a: AfterSeek| asks_nothing(s.fx, t.fx) implies asks_what_it_awaits(
        s.fx,
        #[trigger] sought(t, a),
    ) by {
        lemma_sought_asks(s.fx, t, a);
    }
}

/// So does a player that gets its output back, at the answer that it waits for.
pub proof fn law_recovery_answer_asks_what_it_awaits(
    s: Step,
    active: Option<bool>,
    d: DefaultOutput,
    ok: bool,
)
    ensures
        s.e.task is RecoverQuery ==> asks_what_it_awaits(s.fx, on_endpoint(s, active)),
        s.e.task is RecoverDefault ==> asks_what_it_awaits(s.fx, on_default(s, d)),
        s.e.task is RecoverOpen ==> asks_what_it_awaits(s.fx, on_output(s, ok)),
{
    broadcast use {lemma_asks_nothing_more, lemma_last_asked};

    lemma_asks_nothing_yet(s.fx);
    reveal(load);
}

} // verus!
