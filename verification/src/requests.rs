//! Requests to play something: which tracks make up the queue, and where playing starts.

use crate::engine::state::EngineCommand;
use crate::error::{AppError, E_INVALID_ARG, E_PLAYLIST_NOT_FOUND, E_TRACK_NOT_FOUND};
use crate::models::{QueuePosition, QueueTrack, Track};
use crate::playlists::position_of;
use vstd::prelude::*;

verus! {

/// Whether a queue has to be filled up: with a single track, going on would only start it over.
pub fn wants_context(ids: &[i64]) -> (r: bool)
    ensures
        r == (ids@.len() <= 1),
{
    ids.len() <= 1
}

/// Whether the tracks of an album can fill up a queue. Otherwise the whole library does.
pub fn album_suffices(album_ids: &[i64]) -> (r: bool)
    ensures
        r == (album_ids@.len() > 1),
{
    album_ids.len() > 1
}

/// The queue that is played for some tracks, given what could fill it up.
pub open spec fn expanded(ids: Seq<i64>, album_ids: Seq<i64>, library_ids: Seq<i64>) -> Seq<i64> {
    let context = if album_ids.len() > 1 {
        album_ids
    } else {
        library_ids
    };
    if ids.len() <= 1 && context.len() > ids.len() {
        context
    } else {
        ids
    }
}

/// Fills up a queue of at most one track: with the track's album where that has more than one track,
/// else with the library in its order. A queue is never made shorter.
pub fn expand_context(ids: Vec<i64>, album_ids: Vec<i64>, library_ids: Vec<i64>) -> (r: Vec<i64>)
    ensures
        r@ == expanded(ids@, album_ids@, library_ids@),
        r@.len() >= ids@.len(),
{
    if !wants_context(ids.as_slice()) {
        return ids;
    }
    let context = if album_suffices(album_ids.as_slice()) {
        album_ids
    } else {
        library_ids
    };
    if context.len() > ids.len() {
        context
    } else {
        ids
    }
}

/// The track that a queue is filled up around.
pub open spec fn seed(ids: Seq<i64>, start: Option<i64>) -> Option<i64> {
    match start {
        Some(s) => Some(s),
        None => if ids.len() > 0 {
            Some(ids[0])
        } else {
            None
        },
    }
}

/// The track that a queue is filled up around: the one to start with, else the first.
pub fn seed_of(ids: &[i64], start: Option<i64>) -> (r: Option<i64>)
    ensures
        r == seed(ids@, start),
{
    match start {
        Some(s) => Some(s),
        None => if ids.len() > 0 {
            Some(ids[0])
        } else {
            None
        },
    }
}

/// The length of a track in nanoseconds. Milliseconds below 0 count as 0.
pub open spec fn length_ns(ms: i64) -> u64 {
    if ms <= 0 {
        0
    } else if ms * 1_000_000 > u64::MAX {
        u64::MAX
    } else {
        (ms * 1_000_000) as u64
    }
}

/// The entry of the queue for a track.
pub open spec fn queued(t: Track) -> QueueTrack {
    QueueTrack {
        track_id: t.id,
        path: t.path,
        title: t.title,
        artist: t.artist,
        album: t.album,
        duration_ns: length_ns(t.duration_ms),
    }
}

fn entry(t: &Track) -> (r: QueueTrack)
    ensures
        r == queued(*t),
{
    let duration_ns: u64 = if t.duration_ms <= 0 {
        0
    } else if t.duration_ms as u64 > 18_446_744_073_709 {
        0xffff_ffff_ffff_ffff
    } else {
        t.duration_ms as u64 * 1_000_000
    };
    QueueTrack {
        track_id: t.id,
        path: t.path.clone(),
        title: t.title.clone(),
        artist: t.artist.clone(),
        album: t.album.clone(),
        duration_ns,
    }
}

/// Where the first track with an id stands, or 0.
pub open spec fn start_of(tracks: Seq<Track>, id: i64) -> int
    decreases tracks.len(),
{
    if tracks.len() == 0 {
        0
    } else if exists|k: int| 0 <= k < tracks.len() - 1 && (#[trigger] tracks[k]).id == id {
        start_of(tracks.drop_last(), id)
    } else if tracks.last().id == id {
        tracks.len() - 1
    } else {
        0
    }
}

proof fn lemma_start_of(tracks: Seq<Track>, id: i64, i: int)
    requires
        0 <= i < tracks.len(),
        tracks[i].id == id,
        forall|k: int| 0 <= k < i ==> (#[trigger] tracks[k]).id != id,
    ensures
        start_of(tracks, id) == i,
    decreases tracks.len(),
{
    if i < tracks.len() - 1 {
        assert(tracks[i].id == id);
        let front = tracks.drop_last();
        assert(front[i] == tracks[i]);
        assert forall|k: int| 0 <= k < i implies (#[trigger] front[k]).id != id by {
            assert(front[k] == tracks[k]);
        }
        lemma_start_of(front, id, i);
    }
}

/// The queue of some tracks, and where playing starts in it.
fn queue_of(tracks: &[Track], start: Option<i64>) -> (r: (Vec<QueueTrack>, usize))
    ensures
        r.0@ == tracks@.map_values(|t: Track| queued(t)),
        r.1 == match start {
            Some(id) => start_of(tracks@, id),
            None => 0,
        },
        tracks@.len() > 0 ==> r.1 < tracks@.len(),
{
    let n: usize = tracks.len();
    let mut items: Vec<QueueTrack> = Vec::new();
    let mut at: Option<usize> = None;
    let mut i: usize = 0;
    while i < n
        invariant
            n == tracks@.len(),
            i <= n,
            items@ =~= tracks@.take(i as int).map_values(|t: Track| queued(t)),
            at matches Some(k) ==> k < i && start is Some && tracks@[k as int].id == start->0 && forall|
                j: int,
            | 0 <= j < k ==> (#[trigger] tracks@[j]).id != start->0,
            at is None && start is Some ==> forall|j: int|
                0 <= j < i ==> (#[trigger] tracks@[j]).id != start->0,
        decreases n - i,
    {
        items.push(entry(&tracks[i]));
        if let Some(id) = start {
            if at.is_none() && tracks[i].id == id {
                at = Some(i);
            }
        }
        i = i + 1;
    }
    proof {
        assert(tracks@.take(n as int) =~= tracks@);
        if let Some(id) = start {
            if let Some(k) = at {
                lemma_start_of(tracks@, id, k as int);
            } else {
                lemma_no_start(tracks@, id);
            }
        }
    }
    match at {
        Some(k) => (items, k),
        None => (items, 0),
    }
}

proof fn lemma_no_start(tracks: Seq<Track>, id: i64)
    requires
        forall|k: int| 0 <= k < tracks.len() ==> (#[trigger] tracks[k]).id != id,
    ensures
        start_of(tracks, id) == 0,
{
    if tracks.len() > 0 {
        assert(tracks[tracks.len() - 1].id != id);
    }
}

/// What a request to play leads to.
#[derive(Debug)]
pub struct PlayPlan {
    /// What the engine is told, in order.
    pub commands: Vec<EngineCommand>,
    pub position: QueuePosition,
}

/// Whether a command puts the queue of some tracks in place, to start with the one at an index.
pub open spec fn sets_queue(c: EngineCommand, tracks: Seq<Track>, from: int, plays: bool) -> bool {
    &&& c matches EngineCommand::SetQueue { items, start, autoplay }
    &&& items@ == tracks.map_values(|t: Track| queued(t))
    &&& start == from
    &&& start < items@.len()
    &&& autoplay == plays
}

/// Whether a plan plays some tracks from one of them on.
pub open spec fn plays(p: PlayPlan, tracks: Seq<Track>, asked: usize, start: Option<i64>) -> bool {
    let from = match start {
        Some(id) => start_of(tracks, id),
        None => 0,
    };
    &&& p.position.index == from
    &&& p.position.count == asked
    &&& p.commands@.len() == 1
    &&& sets_queue(p.commands@[0], tracks, from, true)
}

/// Whether a plan brings some tracks back, paused at a place in one of them.
pub open spec fn restores(
    p: PlayPlan,
    tracks: Seq<Track>,
    asked: usize,
    track_id: i64,
    position_ns: u64,
) -> bool {
    let from = start_of(tracks, track_id);
    &&& p.position.index == from
    &&& p.position.count == asked
    &&& p.commands@.len() == if position_ns > 0 {
        3int
    } else {
        2
    }
    &&& sets_queue(p.commands@[0], tracks, from, false)
    &&& p.commands@[1] == (EngineCommand::LoadPaused { index: from as usize })
    &&& position_ns > 0 ==> p.commands@[2] == (EngineCommand::Seek { position_ns })
}

/// Plays a queue: its tracks as they were found in the library, and how many were asked for.
pub fn play_queue(tracks: &[Track], asked: usize, start: Option<i64>) -> (r: Result<PlayPlan, AppError>)
    ensures
        r is Ok <==> tracks@.len() > 0,
        r matches Err(e) ==> e.code@ == E_TRACK_NOT_FOUND@ && e.message@
            == "队列中没有可播放的歌曲（文件可能已被移除）"@,
        r matches Ok(p) ==> plays(p, tracks@, asked, start),
{
    if tracks.len() == 0 {
        return Err(
            AppError::new(
                E_TRACK_NOT_FOUND,
                "队列中没有可播放的歌曲（文件可能已被移除）".to_owned(),
            ),
        );
    }
    let (items, from) = queue_of(tracks, start);
    let mut commands: Vec<EngineCommand> = Vec::new();
    commands.push(EngineCommand::SetQueue { items, start: from, autoplay: true });
    Ok(PlayPlan { commands, position: QueuePosition { index: from, count: asked } })
}

/// The tracks that are asked for, or the single track where no list is given.
pub open spec fn list_or_track(track_id: i64, queue: Option<Vec<i64>>) -> Seq<i64> {
    match queue {
        Some(ids) => if ids@.len() > 0 {
            ids@
        } else {
            seq![track_id]
        },
        None => seq![track_id],
    }
}

/// The tracks that are asked for, or the single track where no list is given.
pub fn requested(track_id: i64, queue: Option<Vec<i64>>) -> (r: Vec<i64>)
    ensures
        r@ == list_or_track(track_id, queue),
        r@.len() > 0,
{
    match queue {
        Some(ids) => {
            if ids.len() > 0 {
                return ids;
            }
        },
        None => {},
    }
    let mut r: Vec<i64> = Vec::new();
    r.push(track_id);
    assert(r@ =~= seq![track_id]);
    r
}

/// Brings back the track and the place where playing was left: the queue is loaded and stays
/// paused.
pub fn player_restore(tracks: &[Track], asked: usize, track_id: i64, position_ns: u64) -> (r: Result<
    PlayPlan,
    AppError,
>)
    ensures
        r is Ok <==> tracks@.len() > 0,
        r matches Err(e) ==> e.code@ == E_TRACK_NOT_FOUND@ && e.message@ == "无法恢复上次的曲目"@,
        r matches Ok(p) ==> restores(p, tracks@, asked, track_id, position_ns),
{
    if tracks.len() == 0 {
        return Err(AppError::new(E_TRACK_NOT_FOUND, "无法恢复上次的曲目".to_owned()));
    }
    let (items, from) = queue_of(tracks, Some(track_id));
    let mut commands: Vec<EngineCommand> = Vec::new();
    commands.push(EngineCommand::SetQueue { items, start: from, autoplay: false });
    commands.push(EngineCommand::LoadPaused { index: from });
    if position_ns > 0 {
        commands.push(EngineCommand::Seek { position_ns });
    }
    Ok(PlayPlan { commands, position: QueuePosition { index: from, count: asked } })
}

/// The queue for playing a track: the list it was picked from, which has to hold it.
pub fn player_play_track(track_id: i64, queue: Option<Vec<i64>>) -> (r: Result<Vec<i64>, AppError>)
    ensures
        r is Ok <==> list_or_track(track_id, queue).contains(track_id),
        r matches Ok(ids) ==> ids@ == list_or_track(track_id, queue),
        r matches Err(e) ==> e.code@ == E_INVALID_ARG@ && e.message@ == "起始歌曲不在队列中"@,
{
    let ids = requested(track_id, queue);
    if position_of(ids.as_slice(), track_id).is_none() {
        return Err(AppError::param("起始歌曲不在队列中".to_owned()));
    }
    Ok(ids)
}

/// The queue for playing an album.
pub fn player_play_album(ids: Vec<i64>) -> (r: Result<Vec<i64>, AppError>)
    ensures
        r is Ok <==> ids@.len() > 0,
        r matches Ok(v) ==> v == ids,
        r matches Err(e) ==> e.code@ == E_TRACK_NOT_FOUND@ && e.message@ == "专辑为空或无此专辑"@,
{
    if ids.len() == 0 {
        return Err(AppError::new(E_TRACK_NOT_FOUND, "专辑为空或无此专辑".to_owned()));
    }
    Ok(ids)
}

/// The queue for playing a playlist.
pub fn player_play_playlist(ids: Vec<i64>) -> (r: Result<Vec<i64>, AppError>)
    ensures
        r is Ok <==> ids@.len() > 0,
        r matches Ok(v) ==> v == ids,
        r matches Err(e) ==> e.code@ == E_PLAYLIST_NOT_FOUND@ && e.message@
            == "播放列表为空或无此列表"@,
{
    if ids.len() == 0 {
        return Err(AppError::new(E_PLAYLIST_NOT_FOUND, "播放列表为空或无此列表".to_owned()));
    }
    Ok(ids)
}

/// The queue for playing the whole library.
pub fn player_play_all(ids: Vec<i64>) -> (r: Result<Vec<i64>, AppError>)
    ensures
        r is Ok <==> ids@.len() > 0,
        r matches Ok(v) ==> v == ids,
        r matches Err(e) ==> e.code@ == E_TRACK_NOT_FOUND@ && e.message@ == "曲库为空"@,
{
    if ids.len() == 0 {
        return Err(AppError::new(E_TRACK_NOT_FOUND, "曲库为空".to_owned()));
    }
    Ok(ids)
}

/// Whatever is asked for, the queue ends up with more than one track where the track's album or the
/// library has more than one.
pub proof fn law_no_queue_of_one(ids: Seq<i64>, album_ids: Seq<i64>, library_ids: Seq<i64>)
    requires
        album_ids.len() > 1 || library_ids.len() > 1,
    ensures
        expanded(ids, album_ids, library_ids).len() > 1,
{
}

/// Playing starts with the track that was asked for wherever it was found.
pub proof fn law_playing_starts_as_asked(tracks: Seq<Track>, id: i64)
    requires
        exists|k: int| 0 <= k < tracks.len() && (#[trigger] tracks[k]).id == id,
    ensures
        0 <= start_of(tracks, id) < tracks.len(),
        tracks[start_of(tracks, id)].id == id,
    decreases tracks.len(),
{
    let k = choose|k: int| 0 <= k < tracks.len() && (#[trigger] tracks[k]).id == id;
    if exists|j: int| 0 <= j < tracks.len() - 1 && (#[trigger] tracks[j]).id == id {
        let j = choose|j: int| 0 <= j < tracks.len() - 1 && (#[trigger] tracks[j]).id == id;
        let front = tracks.drop_last();
        assert(front[j].id == id);
        law_playing_starts_as_asked(front, id);
    } else {
        assert(k == tracks.len() - 1);
    }
}

/// A queue of more than one track is played as it is; a shorter one gives way to the album where
/// that has more than one track, and else to the library where that is longer.
pub proof fn law_context(ids: Seq<i64>, album_ids: Seq<i64>, library_ids: Seq<i64>)
    ensures
        ids.len() > 1 ==> expanded(ids, album_ids, library_ids) == ids,
        ids.len() <= 1 && album_ids.len() > 1 ==> expanded(ids, album_ids, library_ids) == album_ids,
        ids.len() <= 1 && album_ids.len() <= 1 && library_ids.len() > ids.len() ==> expanded(
            ids,
            album_ids,
            library_ids,
        ) == library_ids,
        ids.len() <= 1 && album_ids.len() <= 1 && library_ids.len() <= ids.len() ==> expanded(
            ids,
            album_ids,
            library_ids,
        ) == ids,
{
}

/// A queue is filled up around the track to start with, and without one around its first track.
pub proof fn law_seed(ids: Seq<i64>, id: i64)
    ensures
        seed(ids, Some(id)) == Some(id),
        seed(seq![id] + ids, None) == Some(id),
        seed(Seq::empty(), None) is None,
{
}

/// An entry of the queue is the track of its id: the same file, the same texts, and as many
/// nanoseconds as the track has milliseconds, a million each.
pub proof fn law_queued(t: Track)
    ensures
        queued(t).track_id == t.id,
        queued(t).path == t.path,
        queued(t).title == t.title,
        queued(t).artist == t.artist,
        queued(t).album == t.album,
        0 <= t.duration_ms <= 18_446_744_073_709 ==> queued(t).duration_ns == t.duration_ms
            * 1_000_000,
        t.duration_ms < 0 ==> queued(t).duration_ns == 0,
        t.duration_ms > 18_446_744_073_709 ==> queued(t).duration_ns == u64::MAX,
{
}

/// Playing starts with the first track that has the id that was asked for; where there is none, or
/// none was asked for, with the first track of all.
pub proof fn law_start(tracks: Seq<Track>, id: i64, i: int)
    ensures
        0 <= i < tracks.len() && tracks[i].id == id && (forall|k: int|
            0 <= k < i ==> (#[trigger] tracks[k]).id != id) ==> start_of(tracks, id) == i,
        (forall|k: int| 0 <= k < tracks.len() ==> (#[trigger] tracks[k]).id != id) ==> start_of(
            tracks,
            id,
        ) == 0,
{
    if 0 <= i < tracks.len() && tracks[i].id == id && (forall|k: int|
        0 <= k < i ==> (#[trigger] tracks[k]).id != id) {
        lemma_start_of(tracks, id, i);
    }
    if forall|k: int| 0 <= k < tracks.len() ==> (#[trigger] tracks[k]).id != id {
        lemma_no_start(tracks, id);
    }
}

/// A request to play starts the engine at once: one command, with every track that was found in its
/// order, and the answer names the index that the command starts at.
pub proof fn law_play_starts(p: PlayPlan, tracks: Seq<Track>, asked: usize, start: Option<i64>)
    requires
        plays(p, tracks, asked, start),
    ensures
        p.position.count == asked,
        p.commands@.len() == 1,
        p.commands@[0] is SetQueue,
        p.commands@[0]->autoplay,
        p.commands@[0]->SetQueue_start == p.position.index,
        start is None ==> p.position.index == 0,
        p.commands@[0]->items@.len() == tracks.len(),
        forall|i: int|
            0 <= i < tracks.len() ==> (#[trigger] p.commands@[0]->items@[i]).track_id == tracks[i].id,
{
}

/// What is brought back stays paused: the queue is not started, the track is loaded paused, and only
/// a place behind the start is sought.
pub proof fn law_restore_stays_paused(
    p: PlayPlan,
    tracks: Seq<Track>,
    asked: usize,
    track_id: i64,
    position_ns: u64,
    i: int,
)
    requires
        restores(p, tracks, asked, track_id, position_ns),
        0 <= i < tracks.len(),
        tracks[i].id == track_id,
        forall|k: int| 0 <= k < i ==> (#[trigger] tracks[k]).id != track_id,
        tracks.len() <= usize::MAX,
    ensures
        p.commands@[0] is SetQueue,
        !p.commands@[0]->autoplay,
        p.commands@[0]->SetQueue_start == i,
        p.commands@[0]->items@.len() == tracks.len(),
        p.commands@[1] == (EngineCommand::LoadPaused { index: i as usize }),
        position_ns == 0 ==> p.commands@.len() == 2,
        position_ns > 0 ==> p.commands@.len() == 3 && p.commands@[2] == (EngineCommand::Seek {
            position_ns,
        }),
        p.position.index == i,
        p.position.count == asked,
{
    lemma_start_of(tracks, track_id, i);
}

/// A list that is given is played as it is; an empty one, or none, means the single track.
pub proof fn law_list_or_track(track_id: i64, queue: Vec<i64>)
    ensures
        queue@.len() > 0 ==> list_or_track(track_id, Some(queue)) == queue@,
        queue@.len() == 0 ==> list_or_track(track_id, Some(queue)) == list_or_track(track_id, None),
        list_or_track(track_id, None).len() == 1,
        list_or_track(track_id, None)[0] == track_id,
{
}

} // verus!
