//! Playlists: names, and the tracks of a playlist in their order. A track is in a playlist at most
//! once.

use crate::error::{AppError, E_INTERNAL, E_INVALID_ARG, E_PLAYLIST_NOT_FOUND};
use crate::models::{Playlist, PlaylistDetail, Track};
use crate::text::{
    chars_of, is_white, law_blank_trims_to_nothing, law_trim_takes_whitespace_only, string_of, trim, trim_of,
};
use vstd::prelude::*;

verus! {

/// Whether this is the error for a playlist that does not exist.
pub open spec fn is_no_playlist(e: AppError) -> bool {
    e.code@ == E_PLAYLIST_NOT_FOUND@ && e.message@ == "播放列表不存在"@
}

fn no_playlist() -> (r: AppError)
    ensures
        is_no_playlist(r),
{
    AppError::new(E_PLAYLIST_NOT_FOUND, "播放列表不存在".to_owned())
}

/// The name that a playlist gets, if it can have one.
pub open spec fn kept_name(name: Seq<char>) -> Option<Seq<char>> {
    if trim_of(name).len() > 0 {
        Some(trim_of(name))
    } else {
        None
    }
}

/// The name that a playlist gets: without blanks around it, and not empty.
pub fn playlist_name(name: &str) -> (r: Result<String, AppError>)
    ensures
        r is Ok <==> kept_name(name@) is Some,
        r matches Ok(n) ==> Some(n@) == kept_name(name@),
        r matches Err(e) ==> e.code@ == E_INVALID_ARG@ && e.message@ == "播放列表名称不能为空"@,
{
    let chars = chars_of(name);
    let t = trim(chars.as_slice());
    if t.len() == 0 {
        return Err(AppError::param("播放列表名称不能为空".to_owned()));
    }
    Ok(string_of(t))
}

/// What making a playlist answers, by the row that was found after it was stored.
pub fn create_playlist(stored: Option<Playlist>) -> (r: Result<Playlist, AppError>)
    ensures
        stored matches Some(p) ==> r == Ok::<Playlist, AppError>(p),
        stored is None ==> r is Err && r->Err_0.code@ == E_INTERNAL@ && r->Err_0.message@
            == "创建播放列表失败"@,
{
    match stored {
        Some(p) => Ok(p),
        None => Err(AppError::internal("创建播放列表失败".to_owned())),
    }
}

/// What renaming a playlist answers, by the row that was found after it was stored.
pub fn rename_playlist(stored: Option<Playlist>) -> (r: Result<Playlist, AppError>)
    ensures
        stored matches Some(p) ==> r == Ok::<Playlist, AppError>(p),
        stored is None ==> r is Err && is_no_playlist(r->Err_0),
{
    match stored {
        Some(p) => Ok(p),
        None => Err(no_playlist()),
    }
}

/// A playlist with its tracks.
pub open spec fn detail_of(p: Playlist, tracks: Vec<Track>) -> PlaylistDetail {
    PlaylistDetail {
        id: p.id,
        name: p.name,
        track_count: p.track_count,
        created_ms: p.created_ms,
        updated_ms: p.updated_ms,
        cover_key: p.cover_key,
        tracks,
    }
}

/// A playlist with its tracks, by its row.
pub fn playlist_get(row: Option<Playlist>, tracks: Vec<Track>) -> (r: Result<
    PlaylistDetail,
    AppError,
>)
    ensures
        row is None ==> r is Err && is_no_playlist(r->Err_0),
        row matches Some(p) ==> r == Ok::<PlaylistDetail, AppError>(detail_of(p, tracks)),
{
    match row {
        Some(p) => Ok(
            PlaylistDetail {
                id: p.id,
                name: p.name,
                track_count: p.track_count,
                created_ms: p.created_ms,
                updated_ms: p.updated_ms,
                cover_key: p.cover_key,
                tracks,
            },
        ),
        None => Err(no_playlist()),
    }
}

/// Where a track stands in a list, if it does.
pub fn position_of(list: &[i64], id: i64) -> (r: Option<usize>)
    ensures
        r is Some <==> list@.contains(id),
        r matches Some(i) ==> i < list@.len() <= usize::MAX && list@[i as int] == id && forall|k: int|
            0 <= k < i ==> list@[k] != id,
{
    let n: usize = list.len();
    let mut i: usize = 0;
    while i < n
        invariant
            n == list@.len(),
            i <= n,
            forall|k: int| 0 <= k < i ==> list@[k] != id,
        decreases n - i,
    {
        if list[i] == id {
            return Some(i);
        }
        i = i + 1;
    }
    None
}

/// A list after some tracks have been added at its end, those left out that are in it already.
pub open spec fn appended(list: Seq<i64>, ids: Seq<i64>) -> Seq<i64>
    decreases ids.len(),
{
    if ids.len() == 0 {
        list
    } else {
        let before = appended(list, ids.drop_last());
        if before.contains(ids.last()) {
            before
        } else {
            before.push(ids.last())
        }
    }
}

/// Those of some tracks that are not in a list, in their order, each once.
pub open spec fn new_ids(list: Seq<i64>, ids: Seq<i64>) -> Seq<i64>
    decreases ids.len(),
{
    if ids.len() == 0 {
        Seq::empty()
    } else {
        let before = new_ids(list, ids.drop_last());
        if list.contains(ids.last()) || before.contains(ids.last()) {
            before
        } else {
            before.push(ids.last())
        }
    }
}

/// Whether a track stands among others in front of every place of another one.
pub open spec fn comes_first(ids: Seq<i64>, a: i64, b: i64) -> bool {
    exists|i: int|
        0 <= i < ids.len() && #[trigger] ids[i] == a && forall|j: int|
            0 <= j < ids.len() && #[trigger] ids[j] == b ==> i < j
}

/// A list after a track has been put in right behind another one, or in front where that other one
/// is not given or not there. A track that is in the list stays where it is.
pub open spec fn inserted(list: Seq<i64>, id: i64, after: Option<i64>) -> Seq<i64> {
    if list.contains(id) {
        list
    } else if after is Some && list.contains(after->0) {
        list.insert(list.index_of(after->0) + 1, id)
    } else {
        list.insert(0, id)
    }
}

/// A list without a track.
pub open spec fn removed(list: Seq<i64>, id: i64) -> Seq<i64> {
    if list.contains(id) {
        list.remove(list.index_of(id))
    } else {
        list
    }
}

proof fn lemma_appended(list: Seq<i64>, ids: Seq<i64>)
    ensures
        list.len() <= appended(list, ids).len() <= list.len() + ids.len(),
        appended(list, ids).take(list.len() as int) == list,
        list.no_duplicates() ==> appended(list, ids).no_duplicates(),
        forall|x: i64|
            #![trigger appended(list, ids).contains(x)]
            appended(list, ids).contains(x) <==> list.contains(x) || ids.contains(x),
    decreases ids.len(),
{
    if ids.len() == 0 {
        assert(list.take(list.len() as int) =~= list);
    } else {
        let front = ids.drop_last();
        let last = ids.last();
        lemma_appended(list, front);
        let before = appended(list, front);
        let now = appended(list, ids);
        assert(now.take(list.len() as int) =~= before.take(list.len() as int));
        assert forall|x: i64| #[trigger] now.contains(x) <==> list.contains(x) || ids.contains(x) by {
            if ids.contains(x) {
                let k = choose|k: int| 0 <= k < ids.len() && ids[k] == x;
                if k < ids.len() - 1 {
                    assert(front[k] == x);
                    assert(before.contains(x));
                }
            }
            if before.contains(x) {
                let k = choose|k: int| 0 <= k < before.len() && before[k] == x;
                assert(now[k] == x);
                if front.contains(x) {
                    let j = choose|j: int| 0 <= j < front.len() && front[j] == x;
                    assert(ids[j] == x);
                }
            }
            if x == last {
                assert(ids[ids.len() - 1] == x);
                if !before.contains(x) {
                    assert(now[now.len() - 1] == x);
                }
            }
            if now.contains(x) && x != last {
                let k = choose|k: int| 0 <= k < now.len() && now[k] == x;
                assert(before[k] == x);
            }
        }
    }
}

proof fn lemma_in_sum(a: Seq<i64>, b: Seq<i64>, x: i64)
    ensures
        (a + b).contains(x) <==> a.contains(x) || b.contains(x),
{
    let c = a + b;
    if c.contains(x) {
        let k = choose|k: int| 0 <= k < c.len() && c[k] == x;
        if k < a.len() {
            assert(a[k] == x);
        } else {
            assert(b[k - a.len()] == x);
        }
    }
    if a.contains(x) {
        let k = choose|k: int| 0 <= k < a.len() && a[k] == x;
        assert(c[k] == x);
    }
    if b.contains(x) {
        let k = choose|k: int| 0 <= k < b.len() && b[k] == x;
        assert(c[a.len() + k] == x);
    }
}

proof fn lemma_in_push(s: Seq<i64>, y: i64, x: i64)
    ensures
        s.push(y).contains(x) <==> s.contains(x) || x == y,
{
    assert(s.push(y) =~= s + seq![y]);
    lemma_in_sum(s, seq![y], x);
    assert(seq![y][0] == y);
}

/// Adding tracks leaves the list as it is and puts behind it, in their order, those that were not in
/// it, each once.
pub proof fn law_add_appends_the_new(list: Seq<i64>, ids: Seq<i64>)
    ensures
        appended(list, ids) == list + new_ids(list, ids),
        new_ids(list, ids).no_duplicates(),
        forall|x: i64|
            #![trigger new_ids(list, ids).contains(x)]
            new_ids(list, ids).contains(x) <==> ids.contains(x) && !list.contains(x),
        forall|i: int, j: int|
            0 <= i < j < new_ids(list, ids).len() ==> comes_first(
                ids,
                #[trigger] new_ids(list, ids)[i],
                #[trigger] new_ids(list, ids)[j],
            ),
    decreases ids.len(),
{
    if ids.len() == 0 {
        assert(list + Seq::<i64>::empty() =~= list);
    } else {
        let front = ids.drop_last();
        let last = ids.last();
        law_add_appends_the_new(list, front);
        let before = new_ids(list, front);
        let now = new_ids(list, ids);
        assert forall|x: i64| (list + before).contains(x) <==> list.contains(x) || before.contains(
            x,
        ) by {
            lemma_in_sum(list, before, x);
        }
        assert(list + before.push(last) =~= (list + before).push(last));
        assert forall|x: i64| #[trigger] now.contains(x) <==> ids.contains(x) && !list.contains(x) by {
            assert(front.push(last) =~= ids);
            lemma_in_push(front, last, x);
            lemma_in_push(before, last, x);
        }
        assert forall|i: int, j: int| 0 <= i < j < now.len() implies comes_first(
            ids,
            #[trigger] now[i],
            #[trigger] now[j],
        ) by {
            assert(now[i] == before[i]);
            assert(before.contains(before[i]));
            if j < before.len() {
                assert(now[j] == before[j]);
                assert(comes_first(front, before[i], before[j]));
                let k = choose|k: int|
                    0 <= k < front.len() && #[trigger] front[k] == before[i] && forall|m: int|
                        0 <= m < front.len() && #[trigger] front[m] == before[j] ==> k < m;
                assert(ids[k] == now[i]);
                assert forall|m: int| 0 <= m < ids.len() && #[trigger] ids[m] == now[j] implies k
                    < m by {
                    if m < front.len() {
                        assert(front[m] == before[j]);
                    }
                }
            } else {
                assert(front.contains(before[i]));
                let k = choose|k: int| 0 <= k < front.len() && front[k] == before[i];
                assert(ids[k] == now[i]);
                assert forall|m: int| 0 <= m < ids.len() && #[trigger] ids[m] == now[j] implies k
                    < m by {
                    if m < front.len() {
                        assert(front[m] == last);
                        assert(front.contains(last));
                    }
                }
            }
        }
    }
}

/// Adds tracks at the end of a list; says how many were added.
fn append(list: &mut Vec<i64>, ids: &[i64]) -> (added: u64)
    ensures
        final(list)@ == appended(old(list)@, ids@),
        added == final(list)@.len() - old(list)@.len(),
{
    let n: usize = ids.len();
    let mut i: usize = 0;
    let mut added: u64 = 0;
    let ghost before = list@;
    proof {
        assert(ids@.take(0) =~= Seq::<i64>::empty());
    }
    while i < n
        invariant
            n == ids@.len(),
            i <= n,
            list@ == appended(before, ids@.take(i as int)),
            added == list@.len() - before.len(),
            added <= i,
        decreases n - i,
    {
        proof {
            let s = ids@.take(i + 1);
            assert(s.drop_last() =~= ids@.take(i as int));
            assert(s.last() == ids@[i as int]);
        }
        if position_of(list.as_slice(), ids[i]).is_none() {
            list.push(ids[i]);
            added = added + 1;
        }
        i = i + 1;
    }
    proof {
        assert(ids@.take(n as int) =~= ids@);
    }
    added
}

/// Adds tracks at the end of a playlist, those left out that are in it already. The result is the
/// new list, and how many tracks were added. There is no list where there is no playlist.
pub fn playlist_add_tracks(list: Option<Vec<i64>>, track_ids: &[i64]) -> (r: Result<
    (Vec<i64>, u64),
    AppError,
>)
    ensures
        list is None ==> r is Err && is_no_playlist(r->Err_0),
        list matches Some(l) ==> {
            &&& r is Ok
            &&& r->Ok_0.0@ == appended(l@, track_ids@)
            &&& r->Ok_0.0@ == l@ + new_ids(l@, track_ids@)
            &&& r->Ok_0.1 == new_ids(l@, track_ids@).len()
        },
{
    match list {
        Some(l) => {
            let mut l = l;
            proof {
                law_add_appends_the_new(l@, track_ids@);
            }
            let added: u64 = append(&mut l, track_ids);
            Ok((l, added))
        },
        None => Err(no_playlist()),
    }
}

/// Puts a track into a playlist, right behind another one or in front.
pub fn playlist_insert_track(list: Option<Vec<i64>>, track_id: i64, after: Option<i64>) -> (r: Result<
    Vec<i64>,
    AppError,
>)
    requires
        list matches Some(l) ==> l@.no_duplicates(),
    ensures
        list is None ==> r is Err && is_no_playlist(r->Err_0),
        list matches Some(l) ==> r is Ok && r->Ok_0@ == inserted(l@, track_id, after),
{
    match list {
        Some(l) => {
            let mut l = l;
            let ghost before = l@;
            if position_of(l.as_slice(), track_id).is_some() {
                return Ok(l);
            }
            let at: usize = match after {
                Some(a) => match position_of(l.as_slice(), a) {
                    Some(i) => {
                        proof {
                            let k = before.index_of(a);
                            assert(before[k] == a && 0 <= k < before.len());
                            assert(k == i);
                        }
                        i + 1
                    },
                    None => 0,
                },
                None => 0,
            };
            l.insert(at, track_id);
            Ok(l)
        },
        None => Err(no_playlist()),
    }
}

/// Takes a track out of a playlist; says whether it was in it.
pub fn playlist_remove_track(list: Vec<i64>, track_id: i64) -> (r: (Vec<i64>, bool))
    requires
        list@.no_duplicates(),
    ensures
        r.1 == list@.contains(track_id),
        r.0@ == removed(list@, track_id),
{
    let mut l = list;
    match position_of(l.as_slice(), track_id) {
        Some(i) => {
            proof {
                let k = list@.index_of(track_id);
                assert(list@[k] == track_id && 0 <= k < list@.len());
                assert(k == i);
            }
            l.remove(i);
            (l, true)
        },
        None => (l, false),
    }
}

/// Gives a playlist a new order. A track that is named twice counts where it is named first.
pub fn playlist_reorder(exists: bool, ordered_track_ids: &[i64]) -> (r: Result<Vec<i64>, AppError>)
    ensures
        !exists ==> r is Err && is_no_playlist(r->Err_0),
        exists ==> r is Ok && r->Ok_0@ == appended(Seq::empty(), ordered_track_ids@),
{
    if !exists {
        return Err(no_playlist());
    }
    let mut l: Vec<i64> = Vec::new();
    append(&mut l, ordered_track_ids);
    Ok(l)
}

/// Adding keeps what was there, in its place, and no track is in the list twice.
pub proof fn law_add_keeps_the_list(list: Seq<i64>, ids: Seq<i64>)
    requires
        list.no_duplicates(),
    ensures
        appended(list, ids).no_duplicates(),
        list.len() <= appended(list, ids).len(),
        appended(list, ids).take(list.len() as int) == list,
        forall|x: i64|
            #![trigger appended(list, ids).contains(x)]
            appended(list, ids).contains(x) <==> list.contains(x) || ids.contains(x),
{
    lemma_appended(list, ids);
}

/// What has been added once is not added again.
pub proof fn law_add_again_adds_nothing(list: Seq<i64>, ids: Seq<i64>)
    ensures
        appended(appended(list, ids), ids) == appended(list, ids),
{
    lemma_appended(list, ids);
    lemma_append_known(appended(list, ids), ids);
}

proof fn lemma_append_known(list: Seq<i64>, ids: Seq<i64>)
    requires
        forall|x: i64| #[trigger] ids.contains(x) ==> list.contains(x),
    ensures
        appended(list, ids) == list,
    decreases ids.len(),
{
    if ids.len() > 0 {
        let front = ids.drop_last();
        assert forall|x: i64| #[trigger] front.contains(x) implies list.contains(x) by {
            let k = choose|k: int| 0 <= k < front.len() && front[k] == x;
            assert(ids[k] == x);
            assert(ids.contains(x));
        }
        lemma_append_known(list, front);
        assert(ids[ids.len() - 1] == ids.last());
        assert(ids.contains(ids.last()));
    }
}

/// A track that is put in and taken out again leaves the list as it was.
pub proof fn law_remove_undoes_insert(list: Seq<i64>, id: i64, after: Option<i64>)
    requires
        list.no_duplicates(),
        !list.contains(id),
    ensures
        removed(inserted(list, id, after), id) == list,
{
    let at = if after is Some && list.contains(after->0) {
        list.index_of(after->0) + 1
    } else {
        0
    };
    let now = list.insert(at, id);
    assert(now[at] == id);
    let k = now.index_of(id);
    assert(now[k] == id && 0 <= k < now.len());
    if k < at {
        assert(list[k] == id);
    } else if k > at {
        assert(list[k - 1] == id);
    }
    assert(now.remove(at) =~= list);
}

/// A track that is put in behind another one comes right behind it, and no other track changes its
/// order.
pub proof fn law_insert_comes_right_behind(list: Seq<i64>, id: i64, after: i64)
    requires
        list.no_duplicates(),
        !list.contains(id),
        list.contains(after),
    ensures
        ({
            let now = inserted(list, id, Some(after));
            let at = list.index_of(after);
            &&& now.no_duplicates()
            &&& now.len() == list.len() + 1
            &&& now[at] == after
            &&& now[at + 1] == id
            &&& now.take(at + 1) == list.take(at + 1)
            &&& now.skip(at + 2) == list.skip(at + 1)
        }),
{
    let at = list.index_of(after);
    let now = inserted(list, id, Some(after));
    assert(now.take(at + 1) =~= list.take(at + 1));
    assert(now.skip(at + 2) =~= list.skip(at + 1));
    assert forall|i: int, j: int| 0 <= i < now.len() && 0 <= j < now.len() && i != j implies now[i]
        != now[j] by {
        let a = if i <= at {
            i
        } else {
            i - 1
        };
        let b = if j <= at {
            j
        } else {
            j - 1
        };
        if i == at + 1 {
            assert(list[b] != id);
        } else if j == at + 1 {
            assert(list[a] != id);
        } else {
            assert(list[a] != list[b]);
        }
    }
}

/// An order without repetitions is taken as it is.
pub proof fn law_reorder_takes_the_order(ids: Seq<i64>)
    requires
        ids.no_duplicates(),
    ensures
        appended(Seq::empty(), ids) == ids,
    decreases ids.len(),
{
    if ids.len() > 0 {
        let front = ids.drop_last();
        law_reorder_takes_the_order(front);
        if front.contains(ids.last()) {
            let k = choose|k: int| 0 <= k < front.len() && front[k] == ids.last();
            assert(ids[k] == ids[ids.len() - 1]);
        }
        assert(front.push(ids.last()) =~= ids);
    } else {
        assert(ids =~= Seq::empty());
    }
}

/// A playlist is called what it is asked to be called, without the blanks around it; blanks alone
/// are no name.
pub proof fn law_playlist_names(before: Seq<char>, name: Seq<char>, after: Seq<char>)
    requires
        forall|i: int| 0 <= i < before.len() ==> is_white(#[trigger] before[i]),
        forall|i: int| 0 <= i < after.len() ==> is_white(#[trigger] after[i]),
        name.len() > 0,
        !is_white(name[0]),
        !is_white(name.last()),
    ensures
        kept_name(before + name + after) == Some(name),
        kept_name(before) is None,
{
    law_trim_takes_whitespace_only(before, name, after);
    law_blank_trims_to_nothing(before);
}

/// A playlist with its tracks is the playlist, and the tracks are those that were given.
pub proof fn law_playlist_detail(p: Playlist, tracks: Vec<Track>)
    ensures
        ({
            let d = detail_of(p, tracks);
            &&& d.id == p.id && d.name == p.name && d.cover_key == p.cover_key
            &&& d.track_count == p.track_count
            &&& d.created_ms == p.created_ms && d.updated_ms == p.updated_ms
            &&& d.tracks == tracks
        }),
{
}

/// A track that is put in behind nothing, or behind a track that is not there, comes first; one that
/// is in the list already stays where it is.
pub proof fn law_insert_comes_first(list: Seq<i64>, id: i64, after: Option<i64>)
    ensures
        list.contains(id) ==> inserted(list, id, after) == list,
        !list.contains(id) && (after is None || !list.contains(after->0)) ==> inserted(list, id, after)
            == seq![id] + list,
{
    assert(list.insert(0, id) =~= seq![id] + list);
}

/// Taking a track out leaves the others in their order.
pub proof fn law_remove_keeps_the_others(a: Seq<i64>, id: i64, b: Seq<i64>)
    requires
        !a.contains(id),
        !b.contains(id),
    ensures
        removed(a + seq![id] + b, id) == a + b,
        removed(a + b, id) == a + b,
{
    let list = a + seq![id] + b;
    assert(list[a.len() as int] == id);
    let k = list.index_of(id);
    assert(0 <= k < list.len() && list[k] == id);
    if k < a.len() {
        assert(a[k] == id);
    } else if k > a.len() {
        assert(b[k - a.len() - 1] == id);
    }
    assert(list.remove(a.len() as int) =~= a + b);
    lemma_in_sum(a, b, id);
}

/// The error for a playlist that does not exist names it so.
pub proof fn law_no_playlist(e: AppError)
    requires
        is_no_playlist(e),
    ensures
        e.code@ == "PLAYLIST_NOT_FOUND"@,
        e.message@ == "播放列表不存在"@,
{
}

} // verus!
