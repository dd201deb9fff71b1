//! The queries of the library, run against a database in memory.

use oberon::db::{
    album_of_row, escape_like, list_albums, list_tracks, search, tracks_by_ids, tracks_by_ids_sql, AlbumLookup, AlbumRow,
    PageQuery, Param, ALBUM_KEY, ALBUM_TRACK_IDS, LIBRARY_ORDER_BY, LIBRARY_STATS, LIST_ARTISTS, PLAYLIST_SELECT, SCHEMA,
    SEARCH_ARTISTS, TRACK_COLS, UPSERT_TRACK,
};
use oberon::metadata::TrackMeta;
use oberon::models::{Album, Playlist, Track, TrackFilter};
use oberon::playlists::{
    create_playlist, playlist_add_tracks, playlist_get, playlist_insert_track, playlist_name, playlist_remove_track,
    playlist_reorder, rename_playlist,
};
use rusqlite::types::Value;
use rusqlite::{params_from_iter, Connection, OptionalExtension, Row};

fn mem_conn() -> Connection {
    let conn = Connection::open_in_memory().unwrap();
    conn.execute_batch(SCHEMA).unwrap();
    conn
}

fn meta(path: &str) -> TrackMeta {
    TrackMeta {
        path: path.to_string(),
        title: path.to_string(),
        duration_ms: 120_000,
        format: "mp3".into(),
        file_size: 1234,
        file_mtime: 1,
        ..Default::default()
    }
}

fn text(s: &str) -> Value {
    Value::Text(s.to_string())
}

fn number(n: Option<i64>) -> Value {
    match n {
        Some(v) => Value::Integer(v),
        None => Value::Null,
    }
}

fn upsert_track(conn: &Connection, m: &TrackMeta) -> (i64, bool) {
    let existed: Option<i64> = conn
        .query_row("SELECT id FROM tracks WHERE path = ?1", [&m.path], |r| r.get(0))
        .optional()
        .unwrap();
    let values = vec![
        text(&m.path),
        text(&m.title),
        text(&m.artist),
        text(&m.album),
        text(&m.album_artist),
        text(&m.genre),
        number(m.year),
        number(m.track_no),
        number(m.disc_no),
        Value::Integer(m.duration_ms),
        number(m.sample_rate),
        number(m.bitrate),
        number(m.channels),
        text(&m.format),
        match &m.cover_key {
            Some(k) => text(k),
            None => Value::Null,
        },
        Value::Integer(m.file_size),
        Value::Integer(m.file_mtime),
        Value::Integer(1),
    ];
    let id: i64 = conn.query_row(UPSERT_TRACK, params_from_iter(values.iter()), |r| r.get(0)).unwrap();
    (id, existed.is_some())
}

fn row_to_track(r: &Row) -> rusqlite::Result<Track> {
    Ok(Track {
        id: r.get(0)?,
        path: r.get(1)?,
        title: r.get(2)?,
        artist: r.get(3)?,
        album: r.get(4)?,
        album_artist: r.get(5)?,
        genre: r.get(6)?,
        year: r.get(7)?,
        track_no: r.get(8)?,
        disc_no: r.get(9)?,
        duration_ms: r.get(10)?,
        sample_rate: r.get(11)?,
        bitrate: r.get(12)?,
        channels: r.get(13)?,
        format: r.get(14)?,
        cover_key: r.get(15)?,
        file_size: r.get(16)?,
        file_mtime: r.get(17)?,
        added_ms: r.get(18)?,
    })
}

fn values(q: &PageQuery) -> Vec<Value> {
    q.params
        .iter()
        .map(|p| match p {
            Param::Text(s) => Value::Text(s.clone()),
            Param::Integer(n) => Value::Integer(*n),
        })
        .collect()
}

fn page(conn: &Connection, f: &TrackFilter, album: AlbumLookup) -> (Vec<Track>, i64) {
    let q = list_tracks(f, album).expect("a page");
    let mut v = values(&q);
    let total: i64 = conn.query_row(&q.count_sql, params_from_iter(v.iter()), |r| r.get(0)).unwrap();
    v.push(Value::Integer(q.limit));
    v.push(Value::Integer(q.offset));
    let mut stmt = conn.prepare(&q.page_sql).unwrap();
    let rows = stmt.query_map(params_from_iter(v.iter()), row_to_track).unwrap();
    (rows.map(|r| r.unwrap()).collect(), total)
}

fn albums(conn: &Connection, q: Option<String>) -> Vec<Album> {
    let q = list_albums(1, 20, &q);
    let mut v = values(&q);
    let total: i64 = conn.query_row(&q.count_sql, params_from_iter(v.iter()), |r| r.get(0)).unwrap();
    v.push(Value::Integer(q.limit));
    v.push(Value::Integer(q.offset));
    let mut stmt = conn.prepare(&q.page_sql).unwrap();
    let rows = stmt
        .query_map(params_from_iter(v.iter()), |r| {
            Ok(album_of_row(AlbumRow {
                id: r.get(0)?,
                name: r.get(1)?,
                artist: r.get(2)?,
                year: r.get(3)?,
                track_count: r.get(4)?,
                cover_key: r.get(5)?,
                first_title: r.get(6)?,
            }))
        })
        .unwrap();
    let out: Vec<Album> = rows.map(|r| r.unwrap()).collect();
    assert_eq!(out.len() as i64, total);
    out
}

fn track_by_id(conn: &Connection, id: i64) -> Option<Track> {
    let sql = format!("SELECT {TRACK_COLS} FROM tracks t WHERE t.id = ?1");
    conn.query_row(&sql, [id], row_to_track).optional().unwrap()
}

#[test]
fn upsert_and_query_track() {
    let conn = mem_conn();
    let (id, existed) = upsert_track(&conn, &meta("C:/Music/a.mp3"));
    assert!(id > 0 && !existed);
    let (id2, existed2) = upsert_track(&conn, &meta("C:/Music/a.mp3"));
    assert_eq!(id, id2);
    assert!(existed2);
    let t = track_by_id(&conn, id).unwrap();
    assert_eq!(t.title, "C:/Music/a.mp3");
    assert_eq!(t.duration_ms as f64 / 1000.0, 120.0);
    let n: i64 = conn.query_row("SELECT COUNT(*) FROM tracks", [], |r| r.get(0)).unwrap();
    assert_eq!(n, 1);
}

fn row_to_playlist(r: &Row) -> rusqlite::Result<Playlist> {
    Ok(Playlist {
        id: r.get(0)?,
        name: r.get(1)?,
        track_count: r.get(2)?,
        created_ms: r.get(3)?,
        updated_ms: r.get(4)?,
        cover_key: r.get(5)?,
    })
}

fn playlist_by_id(conn: &Connection, id: i64) -> Option<Playlist> {
    conn.query_row(&format!("{PLAYLIST_SELECT} WHERE p.id = ?1"), [id], row_to_playlist).optional().unwrap()
}

fn playlist_ids(conn: &Connection, id: i64) -> Option<Vec<i64>> {
    playlist_by_id(conn, id)?;
    let mut stmt = conn
        .prepare("SELECT track_id FROM playlist_tracks WHERE playlist_id = ?1 ORDER BY position")
        .unwrap();
    let rows = stmt.query_map([id], |r| r.get(0)).unwrap();
    Some(rows.map(|r| r.unwrap()).collect())
}

fn store_playlist(conn: &Connection, id: i64, ids: &[i64]) {
    conn.execute("DELETE FROM playlist_tracks WHERE playlist_id = ?1", [id]).unwrap();
    for (i, t) in ids.iter().enumerate() {
        conn.execute(
            "INSERT INTO playlist_tracks (playlist_id, track_id, position) VALUES (?1, ?2, ?3)",
            [id, *t, i as i64],
        )
        .unwrap();
    }
}

#[test]
fn playlist_flow() {
    let conn = mem_conn();
    let (id1, _) = upsert_track(&conn, &meta("C:/Music/a.mp3"));
    let (id2, _) = upsert_track(&conn, &meta("C:/Music/b.mp3"));
    let name = playlist_name(" 测试 ").unwrap();
    conn.execute("INSERT INTO playlists (name, created_ms, updated_ms) VALUES (?1, 1, 1)", [&name]).unwrap();
    let pl = create_playlist(playlist_by_id(&conn, conn.last_insert_rowid())).unwrap();
    assert_eq!(pl.name, "测试");
    let (ids, added) = playlist_add_tracks(playlist_ids(&conn, pl.id), &[id1, id2, id1]).unwrap();
    store_playlist(&conn, pl.id, &ids);
    assert_eq!(added, 2);
    assert_eq!(playlist_ids(&conn, pl.id).unwrap(), vec![id1, id2]);
    let (ids, removed) = playlist_remove_track(playlist_ids(&conn, pl.id).unwrap(), id1);
    assert!(removed);
    store_playlist(&conn, pl.id, &ids);
    assert_eq!(playlist_ids(&conn, pl.id).unwrap(), vec![id2]);
    let ids = playlist_reorder(playlist_by_id(&conn, pl.id).is_some(), &[id2, id1]).unwrap();
    store_playlist(&conn, pl.id, &ids);
    assert_eq!(playlist_ids(&conn, pl.id).unwrap(), vec![id2, id1]);
    conn.execute("DELETE FROM playlists WHERE id = ?1", [pl.id]).unwrap();
    let n: i64 = conn.query_row("SELECT COUNT(*) FROM playlists", [], |r| r.get(0)).unwrap();
    assert_eq!(n, 0);
    assert!(playlist_ids(&conn, pl.id).is_none());
}

#[test]
fn playlist_places() {
    assert_eq!(playlist_insert_track(Some(vec![1, 2, 3]), 9, Some(2)).unwrap(), vec![1, 2, 9, 3]);
    assert_eq!(playlist_insert_track(Some(vec![1, 2, 3]), 9, None).unwrap(), vec![9, 1, 2, 3]);
    assert_eq!(playlist_insert_track(Some(vec![1, 2, 3]), 9, Some(7)).unwrap(), vec![9, 1, 2, 3]);
    assert_eq!(playlist_insert_track(Some(vec![1, 2, 3]), 1, Some(3)).unwrap(), vec![1, 2, 3]);
    let (ids, added) = playlist_add_tracks(Some(vec![1, 2]), &[3, 2, 3, 4]).unwrap();
    assert_eq!((ids, added), (vec![1, 2, 3, 4], 2));
    assert_eq!(playlist_remove_track(vec![1, 2], 5), (vec![1, 2], false));
    assert_eq!(playlist_reorder(true, &[3, 1, 3, 2]).unwrap(), vec![3, 1, 2]);
}

#[test]
fn playlist_errors() {
    let missing = |e: oberon::error::AppError| {
        assert_eq!((e.code, e.message.as_str()), ("PLAYLIST_NOT_FOUND", "播放列表不存在"));
    };
    missing(playlist_add_tracks(None, &[1]).unwrap_err());
    missing(playlist_insert_track(None, 1, None).unwrap_err());
    missing(playlist_reorder(false, &[1]).unwrap_err());
    missing(rename_playlist(None).unwrap_err());
    missing(playlist_get(None, vec![]).unwrap_err());
    let e = playlist_name(" \t ").unwrap_err();
    assert_eq!((e.code, e.message.as_str()), ("INVALID_ARG", "播放列表名称不能为空"));
    assert_eq!(create_playlist(None).unwrap_err().message, "创建播放列表失败");
}

#[test]
fn search_and_folders() {
    let conn = mem_conn();
    conn.execute("INSERT OR IGNORE INTO folders (path) VALUES (?1)", ["C:/Music"]).unwrap();
    let path: String = conn.query_row("SELECT path FROM folders ORDER BY id", [], |r| r.get(0)).unwrap();
    assert_eq!(path, "C:/Music");
    conn.execute("UPDATE folders SET last_scanned_ms = 5 WHERE path = ?1", ["C:/Music"]).unwrap();
    upsert_track(&conn, &meta("C:/Music/xyz.mp3"));
    let plan = search("xyz").expect("there is a text to look for");
    let f = TrackFilter { q: Some(plan.q), page: Some(1), page_size: Some(plan.tracks), ..Default::default() };
    assert_eq!(page(&conn, &f, AlbumLookup::Any).0.len(), 1);
    conn.execute("INSERT INTO settings (key, value) VALUES ('volume', '80')", []).unwrap();
    let v: String = conn.query_row("SELECT value FROM settings WHERE key = 'volume'", [], |r| r.get(0)).unwrap();
    assert_eq!(v, "80");
    let n: i64 = conn.query_row("SELECT COUNT(*) FROM settings", [], |r| r.get(0)).unwrap();
    assert_eq!(n, 1);
}

fn song(path: &str, title: &str, artist: &str, album: &str, no: i64) -> TrackMeta {
    TrackMeta {
        title: title.to_string(),
        artist: artist.to_string(),
        album: album.to_string(),
        track_no: Some(no),
        ..meta(path)
    }
}

fn filled() -> (Connection, Vec<i64>) {
    let conn = mem_conn();
    let ids = [
        song("1", "Zeta", "Ann", "Red", 2),
        song("2", "alpha", "Ann", "Red", 1),
        song("3", "100%", "Bob", "Blue", 1),
        song("4", "Loose", "Cid", "", 1),
    ]
    .iter()
    .map(|m| upsert_track(&conn, m).0)
    .collect();
    (conn, ids)
}

fn titles(v: &[Track]) -> Vec<&str> {
    v.iter().map(|t| t.title.as_str()).collect()
}

#[test]
fn tracks_are_filtered_sorted_and_paged() {
    let (conn, ids) = filled();
    let f = TrackFilter::default();
    let (v, total) = page(&conn, &f, AlbumLookup::Any);
    assert_eq!(total, 4);
    assert_eq!(titles(&v), vec!["100%", "alpha", "Loose", "Zeta"]);
    let f = TrackFilter { order: Some("desc".to_string()), page: Some(2), page_size: Some(3), ..Default::default() };
    let (v, total) = page(&conn, &f, AlbumLookup::Any);
    assert_eq!((titles(&v), total), (vec!["100%"], 4));
    let f = TrackFilter { q: Some(" % ".to_string()), ..Default::default() };
    assert_eq!(titles(&page(&conn, &f, AlbumLookup::Any).0), vec!["100%"]);
    let f = TrackFilter { q: Some("a".to_string()), artist: Some("ANN".to_string()), ..Default::default() };
    assert_eq!(titles(&page(&conn, &f, AlbumLookup::Any).0), vec!["alpha", "Zeta"]);
    let (album, artist) = conn
        .query_row(ALBUM_KEY, [ids[0]], |r| Ok((r.get::<_, String>(0)?, r.get::<_, String>(1)?)))
        .unwrap();
    let f = TrackFilter { album_id: Some(ids[0]), sort: Some("artist".to_string()), ..Default::default() };
    assert_eq!(titles(&page(&conn, &f, AlbumLookup::Found { album, artist }).0), vec!["Zeta", "alpha"]);
    let none = list_tracks(&f, AlbumLookup::Missing).unwrap_err();
    assert_eq!((none.items.len(), none.total, none.page, none.page_size), (0, 0, 1, 200));
}

#[test]
fn pages_give_the_list() {
    let conn = mem_conn();
    for i in 0..23 {
        upsert_track(&conn, &song(&format!("C:/m/{i}.flac"), &format!("T{}", i % 5), "X", "Y", i));
    }
    for size in [1, 4, 5, 23, 24] {
        for sort in ["title", "artist"] {
            let mut all = Vec::new();
            let count = (23 + size - 1) / size;
            for p in 1..=count {
                let f = TrackFilter {
                    page: Some(p),
                    page_size: Some(size),
                    sort: Some(sort.to_string()),
                    ..TrackFilter::default()
                };
                let (items, total) = page(&conn, &f, AlbumLookup::Any);
                assert_eq!(total, 23);
                assert!(items.len() as u64 <= size);
                all.extend(items);
            }
            assert_eq!(all.len(), 23);
            let key = |t: &Track| (if sort == "title" { t.title.clone() } else { t.artist.clone() }, t.id);
            assert!(all.windows(2).all(|w| key(&w[0]) < key(&w[1])), "each once, ties by id");
            let f = TrackFilter {
                page: Some(count + 1),
                page_size: Some(size),
                ..TrackFilter::default()
            };
            assert!(page(&conn, &f, AlbumLookup::Any).0.is_empty());
        }
    }
}

#[test]
fn queries_say_what_they_sort_by() {
    let with = |sort: &str| {
        let f = TrackFilter { sort: Some(sort.to_string()), ..Default::default() };
        list_tracks(&f, AlbumLookup::Any).unwrap().page_sql
    };
    assert!(with("date-added").ends_with(" ORDER BY t.added_ms DESC, t.id ASC LIMIT ? OFFSET ?"));
    assert!(with("year").ends_with(" ORDER BY t.year ASC, t.id ASC LIMIT ? OFFSET ?"));
    assert!(with("duration").contains("ORDER BY t.duration_ms ASC"));
    assert!(with("album").contains("ORDER BY t.album COLLATE NOCASE ASC"));
    let f = TrackFilter { page: Some(0), page_size: Some(5000), ..Default::default() };
    let q = list_tracks(&f, AlbumLookup::Any).unwrap();
    assert_eq!((q.page, q.page_size, q.limit, q.offset), (1, 1000, 1000, 0));
    assert_eq!(q.count_sql, "SELECT COUNT(*) FROM tracks t ");
}

#[test]
fn albums_are_grouped() {
    let (conn, ids) = filled();
    let v = albums(&conn, None);
    assert_eq!(v.len(), 3);
    assert_eq!((v[0].name.as_str(), v[0].track_count, v[0].single_title.as_deref()), ("Red", 2, None));
    assert_eq!(v[0].id, ids[0]);
    assert_eq!((v[1].name.as_str(), v[1].single_title.as_deref()), ("Blue", Some("100%")));
    assert_eq!((v[2].name.as_str(), v[2].artist.as_str()), ("Loose", "Cid"));
    let v = albums(&conn, Some("alph".to_string()));
    assert_eq!(v.len(), 1);
    assert_eq!(v[0].name, "Red");
}

#[test]
fn tracks_come_in_the_order_of_their_ids() {
    let (conn, ids) = filled();
    let wanted = vec![ids[2], 999, ids[0], ids[2]];
    let mut stmt = conn.prepare(&tracks_by_ids_sql(wanted.len())).unwrap();
    let rows = stmt.query_map(params_from_iter(wanted.iter()), row_to_track).unwrap();
    let found: Vec<Track> = rows.map(|r| r.unwrap()).collect();
    let got = tracks_by_ids(&wanted, &found);
    assert_eq!(got.iter().map(|t| t.id).collect::<Vec<_>>(), vec![ids[2], ids[0], ids[2]]);
    assert_eq!(tracks_by_ids(&[], &found).len(), 0);
}

#[test]
fn fixed_queries_run() {
    let (conn, ids) = filled();
    let ids_of = |sql: &str, id: i64| -> Vec<i64> {
        let mut stmt = conn.prepare(sql).unwrap();
        let rows = stmt.query_map([id], |r| r.get(0)).unwrap();
        rows.map(|r| r.unwrap()).collect()
    };
    assert_eq!(ids_of(ALBUM_TRACK_IDS, ids[0]), vec![ids[1], ids[0]]);
    let mut stmt = conn.prepare(&format!("SELECT t.id FROM tracks t {LIBRARY_ORDER_BY}")).unwrap();
    let rows = stmt.query_map([], |r| r.get::<_, i64>(0)).unwrap();
    assert_eq!(rows.map(|r| r.unwrap()).collect::<Vec<_>>(), vec![ids[1], ids[0], ids[2], ids[3]]);
    let mut stmt = conn.prepare(LIST_ARTISTS).unwrap();
    let rows = stmt.query_map([], |r| r.get::<_, String>(0)).unwrap();
    assert_eq!(rows.map(|r| r.unwrap()).collect::<Vec<_>>(), vec!["Ann", "Bob", "Cid"]);
    let plan = search("nn").unwrap();
    let mut stmt = conn.prepare(SEARCH_ARTISTS).unwrap();
    let rows = stmt.query_map((&plan.like, plan.artists), |r| r.get::<_, String>(0)).unwrap();
    assert_eq!(rows.map(|r| r.unwrap()).collect::<Vec<_>>(), vec!["Ann"]);
    let stats: (i64, i64, i64) =
        conn.query_row(LIBRARY_STATS, [], |r| Ok((r.get(0)?, r.get(1)?, r.get(2)?))).unwrap();
    assert_eq!(stats, (4, 3, 3));
}

#[test]
fn patterns_are_escaped() {
    assert_eq!(escape_like("50%_\\x"), "50\\%\\_\\\\x");
    let p = search("  a_b ").unwrap();
    assert_eq!((p.q.as_str(), p.like.as_str()), ("a_b", "%a\\_b%"));
    assert_eq!((p.tracks, p.albums, p.artists, p.playlists), (30, 20, 20, 10));
    assert!(search("   ").is_none());
}
