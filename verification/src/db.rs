//! What is asked of the library database: the queries with their parameters, and what is made of the
//! rows. Running the queries is the caller's part.

use crate::models::{Album, Paginated, Track, TrackFilter};
use crate::text::{
    chars_of, is_white, law_blank_trims_to_nothing, law_trim_takes_whitespace_only, str_eq, string_of, trim,
    trim_of,
};
use std::collections::HashMap;
use vstd::prelude::*;
use vstd::string::StringExecFns;

verus! {

broadcast use vstd::std_specs::hash::group_hash_axioms;

/// The columns of a track, in the order in which a row is read.
pub const TRACK_COLS: &'static str = "t.id, t.path, t.title, t.artist, t.album, t.album_artist, t.genre, t.year, t.track_no, t.disc_no, t.duration_ms, t.sample_rate, t.bitrate, t.channels, t.format, t.cover_key, t.file_size, t.file_mtime, t.added_ms";

/// The order of the library: by album artist, album, disc, track number and title.
pub const LIBRARY_ORDER_BY: &'static str = "ORDER BY COALESCE(NULLIF(t.album_artist,''), t.artist) COLLATE NOCASE, t.album COLLATE NOCASE, COALESCE(t.disc_no, 99), COALESCE(t.track_no, 99), t.title COLLATE NOCASE";

/// Where a text is looked for among the tracks.
pub const TEXT_CLAUSE: &'static str = "(t.title LIKE ?1 ESCAPE '\\' OR t.artist LIKE ?1 ESCAPE '\\' OR t.album LIKE ?1 ESCAPE '\\' OR t.album_artist LIKE ?1 ESCAPE '\\')";

/// Tracks of an artist.
pub const ARTIST_CLAUSE: &'static str = "(t.artist = ? COLLATE NOCASE OR t.album_artist = ? COLLATE NOCASE)";

/// Tracks of an album.
pub const ALBUM_CLAUSE: &'static str = "(t.album = ? AND COALESCE(NULLIF(t.album_artist,''), t.artist) = ?)";

/// Albums are grouped by this, and have to have an artist.
pub const ALBUM_WHERE: &'static str = "WHERE COALESCE(NULLIF(t.album_artist,''), t.artist) <> ''";

/// Where a text is looked for among the albums.
pub const ALBUM_TEXT_CLAUSE: &'static str = " AND (t.album LIKE ?1 ESCAPE '\\' OR COALESCE(NULLIF(t.album_artist,''), t.artist) LIKE ?1 ESCAPE '\\' OR t.title LIKE ?1 ESCAPE '\\')";

/// The tables of the library and their indexes, made where they are missing. The indexes without
/// regard to case serve the sorted lists, those with regard to case the comparisons; the index on
/// the tracks of playlists serves the deletion of tracks.
pub const SCHEMA: &'static str = "
CREATE TABLE IF NOT EXISTS tracks (
    id           INTEGER PRIMARY KEY AUTOINCREMENT,
    path         TEXT    NOT NULL UNIQUE,
    title        TEXT    NOT NULL DEFAULT '',
    artist       TEXT    NOT NULL DEFAULT '',
    album        TEXT    NOT NULL DEFAULT '',
    album_artist TEXT    NOT NULL DEFAULT '',
    genre        TEXT    NOT NULL DEFAULT '',
    year         INTEGER,
    track_no     INTEGER,
    disc_no      INTEGER,
    duration_ms  INTEGER NOT NULL DEFAULT 0,
    sample_rate  INTEGER,
    bitrate      INTEGER,
    channels     INTEGER,
    format       TEXT    NOT NULL DEFAULT '',
    cover_key    TEXT,
    file_size    INTEGER NOT NULL DEFAULT 0,
    file_mtime   INTEGER NOT NULL DEFAULT 0,
    added_ms     INTEGER NOT NULL DEFAULT 0,
    modified_ms  INTEGER NOT NULL DEFAULT 0
);
CREATE TABLE IF NOT EXISTS folders (
    id              INTEGER PRIMARY KEY AUTOINCREMENT,
    path            TEXT    NOT NULL UNIQUE,
    last_scanned_ms INTEGER NOT NULL DEFAULT 0
);
CREATE TABLE IF NOT EXISTS playlists (
    id         INTEGER PRIMARY KEY AUTOINCREMENT,
    name       TEXT    NOT NULL,
    created_ms INTEGER NOT NULL,
    updated_ms INTEGER NOT NULL
);
CREATE TABLE IF NOT EXISTS playlist_tracks (
    playlist_id INTEGER NOT NULL REFERENCES playlists(id) ON DELETE CASCADE,
    track_id    INTEGER NOT NULL REFERENCES tracks(id)    ON DELETE CASCADE,
    position    INTEGER NOT NULL,
    PRIMARY KEY (playlist_id, track_id)
);
CREATE TABLE IF NOT EXISTS settings (
    key   TEXT PRIMARY KEY,
    value TEXT NOT NULL DEFAULT ''
);
CREATE INDEX IF NOT EXISTS idx_tracks_artist ON tracks(artist);
CREATE INDEX IF NOT EXISTS idx_tracks_album  ON tracks(album);
CREATE INDEX IF NOT EXISTS idx_tracks_title  ON tracks(title);
CREATE INDEX IF NOT EXISTS idx_tracks_added  ON tracks(added_ms);
CREATE INDEX IF NOT EXISTS idx_pt_position   ON playlist_tracks(playlist_id, position);
CREATE INDEX IF NOT EXISTS idx_tracks_title_nocase  ON tracks(title  COLLATE NOCASE);
CREATE INDEX IF NOT EXISTS idx_tracks_artist_nocase ON tracks(artist COLLATE NOCASE);
CREATE INDEX IF NOT EXISTS idx_tracks_album_nocase  ON tracks(album  COLLATE NOCASE);
CREATE INDEX IF NOT EXISTS idx_pt_track ON playlist_tracks(track_id);
";

/// Stores a track under its path, anew or over what was stored; gives its id.
pub const UPSERT_TRACK: &'static str = "INSERT INTO tracks (path, title, artist, album, album_artist, genre, year, track_no, disc_no, duration_ms, sample_rate, bitrate, channels, format, cover_key, file_size, file_mtime, added_ms, modified_ms) VALUES (?1,?2,?3,?4,?5,?6,?7,?8,?9,?10,?11,?12,?13,?14,?15,?16,?17,?18,?18) ON CONFLICT(path) DO UPDATE SET title=excluded.title, artist=excluded.artist, album=excluded.album, album_artist=excluded.album_artist, genre=excluded.genre, year=excluded.year, track_no=excluded.track_no, disc_no=excluded.disc_no, duration_ms=excluded.duration_ms, sample_rate=excluded.sample_rate, bitrate=excluded.bitrate, channels=excluded.channels, format=excluded.format, cover_key=excluded.cover_key, file_size=excluded.file_size, file_mtime=excluded.file_mtime, modified_ms=excluded.modified_ms RETURNING id";

/// The name and the artist of the album that a track belongs to.
pub const ALBUM_KEY: &'static str = "SELECT album, COALESCE(NULLIF(album_artist,''), artist) FROM tracks WHERE id = ?1";

/// The tracks of the album of a track, in the order of the album.
pub const ALBUM_TRACK_IDS: &'static str = "SELECT id FROM tracks t WHERE t.album = (SELECT album FROM tracks WHERE id = ?1) AND COALESCE(NULLIF(t.album_artist,''), t.artist) = (SELECT COALESCE(NULLIF(album_artist,''), artist) FROM tracks WHERE id = ?1) ORDER BY COALESCE(t.disc_no, 99), COALESCE(t.track_no, 99), t.title COLLATE NOCASE";

/// The order of an album: by disc, track number and title.
pub const ALBUM_TRACK_ORDER: &'static str = "WHERE t.album = ?1 AND COALESCE(NULLIF(t.album_artist,''), t.artist) = ?2 ORDER BY COALESCE(t.disc_no, 99), COALESCE(t.track_no, 99), t.title COLLATE NOCASE";

/// The tracks of an artist, by album, disc and track number.
pub const ARTIST_TRACK_ORDER: &'static str = "WHERE t.artist = ?1 COLLATE NOCASE OR t.album_artist = ?1 COLLATE NOCASE ORDER BY t.album COLLATE NOCASE, COALESCE(t.disc_no, 99), COALESCE(t.track_no, 99)";

/// The artists with the numbers of their tracks and albums.
pub const LIST_ARTISTS: &'static str = "SELECT name, COUNT(*) AS track_count, COUNT(DISTINCT album) AS album_count FROM (SELECT COALESCE(NULLIF(t.album_artist,''), t.artist) AS name, t.album FROM tracks t WHERE COALESCE(NULLIF(t.album_artist,''), t.artist) <> '') GROUP BY name ORDER BY name COLLATE NOCASE";

/// The artists whose name matches a pattern, up to a number of them.
pub const SEARCH_ARTISTS: &'static str = "SELECT name, COUNT(*) AS track_count, COUNT(DISTINCT album) AS album_count FROM (SELECT COALESCE(NULLIF(album_artist,''), artist) AS name, album FROM tracks) WHERE name LIKE ?1 ESCAPE '\\' AND name <> '' GROUP BY name ORDER BY name COLLATE NOCASE LIMIT ?2";

/// The playlists with the numbers of their tracks and the cover of the first one.
pub const PLAYLIST_SELECT: &'static str = "SELECT p.id, p.name, (SELECT COUNT(*) FROM playlist_tracks pt WHERE pt.playlist_id = p.id) AS track_count, p.created_ms, p.updated_ms, (SELECT t.cover_key FROM playlist_tracks pt2 JOIN tracks t ON t.id = pt2.track_id WHERE pt2.playlist_id = p.id ORDER BY pt2.position LIMIT 1) AS cover_key FROM playlists p";

/// The numbers that are shown of the library.
pub const LIBRARY_STATS: &'static str = "SELECT (SELECT COUNT(*) FROM tracks), (SELECT COUNT(*) FROM (SELECT 1 FROM tracks WHERE COALESCE(NULLIF(album_artist,''), artist) <> '' GROUP BY COALESCE(NULLIF(album_artist,''), artist))), (SELECT COUNT(*) FROM (SELECT 1 FROM tracks WHERE COALESCE(NULLIF(album_artist,''), artist) <> '' GROUP BY album, COALESCE(NULLIF(album_artist,''), artist))), (SELECT COUNT(*) FROM playlists), (SELECT COALESCE(SUM(duration_ms), 0) FROM tracks), (SELECT COALESCE(SUM(file_size), 0) FROM tracks)";

/// The covers that tracks refer to.
pub const COVER_KEYS: &'static str = "SELECT DISTINCT cover_key FROM tracks WHERE cover_key IS NOT NULL AND cover_key <> ''";

/// A parameter of a query.
#[derive(Debug)]
pub enum Param {
    Text(String),
    Integer(i64),
}

/// A parameter as a value.
pub enum ParamView {
    Text(Seq<char>),
    Integer(i64),
}

impl View for Param {
    type V = ParamView;

    open spec fn view(&self) -> ParamView {
        match self {
            Param::Text(s) => ParamView::Text(s@),
            Param::Integer(n) => ParamView::Integer(*n),
        }
    }
}

/// Some parameters as values.
pub open spec fn params_view(p: Seq<Param>) -> Seq<ParamView> {
    p.map_values(|x: Param| x@)
}

/// A text with the characters escaped that have a meaning of their own in a pattern.
pub open spec fn escaped(s: Seq<char>) -> Seq<char>
    decreases s.len(),
{
    if s.len() == 0 {
        Seq::empty()
    } else {
        let c = s.last();
        let front = escaped(s.drop_last());
        if c == '\\' || c == '%' || c == '_' {
            front.push('\\').push(c)
        } else {
            front.push(c)
        }
    }
}

/// Escapes the characters that have a meaning of their own in a pattern.
pub fn escape_like(s: &str) -> (r: String)
    ensures
        r@ == escaped(s@),
{
    let chars = chars_of(s);
    let n: usize = chars.len();
    let mut r = String::new();
    let mut i: usize = 0;
    proof {
        assert(s@.take(0) =~= Seq::<char>::empty());
    }
    while i < n
        invariant
            n == chars@.len(),
            chars@ == s@,
            i <= n,
            r@ == escaped(s@.take(i as int)),
        decreases n - i,
    {
        let c = chars[i];
        proof {
            assert(s@.take(i + 1).drop_last() =~= s@.take(i as int));
        }
        if c == '\\' || c == '%' || c == '_' {
            r.push('\\');
        }
        r.push(c);
        i = i + 1;
    }
    proof {
        assert(s@.take(n as int) =~= s@);
    }
    r
}

/// The text that a pattern stands for where it holds no character with a meaning of its own that is
/// not escaped.
pub open spec fn unescaped(s: Seq<char>) -> Option<Seq<char>>
    decreases s.len(),
{
    if s.len() == 0 {
        Some(Seq::empty())
    } else if s[0] == '\\' {
        if s.len() < 2 {
            None
        } else {
            match unescaped(s.skip(2)) {
                Some(t) => Some(seq![s[1]] + t),
                None => None,
            }
        }
    } else if s[0] == '%' || s[0] == '_' {
        None
    } else {
        match unescaped(s.skip(1)) {
            Some(t) => Some(seq![s[0]] + t),
            None => None,
        }
    }
}

/// An escaped text stands for itself: nothing in it has a meaning of its own, and with the escapes
/// taken away it is the text.
pub proof fn law_escaped_text_stands_for_itself(s: Seq<char>)
    ensures
        unescaped(escaped(s)) == Some(s),
{
    assert(escaped(s) + Seq::<char>::empty() =~= escaped(s));
    assert(s + Seq::<char>::empty() =~= s);
    lemma_unescape(s, Seq::empty(), Seq::empty());
}

proof fn lemma_unescape(s: Seq<char>, tail: Seq<char>, plain: Seq<char>)
    requires
        unescaped(tail) == Some(plain),
    ensures
        unescaped(escaped(s) + tail) == Some(s + plain),
    decreases s.len(),
{
    if s.len() == 0 {
        assert(escaped(s) + tail =~= tail);
        assert(s + plain =~= plain);
    } else {
        let c = s.last();
        let front = s.drop_last();
        let special = c == '\\' || c == '%' || c == '_';
        let mark = if special {
            seq!['\\', c]
        } else {
            seq![c]
        };
        assert(escaped(s) + tail =~= escaped(front) + (mark + tail));
        if special {
            assert((mark + tail).skip(2) =~= tail);
        } else {
            assert((mark + tail).skip(1) =~= tail);
        }
        assert(unescaped(mark + tail) == Some(seq![c] + plain));
        lemma_unescape(front, mark + tail, seq![c] + plain);
        assert(front + (seq![c] + plain) =~= s + plain);
    }
}

/// The pattern for texts that hold another one.
pub open spec fn pattern_of(q: Seq<char>) -> Seq<char> {
    "%"@ + escaped(q) + "%"@
}

fn pattern(q: &[char]) -> (r: String)
    ensures
        r@ == pattern_of(q@),
{
    let text = string_of(q);
    let inner = escape_like(text.as_str());
    "%".to_owned().concat(inner.as_str()).concat("%")
}

/// The text that is looked for, if there is one.
pub open spec fn asked_text(q: Option<String>) -> Option<Seq<char>> {
    match q {
        Some(s) => if trim_of(s@).len() > 0 {
            Some(trim_of(s@))
        } else {
            None
        },
        None => None,
    }
}

fn asked_pattern(q: &Option<String>) -> (r: Option<String>)
    ensures
        r is Some <==> asked_text(*q) is Some,
        r matches Some(p) ==> p@ == pattern_of(asked_text(*q)->0),
{
    match q {
        Some(s) => {
            let chars = chars_of(s.as_str());
            let t = trim(chars.as_slice());
            if t.len() == 0 {
                None
            } else {
                Some(pattern(t))
            }
        },
        None => None,
    }
}

/// What is known of the album that is asked for.
#[derive(Debug)]
pub enum AlbumLookup {
    /// No album is asked for.
    Any,
    /// There is no such album.
    Missing,
    /// Its name and its artist.
    Found { album: String, artist: String },
}

/// A page of a longer list, as it is asked of the database.
#[derive(Debug)]
pub struct PageQuery {
    /// Counts the whole list.
    pub count_sql: String,
    /// Reads the page.
    pub page_sql: String,
    /// The parameters of the count. Those of the page are these, then the length of a page, then
    /// where it starts.
    pub params: Vec<Param>,
    pub limit: i64,
    pub offset: i64,
    pub page: u64,
    pub page_size: u64,
}

/// The number of the page: at least 1, which is also meant where none is given.
pub open spec fn page_of(page: Option<u64>) -> u64 {
    match page {
        Some(p) => if p < 1 {
            1
        } else {
            p
        },
        None => 1,
    }
}

/// The length of a page: from 1 to 1000, and 200 where none is given.
pub open spec fn size_of_page(size: Option<u64>) -> u64 {
    match size {
        Some(s) => if s < 1 {
            1
        } else if s > 1000 {
            1000
        } else {
            s
        },
        None => 200,
    }
}

/// Where a page starts in the whole list.
pub open spec fn page_start(page: u64, page_size: u64) -> i64 {
    (((page - 1) * page_size) as u64) as i64
}

/// The part of a list that `LIMIT` and `OFFSET` leave.
pub open spec fn window<T>(all: Seq<T>, limit: int, offset: int) -> Seq<T> {
    let from = if offset <= all.len() {
        offset
    } else {
        all.len() as int
    };
    let to = if offset + limit <= all.len() {
        offset + limit
    } else {
        all.len() as int
    };
    all.subrange(from, to)
}

/// A page of a list.
pub open spec fn page_in<T>(all: Seq<T>, page: u64, page_size: u64) -> Seq<T> {
    window(all, page_size as int, page_start(page, page_size) as int)
}

/// The first pages of a list, one behind the other.
pub open spec fn first_pages<T>(all: Seq<T>, n: nat, page_size: u64) -> Seq<T>
    decreases n,
{
    if n == 0 {
        Seq::empty()
    } else {
        first_pages(all, (n - 1) as nat, page_size) + page_in(all, n as u64, page_size)
    }
}

/// How many pages a list has.
pub open spec fn page_count(total: nat, page_size: u64) -> nat {
    ((total + page_size - 1) / page_size as int) as nat
}

/// The column that tracks are sorted by.
pub open spec fn sort_column(sort: Option<String>) -> Seq<char> {
    match sort {
        Some(s) => if s@ == "artist"@ {
            "t.artist COLLATE NOCASE"@
        } else if s@ == "album"@ {
            "t.album COLLATE NOCASE"@
        } else if s@ == "year"@ {
            "t.year"@
        } else if s@ == "duration"@ {
            "t.duration_ms"@
        } else if s@ == "date-added"@ {
            "t.added_ms"@
        } else {
            "t.title COLLATE NOCASE"@
        },
        None => "t.title COLLATE NOCASE"@,
    }
}

/// The direction of sorting: upwards unless asked otherwise, except that what was added last comes
/// first.
pub open spec fn sort_direction(sort: Option<String>, order: Option<String>) -> Seq<char> {
    match order {
        Some(o) => if o@ == "desc"@ {
            "DESC"@
        } else {
            "ASC"@
        },
        None => if sort is Some && sort->0@ == "date-added"@ {
            "DESC"@
        } else {
            "ASC"@
        },
    }
}

/// Conditions joined by `AND`.
pub open spec fn joined(parts: Seq<Seq<char>>) -> Seq<char>
    decreases parts.len(),
{
    if parts.len() == 0 {
        Seq::empty()
    } else if parts.len() == 1 {
        parts[0]
    } else {
        joined(parts.drop_last()) + " AND "@ + parts.last()
    }
}

/// The conditions of a filter.
pub open spec fn conditions(f: TrackFilter, album: AlbumLookup) -> Seq<Seq<char>> {
    let text = if asked_text(f.q) is Some {
        seq![TEXT_CLAUSE@]
    } else {
        Seq::empty()
    };
    let artist = if f.artist is Some && f.artist->0@.len() > 0 {
        seq![ARTIST_CLAUSE@]
    } else {
        Seq::empty()
    };
    let of_album = if album is Found {
        seq![ALBUM_CLAUSE@]
    } else {
        Seq::empty()
    };
    text + artist + of_album
}

/// The parameters of those conditions.
pub open spec fn condition_params(f: TrackFilter, album: AlbumLookup) -> Seq<ParamView> {
    let text = if asked_text(f.q) is Some {
        seq![ParamView::Text(pattern_of(asked_text(f.q)->0))]
    } else {
        Seq::empty()
    };
    let artist = if f.artist is Some && f.artist->0@.len() > 0 {
        seq![ParamView::Text(f.artist->0@), ParamView::Text(f.artist->0@)]
    } else {
        Seq::empty()
    };
    let of_album = match album {
        AlbumLookup::Found { album, artist } => seq![
            ParamView::Text(album@),
            ParamView::Text(artist@),
        ],
        _ => Seq::empty(),
    };
    text + artist + of_album
}

/// A `WHERE` clause, or nothing where there are no conditions.
pub open spec fn where_of(parts: Seq<Seq<char>>) -> Seq<char> {
    if parts.len() == 0 {
        Seq::empty()
    } else {
        "WHERE "@ + joined(parts)
    }
}

fn page_number(page: Option<u64>) -> (r: u64)
    ensures
        r == page_of(page),
        r >= 1,
{
    match page {
        Some(p) => if p < 1 {
            1
        } else {
            p
        },
        None => 1,
    }
}

fn page_length(size: Option<u64>) -> (r: u64)
    ensures
        r == size_of_page(size),
        1 <= r <= 1000,
{
    match size {
        Some(s) => if s < 1 {
            1
        } else if s > 1000 {
            1000
        } else {
            s
        },
        None => 200,
    }
}

fn column(sort: &Option<String>) -> (r: &'static str)
    ensures
        r@ == sort_column(*sort),
{
    match sort {
        Some(s) => {
            let s = s.as_str();
            if str_eq(s, "artist") {
                "t.artist COLLATE NOCASE"
            } else if str_eq(s, "album") {
                "t.album COLLATE NOCASE"
            } else if str_eq(s, "year") {
                "t.year"
            } else if str_eq(s, "duration") {
                "t.duration_ms"
            } else if str_eq(s, "date-added") {
                "t.added_ms"
            } else {
                "t.title COLLATE NOCASE"
            }
        },
        None => "t.title COLLATE NOCASE",
    }
}

fn direction(sort: &Option<String>, order: &Option<String>) -> (r: &'static str)
    ensures
        r@ == sort_direction(*sort, *order),
{
    match order {
        Some(o) => if str_eq(o.as_str(), "desc") {
            "DESC"
        } else {
            "ASC"
        },
        None => match sort {
            Some(s) => if str_eq(s.as_str(), "date-added") {
                "DESC"
            } else {
                "ASC"
            },
            None => "ASC",
        },
    }
}

/// Adds a condition to a `WHERE` clause.
fn add_condition(clause: &mut String, part: &str, parts: Ghost<Seq<Seq<char>>>)
    requires
        old(clause)@ == where_of(parts@),
    ensures
        final(clause)@ == where_of(parts@.push(part@)),
{
    proof {
        assert(parts@.push(part@).drop_last() =~= parts@);
        if parts@.len() == 0 {
            assert(parts@.push(part@)[0] == part@);
            assert(old(clause)@ + "WHERE "@ =~= "WHERE "@);
        } else {
            reveal_strlit("WHERE ");
            assert("WHERE "@ + joined(parts@) + " AND "@ + part@ =~= "WHERE "@ + (joined(parts@)
                + " AND "@ + part@));
        }
    }
    if chars_of(clause.as_str()).len() == 0 {
        proof {
            if parts@.len() > 0 {
                reveal_strlit("WHERE ");
                assert(where_of(parts@)[0] == "WHERE "@[0]);
                assert(false);
            }
        }
        clause.append("WHERE ");
    } else {
        clause.append(" AND ");
    }
    clause.append(part);
}

/// Where a page starts.
fn page_offset(page: u64, page_size: u64) -> (r: i64)
    requires
        page >= 1,
        (page - 1) * page_size <= u64::MAX,
    ensures
        r == page_start(page, page_size),
{
    let start: u64 = (page - 1) * page_size;
    #[verifier::truncate]
    let r: i64 = start as i64;
    r
}

/// The query that counts the tracks of a filter.
pub open spec fn track_count_text(f: TrackFilter, album: AlbumLookup) -> Seq<char> {
    "SELECT COUNT(*) FROM tracks t "@ + where_of(conditions(f, album))
}

/// The query that reads a page of the tracks of a filter, by the sort key and then by the id.
pub open spec fn track_page_text(f: TrackFilter, album: AlbumLookup) -> Seq<char> {
    "SELECT "@ + TRACK_COLS@ + " FROM tracks t "@ + where_of(conditions(f, album)) + " ORDER BY "@
        + sort_column(f.sort) + " "@ + sort_direction(f.sort, f.order)
        + ", t.id ASC LIMIT ? OFFSET ?"@
}

/// Whether a query counts the tracks of a filter and reads the page that the filter names.
pub open spec fn reads_page(q: PageQuery, f: TrackFilter, album: AlbumLookup) -> bool {
    &&& q.page == page_of(f.page)
    &&& q.page_size == size_of_page(f.page_size)
    &&& q.limit == q.page_size
    &&& q.offset == page_start(q.page, q.page_size)
    &&& params_view(q.params@) == condition_params(f, album)
    &&& q.count_sql@ == track_count_text(f, album)
    &&& q.page_sql@ == track_page_text(f, album)
}

/// How a filtered and sorted page of the tracks is read. Nothing is read where an album is asked for
/// that does not exist: the page is empty.
pub fn list_tracks(f: &TrackFilter, album: AlbumLookup) -> (r: Result<PageQuery, Paginated<Track>>)
    requires
        (page_of(f.page) - 1) * size_of_page(f.page_size) <= u64::MAX,
    ensures
        r is Err <==> album is Missing,
        r matches Err(p) ==> {
            &&& p.items@.len() == 0
            &&& p.total == 0
            &&& p.page == page_of(f.page)
            &&& p.page_size == size_of_page(f.page_size)
        },
        r matches Ok(q) ==> reads_page(q, *f, album),
{
    let page: u64 = page_number(f.page);
    let page_size: u64 = page_length(f.page_size);
    let mut clause = String::new();
    let mut params: Vec<Param> = Vec::new();
    let ghost mut parts: Seq<Seq<char>> = Seq::empty();
    match asked_pattern(&f.q) {
        Some(p) => {
            add_condition(&mut clause, TEXT_CLAUSE, Ghost(parts));
            params.push(Param::Text(p));
            proof {
                parts = parts.push(TEXT_CLAUSE@);
            }
        },
        None => {},
    }
    match &f.artist {
        Some(a) => {
            if chars_of(a.as_str()).len() > 0 {
                add_condition(&mut clause, ARTIST_CLAUSE, Ghost(parts));
                params.push(Param::Text(a.clone()));
                params.push(Param::Text(a.clone()));
                proof {
                    parts = parts.push(ARTIST_CLAUSE@);
                }
            }
        },
        None => {},
    }
    let ghost lookup = album;
    match album {
        AlbumLookup::Any => {},
        AlbumLookup::Missing => {
            return Err(Paginated { items: Vec::new(), total: 0, page, page_size });
        },
        AlbumLookup::Found { album, artist } => {
            add_condition(&mut clause, ALBUM_CLAUSE, Ghost(parts));
            params.push(Param::Text(album));
            params.push(Param::Text(artist));
            proof {
                parts = parts.push(ALBUM_CLAUSE@);
            }
        },
    }
    proof {
        assert(parts =~= conditions(*f, lookup));
        assert(params_view(params@) =~= condition_params(*f, lookup));
    }
    let cond = clause.as_str();
    let count_sql = "SELECT COUNT(*) FROM tracks t ".to_owned().concat(cond);
    let page_sql = "SELECT ".to_owned().concat(TRACK_COLS).concat(" FROM tracks t ").concat(
        cond,
    ).concat(" ORDER BY ").concat(column(&f.sort)).concat(" ").concat(
        direction(&f.sort, &f.order),
    ).concat(", t.id ASC LIMIT ? OFFSET ?");
    Ok(
        PageQuery {
            count_sql,
            page_sql,
            params,
            limit: page_size as i64,
            offset: page_offset(page, page_size),
            page,
            page_size,
        },
    )
}

/// The start of the query for albums.
pub const ALBUM_SELECT: &'static str = "SELECT MIN(t.id) AS id, t.album AS name, COALESCE(NULLIF(t.album_artist,''), t.artist) AS artist, MIN(t.year) AS year, COUNT(*) AS track_count, (SELECT x.cover_key FROM tracks x WHERE x.album = t.album AND COALESCE(NULLIF(x.album_artist,''), x.artist) = COALESCE(NULLIF(t.album_artist,''), t.artist) ORDER BY COALESCE(x.disc_no, 99), COALESCE(x.track_no, 99) LIMIT 1) AS cover_key, (SELECT y.title FROM tracks y WHERE y.album = t.album AND COALESCE(NULLIF(y.album_artist,''), y.artist) = COALESCE(NULLIF(t.album_artist,''), t.artist) ORDER BY COALESCE(y.disc_no, 99), COALESCE(y.track_no, 99), y.id LIMIT 1) AS first_title FROM tracks t ";

/// Its end.
pub const ALBUM_ORDER: &'static str = " GROUP BY t.album, COALESCE(NULLIF(t.album_artist,''), t.artist) ORDER BY artist COLLATE NOCASE, name COLLATE NOCASE LIMIT ? OFFSET ?";

/// The start of the query that counts albums.
pub const ALBUM_COUNT: &'static str = "SELECT COUNT(*) FROM (SELECT 1 FROM tracks t ";

/// Its end.
pub const ALBUM_COUNT_END: &'static str = " GROUP BY t.album, COALESCE(NULLIF(t.album_artist,''), t.artist))";

/// Which albums are asked for.
pub open spec fn album_condition(q: Option<String>) -> Seq<char> {
    ALBUM_WHERE@ + if asked_text(q) is Some {
        ALBUM_TEXT_CLAUSE@
    } else {
        Seq::empty()
    }
}

/// The parameters of a query for albums.
pub open spec fn album_params(q: Option<String>) -> Seq<ParamView> {
    if asked_text(q) is Some {
        seq![ParamView::Text(pattern_of(asked_text(q)->0))]
    } else {
        Seq::empty()
    }
}

/// How a page of the albums is read. Tracks without an album are grouped by their artist, so that
/// they do not get lost.
pub fn list_albums(page: u64, page_size: u64, q: &Option<String>) -> (r: PageQuery)
    requires
        (page_of(Some(page)) - 1) * size_of_page(Some(page_size)) <= u64::MAX,
    ensures
        ({
            &&& r.page == page_of(Some(page))
            &&& r.page_size == size_of_page(Some(page_size))
            &&& r.limit == r.page_size
            &&& r.offset == page_start(r.page, r.page_size)
            &&& params_view(r.params@) == album_params(*q)
            &&& r.count_sql@ == ALBUM_COUNT@ + album_condition(*q) + ALBUM_COUNT_END@
            &&& r.page_sql@ == ALBUM_SELECT@ + album_condition(*q) + ALBUM_ORDER@
        }),
{
    let page: u64 = page_number(Some(page));
    let page_size: u64 = page_length(Some(page_size));
    let mut clause = ALBUM_WHERE.to_owned();
    let mut params: Vec<Param> = Vec::new();
    match asked_pattern(q) {
        Some(p) => {
            clause.append(ALBUM_TEXT_CLAUSE);
            params.push(Param::Text(p));
            proof {
                assert(params_view(params@) =~= seq![
                    ParamView::Text(pattern_of(asked_text(*q)->0)),
                ]);
            }
        },
        None => {
            proof {
                assert(ALBUM_WHERE@ + Seq::<char>::empty() =~= ALBUM_WHERE@);
                assert(params_view(params@) =~= Seq::empty());
            }
        },
    }
    let cond = clause.as_str();
    PageQuery {
        count_sql: ALBUM_COUNT.to_owned().concat(cond).concat(ALBUM_COUNT_END),
        page_sql: ALBUM_SELECT.to_owned().concat(cond).concat(ALBUM_ORDER),
        params,
        limit: page_size as i64,
        offset: page_offset(page, page_size),
        page,
        page_size,
    }
}

/// A row of the albums.
#[derive(Debug)]
pub struct AlbumRow {
    pub id: i64,
    pub name: String,
    pub artist: String,
    pub year: Option<i64>,
    pub track_count: i64,
    pub cover_key: Option<String>,
    /// The title of the first track.
    pub first_title: Option<String>,
}

/// The name under which the album of a row is shown.
pub open spec fn shown_name(row: AlbumRow) -> Seq<char> {
    if trim_of(row.name@).len() > 0 {
        row.name@
    } else if row.first_title is Some {
        row.first_title->0@
    } else {
        Seq::empty()
    }
}

/// The title that the album of a row carries besides its name.
pub open spec fn shown_single(row: AlbumRow) -> Option<String> {
    if row.track_count == 1 {
        row.first_title
    } else {
        None
    }
}

/// The album of a row. One without a name is called after its first track, and one with a single
/// track also carries that track's title.
pub fn album_of_row(row: AlbumRow) -> (r: Album)
    ensures
        r.id == row.id,
        r.artist == row.artist,
        r.year == row.year,
        r.track_count == row.track_count,
        r.cover_key == row.cover_key,
        r.name@ == shown_name(row),
        r.single_title == shown_single(row),
{
    let chars = chars_of(row.name.as_str());
    let unnamed = trim(chars.as_slice()).len() == 0;
    let single_title = if row.track_count == 1 {
        crate::text::opt_clone(&row.first_title)
    } else {
        None
    };
    let name = if unnamed {
        match row.first_title {
            Some(t) => t,
            None => String::new(),
        }
    } else {
        row.name
    };
    Album {
        id: row.id,
        name,
        artist: row.artist,
        year: row.year,
        track_count: row.track_count,
        cover_key: row.cover_key,
        single_title,
    }
}

/// What a search asks for.
#[derive(Debug)]
pub struct SearchPlan {
    /// The text without blanks around it.
    pub q: String,
    /// The pattern for names of artists and playlists.
    pub like: String,
    pub tracks: u64,
    pub albums: u64,
    pub artists: i64,
    pub playlists: i64,
}

/// Whether a plan searches for a text: without the blanks around it, and for so many of each kind.
pub open spec fn searches_for(p: SearchPlan, q: Seq<char>) -> bool {
    &&& p.q@ == trim_of(q)
    &&& p.like@ == pattern_of(trim_of(q))
    &&& p.tracks == 30
    &&& p.albums == 20
    &&& p.artists == 20
    &&& p.playlists == 10
}

/// What a search asks for; nothing where there is no text to look for.
pub fn search(q: &str) -> (r: Option<SearchPlan>)
    ensures
        r is Some <==> trim_of(q@).len() > 0,
        r matches Some(p) ==> searches_for(p, q@),
{
    let chars = chars_of(q);
    let t = trim(chars.as_slice());
    if t.len() == 0 {
        return None;
    }
    Some(
        SearchPlan {
            q: string_of(t),
            like: pattern(t),
            tracks: 30,
            albums: 20,
            artists: 20,
            playlists: 10,
        },
    )
}

/// Question marks for so many parameters, with commas between them.
pub open spec fn placeholders(n: nat) -> Seq<char>
    decreases n,
{
    if n == 0 {
        Seq::empty()
    } else if n == 1 {
        "?"@
    } else {
        placeholders((n - 1) as nat) + ",?"@
    }
}

/// How tracks are read by their ids.
pub fn tracks_by_ids_sql(count: usize) -> (r: String)
    ensures
        r@ == "SELECT "@ + TRACK_COLS@ + " FROM tracks t WHERE t.id IN ("@ + placeholders(count as nat)
            + ")"@,
{
    let mut marks = String::new();
    let mut i: usize = 0;
    while i < count
        invariant
            i <= count,
            marks@ == placeholders(i as nat),
        decreases count - i,
    {
        proof {
            assert(Seq::<char>::empty() + "?"@ =~= "?"@);
        }
        if i == 0 {
            marks.append("?");
        } else {
            marks.append(",?");
        }
        i = i + 1;
    }
    "SELECT ".to_owned().concat(TRACK_COLS).concat(" FROM tracks t WHERE t.id IN (").concat(
        marks.as_str(),
    ).concat(")")
}

/// The last row with an id, among the first `upto`.
pub open spec fn row_of(found: Seq<Track>, id: i64, upto: int) -> Option<int>
    decreases upto,
{
    if upto <= 0 {
        None
    } else if found[upto - 1].id == id {
        Some(upto - 1)
    } else {
        row_of(found, id, upto - 1)
    }
}

/// The tracks with some ids, in the order of the ids; those that were not found are left out.
pub open spec fn picked(ids: Seq<i64>, found: Seq<Track>) -> Seq<Track>
    decreases ids.len(),
{
    if ids.len() == 0 {
        Seq::empty()
    } else {
        let front = picked(ids.drop_last(), found);
        match row_of(found, ids.last(), found.len() as int) {
            Some(i) => front.push(found[i]),
            None => front,
        }
    }
}

/// The tracks with some ids, in the order of the ids, out of the rows that were found. Ids that are
/// no longer in the library are passed over.
pub fn tracks_by_ids(ids: &[i64], found: &[Track]) -> (r: Vec<Track>)
    ensures
        r@ == picked(ids@, found@),
{
    let n: usize = found.len();
    let mut rows: HashMap<i64, usize> = HashMap::new();
    let mut i: usize = 0;
    while i < n
        invariant
            n == found@.len(),
            i <= n,
            forall|id: i64|
                #![trigger rows@.contains_key(id)]
                rows@.contains_key(id) <==> row_of(found@, id, i as int) is Some,
            forall|id: i64|
                #![trigger rows@.contains_key(id)]
                rows@.contains_key(id) ==> rows@[id] == row_of(found@, id, i as int)->0 && rows@[id] < i,
        decreases n - i,
    {
        rows.insert(found[i].id, i);
        i = i + 1;
    }
    let m: usize = ids.len();
    let mut r: Vec<Track> = Vec::new();
    let mut k: usize = 0;
    proof {
        assert(ids@.take(0) =~= Seq::<i64>::empty());
    }
    while k < m
        invariant
            m == ids@.len(),
            n == found@.len(),
            k <= m,
            r@ == picked(ids@.take(k as int), found@),
            forall|id: i64|
                #![trigger rows@.contains_key(id)]
                rows@.contains_key(id) <==> row_of(found@, id, n as int) is Some,
            forall|id: i64|
                #![trigger rows@.contains_key(id)]
                rows@.contains_key(id) ==> rows@[id] == row_of(found@, id, n as int)->0 && rows@[id] < n,
        decreases m - k,
    {
        proof {
            let s = ids@.take(k + 1);
            assert(s.drop_last() =~= ids@.take(k as int));
            assert(s.last() == ids@[k as int]);
            assert(rows@.contains_key(ids@[k as int]) == rows@.contains_key(ids@[k as int]));
        }
        match rows.get(&ids[k]) {
            Some(i) => {
                r.push(found[*i].clone());
            },
            None => {},
        }
        k = k + 1;
    }
    proof {
        assert(ids@.take(m as int) =~= ids@);
    }
    r
}

/// Where every id was found, the tracks come one for one in the order of the ids.
pub proof fn law_order_of_ids_is_kept(ids: Seq<i64>, found: Seq<Track>)
    requires
        forall|k: int|
            0 <= k < ids.len() ==> row_of(found, #[trigger] ids[k], found.len() as int) is Some,
    ensures
        picked(ids, found).len() == ids.len(),
        forall|k: int| 0 <= k < ids.len() ==> (#[trigger] picked(ids, found)[k]).id == ids[k],
    decreases ids.len(),
{
    if ids.len() > 0 {
        let front = ids.drop_last();
        assert forall|k: int| 0 <= k < front.len() implies row_of(
            found,
            #[trigger] front[k],
            found.len() as int,
        ) is Some by {
            assert(front[k] == ids[k]);
        }
        law_order_of_ids_is_kept(front, found);
        assert(ids[ids.len() - 1] == ids.last());
        lemma_row_of(found, ids.last(), found.len() as int);
        assert forall|k: int| 0 <= k < ids.len() implies (#[trigger] picked(ids, found)[k]).id
            == ids[k] by {
            if k < front.len() {
                assert(picked(ids, found)[k] == picked(front, found)[k]);
                assert(front[k] == ids[k]);
            }
        }
    }
}

proof fn lemma_row_of(found: Seq<Track>, id: i64, upto: int)
    ensures
        row_of(found, id, upto) matches Some(i) ==> 0 <= i < upto && found[i].id == id,
    decreases upto,
{
    if upto > 0 && found[upto - 1].id != id {
        lemma_row_of(found, id, upto - 1);
    }
}

/// The pages of one filter are pages of one list: the query, its order and what it counts do not
/// depend on the page, nor on its length.
pub proof fn law_pages_share_a_list(
    f: TrackFilter,
    album: AlbumLookup,
    page: Option<u64>,
    page_size: Option<u64>,
)
    ensures
        ({
            let g = TrackFilter { page, page_size, ..f };
            &&& track_count_text(g, album) == track_count_text(f, album)
            &&& track_page_text(g, album) == track_page_text(f, album)
            &&& condition_params(g, album) == condition_params(f, album)
        }),
{
    let g = TrackFilter { page, page_size, ..f };
    assert(conditions(g, album) == conditions(f, album));
}

/// The first pages hold the first items, as many as fit into them.
proof fn lemma_first_pages<T>(all: Seq<T>, n: nat, page_size: u64)
    requires
        page_size >= 1,
        (n - 1) * page_size <= i64::MAX,
    ensures
        first_pages(all, n, page_size) == window(all, n * page_size, 0),
    decreases n,
{
    if n == 0 {
        assert(n * page_size == 0);
        assert(window(all, 0, 0) =~= Seq::empty());
    } else {
        let k = (n - 1) as nat;
        assert(n * page_size == k * page_size + page_size && (k - 1) * page_size <= k * page_size
            && 0 <= k <= k * page_size) by (nonlinear_arith)
            requires
                n == k + 1,
                page_size >= 1,
        ;
        lemma_first_pages(all, k, page_size);
        assert(page_start(n as u64, page_size) == k * page_size);
        assert(window(all, k * page_size, 0) + page_in(all, n as u64, page_size) =~= window(
            all,
            n * page_size,
            0,
        ));
    }
}

/// The pages of a list, read one after the other, give the list: without a gap, without anything
/// twice, in its order. No page is longer than asked for, each item stands on the page that its place
/// gives, and behind the last page there is nothing.
pub proof fn law_pages_give_the_list<T>(all: Seq<T>, page_size: u64)
    requires
        1 <= page_size,
        all.len() <= i64::MAX,
    ensures
        first_pages(all, page_count(all.len(), page_size), page_size) == all,
        forall|p: u64|
            1 <= p && (p - 1) * page_size <= i64::MAX ==> (#[trigger] page_in(
                all,
                p,
                page_size,
            )).len() <= page_size,
        forall|p: u64|
            page_count(all.len(), page_size) < p && (p - 1) * page_size <= i64::MAX ==> (
            #[trigger] page_in(all, p, page_size)).len() == 0,
        forall|i: int|
            0 <= i < all.len() ==> #[trigger] all[i] == page_in(
                all,
                (i / page_size as int + 1) as u64,
                page_size,
            )[i % page_size as int],
{
    let size = page_size as int;
    let total = all.len() as int;
    let n = page_count(all.len(), page_size);
    assert(0 <= (total + size - 1) / size && total <= (total + size - 1) / size * size && (total
        + size - 1) / size * size <= total + size - 1) by (nonlinear_arith)
        requires
            size >= 1,
            total >= 0,
    ;
    assert((n - 1) * size == n * size - size) by (nonlinear_arith);
    lemma_first_pages(all, n, page_size);
    assert(window(all, n * page_size, 0) =~= all);
    assert forall|p: u64| n < p && (p - 1) * page_size <= i64::MAX implies (#[trigger] page_in(
        all,
        p,
        page_size,
    )).len() == 0 by {
        assert((p - 1) * size >= n * size) by (nonlinear_arith)
            requires
                p > n,
                size >= 1,
        ;
    }
    assert forall|p: u64| 1 <= p && (p - 1) * page_size <= i64::MAX implies (#[trigger] page_in(
        all,
        p,
        page_size,
    )).len() <= page_size by {
        assert((p - 1) * size >= 0) by (nonlinear_arith)
            requires
                p >= 1,
                size >= 1,
        ;
    }
    assert forall|i: int| 0 <= i < all.len() implies #[trigger] all[i] == page_in(
        all,
        (i / page_size as int + 1) as u64,
        page_size,
    )[i % page_size as int] by {
        assert(0 <= i / size <= i && i / size * size + i % size == i && 0 <= i % size < size && 0
            <= i / size * size) by (nonlinear_arith)
            requires
                size >= 1,
                i >= 0,
        ;
        assert(page_start((i / size + 1) as u64, page_size) == i / size * size);
    }
}

/// Tracks come by title and upwards where nothing else is asked for; by the time they were added, the
/// last comes first; an order that is asked for always counts.
pub proof fn law_default_order(sort: Option<String>, order: Option<String>)
    ensures
        sort is None ==> sort_column(sort) == "t.title COLLATE NOCASE"@,
        order is None && (sort matches Some(s) && s@ == "date-added"@) ==> sort_column(sort)
            == "t.added_ms"@ && sort_direction(sort, order) == "DESC"@,
        order is None && !(sort matches Some(s) && s@ == "date-added"@) ==> sort_direction(sort, order)
            == "ASC"@,
        (order matches Some(o) && o@ == "desc"@) ==> sort_direction(sort, order) == "DESC"@,
        (order matches Some(o) && o@ == "asc"@) ==> sort_direction(sort, order) == "ASC"@,
{
    reveal_strlit("asc");
    reveal_strlit("desc");
    reveal_strlit("date-added");
    reveal_strlit("artist");
    reveal_strlit("album");
    reveal_strlit("year");
    reveal_strlit("duration");
    if let Some(s) = sort {
        if s@ == "date-added"@ {
            assert(s@.len() == 10);
        }
    }
    if let Some(o) = order {
        if o@ == "asc"@ {
            assert(o@.len() == 3);
        }
    }
}

/// What several queries read of a list, one behind the other.
pub open spec fn rows_read<T>(all: Seq<T>, queries: Seq<PageQuery>) -> Seq<T>
    decreases queries.len(),
{
    if queries.len() == 0 {
        Seq::empty()
    } else {
        rows_read(all, queries.drop_last()) + window(
            all,
            queries.last().limit as int,
            queries.last().offset as int,
        )
    }
}

/// The queries for the pages of a filter, as many as the list of its tracks has, read every track of
/// that list once and in its order. They all have the same text and parameters, and none reads more
/// than was asked for.
pub proof fn law_pages_hold_every_track_once<T>(
    f: TrackFilter,
    album: AlbumLookup,
    all: Seq<T>,
    comes_before: spec_fn(T, T) -> bool,
    page_size: u64,
    queries: Seq<PageQuery>,
)
    requires
        1 <= page_size <= 1000,
        all.len() <= i64::MAX,
        all.no_duplicates(),
        forall|i: int, j: int| 0 <= i < j < all.len() ==> comes_before(all[i], all[j]),
        queries.len() == page_count(all.len(), page_size),
        forall|i: int|
            0 <= i < queries.len() ==> reads_page(
                #[trigger] queries[i],
                TrackFilter { page: Some((i + 1) as u64), page_size: Some(page_size), ..f },
                album,
            ),
    ensures
        ({
            let rows = rows_read(all, queries);
            &&& rows.len() == all.len()
            &&& rows.no_duplicates()
            &&& forall|x: T| rows.contains(x) <==> all.contains(x)
            &&& forall|i: int, j: int| 0 <= i < j < rows.len() ==> comes_before(rows[i], rows[j])
        }),
        forall|i: int|
            0 <= i < queries.len() ==> {
                let q = #[trigger] queries[i];
                &&& q.count_sql@ == track_count_text(f, album)
                &&& q.page_sql@ == track_page_text(f, album)
                &&& params_view(q.params@) == condition_params(f, album)
                &&& window(all, q.limit as int, q.offset as int).len() <= page_size
            },
{
    law_pages_give_the_list(all, page_size);
    let size = page_size as int;
    let total = all.len() as int;
    assert((total + size - 1) / size <= total + size) by (nonlinear_arith)
        requires
            size >= 1,
            total >= 0,
    ;
    assert(queries.take(queries.len() as int) =~= queries);
    lemma_rows_read(f, album, all, page_size, queries, queries.len());
    assert forall|i: int| 0 <= i < queries.len() implies {
        let q = #[trigger] queries[i];
        &&& q.count_sql@ == track_count_text(f, album)
        &&& q.page_sql@ == track_page_text(f, album)
        &&& params_view(q.params@) == condition_params(f, album)
        &&& window(all, q.limit as int, q.offset as int).len() <= page_size
    } by {
        let p = (i + 1) as u64;
        law_pages_share_a_list(f, album, Some(p), Some(page_size));
        assert(i * size <= (queries.len() - 1) * size) by (nonlinear_arith)
            requires
                i <= queries.len() - 1,
                size >= 1,
        ;
        assert((queries.len() - 1) * size <= total) by (nonlinear_arith)
            requires
                queries.len() == (total + size - 1) / size,
                size >= 1,
                total >= 0,
        ;
        assert(page_in(all, p, page_size).len() <= page_size);
    }
}

proof fn lemma_rows_read<T>(
    f: TrackFilter,
    album: AlbumLookup,
    all: Seq<T>,
    page_size: u64,
    queries: Seq<PageQuery>,
    n: nat,
)
    requires
        1 <= page_size <= 1000,
        n <= queries.len() <= u64::MAX,
        forall|i: int|
            0 <= i < queries.len() ==> reads_page(
                #[trigger] queries[i],
                TrackFilter { page: Some((i + 1) as u64), page_size: Some(page_size), ..f },
                album,
            ),
    ensures
        rows_read(all, queries.take(n as int)) == first_pages(all, n, page_size),
    decreases n,
{
    if n > 0 {
        let t = queries.take(n as int);
        assert(t.drop_last() =~= queries.take(n - 1));
        assert(t.last() == queries[n - 1]);
        lemma_rows_read(f, album, all, page_size, queries, (n - 1) as nat);
    }
}

/// A sort key names the column that it is called after, and what is no sort key stands for the
/// title: names are sorted without regard to case, numbers as they are.
pub proof fn law_sort_keys_name_their_columns(sort: Option<String>)
    ensures
        sort matches Some(s) ==> {
            &&& s@ == "artist"@ || s@ == "album"@ ==> sort_column(sort) == "t."@ + s@
                + " COLLATE NOCASE"@
            &&& s@ == "year"@ ==> sort_column(sort) == "t."@ + s@
            &&& s@ == "duration"@ ==> sort_column(sort) == "t."@ + s@ + "_ms"@
            &&& s@ == "date-added"@ ==> sort_column(sort) == "t.added_ms"@
            &&& s@ != "artist"@ && s@ != "album"@ && s@ != "year"@ && s@ != "duration"@ && s@
                != "date-added"@ ==> sort_column(sort) == "t.title COLLATE NOCASE"@
        },
        sort is None ==> sort_column(sort) == "t."@ + "title"@ + " COLLATE NOCASE"@,
{
    reveal_strlit("artist");
    reveal_strlit("album");
    reveal_strlit("year");
    reveal_strlit("duration");
    reveal_strlit("date-added");
    reveal_strlit("title");
    reveal_strlit("t.");
    reveal_strlit("_ms");
    reveal_strlit(" COLLATE NOCASE");
    reveal_strlit("t.artist COLLATE NOCASE");
    reveal_strlit("t.album COLLATE NOCASE");
    reveal_strlit("t.title COLLATE NOCASE");
    reveal_strlit("t.year");
    reveal_strlit("t.duration_ms");
    reveal_strlit("t.added_ms");
    assert("artist"@[1] == 'r' && "album"@[1] == 'l');
    assert("t."@ + "artist"@ + " COLLATE NOCASE"@ =~= "t.artist COLLATE NOCASE"@);
    assert("t."@ + "album"@ + " COLLATE NOCASE"@ =~= "t.album COLLATE NOCASE"@);
    assert("t."@ + "title"@ + " COLLATE NOCASE"@ =~= "t.title COLLATE NOCASE"@);
    assert("t."@ + "year"@ =~= "t.year"@);
    assert("t."@ + "duration"@ + "_ms"@ =~= "t.duration_ms"@);
}

/// Whether a text is one of the sort keys.
pub open spec fn is_sort_key(s: Seq<char>) -> bool {
    s == "artist"@ || s == "album"@ || s == "year"@ || s == "duration"@ || s == "date-added"@
}

/// Two different sort keys sort by two different columns, and neither by the title.
pub proof fn law_different_keys_sort_differently(a: String, b: String)
    requires
        is_sort_key(a@),
        is_sort_key(b@),
        a@ != b@,
    ensures
        sort_column(Some(a)) != sort_column(Some(b)),
        sort_column(Some(a)) != sort_column(None),
{
    reveal_strlit("t.artist COLLATE NOCASE");
    reveal_strlit("t.album COLLATE NOCASE");
    reveal_strlit("t.title COLLATE NOCASE");
    reveal_strlit("t.year");
    reveal_strlit("t.duration_ms");
    reveal_strlit("t.added_ms");
    assert("t.artist COLLATE NOCASE"@[3] == 'r');
    assert("t.album COLLATE NOCASE"@[3] == 'l');
    assert("t.title COLLATE NOCASE"@[3] == 'i');
    assert("t.year"@[3] == 'e');
    assert("t.duration_ms"@[3] == 'u');
    assert("t.added_ms"@[3] == 'd');
}

/// The page and the count of a filter look at the same tracks, and the page is sorted by the column
/// of the sort key, in its direction, and then by the id.
pub proof fn law_page_query(q: PageQuery, f: TrackFilter, album: AlbumLookup)
    requires
        reads_page(q, f, album),
    ensures
        ({
            let w = where_of(conditions(f, album));
            &&& q.count_sql@ == "SELECT COUNT(*) FROM tracks t "@ + w
            &&& q.page_sql@ == "SELECT "@ + TRACK_COLS@ + " FROM tracks t "@ + w + " ORDER BY "@
                + sort_column(f.sort) + " "@ + sort_direction(f.sort, f.order)
                + ", t.id ASC LIMIT ? OFFSET ?"@
        }),
        q.limit == q.page_size,
        f.page matches Some(p) && p >= 1 ==> q.page == f.page->0,
        f.page is None ==> q.page == 1 && q.offset == 0,
        f.page_size is None ==> q.limit == 200,
        f.page_size matches Some(n) && 1 <= n <= 1000 ==> q.limit == f.page_size->0,
{
    assert(0 * q.page_size == 0) by (nonlinear_arith);
}

/// Pages are numbered from 1 and are from 1 to 1000 long, 200 where no length is asked for; each
/// starts where the one before it ends.
pub proof fn law_pages(page: u64, size: u64)
    ensures
        page_of(None) == 1,
        page_of(Some(0)) == 1,
        page >= 1 ==> page_of(Some(page)) == page,
        size_of_page(None) == 200,
        size_of_page(Some(0)) == 1,
        1 <= size <= 1000 ==> size_of_page(Some(size)) == size,
        size > 1000 ==> size_of_page(Some(size)) == 1000,
        page_start(1, size) == 0,
        page >= 1 && page * size <= i64::MAX && page < u64::MAX ==> page_start((page + 1) as u64, size)
            == page_start(page, size) + size,
{
    assert(0 * size == 0) by (nonlinear_arith);
    if page >= 1 && page * size <= i64::MAX && page < u64::MAX {
        assert((page - 1) * size + size == page * size) by (nonlinear_arith);
        assert((page - 1) * size >= 0) by (nonlinear_arith)
            requires
                page >= 1,
        ;
    }
}

/// A filter has a condition for each thing that is asked, in the order text, artist, album, and the
/// parameters stand in the same order: one for the text, two for the artist, two for the album.
pub proof fn law_conditions(f: TrackFilter, album: AlbumLookup)
    ensures
        ({
            let text = f.q is Some && trim_of(f.q->0@).len() > 0;
            let artist = f.artist is Some && f.artist->0@.len() > 0;
            let of_album = album is Found;
            let c = conditions(f, album);
            let p = condition_params(f, album);
            let a: int = if text {
                1
            } else {
                0
            };
            let b: int = if artist {
                1
            } else {
                0
            };
            let d: int = if of_album {
                1
            } else {
                0
            };
            &&& c.len() == a + b + d
            &&& p.len() == a + 2 * b + 2 * d
            &&& text ==> c[0] == TEXT_CLAUSE@ && p[0] == ParamView::Text(
                "%"@ + escaped(trim_of(f.q->0@)) + "%"@,
            )
            &&& artist ==> c[a] == ARTIST_CLAUSE@ && p[a] == ParamView::Text(f.artist->0@) && p[a + 1]
                == ParamView::Text(f.artist->0@)
            &&& of_album ==> c[a + b] == ALBUM_CLAUSE@ && p[a + 2 * b] == ParamView::Text(
                album->album@,
            ) && p[a + 2 * b + 1] == ParamView::Text(album->artist@)
        }),
{
}

/// Where several conditions hold they are joined by `AND`; where there are none, nothing is said.
pub proof fn law_where(parts: Seq<Seq<char>>, p: Seq<char>)
    ensures
        where_of(Seq::empty()) == Seq::<char>::empty(),
        where_of(seq![p]) == "WHERE "@ + p,
        parts.len() > 0 ==> where_of(parts.push(p)) == where_of(parts) + " AND "@ + p,
{
    if parts.len() > 0 {
        assert(parts.push(p).drop_last() =~= parts);
        assert("WHERE "@ + (joined(parts) + " AND "@ + p) =~= "WHERE "@ + joined(parts) + " AND "@ + p);
    }
}

/// A column compared with the pattern of a search.
pub open spec fn like_clause(column: Seq<char>) -> Seq<char> {
    column + " LIKE ?1 ESCAPE '\\'"@
}

/// A text is looked for in the title, the artist, the album and its artist of a track; an artist is
/// that of the track or of its album; an album is known by its name and its artist.
pub proof fn law_clauses()
    ensures
        TEXT_CLAUSE@ == "("@ + like_clause("t.title"@) + " OR "@ + like_clause("t.artist"@) + " OR "@
            + like_clause("t.album"@) + " OR "@ + like_clause("t.album_artist"@) + ")"@,
        ARTIST_CLAUSE@ == "("@ + ("t.artist"@ + " = ? COLLATE NOCASE"@) + " OR "@ + ("t.album_artist"@
            + " = ? COLLATE NOCASE"@) + ")"@,
{
    reveal_strlit("(t.title LIKE ?1 ESCAPE '\\' OR t.artist LIKE ?1 ESCAPE '\\' OR t.album LIKE ?1 ESCAPE '\\' OR t.album_artist LIKE ?1 ESCAPE '\\')");
    reveal_strlit("(t.artist = ? COLLATE NOCASE OR t.album_artist = ? COLLATE NOCASE)");
    reveal_strlit("(");
    reveal_strlit(")");
    reveal_strlit(" OR ");
    reveal_strlit("t.title");
    reveal_strlit("t.artist");
    reveal_strlit("t.album");
    reveal_strlit("t.album_artist");
    reveal_strlit(" LIKE ?1 ESCAPE '\\'");
    reveal_strlit(" = ? COLLATE NOCASE");
    assert(TEXT_CLAUSE@ =~= "("@ + like_clause("t.title"@) + " OR "@ + like_clause("t.artist"@)
        + " OR "@ + like_clause("t.album"@) + " OR "@ + like_clause("t.album_artist"@) + ")"@);
    assert(ARTIST_CLAUSE@ =~= "("@ + ("t.artist"@ + " = ? COLLATE NOCASE"@) + " OR "@ + (
    "t.album_artist"@ + " = ? COLLATE NOCASE"@) + ")"@);
}

/// A named album is shown under its name, an unnamed one under the title of its first track, and
/// only a single track gives an album its title.
pub proof fn law_album_names(row: AlbumRow)
    ensures
        trim_of(row.name@).len() > 0 ==> shown_name(row) == row.name@,
        trim_of(row.name@).len() == 0 && row.first_title is Some ==> shown_name(row)
            == row.first_title->0@,
        trim_of(row.name@).len() == 0 && row.first_title is None ==> shown_name(row).len() == 0,
        row.track_count == 1 ==> shown_single(row) == row.first_title,
        row.track_count != 1 ==> shown_single(row) is None,
{
}

/// Blanks around a text do not change a search, and a search is for what holds the text, up to 30
/// tracks, 20 albums, 20 artists and 10 playlists.
pub proof fn law_search_ignores_blanks(
    p: SearchPlan,
    before: Seq<char>,
    text: Seq<char>,
    after: Seq<char>,
)
    requires
        searches_for(p, before + text + after),
        text.len() > 0,
        !is_white(text[0]),
        !is_white(text.last()),
        forall|i: int| 0 <= i < before.len() ==> is_white(before[i]),
        forall|i: int| 0 <= i < after.len() ==> is_white(after[i]),
    ensures
        searches_for(p, text),
        p.q@ == text,
        p.like@.len() == escaped(text).len() + 2,
        p.like@[0] == '%',
        p.like@.last() == '%',
        unescaped(p.like@.subrange(1, p.like@.len() - 1)) == Some(text),
        p.tracks == 30 && p.albums == 20 && p.artists == 20 && p.playlists == 10,
{
    law_trim_takes_whitespace_only(before, text, after);
    let none = Seq::<char>::empty();
    assert(none + text + none =~= text);
    law_trim_takes_whitespace_only(none, text, none);
    reveal_strlit("%");
    assert(p.like@.subrange(1, p.like@.len() - 1) =~= escaped(text));
    law_escaped_text_stands_for_itself(text);
}

/// A text of blanks asks for nothing.
pub proof fn law_blank_asks_nothing(q: String)
    requires
        forall|i: int| 0 <= i < q@.len() ==> is_white(q@[i]),
    ensures
        asked_text(Some(q)) is None,
        asked_text(None) is None,
        album_params(Some(q)).len() == 0,
        album_condition(Some(q)) == ALBUM_WHERE@,
{
    law_blank_trims_to_nothing(q@);
    assert(ALBUM_WHERE@ + Seq::<char>::empty() =~= ALBUM_WHERE@);
}

/// Albums are looked for by the same pattern as tracks.
pub proof fn law_albums_are_asked_as_tracks(q: String)
    requires
        trim_of(q@).len() > 0,
    ensures
        album_params(Some(q)) == seq![ParamView::Text("%"@ + escaped(trim_of(q@)) + "%"@)],
        album_condition(Some(q)) == ALBUM_WHERE@ + ALBUM_TEXT_CLAUSE@,
{
}

/// There is a question mark for each parameter, with commas between them.
pub proof fn law_placeholders(n: nat)
    ensures
        placeholders(0).len() == 0,
        n > 0 ==> placeholders(n).len() == 2 * n - 1,
        forall|i: int|
            0 <= i < placeholders(n).len() ==> #[trigger] placeholders(n)[i] == if i % 2 == 0 {
                '?'
            } else {
                ','
            },
    decreases n,
{
    reveal_strlit("?");
    reveal_strlit(",?");
    if n > 1 {
        law_placeholders((n - 1) as nat);
    }
}

/// Ids are looked up one by one: each gives the track that has it, and one that no track has gives
/// nothing.
pub proof fn law_each_id_gives_its_track(ids: Seq<i64>, id: i64, found: Seq<Track>, i: int)
    ensures
        0 <= i < found.len() && found[i].id == id && (forall|k: int|
            0 <= k < found.len() && k != i ==> (#[trigger] found[k]).id != id) ==> picked(
            ids.push(id),
            found,
        ) == picked(ids, found).push(found[i]),
        (forall|k: int| 0 <= k < found.len() ==> (#[trigger] found[k]).id != id) ==> picked(
            ids.push(id),
            found,
        ) == picked(ids, found),
{
    assert(ids.push(id).drop_last() =~= ids);
    lemma_row_is_found(found, id, found.len() as int);
}

proof fn lemma_row_is_found(found: Seq<Track>, id: i64, upto: int)
    requires
        0 <= upto <= found.len(),
    ensures
        match row_of(found, id, upto) {
            Some(k) => 0 <= k < upto && found[k].id == id,
            None => forall|k: int| 0 <= k < upto ==> (#[trigger] found[k]).id != id,
        },
    decreases upto,
{
    if upto > 0 {
        lemma_row_is_found(found, id, upto - 1);
    }
}

} // verus!
