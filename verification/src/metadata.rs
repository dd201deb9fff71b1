//! What is stored of a file: its tags, its properties and its cover.

use crate::covers::{image_ext_of, sniff_image_ext};
use crate::engine::dsd::{text_or_empty, DsdMeta};
use crate::error::{AppError, E_DECODE};
use crate::text::{chars_of, lower_of, string_of, to_lower};
use vstd::prelude::*;
use vstd::string::StringExecFns;

verus! {

/// What is stored of a track.
#[derive(Debug, PartialEq)]
pub struct TrackMeta {
    pub path: String,
    pub title: String,
    pub artist: String,
    pub album: String,
    pub album_artist: String,
    pub genre: String,
    pub year: Option<i64>,
    pub track_no: Option<i64>,
    pub disc_no: Option<i64>,
    pub duration_ms: i64,
    pub sample_rate: Option<i64>,
    pub bitrate: Option<i64>,
    pub channels: Option<i64>,
    pub format: String,
    pub cover_key: Option<String>,
    pub file_size: i64,
    pub file_mtime: i64,
}

impl Default for TrackMeta {
    fn default() -> (r: Self)
        ensures
            r.is_blank(),
    {
        TrackMeta {
            path: String::new(),
            title: String::new(),
            artist: String::new(),
            album: String::new(),
            album_artist: String::new(),
            genre: String::new(),
            year: None,
            track_no: None,
            disc_no: None,
            duration_ms: 0,
            sample_rate: None,
            bitrate: None,
            channels: None,
            format: String::new(),
            cover_key: None,
            file_size: 0,
            file_mtime: 0,
        }
    }
}

impl TrackMeta {
    /// Whether nothing is known.
    pub open spec fn is_blank(self) -> bool {
        &&& self.path@.len() == 0
        &&& self.title@.len() == 0
        &&& self.artist@.len() == 0
        &&& self.album@.len() == 0
        &&& self.album_artist@.len() == 0
        &&& self.genre@.len() == 0
        &&& self.year is None
        &&& self.track_no is None
        &&& self.disc_no is None
        &&& self.duration_ms == 0
        &&& self.sample_rate is None
        &&& self.bitrate is None
        &&& self.channels is None
        &&& self.format@.len() == 0
        &&& self.has_no_file()
    }

    /// Whether the file and its cover are not known yet.
    pub open spec fn has_no_file(self) -> bool {
        &&& self.path@.len() == 0
        &&& self.cover_key is None
        &&& self.file_size == 0
        &&& self.file_mtime == 0
    }
}

/// What is known of the audio in a file.
#[derive(Debug, Clone, Copy, PartialEq, Eq, Structural)]
pub struct Properties {
    pub duration_ms: i64,
    pub sample_rate: Option<u32>,
    pub bitrate: Option<u32>,
    pub channels: Option<u8>,
}

/// What the first tag of a file says.
#[derive(Debug)]
pub struct Tag {
    pub title: Option<String>,
    pub artist: Option<String>,
    pub album: Option<String>,
    pub album_artist: Option<String>,
    pub genre: Option<String>,
    pub year: Option<u16>,
    pub track: Option<u32>,
    pub disk: Option<u32>,
    /// The first picture.
    pub picture: Option<Vec<u8>>,
}

/// A cover that was found in a file.
#[derive(Debug)]
pub struct Cover {
    pub bytes: Vec<u8>,
    /// The extension that the cover is stored under.
    pub ext: &'static str,
}

/// A number, if there is one.
pub open spec fn number_of(n: Option<u32>) -> Option<i64> {
    match n {
        Some(v) => Some(v as i64),
        None => None,
    }
}

fn number(n: Option<u32>) -> (r: Option<i64>)
    ensures
        r == number_of(n),
{
    match n {
        Some(v) => Some(v as i64),
        None => None,
    }
}

fn text(t: Option<String>) -> (r: String)
    ensures
        r@ == text_or_empty(t),
{
    match t {
        Some(s) => s,
        None => String::new(),
    }
}

/// Whether this is what is stored of a file that is no DSD file, and its cover.
pub open spec fn is_read(
    r: (TrackMeta, Option<Cover>),
    ext: Seq<char>,
    props: Properties,
    tag: Option<Tag>,
) -> bool {
    &&& r.0.has_no_file()
    &&& r.0.duration_ms == props.duration_ms
    &&& r.0.sample_rate == number_of(props.sample_rate)
    &&& r.0.bitrate == number_of(props.bitrate)
    &&& r.0.channels == match props.channels {
        Some(c) => Some(c as i64),
        None => None,
    }
    &&& r.0.format@ == lower_of(ext)
    &&& tag is None ==> {
        &&& r.0.title@.len() == 0
        &&& r.0.artist@.len() == 0
        &&& r.0.album@.len() == 0
        &&& r.0.album_artist@.len() == 0
        &&& r.0.genre@.len() == 0
        &&& r.0.year is None
        &&& r.0.track_no is None
        &&& r.0.disc_no is None
        &&& r.1 is None
    }
    &&& tag matches Some(t) ==> {
        &&& r.0.title@ == text_or_empty(t.title)
        &&& r.0.artist@ == text_or_empty(t.artist)
        &&& r.0.album@ == text_or_empty(t.album)
        &&& r.0.album_artist@ == text_or_empty(t.album_artist)
        &&& r.0.genre@ == text_or_empty(t.genre)
        &&& r.0.year == match t.year {
            Some(y) => Some(y as i64),
            None => None,
        }
        &&& r.0.track_no == number_of(t.track)
        &&& r.0.disc_no == number_of(t.disk)
        &&& r.1 is Some <==> t.picture is Some && image_ext_of((t.picture->0)@) is Some
        &&& r.1 matches Some(c) ==> c.bytes@ == (t.picture->0)@ && image_ext_of(c.bytes@) == Some(
            c.ext@,
        )
    }
}

/// What is stored of a file that is no DSD file, and the cover to be stored beside it. A picture of
/// no known kind is no cover.
pub fn read_metadata(ext: &str, props: Properties, tag: Option<Tag>) -> (r: (TrackMeta, Option<Cover>))
    ensures
        is_read(r, ext@, props, tag),
{
    let mut meta = TrackMeta::default();
    meta.duration_ms = props.duration_ms;
    meta.sample_rate = number(props.sample_rate);
    meta.bitrate = number(props.bitrate);
    meta.channels = match props.channels {
        Some(c) => Some(c as i64),
        None => None,
    };
    let chars = chars_of(ext);
    let low = to_lower(chars.as_slice());
    meta.format = string_of(low.as_slice());
    let mut cover: Option<Cover> = None;
    if let Some(t) = tag {
        meta.title = text(t.title);
        meta.artist = text(t.artist);
        meta.album = text(t.album);
        meta.genre = text(t.genre);
        meta.album_artist = text(t.album_artist);
        meta.year = match t.year {
            Some(y) => Some(y as i64),
            None => None,
        };
        meta.track_no = number(t.track);
        meta.disc_no = number(t.disk);
        if let Some(bytes) = t.picture {
            if let Some(kind) = sniff_image_ext(bytes.as_slice()) {
                cover = Some(Cover { bytes, ext: kind });
            }
        }
    }
    (meta, cover)
}

/// Whether this is what is stored of a DSD file, and its cover.
pub open spec fn is_read_dsd(v: (TrackMeta, Option<Cover>), m: DsdMeta, ext: Seq<char>) -> bool {
    &&& v.0.has_no_file()
    &&& v.0.title == m.title
    &&& v.0.artist == m.artist
    &&& v.0.album == m.album
    &&& v.0.album_artist@.len() == 0
    &&& v.0.genre == m.genre
    &&& v.0.year == m.year
    &&& v.0.track_no == m.track_no
    &&& v.0.disc_no is None
    &&& v.0.duration_ms == m.duration_ms
    &&& v.0.sample_rate == Some(m.sample_rate)
    &&& v.0.bitrate is None
    &&& v.0.channels == Some(m.channels)
    &&& v.0.format@ == ext
    &&& v.1 is Some <==> m.picture is Some
    &&& v.1 matches Some(c) ==> c.bytes == (m.picture->0).0 && c.ext@ == match image_ext_of(
        c.bytes@,
    ) {
        Some(kind) => kind,
        None => (m.picture->0).1@,
    }
}

/// What is stored of a DSD file, and the cover to be stored beside it. A stream of single bits has
/// no bit rate to speak of. A picture of no known kind is stored under the extension that its media
/// type suggests.
pub fn read_dsd_metadata(d: Option<DsdMeta>, path: &str, ext: &str) -> (r: Result<
    (TrackMeta, Option<Cover>),
    AppError,
>)
    ensures
        r is Ok <==> d is Some,
        r matches Err(e) ==> e.code@ == E_DECODE@ && e.message@ == "无法解析 DSD 文件: "@ + path@,
        r matches Ok(v) ==> is_read_dsd(v, d->0, ext@),
{
    let d = match d {
        Some(d) => d,
        None => {
            return Err(
                AppError::new(E_DECODE, "无法解析 DSD 文件: ".to_owned().concat(path)),
            );
        },
    };
    let mut meta = TrackMeta::default();
    meta.title = d.title;
    meta.artist = d.artist;
    meta.album = d.album;
    meta.genre = d.genre;
    meta.year = d.year;
    meta.track_no = d.track_no;
    meta.duration_ms = d.duration_ms;
    meta.sample_rate = Some(d.sample_rate);
    meta.channels = Some(d.channels);
    meta.format = ext.to_owned();
    let cover = match d.picture {
        Some((bytes, hint)) => {
            let kind = match sniff_image_ext(bytes.as_slice()) {
                Some(kind) => kind,
                None => hint,
            };
            Some(Cover { bytes, ext: kind })
        },
        None => None,
    };
    Ok((meta, cover))
}

/// The title of a track, or the name of its file where it has none.
pub open spec fn title_or_name(title: Seq<char>, stem: Option<String>, path: Seq<char>) -> Seq<char> {
    if title.len() > 0 {
        title
    } else if stem is Some {
        stem->0@
    } else {
        path
    }
}

/// Adds what is known of the file itself. A track without a title is called after its file.
pub fn with_file(
    meta: TrackMeta,
    path: String,
    stem: Option<String>,
    mtime: i64,
    size: i64,
    cover_key: Option<String>,
) -> (r: TrackMeta)
    ensures
        r.path == path,
        r.file_mtime == mtime,
        r.file_size == size,
        r.cover_key == cover_key,
        r.title@ == title_or_name(meta.title@, stem, path@),
        r == (TrackMeta {
            path: r.path,
            title: r.title,
            file_mtime: r.file_mtime,
            file_size: r.file_size,
            cover_key: r.cover_key,
            ..meta
        }),
{
    let mut r = meta;
    if chars_of(r.title.as_str()).len() == 0 {
        r.title = match stem {
            Some(s) => s,
            None => path.clone(),
        };
    }
    r.path = path;
    r.file_mtime = mtime;
    r.file_size = size;
    r.cover_key = cover_key;
    r
}

/// Each tag goes into the field that it is called after, each number keeps its value, and a picture
/// becomes the cover where its kind is known.
pub proof fn law_tags_go_where_they_belong(
    r: (TrackMeta, Option<Cover>),
    ext: Seq<char>,
    props: Properties,
    t: Tag,
)
    requires
        is_read(r, ext, props, Some(t)),
    ensures
        t.title matches Some(s) ==> r.0.title@ == s@,
        t.artist matches Some(s) ==> r.0.artist@ == s@,
        t.album matches Some(s) ==> r.0.album@ == s@,
        t.album_artist matches Some(s) ==> r.0.album_artist@ == s@,
        t.genre matches Some(s) ==> r.0.genre@ == s@,
        t.title is None ==> r.0.title@.len() == 0,
        t.year matches Some(y) ==> r.0.year == Some(y as i64),
        t.track matches Some(n) ==> r.0.track_no == Some(n as i64),
        t.disk matches Some(n) ==> r.0.disc_no == Some(n as i64),
        t.year is None ==> r.0.year is None,
        t.track is None ==> r.0.track_no is None,
        t.disk is None ==> r.0.disc_no is None,
        t.picture matches Some(p) ==> (image_ext_of(p@) matches Some(kind) ==> r.1 is Some && (r.1->0).bytes@
            == p@ && (r.1->0).ext@ == kind),
        t.picture is None ==> r.1 is None,
{
}

/// What the decoder says of the audio is taken over, with or without a tag; a file without a tag has
/// no texts, no numbers and no cover.
pub proof fn law_properties_are_taken_over(
    r: (TrackMeta, Option<Cover>),
    ext: Seq<char>,
    props: Properties,
    tag: Option<Tag>,
)
    requires
        is_read(r, ext, props, tag),
    ensures
        r.0.duration_ms == props.duration_ms,
        props.sample_rate matches Some(n) ==> r.0.sample_rate == Some(n as i64),
        props.bitrate matches Some(n) ==> r.0.bitrate == Some(n as i64),
        props.channels matches Some(n) ==> r.0.channels == Some(n as i64),
        props.sample_rate is None ==> r.0.sample_rate is None,
        props.bitrate is None ==> r.0.bitrate is None,
        props.channels is None ==> r.0.channels is None,
        r.0.format@ == lower_of(ext),
        r.0.path@.len() == 0 && r.0.cover_key is None,
        tag is None ==> r.0.title@.len() == 0 && r.0.artist@.len() == 0 && r.0.album@.len() == 0
            && r.0.album_artist@.len() == 0 && r.0.genre@.len() == 0 && r.0.year is None
            && r.0.track_no is None && r.0.disc_no is None && r.1 is None,
{
}

/// What a DSD file says of itself is taken over, each in its place.
pub proof fn law_dsd_fields(v: (TrackMeta, Option<Cover>), m: DsdMeta, ext: Seq<char>)
    requires
        is_read_dsd(v, m, ext),
    ensures
        v.0.title == m.title && v.0.artist == m.artist && v.0.album == m.album && v.0.genre == m.genre,
        v.0.year == m.year && v.0.track_no == m.track_no,
        v.0.duration_ms == m.duration_ms,
        v.0.sample_rate == Some(m.sample_rate) && v.0.channels == Some(m.channels),
        v.0.bitrate is None && v.0.disc_no is None,
        v.0.album_artist@.len() == 0,
        v.0.path@.len() == 0 && v.0.cover_key is None && v.0.file_size == 0 && v.0.file_mtime == 0,
        v.0.format@ == ext,
        m.picture matches Some(p) ==> v.1 is Some && (v.1->0).bytes == p.0,
        m.picture matches Some(p) ==> (image_ext_of(p.0@) is None ==> (v.1->0).ext@ == p.1@),
        m.picture matches Some(p) ==> (image_ext_of(p.0@) matches Some(k) ==> (v.1->0).ext@ == k),
        m.picture is None ==> v.1 is None,
{
}

/// A title stays; without one a track is called after its file, and at worst by its path.
pub proof fn law_titles(title: Seq<char>, stem: String, path: Seq<char>)
    ensures
        title.len() > 0 ==> title_or_name(title, Some(stem), path) == title && title_or_name(
            title,
            None,
            path,
        ) == title,
        title_or_name(Seq::empty(), Some(stem), path) == stem@,
        title_or_name(Seq::empty(), None, path) == path,
{
}

/// Of a track that nothing is known of nothing is set.
pub proof fn law_blank_track(m: TrackMeta)
    requires
        m.is_blank(),
    ensures
        m.path@ == Seq::<char>::empty() && m.title@ == Seq::<char>::empty() && m.artist@
            == Seq::<char>::empty(),
        m.album@ == Seq::<char>::empty() && m.album_artist@ == Seq::<char>::empty() && m.genre@
            == Seq::<char>::empty() && m.format@ == Seq::<char>::empty(),
        m.year is None && m.track_no is None && m.disc_no is None,
        m.sample_rate is None && m.bitrate is None && m.channels is None,
        m.cover_key is None,
        m.duration_ms == 0 && m.file_size == 0 && m.file_mtime == 0,
{
}

} // verus!
