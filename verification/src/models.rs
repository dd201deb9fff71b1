//! The data that the library hands to its callers.
//!
//! Points in time and lengths of time inside a track are whole nanoseconds; what the library
//! database keeps is whole milliseconds.

use crate::text::opt_clone;
use vstd::prelude::*;

verus! {

/// One track of the library.
#[derive(Debug, PartialEq)]
pub struct Track {
    pub id: i64,
    pub path: String,
    pub title: String,
    pub artist: String,
    pub album: String,
    pub album_artist: String,
    pub genre: String,
    pub year: Option<i64>,
    pub track_no: Option<i64>,
    pub disc_no: Option<i64>,
    pub duration_ms: i64,
    pub sample_rate: Option<i64>,
    pub bitrate: Option<i64>,
    pub channels: Option<i64>,
    pub format: String,
    pub cover_key: Option<String>,
    pub file_size: i64,
    pub file_mtime: i64,
    pub added_ms: i64,
}

impl Clone for Track {
    fn clone(&self) -> (r: Self)
        ensures
            r == *self,
    {
        Track {
            id: self.id,
            path: self.path.clone(),
            title: self.title.clone(),
            artist: self.artist.clone(),
            album: self.album.clone(),
            album_artist: self.album_artist.clone(),
            genre: self.genre.clone(),
            year: self.year,
            track_no: self.track_no,
            disc_no: self.disc_no,
            duration_ms: self.duration_ms,
            sample_rate: self.sample_rate,
            bitrate: self.bitrate,
            channels: self.channels,
            format: self.format.clone(),
            cover_key: opt_clone(&self.cover_key),
            file_size: self.file_size,
            file_mtime: self.file_mtime,
            added_ms: self.added_ms,
        }
    }
}

/// An album: the tracks that share an album name and an album artist. Its id is the smallest
/// track id among them.
#[derive(Debug, Clone, PartialEq)]
pub struct Album {
    pub id: i64,
    pub name: String,
    pub artist: String,
    pub year: Option<i64>,
    pub track_count: i64,
    pub cover_key: Option<String>,
    /// The title of the only track, where the album has just one.
    pub single_title: Option<String>,
}

#[derive(Debug, Clone, PartialEq)]
pub struct Artist {
    pub name: String,
    pub track_count: i64,
    pub album_count: i64,
}

/// A playlist without its tracks.
#[derive(Debug, Clone, PartialEq)]
pub struct Playlist {
    pub id: i64,
    pub name: String,
    pub track_count: i64,
    pub created_ms: i64,
    pub updated_ms: i64,
    pub cover_key: Option<String>,
}

/// A playlist with its tracks.
#[derive(Debug, Clone)]
pub struct PlaylistDetail {
    pub id: i64,
    pub name: String,
    pub track_count: i64,
    pub created_ms: i64,
    pub updated_ms: i64,
    pub cover_key: Option<String>,
    pub tracks: Vec<Track>,
}

/// An entry of the play queue as callers see it.
#[derive(Debug, PartialEq)]
pub struct QueueItem {
    pub track_id: i64,
    pub title: String,
    pub artist: String,
    pub album: String,
    pub duration_ns: u64,
}

impl Clone for QueueItem {
    fn clone(&self) -> (r: Self)
        ensures
            r == *self,
    {
        QueueItem {
            track_id: self.track_id,
            title: self.title.clone(),
            artist: self.artist.clone(),
            album: self.album.clone(),
            duration_ns: self.duration_ns,
        }
    }
}

/// An entry of the play queue with the file it plays. A length of 0 means that it is not known.
#[derive(Debug, PartialEq)]
pub struct QueueTrack {
    pub track_id: i64,
    pub path: String,
    pub title: String,
    pub artist: String,
    pub album: String,
    pub duration_ns: u64,
}

impl Clone for QueueTrack {
    fn clone(&self) -> (r: Self)
        ensures
            r == *self,
    {
        QueueTrack {
            track_id: self.track_id,
            path: self.path.clone(),
            title: self.title.clone(),
            artist: self.artist.clone(),
            album: self.album.clone(),
            duration_ns: self.duration_ns,
        }
    }
}

/// The track that is playing.
#[derive(Debug, Clone, PartialEq)]
pub struct NowPlaying {
    pub track_id: i64,
    pub title: String,
    pub artist: String,
    pub album: String,
    pub duration_ns: u64,
    pub cover_key: Option<String>,
    pub position_ns: u64,
}

#[derive(Debug, Clone, Copy, PartialEq, Eq, Structural)]
pub enum PlayerStatus {
    Stopped,
    Playing,
    Paused,
}

#[derive(Debug, Clone, Copy, PartialEq, Eq, Structural)]
pub enum PlayMode {
    Sequential,
    LoopAll,
    LoopOne,
    Shuffle,
}

impl Default for PlayMode {
    fn default() -> (r: Self)
        ensures
            r == PlayMode::Sequential,
    {
        PlayMode::Sequential
    }
}

/// The name of a play mode.
pub open spec fn mode_name(m: PlayMode) -> Seq<char> {
    match m {
        PlayMode::Sequential => "sequential"@,
        PlayMode::LoopAll => "loop-all"@,
        PlayMode::LoopOne => "loop-one"@,
        PlayMode::Shuffle => "shuffle"@,
    }
}

/// The play mode that a name stands for; any other text stands for sequential play.
pub open spec fn mode_of(s: Seq<char>) -> PlayMode {
    if s == "loop-all"@ {
        PlayMode::LoopAll
    } else if s == "loop-one"@ {
        PlayMode::LoopOne
    } else if s == "shuffle"@ {
        PlayMode::Shuffle
    } else {
        PlayMode::Sequential
    }
}

impl PlayMode {
    pub fn parse(s: &str) -> (r: PlayMode)
        ensures
            r == mode_of(s@),
    {
        if crate::text::str_eq(s, "loop-all") {
            PlayMode::LoopAll
        } else if crate::text::str_eq(s, "loop-one") {
            PlayMode::LoopOne
        } else if crate::text::str_eq(s, "shuffle") {
            PlayMode::Shuffle
        } else {
            PlayMode::Sequential
        }
    }

    pub fn as_str(&self) -> (r: &'static str)
        ensures
            r@ == mode_name(*self),
    {
        match self {
            PlayMode::Sequential => "sequential",
            PlayMode::LoopAll => "loop-all",
            PlayMode::LoopOne => "loop-one",
            PlayMode::Shuffle => "shuffle",
        }
    }
}

/// Reading the name of a play mode gives that play mode back.
pub proof fn law_mode_round_trip(m: PlayMode)
    ensures
        mode_of(mode_name(m)) == m,
{
    reveal_strlit("sequential");
    reveal_strlit("loop-all");
    reveal_strlit("loop-one");
    reveal_strlit("shuffle");
    assert("sequential"@.len() != "loop-all"@.len());
    assert("loop-all"@[5] != "loop-one"@[5]);
    assert("shuffle"@.len() != "loop-all"@.len());
    assert("sequential"@.len() != "loop-one"@.len());
    assert("sequential"@.len() != "shuffle"@.len());
}

/// The whole state of the player at one moment.
#[derive(Debug, Clone, PartialEq)]
pub struct PlayerState {
    pub status: PlayerStatus,
    pub play_mode: PlayMode,
    pub volume: u8,
    pub queue: Vec<QueueItem>,
    pub queue_index: Option<usize>,
    pub current: Option<NowPlaying>,
    /// The track ids in the order in which they play.
    pub order: Vec<i64>,
}

/// The state of the player without its queue.
#[derive(Debug, Clone, PartialEq)]
pub struct PlayerStateEvent {
    pub status: PlayerStatus,
    pub play_mode: PlayMode,
    pub volume: u8,
    pub queue_index: Option<usize>,
    pub queue_len: usize,
    pub current: Option<NowPlaying>,
}

#[derive(Debug, Clone, PartialEq)]
pub struct ProgressPayload {
    pub track_id: i64,
    pub position_ns: u64,
    pub duration_ns: u64,
}

#[derive(Debug, Clone, PartialEq)]
pub struct PlayerErrorPayload {
    pub code: String,
    pub message: String,
    pub track_id: Option<i64>,
}

#[derive(Debug, Clone, PartialEq)]
pub struct LibraryStats {
    pub track_count: i64,
    pub artist_count: i64,
    pub album_count: i64,
    pub playlist_count: i64,
    pub total_duration_ms: i64,
    pub total_size_bytes: i64,
}

/// A folder whose music the library holds.
#[derive(Debug, Clone, PartialEq)]
pub struct FolderInfo {
    pub id: i64,
    pub path: String,
    pub last_scanned_ms: i64,
}

#[derive(Debug, Clone, Copy, PartialEq, Eq, Structural)]
pub enum ScanStage {
    Started,
    Scanning,
    Done,
    Cancelled,
    Error,
}

#[derive(Debug, PartialEq)]
pub struct ScanProgressPayload {
    pub stage: ScanStage,
    pub root: Option<String>,
    pub scanned_files: u64,
    pub total_files: Option<u64>,
    pub current_path: Option<String>,
    pub added: u64,
    pub updated: u64,
    pub removed: u64,
    pub error: Option<String>,
}

#[derive(Debug, Clone, PartialEq)]
pub struct LibraryUpdatedPayload {
    pub added: u64,
    pub updated: u64,
    pub removed: u64,
    pub total_tracks: i64,
}

/// Which tracks to list, in which order, and which page of them.
#[derive(Debug, Clone, Default)]
pub struct TrackFilter {
    pub q: Option<String>,
    pub artist: Option<String>,
    pub album_id: Option<i64>,
    pub sort: Option<String>,
    pub order: Option<String>,
    pub page: Option<u64>,
    pub page_size: Option<u64>,
}

/// One page of a longer list.
#[derive(Debug, Clone)]
pub struct Paginated<T> {
    pub items: Vec<T>,
    pub total: i64,
    pub page: u64,
    pub page_size: u64,
}

#[derive(Debug, Clone)]
pub struct SearchResult {
    pub tracks: Vec<Track>,
    pub albums: Vec<Album>,
    pub artists: Vec<Artist>,
    pub playlists: Vec<Playlist>,
}

/// Where playing started in a new queue, and how long the queue is.
#[derive(Debug, Clone, PartialEq)]
pub struct QueuePosition {
    pub index: usize,
    pub count: usize,
}

/// An output device as the settings list it.
#[derive(Debug, Clone, PartialEq)]
pub struct AudioDeviceInfo {
    pub id: String,
    pub name: String,
    pub is_default: bool,
    pub is_selected: bool,
}

/// Each play mode has a name of its own, and what is no name of one stands for sequential play.
pub proof fn law_mode_names(s: Seq<char>)
    ensures
        mode_name(PlayMode::Sequential) == "sequential"@,
        mode_name(PlayMode::LoopAll) == "loop-all"@,
        mode_name(PlayMode::LoopOne) == "loop-one"@,
        mode_name(PlayMode::Shuffle) == "shuffle"@,
        mode_of(s) is LoopAll <==> s == "loop-all"@,
        mode_of(s) is LoopOne <==> s == "loop-one"@,
        mode_of(s) is Shuffle <==> s == "shuffle"@,
{
    reveal_strlit("loop-all");
    reveal_strlit("loop-one");
    reveal_strlit("shuffle");
    assert("loop-all"@[5] != "loop-one"@[5]);
    assert("shuffle"@.len() != "loop-all"@.len());
    assert("shuffle"@.len() != "loop-one"@.len());
}

} // verus!
