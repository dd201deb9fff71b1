//! The media controls of the system: what a media key does, and what the system's panel shows.

use crate::double::{
    lemma_span_near, lemma_time_bound, lemma_units_near, product, seconds_of, span, span_ns, Double,
};
use crate::engine::state::EngineCommand;
use crate::models::PlayerStatus;
use vstd::prelude::*;

verus! {

/// What the panel is told.
#[derive(Debug, PartialEq)]
pub enum SmtcCommand {
    /// The current track.
    Track { track_id: i64, title: String, artist: String, album: String },
    Status(PlayerStatus),
    Progress { position_ns: u64, duration_ns: u64 },
    /// There is no current track.
    Clear,
}

/// A key of the panel, a keyboard or a headset.
#[derive(Debug, Clone, Copy, PartialEq, Eq, Structural)]
pub enum MediaKey {
    Play,
    Pause,
    Stop,
    Next,
    Previous,
    Other,
}

/// What a media key does, by what the player does.
pub open spec fn command_of_key(key: MediaKey, status: PlayerStatus) -> Option<EngineCommand> {
    match key {
        MediaKey::Play => if status == PlayerStatus::Playing {
            None
        } else {
            Some(EngineCommand::Toggle)
        },
        MediaKey::Pause => Some(EngineCommand::Pause),
        MediaKey::Stop => Some(EngineCommand::Stop),
        MediaKey::Next => Some(EngineCommand::Next),
        MediaKey::Previous => Some(EngineCommand::Previous),
        MediaKey::Other => None,
    }
}

/// What a media key does. A key to play does nothing while playing, since it would pause.
pub fn key_command(key: MediaKey, status: PlayerStatus) -> (r: Option<EngineCommand>)
    ensures
        r == command_of_key(key, status),
{
    match key {
        MediaKey::Play => match status {
            PlayerStatus::Playing => None,
            _ => Some(EngineCommand::Toggle),
        },
        MediaKey::Pause => Some(EngineCommand::Pause),
        MediaKey::Stop => Some(EngineCommand::Stop),
        MediaKey::Next => Some(EngineCommand::Next),
        MediaKey::Previous => Some(EngineCommand::Previous),
        MediaKey::Other => None,
    }
}

/// How many units of the system, of 100 nanoseconds, make a second.
pub const TICKS_PER_SECOND: u32 = 10_000_000;

/// A point in time in the system's unit, counted in seconds of double precision.
pub open spec fn ticks_of(ns: u64) -> i64 {
    let t = product(seconds_of(ns as nat), TICKS_PER_SECOND as nat);
    (t.num / t.den) as i64
}

/// A point in time that the system gives, counted in seconds of double precision and then taken to
/// the nearest nanosecond. One before the start counts as the start, and none lies beyond what can
/// be counted.
pub open spec fn ns_of(ticks: i64) -> u64 {
    let ns = if ticks <= 0 {
        0
    } else {
        span_ns(ticks as nat, TICKS_PER_SECOND as nat)
    };
    if ns > u64::MAX {
        u64::MAX
    } else {
        ns as u64
    }
}

/// A point in time in the system's unit.
pub fn to_ticks(ns: u64) -> (r: i64)
    ensures
        r == ticks_of(ns),
{
    proof {
        lemma_time_bound(ns, TICKS_PER_SECOND as nat);
    }
    Double::seconds(ns).times(TICKS_PER_SECOND).floor() as i64
}

/// A point in time that the system gives.
pub fn from_ticks(ticks: i64) -> (r: u64)
    ensures
        r == ns_of(ticks),
{
    if ticks <= 0 {
        return 0;
    }
    let ns: u128 = span(ticks as u64, TICKS_PER_SECOND as u64);
    if ns > 0xffff_ffff_ffff_ffff {
        0xffff_ffff_ffff_ffff
    } else {
        ns as u64
    }
}

/// What a drag on the panel's bar does.
pub fn drag_command(ticks: i64) -> (r: EngineCommand)
    ensures
        r == (EngineCommand::Seek { position_ns: ns_of(ticks) }),
{
    EngineCommand::Seek { position_ns: from_ticks(ticks) }
}

/// What the panel is made to show.
#[derive(Debug, PartialEq)]
pub enum Panel {
    /// Nothing changes.
    Keep,
    /// Another track; the cover is looked up by its id.
    Track { track_id: i64, title: String, artist: String, album: String },
    Status(PlayerStatus),
    /// The place and the length, in the system's unit.
    Timeline { position: i64, end: i64 },
    /// No track, and stopped.
    Empty,
}

/// What is known of the panel.
#[derive(Debug, Clone, Copy, PartialEq, Eq, Structural)]
pub struct PanelState {
    /// The track that the panel shows.
    pub last_track: Option<i64>,
    pub last_status: PlayerStatus,
}

impl PanelState {
    /// A panel before anything is shown.
    pub fn new() -> (r: Self)
        ensures
            r == (PanelState { last_track: None, last_status: PlayerStatus::Stopped }),
    {
        PanelState { last_track: None, last_status: PlayerStatus::Stopped }
    }

    /// What is known of the panel after a command, and what the command makes it show.
    pub open spec fn after(self, cmd: SmtcCommand) -> (PanelState, Panel) {
        match cmd {
            SmtcCommand::Track { track_id, title, artist, album } => (
                self,
                if self.last_track == Some(track_id) {
                    Panel::Keep
                } else {
                    Panel::Track { track_id, title, artist, album }
                },
            ),
            SmtcCommand::Status(status) => (
                PanelState { last_status: status, ..self },
                Panel::Status(status),
            ),
            SmtcCommand::Progress { position_ns, duration_ns } => (
                self,
                Panel::Timeline { position: ticks_of(position_ns), end: ticks_of(duration_ns) },
            ),
            SmtcCommand::Clear => (PanelState { last_track: None, ..self }, Panel::Empty),
        }
    }

    /// What is known of the panel once it shows a track.
    pub open spec fn showing(self, track_id: i64) -> PanelState {
        PanelState { last_track: Some(track_id), ..self }
    }

    /// What a command makes the panel show. A track is shown anew only when it changes: with every
    /// change of the volume it is told again.
    pub fn on_command(&mut self, cmd: SmtcCommand) -> (r: Panel)
        ensures
            (*final(self), r) == old(self).after(cmd),
    {
        match cmd {
            SmtcCommand::Track { track_id, title, artist, album } => {
                let same = match self.last_track {
                    Some(id) => id == track_id,
                    None => false,
                };
                if same {
                    Panel::Keep
                } else {
                    Panel::Track { track_id, title, artist, album }
                }
            },
            SmtcCommand::Status(status) => {
                self.last_status = status;
                Panel::Status(status)
            },
            SmtcCommand::Progress { position_ns, duration_ns } => Panel::Timeline {
                position: to_ticks(position_ns),
                end: to_ticks(duration_ns),
            },
            SmtcCommand::Clear => {
                self.last_track = None;
                Panel::Empty
            },
        }
    }

    /// Takes note that the panel shows a track.
    pub fn track_shown(&mut self, track_id: i64)
        ensures
            *final(self) == old(self).showing(track_id),
    {
        self.last_track = Some(track_id);
    }
}

/// A place in a track goes to the system and comes back less than two of the system's units away, as
/// long as double precision tells nanoseconds apart, which it does for weeks.
pub proof fn law_ticks_keep_the_place(ns: u64)
    requires
        ns < 0x10_0000_0000_0000,
    ensures
        ns_of(ticks_of(ns)) < ns + 100,
        ns < ns_of(ticks_of(ns)) + 200,
{
    let k = TICKS_PER_SECOND as nat;
    lemma_time_bound(ns, k);
    lemma_units_near(ns, k);
    lemma_span_near(ticks_of(ns) as nat, k);
}

/// Each key does what it is called; the key to play starts or resumes, and never pauses.
pub proof fn law_media_keys(status: PlayerStatus)
    ensures
        command_of_key(MediaKey::Pause, status) == Some(EngineCommand::Pause),
        command_of_key(MediaKey::Stop, status) == Some(EngineCommand::Stop),
        command_of_key(MediaKey::Next, status) == Some(EngineCommand::Next),
        command_of_key(MediaKey::Previous, status) == Some(EngineCommand::Previous),
        command_of_key(MediaKey::Other, status) is None,
        command_of_key(MediaKey::Play, PlayerStatus::Playing) is None,
        command_of_key(MediaKey::Play, PlayerStatus::Paused) == Some(EngineCommand::Toggle),
        command_of_key(MediaKey::Play, PlayerStatus::Stopped) == Some(EngineCommand::Toggle),
{
}

/// A unit of the system is 100 nanoseconds, so that a place in units is within one unit, and a few
/// nanoseconds, of the place in nanoseconds; a place before the start is the start.
pub proof fn law_units(ns: u64, ticks: i64)
    ensures
        TICKS_PER_SECOND == 10_000_000,
        ns < 0x10_0000_0000_0000 ==> ticks_of(ns) * 100 <= ns + 3 && ns < ticks_of(ns) * 100 + 103,
        ticks <= 0 ==> ns_of(ticks) == 0,
        0 < ticks < 0x1000_0000_0000 ==> ticks * 100 - 2 < ns_of(ticks) < ticks * 100 + 2,
{
    let k = TICKS_PER_SECOND as nat;
    if ns < 0x10_0000_0000_0000 {
        lemma_time_bound(ns, k);
        lemma_units_near(ns, k);
    }
    if 0 < ticks < 0x1000_0000_0000 {
        lemma_span_near(ticks as nat, k);
    }
}

/// A track is shown once: as long as the panel shows it, it is not shown again, and another one is.
pub proof fn law_track_is_shown_once(p: PanelState, id: i64, title: String, artist: String, album: String)
    ensures
        ({
            let cmd = SmtcCommand::Track { track_id: id, title, artist, album };
            &&& p.showing(id).after(cmd).1 == Panel::Keep
            &&& p.last_track != Some(id) ==> p.after(cmd).1 == (Panel::Track {
                track_id: id,
                title,
                artist,
                album,
            })
            &&& p.after(cmd).0 == p
            &&& p.showing(id).last_status == p.last_status
            &&& p.after(SmtcCommand::Clear).0.after(cmd).1 is Track
        }),
{
}

/// The status and the place go to the panel as they are; clearing empties it and keeps the status.
pub proof fn law_panel_shows_what_it_is_told(p: PanelState, s: PlayerStatus, at: u64, len: u64)
    ensures
        p.after(SmtcCommand::Status(s)).1 == Panel::Status(s),
        p.after(SmtcCommand::Status(s)).0.last_status == s,
        p.after(SmtcCommand::Status(s)).0.last_track == p.last_track,
        p.after(SmtcCommand::Progress { position_ns: at, duration_ns: len }).0 == p,
        p.after(SmtcCommand::Progress { position_ns: at, duration_ns: len }).1 == (Panel::Timeline {
            position: ticks_of(at),
            end: ticks_of(len),
        }),
        p.after(SmtcCommand::Clear).1 == Panel::Empty,
        p.after(SmtcCommand::Clear).0.last_track is None,
        p.after(SmtcCommand::Clear).0.last_status == p.last_status,
{
}

} // verus!
