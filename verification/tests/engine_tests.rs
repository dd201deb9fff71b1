//! The player: order of play, going back, prefetching, and getting an output back.

use oberon::engine::audio::{DefaultOutput, SharedConfig};
use oberon::engine::player::{choose_recover_target, error_payload, to_queue_item, Engine};
use oberon::engine::queue::{next_index, play_order, playback_order, previous_step, xorshift, PreviousInput};
use oberon::engine::state::{
    Effect, EngineCommand, Notice, Pending, RecoverTarget, Task, DEVICE_WAIT_GRACE_TICKS,
    STALL_TICKS,
};
use oberon::models::{PlayMode, PlayerStatus, QueueTrack};

const SEC: u64 = 1_000_000_000;

fn track(id: i64) -> QueueTrack {
    QueueTrack {
        track_id: id,
        path: format!("C:/Music/{id}.mp3"),
        title: format!("t{id}"),
        artist: "a".to_string(),
        album: "b".to_string(),
        duration_ns: 200 * SEC,
    }
}

fn test_engine(len: usize, idx: Option<usize>, mode: PlayMode) -> Engine {
    let mut e = Engine::new();
    e.queue = (0..len as i64).map(track).collect();
    e.items = e.queue.iter().map(to_queue_item).collect();
    e.idx = idx;
    e.play_mode = mode;
    e.rebuild_perm(0x1234_5678_9abc_def1);
    e
}

fn prev_in(len: usize, current: usize, pos: u64, restart: bool, mode: PlayMode) -> PreviousInput<'static> {
    PreviousInput {
        len,
        current,
        pos_ns: pos,
        restart_on_previous: restart,
        play_mode: mode,
        perm: &[],
        perm_pos: 0,
    }
}

#[test]
fn perm_contains_all_and_keeps_current_first() {
    let e = test_engine(10, Some(4), PlayMode::Shuffle);
    assert_eq!(e.perm.len(), 10);
    assert_eq!(e.perm[0], 4);
    let mut sorted = e.perm.clone();
    sorted.sort_unstable();
    assert_eq!(sorted, (0..10).collect::<Vec<_>>());
}

#[test]
fn rebuild_perm_refreshes_order_cache() {
    let seq = test_engine(5, Some(2), PlayMode::LoopAll);
    assert_eq!(seq.order, vec![0, 1, 2, 3, 4]);

    let sh = test_engine(5, Some(2), PlayMode::Shuffle);
    assert_eq!(sh.order.len(), 5);
    assert_eq!(sh.order[0], 2, "the current track comes first");
    let mut sorted = sh.order.clone();
    sorted.sort_unstable();
    assert_eq!(sorted, vec![0, 1, 2, 3, 4]);
    assert_eq!(sh.order, playback_order(&sh.queue, sh.play_mode, &sh.perm));
}

#[test]
fn shuffling_follows_the_seed() {
    assert_eq!(xorshift(1), 1 ^ (1 << 13) ^ ((1 ^ (1 << 13)) >> 7) ^ ((1 ^ (1 << 13) ^ ((1 ^ (1u64 << 13)) >> 7)) << 17));
    let a = play_order(20, Some(3), PlayMode::Shuffle, 77);
    let b = play_order(20, Some(3), PlayMode::Shuffle, 77);
    assert_eq!(a, b);
    assert_eq!(a.0[a.1], 3);
    let c = play_order(20, Some(3), PlayMode::LoopAll, 77);
    assert_eq!(c.0, (0..20).collect::<Vec<_>>());
}

#[test]
fn previous_default_always_switches_track() {
    for pos in [0, 2_900_000_000, 3_100_000_000, 120 * SEC] {
        for mode in [PlayMode::LoopAll, PlayMode::LoopOne, PlayMode::Sequential] {
            assert_eq!(previous_step(prev_in(5, 3, pos, false, mode)).index, 2);
            assert_eq!(previous_step(prev_in(5, 0, pos, false, mode)).index, 4, "the first goes round to the last");
        }
    }
}

#[test]
fn previous_restart_rule_only_when_enabled() {
    for mode in [PlayMode::LoopAll, PlayMode::LoopOne, PlayMode::Sequential] {
        assert_eq!(previous_step(prev_in(5, 3, 2_900_000_000, true, mode)).index, 2, "{}", mode.as_str());
        assert_eq!(previous_step(prev_in(5, 3, 3_000_000_000, true, mode)).index, 2, "{}", mode.as_str());
        assert_eq!(previous_step(prev_in(5, 3, 3_100_000_000, true, mode)).index, 3, "{}", mode.as_str());
    }
}

#[test]
fn previous_shuffle_rewinds_perm_and_wraps() {
    let perm: &[usize] = &[4, 1, 0, 3, 2];
    let base = PreviousInput {
        len: 5,
        current: 0,
        pos_ns: 99 * SEC,
        restart_on_previous: false,
        play_mode: PlayMode::Shuffle,
        perm,
        perm_pos: 2,
    };
    let s = previous_step(base);
    assert_eq!((s.index, s.perm_pos), (1, 1));
    let w = previous_step(PreviousInput { perm_pos: 0, ..base });
    assert_eq!((w.index, w.perm_pos), (2, 4));
    let r = previous_step(PreviousInput { restart_on_previous: true, pos_ns: 3_100_000_000, ..base });
    assert_eq!((r.index, r.perm_pos), (0, 2));
}

#[test]
fn prefetch_target_follows_mode() {
    let mut e = test_engine(3, Some(2), PlayMode::Sequential);
    assert_eq!(e.prefetch_target(), None);
    let mut e = test_engine(3, Some(2), PlayMode::LoopAll);
    assert_eq!(e.prefetch_target(), Some(0));
    let mut e = test_engine(3, Some(1), PlayMode::LoopOne);
    assert_eq!(e.prefetch_target(), Some(1));
    let mut e = test_engine(4, Some(0), PlayMode::Shuffle);
    let perm = e.perm.clone();
    let pp = e.perm_pos;
    let expect = if pp + 1 >= perm.len() { perm[0] } else { perm[pp + 1] };
    assert_eq!(e.prefetch_target(), Some(expect));
}

#[test]
fn engine_advance_math() {
    let len = 3usize;
    let perm: Vec<usize> = (0..len).collect();
    let manual_next = |cur: usize, natural_end: bool| -> Option<usize> {
        next_index(len, Some(cur), PlayMode::Sequential, &perm, cur, !natural_end).0
    };
    assert_eq!(manual_next(2, false), Some(0));
    assert_eq!(manual_next(2, true), None);
    assert_eq!(manual_next(0, true), Some(1));
    assert_eq!((2 + 1) % len, 0);
}

fn wanted(id: &str) -> Option<String> {
    Some(id.to_string())
}

#[test]
fn recovery_prefers_the_original_endpoint() {
    assert_eq!(
        choose_recover_target(wanted("hp"), Some(true), 10_000, true),
        RecoverTarget::Original("hp".to_string())
    );
    assert_eq!(choose_recover_target(wanted("hp"), Some(false), 5, true), RecoverTarget::KeepWaiting);
    assert_eq!(choose_recover_target(wanted("hp"), None, 5, true), RecoverTarget::KeepWaiting);
    assert_eq!(
        choose_recover_target(wanted("hp"), Some(false), DEVICE_WAIT_GRACE_TICKS, true),
        RecoverTarget::FollowDefault
    );
    assert_eq!(
        choose_recover_target(wanted("hp"), None, DEVICE_WAIT_GRACE_TICKS, true),
        RecoverTarget::FollowDefault
    );
    assert_eq!(choose_recover_target(None, None, DEVICE_WAIT_GRACE_TICKS, true), RecoverTarget::FollowDefault);
    assert_eq!(choose_recover_target(None, None, 0, true), RecoverTarget::KeepWaiting);
    assert_eq!(choose_recover_target(wanted("hp"), Some(false), 1_000_000, false), RecoverTarget::KeepWaiting);
    assert_eq!(choose_recover_target(None, None, 1_000_000, false), RecoverTarget::KeepWaiting);
}

#[test]
fn device_wait_records_position_and_clears_transient_state() {
    let mut e = test_engine(3, Some(1), PlayMode::LoopAll);
    e.loaded = Some(e.queue[1].clone());
    e.pending = Some(Pending { idx: 2, pos_at_prefetch: 99 * SEC, last_pos: 99 * SEC });
    e.pos_base = 5 * SEC;
    let mut out: Vec<Effect> = Vec::new();

    e.enter_device_wait(42_500_000_000, &mut out);
    assert!(e.device_lost);
    assert_eq!(e.resume_at, 42_500_000_000);
    assert_eq!(e.device_retry, 0);
    assert!(e.pending.is_none());
    assert_eq!(e.pos_base, 0);

    e.enter_device_wait(0, &mut out);
    assert_eq!(e.resume_at, 0);
}

fn set_queue(e: &mut Engine, n: i64, start: usize) -> Vec<Effect> {
    let mut out: Vec<Effect> = Vec::new();
    let items: Vec<QueueTrack> = (0..n).map(track).collect();
    e.handle_command(EngineCommand::SetQueue { items, start, autoplay: true }, 9, 0, &mut out);
    out
}

fn playing(n: i64, start: usize) -> Engine {
    let mut e = Engine::new();
    set_queue(&mut e, n, start);
    let mut out: Vec<Effect> = Vec::new();
    e.decoder_opened(44_100, Some(200 * SEC), 0, &mut out);
    e.core.begin_player(Some(44_100));
    e.core.shared_opened(SharedConfig { rate: 48_000, channels: 2 }, Some("hp".to_string()), "HP".to_string());
    e.core.player_created();
    e.player_made(true, &mut out);
    assert!(e.is_idle());
    assert_eq!(e.status, PlayerStatus::Playing);
    e
}

#[test]
fn playing_a_queue_asks_for_decoder_then_player() {
    let mut e = Engine::new();
    let out = set_queue(&mut e, 3, 1);
    assert!(out.contains(&Effect::OpenDecoder { path: "C:/Music/1.mp3".to_string() }));
    assert!(!e.is_idle());
    let mut out: Vec<Effect> = Vec::new();
    e.decoder_opened(44_100, Some(200 * SEC), 0, &mut out);
    assert!(out.contains(&Effect::NewPlayer { rate: 44_100 }));
    let mut out: Vec<Effect> = Vec::new();
    e.player_made(true, &mut out);
    assert!(out.contains(&Effect::Append));
    assert_eq!(e.status, PlayerStatus::Playing);
    let state = e.snapshot(7 * SEC);
    let cur = state.current.expect("there is a current track");
    assert_eq!(cur.track_id, 1);
    assert_eq!(cur.position_ns, 7 * SEC);
    assert_eq!(state.queue.len(), 3);
}

#[test]
fn unreadable_tracks_are_skipped_and_skipping_ends() {
    let mut e = Engine::new();
    set_queue(&mut e, 3, 0);
    let mut tries = 0;
    let mut out: Vec<Effect> = Vec::new();
    while !e.is_idle() {
        tries += 1;
        assert!(tries <= 3, "each track is tried once");
        e.decoder_failed("DECODE".to_string(), "bad".to_string(), &mut out);
    }
    assert_eq!(tries, 3);
    assert_ne!(e.status, PlayerStatus::Playing);
    assert!(out.iter().any(|f| matches!(f, Effect::Error { .. })));
}

/// Loads an entry of a queue in which only some files open; what is playing then, and the notices.
fn load_among(opens: &[bool], start: usize) -> (Engine, Vec<(Notice, Option<i64>)>) {
    let mut e = Engine::new();
    let mut todo = set_queue(&mut e, opens.len() as i64, start);
    let mut notices = Vec::new();
    while !todo.is_empty() {
        let mut out: Vec<Effect> = Vec::new();
        for effect in todo {
            match effect {
                Effect::OpenDecoder { path } => {
                    let name = path.trim_start_matches("C:/Music/").trim_end_matches(".mp3");
                    if opens[name.parse::<usize>().unwrap()] {
                        e.decoder_opened(44_100, None, 0, &mut out);
                    } else {
                        e.decoder_failed(format!("E{name}"), format!("bad {name}"), &mut out);
                    }
                }
                Effect::NewPlayer { .. } => e.player_made(true, &mut out),
                Effect::Error { notice, track_id } => notices.push((notice, track_id)),
                _ => {}
            }
        }
        todo = out;
    }
    assert!(e.is_idle());
    (e, notices)
}

#[test]
fn a_load_finds_the_first_that_opens() {
    let (e, notices) = load_among(&[true, true, false], 1);
    assert_eq!((e.idx, e.status), (Some(1), PlayerStatus::Playing));
    assert!(notices.is_empty());
    let (e, notices) = load_among(&[true, false, true], 1);
    assert_eq!((e.idx, e.status), (Some(2), PlayerStatus::Playing));
    assert_eq!(e.loaded.as_ref().map(|t| t.track_id), Some(2));
    let told = Notice::Track { code: "E1".to_string(), message: "bad 1".to_string() };
    assert_eq!(notices, vec![(told, Some(1))]);
    let (e, notices) = load_among(&[false, true, true, false, false], 3);
    assert_eq!((e.idx, e.status), (Some(1), PlayerStatus::Playing));
    assert_eq!(notices, vec![(Notice::Skipped { code: "E3".to_string(), count: 3 }, Some(3))]);
    let (e, notices) = load_among(&[false; 4], 2);
    assert_eq!(e.status, PlayerStatus::Paused);
    assert!(e.loaded.is_none());
    assert_eq!(notices, vec![(Notice::Skipped { code: "E2".to_string(), count: 4 }, Some(2))]);
    let (e, notices) = load_among(&[false], 0);
    assert!(e.loaded.is_none());
    assert_eq!(notices.len(), 1);
}

#[test]
fn stop_brings_rest() {
    let mut e = playing(3, 0);
    let mut out: Vec<Effect> = Vec::new();
    e.handle_command(EngineCommand::Stop, 1, 5 * SEC, &mut out);
    assert_eq!(e.status, PlayerStatus::Stopped);
    assert!(e.snapshot(0).current.is_none());
    let mut out: Vec<Effect> = Vec::new();
    e.tick_begin(0, &mut out);
    e.tick_prefetch(0, &mut out);
    e.tick_end(0, true, &mut out);
    assert_eq!(e.status, PlayerStatus::Stopped);
    assert!(e.is_idle());
}

#[test]
fn toggling_pauses_and_resumes() {
    let mut e = playing(2, 0);
    let mut out: Vec<Effect> = Vec::new();
    e.handle_command(EngineCommand::Toggle, 1, SEC, &mut out);
    assert_eq!(e.status, PlayerStatus::Paused);
    assert!(out.contains(&Effect::Pause));
    let mut out: Vec<Effect> = Vec::new();
    e.handle_command(EngineCommand::Toggle, 1, SEC, &mut out);
    assert_eq!(e.status, PlayerStatus::Playing);
    assert!(out.contains(&Effect::Play));
}

#[test]
fn next_goes_round_and_natural_end_advances() {
    let mut e = playing(2, 1);
    e.play_mode = PlayMode::LoopAll;
    e.rebuild_perm(3);
    let mut out: Vec<Effect> = Vec::new();
    e.handle_command(EngineCommand::Next, 1, SEC, &mut out);
    assert!(out.contains(&Effect::OpenDecoder { path: "C:/Music/0.mp3".to_string() }));
}

#[test]
fn seek_stays_inside_the_track() {
    let mut e = playing(1, 0);
    let mut out: Vec<Effect> = Vec::new();
    e.handle_command(EngineCommand::Seek { position_ns: 500 * SEC }, 1, SEC, &mut out);
    assert!(matches!(e.task, Task::SeekInline { .. }));
    let target = out.iter().find_map(|f| match f {
        Effect::SeekInline { target_ns, .. } => Some(*target_ns),
        _ => None,
    });
    assert!(target.expect("a seek is asked for") <= 200 * SEC);
    let mut out: Vec<Effect> = Vec::new();
    e.inline_sought(true, &mut out);
    assert!(e.is_idle());
}

#[test]
fn volume_is_kept_below_one_hundred() {
    let mut e = playing(1, 0);
    let mut out: Vec<Effect> = Vec::new();
    e.handle_command(EngineCommand::SetVolume { volume: 250 }, 1, SEC, &mut out);
    assert_eq!(e.volume, 100);
    assert!(out.contains(&Effect::SetVolume { volume: 100 }));
}

#[test]
fn a_lost_output_comes_back_where_it_was() {
    let mut e = playing(2, 0);
    e.core.endpoint_id = Some("hp".to_string());
    e.core.note_device_error();
    let mut out: Vec<Effect> = Vec::new();
    e.tick_begin(30 * SEC, &mut out);
    assert!(e.device_lost);
    assert_eq!(e.resume_at, 30 * SEC);
    assert!(out.contains(&Effect::Error { notice: Notice::DeviceLost, track_id: Some(0) }));
    let mut asked = false;
    for _ in 0..60 {
        let mut out: Vec<Effect> = Vec::new();
        e.tick_begin(0, &mut out);
        if out.contains(&Effect::QueryEndpoint { id: "hp".to_string() }) {
            asked = true;
            break;
        }
    }
    assert!(asked, "the lost device is asked for");
    let mut out: Vec<Effect> = Vec::new();
    e.endpoint_known(Some(true), &mut out);
    assert!(out.contains(&Effect::EnsureOutput { id: Some("hp".to_string()) }));
    let mut out: Vec<Effect> = Vec::new();
    e.output_opened(true, &mut out);
    assert!(out.contains(&Effect::OpenDecoder { path: "C:/Music/0.mp3".to_string() }));
    let mut out: Vec<Effect> = Vec::new();
    e.decoder_opened(44_100, Some(200 * SEC), 0, &mut out);
    e.player_made(true, &mut out);
    assert!(out.iter().any(|f| matches!(f, Effect::SeekInline { target_ns, .. } if *target_ns == 30 * SEC)));
    let mut out: Vec<Effect> = Vec::new();
    e.inline_sought(true, &mut out);
    assert!(!e.device_lost);
    assert_eq!(e.status, PlayerStatus::Playing);
}

#[test]
fn an_inactive_default_output_is_not_taken() {
    let mut e = playing(1, 0);
    e.core.note_device_error();
    let mut out: Vec<Effect> = Vec::new();
    e.tick_begin(10 * SEC, &mut out);
    e.wait_ticks = DEVICE_WAIT_GRACE_TICKS;
    for _ in 0..60 {
        let mut out: Vec<Effect> = Vec::new();
        e.tick_begin(0, &mut out);
        if e.task == Task::RecoverQuery {
            e.endpoint_known(None, &mut out);
        }
        if e.task == Task::RecoverDefault {
            e.default_known(DefaultOutput::Found { active: false, state: 8 }, &mut out);
            assert!(e.is_idle());
            assert!(e.device_lost);
            assert!(!out.iter().any(|f| matches!(f, Effect::EnsureOutput { .. })));
            return;
        }
    }
    panic!("the default output was never asked for");
}

#[test]
fn waiting_goes_on_and_a_command_hastens_it() {
    let mut e = playing(2, 0);
    e.core.preferred = Some("dac".to_string());
    e.core.note_device_error();
    let mut out: Vec<Effect> = Vec::new();
    e.tick_begin(9 * SEC, &mut out);
    assert!(e.device_lost);
    for _ in 0..5000 {
        let mut out: Vec<Effect> = Vec::new();
        e.tick_begin(0, &mut out);
        if e.task == Task::RecoverQuery {
            e.endpoint_known(Some(false), &mut out);
        }
        assert!(e.is_idle(), "no other device is taken");
        assert!(e.device_lost);
    }
    assert_eq!(e.resume_at, 9 * SEC);
    let mut out: Vec<Effect> = Vec::new();
    e.handle_command(EngineCommand::SetPreviousRestart { enabled: true }, 1, 0, &mut out);
    let mut out: Vec<Effect> = Vec::new();
    e.tick_begin(0, &mut out);
    assert!(out.contains(&Effect::QueryEndpoint { id: "dac".to_string() }));
}

#[test]
fn standing_still_loses_the_output() {
    let mut e = playing(2, 0);
    let mut out: Vec<Effect> = Vec::new();
    e.tick_end(5 * SEC, false, &mut out);
    for k in 1..STALL_TICKS {
        e.tick_end(5 * SEC, false, &mut out);
        assert_eq!(e.stalled_ticks, k);
        assert!(!e.device_lost);
    }
    e.tick_end(5 * SEC, false, &mut out);
    assert!(e.device_lost);
    assert_eq!(e.resume_at, 5 * SEC);
    assert_eq!(e.status, PlayerStatus::Paused);
}

#[test]
fn the_next_track_follows_without_a_gap() {
    let mut e = playing(2, 0);
    let mut out: Vec<Effect> = Vec::new();
    e.tick_prefetch(180 * SEC, &mut out);
    assert!(e.is_idle(), "too early");
    e.tick_prefetch(190 * SEC, &mut out);
    assert_eq!(out, vec![Effect::OpenDecoder { path: "C:/Music/1.mp3".to_string() }]);
    let mut out: Vec<Effect> = Vec::new();
    e.decoder_opened(96_000, Some(30 * SEC), 190 * SEC, &mut out);
    assert_eq!(out, vec![Effect::Append]);
    assert_eq!(e.pending, Some(Pending { idx: 1, pos_at_prefetch: 190 * SEC, last_pos: 190 * SEC }));
    let mut out: Vec<Effect> = Vec::new();
    e.tick_end(199 * SEC, true, &mut out);
    assert_eq!(e.idx, Some(0), "an empty player is no end while a track is opened ahead");
    let mut out: Vec<Effect> = Vec::new();
    e.tick_end(SEC / 10, false, &mut out);
    assert_eq!(e.idx, Some(1));
    assert_eq!(out, vec![Effect::SyncState, Effect::StateEvent, Effect::ProgressEvent]);
    assert_eq!(e.snapshot(SEC / 10).current.expect("a track plays").duration_ns, 30 * SEC);
}

#[test]
fn a_failed_prefetch_changes_nothing() {
    let mut e = playing(5, 2);
    e.play_mode = PlayMode::Shuffle;
    e.rebuild_perm(7);
    let place = e.perm_pos;
    let expect = e.perm[place + 1];
    for _ in 0..3 {
        let mut out: Vec<Effect> = Vec::new();
        e.tick_prefetch(190 * SEC, &mut out);
        assert_eq!(out, vec![Effect::OpenDecoder { path: format!("C:/Music/{expect}.mp3") }]);
        assert!(!e.is_idle());
        let mut out: Vec<Effect> = Vec::new();
        e.decoder_failed("DECODE".to_string(), "bad".to_string(), &mut out);
        assert!(e.is_idle());
        assert!(out.is_empty());
        assert_eq!(e.perm_pos, place);
        assert_eq!(e.idx, Some(2));
        assert!(e.pending.is_none());
    }
    let mut out: Vec<Effect> = Vec::new();
    e.tick_end(200 * SEC, true, &mut out);
    assert_eq!(out.last(), Some(&Effect::OpenDecoder { path: format!("C:/Music/{expect}.mp3") }));

    let mut e = playing(5, 2);
    e.play_mode = PlayMode::Shuffle;
    e.rebuild_perm(7);
    let mut out: Vec<Effect> = Vec::new();
    e.tick_prefetch(190 * SEC, &mut out);
    e.decoder_opened(44_100, None, 190 * SEC, &mut out);
    assert_eq!(e.perm_pos, place + 1);
    assert_eq!(e.pending.map(|p| p.idx), Some(expect));
}

fn is_question(f: &Effect) -> bool {
    matches!(
        f,
        Effect::OpenDecoder { .. }
            | Effect::NewPlayer { .. }
            | Effect::SeekInline { .. }
            | Effect::SeekDecoder { .. }
            | Effect::QueryEndpoint { .. }
            | Effect::ProbeDefault
            | Effect::EnsureOutput { .. }
    )
}

#[test]
fn who_waits_has_asked() {
    let commands: Vec<fn() -> EngineCommand> = vec![
        || EngineCommand::SetQueue { items: (0..2).map(track).collect(), start: 1, autoplay: true },
        || EngineCommand::SetQueue { items: (0..2).map(track).collect(), start: 1, autoplay: false },
        || EngineCommand::LoadPaused { index: 2 },
        || EngineCommand::Toggle,
        || EngineCommand::Stop,
        || EngineCommand::Next,
        || EngineCommand::Previous,
        || EngineCommand::Seek { position_ns: 9 * SEC },
        || EngineCommand::SetVolume { volume: 20 },
        || EngineCommand::SetOutputDevice { id: Some("other".to_string()) },
        || EngineCommand::RetryOutput,
    ];
    for cmd in commands {
        let mut e = playing(4, 1);
        let mut out: Vec<Effect> = Vec::new();
        e.handle_command(cmd(), 3, 5 * SEC, &mut out);
        let asked = out.iter().filter(|f| is_question(f)).count();
        assert_eq!(asked, if e.is_idle() { 0 } else { 1 });
        assert_eq!(out.last().map(is_question).unwrap_or(false), !e.is_idle());
        if matches!(e.task, Task::LoadDecoder { .. } | Task::PausedDecoder { .. }) {
            let mut out: Vec<Effect> = Vec::new();
            e.decoder_opened(44_100, None, 0, &mut out);
            assert_eq!(out.last(), Some(&Effect::NewPlayer { rate: 44_100 }));
            let mut out: Vec<Effect> = Vec::new();
            e.player_made(false, &mut out);
            assert!(e.is_idle());
            assert!(!out.iter().any(is_question));
        }
    }
}

#[test]
fn a_seek_is_no_switch() {
    let mut e = playing(2, 0);
    let mut out: Vec<Effect> = Vec::new();
    e.tick_prefetch(190 * SEC, &mut out);
    e.decoder_opened(44_100, None, 190 * SEC, &mut out);
    e.handle_command(EngineCommand::Seek { position_ns: 20 * SEC }, 1, 190 * SEC, &mut out);
    e.inline_sought(true, &mut out);
    e.tick_end(20 * SEC, false, &mut out);
    assert_eq!(e.idx, Some(0));
}

#[test]
fn a_restored_track_is_silent() {
    let mut e = Engine::new();
    let mut out: Vec<Effect> = Vec::new();
    let items: Vec<QueueTrack> = (0..3).map(track).collect();
    e.handle_command(EngineCommand::SetQueue { items, start: 1, autoplay: false }, 1, 0, &mut out);
    assert_eq!(e.status, PlayerStatus::Paused);
    e.handle_command(EngineCommand::LoadPaused { index: 1 }, 1, 0, &mut out);
    e.decoder_opened(48_000, Some(100 * SEC), 0, &mut out);
    let mut out: Vec<Effect> = Vec::new();
    e.player_made(true, &mut out);
    assert_eq!(out, vec![Effect::Pause, Effect::Append, Effect::SyncState]);
    assert_eq!(e.status, PlayerStatus::Paused);
    assert_eq!(e.items[1].duration_ns, 100 * SEC);
    let mut out: Vec<Effect> = Vec::new();
    e.handle_command(EngineCommand::LoadPaused { index: 7 }, 1, 0, &mut out);
    assert_eq!(out, vec![Effect::SyncState]);
}

#[test]
fn the_natural_end_follows_the_mode() {
    let mut e = playing(2, 1);
    e.play_mode = PlayMode::Sequential;
    let mut out: Vec<Effect> = Vec::new();
    e.tick_end(200 * SEC, true, &mut out);
    assert_eq!(e.status, PlayerStatus::Stopped);
    assert!(e.loaded.is_none());

    let mut e = playing(2, 1);
    e.play_mode = PlayMode::LoopOne;
    let mut out: Vec<Effect> = Vec::new();
    e.tick_end(200 * SEC, true, &mut out);
    assert_eq!(out, vec![Effect::OpenDecoder { path: "C:/Music/1.mp3".to_string() }]);

    let mut e = playing(2, 1);
    let mut out: Vec<Effect> = Vec::new();
    e.tick_end(200 * SEC, true, &mut out);
    assert_eq!(out, vec![Effect::OpenDecoder { path: "C:/Music/0.mp3".to_string() }]);
}

#[test]
fn an_unavailable_output_is_waited_for() {
    let mut e = Engine::new();
    set_queue(&mut e, 2, 0);
    let mut out: Vec<Effect> = Vec::new();
    e.decoder_opened(44_100, None, 0, &mut out);
    let mut out: Vec<Effect> = Vec::new();
    e.player_made(false, &mut out);
    assert!(e.device_lost);
    assert!(out.contains(&Effect::Error { notice: Notice::DeviceUnavailable, track_id: Some(0) }));
    assert_eq!(e.idx, Some(0));
    assert!(e.is_idle());
}

#[test]
fn a_seek_may_reopen_the_track() {
    let mut e = playing(1, 0);
    let mut out: Vec<Effect> = Vec::new();
    e.handle_command(EngineCommand::Seek { position_ns: 50 * SEC }, 1, SEC, &mut out);
    let mut out: Vec<Effect> = Vec::new();
    e.inline_sought(false, &mut out);
    assert_eq!(
        out,
        vec![
            Effect::StopPlayer,
            Effect::SeekDecoder { path: "C:/Music/0.mp3".to_string(), target_ns: 50 * SEC }
        ]
    );
    let mut out: Vec<Effect> = Vec::new();
    e.decoder_sought(44_100, 49 * SEC, &mut out);
    e.player_made(true, &mut out);
    assert_eq!(e.status, PlayerStatus::Playing);
    assert_eq!(e.snapshot(2 * SEC).current.expect("a track plays").position_ns, 51 * SEC);
}

#[test]
fn another_output_takes_over_where_playing_stood() {
    let mut e = playing(2, 1);
    let mut out: Vec<Effect> = Vec::new();
    e.handle_command(EngineCommand::SetOutputDevice { id: Some("dac".to_string()) }, 1, 40 * SEC, &mut out);
    assert!(out.contains(&Effect::ResetDevice));
    assert!(out.contains(&Effect::OpenDecoder { path: "C:/Music/1.mp3".to_string() }));
    let mut out: Vec<Effect> = Vec::new();
    e.decoder_opened(44_100, Some(200 * SEC), 0, &mut out);
    e.player_made(true, &mut out);
    assert!(out.iter().any(|f| matches!(f, Effect::SeekInline { target_ns, .. } if *target_ns == 40 * SEC)));
    let mut out: Vec<Effect> = Vec::new();
    e.inline_sought(true, &mut out);
    assert_eq!(e.status, PlayerStatus::Playing);
    let mut out: Vec<Effect> = Vec::new();
    e.handle_command(EngineCommand::SetOutputDevice { id: Some("dac".to_string()) }, 1, 41 * SEC, &mut out);
    assert!(out.is_empty(), "the same device changes nothing");
}

#[test]
fn notices_carry_their_codes() {
    let p = error_payload(&Notice::DeviceLost, Some(4));
    assert_eq!(p.code, "AUDIO_DEVICE");
    assert_eq!(p.track_id, Some(4));
    let p = error_payload(&Notice::Track { code: "DECODE".to_string(), message: "m".to_string() }, None);
    assert_eq!(p.code, "DECODE");
    assert_eq!(p.track_id, None);
}
