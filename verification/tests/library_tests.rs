//! The library: scanning, covers, lyrics, metadata, queries, playlists, settings and the rest.

use oberon::base64::base64_encode;
use oberon::covers::{
    content_key, cover_mime, data_url, encode_thumb, make_thumb, mime_of_ext, plan_cover, sniff_image_ext, thumb_from,
    thumb_path_for, CoverCache, Raster,
};
use oberon::engine::state::EngineCommand;
use oberon::error::AppError;
use oberon::fonts::{font_save, sanitize};
use oberon::lyrics::{decode_text, load, parse_lrc, sidecar_names, Lyrics, Sidecar};
use oberon::metadata::{read_dsd_metadata, read_metadata, with_file, Properties, Tag, TrackMeta};
use oberon::models::{PlayMode, PlayerStatus, ScanStage, Track};
use oberon::requests::{
    expand_context, play_queue, player_play_album, player_play_all, player_play_playlist, player_play_track,
    player_restore, requested, seed_of,
};
use oberon::scanner::{diff_files, is_gone, is_supported, needs_reparse, FoundFile, KnownFiles, Phase, Scan, ScanControl, Stamp};
use oberon::settings::{
    initial_mode, initial_volume, is_on, last_position, output_device, output_mode, switch_text, volume_text,
};
use oberon::smtc::{drag_command, from_ticks, key_command, to_ticks, MediaKey, Panel, PanelState, SmtcCommand};
use oberon::watcher::{due, Roots};
use std::time::Duration;

#[test]
fn parses_synced_lrc() {
    let text = "[ar:Someone]\n[00:01.50]first\n[00:12.345]second\n[01:02]third";
    let (synced, lines) = parse_lrc(text);
    assert!(synced);
    assert_eq!(lines.len(), 3);
    assert_eq!(lines[0].time_ms, 1500);
    assert_eq!(lines[0].text, "first");
    assert_eq!(lines[1].time_ms, 12345);
    assert_eq!(lines[2].time_ms, 62000);
}

#[test]
fn lines_are_trimmed_and_go_over_one_line() {
    let text = "  [00:02]  a b \t\r\n [ar:x]\u{3000}[00:01] c\u{a0}\r\n[00:03]   \n";
    let (synced, lines) = parse_lrc(text);
    assert!(synced);
    let got: Vec<(i64, &str)> = lines.iter().map(|l| (l.time_ms, l.text.as_str())).collect();
    assert_eq!(got, vec![(1000, "c"), (2000, "a b")]);
    let (synced, lines) = parse_lrc("\t x \n\n  \r\n y\u{2003}");
    assert!(!synced);
    assert!(lines.iter().all(|l| l.text.trim() == l.text && !l.text.contains('\n')));
    assert_eq!(lines.len(), 2);
}

#[test]
fn parses_plain_lyrics() {
    let (synced, lines) = parse_lrc("line one\n\nline two\n");
    assert!(!synced);
    assert_eq!(lines.len(), 2);
    assert_eq!(lines[1].text, "line two");
}

#[test]
fn applies_offset_and_multiple_stamps() {
    let (_, lines) = parse_lrc("[offset:-500]\n[00:02.00][00:05.00]repeat");
    assert_eq!(lines.len(), 2);
    assert_eq!(lines[0].time_ms, 1500);
    assert_eq!(lines[1].time_ms, 4500);
}

#[test]
fn lines_of_one_time_keep_their_order() {
    let (_, lines) = parse_lrc("[00:05]b\n[00:01]a\n[00:05]c");
    let texts: Vec<&str> = lines.iter().map(|l| l.text.as_str()).collect();
    assert_eq!(texts, vec!["a", "b", "c"]);
}

#[test]
fn text_is_decoded_with_and_without_faults() {
    assert_eq!(decode_text(b"\xef\xbb\xbfhi"), "hi");
    assert_eq!(decode_text(b"caf\xc3\xa9"), "café");
    assert_eq!(decode_text(b"a\xffb"), "a\u{fffd}b");
}

#[test]
fn sidecars_come_before_tags() {
    let side = |name: &str, text: &str| Sidecar { name: name.to_string(), bytes: text.as_bytes().to_vec() };
    let l = load(&[side("a.lrc", "  "), side("a.txt", "[00:01]x")], &["plain".to_string()]);
    assert_eq!(l.source, "lrc-file");
    assert!(l.synced);
    assert_eq!(l.lines.len(), 1);
    let l = load(&[], &["  ".to_string(), "plain".to_string()]);
    assert_eq!(l.source, "embedded");
    assert!(!l.synced);
    let l = load(&[], &[]);
    assert_eq!(l.source, "none");
    assert_eq!(l.lines.len(), 0);
    assert_eq!(Lyrics::none().source, "none");
    assert_eq!(sidecar_names("a")[0], "a.lrc");
}

fn known_one(path: &str, mtime: i64, size: i64) -> KnownFiles {
    let mut k = KnownFiles::new();
    k.insert(path.to_string(), Stamp { mtime, size });
    k
}

#[test]
fn unchanged_file_is_skipped() {
    let known = known_one("C:/Music/a.flac", 1_700_000_000, 40_000_000);
    assert!(!needs_reparse(&known, "C:/Music/a.flac", 1_700_000_000, 40_000_000));
}

#[test]
fn changed_mtime_triggers_reparse() {
    let known = known_one("C:/Music/a.flac", 1_700_000_000, 40_000_000);
    assert!(needs_reparse(&known, "C:/Music/a.flac", 1_700_000_001, 40_000_000));
}

#[test]
fn changed_size_triggers_reparse() {
    let known = known_one("C:/Music/a.flac", 1_700_000_000, 40_000_000);
    assert!(needs_reparse(&known, "C:/Music/a.flac", 1_700_000_000, 40_000_001));
}

#[test]
fn unknown_path_triggers_reparse() {
    let known = known_one("C:/Music/a.flac", 1_700_000_000, 40_000_000);
    assert!(needs_reparse(&known, "C:/Music/b.flac", 1_700_000_000, 40_000_000));
}

#[test]
fn zero_mtime_always_reparses() {
    let known = known_one("C:/Music/a.flac", 0, 40_000_000);
    assert!(needs_reparse(&known, "C:/Music/a.flac", 0, 40_000_000));
    let known_ok = known_one("C:/Music/a.flac", 1_700_000_000, 40_000_000);
    assert!(needs_reparse(&known_ok, "C:/Music/a.flac", 0, 40_000_000));
}

#[test]
fn empty_known_reparses_everything() {
    let known = KnownFiles::new();
    assert!(needs_reparse(&known, "C:/Music/a.flac", 1, 1));
}

#[test]
fn files_are_held_against_the_record() {
    let known = known_one("C:/Music/a.flac", 5, 6);
    let file = |p: &str, mtime: i64, size: i64| FoundFile { path: p.to_string(), stamp: Stamp { mtime, size } };
    let d = diff_files(&known, &[file("C:/Music/a.flac", 5, 6), file("C:/Music/b.flac", 5, 6)]);
    assert_eq!(d.to_parse, vec![1]);
    assert_eq!(d.skipped, 1);
    let roots = vec!["C:/Music".to_string()];
    assert!(!is_gone("C:/Music/a.flac", &roots, &d.seen));
    assert!(is_gone("C:/Music/c.flac", &roots, &d.seen));
    assert!(!is_gone("D:/c.flac", &roots, &d.seen));
}

#[test]
fn sibling_folders_are_apart() {
    let none = diff_files(&KnownFiles::new(), &[]).seen;
    let gone = |path: &str, root: &str| is_gone(path, &[root.to_string()], &none);
    assert!(!gone("C:/Music2/x.mp3", "C:/Music"));
    assert!(!gone("C:/Music.bak/x.mp3", "C:/Music"));
    assert!(gone("C:/Music/x.mp3", "C:/Music"));
    assert!(gone("C:\\Music\\x.mp3", "C:\\Music"));
    assert!(!gone("C:\\Music2\\x.mp3", "C:\\Music"));
    assert!(gone("C:/Music/x.mp3", "C:/Music/"));
    assert!(gone("D:\\x.mp3", "D:\\"));
    assert!(gone("C:/Music", "C:/Music"));
    assert!(!gone("C:/Mus", "C:/Music"));
    let both = ["C:/Music".to_string(), "C:/Music2".to_string()];
    assert!(is_gone("C:/Music2/x.mp3", &both, &none));
}

#[test]
fn supported_files() {
    for ext in ["mp3", "FLAC", "opus", "dsf", "Dff", "aiff", "m4b"] {
        assert!(is_supported(ext), "{ext}");
    }
    assert!(!is_supported("txt"));
    assert!(!is_supported(""));
}

#[test]
fn a_scan_runs_from_start_to_end() {
    let mut s = Scan::start();
    s.roots_listed(Ok(vec!["C:/Music".to_string()]));
    s.enter_root(0);
    s.walked(3, false);
    assert_eq!(s.payload.stage, ScanStage::Scanning);
    s.opened(None);
    s.diffed(1);
    let p = s.parse_report(2, "C:/Music/b.mp3".to_string());
    assert_eq!((p.scanned_files, p.total_files, p.root.as_deref()), (3, Some(3), Some("C:/Music")));
    assert_eq!(p.current_path.as_deref(), Some("C:/Music/b.mp3"));
    s.parsed(false);
    s.begun(None);
    s.track_stored("a", Ok(false));
    s.track_stored("b", Ok(true));
    s.committed(None);
    s.track_removed();
    let u = s.finish(42);
    assert_eq!((u.added, u.updated, u.removed, u.total_tracks), (1, 1, 1, 42));
    let p = s.report();
    assert_eq!(p.stage, ScanStage::Done);
    assert_eq!(p.scanned_files, 3);
}

#[test]
fn a_scan_ends_early() {
    let mut s = Scan::start();
    s.roots_listed(Ok(vec![]));
    assert_eq!((s.phase, s.payload.stage), (Phase::Over, ScanStage::Done));
    let mut s = Scan::start();
    s.roots_listed(Err("no".to_string()));
    assert_eq!((s.payload.stage, s.payload.error.as_deref()), (ScanStage::Error, Some("no")));
    let mut s = Scan::start();
    s.roots_listed(Ok(vec!["C:/Music".to_string()]));
    s.walked(9, true);
    assert_eq!((s.phase, s.payload.stage), (Phase::Over, ScanStage::Cancelled));
    let mut s = Scan::start();
    s.roots_listed(Ok(vec!["C:/Music".to_string()]));
    s.walked(9, false);
    s.opened(Some("locked".to_string()));
    assert_eq!((s.payload.stage, s.payload.error.as_deref()), (ScanStage::Error, Some("locked")));
    let mut s = Scan::start();
    s.roots_listed(Ok(vec!["C:/Music".to_string()]));
    s.walked(2, false);
    s.opened(None);
    s.diffed(0);
    s.parsed(false);
    s.begun(None);
    s.track_stored("a", Err("full".to_string()));
    assert_eq!(s.payload.error.as_deref(), Some("写入失败 a: full"));
    s.cut();
    s.committed(Some("busy"));
    assert_eq!((s.phase, s.payload.stage), (Phase::Over, ScanStage::Cancelled));
    assert_eq!(s.payload.error.as_deref(), Some("提交写入失败: busy"));
    assert!(Scan::may_report(1100, 1000));
    assert!(!Scan::may_report(1099, 1000));
}

#[test]
fn one_scan_at_a_time() {
    let mut c = ScanControl::default();
    assert!(c.request());
    assert!(!c.request());
    assert!(c.is_running());
    c.cancel();
    c.begin();
    assert!(!c.cancel);
    c.mark_done();
    assert!(!c.is_running());
}

const PNG: &[u8] = &[0x89, b'P', b'N', b'G', 0x0d, 0x0a, 0x1a, 0x0a, 0, 0, 0, 0];

#[test]
fn covers_are_named_by_their_content() {
    assert_eq!(content_key(b"", "png"), "cbf29ce484222325-0.png");
    assert_eq!(content_key(b"a", "jpg"), "af63dc4c8601ec8c-1.jpg");
    assert_eq!(thumb_path_for("abc-1.png"), "thumb/abc-1.jpg");
    let p = plan_cover(b"a", "jpg", Some(1), true);
    assert!(!p.write_image && !p.make_thumb);
    let p = plan_cover(b"a", "jpg", Some(2), true);
    assert!(p.write_image && p.make_thumb);
    let p = plan_cover(b"a", "jpg", Some(1), false);
    assert!(!p.write_image && p.make_thumb);
    assert_eq!(sniff_image_ext(PNG), Some("png"));
    assert_eq!(sniff_image_ext(&[0xff, 0xd8, 0xff, 0xe0, 0, 0, 0, 0, 0, 0, 0, 0]), Some("jpg"));
    assert_eq!(sniff_image_ext(b"nothing much at all"), None);
    assert_eq!(mime_of_ext("png"), "image/png");
    assert_eq!(cover_mime("a.png", true), "image/jpeg");
    assert_eq!(cover_mime("a.png", false), "image/png");
    assert_eq!(data_url("image/png", b"foo"), "data:image/png;base64,Zm9v");
    let cache = CoverCache::of(&["k.png".to_string()]);
    assert!(!cache.is_orphan("k.png"));
    assert!(!cache.is_orphan("thumb/k.jpg"));
    assert!(cache.is_orphan("old.png"));
}

#[test]
fn base64_of_known_texts() {
    assert_eq!(base64_encode(b""), "");
    assert_eq!(base64_encode(b"f"), "Zg==");
    assert_eq!(base64_encode(b"fo"), "Zm8=");
    assert_eq!(base64_encode(b"foobar"), "Zm9vYmFy");
}

#[test]
fn thumbnails_are_small_jpegs() {
    let p = Raster { width: 2, height: 1, rgba: vec![255, 0, 0, 255, 0, 0, 0, 0] };
    let jpg = encode_thumb(&p).expect("an image");
    assert_eq!(&jpg[..2], &[0xff, 0xd8]);
    let big = image::RgbaImage::from_pixel(800, 600, image::Rgba([10, 200, 30, 255]));
    let mut png = Vec::new();
    image::DynamicImage::ImageRgba8(big)
        .write_to(&mut std::io::Cursor::new(&mut png), image::ImageFormat::Png)
        .expect("an image can be written");
    let thumb = make_thumb(&png).expect("a thumbnail");
    let back = image::load_from_memory(&thumb).expect("it can be read");
    assert_eq!((back.width(), back.height()), (400, 300));
    assert!(make_thumb(b"no image").is_none());
    assert!(thumb_from(None).is_none());
    assert_eq!(thumb_from(Some(p)), Some(jpg));
    let wide = Raster { width: 65_536, height: 1, rgba: vec![9; 4 * 65_536] };
    assert!(encode_thumb(&wide).is_none());
    let wide = Raster { width: 65_535, height: 1, rgba: vec![9; 4 * 65_535] };
    assert!(encode_thumb(&wide).is_some());
    let empty = Raster { width: 0, height: 4, rgba: vec![] };
    assert!(thumb_from(Some(empty)).is_none());
}

fn blank_tag() -> Tag {
    Tag {
        title: None,
        artist: None,
        album: None,
        album_artist: None,
        genre: None,
        year: None,
        track: None,
        disk: None,
        picture: None,
    }
}

#[test]
fn metadata_of_a_file() {
    let props = Properties { duration_ms: 1500, sample_rate: Some(44_100), bitrate: Some(320), channels: Some(2) };
    let (m, cover) = read_metadata("MP3", props, None);
    assert_eq!((m.format.as_str(), m.duration_ms, m.channels), ("mp3", 1500, Some(2)));
    assert!(cover.is_none());
    let tag = Tag { title: Some("t".to_string()), year: Some(2001), picture: Some(PNG.to_vec()), ..blank_tag() };
    let (m, cover) = read_metadata("flac", props, Some(tag));
    assert_eq!((m.title.as_str(), m.year), ("t", Some(2001)));
    assert_eq!(cover.unwrap().ext, "png");
    let tag = Tag { picture: Some(vec![1, 2, 3]), ..blank_tag() };
    let (m, cover) = read_metadata("flac", props, Some(tag));
    assert!(cover.is_none(), "a picture of no known kind is no cover");
    let m = with_file(m, "C:/x.flac".to_string(), Some("x".to_string()), 7, 8, Some("k".to_string()));
    assert_eq!((m.title.as_str(), m.path.as_str(), m.file_mtime, m.file_size), ("x", "C:/x.flac", 7, 8));
    let m = with_file(TrackMeta::default(), "C:/y".to_string(), None, 0, 0, None);
    assert_eq!(m.title, "C:/y");
    let e = read_dsd_metadata(None, "C:/z.dsf", "dsf").unwrap_err();
    assert_eq!((e.code, e.message.as_str()), ("DECODE", "无法解析 DSD 文件: C:/z.dsf"));
}

fn lib_track(id: i64) -> Track {
    Track {
        id,
        path: format!("C:/{id}.mp3"),
        title: format!("t{id}"),
        artist: String::new(),
        album: String::new(),
        album_artist: String::new(),
        genre: String::new(),
        year: None,
        track_no: None,
        disc_no: None,
        duration_ms: 2000,
        sample_rate: None,
        bitrate: None,
        channels: None,
        format: "mp3".to_string(),
        cover_key: None,
        file_size: 1,
        file_mtime: 1,
        added_ms: 0,
    }
}

#[test]
fn queues_of_one_are_filled_up() {
    assert_eq!(expand_context(vec![1, 2], vec![7, 8, 9], vec![]), vec![1, 2]);
    assert_eq!(expand_context(vec![7], vec![7, 8], vec![1, 2, 3]), vec![7, 8]);
    assert_eq!(expand_context(vec![7], vec![7], vec![1, 7, 3]), vec![1, 7, 3]);
    assert_eq!(expand_context(vec![7], vec![], vec![]), vec![7]);
    assert_eq!(seed_of(&[4, 5], None), Some(4));
    assert_eq!(seed_of(&[4, 5], Some(5)), Some(5));
    assert_eq!(seed_of(&[], None), None);
}

#[test]
fn playing_starts_as_asked() {
    let tracks = vec![lib_track(3), lib_track(5), lib_track(5)];
    let p = play_queue(&tracks, 4, Some(5)).unwrap();
    assert_eq!((p.position.index, p.position.count), (1, 4));
    match &p.commands[0] {
        EngineCommand::SetQueue { items, start, autoplay } => {
            assert_eq!(items.len(), 3);
            assert_eq!(items[0].duration_ns, 2_000_000_000);
            assert_eq!(*start, 1);
            assert!(*autoplay);
        }
        _ => panic!("the queue comes first"),
    }
    assert_eq!(play_queue(&tracks, 3, Some(9)).unwrap().position.index, 0);
    let e = play_queue(&[], 3, None).unwrap_err();
    assert_eq!((e.code, e.message.as_str()), ("TRACK_NOT_FOUND", "队列中没有可播放的歌曲（文件可能已被移除）"));
}

#[test]
fn restoring_stays_paused() {
    let tracks = vec![lib_track(3), lib_track(5)];
    let p = player_restore(&tracks, 2, 5, 9).unwrap();
    assert_eq!(p.commands.len(), 3);
    assert!(matches!(p.commands[0], EngineCommand::SetQueue { start: 1, autoplay: false, .. }));
    assert!(matches!(p.commands[1], EngineCommand::LoadPaused { index: 1 }));
    assert!(matches!(p.commands[2], EngineCommand::Seek { position_ns: 9 }));
    assert_eq!(player_restore(&tracks, 2, 5, 0).unwrap().commands.len(), 2);
    assert_eq!(player_restore(&[], 2, 5, 0).unwrap_err().message, "无法恢复上次的曲目");
    assert_eq!(requested(4, None), vec![4]);
    assert_eq!(requested(4, Some(vec![])), vec![4]);
    assert_eq!(requested(4, Some(vec![1, 2])), vec![1, 2]);
}

#[test]
fn requests_can_be_refused() {
    assert_eq!(player_play_track(2, Some(vec![1, 2])).unwrap(), vec![1, 2]);
    let e = player_play_track(3, Some(vec![1, 2])).unwrap_err();
    assert_eq!((e.code, e.message.as_str()), ("INVALID_ARG", "起始歌曲不在队列中"));
    assert_eq!(player_play_album(vec![]).unwrap_err().message, "专辑为空或无此专辑");
    let e = player_play_playlist(vec![]).unwrap_err();
    assert_eq!((e.code, e.message.as_str()), ("PLAYLIST_NOT_FOUND", "播放列表为空或无此列表"));
    assert_eq!(player_play_all(vec![]).unwrap_err().message, "曲库为空");
    assert_eq!(player_play_all(vec![1]).unwrap(), vec![1]);
}

#[test]
fn stored_settings_come_back() {
    assert_eq!(initial_volume(None), 80);
    assert_eq!(initial_volume(Some("0")), 0);
    assert_eq!(initial_volume(Some("+55")), 55);
    assert_eq!(initial_volume(Some("255")), 255);
    assert_eq!(initial_volume(Some("256")), 80);
    assert_eq!(initial_volume(Some("-0")), 80);
    assert_eq!(initial_volume(Some(" 5")), 80);
    for v in [0u8, 9, 10, 99, 100, 255] {
        assert_eq!(volume_text(v), v.to_string());
        assert_eq!(initial_volume(Some(&volume_text(v))), v);
    }
    assert_eq!(initial_mode(None), PlayMode::LoopAll);
    assert_eq!(initial_mode(Some("sequential")), PlayMode::LoopAll);
    assert_eq!(initial_mode(Some("shuffle")), PlayMode::Shuffle);
    assert_eq!(initial_mode(Some("loop-one")), PlayMode::LoopOne);
    assert!(is_on(Some("on")));
    assert!(!is_on(Some("ON")));
    assert!(!is_on(None));
    assert_eq!((switch_text(true), switch_text(false)), ("on", "off"));
    assert_eq!(output_device(Some(String::new())), None);
    assert_eq!(output_device(Some("hp".to_string())), Some("hp".to_string()));
    assert_eq!(output_mode(Some("exclusive".to_string())), "exclusive");
    assert_eq!(output_mode(Some("loud".to_string())), "auto");
    assert_eq!(output_mode(None), "auto");
}

#[test]
fn last_place_is_worth_keeping_after_five_seconds() {
    assert_eq!(last_position(7, 4_999_999_999), None);
    assert_eq!(last_position(7, 5_000_000_000), Some(("7".to_string(), "5.000".to_string())));
    assert_eq!(last_position(-7, 65_043_600_000), Some(("-7".to_string(), "65.044".to_string())));
    assert_eq!(last_position(7, 61_007_000_000), Some(("7".to_string(), "61.007".to_string())));
    assert_eq!(last_position(7, 5_062_500_000), Some(("7".to_string(), "5.062".to_string())));
    for i in 0..40_000u64 {
        let ns = 5_000_000_000 + i * 500_000 + i * i % 7 * 1_000_000_000_000;
        let text = format!("{:.3}", Duration::from_nanos(ns).as_secs_f64());
        assert_eq!(last_position(1, ns).unwrap().1, text, "{ns}");
    }
}

#[test]
fn folders_are_watched() {
    let mut r = Roots::new();
    assert!(r.wants("a"));
    r.added("a".to_string(), true);
    assert!(!r.wants("a"));
    r.added("b".to_string(), false);
    assert!(r.wants("b"));
    let c = r.rescan(&["b".to_string(), "c".to_string(), "b".to_string()]);
    assert_eq!(c.watch, vec!["b".to_string(), "c".to_string()]);
    assert_eq!(c.unwatch, vec!["a".to_string()]);
    assert_eq!(r.paths, vec!["b".to_string(), "c".to_string()]);
    r.removed("b");
    assert_eq!(r.paths, vec!["c".to_string()]);
}

#[test]
fn changes_settle_before_a_scan() {
    let d = due(true, Some(1501), None);
    assert!(d.settled && d.scan);
    let d = due(true, Some(1500), None);
    assert!(!d.settled && !d.scan);
    let d = due(true, Some(2000), Some(3000));
    assert!(d.settled && !d.scan);
    assert!(!due(false, Some(9000), None).settled);
    assert!(!due(true, None, None).settled);
}

#[test]
fn media_keys_and_panel() {
    assert!(key_command(MediaKey::Play, PlayerStatus::Playing).is_none());
    assert!(matches!(key_command(MediaKey::Play, PlayerStatus::Paused), Some(EngineCommand::Toggle)));
    assert!(matches!(key_command(MediaKey::Stop, PlayerStatus::Playing), Some(EngineCommand::Stop)));
    assert!(key_command(MediaKey::Other, PlayerStatus::Playing).is_none());
    assert_eq!(to_ticks(1_000_000_099), 10_000_000);
    assert_eq!(from_ticks(10_000_000), 1_000_000_000);
    assert_eq!(from_ticks(-5), 0);
    assert_eq!(to_ticks(0), 0);
    for i in 0..40_000u64 {
        let ns = i * 7_000_000 + i % 3;
        let secs = Duration::from_nanos(ns).as_secs_f64();
        assert_eq!(to_ticks(ns), (secs * 10_000_000.0) as i64, "{ns}");
        let ticks = (i * 12_345_678_901) as i64;
        let back = Duration::from_secs_f64(ticks as f64 / 10_000_000.0);
        assert_eq!(from_ticks(ticks) as u128, back.as_nanos(), "{ticks}");
        assert!(from_ticks(to_ticks(ns)) < ns + 100 && ns < from_ticks(to_ticks(ns)) + 200);
    }
    assert_eq!(from_ticks(i64::MAX), u64::MAX);
    assert!(matches!(drag_command(20_000_000), EngineCommand::Seek { position_ns: 2_000_000_000 }));
    let mut p = PanelState::new();
    let cmd = || SmtcCommand::Track {
        track_id: 4,
        title: "t".to_string(),
        artist: "a".to_string(),
        album: "b".to_string(),
    };
    assert!(matches!(p.on_command(cmd()), Panel::Track { track_id: 4, .. }));
    p.track_shown(4);
    assert_eq!(p.on_command(cmd()), Panel::Keep);
    assert_eq!(p.on_command(SmtcCommand::Clear), Panel::Empty);
    assert!(matches!(p.on_command(cmd()), Panel::Track { .. }));
    assert_eq!(p.on_command(SmtcCommand::Status(PlayerStatus::Paused)), Panel::Status(PlayerStatus::Paused));
    assert_eq!(p.last_status, PlayerStatus::Paused);
    assert_eq!(
        p.on_command(SmtcCommand::Progress { position_ns: 1000, duration_ns: 2000 }),
        Panel::Timeline { position: 10, end: 20 }
    );
}

#[test]
fn fonts_are_named_safely() {
    assert_eq!(sanitize("C:\\x/My Font!.TTF").unwrap(), "My_Font_.TTF");
    assert_eq!(sanitize("字体.woff2").unwrap(), "字体.woff2");
    assert_eq!(sanitize("../../a.otf").unwrap(), "a.otf");
    for name in ["C:\\x/My Font!.TTF", "字体.woff2", "a b c.ttc", ".otf"] {
        let once = sanitize(name).unwrap();
        assert_eq!(sanitize(&once).unwrap(), once);
    }
    let e = sanitize("a.exe").unwrap_err();
    assert_eq!((e.code, e.message.as_str()), ("INVALID_ARG", "只支持 ttf / otf / ttc / woff / woff2 字体文件"));
    assert_eq!(font_save("a.ttf", 1023).unwrap_err().message, "字体文件过小，可能不是有效字体");
    assert_eq!(font_save("a.ttf", 64 * 1024 * 1024 + 1).unwrap_err().message, "字体文件过大（上限 64MB）");
    assert_eq!(font_save("a.ttf", 1024).unwrap(), "a.ttf");
    assert!(font_save("a", 1024).is_err());
}

#[test]
fn errors_carry_code_and_message() {
    assert_eq!(AppError::internal("x".to_string()).render(), "[INTERNAL] x");
    assert_eq!(AppError::param("x".to_string()).code, "INVALID_ARG");
    assert_eq!(AppError::not_found("x".to_string()).code, "TRACK_NOT_FOUND");
    assert_eq!(AppError::io("x".to_string()).code, "IO");
    assert_eq!(AppError::new("DB", "y".to_string()).message, "y");
}
