//! Containers and streams: ADTS, DSD and Opus, and changing the sample rate.

use oberon::bytes::le_u64;
use oberon::engine::adts;
use oberon::engine::adts::{audio_specific_config, channels_of, count_frames, next_payload, parse_header, seek, Place};
use oberon::engine::beat::{BeatWindow, WINDOW};
use oberon::engine::dsd;
use oberon::engine::dsd::{
    dsf_data_offset, duration_of, embedded_lyrics, frame_use, is_dsd_container, pick_decimation, picture_ext, probe, target_block,
    DsdFacts, DsdTag, DsfBlocks, FrameUse, NCHUNK, TAPS,
};
use oberon::engine::dsd_windows::{tap_of, ByteFeed, SampleFeed};
use oberon::engine::opus;
use oberon::engine::opus::{last_granule, tail_start};
use oberon::engine::resample::{gcd, ratio_of, ring_frames, span_len, Resampler};
use std::time::Duration;

#[test]
fn parses_real_adts_header() {
    let h = parse_header(&[0xff, 0xf9, 0x50, 0x80, 0x37, 0x1f, 0xfc]).expect("a header");
    assert!(h.protection_absent);
    assert_eq!(h.aot, 2);
    assert_eq!(h.freq_index, 4);
    assert_eq!(h.sample_rate, 44_100);
    assert_eq!(h.channel_config, 2);
    assert_eq!(h.frame_len, 440);
    assert_eq!(audio_specific_config(&h), [0x12, 0x10]);
}

#[test]
fn rejects_non_adts() {
    assert!(parse_header(&[0x00, 0x00, 0x00, 0x00, 0x00, 0x00, 0x00]).is_none());
    assert!(parse_header(&[0xff, 0xf9, 0x50]).is_none());
    assert!(parse_header(&[0xff, 0xf1, 0x50, 0x00, 0x00, 0x00, 0x00]).is_none());
}

/// A stream of frames with payloads of the given lengths, all of stereo at 44.1 kHz.
fn adts_stream(payloads: &[usize]) -> Vec<u8> {
    let mut v = Vec::new();
    for (i, p) in payloads.iter().enumerate() {
        let len = p + 7;
        v.extend_from_slice(&[
            0xff,
            0xf1,
            0x50,
            0x80 | ((len >> 11) as u8),
            (len >> 3) as u8,
            ((len << 5) as u8) | 0x1f,
            0xfc,
        ]);
        v.extend(std::iter::repeat(i as u8 + 1).take(*p));
    }
    v
}

#[test]
fn frames_are_counted_and_read() {
    let file = adts_stream(&[10, 0, 20, 5]);
    assert_eq!(count_frames(&file), 4);
    let s = adts::open(&file).unwrap();
    assert_eq!(s.header.sample_rate, 44_100);
    assert_eq!(s.total_ns, Some(92_879_819));
    let mut got = Vec::new();
    let mut off = 0;
    while let Some(p) = next_payload(&file, off) {
        got.push((file[p.start], p.end - p.start));
        off = p.end;
    }
    assert_eq!(got, vec![(1, 10), (3, 20), (4, 5)]);
    let cut = &file[..file.len() - 1];
    let mut n = 0;
    let mut off = 0;
    while let Some(p) = next_payload(cut, off) {
        n += 1;
        off = p.end;
    }
    assert_eq!(n, 2, "a frame that is cut off ends the stream");
}

#[test]
fn adts_errors() {
    let e = adts::open(&[0xff, 0xf1]).unwrap_err();
    assert_eq!((e.code, e.message.as_str()), ("DECODE", "读取 ADTS 帧头失败: failed to fill whole buffer"));
    let e = adts::open(&[0u8; 16]).unwrap_err();
    assert_eq!((e.code, e.message.as_str()), ("DECODE", "不是有效的 ADTS(AAC) 流"));
}

#[test]
fn adts_seek_lands_on_frames() {
    let file = adts_stream(&[10, 3, 20, 5]);
    let p = seek(&file, 0, 44_100);
    assert_eq!((p.offset, p.ts), (0, 0));
    let p = seek(&file, 50_000_000, 44_100);
    assert_eq!((p.offset, p.ts), (17 + 10, 2048));
    let p = seek(&file, 10_000_000_000, 44_100);
    assert_eq!((p.offset, p.ts), (file.len(), 4096));
}

#[test]
fn adts_layouts() {
    assert_eq!(channels_of(1), vec![Place::FrontLeft]);
    assert_eq!(channels_of(4).last(), Some(&Place::RearCentre));
    assert_eq!(channels_of(6).len(), 6);
    assert_eq!(channels_of(7).len(), 7);
}

const BLOCK: usize = 4096;

/// A DSF file of so many blocks per channel, with bytes that differ from channel to channel.
fn make_dsf(blocks: usize, channels: usize) -> (Vec<u8>, Vec<Vec<u8>>) {
    let mut planes: Vec<Vec<u8>> = Vec::new();
    for ch in 0..channels {
        let mut x: u32 = 0x9e37_79b9 ^ (ch as u32 + 1);
        let plane = (0..blocks * BLOCK)
            .map(|_| {
                x ^= x << 13;
                x ^= x >> 17;
                x ^= x << 5;
                x as u8
            })
            .collect();
        planes.push(plane);
    }
    let mut data = Vec::new();
    for b in 0..blocks {
        for plane in &planes {
            data.extend_from_slice(&plane[b * BLOCK..(b + 1) * BLOCK]);
        }
    }
    let mut f = Vec::new();
    f.extend_from_slice(b"DSD ");
    f.extend_from_slice(&28u64.to_le_bytes());
    f.extend_from_slice(&(28u64 + 52 + 12 + data.len() as u64).to_le_bytes());
    f.extend_from_slice(&0u64.to_le_bytes());
    f.extend_from_slice(b"fmt ");
    f.extend_from_slice(&52u64.to_le_bytes());
    f.extend_from_slice(&1u32.to_le_bytes());
    f.extend_from_slice(&0u32.to_le_bytes());
    f.extend_from_slice(&2u32.to_le_bytes());
    f.extend_from_slice(&(channels as u32).to_le_bytes());
    f.extend_from_slice(&2_822_400u32.to_le_bytes());
    f.extend_from_slice(&1u32.to_le_bytes());
    f.extend_from_slice(&((blocks * BLOCK * 8) as u64).to_le_bytes());
    f.extend_from_slice(&(BLOCK as u32).to_le_bytes());
    f.extend_from_slice(&0u32.to_le_bytes());
    f.extend_from_slice(b"data");
    f.extend_from_slice(&(12 + data.len() as u64).to_le_bytes());
    f.extend_from_slice(&data);
    (f, planes)
}

fn facts(blocks: usize, channels: usize) -> DsdFacts {
    DsdFacts {
        multiple: 1,
        channels,
        audio_length: (blocks * BLOCK * channels) as u64,
        block_size: BLOCK as u32,
    }
}

#[test]
fn dsf_frames_give_every_channel_its_bytes() {
    let (file, planes) = make_dsf(5, 2);
    let off = dsf_data_offset(&file[..92]).expect("there is audio");
    assert_eq!(off, 92);
    let mut d = DsfBlocks::open(off, BLOCK, 2, (5 * BLOCK * 2) as u64);
    let mut got: Vec<Vec<u8>> = vec![Vec::new(), Vec::new()];
    let mut at = off as usize;
    while let Some(valid) = d.next_frame() {
        let frame = &file[at..at + d.frame_size()];
        at += d.frame_size();
        for (ch, part) in d.split_frame(frame, valid).into_iter().enumerate() {
            got[ch].extend(part);
        }
    }
    assert_eq!(got, planes);
}

#[test]
fn last_dsf_frame_is_cut_to_what_is_valid() {
    let mut d = DsfBlocks::open(92, 100, 2, 230);
    assert_eq!(d.next_frame(), Some(100));
    assert_eq!(d.next_frame(), Some(15));
    assert_eq!(d.next_frame(), None);
    assert_eq!(d.seek_to_frame(1), 92 + 200);
    assert_eq!(d.next_frame(), Some(15));
    assert_eq!(d.seek_to_frame(9), 92 + 230);
    assert_eq!(d.next_frame(), None);
}

#[test]
fn dsf_seek_matches_reading_on() {
    let blocks = 12;
    let mut by_seek = DsfBlocks::open(92, BLOCK, 2, (blocks * BLOCK * 2) as u64);
    let mut by_reading = by_seek;
    let target = target_block(83_000_000, 2_822_400, BLOCK as u32);
    assert_eq!(target, 83_000_000 * 2_822_400 / 1_000_000_000 / 8 / BLOCK as u64);
    by_seek.seek_to_frame(target);
    for _ in 0..target {
        by_reading.next_frame();
    }
    assert_eq!(by_seek, by_reading);
}

#[test]
fn rejects_junk() {
    let junk = b"DSD not really";
    let opened = dsd::open(junk, Ok(facts(1, 2)), false);
    assert!(opened.is_err());
    assert!(probe(junk, facts(1, 2), None).is_none());
    assert!(!is_dsd_container(junk));
    assert_eq!(dsf_data_offset(junk), None);
}

#[test]
fn dsd_open_errors() {
    let (file, _) = make_dsf(1, 2);
    let e = dsd::open(b"junk", Ok(facts(1, 2)), false).unwrap_err();
    assert_eq!((e.code, e.message.as_str()), ("DECODE", "不是 DSF/DFF 容器（或文件头不完整）"));
    let e = dsd::open(&file[..92], Err("boom".to_string()), false).unwrap_err();
    assert_eq!(e.message, "不是有效的 DSD(DSF/DFF) 文件: boom");
    let e = dsd::open(&file[..92], Ok(DsdFacts { multiple: 0, ..facts(1, 2) }), false).unwrap_err();
    assert_eq!(e.message, "DSD 文件缺少声道/采样率信息");
    let p = dsd::open(&file[..92], Ok(facts(1, 2)), false).unwrap();
    assert_eq!((p.dsd_rate_hz, p.sample_rate, p.decim), (2_822_400, 88_200, 32));
    assert!(p.by_bytes);
    assert!(p.blocks.is_some());
    assert!(!dsd::open(&file[..92], Ok(facts(1, 2)), true).unwrap().by_bytes);
}

#[test]
fn probe_reports_container_facts() {
    let blocks = 2_822_400 / (BLOCK * 8);
    let (file, _) = make_dsf(1, 2);
    let m = probe(&file[..92], facts(blocks, 2), None).expect("a DSD file");
    assert_eq!(m.sample_rate, 2_822_400);
    assert_eq!(m.channels, 2);
    assert!((m.duration_ms - 1000).abs() < 50, "{}", m.duration_ms);
    let tag = DsdTag {
        title: Some("t".to_string()),
        artist: None,
        album: None,
        genre: None,
        year: Some(1999),
        track: Some(7),
        picture: Some(("image/png".to_string(), vec![1, 2, 3])),
    };
    let m = probe(&file[..92], facts(blocks, 2), Some(tag)).unwrap();
    assert_eq!((m.title.as_str(), m.year, m.track_no), ("t", Some(1999), Some(7)));
    assert_eq!(m.picture, Some((vec![1, 2, 3], "png")));
    assert_eq!(picture_ext("image/gif"), "gif");
    assert_eq!(picture_ext("image/webp"), "webp");
    assert_eq!(picture_ext("image/jpeg"), "jpg");
}

#[test]
fn reads_embedded_lyrics_from_dsf() {
    let (mut bytes, _) = make_dsf(1, 2);
    let mut tag = id3::Tag::new();
    id3::TagLike::set_title(&mut tag, "交换余生");
    id3::TagLike::add_frame(
        &mut tag,
        id3::frame::Lyrics {
            lang: "eng".to_string(),
            description: String::new(),
            text: "[00:01.00]第一行\n[00:02.00]第二行".to_string(),
        },
    );
    let mut tag_bytes = Vec::new();
    tag.write_to(&mut tag_bytes, id3::Version::Id3v24).expect("the tag can be written");
    let offset = bytes.len() as u64;
    bytes.extend_from_slice(&tag_bytes);
    let total = bytes.len() as u64;
    bytes[12..20].copy_from_slice(&total.to_le_bytes());
    bytes[20..28].copy_from_slice(&offset.to_le_bytes());
    assert!(is_dsd_container(&bytes), "the container is still whole");
    let at = le_u64(&bytes, 20) as usize;
    let back = id3::Tag::read_from2(std::io::Cursor::new(bytes[at..].to_vec())).expect("the tag can be read");
    let texts: Vec<String> = back.lyrics().map(|l| l.text.clone()).collect();
    let text = embedded_lyrics(&bytes, &texts).expect("there are lyrics");
    assert!(text.contains("第一行"), "{text}");
    let l = oberon::lyrics::load(&[], &texts);
    assert_eq!(l.source, "embedded");
    assert!(l.synced);
    assert_eq!(l.lines.len(), 2);
}

#[test]
fn dff_is_known_by_its_form() {
    assert!(is_dsd_container(b"FRM8\0\0\0\0\0\0\0\x10DSD "));
    assert!(!is_dsd_container(b"FRM8\0\0\0\0\0\0\0\x10DST "));
    assert_eq!(dsf_data_offset(b"FRM8\0\0\0\0\0\0\0\x10DSD "), None);
}

#[test]
fn broken_chunks_give_no_audio() {
    let (file, _) = make_dsf(1, 2);
    let mut head = file[..92].to_vec();
    head[32..40].copy_from_slice(&4u64.to_le_bytes());
    assert_eq!(dsf_data_offset(&head), None);
    head[32..40].copy_from_slice(&u64::MAX.to_le_bytes());
    assert_eq!(dsf_data_offset(&head), None);
}

#[test]
fn decimations() {
    assert_eq!(pick_decimation(2_822_400), 32);
    assert_eq!(pick_decimation(11_289_600), 128);
    assert_eq!(pick_decimation(3_072_000), 32);
    assert_eq!(pick_decimation(1_000_003), 16);
    assert_eq!(pick_decimation(44_100), 2);
}

#[test]
fn frames_are_used_skipped_or_end() {
    assert_eq!(frame_use(0, 2, 2), FrameUse::Skip);
    assert_eq!(frame_use(8, 0, 2), FrameUse::Skip);
    assert_eq!(frame_use(8, 1, 2), FrameUse::End);
    assert_eq!(frame_use(8, 2, 2), FrameUse::Feed);
}

fn sums_by_bytes(planes: &[Vec<u8>], cut: usize, step: u64, taps: &[i64]) -> Vec<i64> {
    let mut feed = ByteFeed::new(planes.len(), step);
    let mut out = Vec::new();
    let mut at = 0;
    while at < planes[0].len() {
        let end = (at + cut).min(planes[0].len());
        let blocks: Vec<Vec<u8>> = planes.iter().map(|p| p[at..end].to_vec()).collect();
        at = end;
        let (work, starts) = feed.feed(&blocks);
        for s in starts {
            for w in &work {
                let window = &w[s..s + NCHUNK];
                let mut acc = 0;
                for (c, b) in window.iter().enumerate() {
                    for t in 0..8 {
                        let v = if (b >> t) & 1 == 1 { 1 } else { -1 };
                        acc += taps[tap_of(c, t)] * v;
                    }
                }
                out.push(acc);
            }
        }
    }
    out
}

fn sums_by_samples(planes: &[Vec<u8>], cut: usize, decim: u64, taps: &[i64]) -> Vec<i64> {
    let mut feed = SampleFeed::new(planes.len(), decim);
    let mut out = Vec::new();
    let mut at = 0;
    while at < planes[0].len() {
        let end = (at + cut).min(planes[0].len());
        let blocks: Vec<Vec<u8>> = planes.iter().map(|p| p[at..end].to_vec()).collect();
        at = end;
        let (work, ends) = feed.feed(&blocks);
        for local in ends {
            for w in &work {
                let mut acc = 0;
                for (j, t) in taps.iter().enumerate() {
                    acc += if w[local - 1 - j] { *t } else { -*t };
                }
                out.push(acc);
            }
        }
    }
    out
}

#[test]
fn both_ways_of_filtering_agree_however_the_stream_is_cut() {
    let (_, planes) = make_dsf(1, 2);
    let taps: Vec<i64> = (0..TAPS as i64).map(|i| (i * i) % 97 - 31).collect();
    let whole = sums_by_bytes(&planes, 4096, 4, &taps);
    assert_eq!(whole.len(), (4096 - NCHUNK) / 4 * 2);
    for cut in [1, 7, 31, 32, 33, 1000] {
        assert_eq!(sums_by_bytes(&planes, cut, 4, &taps), whole, "bytes cut at {cut}");
        assert_eq!(sums_by_samples(&planes, cut, 32, &taps), whole, "samples cut at {cut}");
    }
}

#[test]
fn feeds_start_over() {
    let (_, planes) = make_dsf(1, 1);
    let mut feed = ByteFeed::new(1, 4);
    let first = feed.feed(&planes);
    feed.feed(&planes);
    feed.reset();
    assert_eq!(feed.bytes_in, 0);
    assert_eq!(feed.feed(&planes), first);
    let mut feed = SampleFeed::new(1, 20);
    let first = feed.feed(&planes);
    feed.reset();
    assert_eq!(feed.feed(&planes), first);
}

fn page(granule: u64, kind: u8) -> Vec<u8> {
    let mut p = b"OggS".to_vec();
    p.push(0);
    p.push(kind);
    p.extend_from_slice(&granule.to_le_bytes());
    p.extend_from_slice(&[0u8; 20]);
    p
}

#[test]
fn junk_has_no_granule() {
    assert!(last_granule(b"not an ogg file at all").is_none());
    assert!(last_granule(b"").is_none());
}

#[test]
fn last_page_tells_the_length() {
    let mut tail = page(48_000, 0);
    tail.extend(page(96_000, 0));
    tail.extend(page(u64::MAX, 0));
    assert_eq!(last_granule(&tail), Some(96_000));
    let mut tail = page(48_000, 4);
    tail.extend(page(96_000, 0));
    assert_eq!(last_granule(&tail), Some(48_000), "the page that ends the stream counts");
    assert_eq!(tail_start(100), 0);
    assert_eq!(tail_start(100_000), 100_000 - 65_536);
    let s = opus::open(2, 312, &tail).unwrap();
    assert_eq!(s.total_ns, Some(993_500_000));
    let e = opus::open(0, 312, &tail).unwrap_err();
    assert_eq!((e.code, e.message.as_str()), ("DECODE", "Opus 声道数为 0"));
    assert_eq!(opus::open(1, 0, b"").unwrap().total_ns, None);
}

#[test]
fn packets_tell_their_length() {
    let s = opus::open(2, 0, b"").unwrap();
    let size = s.packet_size(&[0b1111_1000, 1, 2]).unwrap();
    assert_eq!((size.per_channel, size.need), (960, 1920));
    assert_eq!(s.packet_size(&[0b1000_0001]).unwrap().per_channel, 240);
    assert_eq!(s.packet_size(&[0b0001_1000]).unwrap().per_channel, 2880);
    assert_eq!(s.packet_size(&[0b0111_1000]).unwrap().per_channel, 960);
    assert_eq!(s.packet_size(&[0b1111_1011, 3]).unwrap().per_channel, 2880);
    assert!(s.packet_size(&[]).is_none());
    assert!(s.packet_size(&[0b1111_1011, 0]).is_none());
    assert!(s.packet_size(&[0b1111_1011]).is_none());
    assert!(s.packet_size(&[0b1111_1011, 7]).is_none(), "more than 120 ms");
}

#[test]
fn pre_skip_is_dropped_once() {
    let mut s = opus::open(2, 1000, b"").unwrap();
    assert_eq!(s.decoded(960), None);
    assert_eq!(s.decoded(960), Some((80, 1840)));
    assert_eq!(s.decoded(960), Some((0, 1920)));
    let mut s = opus::open(2, 960, b"").unwrap();
    assert_eq!(s.decoded(960), None);
    assert_eq!(s.decoded(960), Some((0, 1920)));
}

/// How many output frames there are for so many input frames.
fn resampled(src: u32, dst: u32, taps: usize, frames: u64) -> u64 {
    let mut r = Resampler::new(src, dst, taps);
    let mut left = frames;
    loop {
        while r.wants_input() {
            if left > 0 {
                left -= 1;
                r.frame_read(true);
            } else {
                r.frame_read(false);
            }
        }
        match r.window() {
            Some(w) => {
                assert!(w.last < r.have && r.have - w.first <= r.ring as u64);
                r.advance();
            }
            None => return r.n,
        }
    }
}

#[test]
fn long_stream_does_not_drift() {
    let (sr, dr) = (44_100u32, 48_000u32);
    let n = resampled(sr, dr, 119, sr as u64 * 10);
    let secs = n as f64 / dr as f64;
    assert!((secs - 10.0).abs() < 0.01, "{secs}");
}

#[test]
fn empty_input_ends() {
    let n = resampled(44_100, 48_000, 119, 0);
    assert!(n < 1000, "{n}");
    assert_eq!(n, 0);
}

#[test]
fn resampler_starts_over() {
    let mut r = Resampler::new(44_100, 48_000, 119);
    assert_eq!((r.ratio.l, r.ratio.m), (160, 147));
    assert_eq!(r.ring, 128);
    while r.wants_input() {
        r.frame_read(true);
    }
    assert_eq!(r.have, 60);
    let w = r.window().unwrap();
    assert_eq!((w.row, w.first, w.last, w.newest), (0, 0, 59, 59));
    r.advance();
    while r.wants_input() {
        r.frame_read(true);
    }
    assert_eq!(r.window().unwrap().row, 147 * 119);
    assert_eq!(r.slot(130), 2);
    r.reset();
    assert_eq!((r.have, r.n, r.ended), (0, 0, false));
}

#[test]
fn ratios_are_in_lowest_terms() {
    assert_eq!(gcd(44_100, 48_000), 300);
    assert_eq!(gcd(0, 0), 1);
    assert_eq!(gcd(0, 7), 7);
    let r = ratio_of(96_000, 48_000);
    assert_eq!((r.l, r.m), (1, 2));
    let r = ratio_of(0, 48_000);
    assert_eq!((r.l, r.m), (1, 1));
    assert_eq!(ring_frames(0), 2);
    assert_eq!(ring_frames(264), 512);
    assert_eq!(span_len(10, 4), 6);
    assert_eq!(span_len(10, 10), 1);
}

#[test]
fn beats_are_measured_by_windows() {
    let mut w = BeatWindow::new();
    let full = (0..3 * WINDOW).filter(|_| w.push()).count();
    assert_eq!(full, 3);
    w.push();
    w.reset();
    assert_eq!(w.n, 0);
}

#[test]
fn lengths_are_rounded_to_nanoseconds() {
    assert_eq!(duration_of(2, 2_822_400, 1), 5_669);
    assert_eq!(duration_of(2, 0, 0), 16_000_000_000);
    let ns = |n: u64, rate: u64| Duration::from_secs_f64(n as f64 / rate as f64).as_nanos();
    let mut seed = 12_345u64;
    for i in 0..30_000u64 {
        seed = seed.wrapping_mul(6_364_136_223_846_793_005).wrapping_add(1_442_695_040_888_963_407);
        let bytes = seed >> (i % 60);
        for (multiple, ch) in [(1u32, 1u32), (2, 2), (4, 3), (8, 6), (3, 5)] {
            let rate = multiple * 2_822_400;
            let want = ns(bytes.saturating_mul(8) / ch as u64, rate as u64);
            assert_eq!(duration_of(bytes, rate, ch), want, "{bytes} {rate} {ch}");
        }
        let mut tail = page(seed >> (i % 50), 4);
        tail.extend_from_slice(&[0; 64]);
        let granule = seed >> (i % 50);
        if granule != u64::MAX {
            let got = opus::open(2, 312, &tail).unwrap().total_ns;
            assert_eq!(got, Some(ns(granule.saturating_sub(312), 48_000)), "{granule}");
        }
    }
}

#[test]
fn places_are_counted_in_double_precision() {
    let file = adts_stream(&[2; 200]);
    for i in 0..4_000u64 {
        let ns = i * 1_000_000 + i % 2;
        let secs = Duration::from_nanos(ns).as_secs_f64();
        let frames = (secs * 48_000f64 / 1024f64) as u64;
        let at = adts::seek(&file, ns, 48_000);
        assert_eq!(at.ts, frames.min(200) * 1024, "{ns}");
        for rate in [2_822_400u32, 11_289_600] {
            let bits = (secs * rate as f64) as u64;
            assert_eq!(target_block(ns, rate, 1), bits / 8, "{ns}");
            assert_eq!(target_block(ns, rate, 4096), bits / 8 / 4096);
        }
    }
    assert_eq!(target_block(u64::MAX, u32::MAX, 1), u64::MAX / 8);
}
