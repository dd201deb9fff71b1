//! The output: formats, negotiation, fallbacks, mixing down, and the bytes for the device.

use oberon::engine::audio::{
    device_info, exclusive_rate_candidates, inline_seek_is_cheap, nz_channels, nz_rate, samples_before, sniff,
    time_of_samples, Ask, Backend, CoreAudio, Kind, Negotiation, OpenPlan, OutputStatus, SharedConfig,
};
use oberon::engine::backend::{
    after_init_failure, aligned_period_hns, classify, describe, fmt_pref, formats_to_try, pick_fallback, probe_report,
    supported_combos, supported_formats, Attempt, Fallback, Fmt, InitStep, OpenFailure, OutputMode,
};
use oberon::engine::downmix::{coeffs_for, stereo_span, Gain, Share};
use oberon::engine::exclusive::{
    choose_combo, full_scale, push_code, render, render_rates, render_step, stream_format, stream_label, ExclusiveSink,
    RenderStep,
};
use std::time::Duration;

#[test]
fn aligned_period_matches_measured_value() {
    assert_eq!(aligned_period_hns(44_100, 448), 101_587);
    assert_eq!(aligned_period_hns(48_000, 480), 100_000);
    assert_eq!(aligned_period_hns(0, 448), 0);
    assert_eq!(aligned_period_hns(44_100, 0), 0);
}

#[test]
fn periods_are_counted_in_double_precision() {
    let mut seed = 7u64;
    for i in 0..60_000u64 {
        seed = seed.wrapping_mul(6_364_136_223_846_793_005).wrapping_add(1_442_695_040_888_963_407);
        let rate = ((seed >> 11) >> (i % 53)).max(1) as usize;
        let frames = ((seed >> 32) as u32 >> (i % 31)).max(1);
        let want = (0.5 + 10_000_000.0 / rate as f64 * frames as f64) as i64;
        assert_eq!(aligned_period_hns(rate, frames), want, "{rate} {frames}");
    }
    for rate in [8_000usize, 11_025, 22_050, 32_000, 44_100, 48_000, 64_000, 96_000, 192_000] {
        for frames in 1..2_000u32 {
            let want = (0.5 + 10_000_000.0 / rate as f64 * frames as f64) as i64;
            assert_eq!(aligned_period_hns(rate, frames), want, "{rate} {frames}");
        }
    }
    assert_eq!(
        aligned_period_hns(usize::MAX, u32::MAX),
        (0.5 + 10_000_000.0 / usize::MAX as f64 * u32::MAX as f64) as i64
    );
}

#[test]
fn rates_are_shown_with_one_decimal() {
    for rate in (1..60_000usize).chain([96_000, 176_400, 705_600, usize::MAX]) {
        let caps = probe_report(
            "HP".to_string(),
            "id".to_string(),
            true,
            String::new(),
            vec![(rate, Fmt::integer(16, 16))],
            &[Attempt::Opened],
        );
        assert_eq!(caps.init_ok, Some(format!("{:.1}kHz 16/16", rate as f64 / 1000.0)));
    }
}

#[test]
fn classifies_windows_errors() {
    let wrap = |code: &str| format!("Windows returned an error: {code}");
    assert_eq!(classify(&wrap("0x88890008")), Fallback::UnsupportedFormat);
    assert_eq!(classify(&wrap("0x8889000A")), Fallback::DeviceInUse);
    assert_eq!(classify(&wrap("0x8889000E")), Fallback::ExclusiveDisabled);
    assert_eq!(classify(&wrap("0x88890004")), Fallback::DeviceInvalidated);
    assert_eq!(classify(&wrap("0x88890019")), Fallback::NeedsAlignment);
    assert_eq!(classify("something else"), Fallback::Other);
}

#[test]
fn pref_includes_24_in_32_before_16() {
    let p24_32 = fmt_pref().iter().position(|f| f.store == 32 && f.valid == 24 && !f.is_float);
    let p16 = fmt_pref().iter().position(|f| f.store == 16 && f.valid == 16);
    assert!(p24_32.is_some(), "24 bits in 32 must be among them");
    assert!(p16.is_some());
    assert!(p24_32.unwrap() < p16.unwrap(), "24 bits come before 16");
}

#[test]
fn labels_distinguish_container_width() {
    assert_eq!(Fmt::integer(24, 24).label(), "24/24");
    assert_eq!(Fmt::integer(32, 24).label(), "24/32");
    assert_eq!(Fmt::float(32).label(), "32f/32");
}

#[test]
fn frame_size_matches_format() {
    assert_eq!(Fmt::integer(16, 16).bytes_per_frame(2), 4);
    assert_eq!(Fmt::integer(32, 24).bytes_per_frame(2), 8);
    assert_eq!(Fmt::float(32).bytes_per_frame(1), 4);
}

fn push_sample(out: &mut Vec<u8>, v: f32, fmt: Fmt) {
    let v = v.clamp(-1.0, 1.0);
    let code = if fmt.is_float { v.to_bits() } else { (v * full_scale(fmt) as f32) as i32 as u32 };
    push_code(out, code, fmt);
}

#[test]
fn sample_bytes_are_exact() {
    let mut v = Vec::new();
    push_sample(&mut v, 1.0, Fmt::integer(16, 16));
    assert_eq!(v, vec![0xFF, 0x7F]);
    v.clear();
    push_sample(&mut v, -1.0, Fmt::integer(16, 16));
    assert_eq!(v, vec![0x01, 0x80]);
    v.clear();
    push_sample(&mut v, 1.0, Fmt::integer(32, 24));
    assert_eq!(v.len(), 4);
    let s = i32::from_le_bytes([v[0], v[1], v[2], v[3]]);
    assert_eq!(s, 0x7FFF_FF00, "24 bits stand at the top of 32");
    v.clear();
    push_sample(&mut v, 0.0, Fmt::integer(32, 24));
    assert_eq!(i32::from_le_bytes([v[0], v[1], v[2], v[3]]), 0);
    v.clear();
    push_sample(&mut v, 99.0, Fmt::integer(16, 16));
    assert_eq!(v, vec![0xFF, 0x7F]);
    v.clear();
    push_sample(&mut v, 0.5, Fmt::float(32));
    assert_eq!(v, 0.5f32.to_le_bytes().to_vec());
}

#[test]
fn three_bytes_hold_24_bits() {
    let fmt = Fmt::integer(24, 24);
    let mut v = Vec::new();
    push_sample(&mut v, 1.0, fmt);
    assert_eq!(v, vec![0xFF, 0xFF, 0x7F]);
    v.clear();
    push_sample(&mut v, -1.0, fmt);
    assert_eq!(v, vec![0x01, 0x00, 0x80]);
    v.clear();
    push_sample(&mut v, 0.0, fmt);
    assert_eq!(v, vec![0, 0, 0]);
    assert_eq!(render(&[0x010203, 0x040506], 2, fmt), vec![3, 2, 1, 6, 5, 4]);
    assert_eq!(render(&[0x010203; 4], 4, fmt).len(), 2 * fmt.bytes_per_frame(2));
}

#[test]
fn labels_tell_formats_apart() {
    let mut all = Vec::new();
    for store in [1, 16, 24, 32, 124] {
        for valid in [1, 16, 24, 32, 241] {
            all.push(Fmt { store, valid, is_float: false });
            all.push(Fmt { store, valid, is_float: true });
        }
    }
    for a in &all {
        for b in &all {
            assert_eq!(a.label() == b.label(), a == b);
        }
    }
}

#[test]
fn rendering_fills_up_with_silence() {
    let fmt = Fmt::integer(16, 16);
    assert_eq!(render(&[0x0102, 0x0304], 4, fmt), vec![0x02, 0x01, 0x04, 0x03, 0, 0, 0, 0]);
    assert_eq!(render(&[0x0102, 0x0304], 1, fmt), vec![0x02, 0x01]);
    assert_eq!(render(&[], 2, Fmt::float(32)).len(), 8);
}

#[test]
fn render_thread_knows_when_to_end() {
    assert_eq!(render_step(true, true, Some(4)), RenderStep::End);
    assert_eq!(render_step(false, false, Some(4)), RenderStep::End);
    assert_eq!(render_step(false, true, None), RenderStep::End);
    assert_eq!(render_step(false, true, Some(0)), RenderStep::Wait);
    assert_eq!(render_step(false, true, Some(441)), RenderStep::Fill(441));
}

#[test]
fn stream_takes_the_first_accepted_format() {
    let rates = render_rates(Some(96_000));
    assert_eq!(rates[0], 96_000);
    assert_eq!(rates.iter().filter(|r| **r == 96_000).count(), 1);
    assert_eq!(rates.len(), 8);
    assert_eq!(render_rates(Some(22_050)).len(), 9);
    let no = [false; 5];
    let third = [false, false, true, true, false];
    assert_eq!(choose_combo(&[96_000, 44_100], &[no, third]), Some((44_100, fmt_pref()[2])));
    assert_eq!(choose_combo(&[96_000], &[no]), None);
    let (kind, text) = stream_format(&[96_000], &[no]).unwrap_err();
    assert_eq!(kind, Fallback::UnsupportedFormat);
    assert_eq!(text, "该设备在独占模式下没有任何可用格式");
    assert_eq!(stream_format(&[48_000], &[third]).unwrap(), (48_000, fmt_pref()[2]));
    assert_eq!(stream_label(44_100, Fmt::integer(32, 24)), "44100/24/32");
}

#[test]
fn running_stream_reports() {
    let mut s = ExclusiveSink::opened("44100/24/32".to_string(), 44_100, 2);
    assert!(s.is_alive());
    assert_eq!(s.format_label(), "44100/24/32");
    assert_eq!((s.sample_rate(), s.channels(), s.played_frames()), (44_100, 2, 0));
    s.refresh(480, true);
    assert_eq!(s.played_frames(), 480);
    assert!(!s.is_alive());
    s.stop();
    assert!(s.stop_requested);
}

#[test]
fn device_error_flag_is_edge_triggered() {
    let mut core = CoreAudio::new();
    assert!(!core.take_device_error());
    core.note_device_error();
    assert!(core.take_device_error());
    assert!(!core.take_device_error());
}

#[test]
fn exclusive_rate_candidates_order() {
    assert_eq!(exclusive_rate_candidates(Some(44_100), Some(48_000)), vec![44_100, 48_000]);
    assert_eq!(exclusive_rate_candidates(Some(48_000), Some(48_000)), vec![48_000, 44_100]);
    assert_eq!(exclusive_rate_candidates(Some(88_200), Some(96_000)), vec![88_200, 96_000, 48_000, 44_100]);
    assert_eq!(exclusive_rate_candidates(None, Some(96_000)), vec![96_000, 48_000, 44_100]);
    assert_eq!(exclusive_rate_candidates(None, None), vec![48_000, 44_100]);
    assert_eq!(exclusive_rate_candidates(Some(0), Some(1)), vec![48_000, 44_100]);
}

#[test]
fn mode_and_device_change_reset_exclusive_denial() {
    let mut core = CoreAudio::new();
    core.exclusive_denied = true;
    assert!(!core.set_mode(OutputMode::Shared));
    assert!(core.exclusive_denied);
    assert!(core.set_mode(OutputMode::Exclusive));
    assert!(!core.exclusive_denied);
    core.exclusive_denied = true;
    assert!(core.set_preferred(Some("dev".into())));
    assert!(!core.exclusive_denied);
    assert!(!core.set_preferred(Some("dev".into())));
}

#[test]
fn exclusive_failure_records_fallback_reason() {
    let mut core = CoreAudio::new();
    assert!(core.set_mode(OutputMode::Exclusive));
    assert!(core.set_preferred(Some("不存在的端点 id".into())));
    assert_eq!(core.begin_player(Some(44_100)), OpenPlan::Exclusive);
    core.exclusive_failed(Fallback::Other);
    assert!(!core.sink_is_some());
    assert!(core.exclusive_denied);
    assert!(core.last_fallback.is_some());
    let st = core.output_status();
    assert!(!st.opened);
    assert_eq!(core.plan_open(Some(44_100)), OpenPlan::Shared);
}

#[test]
fn exclusive_output_is_kept_for_tracks_of_one_rate() {
    let mut core = CoreAudio::new();
    assert!(core.set_mode(OutputMode::Auto));
    assert_eq!(core.begin_player(Some(96_000)), OpenPlan::Exclusive);
    let sink = ExclusiveSink::opened("96000/24/32".to_string(), 96_000, 2);
    core.exclusive_opened(sink, Some(96_000), Some("dac".to_string()), "DAC".to_string());
    assert_eq!(core.begin_player(Some(96_000)), OpenPlan::Ready);
    assert_eq!(core.output_rate(), Some(96_000));
    assert_eq!(core.append_plan(96_000, 2).resample_to, None);
    let st = core.output_status();
    assert_eq!((st.opened, st.backend, st.format.as_deref()), (true, Backend::Exclusive, Some("96000/24/32")));
    assert!(!st.resampling);
    assert_eq!(core.begin_player(Some(44_100)), OpenPlan::Exclusive);
    assert_eq!(core.output_rate(), None);
    assert_eq!(core.endpoint_id().as_deref(), Some("dac"));
    assert_eq!(core.endpoint_name().as_deref(), Some("DAC"));
    assert_eq!(core.preferred_device_id(), None);
}

#[test]
fn forget_fallback_clears_status_and_denial() {
    let mut core = CoreAudio::new();
    core.status = OutputStatus {
        opened: true,
        backend: Backend::Shared,
        format: None,
        fallback: Some("该设备正被其它程序独占".into()),
        output_rate: Some(48_000),
        source_rate: Some(44_100),
        resampling: true,
    };
    core.exclusive_denied = true;
    core.last_fallback = Some("旧原因".into());
    core.forget_fallback();
    let st = core.output_status();
    assert!(!st.opened);
    assert!(st.fallback.is_none());
    assert!(st.output_rate.is_none() && st.source_rate.is_none() && !st.resampling);
    assert!(!core.exclusive_denied);
    assert!(core.last_fallback.is_none());
}

#[test]
fn shared_output_resamples_where_rates_differ() {
    let mut core = CoreAudio::new();
    assert_eq!(core.begin_player(Some(44_100)), OpenPlan::Shared);
    core.shared_opened(SharedConfig { rate: 48_000, channels: 2 }, Some("hp".to_string()), "HP".to_string());
    core.player_created();
    assert!(core.sink_is_some());
    assert_eq!(core.output_rate(), Some(48_000));
    assert_eq!(core.output_channels(), Some(2));
    let plan = core.append_plan(44_100, 6);
    assert!(plan.downmix);
    assert_eq!(plan.resample_to, Some(48_000));
    assert!(core.output_status().resampling);
    let plan = core.append_plan(48_000, 2);
    assert!(!plan.downmix);
    assert_eq!(plan.resample_to, None);
    assert_eq!(core.endpoint_id(), Some("hp".to_string()));
    assert_eq!(core.endpoint_name(), Some("HP".to_string()));
    core.reset_device();
    assert_eq!(core.output_rate(), None);
}

#[test]
fn negotiation_tries_rates_and_formats_in_order() {
    let (mut n, ask) = Negotiation::begin(Some(44_100), Some(48_000));
    assert!(matches!(ask, Ask::Formats { rate: 44_100 }));
    let ask = n.formats_known([false, true, false, false, false]);
    match ask {
        Ask::Start { rate, fmt } => {
            assert_eq!(rate, 44_100);
            assert_eq!(fmt, fmt_pref()[1]);
        }
        _ => panic!("a format was accepted"),
    }
    let ask = n.attempt_failed(OpenFailure { kind: Fallback::UnsupportedFormat, message: "x".to_string() });
    assert!(matches!(ask, Ask::Formats { rate: 48_000 }));
}

#[test]
fn telling_failure_wins() {
    let f = |kind, m: &str| OpenFailure { kind, message: m.to_string() };
    let got = pick_fallback(&[f(Fallback::Other, "a"), f(Fallback::DeviceInUse, "b"), f(Fallback::Other, "c")]);
    assert_eq!(got.unwrap().message, "b");
    let got = pick_fallback(&[f(Fallback::Other, "a"), f(Fallback::Other, "c")]);
    assert_eq!(got.unwrap().message, "a");
    assert!(pick_fallback(&[]).is_none());
}

#[test]
fn misaligned_buffer_is_retried() {
    assert!(matches!(after_init_failure("error 0x88890019"), InitStep::Align));
    match after_init_failure("error 0x8889000A") {
        InitStep::GiveUp(text) => assert!(text.starts_with("error 0x8889000A（") && text.ends_with('）')),
        _ => panic!("no retry helps here"),
    }
}

#[test]
fn formats_follow_the_driver() {
    assert_eq!(supported_formats([false; 5]).len(), 0);
    assert_eq!(formats_to_try([false; 5]), vec![fmt_pref()[0]]);
    assert_eq!(formats_to_try([false, false, true, false, true]), vec![fmt_pref()[2], fmt_pref()[4]]);
    let mut answers = [[false; 5]; 8];
    answers[1][0] = true;
    assert_eq!(supported_combos(answers), vec![(48_000, fmt_pref()[0])]);
    let caps = probe_report(
        "HP".to_string(),
        "id".to_string(),
        true,
        "48000Hz".to_string(),
        supported_combos(answers),
        &[Attempt::Opened],
    );
    assert_eq!(caps.exclusive.len(), 1);
    assert!(caps.init_ok.is_some());
    assert_eq!(describe(44_100, 24, 32, false, 2), "44100Hz 24/32bit PCM 2ch");
}

#[test]
fn hints_and_levels() {
    assert!(Fallback::DeviceInUse.is_device_level());
    assert!(!Fallback::UnsupportedFormat.is_device_level());
    assert_eq!(Fallback::UnsupportedFormat.hint(), "该设备不支持这个采样格式，已回退共享模式");
}

#[test]
fn output_modes_round_trip() {
    for m in [OutputMode::Auto, OutputMode::Exclusive, OutputMode::Shared] {
        assert_eq!(OutputMode::parse(m.as_str()), Some(m));
    }
    assert_eq!(OutputMode::parse("loud"), None);
    assert!(!OutputMode::Shared.allows_exclusive());
    assert!(OutputMode::Auto.allows_exclusive());
}

#[test]
fn unknown_layout_is_rejected() {
    assert!(coeffs_for(1).is_none());
    assert!(coeffs_for(2).is_none());
    assert!(coeffs_for(9).is_none());
    assert!(coeffs_for(6).is_some());
}

#[test]
fn coeff_table_lengths_match() {
    for n in 3..=8usize {
        assert_eq!(coeffs_for(n).unwrap().len(), n);
    }
}

#[test]
fn five_one_layout_keeps_the_centre() {
    let v = coeffs_for(6).unwrap();
    assert_eq!(v[0], Share { left: Gain::Full, right: Gain::Silent });
    assert_eq!(v[2], Share { left: Gain::MinusThreeDb, right: Gain::MinusThreeDb });
    assert_eq!(v[3], Share { left: Gain::Half, right: Gain::Half });
    assert_eq!(v[5], Share { left: Gain::Silent, right: Gain::MinusThreeDb });
}

const D3: f32 = std::f32::consts::FRAC_1_SQRT_2;
const LFE: f32 = 0.5;

fn gain(g: Gain) -> f32 {
    match g {
        Gain::Silent => 0.0,
        Gain::Half => LFE,
        Gain::MinusThreeDb => D3,
        Gain::Full => 1.0,
    }
}

/// Mixes interleaved samples down by the shares of their channels.
fn mixed(samples: &[f32], channels: usize) -> Vec<f32> {
    let shares = coeffs_for(channels).unwrap();
    let mut out = Vec::new();
    for frame in samples.chunks_exact(channels) {
        out.push(frame.iter().zip(&shares).map(|(s, c)| s * gain(c.left)).sum());
        out.push(frame.iter().zip(&shares).map(|(s, c)| s * gain(c.right)).sum());
    }
    out
}

fn ramp(channels: usize, frames: usize) -> Vec<f32> {
    (0..channels * frames).map(|i| (i % channels + 1) as f32 / 16.0).collect()
}

#[test]
fn five_one_downmixes_instead_of_dropping_channels() {
    let out = mixed(&ramp(6, 1), 6);
    assert_eq!(out.len(), 2);
    assert_eq!(stereo_span(6, 6), 2);
    let (fl, fr, fc, lfe, bl, br) = (1.0 / 16.0, 2.0 / 16.0, 3.0 / 16.0, 4.0 / 16.0, 5.0 / 16.0, 6.0 / 16.0);
    let want_l = fl + D3 * fc + LFE * lfe + D3 * bl;
    let want_r = fr + D3 * fc + LFE * lfe + D3 * br;
    assert!((out[0] - want_l).abs() < 1e-6);
    assert!((out[1] - want_r).abs() < 1e-6);
    assert!(out[0] > fl);
}

#[test]
fn interleaving_is_stable_across_frames() {
    let out = mixed(&ramp(6, 2), 6);
    assert_eq!(out.len(), 4);
    assert!((out[0] - out[2]).abs() < 1e-9);
    assert!((out[1] - out[3]).abs() < 1e-9);
    assert_eq!(stereo_span(12, 6), 4);
    assert_eq!(stereo_span(4, 6), 2);
}

fn wav_head() -> Vec<u8> {
    let mut w = Vec::new();
    w.extend_from_slice(b"RIFF");
    w.extend_from_slice(&(36u32 + 8820).to_le_bytes());
    w.extend_from_slice(b"WAVEfmt ");
    w.extend_from_slice(&16u32.to_le_bytes());
    w.extend_from_slice(&1u16.to_le_bytes());
    w.extend_from_slice(&1u16.to_le_bytes());
    w.extend_from_slice(&44_100u32.to_le_bytes());
    w.extend_from_slice(&88_200u32.to_le_bytes());
    w.extend_from_slice(&2u16.to_le_bytes());
    w.extend_from_slice(&16u16.to_le_bytes());
    w.extend_from_slice(b"data");
    w.extend_from_slice(&8820u32.to_le_bytes());
    w.extend_from_slice(&[0u8; 40]);
    w
}

#[test]
fn only_symphonia_formats_use_inline_seek() {
    assert!(inline_seek_is_cheap(&wav_head()), "a wave file seeks in place");
    let mut head = b"DSD ".to_vec();
    head.extend_from_slice(&[0u8; 40]);
    head[28..32].copy_from_slice(b"fmt ");
    assert!(!inline_seek_is_cheap(&head), "DSD does not");
    assert!(!inline_seek_is_cheap(&[0xFFu8, 0xF1, 0x50, 0x80, 0x00, 0x1F, 0xFC]), "nor does ADTS");
}

#[test]
fn sniff_does_not_misroute_vorbis() {
    let mut fake = b"OggS".to_vec();
    fake.extend_from_slice(&[0u8; 40]);
    fake.extend_from_slice(b"\x01vorbis");
    assert!(sniff(&fake).is_none());
    let mut opus = b"OggS".to_vec();
    opus.extend_from_slice(&[0u8; 24]);
    opus.extend_from_slice(b"OpusHead");
    assert_eq!(sniff(&opus), Some(Kind::Opus));
    assert_eq!(sniff(&[0xff, 0xf1, 0x50, 0x80, 0, 0x1f, 0xfc]), Some(Kind::AdtsAac));
    assert_eq!(sniff(b"FRM8aaaaaaaaDSD "), Some(Kind::Dsd));
}

#[test]
fn devices_are_marked() {
    let d = device_info(
        "hp".to_string(),
        "HP".to_string(),
        &Some("hp".to_string()),
        &Some("other".to_string()),
    );
    assert!(d.is_default);
    assert!(!d.is_selected);
}

#[test]
fn sample_arithmetic() {
    assert_eq!(nz_channels(0), 1);
    assert_eq!(nz_channels(2), 2);
    assert_eq!(nz_rate(0), 44_100);
    assert_eq!(nz_rate(48_000), 48_000);
    assert_eq!(samples_before(1_000_000_000, 44_100, 2), 88_200);
    assert_eq!(time_of_samples(88_200, 44_100, 2), 1_000_000_000);
    assert_eq!(time_of_samples(1, 44_100, 1), 22_676, "to the nearest nanosecond");
    assert_eq!(samples_before(0, 44_100, 2), 0);
    assert_eq!(samples_before(1, 44_100, 2), 1);
    assert_eq!(samples_before(u64::MAX, u32::MAX, u16::MAX), u64::MAX);
    for i in 0..20_000u64 {
        let ns = i * 13_000_000 + i % 2;
        let secs = Duration::from_nanos(ns).as_secs_f64();
        for (rate, ch) in [(44_100u32, 2u16), (48_000, 1), (192_000, 6)] {
            let want = (secs * rate as f64 * ch as f64).ceil() as u64;
            assert_eq!(samples_before(ns, rate, ch), want, "{ns}");
            let at = Duration::from_secs_f64(want as f64 / (rate as f64 * ch as f64));
            assert_eq!(time_of_samples(want, rate, ch), at.as_nanos());
        }
    }
}
