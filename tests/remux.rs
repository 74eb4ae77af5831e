use libcut_ts::cut::{plan_cut, CutAction, CutSession};
use libcut_ts::finalize::{audio_dir, commit_plan, decimal_string, final_path, temp_path};
use libcut_ts::media::{Delivery, MediaKind, PacketInfo, TimeBase, TrackInfo};
use libcut_ts::rescale::rescale;
use libcut_ts::routing::{RoutePolicy, Routing};
use libcut_ts::split::{plan_split, SplitAction, SplitSession};
use libcut_ts::trim::{TrimMode, TrimState, Verdict};

fn ms() -> TimeBase {
    TimeBase::new(1, 1000)
}

fn track(kind: MediaKind) -> TrackInfo {
    TrackInfo { kind, time_base: ms() }
}

fn pkt(track: usize, pts_ms: i64, key: bool) -> PacketInfo {
    PacketInfo { track, pts: Some(pts_ms), dts: Some(pts_ms), key }
}

/// One video packet per second (keyframes at 0, 4, 8, 12 s) for `secs`
/// seconds, each followed by an audio packet of the same time.
fn av_stream(secs: i64) -> Vec<PacketInfo> {
    let mut v = Vec::new();
    for s in 0..secs {
        v.push(pkt(0, s * 1000, s % 4 == 0));
        v.push(pkt(1, s * 1000, true));
    }
    v
}

fn written_packets(plan: &[Delivery]) -> Vec<usize> {
    plan.iter().map(|d| d.packet).collect()
}

#[test]
fn rescale_exact_values() {
    assert_eq!(rescale(90000, TimeBase::new(1, 90000), TimeBase::new(1, 1000)), Some(1000));
    assert_eq!(rescale(3, TimeBase::new(1, 1000), TimeBase::new(1, 90000)), Some(270));
    assert_eq!(rescale(1, TimeBase::new(1, 3), TimeBase::new(1, 1)), Some(0));
    assert_eq!(rescale(2, TimeBase::new(1, 3), TimeBase::new(1, 1)), Some(1));
}

#[test]
fn rescale_rounds_halves_away_from_zero() {
    assert_eq!(rescale(1, TimeBase::new(1, 2), TimeBase::new(1, 1)), Some(1));
    assert_eq!(rescale(-1, TimeBase::new(1, 2), TimeBase::new(1, 1)), Some(-1));
    assert_eq!(rescale(-2, TimeBase::new(1, 3), TimeBase::new(1, 1)), Some(-1));
}

#[test]
fn rescale_within_half_unit() {
    // t·a·d / (b·c) with (a,b) = (1001, 30000), (c,d) = (1, 90000)
    let (a, b, c, d) = (1001i128, 30000i128, 1i128, 90000i128);
    for t in [0i64, 1, 7, 12345, -12345, 999_999_937] {
        let r = rescale(t, TimeBase::new(1001, 30000), TimeBase::new(1, 90000)).unwrap() as i128;
        let err = (r * b * c - t as i128 * a * d).abs();
        assert!(err * 2 <= b * c);
    }
}

#[test]
fn rescale_rejects_bad_bases_and_overflow() {
    assert_eq!(rescale(5, TimeBase::new(0, 1), ms()), None);
    assert_eq!(rescale(5, ms(), TimeBase::new(1, 0)), None);
    assert_eq!(rescale(5, TimeBase::new(-1, 1000), ms()), None);
    assert_eq!(rescale(i64::MAX, TimeBase::new(1, 1), TimeBase::new(1, 2)), None);
    assert_eq!(rescale(i64::MIN, TimeBase::new(1, 1), TimeBase::new(1, 1)), None);
    assert_eq!(rescale(i64::MAX, TimeBase::new(1, 1), TimeBase::new(1, 1)), Some(i64::MAX));
}

#[test]
fn routing_for_cut_keeps_media_tracks_in_order() {
    let tracks = vec![
        track(MediaKind::Other),
        track(MediaKind::Audio),
        track(MediaKind::Video),
        track(MediaKind::Subtitle),
        track(MediaKind::Video),
    ];
    let r = Routing::new(&tracks, RoutePolicy::AllMedia);
    assert_eq!(r.routes, vec![None, Some(0), Some(1), Some(2), Some(3)]);
    assert_eq!(r.outputs, 4);
    assert_eq!(r.video, Some(2));
    assert_eq!(r.destination(9), None);
}

#[test]
fn routing_for_split_keeps_audio_only() {
    let tracks = vec![
        track(MediaKind::Audio),
        track(MediaKind::Video),
        track(MediaKind::Audio),
        track(MediaKind::Subtitle),
    ];
    let r = Routing::new(&tracks, RoutePolicy::AudioOnly);
    assert_eq!(r.routes, vec![Some(0), None, Some(1), None]);
    assert_eq!(r.outputs, 2);
    assert_eq!(r.video, Some(1));
}

#[test]
fn trim_state_skips_to_keyframe_then_halts() {
    let mut s = TrimState::new(5_000_000, 6_000_000, ms());
    assert_eq!(s.on_video(1000, true), Verdict::Drop);
    assert_eq!(s.stream_start, Some(1000));
    assert_eq!(s.on_other(), Verdict::Drop);
    assert_eq!(s.on_video(5000, true), Verdict::Drop);
    assert_eq!(s.on_video(6000, false), Verdict::Drop);
    assert_eq!(s.on_video(6500, true), Verdict::Forward);
    assert_eq!(s.mode, TrimMode::Forwarding);
    assert_eq!(s.segment_start, 6500);
    assert_eq!(s.on_other(), Verdict::Forward);
    assert_eq!(s.on_video(12500, false), Verdict::Forward);
    assert_eq!(s.on_video(12501, false), Verdict::Halt);
    assert_eq!(s.mode, TrimMode::Halted);
    assert_eq!(s.on_other(), Verdict::Halt);
    assert_eq!(s.on_video(0, true), Verdict::Halt);
}

#[test]
fn cut_starts_at_first_keyframe_after_skip_and_keeps_duration() {
    let tracks = vec![track(MediaKind::Video), track(MediaKind::Audio)];
    let packets = av_stream(16);
    let plan = plan_cut(&tracks, &packets, 5_000_000, 6_000_000);
    // first written: the video keyframe at 8 s (packet 16)
    assert_eq!(plan[0], Delivery { packet: 16, output: 0 });
    // video 8..=14 s and their audio; the video packet at 15 s ends the run
    let expected: Vec<usize> = (16..30).collect();
    assert_eq!(written_packets(&plan), expected);
    for d in &plan {
        assert_eq!(d.output, packets[d.packet].track);
    }
}

#[test]
fn cut_without_video_writes_nothing() {
    let tracks = vec![track(MediaKind::Audio), track(MediaKind::Subtitle)];
    let mut packets = Vec::new();
    for s in 0..20 {
        packets.push(pkt(0, s * 1000, true));
        packets.push(pkt(1, s * 1000, true));
    }
    let plan = plan_cut(&tracks, &packets, 5_000_000, 6_000_000);
    assert!(plan.is_empty());
}

#[test]
fn cut_unbounded_from_start_copies_everything() {
    let tracks = vec![track(MediaKind::Video), track(MediaKind::Audio), track(MediaKind::Other)];
    let mut packets = av_stream(10);
    packets.push(pkt(2, 500, false));
    packets.push(pkt(1, 11_000, true));
    let plan = plan_cut(&tracks, &packets, 0, 0);
    let mut expected: Vec<usize> = (0..20).collect();
    expected.push(21);
    assert_eq!(written_packets(&plan), expected);
}

#[test]
fn cut_unbounded_with_negative_duration() {
    let tracks = vec![track(MediaKind::Video), track(MediaKind::Audio)];
    let packets = av_stream(12);
    let plan = plan_cut(&tracks, &packets, 3_000_000, -1);
    // keyframe at 4 s is packet 8; everything after is written
    let expected: Vec<usize> = (8..24).collect();
    assert_eq!(written_packets(&plan), expected);
}

#[test]
fn cut_skip_is_relative_to_first_video_packet() {
    let tracks = vec![track(MediaKind::Audio), track(MediaKind::Video)];
    let packets = vec![
        pkt(0, 100, true),
        pkt(1, 10_000, true),
        pkt(1, 11_000, true),
        pkt(0, 11_000, true),
        pkt(1, 12_000, true),
        pkt(0, 12_000, true),
    ];
    let plan = plan_cut(&tracks, &packets, 2_000_000, 0);
    assert_eq!(plan, vec![Delivery { packet: 4, output: 1 }, Delivery { packet: 5, output: 0 }]);
}

#[test]
fn cut_keeps_track_order() {
    let tracks = vec![track(MediaKind::Video), track(MediaKind::Audio)];
    let packets = av_stream(16);
    let plan = plan_cut(&tracks, &packets, 0, 9_000_000);
    for w in plan.windows(2) {
        assert!(w[0].packet < w[1].packet);
    }
    let audio_times: Vec<i64> = plan
        .iter()
        .filter(|d| d.output == 1)
        .map(|d| packets[d.packet].pts.unwrap())
        .collect();
    let expected: Vec<i64> = (0..10).map(|s| s * 1000).collect();
    assert_eq!(audio_times, expected);
}

#[test]
fn cut_session_rescales_written_packets() {
    let tracks = vec![
        TrackInfo { kind: MediaKind::Video, time_base: TimeBase::new(1, 90000) },
        TrackInfo { kind: MediaKind::Other, time_base: ms() },
        TrackInfo { kind: MediaKind::Audio, time_base: TimeBase::new(1, 48000) },
    ];
    let mut s = CutSession::new(&tracks, 0, 0);
    assert_eq!(s.outputs(), 2);
    let out = vec![TimeBase::new(1, 1000), TimeBase::new(1, 1000)];
    let v = PacketInfo { track: 0, pts: Some(180000), dts: Some(177000), key: true };
    assert_eq!(s.on_packet(&v, &out), CutAction::Write { stream: 0, pts: Some(2000), dts: Some(1967) });
    let o = PacketInfo { track: 1, pts: Some(5), dts: None, key: true };
    assert_eq!(s.on_packet(&o, &out), CutAction::Drop);
    let a = PacketInfo { track: 2, pts: Some(96000), dts: None, key: true };
    assert_eq!(s.on_packet(&a, &out), CutAction::Write { stream: 1, pts: Some(2000), dts: None });
}

#[test]
fn cut_session_stops_past_duration() {
    let tracks = vec![track(MediaKind::Video)];
    let mut s = CutSession::new(&tracks, 0, 1_000_000);
    let out = vec![ms()];
    assert!(matches!(s.on_packet(&pkt(0, 0, true), &out), CutAction::Write { .. }));
    assert!(matches!(s.on_packet(&pkt(0, 1000, false), &out), CutAction::Write { .. }));
    assert_eq!(s.on_packet(&pkt(0, 1001, false), &out), CutAction::Stop);
}

#[test]
fn absent_pts_counts_as_zero() {
    let tracks = vec![track(MediaKind::Video)];
    let packets = vec![
        PacketInfo { track: 0, pts: None, dts: None, key: true },
        pkt(0, 500, true),
        pkt(0, 1000, true),
    ];
    let plan = plan_cut(&tracks, &packets, 1_000_000, 0);
    assert_eq!(written_packets(&plan), vec![2]);
}

#[test]
fn split_three_audio_tracks() {
    let tracks = vec![
        track(MediaKind::Audio),
        track(MediaKind::Video),
        track(MediaKind::Audio),
        track(MediaKind::Audio),
    ];
    let mut packets = Vec::new();
    for s in 0..5 {
        for t in 0..4 {
            packets.push(pkt(t, s * 1000, s == 0));
        }
    }
    let session = SplitSession::new(&tracks);
    assert_eq!(session.outputs(), 3);
    let plan = plan_split(&tracks, &packets);
    assert_eq!(plan.len(), 15);
    for d in &plan {
        let t = packets[d.packet].track;
        assert_ne!(t, 1);
        let want = match t {
            0 => 0,
            2 => 1,
            _ => 2,
        };
        assert_eq!(d.output, want);
    }
    for (i, p) in packets.iter().enumerate() {
        let written = plan.iter().any(|d| d.packet == i);
        assert_eq!(written, p.track != 1);
    }
    assert_eq!(audio_dir("base", 0), "base/audio_0");
    assert_eq!(audio_dir("base", 1), "base/audio_1");
    assert_eq!(audio_dir("base", 2), "base/audio_2");
}

#[test]
fn split_without_audio_has_no_outputs() {
    let tracks = vec![track(MediaKind::Video), track(MediaKind::Subtitle)];
    let packets = vec![pkt(0, 0, true), pkt(1, 0, true)];
    assert_eq!(SplitSession::new(&tracks).outputs(), 0);
    assert!(plan_split(&tracks, &packets).is_empty());
}

#[test]
fn split_session_actions() {
    let tracks = vec![
        track(MediaKind::Video),
        TrackInfo { kind: MediaKind::Audio, time_base: TimeBase::new(1, 44100) },
    ];
    let s = SplitSession::new(&tracks);
    let out = vec![TimeBase::new(1, 90000)];
    assert_eq!(s.on_packet(&pkt(0, 0, true), &out), SplitAction::Drop);
    let a = PacketInfo { track: 1, pts: Some(44100), dts: Some(22050), key: true };
    assert_eq!(
        s.on_packet(&a, &out),
        SplitAction::Write { output: 0, pts: Some(90000), dts: Some(45000) }
    );
    assert_eq!(s.destination(1), Some(0));
    assert_eq!(s.destination(0), None);
    assert_eq!(s.destination(7), None);
}

#[test]
fn output_paths() {
    assert_eq!(decimal_string(0), "0");
    assert_eq!(decimal_string(7), "7");
    assert_eq!(decimal_string(10), "10");
    assert_eq!(decimal_string(1234567), "1234567");
    assert_eq!(audio_dir("/data/out", 12), "/data/out/audio_12");
    assert_eq!(temp_path("/d/audio_0", "seg"), "/d/audio_0/seg.tmp.ts");
    assert_eq!(final_path("/d/audio_0", "seg"), "/d/audio_0/seg.ts");
}

#[test]
fn commit_only_after_every_trailer() {
    assert_eq!(commit_plan(&vec![true, true, true]), vec![0, 1, 2]);
    assert!(commit_plan(&vec![true, false, true]).is_empty());
    assert!(commit_plan(&vec![false]).is_empty());
    assert!(commit_plan(&vec![]).is_empty());
}
