use localstream_core::compatibility::{
    DecisionReason, PlaybackDecision, PlaybackMethod, SubtitleDelivery,
};
use localstream_core::media::SubtitleKind;
use localstream_core::media_jobs::MediaJobSubmitError;
use localstream_core::transforms::{
    build_arguments, build_request, escape_filter_path, is_asset_name, plan_hls, plan_remux,
    plan_transcode, remux_arguments, CommandArg, HlsError, HlsVideoMode, RemuxContainer,
    RemuxError, RemuxSource, SourceLocation, TranscodeError, TranscodeProfile, TranscodeSource,
    TranscodeSubtitle,
};

fn render(arguments: &[CommandArg], input: &str, output: &str, segments: &str) -> Vec<String> {
    arguments
        .iter()
        .map(|argument| match argument {
            CommandArg::Text(text) => text.clone(),
            CommandArg::InputPath => input.to_owned(),
            CommandArg::OutputPath => output.to_owned(),
            CommandArg::SegmentPattern => segments.to_owned(),
        })
        .collect()
}

#[test]
fn accepts_only_fixed_hls_asset_names() {
    assert!(is_asset_name("index.m3u8"));
    assert!(is_asset_name("segment-000001.ts"));
    for invalid in [
        "../index.m3u8",
        "segment-1.ts",
        "segment-000001.ts.exe",
        "segment-abcdef.ts",
        "other.m3u8",
    ] {
        assert!(!is_asset_name(invalid));
    }
}

#[test]
fn h264_profile_copies_video_and_converts_only_audio() {
    let arguments = build_arguments(0, Some(2), HlsVideoMode::Copy);
    let arguments = render(&arguments, "movie.mkv", "index.m3u8", "segment-%06d.ts");
    assert!(arguments.windows(2).any(|pair| pair == ["-c:v", "copy"]));
    assert!(arguments.windows(2).any(|pair| pair == ["-c:a", "aac"]));
    assert!(!arguments.iter().any(|value| value == "libx264"));
    assert!(arguments.iter().any(|value| value == "0:2"));
}

#[test]
fn hls_transcode_without_audio_has_exact_command_line() {
    let arguments = build_arguments(3, None, HlsVideoMode::Transcode);
    let arguments = render(&arguments, "in.mkv", "out/index.m3u8", "out/segment-%06d.ts");
    let expected = [
        "-v", "error", "-nostdin", "-y", "-i", "in.mkv", "-map", "0:3", "-sn", "-dn", "-c:v",
        "libx264", "-preset", "veryfast", "-crf", "23", "-pix_fmt", "yuv420p",
        "-force_key_frames", "expr:gte(t,n_forced*4)", "-f", "hls", "-hls_time", "4",
        "-hls_list_size", "0", "-hls_playlist_type", "event", "-hls_flags",
        "independent_segments+temp_file", "-hls_segment_filename", "out/segment-%06d.ts",
        "out/index.m3u8",
    ];
    assert_eq!(arguments, expected);
}

#[test]
fn hls_plans_copy_or_transcode_with_reservation_and_key() {
    let copy = plan_hls("movie", 100, 0, "H264", Some(2), SourceLocation::Inside).expect("plan should succeed");
    assert_eq!(copy.video_mode, HlsVideoMode::Copy);
    assert_eq!(copy.reservation, 100 + 16 * 1024 * 1024);
    assert_eq!(copy.key.as_str(), "hls:movie:0:2:copy");
    let transcode = plan_hls("movie", 100, 1, "hevc", None, SourceLocation::Inside).expect("plan should succeed");
    assert_eq!(transcode.video_mode, HlsVideoMode::Transcode);
    assert_eq!(transcode.reservation, 200 + 16 * 1024 * 1024);
    assert_eq!(transcode.key.as_str(), "hls:movie:1:-:h264");
    assert!(matches!(plan_hls("movie", u64::MAX, 0, "hevc", None, SourceLocation::Inside), Err(HlsError::UnsupportedInput)));
    assert!(matches!(
        plan_hls(&"m".repeat(600), 1, 0, "h264", None, SourceLocation::Inside),
        Err(HlsError::Job(MediaJobSubmitError::InvalidKey))
    ));
    assert_eq!((copy.timeout_seconds, copy.output_limit), (4 * 60 * 60, 1024 * 1024));
    assert!(matches!(
        plan_hls("movie", 100, 0, "h264", None, SourceLocation::Outside),
        Err(HlsError::OutsideApprovedLibrary)
    ));
    assert!(matches!(
        plan_hls("movie", 100, 0, "h264", None, SourceLocation::Unavailable),
        Err(HlsError::Unavailable)
    ));
}

fn decision(method: PlaybackMethod, target: &str, delivery: SubtitleDelivery) -> PlaybackDecision {
    PlaybackDecision {
        method,
        reason: DecisionReason::ContainerUnsupported,
        target_container: Some(target.to_owned()),
        selected_audio_track_id: None,
        selected_subtitle_track_id: None,
        subtitle_delivery: delivery,
    }
}

fn remux_source(subtitle_codec: Option<&str>) -> RemuxSource {
    RemuxSource {
        media_id: "opaque".to_owned(),
        source_size_bytes: 10,
        video_index: 0,
        audio_index: Some(2),
        subtitle_index: subtitle_codec.map(|_| 3),
        subtitle_codec: subtitle_codec.map(str::to_owned),
    }
}

#[test]
fn remux_plans_only_supported_requests() {
    let remux = decision(PlaybackMethod::Remux, "WebM", SubtitleDelivery::Embedded);
    let plan = plan_remux(&remux, &remux_source(Some("webvtt")), SourceLocation::Inside)
        .expect("remux should plan");
    assert_eq!(plan.container, RemuxContainer::Webm);
    assert_eq!(plan.reservation, 10 + 1024 * 1024);
    assert_eq!(plan.key.as_str(), "remux:opaque:webm:0:2:3");
    assert_eq!((plan.timeout_seconds, plan.output_limit), (2 * 60 * 60, 1024 * 1024));
    let transcode = decision(PlaybackMethod::Transcode, "mp4", SubtitleDelivery::Off);
    assert_eq!(
        plan_remux(&transcode, &remux_source(None), SourceLocation::Inside).err(),
        Some(RemuxError::UnsupportedInput)
    );
    let avi = decision(PlaybackMethod::Remux, "avi", SubtitleDelivery::Off);
    assert_eq!(
        plan_remux(&avi, &remux_source(None), SourceLocation::Inside).err(),
        Some(RemuxError::UnsupportedTarget)
    );
    let mp4 = decision(PlaybackMethod::Remux, "mp4", SubtitleDelivery::Embedded);
    assert_eq!(
        plan_remux(&mp4, &remux_source(Some("webvtt")), SourceLocation::Inside).err(),
        Some(RemuxError::UnsupportedInput)
    );
    assert_eq!(
        plan_remux(&mp4, &remux_source(Some("TX3G")), SourceLocation::Outside).err(),
        Some(RemuxError::OutsideApprovedLibrary)
    );
    assert_eq!(
        plan_remux(&mp4, &remux_source(None), SourceLocation::Unavailable).err(),
        Some(RemuxError::Unavailable)
    );
}

#[test]
fn remux_command_line_copies_selected_streams() {
    let arguments = remux_arguments(&remux_source(Some("mov_text")), RemuxContainer::Mp4);
    let arguments = render(&arguments, "in.mkv", "output.mp4", "");
    let expected = [
        "-v", "error", "-nostdin", "-y", "-i", "in.mkv", "-map", "0:0", "-map", "0:2", "-map",
        "0:3", "-c", "copy", "-movflags", "+faststart", "-f", "mp4", "output.mp4",
    ];
    assert_eq!(arguments, expected);
}

fn transcode_source(subtitle: Option<TranscodeSubtitle>) -> TranscodeSource {
    TranscodeSource {
        media_id: "opaque".to_owned(),
        source_size_bytes: 1024,
        video_index: 0,
        audio_index: Some(2),
        subtitle,
    }
}

#[test]
fn transcode_plans_check_target_subtitle_and_reservation() {
    let subtitle = TranscodeSubtitle { source_index: 3, subtitle_ordinal: 0, kind: SubtitleKind::Text };
    let burn = decision(PlaybackMethod::Transcode, "mp4", SubtitleDelivery::BurnIn);
    let plan = plan_transcode(&burn, &transcode_source(Some(subtitle)), SourceLocation::Inside)
        .expect("transcode should plan");
    assert_eq!(plan.profile, TranscodeProfile::H264Aac);
    assert_eq!(plan.reservation, 8 * 1024 * 1024);
    assert_eq!(plan.key.as_str(), "transcode:opaque:h264-aac:0:2:3:BurnIn");
    let direct = decision(PlaybackMethod::DirectPlay, "mp4", SubtitleDelivery::Off);
    assert_eq!(
        plan_transcode(&direct, &transcode_source(None), SourceLocation::Inside).err(),
        Some(TranscodeError::UnsupportedInput)
    );
    let avi = decision(PlaybackMethod::Transcode, "avi", SubtitleDelivery::Off);
    assert_eq!(
        plan_transcode(&avi, &transcode_source(None), SourceLocation::Inside).err(),
        Some(TranscodeError::UnsupportedTarget)
    );
    let embedded = decision(PlaybackMethod::Transcode, "webm", SubtitleDelivery::Embedded);
    assert_eq!(
        plan_transcode(&embedded, &transcode_source(None), SourceLocation::Inside).err(),
        Some(TranscodeError::UnsupportedInput)
    );
    let off = decision(PlaybackMethod::Transcode, "webm", SubtitleDelivery::Off);
    let mut large = transcode_source(None);
    large.source_size_bytes = 10 * 1024 * 1024;
    let plan = plan_transcode(&off, &large, SourceLocation::Inside).expect("transcode should plan");
    assert_eq!(plan.profile, TranscodeProfile::Vp9Opus);
    assert_eq!(plan.reservation, 20 * 1024 * 1024);
    assert_eq!(plan.key.as_str(), "transcode:opaque:vp9-opus:0:2:-:Off");
    large.source_size_bytes = u64::MAX;
    assert_eq!(
        plan_transcode(&off, &large, SourceLocation::Inside).err(),
        Some(TranscodeError::UnsupportedInput)
    );
}

#[test]
fn transcode_command_lines_burn_or_embed_subtitles() {
    let text = TranscodeSubtitle { source_index: 3, subtitle_ordinal: 1, kind: SubtitleKind::Text };
    let arguments = build_request(
        &transcode_source(Some(text)),
        TranscodeProfile::H264Aac,
        SubtitleDelivery::BurnIn,
        "C:\\media\\a,b.mkv",
    );
    assert_eq!((arguments.timeout_seconds, arguments.output_limit), (4 * 60 * 60, 1024 * 1024));
    let arguments = render(&arguments.arguments, "in.mkv", "output.mp4", "");
    let expected = [
        "-v", "error", "-nostdin", "-y", "-i", "in.mkv", "-filter_complex",
        "subtitles=filename='C\\:\\\\media\\\\a\\,b.mkv':si=1", "-map", "0:2", "-c:v", "libx264",
        "-preset", "veryfast", "-crf", "28", "-c:a", "aac", "-b:a", "128k", "-pix_fmt", "yuv420p",
        "-movflags", "+faststart", "-f", "mp4", "output.mp4",
    ];
    assert_eq!(arguments, expected);

    let bitmap = TranscodeSubtitle { source_index: 4, subtitle_ordinal: 0, kind: SubtitleKind::Bitmap };
    let arguments = build_request(
        &transcode_source(Some(bitmap)),
        TranscodeProfile::Vp9Opus,
        SubtitleDelivery::BurnIn,
        "in.mkv",
    );
    let arguments = render(&arguments.arguments, "in.mkv", "output.webm", "");
    assert!(arguments.windows(2).any(|pair| pair == ["-filter_complex", "[0:0][0:4]overlay"]));
    assert!(!arguments.iter().any(|value| value == "-c:s"));

    let arguments = build_request(
        &transcode_source(Some(bitmap)),
        TranscodeProfile::Vp9Opus,
        SubtitleDelivery::Embedded,
        "in.mkv",
    );
    let arguments = render(&arguments.arguments, "in.mkv", "output.webm", "");
    assert!(arguments.windows(2).any(|pair| pair == ["-map", "0:4"]));
    assert!(arguments.windows(2).any(|pair| pair == ["-c:s", "webvtt"]));
    assert!(!arguments.iter().any(|value| value == "-pix_fmt"));
}

#[test]
fn escapes_filter_special_characters() {
    assert_eq!(escape_filter_path("a:b'c,d;e[f]g\\h"), "a\\:b\\'c\\,d\\;e\\[f\\]g\\\\h");
    assert_eq!(escape_filter_path("plain.mkv"), "plain.mkv");
}

#[test]
fn only_the_preparing_client_owns_an_hls_session() {
    let mut owners = localstream_core::transforms::HlsOwners::new();
    assert!(!owners.owns("alice", 1));
    owners.assign(1, "alice");
    owners.assign(2, "bob");
    assert!(owners.owns("alice", 1));
    assert!(!owners.owns("bob", 1));
    assert!(owners.owns("bob", 2));
    owners.assign(1, "carol");
    assert!(!owners.owns("alice", 1));
    assert!(owners.owns("carol", 1));
    owners.remove(1);
    assert!(!owners.owns("carol", 1));
    assert!(owners.owns("bob", 2));
}
