use localstream_core::compatibility::{
    decide_playback, ClientCapabilities, DecisionReason, PlaybackMethod, RemuxTarget,
    SubtitleDelivery,
};
use localstream_core::media::{
    AudioTrack, MediaItem, MediaMetadata, ProbeStatus, SubtitleKind, SubtitleMode,
    SubtitleTrack, VideoTrack,
};

fn set(values: &[&str]) -> Vec<String> {
    values.iter().map(|value| (*value).to_owned()).collect()
}

fn mp4_target() -> RemuxTarget {
    RemuxTarget {
        container: "mov".to_owned(),
        video_codecs: set(&["h264", "hevc"]),
        audio_codecs: set(&["aac"]),
    }
}

fn chromium_like() -> ClientCapabilities {
    ClientCapabilities {
        containers: set(&["mov", "webm"]),
        video_codecs: set(&["h264", "vp9", "av1"]),
        audio_codecs: set(&["aac", "opus", "vorbis"]),
        embedded_text_subtitle_codecs: Vec::new(),
        external_webvtt: true,
        embedded_audio_selection: false,
        bitmap_subtitles: false,
        remux_targets: vec![mp4_target()],
    }
}

fn firefox_like() -> ClientCapabilities {
    ClientCapabilities {
        containers: set(&["webm", "mov"]),
        video_codecs: set(&["vp9", "av1", "h264"]),
        audio_codecs: set(&["opus", "vorbis", "aac"]),
        embedded_text_subtitle_codecs: Vec::new(),
        external_webvtt: true,
        embedded_audio_selection: false,
        bitmap_subtitles: false,
        remux_targets: vec![mp4_target()],
    }
}

fn safari_like() -> ClientCapabilities {
    ClientCapabilities {
        containers: set(&["mov"]),
        video_codecs: set(&["h264", "hevc"]),
        audio_codecs: set(&["aac"]),
        embedded_text_subtitle_codecs: set(&["mov_text"]),
        external_webvtt: true,
        embedded_audio_selection: false,
        bitmap_subtitles: false,
        remux_targets: vec![mp4_target()],
    }
}

fn item(container: &str, video_codec: &str, audio_codecs: &[&str]) -> MediaItem {
    MediaItem {
        id: "media".to_owned(),
        title: "Movie".to_owned(),
        extension: "mkv".to_owned(),
        size_bytes: 42,
        probe_status: ProbeStatus::Available,
        selected_audio_track_id: None,
        subtitle_mode: SubtitleMode::Off,
        selected_subtitle_track_id: None,
        metadata: Some(MediaMetadata {
            container: container.to_owned(),
            duration_millis: Some(1_000),
            video: Some(VideoTrack {
                id: "video".to_owned(),
                codec: video_codec.to_owned(),
                width: Some(1920),
                height: Some(1080),
            }),
            audio_tracks: audio_codecs
                .iter()
                .enumerate()
                .map(|(index, codec)| AudioTrack {
                    id: format!("audio-{index}"),
                    codec: (*codec).to_owned(),
                    channels: Some(2),
                    language: None,
                    title: None,
                    is_default: index == 0,
                })
                .collect(),
            subtitle_tracks: Vec::new(),
        }),
    }
}

fn add_subtitle(item: &mut MediaItem, kind: SubtitleKind, codec: &str) {
    item.metadata
        .as_mut()
        .expect("metadata")
        .subtitle_tracks
        .push(SubtitleTrack {
            id: "subtitle".to_owned(),
            codec: codec.to_owned(),
            language: Some("eng".to_owned()),
            title: None,
            is_default: true,
            is_forced: false,
            kind,
        });
    item.subtitle_mode = SubtitleMode::Track;
    item.selected_subtitle_track_id = Some("subtitle".to_owned());
}

#[test]
fn decision_table_covers_representative_browser_profiles_and_mkv_tracks() {
    struct Case {
        name: &'static str,
        item: MediaItem,
        client: ClientCapabilities,
        method: PlaybackMethod,
        reason: DecisionReason,
        subtitles: SubtitleDelivery,
    }

    let direct_mp4 = item("mov", "h264", &["aac"]);
    let mkv_remux = item("matroska", "h264", &["aac"]);
    let mut alternate_audio = item("matroska", "h264", &["aac", "aac"]);
    alternate_audio.selected_audio_track_id = Some("audio-1".to_owned());
    let unsupported_video = item("matroska", "hevc", &["aac"]);
    let unsupported_audio = item("matroska", "h264", &["ac3"]);
    let webm_direct = item("webm", "vp9", &["opus"]);
    let mut text_subtitle = item("mov", "h264", &["aac"]);
    add_subtitle(&mut text_subtitle, SubtitleKind::Text, "subrip");
    let mut bitmap_subtitle = item("mov", "h264", &["aac"]);
    add_subtitle(
        &mut bitmap_subtitle,
        SubtitleKind::Bitmap,
        "hdmv_pgs_subtitle",
    );

    let cases = [
        Case {
            name: "Chromium-like MP4 Direct Play",
            item: direct_mp4,
            client: chromium_like(),
            method: PlaybackMethod::DirectPlay,
            reason: DecisionReason::DirectPlayCompatible,
            subtitles: SubtitleDelivery::Off,
        },
        Case {
            name: "Safari-like MKV container remux",
            item: mkv_remux,
            client: safari_like(),
            method: PlaybackMethod::Remux,
            reason: DecisionReason::ContainerUnsupported,
            subtitles: SubtitleDelivery::Off,
        },
        Case {
            name: "explicit second audio requires remux",
            item: alternate_audio,
            client: safari_like(),
            method: PlaybackMethod::Remux,
            reason: DecisionReason::AudioSelectionRequiresRemux,
            subtitles: SubtitleDelivery::Off,
        },
        Case {
            name: "unsupported HEVC requires transcode",
            item: unsupported_video,
            client: chromium_like(),
            method: PlaybackMethod::Transcode,
            reason: DecisionReason::VideoCodecUnsupported,
            subtitles: SubtitleDelivery::Off,
        },
        Case {
            name: "unsupported AC3 requires transcode",
            item: unsupported_audio,
            client: safari_like(),
            method: PlaybackMethod::Transcode,
            reason: DecisionReason::AudioCodecUnsupported,
            subtitles: SubtitleDelivery::Off,
        },
        Case {
            name: "Firefox-like WebM Direct Play",
            item: webm_direct,
            client: firefox_like(),
            method: PlaybackMethod::DirectPlay,
            reason: DecisionReason::DirectPlayCompatible,
            subtitles: SubtitleDelivery::Off,
        },
        Case {
            name: "text subtitle uses external WebVTT",
            item: text_subtitle,
            client: chromium_like(),
            method: PlaybackMethod::DirectPlay,
            reason: DecisionReason::DirectPlayCompatible,
            subtitles: SubtitleDelivery::ExternalWebVtt,
        },
        Case {
            name: "bitmap subtitle requires burn-in",
            item: bitmap_subtitle,
            client: chromium_like(),
            method: PlaybackMethod::Transcode,
            reason: DecisionReason::BitmapSubtitleRequiresBurnIn,
            subtitles: SubtitleDelivery::BurnIn,
        },
    ];

    for case in cases {
        let decision = decide_playback(&case.item, &case.client);
        assert_eq!(decision.method, case.method, "{}", case.name);
        assert_eq!(decision.reason, case.reason, "{}", case.name);
        assert_eq!(decision.subtitle_delivery, case.subtitles, "{}", case.name);
    }
}

#[test]
fn rejects_missing_metadata_video_and_stale_track_choices() {
    let client = chromium_like();
    let mut missing_metadata = item("mov", "h264", &["aac"]);
    missing_metadata.metadata = None;
    assert_eq!(
        decide_playback(&missing_metadata, &client).reason,
        DecisionReason::MetadataUnavailable
    );

    let mut missing_video = item("mov", "h264", &["aac"]);
    missing_video.metadata.as_mut().unwrap().video = None;
    assert_eq!(
        decide_playback(&missing_video, &client).reason,
        DecisionReason::VideoStreamMissing
    );

    let mut stale_audio = item("mov", "h264", &["aac"]);
    stale_audio.selected_audio_track_id = Some("missing".to_owned());
    assert_eq!(
        decide_playback(&stale_audio, &client).reason,
        DecisionReason::SelectedAudioTrackUnavailable
    );

    let mut stale_subtitle = item("mov", "h264", &["aac"]);
    stale_subtitle.subtitle_mode = SubtitleMode::Track;
    stale_subtitle.selected_subtitle_track_id = Some("missing".to_owned());
    assert_eq!(
        decide_playback(&stale_subtitle, &client).reason,
        DecisionReason::SelectedSubtitleTrackUnavailable
    );
}

#[test]
fn uses_embedded_text_when_available_and_burns_it_when_no_text_path_exists() {
    let mut media = item("mov", "h264", &["aac"]);
    add_subtitle(&mut media, SubtitleKind::Text, "mov_text");
    let mut embedded = safari_like();
    embedded.external_webvtt = false;
    let decision = decide_playback(&media, &embedded);
    assert_eq!(decision.method, PlaybackMethod::DirectPlay);
    assert_eq!(decision.subtitle_delivery, SubtitleDelivery::Embedded);

    embedded.embedded_text_subtitle_codecs.clear();
    let decision = decide_playback(&media, &embedded);
    assert_eq!(decision.method, PlaybackMethod::Transcode);
    assert_eq!(decision.reason, DecisionReason::SubtitleFormatUnsupported);
    assert_eq!(decision.subtitle_delivery, SubtitleDelivery::BurnIn);

    let mut unknown = item("mov", "h264", &["aac"]);
    add_subtitle(&mut unknown, SubtitleKind::Unknown, "mystery_codec");
    let decision = decide_playback(&unknown, &chromium_like());
    assert_eq!(decision.method, PlaybackMethod::Unavailable);
    assert_eq!(decision.reason, DecisionReason::SubtitleFormatUnsupported);
}

#[test]
fn remux_and_transcode_name_the_first_playable_target_container() {
    let mkv = item("matroska", "h264", &["aac"]);
    let decision = decide_playback(&mkv, &safari_like());
    assert_eq!(decision.method, PlaybackMethod::Remux);
    assert_eq!(decision.target_container.as_deref(), Some("mov"));
    assert_eq!(decision.selected_audio_track_id.as_deref(), Some("audio-0"));

    let hevc = item("matroska", "hevc", &["aac"]);
    let decision = decide_playback(&hevc, &chromium_like());
    assert_eq!(decision.method, PlaybackMethod::Transcode);
    assert_eq!(decision.target_container.as_deref(), Some("mov"));

    let mut no_target = chromium_like();
    no_target.remux_targets.clear();
    let decision = decide_playback(&mkv, &no_target);
    assert_eq!(decision.method, PlaybackMethod::Transcode);
    assert_eq!(decision.reason, DecisionReason::NoCompatibleRemuxTarget);
    assert_eq!(decision.target_container, None);
}

#[test]
fn codec_names_compare_without_ascii_case_and_default_audio_is_preferred() {
    let mut media = item("MOV", "H264", &["ac3", "AAC"]);
    if let Some(metadata) = media.metadata.as_mut() {
        metadata.audio_tracks[0].is_default = false;
        metadata.audio_tracks[1].is_default = true;
    }
    let decision = decide_playback(&media, &chromium_like());
    assert_eq!(decision.method, PlaybackMethod::DirectPlay);
    assert_eq!(decision.selected_audio_track_id.as_deref(), Some("audio-1"));

    let mut automatic = item("mov", "h264", &["aac"]);
    add_subtitle(&mut automatic, SubtitleKind::Text, "subrip");
    automatic.subtitle_mode = SubtitleMode::Automatic;
    let decision = decide_playback(&automatic, &chromium_like());
    assert_eq!(decision.selected_subtitle_track_id.as_deref(), Some("subtitle"));
    assert_eq!(decision.subtitle_delivery, SubtitleDelivery::ExternalWebVtt);
}
