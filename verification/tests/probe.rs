use localstream_core::media::SubtitleKind;
use localstream_core::probe::{
    classify_subtitle, clean_label, normalize_container, normalize_probe, ProbeError,
    ProbeFormat, ProbeOutput, ProbeStream,
};

fn stream(index: u32, codec_type: &str, codec_name: &str) -> ProbeStream {
    ProbeStream {
        index,
        codec_type: Some(codec_type.to_string()),
        codec_name: Some(codec_name.to_string()),
        width: None,
        height: None,
        channels: None,
        language: None,
        title: None,
        default_disposition: 0,
        forced_disposition: 0,
    }
}

fn format(name: &str, duration_millis: Option<u64>) -> Option<ProbeFormat> {
    Some(ProbeFormat { format_name: Some(name.to_string()), duration_millis })
}

#[test]
fn normalizes_dual_audio_and_text_bitmap_subtitles() {
    let mut video = stream(0, "video", "h264");
    video.width = Some(1920);
    video.height = Some(1080);
    let mut stereo = stream(1, "audio", "aac");
    stereo.channels = Some(2);
    stereo.language = Some("eng".to_string());
    stereo.title = Some("Stereo".to_string());
    stereo.default_disposition = 1;
    let mut surround = stream(2, "audio", "ac3");
    surround.channels = Some(6);
    surround.language = Some("por".to_string());
    let mut text = stream(3, "subtitle", "subrip");
    text.language = Some("eng".to_string());
    text.forced_disposition = 1;
    let mut bitmap = stream(4, "subtitle", "hdmv_pgs_subtitle");
    bitmap.language = Some("por".to_string());
    let output = ProbeOutput {
        streams: vec![video, stereo, surround, text, bitmap],
        format: format("matroska,webm", Some(62_125)),
    };
    let result = normalize_probe("media-id", output).expect("fixture should parse");
    assert_eq!(result.metadata.container, "matroska");
    assert_eq!(result.metadata.duration_millis, Some(62_125));
    assert_eq!(result.metadata.audio_tracks.len(), 2);
    assert!(result.metadata.audio_tracks[0].is_default);
    assert_eq!(result.metadata.subtitle_tracks[0].kind, SubtitleKind::Text);
    assert!(result.metadata.subtitle_tracks[0].is_forced);
    assert_eq!(result.metadata.subtitle_tracks[1].kind, SubtitleKind::Bitmap);
    assert_eq!(result.mappings[4].source_index, 4);
    assert!(result.mappings.iter().all(|mapping| !mapping.id.contains("media-id")));
}

#[test]
fn tolerates_missing_streams_and_tags() {
    let result = normalize_probe(
        "id",
        ProbeOutput { streams: Vec::new(), format: format("mov,mp4,m4a,3gp,3g2,mj2", None) },
    )
    .expect("empty stream set is valid");
    assert_eq!(result.metadata.container, "mov");
    assert!(result.metadata.video.is_none());
    assert!(result.metadata.audio_tracks.is_empty());
}

#[test]
fn rejects_malformed_or_missing_format_output() {
    assert!(matches!(
        normalize_probe("id", ProbeOutput { streams: Vec::new(), format: None }),
        Err(ProbeError::Malformed)
    ));
    assert!(matches!(
        normalize_probe("id", ProbeOutput { streams: Vec::new(), format: format("  ,mp4", None) }),
        Err(ProbeError::Malformed)
    ));
}

#[test]
fn refuses_more_streams_than_the_limit() {
    let streams = (0..257).map(|i| stream(i, "audio", "aac")).collect();
    assert!(matches!(
        normalize_probe("id", ProbeOutput { streams, format: format("mp4", None) }),
        Err(ProbeError::TooManyStreams)
    ));
    let streams = (0..256).map(|i| stream(i, "audio", "aac")).collect();
    let result = normalize_probe("id", ProbeOutput { streams, format: format("mp4", None) })
        .expect("the limit itself is accepted");
    assert_eq!(result.metadata.audio_tracks.len(), 256);
}

#[test]
fn keeps_only_the_first_video_and_skips_incomplete_streams() {
    let mut untyped = stream(2, "audio", "aac");
    untyped.codec_type = None;
    let mut uncoded = stream(3, "audio", "aac");
    uncoded.codec_name = Some("   ".to_string());
    let output = ProbeOutput {
        streams: vec![
            stream(0, "video", "h264"),
            stream(1, "video", "hevc"),
            untyped,
            uncoded,
            stream(4, "data", "bin_data"),
            stream(5, "attachment", "ttf"),
        ],
        format: format("MOV", Some(1)),
    };
    let result = normalize_probe("id", output).expect("probe should read");
    assert_eq!(result.metadata.container, "mov");
    assert_eq!(result.metadata.video.as_ref().map(|v| v.codec.as_str()), Some("h264"));
    assert_eq!(result.mappings.len(), 1);
    assert_eq!(result.mappings[0].kind, "video");
    assert_eq!(result.mappings[0].source_index, 0);
}

#[test]
fn track_identifiers_are_stable_and_distinct() {
    let make = || ProbeOutput {
        streams: vec![stream(0, "video", "h264"), stream(1, "audio", "aac")],
        format: format("mp4", None),
    };
    let first = normalize_probe("media", make()).expect("probe should read");
    let second = normalize_probe("media", make()).expect("probe should read");
    let other = normalize_probe("other", make()).expect("probe should read");
    assert_eq!(first.mappings, second.mappings);
    assert_ne!(first.mappings[0].id, first.mappings[1].id);
    assert_ne!(first.mappings[0].id, other.mappings[0].id);
    assert_eq!(first.mappings[0].id.len(), 36);
    assert_eq!(
        first.metadata.video.as_ref().map(|v| v.id.clone()),
        Some(first.mappings[0].id.clone())
    );
    assert_eq!(first.metadata.audio_tracks[0].id, first.mappings[1].id);
}

#[test]
fn cleans_labels_and_containers() {
    assert_eq!(clean_label(Some("  English  ")), Some("English".to_string()));
    assert_eq!(clean_label(Some("   ")), None);
    assert_eq!(clean_label(Some("bad\u{7}label")), None);
    assert_eq!(clean_label(Some(&"x".repeat(256))), Some("x".repeat(256)));
    assert_eq!(clean_label(Some(&"x".repeat(257))), None);
    assert_eq!(clean_label(None), None);
    assert_eq!(normalize_container(Some(" Matroska ,webm")), Some("matroska".to_string()));
    assert_eq!(normalize_container(Some("mp-4")), None);
    assert_eq!(normalize_container(Some(&"a".repeat(65))), None);
    assert_eq!(normalize_container(None), None);
    assert_eq!(classify_subtitle("webvtt"), SubtitleKind::Text);
    assert_eq!(classify_subtitle("dvd_subtitle"), SubtitleKind::Bitmap);
    assert_eq!(classify_subtitle("eia_608"), SubtitleKind::Unknown);
}
