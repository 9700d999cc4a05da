use localstream_core::database::DatabaseError;
use localstream_core::media::{MediaItem, ProbeStatus, ScannedMedia, SubtitleMode};
use localstream_core::media_tools::{ProcessError, ToolDiscoveryError};
use localstream_core::net::IpAddress;
use localstream_core::probe::{normalize_probe, ProbeError, ProbeFormat, ProbeOutput};
use localstream_core::service::{
    app_info, apply_probe, check_direct_play, content_type, server_info, CoreError,
    StreamingError,
};
use localstream_core::transforms::SourceLocation;

#[test]
fn exposes_local_first_application_identity() {
    let info = app_info("0.1.0");
    assert_eq!(info.name, "LocalStream");
    assert_eq!(info.version, "0.1.0");
    assert!(info.local_first);
}

#[test]
fn reports_a_loopback_base_url() {
    let info = server_info(IpAddress::V4(0x7f00_0001), 50123);
    assert_eq!(info.base_url, "http://127.0.0.1:50123");
    assert_eq!(info.bind_scope, "loopback");
    assert!(!info.lan_available);
    let info = server_info(IpAddress::V6(1), 8080);
    assert_eq!(info.base_url, "http://[::1]:8080");
}

#[test]
fn serves_known_media_types() {
    assert_eq!(content_type("mp4"), "video/mp4");
    assert_eq!(content_type("m4v"), "video/mp4");
    assert_eq!(content_type("mkv"), "video/x-matroska");
    assert_eq!(content_type("mov"), "video/quicktime");
    assert_eq!(content_type("webm"), "video/webm");
    assert_eq!(content_type("MP4"), "application/octet-stream");
    assert_eq!(content_type("avi"), "application/octet-stream");
}

#[test]
fn direct_play_requires_known_media_inside_the_library() {
    assert_eq!(check_direct_play(false, SourceLocation::Inside), Err(StreamingError::NotFound));
    assert_eq!(check_direct_play(true, SourceLocation::Outside), Err(StreamingError::OutsideApprovedLibrary));
    assert_eq!(check_direct_play(true, SourceLocation::Unavailable), Err(StreamingError::Unavailable));
    assert_eq!(check_direct_play(true, SourceLocation::Inside), Ok(()));
    assert_eq!(StreamingError::from(DatabaseError::Unavailable), StreamingError::Unavailable);
    assert_eq!(StreamingError::Busy.message(), "the streaming capacity is currently in use");
}

fn media() -> ScannedMedia {
    ScannedMedia {
        item: MediaItem {
            id: "id".to_owned(),
            title: "Movie".to_owned(),
            extension: "mkv".to_owned(),
            size_bytes: 5,
            metadata: None,
            probe_status: ProbeStatus::NotProbed,
            selected_audio_track_id: None,
            subtitle_mode: SubtitleMode::Automatic,
            selected_subtitle_track_id: None,
        },
        path: std::path::PathBuf::from("Movie.mkv"),
        track_mappings: Vec::new(),
    }
}

#[test]
fn probing_updates_items_and_isolates_failures() {
    let mut item = media();
    let probe = normalize_probe(
        "id",
        ProbeOutput {
            streams: Vec::new(),
            format: Some(ProbeFormat { format_name: Some("mp4".to_owned()), duration_millis: Some(5) }),
        },
    );
    apply_probe(&mut item, probe).expect("probe should apply");
    assert_eq!(item.item.probe_status, ProbeStatus::Available);
    assert_eq!(item.item.metadata.as_ref().map(|m| m.container.as_str()), Some("mp4"));

    let mut corrupt = media();
    apply_probe(&mut corrupt, Err(ProbeError::Rejected)).expect("a corrupt item must not abort");
    assert_eq!(corrupt.item.probe_status, ProbeStatus::Unavailable);
    assert!(corrupt.item.metadata.is_none());

    let mut cancelled = media();
    let error = apply_probe(&mut cancelled, Err(ProbeError::Process(ProcessError::Cancelled)))
        .expect_err("cancellation stops the scan");
    assert!(matches!(
        error,
        CoreError::MediaTools(ToolDiscoveryError::Unavailable { tool: "ffprobe", source: ProcessError::Cancelled })
    ));
    assert_eq!(cancelled.item.probe_status, ProbeStatus::NotProbed);
    assert_eq!(error.message(), "ffprobe is unavailable or could not be validated");
}
