use std::path::PathBuf;

use localstream_core::media_tools::{
    append_bounded, check_output_limit, check_version_output, configured_tool, finish_bounded,
    MediaTool, ProcessError, ProcessOutput, ToolDiscoveryError, FFMPEG_PATH_ENV,
};

fn output(success: bool, stdout: &[u8]) -> ProcessOutput {
    ProcessOutput { success, exit_code: Some(0), stdout: stdout.to_vec(), stderr: Vec::new() }
}

#[test]
fn rejects_relative_explicit_paths_before_spawning() {
    assert!(matches!(
        configured_tool(Some(PathBuf::from("relative/ffprobe")), MediaTool::Ffprobe),
        Err(ToolDiscoveryError::RelativeConfiguredPath)
    ));
    assert!(matches!(
        configured_tool(Some(PathBuf::from("relative/ffmpeg")), MediaTool::Ffmpeg),
        Err(ToolDiscoveryError::RelativeConfiguredPath)
    ));
}

#[test]
fn configured_tools_fall_back_to_the_search_path() {
    assert_eq!(configured_tool(None, MediaTool::Ffmpeg).unwrap(), PathBuf::from("ffmpeg"));
    let error = configured_tool(Some(PathBuf::new()), MediaTool::Ffmpeg).unwrap_err();
    assert!(matches!(error, ToolDiscoveryError::EmptyConfiguration { variable } if variable == FFMPEG_PATH_ENV));
    assert_eq!(error.message(), "LOCALSTREAM_FFMPEG_PATH is configured but empty");
    let absolute = PathBuf::from("/usr/bin/ffprobe");
    assert_eq!(configured_tool(Some(absolute.clone()), MediaTool::Ffprobe).unwrap(), absolute);
}

#[test]
fn version_checks_expect_the_tool_name() {
    assert!(check_version_output(&output(true, b"ffprobe version 6.1\nmore"), MediaTool::Ffprobe).is_ok());
    assert!(check_version_output(&output(true, b"FFmpeg version 6.1"), MediaTool::Ffmpeg).is_ok());
    assert!(matches!(
        check_version_output(&output(true, b"ffmpeg version 6.1"), MediaTool::Ffprobe),
        Err(ToolDiscoveryError::WrongExecutable { expected: "ffprobe" })
    ));
    assert!(matches!(
        check_version_output(&output(true, b"ffm"), MediaTool::Ffmpeg),
        Err(ToolDiscoveryError::WrongExecutable { expected: "ffmpeg" })
    ));
    assert!(matches!(
        check_version_output(&output(false, b"ffmpeg"), MediaTool::Ffmpeg),
        Err(ToolDiscoveryError::Rejected { tool: "ffmpeg" })
    ));
}

#[test]
fn bounds_each_output_pipe() {
    assert!(matches!(check_output_limit(0), Err(ProcessError::OutputLimitExceeded)));
    assert!(check_output_limit(1).is_ok());
    let mut captured = Vec::new();
    assert!(!append_bounded(&mut captured, b"12345", 8));
    assert!(append_bounded(&mut captured, b"6789", 8));
    assert_eq!(captured, b"12345678".to_vec());
    assert!(matches!(finish_bounded(captured.clone(), true), Err(ProcessError::OutputLimitExceeded)));
    assert_eq!(finish_bounded(captured, false).unwrap(), b"12345678".to_vec());
}
