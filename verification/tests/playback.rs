use localstream_core::compatibility::{DecisionReason, PlaybackDecision, PlaybackMethod, SubtitleDelivery};
use localstream_core::media_jobs::MediaJobId;
use localstream_core::playback::{job_preparation, prepare_step, PlaybackPrepareError, PrepareStep};

fn decision(method: PlaybackMethod, reason: DecisionReason) -> PlaybackDecision {
    PlaybackDecision {
        method,
        reason,
        target_container: None,
        selected_audio_track_id: None,
        selected_subtitle_track_id: None,
        subtitle_delivery: SubtitleDelivery::Off,
    }
}

#[test]
fn prepares_each_playback_method() {
    let direct = decision(PlaybackMethod::DirectPlay, DecisionReason::DirectPlayCompatible);
    match prepare_step(Ok(&direct)) {
        PrepareStep::Ready(p) => {
            assert_eq!(p.method, PlaybackMethod::DirectPlay);
            assert!(p.job_id.is_none() && p.output_name.is_none() && p.content_type.is_none());
        }
        other => panic!("unexpected step {other:?}"),
    }
    let remux = decision(PlaybackMethod::Remux, DecisionReason::ContainerUnsupported);
    assert_eq!(prepare_step(Ok(&remux)), PrepareStep::SubmitRemux);
    let transcode = decision(PlaybackMethod::Transcode, DecisionReason::VideoCodecUnsupported);
    assert_eq!(prepare_step(Ok(&transcode)), PrepareStep::SubmitTranscode);
    let unavailable = decision(PlaybackMethod::Unavailable, DecisionReason::VideoCodecUnsupported);
    assert_eq!(prepare_step(Ok(&unavailable)), PrepareStep::Refused(PlaybackPrepareError::Incompatible));
    assert_eq!(prepare_step(Err(())), PrepareStep::Refused(PlaybackPrepareError::Unavailable));

    let prepared = job_preparation(&remux, Ok((MediaJobId(9), "output.mp4", "video/mp4"))).unwrap();
    assert_eq!(prepared.job_id, Some(MediaJobId(9)));
    assert_eq!(prepared.output_name, Some("output.mp4"));
    assert_eq!(prepared.content_type, Some("video/mp4"));
    assert_eq!(prepared.reason, DecisionReason::ContainerUnsupported);
    assert_eq!(job_preparation(&remux, Err(())), Err(PlaybackPrepareError::Unavailable));
}
