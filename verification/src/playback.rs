//! Preparing playback: a decision to play directly needs nothing more, a
//! remux or a transcode is submitted as a background job, and media that
//! cannot be played is refused.
use vstd::prelude::*;

use crate::compatibility::{DecisionReason, PlaybackDecision, PlaybackMethod};
use crate::media_jobs::MediaJobId;

verus! {

/// What a client needs to start playing.
#[derive(Debug, Clone, Copy, PartialEq, Eq)]
pub struct PlaybackPreparation {
    pub method: PlaybackMethod,
    pub reason: DecisionReason,
    pub job_id: Option<MediaJobId>,
    pub output_name: Option<&'static str>,
    pub content_type: Option<&'static str>,
}

#[derive(Debug, Clone, Copy, PartialEq, Eq, Structural)]
pub enum PlaybackPrepareError {
    Unavailable,
    Incompatible,
}

impl PlaybackPrepareError {
    /// The message shown for this error.
    pub fn message(&self) -> (r: &'static str)
        ensures
            r == (match self {
                PlaybackPrepareError::Unavailable => "the requested media is unavailable",
                PlaybackPrepareError::Incompatible => "the media cannot be played by this client",
            }),
    {
        match self {
            PlaybackPrepareError::Unavailable => "the requested media is unavailable",
            PlaybackPrepareError::Incompatible => "the media cannot be played by this client",
        }
    }
}

/// What to do with a playback decision.
#[derive(Debug, Clone, Copy, PartialEq, Eq)]
pub enum PrepareStep {
    /// Nothing to run: the preparation is ready.
    Ready(PlaybackPreparation),
    /// Submit a remux, then call `job_preparation`.
    SubmitRemux,
    /// Submit a transcode, then call `job_preparation`.
    SubmitTranscode,
    Refused(PlaybackPrepareError),
}

/// The step for a decision (`Err` when no decision could be made): direct
/// play is ready at once, remux and transcode are submitted, and media
/// that cannot be played is refused as incompatible.
pub fn prepare_step(decision: Result<&PlaybackDecision, ()>) -> (r: PrepareStep)
    ensures
        match decision {
            Err(_) => r == PrepareStep::Refused(PlaybackPrepareError::Unavailable),
            Ok(d) => match d.method {
                PlaybackMethod::DirectPlay => r == PrepareStep::Ready(
                    PlaybackPreparation {
                        method: d.method,
                        reason: d.reason,
                        job_id: None,
                        output_name: None,
                        content_type: None,
                    },
                ),
                PlaybackMethod::Remux => r == PrepareStep::SubmitRemux,
                PlaybackMethod::Transcode => r == PrepareStep::SubmitTranscode,
                PlaybackMethod::Unavailable => r == PrepareStep::Refused(
                    PlaybackPrepareError::Incompatible,
                ),
            },
        },
{
    let d = match decision {
        Ok(d) => d,
        Err(_) => return PrepareStep::Refused(PlaybackPrepareError::Unavailable),
    };
    match d.method {
        PlaybackMethod::DirectPlay => PrepareStep::Ready(
            PlaybackPreparation {
                method: d.method,
                reason: d.reason,
                job_id: None,
                output_name: None,
                content_type: None,
            },
        ),
        PlaybackMethod::Remux => PrepareStep::SubmitRemux,
        PlaybackMethod::Transcode => PrepareStep::SubmitTranscode,
        PlaybackMethod::Unavailable => PrepareStep::Refused(PlaybackPrepareError::Incompatible),
    }
}

/// The preparation once a job was submitted for a decision: the job, its
/// output's name and media type; a failed submission makes the media
/// unavailable.
pub fn job_preparation(
    decision: &PlaybackDecision,
    submitted: Result<(MediaJobId, &'static str, &'static str), ()>,
) -> (r: Result<PlaybackPreparation, PlaybackPrepareError>)
    ensures
        match submitted {
            Err(_) => r == Err::<PlaybackPreparation, PlaybackPrepareError>(
                PlaybackPrepareError::Unavailable,
            ),
            Ok((id, name, content_type)) => r == Ok::<PlaybackPreparation, PlaybackPrepareError>(
                PlaybackPreparation {
                    method: decision.method,
                    reason: decision.reason,
                    job_id: Some(id),
                    output_name: Some(name),
                    content_type: Some(content_type),
                },
            ),
        },
{
    match submitted {
        Err(_) => Err(PlaybackPrepareError::Unavailable),
        Ok((id, name, content_type)) => Ok(
            PlaybackPreparation {
                method: decision.method,
                reason: decision.reason,
                job_id: Some(id),
                output_name: Some(name),
                content_type: Some(content_type),
            },
        ),
    }
}

} // verus!
