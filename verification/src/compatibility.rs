//! Chooses how a client plays an item: directly, after a remux into another
//! container, after a transcode, or not at all.
use vstd::prelude::*;

use crate::media::{AudioTrack, MediaItem, SubtitleKind, SubtitleMode, SubtitleTrack};
use crate::text::{eq_ignore_ascii_case, eq_ignore_ascii_case_exec, lemma_first_index, lemma_no_index};

verus! {

/// What a client can play.  Codec and container names compare without ASCII
/// case; each list is read as a set.
#[derive(Debug, Clone, PartialEq, Eq)]
pub struct ClientCapabilities {
    pub containers: Vec<String>,
    pub video_codecs: Vec<String>,
    pub audio_codecs: Vec<String>,
    pub embedded_text_subtitle_codecs: Vec<String>,
    pub external_webvtt: bool,
    pub embedded_audio_selection: bool,
    pub bitmap_subtitles: bool,
    pub remux_targets: Vec<RemuxTarget>,
}

/// A container the server can remux into, with the codecs it may carry.
#[derive(Debug, Clone, PartialEq, Eq)]
pub struct RemuxTarget {
    pub container: String,
    pub video_codecs: Vec<String>,
    pub audio_codecs: Vec<String>,
}

#[derive(Debug, Clone, Copy, PartialEq, Eq, Structural)]
pub enum PlaybackMethod {
    DirectPlay,
    Remux,
    Transcode,
    Unavailable,
}

#[derive(Debug, Clone, Copy, PartialEq, Eq, Structural)]
pub enum DecisionReason {
    DirectPlayCompatible,
    MetadataUnavailable,
    VideoStreamMissing,
    SelectedAudioTrackUnavailable,
    SelectedSubtitleTrackUnavailable,
    BitmapSubtitleRequiresBurnIn,
    SubtitleFormatUnsupported,
    VideoCodecUnsupported,
    AudioCodecUnsupported,
    AudioSelectionRequiresRemux,
    ContainerUnsupported,
    NoCompatibleRemuxTarget,
}

#[derive(Debug, Clone, Copy, PartialEq, Eq, Structural)]
pub enum SubtitleDelivery {
    Off,
    ExternalWebVtt,
    Embedded,
    BurnIn,
}

/// The outcome of a playback decision.
#[derive(Debug, Clone, PartialEq, Eq)]
pub struct PlaybackDecision {
    pub method: PlaybackMethod,
    pub reason: DecisionReason,
    pub target_container: Option<String>,
    pub selected_audio_track_id: Option<String>,
    pub selected_subtitle_track_id: Option<String>,
    pub subtitle_delivery: SubtitleDelivery,
}

#[derive(Debug, Clone, Copy, PartialEq, Eq, Structural)]
pub enum CompatibilityError {
    UnknownMedia,
    Unavailable,
}

/// A playback decision with its text fields taken as character sequences.
pub ghost struct PlaybackOutcome {
    pub method: PlaybackMethod,
    pub reason: DecisionReason,
    pub target_container: Option<Seq<char>>,
    pub selected_audio_track_id: Option<Seq<char>>,
    pub selected_subtitle_track_id: Option<Seq<char>>,
    pub subtitle_delivery: SubtitleDelivery,
}

pub open spec fn text_of(value: Option<String>) -> Option<Seq<char>> {
    match value {
        Some(s) => Some(s@),
        None => None,
    }
}

impl View for PlaybackDecision {
    type V = PlaybackOutcome;

    open spec fn view(&self) -> PlaybackOutcome {
        PlaybackOutcome {
            method: self.method,
            reason: self.reason,
            target_container: text_of(self.target_container),
            selected_audio_track_id: text_of(self.selected_audio_track_id),
            selected_subtitle_track_id: text_of(self.selected_subtitle_track_id),
            subtitle_delivery: self.subtitle_delivery,
        }
    }
}

// ---------------------------------------------------------------------------
// The decision, stated over the item and the client
// ---------------------------------------------------------------------------

/// `value` is one of `values`, ignoring ASCII case.
pub open spec fn listed(values: Seq<String>, value: Seq<char>) -> bool {
    exists|i: int| 0 <= i < values.len() && eq_ignore_ascii_case(#[trigger] values[i]@, value)
}

pub open spec fn audio_tracks_of(item: MediaItem) -> Seq<AudioTrack> {
    match item.metadata {
        Some(m) => m.audio_tracks@,
        None => Seq::empty(),
    }
}

pub open spec fn subtitle_tracks_of(item: MediaItem) -> Seq<SubtitleTrack> {
    match item.metadata {
        Some(m) => m.subtitle_tracks@,
        None => Seq::empty(),
    }
}

pub open spec fn audio_ids(tracks: Seq<AudioTrack>) -> Seq<Seq<char>> {
    tracks.map_values(|t: AudioTrack| t.id@)
}

pub open spec fn audio_defaults(tracks: Seq<AudioTrack>) -> Seq<bool> {
    tracks.map_values(|t: AudioTrack| t.is_default)
}

pub open spec fn subtitle_ids(tracks: Seq<SubtitleTrack>) -> Seq<Seq<char>> {
    tracks.map_values(|t: SubtitleTrack| t.id@)
}

pub open spec fn subtitle_defaults(tracks: Seq<SubtitleTrack>) -> Seq<bool> {
    tracks.map_values(|t: SubtitleTrack| t.is_default)
}

pub open spec fn subtitle_forced(tracks: Seq<SubtitleTrack>) -> Seq<bool> {
    tracks.map_values(|t: SubtitleTrack| t.is_forced)
}

/// The audio track that plays: the selected one (which must exist), else the
/// first default track, else the first track.
pub open spec fn effective_audio(item: MediaItem) -> Result<Option<int>, DecisionReason> {
    let tracks = audio_tracks_of(item);
    match item.selected_audio_track_id {
        Some(selected) => match audio_ids(tracks).index_of_first(selected@) {
            Some(i) => Ok(Some(i)),
            None => Err(DecisionReason::SelectedAudioTrackUnavailable),
        },
        None => match audio_defaults(tracks).index_of_first(true) {
            Some(i) => Ok(Some(i)),
            None => if tracks.len() > 0 {
                Ok(Some(0))
            } else {
                Ok(None)
            },
        },
    }
}

/// The subtitle track that shows: none when off; the first forced, else the
/// first default track in automatic mode; the selected one (which must exist)
/// in track mode.
pub open spec fn effective_subtitle(item: MediaItem) -> Result<Option<int>, DecisionReason> {
    let tracks = subtitle_tracks_of(item);
    match item.subtitle_mode {
        SubtitleMode::Off => Ok(None),
        SubtitleMode::Automatic => match subtitle_forced(tracks).index_of_first(true) {
            Some(i) => Ok(Some(i)),
            None => match subtitle_defaults(tracks).index_of_first(true) {
                Some(i) => Ok(Some(i)),
                None => Ok(None),
            },
        },
        SubtitleMode::Track => match item.selected_subtitle_track_id {
            None => Err(DecisionReason::SelectedSubtitleTrackUnavailable),
            Some(selected) => match subtitle_ids(tracks).index_of_first(selected@) {
                Some(i) => Ok(Some(i)),
                None => Err(DecisionReason::SelectedSubtitleTrackUnavailable),
            },
        },
    }
}

/// How a subtitle reaches the screen, and whether that works without a
/// transform.
pub open spec fn subtitle_plan(track: Option<SubtitleTrack>, client: ClientCapabilities) -> (
    SubtitleDelivery,
    bool,
) {
    match track {
        None => (SubtitleDelivery::Off, true),
        Some(t) => match t.kind {
            SubtitleKind::Text => if client.external_webvtt {
                (SubtitleDelivery::ExternalWebVtt, true)
            } else if listed(client.embedded_text_subtitle_codecs@, t.codec@) {
                (SubtitleDelivery::Embedded, true)
            } else {
                (SubtitleDelivery::BurnIn, false)
            },
            SubtitleKind::Bitmap => if client.bitmap_subtitles {
                (SubtitleDelivery::Embedded, true)
            } else {
                (SubtitleDelivery::BurnIn, false)
            },
            SubtitleKind::Unknown => (SubtitleDelivery::BurnIn, false),
        },
    }
}

/// A remux target the client plays that carries the video codec and the
/// audio codec of the chosen audio track.
pub open spec fn remux_fits(
    target: RemuxTarget,
    client: ClientCapabilities,
    video_codec: Seq<char>,
    audio: Option<AudioTrack>,
) -> bool {
    &&& listed(client.containers@, target.container@)
    &&& listed(target.video_codecs@, video_codec)
    &&& match audio {
        Some(a) => listed(target.audio_codecs@, a.codec@),
        None => true,
    }
}

pub open spec fn remux_fit_flags(
    client: ClientCapabilities,
    video_codec: Seq<char>,
    audio: Option<AudioTrack>,
) -> Seq<bool> {
    client.remux_targets@.map_values(|t: RemuxTarget| remux_fits(t, client, video_codec, audio))
}

pub open spec fn playable_flags(client: ClientCapabilities) -> Seq<bool> {
    client.remux_targets@.map_values(|t: RemuxTarget| listed(client.containers@, t.container@))
}

/// The container a transcode produces: the first remux target the client
/// plays.
pub open spec fn transcode_container(client: ClientCapabilities) -> Option<Seq<char>> {
    match playable_flags(client).index_of_first(true) {
        Some(i) => Some(client.remux_targets@[i].container@),
        None => None,
    }
}

pub open spec fn unavailable_outcome(reason: DecisionReason) -> PlaybackOutcome {
    PlaybackOutcome {
        method: PlaybackMethod::Unavailable,
        reason,
        target_container: None,
        selected_audio_track_id: None,
        selected_subtitle_track_id: None,
        subtitle_delivery: SubtitleDelivery::Off,
    }
}

pub open spec fn transcode_outcome(
    reason: DecisionReason,
    client: ClientCapabilities,
    audio_id: Option<Seq<char>>,
    subtitle_id: Option<Seq<char>>,
    delivery: SubtitleDelivery,
) -> PlaybackOutcome {
    PlaybackOutcome {
        method: PlaybackMethod::Transcode,
        reason,
        target_container: transcode_container(client),
        selected_audio_track_id: audio_id,
        selected_subtitle_track_id: subtitle_id,
        subtitle_delivery: delivery,
    }
}

pub open spec fn track_at<T>(tracks: Seq<T>, index: Option<int>) -> Option<T> {
    match index {
        Some(i) => Some(tracks[i]),
        None => None,
    }
}

/// The playback decision once metadata, video and the effective tracks are
/// known, following the order of the rules: Direct Play when everything is
/// supported; then burn-in of bitmap subtitles; unknown subtitles are
/// unplayable; other unsupported subtitles are burnt in; unsupported video or
/// audio codecs are transcoded; otherwise the first fitting remux target, or a
/// transcode when there is none.
pub open spec fn decide_with_tracks(
    item: MediaItem,
    client: ClientCapabilities,
    video_codec: Seq<char>,
    audio: Option<AudioTrack>,
    subtitle: Option<SubtitleTrack>,
    container: Seq<char>,
) -> PlaybackOutcome {
    let audio_id = match audio {
        Some(t) => Some(t.id@),
        None => None,
    };
    let subtitle_id = match subtitle {
        Some(t) => Some(t.id@),
        None => None,
    };
    let video_supported = listed(client.video_codecs@, video_codec);
    let audio_supported = match audio {
        Some(t) => listed(client.audio_codecs@, t.codec@),
        None => true,
    };
    let container_supported = listed(client.containers@, container);
    let explicit_non_default_audio = match audio {
        Some(t) => (match item.selected_audio_track_id {
            Some(s) => s@ == t.id@,
            None => false,
        }) && !t.is_default,
        None => false,
    };
    let audio_selection_supported = !explicit_non_default_audio || client.embedded_audio_selection;
    let (delivery, subtitle_direct) = subtitle_plan(subtitle, client);
    if video_supported && audio_supported && container_supported && audio_selection_supported
        && subtitle_direct {
        PlaybackOutcome {
            method: PlaybackMethod::DirectPlay,
            reason: DecisionReason::DirectPlayCompatible,
            target_container: None,
            selected_audio_track_id: audio_id,
            selected_subtitle_track_id: subtitle_id,
            subtitle_delivery: delivery,
        }
    } else if (subtitle matches Some(t) && t.kind == SubtitleKind::Bitmap
        && !client.bitmap_subtitles) {
        transcode_outcome(
            DecisionReason::BitmapSubtitleRequiresBurnIn,
            client,
            audio_id,
            subtitle_id,
            SubtitleDelivery::BurnIn,
        )
    } else if (subtitle matches Some(t) && t.kind == SubtitleKind::Unknown) {
        PlaybackOutcome {
            method: PlaybackMethod::Unavailable,
            reason: DecisionReason::SubtitleFormatUnsupported,
            target_container: None,
            selected_audio_track_id: audio_id,
            selected_subtitle_track_id: subtitle_id,
            subtitle_delivery: SubtitleDelivery::Off,
        }
    } else if !subtitle_direct && subtitle is Some {
        transcode_outcome(
            DecisionReason::SubtitleFormatUnsupported,
            client,
            audio_id,
            subtitle_id,
            SubtitleDelivery::BurnIn,
        )
    } else if !video_supported {
        transcode_outcome(
            DecisionReason::VideoCodecUnsupported,
            client,
            audio_id,
            subtitle_id,
            delivery,
        )
    } else if !audio_supported {
        transcode_outcome(
            DecisionReason::AudioCodecUnsupported,
            client,
            audio_id,
            subtitle_id,
            delivery,
        )
    } else {
        let remux_reason = if !audio_selection_supported {
            DecisionReason::AudioSelectionRequiresRemux
        } else {
            DecisionReason::ContainerUnsupported
        };
        match remux_fit_flags(client, video_codec, audio).index_of_first(true) {
            Some(i) => PlaybackOutcome {
                method: PlaybackMethod::Remux,
                reason: remux_reason,
                target_container: Some(client.remux_targets@[i].container@),
                selected_audio_track_id: audio_id,
                selected_subtitle_track_id: subtitle_id,
                subtitle_delivery: delivery,
            },
            None => transcode_outcome(
                DecisionReason::NoCompatibleRemuxTarget,
                client,
                audio_id,
                subtitle_id,
                delivery,
            ),
        }
    }
}

/// The playback decision for `item` on `client`.
pub open spec fn playback_outcome(item: MediaItem, client: ClientCapabilities) -> PlaybackOutcome {
    match item.metadata {
        None => unavailable_outcome(DecisionReason::MetadataUnavailable),
        Some(metadata) => match metadata.video {
            None => unavailable_outcome(DecisionReason::VideoStreamMissing),
            Some(video) => match effective_audio(item) {
                Err(reason) => unavailable_outcome(reason),
                Ok(audio) => match effective_subtitle(item) {
                    Err(reason) => unavailable_outcome(reason),
                    Ok(subtitle) => decide_with_tracks(
                        item,
                        client,
                        video.codec@,
                        track_at(metadata.audio_tracks@, audio),
                        track_at(metadata.subtitle_tracks@, subtitle),
                        metadata.container@,
                    ),
                },
            },
        },
    }
}

// ---------------------------------------------------------------------------
// Implementation
// ---------------------------------------------------------------------------

fn contains(values: &Vec<String>, value: &str) -> (r: bool)
    ensures
        r == listed(values@, value@),
{
    let mut i: usize = 0;
    while i < values.len()
        invariant
            i <= values.len(),
            forall|j: int| 0 <= j < i ==> !eq_ignore_ascii_case(#[trigger] values@[j]@, value@),
        decreases values.len() - i,
    {
        if eq_ignore_ascii_case_exec(values[i].as_str(), value) {
            return true;
        }
        i += 1;
    }
    false
}

fn find_audio_id(tracks: &Vec<AudioTrack>, id: &String) -> (r: Option<usize>)
    ensures
        match audio_ids(tracks@).index_of_first(id@) {
            Some(i) => 0 <= i < tracks.len() && r == Some(i as usize),
            None => r is None,
        },
{
    let mut i: usize = 0;
    while i < tracks.len()
        invariant
            i <= tracks.len(),
            forall|j: int| 0 <= j < i ==> audio_ids(tracks@)[j] != id@,
        decreases tracks.len() - i,
    {
        if tracks[i].id == *id {
            proof {
                lemma_first_index(audio_ids(tracks@), id@, i as int);
            }
            return Some(i);
        }
        i += 1;
    }
    proof {
        lemma_no_index(audio_ids(tracks@), id@);
    }
    None
}

fn find_default_audio(tracks: &Vec<AudioTrack>) -> (r: Option<usize>)
    ensures
        match audio_defaults(tracks@).index_of_first(true) {
            Some(i) => 0 <= i < tracks.len() && r == Some(i as usize),
            None => r is None,
        },
{
    let mut i: usize = 0;
    while i < tracks.len()
        invariant
            i <= tracks.len(),
            forall|j: int| 0 <= j < i ==> audio_defaults(tracks@)[j] != true,
        decreases tracks.len() - i,
    {
        if tracks[i].is_default {
            proof {
                lemma_first_index(audio_defaults(tracks@), true, i as int);
            }
            return Some(i);
        }
        i += 1;
    }
    proof {
        lemma_no_index(audio_defaults(tracks@), true);
    }
    None
}

fn find_subtitle_id(tracks: &Vec<SubtitleTrack>, id: &String) -> (r: Option<usize>)
    ensures
        match subtitle_ids(tracks@).index_of_first(id@) {
            Some(i) => 0 <= i < tracks.len() && r == Some(i as usize),
            None => r is None,
        },
{
    let mut i: usize = 0;
    while i < tracks.len()
        invariant
            i <= tracks.len(),
            forall|j: int| 0 <= j < i ==> subtitle_ids(tracks@)[j] != id@,
        decreases tracks.len() - i,
    {
        if tracks[i].id == *id {
            proof {
                lemma_first_index(subtitle_ids(tracks@), id@, i as int);
            }
            return Some(i);
        }
        i += 1;
    }
    proof {
        lemma_no_index(subtitle_ids(tracks@), id@);
    }
    None
}

fn find_subtitle_flag(tracks: &Vec<SubtitleTrack>, forced: bool) -> (r: Option<usize>)
    ensures
        match (if forced {
            subtitle_forced(tracks@)
        } else {
            subtitle_defaults(tracks@)
        }).index_of_first(true) {
            Some(i) => 0 <= i < tracks.len() && r == Some(i as usize),
            None => r is None,
        },
{
    let ghost flags = if forced {
        subtitle_forced(tracks@)
    } else {
        subtitle_defaults(tracks@)
    };
    let mut i: usize = 0;
    while i < tracks.len()
        invariant
            i <= tracks.len(),
            flags == (if forced {
                subtitle_forced(tracks@)
            } else {
                subtitle_defaults(tracks@)
            }),
            forall|j: int| 0 <= j < i ==> flags[j] != true,
        decreases tracks.len() - i,
    {
        let flag = if forced {
            tracks[i].is_forced
        } else {
            tracks[i].is_default
        };
        if flag {
            proof {
                lemma_first_index(flags, true, i as int);
            }
            return Some(i);
        }
        i += 1;
    }
    proof {
        lemma_no_index(flags, true);
    }
    None
}

fn effective_audio_index(item: &MediaItem) -> (r: Result<Option<usize>, DecisionReason>)
    requires
        item.metadata is Some,
    ensures
        match effective_audio(*item) {
            Ok(Some(i)) => r == Ok::<Option<usize>, DecisionReason>(Some(i as usize)) && 0 <= i
                < audio_tracks_of(*item).len(),
            Ok(None) => r == Ok::<Option<usize>, DecisionReason>(None),
            Err(e) => r == Err::<Option<usize>, DecisionReason>(e),
        },
{
    let tracks = &item.metadata.as_ref().unwrap().audio_tracks;
    match &item.selected_audio_track_id {
        Some(selected) => match find_audio_id(tracks, selected) {
            Some(i) => Ok(Some(i)),
            None => Err(DecisionReason::SelectedAudioTrackUnavailable),
        },
        None => match find_default_audio(tracks) {
            Some(i) => Ok(Some(i)),
            None => if tracks.len() > 0 {
                Ok(Some(0))
            } else {
                Ok(None)
            },
        },
    }
}

fn effective_subtitle_index(item: &MediaItem) -> (r: Result<Option<usize>, DecisionReason>)
    requires
        item.metadata is Some,
    ensures
        match effective_subtitle(*item) {
            Ok(Some(i)) => r == Ok::<Option<usize>, DecisionReason>(Some(i as usize)) && 0 <= i
                < subtitle_tracks_of(*item).len(),
            Ok(None) => r == Ok::<Option<usize>, DecisionReason>(None),
            Err(e) => r == Err::<Option<usize>, DecisionReason>(e),
        },
{
    let tracks = &item.metadata.as_ref().unwrap().subtitle_tracks;
    match item.subtitle_mode {
        SubtitleMode::Off => Ok(None),
        SubtitleMode::Automatic => match find_subtitle_flag(tracks, true) {
            Some(i) => Ok(Some(i)),
            None => match find_subtitle_flag(tracks, false) {
                Some(i) => Ok(Some(i)),
                None => Ok(None),
            },
        },
        SubtitleMode::Track => match &item.selected_subtitle_track_id {
            None => Err(DecisionReason::SelectedSubtitleTrackUnavailable),
            Some(selected) => match find_subtitle_id(tracks, selected) {
                Some(i) => Ok(Some(i)),
                None => Err(DecisionReason::SelectedSubtitleTrackUnavailable),
            },
        },
    }
}

fn plan_subtitle(track: Option<&SubtitleTrack>, client: &ClientCapabilities) -> (r: (
    SubtitleDelivery,
    bool,
))
    ensures
        r == subtitle_plan(
            match track {
                Some(t) => Some(*t),
                None => None,
            },
            *client,
        ),
{
    match track {
        None => (SubtitleDelivery::Off, true),
        Some(t) => match t.kind {
            SubtitleKind::Text => if client.external_webvtt {
                (SubtitleDelivery::ExternalWebVtt, true)
            } else if contains(&client.embedded_text_subtitle_codecs, t.codec.as_str()) {
                (SubtitleDelivery::Embedded, true)
            } else {
                (SubtitleDelivery::BurnIn, false)
            },
            SubtitleKind::Bitmap => if client.bitmap_subtitles {
                (SubtitleDelivery::Embedded, true)
            } else {
                (SubtitleDelivery::BurnIn, false)
            },
            SubtitleKind::Unknown => (SubtitleDelivery::BurnIn, false),
        },
    }
}

fn clone_id(value: &String) -> (r: String)
    ensures
        r@ == value@,
{
    value.clone()
}

fn unavailable(reason: DecisionReason) -> (d: PlaybackDecision)
    ensures
        d@ == unavailable_outcome(reason),
{
    PlaybackDecision {
        method: PlaybackMethod::Unavailable,
        reason,
        target_container: None,
        selected_audio_track_id: None,
        selected_subtitle_track_id: None,
        subtitle_delivery: SubtitleDelivery::Off,
    }
}

fn first_playable_target(client: &ClientCapabilities) -> (r: Option<usize>)
    ensures
        match playable_flags(*client).index_of_first(true) {
            Some(i) => 0 <= i < client.remux_targets.len() && r == Some(i as usize),
            None => r is None,
        },
{
    let targets = &client.remux_targets;
    let mut i: usize = 0;
    while i < targets.len()
        invariant
            i <= targets.len(),
            targets == client.remux_targets,
            forall|j: int| 0 <= j < i ==> playable_flags(*client)[j] != true,
        decreases targets.len() - i,
    {
        if contains(&client.containers, targets[i].container.as_str()) {
            proof {
                lemma_first_index(playable_flags(*client), true, i as int);
            }
            return Some(i);
        }
        i += 1;
    }
    proof {
        lemma_no_index(playable_flags(*client), true);
    }
    None
}

fn first_fitting_target(
    client: &ClientCapabilities,
    video: &crate::media::VideoTrack,
    audio: Option<&AudioTrack>,
) -> (r: Option<usize>)
    ensures
        match remux_fit_flags(
            *client,
            video.codec@,
            match audio {
                Some(t) => Some(*t),
                None => None,
            },
        ).index_of_first(true) {
            Some(i) => 0 <= i < client.remux_targets.len() && r == Some(i as usize),
            None => r is None,
        },
{
    let ghost audio_spec = match audio {
        Some(t) => Some(*t),
        None => None,
    };
    let ghost flags = remux_fit_flags(*client, video.codec@, audio_spec);
    let targets = &client.remux_targets;
    let mut i: usize = 0;
    while i < targets.len()
        invariant
            i <= targets.len(),
            targets == client.remux_targets,
            flags == remux_fit_flags(*client, video.codec@, audio_spec),
            audio_spec == match audio {
                Some(t) => Some(*t),
                None => None,
            },
            forall|j: int| 0 <= j < i ==> flags[j] != true,
        decreases targets.len() - i,
    {
        let target = &targets[i];
        let fits = contains(&client.containers, target.container.as_str()) && contains(
            &target.video_codecs,
            video.codec.as_str(),
        ) && match audio {
            Some(t) => contains(&target.audio_codecs, t.codec.as_str()),
            None => true,
        };
        if fits {
            proof {
                lemma_first_index(flags, true, i as int);
            }
            return Some(i);
        }
        i += 1;
    }
    proof {
        lemma_no_index(flags, true);
    }
    None
}

fn transcode(
    reason: DecisionReason,
    client: &ClientCapabilities,
    audio_id: Option<String>,
    subtitle_id: Option<String>,
    subtitle_delivery: SubtitleDelivery,
) -> (d: PlaybackDecision)
    ensures
        d@ == transcode_outcome(
            reason,
            *client,
            text_of(audio_id),
            text_of(subtitle_id),
            subtitle_delivery,
        ),
{
    let target_container = match first_playable_target(client) {
        Some(i) => Some(clone_id(&client.remux_targets[i].container)),
        None => None,
    };
    PlaybackDecision {
        method: PlaybackMethod::Transcode,
        reason,
        target_container,
        selected_audio_track_id: audio_id,
        selected_subtitle_track_id: subtitle_id,
        subtitle_delivery,
    }
}

/// Decides how `client` plays `item`.
pub fn decide_playback(item: &MediaItem, client: &ClientCapabilities) -> (d: PlaybackDecision)
    ensures
        d@ == playback_outcome(*item, *client),
{
    let metadata = match &item.metadata {
        Some(m) => m,
        None => {
            return unavailable(DecisionReason::MetadataUnavailable);
        },
    };
    let video = match &metadata.video {
        Some(v) => v,
        None => {
            return unavailable(DecisionReason::VideoStreamMissing);
        },
    };
    let audio_result = effective_audio_index(item);
    let audio_index = match audio_result {
        Ok(i) => i,
        Err(reason) => {
            return unavailable(reason);
        },
    };
    let subtitle_result = effective_subtitle_index(item);
    let subtitle_index = match subtitle_result {
        Ok(i) => i,
        Err(reason) => {
            return unavailable(reason);
        },
    };
    let selected_audio: Option<&AudioTrack> = match audio_index {
        Some(i) => Some(&metadata.audio_tracks[i]),
        None => None,
    };
    let selected_subtitle: Option<&SubtitleTrack> = match subtitle_index {
        Some(i) => Some(&metadata.subtitle_tracks[i]),
        None => None,
    };
    let ghost audio_spec = track_at(
        metadata.audio_tracks@,
        match effective_audio(*item) {
            Ok(a) => a,
            Err(_) => None,
        },
    );
    let ghost subtitle_spec = track_at(
        metadata.subtitle_tracks@,
        match effective_subtitle(*item) {
            Ok(s) => s,
            Err(_) => None,
        },
    );
    assert(item.metadata == Some(*metadata));
    assert(audio_tracks_of(*item) == metadata.audio_tracks@);
    assert(subtitle_tracks_of(*item) == metadata.subtitle_tracks@);
    proof {
        match effective_audio(*item) {
            Ok(Some(k)) => {
                assert(audio_result == Ok::<Option<usize>, DecisionReason>(Some(k as usize)));
                assert(0 <= k < audio_tracks_of(*item).len());
                assert(metadata.audio_tracks@.len() == metadata.audio_tracks.len());
                assert(audio_index == Some(k as usize));
                assert(k == audio_index.unwrap() as int);
            },
            Ok(None) => {},
            Err(_) => {},
        }
        match effective_subtitle(*item) {
            Ok(Some(k)) => {
                assert(metadata.subtitle_tracks@.len() == metadata.subtitle_tracks.len());
                assert(k == subtitle_index.unwrap() as int);
            },
            Ok(None) => {},
            Err(_) => {},
        }
    }
    assert(audio_spec == match selected_audio {
        Some(t) => Some(*t),
        None => None,
    });
    assert(subtitle_spec == match selected_subtitle {
        Some(t) => Some(*t),
        None => None,
    });
    let audio_id: Option<String> = match selected_audio {
        Some(t) => Some(clone_id(&t.id)),
        None => None,
    };
    let subtitle_id: Option<String> = match selected_subtitle {
        Some(t) => Some(clone_id(&t.id)),
        None => None,
    };
    let video_supported = contains(&client.video_codecs, video.codec.as_str());
    let audio_supported = match selected_audio {
        Some(t) => contains(&client.audio_codecs, t.codec.as_str()),
        None => true,
    };
    let container_supported = contains(&client.containers, metadata.container.as_str());
    let explicit_non_default_audio = match selected_audio {
        Some(t) => (match &item.selected_audio_track_id {
            Some(s) => *s == t.id,
            None => false,
        }) && !t.is_default,
        None => false,
    };
    let audio_selection_supported = !explicit_non_default_audio || client.embedded_audio_selection;
    let (subtitle_delivery, subtitle_direct) = plan_subtitle(selected_subtitle, client);

    if video_supported && audio_supported && container_supported && audio_selection_supported
        && subtitle_direct {
        return PlaybackDecision {
            method: PlaybackMethod::DirectPlay,
            reason: DecisionReason::DirectPlayCompatible,
            target_container: None,
            selected_audio_track_id: audio_id,
            selected_subtitle_track_id: subtitle_id,
            subtitle_delivery,
        };
    }
    let bitmap_without_support = match selected_subtitle {
        Some(t) => t.kind == SubtitleKind::Bitmap && !client.bitmap_subtitles,
        None => false,
    };
    if bitmap_without_support {
        return transcode(
            DecisionReason::BitmapSubtitleRequiresBurnIn,
            client,
            audio_id,
            subtitle_id,
            SubtitleDelivery::BurnIn,
        );
    }
    let unknown_subtitle = match selected_subtitle {
        Some(t) => t.kind == SubtitleKind::Unknown,
        None => false,
    };
    if unknown_subtitle {
        return PlaybackDecision {
            method: PlaybackMethod::Unavailable,
            reason: DecisionReason::SubtitleFormatUnsupported,
            target_container: None,
            selected_audio_track_id: audio_id,
            selected_subtitle_track_id: subtitle_id,
            subtitle_delivery: SubtitleDelivery::Off,
        };
    }
    if !subtitle_direct && selected_subtitle.is_some() {
        return transcode(
            DecisionReason::SubtitleFormatUnsupported,
            client,
            audio_id,
            subtitle_id,
            SubtitleDelivery::BurnIn,
        );
    }
    if !video_supported {
        return transcode(
            DecisionReason::VideoCodecUnsupported,
            client,
            audio_id,
            subtitle_id,
            subtitle_delivery,
        );
    }
    if !audio_supported {
        return transcode(
            DecisionReason::AudioCodecUnsupported,
            client,
            audio_id,
            subtitle_id,
            subtitle_delivery,
        );
    }
    let remux_reason = if !audio_selection_supported {
        DecisionReason::AudioSelectionRequiresRemux
    } else {
        DecisionReason::ContainerUnsupported
    };
    match first_fitting_target(client, video, selected_audio) {
        Some(i) => {
            return PlaybackDecision {
                method: PlaybackMethod::Remux,
                reason: remux_reason,
                target_container: Some(clone_id(&client.remux_targets[i].container)),
                selected_audio_track_id: audio_id,
                selected_subtitle_track_id: subtitle_id,
                subtitle_delivery,
            };
        },
        None => {},
    }
    transcode(
        DecisionReason::NoCompatibleRemuxTarget,
        client,
        audio_id,
        subtitle_id,
        subtitle_delivery,
    )
}


/// In automatic mode the subtitle that shows is the first forced track when
/// any track is forced; only when none is forced is it the first default
/// track, and with neither there is no subtitle.  Automatic mode never
/// fails.
pub proof fn lemma_automatic_subtitle_prefers_forced(item: MediaItem)
    requires
        item.subtitle_mode == SubtitleMode::Automatic,
    ensures
        ({
            let t = subtitle_tracks_of(item);
            &&& (exists|i: int| 0 <= i < t.len() && #[trigger] t[i].is_forced) ==> (effective_subtitle(
                item,
            ) matches Ok(Some(k)) && 0 <= k < t.len() && t[k].is_forced && forall|j: int|
                0 <= j < k ==> !(#[trigger] t[j].is_forced))
            &&& (forall|i: int| 0 <= i < t.len() ==> !(#[trigger] t[i].is_forced)) ==> match effective_subtitle(
                item,
            ) {
                Ok(Some(k)) => 0 <= k < t.len() && t[k].is_default && forall|j: int|
                    0 <= j < k ==> !(#[trigger] t[j].is_default),
                Ok(None) => forall|i: int| 0 <= i < t.len() ==> !(#[trigger] t[i].is_default),
                Err(_) => false,
            }
        }),
{
    let t = subtitle_tracks_of(item);
    let forced = subtitle_forced(t);
    let defaults = subtitle_defaults(t);
    forced.index_of_first_ensures(true);
    defaults.index_of_first_ensures(true);
    assert forall|i: int| 0 <= i < t.len() implies forced[i] == t[i].is_forced && defaults[i]
        == t[i].is_default by {}
    if exists|i: int| 0 <= i < t.len() && #[trigger] t[i].is_forced {
        let i = choose|i: int| 0 <= i < t.len() && #[trigger] t[i].is_forced;
        assert(forced[i]);
        assert(forced.contains(true));
        let k = forced.index_of_first(true)->0;
        assert(effective_subtitle(item) == Ok::<Option<int>, DecisionReason>(Some(k)));
        assert(t[k].is_forced);
        assert forall|j: int| 0 <= j < k implies !(#[trigger] t[j].is_forced) by {
            assert(forced[j] != true);
        }
    } else {
        assert(!forced.contains(true)) by {
            if forced.contains(true) {
                let k = choose|k: int| 0 <= k < forced.len() && forced[k] == true;
                assert(t[k].is_forced);
            }
        }
        match defaults.index_of_first(true) {
            Some(k) => {
                assert(effective_subtitle(item) == Ok::<Option<int>, DecisionReason>(Some(k)));
                assert(t[k].is_default);
                assert forall|j: int| 0 <= j < k implies !(#[trigger] t[j].is_default) by {
                    assert(defaults[j] != true);
                }
            },
            None => {
                assert(effective_subtitle(item) == Ok::<Option<int>, DecisionReason>(None));
                assert forall|i: int| 0 <= i < t.len() implies !(#[trigger] t[i].is_default) by {
                    if t[i].is_default {
                        assert(defaults[i]);
                        assert(defaults.contains(true));
                    }
                }
            },
        }
    }
}


/// With subtitles off none shows; with a chosen track the first track with
/// that identifier shows, and a choice that names no track (or no choice)
/// cannot be played.
pub proof fn lemma_subtitle_off_or_chosen(item: MediaItem)
    ensures
        item.subtitle_mode == SubtitleMode::Off ==> effective_subtitle(item) == Ok::<
            Option<int>,
            DecisionReason,
        >(None),
        item.subtitle_mode == SubtitleMode::Track ==> match item.selected_subtitle_track_id {
            None => effective_subtitle(item) == Err::<Option<int>, DecisionReason>(
                DecisionReason::SelectedSubtitleTrackUnavailable,
            ),
            Some(id) => {
                let t = subtitle_tracks_of(item);
                if exists|i: int| 0 <= i < t.len() && #[trigger] t[i].id@ == id@ {
                    effective_subtitle(item) matches Ok(Some(k)) && 0 <= k < t.len() && t[k].id@
                        == id@ && forall|j: int| 0 <= j < k ==> (#[trigger] t[j].id@) != id@
                } else {
                    effective_subtitle(item) == Err::<Option<int>, DecisionReason>(
                        DecisionReason::SelectedSubtitleTrackUnavailable,
                    )
                }
            },
        },
{
    if item.subtitle_mode == SubtitleMode::Track {
        if let Some(id) = item.selected_subtitle_track_id {
            let t = subtitle_tracks_of(item);
            let ids = subtitle_ids(t);
            ids.index_of_first_ensures(id@);
            assert forall|i: int| 0 <= i < t.len() implies ids[i] == t[i].id@ by {}
            if exists|i: int| 0 <= i < t.len() && #[trigger] t[i].id@ == id@ {
                let i = choose|i: int| 0 <= i < t.len() && #[trigger] t[i].id@ == id@;
                assert(ids[i] == id@);
                assert(ids.contains(id@));
                let k = ids.index_of_first(id@)->0;
                assert(t[k].id@ == id@);
                assert forall|j: int| 0 <= j < k implies (#[trigger] t[j].id@) != id@ by {
                    assert(ids[j] != id@);
                }
            } else {
                assert(!ids.contains(id@)) by {
                    if ids.contains(id@) {
                        let k = choose|k: int| 0 <= k < ids.len() && ids[k] == id@;
                        assert(t[k].id@ == id@);
                    }
                }
            }
        }
    }
}

} // verus!
