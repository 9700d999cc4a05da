//! Turning what the media prober reports about a file into the catalog's
//! metadata: the container, the first video stream, every audio and
//! subtitle stream with cleaned labels, and a stable opaque identifier for
//! each track.
//!
//! The prober's JSON is read into `ProbeOutput` by the application; the
//! duration, a decimal number of seconds, is converted there as well.
use vstd::prelude::*;

use crate::media_tools::ProcessError;
use crate::media::{AudioTrack, MediaMetadata, SubtitleKind, SubtitleTrack, VideoTrack};
use crate::text::{
    append_decimal, append_str, ascii_lower, ascii_lower_seq, chars_of, dec_text, is_control,
    is_control_exec, split_fields, split_ranges, str_eq, string_from, trim, trim_bounds,
};
use crate::token::{uuid_v5, uuid_v5_text};

verus! {

broadcast use vstd::string::group_string_axioms;

/// Most streams a probe may report.
pub const MAX_TRACKS: usize = 256;

/// Longest kept label, in characters.
pub const MAX_LABEL_CHARS: usize = 256;

/// Longest container name, in characters.
pub const MAX_CONTAINER_CHARS: usize = 64;

/// The OID namespace of version-5 UUIDs (`6ba7b812-9dad-11d1-80b4-00c04fd430c8`).
pub const NAMESPACE_OID: u128 = 0x6ba7b812_9dad_11d1_80b4_00c04fd430c8;

/// The format section of a probe.
pub struct ProbeFormat {
    pub format_name: Option<String>,
    pub duration_millis: Option<u64>,
}

/// One stream of a probe.
pub struct ProbeStream {
    pub index: u32,
    pub codec_type: Option<String>,
    pub codec_name: Option<String>,
    pub width: Option<u32>,
    pub height: Option<u32>,
    pub channels: Option<u16>,
    pub language: Option<String>,
    pub title: Option<String>,
    pub default_disposition: i32,
    pub forced_disposition: i32,
}

/// What the prober reported.
pub struct ProbeOutput {
    pub streams: Vec<ProbeStream>,
    pub format: Option<ProbeFormat>,
}

/// Which source stream a track of the catalog stands for.
#[derive(Debug, Clone, PartialEq, Eq)]
pub struct TrackMapping {
    pub id: String,
    pub source_index: u32,
    pub kind: &'static str,
}

#[derive(Debug, Clone)]
pub struct ProbeResult {
    pub metadata: MediaMetadata,
    pub mappings: Vec<TrackMapping>,
}

/// Why a file could not be probed.
#[derive(Debug)]
pub enum ProbeError {
    Process(ProcessError),
    Rejected,
    Malformed,
    TooManyStreams,
}

impl ProbeError {
    /// The message shown for this error.
    pub fn message(&self) -> (r: &'static str)
        ensures
            r == (match self {
                ProbeError::Process(_) => "ffprobe could not inspect the media",
                ProbeError::Rejected => "ffprobe rejected the media",
                ProbeError::Malformed => "ffprobe returned malformed metadata",
                ProbeError::TooManyStreams => "ffprobe returned too many streams",
            }),
    {
        match self {
            ProbeError::Process(_) => "ffprobe could not inspect the media",
            ProbeError::Rejected => "ffprobe rejected the media",
            ProbeError::Malformed => "ffprobe returned malformed metadata",
            ProbeError::TooManyStreams => "ffprobe returned too many streams",
        }
    }
}

/// What a probe run gave: its process failure, a rejection when the prober
/// did not succeed, or else what its output reads as.
pub fn probe_run_outcome(media_id: &str, run: Result<(bool, ProbeOutput), ProcessError>) -> (r: Result<
    ProbeResult,
    ProbeError,
>)
    ensures
        match run {
            Err(e) => r == Err::<ProbeResult, ProbeError>(ProbeError::Process(e)),
            Ok((false, _)) => r == Err::<ProbeResult, ProbeError>(ProbeError::Rejected),
            Ok((true, output)) => match probe_outcome(media_id@, output) {
                Ok((container, duration, tracks)) => (r matches Ok(p) && p.metadata.container@
                    == container && p.metadata.duration_millis == duration && tracks_view(
                    p.metadata.video,
                    p.metadata.audio_tracks@,
                    p.metadata.subtitle_tracks@,
                    p.mappings@,
                ) == tracks),
                Err(e) => r == Err::<ProbeResult, ProbeError>(e),
            },
        },
{
    match run {
        Err(e) => Err(ProbeError::Process(e)),
        Ok((success, output)) => if success {
            normalize_probe(media_id, output)
        } else {
            Err(ProbeError::Rejected)
        },
    }
}

// ---------------------------------------------------------------------------
// Labels, containers, subtitle kinds
// ---------------------------------------------------------------------------

/// A label as kept: trimmed, not empty, at most 256 characters and free of
/// control characters.
pub open spec fn clean_label_of(value: Option<Seq<char>>) -> Option<Seq<char>> {
    match value {
        None => None,
        Some(v) => {
            let t = trim(v);
            if t.len() > 0 && t.len() <= MAX_LABEL_CHARS && forall|i: int|
                0 <= i < t.len() ==> !is_control(#[trigger] t[i]) {
                Some(t)
            } else {
                None
            }
        },
    }
}

/// A character of a container name: an ASCII letter or digit, or `_`.
pub open spec fn is_container_char(c: char) -> bool {
    crate::text::is_ascii_alphanumeric(c) || c == '_'
}

/// The container of a probe: the first comma-separated format name, trimmed
/// and in ASCII lowercase, when it is 1 to 64 letters, digits or `_`.
pub open spec fn container_of(value: Option<Seq<char>>) -> Option<Seq<char>> {
    match value {
        None => None,
        Some(v) => {
            let first = ascii_lower_seq(trim(split_fields(v, ',')[0]));
            if first.len() > 0 && first.len() <= MAX_CONTAINER_CHARS && forall|i: int|
                0 <= i < first.len() ==> is_container_char(#[trigger] first[i]) {
                Some(first)
            } else {
                None
            }
        },
    }
}

pub open spec fn text_codecs() -> Seq<Seq<char>> {
    seq![
        seq!['a', 's', 's'],
        seq!['m', 'o', 'v', '_', 't', 'e', 'x', 't'],
        seq!['s', 'r', 't'],
        seq!['s', 's', 'a'],
        seq!['s', 'u', 'b', 'r', 'i', 'p'],
        seq!['t', 'e', 'x', 't'],
        seq!['w', 'e', 'b', 'v', 't', 't'],
    ]
}

pub open spec fn bitmap_codecs() -> Seq<Seq<char>> {
    seq![
        seq!['d', 'v', 'b', '_', 's', 'u', 'b', 't', 'i', 't', 'l', 'e'],
        seq!['d', 'v', 'd', '_', 's', 'u', 'b', 't', 'i', 't', 'l', 'e'],
        seq![
            'h',
            'd',
            'm',
            'v',
            '_',
            'p',
            'g',
            's',
            '_',
            's',
            'u',
            'b',
            't',
            'i',
            't',
            'l',
            'e',
        ],
        seq!['x', 's', 'u', 'b'],
    ]
}

/// How subtitles of `codec` are drawn.
pub open spec fn subtitle_kind_of(codec: Seq<char>) -> SubtitleKind {
    if text_codecs().contains(codec) {
        SubtitleKind::Text
    } else if bitmap_codecs().contains(codec) {
        SubtitleKind::Bitmap
    } else {
        SubtitleKind::Unknown
    }
}

/// A name of at least nine characters, or one beginning with `d` or `x`,
/// is no text codec.
proof fn lemma_not_text_codec(codec: Seq<char>)
    requires
        codec.len() >= 9 || (codec.len() > 0 && (codec[0] == 'd' || codec[0] == 'x')),
    ensures
        !text_codecs().contains(codec),
{
    if text_codecs().contains(codec) {
        let k = choose|k: int| 0 <= k < text_codecs().len() && text_codecs()[k] == codec;
        assert(text_codecs()[k].len() <= 8);
        assert(text_codecs()[k][0] != 'd' && text_codecs()[k][0] != 'x');
    }
}

/// The subtitle codecs ffprobe names that are drawn as text (`ass`,
/// `mov_text`, `srt`, `ssa`, `subrip`, `text`, `webvtt`) and as bitmaps
/// (`dvb_subtitle`, `dvd_subtitle`, `hdmv_pgs_subtitle`, `xsub`).
pub proof fn lemma_known_subtitle_codecs()
    ensures
        subtitle_kind_of(seq!['a', 's', 's']) == SubtitleKind::Text,
        subtitle_kind_of(seq!['m', 'o', 'v', '_', 't', 'e', 'x', 't']) == SubtitleKind::Text,
        subtitle_kind_of(seq!['s', 'r', 't']) == SubtitleKind::Text,
        subtitle_kind_of(seq!['s', 's', 'a']) == SubtitleKind::Text,
        subtitle_kind_of(seq!['s', 'u', 'b', 'r', 'i', 'p']) == SubtitleKind::Text,
        subtitle_kind_of(seq!['t', 'e', 'x', 't']) == SubtitleKind::Text,
        subtitle_kind_of(seq!['w', 'e', 'b', 'v', 't', 't']) == SubtitleKind::Text,
        subtitle_kind_of(seq!['d', 'v', 'b', '_', 's', 'u', 'b', 't', 'i', 't', 'l', 'e']) == SubtitleKind::Bitmap,
        subtitle_kind_of(seq!['d', 'v', 'd', '_', 's', 'u', 'b', 't', 'i', 't', 'l', 'e']) == SubtitleKind::Bitmap,
        subtitle_kind_of(seq!['h', 'd', 'm', 'v', '_', 'p', 'g', 's', '_', 's', 'u', 'b', 't', 'i', 't', 'l', 'e']) == SubtitleKind::Bitmap,
        subtitle_kind_of(seq!['x', 's', 'u', 'b']) == SubtitleKind::Bitmap,
{
    assert(text_codecs()[0] == seq!['a', 's', 's']);
    assert(text_codecs()[1] == seq!['m', 'o', 'v', '_', 't', 'e', 'x', 't']);
    assert(text_codecs()[2] == seq!['s', 'r', 't']);
    assert(text_codecs()[3] == seq!['s', 's', 'a']);
    assert(text_codecs()[4] == seq!['s', 'u', 'b', 'r', 'i', 'p']);
    assert(text_codecs()[5] == seq!['t', 'e', 'x', 't']);
    assert(text_codecs()[6] == seq!['w', 'e', 'b', 'v', 't', 't']);
    assert(bitmap_codecs()[0] == seq!['d', 'v', 'b', '_', 's', 'u', 'b', 't', 'i', 't', 'l', 'e']);
    lemma_not_text_codec(seq!['d', 'v', 'b', '_', 's', 'u', 'b', 't', 'i', 't', 'l', 'e']);
    assert(bitmap_codecs()[1] == seq!['d', 'v', 'd', '_', 's', 'u', 'b', 't', 'i', 't', 'l', 'e']);
    lemma_not_text_codec(seq!['d', 'v', 'd', '_', 's', 'u', 'b', 't', 'i', 't', 'l', 'e']);
    assert(bitmap_codecs()[2] == seq!['h', 'd', 'm', 'v', '_', 'p', 'g', 's', '_', 's', 'u', 'b', 't', 'i', 't', 'l', 'e']);
    lemma_not_text_codec(seq!['h', 'd', 'm', 'v', '_', 'p', 'g', 's', '_', 's', 'u', 'b', 't', 'i', 't', 'l', 'e']);
    assert(bitmap_codecs()[3] == seq!['x', 's', 'u', 'b']);
    lemma_not_text_codec(seq!['x', 's', 'u', 'b']);
}

/// The label as kept.
pub fn clean_label(value: Option<&str>) -> (r: Option<String>)
    ensures
        match clean_label_of(
            match value {
                Some(v) => Some(v@),
                None => None,
            },
        ) {
            Some(t) => r matches Some(s) && s@ == t,
            None => r is None,
        },
{
    let v = match value {
        Some(v) => v,
        None => return None,
    };
    let chars = chars_of(v);
    let (start, end) = trim_bounds(&chars, 0, chars.len());
    assert(chars@.subrange(0, chars.len() as int) == v@);
    let ghost t = trim(v@);
    if start == end || end - start > MAX_LABEL_CHARS {
        return None;
    }
    let mut i = start;
    while i < end
        invariant
            value == Some(v),
            start <= i <= end <= chars.len(),
            t == trim(v@),
            chars@.subrange(start as int, end as int) == t,
            forall|j: int| 0 <= j < i - start ==> !is_control(#[trigger] t[j]),
        decreases end - i,
    {
        assert(t[i - start] == chars@[i as int]);
        if is_control_exec(chars[i]) {
            assert(is_control(t[i - start]));
            return None;
        }
        i += 1;
    }
    Some(string_from(&chars, start, end))
}

/// The container named by a probe's format name.
pub fn normalize_container(value: Option<&str>) -> (r: Option<String>)
    ensures
        match container_of(
            match value {
                Some(v) => Some(v@),
                None => None,
            },
        ) {
            Some(t) => r matches Some(s) && s@ == t,
            None => r is None,
        },
{
    let v = match value {
        Some(v) => v,
        None => return None,
    };
    let chars = chars_of(v);
    let fields = split_ranges(&chars, ',');
    proof {
        crate::text::lemma_split_nonempty(v@, ',');
    }
    let (a, b) = fields[0];
    let (start, end) = trim_bounds(&chars, a, b);
    let ghost first = ascii_lower_seq(trim(split_fields(v@, ',')[0]));
    if start == end || end - start > MAX_CONTAINER_CHARS {
        return None;
    }
    let mut out = String::new();
    let mut i = start;
    while i < end
        invariant
            value == Some(v),
            start <= i <= end <= chars.len(),
            chars@ == v@,
            first == ascii_lower_seq(trim(split_fields(v@, ',')[0])),
            first.len() == end - start,
            forall|j: int| 0 <= j < first.len() ==> first[j] == ascii_lower(chars@[start + j]),
            out@ == first.take(i - start),
            forall|j: int| 0 <= j < i - start ==> is_container_char(#[trigger] first[j]),
        decreases end - i,
    {
        let c = crate::text::ascii_lower_exec(chars[i]);
        if !(crate::text::is_ascii_alphanumeric_exec(c) || c == '_') {
            assert(!is_container_char(first[i - start]));
            return None;
        }
        crate::text::push_char(&mut out, c);
        assert(first.take(i + 1 - start) =~= first.take(i - start).push(first[i - start]));
        i += 1;
    }
    assert(first.take(end - start) =~= first);
    Some(out)
}

/// How subtitles of `codec` are drawn.
pub fn classify_subtitle(codec: &str) -> (k: SubtitleKind)
    ensures
        k == subtitle_kind_of(codec@),
{
    proof {
        reveal_strlit("ass");
        reveal_strlit("mov_text");
        reveal_strlit("srt");
        reveal_strlit("ssa");
        reveal_strlit("subrip");
        reveal_strlit("text");
        reveal_strlit("webvtt");
        reveal_strlit("dvb_subtitle");
        reveal_strlit("dvd_subtitle");
        reveal_strlit("hdmv_pgs_subtitle");
        reveal_strlit("xsub");
        let t = text_codecs();
        let b = bitmap_codecs();
        assert(t[0] == "ass"@ && t[1] == "mov_text"@ && t[2] == "srt"@ && t[3] == "ssa"@ && t[4]
            == "subrip"@ && t[5] == "text"@ && t[6] == "webvtt"@);
        assert(b[0] == "dvb_subtitle"@ && b[1] == "dvd_subtitle"@ && b[2] == "hdmv_pgs_subtitle"@
            && b[3] == "xsub"@);
    }
    if str_eq(codec, "ass") || str_eq(codec, "mov_text") || str_eq(codec, "srt") || str_eq(
        codec,
        "ssa",
    ) || str_eq(codec, "subrip") || str_eq(codec, "text") || str_eq(codec, "webvtt") {
        SubtitleKind::Text
    } else if str_eq(codec, "dvb_subtitle") || str_eq(codec, "dvd_subtitle") || str_eq(
        codec,
        "hdmv_pgs_subtitle",
    ) || str_eq(codec, "xsub") {
        proof {
            let t = text_codecs();
            assert(!t.contains(codec@)) by {
                if t.contains(codec@) {
                    let k = choose|k: int| 0 <= k < t.len() && t[k] == codec@;
                }
            }
        }
        SubtitleKind::Bitmap
    } else {
        proof {
            let t = text_codecs();
            let b = bitmap_codecs();
            assert(!t.contains(codec@)) by {
                if t.contains(codec@) {
                    let k = choose|k: int| 0 <= k < t.len() && t[k] == codec@;
                }
            }
            assert(!b.contains(codec@)) by {
                if b.contains(codec@) {
                    let k = choose|k: int| 0 <= k < b.len() && b[k] == codec@;
                }
            }
        }
        SubtitleKind::Unknown
    }
}

} // verus!

verus! {

// ---------------------------------------------------------------------------
// Tracks
// ---------------------------------------------------------------------------

pub ghost struct VideoView {
    pub id: Seq<char>,
    pub codec: Seq<char>,
    pub width: Option<u32>,
    pub height: Option<u32>,
}

pub ghost struct AudioView {
    pub id: Seq<char>,
    pub codec: Seq<char>,
    pub channels: Option<u16>,
    pub language: Option<Seq<char>>,
    pub title: Option<Seq<char>>,
    pub is_default: bool,
}

pub ghost struct SubtitleView {
    pub id: Seq<char>,
    pub codec: Seq<char>,
    pub language: Option<Seq<char>>,
    pub title: Option<Seq<char>>,
    pub is_default: bool,
    pub is_forced: bool,
    pub kind: SubtitleKind,
}

pub ghost struct MappingView {
    pub id: Seq<char>,
    pub source_index: u32,
    pub kind: Seq<char>,
}

/// The tracks read from a probe, in stream order.
pub ghost struct TracksView {
    pub video: Option<VideoView>,
    pub audio: Seq<AudioView>,
    pub subtitles: Seq<SubtitleView>,
    pub mappings: Seq<MappingView>,
}

pub open spec fn opt_text(o: Option<String>) -> Option<Seq<char>> {
    match o {
        Some(s) => Some(s@),
        None => None,
    }
}

pub open spec fn or_empty(o: Option<Seq<char>>) -> Seq<char> {
    match o {
        Some(s) => s,
        None => Seq::empty(),
    }
}

pub open spec fn video_kind() -> Seq<char> {
    seq!['v', 'i', 'd', 'e', 'o']
}

pub open spec fn audio_kind() -> Seq<char> {
    seq!['a', 'u', 'd', 'i', 'o']
}

pub open spec fn subtitle_kind() -> Seq<char> {
    seq!['s', 'u', 'b', 't', 'i', 't', 'l', 'e']
}

/// The text a track identifier is derived from:
/// `media:kind:index:codec:language:detail`.
pub open spec fn track_key(
    media_id: Seq<char>,
    kind: Seq<char>,
    index: u32,
    codec: Seq<char>,
    language: Option<Seq<char>>,
    detail: Option<Seq<char>>,
) -> Seq<char> {
    media_id + seq![':'] + kind + seq![':'] + dec_text(index as nat) + seq![':'] + codec + seq![':']
        + or_empty(language) + seq![':'] + or_empty(detail)
}

/// The identifier of a track: the version-5 UUID of its key in the OID
/// namespace, so that it is stable and reveals nothing of the media.
pub open spec fn track_id_of(
    media_id: Seq<char>,
    kind: Seq<char>,
    index: u32,
    codec: Seq<char>,
    language: Option<Seq<char>>,
    detail: Option<Seq<char>>,
) -> Seq<char> {
    uuid_v5_text(
        NAMESPACE_OID,
        vstd::utf8::encode_utf8(track_key(media_id, kind, index, codec, language, detail)),
    )
}

/// What tells two audio tracks apart beyond codec and language: the title
/// and the channel count.
pub open spec fn audio_detail(title: Option<Seq<char>>, channels: Option<u16>) -> Seq<char> {
    or_empty(title) + seq![':'] + dec_text(
        match channels {
            Some(c) => c as nat,
            None => 0,
        },
    )
}

/// The tracks after one more stream: streams without a codec or a type are
/// skipped; the first video stream is kept; every audio and subtitle stream
/// is kept; other streams are skipped.
pub open spec fn add_stream(acc: TracksView, media_id: Seq<char>, s: ProbeStream) -> TracksView {
    match clean_label_of(opt_text(s.codec_name)) {
        None => acc,
        Some(codec) => match opt_text(s.codec_type) {
            None => acc,
            Some(kind) => if kind == video_kind() && acc.video is None {
                let id = track_id_of(media_id, kind, s.index, codec, None, None);
                TracksView {
                    video: Some(VideoView { id, codec, width: s.width, height: s.height }),
                    mappings: acc.mappings.push(
                        MappingView { id, source_index: s.index, kind: video_kind() },
                    ),
                    ..acc
                }
            } else if kind == audio_kind() {
                let language = clean_label_of(opt_text(s.language));
                let title = clean_label_of(opt_text(s.title));
                let id = track_id_of(
                    media_id,
                    kind,
                    s.index,
                    codec,
                    language,
                    Some(audio_detail(title, s.channels)),
                );
                TracksView {
                    audio: acc.audio.push(
                        AudioView {
                            id,
                            codec,
                            channels: s.channels,
                            language,
                            title,
                            is_default: s.default_disposition == 1,
                        },
                    ),
                    mappings: acc.mappings.push(
                        MappingView { id, source_index: s.index, kind: audio_kind() },
                    ),
                    ..acc
                }
            } else if kind == subtitle_kind() {
                let language = clean_label_of(opt_text(s.language));
                let title = clean_label_of(opt_text(s.title));
                let id = track_id_of(media_id, kind, s.index, codec, language, title);
                TracksView {
                    subtitles: acc.subtitles.push(
                        SubtitleView {
                            id,
                            codec,
                            language,
                            title,
                            is_default: s.default_disposition == 1,
                            is_forced: s.forced_disposition == 1,
                            kind: subtitle_kind_of(codec),
                        },
                    ),
                    mappings: acc.mappings.push(
                        MappingView { id, source_index: s.index, kind: subtitle_kind() },
                    ),
                    ..acc
                }
            } else {
                acc
            },
        },
    }
}

pub open spec fn no_tracks() -> TracksView {
    TracksView { video: None, audio: Seq::empty(), subtitles: Seq::empty(), mappings: Seq::empty() }
}

/// The tracks of `streams`, read in order.
pub open spec fn tracks_of(media_id: Seq<char>, streams: Seq<ProbeStream>) -> TracksView
    decreases streams.len(),
{
    if streams.len() == 0 {
        no_tracks()
    } else {
        add_stream(tracks_of(media_id, streams.drop_last()), media_id, streams.last())
    }
}

/// What a probe reads as: too many streams are refused; a missing format or
/// an unusable container name is malformed; otherwise the container, the
/// duration and the tracks.
pub open spec fn probe_outcome(media_id: Seq<char>, output: ProbeOutput) -> Result<
    (Seq<char>, Option<u64>, TracksView),
    ProbeError,
> {
    if output.streams@.len() > MAX_TRACKS {
        Err(ProbeError::TooManyStreams)
    } else {
        match output.format {
            None => Err(ProbeError::Malformed),
            Some(f) => match container_of(opt_text(f.format_name)) {
                None => Err(ProbeError::Malformed),
                Some(c) => Ok((c, f.duration_millis, tracks_of(media_id, output.streams@))),
            },
        }
    }
}

pub open spec fn video_view(v: VideoTrack) -> VideoView {
    VideoView { id: v.id@, codec: v.codec@, width: v.width, height: v.height }
}

pub open spec fn audio_view(a: AudioTrack) -> AudioView {
    AudioView {
        id: a.id@,
        codec: a.codec@,
        channels: a.channels,
        language: opt_text(a.language),
        title: opt_text(a.title),
        is_default: a.is_default,
    }
}

pub open spec fn subtitle_view(t: SubtitleTrack) -> SubtitleView {
    SubtitleView {
        id: t.id@,
        codec: t.codec@,
        language: opt_text(t.language),
        title: opt_text(t.title),
        is_default: t.is_default,
        is_forced: t.is_forced,
        kind: t.kind,
    }
}

pub open spec fn mapping_view(m: TrackMapping) -> MappingView {
    MappingView { id: m.id@, source_index: m.source_index, kind: m.kind@ }
}

/// The views of the tracks held by `video`, `audio`, `subtitles` and
/// `mappings`.
pub open spec fn tracks_view(
    video: Option<VideoTrack>,
    audio: Seq<AudioTrack>,
    subtitles: Seq<SubtitleTrack>,
    mappings: Seq<TrackMapping>,
) -> TracksView {
    TracksView {
        video: match video {
            Some(v) => Some(video_view(v)),
            None => None,
        },
        audio: audio.map_values(|a: AudioTrack| audio_view(a)),
        subtitles: subtitles.map_values(|t: SubtitleTrack| subtitle_view(t)),
        mappings: mappings.map_values(|m: TrackMapping| mapping_view(m)),
    }
}

/// The identifier of a track.
fn track_id(
    media_id: &str,
    kind: &str,
    index: u32,
    codec: &str,
    language: Option<&str>,
    detail: Option<&str>,
) -> (id: String)
    ensures
        id@ == track_id_of(
            media_id@,
            kind@,
            index,
            codec@,
            match language {
                Some(l) => Some(l@),
                None => None,
            },
            match detail {
                Some(d) => Some(d@),
                None => None,
            },
        ),
{
    let mut key = String::new();
    append_str(&mut key, media_id);
    append_str(&mut key, ":");
    append_str(&mut key, kind);
    append_str(&mut key, ":");
    append_decimal(&mut key, index as u64);
    append_str(&mut key, ":");
    append_str(&mut key, codec);
    append_str(&mut key, ":");
    if let Some(l) = language {
        append_str(&mut key, l);
    }
    append_str(&mut key, ":");
    if let Some(d) = detail {
        append_str(&mut key, d);
    }
    proof {
        reveal_strlit(":");
        assert(key@ =~= track_key(
            media_id@,
            kind@,
            index,
            codec@,
            match language {
                Some(l) => Some(l@),
                None => None,
            },
            match detail {
                Some(d) => Some(d@),
                None => None,
            },
        ));
    }
    uuid_v5(NAMESPACE_OID, key.as_str().as_bytes())
}

fn opt_str(o: &Option<String>) -> (r: Option<&str>)
    ensures
        match o {
            Some(s) => r matches Some(t) && t@ == s@,
            None => r is None,
        },
{
    match o {
        Some(s) => Some(s.as_str()),
        None => None,
    }
}

/// Reads one stream into the tracks gathered so far.
fn add_stream_exec(
    media_id: &str,
    s: &ProbeStream,
    video: &mut Option<VideoTrack>,
    audio: &mut Vec<AudioTrack>,
    subtitles: &mut Vec<SubtitleTrack>,
    mappings: &mut Vec<TrackMapping>,
)
    ensures
        tracks_view(*final(video), final(audio)@, final(subtitles)@, final(mappings)@)
            == add_stream(
            tracks_view(*old(video), old(audio)@, old(subtitles)@, old(mappings)@),
            media_id@,
            *s,
        ),
{
    let ghost acc = tracks_view(*video, audio@, subtitles@, mappings@);
    let codec = match clean_label(opt_str(&s.codec_name)) {
        Some(c) => c,
        None => return ,
    };
    let ghost codec_v = codec@;
    let kind = match opt_str(&s.codec_type) {
        Some(k) => k,
        None => return ,
    };
    proof {
        reveal_strlit("video");
        reveal_strlit("audio");
        reveal_strlit("subtitle");
    }
    if str_eq(kind, "video") && video.is_none() {
        let id = track_id(media_id, kind, s.index, codec.as_str(), None, None);
        *video = Some(VideoTrack { id: id.clone(), codec, width: s.width, height: s.height });
        mappings.push(TrackMapping { id, source_index: s.index, kind: "video" });
        proof {
            assert(kind@ == video_kind());
            assert(clean_label_of(opt_text(s.codec_name)) == Some(codec@));
            let t = tracks_view(*video, audio@, subtitles@, mappings@);
            let a = add_stream(acc, media_id@, *s);
            assert(t.video == a.video);
            assert(t.audio == a.audio);
            assert(t.subtitles == a.subtitles);
            assert(t.mappings == a.mappings);
            assert(tracks_view(*video, audio@, subtitles@, mappings@) == add_stream(acc, media_id@, *s));

            assert(mappings@.map_values(|m: TrackMapping| mapping_view(m)) =~= old(
                mappings,
            )@.map_values(|m: TrackMapping| mapping_view(m)).push(
                mapping_view(mappings@.last()),
            ));
            assert(tracks_view(*video, audio@, subtitles@, mappings@) == add_stream(acc, media_id@, *s));
        }
    } else if str_eq(kind, "audio") {
        let language = clean_label(opt_str(&s.language));
        let title = clean_label(opt_str(&s.title));
        let ghost language_v = opt_text(language);
        let ghost title_v = opt_text(title);
        assert(language_v == clean_label_of(opt_text(s.language)));
        assert(title_v == clean_label_of(opt_text(s.title)));
        let mut detail = String::new();
        match &title {
            Some(t) => append_str(&mut detail, t.as_str()),
            None => {},
        }
        append_str(&mut detail, ":");
        let channels: u64 = match s.channels {
            Some(c) => c as u64,
            None => 0,
        };
        append_decimal(&mut detail, channels);
        proof {
            reveal_strlit(":");
            assert(detail@ =~= audio_detail(opt_text(title), s.channels));
        }
        let ghost id_v = track_id_of(
            media_id@,
            kind@,
            s.index,
            codec@,
            language_v,
            Some(audio_detail(title_v, s.channels)),
        );
        let id = track_id(
            media_id,
            kind,
            s.index,
            codec.as_str(),
            opt_str(&language),
            Some(detail.as_str()),
        );
        assert(id@ == id_v);
        let track = AudioTrack {
            id: id.clone(),
            codec,
            channels: s.channels,
            language,
            title,
            is_default: s.default_disposition == 1,
        };
        assert(audio_view(track) == AudioView {
            id: id_v,
            codec: codec_v,
            channels: s.channels,
            language: language_v,
            title: title_v,
            is_default: s.default_disposition == 1,
        });
        proof {
            assert(kind@ =~= audio_kind());
            assert(kind@[0] != video_kind()[0]);
            assert(clean_label_of(opt_text(s.codec_name)) == Some(codec_v));
            assert(opt_text(s.codec_type) == Some(kind@));
            assert(add_stream(acc, media_id@, *s).audio == acc.audio.push(AudioView {
                id: id_v,
                codec: codec_v,
                channels: s.channels,
                language: language_v,
                title: title_v,
                is_default: s.default_disposition == 1,
            }));
        }
        audio.push(track);
        mappings.push(TrackMapping { id, source_index: s.index, kind: "audio" });
        proof {
            assert(audio@.map_values(|a: AudioTrack| audio_view(a)) =~= old(audio)@.map_values(
                |a: AudioTrack| audio_view(a),
            ).push(audio_view(audio@.last())));
            assert(mappings@.map_values(|m: TrackMapping| mapping_view(m)) =~= old(
                mappings,
            )@.map_values(|m: TrackMapping| mapping_view(m)).push(
                mapping_view(mappings@.last()),
            ));
            assert(tracks_view(*video, audio@, subtitles@, mappings@) == add_stream(acc, media_id@, *s));
        }
    } else if str_eq(kind, "subtitle") {
        let language = clean_label(opt_str(&s.language));
        let title = clean_label(opt_str(&s.title));
        let ghost language_v = opt_text(language);
        let ghost title_v = opt_text(title);
        assert(language_v == clean_label_of(opt_text(s.language)));
        assert(title_v == clean_label_of(opt_text(s.title)));
        let id = track_id(
            media_id,
            kind,
            s.index,
            codec.as_str(),
            opt_str(&language),
            opt_str(&title),
        );
        let drawn = classify_subtitle(codec.as_str());
        let track = SubtitleTrack {
            id: id.clone(),
            codec,
            language,
            title,
            is_default: s.default_disposition == 1,
            is_forced: s.forced_disposition == 1,
            kind: drawn,
        };
        assert(subtitle_view(track) == SubtitleView {
            id: track_id_of(media_id@, kind@, s.index, codec_v, language_v, title_v),
            codec: codec_v,
            language: language_v,
            title: title_v,
            is_default: s.default_disposition == 1,
            is_forced: s.forced_disposition == 1,
            kind: subtitle_kind_of(codec_v),
        });
        proof {
            assert(kind@ =~= subtitle_kind());
            assert(kind@.len() != video_kind().len());
            assert(kind@.len() != audio_kind().len());
            assert(clean_label_of(opt_text(s.codec_name)) == Some(codec_v));
            assert(opt_text(s.codec_type) == Some(kind@));
            let sub = SubtitleView {
                id: track_id_of(media_id@, kind@, s.index, codec_v, language_v, title_v),
                codec: codec_v,
                language: language_v,
                title: title_v,
                is_default: s.default_disposition == 1,
                is_forced: s.forced_disposition == 1,
                kind: subtitle_kind_of(codec_v),
            };
            let map = MappingView {
                id: track_id_of(media_id@, kind@, s.index, codec_v, language_v, title_v),
                source_index: s.index,
                kind: subtitle_kind(),
            };
            assert(add_stream(acc, media_id@, *s) == TracksView {
                subtitles: acc.subtitles.push(sub),
                mappings: acc.mappings.push(map),
                ..acc
            });
        }
        subtitles.push(track);
        mappings.push(TrackMapping { id, source_index: s.index, kind: "subtitle" });
        proof {
            assert(subtitles@.map_values(|t: SubtitleTrack| subtitle_view(t)) =~= old(
                subtitles,
            )@.map_values(|t: SubtitleTrack| subtitle_view(t)).push(
                subtitle_view(subtitles@.last()),
            ));
            assert(mappings@.map_values(|m: TrackMapping| mapping_view(m)) =~= old(
                mappings,
            )@.map_values(|m: TrackMapping| mapping_view(m)).push(
                mapping_view(mappings@.last()),
            ));
            assert(tracks_view(*video, audio@, subtitles@, mappings@) == add_stream(acc, media_id@, *s));
        }
    } else {
        proof {
            assert("video"@ =~= video_kind());
            assert("audio"@ =~= audio_kind());
            assert("subtitle"@ =~= subtitle_kind());
            assert(clean_label_of(opt_text(s.codec_name)) == Some(codec_v));
            assert(opt_text(s.codec_type) == Some(kind@));
            assert(add_stream(acc, media_id@, *s) == acc);
            assert(tracks_view(*video, audio@, subtitles@, mappings@) == add_stream(acc, media_id@, *s));
        }
    }
}

/// Reads what the prober reported about a file into the catalog's metadata
/// and the mapping of each kept track to its source stream.
///
/// More than `MAX_TRACKS` streams are refused; a probe without a format, or
/// whose format names no usable container, is malformed.  Otherwise the
/// container is the first listed format name, the duration is passed on,
/// and the streams are read in order: those without a codec or a type are
/// skipped, the first video stream is kept, and every audio and subtitle
/// stream is kept with cleaned labels and a stable identifier.
pub fn normalize_probe(media_id: &str, output: ProbeOutput) -> (r: Result<ProbeResult, ProbeError>)
    ensures
        match probe_outcome(media_id@, output) {
            Ok((container, duration, tracks)) => r matches Ok(p) && p.metadata.container@
                == container && p.metadata.duration_millis == duration && tracks_view(
                p.metadata.video,
                p.metadata.audio_tracks@,
                p.metadata.subtitle_tracks@,
                p.mappings@,
            ) == tracks,
            Err(e) => r == Err::<ProbeResult, ProbeError>(e),
        },
{
    if output.streams.len() > MAX_TRACKS {
        return Err(ProbeError::TooManyStreams);
    }
    let format = match &output.format {
        Some(f) => f,
        None => return Err(ProbeError::Malformed),
    };
    let container = match normalize_container(opt_str(&format.format_name)) {
        Some(c) => c,
        None => return Err(ProbeError::Malformed),
    };
    let duration_millis = format.duration_millis;
    let mut video: Option<VideoTrack> = None;
    let mut audio_tracks: Vec<AudioTrack> = Vec::new();
    let mut subtitle_tracks: Vec<SubtitleTrack> = Vec::new();
    let mut mappings: Vec<TrackMapping> = Vec::new();
    let mut i: usize = 0;
    proof {
        assert(audio_tracks@.map_values(|a: AudioTrack| audio_view(a)) =~= Seq::empty());
        assert(subtitle_tracks@.map_values(|t: SubtitleTrack| subtitle_view(t)) =~= Seq::empty());
        assert(mappings@.map_values(|m: TrackMapping| mapping_view(m)) =~= Seq::empty());
        assert(output.streams@.take(0) =~= Seq::<ProbeStream>::empty());
    }
    while i < output.streams.len()
        invariant
            i <= output.streams.len(),
            tracks_view(video, audio_tracks@, subtitle_tracks@, mappings@) == tracks_of(
                media_id@,
                output.streams@.take(i as int),
            ),
        decreases output.streams.len() - i,
    {
        add_stream_exec(
            media_id,
            &output.streams[i],
            &mut video,
            &mut audio_tracks,
            &mut subtitle_tracks,
            &mut mappings,
        );
        proof {
            assert(output.streams@.take(i + 1).drop_last() =~= output.streams@.take(i as int));
        }
        i += 1;
    }
    proof {
        assert(output.streams@.take(i as int) =~= output.streams@);
    }
    Ok(
        ProbeResult {
            metadata: MediaMetadata {
                container,
                duration_millis,
                video,
                audio_tracks,
                subtitle_tracks,
            },
            mappings,
        },
    )
}

} // verus!
