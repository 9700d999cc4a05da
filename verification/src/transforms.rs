//! The media transforms run by `ffmpeg`: HLS packaging, remuxing into
//! another container and transcoding.  For each, what the request admits,
//! the bytes it reserves, the job key that makes identical work shared, and
//! the exact command line.
//!
//! Paths stay with the application: a command line names the input, the
//! output and the segment pattern by placeholders that it fills in.
use vstd::prelude::*;

use crate::compatibility::{PlaybackDecision, PlaybackMethod, SubtitleDelivery};
use crate::media::SubtitleKind;
use crate::media_jobs::{MediaJobKey, MediaJobSubmitError, MAX_KEY_BYTES};
use crate::native_client::byte_len;
use crate::text::{append_decimal, append_str, dec_text, eq_ignore_ascii_case, str_eq};

verus! {

broadcast use vstd::string::group_string_axioms;

/// One argument of a command line.
#[derive(Debug, Clone, PartialEq, Eq)]
pub enum CommandArg {
    Text(String),
    /// The source media file.
    InputPath,
    /// The file the command writes (for HLS, the playlist).
    OutputPath,
    /// The pattern of HLS segment files.
    SegmentPattern,
}

pub ghost enum ArgView {
    Text(Seq<char>),
    InputPath,
    OutputPath,
    SegmentPattern,
}

impl View for CommandArg {
    type V = ArgView;

    open spec fn view(&self) -> ArgView {
        match self {
            CommandArg::Text(s) => ArgView::Text(s@),
            CommandArg::InputPath => ArgView::InputPath,
            CommandArg::OutputPath => ArgView::OutputPath,
            CommandArg::SegmentPattern => ArgView::SegmentPattern,
        }
    }
}

pub open spec fn args_view(args: Seq<CommandArg>) -> Seq<ArgView> {
    args.map_values(|a: CommandArg| a@)
}

pub open spec fn t(s: &str) -> ArgView {
    ArgView::Text(s@)
}

/// `0:<index>`, the stream selector of input stream `index`.
pub open spec fn stream_selector(index: u32) -> Seq<char> {
    seq!['0', ':'] + dec_text(index as nat)
}

/// A text argument.
fn text(s: &str) -> (r: CommandArg)
    ensures
        r@ == ArgView::Text(s@),
{
    CommandArg::Text(s.to_owned())
}

/// The argument `0:<index>`.
fn selector(index: u32) -> (r: CommandArg)
    ensures
        r@ == ArgView::Text(stream_selector(index)),
{
    let mut s = String::new();
    append_str(&mut s, "0:");
    append_decimal(&mut s, index as u64);
    proof {
        reveal_strlit("0:");
        assert(s@ =~= stream_selector(index));
    }
    CommandArg::Text(s)
}

/// Appends the arguments of `more` in order.
fn extend(args: &mut Vec<CommandArg>, more: Vec<CommandArg>)
    ensures
        args_view(final(args)@) == args_view(old(args)@) + args_view(more@),
{
    let ghost start = args@;
    let mut i: usize = 0;
    let mut rest = more;
    let ghost all = rest@;
    assert(all.len() == rest.len());
    assert(all.skip(0) =~= all);
    assert(all.take(0) =~= Seq::<CommandArg>::empty());
    assert(args_view(start) + args_view(Seq::<CommandArg>::empty()) =~= args_view(start));
    while rest.len() > 0
        invariant
            i <= all.len(),
            all.len() <= usize::MAX,
            rest@ == all.skip(i as int),
            args_view(args@) == args_view(start) + args_view(all.take(i as int)),
        decreases rest.len(),
    {
        let a = rest.remove(0);
        let ghost before = args@;
        args.push(a);
        proof {
            assert(rest@ =~= all.skip(i + 1));
            assert(all.take(i + 1) =~= all.take(i as int).push(a));
            assert(args_view(args@) =~= args_view(before).push(a@));
            assert(args_view(all.take(i + 1)) =~= args_view(all.take(i as int)).push(a@));
        }
        i = i + 1;
    }
    proof {
        assert(all.take(i as int) =~= all);
    }
}

// ---------------------------------------------------------------------------
// HLS
// ---------------------------------------------------------------------------

/// The name of the HLS playlist.
pub const PLAYLIST_NAME: &'static str = "index.m3u8";

/// Bytes reserved beyond the source for an HLS package.
pub const HLS_OVERHEAD_BYTES: u64 = 16777216;

/// Seconds an HLS packaging process may run.
pub const HLS_TIMEOUT_SECONDS: u64 = 14400;

/// Seconds a remux process may run.
pub const REMUX_TIMEOUT_SECONDS: u64 = 7200;

/// Seconds a transcode process may run.
pub const TRANSCODE_TIMEOUT_SECONDS: u64 = 14400;

/// The most output kept of a media process's pipe.
pub const PROCESS_OUTPUT_LIMIT: usize = 1048576;

/// Whether an HLS package copies the source video or re-encodes it.
#[derive(Debug, Clone, Copy, PartialEq, Eq, Structural)]
pub enum HlsVideoMode {
    Copy,
    Transcode,
}

#[derive(Debug, Clone, Copy, PartialEq, Eq, Structural)]
pub enum HlsError {
    UnknownMedia,
    UnsupportedInput,
    InvalidTrack,
    OutsideApprovedLibrary,
    Unavailable,
    Job(MediaJobSubmitError),
}

impl HlsError {
    /// The message shown for this error.
    pub fn message(&self) -> (r: &'static str)
        ensures
            r == (match self {
                HlsError::UnknownMedia => "the requested media does not exist",
                HlsError::UnsupportedInput => "the media metadata is unavailable",
                HlsError::InvalidTrack => "the selected audio track is unavailable",
                HlsError::OutsideApprovedLibrary => "the media source is outside the approved library",
                HlsError::Unavailable => "the HLS service is unavailable",
                HlsError::Job(e) => crate::media_jobs::submit_error_text(*e),
            }),
    {
        match self {
            HlsError::UnknownMedia => "the requested media does not exist",
            HlsError::UnsupportedInput => "the media metadata is unavailable",
            HlsError::InvalidTrack => "the selected audio track is unavailable",
            HlsError::OutsideApprovedLibrary => "the media source is outside the approved library",
            HlsError::Unavailable => "the HLS service is unavailable",
            HlsError::Job(e) => e.message(),
        }
    }
}

/// Whether `name` is an asset of an HLS package: the playlist, or a segment
/// `segment-NNNNNN.ts` with exactly six ASCII digits.
pub open spec fn is_asset_name_of(name: Seq<char>) -> bool {
    name == PLAYLIST_NAME@ || (name.len() == 17 && name.take(8) == "segment-"@ && name.skip(14)
        == ".ts"@ && forall|i: int| 8 <= i < 14 ==> crate::text::is_digit(#[trigger] name[i]))
}

/// Whether `name` is an asset of an HLS package (see `is_asset_name_of`).
pub fn is_asset_name(name: &str) -> (r: bool)
    ensures
        r == is_asset_name_of(name@),
{
    proof {
        reveal_strlit("index.m3u8");
        reveal_strlit("segment-");
        reveal_strlit(".ts");
    }
    if str_eq(name, PLAYLIST_NAME) {
        return true;
    }
    let chars = crate::text::chars_of(name);
    if chars.len() != 17 {
        return false;
    }
    assert(chars@.skip(0) =~= chars@);
    assert(chars@.skip(14).take(3) =~= chars@.skip(14));
    if !crate::text::has_prefix_at(&chars, 0, "segment-") {
        return false;
    }
    if !crate::text::has_prefix_at(&chars, 14, ".ts") {
        return false;
    }
    let mut i: usize = 8;
    while i < 14
        invariant
            8 <= i <= 14,
            chars@ == name@,
            chars@.len() == 17,
            name@ != PLAYLIST_NAME@,
            forall|k: int| 8 <= k < i ==> crate::text::is_digit(#[trigger] name@[k]),
        decreases 14 - i,
    {
        if !crate::text::is_digit_exec(chars[i]) {
            assert(!crate::text::is_digit(name@[i as int]));
            assert(name@ != PLAYLIST_NAME@);
            return false;
        }
        i += 1;
    }
    true
}

/// What an HLS request asks of the job manager, and the limits of its
/// process.
pub struct HlsPlan {
    pub video_mode: HlsVideoMode,
    pub reservation: u64,
    pub key: MediaJobKey,
    pub timeout_seconds: u64,
    pub output_limit: usize,
}

/// The video mode of an HLS package: H.264 (in any case) is copied.
pub open spec fn hls_mode_of(video_codec: Seq<char>) -> HlsVideoMode {
    if eq_ignore_ascii_case(video_codec, "h264"@) {
        HlsVideoMode::Copy
    } else {
        HlsVideoMode::Transcode
    }
}

/// `-` or the decimal index.
pub open spec fn index_text(index: Option<u32>) -> Seq<char> {
    match index {
        Some(i) => dec_text(i as nat),
        None => seq!['-'],
    }
}

/// The job key of an HLS package:
/// `hls:<media>:<video index>:<audio index or ->:<copy|h264>`.
pub open spec fn hls_key_of(media_id: Seq<char>, video_index: u32, audio_index: Option<u32>, mode: HlsVideoMode) -> Seq<char> {
    "hls:"@ + media_id + seq![':'] + dec_text(video_index as nat) + seq![':'] + index_text(
        audio_index,
    ) + seq![':'] + match mode {
        HlsVideoMode::Copy => "copy"@,
        HlsVideoMode::Transcode => "h264"@,
    }
}

/// What an HLS request plans to: a source that could not be located is
/// unavailable, one that is not strictly inside its library is refused;
/// the reservation is the source size (twice it when re-encoding) plus
/// 16 MiB, refused when it overflows; the key must be a valid job key.
pub open spec fn hls_plan_of(
    media_id: Seq<char>,
    source_size_bytes: u64,
    video_index: u32,
    video_codec: Seq<char>,
    audio_index: Option<u32>,
    location: SourceLocation,
) -> Result<(HlsVideoMode, u64, Seq<char>), HlsError> {
    let mode = hls_mode_of(video_codec);
    let multiplier: int = if mode == HlsVideoMode::Copy {
        1
    } else {
        2
    };
    let reservation = source_size_bytes * multiplier + HLS_OVERHEAD_BYTES;
    let key = hls_key_of(media_id, video_index, audio_index, mode);
    if location == SourceLocation::Unavailable {
        Err(HlsError::Unavailable)
    } else if location == SourceLocation::Outside {
        Err(HlsError::OutsideApprovedLibrary)
    } else if source_size_bytes * multiplier > u64::MAX || reservation > u64::MAX {
        Err(HlsError::UnsupportedInput)
    } else if key.len() == 0 || byte_len(key) > MAX_KEY_BYTES {
        Err(HlsError::Job(MediaJobSubmitError::InvalidKey))
    } else {
        Ok((mode, reservation as u64, key))
    }
}

/// Appends `-` or the decimal index.
fn append_index(s: &mut String, index: Option<u32>)
    ensures
        final(s)@ == old(s)@ + index_text(index),
{
    match index {
        Some(i) => append_decimal(s, i as u64),
        None => {
            append_str(s, "-");
            proof {
                reveal_strlit("-");
            }
        },
    }
}

/// Plans an HLS package of a source found at `location` (see
/// `hls_plan_of`); its process runs at most four hours and keeps at most
/// 1 MiB of each output pipe.
pub fn plan_hls(
    media_id: &str,
    source_size_bytes: u64,
    video_index: u32,
    video_codec: &str,
    audio_index: Option<u32>,
    location: SourceLocation,
) -> (r: Result<HlsPlan, HlsError>)
    ensures
        match hls_plan_of(
            media_id@,
            source_size_bytes,
            video_index,
            video_codec@,
            audio_index,
            location,
        ) {
            Ok((mode, reservation, key)) => (r matches Ok(p) && p.video_mode == mode
                && p.reservation == reservation && p.key@ == key && p.timeout_seconds
                == HLS_TIMEOUT_SECONDS && p.output_limit == PROCESS_OUTPUT_LIMIT),
            Err(e) => r == Err::<HlsPlan, HlsError>(e),
        },
{
    match location {
        SourceLocation::Unavailable => return Err(HlsError::Unavailable),
        SourceLocation::Outside => return Err(HlsError::OutsideApprovedLibrary),
        SourceLocation::Inside => {},
    }
    proof {
        reveal_strlit("h264");
        reveal_strlit("hls:");
        reveal_strlit("copy");
        reveal_strlit(":");
    }
    let video_mode = if crate::text::eq_ignore_ascii_case_exec(video_codec, "h264") {
        HlsVideoMode::Copy
    } else {
        HlsVideoMode::Transcode
    };
    let multiplier: u64 = if video_mode == HlsVideoMode::Copy {
        1
    } else {
        2
    };
    let scaled = match source_size_bytes.checked_mul(multiplier) {
        Some(v) => v,
        None => return Err(HlsError::UnsupportedInput),
    };
    let reservation = match scaled.checked_add(HLS_OVERHEAD_BYTES) {
        Some(v) => v,
        None => return Err(HlsError::UnsupportedInput),
    };
    let mut key = String::new();
    append_str(&mut key, "hls:");
    append_str(&mut key, media_id);
    append_str(&mut key, ":");
    append_decimal(&mut key, video_index as u64);
    append_str(&mut key, ":");
    append_index(&mut key, audio_index);
    append_str(&mut key, ":");
    match video_mode {
        HlsVideoMode::Copy => append_str(&mut key, "copy"),
        HlsVideoMode::Transcode => append_str(&mut key, "h264"),
    }
    assert(key@ =~= hls_key_of(media_id@, video_index, audio_index, video_mode));
    let key = match MediaJobKey::new(key) {
        Ok(k) => k,
        Err(e) => return Err(HlsError::Job(e)),
    };
    Ok(
        HlsPlan {
            video_mode,
            reservation,
            key,
            timeout_seconds: HLS_TIMEOUT_SECONDS,
            output_limit: PROCESS_OUTPUT_LIMIT,
        },
    )
}

/// The `ffmpeg` command line of an HLS package: the chosen video stream
/// (copied, or re-encoded to H.264 with a key frame every four seconds),
/// the chosen audio stream in stereo AAC if any, no subtitles or data, cut
/// into four-second segments of an event playlist.
pub open spec fn hls_args_of(video_index: u32, audio_index: Option<u32>, mode: HlsVideoMode) -> Seq<ArgView> {
    seq![t("-v"), t("error"), t("-nostdin"), t("-y"), t("-i"), ArgView::InputPath, t("-map"), ArgView::Text(stream_selector(video_index))]
        + match audio_index {
        Some(i) => seq![t("-map"), ArgView::Text(stream_selector(i))],
        None => Seq::empty(),
    } + seq![t("-sn"), t("-dn")] + match mode {
        HlsVideoMode::Copy => seq![t("-c:v"), t("copy")],
        HlsVideoMode::Transcode => seq![
            t("-c:v"),
            t("libx264"),
            t("-preset"),
            t("veryfast"),
            t("-crf"),
            t("23"),
            t("-pix_fmt"),
            t("yuv420p"),
            t("-force_key_frames"),
            t("expr:gte(t,n_forced*4)"),
        ],
    } + match audio_index {
        Some(_) => seq![t("-c:a"), t("aac"), t("-b:a"), t("192k"), t("-ac"), t("2")],
        None => Seq::empty(),
    } + seq![
        t("-f"),
        t("hls"),
        t("-hls_time"),
        t("4"),
        t("-hls_list_size"),
        t("0"),
        t("-hls_playlist_type"),
        t("event"),
        t("-hls_flags"),
        t("independent_segments+temp_file"),
        t("-hls_segment_filename"),
        ArgView::SegmentPattern,
        ArgView::OutputPath,
    ]
}

/// The command line of an HLS package (see `hls_args_of`).
pub fn build_arguments(video_index: u32, audio_index: Option<u32>, video_mode: HlsVideoMode) -> (r: Vec<CommandArg>)
    ensures
        args_view(r@) == hls_args_of(video_index, audio_index, video_mode),
{
    let mut args = vec![
        text("-v"),
        text("error"),
        text("-nostdin"),
        text("-y"),
        text("-i"),
        CommandArg::InputPath,
        text("-map"),
        selector(video_index),
    ];
    let ghost a0 = args_view(args@);
    assert(a0 =~= seq![t("-v"), t("error"), t("-nostdin"), t("-y"), t("-i"), ArgView::InputPath, t("-map"), ArgView::Text(stream_selector(video_index))]);
    match audio_index {
        Some(index) => extend(&mut args, vec![text("-map"), selector(index)]),
        None => {},
    }
    extend(&mut args, vec![text("-sn"), text("-dn")]);
    match video_mode {
        HlsVideoMode::Copy => extend(&mut args, vec![text("-c:v"), text("copy")]),
        HlsVideoMode::Transcode => extend(
            &mut args,
            vec![
                text("-c:v"),
                text("libx264"),
                text("-preset"),
                text("veryfast"),
                text("-crf"),
                text("23"),
                text("-pix_fmt"),
                text("yuv420p"),
                text("-force_key_frames"),
                text("expr:gte(t,n_forced*4)"),
            ],
        ),
    }
    if audio_index.is_some() {
        extend(
            &mut args,
            vec![text("-c:a"), text("aac"), text("-b:a"), text("192k"), text("-ac"), text("2")],
        );
    }
    extend(
        &mut args,
        vec![
            text("-f"),
            text("hls"),
            text("-hls_time"),
            text("4"),
            text("-hls_list_size"),
            text("0"),
            text("-hls_playlist_type"),
            text("event"),
            text("-hls_flags"),
            text("independent_segments+temp_file"),
            text("-hls_segment_filename"),
            CommandArg::SegmentPattern,
            CommandArg::OutputPath,
        ],
    );
    assert(args_view(args@) =~= hls_args_of(video_index, audio_index, video_mode));
    args
}

// ---------------------------------------------------------------------------
// Where a source lies
// ---------------------------------------------------------------------------

/// Whether two paths are equal, component by component (a function of the
/// paths alone).
pub uninterp spec fn path_equal(a: std::path::PathBuf, b: std::path::PathBuf) -> bool;

/// Whether `path` begins with the components of `base` (a function of the
/// paths alone).
pub uninterp spec fn path_has_base(path: std::path::PathBuf, base: std::path::PathBuf) -> bool;

/// `PathBuf == PathBuf`.
#[verifier::external_body]
fn paths_equal(a: &std::path::PathBuf, b: &std::path::PathBuf) -> (r: bool)
    ensures
        r == path_equal(*a, *b),
{
    a == b
}

/// `Path::starts_with`.
#[verifier::external_body]
fn has_base(path: &std::path::PathBuf, base: &std::path::PathBuf) -> (r: bool)
    ensures
        r == path_has_base(*path, *base),
{
    path.starts_with(base)
}

/// Where a media source lies relative to its approved library.
#[derive(Debug, Clone, Copy, PartialEq, Eq, Structural)]
pub enum SourceLocation {
    /// The library or the source could not be resolved.
    Unavailable,
    /// The source is the library itself or lies outside it.
    Outside,
    /// The source lies inside the library.
    Inside,
}

/// Where a source lies, from the canonical paths of its library and of the
/// source (`None` when a path could not be resolved): only a path strictly
/// below the library's root is inside.
pub fn locate_source(root: Option<std::path::PathBuf>, input: Option<std::path::PathBuf>) -> (r:
    SourceLocation)
    ensures
        r == (match (root, input) {
            (Some(root), Some(input)) => if path_equal(input, root) || !path_has_base(
                input,
                root,
            ) {
                SourceLocation::Outside
            } else {
                SourceLocation::Inside
            },
            _ => SourceLocation::Unavailable,
        }),
{
    match (root, input) {
        (Some(root), Some(input)) => if paths_equal(&input, &root) || !has_base(&input, &root) {
            SourceLocation::Outside
        } else {
            SourceLocation::Inside
        },
        _ => SourceLocation::Unavailable,
    }
}

// ---------------------------------------------------------------------------
// Remuxing
// ---------------------------------------------------------------------------

/// Bytes reserved beyond the source for a remuxed copy.
pub const REMUX_OVERHEAD_BYTES: u64 = 1048576;

#[derive(Debug, Clone, Copy, PartialEq, Eq, Structural)]
pub enum RemuxError {
    UnknownMedia,
    UnsupportedInput,
    UnsupportedTarget,
    InvalidTrack,
    UnsupportedSubtitleDelivery,
    OutsideApprovedLibrary,
    Unavailable,
    Job(MediaJobSubmitError),
}

impl RemuxError {
    /// The message shown for this error.
    pub fn message(&self) -> (r: &'static str)
        ensures
            r == (match self {
                RemuxError::UnknownMedia => "the requested media does not exist",
                RemuxError::UnsupportedInput => "the remux request is not compatible with the selected source",
                RemuxError::UnsupportedTarget => "the remux target container is unsupported",
                RemuxError::InvalidTrack => "the selected track is unavailable",
                RemuxError::UnsupportedSubtitleDelivery => "the selected subtitle mode requires transcoding",
                RemuxError::OutsideApprovedLibrary => "the media source is outside the approved library",
                RemuxError::Unavailable => "the remux service is unavailable",
                RemuxError::Job(e) => crate::media_jobs::submit_error_text(*e),
            }),
    {
        match self {
            RemuxError::UnknownMedia => "the requested media does not exist",
            RemuxError::UnsupportedInput => "the remux request is not compatible with the selected source",
            RemuxError::UnsupportedTarget => "the remux target container is unsupported",
            RemuxError::InvalidTrack => "the selected track is unavailable",
            RemuxError::UnsupportedSubtitleDelivery => "the selected subtitle mode requires transcoding",
            RemuxError::OutsideApprovedLibrary => "the media source is outside the approved library",
            RemuxError::Unavailable => "the remux service is unavailable",
            RemuxError::Job(e) => e.message(),
        }
    }
}

/// A container a source can be remuxed into.
#[derive(Debug, Clone, Copy, PartialEq, Eq, Structural)]
pub enum RemuxContainer {
    Mp4,
    Webm,
}

pub open spec fn container_format(c: RemuxContainer) -> &'static str {
    match c {
        RemuxContainer::Mp4 => "mp4",
        RemuxContainer::Webm => "webm",
    }
}

impl RemuxContainer {
    /// The name of the output file.
    pub fn output_name(&self) -> (r: &'static str)
        ensures
            r == (match self {
                    RemuxContainer::Mp4 => "output.mp4",
                    RemuxContainer::Webm => "output.webm",
            }),
    {
        match self {
            RemuxContainer::Mp4 => "output.mp4",
            RemuxContainer::Webm => "output.webm",
        }
    }

    /// The media type of the output.
    pub fn content_type(&self) -> (r: &'static str)
        ensures
            r == (match self {
                    RemuxContainer::Mp4 => "video/mp4",
                    RemuxContainer::Webm => "video/webm",
            }),
    {
        match self {
            RemuxContainer::Mp4 => "video/mp4",
            RemuxContainer::Webm => "video/webm",
        }
    }

    /// The `ffmpeg` format name.
    pub fn format(&self) -> (r: &'static str)
        ensures
            r == container_format(*self),
    {
        match self {
            RemuxContainer::Mp4 => "mp4",
            RemuxContainer::Webm => "webm",
        }
    }

    /// Whether a subtitle stream of `codec` can be carried: MP4 carries
    /// `mov_text` and `tx3g`, WebM carries `webvtt` (in any case).
    pub fn supports_subtitle(&self, codec: Option<&str>) -> (r: bool)
        ensures
            r == supports_subtitle_of(
                *self,
                match codec {
                    Some(c) => Some(c@),
                    None => None,
                },
            ),
    {
        match codec {
            None => false,
            Some(c) => match self {
                RemuxContainer::Mp4 => crate::text::eq_ignore_ascii_case_exec(c, "mov_text")
                    || crate::text::eq_ignore_ascii_case_exec(c, "tx3g"),
                RemuxContainer::Webm => crate::text::eq_ignore_ascii_case_exec(c, "webvtt"),
            },
        }
    }
}

pub open spec fn supports_subtitle_of(c: RemuxContainer, codec: Option<Seq<char>>) -> bool {
    match codec {
        None => false,
        Some(codec) => match c {
            RemuxContainer::Mp4 => eq_ignore_ascii_case(codec, "mov_text"@) || eq_ignore_ascii_case(
                codec,
                "tx3g"@,
            ),
            RemuxContainer::Webm => eq_ignore_ascii_case(codec, "webvtt"@),
        },
    }
}

/// The container named by a decision: `mp4` or `webm` in any case.
pub open spec fn container_named(name: Option<Seq<char>>) -> Option<RemuxContainer> {
    match name {
        Some(n) => if eq_ignore_ascii_case(n, "mp4"@) {
            Some(RemuxContainer::Mp4)
        } else if eq_ignore_ascii_case(n, "webm"@) {
            Some(RemuxContainer::Webm)
        } else {
            None
        },
        None => None,
    }
}

/// The container named by a decision's target.
pub fn target_container(name: Option<&str>) -> (r: Option<RemuxContainer>)
    ensures
        r == container_named(
            match name {
                Some(n) => Some(n@),
                None => None,
            },
        ),
{
    match name {
        Some(n) => if crate::text::eq_ignore_ascii_case_exec(n, "mp4") {
            Some(RemuxContainer::Mp4)
        } else if crate::text::eq_ignore_ascii_case_exec(n, "webm") {
            Some(RemuxContainer::Webm)
        } else {
            None
        },
        None => None,
    }
}

pub open spec fn opt_text(o: Option<String>) -> Option<Seq<char>> {
    match o {
        Some(s) => Some(s@),
        None => None,
    }
}

/// The streams a remux copies.
pub struct RemuxSource {
    pub media_id: String,
    pub source_size_bytes: u64,
    pub video_index: u32,
    pub audio_index: Option<u32>,
    pub subtitle_index: Option<u32>,
    pub subtitle_codec: Option<String>,
}

/// What a remux request asks of the job manager.
pub struct RemuxPlan {
    pub container: RemuxContainer,
    pub reservation: u64,
    pub key: MediaJobKey,
    pub timeout_seconds: u64,
    pub output_limit: usize,
}

/// The job key of a remux:
/// `remux:<media>:<format>:<video>:<audio or ->:<subtitle or ->`.
pub open spec fn remux_key_of(s: RemuxSource, c: RemuxContainer) -> Seq<char> {
    "remux:"@ + s.media_id@ + seq![':'] + container_format(c)@ + seq![':'] + dec_text(
        s.video_index as nat,
    ) + seq![':'] + index_text(s.audio_index) + seq![':'] + index_text(s.subtitle_index)
}

/// What a remux request plans to: the decision must be a remux to MP4 or
/// WebM; a chosen subtitle must be one the container carries; the source
/// must lie inside its library; the reservation is the source size plus
/// 1 MiB; the key must be a valid job key.
pub open spec fn remux_plan_of(d: PlaybackDecision, s: RemuxSource, location: SourceLocation) -> Result<
    (RemuxContainer, u64, Seq<char>),
    RemuxError,
> {
    if d.method != PlaybackMethod::Remux {
        Err(RemuxError::UnsupportedInput)
    } else {
        match container_named(opt_text(d.target_container)) {
            None => Err(RemuxError::UnsupportedTarget),
            Some(c) => if s.subtitle_index is Some && !supports_subtitle_of(
                c,
                opt_text(s.subtitle_codec),
            ) {
                Err(RemuxError::UnsupportedInput)
            } else if location == SourceLocation::Unavailable {
                Err(RemuxError::Unavailable)
            } else if location == SourceLocation::Outside {
                Err(RemuxError::OutsideApprovedLibrary)
            } else if s.source_size_bytes + REMUX_OVERHEAD_BYTES > u64::MAX {
                Err(RemuxError::UnsupportedInput)
            } else if remux_key_of(s, c).len() == 0 || byte_len(remux_key_of(s, c)) > MAX_KEY_BYTES {
                Err(RemuxError::Job(MediaJobSubmitError::InvalidKey))
            } else {
                Ok((c, (s.source_size_bytes + REMUX_OVERHEAD_BYTES) as u64, remux_key_of(s, c)))
            },
        }
    }
}

fn opt_str(o: &Option<String>) -> (r: Option<&str>)
    ensures
        match o {
            Some(s) => r matches Some(t) && t@ == s@,
            None => r is None,
        },
{
    match o {
        Some(s) => Some(s.as_str()),
        None => None,
    }
}

/// Plans a remux (see `remux_plan_of`).
pub fn plan_remux(decision: &PlaybackDecision, source: &RemuxSource, location: SourceLocation) -> (r:
    Result<RemuxPlan, RemuxError>)
    ensures
        match remux_plan_of(*decision, *source, location) {
            Ok((c, reservation, key)) => (r matches Ok(p) && p.container == c && p.reservation
                == reservation && p.key@ == key && p.timeout_seconds == REMUX_TIMEOUT_SECONDS
                && p.output_limit == PROCESS_OUTPUT_LIMIT),
            Err(e) => r == Err::<RemuxPlan, RemuxError>(e),
        },
{
    if decision.method != PlaybackMethod::Remux {
        return Err(RemuxError::UnsupportedInput);
    }
    let container = match target_container(opt_str(&decision.target_container)) {
        Some(c) => c,
        None => return Err(RemuxError::UnsupportedTarget),
    };
    if source.subtitle_index.is_some() && !container.supports_subtitle(
        opt_str(&source.subtitle_codec),
    ) {
        return Err(RemuxError::UnsupportedInput);
    }
    match location {
        SourceLocation::Unavailable => return Err(RemuxError::Unavailable),
        SourceLocation::Outside => return Err(RemuxError::OutsideApprovedLibrary),
        SourceLocation::Inside => {},
    }
    let reservation = match source.source_size_bytes.checked_add(REMUX_OVERHEAD_BYTES) {
        Some(v) => v,
        None => return Err(RemuxError::UnsupportedInput),
    };
    proof {
        reveal_strlit("remux:");
        reveal_strlit(":");
    }
    let mut key = String::new();
    append_str(&mut key, "remux:");
    append_str(&mut key, source.media_id.as_str());
    append_str(&mut key, ":");
    append_str(&mut key, container.format());
    append_str(&mut key, ":");
    append_decimal(&mut key, source.video_index as u64);
    append_str(&mut key, ":");
    append_index(&mut key, source.audio_index);
    append_str(&mut key, ":");
    append_index(&mut key, source.subtitle_index);
    assert(key@ =~= remux_key_of(*source, container));
    let key = match MediaJobKey::new(key) {
        Ok(k) => k,
        Err(e) => return Err(RemuxError::Job(e)),
    };
    Ok(
        RemuxPlan {
            container,
            reservation,
            key,
            timeout_seconds: REMUX_TIMEOUT_SECONDS,
            output_limit: PROCESS_OUTPUT_LIMIT,
        },
    )
}

/// The `ffmpeg` command line of a remux: the chosen video, audio and
/// subtitle streams copied as they are into the container (MP4 with its
/// index at the front).
pub open spec fn remux_args_of(s: RemuxSource, c: RemuxContainer) -> Seq<ArgView> {
    seq![t("-v"), t("error"), t("-nostdin"), t("-y"), t("-i"), ArgView::InputPath, t("-map"), ArgView::Text(stream_selector(s.video_index))]
        + match s.audio_index {
        Some(i) => seq![t("-map"), ArgView::Text(stream_selector(i))],
        None => Seq::empty(),
    } + match s.subtitle_index {
        Some(i) => seq![t("-map"), ArgView::Text(stream_selector(i))],
        None => Seq::empty(),
    } + seq![t("-c"), t("copy")] + match c {
        RemuxContainer::Mp4 => seq![t("-movflags"), t("+faststart")],
        RemuxContainer::Webm => Seq::empty(),
    } + seq![t("-f"), t(container_format(c)), ArgView::OutputPath]
}

/// `args` selects input stream `index`: somewhere `-map` is followed by
/// `0:<index>`.
pub open spec fn maps_stream(args: Seq<ArgView>, index: u32) -> bool {
    exists|k: int|
        0 <= k && k + 1 < args.len() && #[trigger] args[k] == ArgView::Text(seq!['-', 'm', 'a', 'p'])
            && args[k + 1] == ArgView::Text(stream_selector(index))
}

/// Whatever the container, a remux copies every stream it was given: the
/// video stream, the audio stream if one is chosen, and the subtitle stream
/// if one is chosen are each mapped.
pub proof fn lemma_remux_maps_every_chosen_stream(s: RemuxSource, c: RemuxContainer)
    ensures
        maps_stream(remux_args_of(s, c), s.video_index),
        s.audio_index matches Some(i) ==> maps_stream(remux_args_of(s, c), i),
        s.subtitle_index matches Some(i) ==> maps_stream(remux_args_of(s, c), i),
{
    reveal_strlit("-map");
    assert("-map"@ =~= seq!['-', 'm', 'a', 'p']);
    let args = remux_args_of(s, c);
    let map = ArgView::Text(seq!['-', 'm', 'a', 'p']);
    assert(t("-map") == map);
    assert(args[6] == map && args[7] == ArgView::Text(stream_selector(s.video_index)));
    let audio_len: int = if s.audio_index is Some {
        2
    } else {
        0
    };
    if let Some(i) = s.audio_index {
        assert(args[8] == map && args[9] == ArgView::Text(stream_selector(i)));
    }
    if let Some(i) = s.subtitle_index {
        assert(args[8 + audio_len] == map && args[9 + audio_len] == ArgView::Text(
            stream_selector(i),
        ));
    }
}

/// The command line of a remux (see `remux_args_of`).
pub fn remux_arguments(source: &RemuxSource, container: RemuxContainer) -> (r: Vec<CommandArg>)
    ensures
        args_view(r@) == remux_args_of(*source, container),
{
    let mut args = vec![
        text("-v"),
        text("error"),
        text("-nostdin"),
        text("-y"),
        text("-i"),
        CommandArg::InputPath,
        text("-map"),
        selector(source.video_index),
    ];
    match source.audio_index {
        Some(index) => extend(&mut args, vec![text("-map"), selector(index)]),
        None => {},
    }
    match source.subtitle_index {
        Some(index) => extend(&mut args, vec![text("-map"), selector(index)]),
        None => {},
    }
    extend(&mut args, vec![text("-c"), text("copy")]);
    if container == RemuxContainer::Mp4 {
        extend(&mut args, vec![text("-movflags"), text("+faststart")]);
    }
    extend(&mut args, vec![text("-f"), text(container.format()), CommandArg::OutputPath]);
    assert(args_view(args@) =~= remux_args_of(*source, container));
    args
}

// ---------------------------------------------------------------------------
// Transcoding
// ---------------------------------------------------------------------------

/// The least a transcode reserves, in bytes.
pub const MIN_TRANSCODE_RESERVATION: u64 = 8388608;

#[derive(Debug, Clone, Copy, PartialEq, Eq, Structural)]
pub enum TranscodeError {
    UnknownMedia,
    UnsupportedInput,
    UnsupportedTarget,
    InvalidTrack,
    OutsideApprovedLibrary,
    Unavailable,
    Job(MediaJobSubmitError),
}

impl TranscodeError {
    /// The message shown for this error.
    pub fn message(&self) -> (r: &'static str)
        ensures
            r == (match self {
                TranscodeError::UnknownMedia => "the requested media does not exist",
                TranscodeError::UnsupportedInput => "the transcode request is unsupported",
                TranscodeError::UnsupportedTarget => "the transcode target is unsupported",
                TranscodeError::InvalidTrack => "the selected track is unavailable",
                TranscodeError::OutsideApprovedLibrary => "the media source is outside the approved library",
                TranscodeError::Unavailable => "the transcode service is unavailable",
                TranscodeError::Job(e) => crate::media_jobs::submit_error_text(*e),
            }),
    {
        match self {
            TranscodeError::UnknownMedia => "the requested media does not exist",
            TranscodeError::UnsupportedInput => "the transcode request is unsupported",
            TranscodeError::UnsupportedTarget => "the transcode target is unsupported",
            TranscodeError::InvalidTrack => "the selected track is unavailable",
            TranscodeError::OutsideApprovedLibrary => "the media source is outside the approved library",
            TranscodeError::Unavailable => "the transcode service is unavailable",
            TranscodeError::Job(e) => e.message(),
        }
    }
}

/// What a transcode produces: H.264 with AAC in MP4, or VP9 with Opus in
/// WebM.
#[derive(Debug, Clone, Copy, PartialEq, Eq, Structural)]
pub enum TranscodeProfile {
    H264Aac,
    Vp9Opus,
}

pub open spec fn profile_name(p: TranscodeProfile) -> &'static str {
    match p {
        TranscodeProfile::H264Aac => "h264-aac",
        TranscodeProfile::Vp9Opus => "vp9-opus",
    }
}

pub open spec fn profile_format(p: TranscodeProfile) -> &'static str {
    match p {
        TranscodeProfile::H264Aac => "mp4",
        TranscodeProfile::Vp9Opus => "webm",
    }
}

pub open spec fn profile_video_codec(p: TranscodeProfile) -> &'static str {
    match p {
        TranscodeProfile::H264Aac => "libx264",
        TranscodeProfile::Vp9Opus => "libvpx-vp9",
    }
}

pub open spec fn profile_audio_codec(p: TranscodeProfile) -> &'static str {
    match p {
        TranscodeProfile::H264Aac => "aac",
        TranscodeProfile::Vp9Opus => "libopus",
    }
}

pub open spec fn profile_subtitle_codec(p: TranscodeProfile) -> &'static str {
    match p {
        TranscodeProfile::H264Aac => "mov_text",
        TranscodeProfile::Vp9Opus => "webvtt",
    }
}

impl TranscodeProfile {
    pub fn name(&self) -> (r: &'static str)
        ensures
            r == profile_name(*self),
    {
        match self {
            TranscodeProfile::H264Aac => "h264-aac",
            TranscodeProfile::Vp9Opus => "vp9-opus",
        }
    }

    /// The name of the output file.
    pub fn output_name(&self) -> (r: &'static str)
        ensures
            r == (match self {
                    TranscodeProfile::H264Aac => "output.mp4",
                    TranscodeProfile::Vp9Opus => "output.webm",
            }),
    {
        match self {
            TranscodeProfile::H264Aac => "output.mp4",
            TranscodeProfile::Vp9Opus => "output.webm",
        }
    }

    /// The media type of the output.
    pub fn content_type(&self) -> (r: &'static str)
        ensures
            r == (match self {
                    TranscodeProfile::H264Aac => "video/mp4",
                    TranscodeProfile::Vp9Opus => "video/webm",
            }),
    {
        match self {
            TranscodeProfile::H264Aac => "video/mp4",
            TranscodeProfile::Vp9Opus => "video/webm",
        }
    }

    pub fn format(&self) -> (r: &'static str)
        ensures
            r == profile_format(*self),
    {
        match self {
            TranscodeProfile::H264Aac => "mp4",
            TranscodeProfile::Vp9Opus => "webm",
        }
    }

    pub fn video_codec(&self) -> (r: &'static str)
        ensures
            r == profile_video_codec(*self),
    {
        match self {
            TranscodeProfile::H264Aac => "libx264",
            TranscodeProfile::Vp9Opus => "libvpx-vp9",
        }
    }

    pub fn audio_codec(&self) -> (r: &'static str)
        ensures
            r == profile_audio_codec(*self),
    {
        match self {
            TranscodeProfile::H264Aac => "aac",
            TranscodeProfile::Vp9Opus => "libopus",
        }
    }

    pub fn subtitle_codec(&self) -> (r: &'static str)
        ensures
            r == profile_subtitle_codec(*self),
    {
        match self {
            TranscodeProfile::H264Aac => "mov_text",
            TranscodeProfile::Vp9Opus => "webvtt",
        }
    }
}

/// The profile of a transcode target: `mp4` or `webm` in any case.
pub open spec fn profile_named(name: Option<Seq<char>>) -> Option<TranscodeProfile> {
    match container_named(name) {
        Some(RemuxContainer::Mp4) => Some(TranscodeProfile::H264Aac),
        Some(RemuxContainer::Webm) => Some(TranscodeProfile::Vp9Opus),
        None => None,
    }
}

/// The subtitle a transcode keeps or burns in.
#[derive(Debug, Clone, Copy, PartialEq, Eq, Structural)]
pub struct TranscodeSubtitle {
    /// The index of the subtitle stream among all streams.
    pub source_index: u32,
    /// Its place among the subtitle streams.
    pub subtitle_ordinal: u32,
    pub kind: SubtitleKind,
}

/// The streams a transcode reads.
pub struct TranscodeSource {
    pub media_id: String,
    pub source_size_bytes: u64,
    pub video_index: u32,
    pub audio_index: Option<u32>,
    pub subtitle: Option<TranscodeSubtitle>,
}

/// A subtitle goes with a delivery that uses it, and no subtitle with one
/// that does not.
pub open spec fn subtitle_fits(subtitle: Option<TranscodeSubtitle>, delivery: SubtitleDelivery) -> bool {
    match subtitle {
        None => delivery == SubtitleDelivery::Off || delivery == SubtitleDelivery::ExternalWebVtt,
        Some(_) => delivery == SubtitleDelivery::Embedded || delivery == SubtitleDelivery::BurnIn,
    }
}

/// Whether a subtitle choice fits the delivery.
pub fn validate_subtitle(source: &TranscodeSource, delivery: SubtitleDelivery) -> (r: Result<
    (),
    TranscodeError,
>)
    ensures
        subtitle_fits(source.subtitle, delivery) <==> r is Ok,
        !subtitle_fits(source.subtitle, delivery) ==> r == Err::<(), TranscodeError>(
            TranscodeError::UnsupportedInput,
        ),
{
    match source.subtitle {
        None => if delivery == SubtitleDelivery::Off || delivery == SubtitleDelivery::ExternalWebVtt {
            Ok(())
        } else {
            Err(TranscodeError::UnsupportedInput)
        },
        Some(_) => if delivery == SubtitleDelivery::Embedded || delivery == SubtitleDelivery::BurnIn {
            Ok(())
        } else {
            Err(TranscodeError::UnsupportedInput)
        },
    }
}

/// The name of a delivery as the job key spells it.
pub open spec fn delivery_name(d: SubtitleDelivery) -> &'static str {
    match d {
        SubtitleDelivery::Off => "Off",
        SubtitleDelivery::ExternalWebVtt => "ExternalWebVtt",
        SubtitleDelivery::Embedded => "Embedded",
        SubtitleDelivery::BurnIn => "BurnIn",
    }
}

fn delivery_text(d: SubtitleDelivery) -> (r: &'static str)
    ensures
        r == delivery_name(d),
{
    match d {
        SubtitleDelivery::Off => "Off",
        SubtitleDelivery::ExternalWebVtt => "ExternalWebVtt",
        SubtitleDelivery::Embedded => "Embedded",
        SubtitleDelivery::BurnIn => "BurnIn",
    }
}

/// The job key of a transcode:
/// `transcode:<media>:<profile>:<video>:<audio or ->:<subtitle or ->:<delivery>`.
pub open spec fn transcode_key_of(s: TranscodeSource, p: TranscodeProfile, d: SubtitleDelivery) -> Seq<char> {
    "transcode:"@ + s.media_id@ + seq![':'] + profile_name(p)@ + seq![':'] + dec_text(
        s.video_index as nat,
    ) + seq![':'] + index_text(s.audio_index) + seq![':'] + index_text(
        match s.subtitle {
            Some(t) => Some(t.source_index),
            None => None,
        },
    ) + seq![':'] + delivery_name(d)@
}

/// What a transcode request plans to: the decision must be a transcode to
/// MP4 or WebM; the subtitle must fit the delivery; the source must lie
/// inside its library; the reservation is twice the source size, at least
/// 8 MiB; the key must be a valid job key.
pub open spec fn transcode_plan_of(d: PlaybackDecision, s: TranscodeSource, location: SourceLocation) -> Result<
    (TranscodeProfile, u64, Seq<char>),
    TranscodeError,
> {
    if d.method != PlaybackMethod::Transcode {
        Err(TranscodeError::UnsupportedInput)
    } else {
        match profile_named(opt_text(d.target_container)) {
            None => Err(TranscodeError::UnsupportedTarget),
            Some(p) => if !subtitle_fits(s.subtitle, d.subtitle_delivery) {
                Err(TranscodeError::UnsupportedInput)
            } else if location == SourceLocation::Unavailable {
                Err(TranscodeError::Unavailable)
            } else if location == SourceLocation::Outside {
                Err(TranscodeError::OutsideApprovedLibrary)
            } else if s.source_size_bytes * 2 > u64::MAX {
                Err(TranscodeError::UnsupportedInput)
            } else if transcode_key_of(s, p, d.subtitle_delivery).len() == 0 || byte_len(
                transcode_key_of(s, p, d.subtitle_delivery),
            ) > MAX_KEY_BYTES {
                Err(TranscodeError::Job(MediaJobSubmitError::InvalidKey))
            } else {
                Ok(
                    (
                        p,
                        if s.source_size_bytes * 2 < MIN_TRANSCODE_RESERVATION {
                            MIN_TRANSCODE_RESERVATION
                        } else {
                            (s.source_size_bytes * 2) as u64
                        },
                        transcode_key_of(s, p, d.subtitle_delivery),
                    ),
                )
            },
        }
    }
}

/// What a transcode request asks of the job manager.
pub struct TranscodePlan {
    pub profile: TranscodeProfile,
    pub reservation: u64,
    pub key: MediaJobKey,
}

/// Plans a transcode (see `transcode_plan_of`).
pub fn plan_transcode(
    decision: &PlaybackDecision,
    source: &TranscodeSource,
    location: SourceLocation,
) -> (r: Result<TranscodePlan, TranscodeError>)
    ensures
        match transcode_plan_of(*decision, *source, location) {
            Ok((p, reservation, key)) => (r matches Ok(plan) && plan.profile == p
                && plan.reservation == reservation && plan.key@ == key),
            Err(e) => r == Err::<TranscodePlan, TranscodeError>(e),
        },
{
    if decision.method != PlaybackMethod::Transcode {
        return Err(TranscodeError::UnsupportedInput);
    }
    let profile = match target_container(opt_str(&decision.target_container)) {
        Some(RemuxContainer::Mp4) => TranscodeProfile::H264Aac,
        Some(RemuxContainer::Webm) => TranscodeProfile::Vp9Opus,
        None => return Err(TranscodeError::UnsupportedTarget),
    };
    validate_subtitle(source, decision.subtitle_delivery)?;
    match location {
        SourceLocation::Unavailable => return Err(TranscodeError::Unavailable),
        SourceLocation::Outside => return Err(TranscodeError::OutsideApprovedLibrary),
        SourceLocation::Inside => {},
    }
    let doubled = match source.source_size_bytes.checked_mul(2) {
        Some(v) => v,
        None => return Err(TranscodeError::UnsupportedInput),
    };
    let reservation = if doubled < MIN_TRANSCODE_RESERVATION {
        MIN_TRANSCODE_RESERVATION
    } else {
        doubled
    };
    proof {
        reveal_strlit("transcode:");
        reveal_strlit(":");
    }
    let mut key = String::new();
    append_str(&mut key, "transcode:");
    append_str(&mut key, source.media_id.as_str());
    append_str(&mut key, ":");
    append_str(&mut key, profile.name());
    append_str(&mut key, ":");
    append_decimal(&mut key, source.video_index as u64);
    append_str(&mut key, ":");
    append_index(&mut key, source.audio_index);
    append_str(&mut key, ":");
    append_index(
        &mut key,
        match source.subtitle {
            Some(t) => Some(t.source_index),
            None => None,
        },
    );
    append_str(&mut key, ":");
    append_str(&mut key, delivery_text(decision.subtitle_delivery));
    assert(key@ =~= transcode_key_of(*source, profile, decision.subtitle_delivery));
    let key = match MediaJobKey::new(key) {
        Ok(k) => k,
        Err(e) => return Err(TranscodeError::Job(e)),
    };
    Ok(TranscodePlan { profile, reservation, key })
}

/// The characters a filter argument escapes with a backslash.
pub open spec fn filter_special(c: char) -> bool {
    c == '\\' || c == ':' || c == '\'' || c == ',' || c == ';' || c == '[' || c == ']'
}

/// `text` with each special filter character preceded by a backslash.
pub open spec fn escape_filter_of(text: Seq<char>) -> Seq<char>
    decreases text.len(),
{
    if text.len() == 0 {
        Seq::empty()
    } else {
        escape_filter_of(text.drop_last()) + if filter_special(text.last()) {
            seq!['\\', text.last()]
        } else {
            seq![text.last()]
        }
    }
}

/// Escapes a path's text for use inside a filter argument (see
/// `escape_filter_of`).
pub fn escape_filter_path(path_text: &str) -> (r: String)
    ensures
        r@ == escape_filter_of(path_text@),
{
    let chars = crate::text::chars_of(path_text);
    let mut out = String::new();
    let mut i: usize = 0;
    while i < chars.len()
        invariant
            i <= chars.len(),
            chars@ == path_text@,
            out@ == escape_filter_of(chars@.take(i as int)),
        decreases chars.len() - i,
    {
        let c = chars[i];
        if c == '\\' || c == ':' || c == '\'' || c == ',' || c == ';' || c == '[' || c == ']' {
            crate::text::push_char(&mut out, '\\');
        }
        crate::text::push_char(&mut out, c);
        proof {
            assert(chars@.take(i + 1).drop_last() =~= chars@.take(i as int));
            assert(out@ =~= escape_filter_of(chars@.take(i + 1)));
        }
        i += 1;
    }
    assert(chars@.take(chars.len() as int) =~= chars@);
    out
}

/// The filter that burns a subtitle into the picture: a bitmap subtitle is
/// overlaid, a text subtitle is drawn from the input file, an unknown one
/// gives an empty filter.
pub open spec fn burn_filter_of(video_index: u32, subtitle: TranscodeSubtitle, input_text: Seq<char>) -> Seq<char> {
    match subtitle.kind {
        SubtitleKind::Bitmap => seq!['['] + stream_selector(video_index) + seq![']', '['] + stream_selector(
            subtitle.source_index,
        ) + "]overlay"@,
        SubtitleKind::Text => "subtitles=filename='"@ + escape_filter_of(input_text) + "':si="@
            + dec_text(subtitle.subtitle_ordinal as nat),
        SubtitleKind::Unknown => Seq::empty(),
    }
}

/// The `ffmpeg` command line of a transcode: a burnt-in subtitle replaces
/// the plain video selection by a filter; the chosen audio and an embedded
/// subtitle are mapped; video, audio and embedded subtitle are encoded with
/// the profile's codecs (MP4 in 4:2:0 with its index at the front).
pub open spec fn transcode_args_of(
    s: TranscodeSource,
    p: TranscodeProfile,
    d: SubtitleDelivery,
    input_text: Seq<char>,
) -> Seq<ArgView> {
    seq![t("-v"), t("error"), t("-nostdin"), t("-y"), t("-i"), ArgView::InputPath] + (if d
        == SubtitleDelivery::BurnIn {
        seq![t("-filter_complex"), ArgView::Text(burn_filter_of(s.video_index, s.subtitle->0, input_text))]
    } else {
        seq![t("-map"), ArgView::Text(stream_selector(s.video_index))]
    }) + match s.audio_index {
        Some(i) => seq![t("-map"), ArgView::Text(stream_selector(i))],
        None => Seq::empty(),
    } + (if d == SubtitleDelivery::Embedded {
        seq![t("-map"), ArgView::Text(stream_selector(s.subtitle->0.source_index))]
    } else {
        Seq::empty()
    }) + seq![t("-c:v"), t(profile_video_codec(p)), t("-preset"), t("veryfast"), t("-crf"), t("28")]
        + match s.audio_index {
        Some(_) => seq![t("-c:a"), t(profile_audio_codec(p)), t("-b:a"), t("128k")],
        None => Seq::empty(),
    } + (if d == SubtitleDelivery::Embedded {
        seq![t("-c:s"), t(profile_subtitle_codec(p))]
    } else {
        Seq::empty()
    }) + match p {
        TranscodeProfile::H264Aac => seq![t("-pix_fmt"), t("yuv420p"), t("-movflags"), t("+faststart")],
        TranscodeProfile::Vp9Opus => Seq::empty(),
    } + seq![t("-f"), t(profile_format(p)), ArgView::OutputPath]
}

/// The burn-in filter (see `burn_filter_of`).
fn burn_filter(video_index: u32, subtitle: TranscodeSubtitle, input_text: &str) -> (r: String)
    ensures
        r@ == burn_filter_of(video_index, subtitle, input_text@),
{
    let mut f = String::new();
    match subtitle.kind {
        SubtitleKind::Bitmap => {
            append_str(&mut f, "[0:");
            append_decimal(&mut f, video_index as u64);
            append_str(&mut f, "][0:");
            append_decimal(&mut f, subtitle.source_index as u64);
            append_str(&mut f, "]overlay");
            proof {
                reveal_strlit("[0:");
                reveal_strlit("][0:");
                assert(f@ =~= burn_filter_of(video_index, subtitle, input_text@));
            }
        },
        SubtitleKind::Text => {
            append_str(&mut f, "subtitles=filename='");
            let escaped = escape_filter_path(input_text);
            append_str(&mut f, escaped.as_str());
            append_str(&mut f, "':si=");
            append_decimal(&mut f, subtitle.subtitle_ordinal as u64);
            proof {
                assert(f@ =~= burn_filter_of(video_index, subtitle, input_text@));
            }
        },
        SubtitleKind::Unknown => {},
    }
    f
}

/// A transcode's process: its command line, how long it may run and how
/// much of each output pipe it keeps.
pub struct TranscodeRequest {
    pub arguments: Vec<CommandArg>,
    pub timeout_seconds: u64,
    pub output_limit: usize,
}

/// The request of a transcode: the command line of `transcode_args_of`,
/// at most four hours, at most 1 MiB of each output pipe.
pub fn build_request(
    source: &TranscodeSource,
    profile: TranscodeProfile,
    delivery: SubtitleDelivery,
    input_text: &str,
) -> (r: TranscodeRequest)
    requires
        subtitle_fits(source.subtitle, delivery),
    ensures
        args_view(r.arguments@) == transcode_args_of(*source, profile, delivery, input_text@),
        r.timeout_seconds == TRANSCODE_TIMEOUT_SECONDS,
        r.output_limit == PROCESS_OUTPUT_LIMIT,
{
    TranscodeRequest {
        arguments: transcode_arguments(source, profile, delivery, input_text),
        timeout_seconds: TRANSCODE_TIMEOUT_SECONDS,
        output_limit: PROCESS_OUTPUT_LIMIT,
    }
}

/// The command line of a transcode (see `transcode_args_of`); `input_text`
/// is the input path as text.
fn transcode_arguments(
    source: &TranscodeSource,
    profile: TranscodeProfile,
    delivery: SubtitleDelivery,
    input_text: &str,
) -> (r: Vec<CommandArg>)
    requires
        subtitle_fits(source.subtitle, delivery),
    ensures
        args_view(r@) == transcode_args_of(*source, profile, delivery, input_text@),
{
    let mut args = vec![
        text("-v"),
        text("error"),
        text("-nostdin"),
        text("-y"),
        text("-i"),
        CommandArg::InputPath,
    ];
    if delivery == SubtitleDelivery::BurnIn {
        let subtitle = match source.subtitle {
            Some(t) => t,
            None => return args,
        };
        let filter = burn_filter(source.video_index, subtitle, input_text);
        extend(&mut args, vec![text("-filter_complex"), CommandArg::Text(filter)]);
    } else {
        extend(&mut args, vec![text("-map"), selector(source.video_index)]);
    }
    match source.audio_index {
        Some(index) => extend(&mut args, vec![text("-map"), selector(index)]),
        None => {},
    }
    if delivery == SubtitleDelivery::Embedded {
        let subtitle = match source.subtitle {
            Some(t) => t,
            None => return args,
        };
        extend(&mut args, vec![text("-map"), selector(subtitle.source_index)]);
    }
    extend(
        &mut args,
        vec![
            text("-c:v"),
            text(profile.video_codec()),
            text("-preset"),
            text("veryfast"),
            text("-crf"),
            text("28"),
        ],
    );
    if source.audio_index.is_some() {
        extend(
            &mut args,
            vec![text("-c:a"), text(profile.audio_codec()), text("-b:a"), text("128k")],
        );
    }
    if delivery == SubtitleDelivery::Embedded {
        extend(&mut args, vec![text("-c:s"), text(profile.subtitle_codec())]);
    }
    if profile == TranscodeProfile::H264Aac {
        extend(
            &mut args,
            vec![text("-pix_fmt"), text("yuv420p"), text("-movflags"), text("+faststart")],
        );
    }
    extend(&mut args, vec![text("-f"), text(profile.format()), CommandArg::OutputPath]);
    assert(args_view(args@) =~= transcode_args_of(*source, profile, delivery, input_text@));
    args
}

// ---------------------------------------------------------------------------
// Who owns an HLS session
// ---------------------------------------------------------------------------

/// The owner of job `id` in `entries`: the latest entry for it.
pub open spec fn owner_of(entries: Seq<(u128, Seq<char>)>, id: u128) -> Option<Seq<char>>
    decreases entries.len(),
{
    if entries.len() == 0 {
        None
    } else if entries.last().0 == id {
        Some(entries.last().1)
    } else {
        owner_of(entries.drop_last(), id)
    }
}

/// `entries` without those of job `id`.
pub open spec fn without_job(entries: Seq<(u128, Seq<char>)>, id: u128) -> Seq<(u128, Seq<char>)>
    decreases entries.len(),
{
    if entries.len() == 0 {
        Seq::empty()
    } else if entries.last().0 == id {
        without_job(entries.drop_last(), id)
    } else {
        without_job(entries.drop_last(), id).push(entries.last())
    }
}

/// Dropping a job's entries leaves it unowned and every other job's owner
/// as it was.
pub proof fn lemma_without_job(entries: Seq<(u128, Seq<char>)>, id: u128, other: u128)
    ensures
        owner_of(without_job(entries, id), id) is None,
        other != id ==> owner_of(without_job(entries, id), other) == owner_of(entries, other),
    decreases entries.len(),
{
    if entries.len() > 0 {
        lemma_without_job(entries.drop_last(), id, other);
        if entries.last().0 != id {
            assert(without_job(entries, id).drop_last() =~= without_job(entries.drop_last(), id));
        }
    }
}

/// The owners of HLS sessions: only the client that prepared a session may
/// read, cancel or release it.
pub struct HlsOwners {
    entries: Vec<(u128, String)>,
}

impl View for HlsOwners {
    type V = Seq<(u128, Seq<char>)>;

    closed spec fn view(&self) -> Seq<(u128, Seq<char>)> {
        self.entries@.map_values(|e: (u128, String)| (e.0, e.1@))
    }
}

impl HlsOwners {
    pub fn new() -> (r: Self)
        ensures
            forall|id: u128| owner_of(r@, id) is None,
    {
        let r = HlsOwners { entries: Vec::new() };
        assert(r@ =~= Seq::<(u128, Seq<char>)>::empty());
        r
    }

    /// Drops the owner of session `id`.
    pub fn remove(&mut self, id: u128)
        ensures
            final(self)@ == without_job(old(self)@, id),
            owner_of(final(self)@, id) is None,
            forall|other: u128| other != id ==> owner_of(final(self)@, other) == owner_of(old(self)@, other),
    {
        let ghost before = self@;
        let mut kept: Vec<(u128, String)> = Vec::new();
        let mut i: usize = 0;
        while i < self.entries.len()
            invariant
                i <= self.entries.len(),
                before == self@,
                kept@.map_values(|e: (u128, String)| (e.0, e.1@)) == without_job(before.take(i as int), id),
            decreases self.entries.len() - i,
        {
            proof {
                assert(before.take(i + 1).drop_last() =~= before.take(i as int));
                assert(before.take(i + 1).last() == (self.entries@[i as int].0, self.entries@[i as int].1@));
            }
            if self.entries[i].0 != id {
                let ghost k = kept@;
                let owner = self.entries[i].1.clone();
                kept.push((self.entries[i].0, owner));
                proof {
                    assert(kept@.map_values(|e: (u128, String)| (e.0, e.1@)) =~= k.map_values(
                        |e: (u128, String)| (e.0, e.1@),
                    ).push(before[i as int]));
                }
            }
            i += 1;
        }
        proof {
            assert(before.take(i as int) =~= before);
        }
        self.entries = kept;
        proof {
            assert forall|other: u128| other != id implies owner_of(self@, other) == owner_of(before, other) by {
                lemma_without_job(before, id, other);
            }
            lemma_without_job(before, id, id);
        }
    }

    /// Records `owner` as the owner of session `id`, replacing any earlier
    /// owner.
    pub fn assign(&mut self, id: u128, owner: &str)
        ensures
            owner_of(final(self)@, id) == Some(owner@),
            forall|other: u128| other != id ==> owner_of(final(self)@, other) == owner_of(old(self)@, other),
    {
        let ghost before = self@;
        self.remove(id);
        let ghost mid = self@;
        self.entries.push((id, owner.to_owned()));
        proof {
            assert(self@ =~= mid.push((id, owner@)));
            assert(self@.drop_last() =~= mid);
        }
    }

    /// Whether `owner` owns session `id`.
    pub fn owns(&self, owner: &str, id: u128) -> (r: bool)
        ensures
            r == (owner_of(self@, id) == Some(owner@)),
    {
        let mut i = self.entries.len();
        assert(self@.take(i as int) =~= self@);
        while i > 0
            invariant
                i <= self.entries.len(),
                owner_of(self@, id) == owner_of(self@.take(i as int), id),
            decreases i,
        {
            proof {
                assert(self@.take(i as int).drop_last() =~= self@.take(i - 1));
                assert(self@.take(i as int).last() == (self.entries@[i - 1].0, self.entries@[i - 1].1@));
            }
            if self.entries[i - 1].0 == id {
                return str_eq(self.entries[i - 1].1.as_str(), owner);
            }
            i -= 1;
        }
        proof {
            assert(self@.take(0) =~= Seq::<(u128, Seq<char>)>::empty());
        }
        false
    }
}

/// Only the client that prepared a session owns it, until it is dropped.
pub proof fn lemma_sessions_belong_to_their_owner(
    entries: Seq<(u128, Seq<char>)>,
    id: u128,
    owner: Seq<char>,
    other_owner: Seq<char>,
)
    requires
        owner_of(entries, id) == Some(owner),
        other_owner != owner,
    ensures
        owner_of(entries, id) != Some(other_owner),
        owner_of(without_job(entries, id), id) is None,
{
    lemma_without_job(entries, id, id);
}

} // verus!
