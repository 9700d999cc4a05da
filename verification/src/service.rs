//! The service as a whole: what it says about itself, where its local
//! server listens, which direct-play requests it serves, and how probing
//! outcomes update a scanned library.
use vstd::prelude::*;

use crate::database::DatabaseError;
use crate::ip_text::{append_ip, ip_text};
use crate::media::{LibraryScanError, ProbeStatus, ScannedMedia};
use crate::media_tools::{ProcessError, ToolDiscoveryError};
use crate::net::IpAddress;
use crate::probe::{ProbeError, ProbeResult};
use crate::text::{append_decimal, append_str, dec_text};
use crate::transforms::SourceLocation;

verus! {

broadcast use vstd::string::group_string_axioms;

/// Most direct-play streams served at once.
pub const MAX_CONCURRENT_STREAMS: usize = 8;

/// What the application says about itself.
#[derive(Debug, Clone, PartialEq, Eq)]
pub struct AppInfo {
    pub name: &'static str,
    pub version: &'static str,
    pub local_first: bool,
}

/// The application's description for release `version`: LocalStream, and
/// local-first.
pub fn app_info(version: &'static str) -> (r: AppInfo)
    ensures
        r.name == "LocalStream",
        r.version == version,
        r.local_first,
{
    AppInfo { name: "LocalStream", version, local_first: true }
}

/// Why a library could not be scanned, stored or probed.
#[derive(Debug)]
pub enum CoreError {
    Scan(LibraryScanError),
    Database(DatabaseError),
    MediaTools(ToolDiscoveryError),
}

impl CoreError {
    /// The message shown for this error: that of the error it carries.
    pub fn message(&self) -> (r: String)
        ensures
            r@ == (match self {
                CoreError::Scan(e) => crate::media::scan_error_text(*e)@,
                CoreError::Database(e) => crate::database::database_error_text(*e)@,
                CoreError::MediaTools(e) => crate::media_tools::tool_error_text(*e),
            }),
    {
        match self {
            CoreError::Scan(e) => {
                let mut s = String::new();
                append_str(&mut s, e.message());
                assert(s@ =~= crate::media::scan_error_text(*e)@);
                s
            },
            CoreError::Database(e) => {
                let mut s = String::new();
                append_str(&mut s, e.message());
                assert(s@ =~= crate::database::database_error_text(*e)@);
                s
            },
            CoreError::MediaTools(e) => e.message(),
        }
    }
}

/// Where the local server can be reached.
#[derive(Debug, Clone, PartialEq, Eq)]
pub struct ServerInfo {
    pub base_url: String,
    pub bind_scope: &'static str,
    pub lan_available: bool,
}

/// The text of a socket address: `address:port`, an IPv6 address in
/// brackets.
pub open spec fn socket_text(address: IpAddress, port: u16) -> Seq<char> {
    match address {
        IpAddress::V4(_) => ip_text(address) + seq![':'] + dec_text(port as nat),
        IpAddress::V6(_) => seq!['['] + ip_text(address) + seq![']', ':'] + dec_text(port as nat),
    }
}

/// What the local server reports once bound to `address:port`: its HTTP
/// base URL, a loopback scope, and no LAN access.
pub fn server_info(address: IpAddress, port: u16) -> (r: ServerInfo)
    ensures
        r.base_url@ == "http://"@ + socket_text(address, port),
        r.bind_scope == "loopback",
        !r.lan_available,
{
    let mut url = String::new();
    append_str(&mut url, "http://");
    match address {
        IpAddress::V4(_) => {
            append_ip(&mut url, address);
            append_str(&mut url, ":");
        },
        IpAddress::V6(_) => {
            append_str(&mut url, "[");
            append_ip(&mut url, address);
            append_str(&mut url, "]:");
        },
    }
    append_decimal(&mut url, port as u64);
    proof {
        reveal_strlit(":");
        reveal_strlit("[");
        reveal_strlit("]:");
        assert(url@ =~= "http://"@ + socket_text(address, port));
    }
    ServerInfo { base_url: url, bind_scope: "loopback", lan_available: false }
}

// ---------------------------------------------------------------------------
// Direct play
// ---------------------------------------------------------------------------

#[derive(Debug, Clone, Copy, PartialEq, Eq, Structural)]
pub enum StreamingError {
    NotFound,
    OutsideApprovedLibrary,
    Unavailable,
    Busy,
}

impl StreamingError {
    /// The message shown for this error.
    pub fn message(&self) -> (r: &'static str)
        ensures
            r == (match self {
                StreamingError::NotFound => "the requested media does not exist",
                StreamingError::OutsideApprovedLibrary => "the requested media is outside the approved library",
                StreamingError::Unavailable => "the requested media is unavailable",
                StreamingError::Busy => "the streaming capacity is currently in use",
            }),
    {
        match self {
            StreamingError::NotFound => "the requested media does not exist",
            StreamingError::OutsideApprovedLibrary => "the requested media is outside the approved library",
            StreamingError::Unavailable => "the requested media is unavailable",
            StreamingError::Busy => "the streaming capacity is currently in use",
        }
    }
}

impl From<DatabaseError> for StreamingError {
    fn from(error: DatabaseError) -> (r: Self) {
        StreamingError::Unavailable
    }
}

impl vstd::std_specs::convert::FromSpecImpl<DatabaseError> for StreamingError {
    open spec fn obeys_from_spec() -> bool {
        true
    }

    open spec fn from_spec(v: DatabaseError) -> Self {
        StreamingError::Unavailable
    }
}

/// The media type served for a file extension.
pub open spec fn content_type_of(extension: Seq<char>) -> &'static str {
    if extension == "m4v"@ || extension == "mp4"@ {
        "video/mp4"
    } else if extension == "mkv"@ {
        "video/x-matroska"
    } else if extension == "mov"@ {
        "video/quicktime"
    } else if extension == "webm"@ {
        "video/webm"
    } else {
        "application/octet-stream"
    }
}

/// The media type served for a file extension (see `content_type_of`).
pub fn content_type(extension: &str) -> (r: &'static str)
    ensures
        r == content_type_of(extension@),
{
    if crate::text::str_eq(extension, "m4v") || crate::text::str_eq(extension, "mp4") {
        "video/mp4"
    } else if crate::text::str_eq(extension, "mkv") {
        "video/x-matroska"
    } else if crate::text::str_eq(extension, "mov") {
        "video/quicktime"
    } else if crate::text::str_eq(extension, "webm") {
        "video/webm"
    } else {
        "application/octet-stream"
    }
}

/// Whether a direct-play request may open its file: the media must be
/// known, and its file must resolve strictly inside the approved library.
pub fn check_direct_play(known: bool, location: SourceLocation) -> (r: Result<(), StreamingError>)
    ensures
        !known ==> r == Err::<(), StreamingError>(StreamingError::NotFound),
        known && location == SourceLocation::Unavailable ==> r == Err::<(), StreamingError>(
            StreamingError::Unavailable,
        ),
        known && location == SourceLocation::Outside ==> r == Err::<(), StreamingError>(
            StreamingError::OutsideApprovedLibrary,
        ),
        known && location == SourceLocation::Inside ==> r is Ok,
{
    if !known {
        return Err(StreamingError::NotFound);
    }
    match location {
        SourceLocation::Unavailable => Err(StreamingError::Unavailable),
        SourceLocation::Outside => Err(StreamingError::OutsideApprovedLibrary),
        SourceLocation::Inside => Ok(()),
    }
}

// ---------------------------------------------------------------------------
// Probing a scanned library
// ---------------------------------------------------------------------------

/// Records what probing gave for one item: its metadata and track mappings
/// when the probe succeeded, `Unavailable` when it failed.  A cancelled
/// probe stops the whole scan: the item is left as it was and the error
/// reports `ffprobe` as unavailable because it was cancelled.
pub fn apply_probe(media: &mut ScannedMedia, outcome: Result<ProbeResult, ProbeError>) -> (r: Result<
    (),
    CoreError,
>)
    ensures
        match outcome {
            Ok(p) => r is Ok && final(media).item.probe_status == ProbeStatus::Available
                && final(media).item.metadata == Some(p.metadata) && final(media).track_mappings
                == p.mappings,
            Err(ProbeError::Process(ProcessError::Cancelled)) => (r matches Err(
                CoreError::MediaTools(ToolDiscoveryError::Unavailable { tool, source }),
            ) && tool == "ffprobe" && source is Cancelled) && *final(media) == *old(media),
            Err(_) => r is Ok && final(media).item.probe_status == ProbeStatus::Unavailable,
        },
        final(media).item.id == old(media).item.id,
        final(media).item.title == old(media).item.title,
        final(media).item.extension == old(media).item.extension,
        final(media).item.size_bytes == old(media).item.size_bytes,
        final(media).path == old(media).path,
{
    match outcome {
        Ok(probe) => {
            media.item.metadata = Some(probe.metadata);
            media.item.probe_status = ProbeStatus::Available;
            media.track_mappings = probe.mappings;
            Ok(())
        },
        Err(ProbeError::Process(ProcessError::Cancelled)) => Err(
            CoreError::MediaTools(
                ToolDiscoveryError::Unavailable { tool: "ffprobe", source: ProcessError::Cancelled },
            ),
        ),
        Err(_) => {
            media.item.probe_status = ProbeStatus::Unavailable;
            Ok(())
        },
    }
}

} // verus!
