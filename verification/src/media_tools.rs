//! The media tools (`ffprobe`, `ffmpeg`): which executable is configured,
//! whether a version check shows the expected tool, how a process's output
//! is captured within its limit, and the errors of running them.
//!
//! Spawning, waiting and reading pipes stay with the application, which
//! hands the outcome of each step to the functions here.
use vstd::prelude::*;

use crate::text::ascii_lower;

verus! {

#[verifier::external_type_specification]
#[verifier::external_body]
pub struct ExIoError(std::io::Error);

/// The variable naming the `ffprobe` executable.
pub const FFPROBE_PATH_ENV: &'static str = "LOCALSTREAM_FFPROBE_PATH";

/// The variable naming the `ffmpeg` executable.
pub const FFMPEG_PATH_ENV: &'static str = "LOCALSTREAM_FFMPEG_PATH";

/// The most output a version check keeps.
pub const VERSION_OUTPUT_LIMIT: usize = 65536;

/// Seconds a version check may take.
pub const VERSION_TIMEOUT_SECONDS: u64 = 5;

/// The executables of the media tools.
pub struct MediaToolPaths {
    pub ffprobe: std::path::PathBuf,
    pub ffmpeg: std::path::PathBuf,
}

/// What a finished process gave.
#[derive(Debug, Clone, PartialEq, Eq)]
pub struct ProcessOutput {
    pub success: bool,
    pub exit_code: Option<i32>,
    pub stdout: Vec<u8>,
    pub stderr: Vec<u8>,
}

/// Why a process gave no output.
#[derive(Debug)]
pub enum ProcessError {
    Spawn(std::io::Error),
    Wait(std::io::Error),
    Timeout,
    Cancelled,
    OutputLimitExceeded,
    Output(std::io::Error),
}

impl ProcessError {
    /// The message shown for this error.
    pub fn message(&self) -> (r: &'static str)
        ensures
            r == (match self {
                ProcessError::Spawn(_) => "the process could not be started",
                ProcessError::Wait(_) => "the process could not be monitored",
                ProcessError::Timeout => "the process timed out",
                ProcessError::Cancelled => "the process was cancelled",
                ProcessError::OutputLimitExceeded => "the process output exceeded its configured limit",
                ProcessError::Output(_) => "the process output pipe failed",
            }),
    {
        match self {
            ProcessError::Spawn(_) => "the process could not be started",
            ProcessError::Wait(_) => "the process could not be monitored",
            ProcessError::Timeout => "the process timed out",
            ProcessError::Cancelled => "the process was cancelled",
            ProcessError::OutputLimitExceeded => "the process output exceeded its configured limit",
            ProcessError::Output(_) => "the process output pipe failed",
        }
    }
}

/// Why a media tool could not be found or trusted.
#[derive(Debug)]
pub enum ToolDiscoveryError {
    EmptyConfiguration { variable: &'static str },
    RelativeConfiguredPath,
    Unavailable { tool: &'static str, source: ProcessError },
    Rejected { tool: &'static str },
    WrongExecutable { expected: &'static str },
}

/// The message shown for `e`, with the tool or variable it names.
pub open spec fn tool_error_text(e: ToolDiscoveryError) -> Seq<char> {
    match e {
        ToolDiscoveryError::EmptyConfiguration { variable } => variable@
            + " is configured but empty"@,
        ToolDiscoveryError::RelativeConfiguredPath => "configured media tool paths must be absolute"@,
        ToolDiscoveryError::Unavailable { tool, .. } => tool@
            + " is unavailable or could not be validated"@,
        ToolDiscoveryError::Rejected { tool } => tool@ + " returned an unsuccessful version check"@,
        ToolDiscoveryError::WrongExecutable { expected } => "the configured executable is not "@
            + expected@,
    }
}

impl ToolDiscoveryError {
    /// The message shown for this error, with the tool or variable it names.
    pub fn message(&self) -> (r: String)
        ensures
            r@ == tool_error_text(*self),
    {
        let mut out = String::new();
        match self {
            ToolDiscoveryError::EmptyConfiguration { variable } => {
                crate::text::append_str(&mut out, variable);
                crate::text::append_str(&mut out, " is configured but empty");
            },
            ToolDiscoveryError::RelativeConfiguredPath => {
                crate::text::append_str(&mut out, "configured media tool paths must be absolute");
            },
            ToolDiscoveryError::Unavailable { tool, .. } => {
                crate::text::append_str(&mut out, tool);
                crate::text::append_str(&mut out, " is unavailable or could not be validated");
            },
            ToolDiscoveryError::Rejected { tool } => {
                crate::text::append_str(&mut out, tool);
                crate::text::append_str(&mut out, " returned an unsuccessful version check");
            },
            ToolDiscoveryError::WrongExecutable { expected } => {
                crate::text::append_str(&mut out, "the configured executable is not ");
                crate::text::append_str(&mut out, expected);
            },
        }
        assert(out@ =~= tool_error_text(*self));
        out
    }
}

/// Which media tool.
#[derive(Debug, Clone, Copy, PartialEq, Eq, Structural)]
pub enum MediaTool {
    Ffprobe,
    Ffmpeg,
}

pub open spec fn tool_name(tool: MediaTool) -> &'static str {
    match tool {
        MediaTool::Ffprobe => "ffprobe",
        MediaTool::Ffmpeg => "ffmpeg",
    }
}

pub open spec fn tool_variable(tool: MediaTool) -> &'static str {
    match tool {
        MediaTool::Ffprobe => FFPROBE_PATH_ENV,
        MediaTool::Ffmpeg => FFMPEG_PATH_ENV,
    }
}

/// The executable name of a tool.
pub fn name_of(tool: MediaTool) -> (r: &'static str)
    ensures
        r == tool_name(tool),
{
    match tool {
        MediaTool::Ffprobe => "ffprobe",
        MediaTool::Ffmpeg => "ffmpeg",
    }
}

/// The variable that configures a tool.
pub fn variable_of(tool: MediaTool) -> (r: &'static str)
    ensures
        r == tool_variable(tool),
{
    match tool {
        MediaTool::Ffprobe => FFPROBE_PATH_ENV,
        MediaTool::Ffmpeg => FFMPEG_PATH_ENV,
    }
}

/// Whether a path is empty (a function of the path alone).
pub uninterp spec fn path_empty(path: std::path::PathBuf) -> bool;

/// Whether a path is absolute on this platform (a function of the path
/// alone on a given platform).
pub uninterp spec fn path_absolute(path: std::path::PathBuf) -> bool;

/// The path made of a name (a function of the name alone).
pub uninterp spec fn path_named(name: Seq<char>) -> std::path::PathBuf;

/// `OsStr::is_empty` on the path's text.
#[verifier::external_body]
fn is_empty_path(path: &std::path::PathBuf) -> (r: bool)
    ensures
        r == path_empty(*path),
{
    path.as_os_str().is_empty()
}

/// `Path::is_absolute`.
#[verifier::external_body]
fn is_absolute_path(path: &std::path::PathBuf) -> (r: bool)
    ensures
        r == path_absolute(*path),
{
    path.is_absolute()
}

/// `PathBuf::from` a name.
#[verifier::external_body]
fn path_from_name(name: &str) -> (r: std::path::PathBuf)
    ensures
        r == path_named(name@),
{
    std::path::PathBuf::from(name)
}

/// The executable of `tool` from its configuration variable: unset means
/// the bare tool name (found on the search path); an empty value and a
/// relative path are refused.
pub fn configured_tool(value: Option<std::path::PathBuf>, tool: MediaTool) -> (r: Result<
    std::path::PathBuf,
    ToolDiscoveryError,
>)
    ensures
        match value {
            None => r == Ok::<std::path::PathBuf, ToolDiscoveryError>(path_named(tool_name(tool)@)),
            Some(p) => if path_empty(p) {
                (r matches Err(ToolDiscoveryError::EmptyConfiguration { variable }) && variable
                    == tool_variable(tool))
            } else if !path_absolute(p) {
                r matches Err(ToolDiscoveryError::RelativeConfiguredPath)
            } else {
                r == Ok::<std::path::PathBuf, ToolDiscoveryError>(p)
            },
        },
{
    match value {
        Some(path) => {
            if is_empty_path(&path) {
                return Err(ToolDiscoveryError::EmptyConfiguration { variable: variable_of(tool) });
            }
            if !is_absolute_path(&path) {
                return Err(ToolDiscoveryError::RelativeConfiguredPath);
            }
            Ok(path)
        },
        None => Ok(path_from_name(name_of(tool))),
    }
}

/// A byte in ASCII lowercase.
pub open spec fn lower_byte(b: u8) -> u8 {
    if 65 <= b <= 90 {
        (b + 32) as u8
    } else {
        b
    }
}

/// Whether the first line of a version report, read as text in ASCII
/// lowercase, starts with the ASCII name `expected`.  Bytes that are not
/// ASCII (or not valid text) can never match an ASCII letter, so the test
/// is made on the bytes: the first bytes, in lowercase, spell the name.
pub open spec fn reports_tool(stdout: Seq<u8>, expected: Seq<char>) -> bool {
    stdout.len() >= expected.len() && forall|i: int|
        0 <= i < expected.len() ==> lower_byte(#[trigger] stdout[i]) as char == expected[i]
}

/// Whether a version check shows the expected tool: an unsuccessful run is
/// rejected, and the report's first line must start with the tool's name.
pub fn check_version_output(output: &ProcessOutput, tool: MediaTool) -> (r: Result<
    (),
    ToolDiscoveryError,
>)
    ensures
        !output.success ==> (r matches Err(ToolDiscoveryError::Rejected { tool: t }) && t
            == tool_name(tool)),
        output.success && reports_tool(output.stdout@, tool_name(tool)@) ==> r is Ok,
        output.success && !reports_tool(output.stdout@, tool_name(tool)@) ==> (r matches Err(
            ToolDiscoveryError::WrongExecutable { expected },
        ) && expected == tool_name(tool)),
{
    let expected = name_of(tool);
    if !output.success {
        return Err(ToolDiscoveryError::Rejected { tool: expected });
    }
    let name = crate::text::chars_of(expected);
    if output.stdout.len() < name.len() {
        return Err(ToolDiscoveryError::WrongExecutable { expected });
    }
    let mut i: usize = 0;
    while i < name.len()
        invariant
            name@ == expected@,
            expected == tool_name(tool),
            output.success,
            i <= name.len() <= output.stdout.len(),
            forall|k: int| 0 <= k < i ==> lower_byte(#[trigger] output.stdout@[k]) as char == name@[k],
        decreases name.len() - i,
    {
        let b = output.stdout[i];
        let lower: u8 = if 65 <= b && b <= 90 {
            b + 32
        } else {
            b
        };
        assert(lower == lower_byte(output.stdout@[i as int]));
        if lower as char != name[i] {
            assert(!reports_tool(output.stdout@, tool_name(tool)@));
            return Err(ToolDiscoveryError::WrongExecutable { expected });
        }
        i += 1;
    }
    Ok(())
}

/// A process may only be started with room for some output.
pub fn check_output_limit(output_limit: usize) -> (r: Result<(), ProcessError>)
    ensures
        output_limit == 0 <==> r matches Err(ProcessError::OutputLimitExceeded),
        output_limit > 0 <==> r is Ok,
{
    if output_limit == 0 {
        Err(ProcessError::OutputLimitExceeded)
    } else {
        Ok(())
    }
}

/// Keeps what fits of `chunk` under `limit` bytes in all, and says whether
/// some of it did not fit.
pub fn append_bounded(captured: &mut Vec<u8>, chunk: &[u8], limit: usize) -> (exceeded: bool)
    ensures
        ({
            let room: int = if old(captured)@.len() < limit {
                limit - old(captured)@.len()
            } else {
                0
            };
            &&& final(captured)@ == old(captured)@ + chunk@.take(
                if chunk@.len() < room {
                    chunk@.len() as int
                } else {
                    room
                },
            )
            &&& exceeded == (chunk@.len() > room)
        }),
{
    let room: usize = if captured.len() < limit {
        limit - captured.len()
    } else {
        0
    };
    let keep: usize = if chunk.len() < room {
        chunk.len()
    } else {
        room
    };
    let ghost start = captured@;
    let mut i: usize = 0;
    while i < keep
        invariant
            i <= keep <= chunk.len(),
            captured@ == start + chunk@.take(i as int),
        decreases keep - i,
    {
        captured.push(chunk[i]);
        assert(chunk@.take(i + 1) =~= chunk@.take(i as int).push(chunk@[i as int]));
        i += 1;
    }
    chunk.len() > room
}

/// The output of a pipe once it is closed: refused if any of it did not
/// fit under the limit.
pub fn finish_bounded(captured: Vec<u8>, exceeded: bool) -> (r: Result<Vec<u8>, ProcessError>)
    ensures
        exceeded ==> r matches Err(ProcessError::OutputLimitExceeded),
        !exceeded ==> (r matches Ok(v) && v@ == captured@),
{
    if exceeded {
        Err(ProcessError::OutputLimitExceeded)
    } else {
        Ok(captured)
    }
}

} // verus!
