//! The decisions of one job run, apart from the byte streams: whether a
//! launch may proceed, how the exit status is reported, and the names the
//! host shell needs for the sidecar binary and the temporary cookies file.
//!
//! The host shell resolves paths, spawns the child, pumps the streams and
//! waits; everything it then does with the outcome is decided here.

use vstd::prelude::*;

use crate::events::channel_for;
use crate::events::channel_name;
use crate::events::Emission;
use crate::events::EmissionV;
use crate::events::EventKind;

verus! {

/// Why a job produced no exit code.  A missing binary or a failed spawn
/// is reported before any event is emitted; a failed wait after the
/// streams are drained, and then no completion event is emitted either.
pub enum JobError {
    /// The sidecar binary does not exist at the resolved path.
    SidecarNotFound { path: String },
    /// The operating system refused to spawn the child process.
    SpawnFailed { detail: String },
    /// The child's exit status could not be obtained.
    WaitFailed { detail: String },
}

impl JobError {
    /// The description the host shell reports to its caller.
    pub fn message(&self) -> (r: String)
        ensures
            r@ == match self {
                JobError::SidecarNotFound { path } => "Sidecar not found: "@ + path@,
                JobError::SpawnFailed { detail } => "Failed to spawn process: "@ + detail@,
                JobError::WaitFailed { detail } => "Process error: "@ + detail@,
            },
    {
        match self {
            JobError::SidecarNotFound { path } => String::from_str("Sidecar not found: ").concat(
                path.as_str(),
            ),
            JobError::SpawnFailed { detail } => String::from_str(
                "Failed to spawn process: ",
            ).concat(detail.as_str()),
            JobError::WaitFailed { detail } => String::from_str("Process error: ").concat(
                detail.as_str(),
            ),
        }
    }
}

/// The launch precondition: a job may spawn only when the resolved binary
/// exists.  A missing binary fails the job up front, before any event.
pub fn check_sidecar(path: String, exists: bool) -> (r: Result<(), JobError>)
    ensures
        exists ==> r is Ok,
        !exists ==> (r matches Err(JobError::SidecarNotFound { path: p }) && p@ == path@),
{
    if exists {
        Ok(())
    } else {
        Err(JobError::SidecarNotFound { path })
    }
}

/// The exit code reported for a terminated child: its own code, or `-1`
/// when it terminated without one (for instance by a signal).
pub open spec fn spec_exit_code(status: Option<i32>) -> i32 {
    match status {
        Some(c) => c,
        None => -1i32,
    }
}

/// Maps the child's exit status to the reported code.
pub fn resolve_exit_code(status: Option<i32>) -> (c: i32)
    ensures
        c == spec_exit_code(status),
{
    match status {
        Some(c) => c,
        None => -1,
    }
}

/// The single completion event of a run, built after both streams are
/// drained and the child has been waited on.
pub fn close_emission(label: &str, status: Option<i32>) -> (e: Emission)
    ensures
        e@ == (EmissionV::Close {
            channel: channel_name(label@, EventKind::Close),
            code: spec_exit_code(status),
        }),
{
    let channel = channel_for(label, EventKind::Close);
    let code = resolve_exit_code(status);
    Emission::Close { channel, code }
}

/// Where the sidecar binary lives below the host's resource directory.
pub fn sidecar_relative_path(binary_name: &str) -> (r: String)
    ensures
        r@ == "binaries/"@ + binary_name@,
{
    String::from_str("binaries/").concat(binary_name)
}

/// The digit character of `d`.
pub open spec fn digit_char(d: int) -> char {
    if d == 0 {
        '0'
    } else if d == 1 {
        '1'
    } else if d == 2 {
        '2'
    } else if d == 3 {
        '3'
    } else if d == 4 {
        '4'
    } else if d == 5 {
        '5'
    } else if d == 6 {
        '6'
    } else if d == 7 {
        '7'
    } else if d == 8 {
        '8'
    } else {
        '9'
    }
}

/// The decimal digits of `n`, most significant first.
pub open spec fn spec_decimal(n: int) -> Seq<char>
    decreases n,
{
    if n < 10 {
        seq![digit_char(n)]
    } else {
        spec_decimal(n / 10) + seq![digit_char(n % 10)]
    }
}

/// The one-character text of a decimal digit.
fn digit_str(d: u32) -> (r: &'static str)
    requires
        d < 10,
    ensures
        r@ == seq![digit_char(d as int)],
{
    proof {
        reveal_strlit("0");
        reveal_strlit("1");
        reveal_strlit("2");
        reveal_strlit("3");
        reveal_strlit("4");
        reveal_strlit("5");
        reveal_strlit("6");
        reveal_strlit("7");
        reveal_strlit("8");
        reveal_strlit("9");
    }
    match d {
        0 => "0",
        1 => "1",
        2 => "2",
        3 => "3",
        4 => "4",
        5 => "5",
        6 => "6",
        7 => "7",
        8 => "8",
        _ => "9",
    }
}

/// The decimal text of `n`, most significant digit first, no sign and no
/// leading zero.
pub fn decimal_string(n: u32) -> (r: String)
    ensures
        r@ == spec_decimal(n as int),
    decreases n,
{
    if n < 10 {
        String::from_str(digit_str(n))
    } else {
        let high = decimal_string(n / 10);
        high.concat(digit_str(n % 10))
    }
}

/// The name of the temporary cookies file of the process identified by
/// `pid`: distinct concurrently running supervisors write distinct files.
pub fn cookie_file_name(pid: u32) -> (r: String)
    ensures
        r@ == "yt-dlp-cookies-"@ + spec_decimal(pid as int) + ".txt"@,
{
    let stem = String::from_str("yt-dlp-cookies-").concat(decimal_string(pid).as_str());
    stem.concat(".txt")
}

} // verus!
