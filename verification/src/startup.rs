//! Starting up next to another instance, and starting again with elevation.

use vstd::prelude::*;

use crate::text;

verus! {

/// How long a new instance waits for the old one to go, in milliseconds.
pub const HANDOFF_TIMEOUT_MS: u64 = 3_000;

/// Pause between two tries, in milliseconds.
pub const HANDOFF_RETRY_MS: u64 = 200;

/// What to do after a try to become the only instance.
#[derive(Debug, Clone, Copy, PartialEq, Eq, Structural)]
pub enum SingletonStep {
    /// The name was free: this instance runs.
    Primary,
    /// Another instance stays: ask it to show its window, and leave.
    AlreadyRunning,
    /// Another instance may be about to go: try again after the pause.
    Retry,
}

/// Decides what to do after a try, `waited_ms` after the first.
pub fn singleton_step(name_taken: bool, waited_ms: u64) -> (r: SingletonStep)
    ensures
        r == (if !name_taken {
            SingletonStep::Primary
        } else if waited_ms >= HANDOFF_TIMEOUT_MS {
            SingletonStep::AlreadyRunning
        } else {
            SingletonStep::Retry
        }),
{
    if !name_taken {
        SingletonStep::Primary
    } else if waited_ms >= HANDOFF_TIMEOUT_MS {
        SingletonStep::AlreadyRunning
    } else {
        SingletonStep::Retry
    }
}

/// A number with its sign.
pub open spec fn signed_decimal(n: int) -> Seq<char> {
    if n < 0 {
        "-"@ + text::decimal((-n) as nat)
    } else {
        text::decimal(n as nat)
    }
}

/// The message for a failed start with elevation.
pub open spec fn relaunch_failure(code: int) -> Seq<char> {
    "ShellExecute(runas) failed: HINSTANCE="@ + signed_decimal(code)
        + " (likely UAC declined or path resolution error)"@
}

/// Reads the code of a start with elevation; up to 32 it means failure.
pub fn relaunch_outcome(code: i64) -> (r: Result<(), String>)
    ensures
        match r {
            Ok(_) => code > 32,
            Err(message) => code <= 32 && message@ == relaunch_failure(code as int),
        },
{
    if code > 32 {
        return Ok(());
    }
    let mut out = "ShellExecute(runas) failed: HINSTANCE=".to_owned();
    if code < 0 {
        let mut number = "-".to_owned();
        let size: u64 = if code == i64::MIN {
            0x8000_0000_0000_0000
        } else {
            (-code) as u64
        };
        let digits = text::format_decimal(size);
        number.append(digits.as_str());
        out.append(number.as_str());
    } else {
        let digits = text::format_decimal(code as u64);
        out.append(digits.as_str());
    }
    out.append(" (likely UAC declined or path resolution error)");
    Err(out)
}

/// The echo line for a failed start with elevation.
pub fn relaunch_echo(message: &str) -> (r: String)
    ensures
        r@ == "relaunch failed: "@ + message@,
{
    let mut out = "relaunch failed: ".to_owned();
    out.append(message);
    out
}

} // verus!
