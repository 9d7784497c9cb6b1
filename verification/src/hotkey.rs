//! The global hotkey for Manual Global Game Mode: how the outcome of its
//! registration is told, and which messages mean a press.

use vstd::prelude::*;

verus! {

/// Outcome of registering the hotkey.
#[derive(Debug, Clone, Copy, PartialEq, Eq, Structural)]
pub enum HotkeyStatus {
    /// The message pump is running.
    Registered,
    /// Another process owns the combination.
    Conflict,
    /// Registration failed for another reason.
    Failed,
    /// There is no such hotkey on this platform.
    Unsupported,
}

/// Keeps the message pump alive; names the thread that has to be stopped.
#[derive(Debug, PartialEq, Eq)]
pub struct HotkeyGuard {
    pub thread_id: u32,
}

/// What became of the thread that owns the hotkey.
#[derive(Debug, Clone, Copy, PartialEq, Eq, Structural)]
pub enum Pump {
    /// No thread can be started on this platform.
    Absent,
    /// The thread said how its registration went.
    Reported { status: HotkeyStatus, thread_id: u32 },
    /// The thread ended without a word.
    Silent,
}

/// The id under which the hotkey is registered.
pub const HOTKEY_ID: i32 = 0xF5A6;

/// The virtual key, G.
pub const VK_G: u32 = 0x47;

/// The message that a press is delivered as.
pub const WM_HOTKEY: u32 = 0x0312;

/// The error code that says that another process owns the combination.
pub const ALREADY_REGISTERED: u32 = 0x8007_0581;

/// What the pump reports after trying to register, given the error code if
/// that failed.
pub fn pump_status(error: Option<u32>) -> (r: HotkeyStatus)
    ensures
        r == (match error {
            None => HotkeyStatus::Registered,
            Some(code) => if code == ALREADY_REGISTERED {
                HotkeyStatus::Conflict
            } else {
                HotkeyStatus::Failed
            },
        }),
{
    match error {
        None => HotkeyStatus::Registered,
        Some(code) => if code == ALREADY_REGISTERED {
            HotkeyStatus::Conflict
        } else {
            HotkeyStatus::Failed
        },
    }
}

/// The outcome of a registration, and the guard of the pump where it runs.
pub fn register_toggle_hotkey(pump: Pump) -> (r: (HotkeyStatus, Option<HotkeyGuard>))
    ensures
        match pump {
            Pump::Absent => r.0 == HotkeyStatus::Unsupported && r.1 is None,
            Pump::Reported { status, thread_id } => r.0 == status && r.1 == (if status
                == HotkeyStatus::Registered {
                Some(HotkeyGuard { thread_id })
            } else {
                None
            }),
            Pump::Silent => r.0 == HotkeyStatus::Failed && r.1 is None,
        },
{
    match pump {
        Pump::Absent => (HotkeyStatus::Unsupported, None),
        Pump::Reported { status, thread_id } => if status == HotkeyStatus::Registered {
            (status, Some(HotkeyGuard { thread_id }))
        } else {
            (status, None)
        },
        Pump::Silent => (HotkeyStatus::Failed, None),
    }
}

/// The flag that the window looks at, after a press.
pub fn after_press(flag: bool) -> (r: bool)
    ensures
        r == !flag,
{
    !flag
}

/// What the pump does with a message.
#[derive(Debug, Clone, Copy, PartialEq, Eq, Structural)]
pub enum PumpStep {
    /// Leave the loop and give the hotkey back.
    Stop,
    /// The hotkey was pressed.
    Toggle,
    /// Somebody else's message.
    Dispatch,
}

/// The step for the result of `GetMessageW` and the message it fetched.
pub fn pump_step(fetched: i32, message: u32, id: i32) -> (r: PumpStep)
    ensures
        r == (if fetched <= 0 {
            PumpStep::Stop
        } else if message == WM_HOTKEY && id == HOTKEY_ID {
            PumpStep::Toggle
        } else {
            PumpStep::Dispatch
        }),
{
    if fetched <= 0 {
        PumpStep::Stop
    } else if message == WM_HOTKEY && id == HOTKEY_ID {
        PumpStep::Toggle
    } else {
        PumpStep::Dispatch
    }
}

} // verus!
