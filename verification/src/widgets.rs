//! Texts and tones of the small widgets: clock, load readout, status bar, and
//! the read-only profile card.

use vstd::prelude::*;

use crate::formatters;
use crate::ipc::SystemMetrics;
use crate::ipc_client;
use crate::policy::{GameModeActions, Profile};
use crate::text;
use crate::theme::Tone;

verus! {

// ── Clock ───────────────────────────────────────────────────────────────────

/// `HH:MM:SS`.
pub open spec fn clock_text(h: nat, m: nat, s: nat) -> Seq<char> {
    text::zero_padded(text::decimal(h), 2) + ":"@ + text::zero_padded(text::decimal(m), 2) + ":"@
        + text::zero_padded(text::decimal(s), 2)
}

/// Writes `HH:MM:SS`.
pub fn format_clock(h: u64, m: u64, s: u64) -> (r: String)
    ensures
        r@ == clock_text(h as nat, m as nat, s as nat),
{
    let mut out = text::pad_zeros(text::format_decimal(h), 2);
    let minutes = text::pad_zeros(text::format_decimal(m), 2);
    let seconds = text::pad_zeros(text::format_decimal(s), 2);
    out.append(":");
    out.append(minutes.as_str());
    out.append(":");
    out.append(seconds.as_str());
    out
}

/// The time of day in UTC, for where the local time cannot be had. Moments
/// before the epoch count as the epoch.
pub fn format_utc_hms(secs: i64) -> (r: String)
    ensures
        ({
            let t = if secs < 0 {
                0
            } else {
                secs as int
            };
            r@ == clock_text(
                ((t / 3600) % 24) as nat,
                ((t / 60) % 60) as nat,
                (t % 60) as nat,
            )
        }),
{
    let t: u64 = if secs < 0 {
        0
    } else {
        secs as u64
    };
    format_clock((t / 3600) % 24, (t / 60) % 60, t % 60)
}

/// Ticks of 100 ns between the Win32 epoch and the Unix epoch.
pub const UNIX_EPOCH_TICKS: u64 = 116_444_736_000_000_000;

/// A moment in ticks of the Win32 epoch, as far as it can be said.
pub open spec fn file_time_ticks(secs: u64) -> u64 {
    let ticks = if secs * 10_000_000 > u64::MAX {
        u64::MAX as int
    } else {
        secs * 10_000_000
    };
    if ticks + UNIX_EPOCH_TICKS > u64::MAX {
        u64::MAX
    } else {
        (ticks + UNIX_EPOCH_TICKS) as u64
    }
}

/// The low and high half of a moment in ticks of the Win32 epoch.
pub fn file_time(secs: u64) -> (r: (u32, u32))
    ensures
        r.1 * 0x1_0000_0000 + r.0 == file_time_ticks(secs),
{
    let scaled: u64 = match secs.checked_mul(10_000_000) {
        Some(x) => x,
        None => u64::MAX,
    };
    let ticks: u64 = match scaled.checked_add(UNIX_EPOCH_TICKS) {
        Some(x) => x,
        None => u64::MAX,
    };
    let low = (ticks % 0x1_0000_0000) as u32;
    let high = (ticks / 0x1_0000_0000) as u32;
    (low, high)
}

// ── Load readout ────────────────────────────────────────────────────────────

/// The tone of the memory figure.
pub open spec fn memory_tone_of(percent: int) -> Tone {
    if percent > 90 {
        Tone::Error
    } else if percent > 75 {
        Tone::Warning
    } else {
        Tone::Text
    }
}

/// The figures at the end of the top bar.
#[derive(Debug, PartialEq, Eq)]
pub struct LoadReadout {
    pub memory: String,
    pub memory_tone: Tone,
    pub memory_hover: String,
    pub cpu: String,
    pub cpu_tone: Tone,
    pub cpu_hover: String,
}

/// Cores that the hover text lists.
pub const TOP_CORES: usize = 5;

/// Writes the figures at the end of the top bar.
pub fn load_readout(m: &SystemMetrics) -> (r: LoadReadout)
    ensures
        ({
            let percent = ipc_client::memory_percent(m.memory_used_bytes, m.memory_total_bytes);
            &&& r.memory@ == text::decimal(percent as nat) + "%"@
            &&& r.memory_tone == memory_tone_of(percent)
        }),
        r.memory_hover@ == formatters::byte_text(m.memory_used_bytes as nat) + " / "@
            + formatters::byte_text(m.memory_total_bytes as nat) + " used"@,
        r.cpu@ == text::decimal(m.cpu_percent as nat) + "%"@,
        r.cpu_tone == formatters::cpu_tone(m.cpu_percent as u16),
        r.cpu_hover@ == formatters::top_cores_text(
            m.per_core_cpu_percent@,
            TOP_CORES as nat,
        ),
{
    let percent = ipc_client::mem_percent(m.memory_used_bytes, m.memory_total_bytes);
    let mut memory = text::format_decimal(percent as u64);
    memory.append("%");
    let memory_tone = if percent > 90 {
        Tone::Error
    } else if percent > 75 {
        Tone::Warning
    } else {
        Tone::Text
    };
    let mut memory_hover = formatters::format_bytes(m.memory_used_bytes);
    memory_hover.append(" / ");
    let total = formatters::format_bytes(m.memory_total_bytes);
    memory_hover.append(total.as_str());
    memory_hover.append(" used");
    let mut cpu = text::format_decimal(m.cpu_percent as u64);
    cpu.append("%");
    LoadReadout {
        memory,
        memory_tone,
        memory_hover,
        cpu,
        cpu_tone: formatters::cpu_percent_color(m.cpu_percent as u16),
        cpu_hover: formatters::format_top_cores(m.per_core_cpu_percent.as_slice(), TOP_CORES),
    }
}

// ── Status bar ──────────────────────────────────────────────────────────────

/// Longest echo that the status bar shows whole.
pub const STATUS_BAR_CHARS: usize = 80;

/// Whether a message speaks of a failure.
pub open spec fn speaks_of_failure(message: Seq<char>) -> bool {
    let m = text::lower(message);
    ||| text::occurs_in("error"@, m)
    ||| text::occurs_in("failed"@, m)
    ||| text::occurs_in("rejected"@, m)
    ||| text::occurs_in("denied"@, m)
    ||| text::occurs_in("refused"@, m)
}

/// Decides whether a message speaks of a failure.
pub fn is_failure(message: &str) -> (r: bool)
    ensures
        r == speaks_of_failure(message@),
{
    let m = text::to_lower(message);
    text::contains_text(m.as_str(), "error") || text::contains_text(m.as_str(), "failed")
        || text::contains_text(m.as_str(), "rejected") || text::contains_text(
        m.as_str(),
        "denied",
    ) || text::contains_text(m.as_str(), "refused")
}

/// The engine's state in one word.
pub open spec fn engine_word(connected: bool, paused: bool, manual: bool) -> Seq<char> {
    if !connected {
        "Disconnected"@
    } else if paused {
        "Paused"@
    } else if manual {
        "Manual"@
    } else {
        "Running"@
    }
}

/// The tone of the engine's state.
pub open spec fn engine_tone(connected: bool, paused: bool, manual: bool) -> Tone {
    if !connected {
        Tone::Error
    } else if paused {
        Tone::Warning
    } else if manual {
        Tone::Accent
    } else {
        Tone::Success
    }
}

/// The process counts of the status bar.
pub open spec fn count_text(count: nat, managed: nat) -> Seq<char> {
    if managed > 0 {
        text::decimal(count) + " processes ("@ + text::decimal(managed) + " managed)"@
    } else {
        text::decimal(count) + " processes"@
    }
}

/// The parts of the status bar, left to right.
#[derive(Debug, PartialEq, Eq)]
pub struct StatusBar {
    pub state: &'static str,
    pub state_tone: Tone,
    pub pinned: Option<String>,
    pub counts: String,
    pub echo: Option<String>,
    pub echo_tone: Tone,
}

/// Writes the status bar.
pub fn status_bar(
    connected: bool,
    paused: bool,
    manual_override: Option<&String>,
    process_count: usize,
    managed_count: usize,
    last_action: Option<&String>,
) -> (r: StatusBar)
    ensures
        r.state@ == engine_word(connected, paused, manual_override is Some),
        r.state_tone == engine_tone(connected, paused, manual_override is Some),
        match manual_override {
            Some(id) => r.pinned is Some && r.pinned->0@ == "override: "@ + id@,
            None => r.pinned is None,
        },
        r.counts@ == count_text(process_count as nat, managed_count as nat),
        match last_action {
            Some(message) => {
                &&& r.echo is Some
                &&& r.echo->0@ == formatters::echo_text(message@, STATUS_BAR_CHARS as nat)
                &&& r.echo_tone == (if speaks_of_failure(message@) {
                    Tone::Error
                } else {
                    Tone::TextMuted
                })
            },
            None => r.echo is None && r.echo_tone == Tone::TextMuted,
        },
{
    let manual = manual_override.is_some();
    let (state, state_tone) = if !connected {
        ("Disconnected", Tone::Error)
    } else if paused {
        ("Paused", Tone::Warning)
    } else if manual {
        ("Manual", Tone::Accent)
    } else {
        ("Running", Tone::Success)
    };
    let pinned = match manual_override {
        Some(id) => {
            let mut out = "override: ".to_owned();
            out.append(id.as_str());
            Some(out)
        },
        None => None,
    };
    let mut counts = text::format_decimal(process_count as u64);
    if managed_count > 0 {
        counts.append(" processes (");
        let managed = text::format_decimal(managed_count as u64);
        counts.append(managed.as_str());
        counts.append(" managed)");
    } else {
        counts.append(" processes");
    }
    let (echo, echo_tone) = match last_action {
        Some(message) => {
            let tone = if is_failure(message.as_str()) {
                Tone::Error
            } else {
                Tone::TextMuted
            };
            (Some(formatters::truncate_for_echo(message.as_str(), STATUS_BAR_CHARS)), tone)
        },
        None => (None, Tone::TextMuted),
    };
    StatusBar { state, state_tone, pinned, counts, echo, echo_tone }
}

/// How long an echo stays in the status bar, in milliseconds.
pub const ECHO_MS: u64 = 5000;

/// The echo of the last action.
#[derive(Debug, PartialEq, Eq)]
pub struct ActionEcho {
    pub text: Option<String>,
    /// When it was first drawn.
    pub since_ms: Option<u64>,
}

impl Default for ActionEcho {
    fn default() -> (r: Self)
        ensures
            r.text is None,
            r.since_ms is None,
    {
        ActionEcho { text: None, since_ms: None }
    }
}

/// Whether an echo has been drawn long enough.
pub open spec fn is_stale(since_ms: Option<u64>, now_ms: u64) -> bool {
    match since_ms {
        Some(since) => now_ms - since >= ECHO_MS,
        None => false,
    }
}

impl ActionEcho {
    /// Puts a text in place of the one that is there.
    pub fn say(&mut self, text: String)
        ensures
            final(self).text == Some(text),
            final(self).since_ms is None,
    {
        self.text = Some(text);
        self.since_ms = None;
    }

    /// Is called once per frame; clears an echo that was drawn long enough.
    pub fn tick(&mut self, now_ms: u64)
        ensures
            is_stale(old(self).since_ms, now_ms) ==> final(self).text is None
                && final(self).since_ms is None,
            !is_stale(old(self).since_ms, now_ms) ==> {
                &&& final(self).text == old(self).text
                &&& final(self).since_ms == (match old(self).since_ms {
                    Some(since) => Some(since),
                    None => if old(self).text is Some {
                        Some(now_ms)
                    } else {
                        None
                    },
                })
            },
    {
        match self.since_ms {
            Some(since) => {
                if now_ms >= since && now_ms - since >= ECHO_MS {
                    self.text = None;
                    self.since_ms = None;
                }
            },
            None => {
                if self.text.is_some() {
                    self.since_ms = Some(now_ms);
                }
            },
        }
    }
}

// ── The profile card ────────────────────────────────────────────────────────

/// A short form of a list: up to three entries whole, else the count and the
/// first three.
pub open spec fn list_summary(items: Seq<Seq<char>>) -> Seq<char> {
    if items.len() <= 3 {
        text::join(items, ", "@)
    } else {
        text::decimal(items.len()) + " items: "@ + text::join(items.take(3), ", "@) + "…"@
    }
}

/// Writes a list in short form.
pub fn format_count_summary(items: &[String]) -> (r: String)
    ensures
        r@ == list_summary(text::texts(items@)),
{
    if items.len() <= 3 {
        return text::join_texts(items, ", ");
    }
    let mut first: Vec<String> = Vec::new();
    first.push(items[0].clone());
    first.push(items[1].clone());
    first.push(items[2].clone());
    assert(text::texts(first@) =~= text::texts(items@).take(3));
    let preview = text::join_texts(first.as_slice(), ", ");
    let mut out = text::format_decimal(items.len() as u64);
    out.append(" items: ");
    out.append(preview.as_str());
    out.append("…");
    out
}

/// `Yes` or `No`.
pub fn yes_no(b: bool) -> (r: &'static str)
    ensures
        r@ == (if b {
            "Yes"@
        } else {
            "No"@
        }),
{
    if b {
        "Yes"
    } else {
        "No"
    }
}

/// A list in short form, or a dash where it is empty.
pub open spec fn summary_or_dash(items: Seq<Seq<char>>) -> Seq<char> {
    if items.len() == 0 {
        "—"@
    } else {
        list_summary(items)
    }
}

fn summary_line(items: &Vec<String>) -> (r: String)
    ensures
        r@ == summary_or_dash(text::texts(items@)),
{
    if items.len() == 0 {
        "—".to_owned()
    } else {
        format_count_summary(items.as_slice())
    }
}

/// The lines about a profile's system-wide actions.
#[derive(Debug, PartialEq, Eq)]
pub struct GameModeLines {
    pub hide_taskbar: &'static str,
    pub stop_services: String,
    pub suspend_processes: String,
    pub pause_windows_update: &'static str,
}

/// Whether these are the lines about some actions.
pub open spec fn describes(lines: GameModeLines, gm: GameModeActions) -> bool {
    &&& lines.hide_taskbar@ == (if gm.hide_taskbar {
        "Yes"@
    } else {
        "No"@
    })
    &&& lines.stop_services@ == summary_or_dash(text::texts(gm.stop_services@))
    &&& lines.suspend_processes@ == summary_or_dash(text::texts(gm.suspend_processes@))
    &&& lines.pause_windows_update@ == (if gm.pause_windows_update {
        "Yes"@
    } else {
        "No"@
    })
}

/// Writes the lines about a profile's system-wide actions.
pub fn game_mode_lines(p: &Profile) -> (r: Option<GameModeLines>)
    ensures
        r is Some == (p.game_mode is Some),
        r is Some ==> describes(r->0, p.game_mode->0),
{
    match &p.game_mode {
        Some(gm) => Some(
            GameModeLines {
                hide_taskbar: yes_no(gm.hide_taskbar),
                stop_services: summary_line(&gm.stop_services),
                suspend_processes: summary_line(&gm.suspend_processes),
                pause_windows_update: yes_no(gm.pause_windows_update),
            },
        ),
        None => None,
    }
}

} // verus!
