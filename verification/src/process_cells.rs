//! The texts of the Processes table and of its detail panel.

use vstd::prelude::*;

use crate::formatters;
use crate::ipc::ProcessSnapshot;
use crate::policy::{self, Policy};
use crate::text;
use crate::text_edit;
use crate::theme::Tone;
use crate::tree::RowState;

verus! {

// ── Cells ───────────────────────────────────────────────────────────────────

/// The executable's name; the focused process is marked.
pub fn exe_label(p: &ProcessSnapshot, state: RowState) -> (r: String)
    ensures
        r@ == (if state == RowState::Foreground {
            "> "@ + p.exe_name@
        } else {
            p.exe_name@
        }),
{
    if state == RowState::Foreground {
        let mut out = "> ".to_owned();
        out.append(p.exe_name.as_str());
        out
    } else {
        p.exe_name.clone()
    }
}

/// The switch in front of a process with children.
pub fn branch_glyph(collapsed: bool) -> (r: &'static str)
    ensures
        r@ == (if collapsed {
            "+"@
        } else {
            "-"@
        }),
{
    if collapsed {
        "+"
    } else {
        "-"
    }
}

/// Whether an account belongs to the operating system.
pub open spec fn is_system_account(user: Seq<char>) -> bool {
    ||| text::begins_with(user, "NT AUTHORITY\\"@)
    ||| user == "SYSTEM"@
    ||| text::begins_with(user, "NT SERVICE\\"@)
    ||| text::begins_with(user, "Window Manager\\"@)
    ||| text::begins_with(user, "Font Driver Host\\"@)
}

/// The tone of an account's name: accounts of the system are muted.
pub fn user_tone(user: &str) -> (r: Tone)
    ensures
        r == (if is_system_account(user@) {
            Tone::TextMuted
        } else {
            Tone::Text
        }),
{
    if text::starts_with_text(user, "NT AUTHORITY\\") || text::same_text(user, "SYSTEM")
        || text::starts_with_text(user, "NT SERVICE\\") || text::starts_with_text(
        user,
        "Window Manager\\",
    ) || text::starts_with_text(user, "Font Driver Host\\") {
        Tone::TextMuted
    } else {
        Tone::Text
    }
}

/// Longest text of a wide column that gets no hover text, in bytes.
pub const WIDE_CELL_BYTES: usize = 24;

/// Longest text of a narrow column that gets no hover text, in bytes.
pub const NARROW_CELL_BYTES: usize = 18;

/// Whether a cell's text is long enough to get a hover text.
pub fn needs_hover(text: &str, limit: usize) -> (r: bool)
    ensures
        r == (vstd::utf8::encode_utf8(text@).len() as usize > limit),
{
    text.len() > limit
}

/// The memory figures, one per line.
pub open spec fn memory_lines(p: ProcessSnapshot) -> Seq<char> {
    "Working set: "@ + formatters::byte_text(p.memory_bytes as nat) + "\nPeak working set: "@
        + formatters::byte_text(p.peak_working_set_bytes as nat) + "\nPrivate bytes: "@
        + formatters::byte_text(p.private_bytes as nat)
}

/// The hover text of the memory column.
pub fn memory_hover(p: &ProcessSnapshot) -> (r: String)
    ensures
        r@ == memory_lines(*p),
{
    let mut out = "Working set: ".to_owned();
    let now = formatters::format_bytes(p.memory_bytes);
    out.append(now.as_str());
    out.append("\nPeak working set: ");
    let peak = formatters::format_bytes(p.peak_working_set_bytes);
    out.append(peak.as_str());
    out.append("\nPrivate bytes: ");
    let private = formatters::format_bytes(p.private_bytes);
    out.append(private.as_str());
    out
}

/// Whether the policy pins an executable.
pub open spec fn is_pinned(known: Option<&Policy>, exe: Seq<char>) -> bool {
    match known {
        Some(p) => policy::has_affinity_rule(p@.affinity_rules, exe),
        None => false,
    }
}

/// Decides whether the policy pins an executable.
pub fn pinned(known: Option<&Policy>, exe: &str) -> (r: bool)
    ensures
        r == is_pinned(known, exe@),
{
    match known {
        Some(p) => {
            proof {
                policy::affinity_selector_found_iff_rule(p@.affinity_rules, exe@);
            }
            p.affinity_rule_for(exe).is_some()
        },
        None => false,
    }
}

/// The affinity cell; a pinned executable is marked.
pub fn affinity_cell(mask: u64, has_rule: bool) -> (r: String)
    ensures
        r@ == (if has_rule {
            "📌 "@ + text_edit::shown_mask(mask)
        } else {
            text_edit::shown_mask(mask)
        }),
{
    let shown = text_edit::show_mask(mask);
    if has_rule {
        let mut out = "📌 ".to_owned();
        out.append(shown.as_str());
        out
    } else {
        shown
    }
}

/// What a click on the affinity cell does.
pub open spec fn affinity_hint(has_rule: bool) -> Seq<char> {
    if has_rule {
        "\n\n📌 Persistent affinity rule active for this exe. Click to edit, right-click to remove."@
    } else {
        "\n\nClick to edit affinity. Toggle the Save-as-rule checkbox in the picker to make it persistent across launches."@
    }
}

/// The hover text of the affinity column.
pub fn affinity_hover(mask: u64, has_rule: bool) -> (r: String)
    ensures
        r@ == formatters::affinity_text(mask) + affinity_hint(has_rule),
{
    let mut out = formatters::decode_affinity_mask(mask);
    if has_rule {
        out.append(
            "\n\n📌 Persistent affinity rule active for this exe. Click to edit, right-click to remove.",
        );
    } else {
        out.append(
            "\n\nClick to edit affinity. Toggle the Save-as-rule checkbox in the picker to make it persistent across launches.",
        );
    }
    out
}

/// The profile of a process; one that a rule chose is starred.
pub open spec fn profile_text(p: ProcessSnapshot) -> Seq<char> {
    match p.managed_profile {
        Some(id) => if p.matched_rule_note is Some {
            "★ "@ + id@
        } else {
            id@
        },
        None => "—"@,
    }
}

/// The profile column.
pub fn profile_cell(p: &ProcessSnapshot) -> (r: String)
    ensures
        r@ == profile_text(*p),
{
    match &p.managed_profile {
        Some(id) => if p.matched_rule_note.is_some() {
            let mut out = "★ ".to_owned();
            out.append(id.as_str());
            out
        } else {
            id.clone()
        },
        None => "—".to_owned(),
    }
}

/// What is going on with a process: held back, else the note of its rule.
pub open spec fn status_text(p: ProcessSnapshot) -> Seq<char> {
    if p.restrained_by_probalance {
        "● ProBalance"@
    } else {
        match p.matched_rule_note {
            Some(note) => if note@.len() == 0 {
                "rule"@
            } else {
                note@
            },
            None => "—"@,
        }
    }
}

/// The status column.
pub fn status_cell(p: &ProcessSnapshot) -> (r: String)
    ensures
        r@ == status_text(*p),
{
    if p.restrained_by_probalance {
        "● ProBalance".to_owned()
    } else {
        match &p.matched_rule_note {
            Some(note) => if note.as_str().unicode_len() == 0 {
                "rule".to_owned()
            } else {
                note.clone()
            },
            None => "—".to_owned(),
        }
    }
}

// ── Detail panel ────────────────────────────────────────────────────────────

/// The memory line of the detail panel.
pub open spec fn memory_summary_text(p: ProcessSnapshot) -> Seq<char> {
    if p.peak_working_set_bytes > 0 || p.private_bytes > 0 {
        formatters::byte_text(p.memory_bytes as nat) + "  (peak "@ + formatters::byte_text(
            p.peak_working_set_bytes as nat,
        ) + " · private "@ + formatters::byte_text(p.private_bytes as nat) + ")"@
    } else {
        formatters::byte_text(p.memory_bytes as nat)
    }
}

fn memory_summary(p: &ProcessSnapshot) -> (r: String)
    ensures
        r@ == memory_summary_text(*p),
{
    let mut out = formatters::format_bytes(p.memory_bytes);
    if p.peak_working_set_bytes > 0 || p.private_bytes > 0 {
        out.append("  (peak ");
        let peak = formatters::format_bytes(p.peak_working_set_bytes);
        out.append(peak.as_str());
        out.append(" · private ");
        let private = formatters::format_bytes(p.private_bytes);
        out.append(private.as_str());
        out.append(")");
    }
    out
}

/// The profile line of the detail panel.
pub open spec fn profile_detail_text(p: ProcessSnapshot) -> Seq<char> {
    match p.managed_profile {
        Some(id) => if p.matched_rule_note is Some {
            "★ "@ + id@ + "  (Rule)"@
        } else {
            id@
        },
        None => "—"@,
    }
}

fn profile_detail(p: &ProcessSnapshot) -> (r: String)
    ensures
        r@ == profile_detail_text(*p),
{
    match &p.managed_profile {
        Some(id) => if p.matched_rule_note.is_some() {
            let mut out = "★ ".to_owned();
            out.append(id.as_str());
            out.append("  (Rule)");
            out
        } else {
            id.clone()
        },
        None => "—".to_owned(),
    }
}

/// A text, or a dash where there is none or an empty one.
pub open spec fn note_or_dash(note: Option<String>) -> Seq<char> {
    match note {
        Some(n) => if n@.len() == 0 {
            "—"@
        } else {
            n@
        },
        None => "—"@,
    }
}

/// A mask in hexadecimal, all sixteen digits.
pub open spec fn full_mask_text(mask: u64) -> Seq<char> {
    "0x"@ + text::zero_padded(text::numeral(mask as nat, 16), 16)
}

/// The lines of the detail panel.
#[derive(Debug, PartialEq, Eq)]
pub struct Detail {
    pub badge: String,
    pub cpu: String,
    pub memory: String,
    pub threads: String,
    pub priority: &'static str,
    pub affinity: String,
    pub profile: String,
    pub user: String,
    pub rule_note: String,
    pub probalance: &'static str,
}

/// Writes the detail panel of a process.
pub fn detail(p: &ProcessSnapshot) -> (r: Detail)
    ensures
        r.badge@ == "pid "@ + text::decimal(p.pid as nat),
        r.cpu@ == text::decimal(p.cpu_percent as nat) + " %"@,
        r.memory@ == memory_summary_text(*p),
        r.threads@ == text::decimal(p.threads as nat),
        r.priority@ == formatters::priority_text(p.priority_class_raw),
        r.affinity@ == full_mask_text(p.affinity_mask),
        r.profile@ == profile_detail_text(*p),
        r.user@ == (match p.user {
            Some(u) => u@,
            None => "—"@,
        }),
        r.rule_note@ == note_or_dash(p.matched_rule_note),
        r.probalance@ == (if p.restrained_by_probalance {
            "● restrained"@
        } else {
            "—"@
        }),
{
    let mut badge = "pid ".to_owned();
    let pid = text::format_decimal(p.pid as u64);
    badge.append(pid.as_str());
    let mut cpu = text::format_decimal(p.cpu_percent as u64);
    cpu.append(" %");
    let mut affinity = "0x".to_owned();
    let digits = text::pad_zeros(text::format_in_base(p.affinity_mask, 16), 16);
    affinity.append(digits.as_str());
    let user = match &p.user {
        Some(u) => u.clone(),
        None => "—".to_owned(),
    };
    let rule_note = match &p.matched_rule_note {
        Some(n) => if n.as_str().unicode_len() == 0 {
            "—".to_owned()
        } else {
            n.clone()
        },
        None => "—".to_owned(),
    };
    let probalance = if p.restrained_by_probalance {
        "● restrained"
    } else {
        "—"
    };
    Detail {
        badge,
        cpu,
        memory: memory_summary(p),
        threads: text::format_decimal(p.threads as u64),
        priority: formatters::priority_class_label(p.priority_class_raw),
        affinity,
        profile: profile_detail(p),
        user,
        rule_note,
        probalance,
    }
}

} // verus!
