//! What the background threads do with the service's answers: how events are
//! worded and kept, how a poll is folded into the shared state, and when the
//! foreground is reported.

use std::collections::{HashMap, VecDeque};
use vstd::prelude::*;

use crate::ipc::{
    Event, ForegroundSnapshot, ProcessSnapshot, Request, Response, StatusSnapshot, SystemMetrics,
};
use crate::state::{AppState, EventKind, RecentEvent, Timestamp, SYSTEM_HISTORY_LEN};
use crate::text;

verus! {

broadcast use vstd::std_specs::hash::group_hash_axioms;

/// Pause between attempts to reconnect, in milliseconds.
pub const RECONNECT_BACKOFF_MS: u64 = 1500;

/// Events kept in memory.
pub const MAX_RECENT: usize = 1000;

/// Longest wait for a pipe instance, in milliseconds.
pub const PIPE_WAIT_TIMEOUT_MS: u32 = 2000;

// ── Wording of events ───────────────────────────────────────────────────────

/// `n` in hexadecimal with its prefix.
pub open spec fn hex_text(n: nat) -> Seq<char> {
    "0x"@ + text::numeral(n, 16)
}

/// The category of an event.
pub open spec fn event_kind(e: Event) -> EventKind {
    match e {
        Event::ForegroundChanged { .. } => EventKind::Foreground,
        Event::ProBalanceRestrained { .. } => EventKind::ProBalanceRestrained,
        Event::ProBalanceRestored { .. } => EventKind::ProBalanceRestored,
        Event::ActionFailed { .. } => EventKind::Other,
        _ => EventKind::Engine,
    }
}

/// `" (pid N)"`.
pub open spec fn pid_text(pid: u32) -> Seq<char> {
    " (pid "@ + text::decimal(pid as nat) + ")"@
}

/// The line that the activity feed shows for an event.
pub open spec fn event_label(e: Event) -> Seq<char> {
    match e {
        Event::ForegroundChanged { foreground, profile, matched_rule_index } => foreground.exe_name@
            + " -> "@ + profile@ + " (pid "@ + text::decimal(foreground.pid as nat) + (
        match matched_rule_index {
            Some(i) => ", rule #"@ + text::decimal(i as nat),
            None => ""@,
        }) + ")"@,
        Event::Paused => "engine paused"@,
        Event::Resumed => "engine resumed"@,
        Event::ProBalanceRestrained { pid, exe_name, from_class, to_class } =>
            "probalance restrained "@ + exe_name@ + pid_text(pid) + " "@ + hex_text(
                from_class as nat,
            ) + " -> "@ + hex_text(to_class as nat),
        Event::ProBalanceRestored { pid, exe_name, restored_class } => "probalance restored "@
            + exe_name@ + pid_text(pid) + " -> "@ + hex_text(restored_class as nat),
        Event::GameModeEntered {
            profile_id,
            services_to_stop,
            processes_to_suspend,
            power_plan_changing,
            taskbar_hiding,
            pausing_windows_update,
        } => "Game Mode entered: "@ + profile_id@ + " ("@ + text::decimal(services_to_stop as nat)
            + " svcs, "@ + text::decimal(processes_to_suspend as nat) + " procs"@ + (
        if power_plan_changing {
            ", power plan"@
        } else {
            ""@
        }) + (if taskbar_hiding {
            ", taskbar"@
        } else {
            ""@
        }) + (if pausing_windows_update {
            ", WU"@
        } else {
            ""@
        }) + ")"@,
        Event::GameModeExited {
            profile_id,
            services_restored,
            processes_resumed,
            duration_secs,
            reason,
        } => "Game Mode exited: "@ + profile_id@ + " after "@ + text::decimal(duration_secs as nat)
            + "s ("@ + reason@ + "; "@ + text::decimal(services_restored as nat) + " svcs / "@
            + text::decimal(processes_resumed as nat) + " procs restored)"@,
        Event::ProfileApplied { pid, exe_name, profile_id } => "applied "@ + profile_id@ + " -> "@
            + exe_name@ + pid_text(pid),
        Event::ProfileReverted { pid, exe_name, profile_id } => "reverted "@ + profile_id@
            + " from "@ + exe_name@ + pid_text(pid),
        Event::AffinityRuleFired { pid, exe_name, rule_exe } => "affinity rule '"@ + rule_exe@
            + "' fired against "@ + exe_name@ + pid_text(pid),
        Event::ActionFailed { kind, pid, exe_name, details } => "action failed: "@ + kind@ + (
        match exe_name {
            Some(n) => " "@ + n@,
            None => ""@,
        }) + (match pid {
            Some(p) => pid_text(p),
            None => ""@,
        }) + " — "@ + details@,
        Event::AntiCheatPresenceChanged { which, active } => "AC presence change: "@ + which@
            + " "@ + (if active {
            "active"@
        } else {
            "inactive"@
        }),
    }
}

fn append_number(out: &mut String, n: u64)
    ensures
        final(out)@ == old(out)@ + text::decimal(n as nat),
{
    let digits = text::format_decimal(n);
    out.append(digits.as_str());
}

fn append_hex(out: &mut String, n: u64)
    ensures
        final(out)@ == old(out)@ + hex_text(n as nat),
{
    let digits = text::format_in_base(n, 16);
    out.append("0x");
    out.append(digits.as_str());
    assert(out@ =~= old(out)@ + hex_text(n as nat));
}

fn append_pid(out: &mut String, pid: u32)
    ensures
        final(out)@ == old(out)@ + pid_text(pid),
{
    out.append(" (pid ");
    append_number(out, pid as u64);
    out.append(")");
    assert(out@ =~= old(out)@ + pid_text(pid));
}

/// The category and the line of an event.
pub fn describe_event(e: &Event) -> (r: (EventKind, String))
    ensures
        r.0 == event_kind(*e),
        r.1@ == event_label(*e),
{
    let mut out = String::new();
    let kind = match e {
        Event::ForegroundChanged { foreground, profile, matched_rule_index } => {
            out.append(foreground.exe_name.as_str());
            out.append(" -> ");
            out.append(profile.as_str());
            out.append(" (pid ");
            append_number(&mut out, foreground.pid as u64);
            match matched_rule_index {
                Some(i) => {
                    out.append(", rule #");
                    append_number(&mut out, *i);
                },
                None => out.append(""),
            }
            out.append(")");
            EventKind::Foreground
        },
        Event::Paused => {
            out.append("engine paused");
            EventKind::Engine
        },
        Event::Resumed => {
            out.append("engine resumed");
            EventKind::Engine
        },
        Event::ProBalanceRestrained { pid, exe_name, from_class, to_class } => {
            out.append("probalance restrained ");
            out.append(exe_name.as_str());
            append_pid(&mut out, *pid);
            out.append(" ");
            append_hex(&mut out, *from_class as u64);
            out.append(" -> ");
            append_hex(&mut out, *to_class as u64);
            EventKind::ProBalanceRestrained
        },
        Event::ProBalanceRestored { pid, exe_name, restored_class } => {
            out.append("probalance restored ");
            out.append(exe_name.as_str());
            append_pid(&mut out, *pid);
            out.append(" -> ");
            append_hex(&mut out, *restored_class as u64);
            EventKind::ProBalanceRestored
        },
        Event::GameModeEntered {
            profile_id,
            services_to_stop,
            processes_to_suspend,
            power_plan_changing,
            taskbar_hiding,
            pausing_windows_update,
        } => {
            out.append("Game Mode entered: ");
            out.append(profile_id.as_str());
            out.append(" (");
            append_number(&mut out, *services_to_stop);
            out.append(" svcs, ");
            append_number(&mut out, *processes_to_suspend);
            out.append(" procs");
            out.append(
                if *power_plan_changing {
                    ", power plan"
                } else {
                    ""
                },
            );
            out.append(
                if *taskbar_hiding {
                    ", taskbar"
                } else {
                    ""
                },
            );
            out.append(
                if *pausing_windows_update {
                    ", WU"
                } else {
                    ""
                },
            );
            out.append(")");
            EventKind::Engine
        },
        Event::GameModeExited {
            profile_id,
            services_restored,
            processes_resumed,
            duration_secs,
            reason,
        } => {
            out.append("Game Mode exited: ");
            out.append(profile_id.as_str());
            out.append(" after ");
            append_number(&mut out, *duration_secs);
            out.append("s (");
            out.append(reason.as_str());
            out.append("; ");
            append_number(&mut out, *services_restored);
            out.append(" svcs / ");
            append_number(&mut out, *processes_resumed);
            out.append(" procs restored)");
            EventKind::Engine
        },
        Event::ProfileApplied { pid, exe_name, profile_id } => {
            out.append("applied ");
            out.append(profile_id.as_str());
            out.append(" -> ");
            out.append(exe_name.as_str());
            append_pid(&mut out, *pid);
            EventKind::Engine
        },
        Event::ProfileReverted { pid, exe_name, profile_id } => {
            out.append("reverted ");
            out.append(profile_id.as_str());
            out.append(" from ");
            out.append(exe_name.as_str());
            append_pid(&mut out, *pid);
            EventKind::Engine
        },
        Event::AffinityRuleFired { pid, exe_name, rule_exe } => {
            out.append("affinity rule '");
            out.append(rule_exe.as_str());
            out.append("' fired against ");
            out.append(exe_name.as_str());
            append_pid(&mut out, *pid);
            EventKind::Engine
        },
        Event::ActionFailed { kind, pid, exe_name, details } => {
            out.append("action failed: ");
            out.append(kind.as_str());
            match exe_name {
                Some(n) => {
                    out.append(" ");
                    out.append(n.as_str());
                },
                None => out.append(""),
            }
            match pid {
                Some(p) => append_pid(&mut out, *p),
                None => out.append(""),
            }
            out.append(" — ");
            out.append(details.as_str());
            EventKind::Other
        },
        Event::AntiCheatPresenceChanged { which, active } => {
            out.append("AC presence change: ");
            out.append(which.as_str());
            out.append(" ");
            out.append(
                if *active {
                    "active"
                } else {
                    "inactive"
                },
            );
            EventKind::Engine
        },
    };
    assert(out@ =~= event_label(*e));
    (kind, out)
}

/// Labels that mark the beginning of a Game Mode session begin as the session
/// tallies expect.
pub proof fn game_mode_labels_are_tallied(e: Event)
    requires
        e is GameModeEntered,
    ensures
        text::begins_with(event_label(e), "Game Mode entered"@),
        event_kind(e) == EventKind::Engine,
{
    reveal_strlit("Game Mode entered: ");
    reveal_strlit("Game Mode entered");
    let label = event_label(e);
    let prefix = "Game Mode entered: "@;
    assert(label.len() >= prefix.len());
    assert forall|i: int| 0 <= i < prefix.len() implies label[i] == prefix[i] by {}
    assert(label.subrange(0, "Game Mode entered"@.len() as int) =~= "Game Mode entered"@);
}

// ── Connection ──────────────────────────────────────────────────────────────

/// The `n` newest entries of a list that grows at its end.
pub open spec fn newest<T>(s: Seq<T>, n: nat) -> Seq<T> {
    if s.len() <= n {
        s
    } else {
        s.skip(s.len() - n)
    }
}

/// Capping after every step keeps the same entries as capping once.
pub proof fn capping_early_changes_nothing<T>(s: Seq<T>, x: T, n: nat)
    ensures
        newest(newest(s, n).push(x), n) == newest(s.push(x), n),
{
    assert(newest(newest(s, n).push(x), n) =~= newest(s.push(x), n));
}

/// The pipe was opened.
pub fn on_connected(state: &mut AppState)
    ensures
        *final(state) == (AppState { connected: true, last_error: None, ..*old(state) }),
{
    state.connected = true;
    state.last_error = None;
}

/// The connection broke, with this message.
pub fn on_disconnected(state: &mut AppState, message: String)
    ensures
        *final(state) == (AppState {
            connected: false,
            last_error: Some(message),
            ..*old(state)
        }),
{
    state.connected = false;
    state.last_error = Some(message);
}

/// The answer to the first status request; anything but a status is ignored.
pub fn on_first_answer(state: &mut AppState, answer: Option<Response>)
    ensures
        *final(state) == (match answer {
            Some(Response::Status(s)) => AppState { status: Some(s), ..*old(state) },
            _ => *old(state),
        }),
{
    if let Some(Response::Status(s)) = answer {
        state.status = Some(s);
    }
}

/// The status with this foreground.
pub open spec fn status_with_foreground(
    status: Option<StatusSnapshot>,
    e: Event,
) -> Option<StatusSnapshot> {
    match (e, status) {
        (Event::ForegroundChanged { foreground, .. }, Some(s)) => Some(
            StatusSnapshot { foreground: Some(foreground), ..s },
        ),
        _ => status,
    }
}

/// Files an event that arrived at `at`: appends it to the buffer, of which the
/// newest entries stay, and takes over a new foreground.
pub fn record_event(state: &mut AppState, at: Timestamp, event: &Event) -> (entry: RecentEvent)
    ensures
        entry.at == at,
        entry.kind == event_kind(*event),
        entry.label@ == event_label(*event),
        final(state).recent@ == newest(old(state).recent@.push(entry), MAX_RECENT as nat),
        final(state).status == status_with_foreground(old(state).status, *event),
        *final(state) == (AppState {
            recent: final(state).recent,
            status: final(state).status,
            ..*old(state)
        }),
{
    let (kind, label) = describe_event(event);
    let entry = RecentEvent { at, kind, label };
    state.recent.push(entry.clone());
    keep_newest(&mut state.recent, MAX_RECENT);
    if let Event::ForegroundChanged { foreground, .. } = event {
        if let Some(s) = state.status.take() {
            state.status = Some(
                StatusSnapshot {
                    paused: s.paused,
                    policy: s.policy,
                    foreground: Some(foreground.clone()),
                    active_profile: s.active_profile,
                    manual_override: s.manual_override,
                    manual_global_active: s.manual_global_active,
                    closed_loop_build_supported: s.closed_loop_build_supported,
                },
            );
        }
    }
    entry
}

fn keep_newest(list: &mut Vec<RecentEvent>, n: usize)
    ensures
        final(list)@ == newest(old(list)@, n as nat),
{
    if list.len() > n {
        let extra: usize = list.len() - n;
        let tail = list.split_off(extra);
        *list = tail;
        assert(list@ =~= newest(old(list)@, n as nat));
    }
}

/// The buffer never holds more than its limit, and the newest event is always
/// in it.
pub proof fn recent_buffer_is_bounded(recent: Seq<RecentEvent>, e: RecentEvent)
    ensures
        newest(recent.push(e), MAX_RECENT as nat).len() <= MAX_RECENT,
        newest(recent.push(e), MAX_RECENT as nat).last() == e,
{
}

// ── Polling ─────────────────────────────────────────────────────────────────

/// Why a poll was dropped.
#[derive(Debug, Clone, Copy, PartialEq, Eq, Structural)]
pub enum PollError {
    ExpectedProcesses,
    ExpectedStatus,
}

/// The parts of a poll's two answers.
pub fn poll_answers(first: Response, second: Response) -> (r: Result<
    (Vec<ProcessSnapshot>, SystemMetrics, StatusSnapshot),
    PollError,
>)
    ensures
        match first {
            Response::Processes { snapshots, system } => match second {
                Response::Status(s) => r == Ok::<_, PollError>((snapshots, system, s)),
                _ => r == Err::<(Vec<ProcessSnapshot>, SystemMetrics, StatusSnapshot), _>(
                    PollError::ExpectedStatus,
                ),
            },
            _ => r == Err::<(Vec<ProcessSnapshot>, SystemMetrics, StatusSnapshot), _>(
                PollError::ExpectedProcesses,
            ),
        },
{
    match first {
        Response::Processes { snapshots, system } => match second {
            Response::Status(s) => Ok((snapshots, system, s)),
            _ => Err(PollError::ExpectedStatus),
        },
        _ => Err(PollError::ExpectedProcesses),
    }
}

/// Milliseconds until the next poll: longer while the window is hidden.
pub fn poll_interval_ms(visible: bool) -> (r: u64)
    ensures
        r == (if visible {
            1000u64
        } else {
            8000u64
        }),
{
    if visible {
        1000
    } else {
        8000
    }
}

/// Used memory in percent, at most 100; 0 while the total is unknown.
pub open spec fn memory_percent(used: u64, total: u64) -> int {
    if total == 0 {
        0
    } else if used as int * 100 / (total as int) > 100 {
        100
    } else {
        used as int * 100 / (total as int)
    }
}

/// Used memory in percent.
pub fn mem_percent(used: u64, total: u64) -> (r: u8)
    ensures
        r == memory_percent(used, total),
{
    if total == 0 {
        return 0;
    }
    let percent: u128 = used as u128 * 100 / (total as u128);
    if percent > 100 {
        100
    } else {
        percent as u8
    }
}

/// A CPU percentage as a history sample.
pub open spec fn sample_of(p: ProcessSnapshot) -> u8 {
    if p.cpu_percent > 255 {
        255u8
    } else {
        p.cpu_percent as u8
    }
}

/// The samples of one pid among the first `n` processes, in order.
pub open spec fn samples_upto(rows: Seq<ProcessSnapshot>, pid: u32, n: nat) -> Seq<u8>
    decreases n,
{
    if n == 0 {
        Seq::empty()
    } else {
        let before = samples_upto(rows, pid, (n - 1) as nat);
        if rows[n - 1].pid == pid {
            before.push(sample_of(rows[n - 1]))
        } else {
            before
        }
    }
}

/// The history of a pid; empty where there is none.
pub open spec fn history_of(map: Map<u32, VecDeque<u8>>, pid: u32) -> Seq<u8> {
    if map.contains_key(pid) {
        map[pid]@
    } else {
        Seq::empty()
    }
}

/// Whether some of the first `n` processes has this pid.
pub open spec fn listed_upto(rows: Seq<ProcessSnapshot>, pid: u32, n: nat) -> bool {
    exists|i: int| 0 <= i < n && #[trigger] rows[i].pid == pid
}

/// What a poll makes of the CPU histories: the pids of the poll, each with its
/// old history and its new samples, of which the newest stay.
pub open spec fn is_next_history(
    before: Map<u32, VecDeque<u8>>,
    rows: Seq<ProcessSnapshot>,
    after: Map<u32, VecDeque<u8>>,
) -> bool {
    &&& forall|pid: u32| #[trigger]
        after.contains_key(pid) <==> listed_upto(rows, pid, rows.len())
    &&& forall|pid: u32| #[trigger]
        after.contains_key(pid) ==> after[pid]@ == newest(
            history_of(before, pid) + samples_upto(rows, pid, rows.len()),
            SYSTEM_HISTORY_LEN as nat,
        )
}

/// Appends a sample, of which the newest stay.
fn push_capped<T>(list: &mut VecDeque<T>, x: T)
    ensures
        final(list)@ == newest(old(list)@.push(x), SYSTEM_HISTORY_LEN as nat),
{
    list.push_back(x);
    let ghost all = list@;
    while list.len() > SYSTEM_HISTORY_LEN
        invariant
            list@.len() <= all.len(),
            list@ == all.skip(all.len() - list@.len()),
            list@.len() < all.len() ==> list@.len() >= SYSTEM_HISTORY_LEN,
        decreases list@.len(),
    {
        list.pop_front();
        assert(list@ =~= all.skip(all.len() - list@.len()));
    }
    assert(list@ =~= newest(all, SYSTEM_HISTORY_LEN as nat));
}

/// The histories of every pid are within their limit.
pub open spec fn histories_capped(map: Map<u32, VecDeque<u8>>) -> bool {
    forall|pid: u32| #[trigger] map.contains_key(pid) ==> map[pid]@.len() <= SYSTEM_HISTORY_LEN
}

proof fn lemma_samples_none(rows: Seq<ProcessSnapshot>, pid: u32, n: nat)
    requires
        !listed_upto(rows, pid, n),
    ensures
        samples_upto(rows, pid, n) == Seq::<u8>::empty(),
    decreases n,
{
    if n > 0 {
        assert(!listed_upto(rows, pid, (n - 1) as nat)) by {
            if listed_upto(rows, pid, (n - 1) as nat) {
                let i = choose|i: int| 0 <= i < n - 1 && #[trigger] rows[i].pid == pid;
                assert(rows[i].pid == pid);
            }
        }
        lemma_samples_none(rows, pid, (n - 1) as nat);
        assert(rows[n - 1].pid != pid);
    }
}

/// Histories for the polled processes.
fn next_histories(
    before: HashMap<u32, VecDeque<u8>>,
    rows: &Vec<ProcessSnapshot>,
) -> (after: HashMap<u32, VecDeque<u8>>)
    ensures
        is_next_history(before@, rows@, after@),
        histories_capped(after@),
{
    let ghost start = before@;
    let mut old_lists = before;
    let mut after: HashMap<u32, VecDeque<u8>> = HashMap::new();
    for i in 0..rows.len()
        invariant
            forall|pid: u32| #[trigger]
                after@.contains_key(pid) <==> listed_upto(rows@, pid, i as nat),
            forall|pid: u32| #[trigger]
                after@.contains_key(pid) ==> after@[pid]@ == newest(
                    history_of(start, pid) + samples_upto(rows@, pid, i as nat),
                    SYSTEM_HISTORY_LEN as nat,
                ),
            forall|pid: u32|
                !#[trigger] after@.contains_key(pid) ==> old_lists@.contains_key(pid)
                    == start.contains_key(pid) && old_lists@[pid] == start[pid],
    {
        let ghost after0 = after@;
        let ghost old0 = old_lists@;
        let pid = rows[i].pid;
        let mut list = match after.remove(&pid) {
            Some(l) => l,
            None => match old_lists.remove(&pid) {
                Some(l) => l,
                None => VecDeque::new(),
            },
        };
        let ghost so_far = history_of(start, pid) + samples_upto(rows@, pid, i as nat);
        proof {
            if !after0.contains_key(pid) {
                lemma_samples_none(rows@, pid, i as nat);
                assert(so_far =~= history_of(start, pid));
                assert(list@ =~= so_far);
            }
        }
        let sample: u8 = if rows[i].cpu_percent > 255 {
            255
        } else {
            rows[i].cpu_percent as u8
        };
        push_capped(&mut list, sample);
        proof {
            capping_early_changes_nothing(so_far, sample, SYSTEM_HISTORY_LEN as nat);
            assert(so_far.push(sample) =~= history_of(start, pid) + samples_upto(
                rows@,
                pid,
                (i + 1) as nat,
            ));
        }
        after.insert(pid, list);
        proof {
            assert forall|q: u32| #[trigger]
                after@.contains_key(q) <==> listed_upto(rows@, q, (i + 1) as nat) by {
                if listed_upto(rows@, q, (i + 1) as nat) && q != pid {
                    let k = choose|k: int| 0 <= k < i + 1 && #[trigger] rows@[k].pid == q;
                    assert(k < i);
                    assert(listed_upto(rows@, q, i as nat));
                    assert(after0.contains_key(q));
                }
                if after@.contains_key(q) {
                    if q == pid {
                        assert(rows@[i as int].pid == q);
                    } else {
                        assert(after0.contains_key(q));
                        let k = choose|k: int| 0 <= k < i && #[trigger] rows@[k].pid == q;
                        assert(rows@[k].pid == q);
                    }
                }
            }
        }
    }
    after
}

/// Folds a poll into the shared state: the processes, the machine's load and
/// the status are replaced, and the histories take one more sample each.
pub fn fold_poll(
    state: &mut AppState,
    snapshots: Vec<ProcessSnapshot>,
    system: SystemMetrics,
    status: StatusSnapshot,
)
    ensures
        final(state).processes == snapshots,
        final(state).system == system,
        final(state).status == Some(status),
        final(state).connected == old(state).connected,
        final(state).last_error == old(state).last_error,
        final(state).recent == old(state).recent,
        final(state).system_history@ == newest(
            old(state).system_history@.push(
                (
                    system.cpu_percent,
                    memory_percent(system.memory_used_bytes, system.memory_total_bytes) as u8,
                ),
            ),
            SYSTEM_HISTORY_LEN as nat,
        ),
        is_next_history(
            old(state).per_pid_cpu_history@,
            snapshots@,
            final(state).per_pid_cpu_history@,
        ),
        final(state).system_history@.len() <= SYSTEM_HISTORY_LEN,
        histories_capped(final(state).per_pid_cpu_history@),
{
    let mem: u8 = mem_percent(system.memory_used_bytes, system.memory_total_bytes);
    let mut lists: HashMap<u32, VecDeque<u8>> = HashMap::new();
    std::mem::swap(&mut lists, &mut state.per_pid_cpu_history);
    state.per_pid_cpu_history = next_histories(lists, &snapshots);
    push_capped(&mut state.system_history, (system.cpu_percent, mem));
    state.processes = snapshots;
    state.system = system;
    state.status = Some(status);
}

// ── Reporting the foreground ────────────────────────────────────────────────

/// Wait between looks at the foreground, in milliseconds.
pub const NORMAL_INTERVAL_MS: u32 = 250;

/// Longest wait while the service cannot be reached.
pub const BACKOFF_CAP_MS: u32 = 5000;

/// From this wait on, an unchanged foreground is reported again.
pub const REPEAT_INTERVAL_MS: u32 = 2000;

/// What a look at the foreground found.
#[derive(Debug, PartialEq, Eq)]
pub enum Look {
    Window(ForegroundSnapshot),
    Nothing,
    /// The look itself failed.
    Unknown,
}

/// The state of the foreground reporter.
#[derive(Debug, Clone, Copy, PartialEq, Eq, Structural)]
pub struct Reporter {
    pub last_pid: Option<u32>,
    pub interval_ms: u32,
}

impl Reporter {
    /// The wait is never shorter than normal nor longer than the cap.
    pub open spec fn well_formed(self) -> bool {
        NORMAL_INTERVAL_MS <= self.interval_ms <= BACKOFF_CAP_MS
    }

    pub fn new() -> (r: Reporter)
        ensures
            r.last_pid is None,
            r.interval_ms == NORMAL_INTERVAL_MS,
            r.well_formed(),
    {
        Reporter { last_pid: None, interval_ms: NORMAL_INTERVAL_MS }
    }

    /// What to report after a look: a window whose process changed, an
    /// unchanged one only while the wait is long, and once that the foreground
    /// is gone.
    pub fn observe(&mut self, look: Look) -> (r: Option<Request>)
        ensures
            final(self).interval_ms == old(self).interval_ms,
            final(self).last_pid == (match look {
                Look::Window(w) => Some(w.pid),
                Look::Nothing => None,
                Look::Unknown => old(self).last_pid,
            }),
            r == (match look {
                Look::Window(w) => if old(self).last_pid != Some(w.pid) || old(self).interval_ms
                    >= REPEAT_INTERVAL_MS {
                    Some(
                        Request::ReportForeground {
                            pid: w.pid,
                            exe_name: w.exe_name,
                            path: w.path,
                            title: w.title,
                        },
                    )
                } else {
                    None
                },
                Look::Nothing => if old(self).last_pid is Some {
                    Some(Request::ReportNoForeground)
                } else {
                    None
                },
                Look::Unknown => None,
            }),
    {
        match look {
            Look::Window(w) => {
                let changed = match self.last_pid {
                    Some(pid) => pid != w.pid,
                    None => true,
                };
                self.last_pid = Some(w.pid);
                if changed || self.interval_ms >= REPEAT_INTERVAL_MS {
                    Some(
                        Request::ReportForeground {
                            pid: w.pid,
                            exe_name: w.exe_name,
                            path: w.path,
                            title: w.title,
                        },
                    )
                } else {
                    None
                }
            },
            Look::Nothing => {
                let needed = self.last_pid.is_some();
                self.last_pid = None;
                if needed {
                    Some(Request::ReportNoForeground)
                } else {
                    None
                }
            },
            Look::Unknown => None,
        }
    }

    /// After a report was sent: back to the normal wait if it arrived, else
    /// twice the wait, up to the cap.
    pub fn after_send(&mut self, arrived: bool)
        ensures
            old(self).well_formed() ==> final(self).well_formed(),
            final(self).last_pid == old(self).last_pid,
            final(self).interval_ms == next_interval(old(self).interval_ms, arrived),
    {
        if arrived {
            self.interval_ms = NORMAL_INTERVAL_MS;
        } else if self.interval_ms > BACKOFF_CAP_MS / 2 {
            self.interval_ms = BACKOFF_CAP_MS;
        } else {
            self.interval_ms = 2 * self.interval_ms;
        }
    }
}

/// The wait after a report.
pub open spec fn next_interval(interval: u32, arrived: bool) -> u32 {
    if arrived {
        NORMAL_INTERVAL_MS
    } else if 2 * interval <= BACKOFF_CAP_MS {
        (2 * interval) as u32
    } else {
        BACKOFF_CAP_MS
    }
}

/// Failing again and again never shortens the wait and never takes it past
/// the cap.
pub proof fn backoff_grows_to_the_cap(interval: u32)
    requires
        NORMAL_INTERVAL_MS <= interval <= BACKOFF_CAP_MS,
    ensures
        interval <= next_interval(interval, false) <= BACKOFF_CAP_MS,
        interval < BACKOFF_CAP_MS ==> interval < next_interval(interval, false),
        next_interval(interval, true) == NORMAL_INTERVAL_MS,
{
}

// ── Echo of admin requests ──────────────────────────────────────────────────

/// The echo line for an admin request that was labelled `label`.
pub open spec fn reply_text(label: Seq<char>, reply: Result<Response, String>) -> Seq<char> {
    match reply {
        Ok(Response::Error { message }) => label + ": error — "@ + message@,
        Ok(_) => label + ": ok"@,
        Err(e) => label + ": error — "@ + e@,
    }
}

/// Words the outcome of an admin request for the echo line.
pub fn describe_reply(label: &str, reply: &Result<Response, String>) -> (r: String)
    ensures
        r@ == reply_text(label@, *reply),
{
    let mut out = label.to_owned();
    match reply {
        Ok(Response::Error { message }) => {
            out.append(": error — ");
            out.append(message.as_str());
        },
        Ok(_) => {
            out.append(": ok");
        },
        Err(e) => {
            out.append(": error — ");
            out.append(e.as_str());
        },
    }
    out
}

} // verus!
