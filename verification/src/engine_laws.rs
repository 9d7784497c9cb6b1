//! Laws of what the background threads keep: events, polls, histories, and the
//! reports of the foreground.

use std::collections::VecDeque;
use vstd::prelude::*;

use crate::ipc::{
    Event, ProcessSnapshot, Request, Response, StatusSnapshot, SystemMetrics,
};
use crate::ipc_client::{self, Look, PollError, Reporter};
use crate::policy_laws;
use crate::state::{self, AppState, EventKind, RecentEvent, SessionStats, Timestamp};
use crate::text;
use crate::theme::Tone;

verus! {

broadcast use vstd::std_specs::hash::group_hash_axioms;

// ── Wording of events ───────────────────────────────────────────────────────

/// `(pid N)` with a blank before it.
pub open spec fn in_process(pid: u32) -> Seq<char> {
    " (pid "@ + text::decimal(pid as nat) + ")"@
}

/// A word where something is so, nothing where it is not.
pub open spec fn when(holds: bool, word: Seq<char>) -> Seq<char> {
    if holds {
        word
    } else {
        ""@
    }
}

/// Events of the focus, of the load balancer and of failures have categories of
/// their own; all others are the engine's.
pub proof fn events_have_their_category(e: &Event, r: (EventKind, String))
    requires
        call_ensures(ipc_client::describe_event, (e,), r),
    ensures
        r.0 is Foreground <==> e is ForegroundChanged,
        r.0 is ProBalanceRestrained <==> e is ProBalanceRestrained,
        r.0 is ProBalanceRestored <==> e is ProBalanceRestored,
        r.0 is Other <==> e is ActionFailed,
        r.0 is Engine <==> !(e is ForegroundChanged || e is ProBalanceRestrained
            || e is ProBalanceRestored || e is ActionFailed),
{
}

/// The line of a new foreground names the executable, then the profile, then
/// the process, and the rule where one matched.
pub proof fn focus_lines_name_executable_and_profile(e: &Event, r: (EventKind, String))
    requires
        call_ensures(ipc_client::describe_event, (e,), r),
    ensures
        e matches Event::ForegroundChanged { foreground, profile, matched_rule_index } ==> {
            let line = foreground.exe_name@ + " -> "@ + profile@ + " (pid "@ + text::decimal(
                foreground.pid as nat,
            );
            &&& matched_rule_index is Some ==> r.1@ == line + (", rule #"@ + text::decimal(
                matched_rule_index->0 as nat,
            )) + ")"@
            &&& matched_rule_index is None ==> r.1@ == line + ""@ + ")"@
        },
        e is Paused ==> r.1@ == "engine paused"@,
        e is Resumed ==> r.1@ == "engine resumed"@,
        e matches Event::AntiCheatPresenceChanged { which, active } ==> {
            &&& *active ==> r.1@ == "AC presence change: "@ + which@ + " "@ + "active"@
            &&& !*active ==> r.1@ == "AC presence change: "@ + which@ + " "@ + "inactive"@
        },
{
}

/// The lines of the load balancer give the classes from before to after, in
/// hexadecimal.
pub proof fn balancer_lines_give_the_classes(e: &Event, r: (EventKind, String))
    requires
        call_ensures(ipc_client::describe_event, (e,), r),
    ensures
        e matches Event::ProBalanceRestrained { pid, exe_name, from_class, to_class } ==> r.1@
            == "probalance restrained "@ + exe_name@ + in_process(*pid) + " "@ + ("0x"@
            + text::numeral(*from_class as nat, 16)) + " -> "@ + ("0x"@ + text::numeral(
            *to_class as nat,
            16,
        )),
        e matches Event::ProBalanceRestored { pid, exe_name, restored_class } ==> r.1@
            == "probalance restored "@ + exe_name@ + in_process(*pid) + " -> "@ + ("0x"@
            + text::numeral(*restored_class as nat, 16)),
{
}

/// The lines of Game Mode count what was stopped and name what was changed.
pub proof fn game_mode_lines_count_what_was_done(e: &Event, r: (EventKind, String))
    requires
        call_ensures(ipc_client::describe_event, (e,), r),
    ensures
        e matches Event::GameModeEntered {
            profile_id,
            services_to_stop,
            processes_to_suspend,
            power_plan_changing,
            taskbar_hiding,
            pausing_windows_update,
        } ==> r.1@ == "Game Mode entered: "@ + profile_id@ + " ("@ + text::decimal(
            *services_to_stop as nat,
        ) + " svcs, "@ + text::decimal(*processes_to_suspend as nat) + " procs"@ + when(
            *power_plan_changing,
            ", power plan"@,
        ) + when(*taskbar_hiding, ", taskbar"@) + when(*pausing_windows_update, ", WU"@) + ")"@,
        e matches Event::GameModeExited {
            profile_id,
            services_restored,
            processes_resumed,
            duration_secs,
            reason,
        } ==> r.1@ == "Game Mode exited: "@ + profile_id@ + " after "@ + text::decimal(
            *duration_secs as nat,
        ) + "s ("@ + reason@ + "; "@ + text::decimal(*services_restored as nat) + " svcs / "@
            + text::decimal(*processes_resumed as nat) + " procs restored)"@,
{
}

/// The lines about one process name what was done and to whom.
pub proof fn process_lines_name_the_process(e: &Event, r: (EventKind, String))
    requires
        call_ensures(ipc_client::describe_event, (e,), r),
    ensures
        e matches Event::ProfileApplied { pid, exe_name, profile_id } ==> r.1@ == "applied "@
            + profile_id@ + " -> "@ + exe_name@ + in_process(*pid),
        e matches Event::ProfileReverted { pid, exe_name, profile_id } ==> r.1@ == "reverted "@
            + profile_id@ + " from "@ + exe_name@ + in_process(*pid),
        e matches Event::AffinityRuleFired { pid, exe_name, rule_exe } ==> r.1@
            == "affinity rule '"@ + rule_exe@ + "' fired against "@ + exe_name@ + in_process(
            *pid,
        ),
        e matches Event::ActionFailed { kind, pid, exe_name, details } ==> {
            let whom = if exe_name is Some {
                " "@ + exe_name->0@
            } else {
                ""@
            };
            let at = if pid is Some {
                in_process(pid->0)
            } else {
                ""@
            };
            r.1@ == "action failed: "@ + kind@ + whom + at + " — "@ + details@
        },
{
}

/// The outcome of a request is an error when the service says so or cannot be
/// reached, and the error's own words are passed on.
pub proof fn outcomes_pass_the_error_on(
    label: &str,
    reply: &Result<Response, String>,
    r: String,
)
    requires
        call_ensures(ipc_client::describe_reply, (label, reply), r),
    ensures
        reply is Err ==> r@ == label@ + ": error — "@ + reply->Err_0@,
        reply is Ok && reply->Ok_0 is Error ==> r@ == label@ + ": error — "@
            + reply->Ok_0->message@,
        reply is Ok && !(reply->Ok_0 is Error) ==> r@ == label@ + ": ok"@,
{
}

// ── The buffer of events ────────────────────────────────────────────────────

/// A filed event is the newest of the buffer, and the thousand newest stay in
/// their order.
pub proof fn filed_events_come_last(
    s: &mut AppState,
    at: Timestamp,
    event: &Event,
    entry: RecentEvent,
    said: (EventKind, String),
)
    requires
        call_ensures(ipc_client::record_event, (s, at, event), entry),
        call_ensures(ipc_client::describe_event, (event,), said),
    ensures
        entry.at == at,
        entry.kind == said.0,
        entry.label@ == said.1@,
        final(s).recent@.len() > 0,
        final(s).recent@.last() == entry,
        old(s).recent@.len() < 1000 ==> final(s).recent@ == old(s).recent@.push(entry),
        old(s).recent@.len() >= 1000 ==> final(s).recent@.len() == 1000 && forall|k: int|
            0 <= k < 999 ==> #[trigger] final(s).recent@[k] == old(s).recent@[old(s).recent@.len()
                - 999 + k],
{
    let all = old(s).recent@.push(entry);
    if old(s).recent@.len() >= 1000 {
        assert forall|k: int| 0 <= k < 999 implies #[trigger] final(s).recent@[k]
            == old(s).recent@[old(s).recent@.len() - 999 + k] by {
            assert(final(s).recent@[k] == all[all.len() - 1000 + k]);
        }
    }
}

/// An event of the focus replaces the foreground in the status; no event
/// changes anything else of what is known.
pub proof fn events_change_the_foreground_alone(
    s: &mut AppState,
    at: Timestamp,
    event: &Event,
    entry: RecentEvent,
)
    requires
        call_ensures(ipc_client::record_event, (s, at, event), entry),
    ensures
        final(s).connected == old(s).connected,
        final(s).last_error == old(s).last_error,
        final(s).processes == old(s).processes,
        final(s).system == old(s).system,
        final(s).system_history == old(s).system_history,
        final(s).per_pid_cpu_history == old(s).per_pid_cpu_history,
        final(s).status is Some == old(s).status is Some,
        !(event is ForegroundChanged) ==> final(s).status == old(s).status,
        event is ForegroundChanged && old(s).status is Some ==> {
            let before = old(s).status->0;
            let after = final(s).status->0;
            &&& after.foreground == Some(event->foreground)
            &&& after.paused == before.paused
            &&& after.policy == before.policy
            &&& after.active_profile == before.active_profile
            &&& after.manual_override == before.manual_override
            &&& after.manual_global_active == before.manual_global_active
            &&& after.closed_loop_build_supported == before.closed_loop_build_supported
        },
{
}

/// Connecting clears the error, disconnecting leaves one, and neither forgets
/// what was known.
pub proof fn connections_leave_the_knowledge(
    a: &mut AppState,
    b: &mut AppState,
    message: String,
)
    requires
        call_ensures(ipc_client::on_connected, (a,), ()),
        call_ensures(ipc_client::on_disconnected, (b, message), ()),
    ensures
        final(a).connected,
        final(a).last_error is None,
        final(a).status == old(a).status,
        final(a).recent == old(a).recent,
        final(a).processes == old(a).processes,
        final(a).system == old(a).system,
        final(a).system_history == old(a).system_history,
        final(a).per_pid_cpu_history == old(a).per_pid_cpu_history,
        !final(b).connected,
        final(b).last_error == Some(message),
        final(b).status == old(b).status,
        final(b).recent == old(b).recent,
        final(b).processes == old(b).processes,
        final(b).system == old(b).system,
        final(b).system_history == old(b).system_history,
        final(b).per_pid_cpu_history == old(b).per_pid_cpu_history,
{
}

/// The first answer counts if it is a status, and only its status counts.
pub proof fn the_first_answer_is_a_status(s: &mut AppState, answer: Option<Response>)
    requires
        call_ensures(ipc_client::on_first_answer, (s, answer), ()),
    ensures
        answer is Some && answer->0 is Status ==> final(s).status == Some(answer->0->Status_0),
        !(answer is Some && answer->0 is Status) ==> final(s).status == old(s).status,
        final(s).connected == old(s).connected,
        final(s).last_error == old(s).last_error,
        final(s).recent == old(s).recent,
        final(s).processes == old(s).processes,
        final(s).system == old(s).system,
        final(s).system_history == old(s).system_history,
        final(s).per_pid_cpu_history == old(s).per_pid_cpu_history,
{
}

// ── Polling ─────────────────────────────────────────────────────────────────

/// A poll counts when the processes come first and the status second; the first
/// answer that does not fit is named.
pub proof fn polls_need_both_answers(
    first: Response,
    second: Response,
    r: Result<(Vec<ProcessSnapshot>, SystemMetrics, StatusSnapshot), PollError>,
)
    requires
        call_ensures(ipc_client::poll_answers, (first, second), r),
    ensures
        r is Ok <==> first is Processes && second is Status,
        r is Ok ==> r->Ok_0.0 == first->snapshots && r->Ok_0.1 == first->system && r->Ok_0.2
            == second->Status_0,
        !(first is Processes) ==> r is Err && r->Err_0 is ExpectedProcesses,
        first is Processes && !(second is Status) ==> r is Err && r->Err_0 is ExpectedStatus,
{
}

/// A hidden window is polled for eight times as rarely as a visible one, which
/// is every second.
pub proof fn hidden_windows_are_polled_rarely(visible: u64, hidden: u64)
    requires
        call_ensures(ipc_client::poll_interval_ms, (true,), visible),
        call_ensures(ipc_client::poll_interval_ms, (false,), hidden),
    ensures
        visible == 1000,
        hidden == 8 * visible,
{
}

/// The percentage is the share of the total, rounded down and at most a
/// hundred; of nothing it is zero.
pub proof fn memory_is_a_share_of_the_total(used: u64, total: u64, r: u8)
    requires
        call_ensures(ipc_client::mem_percent, (used, total), r),
    ensures
        total == 0 ==> r == 0,
        r <= 100,
        total > 0 && used >= total ==> r == 100,
        total > 0 && used < total ==> r as int * total <= used as int * 100 < (r as int + 1)
            * total,
{
    if total > 0 {
        let u = used as int;
        let t = total as int;
        let q = u * 100 / t;
        assert(q * t <= u * 100 < (q + 1) * t && (u >= t ==> q >= 100) && (u < t ==> q < 100))
            by (nonlinear_arith)
            requires
                q == u * 100 / t,
                t > 0,
                u >= 0,
        ;
    }
}

/// Whether `after` is `before` with one sample more, of which the sixty newest
/// stay.
pub open spec fn gains_a_sample<T>(before: Seq<T>, after: Seq<T>, x: T) -> bool {
    &&& after.len() > 0
    &&& after.last() == x
    &&& before.len() < 60 ==> after.len() == before.len() + 1
    &&& before.len() >= 60 ==> after.len() == 60
    &&& forall|k: int|
        1 <= k < after.len() ==> #[trigger] after[after.len() - 1 - k] == before[before.len() - k]
}

/// A poll replaces processes, load and status with what it brought, and takes
/// one sample of the machine; what is known of the connection and of events
/// stays.
pub proof fn polls_bring_the_present(
    s: &mut AppState,
    snapshots: Vec<ProcessSnapshot>,
    system: SystemMetrics,
    status: StatusSnapshot,
    memory: u8,
)
    requires
        call_ensures(ipc_client::fold_poll, (s, snapshots, system, status), ()),
        call_ensures(
            ipc_client::mem_percent,
            (system.memory_used_bytes, system.memory_total_bytes),
            memory,
        ),
    ensures
        final(s).processes == snapshots,
        final(s).system == system,
        final(s).status == Some(status),
        final(s).connected == old(s).connected,
        final(s).last_error == old(s).last_error,
        final(s).recent == old(s).recent,
        gains_a_sample(
            old(s).system_history@,
            final(s).system_history@,
            (system.cpu_percent, memory),
        ),
{
    let all = old(s).system_history@.push((system.cpu_percent, memory));
    let after = final(s).system_history@;
    assert(after == ipc_client::newest(all, 60));
    assert forall|k: int| 1 <= k < after.len() implies #[trigger] after[after.len() - 1 - k]
        == old(s).system_history@[old(s).system_history@.len() - k] by {
        assert(after[after.len() - 1 - k] == all[all.len() - 1 - k]);
    }
}

/// A percentage as a sample: no sample is above 255.
pub open spec fn as_sample(percent: u16) -> int {
    if percent <= 255 {
        percent as int
    } else {
        255
    }
}

proof fn lemma_one_sample(rows: Seq<ProcessSnapshot>, i: int, n: nat)
    requires
        0 <= i < rows.len(),
        n <= rows.len(),
        forall|j: int| 0 <= j < rows.len() && j != i ==> (#[trigger] rows[j]).pid != rows[i].pid,
    ensures
        ipc_client::samples_upto(rows, rows[i].pid, n) == (if i < n {
            seq![ipc_client::sample_of(rows[i])]
        } else {
            Seq::<u8>::empty()
        }),
    decreases n,
{
    if n > 0 {
        lemma_one_sample(rows, i, (n - 1) as nat);
        if n - 1 != i {
            assert(rows[n - 1].pid != rows[i].pid);
        } else {
            assert(Seq::<u8>::empty().push(ipc_client::sample_of(rows[i]))
                =~= seq![ipc_client::sample_of(rows[i])]);
        }
    }
}

/// Histories are kept of the processes that run and of no others. Each takes
/// one sample of its own process.
pub proof fn histories_follow_the_processes(
    s: &mut AppState,
    snapshots: Vec<ProcessSnapshot>,
    system: SystemMetrics,
    status: StatusSnapshot,
)
    requires
        call_ensures(ipc_client::fold_poll, (s, snapshots, system, status), ()),
    ensures
        forall|pid: u32| #[trigger]
            final(s).per_pid_cpu_history@.contains_key(pid) <==> exists|i: int|
                0 <= i < snapshots@.len() && (#[trigger] snapshots@[i]).pid == pid,
        forall|i: int|
            0 <= i < snapshots@.len() && (forall|j: int|
                0 <= j < snapshots@.len() && j != i ==> (#[trigger] snapshots@[j]).pid
                    != snapshots@[i].pid) ==> {
                let pid = (#[trigger] snapshots@[i]).pid;
                let before = if old(s).per_pid_cpu_history@.contains_key(pid) {
                    old(s).per_pid_cpu_history@[pid]@
                } else {
                    Seq::<u8>::empty()
                };
                let after = final(s).per_pid_cpu_history@[pid]@;
                &&& after.len() > 0
                &&& after.last() == as_sample(snapshots@[i].cpu_percent)
                &&& gains_a_sample(before, after, after.last())
            },
{
    let rows = snapshots@;
    let map = final(s).per_pid_cpu_history@;
    assert forall|pid: u32| #[trigger]
        map.contains_key(pid) <==> exists|i: int|
            0 <= i < rows.len() && (#[trigger] rows[i]).pid == pid by {
        assert(map.contains_key(pid) <==> ipc_client::listed_upto(rows, pid, rows.len()));
    }
    assert forall|i: int|
        0 <= i < rows.len() && (forall|j: int|
            0 <= j < rows.len() && j != i ==> (#[trigger] rows[j]).pid != rows[i].pid) implies {
        let pid = (#[trigger] rows[i]).pid;
        let before = if old(s).per_pid_cpu_history@.contains_key(pid) {
            old(s).per_pid_cpu_history@[pid]@
        } else {
            Seq::<u8>::empty()
        };
        let after = map[pid]@;
        &&& after.len() > 0
        &&& after.last() == as_sample(rows[i].cpu_percent)
        &&& gains_a_sample(before, after, after.last())
    } by {
        let pid = rows[i].pid;
        let before = ipc_client::history_of(old(s).per_pid_cpu_history@, pid);
        let after = map[pid]@;
        assert(ipc_client::listed_upto(rows, pid, rows.len()));
        assert(map.contains_key(pid));
        lemma_one_sample(rows, i, rows.len());
        let x = ipc_client::sample_of(rows[i]);
        let all = before + seq![x];
        assert(all =~= before.push(x));
        assert(after == ipc_client::newest(all, 60));
        assert forall|k: int| 1 <= k < after.len() implies #[trigger] after[after.len() - 1 - k]
            == before[before.len() - k] by {
            assert(after[after.len() - 1 - k] == all[all.len() - 1 - k]);
        }
    }
}

// ── Reporting the foreground ────────────────────────────────────────────────

/// A window is reported when its process is new, and again and again while the
/// service has been out of reach for long; what is reported is what was seen.
pub proof fn new_windows_are_reported(reporter: &mut Reporter, look: Look, r: Option<Request>)
    requires
        call_ensures(Reporter::observe, (reporter, look), r),
    ensures
        look matches Look::Window(w) ==> {
            &&& final(reporter).last_pid == Some(w.pid)
            &&& r is Some <==> old(reporter).last_pid != Some(w.pid)
                || old(reporter).interval_ms >= 2000
            &&& r is Some ==> r->0 == (Request::ReportForeground {
                pid: w.pid,
                exe_name: w.exe_name,
                path: w.path,
                title: w.title,
            })
        },
        look is Nothing ==> {
            &&& final(reporter).last_pid is None
            &&& r is Some <==> old(reporter).last_pid is Some
            &&& r is Some ==> r->0 is ReportNoForeground
        },
        look is Unknown ==> r is None && final(reporter).last_pid == old(reporter).last_pid,
        final(reporter).interval_ms == old(reporter).interval_ms,
{
}

/// The same look twice in a row is reported at most once while the service can
/// be reached.
pub proof fn looks_are_not_repeated(
    reporter: &mut Reporter,
    look: Look,
    first: Option<Request>,
    later: &mut Reporter,
    second: Option<Request>,
)
    requires
        call_ensures(Reporter::observe, (reporter, look), first),
        *old(later) == *final(reporter),
        call_ensures(Reporter::observe, (later, look), second),
        old(reporter).interval_ms < 2000,
    ensures
        second is None,
{
}

/// A report that arrives brings the wait back to a quarter of a second; one
/// that does not doubles it, up to five seconds.
pub proof fn waits_double_up_to_five_seconds(
    reporter: &mut Reporter,
    arrived: bool,
    fresh: Reporter,
)
    requires
        call_ensures(Reporter::after_send, (reporter, arrived), ()),
        call_ensures(Reporter::new, (), fresh),
    ensures
        fresh.interval_ms == 250,
        fresh.last_pid is None,
        arrived ==> final(reporter).interval_ms == 250,
        !arrived && old(reporter).interval_ms <= 2500 ==> final(reporter).interval_ms == 2
            * old(reporter).interval_ms,
        !arrived && old(reporter).interval_ms > 2500 ==> final(reporter).interval_ms == 5000,
        final(reporter).last_pid == old(reporter).last_pid,
{
}

// ── Moments, categories and tallies ─────────────────────────────────────────

/// A moment in nanoseconds.
pub open spec fn in_nanos(t: Timestamp) -> int {
    t.secs * 1_000_000_000 + t.nanos
}

/// One moment is before another when fewer nanoseconds have passed.
pub proof fn moments_are_ordered_by_time(a: Timestamp, b: Timestamp, r: bool)
    requires
        call_ensures(Timestamp::is_before, (a, b), r),
        a.nanos < 1_000_000_000,
        b.nanos < 1_000_000_000,
    ensures
        r <==> in_nanos(a) < in_nanos(b),
{
}

/// Each category has a label, a name on disk and a tone, and is read back from
/// its name.
pub proof fn categories_have_names_and_tones(
    kind: EventKind,
    label: &'static str,
    tag: &'static str,
    tone: Tone,
    back: EventKind,
)
    requires
        call_ensures(EventKind::display, (kind,), label),
        call_ensures(EventKind::persist_tag, (kind,), tag),
        call_ensures(EventKind::color, (kind,), tone),
        call_ensures(EventKind::from_persist_tag, (tag,), back),
    ensures
        back == kind,
        kind is Foreground ==> label@ == "Foreground"@ && tag@ == "foreground"@ && tone is Accent,
        kind is Engine ==> label@ == "Engine"@ && tag@ == "engine"@ && tone is TextMuted,
        kind is ProBalanceRestrained ==> label@ == "ProBalance demote"@ && tag@
            == "probalance_restrained"@ && tone is Warning,
        kind is ProBalanceRestored ==> label@ == "ProBalance restore"@ && tag@
            == "probalance_restored"@ && tone is Success,
        kind is Other ==> label@ == "Other"@ && tag@ == "other"@ && tone is Text,
{
    state::persist_tag_round_trips(kind);
}

/// Whether an event counts: it is at most a day old. Where the day before
/// cannot be told, it must not be earlier than now.
pub open spec fn counts(e: RecentEvent, now: Timestamp) -> bool {
    let from = if now.secs >= i64::MIN + 86_400 {
        now.secs - 86_400
    } else {
        now.secs as int
    };
    e.at.secs > from || (e.at.secs == from && e.at.nanos >= now.nanos)
}

/// Whether a text begins with another.
pub open spec fn starts(s: Seq<char>, head: Seq<char>) -> bool {
    s.len() >= head.len() && s.take(head.len() as int) == head
}

/// No events, no tallies. One event more adds one to the tally of its category
/// if it is of the last day, and to no other; sessions are told by how their
/// line begins.
pub proof fn every_recent_event_counts_once(
    fewer: &[RecentEvent],
    more: &[RecentEvent],
    none: &[RecentEvent],
    e: RecentEvent,
    now: Timestamp,
    before: SessionStats,
    after: SessionStats,
    zero: SessionStats,
)
    requires
        call_ensures(SessionStats::from_recent, (fewer, now), before),
        call_ensures(SessionStats::from_recent, (more, now), after),
        call_ensures(SessionStats::from_recent, (none, now), zero),
        more@ == fewer@.push(e),
        none@.len() == 0,
    ensures
        zero.profiles_applied == 0,
        zero.probalance_demotions == 0,
        zero.probalance_restores == 0,
        zero.game_mode_sessions == 0,
        after.profiles_applied == before.profiles_applied + (if counts(e, now)
            && e.kind is Foreground {
            1int
        } else {
            0
        }),
        after.probalance_demotions == before.probalance_demotions + (if counts(e, now)
            && e.kind is ProBalanceRestrained {
            1int
        } else {
            0
        }),
        after.probalance_restores == before.probalance_restores + (if counts(e, now)
            && e.kind is ProBalanceRestored {
            1int
        } else {
            0
        }),
        after.game_mode_sessions == before.game_mode_sessions + (if counts(e, now) && (
        e.kind is Engine || e.kind is Other) && starts(e.label@, "Game Mode entered"@) {
            1int
        } else {
            0
        }),
{
    assert(more@.drop_last() =~= fewer@);
    assert(more@.last() == e);
    assert(state::is_recent(e, now) == counts(e, now));
    let head = "Game Mode entered"@;
    if e.label@.len() >= head.len() {
        assert(e.label@.take(head.len() as int) =~= e.label@.subrange(0, head.len() as int));
    }
    assert(text::begins_with(e.label@, head) == starts(e.label@, head));
}

/// Before the first report nothing is known, and nothing has been counted.
pub proof fn nothing_is_known_at_first(r: AppState, stats: SessionStats)
    requires
        call_ensures(AppState::default, (), r),
        call_ensures(SessionStats::default, (), stats),
    ensures
        !r.connected,
        r.last_error is None,
        r.status is None,
        r.recent@.len() == 0,
        r.processes@.len() == 0,
        r.system.cpu_percent == 0,
        r.system.memory_used_bytes == 0,
        r.system.memory_total_bytes == 0,
        r.system.per_core_cpu_percent@.len() == 0,
        r.system_history@.len() == 0,
        forall|pid: u32| !#[trigger] r.per_pid_cpu_history@.contains_key(pid),
        stats.profiles_applied == 0,
        stats.probalance_demotions == 0,
        stats.probalance_restores == 0,
        stats.game_mode_sessions == 0,
{
}

/// Copies of what the service reported are the same in every part.
pub proof fn copies_of_reports_are_the_same(
    p: &ProcessSnapshot,
    q: ProcessSnapshot,
    m: &SystemMetrics,
    n: SystemMetrics,
    s: &StatusSnapshot,
    t: StatusSnapshot,
    e: &RecentEvent,
    f: RecentEvent,
)
    requires
        call_ensures(ProcessSnapshot::clone, (p,), q),
        call_ensures(SystemMetrics::clone, (m,), n),
        call_ensures(StatusSnapshot::clone, (s,), t),
        call_ensures(RecentEvent::clone, (e,), f),
    ensures
        q == *p,
        n.cpu_percent == m.cpu_percent,
        n.memory_used_bytes == m.memory_used_bytes,
        n.memory_total_bytes == m.memory_total_bytes,
        n.per_core_cpu_percent@ == m.per_core_cpu_percent@,
        t.paused == s.paused,
        policy_laws::same_policy(t.policy, s.policy),
        t.foreground == s.foreground,
        t.active_profile is Some == s.active_profile is Some,
        t.active_profile is Some ==> policy_laws::same_profile(
            t.active_profile->0,
            s.active_profile->0,
        ),
        t.manual_override == s.manual_override,
        t.manual_global_active == s.manual_global_active,
        t.closed_loop_build_supported == s.closed_loop_build_supported,
        f == *e,
{
    policy_laws::lemma_same_policy(t.policy, s.policy);
    if t.active_profile is Some {
        policy_laws::lemma_same_profile(t.active_profile->0, s.active_profile->0);
    }
}

} // verus!
