//! The values that travel between the tray and the service.

use vstd::prelude::*;

use crate::policy::{
    self, AffinityRule, AffinityRuleView, CpuSelector, Policy, PolicyView, PriorityClass, Profile,
};

verus! {

/// One running process as the service last saw it.
#[derive(Debug, PartialEq, Eq)]
pub struct ProcessSnapshot {
    pub pid: u32,
    pub parent_pid: u32,
    pub exe_name: String,
    pub exe_path: String,
    /// Friendly name from the version resource.
    pub description: Option<String>,
    /// Publisher from the version resource.
    pub company: Option<String>,
    pub user: Option<String>,
    pub priority_class_raw: u32,
    pub affinity_mask: u64,
    pub cpu_percent: u16,
    pub memory_bytes: u64,
    pub peak_working_set_bytes: u64,
    pub private_bytes: u64,
    pub threads: u32,
    pub matched_rule_note: Option<String>,
    pub managed_profile: Option<String>,
    pub restrained_by_probalance: bool,
}

impl Clone for ProcessSnapshot {
    fn clone(&self) -> (r: Self)
        ensures
            r == *self,
    {
        ProcessSnapshot {
            pid: self.pid,
            parent_pid: self.parent_pid,
            exe_name: self.exe_name.clone(),
            exe_path: self.exe_path.clone(),
            description: policy::clone_text(&self.description),
            company: policy::clone_text(&self.company),
            user: policy::clone_text(&self.user),
            priority_class_raw: self.priority_class_raw,
            affinity_mask: self.affinity_mask,
            cpu_percent: self.cpu_percent,
            memory_bytes: self.memory_bytes,
            peak_working_set_bytes: self.peak_working_set_bytes,
            private_bytes: self.private_bytes,
            threads: self.threads,
            matched_rule_note: policy::clone_text(&self.matched_rule_note),
            managed_profile: policy::clone_text(&self.managed_profile),
            restrained_by_probalance: self.restrained_by_probalance,
        }
    }
}

/// The focused window of the user's session.
#[derive(Debug, PartialEq, Eq)]
pub struct ForegroundSnapshot {
    pub pid: u32,
    pub exe_name: String,
    pub path: String,
    pub title: String,
}

impl Clone for ForegroundSnapshot {
    fn clone(&self) -> (r: Self)
        ensures
            r == *self,
    {
        ForegroundSnapshot {
            pid: self.pid,
            exe_name: self.exe_name.clone(),
            path: self.path.clone(),
            title: self.title.clone(),
        }
    }
}

/// The engine's state.
#[derive(Debug, PartialEq, Eq)]
pub struct StatusSnapshot {
    pub paused: bool,
    pub policy: Policy,
    pub foreground: Option<ForegroundSnapshot>,
    pub active_profile: Option<Profile>,
    /// The profile that is pinned to every foreground.
    pub manual_override: Option<String>,
    /// The profile whose system-wide actions were entered by hand.
    pub manual_global_active: Option<String>,
    /// Whether this Windows build can measure sessions.
    pub closed_loop_build_supported: bool,
}

impl Clone for StatusSnapshot {
    fn clone(&self) -> (r: Self)
        ensures
            r.paused == self.paused,
            r.policy@ == self.policy@,
            r.foreground == self.foreground,
            match (r.active_profile, self.active_profile) {
                (Some(a), Some(b)) => a@ == b@,
                (None, None) => true,
                _ => false,
            },
            r.manual_override == self.manual_override,
            r.manual_global_active == self.manual_global_active,
            r.closed_loop_build_supported == self.closed_loop_build_supported,
    {
        StatusSnapshot {
            paused: self.paused,
            policy: self.policy.clone(),
            foreground: match &self.foreground {
                None => None,
                Some(f) => Some(f.clone()),
            },
            active_profile: match &self.active_profile {
                None => None,
                Some(p) => Some(p.clone()),
            },
            manual_override: policy::clone_text(&self.manual_override),
            manual_global_active: policy::clone_text(&self.manual_global_active),
            closed_loop_build_supported: self.closed_loop_build_supported,
        }
    }
}

/// Load of the whole machine.
#[derive(Debug, PartialEq, Eq)]
pub struct SystemMetrics {
    pub cpu_percent: u8,
    pub memory_used_bytes: u64,
    pub memory_total_bytes: u64,
    pub per_core_cpu_percent: Vec<u8>,
}

impl Default for SystemMetrics {
    fn default() -> (r: Self)
        ensures
            r.cpu_percent == 0,
            r.memory_used_bytes == 0,
            r.memory_total_bytes == 0,
            r.per_core_cpu_percent@.len() == 0,
    {
        SystemMetrics {
            cpu_percent: 0,
            memory_used_bytes: 0,
            memory_total_bytes: 0,
            per_core_cpu_percent: Vec::new(),
        }
    }
}

impl Clone for SystemMetrics {
    fn clone(&self) -> (r: Self)
        ensures
            r.cpu_percent == self.cpu_percent,
            r.memory_used_bytes == self.memory_used_bytes,
            r.memory_total_bytes == self.memory_total_bytes,
            r.per_core_cpu_percent@ == self.per_core_cpu_percent@,
    {
        SystemMetrics {
            cpu_percent: self.cpu_percent,
            memory_used_bytes: self.memory_used_bytes,
            memory_total_bytes: self.memory_total_bytes,
            per_core_cpu_percent: self.per_core_cpu_percent.clone(),
        }
    }
}

#[derive(Debug, Clone, Copy, PartialEq, Eq, Structural)]
pub enum ServiceStatusKind {
    Running,
    Stopped,
    Pending,
}

/// One Windows service.
#[derive(Debug, PartialEq, Eq)]
pub struct ServiceInfo {
    pub name: String,
    pub display_name: String,
    pub status: ServiceStatusKind,
}

/// What the service tells its subscribers.
#[allow(inconsistent_fields)]
#[derive(Debug, PartialEq, Eq)]
pub enum Event {
    ForegroundChanged {
        foreground: ForegroundSnapshot,
        profile: String,
        matched_rule_index: Option<u64>,
    },
    Paused,
    Resumed,
    ProBalanceRestrained { pid: u32, exe_name: String, from_class: u32, to_class: u32 },
    ProBalanceRestored { pid: u32, exe_name: String, restored_class: u32 },
    GameModeEntered {
        profile_id: String,
        services_to_stop: u64,
        processes_to_suspend: u64,
        power_plan_changing: bool,
        taskbar_hiding: bool,
        pausing_windows_update: bool,
    },
    GameModeExited {
        profile_id: String,
        services_restored: u64,
        processes_resumed: u64,
        duration_secs: u64,
        reason: String,
    },
    ProfileApplied { pid: u32, exe_name: String, profile_id: String },
    ProfileReverted { pid: u32, exe_name: String, profile_id: String },
    AffinityRuleFired { pid: u32, exe_name: String, rule_exe: String },
    /// `kind` names the action that failed.
    ActionFailed { kind: String, pid: Option<u32>, exe_name: Option<String>, details: String },
    AntiCheatPresenceChanged { which: String, active: bool },
}

/// What the tray asks of the service.
#[derive(Debug, PartialEq, Eq)]
pub enum Request {
    Status,
    Subscribe,
    ListProcesses,
    ListServices,
    ListSessions,
    ReadSession { session_id: String },
    ReportForeground { pid: u32, exe_name: String, path: String, title: String },
    ReportNoForeground,
    Pause,
    Resume,
    GameModeOff,
    ApplyOnce { profile: String },
    SetManualOverride { profile: String },
    ClearManualOverride,
    EnableManualGlobalGameMode { profile: String },
    DisableManualGlobalGameMode,
    SetPolicy { policy: Policy },
    SetProcessPriority { pid: u32, class: PriorityClass },
    SetProcessAffinity { pid: u32, selector: CpuSelector },
    SetAffinityRule { rule: AffinityRule, apply_to_live: bool },
    DeleteAffinityRule { exe_name: String },
    SetProBalanceExclusion { exe_name: String, exclude: bool },
    SuspendProcess { pid: u32 },
    ResumeProcess { pid: u32 },
    TrimWorkingSet { pid: u32 },
    TerminateProcess { pid: u32 },
}

/// What the service answers.
#[derive(Debug, PartialEq, Eq)]
pub enum Response {
    /// Nothing to report.
    Done,
    Status(StatusSnapshot),
    Processes { snapshots: Vec<ProcessSnapshot>, system: SystemMetrics },
    UndoResult,
    UndoLog,
    Error { message: String },
}

/// A request on the admin pipe, with the words that the echo line uses for it.
#[derive(Debug, PartialEq, Eq)]
pub struct AdminCall {
    pub request: Request,
    pub label: &'static str,
}

/// Whether a call makes this request under this label.
pub open spec fn asks(call: AdminCall, request: Request, label: Seq<char>) -> bool {
    call.request == request && call.label@ == label
}

/// Whether a call writes this affinity rule and pins the live processes too.
pub open spec fn asks_for_rule(
    call: AdminCall,
    exe_name: Seq<char>,
    selector: CpuSelector,
    label: Seq<char>,
) -> bool {
    &&& call.label@ == label
    &&& call.request matches Request::SetAffinityRule { rule, apply_to_live }
    &&& apply_to_live
    &&& rule@ == (AffinityRuleView { exe_name, selector, note: Seq::empty() })
}

/// Whether a call stores this policy.
pub open spec fn asks_to_store(call: AdminCall, policy: PolicyView, label: Seq<char>) -> bool {
    &&& call.label@ == label
    &&& call.request matches Request::SetPolicy { policy: p }
    &&& p@ == policy
}

} // verus!
