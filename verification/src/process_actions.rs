//! Actions on processes: what the menus offer, and what each action asks of
//! the service and of the window.

use vstd::prelude::*;

use crate::affinity::{self, AffinityPicker};
use crate::formatters;
use crate::ipc::{self, AdminCall, ProcessSnapshot, Request, StatusSnapshot};
use crate::policy::{
    self, AffinityRule, AppMatch, AppRule, CpuSelector, MatchKind, Policy, PolicyView,
    PriorityClass, RuleView,
};
use crate::text;
use crate::tree;

verus! {

/// A click that was caught while drawing and is carried out afterwards.
#[derive(Debug, PartialEq, Eq)]
pub enum ProcessAction {
    SetPriority { pid: u32, class: PriorityClass },
    /// Applies a profile to whatever has the focus.
    ApplyProfileForeground { profile: String },
    CreateRule { exe_name: String, profile: String },
    Suspend { pid: u32 },
    Resume { pid: u32 },
    TrimWorkingSet { pid: u32 },
    /// Asks for confirmation first.
    RequestTerminate { pid: u32, exe_name: String },
    /// Pins a process; with an executable, writes a rule for it too.
    SetAffinity { pid: u32, selector: CpuSelector, save_as_rule_for: Option<String> },
    DeleteAffinityRule { exe_name: String },
    SetProBalanceExclusion { exe_name: String, exclude: bool },
    RequestAffinityPicker { pid: u32, exe_name: String },
    ShowInExplorer { path: String },
    CopyToClipboard { text: String },
    /// Suspends a process and everything below it.
    SuspendTree { root_pid: u32 },
}

/// The "are you sure?" dialog in front of a hard kill.
#[derive(Debug, PartialEq, Eq)]
pub struct TerminateConfirm {
    pub pid: u32,
    pub exe_name: String,
}

/// What has to happen for an action.
#[derive(Debug, PartialEq, Eq)]
pub enum Effect {
    Send(AdminCall),
    /// A line for the status bar.
    Echo(String),
    ConfirmTerminate(TerminateConfirm),
    OpenPicker(AffinityPicker),
    /// Show a file in its folder.
    Reveal(String),
    Copy(String),
}

/// Longest clipboard text that the echo line repeats.
pub const ECHO_CHARS: usize = 40;

// ── Priority choices ────────────────────────────────────────────────────────

/// The priorities of the "Set priority" menus, highest first.
pub open spec fn priority_choices() -> Seq<(Seq<char>, PriorityClass)> {
    seq![
        ("High"@, PriorityClass::High),
        ("Above Normal"@, PriorityClass::AboveNormal),
        ("Normal"@, PriorityClass::Normal),
        ("Below Normal"@, PriorityClass::BelowNormal),
        ("Idle (lowest)"@, PriorityClass::Idle),
    ]
}

/// The priorities of the "Set priority" menus, highest first.
pub fn list_priority_choices() -> (r: Vec<(&'static str, PriorityClass)>)
    ensures
        r@.map_values(|c: (&'static str, PriorityClass)| (c.0@, c.1)) == priority_choices(),
{
    let mut out: Vec<(&'static str, PriorityClass)> = Vec::new();
    out.push(("High", PriorityClass::High));
    out.push(("Above Normal", PriorityClass::AboveNormal));
    out.push(("Normal", PriorityClass::Normal));
    out.push(("Below Normal", PriorityClass::BelowNormal));
    out.push(("Idle (lowest)", PriorityClass::Idle));
    assert(out@.map_values(|c: (&'static str, PriorityClass)| (c.0@, c.1))
        =~= priority_choices());
    out
}

// ── Carrying actions out ────────────────────────────────────────────────────

/// Whether the only effect is this request.
pub open spec fn only_asks(effects: Seq<Effect>, request: Request, label: Seq<char>) -> bool {
    &&& effects.len() == 1
    &&& effects[0] matches Effect::Send(call)
    &&& ipc::asks(call, request, label)
}

/// Whether the only effect is this echo.
pub open spec fn only_echoes(effects: Seq<Effect>, line: Seq<char>) -> bool {
    &&& effects.len() == 1
    &&& effects[0] matches Effect::Echo(s)
    &&& s@ == line
}

/// The policy with a rule that maps an executable to a profile.
pub open spec fn with_exe_rule(
    policy: PolicyView,
    exe: Seq<char>,
    profile: Seq<char>,
) -> PolicyView {
    PolicyView {
        rules: policy.rules.push(
            RuleView { kind: MatchKind::ExeName, value: exe, profile, note: Seq::empty() },
        ),
        ..policy
    }
}

/// What an affinity choice leads to: a one-time pin; with "remember" a rule
/// that pins too; or, for all cores, the rule's removal and a reset.
pub open spec fn affinity_effects(
    effects: Seq<Effect>,
    pid: u32,
    selector: CpuSelector,
    save_as_rule_for: Option<String>,
) -> bool {
    match save_as_rule_for {
        None => only_asks(
            effects,
            Request::SetProcessAffinity { pid, selector },
            "set affinity"@,
        ),
        Some(exe) => if selector == CpuSelector::All {
            &&& effects.len() == 2
            &&& effects[0] matches Effect::Send(first)
            &&& ipc::asks(
                first,
                Request::DeleteAffinityRule { exe_name: exe },
                "delete affinity rule (reset)"@,
            )
            &&& effects[1] matches Effect::Send(second)
            &&& ipc::asks(
                second,
                Request::SetProcessAffinity { pid, selector },
                "reset affinity"@,
            )
        } else {
            &&& effects.len() == 1
            &&& effects[0] matches Effect::Send(call)
            &&& ipc::asks_for_rule(call, exe@, selector, "save affinity rule"@)
        },
    }
}

/// What creating a rule leads to: nothing before the first status; an echo if
/// the executable has a rule; else the rule goes into the draft, which is
/// stored.
pub open spec fn create_rule_effects(
    effects: Seq<Effect>,
    exe_name: Seq<char>,
    profile: Seq<char>,
    status: Option<&StatusSnapshot>,
    before: Option<Policy>,
    after: Option<Policy>,
) -> bool {
    match status {
        None => effects.len() == 0 && after == before,
        Some(s) => {
            let base = policy::draft_or(before, s.policy);
            if policy::has_exe_rule(base.rules, exe_name) {
                &&& only_echoes(effects, "Rule for "@ + exe_name + " already exists"@)
                &&& policy::draft_view(after) == Some(base)
            } else {
                let next = with_exe_rule(base, exe_name, profile);
                &&& effects.len() == 1
                &&& effects[0] matches Effect::Send(call)
                &&& ipc::asks_to_store(call, next, "create rule"@)
                &&& policy::draft_view(after) == Some(next)
            }
        },
    }
}

/// Whether the effects suspend these processes in this order.
pub open spec fn suspends_all(effects: Seq<Effect>, pids: Seq<u32>) -> bool {
    &&& effects.len() == pids.len()
    &&& forall|k: int|
        0 <= k < pids.len() ==> suspends(#[trigger] effects[k], pids[k])
}

pub open spec fn suspends(effect: Effect, pid: u32) -> bool {
    effect matches Effect::Send(call) && ipc::asks(
        call,
        Request::SuspendProcess { pid },
        "suspend tree member"@,
    )
}

/// What an action leads to. The draft changes only where a rule is created.
pub open spec fn carried_out(
    action: ProcessAction,
    status: Option<&StatusSnapshot>,
    rows: Seq<ProcessSnapshot>,
    cpu_count: nat,
    before: Option<Policy>,
    after: Option<Policy>,
    effects: Seq<Effect>,
) -> bool {
    &&& action !is CreateRule ==> after == before
    &&& match action {
        ProcessAction::SetPriority { pid, class } => only_asks(
            effects,
            Request::SetProcessPriority { pid, class },
            "set priority"@,
        ),
        ProcessAction::ApplyProfileForeground { profile } => only_asks(
            effects,
            Request::ApplyOnce { profile },
            "apply profile"@,
        ),
        ProcessAction::CreateRule { exe_name, profile } => create_rule_effects(
            effects,
            exe_name@,
            profile@,
            status,
            before,
            after,
        ),
        ProcessAction::Suspend { pid } => only_asks(
            effects,
            Request::SuspendProcess { pid },
            "suspend process"@,
        ),
        ProcessAction::Resume { pid } => only_asks(
            effects,
            Request::ResumeProcess { pid },
            "resume process"@,
        ),
        ProcessAction::TrimWorkingSet { pid } => only_asks(
            effects,
            Request::TrimWorkingSet { pid },
            "trim working set"@,
        ),
        ProcessAction::RequestTerminate { pid, exe_name } => effects =~= seq![
            Effect::ConfirmTerminate(TerminateConfirm { pid, exe_name }),
        ],
        ProcessAction::SetAffinity { pid, selector, save_as_rule_for } => affinity_effects(
            effects,
            pid,
            selector,
            save_as_rule_for,
        ),
        ProcessAction::DeleteAffinityRule { exe_name } => only_asks(
            effects,
            Request::DeleteAffinityRule { exe_name },
            "delete affinity rule"@,
        ),
        ProcessAction::SetProBalanceExclusion { exe_name, exclude } => only_asks(
            effects,
            Request::SetProBalanceExclusion { exe_name, exclude },
            "probalance exclusion"@,
        ),
        ProcessAction::RequestAffinityPicker { pid, exe_name } => {
            &&& effects.len() == 1
            &&& effects[0] matches Effect::OpenPicker(picker)
            &&& affinity::is_opened(
                picker,
                pid,
                exe_name,
                known_policy(status),
                rows,
                cpu_count,
            )
        },
        ProcessAction::ShowInExplorer { path } => {
            &&& effects.len() == 2
            &&& effects[0] == Effect::Reveal(path)
            &&& effects[1] matches Effect::Echo(s)
            &&& s@ == "show in explorer: "@ + path@
        },
        ProcessAction::CopyToClipboard { text } => {
            &&& effects.len() == 2
            &&& effects[0] == Effect::Copy(text)
            &&& effects[1] matches Effect::Echo(s)
            &&& s@ == "copied: "@ + formatters::echo_text(text@, ECHO_CHARS as nat)
        },
        ProcessAction::SuspendTree { root_pid } => suspends_all(
            effects,
            tree::walk(rows, seq![root_pid], Seq::empty()),
        ),
    }
}

pub open spec fn known_policy(status: Option<&StatusSnapshot>) -> Option<&Policy> {
    match status {
        Some(s) => Some(&s.policy),
        None => None,
    }
}

fn ask(request: Request, label: &'static str) -> (r: Vec<Effect>)
    ensures
        only_asks(r@, request, label@),
{
    let mut out: Vec<Effect> = Vec::new();
    out.push(Effect::Send(AdminCall { request, label }));
    out
}

fn create_rule(
    exe_name: String,
    profile: String,
    draft: &mut Option<Policy>,
    status: Option<&StatusSnapshot>,
) -> (r: Vec<Effect>)
    ensures
        create_rule_effects(r@, exe_name@, profile@, status, *old(draft), *final(draft)),
{
    let mut out: Vec<Effect> = Vec::new();
    if let Some(s) = status {
        let mut edited = policy::take_draft(draft, &s.policy);
        if edited.has_rule_for_exe(exe_name.as_str()) {
            let mut line = "Rule for ".to_owned();
            line.append(exe_name.as_str());
            line.append(" already exists");
            out.push(Effect::Echo(line));
        } else {
            let rule = AppRule {
                matcher: AppMatch::new(MatchKind::ExeName, exe_name),
                profile,
                note: String::new(),
            };
            policy::add_rule(&mut edited, rule);
            out.push(
                Effect::Send(
                    AdminCall {
                        request: Request::SetPolicy { policy: edited.clone() },
                        label: "create rule",
                    },
                ),
            );
        }
        *draft = Some(edited);
    }
    out
}

fn set_affinity(pid: u32, selector: CpuSelector, save_as_rule_for: Option<String>) -> (r: Vec<
    Effect,
>)
    ensures
        affinity_effects(r@, pid, selector, save_as_rule_for),
{
    match save_as_rule_for {
        None => ask(Request::SetProcessAffinity { pid, selector }, "set affinity"),
        Some(exe) => {
            let mut out: Vec<Effect> = Vec::new();
            if selector == CpuSelector::All {
                out.push(
                    Effect::Send(
                        AdminCall {
                            request: Request::DeleteAffinityRule { exe_name: exe },
                            label: "delete affinity rule (reset)",
                        },
                    ),
                );
                out.push(
                    Effect::Send(
                        AdminCall {
                            request: Request::SetProcessAffinity { pid, selector },
                            label: "reset affinity",
                        },
                    ),
                );
            } else {
                out.push(
                    Effect::Send(
                        AdminCall {
                            request: Request::SetAffinityRule {
                                rule: AffinityRule { exe_name: exe, selector, note: String::new() },
                                apply_to_live: true,
                            },
                            label: "save affinity rule",
                        },
                    ),
                );
            }
            out
        },
    }
}

fn suspend_tree(rows: &[ProcessSnapshot], root_pid: u32) -> (r: Vec<Effect>)
    ensures
        suspends_all(r@, tree::walk(rows@, seq![root_pid], Seq::empty())),
{
    let pids = tree::descendants_of(rows, root_pid);
    let mut out: Vec<Effect> = Vec::new();
    for k in 0..pids.len()
        invariant
            suspends_all(out@, pids@.take(k as int)),
    {
        out.push(
            Effect::Send(
                AdminCall {
                    request: Request::SuspendProcess { pid: pids[k] },
                    label: "suspend tree member",
                },
            ),
        );
        assert forall|j: int| 0 <= j < k + 1 implies suspends(
            #[trigger] out@[j],
            pids@.take(k + 1)[j],
        ) by {
            if j < k {
                assert(suspends(out@[j], pids@.take(k as int)[j]));
            }
        }
    }
    assert(pids@.take(pids@.len() as int) =~= pids@);
    out
}

/// Carries an action out against the latest status and processes.
pub fn dispatch(
    action: ProcessAction,
    draft: &mut Option<Policy>,
    status: Option<&StatusSnapshot>,
    rows: &[ProcessSnapshot],
    cpu_count: usize,
) -> (r: Vec<Effect>)
    ensures
        carried_out(
            action,
            status,
            rows@,
            cpu_count as nat,
            *old(draft),
            *final(draft),
            r@,
        ),
{
    match action {
        ProcessAction::SetPriority { pid, class } => ask(
            Request::SetProcessPriority { pid, class },
            "set priority",
        ),
        ProcessAction::ApplyProfileForeground { profile } => ask(
            Request::ApplyOnce { profile },
            "apply profile",
        ),
        ProcessAction::CreateRule { exe_name, profile } => create_rule(
            exe_name,
            profile,
            draft,
            status,
        ),
        ProcessAction::Suspend { pid } => ask(
            Request::SuspendProcess { pid },
            "suspend process",
        ),
        ProcessAction::Resume { pid } => ask(Request::ResumeProcess { pid }, "resume process"),
        ProcessAction::TrimWorkingSet { pid } => ask(
            Request::TrimWorkingSet { pid },
            "trim working set",
        ),
        ProcessAction::RequestTerminate { pid, exe_name } => {
            let mut out: Vec<Effect> = Vec::new();
            out.push(Effect::ConfirmTerminate(TerminateConfirm { pid, exe_name }));
            out
        },
        ProcessAction::SetAffinity { pid, selector, save_as_rule_for } => set_affinity(
            pid,
            selector,
            save_as_rule_for,
        ),
        ProcessAction::DeleteAffinityRule { exe_name } => ask(
            Request::DeleteAffinityRule { exe_name },
            "delete affinity rule",
        ),
        ProcessAction::SetProBalanceExclusion { exe_name, exclude } => ask(
            Request::SetProBalanceExclusion { exe_name, exclude },
            "probalance exclusion",
        ),
        ProcessAction::RequestAffinityPicker { pid, exe_name } => {
            let known = match status {
                Some(s) => Some(&s.policy),
                None => None,
            };
            let mut out: Vec<Effect> = Vec::new();
            out.push(
                Effect::OpenPicker(AffinityPicker::open(pid, exe_name, known, rows, cpu_count)),
            );
            out
        },
        ProcessAction::ShowInExplorer { path } => {
            let mut line = "show in explorer: ".to_owned();
            line.append(path.as_str());
            let mut out: Vec<Effect> = Vec::new();
            out.push(Effect::Reveal(path));
            out.push(Effect::Echo(line));
            out
        },
        ProcessAction::CopyToClipboard { text } => {
            let mut line = "copied: ".to_owned();
            let short = formatters::truncate_for_echo(text.as_str(), ECHO_CHARS);
            line.append(short.as_str());
            let mut out: Vec<Effect> = Vec::new();
            out.push(Effect::Copy(text));
            out.push(Effect::Echo(line));
            out
        },
        ProcessAction::SuspendTree { root_pid } => suspend_tree(rows, root_pid),
    }
}

/// Creating a rule for an executable that has one changes no rule, whatever
/// the case of its name.
pub proof fn creating_a_rule_twice_adds_one(
    base: PolicyView,
    exe: Seq<char>,
    again: Seq<char>,
    profile: Seq<char>,
)
    requires
        text::lower(exe) == text::lower(again),
    ensures
        policy::has_exe_rule(with_exe_rule(base, exe, profile).rules, again),
{
    let rules = with_exe_rule(base, exe, profile).rules;
    assert(rules[base.rules.len() as int].kind == MatchKind::ExeName);
}

// ── The confirmation ────────────────────────────────────────────────────────

impl TerminateConfirm {
    /// The warning of the dialog.
    pub fn warning(&self) -> (r: String)
        ensures
            r@ == "FrameSage will call TerminateProcess on "@ + self.exe_name@ + " (pid "@
                + text::decimal(self.pid as nat)
                + "). The process has no chance to save state. If it owns unsaved work or is a system process you'll see immediate side effects."@,
    {
        let mut out = "FrameSage will call TerminateProcess on ".to_owned();
        out.append(self.exe_name.as_str());
        out.append(" (pid ");
        let digits = text::format_decimal(self.pid as u64);
        out.append(digits.as_str());
        out.append(
            "). The process has no chance to save state. If it owns unsaved work or is a system process you'll see immediate side effects.",
        );
        out
    }

    /// What is asked of the service. Either button closes the dialog; only
    /// confirming kills.
    pub fn resolve(&self, confirmed: bool) -> (r: Option<AdminCall>)
        ensures
            r is Some == confirmed,
            confirmed ==> ipc::asks(
                r->0,
                Request::TerminateProcess { pid: self.pid },
                "terminate process"@,
            ),
    {
        if confirmed {
            Some(
                AdminCall {
                    request: Request::TerminateProcess { pid: self.pid },
                    label: "terminate process",
                },
            )
        } else {
            None
        }
    }
}

/// The dialogs of one request that wait for an answer. The first is shown; the
/// next follows once it is answered.
#[derive(Debug, PartialEq, Eq)]
pub struct TerminateQueue {
    pub waiting: Vec<TerminateConfirm>,
}

impl View for TerminateQueue {
    type V = Seq<TerminateConfirm>;

    open spec fn view(&self) -> Seq<TerminateConfirm> {
        self.waiting@
    }
}

impl Default for TerminateQueue {
    fn default() -> (r: Self)
        ensures
            r@ == Seq::<TerminateConfirm>::empty(),
    {
        TerminateQueue { waiting: Vec::new() }
    }
}

/// The dialogs that still wait after one answer.
pub open spec fn after_answer(waiting: Seq<TerminateConfirm>) -> Seq<TerminateConfirm> {
    if waiting.len() > 0 {
        waiting.drop_first()
    } else {
        waiting
    }
}

/// The dialogs that still wait after `n` answers.
pub open spec fn after_answers(waiting: Seq<TerminateConfirm>, n: nat) -> Seq<TerminateConfirm>
    decreases n,
{
    if n == 0 {
        waiting
    } else {
        after_answers(after_answer(waiting), (n - 1) as nat)
    }
}

impl TerminateQueue {
    /// Opens the dialogs of a request, one for each process, in place of those
    /// that still wait. A request for no process leaves them.
    pub fn ask(&mut self, asked: Vec<TerminateConfirm>)
        ensures
            final(self)@ == (if asked@.len() > 0 {
                asked@
            } else {
                old(self)@
            }),
    {
        if asked.len() > 0 {
            self.waiting = asked;
        }
    }

    /// The dialog to show.
    pub fn shown(&self) -> (r: Option<&TerminateConfirm>)
        ensures
            r == (if self@.len() > 0 {
                Some(&self@[0])
            } else {
                None
            }),
    {
        if self.waiting.len() > 0 {
            Some(&self.waiting[0])
        } else {
            None
        }
    }

    /// Answers the dialog that is shown and closes it.
    pub fn answer(&mut self, confirmed: bool) -> (r: Option<AdminCall>)
        ensures
            final(self)@ == after_answer(old(self)@),
            r is Some == (confirmed && old(self)@.len() > 0),
            r is Some ==> ipc::asks(
                r->0,
                Request::TerminateProcess { pid: old(self)@[0].pid },
                "terminate process"@,
            ),
    {
        if self.waiting.len() == 0 {
            return None;
        }
        let confirm = self.waiting.remove(0);
        assert(self@ =~= old(self)@.drop_first());
        confirm.resolve(confirmed)
    }
}

/// Every dialog of a request gets its turn, in the order of its processes, and
/// as many answers as there are dialogs settle all of them.
pub proof fn dialogs_come_up_in_turn(waiting: Seq<TerminateConfirm>, k: nat)
    ensures
        k <= waiting.len() ==> after_answers(waiting, k) == waiting.skip(k as int),
        k < waiting.len() ==> after_answers(waiting, k)[0] == waiting[k as int],
        after_answers(waiting, waiting.len()) == Seq::<TerminateConfirm>::empty(),
{
    if k <= waiting.len() {
        lemma_after_answers(waiting, k);
    }
    lemma_after_answers(waiting, waiting.len());
}

proof fn lemma_after_answers(waiting: Seq<TerminateConfirm>, k: nat)
    requires
        k <= waiting.len(),
    ensures
        after_answers(waiting, k) == waiting.skip(k as int),
    decreases k,
{
    if k > 0 {
        lemma_after_answers(waiting.drop_first(), (k - 1) as nat);
        assert(waiting.drop_first().skip(k - 1) =~= waiting.skip(k as int));
    } else {
        assert(waiting.skip(0) =~= waiting);
    }
}

} // verus!
