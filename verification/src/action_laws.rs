//! Laws of the actions on processes: what reaches the service for a choice, and
//! for which processes.

use std::collections::HashSet;
use vstd::prelude::*;

use crate::affinity::{self, AffinityPicker, PickerClick};
use crate::formatters;
use crate::ipc::{AdminCall, ProcessSnapshot, Request, StatusSnapshot};
use crate::policy::{CpuSelector, MatchKind, Policy, PolicyView, PriorityClass, RuleView};
use crate::process_actions::{
    self, Effect, ProcessAction, TerminateConfirm, TerminateQueue,
};
use crate::process_menu::{self, MenuChoice};
use crate::sorting;
use crate::text;
use crate::tree;

verus! {

broadcast use vstd::std_specs::hash::group_hash_axioms;

/// Whether the effect at place `k` is a request under a label.
pub open spec fn sends(effects: Seq<Effect>, k: int, request: Request, label: Seq<char>) -> bool {
    &&& 0 <= k < effects.len()
    &&& effects[k] is Send
    &&& effects[k]->Send_0.request == request
    &&& effects[k]->Send_0.label@ == label
}

/// Whether some effect is this request.
pub open spec fn requests(effects: Seq<Effect>, request: Request) -> bool {
    exists|k: int|
        0 <= k < effects.len() && (#[trigger] effects[k]) is Send
            && effects[k]->Send_0.request == request
}

// ── Carrying actions out ────────────────────────────────────────────────────

/// An action on one process is one request about that very process, and leaves
/// the draft alone.
pub proof fn actions_on_a_process_name_it(
    action: ProcessAction,
    draft: &mut Option<Policy>,
    status: Option<&StatusSnapshot>,
    rows: &[ProcessSnapshot],
    cpu_count: usize,
    r: Vec<Effect>,
)
    requires
        call_ensures(process_actions::dispatch, (action, draft, status, rows, cpu_count), r),
    ensures
        action !is CreateRule ==> *final(draft) == *old(draft),
        action matches ProcessAction::SetPriority { pid, class } ==> r@.len() == 1 && sends(
            r@,
            0,
            Request::SetProcessPriority { pid, class },
            "set priority"@,
        ),
        action matches ProcessAction::Suspend { pid } ==> r@.len() == 1 && sends(
            r@,
            0,
            Request::SuspendProcess { pid },
            "suspend process"@,
        ),
        action matches ProcessAction::Resume { pid } ==> r@.len() == 1 && sends(
            r@,
            0,
            Request::ResumeProcess { pid },
            "resume process"@,
        ),
        action matches ProcessAction::TrimWorkingSet { pid } ==> r@.len() == 1 && sends(
            r@,
            0,
            Request::TrimWorkingSet { pid },
            "trim working set"@,
        ),
        action matches ProcessAction::ApplyProfileForeground { profile } ==> r@.len() == 1
            && sends(r@, 0, Request::ApplyOnce { profile }, "apply profile"@),
        action matches ProcessAction::DeleteAffinityRule { exe_name } ==> r@.len() == 1 && sends(
            r@,
            0,
            Request::DeleteAffinityRule { exe_name },
            "delete affinity rule"@,
        ),
        action matches ProcessAction::SetProBalanceExclusion { exe_name, exclude } ==> r@.len()
            == 1 && sends(
            r@,
            0,
            Request::SetProBalanceExclusion { exe_name, exclude },
            "probalance exclusion"@,
        ),
{
}

/// A pin that is not to be remembered is a request about the live process and
/// touches no rule.
pub proof fn a_pin_for_once_touches_no_rule(
    pid: u32,
    selector: CpuSelector,
    draft: &mut Option<Policy>,
    status: Option<&StatusSnapshot>,
    rows: &[ProcessSnapshot],
    cpu_count: usize,
    r: Vec<Effect>,
)
    requires
        call_ensures(
            process_actions::dispatch,
            (
                ProcessAction::SetAffinity { pid, selector, save_as_rule_for: None },
                draft,
                status,
                rows,
                cpu_count,
            ),
            r,
        ),
    ensures
        requests(r@, Request::SetProcessAffinity { pid, selector }),
        forall|k: int|
            0 <= k < r@.len() ==> (#[trigger] r@[k]) is Send && r@[k]->Send_0.request
                !is SetAffinityRule && r@[k]->Send_0.request !is DeleteAffinityRule
                && r@[k]->Send_0.label@ == "set affinity"@,
        r@.len() == 1,
{
}

/// A pin that is to be remembered becomes a rule for the executable, with the
/// choice that was made, and reaches its live processes too. It is not the
/// request that a pin for once makes.
pub proof fn a_remembered_pin_becomes_a_rule(
    pid: u32,
    selector: CpuSelector,
    exe: String,
    draft: &mut Option<Policy>,
    status: Option<&StatusSnapshot>,
    rows: &[ProcessSnapshot],
    cpu_count: usize,
    r: Vec<Effect>,
)
    requires
        call_ensures(
            process_actions::dispatch,
            (
                ProcessAction::SetAffinity { pid, selector, save_as_rule_for: Some(exe) },
                draft,
                status,
                rows,
                cpu_count,
            ),
            r,
        ),
        selector != CpuSelector::All,
    ensures
        exists|k: int|
            0 <= k < r@.len() && (#[trigger] r@[k]) is Send && is_rule_request(
                r@[k]->Send_0.request,
                exe@,
                selector,
            ),
        !requests(r@, Request::SetProcessAffinity { pid, selector }),
        r@.len() == 1,
        r@[0]->Send_0.label@ == "save affinity rule"@,
{
    assert(is_rule_request(r@[0]->Send_0.request, exe@, selector));
}

/// Whether a request writes a rule that pins an executable, and pins what runs.
pub open spec fn is_rule_request(request: Request, exe: Seq<char>, selector: CpuSelector) -> bool {
    &&& request is SetAffinityRule
    &&& request->SetAffinityRule_apply_to_live
    &&& request->rule.exe_name@ == exe
    &&& request->rule.selector == selector
    &&& request->rule.note@.len() == 0
}

/// Choosing all cores with "remember" forgets the rule first and then frees the
/// live process.
pub proof fn remembering_all_cores_forgets_the_rule(
    pid: u32,
    exe: String,
    draft: &mut Option<Policy>,
    status: Option<&StatusSnapshot>,
    rows: &[ProcessSnapshot],
    cpu_count: usize,
    r: Vec<Effect>,
)
    requires
        call_ensures(
            process_actions::dispatch,
            (
                ProcessAction::SetAffinity {
                    pid,
                    selector: CpuSelector::All,
                    save_as_rule_for: Some(exe),
                },
                draft,
                status,
                rows,
                cpu_count,
            ),
            r,
        ),
    ensures
        r@.len() == 2,
        sends(
            r@,
            0,
            Request::DeleteAffinityRule { exe_name: exe },
            "delete affinity rule (reset)"@,
        ),
        sends(
            r@,
            1,
            Request::SetProcessAffinity { pid, selector: CpuSelector::All },
            "reset affinity"@,
        ),
{
}

/// Whether some rule of a policy matches an executable by its name, case apart.
pub open spec fn matches_exe(policy: PolicyView, exe: Seq<char>) -> bool {
    exists|i: int|
        0 <= i < policy.rules.len() && (#[trigger] policy.rules[i]).kind == MatchKind::ExeName
            && text::lower(policy.rules[i].value) == text::lower(exe)
}

/// Creating a rule appends it to the policy that is being edited, keeps
/// everything else of that policy and stores it. Where the executable has a
/// rule nothing is stored and no rule is added, and before the first status
/// nothing happens at all.
pub proof fn creating_a_rule_appends_it(
    exe: String,
    profile: String,
    draft: &mut Option<Policy>,
    status: Option<&StatusSnapshot>,
    rows: &[ProcessSnapshot],
    cpu_count: usize,
    r: Vec<Effect>,
)
    requires
        call_ensures(
            process_actions::dispatch,
            (
                ProcessAction::CreateRule { exe_name: exe, profile },
                draft,
                status,
                rows,
                cpu_count,
            ),
            r,
        ),
    ensures
        status is None ==> r@.len() == 0 && *final(draft) == *old(draft),
        status is Some ==> {
            let base = if *old(draft) is Some {
                (*old(draft))->0@
            } else {
                status->0.policy@
            };
            let next = (*final(draft))->0@;
            let n = base.rules.len();
            &&& *final(draft) is Some
            &&& r@.len() == 1
            &&& matches_exe(base, exe@) ==> next == base && r@[0] is Echo && r@[0]->Echo_0@
                == "Rule for "@ + exe@ + " already exists"@
            &&& !matches_exe(base, exe@) ==> {
                &&& next.rules.len() == n + 1
                &&& forall|i: int| 0 <= i < n ==> next.rules[i] == #[trigger] base.rules[i]
                &&& next.rules[n as int].kind == MatchKind::ExeName
                &&& next.rules[n as int].value == exe@
                &&& next.rules[n as int].profile == profile@
                &&& next.rules[n as int].note.len() == 0
                &&& next == (PolicyView { rules: next.rules, ..base })
                &&& r@[0] is Send
                &&& r@[0]->Send_0.request is SetPolicy
                &&& r@[0]->Send_0.request->policy@ == next
                &&& r@[0]->Send_0.label@ == "create rule"@
                &&& matches_exe(next, exe@)
            }
        },
{
    if let Some(s) = status {
        let base = if *old(draft) is Some {
            (*old(draft))->0@
        } else {
            s.policy@
        };
        let next = (*final(draft))->0@;
        if matches_exe(base, exe@) {
            let i = choose|i: int|
                0 <= i < base.rules.len() && (#[trigger] base.rules[i]).kind == MatchKind::ExeName
                    && text::lower(base.rules[i].value) == text::lower(exe@);
            assert(crate::policy::has_exe_rule(base.rules, exe@));
        } else {
            assert(!crate::policy::has_exe_rule(base.rules, exe@));
            assert(next.rules[base.rules.len() as int].value == exe@);
        }
    }
}

/// Asking to terminate kills nothing yet: it opens the dialog for the very
/// process. No action whatever kills without one.
pub proof fn nothing_is_killed_without_a_dialog(
    action: ProcessAction,
    draft: &mut Option<Policy>,
    status: Option<&StatusSnapshot>,
    rows: &[ProcessSnapshot],
    cpu_count: usize,
    r: Vec<Effect>,
    k: int,
)
    requires
        call_ensures(process_actions::dispatch, (action, draft, status, rows, cpu_count), r),
        0 <= k < r@.len(),
    ensures
        r@[k] is Send ==> r@[k]->Send_0.request !is TerminateProcess,
        r@[k] is ConfirmTerminate <==> action is RequestTerminate,
        action matches ProcessAction::RequestTerminate { pid, exe_name } ==> r@.len() == 1
            && r@[k]->ConfirmTerminate_0.pid == pid && r@[k]->ConfirmTerminate_0.exe_name
            == exe_name,
{
    match action {
        ProcessAction::SuspendTree { root_pid } => {
            let pids = tree::walk(rows@, seq![root_pid], Seq::empty());
            assert(process_actions::suspends(r@[k], pids[k]));
        },
        _ => {},
    }
}

/// Suspending a tree suspends the process and all that descend from it, each
/// once, the process itself first, and nothing else.
pub proof fn suspending_a_tree_reaches_all_of_it(
    root_pid: u32,
    draft: &mut Option<Policy>,
    status: Option<&StatusSnapshot>,
    rows: &[ProcessSnapshot],
    cpu_count: usize,
    r: Vec<Effect>,
)
    requires
        call_ensures(
            process_actions::dispatch,
            (ProcessAction::SuspendTree { root_pid }, draft, status, rows, cpu_count),
            r,
        ),
    ensures
        r@.len() > 0,
        r@[0] is Send && r@[0]->Send_0.request == (Request::SuspendProcess { pid: root_pid }),
        forall|k: int|
            0 <= k < r@.len() ==> (#[trigger] r@[k]) is Send && r@[k]->Send_0.request
                is SuspendProcess && r@[k]->Send_0.label@ == "suspend tree member"@,
        forall|pid: u32|
            tree::descends(rows@, root_pid, pid) <==> #[trigger] requests(
                r@,
                Request::SuspendProcess { pid },
            ),
        forall|j: int, k: int|
            0 <= j < k < r@.len() ==> (#[trigger] r@[j])->Send_0.request != (
            #[trigger] r@[k])->Send_0.request,
{
    let pids = tree::walk(rows@, seq![root_pid], Seq::empty());
    tree::descendants_are_exactly_the_reachable(rows@, root_pid);
    assert forall|k: int| 0 <= k < r@.len() implies (#[trigger] r@[k]) is Send
        && r@[k]->Send_0.request == (Request::SuspendProcess { pid: pids[k] }) by {
        assert(process_actions::suspends(r@[k], pids[k]));
    }
    assert(r@[0]->Send_0.request == (Request::SuspendProcess { pid: pids[0] }));
    assert forall|pid: u32|
        tree::descends(rows@, root_pid, pid) <==> #[trigger] requests(
            r@,
            Request::SuspendProcess { pid },
        ) by {
        assert(pids.contains(pid) <==> tree::descends(rows@, root_pid, pid));
        if pids.contains(pid) {
            let k = pids.index_of(pid);
            assert(r@[k]->Send_0.request == (Request::SuspendProcess { pid }));
        }
        if requests(r@, Request::SuspendProcess { pid }) {
            let k = choose|k: int|
                0 <= k < r@.len() && (#[trigger] r@[k]) is Send && r@[k]->Send_0.request == (
                Request::SuspendProcess { pid });
            assert(pids[k] == pid);
        }
    }
    assert forall|j: int, k: int| 0 <= j < k < r@.len() implies (
    #[trigger] r@[j])->Send_0.request != (#[trigger] r@[k])->Send_0.request by {
        assert(pids[j] != pids[k]);
    }
}

/// A tree is suspended in the order in which its processes are walked.
pub proof fn trees_are_suspended_in_walking_order(
    root_pid: u32,
    draft: &mut Option<Policy>,
    status: Option<&StatusSnapshot>,
    rows: &[ProcessSnapshot],
    cpu_count: usize,
    r: Vec<Effect>,
    pids: Vec<u32>,
)
    requires
        call_ensures(
            process_actions::dispatch,
            (ProcessAction::SuspendTree { root_pid }, draft, status, rows, cpu_count),
            r,
        ),
        call_ensures(tree::descendants_of, (rows, root_pid), pids),
    ensures
        r@.len() == pids@.len(),
        forall|k: int|
            0 <= k < r@.len() ==> (#[trigger] r@[k])->Send_0.request == (Request::SuspendProcess {
                pid: pids@[k],
            }),
{
    assert forall|k: int| 0 <= k < r@.len() implies (#[trigger] r@[k])->Send_0.request == (
    Request::SuspendProcess { pid: pids@[k] }) by {
        assert(process_actions::suspends(r@[k], pids@[k]));
    }
}

/// Showing a file reveals its own path; copying puts the whole text on the
/// clipboard, however short the echo. Neither asks anything of the service.
pub proof fn revealing_and_copying_stay_on_the_machine(
    action: ProcessAction,
    draft: &mut Option<Policy>,
    status: Option<&StatusSnapshot>,
    rows: &[ProcessSnapshot],
    cpu_count: usize,
    r: Vec<Effect>,
)
    requires
        call_ensures(process_actions::dispatch, (action, draft, status, rows, cpu_count), r),
        action is ShowInExplorer || action is CopyToClipboard,
    ensures
        r@.len() == 2,
        r@[1] is Echo,
        action matches ProcessAction::ShowInExplorer { path } ==> r@[0] == Effect::Reveal(path)
            && text::occurs_in(path@, r@[1]->Echo_0@) && r@[1]->Echo_0@ == "show in explorer: "@
            + path@,
        action matches ProcessAction::CopyToClipboard { text } ==> r@[0] == Effect::Copy(text),
{
    if let ProcessAction::ShowInExplorer { path } = action {
        let line = r@[1]->Echo_0@;
        assert(line =~= "show in explorer: "@ + path@ + Seq::empty());
        crate::text_laws::texts_occur_in_what_surrounds_them(
            "show in explorer: "@,
            path@,
            Seq::empty(),
        );
    }
}

/// What was copied is told in up to forty characters.
pub proof fn copies_are_told_in_short(
    text: String,
    draft: &mut Option<Policy>,
    status: Option<&StatusSnapshot>,
    rows: &[ProcessSnapshot],
    cpu_count: usize,
    r: Vec<Effect>,
    whole: &str,
    short: String,
)
    requires
        call_ensures(
            process_actions::dispatch,
            (ProcessAction::CopyToClipboard { text }, draft, status, rows, cpu_count),
            r,
        ),
        whole@ == text@,
        call_ensures(formatters::truncate_for_echo, (whole, 40usize), short),
    ensures
        r@[1]->Echo_0@ == "copied: "@ + short@,
{
}

/// Asking for a custom mask opens the dialog, as it opens for that process
/// under the policy that the service runs by.
pub proof fn custom_masks_open_the_dialog(
    pid: u32,
    exe_name: String,
    draft: &mut Option<Policy>,
    status: Option<&StatusSnapshot>,
    rows: &[ProcessSnapshot],
    cpu_count: usize,
    r: Vec<Effect>,
    known: Option<&Policy>,
    dialog: AffinityPicker,
)
    requires
        call_ensures(
            process_actions::dispatch,
            (
                ProcessAction::RequestAffinityPicker { pid, exe_name },
                draft,
                status,
                rows,
                cpu_count,
            ),
            r,
        ),
        known is Some == status is Some,
        status is Some ==> *known->0 == status->0.policy,
        call_ensures(AffinityPicker::open, (pid, exe_name, known, rows, cpu_count), dialog),
    ensures
        r@.len() == 1,
        r@[0] is OpenPicker,
        r@[0]->OpenPicker_0 == dialog,
{
    let opened = r@[0]->OpenPicker_0;
    let n = affinity::cpus_or_fallback(cpu_count as nat);
    let rule = affinity::rule_selector(known, exe_name@);
    assert(rule == affinity::rule_selector(process_actions::known_policy(status), exe_name@));
    if rule is Some && affinity::selects_any(rule->0, n) {
        assert forall|i: nat| i < 64 implies #[trigger] formatters::has_cpu(opened.mask, i)
            == formatters::has_cpu(dialog.mask, i) by {
            assert(formatters::has_cpu(dialog.mask, i) == affinity::selects(rule->0, n, i));
        }
        affinity::masks_are_told_apart_by_their_processors(opened.mask, dialog.mask);
    }
}

// ── The menus ───────────────────────────────────────────────────────────────

/// A menu on a process of a larger selection acts on every listed process that
/// is selected and on no other; any other menu acts on its process alone.
pub proof fn menus_act_on_the_selection(
    rows: &[ProcessSnapshot],
    selected: &HashSet<u32>,
    p: &ProcessSnapshot,
    r: Vec<(u32, String)>,
)
    requires
        call_ensures(process_menu::targets, (rows, selected, p), r),
    ensures
        !(selected@.contains(p.pid) && selected@.len() > 1) ==> r@.len() == 1 && r@[0].0 == p.pid
            && r@[0].1 == p.exe_name,
        selected@.contains(p.pid) && selected@.len() > 1 ==> {
            &&& forall|k: int|
                0 <= k < r@.len() ==> selected@.contains((#[trigger] r@[k]).0) && exists|i: int|
                    0 <= i < rows@.len() && (#[trigger] rows@[i]).pid == r@[k].0
                        && rows@[i].exe_name == r@[k].1
            &&& forall|i: int|
                0 <= i < rows@.len() && selected@.contains((#[trigger] rows@[i]).pid)
                    ==> exists|k: int|
                    0 <= k < r@.len() && (#[trigger] r@[k]).0 == rows@[i].pid && r@[k].1
                        == rows@[i].exe_name
        },
{
    if selected@.contains(p.pid) && selected@.len() > 1 {
        let chosen = |q: ProcessSnapshot| selected@.contains(q.pid);
        let kept = rows@.filter(chosen);
        broadcast use vstd::seq_lib::group_filter_ensures;

        assert forall|k: int| 0 <= k < r@.len() implies selected@.contains((#[trigger] r@[k]).0)
            && exists|i: int|
            0 <= i < rows@.len() && (#[trigger] rows@[i]).pid == r@[k].0 && rows@[i].exe_name
                == r@[k].1 by {
            assert(r@[k] == process_menu::target_of(kept[k]));
            rows@.lemma_filter_pred(chosen, k);
            assert(kept.contains(kept[k]));
            rows@.lemma_filter_contains_rev(chosen, kept[k]);
            let i = rows@.index_of(kept[k]);
            assert(rows@[i] == kept[k]);
        }
        assert forall|i: int| 0 <= i < rows@.len() && selected@.contains(
            (#[trigger] rows@[i]).pid,
        ) implies exists|k: int|
            0 <= k < r@.len() && (#[trigger] r@[k]).0 == rows@[i].pid && r@[k].1
                == rows@[i].exe_name by {
            assert(chosen(rows@[i]));
            rows@.lemma_filter_contains(chosen, i);
            let k = kept.index_of(rows@[i]);
            assert(r@[k] == process_menu::target_of(kept[k]));
        }
    }
}

/// Whether the targets are the processes at these places, which go upwards.
pub open spec fn stand_at(
    targets: Seq<(u32, String)>,
    rows: Seq<ProcessSnapshot>,
    places: Seq<int>,
) -> bool {
    &&& targets.len() == places.len()
    &&& forall|k: int|
        0 <= k < places.len() ==> 0 <= #[trigger] places[k] < rows.len() && targets[k].0
            == rows[places[k]].pid && targets[k].1 == rows[places[k]].exe_name
    &&& forall|j: int, k: int|
        0 <= j < k < places.len() ==> (#[trigger] places[j]) < (#[trigger] places[k])
}

/// A selection is acted on in the order of the list, each process once.
pub proof fn selections_are_acted_on_in_order(
    rows: &[ProcessSnapshot],
    selected: &HashSet<u32>,
    p: &ProcessSnapshot,
    r: Vec<(u32, String)>,
)
    requires
        call_ensures(process_menu::targets, (rows, selected, p), r),
        selected@.contains(p.pid),
        selected@.len() > 1,
    ensures
        exists|places: Seq<int>| #[trigger]
            stand_at(r@, rows@, places) && forall|i: int|
                0 <= i < rows@.len() ==> (selected@.contains((#[trigger] rows@[i]).pid)
                    <==> places.contains(i)),
{
    let chosen = |q: ProcessSnapshot| selected@.contains(q.pid);
    let places = sorting::filtering_keeps_the_order(rows@, chosen);
    let kept = rows@.filter(chosen);
    assert forall|k: int| 0 <= k < places.len() implies 0 <= #[trigger] places[k] < rows@.len()
        && r@[k].0 == rows@[places[k]].pid && r@[k].1 == rows@[places[k]].exe_name by {
        assert(r@[k] == process_menu::target_of(kept[k]));
    }
    assert(stand_at(r@, rows@, places));
    assert forall|i: int| 0 <= i < rows@.len() implies (selected@.contains((#[trigger] rows@[i]).pid)
        <==> places.contains(i)) by {
        if places.contains(i) {
            let k = places.index_of(i);
            assert(chosen(rows@[places[k]]));
        }
        if selected@.contains(rows@[i].pid) {
            assert(chosen(rows@[i]));
        }
    }
}

/// A choice that is about processes becomes one action for each target, with
/// the target's own pid and name, in order.
pub proof fn choices_reach_every_target(
    choice: MenuChoice,
    p: &ProcessSnapshot,
    targets: &[(u32, String)],
    remember: bool,
    r: Vec<ProcessAction>,
    k: int,
)
    requires
        call_ensures(process_menu::choose_entry, (choice, p, targets, remember), r),
        0 <= k < targets@.len(),
        choice is Priority || choice is Affinity || choice is TrimWorkingSet || choice is Suspend
            || choice is Resume || choice is Terminate,
    ensures
        r@.len() == targets@.len(),
        choice matches MenuChoice::Priority(class) ==> r@[k] == (ProcessAction::SetPriority {
            pid: targets@[k].0,
            class,
        }),
        choice is TrimWorkingSet ==> r@[k] == (ProcessAction::TrimWorkingSet {
            pid: targets@[k].0,
        }),
        choice is Suspend ==> r@[k] == (ProcessAction::Suspend { pid: targets@[k].0 }),
        choice is Resume ==> r@[k] == (ProcessAction::Resume { pid: targets@[k].0 }),
        choice is Terminate ==> r@[k] == (ProcessAction::RequestTerminate {
            pid: targets@[k].0,
            exe_name: targets@[k].1,
        }),
        choice matches MenuChoice::Affinity(chosen) ==> {
            &&& r@[k] is SetAffinity
            &&& r@[k]->SetAffinity_pid == targets@[k].0
            &&& r@[k]->SetAffinity_selector == chosen
            &&& r@[k]->SetAffinity_save_as_rule_for is Some <==> remember
            &&& remember ==> r@[k]->SetAffinity_save_as_rule_for->0 == targets@[k].1
        },
{
    assert(r@ =~= targets@.map_values(
        |t: (u32, String)| process_menu::repeated(choice, remember, t),
    ));
}

/// A choice that is about one thing becomes one action, about the process that
/// the menu is on.
pub proof fn single_choices_are_about_their_process(
    choice: MenuChoice,
    p: &ProcessSnapshot,
    targets: &[(u32, String)],
    remember: bool,
    r: Vec<ProcessAction>,
)
    requires
        call_ensures(process_menu::choose_entry, (choice, p, targets, remember), r),
    ensures
        choice matches MenuChoice::ApplyProfile(profile) ==> r@.len() == 1 && r@[0] == (
        ProcessAction::ApplyProfileForeground { profile }),
        choice is CustomAffinity ==> r@.len() == 1 && r@[0] == (
        ProcessAction::RequestAffinityPicker { pid: p.pid, exe_name: p.exe_name }),
        choice is ShowInExplorer ==> r@.len() == 1 && r@[0] == (ProcessAction::ShowInExplorer {
            path: p.exe_path,
        }),
        choice is SuspendTree ==> r@.len() == 1 && r@[0] == (ProcessAction::SuspendTree {
            root_pid: p.pid,
        }),
        choice is CopyPid ==> r@.len() == 1 && r@[0] is CopyToClipboard
            && crate::text_laws::value_of(r@[0]->text@, 10) == p.pid,
        choice is CopyExeName ==> r@.len() == 1 && r@[0] is CopyToClipboard && r@[0]->text@
            == p.exe_name@,
        choice is CopyPath ==> r@.len() == 1 && r@[0] is CopyToClipboard && r@[0]->text@
            == p.exe_path@,
{
    crate::text_laws::numerals_count_for_their_number(p.pid as nat, 10);
    if choice is ApplyProfile || choice is CustomAffinity || choice is ShowInExplorer
        || choice is SuspendTree {
        assert(r@.len() == 1);
        assert(r@[0] == r@[0]);
    }
}

/// Creating rules from a menu names the profile in each, one rule for each
/// executable among the targets and none for any other.
pub proof fn menus_create_a_rule_per_executable(
    profile: String,
    p: &ProcessSnapshot,
    targets: &[(u32, String)],
    remember: bool,
    r: Vec<ProcessAction>,
)
    requires
        call_ensures(
            process_menu::choose_entry,
            (MenuChoice::CreateRule(profile), p, targets, remember),
            r,
        ),
    ensures
        forall|k: int|
            0 <= k < r@.len() ==> (#[trigger] r@[k]) is CreateRule && r@[k]->CreateRule_profile
                == profile,
        forall|i: int|
            0 <= i < targets@.len() ==> exists|k: int|
                0 <= k < r@.len() && text::lower((#[trigger] r@[k])->CreateRule_exe_name@)
                    == text::lower((#[trigger] targets@[i]).1@),
        forall|j: int, k: int|
            0 <= j < k < r@.len() ==> text::lower((#[trigger] r@[j])->CreateRule_exe_name@)
                != text::lower((#[trigger] r@[k])->CreateRule_exe_name@),
{
    let once = process_menu::one_per_exe(targets@);
    let choice = MenuChoice::CreateRule(profile);
    assert(r@ =~= once.map_values(|t: (u32, String)| process_menu::repeated(choice, remember, t)));
    process_menu::rules_are_created_once_per_exe(targets@, Seq::empty());
    assert forall|i: int| 0 <= i < targets@.len() implies exists|k: int|
        0 <= k < r@.len() && text::lower((#[trigger] r@[k])->CreateRule_exe_name@) == text::lower(
            (#[trigger] targets@[i]).1@,
        ) by {
        process_menu::rules_are_created_once_per_exe(targets@, targets@[i].1@);
        assert(process_menu::names_exe(targets@, targets@[i].1@));
        let k = choose|k: int|
            0 <= k < once.len() && text::lower((#[trigger] once[k]).1@) == text::lower(
                targets@[i].1@,
            );
        assert(r@[k]->CreateRule_exe_name == once[k].1);
    }
    assert forall|j: int, k: int| 0 <= j < k < r@.len() implies text::lower(
        (#[trigger] r@[j])->CreateRule_exe_name@,
    ) != text::lower((#[trigger] r@[k])->CreateRule_exe_name@) by {
        assert(r@[j]->CreateRule_exe_name == once[j].1);
        assert(r@[k]->CreateRule_exe_name == once[k].1);
    }
}

/// A target more is a rule more, behind the others and by its own name, unless
/// its executable was among the targets before; without targets there is none.
pub proof fn further_targets_create_further_rules(
    profile: String,
    p: &ProcessSnapshot,
    fewer: &[(u32, String)],
    more: &[(u32, String)],
    t: (u32, String),
    remember: bool,
    a: Vec<ProcessAction>,
    b: Vec<ProcessAction>,
)
    requires
        call_ensures(
            process_menu::choose_entry,
            (MenuChoice::CreateRule(profile), p, fewer, remember),
            a,
        ),
        call_ensures(
            process_menu::choose_entry,
            (MenuChoice::CreateRule(profile), p, more, remember),
            b,
        ),
        more@ == fewer@.push(t),
    ensures
        ({
            let known = exists|i: int|
                0 <= i < fewer@.len() && text::lower((#[trigger] fewer@[i]).1@) == text::lower(
                    t.1@,
                );
            &&& known ==> b@ == a@
            &&& !known ==> b@ == a@.push(ProcessAction::CreateRule { exe_name: t.1, profile })
        }),
        fewer@.len() == 0 ==> a@.len() == 0,
{
    let choice = MenuChoice::CreateRule(profile);
    let f = |t: (u32, String)| process_menu::repeated(choice, remember, t);
    let before = process_menu::one_per_exe(fewer@);
    assert(more@.drop_last() =~= fewer@);
    assert(a@ =~= before.map_values(f));
    assert(b@ =~= process_menu::one_per_exe(more@).map_values(f));
    if process_menu::names_exe(fewer@, t.1@) {
        assert(b@ =~= a@);
    } else {
        assert(before.push(t).map_values(f) =~= before.map_values(f).push(f(t)));
        assert(b@ =~= a@.push(f(t)));
    }
}

/// What can be done to one process only is never offered for several, and what
/// needs a path or children is never offered without; everything else always
/// is.
pub proof fn menus_offer_what_can_be_done(
    choice: &MenuChoice,
    several: bool,
    has_path: bool,
    has_children: bool,
    r: bool,
)
    requires
        call_ensures(process_menu::offers, (choice, several, has_path, has_children), r),
    ensures
        choice is SuspendTree ==> (r <==> has_children && !several),
        choice is ShowInExplorer || choice is CopyPath ==> (r <==> has_path && !several),
        choice is CopyPid || choice is CopyExeName ==> (r <==> !several),
        choice is Priority || choice is ApplyProfile || choice is CreateRule || choice is Affinity
            || choice is CustomAffinity || choice is TrimWorkingSet || choice is Suspend
            || choice is Resume || choice is Terminate ==> r,
{
}

/// The focused process is the one that the status names.
pub proof fn the_focused_process_is_the_foreground(
    status: Option<&StatusSnapshot>,
    r: Option<u32>,
    pid: u32,
)
    requires
        call_ensures(process_menu::foreground_pid, (status,), r),
    ensures
        r == Some(pid) <==> status is Some && status->0.foreground is Some
            && status->0.foreground->0.pid == pid,
{
}

// ── Dialogs ─────────────────────────────────────────────────────────────────

/// The kill dialog kills its own process when confirmed, and nothing otherwise.
pub proof fn confirming_kills_the_named_process(
    dialog: &TerminateConfirm,
    confirmed: bool,
    r: Option<AdminCall>,
)
    requires
        call_ensures(TerminateConfirm::resolve, (dialog, confirmed), r),
    ensures
        !confirmed ==> r is None,
        confirmed ==> r is Some && r->0.request == (Request::TerminateProcess {
            pid: dialog.pid,
        }) && r->0.label@ == "terminate process"@,
{
}

/// Answering the open dialog settles it and nothing else: what waited behind it
/// comes up in order, and a kill is of the process that was shown.
pub proof fn answers_settle_the_shown_dialog(
    queue: &mut TerminateQueue,
    confirmed: bool,
    r: Option<AdminCall>,
)
    requires
        call_ensures(TerminateQueue::answer, (queue, confirmed), r),
    ensures
        old(queue).waiting@.len() == 0 ==> r is None && final(queue).waiting@.len() == 0,
        old(queue).waiting@.len() > 0 ==> {
            &&& final(queue).waiting@.len() + 1 == old(queue).waiting@.len()
            &&& forall|k: int|
                0 <= k < final(queue).waiting@.len() ==> #[trigger] final(queue).waiting@[k]
                    == old(queue).waiting@[k + 1]
            &&& r is Some <==> confirmed
            &&& confirmed ==> r->0.request == (Request::TerminateProcess {
                pid: old(queue).waiting@[0].pid,
            }) && r->0.label@ == "terminate process"@
        },
{
}

/// A request opens its own dialogs and forgets those of an earlier one.
pub proof fn a_new_request_replaces_the_dialogs(
    queue: &mut TerminateQueue,
    asked: Vec<TerminateConfirm>,
)
    requires
        call_ensures(TerminateQueue::ask, (queue, asked), ()),
    ensures
        asked@.len() > 0 ==> final(queue).waiting@ == asked@,
        asked@.len() == 0 ==> final(queue).waiting@ == old(queue).waiting@,
{
}

/// The mask dialog applies its own mask: as a rule for its executable where it
/// is to be saved, else to its process alone. Removing names its executable,
/// and cancelling asks for nothing.
pub proof fn the_mask_dialog_asks_for_its_mask(
    dialog: &AffinityPicker,
    click: PickerClick,
    r: Option<AdminCall>,
)
    requires
        call_ensures(AffinityPicker::resolve, (dialog, click), r),
    ensures
        r is None <==> click == PickerClick::Cancel,
        click == PickerClick::RemoveRule ==> r->0.request == (Request::DeleteAffinityRule {
            exe_name: dialog.exe_name,
        }) && r->0.label@ == "delete affinity rule"@,
        click == PickerClick::Apply && dialog.save_as_rule ==> r->0.label@
            == "save affinity rule"@,
        click == PickerClick::Apply && !dialog.save_as_rule ==> r->0.label@ == "set affinity"@,
        click == PickerClick::Apply && dialog.save_as_rule ==> is_rule_request(
            r->0.request,
            dialog.exe_name@,
            CpuSelector::Mask(dialog.mask),
        ),
        click == PickerClick::Apply && !dialog.save_as_rule ==> r->0.request == (
        Request::SetProcessAffinity { pid: dialog.pid, selector: CpuSelector::Mask(dialog.mask) }),
{
}

/// The priority menus name every class once, from the highest to the lowest.
pub proof fn priorities_are_listed_from_the_highest(
    r: Vec<(&'static str, PriorityClass)>,
    class: PriorityClass,
)
    requires
        call_ensures(process_actions::list_priority_choices, (), r),
    ensures
        r@.len() == 5,
        r@[0].1 == PriorityClass::High,
        r@[1].1 == PriorityClass::AboveNormal,
        r@[2].1 == PriorityClass::Normal,
        r@[3].1 == PriorityClass::BelowNormal,
        r@[4].1 == PriorityClass::Idle,
        r@[0].0@ == "High"@,
        r@[1].0@ == "Above Normal"@,
        r@[2].0@ == "Normal"@,
        r@[3].0@ == "Below Normal"@,
        r@[4].0@ == "Idle (lowest)"@,
{
    let view = r@.map_values(|c: (&'static str, PriorityClass)| (c.0@, c.1));
    assert(view.len() == 5);
    assert(view[0].0 == r@[0].0@ && view[1].0 == r@[1].0@ && view[2].0 == r@[2].0@ && view[3].0
        == r@[3].0@ && view[4].0 == r@[4].0@);
    assert(view[0].1 == r@[0].1 && view[1].1 == r@[1].1 && view[2].1 == r@[2].1 && view[3].1
        == r@[3].1 && view[4].1 == r@[4].1);
}

} // verus!
