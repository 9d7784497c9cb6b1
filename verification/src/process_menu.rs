//! The menus of the Processes tab: which processes a choice is about, what is
//! offered, and the actions that a choice stands for.

use std::collections::HashSet;
use vstd::prelude::*;

use crate::ipc::{ProcessSnapshot, StatusSnapshot};
use crate::policy::{self, CpuSelector, PriorityClass};
use crate::process_actions::ProcessAction;
use crate::text;

verus! {

broadcast use vstd::std_specs::hash::group_hash_axioms;

/// An entry of the menu on a process.
#[derive(Debug, PartialEq, Eq)]
pub enum MenuChoice {
    Priority(PriorityClass),
    ApplyProfile(String),
    CreateRule(String),
    Affinity(CpuSelector),
    CustomAffinity,
    ShowInExplorer,
    CopyPid,
    CopyExeName,
    CopyPath,
    SuspendTree,
    TrimWorkingSet,
    Suspend,
    Resume,
    Terminate,
}

// ── Targets ─────────────────────────────────────────────────────────────────

/// The pid and name of a process.
pub open spec fn target_of(p: ProcessSnapshot) -> (u32, String) {
    (p.pid, p.exe_name)
}

/// The processes that a menu acts on: the whole selection if the process is
/// part of one, else the process alone.
pub open spec fn menu_targets(
    rows: Seq<ProcessSnapshot>,
    selected: Set<u32>,
    p: ProcessSnapshot,
) -> Seq<(u32, String)> {
    if selected.contains(p.pid) && selected.len() > 1 {
        rows.filter(|q: ProcessSnapshot| selected.contains(q.pid)).map_values(
            |q: ProcessSnapshot| target_of(q),
        )
    } else {
        seq![target_of(p)]
    }
}

/// Finds the processes that a menu acts on.
pub fn targets(rows: &[ProcessSnapshot], selected: &HashSet<u32>, p: &ProcessSnapshot) -> (r: Vec<
    (u32, String),
>)
    ensures
        r@ == menu_targets(rows@, selected@, *p),
{
    let mut out: Vec<(u32, String)> = Vec::new();
    if selected.contains(&p.pid) && selected.len() > 1 {
        let ghost chosen = |q: ProcessSnapshot| selected@.contains(q.pid);
        let ghost name = |q: ProcessSnapshot| target_of(q);
        proof {
            reveal(Seq::filter);
            assert(rows@.take(0) =~= Seq::empty());
            assert(out@ =~= rows@.take(0).filter(chosen).map_values(name));
        }
        for i in 0..rows.len()
            invariant
                chosen == |q: ProcessSnapshot| selected@.contains(q.pid),
                name == |q: ProcessSnapshot| target_of(q),
                out@ == rows@.take(i as int).filter(chosen).map_values(name),
        {
            let q = &rows[i];
            let ghost before = out@;
            let ghost kept = rows@.take(i as int).filter(chosen);
            proof {
                reveal(Seq::filter);
                assert(rows@.take(i + 1).drop_last() =~= rows@.take(i as int));
                assert(rows@.take(i + 1).last() == *q);
            }
            if selected.contains(&q.pid) {
                out.push((q.pid, q.exe_name.clone()));
                assert(kept.push(*q).map_values(name) =~= kept.map_values(name).push(name(*q)));
            }
        }
        assert(rows@.take(rows@.len() as int) =~= rows@);
    } else {
        out.push((p.pid, p.exe_name.clone()));
    }
    out
}

/// After a right click the menu on a process outside the selection acts on it
/// alone, and nothing stays selected for a later menu.
pub proof fn right_click_outside_acts_alone(
    rows: Seq<ProcessSnapshot>,
    selected: Set<u32>,
    p: ProcessSnapshot,
)
    requires
        !selected.contains(p.pid),
    ensures
        menu_targets(rows, crate::processes::right_click_set(selected, p.pid), p) == seq![target_of(p)],
        crate::processes::right_click_set(selected, p.pid) == Set::<u32>::empty(),
{
}

// ── Offers ──────────────────────────────────────────────────────────────────

/// Whether the menu offers an entry. What concerns one process is not offered
/// for several; what needs a path is not offered without one; only a process
/// with children has a tree to suspend.
pub open spec fn is_offered(
    choice: MenuChoice,
    several: bool,
    has_path: bool,
    has_children: bool,
) -> bool {
    match choice {
        MenuChoice::ShowInExplorer | MenuChoice::CopyPath => !several && has_path,
        MenuChoice::CopyPid | MenuChoice::CopyExeName => !several,
        MenuChoice::SuspendTree => !several && has_children,
        _ => true,
    }
}

/// Decides whether the menu offers an entry.
pub fn offers(choice: &MenuChoice, several: bool, has_path: bool, has_children: bool) -> (r: bool)
    ensures
        r == is_offered(*choice, several, has_path, has_children),
{
    match choice {
        MenuChoice::ShowInExplorer | MenuChoice::CopyPath => !several && has_path,
        MenuChoice::CopyPid | MenuChoice::CopyExeName => !several,
        MenuChoice::SuspendTree => !several && has_children,
        _ => true,
    }
}

/// The ids in the profile menus, in dictionary order; none before the first
/// status.
pub fn menu_profiles(status: Option<&StatusSnapshot>) -> (r: Vec<String>)
    ensures
        text::texts(r@) == (match status {
            Some(s) => policy::sorted_ids(s.policy@.profiles),
            None => Seq::empty(),
        }),
{
    match status {
        Some(s) => s.policy.profile_ids(),
        None => {
            let out: Vec<String> = Vec::new();
            assert(text::texts(out@) =~= Seq::empty());
            out
        },
    }
}

/// The focused process.
pub fn foreground_pid(status: Option<&StatusSnapshot>) -> (r: Option<u32>)
    ensures
        r == (match status {
            Some(s) => match s.foreground {
                Some(f) => Some(f.pid),
                None => None,
            },
            None => None,
        }),
{
    match status {
        Some(s) => match &s.foreground {
            Some(f) => Some(f.pid),
            None => None,
        },
        None => None,
    }
}

// ── Actions ─────────────────────────────────────────────────────────────────

/// Whether some target has this name, up to case.
pub open spec fn names_exe(targets: Seq<(u32, String)>, exe: Seq<char>) -> bool {
    exists|i: int|
        0 <= i < targets.len() && text::lower((#[trigger] targets[i]).1@) == text::lower(exe)
}

/// The targets without those whose name came before.
pub open spec fn one_per_exe(targets: Seq<(u32, String)>) -> Seq<(u32, String)>
    decreases targets.len(),
{
    if targets.len() == 0 {
        Seq::empty()
    } else {
        let before = one_per_exe(targets.drop_last());
        if names_exe(targets.drop_last(), targets.last().1@) {
            before
        } else {
            before.push(targets.last())
        }
    }
}

/// Whether the only action is to copy a text.
pub open spec fn only_copies(actions: Seq<ProcessAction>, text: Seq<char>) -> bool {
    &&& actions.len() == 1
    &&& actions[0] matches ProcessAction::CopyToClipboard { text: t }
    &&& t@ == text
}

/// The action that is repeated for every target.
pub open spec fn repeated(choice: MenuChoice, remember: bool, t: (u32, String)) -> ProcessAction {
    match choice {
        MenuChoice::Priority(class) => ProcessAction::SetPriority { pid: t.0, class },
        MenuChoice::CreateRule(profile) => ProcessAction::CreateRule { exe_name: t.1, profile },
        MenuChoice::Affinity(selector) => ProcessAction::SetAffinity {
            pid: t.0,
            selector,
            save_as_rule_for: if remember {
                Some(t.1)
            } else {
                None
            },
        },
        MenuChoice::TrimWorkingSet => ProcessAction::TrimWorkingSet { pid: t.0 },
        MenuChoice::Suspend => ProcessAction::Suspend { pid: t.0 },
        MenuChoice::Resume => ProcessAction::Resume { pid: t.0 },
        _ => ProcessAction::RequestTerminate { pid: t.0, exe_name: t.1 },
    }
}

/// Whether these are the actions of a choice on the process `p`, whose menu
/// acts on `targets`. A rule is created once per executable; a profile is
/// applied to the foreground, whatever is selected; a custom mask, a copy, and
/// a tree concern `p` alone.
pub open spec fn are_actions(
    actions: Seq<ProcessAction>,
    choice: MenuChoice,
    p: ProcessSnapshot,
    targets: Seq<(u32, String)>,
    remember: bool,
) -> bool {
    match choice {
        MenuChoice::ApplyProfile(profile) => actions =~= seq![
            ProcessAction::ApplyProfileForeground { profile },
        ],
        MenuChoice::CustomAffinity => actions =~= seq![
            ProcessAction::RequestAffinityPicker { pid: p.pid, exe_name: p.exe_name },
        ],
        MenuChoice::ShowInExplorer => actions =~= seq![
            ProcessAction::ShowInExplorer { path: p.exe_path },
        ],
        MenuChoice::CopyPid => only_copies(actions, text::decimal(p.pid as nat)),
        MenuChoice::CopyExeName => only_copies(actions, p.exe_name@),
        MenuChoice::CopyPath => only_copies(actions, p.exe_path@),
        MenuChoice::SuspendTree => actions =~= seq![
            ProcessAction::SuspendTree { root_pid: p.pid },
        ],
        MenuChoice::CreateRule(_) => actions =~= one_per_exe(targets).map_values(
            |t: (u32, String)| repeated(choice, remember, t),
        ),
        _ => actions =~= targets.map_values(|t: (u32, String)| repeated(choice, remember, t)),
    }
}

fn repeat(choice: &MenuChoice, remember: bool, targets: &[(u32, String)]) -> (r: Vec<
    ProcessAction,
>)
    requires
        choice is Priority || choice is CreateRule || choice is Affinity || choice is TrimWorkingSet
            || choice is Suspend || choice is Resume || choice is Terminate,
    ensures
        r@ == targets@.map_values(|t: (u32, String)| repeated(*choice, remember, t)),
{
    let mut out: Vec<ProcessAction> = Vec::new();
    let ghost f = |t: (u32, String)| repeated(*choice, remember, t);
    for i in 0..targets.len()
        invariant
            choice is Priority || choice is CreateRule || choice is Affinity
                || choice is TrimWorkingSet || choice is Suspend || choice is Resume
                || choice is Terminate,
            f == |t: (u32, String)| repeated(*choice, remember, t),
            out@ == targets@.take(i as int).map_values(f),
    {
        let pid = targets[i].0;
        let exe: &String = &targets[i].1;
        let action = match choice {
            MenuChoice::Priority(class) => ProcessAction::SetPriority { pid, class: *class },
            MenuChoice::CreateRule(profile) => ProcessAction::CreateRule {
                exe_name: exe.clone(),
                profile: profile.clone(),
            },
            MenuChoice::Affinity(selector) => ProcessAction::SetAffinity {
                pid,
                selector: *selector,
                save_as_rule_for: if remember {
                    Some(exe.clone())
                } else {
                    None
                },
            },
            MenuChoice::TrimWorkingSet => ProcessAction::TrimWorkingSet { pid },
            MenuChoice::Suspend => ProcessAction::Suspend { pid },
            MenuChoice::Resume => ProcessAction::Resume { pid },
            _ => ProcessAction::RequestTerminate { pid, exe_name: exe.clone() },
        };
        assert(action == f(targets@[i as int]));
        out.push(action);
        assert(targets@.take(i + 1).map_values(f) =~= targets@.take(i as int).map_values(f).push(
            f(targets@[i as int]),
        ));
    }
    assert(targets@.take(targets@.len() as int) =~= targets@);
    out
}

/// Drops the targets whose name came before.
fn drop_same_exe(targets: &[(u32, String)]) -> (r: Vec<(u32, String)>)
    ensures
        r@ == one_per_exe(targets@),
{
    let mut out: Vec<(u32, String)> = Vec::new();
    assert(targets@.take(0) =~= Seq::empty());
    for i in 0..targets.len()
        invariant
            out@ == one_per_exe(targets@.take(i as int)),
    {
        let ghost before = targets@.take(i as int);
        assert(targets@.take(i + 1).drop_last() =~= before);
        let mut seen: bool = false;
        for j in 0..i
            invariant
                i < targets@.len(),
                before == targets@.take(i as int),
                seen <==> exists|k: int|
                    0 <= k < j && text::lower((#[trigger] before[k]).1@) == text::lower(
                        targets@[i as int].1@,
                    ),
        {
            assert(before[j as int] == targets@[j as int]);
            if text::same_ignoring_case(targets[j].1.as_str(), targets[i].1.as_str()) {
                seen = true;
            }
        }
        if !seen {
            out.push((targets[i].0, targets[i].1.clone()));
        }
    }
    assert(targets@.take(targets@.len() as int) =~= targets@);
    out
}

/// The actions of a choice on the process `p`.
pub fn choose_entry(
    choice: MenuChoice,
    p: &ProcessSnapshot,
    targets: &[(u32, String)],
    remember: bool,
) -> (r: Vec<ProcessAction>)
    ensures
        are_actions(r@, choice, *p, targets@, remember),
{
    let mut out: Vec<ProcessAction> = Vec::new();
    match choice {
        MenuChoice::ApplyProfile(profile) => {
            out.push(ProcessAction::ApplyProfileForeground { profile });
        },
        MenuChoice::CustomAffinity => {
            out.push(
                ProcessAction::RequestAffinityPicker { pid: p.pid, exe_name: p.exe_name.clone() },
            );
        },
        MenuChoice::ShowInExplorer => {
            out.push(ProcessAction::ShowInExplorer { path: p.exe_path.clone() });
        },
        MenuChoice::CopyPid => {
            out.push(ProcessAction::CopyToClipboard { text: text::format_decimal(p.pid as u64) });
        },
        MenuChoice::CopyExeName => {
            out.push(ProcessAction::CopyToClipboard { text: p.exe_name.clone() });
        },
        MenuChoice::CopyPath => {
            out.push(ProcessAction::CopyToClipboard { text: p.exe_path.clone() });
        },
        MenuChoice::SuspendTree => {
            out.push(ProcessAction::SuspendTree { root_pid: p.pid });
        },
        MenuChoice::CreateRule(profile) => {
            let once = drop_same_exe(targets);
            out = repeat(&MenuChoice::CreateRule(profile), remember, once.as_slice());
        },
        other => {
            out = repeat(&other, remember, targets);
        },
    }
    out
}

/// A menu for several processes creates one rule per executable: each name
/// among the targets is named by exactly one of them.
pub proof fn rules_are_created_once_per_exe(targets: Seq<(u32, String)>, exe: Seq<char>)
    ensures
        names_exe(targets, exe) == names_exe(one_per_exe(targets), exe),
        forall|i: int, j: int|
            0 <= i < j < one_per_exe(targets).len() ==> text::lower(
                (#[trigger] one_per_exe(targets)[i]).1@,
            ) != text::lower((#[trigger] one_per_exe(targets)[j]).1@),
    decreases targets.len(),
{
    if targets.len() > 0 {
        let shorter = targets.drop_last();
        let last = targets.last();
        let before = one_per_exe(shorter);
        rules_are_created_once_per_exe(shorter, exe);
        rules_are_created_once_per_exe(shorter, last.1@);
        let all = one_per_exe(targets);
        if names_exe(shorter, exe) {
            let i = choose|i: int|
                0 <= i < shorter.len() && text::lower((#[trigger] shorter[i]).1@) == text::lower(
                    exe,
                );
            assert(targets[i] == shorter[i]);
            assert(names_exe(targets, exe));
            let k = choose|k: int|
                0 <= k < before.len() && text::lower((#[trigger] before[k]).1@) == text::lower(exe);
            assert(all[k] == before[k]);
            assert(names_exe(all, exe));
        } else if text::lower(last.1@) == text::lower(exe) {
            assert(targets[targets.len() - 1] == last);
            assert(names_exe(targets, exe));
            if names_exe(shorter, last.1@) {
                let i = choose|i: int|
                    0 <= i < shorter.len() && text::lower((#[trigger] shorter[i]).1@)
                        == text::lower(last.1@);
                assert(names_exe(shorter, exe));
            }
            assert(all[all.len() - 1] == last);
            assert(names_exe(all, exe));
        } else {
            if names_exe(targets, exe) {
                let i = choose|i: int|
                    0 <= i < targets.len() && text::lower((#[trigger] targets[i]).1@)
                        == text::lower(exe);
                assert(shorter[i] == targets[i]);
            }
            if names_exe(all, exe) {
                let k = choose|k: int|
                    0 <= k < all.len() && text::lower((#[trigger] all[k]).1@) == text::lower(exe);
                assert(before[k] == all[k]);
            }
        }
        if !names_exe(shorter, last.1@) {
            assert forall|i: int, j: int| 0 <= i < j < all.len() implies text::lower(
                (#[trigger] all[i]).1@,
            ) != text::lower((#[trigger] all[j]).1@) by {
                assert(all[i] == before[i]);
                if j < before.len() {
                    assert(all[j] == before[j]);
                } else if text::lower(before[i].1@) == text::lower(last.1@) {
                    assert(names_exe(before, last.1@));
                }
            }
        }
    }
}

// ── Labels ──────────────────────────────────────────────────────────────────

/// The title of the menu.
pub open spec fn title_text(p: ProcessSnapshot, count: nat) -> Seq<char> {
    if count > 1 {
        text::decimal(count) + " processes selected"@
    } else {
        p.exe_name@ + " (pid "@ + text::decimal(p.pid as nat) + ")"@
    }
}

/// The title of the menu on `p`, which acts on `count` processes.
pub fn title(p: &ProcessSnapshot, count: usize) -> (r: String)
    ensures
        r@ == title_text(*p, count as nat),
{
    if count > 1 {
        let mut out = text::format_decimal(count as u64);
        out.append(" processes selected");
        out
    } else {
        let mut out = p.exe_name.clone();
        out.append(" (pid ");
        let pid = text::format_decimal(p.pid as u64);
        out.append(pid.as_str());
        out.append(")");
        out
    }
}

/// Whether the text of an entry names the number of processes.
pub open spec fn counts(choice: MenuChoice) -> bool {
    choice is TrimWorkingSet || choice is Suspend || choice is Resume || choice is Terminate
}

/// The text of an entry that names its number of processes.
pub open spec fn entry_text(choice: MenuChoice, count: nat) -> Seq<char> {
    match choice {
        MenuChoice::TrimWorkingSet => if count > 1 {
            "Trim working set on "@ + text::decimal(count) + " processes"@
        } else {
            "Trim working set"@
        },
        MenuChoice::Suspend => if count > 1 {
            "Suspend "@ + text::decimal(count) + " processes"@
        } else {
            "Suspend process"@
        },
        MenuChoice::Resume => if count > 1 {
            "Resume "@ + text::decimal(count) + " processes"@
        } else {
            "Resume process"@
        },
        _ => if count > 1 {
            "Terminate "@ + text::decimal(count) + " processes…"@
        } else {
            "Terminate process…"@
        },
    }
}

fn with_count(before: &str, count: usize, after: &str) -> (r: String)
    ensures
        r@ == before@ + text::decimal(count as nat) + after@,
{
    let mut out = before.to_owned();
    let digits = text::format_decimal(count as u64);
    out.append(digits.as_str());
    out.append(after);
    out
}

/// The text of an entry that names its number of processes.
pub fn entry_label(choice: &MenuChoice, count: usize) -> (r: String)
    requires
        counts(*choice),
    ensures
        r@ == entry_text(*choice, count as nat),
{
    match choice {
        MenuChoice::TrimWorkingSet => if count > 1 {
            with_count("Trim working set on ", count, " processes")
        } else {
            "Trim working set".to_owned()
        },
        MenuChoice::Suspend => if count > 1 {
            with_count("Suspend ", count, " processes")
        } else {
            "Suspend process".to_owned()
        },
        MenuChoice::Resume => if count > 1 {
            with_count("Resume ", count, " processes")
        } else {
            "Resume process".to_owned()
        },
        _ => if count > 1 {
            with_count("Terminate ", count, " processes…")
        } else {
            "Terminate process…".to_owned()
        },
    }
}

} // verus!
