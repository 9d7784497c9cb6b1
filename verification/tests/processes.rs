use std::collections::HashSet;

use framesage_tray::ipc::{ForegroundSnapshot, ProcessSnapshot, Request, StatusSnapshot};
use framesage_tray::policy::{
    AffinityRule, AppMatch, AppRule, CoreKind, CpuSelector, Policy, PriorityClass, Profile,
};
use framesage_tray::process_actions::{
    dispatch, list_priority_choices, Effect, ProcessAction, TerminateConfirm,
    TerminateQueue,
};
use framesage_tray::process_cells::{
    affinity_cell, affinity_hover, branch_glyph, detail, exe_label, memory_hover, needs_hover,
    pinned, profile_cell, status_cell, user_tone, NARROW_CELL_BYTES, WIDE_CELL_BYTES,
};
use framesage_tray::process_menu::{
    choose_entry, entry_label, foreground_pid, menu_profiles, offers, targets, title, MenuChoice,
};
use framesage_tray::processes::{find_process, totals, ProcessesView};
use framesage_tray::theme::Tone;
use framesage_tray::tree::{ProcessSortKey, RowState};

fn process(pid: u32, parent_pid: u32, exe: &str, cpu: u16) -> ProcessSnapshot {
    ProcessSnapshot {
        pid,
        parent_pid,
        exe_name: exe.into(),
        exe_path: format!("C:\\apps\\{exe}"),
        description: None,
        company: None,
        user: None,
        priority_class_raw: 0x20,
        affinity_mask: 0xff,
        cpu_percent: cpu,
        memory_bytes: 2_097_152,
        peak_working_set_bytes: 0,
        private_bytes: 0,
        threads: 3,
        matched_rule_note: None,
        managed_profile: None,
        restrained_by_probalance: false,
    }
}

fn rows() -> Vec<ProcessSnapshot> {
    vec![
        process(10, 0, "steam.exe", 5),
        process(11, 10, "steamwebhelper.exe", 9),
        process(12, 10, "SteamWebHelper.exe", 1),
        process(20, 0, "bf6.exe", 80),
    ]
}

fn view() -> ProcessesView {
    let mut v = ProcessesView::default();
    v.refresh(&rows());
    v
}

fn status(policy: Policy) -> StatusSnapshot {
    StatusSnapshot {
        paused: false,
        policy,
        foreground: Some(ForegroundSnapshot {
            pid: 20,
            exe_name: "bf6.exe".into(),
            path: String::new(),
            title: String::new(),
        }),
        active_profile: None,
        manual_override: None,
        manual_global_active: None,
        closed_loop_build_supported: true,
    }
}

fn pids(v: &ProcessesView) -> Vec<u32> {
    v.table().unwrap().visible.iter().map(|r| r.pid).collect()
}

#[test]
fn the_table_starts_as_a_tree_of_the_busiest() {
    let v = view();
    assert_eq!(pids(&v), vec![20, 10, 11, 12]);
    let t = v.table().unwrap();
    assert_eq!(t.rows, rows());
    assert_eq!(t.visible[1].depth, 0);
    assert!(t.visible[1].has_children);
    assert_eq!(t.visible[2].depth, 1);
}

#[test]
fn a_filter_makes_the_table_flat() {
    let mut v = view();
    v.filter = "WEBHELPER".into();
    assert_eq!(pids(&v), vec![11, 12]);
    let t = v.table().unwrap();
    assert_eq!(t.visible[0].depth, 0);
    assert!(!t.visible[0].has_children);
    v.click_tree();
    assert!(v.tree_mode);
    v.filter = "  webhelper ".into();
    assert_eq!(pids(&v), vec![11, 12]);
    v.clear_filter();
    v.click_tree();
    assert!(!v.tree_mode);
    assert_eq!(pids(&v), vec![20, 11, 10, 12]);
}

#[test]
fn headers_turn_around_on_the_second_click() {
    let mut v = view();
    v.click_tree();
    assert_eq!(v.header_text("CPU %", ProcessSortKey::Cpu), "CPU % v");
    v.click_header(ProcessSortKey::Cpu);
    assert_eq!(v.header_text("CPU %", ProcessSortKey::Cpu), "CPU % ^");
    assert_eq!(pids(&v), vec![12, 10, 11, 20]);
    v.click_header(ProcessSortKey::Pid);
    assert_eq!(v.header_text("PID", ProcessSortKey::Pid), "PID ^");
    assert_eq!(v.header_text("CPU %", ProcessSortKey::Cpu), "CPU %");
    v.click_header(ProcessSortKey::Memory);
    assert_eq!(v.header_text("Memory", ProcessSortKey::Memory), "Memory v");
    // All have the same memory, so the list order stands.
    assert_eq!(pids(&v), vec![10, 11, 12, 20]);
}

#[test]
fn branches_collapse_and_open_again() {
    let mut v = view();
    v.toggle_collapsed(10);
    assert_eq!(pids(&v), vec![20, 10]);
    v.toggle_collapsed(10);
    assert_eq!(pids(&v), vec![20, 10, 11, 12]);
    v.toggle_collapsed(10);
    v.click_tree();
    v.click_tree();
    assert!(v.collapsed.is_empty());
    assert_eq!(branch_glyph(true), "+");
    assert_eq!(branch_glyph(false), "-");
}

#[test]
fn an_empty_poll_does_not_blank_the_table() {
    let mut v = view();
    v.refresh(&Vec::new());
    assert_eq!(v.rows.len(), 4);
    v.refresh(&vec![process(1, 0, "a.exe", 0)]);
    assert_eq!(v.rows.len(), 1);
}

#[test]
fn totals_add_up_or_say_so() {
    let mut list = rows();
    list[0].managed_profile = Some("perf".into());
    list[3].restrained_by_probalance = true;
    let t = totals(&list).unwrap();
    assert_eq!(t.cpu, 95);
    assert_eq!(t.memory, 8_388_608);
    assert_eq!(t.threads, 12);
    assert_eq!(t.managed, 1);
    assert_eq!(t.restrained, 1);
    list[0].memory_bytes = u64::MAX;
    assert!(totals(&list).is_none());
    list[0].memory_bytes = 0;
    list[0].threads = u32::MAX;
    assert!(totals(&list).is_none());
}

#[test]
fn clicks_select_as_in_other_process_lists() {
    let mut v = view();
    v.click_tree();
    v.click_header(ProcessSortKey::Pid);
    let shown = v.table().unwrap().visible;
    v.click(11, false, false, &shown);
    assert_eq!(v.selected_pid, Some(11));
    v.click(11, false, false, &shown);
    assert_eq!(v.selected_pid, None);
    assert_eq!(v.last_clicked_pid, Some(11));
    v.click(20, false, true, &shown);
    let between: HashSet<u32> = [11, 12, 20].into_iter().collect();
    assert_eq!(v.multi_selected, between);
    assert_eq!(v.selected_pid, Some(20));
    assert_eq!(v.last_clicked_pid, Some(11));
    v.click(10, false, true, &shown);
    let back: HashSet<u32> = [10, 11].into_iter().collect();
    assert_eq!(v.multi_selected, back);
    v.click(12, true, false, &shown);
    assert!(v.multi_selected.contains(&12));
    v.click(12, true, false, &shown);
    assert_eq!(v.multi_selected, back);
    v.click(99, false, true, &shown);
    assert_eq!(v.multi_selected, back);
    v.click(20, false, false, &shown);
    assert!(v.multi_selected.is_empty());
}

#[test]
fn ranges_follow_what_the_tree_shows() {
    // The list has 1, 3, 2; the tree shows 1, its child 2, then 3.
    let list = vec![
        process(1, 0, "a.exe", 9),
        process(3, 0, "c.exe", 1),
        process(2, 1, "b.exe", 5),
    ];
    let mut v = ProcessesView::default();
    v.refresh(&list);
    assert_eq!(pids(&v), vec![1, 2, 3]);
    let shown = v.table().unwrap().visible;
    v.click(1, false, false, &shown);
    v.click(2, false, true, &shown);
    assert_eq!(v.multi_selected, [1, 2].into_iter().collect::<HashSet<u32>>());
    assert_eq!(v.selected_pid, Some(2));
    assert_eq!(v.last_clicked_pid, Some(1));
    v.toggle_collapsed(1);
    let shown = v.table().unwrap().visible;
    v.click(3, false, true, &shown);
    assert_eq!(v.multi_selected, [1, 3].into_iter().collect::<HashSet<u32>>());
}

#[test]
fn a_right_click_outside_the_selection_clears_it() {
    let mut v = view();
    v.multi_selected = [11, 12].into_iter().collect();
    v.right_click(12);
    assert_eq!(v.multi_selected.len(), 2);
    v.right_click(20);
    assert!(v.multi_selected.is_empty());
    let list = rows();
    assert_eq!(targets(&list, &v.multi_selected, &list[3]), vec![(20, "bf6.exe".to_string())]);
}

#[test]
fn a_range_without_an_anchor_is_one_process() {
    let mut v = view();
    let shown = v.table().unwrap().visible;
    v.click(12, false, true, &shown);
    assert_eq!(v.selected_pid, Some(12));
    assert_eq!(v.last_clicked_pid, Some(12));
    assert!(v.multi_selected.is_empty());
}

#[test]
fn the_detail_panel_closes_with_its_process() {
    let mut v = view();
    let shown = v.table().unwrap().visible;
    v.click(12, false, false, &shown);
    assert_eq!(v.detail_row(&rows()), Some(2));
    assert_eq!(v.detail_row(&rows()[..2]), None);
    assert_eq!(v.selected_pid, None);
    v.click(12, false, false, &shown);
    v.close_detail();
    assert_eq!(v.detail_row(&rows()), None);
    assert_eq!(find_process(&rows(), 20), Some(3));
}

#[test]
fn menus_act_on_the_selection_they_are_part_of() {
    let list = rows();
    let selected: HashSet<u32> = [11, 12].into_iter().collect();
    let both = targets(&list, &selected, &list[2]);
    assert_eq!(
        both,
        vec![
            (11, "steamwebhelper.exe".to_string()),
            (12, "SteamWebHelper.exe".to_string())
        ]
    );
    assert_eq!(targets(&list, &selected, &list[3]), vec![(20, "bf6.exe".to_string())]);
    let single: HashSet<u32> = [11].into_iter().collect();
    assert_eq!(targets(&list, &single, &list[1]).len(), 1);
    assert_eq!(title(&list[2], 2), "2 processes selected");
    assert_eq!(title(&list[3], 1), "bf6.exe (pid 20)");
    assert_eq!(entry_label(&MenuChoice::Suspend, 2), "Suspend 2 processes");
    assert_eq!(entry_label(&MenuChoice::TrimWorkingSet, 1), "Trim working set");
    assert_eq!(entry_label(&MenuChoice::Terminate, 3), "Terminate 3 processes…");
    assert_eq!(entry_label(&MenuChoice::Resume, 1), "Resume process");
}

#[test]
fn menu_choices_become_actions() {
    let list = rows();
    let both = vec![
        (11, "steamwebhelper.exe".to_string()),
        (12, "SteamWebHelper.exe".to_string()),
    ];
    assert_eq!(
        choose_entry(MenuChoice::CreateRule("perf".into()), &list[1], &both, false),
        vec![ProcessAction::CreateRule {
            exe_name: "steamwebhelper.exe".into(),
            profile: "perf".into()
        }]
    );
    assert_eq!(
        choose_entry(MenuChoice::Priority(PriorityClass::High), &list[1], &both, false),
        vec![
            ProcessAction::SetPriority {
                pid: 11,
                class: PriorityClass::High
            },
            ProcessAction::SetPriority {
                pid: 12,
                class: PriorityClass::High
            },
        ]
    );
    let pin = choose_entry(
        MenuChoice::Affinity(CpuSelector::Kind(CoreKind::Cache)),
        &list[1],
        &both[..1],
        true,
    );
    assert_eq!(
        pin,
        vec![ProcessAction::SetAffinity {
            pid: 11,
            selector: CpuSelector::Kind(CoreKind::Cache),
            save_as_rule_for: Some("steamwebhelper.exe".into())
        }]
    );
    assert_eq!(
        choose_entry(MenuChoice::CopyPid, &list[3], &both, false),
        vec![ProcessAction::CopyToClipboard { text: "20".into() }]
    );
    assert_eq!(
        choose_entry(MenuChoice::CopyPath, &list[3], &both, false),
        vec![ProcessAction::CopyToClipboard {
            text: "C:\\apps\\bf6.exe".into()
        }]
    );
    assert_eq!(
        choose_entry(MenuChoice::ApplyProfile("eco".into()), &list[3], &both, false),
        vec![ProcessAction::ApplyProfileForeground { profile: "eco".into() }]
    );
    assert_eq!(
        choose_entry(MenuChoice::Terminate, &list[3], &both, false).len(),
        2
    );
    assert!(!offers(&MenuChoice::CopyPid, true, true, true));
    assert!(!offers(&MenuChoice::ShowInExplorer, false, false, true));
    assert!(!offers(&MenuChoice::SuspendTree, false, true, false));
    assert!(offers(&MenuChoice::SuspendTree, false, true, true));
    assert!(offers(&MenuChoice::Suspend, true, false, false));
}

#[test]
fn menus_list_profiles_in_order() {
    let mut policy = Policy::default();
    policy.put_profile(Profile::new("perf"));
    policy.put_profile(Profile::new("eco"));
    let s = status(policy);
    assert_eq!(menu_profiles(Some(&s)), vec!["eco".to_string(), "perf".to_string()]);
    assert!(menu_profiles(None).is_empty());
    assert_eq!(foreground_pid(Some(&s)), Some(20));
    assert_eq!(foreground_pid(None), None);
    let labels: Vec<&str> = list_priority_choices().iter().map(|c| c.0).collect();
    assert_eq!(
        labels,
        vec!["High", "Above Normal", "Normal", "Below Normal", "Idle (lowest)"]
    );
}

fn sent(effects: &[Effect], i: usize) -> (&Request, &'static str) {
    match &effects[i] {
        Effect::Send(call) => (&call.request, call.label),
        _ => panic!("no request"),
    }
}

#[test]
fn actions_are_sent_to_the_service() {
    let mut draft = None;
    let list = rows();
    let out = dispatch(ProcessAction::Suspend { pid: 7 }, &mut draft, None, &list, 8);
    assert_eq!(out.len(), 1);
    assert_eq!(sent(&out, 0), (&Request::SuspendProcess { pid: 7 }, "suspend process"));
    let out = dispatch(
        ProcessAction::SetAffinity {
            pid: 7,
            selector: CpuSelector::All,
            save_as_rule_for: Some("a.exe".into()),
        },
        &mut draft,
        None,
        &list,
        8,
    );
    assert_eq!(
        sent(&out, 0),
        (
            &Request::DeleteAffinityRule {
                exe_name: "a.exe".into()
            },
            "delete affinity rule (reset)"
        )
    );
    assert_eq!(sent(&out, 1).1, "reset affinity");
    let out = dispatch(
        ProcessAction::SuspendTree { root_pid: 10 },
        &mut draft,
        None,
        &list,
        8,
    );
    let hit: Vec<&Request> = (0..out.len()).map(|i| sent(&out, i).0).collect();
    assert_eq!(
        hit,
        vec![
            &Request::SuspendProcess { pid: 10 },
            &Request::SuspendProcess { pid: 11 },
            &Request::SuspendProcess { pid: 12 },
        ]
    );
    let out = dispatch(
        ProcessAction::SetProBalanceExclusion {
            exe_name: "a.exe".into(),
            exclude: true,
        },
        &mut draft,
        None,
        &list,
        8,
    );
    assert_eq!(
        sent(&out, 0).0,
        &Request::SetProBalanceExclusion {
            exe_name: "a.exe".into(),
            exclude: true
        }
    );
    assert!(draft.is_none());
}

#[test]
fn a_rule_is_created_once() {
    let s = status(Policy::default());
    let mut draft = None;
    let create = || ProcessAction::CreateRule {
        exe_name: "Game.exe".into(),
        profile: "perf".into(),
    };
    let out = dispatch(create(), &mut draft, Some(&s), &[], 8);
    assert_eq!(sent(&out, 0).1, "create rule");
    let rule = AppRule {
        matcher: AppMatch::ExeName("Game.exe".into()),
        profile: "perf".into(),
        note: String::new(),
    };
    assert_eq!(draft.as_ref().unwrap().rules, vec![rule]);
    let again = ProcessAction::CreateRule {
        exe_name: "GAME.EXE".into(),
        profile: "eco".into(),
    };
    let out = dispatch(again, &mut draft, Some(&s), &[], 8);
    assert_eq!(out, vec![Effect::Echo("Rule for GAME.EXE already exists".into())]);
    let mut none = None;
    assert!(dispatch(create(), &mut none, None, &[], 8).is_empty());
    assert!(none.is_none());
}

#[test]
fn copying_and_revealing_are_echoed() {
    let mut draft = None;
    let long = "x".repeat(60);
    let out = dispatch(
        ProcessAction::CopyToClipboard { text: long.clone() },
        &mut draft,
        None,
        &[],
        8,
    );
    assert_eq!(out[0], Effect::Copy(long));
    assert_eq!(out[1], Effect::Echo(format!("copied: {}…", "x".repeat(39))));
    let out = dispatch(
        ProcessAction::ShowInExplorer { path: "C:\\a".into() },
        &mut draft,
        None,
        &[],
        8,
    );
    assert_eq!(out[1], Effect::Echo("show in explorer: C:\\a".into()));
    let out = dispatch(
        ProcessAction::RequestTerminate {
            pid: 3,
            exe_name: "a.exe".into(),
        },
        &mut draft,
        None,
        &[],
        8,
    );
    let confirm = TerminateConfirm {
        pid: 3,
        exe_name: "a.exe".into(),
    };
    assert!(confirm.warning().starts_with("FrameSage will call TerminateProcess on a.exe (pid 3). "));
    assert_eq!(confirm.resolve(false), None);
    assert_eq!(
        confirm.resolve(true).unwrap().request,
        Request::TerminateProcess { pid: 3 }
    );
    assert_eq!(out, vec![Effect::ConfirmTerminate(confirm)]);
}

#[test]
fn several_kills_are_confirmed_one_after_the_other() {
    let mut queue = TerminateQueue::default();
    assert_eq!(queue.shown(), None);
    assert_eq!(queue.answer(true), None);
    let ask = |pid: u32| TerminateConfirm {
        pid,
        exe_name: "a.exe".into(),
    };
    queue.ask(vec![ask(3), ask(5), ask(8)]);
    queue.ask(Vec::new());
    assert_eq!(queue.shown().unwrap().pid, 3);
    assert_eq!(queue.answer(true).unwrap().request, Request::TerminateProcess { pid: 3 });
    assert_eq!(queue.shown().unwrap().pid, 5);
    assert_eq!(queue.answer(false), None);
    assert_eq!(queue.answer(true).unwrap().request, Request::TerminateProcess { pid: 8 });
    assert_eq!(queue.shown(), None);
}

#[test]
fn a_later_kill_takes_the_place_of_the_open_dialog() {
    let mut queue = TerminateQueue::default();
    let ask = |pid: u32| TerminateConfirm {
        pid,
        exe_name: "a.exe".into(),
    };
    queue.ask(vec![ask(3), ask(5)]);
    queue.ask(vec![ask(8)]);
    assert_eq!(queue.waiting, vec![ask(8)]);
    assert_eq!(queue.answer(false), None);
    assert_eq!(queue.shown(), None);
}

#[test]
fn the_picker_starts_from_the_rule_then_the_process() {
    let mut policy = Policy::default();
    policy.affinity_rules.push(AffinityRule {
        exe_name: "BF6.exe".into(),
        selector: CpuSelector::Mask(0xf0),
        note: String::new(),
    });
    policy.affinity_rules.push(AffinityRule {
        exe_name: "steamwebhelper.exe".into(),
        selector: CpuSelector::Mask(0xf00),
        note: String::new(),
    });
    let s = status(policy);
    let list = rows();
    let mut draft = None;
    let ask = |pid: u32, exe: &str| ProcessAction::RequestAffinityPicker {
        pid,
        exe_name: exe.into(),
    };
    match &dispatch(ask(20, "bf6.exe"), &mut draft, Some(&s), &list, 8)[0] {
        Effect::OpenPicker(p) => {
            assert_eq!(p.mask, 0xf0);
            assert!(p.save_as_rule && p.rule_existed_at_open);
        }
        _ => panic!("no picker"),
    }
    // A rule for processors that the machine lacks is no preset.
    match &dispatch(ask(11, "steamwebhelper.exe"), &mut draft, Some(&s), &list, 8)[0] {
        Effect::OpenPicker(p) => {
            assert_eq!(p.mask, 0xff);
            assert!(p.rule_existed_at_open);
        }
        _ => panic!("no picker"),
    }
    match &dispatch(ask(10, "steam.exe"), &mut draft, Some(&s), &list, 8)[0] {
        Effect::OpenPicker(p) => {
            assert_eq!(p.mask, 0xff);
            assert!(!p.save_as_rule);
        }
        _ => panic!("no picker"),
    }
    match &dispatch(ask(77, "gone.exe"), &mut draft, None, &list, 8)[0] {
        Effect::OpenPicker(p) => assert_eq!(p.mask, u64::MAX),
        _ => panic!("no picker"),
    }
    assert!(pinned(Some(&s.policy), "bf6.EXE"));
    assert!(!pinned(Some(&s.policy), "steam.exe"));
    assert!(!pinned(None, "bf6.exe"));
}

#[test]
fn cells_say_what_matters() {
    let mut p = process(20, 0, "bf6.exe", 80);
    assert_eq!(exe_label(&p, RowState::Foreground), "> bf6.exe");
    assert_eq!(exe_label(&p, RowState::Managed), "bf6.exe");
    assert_eq!(user_tone("NT AUTHORITY\\SYSTEM"), Tone::TextMuted);
    assert_eq!(user_tone("SYSTEM"), Tone::TextMuted);
    assert_eq!(user_tone("SYSTEM2"), Tone::Text);
    assert_eq!(user_tone("Font Driver Host\\UMFD-0"), Tone::TextMuted);
    assert_eq!(user_tone("PC\\me"), Tone::Text);
    assert!(needs_hover("aaaaaaaaaaaaaaaaaaa", NARROW_CELL_BYTES));
    assert!(!needs_hover("aaaaaaaaaaaaaaaaaa", NARROW_CELL_BYTES));
    // Thirteen letters of two bytes each.
    assert!(needs_hover("ééééééééééééé", WIDE_CELL_BYTES));
    assert_eq!(
        memory_hover(&p),
        "Working set: 2 MB\nPeak working set: 0 B\nPrivate bytes: 0 B"
    );
    assert_eq!(affinity_cell(0xff, false), "0xff");
    assert_eq!(affinity_cell(0, true), "📌 0x0");
    assert!(affinity_hover(0xff, true).starts_with("CPUs: 0–7\n\n📌 Persistent"));
    assert!(affinity_hover(0, false).starts_with("(none)\n\nClick to edit"));
    assert_eq!(profile_cell(&p), "—");
    assert_eq!(status_cell(&p), "—");
    p.managed_profile = Some("perf".into());
    assert_eq!(profile_cell(&p), "perf");
    p.matched_rule_note = Some(String::new());
    assert_eq!(profile_cell(&p), "★ perf");
    assert_eq!(status_cell(&p), "rule");
    p.matched_rule_note = Some("shooter".into());
    assert_eq!(status_cell(&p), "shooter");
    p.restrained_by_probalance = true;
    assert_eq!(status_cell(&p), "● ProBalance");
}

#[test]
fn the_detail_panel_spells_everything_out() {
    let mut p = process(20, 0, "bf6.exe", 80);
    let d = detail(&p);
    assert_eq!(d.badge, "pid 20");
    assert_eq!(d.cpu, "80 %");
    assert_eq!(d.memory, "2 MB");
    assert_eq!(d.affinity, "0x00000000000000ff");
    assert_eq!(d.profile, "—");
    assert_eq!(d.user, "—");
    assert_eq!(d.rule_note, "—");
    assert_eq!(d.probalance, "—");
    p.peak_working_set_bytes = 3_145_728;
    p.managed_profile = Some("perf".into());
    p.matched_rule_note = Some("shooter".into());
    p.user = Some("me".into());
    p.restrained_by_probalance = true;
    let d = detail(&p);
    assert_eq!(d.memory, "2 MB  (peak 3 MB · private 0 B)");
    assert_eq!(d.profile, "★ perf  (Rule)");
    assert_eq!(d.rule_note, "shooter");
    assert_eq!(d.user, "me");
    assert_eq!(d.threads, "3");
    assert_eq!(d.priority, "Normal");
    assert_eq!(d.probalance, "● restrained");
}
