use framesage_tray::affinity::{
    count_cpus, range_mask, selector_to_mask, AffinityPicker, PickerClick, Preset,
};
use framesage_tray::hotkey::{
    after_press, pump_status, pump_step, register_toggle_hotkey, HotkeyGuard, HotkeyStatus, Pump, PumpStep,
    ALREADY_REGISTERED,
    HOTKEY_ID, WM_HOTKEY,
};
use framesage_tray::icons::{swizzle, IconCache, IconStep};
use framesage_tray::ipc::{
    Event, ForegroundSnapshot, ProcessSnapshot, Request, Response, StatusSnapshot, SystemMetrics,
};
use framesage_tray::ipc_client::{
    describe_event, describe_reply, fold_poll, mem_percent, on_connected, on_disconnected,
    on_first_answer, poll_answers, poll_interval_ms, record_event, Look, PollError, Reporter,
    BACKOFF_CAP_MS, MAX_RECENT, NORMAL_INTERVAL_MS,
};
use framesage_tray::policy::{CoreKind, CpuSelector, Policy};
use framesage_tray::state::{AppState, EventKind, Timestamp};
use framesage_tray::text::{
    contains_text, format_in_base, is_space_char, pad_zeros, same_ignoring_case, starts_with_text,
    text_not_after, to_lower, to_upper, trimmed,
};

fn status() -> StatusSnapshot {
    StatusSnapshot {
        paused: false,
        policy: Policy::default(),
        foreground: None,
        active_profile: None,
        manual_override: None,
        manual_global_active: None,
        closed_loop_build_supported: false,
    }
}

fn window(pid: u32) -> ForegroundSnapshot {
    ForegroundSnapshot {
        pid,
        exe_name: "bf6.exe".into(),
        path: "C:\\bf6.exe".into(),
        title: "BF6".into(),
    }
}

fn process(pid: u32, cpu: u16) -> ProcessSnapshot {
    ProcessSnapshot {
        pid,
        parent_pid: 0,
        exe_name: "x.exe".into(),
        exe_path: String::new(),
        description: None,
        company: None,
        user: None,
        priority_class_raw: 0x20,
        affinity_mask: 1,
        cpu_percent: cpu,
        memory_bytes: 0,
        peak_working_set_bytes: 0,
        private_bytes: 0,
        threads: 1,
        matched_rule_note: None,
        managed_profile: None,
        restrained_by_probalance: false,
    }
}

#[test]
fn events_read_as_one_line() {
    let e = Event::ForegroundChanged {
        foreground: window(42),
        profile: "game-x3d".into(),
        matched_rule_index: Some(3),
    };
    assert_eq!(
        describe_event(&e),
        (EventKind::Foreground, "bf6.exe -> game-x3d (pid 42, rule #3)".into())
    );
    let e = Event::ProBalanceRestrained {
        pid: 7,
        exe_name: "chrome.exe".into(),
        from_class: 0x20,
        to_class: 0x4000,
    };
    assert_eq!(
        describe_event(&e),
        (
            EventKind::ProBalanceRestrained,
            "probalance restrained chrome.exe (pid 7) 0x20 -> 0x4000".into()
        )
    );
    let e = Event::GameModeEntered {
        profile_id: "game-x3d".into(),
        services_to_stop: 24,
        processes_to_suspend: 16,
        power_plan_changing: true,
        taskbar_hiding: false,
        pausing_windows_update: true,
    };
    let (kind, label) = describe_event(&e);
    assert_eq!(kind, EventKind::Engine);
    assert_eq!(label, "Game Mode entered: game-x3d (24 svcs, 16 procs, power plan, WU)");
    let e = Event::ActionFailed {
        kind: "stop service".into(),
        pid: None,
        exe_name: Some("SysMain".into()),
        details: "access denied".into(),
    };
    assert_eq!(
        describe_event(&e),
        (
            EventKind::Other,
            "action failed: stop service SysMain — access denied".into()
        )
    );
    assert_eq!(describe_event(&Event::Paused), (EventKind::Engine, "engine paused".into()));
}

#[test]
fn events_are_recorded_up_to_a_limit() {
    let mut s = AppState::default();
    on_connected(&mut s);
    on_first_answer(&mut s, Some(Response::Status(status())));
    assert!(s.connected && s.status.is_some());
    for i in 0..(MAX_RECENT as i64 + 5) {
        record_event(&mut s, Timestamp { secs: i, nanos: 0 }, &Event::Resumed);
    }
    assert_eq!(s.recent.len(), MAX_RECENT);
    assert_eq!(s.recent[0].at.secs, 5);
    let e = Event::ForegroundChanged {
        foreground: window(9),
        profile: "perf".into(),
        matched_rule_index: None,
    };
    let entry = record_event(&mut s, Timestamp { secs: 9, nanos: 0 }, &e);
    assert_eq!(entry.label, "bf6.exe -> perf (pid 9)");
    assert_eq!(s.status.as_ref().unwrap().foreground, Some(window(9)));
    on_disconnected(&mut s, "gone".into());
    assert!(!s.connected);
    assert_eq!(s.last_error, Some("gone".into()));
    on_first_answer(&mut s, None);
    assert!(s.status.is_some());
}

#[test]
fn polls_fill_the_histories() {
    let mut s = AppState::default();
    let system = |cpu: u8| SystemMetrics {
        cpu_percent: cpu,
        memory_used_bytes: 50,
        memory_total_bytes: 200,
        per_core_cpu_percent: vec![],
    };
    for i in 0..70u16 {
        fold_poll(&mut s, vec![process(1, i), process(2, 500)], system(i as u8), status());
    }
    assert_eq!(s.system_history.len(), 60);
    assert_eq!(s.system_history[0], (10, 25));
    assert_eq!(s.per_pid_cpu_history[&1].len(), 60);
    assert_eq!(s.per_pid_cpu_history[&1][59], 69);
    assert_eq!(s.per_pid_cpu_history[&2][0], 255);
    fold_poll(&mut s, vec![process(2, 1)], system(0), status());
    assert!(!s.per_pid_cpu_history.contains_key(&1));
    for i in 0..40u8 {
        s.system_history.push_back((i, 0));
        s.per_pid_cpu_history.get_mut(&2).unwrap().push_back(i);
    }
    fold_poll(&mut s, vec![process(2, 7)], system(9), status());
    assert_eq!(s.system_history.len(), 60);
    assert_eq!(s.system_history[58], (39, 0));
    assert_eq!(s.system_history[59], (9, 25));
    assert_eq!(s.per_pid_cpu_history[&2].len(), 60);
    assert_eq!(s.per_pid_cpu_history[&2][58], 39);
    assert_eq!(s.per_pid_cpu_history[&2][59], 7);
    assert_eq!(mem_percent(1, 0), 0);
    assert_eq!(mem_percent(u64::MAX, 1), 100);
    assert_eq!(poll_interval_ms(true), 1000);
    assert_eq!(poll_interval_ms(false), 8000);
}

#[test]
fn answers_must_come_in_order() {
    let processes = || Response::Processes {
        snapshots: vec![process(1, 1)],
        system: SystemMetrics::default(),
    };
    let got = poll_answers(processes(), Response::Status(status())).unwrap();
    assert_eq!(got.0.len(), 1);
    assert_eq!(
        poll_answers(Response::Status(status()), processes()),
        Err(PollError::ExpectedProcesses)
    );
    assert_eq!(
        poll_answers(processes(), Response::Done),
        Err(PollError::ExpectedStatus)
    );
    assert_eq!(describe_reply("pause", &Ok(Response::Done)), "pause: ok");
    assert_eq!(
        describe_reply(
            "pause",
            &Ok(Response::Error {
                message: "no".into()
            })
        ),
        "pause: error — no"
    );
    assert_eq!(describe_reply("pause", &Err("pipe".into())), "pause: error — pipe");
}

#[test]
fn the_foreground_is_reported_when_it_changes() {
    let mut r = Reporter::new();
    assert_eq!(r.interval_ms, NORMAL_INTERVAL_MS);
    assert_eq!(r.observe(Look::Nothing), None);
    match r.observe(Look::Window(window(5))) {
        Some(Request::ReportForeground { pid, .. }) => assert_eq!(pid, 5),
        _ => panic!("no report"),
    }
    assert_eq!(r.observe(Look::Window(window(5))), None);
    assert_eq!(r.observe(Look::Unknown), None);
    assert_eq!(r.observe(Look::Nothing), Some(Request::ReportNoForeground));
    assert_eq!(r.observe(Look::Nothing), None);
    for _ in 0..10 {
        r.after_send(false);
    }
    assert_eq!(r.interval_ms, BACKOFF_CAP_MS);
    r.observe(Look::Window(window(5)));
    assert!(r.observe(Look::Window(window(5))).is_some());
    r.after_send(true);
    assert_eq!(r.interval_ms, NORMAL_INTERVAL_MS);
}

#[test]
fn selectors_resolve_to_masks() {
    assert_eq!(selector_to_mask(&CpuSelector::All, 16), 0xffff);
    assert_eq!(selector_to_mask(&CpuSelector::All, 0), 0xffff_ffff);
    assert_eq!(selector_to_mask(&CpuSelector::All, 64), u64::MAX);
    assert_eq!(selector_to_mask(&CpuSelector::All, 100), u64::MAX);
    assert_eq!(selector_to_mask(&CpuSelector::Mask(0xf0f0f), 16), 0x0f0f);
    assert_eq!(selector_to_mask(&CpuSelector::Kind(CoreKind::Cache), 16), 0x00ff);
    assert_eq!(selector_to_mask(&CpuSelector::Kind(CoreKind::Performance), 16), 0xff00);
    assert_eq!(selector_to_mask(&CpuSelector::Kind(CoreKind::Efficiency), 16), 0xffff);
    assert_eq!(selector_to_mask(&CpuSelector::Ccd(1), 8), 0xff);
    assert_eq!(range_mask(60, 70), 0xf000_0000_0000_0000);
    assert_eq!(count_cpus(0xf0f), 8);
}

#[test]
fn the_picker_builds_a_mask() {
    let mut p = AffinityPicker {
        pid: 4,
        exe_name: "a.exe".into(),
        mask: 0,
        save_as_rule: false,
        rule_existed_at_open: false,
    };
    assert!(!p.may_apply());
    p.preset(Preset::CacheDie, 16);
    assert_eq!(p.mask, 0xff);
    p.preset(Preset::OtherDie, 16);
    assert_eq!(p.mask, 0xff00);
    p.preset(Preset::Invert, 16);
    assert_eq!(p.mask, 0x00ff);
    p.set_cpu(9, true);
    p.set_cpu(0, false);
    assert_eq!(p.mask, 0x2fe);
    assert!(p.shows_cpu(9) && !p.shows_cpu(0));
    assert_eq!(
        p.resolve(PickerClick::Apply).unwrap().request,
        Request::SetProcessAffinity {
            pid: 4,
            selector: CpuSelector::Mask(0x2fe)
        }
    );
    p.save_as_rule = true;
    match p.resolve(PickerClick::Apply).unwrap().request {
        Request::SetAffinityRule {
            rule,
            apply_to_live,
        } => {
            assert!(apply_to_live);
            assert_eq!(rule.exe_name, "a.exe");
            assert_eq!(rule.selector, CpuSelector::Mask(0x2fe));
        }
        _ => panic!("no rule"),
    }
    assert_eq!(
        p.resolve(PickerClick::RemoveRule).unwrap().request,
        Request::DeleteAffinityRule {
            exe_name: "a.exe".into()
        }
    );
    assert_eq!(p.resolve(PickerClick::Cancel), None);
}

#[test]
fn the_hotkey_reports_how_it_went() {
    assert_eq!(register_toggle_hotkey(Pump::Absent), (HotkeyStatus::Unsupported, None));
    assert_eq!(register_toggle_hotkey(Pump::Silent), (HotkeyStatus::Failed, None));
    assert_eq!(
        register_toggle_hotkey(Pump::Reported {
            status: pump_status(None),
            thread_id: 8
        }),
        (HotkeyStatus::Registered, Some(HotkeyGuard { thread_id: 8 }))
    );
    assert_eq!(
        register_toggle_hotkey(Pump::Reported {
            status: pump_status(Some(ALREADY_REGISTERED)),
            thread_id: 8
        }),
        (HotkeyStatus::Conflict, None)
    );
    assert_eq!(ALREADY_REGISTERED, 0x8007_0581);
    assert_eq!(pump_status(Some(0x8007_0005)), HotkeyStatus::Failed);
    assert!(after_press(false) && !after_press(true));
    assert_eq!(pump_step(0, WM_HOTKEY, HOTKEY_ID), PumpStep::Stop);
    assert_eq!(pump_step(-1, 0, 0), PumpStep::Stop);
    assert_eq!(pump_step(1, WM_HOTKEY, HOTKEY_ID), PumpStep::Toggle);
    assert_eq!(pump_step(1, WM_HOTKEY, 1), PumpStep::Dispatch);
}

#[test]
fn icons_are_extracted_within_the_budget() {
    let mut cache = IconCache::new();
    let mut budget = 1;
    assert_eq!(cache.get_or_load("", &mut budget), IconStep::Skip);
    assert_eq!(cache.get_or_load("a", &mut budget), IconStep::Extract);
    assert_eq!(budget, 0);
    cache.store("a", None);
    assert_eq!(cache.get_or_load("a", &mut budget), IconStep::Show(None));
    assert_eq!(cache.get_or_load("b", &mut budget), IconStep::Skip);
    cache.store("b", Some(7));
    assert_eq!(cache.get_or_load("b", &mut budget), IconStep::Show(Some(7)));
    cache.store("a", Some(8));
    assert_eq!(cache.get_or_load("a", &mut budget), IconStep::Show(Some(8)));
    assert_eq!(cache.get_or_load("b", &mut budget), IconStep::Show(Some(7)));
    let bgra = [1, 2, 3, 4, 5, 6, 7, 8];
    assert_eq!(swizzle(&bgra), vec![3, 2, 1, 4, 7, 6, 5, 8]);
    assert_eq!(swizzle(&swizzle(&bgra)), bgra);
}

#[test]
fn texts_behave_as_those_of_the_standard_library() {
    let samples = [
        "", "a", "A", "Zürich", "  x ", "\u{85}y\u{2003}", "NT SERVICE\\a", "0x1F", "éÉ", "a b",
    ];
    for s in samples {
        assert_eq!(to_lower(s), s.to_ascii_lowercase());
        assert_eq!(to_upper(s), s.to_ascii_uppercase());
        assert_eq!(trimmed(s), s.trim());
        for t in samples {
            assert_eq!(contains_text(s, t), s.contains(t));
            assert_eq!(starts_with_text(s, t), s.starts_with(t));
            assert_eq!(same_ignoring_case(s, t), s.eq_ignore_ascii_case(t));
            assert_eq!(text_not_after(s, t), s <= t);
        }
    }
    for n in 0..=0x10ffffu32 {
        if let Some(c) = char::from_u32(n) {
            assert_eq!(is_space_char(c), c.is_whitespace());
        }
    }
    for n in [0u64, 9, 10, 255, 65_535, u64::MAX] {
        assert_eq!(format_in_base(n, 10), format!("{n}"));
        assert_eq!(format_in_base(n, 16), format!("{n:x}"));
    }
    assert_eq!(pad_zeros("7".into(), 3), "007");
    assert_eq!(pad_zeros("1234".into(), 3), "1234");
}
