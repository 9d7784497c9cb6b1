use framesage_tray::editors::{
    add_label, add_ticked, anti_cheat_options, choose_plan, choose_selector_kind,
    clear_focus_assist, combo_text, describe_anti_cheat, discover_processes, discover_services,
    format_bytes_compact, loaded_line, selector_text, service_badge, set_game_mode, tick, ticked, verdict_line,
    CpuSelectorKind, ListKind, PlanChoice, Verdict,
};
use framesage_tray::ipc::{ProcessSnapshot, ServiceInfo, ServiceStatusKind};
use framesage_tray::policy::{
    AntiCheatProfile, CoreKind, CpuSelector, GameModeActions, PowerPlanId, Profile,
};
use framesage_tray::text_edit::{read_entries, read_mask, show_entries, show_mask, type_mask};
use framesage_tray::theme::Tone;

fn process(pid: u32, exe: &str, cpu: u16) -> ProcessSnapshot {
    ProcessSnapshot {
        pid,
        parent_pid: 0,
        exe_name: exe.into(),
        exe_path: String::new(),
        description: None,
        company: None,
        user: None,
        priority_class_raw: 0x20,
        affinity_mask: 1,
        cpu_percent: cpu,
        memory_bytes: 0,
        peak_working_set_bytes: 0,
        private_bytes: 0,
        threads: 1,
        matched_rule_note: None,
        managed_profile: None,
        restrained_by_probalance: false,
    }
}

#[test]
fn only_hogs_that_may_be_suspended_are_offered() {
    let rows = vec![
        process(0, "Idle", 90),
        process(4, "System", 80),
        process(10, "a.exe", 5),
        process(11, "listed.exe", 50),
        process(12, "lsass.exe", 40),
        process(13, "b.exe", 0),
        process(14, "c.exe", 30),
        process(15, "d.exe", 5),
    ];
    let denied = [false, false, false, false, true, false, false, false];
    let listed = vec!["LISTED.EXE".to_string()];
    assert_eq!(discover_processes(&rows, &denied, &listed), vec![6, 2, 7]);
    let many: Vec<ProcessSnapshot> = (0..50).map(|i| process(100 + i, "x.exe", 3)).collect();
    let offered = discover_processes(&many, &[false; 50], &[]);
    assert_eq!(offered, (0..30).collect::<Vec<usize>>());
}

#[test]
fn services_on_the_list_are_not_offered() {
    let make = |name: &str| ServiceInfo {
        name: name.into(),
        display_name: name.into(),
        status: ServiceStatusKind::Running,
    };
    let services = vec![make("SysMain"), make("WinDefend"), make("WSearch")];
    assert_eq!(
        discover_services(&services, &[false, true, false], &["wsearch".to_string()]),
        vec![0]
    );
    assert_eq!(service_badge(ServiceStatusKind::Pending), (Tone::Warning, "Pending"));
    assert_eq!(loaded_line(0), "Click Refresh to load services");
    assert_eq!(loaded_line(12), "12 services loaded.");
    assert_eq!(add_label(2, ListKind::Service), "Add 2 selected to stop list");
    assert_eq!(add_label(0, ListKind::Process), "Add 0 selected to suspend list");
    assert_eq!(format_bytes_compact(2048), "2 KB");
}

#[test]
fn ticked_names_are_added_once() {
    let mut ticks = Vec::new();
    tick(&mut ticks, "OneDrive.exe", true);
    tick(&mut ticks, "ONEDRIVE.EXE", true);
    tick(&mut ticks, "b.exe", true);
    assert_eq!(ticks.len(), 2);
    assert!(ticked(&ticks, "onedrive.exe"));
    tick(&mut ticks, "B.exe", false);
    assert!(!ticked(&ticks, "b.exe"));
    let mut items = vec!["x.exe".to_string()];
    let names: Vec<String> = ["OneDrive.exe", "b.exe", "onedrive.exe", "OneDrive.exe"]
        .iter()
        .map(|s| s.to_string())
        .collect();
    add_ticked(&mut items, &names, &mut ticks);
    assert_eq!(items, vec!["x.exe", "OneDrive.exe", "onedrive.exe"]);
    assert!(ticks.is_empty());
}

#[test]
fn verdicts_give_their_reason() {
    let denied = Verdict::Denied("kernel-critical".into());
    assert_eq!(
        verdict_line(ListKind::Service, "lsass", &denied),
        Some((Tone::Error, "Blocked: kernel-critical".into()))
    );
    assert_eq!(
        verdict_line(ListKind::Process, "x", &Verdict::Unlisted),
        Some((
            Tone::TextMuted,
            "unknown — accepted, but verify before suspending".into()
        ))
    );
    assert_eq!(
        verdict_line(ListKind::Service, "x", &Verdict::Allowed),
        Some((Tone::Success, "OK (in curated allowlist)".into()))
    );
    assert_eq!(verdict_line(ListKind::Service, "  ", &denied), None);
}

#[test]
fn switching_game_mode_starts_blank_and_keeps_what_is_there() {
    let mut p = Profile::new("game");
    set_game_mode(&mut p, true);
    assert_eq!(p.game_mode, Some(GameModeActions::default()));
    p.game_mode.as_mut().unwrap().hide_taskbar = true;
    p.game_mode.as_mut().unwrap().focus_assist = Some(1);
    set_game_mode(&mut p, true);
    assert!(p.game_mode.as_ref().unwrap().hide_taskbar);
    clear_focus_assist(p.game_mode.as_mut().unwrap());
    assert_eq!(p.game_mode.as_ref().unwrap().focus_assist, None);
    set_game_mode(&mut p, false);
    assert_eq!(p.game_mode, None);
}

#[test]
fn plans_keep_their_guid_when_chosen_again() {
    let mut plan = None;
    choose_plan(&mut plan, PlanChoice::Custom);
    assert_eq!(plan, Some(PowerPlanId::Custom(String::new())));
    plan = Some(PowerPlanId::Custom("381b4222".into()));
    choose_plan(&mut plan, PlanChoice::Custom);
    assert_eq!(plan, Some(PowerPlanId::Custom("381b4222".into())));
    for choice in [
        PlanChoice::Unset,
        PlanChoice::Balanced,
        PlanChoice::HighPerformance,
        PlanChoice::PowerSaver,
        PlanChoice::UltimatePerformance,
        PlanChoice::Custom,
    ] {
        choose_plan(&mut plan, choice);
        assert_eq!(PlanChoice::of(&plan), choice);
    }
    assert_eq!(PlanChoice::UltimatePerformance.label(), "Ultimate Performance");
    assert_eq!(combo_text(None), "<unset>");
    assert_eq!(PlanChoice::Custom.label(), "<custom>");
    assert_eq!(combo_text(Some("High".into())), "High");
}

#[test]
fn processor_choices_are_put_in_words() {
    assert_eq!(selector_text(None), "<unset>");
    assert_eq!(selector_text(Some(&CpuSelector::All)), "All cores");
    assert_eq!(selector_text(Some(&CpuSelector::Kind(CoreKind::Cache))), "By core kind: Cache");
    assert_eq!(selector_text(Some(&CpuSelector::Ccd(1))), "CCD by index 1");
    assert_eq!(selector_text(Some(&CpuSelector::CcdNot(0))), "Everything except CCD 0");
    assert_eq!(selector_text(Some(&CpuSelector::TopRanked(8))), "Top N by CPPC rank: 8");
    assert_eq!(selector_text(Some(&CpuSelector::Mask(0))), "(none)");
}

#[test]
fn selector_kinds_start_with_their_default() {
    let mut sel = None;
    for kind in [
        CpuSelectorKind::Mask,
        CpuSelectorKind::All,
        CpuSelectorKind::Kind,
        CpuSelectorKind::Ccd,
        CpuSelectorKind::CcdNot,
        CpuSelectorKind::TopRanked,
        CpuSelectorKind::Unset,
    ] {
        choose_selector_kind(&mut sel, kind);
        assert_eq!(sel, kind.default_value());
        assert_eq!(CpuSelectorKind::from_option(sel.as_ref()), kind);
    }
    sel = Some(CpuSelector::TopRanked(3));
    choose_selector_kind(&mut sel, CpuSelectorKind::TopRanked);
    assert_eq!(sel, Some(CpuSelector::TopRanked(3)));
    assert_eq!(
        CpuSelectorKind::Kind.default_value(),
        Some(CpuSelector::Kind(CoreKind::Cache))
    );
    assert_eq!(CpuSelectorKind::TopRanked.default_value(), Some(CpuSelector::TopRanked(8)));
    assert_eq!(CpuSelectorKind::CcdNot.label(), "Everything except CCD");
}

#[test]
fn anti_cheat_behaviours_are_explained() {
    let options = anti_cheat_options();
    assert_eq!(options[0], AntiCheatProfile::Aggressive);
    assert_eq!(options.len(), 4);
    let (name, text) = describe_anti_cheat(AntiCheatProfile::SafeMode);
    assert_eq!(name, "AC-Safe Mode");
    assert!(text.contains("NEVER"));
}

#[test]
fn lists_are_typed_one_entry_per_line() {
    for typed in [
        "",
        "\n\n",
        "SysMain",
        " SysMain \r\n\n  WSearch\t\nDiagTrack",
        "a b\n\u{a0}c\u{3000}\n",
        "x\r",
    ] {
        let expected: Vec<String> = typed
            .lines()
            .map(|s| s.trim().to_owned())
            .filter(|s| !s.is_empty())
            .collect();
        let got = read_entries(typed);
        assert_eq!(got, expected);
        assert_eq!(read_entries(&show_entries(&got)), got);
    }
    assert_eq!(show_entries(&["a".to_string(), "b".to_string()]), "a\nb");
}

#[test]
fn masks_are_typed_in_hexadecimal() {
    for typed in [
        "0xff", "FF", "  0x0x12 ", "+f", "0x+f", "+", "", "0x", "0xg", "-1", "ffffffffffffffff",
        "10000000000000000", "0x00000000000000000000001", "++1", "0X1", "1 2",
    ] {
        let trimmed = typed.trim().trim_start_matches("0x");
        assert_eq!(read_mask(typed), u64::from_str_radix(trimmed, 16).ok(), "{typed}");
    }
    for mask in [0, 1, 0xff, 0xabc_def0, u64::MAX] {
        assert_eq!(show_mask(mask), format!("{mask:#x}"));
        assert_eq!(read_mask(&show_mask(mask)), Some(mask));
    }
    let mut mask = 5;
    type_mask(&mut mask, "nonsense");
    assert_eq!(mask, 5);
    type_mask(&mut mask, "0x1f");
    assert_eq!(mask, 31);
}
