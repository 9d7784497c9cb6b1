use framesage_tray::onboarding::{
    apply_choice_to_policy, apply_closed_loop_to_policy, balanced_from, AggressionLevel,
    ClosedLoopChoice, NextAction, OnboardingResult, OnboardingState, Page,
    CLOSED_LOOP_PAGE_EDR_DISCLOSURE, LAST_PAGE_INDEX,
};
use framesage_tray::policy::{GameModeActions, Policy, PowerPlanId, Profile};

fn aggressive_default() -> Policy {
    let mut policy = Policy::default();
    for id in ["game", "game-x3d", "game-x3d-hybrid", "game-x3d-safe"] {
        let mut p = Profile::new(id);
        p.game_mode = Some(GameModeActions {
            hide_taskbar: true,
            focus_assist: None,
            stop_services: vec!["SysMain".into(), "WSearch".into(), "DiagTrack".into()],
            suspend_processes: vec!["OneDrive.exe".into(), "Dropbox.exe".into()],
            power_plan: Some(PowerPlanId::HighPerformance),
            pause_windows_update: true,
            rest: "{\"a\":1}".into(),
        });
        policy.put_profile(p);
    }
    for id in ["perf", "eco"] {
        let mut p = Profile::new(id);
        p.description = format!("{id} profile");
        p.trim_working_set = id == "eco";
        policy.put_profile(p);
    }
    policy
}

fn profile<'a>(policy: &'a Policy, id: &str) -> Option<&'a Profile> {
    policy.find_profile(id).map(|i| &policy.profiles[i])
}

#[test]
fn aggression_aggressive_leaves_game_mode_unchanged() {
    let baseline = aggressive_default();
    let mut p = aggressive_default();
    apply_choice_to_policy(&mut p, AggressionLevel::Aggressive);
    for prof in &p.profiles {
        if !prof.id.starts_with("game") {
            continue;
        }
        let baseline_profile = profile(&baseline, &prof.id).expect("profile in baseline");
        assert_eq!(prof.game_mode, baseline_profile.game_mode);
    }
}

#[test]
fn aggression_balanced_clears_stop_services_and_suspend_processes() {
    let mut p = aggressive_default();
    apply_choice_to_policy(&mut p, AggressionLevel::Balanced);
    for prof in &p.profiles {
        if !prof.id.starts_with("game") {
            continue;
        }
        let gm = prof
            .game_mode
            .as_ref()
            .expect("Balanced must keep game_mode (just emptied)");
        assert!(gm.stop_services.is_empty());
        assert!(gm.suspend_processes.is_empty());
        assert!(!gm.hide_taskbar);
        assert!(!gm.pause_windows_update);
    }
}

#[test]
fn aggression_balanced_keeps_power_plan_switch() {
    let mut p = aggressive_default();
    apply_choice_to_policy(&mut p, AggressionLevel::Balanced);
    let baseline = aggressive_default();
    for prof in &p.profiles {
        if !prof.id.starts_with("game") {
            continue;
        }
        let baseline_gm = profile(&baseline, &prof.id)
            .and_then(|p| p.game_mode.as_ref())
            .map(|gm| gm.power_plan.clone())
            .unwrap_or_default();
        let actual = prof
            .game_mode
            .as_ref()
            .map(|gm| gm.power_plan.clone())
            .unwrap_or_default();
        assert_eq!(baseline_gm, actual);
    }
}

#[test]
fn aggression_pinning_only_clears_game_mode_entirely() {
    let mut p = aggressive_default();
    apply_choice_to_policy(&mut p, AggressionLevel::PinningOnly);
    for prof in &p.profiles {
        if !prof.id.starts_with("game") {
            continue;
        }
        assert!(prof.game_mode.is_none());
    }
}

#[test]
fn aggression_choice_does_not_touch_non_gaming_profiles() {
    let baseline = aggressive_default();
    for level in [
        AggressionLevel::Aggressive,
        AggressionLevel::Balanced,
        AggressionLevel::PinningOnly,
    ] {
        let mut p = aggressive_default();
        apply_choice_to_policy(&mut p, level);
        for non_gaming in ["perf", "eco"] {
            assert_eq!(profile(&baseline, non_gaming), profile(&p, non_gaming));
        }
    }
}

#[test]
fn closed_loop_page_contains_edr_disclosure_substring() {
    assert!(CLOSED_LOOP_PAGE_EDR_DISCLOSURE.contains("EDR validation in progress for v0.7.1"));
}

#[test]
fn apply_closed_loop_enable_sets_policy_field_true() {
    let mut p = Policy::default();
    assert!(!p.closed_loop_enabled, "default must be false");
    apply_closed_loop_to_policy(&mut p, ClosedLoopChoice::Enable);
    assert!(p.closed_loop_enabled, "Enable must flip the field to true");
}

#[test]
fn apply_closed_loop_leave_disabled_keeps_policy_field_false() {
    let mut p = Policy {
        closed_loop_enabled: true,
        ..Policy::default()
    };
    apply_closed_loop_to_policy(&mut p, ClosedLoopChoice::LeaveDisabled);
    assert!(!p.closed_loop_enabled);
}

#[test]
fn balanced_from_keeps_power_plan_strips_aggression() {
    let gm = GameModeActions {
        stop_services: vec!["SysMain".into(), "WSearch".into()],
        suspend_processes: vec!["OneDrive.exe".into()],
        hide_taskbar: true,
        pause_windows_update: true,
        power_plan: Some(PowerPlanId::HighPerformance),
        ..Default::default()
    };
    let bal = balanced_from(&gm);
    assert!(bal.stop_services.is_empty());
    assert!(bal.suspend_processes.is_empty());
    assert!(!bal.hide_taskbar);
    assert!(!bal.pause_windows_update);
    assert_eq!(bal.power_plan, Some(PowerPlanId::HighPerformance));
}

#[test]
fn levels_applied_twice_change_nothing_more() {
    for level in [AggressionLevel::Balanced, AggressionLevel::PinningOnly] {
        let mut once = aggressive_default();
        apply_choice_to_policy(&mut once, level);
        let mut twice = once.clone();
        apply_choice_to_policy(&mut twice, level);
        assert_eq!(once, twice);
    }
}

#[test]
fn pinning_only_wins_in_either_order() {
    let mut pinned = aggressive_default();
    apply_choice_to_policy(&mut pinned, AggressionLevel::PinningOnly);
    let mut last = aggressive_default();
    apply_choice_to_policy(&mut last, AggressionLevel::Balanced);
    assert_ne!(last, pinned);
    apply_choice_to_policy(&mut last, AggressionLevel::PinningOnly);
    assert_eq!(last, pinned);
    let mut first = pinned.clone();
    apply_choice_to_policy(&mut first, AggressionLevel::Balanced);
    assert_eq!(first, pinned);
}

#[test]
fn what_the_tray_does_not_read_is_kept() {
    let mut p = aggressive_default();
    p.rest = "{\"x\":true}".into();
    p.profiles[0].rest = "{\"y\":[]}".into();
    apply_choice_to_policy(&mut p, AggressionLevel::Balanced);
    apply_closed_loop_to_policy(&mut p, ClosedLoopChoice::Enable);
    let kept = p.clone();
    assert_eq!(kept.rest, "{\"x\":true}");
    assert_eq!(kept.profiles[0].rest, "{\"y\":[]}");
    assert_eq!(kept.profiles[0].game_mode.as_ref().unwrap().rest, "{\"a\":1}");
    assert_eq!(Profile::new("a").rest, "");
}

#[test]
fn a_reopened_wizard_asks_about_measuring_alone() {
    let mut s = OnboardingState::for_opt_in();
    assert_eq!(s.current(), Page::ClosedLoop);
    assert!(!s.may_continue());
    s.pick_closed_loop(ClosedLoopChoice::Enable);
    s.step(Some(NextAction::Forward));
    s.step(Some(NextAction::Forward));
    assert_eq!(
        s.step(Some(NextAction::Finish)),
        OnboardingResult::Finished {
            level: AggressionLevel::Aggressive,
            closed_loop: ClosedLoopChoice::Enable,
        }
    );
}

#[test]
fn the_wizard_waits_for_both_choices() {
    let mut s = OnboardingState::default();
    assert_eq!(s.current(), Page::Intro);
    assert_eq!(s.step(Some(NextAction::Back)), OnboardingResult::StillVisible);
    assert_eq!(s.page, 0);
    s.step(Some(NextAction::Forward));
    assert_eq!(s.current(), Page::Level);
    assert!(!s.may_continue());
    s.pick_level(AggressionLevel::Balanced);
    assert!(s.may_continue());
    s.step(Some(NextAction::Forward));
    assert_eq!(s.current(), Page::ClosedLoop);
    assert!(!s.may_continue());
    s.pick_closed_loop(ClosedLoopChoice::LeaveDisabled);
    assert!(s.may_continue());
    s.step(Some(NextAction::Forward));
    s.step(Some(NextAction::Forward));
    assert_eq!(s.current(), Page::Finale);
    s.step(Some(NextAction::Forward));
    assert_eq!(s.page, LAST_PAGE_INDEX);
    assert_eq!(
        s.step(Some(NextAction::Finish)),
        OnboardingResult::Finished {
            level: AggressionLevel::Balanced,
            closed_loop: ClosedLoopChoice::LeaveDisabled,
        }
    );
}
