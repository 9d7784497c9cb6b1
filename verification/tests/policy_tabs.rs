use framesage_tray::ipc::{ForegroundSnapshot, Request, StatusSnapshot};
use framesage_tray::policy::{
    AffinityRule, AppMatch, AppRule, CpuSelector, MatchKind, Policy, Profile,
};
use framesage_tray::profiles_tab::{
    card_heading, check_new_id, delete_hover, manual_label, manual_op, profile_card,
    profiles_buttons, ProfileOp, ProfilesEditor,
};
use framesage_tray::rules_tab::{
    delete_rule, remove_affinity_rule, rule_line, rules_buttons, save_draft, shortcut_label,
    shortcut_value, sort_affinity_rules, value_hint, RulesEditor,
};
use framesage_tray::status_tab::{
    balance_card, enter_label, enter_manual_global, exit_manual_global, hotkey_call, in_game_mode,
    list_eligible, toggle_balance,
};
use framesage_tray::theme::Tone;

fn rule(exe: &str, profile: &str, note: &str) -> AppRule {
    AppRule {
        matcher: AppMatch::ExeName(exe.into()),
        profile: profile.into(),
        note: note.into(),
    }
}

fn policy() -> Policy {
    let mut p = Policy::default();
    for id in ["perf", "eco", "game"] {
        p.put_profile(Profile::new(id));
    }
    p.default_profile = "perf".into();
    p.background_profile = Some("eco".into());
    p.rules = vec![rule("bf6.exe", "game", "shooter"), rule("code.exe", "perf", "")];
    p
}

fn status() -> StatusSnapshot {
    StatusSnapshot {
        paused: false,
        policy: policy(),
        foreground: Some(ForegroundSnapshot {
            pid: 9,
            exe_name: "doom.exe".into(),
            path: "D:\\doom.exe".into(),
            title: "DOOM".into(),
        }),
        active_profile: None,
        manual_override: None,
        manual_global_active: None,
        closed_loop_build_supported: true,
    }
}

fn stored(call: framesage_tray::ipc::AdminCall) -> (Policy, &'static str) {
    match call.request {
        Request::SetPolicy { policy } => (policy, call.label),
        _ => panic!("no policy"),
    }
}

#[test]
fn rule_buttons_need_elevation_and_no_form() {
    let s = status();
    let mut editor = RulesEditor::default();
    let b = rules_buttons(true, &editor, &None, &s.foreground);
    assert!(b.add && b.add_for_foreground && b.change && !b.save && !b.discard);
    let b = rules_buttons(true, &editor, &None, &None);
    assert!(!b.add_for_foreground);
    let mut draft = None;
    editor.open_add(&mut draft, &s);
    let b = rules_buttons(true, &editor, &draft, &s.foreground);
    assert!(!b.add && !b.add_for_foreground && !b.change && b.save && b.discard);
    let b = rules_buttons(false, &editor, &draft, &s.foreground);
    assert!(!b.save && b.discard);
}

#[test]
fn a_new_rule_comes_last_and_is_saved_at_once() {
    let s = status();
    let mut editor = RulesEditor::default();
    let mut draft = None;
    editor.open_add(&mut draft, &s);
    let form = editor.form.as_mut().unwrap();
    assert_eq!(form.heading(), "Add rule");
    assert_eq!(form.profile_id, "eco");
    assert!(!form.can_save());
    form.match_kind = MatchKind::PathContains;
    form.match_value = "  Battlefield 6 ".into();
    form.note = " n ".into();
    assert!(form.can_save());
    let (p, label) = stored(editor.commit(&mut draft, &s, true).unwrap());
    assert_eq!(label, "save rule");
    assert_eq!(
        p.rules[2],
        AppRule {
            matcher: AppMatch::PathContains("Battlefield 6".into()),
            profile: "eco".into(),
            note: "n".into()
        }
    );
    assert_eq!(p.rules[..2], policy().rules[..]);
    assert!(draft.is_none());
    assert!(editor.form.is_none());
    assert!(editor.commit(&mut draft, &s, true).is_none());
    assert!(draft.is_none());
}

#[test]
fn without_elevation_a_rule_stays_in_the_draft() {
    let s = status();
    let mut editor = RulesEditor::default();
    let mut draft = None;
    editor.open_add_for_foreground(&mut draft, &s);
    let form = editor.form.as_ref().unwrap();
    assert_eq!(form.match_value, "doom.exe");
    assert_eq!(form.note, "DOOM");
    assert!(editor.commit(&mut draft, &s, false).is_none());
    assert_eq!(draft.as_ref().unwrap().rules[2], rule("doom.exe", "eco", "DOOM"));
    let (p, label) = stored(save_draft(&mut draft).unwrap());
    assert_eq!(label, "save policy");
    assert_eq!(p.rules.len(), 3);
    assert!(save_draft(&mut draft).is_none());
    let mut quiet = status();
    quiet.foreground = None;
    editor.open_add_for_foreground(&mut draft, &quiet);
    assert!(editor.form.is_none());
    assert!(draft.is_none());
}

#[test]
fn editing_a_rule_replaces_it() {
    let s = status();
    let mut editor = RulesEditor::default();
    let mut draft = None;
    editor.edit(&mut draft, &s, 7);
    assert!(editor.form.is_none());
    assert_eq!(draft, Some(policy()));
    editor.edit(&mut draft, &s, 0);
    assert_eq!(editor.form.as_ref().unwrap().heading(), "Edit rule");
    let (same, _) = stored(editor.commit(&mut draft, &s, true).unwrap());
    assert_eq!(same, policy());
    editor.edit(&mut draft, &s, 0);
    editor.form.as_mut().unwrap().profile_id = "perf".into();
    let (p, _) = stored(editor.commit(&mut draft, &s, true).unwrap());
    assert_eq!(p.rules[0], rule("bf6.exe", "perf", "shooter"));
    // A rule that went away meanwhile is added again.
    editor.edit(&mut draft, &s, 1);
    delete_rule(&mut draft, &s, 1);
    delete_rule(&mut draft, &s, 9);
    assert_eq!(draft.as_ref().unwrap().rules.len(), 1);
    let (p, _) = stored(editor.commit(&mut draft, &s, true).unwrap());
    assert_eq!(p.rules[1], rule("code.exe", "perf", ""));
    editor.edit(&mut draft, &s, 1);
    editor.cancel();
    assert!(editor.form.is_none() && draft.is_some());
    editor.discard(&mut draft);
    assert!(draft.is_none());
}

#[test]
fn the_form_takes_values_from_the_foreground() {
    let s = status();
    assert_eq!(shortcut_value(MatchKind::ExeName, &s.foreground), Some("doom.exe".into()));
    assert_eq!(shortcut_value(MatchKind::PathContains, &s.foreground), Some("D:\\doom.exe".into()));
    assert_eq!(shortcut_value(MatchKind::WindowTitleContains, &s.foreground), Some("DOOM".into()));
    assert_eq!(shortcut_value(MatchKind::ExeName, &None), None);
    let mut untitled = status();
    untitled.foreground.as_mut().unwrap().title = String::new();
    assert_eq!(shortcut_value(MatchKind::WindowTitleContains, &untitled.foreground), None);
    assert_eq!(shortcut_label(MatchKind::PathContains), "Use foreground path");
    assert_eq!(value_hint(MatchKind::ExeName), "e.g. bf6.exe");
}

#[test]
fn rules_read_as_one_line() {
    let kinds = [
        (AppMatch::ExeName("a".into()), "exe"),
        (AppMatch::PathContains("a".into()), "path~"),
        (AppMatch::WindowTitleContains("a".into()), "title~"),
    ];
    for (matcher, tag) in kinds {
        let r = AppRule {
            matcher,
            profile: "perf".into(),
            note: String::new(),
        };
        assert_eq!(rule_line(&r), format!("{:6}  a  ->  perf", tag));
    }
    assert_eq!(rule_line(&rule("bf6.exe", "game", "x")), "exe     bf6.exe  ->  game  (x)");
}

#[test]
fn affinity_rules_are_listed_by_executable() {
    let make = |exe: &str, note: &str| AffinityRule {
        exe_name: exe.into(),
        selector: CpuSelector::All,
        note: note.into(),
    };
    let rules = vec![make("b.exe", "1"), make("A.exe", "2"), make("B.EXE", "3"), make("a.exe", "4")];
    let notes: Vec<String> = sort_affinity_rules(&rules).into_iter().map(|r| r.note).collect();
    assert_eq!(notes, vec!["2", "4", "1", "3"]);
    let call = remove_affinity_rule("b.exe".into());
    assert_eq!(
        call.request,
        Request::DeleteAffinityRule {
            exe_name: "b.exe".into()
        }
    );
}

#[test]
fn new_profiles_need_a_free_id() {
    let s = status();
    let c = check_new_id(&None, &s.policy, " PERF ");
    assert!(c.taken && !c.can_save);
    let c = check_new_id(&None, &s.policy, "   ");
    assert!(!c.taken && !c.can_save);
    let mut editor = ProfilesEditor::default();
    let mut draft = None;
    editor.open_new(&mut draft, &s);
    assert!(!profiles_buttons(true, &editor, false, &draft).add);
    assert!(!profile_card(&s, &draft, &editor, true, false, "eco").can_edit);
    *editor.new_form.as_mut().unwrap() = "Eco".into();
    assert!(editor.commit_new(&mut draft, &s, true).is_none());
    assert!(editor.new_form.is_some());
    *editor.new_form.as_mut().unwrap() = " game-poe2 ".into();
    let (p, label) = stored(editor.commit_new(&mut draft, &s, true).unwrap());
    assert_eq!(label, "save profile");
    assert_eq!(p.profiles[3], Profile::new("game-poe2"));
    assert_eq!(draft, Some(p));
    assert_eq!(editor.editing_id, Some("game-poe2".into()));
    assert!(editor.new_form.is_none());
    editor.discard(&mut draft);
    assert!(draft.is_none() && editor.editing_id.is_none());
    editor.open_new(&mut draft, &s);
    editor.cancel_new();
    assert!(editor.new_form.is_none());
    let b = profiles_buttons(true, &editor, false, &draft);
    assert!(b.add && b.save && b.discard);
    assert!(!profiles_buttons(true, &editor, true, &draft).add);
    assert!(!profiles_buttons(false, &editor, false, &draft).save);
}

#[test]
fn profiles_in_use_cannot_be_deleted() {
    let mut s = status();
    s.policy.put_profile(Profile::new("spare"));
    s.policy.put_profile(Profile::new("pinned"));
    s.manual_override = Some("pinned".into());
    let editor = ProfilesEditor::default();
    let card = |id: &str| profile_card(&s, &None, &editor, true, false, id);
    let hover = |id: &str| delete_hover(card(id), &None, &s.policy, id);
    assert!(card("spare").can_delete);
    assert_eq!(hover("spare"), "Delete this profile from the policy.");
    assert!(!card("perf").can_delete);
    assert_eq!(hover("perf"), "Cannot delete the default profile.");
    assert_eq!(hover("eco"), "Cannot delete the background profile.");
    assert!(!card("game").can_delete);
    assert!(hover("game").starts_with("Cannot delete: still referenced"));
    assert!(!card("pinned").can_delete);
    assert_eq!(hover("pinned"), "Cannot delete the currently-applied profile.");
    assert_eq!(manual_label(card("pinned")), "Exit manual mode");
    assert_eq!(manual_op(card("pinned"), "pinned".into()), ProfileOp::ClearManual);
    assert_eq!(manual_op(card("spare"), "spare".into()), ProfileOp::SetManual("spare".into()));
    assert!(!profile_card(&s, &None, &editor, false, false, "spare").can_delete);
    assert!(!profile_card(&s, &None, &editor, true, true, "spare").can_edit);
}

#[test]
fn cards_are_headed_by_their_state() {
    let mut s = status();
    s.active_profile = Some(Profile::new("game"));
    let mut editor = ProfilesEditor::default();
    let card = profile_card(&s, &None, &editor, true, false, "game");
    assert!(card.active && !card.can_apply && card.can_edit && card.can_toggle_manual);
    assert_eq!(card_heading(card, "game"), "Game  (active)");
    let plain = profile_card(&s, &None, &editor, true, false, "game-x3d");
    assert_eq!(card_heading(plain, "game-x3d"), "Game X3D");
    editor.editing_id = Some("game".into());
    let card = profile_card(&s, &None, &editor, true, false, "game");
    assert!(card.editing && !card.can_edit && !card.can_toggle_manual);
    assert_eq!(card_heading(card, "game"), "Game  (editing)");
}

#[test]
fn card_clicks_edit_the_draft_or_ask_the_service() {
    let s = status();
    let mut editor = ProfilesEditor::default();
    let mut draft = None;
    assert!(editor.apply(ProfileOp::EnterEdit("eco".into()), &mut draft, &s).is_none());
    assert_eq!(editor.editing_id, Some("eco".into()));
    editor.open_new(&mut draft, &s);
    assert!(editor.editing_id.is_none() && editor.new_form.is_some());
    editor.apply(ProfileOp::EnterEdit("eco".into()), &mut draft, &s);
    assert!(editor.editing_id.is_some() && editor.new_form.is_none());
    assert_eq!(draft, Some(policy()));
    let mut edited = Profile::new("eco");
    edited.trim_working_set = true;
    editor.apply(ProfileOp::UpdateProfile(edited), &mut draft, &s);
    assert!(draft.as_ref().unwrap().profiles[1].trim_working_set);
    editor.apply(ProfileOp::ExitEdit, &mut draft, &s);
    assert!(editor.editing_id.is_none());
    editor.apply(ProfileOp::DeleteProfile("eco".into()), &mut draft, &s);
    assert_eq!(draft.as_ref().unwrap().find_profile("eco"), None);
    let call = editor.apply(ProfileOp::ApplyNow("perf".into()), &mut draft, &s).unwrap();
    assert_eq!(call.request, Request::ApplyOnce { profile: "perf".into() });
    assert_eq!(call.label, "apply now");
    let call = editor.apply(ProfileOp::SetManual("perf".into()), &mut draft, &s).unwrap();
    assert_eq!(call.request, Request::SetManualOverride { profile: "perf".into() });
    let call = editor.apply(ProfileOp::ClearManual, &mut draft, &s).unwrap();
    assert_eq!(call.request, Request::ClearManualOverride);
}

#[test]
fn the_balancer_is_switched_without_other_changes() {
    let mut s = status();
    s.policy.probalance.enabled = true;
    s.policy.probalance.system_cpu_threshold_percent = 70;
    s.policy.probalance.hog_cpu_threshold_percent = 25;
    s.policy.probalance.min_restrain_ms = 1500;
    let (p, label) = stored(toggle_balance(&s));
    assert_eq!(label, "toggle probalance");
    assert!(!p.probalance.enabled);
    assert_eq!(p.rules, s.policy.rules);
    let card = balance_card(&s.policy.probalance, 2);
    assert_eq!(card.badge, "Enabled");
    assert_eq!(card.button, "Disable ProBalance");
    assert_eq!(card.restraining, "2 processes");
    assert_eq!(card.restraining_tone, Tone::Warning);
    assert_eq!(
        card.trigger,
        "system CPU >= 70% AND non-foreground hog >= 25% of one core"
    );
    assert_eq!(card.dwell, "1500 ms before any restraint can be released");
    let off = balance_card(&p.probalance, 0);
    assert_eq!(off.badge_tone, Tone::TextMuted);
    assert_eq!(off.button, "Enable ProBalance");
}

#[test]
fn eligible_profiles_can_be_entered_system_wide() {
    let mut s = status();
    s.policy.profiles[0].manual_global_eligible = true;
    s.policy.profiles[2].manual_global_eligible = true;
    assert_eq!(list_eligible(&s), vec!["perf".to_string(), "game".to_string()]);
    assert_eq!(enter_label("game-x3d"), "Enter Game X3D");
    assert_eq!(
        enter_manual_global("game".into()).request,
        Request::EnableManualGlobalGameMode { profile: "game".into() }
    );
    assert_eq!(exit_manual_global().request, Request::DisableManualGlobalGameMode);
    assert_eq!(hotkey_call(&s), Some(enter_manual_global("perf".into())));
    s.manual_global_active = Some("game".into());
    assert_eq!(hotkey_call(&s), Some(exit_manual_global()));
    assert_eq!(hotkey_call(&status()), None);
    assert!(!in_game_mode(&s));
    let mut active = Profile::new("game");
    active.game_mode = Some(Default::default());
    s.active_profile = Some(active);
    assert!(in_game_mode(&s));
}
