use framesage_tray::ipc::{Request, StatusSnapshot};
use framesage_tray::policy::Policy;
use framesage_tray::sessions::{
    action_request, band_is_strong, band_tone, chart_marker, click_entry, collect_frames,
    collect_heat, detail_hint, entry_line, find_apply, page_action, sessions_page, storage_line,
    strip_marks, windows_line, DeltaBand, SessionDetailState, SessionEvent, SessionListEntry,
    SessionsAction, SessionsPage, NO_SESSIONS_BODY, NO_SESSIONS_PRIVACY_FOOTER,
    UNSUPPORTED_BUILD_BODY, UNSUPPORTED_BUILD_HEADING, WHY_REQUIREMENT_BODY,
};
use framesage_tray::theme::Tone;

#[test]
fn unsupported_build_heading_contains_required_substring() {
    assert!(UNSUPPORTED_BUILD_HEADING.contains("requires Windows 11 24H2 or later"));
}

#[test]
fn unsupported_build_does_not_contain_no_sessions_framing() {
    let combined = format!("{UNSUPPORTED_BUILD_HEADING} {UNSUPPORTED_BUILD_BODY}");
    assert!(!combined.contains("After your first 90-second gaming session"));
}

#[test]
fn no_sessions_body_contains_required_substring() {
    assert!(NO_SESSIONS_BODY.contains("After your first 90-second gaming session"));
}

const README: &str = "## System requirements (closed-loop measurement)

The static-rule engine (rules, Game Mode, ProBalance) supports Windows 10 22H2 and Windows 11. **Closed-loop measurement** — session recording and the \"Did it help?\" attribution UI — additionally requires **Windows 11 24H2 (build 26100) or later**. ETW kernel-event schemas are stable on builds we've empirically validated, and v0.7 ships with empirical validation only on Win11 24H2. Older builds may or may not work, and v0.7 won't claim measurement results it can't substantiate.
";

#[test]
fn why_requirement_panel_matches_readme_verbatim() {
    let normalize = |s: &str| s.split_whitespace().collect::<Vec<_>>().join(" ");
    assert!(
        normalize(README).contains(&normalize(WHY_REQUIREMENT_BODY)),
        "README 'System requirements' rationale must contain the panel copy verbatim"
    );
}

#[test]
fn no_sessions_privacy_footer_contains_local_only_commitment() {
    assert!(NO_SESSIONS_PRIVACY_FOOTER.contains("nothing leaves your machine"));
}

fn status(supported: bool, enabled: bool) -> StatusSnapshot {
    StatusSnapshot {
        paused: false,
        policy: Policy {
            closed_loop_enabled: enabled,
            ..Policy::default()
        },
        foreground: None,
        active_profile: None,
        manual_override: None,
        manual_global_active: None,
        closed_loop_build_supported: supported,
    }
}

fn entry(id: &str, bytes: u64) -> SessionListEntry {
    SessionListEntry {
        session_id: id.into(),
        game_exe: "bf6.exe".into(),
        profile_id: "game-x3d".into(),
        duration_secs: Some(605),
        partial_data: false,
        file_bytes: bytes,
    }
}

#[test]
fn the_page_follows_build_list_and_switch() {
    assert_eq!(sessions_page(None, Some(3)), SessionsPage::Connecting);
    let old = status(false, true);
    assert_eq!(sessions_page(Some(&old), Some(3)), SessionsPage::UnsupportedBuild);
    assert_eq!(sessions_page(Some(&old), None), SessionsPage::UnsupportedBuild);
    let new = status(true, false);
    assert_eq!(sessions_page(Some(&new), None), SessionsPage::Loading);
    assert_eq!(
        sessions_page(Some(&new), Some(0)),
        SessionsPage::NoSessions { enabled: false }
    );
    let on = status(true, true);
    assert_eq!(
        sessions_page(Some(&on), Some(0)),
        SessionsPage::NoSessions { enabled: true }
    );
    assert_eq!(sessions_page(Some(&on), Some(1)), SessionsPage::List);
}

#[test]
fn the_list_is_fetched_once() {
    assert_eq!(
        page_action(SessionsPage::Loading, false),
        Some(SessionsAction::RefreshList)
    );
    assert_eq!(page_action(SessionsPage::Loading, true), None);
    assert_eq!(page_action(SessionsPage::List, false), None);
    assert_eq!(action_request(SessionsAction::RefreshList), Some(Request::ListSessions));
    assert_eq!(
        action_request(SessionsAction::OpenDetail("s1".into())),
        Some(Request::ReadSession {
            session_id: "s1".into()
        })
    );
    assert_eq!(action_request(SessionsAction::OpenClosedLoopOptIn), None);
}

#[test]
fn list_lines_name_count_size_and_duration() {
    let one = vec![entry("a", 1_572_864)];
    assert_eq!(
        storage_line(&one).unwrap(),
        "📁 1 session stored · 2 MB · cap 1 GB"
    );
    let two = vec![entry("a", 1_000_000), entry("b", 2_000_000)];
    assert_eq!(
        storage_line(&two).unwrap(),
        "📁 2 sessions stored · 3 MB · cap 1 GB"
    );
    assert_eq!(
        storage_line(&[]).unwrap(),
        "📁 0 sessions stored · 0 MB · cap 1 GB"
    );
    assert!(storage_line(&[entry("a", u64::MAX), entry("b", 1)]).is_none());
    assert_eq!(entry_line(&one[0]), "🎮 bf6.exe · game-x3d · 10m05s");
    let mut cut = entry("c", 0);
    cut.duration_secs = None;
    cut.partial_data = true;
    assert_eq!(
        entry_line(&cut),
        "🎮 bf6.exe · game-x3d · in progress / crashed  ⚠ partial data"
    );
}

#[test]
fn the_open_session_is_not_opened_again() {
    let e = entry("a", 0);
    assert_eq!(click_entry(&e, Some(&"a".to_string())), None);
    assert_eq!(
        click_entry(&e, Some(&"b".to_string())),
        Some(SessionsAction::OpenDetail("a".into()))
    );
    assert_eq!(click_entry(&e, None), Some(SessionsAction::OpenDetail("a".into())));
    assert_eq!(detail_hint(true), "Loading session…");
}

fn events() -> Vec<SessionEvent> {
    vec![
        SessionEvent::Other,
        SessionEvent::FrameSample {
            at_ms: 100,
            frame_time_us_p50: 8_000,
            frame_time_us_p99: 12_000,
        },
        SessionEvent::CpuSample {
            at_ms: 110,
            per_core_pct: vec![10, 20],
        },
        SessionEvent::FramesageAction {
            at_ms: 150,
            action: "something_else".into(),
        },
        SessionEvent::FramesageAction {
            at_ms: 160,
            action: "game_mode_entered".into(),
        },
        SessionEvent::CpuSample {
            at_ms: 170,
            per_core_pct: vec![],
        },
        SessionEvent::CpuSample {
            at_ms: 180,
            per_core_pct: vec![1, 2, 3],
        },
        SessionEvent::FrameSample {
            at_ms: 200,
            frame_time_us_p50: 7_000,
            frame_time_us_p99: 9_000,
        },
    ]
}

#[test]
fn charts_draw_what_was_recorded() {
    let all = events();
    let frames = collect_frames(&all);
    assert_eq!(frames, vec![(100, 8_000, 12_000), (200, 7_000, 9_000)]);
    assert_eq!(find_apply(&all), Some(160));
    assert_eq!(chart_marker(&frames, Some(160)), Some(160));
    assert_eq!(chart_marker(&frames, Some(99)), None);
    assert_eq!(chart_marker(&frames, Some(201)), None);
    assert_eq!(chart_marker(&frames[..1], Some(100)), None);
    assert_eq!(find_apply(&all[..4]), None);
    assert_eq!(collect_heat(&all), vec![vec![10, 20, 0], vec![1, 2, 3]]);
    assert!(collect_heat(&all[..2]).is_empty());
}

#[test]
fn a_session_is_summed_up() {
    let mut detail = SessionDetailState {
        session_id: "s".into(),
        events: events(),
        skipped_lines: 0,
        show_partial_anyway: false,
    };
    assert_eq!(detail.summary(), "8 events · 2 frame samples · 2 actions");
    detail.skipped_lines = 3;
    assert_eq!(
        detail.summary(),
        "8 events · 2 frame samples · 2 actions · 3 malformed lines skipped"
    );
}

#[test]
fn answers_are_honest_in_tone() {
    assert_eq!(band_tone(DeltaBand::Improved), Tone::Success);
    assert_eq!(band_tone(DeltaBand::ModestImprovement), Tone::TextMuted);
    assert_eq!(band_tone(DeltaBand::SlightRegression), Tone::Warning);
    assert!(band_is_strong(DeltaBand::Degraded));
    assert!(!band_is_strong(DeltaBand::NoEffect));
    for headline in ["1% lows **degraded** by 4%", "***", "**", "a*b", "", "****x**"] {
        assert_eq!(strip_marks(headline), headline.replace("**", ""));
    }
    assert_eq!(
        windows_line((0, 30_999), (31_000, 90_000)),
        "baseline 0s–30s · with rules 31s–90s"
    );
}
