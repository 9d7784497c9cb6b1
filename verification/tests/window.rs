use framesage_tray::activity_tab::{empty_message, latest_labels, ActivityLogView};
use framesage_tray::ipc::{Request, SystemMetrics};
use framesage_tray::policy::{GameModeActions, Profile};
use framesage_tray::shell::{
    engine_call, pause_hover, pause_label, pause_order, tabs, window_title, EngineOrder, Tab,
    TrayCommands, TrayEntry, WindowStep,
};
use framesage_tray::startup::{relaunch_echo, relaunch_outcome, singleton_step, SingletonStep};
use framesage_tray::state::{EventKind, RecentEvent, Timestamp};
use framesage_tray::status_tab::{count_managed, count_restrained};
use framesage_tray::theme::{fill_alpha, Color, Palette, Theme, Tone};
use framesage_tray::widgets::{
    file_time, format_clock, format_count_summary, format_utc_hms, game_mode_lines, is_failure,
    load_readout, status_bar, yes_no, ActionEcho, ECHO_MS,
};

fn ev(kind: EventKind, label: &str) -> RecentEvent {
    RecentEvent {
        at: Timestamp { secs: 0, nanos: 0 },
        kind,
        label: label.into(),
    }
}

#[test]
fn the_activity_list_is_filtered_and_newest_first() {
    let events = vec![
        ev(EventKind::Foreground, "Steam -> perf"),
        ev(EventKind::Engine, "engine paused"),
        ev(EventKind::ProBalanceRestrained, "demoted steam"),
        ev(EventKind::Other, "action failed"),
    ];
    let mut view = ActivityLogView::default();
    assert_eq!(view.visible(&events), vec![3, 2, 1, 0]);
    view.filter = "STEAM".into();
    assert_eq!(view.visible(&events), vec![2, 0]);
    view.show_foreground = false;
    assert_eq!(view.visible(&events), vec![2]);
    view.show_probalance_restrain = false;
    assert!(view.visible(&events).is_empty());
    assert_eq!(empty_message(false), "No events match the current filter.");
    assert!(empty_message(true).starts_with("No events yet."));
    assert_eq!(latest_labels(&events, 2), vec!["action failed", "demoted steam"]);
    assert_eq!(latest_labels(&events, 9).len(), 4);
    assert!(!view.wants_kind(EventKind::Foreground));
    assert!(view.wants_kind(EventKind::Other));
}

#[test]
fn the_tray_menu_is_carried_out_on_the_next_frame() {
    let mut c = TrayCommands::default();
    let mut tab = Tab::default();
    assert_eq!(tab, Tab::Status);
    c.press(TrayEntry::View(Tab::Rules));
    c.press(TrayEntry::Pause);
    c.press(TrayEntry::Pause);
    let steps = c.frame(&mut tab, false, false);
    assert_eq!(
        steps,
        vec![
            WindowStep::Visible(true),
            WindowStep::Minimized(false),
            WindowStep::Focus,
            WindowStep::Order(EngineOrder::Pause),
        ]
    );
    assert_eq!(tab, Tab::Rules);
    assert!(c.window_visible);
    assert!(c.frame(&mut tab, false, false).is_empty());
    c.press(TrayEntry::Hide);
    assert_eq!(c.frame(&mut tab, false, false), vec![WindowStep::Visible(false)]);
    assert!(!c.window_visible);
    c.press(TrayEntry::EditPolicy);
    c.press(TrayEntry::OpenConfig);
    c.press(TrayEntry::GameModeOff);
    c.press(TrayEntry::Resume);
    assert_eq!(
        c.frame(&mut tab, false, false),
        vec![
            WindowStep::Order(EngineOrder::Resume),
            WindowStep::Order(EngineOrder::GameModeOff),
            WindowStep::OpenConfigFolder,
            WindowStep::EditPolicy,
        ]
    );
}

#[test]
fn closing_hides_and_only_exit_quits() {
    let mut c = TrayCommands::default();
    let mut tab = Tab::Status;
    assert_eq!(
        c.frame(&mut tab, true, false),
        vec![WindowStep::CancelClose, WindowStep::Visible(false)]
    );
    assert!(!c.window_visible);
    c.press(TrayEntry::Exit);
    assert_eq!(c.frame(&mut tab, false, false), vec![WindowStep::Close]);
    assert!(c.frame(&mut tab, true, false).is_empty());
    assert!(c.exit_requested);
}

#[test]
fn tabs_and_controls_are_labelled() {
    let names: Vec<&str> = tabs().into_iter().map(|t| t.label()).collect();
    assert_eq!(names, vec!["Processes", "Status", "Activity", "Rules", "Profiles"]);
    assert_eq!(Tab::Rules.menu_entry(Tab::Rules), "* Rules");
    assert_eq!(Tab::Rules.menu_entry(Tab::Status), "  Rules");
    assert!(Tab::Activity.hover().contains("filter chips"));
    assert_eq!(pause_order(true), EngineOrder::Resume);
    assert_eq!(pause_label(false), "Pause");
    assert!(pause_hover(true).starts_with("Resume the engine"));
    let call = engine_call(EngineOrder::GameModeOff);
    assert_eq!((call.request, call.label), (Request::GameModeOff, "game-mode off"));
    assert_eq!(window_title(true), "FrameSage (admin)");
    assert_eq!(window_title(false), "FrameSage");
}

#[test]
fn a_second_instance_waits_then_gives_way() {
    assert_eq!(singleton_step(false, 0), SingletonStep::Primary);
    assert_eq!(singleton_step(true, 2_999), SingletonStep::Retry);
    assert_eq!(singleton_step(true, 3_000), SingletonStep::AlreadyRunning);
    assert_eq!(relaunch_outcome(33), Ok(()));
    assert_eq!(
        relaunch_outcome(5),
        Err("ShellExecute(runas) failed: HINSTANCE=5 (likely UAC declined or path resolution error)".into())
    );
    assert!(relaunch_outcome(-7).unwrap_err().contains("HINSTANCE=-7 "));
    assert!(relaunch_outcome(i64::MIN).unwrap_err().contains("HINSTANCE=-9223372036854775808 "));
    assert_eq!(relaunch_echo("no"), "relaunch failed: no");
}

#[test]
fn clocks_have_two_digits() {
    assert_eq!(format_clock(7, 5, 59), "07:05:59");
    assert_eq!(format_utc_hms(0), "00:00:00");
    assert_eq!(format_utc_hms(-1), "00:00:00");
    assert_eq!(format_utc_hms(86_399), "23:59:59");
    assert_eq!(format_utc_hms(1_736_000_002), "14:13:22");
    let (low, high) = file_time(1_736_000_002);
    let ticks = ((high as u64) << 32) | low as u64;
    assert_eq!(ticks, 1_736_000_002 * 10_000_000 + 116_444_736_000_000_000);
    assert_eq!(file_time(u64::MAX), (u32::MAX, u32::MAX));
}

#[test]
fn the_readout_warns_of_full_memory() {
    let mut m = SystemMetrics {
        cpu_percent: 62,
        memory_used_bytes: 54,
        memory_total_bytes: 100,
        per_core_cpu_percent: vec![1, 2],
    };
    let r = load_readout(&m);
    assert_eq!(r.memory, "54%");
    assert_eq!(r.memory_tone, Tone::Text);
    assert_eq!(r.memory_hover, "54 B / 100 B used");
    assert_eq!(r.cpu, "62%");
    assert_eq!(r.cpu_tone, Tone::Warning);
    assert_eq!(r.cpu_hover, "Core 1: 2%\nCore 0: 1%");
    m.memory_used_bytes = 76;
    assert_eq!(load_readout(&m).memory_tone, Tone::Warning);
    m.memory_used_bytes = 91;
    assert_eq!(load_readout(&m).memory_tone, Tone::Error);
    m.memory_total_bytes = 0;
    assert_eq!(load_readout(&m).memory, "0%");
}

#[test]
fn the_status_bar_speaks_of_state_counts_and_failures() {
    let id = "game-x3d".to_string();
    let msg = "set priority: Denied".to_string();
    let bar = status_bar(true, false, Some(&id), 120, 3, Some(&msg));
    assert_eq!(bar.state, "Manual");
    assert_eq!(bar.state_tone, Tone::Accent);
    assert_eq!(bar.pinned, Some("override: game-x3d".into()));
    assert_eq!(bar.counts, "120 processes (3 managed)");
    assert_eq!(bar.echo, Some(msg.clone()));
    assert_eq!(bar.echo_tone, Tone::Error);
    let bar = status_bar(false, true, None, 0, 0, None);
    assert_eq!(bar.state, "Disconnected");
    assert_eq!(bar.counts, "0 processes");
    assert_eq!(bar.echo, None);
    assert_eq!(status_bar(true, true, None, 0, 0, None).state, "Paused");
    assert_eq!(status_bar(true, false, None, 0, 0, None).state, "Running");
    let long = "y".repeat(90);
    let shown = status_bar(true, false, None, 0, 0, Some(&long)).echo.unwrap();
    assert_eq!(shown.chars().count(), 80);
    assert!(is_failure("IT FAILED"));
    assert!(is_failure("request refused"));
    assert!(!is_failure("pause: ok"));
}

#[test]
fn lists_are_shortened() {
    let items: Vec<String> = ["a", "b", "c", "d"].iter().map(|s| s.to_string()).collect();
    assert_eq!(format_count_summary(&items[..3]), "a, b, c");
    assert_eq!(format_count_summary(&items), "4 items: a, b, c…");
    assert_eq!(yes_no(true), "Yes");
    let mut p = Profile::new("game");
    assert_eq!(game_mode_lines(&p), None);
    p.game_mode = Some(GameModeActions {
        stop_services: items,
        hide_taskbar: true,
        ..Default::default()
    });
    let lines = game_mode_lines(&p).unwrap();
    assert_eq!(lines.hide_taskbar, "Yes");
    assert_eq!(lines.stop_services, "4 items: a, b, c…");
    assert_eq!(lines.suspend_processes, "—");
    assert_eq!(lines.pause_windows_update, "No");
}

#[test]
fn nothing_is_managed_without_processes() {
    assert_eq!(count_managed(&[]), 0);
    assert_eq!(count_restrained(&[]), 0);
}

#[test]
fn palettes_give_every_tone_its_colour() {
    let dark = Theme::Dark.palette();
    assert_eq!(dark, Palette::dark());
    assert_eq!(Theme::Light.palette(), Palette::light());
    assert_eq!(Theme::default(), Theme::Dark);
    assert_eq!(dark.tone(Tone::Accent), dark.accent);
    assert_ne!(dark.tone(Tone::Text), dark.tone(Tone::TextMuted));
}

#[test]
fn translucent_fills_are_premultiplied() {
    let c = Color::from_rgb(88, 166, 255);
    assert_eq!(fill_alpha(c, 255), c);
    assert_eq!(fill_alpha(c, 0), Color { r: 0, g: 0, b: 0, a: 0 });
    for alpha in [1u8, 13, 30, 40, 128] {
        let got = fill_alpha(c, alpha);
        let want = egui::Color32::from_rgba_unmultiplied(88, 166, 255, alpha);
        assert_eq!([got.r, got.g, got.b, got.a], want.to_array());
        assert_ne!(got, Color { a: alpha, ..c });
    }
    for dark in 0..=10u8 {
        for alpha in 0..=255u8 {
            let want = ((2 * u32::from(dark) * u32::from(alpha) + 255) / 510) as u8;
            let got = fill_alpha(Color::from_rgb(dark, dark, dark), alpha);
            assert_eq!(got, Color { r: want, g: want, b: want, a: alpha });
        }
    }
    assert_eq!(fill_alpha(Color::from_rgb(10, 0, 3), 128), Color { r: 5, g: 0, b: 2, a: 128 });
}

#[test]
fn the_tray_icon_toggles_the_window() {
    let mut c = TrayCommands::default();
    let mut tab = Tab::Status;
    let shown = vec![WindowStep::Visible(true), WindowStep::Minimized(false), WindowStep::Focus];
    c.press(TrayEntry::Icon);
    assert_eq!(c.frame(&mut tab, false, false), vec![WindowStep::Visible(false)]);
    assert!(c.frame(&mut tab, false, false).is_empty());
    c.press(TrayEntry::Icon);
    assert_eq!(c.frame(&mut tab, false, false), shown);
    assert!(c.frame(&mut tab, false, true).is_empty());
    c.press(TrayEntry::Icon);
    assert_eq!(c.frame(&mut tab, false, true), shown);
    c.press(TrayEntry::Open);
    assert_eq!(c.frame(&mut tab, false, false), shown);
}

#[test]
fn an_echo_fades_after_a_few_seconds() {
    let mut echo = ActionEcho::default();
    echo.tick(100);
    assert_eq!(echo.since_ms, None);
    echo.say("paused".into());
    echo.tick(1000);
    echo.tick(1000 + ECHO_MS - 1);
    assert_eq!(echo.text, Some("paused".into()));
    echo.say("resumed".into());
    echo.tick(1000 + ECHO_MS);
    assert_eq!(echo.text, Some("resumed".into()));
    echo.tick(1000 + 2 * ECHO_MS);
    assert_eq!(echo, ActionEcho::default());
    assert_eq!(ECHO_MS, 5000);
}
