use framesage_tray::state::{AppState, EventKind, RecentEvent, SessionStats, Timestamp};
use framesage_tray::theme::Tone;

fn ev(at: Timestamp, kind: EventKind, label: &str) -> RecentEvent {
    RecentEvent {
        at,
        kind,
        label: label.to_owned(),
    }
}

fn now() -> Timestamp {
    Timestamp {
        secs: 1_760_000_000,
        nanos: 250,
    }
}

fn ago(secs: i64) -> Timestamp {
    Timestamp {
        secs: now().secs - secs,
        nanos: now().nanos,
    }
}

#[test]
fn session_stats_counts_events_within_window() {
    let recent = vec![
        ev(ago(60), EventKind::Foreground, "notepad -> perf"),
        ev(ago(120), EventKind::Foreground, "vscode -> perf"),
        ev(ago(300), EventKind::Foreground, "bf6 -> game-x3d"),
        ev(ago(180), EventKind::ProBalanceRestrained, "chrome demoted"),
        ev(ago(150), EventKind::ProBalanceRestrained, "slack demoted"),
        ev(ago(140), EventKind::ProBalanceRestored, "chrome restored"),
        ev(
            ago(400),
            EventKind::Engine,
            "Game Mode entered: game-x3d (24 svcs, 16 procs)",
        ),
        ev(
            ago(48 * 60 * 60),
            EventKind::Foreground,
            "ancient -> default",
        ),
        ev(
            ago(25 * 60 * 60),
            EventKind::ProBalanceRestrained,
            "ancient demote",
        ),
    ];
    let stats = SessionStats::from_recent(&recent, now());
    assert_eq!(stats.profiles_applied, 3);
    assert_eq!(stats.probalance_demotions, 2);
    assert_eq!(stats.probalance_restores, 1);
    assert_eq!(stats.game_mode_sessions, 1);
}

#[test]
fn session_stats_empty_buffer_yields_zeros() {
    let stats = SessionStats::from_recent(&[], now());
    assert_eq!(stats, SessionStats::default());
}

#[test]
fn session_stats_engine_events_without_game_mode_prefix_dont_count() {
    let recent = vec![
        ev(ago(60), EventKind::Engine, "engine paused"),
        ev(ago(50), EventKind::Engine, "engine resumed"),
        ev(
            ago(40),
            EventKind::Engine,
            "Game Mode exited: game-x3d after 1800s",
        ),
    ];
    let stats = SessionStats::from_recent(&recent, now());
    assert_eq!(
        stats.game_mode_sessions, 0,
        "only 'Game Mode entered' labels should count as sessions"
    );
}

#[test]
fn the_window_is_a_day_to_the_nanosecond() {
    let day = 24 * 60 * 60;
    let edge = ago(day);
    let just_out = Timestamp {
        secs: edge.secs,
        nanos: edge.nanos - 1,
    };
    let recent = vec![
        ev(edge, EventKind::Foreground, "in"),
        ev(just_out, EventKind::Foreground, "out"),
    ];
    assert_eq!(SessionStats::from_recent(&recent, now()).profiles_applied, 1);
}

#[test]
fn tallies_of_joined_lists_add_up() {
    let list = || {
        vec![
            ev(ago(10), EventKind::Foreground, "a"),
            ev(ago(20), EventKind::ProBalanceRestored, "b"),
            ev(ago(30), EventKind::Engine, "Game Mode entered: x"),
            ev(ago(90_000), EventKind::Foreground, "too old"),
        ]
    };
    let one = SessionStats::from_recent(&list(), now());
    let mut both = list();
    both.extend(list());
    let sum = SessionStats::from_recent(&both, now());
    assert_eq!(one.profiles_applied, 1);
    assert_eq!(sum.profiles_applied, 2 * one.profiles_applied);
    assert_eq!(sum.probalance_restores, 2 * one.probalance_restores);
    assert_eq!(sum.probalance_demotions, 0);
    assert_eq!(sum.game_mode_sessions, 2);
}

#[test]
fn categories_survive_the_disk() {
    for kind in [
        EventKind::Foreground,
        EventKind::Engine,
        EventKind::ProBalanceRestrained,
        EventKind::ProBalanceRestored,
        EventKind::Other,
    ] {
        assert_eq!(EventKind::from_persist_tag(kind.persist_tag()), kind);
    }
    assert_eq!(EventKind::from_persist_tag("no such tag"), EventKind::Other);
    assert_eq!(EventKind::ProBalanceRestrained.persist_tag(), "probalance_restrained");
    assert_eq!(EventKind::ProBalanceRestrained.display(), "ProBalance demote");
    assert_eq!(EventKind::ProBalanceRestrained.color(), Tone::Warning);
}

#[test]
fn the_state_starts_out_empty() {
    let s = AppState::default();
    assert!(!s.connected);
    assert!(s.status.is_none());
    assert!(s.recent.is_empty());
    assert!(s.processes.is_empty());
}
