use framesage_tray::formatters::{
    cpu_percent_color, decode_affinity_mask, display_profile_id, format_bytes, format_top_cores,
    format_tray_tooltip, priority_class_label, round_to_mib, truncate_for_echo,
};
use framesage_tray::ipc::{ForegroundSnapshot, StatusSnapshot};
use framesage_tray::policy::{Policy, Profile};
use framesage_tray::theme::Tone;

#[test]
fn profile_id_display_handles_common_cases() {
    assert_eq!(display_profile_id("perf"), "Perf");
    assert_eq!(display_profile_id("eco"), "Eco");
    assert_eq!(display_profile_id("game-x3d"), "Game X3D");
    assert_eq!(display_profile_id("low_power"), "Low Power");
    assert_eq!(display_profile_id("cpu-bound"), "CPU Bound");
    assert_eq!(display_profile_id(""), "");
}

#[test]
fn decode_affinity_mask_collapses_contiguous_runs() {
    assert_eq!(decode_affinity_mask(0x0000_00ff), "CPUs: 0–7");
    assert_eq!(decode_affinity_mask(0x0000_800f), "CPUs: 0–3, 15");
    assert_eq!(decode_affinity_mask(0x0000_0001), "CPUs: 0");
    assert_eq!(decode_affinity_mask(0xffff_ffff), "CPUs: 0–31");
    assert_eq!(decode_affinity_mask(0b1010_1010), "CPUs: 1, 3, 5, 7");
}

#[test]
fn decode_affinity_mask_empty_renders_none() {
    assert_eq!(decode_affinity_mask(0), "(none)");
}

#[test]
fn decode_affinity_mask_includes_high_bits() {
    assert_eq!(decode_affinity_mask(1u64 << 63), "CPUs: 63");
    assert_eq!(decode_affinity_mask(0xff00_0000_0000_0000), "CPUs: 56–63");
}

#[test]
fn format_top_cores_sorts_descending_and_caps() {
    let pct = vec![10, 80, 30, 95, 5, 50, 70, 20];
    let s = format_top_cores(&pct, 3);
    assert_eq!(s, "Core 3: 95%\nCore 1: 80%\nCore 6: 70%");
}

#[test]
fn format_top_cores_handles_empty() {
    assert_eq!(
        format_top_cores(&[], 5),
        "(per-core data not available yet)"
    );
}

#[test]
fn truncate_for_echo_short_string_unchanged() {
    assert_eq!(truncate_for_echo("hello", 40), "hello");
}

#[test]
fn truncate_for_echo_long_string_gets_ellipsis() {
    let s = "a".repeat(100);
    let got = truncate_for_echo(&s, 10);
    assert_eq!(got.chars().count(), 10);
    assert!(got.ends_with('…'));
}

#[test]
fn truncate_for_echo_respects_chars_not_bytes() {
    let s = "æøåæøåæøå";
    let got = truncate_for_echo(s, 5);
    assert_eq!(got.chars().count(), 5);
}

fn fake_status(paused: bool, profile: Option<&str>, fg: Option<&str>) -> StatusSnapshot {
    let active_profile = profile.map(|id| {
        let mut p = Profile::new(id);
        p.description = format!("test profile {id}");
        p
    });
    let foreground = fg.map(|exe| ForegroundSnapshot {
        pid: 42,
        exe_name: exe.to_string(),
        path: String::new(),
        title: String::new(),
    });
    StatusSnapshot {
        paused,
        policy: Policy::default(),
        foreground,
        active_profile,
        manual_override: None,
        manual_global_active: None,
        closed_loop_build_supported: false,
    }
}

#[test]
fn format_tray_tooltip_disconnected_state() {
    let s = format_tray_tooltip(false, None);
    assert!(s.contains("disconnected"));
    assert!(s.contains("Active: —"));
    assert!(s.contains("Foreground: —"));
}

#[test]
fn format_tray_tooltip_paused_with_profile() {
    let snap = fake_status(true, Some("game-x3d"), Some("bf6.exe"));
    let s = format_tray_tooltip(true, Some(&snap));
    assert!(s.contains("paused"));
    assert!(s.contains("game-x3d"));
    assert!(s.contains("bf6.exe"));
}

#[test]
fn format_tray_tooltip_running_no_foreground() {
    let snap = fake_status(false, None, None);
    let s = format_tray_tooltip(true, Some(&snap));
    assert!(s.contains("running"));
    assert!(s.contains("Active: —"));
    assert!(s.contains("Foreground: —"));
}

#[test]
fn byte_counts_pick_the_largest_unit() {
    assert_eq!(format_bytes(0), "0 B");
    assert_eq!(format_bytes(1023), "1023 B");
    assert_eq!(format_bytes(1024), "1 KB");
    assert_eq!(format_bytes(1_048_575), "1023 KB");
    assert_eq!(format_bytes(1_048_576), "1 MB");
    assert_eq!(format_bytes(1_073_741_823), "1023 MB");
    assert_eq!(format_bytes(1_073_741_824), "1.0 GB");
    assert_eq!(format_bytes(51_110_000_000), "47.6 GB");
}

#[test]
fn gibibytes_round_as_floats_do() {
    let gib = 1_073_741_824u64;
    let mut counts: Vec<u64> = vec![
        gib,
        gib + gib / 20,
        gib + 3 * (gib / 20),
        gib + gib / 4,
        gib + 3 * (gib / 4),
        u64::MAX,
        u64::MAX / 3,
        (1 << 53) + 1,
        (1 << 53) + 3,
        (1 << 60) + 65,
    ];
    let mut x: u64 = 88_172_645_463_325_252;
    for _ in 0..2000 {
        x ^= x << 13;
        x ^= x >> 7;
        x ^= x << 17;
        counts.push(x | gib);
        counts.push((x >> 20) | gib);
    }
    for b in counts {
        assert_eq!(
            format_bytes(b),
            format!("{:.1} GB", b as f64 / (1024.0 * 1024.0 * 1024.0))
        );
        assert_eq!(
            format!("{}", round_to_mib(b)),
            format!("{:.0}", b as f64 / (1024.0 * 1024.0))
        );
    }
    assert_eq!(round_to_mib(524_288), 0);
    assert_eq!(round_to_mib(1_572_864), 2);
    assert_eq!(round_to_mib(2_621_440), 2);
}

#[test]
fn cpu_tones_step_at_their_limits() {
    assert_eq!(cpu_percent_color(0), Tone::Success);
    assert_eq!(cpu_percent_color(10), Tone::Success);
    assert_eq!(cpu_percent_color(11), Tone::Text);
    assert_eq!(cpu_percent_color(50), Tone::Text);
    assert_eq!(cpu_percent_color(51), Tone::Warning);
    assert_eq!(cpu_percent_color(80), Tone::Warning);
    assert_eq!(cpu_percent_color(81), Tone::Error);
    assert_eq!(cpu_percent_color(1600), Tone::Error);
}

#[test]
fn busy_cores_keep_their_order_on_ties() {
    assert_eq!(format_top_cores(&[5, 9, 9], 2), "Core 1: 9%\nCore 2: 9%");
    assert_eq!(format_top_cores(&[7], 5), "Core 0: 7%");
    assert_eq!(format_top_cores(&[7, 8], 0), "");
}

#[test]
fn priority_classes_have_names() {
    assert_eq!(priority_class_label(0x20), "Normal");
    assert_eq!(priority_class_label(0x40), "Idle");
    assert_eq!(priority_class_label(0x80), "High");
    assert_eq!(priority_class_label(0x4000), "BelowNormal");
    assert_eq!(priority_class_label(0x8000), "AboveNormal");
}

#[test]
fn an_echo_of_the_limit_stays_whole() {
    assert_eq!(truncate_for_echo("abcde", 5), "abcde");
    assert_eq!(truncate_for_echo("abcdef", 5), "abcd…");
    assert_eq!(truncate_for_echo("ab", 1), "…");
}

#[test]
fn shown_ids_ignore_the_separator_and_settle() {
    for id in ["game-x3d", "low--power_", "-_", "cpu", "a b-c", "Épée-io", "x"] {
        let shown = display_profile_id(id);
        assert_eq!(display_profile_id(&id.replace('-', "_")), shown);
        assert_eq!(display_profile_id(&shown), shown);
    }
}

#[test]
fn different_masks_read_differently() {
    let masks = [0u64, 1, 2, 3, 5, 0xff, 0x800f, 0x10_0000, u64::MAX, 1 << 63, 0xaaaa];
    for a in masks {
        for b in masks {
            assert_eq!(decode_affinity_mask(a) == decode_affinity_mask(b), a == b);
        }
    }
}
