use std::cmp::Ordering;
use std::collections::HashSet;

use framesage_tray::ipc::ProcessSnapshot;
use framesage_tray::tree::{
    build_tree_view, classify_row, column_hover_text, compare_snapshots, descendants_of,
    row_exe_color, row_marker_color, try_build_tree_view, ProcessSortKey, RowState,
};
use framesage_tray::theme::Tone;

fn make_proc(pid: u32) -> ProcessSnapshot {
    ProcessSnapshot {
        pid,
        parent_pid: 0,
        exe_name: "test.exe".into(),
        exe_path: String::new(),
        description: None,
        company: None,
        user: None,
        priority_class_raw: 0x20,
        affinity_mask: 0xFFFF,
        cpu_percent: 0,
        memory_bytes: 0,
        peak_working_set_bytes: 0,
        private_bytes: 0,
        threads: 1,
        matched_rule_note: None,
        managed_profile: None,
        restrained_by_probalance: false,
    }
}

#[test]
fn classify_row_foreground_beats_everything() {
    let mut p = make_proc(42);
    p.restrained_by_probalance = true;
    p.managed_profile = Some("game-x3d".into());
    assert_eq!(classify_row(&p, Some(42)), RowState::Foreground);
}

#[test]
fn classify_row_restrained_beats_managed() {
    let mut p = make_proc(7);
    p.restrained_by_probalance = true;
    p.managed_profile = Some("perf".into());
    assert_eq!(classify_row(&p, Some(1)), RowState::Restrained);
}

#[test]
fn classify_row_managed_when_only_profile() {
    let mut p = make_proc(7);
    p.managed_profile = Some("perf".into());
    assert_eq!(classify_row(&p, Some(1)), RowState::Managed);
}

#[test]
fn classify_row_default_otherwise() {
    let p = make_proc(7);
    assert_eq!(classify_row(&p, Some(1)), RowState::Default);
    assert_eq!(classify_row(&p, None), RowState::Default);
}

#[test]
fn row_marker_default_paints_nothing() {
    assert!(row_marker_color(RowState::Default).is_none());
    assert!(row_marker_color(RowState::Foreground).is_some());
    assert!(row_marker_color(RowState::Restrained).is_some());
    assert!(row_marker_color(RowState::Managed).is_some());
}

fn proc_with_parent(pid: u32, parent_pid: u32) -> ProcessSnapshot {
    let mut p = make_proc(pid);
    p.parent_pid = parent_pid;
    p
}

#[test]
fn build_tree_view_groups_children_under_parents() {
    let rows = vec![
        proc_with_parent(1, 0),
        proc_with_parent(2, 1),
        proc_with_parent(3, 1),
        proc_with_parent(4, 2),
        proc_with_parent(5, 99),
    ];
    let collapsed = HashSet::new();
    let tree = build_tree_view(&rows, &collapsed, |a, b| a.pid.cmp(&b.pid));
    let pids: Vec<u32> = tree.iter().map(|t| t.pid).collect();
    assert_eq!(pids, vec![1, 2, 4, 3, 5]);
    let depths: Vec<u8> = tree.iter().map(|t| t.depth).collect();
    assert_eq!(depths, vec![0, 1, 2, 1, 0]);
}

#[test]
fn build_tree_view_respects_collapsed() {
    let rows = vec![
        proc_with_parent(1, 0),
        proc_with_parent(2, 1),
        proc_with_parent(3, 1),
        proc_with_parent(4, 2),
        proc_with_parent(5, 0),
    ];
    let mut collapsed = HashSet::new();
    collapsed.insert(1);
    let tree = build_tree_view(&rows, &collapsed, |a, b| a.pid.cmp(&b.pid));
    let pids: Vec<u32> = tree.iter().map(|t| t.pid).collect();
    assert_eq!(pids, vec![1, 5]);
    assert!(tree[0].has_children);
    assert!(!tree[1].has_children);
}

#[test]
fn build_tree_view_treats_missing_parents_as_orphans() {
    let rows = vec![proc_with_parent(1, 0), proc_with_parent(7, 42)];
    let tree = build_tree_view(&rows, &HashSet::new(), |a, b| a.pid.cmp(&b.pid));
    assert_eq!(
        tree.iter()
            .filter(|t| t.depth == 0)
            .map(|t| t.pid)
            .collect::<Vec<_>>(),
        vec![1, 7]
    );
}

#[test]
fn build_tree_view_breaks_cycles() {
    let rows = vec![proc_with_parent(1, 2), proc_with_parent(2, 1)];
    let tree = build_tree_view(&rows, &HashSet::new(), |a, b| a.pid.cmp(&b.pid));
    assert!(tree.is_empty());
}

#[test]
fn build_tree_view_sort_applies_to_siblings_only() {
    let rows = vec![
        proc_with_parent(1, 0),
        proc_with_parent(2, 1),
        proc_with_parent(3, 1),
    ];
    let tree = build_tree_view(&rows, &HashSet::new(), |a, b| b.pid.cmp(&a.pid));
    let pids: Vec<u32> = tree.iter().map(|t| t.pid).collect();
    assert_eq!(pids, vec![1, 3, 2]);
}

#[test]
fn descendants_of_includes_root_and_walks_subtree() {
    let rows = vec![
        proc_with_parent(1, 0),
        proc_with_parent(2, 1),
        proc_with_parent(3, 1),
        proc_with_parent(4, 2),
        proc_with_parent(5, 0),
    ];
    let mut got = descendants_of(&rows, 1);
    got.sort_unstable();
    assert_eq!(got, vec![1, 2, 3, 4]);
    assert_eq!(descendants_of(&rows, 4), vec![4]);
}

#[test]
fn descendants_of_handles_cycle_without_looping() {
    let rows = vec![proc_with_parent(1, 2), proc_with_parent(2, 1)];
    let got = descendants_of(&rows, 1);
    assert_eq!(got.len(), 2);
    assert!(got.contains(&1));
    assert!(got.contains(&2));
}

#[test]
fn descendants_come_root_first_branch_by_branch() {
    let rows = vec![
        proc_with_parent(4, 2),
        proc_with_parent(2, 1),
        proc_with_parent(3, 1),
        proc_with_parent(1, 0),
        proc_with_parent(5, 2),
    ];
    assert_eq!(descendants_of(&rows, 1), vec![1, 2, 4, 5, 3]);
    assert_eq!(descendants_of(&rows, 77), vec![77]);
}

#[test]
fn collapsing_hides_exactly_the_branch() {
    let rows = vec![
        proc_with_parent(1, 0),
        proc_with_parent(2, 1),
        proc_with_parent(3, 2),
        proc_with_parent(4, 1),
        proc_with_parent(5, 0),
    ];
    let order = |a: &ProcessSnapshot, b: &ProcessSnapshot| a.pid.cmp(&b.pid);
    let all = build_tree_view(&rows, &HashSet::new(), order);
    let some = build_tree_view(&rows, &HashSet::from([2]), order);
    let kept: Vec<_> = all.iter().copied().filter(|r| r.pid != 3).collect();
    assert_eq!(some, kept);
    assert_eq!(some.iter().map(|r| r.pid).collect::<Vec<u32>>(), vec![1, 2, 4, 5]);
}

#[test]
fn rows_stand_below_their_parents_and_siblings_in_order() {
    let mut rows: Vec<ProcessSnapshot> = (1..40).map(|i| proc_with_parent(i, i / 3)).collect();
    rows.push(proc_with_parent(50, 51));
    rows.push(proc_with_parent(51, 50));
    for row in rows.iter_mut() {
        row.cpu_percent = (row.pid % 4) as u16;
    }
    let parent = |pid: u32| rows.iter().find(|r| r.pid == pid).map_or(0, |r| r.parent_pid);
    let collapsed = HashSet::from([4, 9]);
    let order = |a: &ProcessSnapshot, b: &ProcessSnapshot| b.cpu_percent.cmp(&a.cpu_percent);
    let view = build_tree_view(&rows, &collapsed, order);

    for pid in 1..40 {
        let mut folded = false;
        let mut above = parent(pid);
        while above != 0 {
            folded = folded || collapsed.contains(&above);
            above = parent(above);
        }
        assert_eq!(view.iter().any(|r| r.pid == pid), !folded);
    }
    assert!(!view.iter().any(|r| r.pid >= 50));

    for k in 0..view.len() {
        let row = &view[k];
        if row.depth == 0 {
            assert_eq!(parent(row.pid), 0);
        } else {
            let up = view[..k].iter().rev().find(|r| r.depth < row.depth).unwrap();
            assert_eq!((up.pid, up.depth + 1), (parent(row.pid), row.depth));
        }
        for later in &view[k + 1..] {
            if parent(later.pid) == parent(row.pid) {
                let load = |i: usize| rows[i].cpu_percent;
                let (a, b) = (row.row_index, later.row_index);
                assert!(load(a) > load(b) || (load(a) == load(b) && a < b));
            }
        }
    }
}

#[test]
fn a_process_that_is_its_own_parent_is_left_out() {
    let rows = vec![proc_with_parent(5, 5), proc_with_parent(6, 0)];
    let tree = build_tree_view(&rows, &HashSet::new(), |a, b| a.pid.cmp(&b.pid));
    let pids: Vec<u32> = tree.iter().map(|t| t.pid).collect();
    assert_eq!(pids, vec![6]);
}

#[test]
fn every_process_shows_once_and_collapsing_hides() {
    let rows: Vec<ProcessSnapshot> = (1..40).map(|i| proc_with_parent(i, i / 3)).collect();
    let all = build_tree_view(&rows, &HashSet::new(), |a, b| a.pid.cmp(&b.pid));
    let mut pids: Vec<u32> = all.iter().map(|t| t.pid).collect();
    pids.sort_unstable();
    assert_eq!(pids, (1..40).collect::<Vec<u32>>());
    let mut collapsed = HashSet::new();
    collapsed.insert(2);
    collapsed.insert(5);
    let some = build_tree_view(&rows, &collapsed, |a, b| a.pid.cmp(&b.pid));
    assert!(some.len() < all.len());
    for row in &some {
        assert!(all.contains(row));
    }
}

#[test]
fn a_chain_that_is_too_long_gives_no_tree() {
    let short: Vec<ProcessSnapshot> = (1..257).map(|i| proc_with_parent(i, i - 1)).collect();
    let long: Vec<ProcessSnapshot> = (1..258).map(|i| proc_with_parent(i, i - 1)).collect();
    let order = |a: &ProcessSnapshot, b: &ProcessSnapshot| a.pid.cmp(&b.pid);
    let tree = try_build_tree_view(&short, &HashSet::new(), order).unwrap();
    assert_eq!(tree[255].depth, 255);
    assert!(try_build_tree_view(&long, &HashSet::new(), order).is_none());
}

#[test]
fn columns_order_their_values() {
    let mut a = make_proc(1);
    let mut b = make_proc(2);
    a.exe_name = "Beta.exe".into();
    b.exe_name = "alpha.exe".into();
    a.cpu_percent = 7;
    b.cpu_percent = 9;
    a.description = Some("Zoo".into());
    let by = |key: ProcessSortKey, desc: bool| compare_snapshots(&a, &b, Some(key), desc);
    assert_eq!(by(ProcessSortKey::ExeName, false), Ordering::Greater);
    assert_eq!(by(ProcessSortKey::ExeName, true), Ordering::Less);
    assert_eq!(by(ProcessSortKey::Pid, false), Ordering::Less);
    assert_eq!(by(ProcessSortKey::Cpu, true), Ordering::Greater);
    assert_eq!(by(ProcessSortKey::Memory, false), Ordering::Equal);
    // A missing description comes after every other one.
    assert_eq!(by(ProcessSortKey::Description, false), Ordering::Less);
    // A missing profile comes before every other one.
    b.managed_profile = Some("perf".into());
    assert_eq!(
        compare_snapshots(&a, &b, Some(ProcessSortKey::Profile), false),
        Ordering::Less
    );
    assert_eq!(compare_snapshots(&a, &b, None, false), Ordering::Equal);
}

#[test]
fn names_sort_as_lower_case_texts_do() {
    let names = ["b", "B", "a", "", "ab", "Aa", "é", "\u{ffff}", "z", "a.exe", "A-1"];
    for x in names {
        for y in names {
            let mut p = make_proc(1);
            let mut q = make_proc(2);
            p.exe_name = x.into();
            q.exe_name = y.into();
            p.user = Some(x.into());
            q.user = None;
            assert_eq!(
                compare_snapshots(&p, &q, Some(ProcessSortKey::ExeName), false),
                x.to_ascii_lowercase().cmp(&y.to_ascii_lowercase())
            );
            assert_eq!(
                compare_snapshots(&p, &q, Some(ProcessSortKey::User), false),
                x.to_ascii_lowercase().cmp(&"\u{ffff}".to_ascii_lowercase())
            );
        }
    }
}

#[test]
fn headers_explain_themselves() {
    assert_eq!(column_hover_text(ProcessSortKey::Threads), "Live thread count.");
    assert!(column_hover_text(ProcessSortKey::Profile).contains('★'));
}

#[test]
fn restrained_rows_warn_in_name_and_bar() {
    assert_eq!(row_marker_color(RowState::Restrained), Some(Tone::Warning));
    assert_eq!(row_exe_color(RowState::Restrained), Tone::Warning);
    assert_eq!(row_exe_color(RowState::Managed), Tone::Text);
}
