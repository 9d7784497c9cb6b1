//! Laws of the Processes tab: what the table holds and in which order, and what
//! clicks change and leave alone.

use std::cmp::Ordering;
use std::collections::HashSet;
use vstd::prelude::*;

use crate::formatters;
use crate::ipc::{ProcessSnapshot, StatusSnapshot};
use crate::policy::Policy;
use crate::process_cells::{self, Detail};
use crate::processes::{self, ProcessesView, Table, Totals};
use crate::sorting;
use crate::status_tab;
use crate::text;
use crate::text_laws;
use crate::theme::Tone;
use crate::tree::{self, ProcessSortKey, RowState, TreeRow};

verus! {

broadcast use vstd::std_specs::hash::group_hash_axioms;

// ── The table ───────────────────────────────────────────────────────────────

/// The table holds a process exactly if it was listed and its name holds the
/// filter, white space around the filter and case apart.
pub proof fn the_table_holds_what_matches_the_filter(
    view: &ProcessesView,
    r: Option<Table>,
    p: ProcessSnapshot,
)
    requires
        call_ensures(ProcessesView::table, (view,), r),
        view.rows@.len() <= usize::MAX,
        r is Some,
    ensures
        r->0.rows@.contains(p) <==> view.rows@.contains(p) && text::occurs_in(
            text::lower(text::trim(view.filter@)),
            text::lower(p.exe_name@),
        ),
{
    let pass = |q: ProcessSnapshot| processes::passes(view.filter@, q);
    let kept = processes::filtered(view.rows@, view.filter@);
    if kept.contains(p) {
        let k = kept.index_of(p);
        view.rows@.lemma_filter_pred(pass, k);
        view.rows@.lemma_filter_contains_rev(pass, p);
    }
    if view.rows@.contains(p) && processes::passes(view.filter@, p) {
        let i = view.rows@.index_of(p);
        view.rows@.lemma_filter_contains(pass, i);
    }
    if !view.nests() {
        view.rows@.lemma_filter_len(pass);
        processes::flat_table_is_a_permutation(kept, view.sort_by, view.sort_desc);
        kept.to_multiset_ensures();
        r->0.rows@.to_multiset_ensures();
        assert(kept.contains(p) <==> kept.to_multiset().count(p) > 0);
        assert(r->0.rows@.contains(p) <==> r->0.rows@.to_multiset().count(p) > 0);
    }
}

/// An empty filter keeps every process.
pub proof fn an_empty_filter_keeps_everything(view: &ProcessesView, r: Option<Table>)
    requires
        call_ensures(ProcessesView::table, (view,), r),
        view.filter@.len() == 0,
        view.tree_mode,
        r is Some,
    ensures
        r->0.rows@ == view.rows@,
{
    let pass = |q: ProcessSnapshot| processes::passes(view.filter@, q);
    lemma_keeps_all(view.rows@, view.filter@);
}

proof fn lemma_keeps_all(rows: Seq<ProcessSnapshot>, filter: Seq<char>)
    requires
        filter.len() == 0,
    ensures
        processes::filtered(rows, filter) == rows,
    decreases rows.len(),
{
    let pass = |q: ProcessSnapshot| processes::passes(filter, q);
    reveal(Seq::filter);
    if rows.len() > 0 {
        lemma_keeps_all(rows.drop_last(), filter);
        let name = text::lower(rows.last().exe_name@);
        let wanted = text::lower(text::trim(filter));
        assert(text::trim(filter).len() == 0);
        assert(wanted.len() == 0);
        assert(name.subrange(0, 0) =~= wanted);
        assert(text::stands_at(name, wanted, 0));
        assert(pass(rows.last()));
        assert(rows.drop_last().push(rows.last()) =~= rows);
    } else {
        assert(rows.filter(pass) =~= rows);
    }
}

/// A flat table lists its processes in the chosen order: no process stands above
/// one that compares less. Its rows are plain and stand for them one by one.
pub proof fn flat_tables_are_sorted(
    view: &ProcessesView,
    r: Option<Table>,
    j: int,
    k: int,
    o: Ordering,
)
    requires
        call_ensures(ProcessesView::table, (view,), r),
        view.rows@.len() <= usize::MAX,
        r is Some,
        !view.tree_mode || view.filter@.len() > 0,
        0 <= j < k < r->0.rows@.len(),
        call_ensures(
            tree::compare_snapshots,
            (&r->0.rows@[j], &r->0.rows@[k], view.sort_by, view.sort_desc),
            o,
        ),
    ensures
        o != Ordering::Greater,
        r->0.visible@.len() == r->0.rows@.len(),
        r->0.visible@[k].pid == r->0.rows@[k].pid,
        r->0.visible@[k].row_index == k,
        r->0.visible@[k].depth == 0,
        !r->0.visible@[k].has_children,
{
    let kept = processes::filtered(view.rows@, view.filter@);
    let pass = |q: ProcessSnapshot| processes::passes(view.filter@, q);
    view.rows@.lemma_filter_len(pass);
    let leq = processes::row_order(kept, view.sort_by, view.sort_desc);
    lemma_row_order(kept, view.sort_by, view.sort_desc);
    sorting::sorting_is_a_stable_permutation(kept.len(), leq);
    let places = sorting::sorted_positions(kept.len(), leq);
    assert(leq(places[j], places[k]));
    assert(r->0.rows@[j] == tree::at(kept, places[j]));
    assert(r->0.rows@[k] == tree::at(kept, places[k]));
}

proof fn lemma_row_order(
    rows: Seq<ProcessSnapshot>,
    sort_by: Option<ProcessSortKey>,
    desc: bool,
)
    ensures
        sorting::is_preorder(processes::row_order(rows, sort_by, desc)),
{
    let leq = processes::row_order(rows, sort_by, desc);
    tree::chosen_order_is_preorder(sort_by, desc);
    let order = tree::chosen_order(sort_by, desc);
    assert forall|x: usize, y: usize| #[trigger] leq(x, y) || leq(y, x) by {
        assert(order(tree::at(rows, x), tree::at(rows, y)) || order(
            tree::at(rows, y),
            tree::at(rows, x),
        ));
    }
    assert forall|x: usize, y: usize, z: usize| #[trigger] leq(x, y) && #[trigger] leq(
        y,
        z,
    ) implies leq(x, z) by {
        assert(order(tree::at(rows, x), tree::at(rows, y)));
        assert(order(tree::at(rows, y), tree::at(rows, z)));
    }
}

/// The process that a row points to.
pub open spec fn process_of(rows: Seq<ProcessSnapshot>, row: TreeRow) -> ProcessSnapshot {
    rows[row.row_index as int]
}

proof fn lemma_distinct(rows: Seq<ProcessSnapshot>, x: TreeRow, y: TreeRow)
    requires
        crate::tree_laws::pids_distinct(rows),
        x.row_index < rows.len(),
        y.row_index < rows.len(),
        x.row_index != y.row_index,
    ensures
        process_of(rows, x).pid != process_of(rows, y).pid,
{
    let a = x.row_index as int;
    let b = y.row_index as int;
    if a < b {
        assert(rows[a].pid != rows[b].pid);
    } else {
        assert(rows[b].pid != rows[a].pid);
    }
}

/// A nested table shows the tree over all processes: each row says the truth
/// about its process, a row is there exactly if its process hangs below a root
/// with nothing collapsed above it, and siblings never stand in the wrong order.
pub proof fn nested_tables_show_the_tree(
    view: &ProcessesView,
    r: Option<Table>,
    j: int,
    k: int,
    o: Ordering,
)
    requires
        call_ensures(ProcessesView::table, (view,), r),
        view.rows@.len() <= usize::MAX,
        crate::tree_laws::pids_distinct(view.rows@),
        view.tree_mode,
        view.filter@.len() == 0,
        r is Some,
        0 <= j < k < r->0.visible@.len(),
        call_ensures(
            tree::compare_snapshots,
            (
                &process_of(view.rows@, r->0.visible@[j]),
                &process_of(view.rows@, r->0.visible@[k]),
                view.sort_by,
                view.sort_desc,
            ),
            o,
        ),
    ensures
        r->0.visible@[k].row_index < view.rows@.len(),
        r->0.visible@[k].pid == process_of(view.rows@, r->0.visible@[k]).pid,
        r->0.visible@[k].has_children <==> exists|i: int|
            0 <= i < view.rows@.len() && (#[trigger] view.rows@[i]).parent_pid
                == r->0.visible@[k].pid && r->0.visible@[k].pid != 0,
        r->0.visible@[j].pid != r->0.visible@[k].pid,
        crate::tree_laws::is_rooted(view.rows@, r->0.visible@[k].row_index),
        !crate::tree_laws::is_folded_away(
            view.rows@,
            view.collapsed@,
            r->0.visible@[k].row_index,
        ),
        crate::tree_laws::are_siblings(
            view.rows@,
            r->0.visible@[j].row_index,
            r->0.visible@[k].row_index,
        ) ==> o != Ordering::Greater,
{
    let rows = view.rows@;
    let leq = tree::chosen_order(view.sort_by, view.sort_desc);
    lemma_keeps_all(rows, view.filter@);
    tree::chosen_order_is_preorder(view.sort_by, view.sort_desc);
    let places = tree::shown(rows, leq, view.collapsed@);
    assert(r->0.visible@ == tree::tree_view(rows, leq, view.collapsed@));
    crate::tree_laws::rows_tell_of_their_processes(rows, leq, view.collapsed@, k);
    crate::tree_laws::rows_tell_of_their_processes(rows, leq, view.collapsed@, j);
    crate::tree_laws::the_tree_shows_each_process_once(rows, leq, view.collapsed@);
    crate::tree_laws::siblings_come_in_order(rows, leq, view.collapsed@);
    assert(places[j].0 != places[k].0);
    lemma_distinct(rows, r->0.visible@[j], r->0.visible@[k]);
    assert(crate::tree_laws::is_shown(places, places[k].0));
    crate::tree_laws::the_tree_shows_the_rooted_that_are_not_folded_away(
        rows,
        leq,
        view.collapsed@,
        places[k].0,
    );
}

/// A process that hangs below a root with nothing collapsed above it has a row
/// in the nested table.
pub proof fn nested_tables_leave_nothing_out(view: &ProcessesView, r: Option<Table>, i: usize)
    requires
        call_ensures(ProcessesView::table, (view,), r),
        view.rows@.len() <= usize::MAX,
        crate::tree_laws::pids_distinct(view.rows@),
        view.tree_mode,
        view.filter@.len() == 0,
        r is Some,
        i < view.rows@.len(),
        crate::tree_laws::is_rooted(view.rows@, i),
        !crate::tree_laws::is_folded_away(view.rows@, view.collapsed@, i),
    ensures
        exists|k: int| 0 <= k < r->0.visible@.len() && (#[trigger] r->0.visible@[k]).row_index == i,
{
    let rows = view.rows@;
    let leq = tree::chosen_order(view.sort_by, view.sort_desc);
    lemma_keeps_all(rows, view.filter@);
    tree::chosen_order_is_preorder(view.sort_by, view.sort_desc);
    crate::tree_laws::the_tree_shows_the_rooted_that_are_not_folded_away(
        rows,
        leq,
        view.collapsed@,
        i,
    );
    let places = tree::shown(rows, leq, view.collapsed@);
    let k = choose|k: int| 0 <= k < places.len() && (#[trigger] places[k]).0 == i;
    assert(r->0.visible@[k] == tree::row_of(rows, places[k]));
}

/// Whether the row `m` is that of the parent of the row `k`: the nearest one
/// above that is less deep, by one level, with the pid that it names.
pub open spec fn stands_below(
    rows: Seq<ProcessSnapshot>,
    visible: Seq<TreeRow>,
    k: int,
    m: int,
) -> bool {
    &&& 0 <= m < k
    &&& visible[m].pid == process_of(rows, visible[k]).parent_pid
    &&& visible[m].depth + 1 == visible[k].depth
    &&& forall|t: int| m < t < k ==> (#[trigger] visible[t]).depth >= visible[k].depth
}

/// In a nested table the processes without a listed parent stand at the top
/// level, and every other row stands below the row of its parent.
pub proof fn nested_rows_stand_below_their_parents(
    view: &ProcessesView,
    r: Option<Table>,
    k: int,
)
    requires
        call_ensures(ProcessesView::table, (view,), r),
        view.rows@.len() <= usize::MAX,
        view.tree_mode,
        view.filter@.len() == 0,
        r is Some,
        0 <= k < r->0.visible@.len(),
    ensures
        ({
            let parent = process_of(view.rows@, r->0.visible@[k]).parent_pid;
            let alone = parent == 0 || forall|i: int|
                0 <= i < view.rows@.len() ==> (#[trigger] view.rows@[i]).pid != parent;
            &&& r->0.visible@[k].depth == 0 <==> alone
            &&& !alone ==> exists|m: int| stands_below(view.rows@, r->0.visible@, k, m)
        }),
{
    let rows = view.rows@;
    let leq = tree::chosen_order(view.sort_by, view.sort_desc);
    lemma_keeps_all(rows, view.filter@);
    tree::chosen_order_is_preorder(view.sort_by, view.sort_desc);
    let visible = r->0.visible@;
    assert(visible == tree::tree_view(rows, leq, view.collapsed@));
    crate::tree_laws::rows_tell_of_their_processes(rows, leq, view.collapsed@, k);
    crate::tree_laws::parents_stand_above_their_children(rows, leq, view.collapsed@, k);
    crate::tree_laws::roots_have_no_listed_parent(rows, visible[k].row_index, 0);
    if !crate::tree_laws::is_root(rows, visible[k].row_index) {
        let m = choose|m: int| crate::tree_laws::is_parent_row(rows, visible, k, m);
        crate::tree_laws::rows_tell_of_their_processes(rows, leq, view.collapsed@, m);
        assert(stands_below(rows, visible, k, m));
    }
}

/// The only table that is not built is a tree that nests more than 255 deep.
pub proof fn only_very_deep_trees_are_refused(view: &ProcessesView, r: Option<Table>)
    requires
        call_ensures(ProcessesView::table, (view,), r),
    ensures
        !view.tree_mode || view.filter@.len() > 0 ==> r is Some,
        r is None ==> exists|k: int|
            0 <= k < tree::shown(
                view.rows@,
                tree::chosen_order(view.sort_by, view.sort_desc),
                view.collapsed@,
            ).len() && (#[trigger] tree::shown(
                view.rows@,
                tree::chosen_order(view.sort_by, view.sort_desc),
                view.collapsed@,
            )[k]).1 > 255,
{
    if view.filter@.len() == 0 {
        lemma_keeps_all(view.rows@, view.filter@);
    }
}

// ── Totals ──────────────────────────────────────────────────────────────────

/// A figure of every process, summed over a list.
pub open spec fn total(rows: Seq<ProcessSnapshot>, figure: spec_fn(ProcessSnapshot) -> int) -> int
    decreases rows.len(),
{
    if rows.len() == 0 {
        0
    } else {
        figure(rows[0]) + total(rows.drop_first(), figure)
    }
}

proof fn lemma_total_last(rows: Seq<ProcessSnapshot>, figure: spec_fn(ProcessSnapshot) -> int)
    requires
        rows.len() > 0,
    ensures
        total(rows, figure) == total(rows.drop_last(), figure) + figure(rows.last()),
    decreases rows.len(),
{
    if rows.len() > 1 {
        lemma_total_last(rows.drop_first(), figure);
        assert(rows.drop_first().drop_last() =~= rows.drop_last().drop_first());
    } else {
        assert(rows.drop_first() =~= Seq::empty());
        assert(rows.drop_last() =~= Seq::empty());
        assert(total(rows.drop_first(), figure) == 0);
        assert(total(rows.drop_last(), figure) == 0);
    }
}

proof fn lemma_totals(rows: Seq<ProcessSnapshot>)
    ensures
        processes::cpu_sum(rows) == total(rows, |p: ProcessSnapshot| p.cpu_percent as int),
        processes::memory_sum(rows) == total(rows, |p: ProcessSnapshot| p.memory_bytes as int),
        processes::thread_sum(rows) == total(rows, |p: ProcessSnapshot| p.threads as int),
        processes::managed_count(rows) == total(
            rows,
            |p: ProcessSnapshot|
                if p.managed_profile is Some {
                    1int
                } else {
                    0
                },
        ),
        processes::restrained_count(rows) == total(
            rows,
            |p: ProcessSnapshot|
                if p.restrained_by_probalance {
                    1int
                } else {
                    0
                },
        ),
    decreases rows.len(),
{
    reveal(Seq::filter);
    if rows.len() > 0 {
        lemma_totals(rows.drop_last());
        lemma_total_last(rows, |p: ProcessSnapshot| p.cpu_percent as int);
        lemma_total_last(rows, |p: ProcessSnapshot| p.memory_bytes as int);
        lemma_total_last(rows, |p: ProcessSnapshot| p.threads as int);
        lemma_total_last(
            rows,
            |p: ProcessSnapshot|
                if p.managed_profile is Some {
                    1int
                } else {
                    0
                },
        );
        lemma_total_last(
            rows,
            |p: ProcessSnapshot|
                if p.restrained_by_probalance {
                    1int
                } else {
                    0
                },
        );
    }
}

/// The toolbar has figures exactly where the sums can be told.
pub proof fn totals_are_told_where_they_fit(rows: &[ProcessSnapshot], r: Option<Totals>)
    requires
        call_ensures(processes::totals, (rows,), r),
    ensures
        r is Some <==> total(rows@, |p: ProcessSnapshot| p.cpu_percent as int) <= 0xffff_ffff
            && total(rows@, |p: ProcessSnapshot| p.memory_bytes as int) <= 0xffff_ffff_ffff_ffff
            && total(rows@, |p: ProcessSnapshot| p.threads as int) <= 0xffff_ffff,
{
    lemma_totals(rows@);
}

/// The toolbar sums each figure over all processes, and counts those with a
/// profile and those that are held back.
pub proof fn totals_sum_every_process(rows: &[ProcessSnapshot], r: Option<Totals>)
    requires
        call_ensures(processes::totals, (rows,), r),
        r is Some,
    ensures
        r->0.cpu == total(rows@, |p: ProcessSnapshot| p.cpu_percent as int),
        r->0.memory == total(rows@, |p: ProcessSnapshot| p.memory_bytes as int),
        r->0.threads == total(rows@, |p: ProcessSnapshot| p.threads as int),
        r->0.managed == total(
            rows@,
            |p: ProcessSnapshot|
                if p.managed_profile is Some {
                    1int
                } else {
                    0
                },
        ),
        r->0.restrained == total(
            rows@,
            |p: ProcessSnapshot|
                if p.restrained_by_probalance {
                    1int
                } else {
                    0
                },
        ),
{
    lemma_totals(rows@);
}

/// The Status tab counts as the toolbar does.
pub proof fn counts_agree(rows: &[ProcessSnapshot], managed: usize, restrained: usize)
    requires
        call_ensures(status_tab::count_managed, (rows,), managed),
        call_ensures(status_tab::count_restrained, (rows,), restrained),
    ensures
        managed == total(
            rows@,
            |p: ProcessSnapshot|
                if p.managed_profile is Some {
                    1int
                } else {
                    0
                },
        ),
        restrained == total(
            rows@,
            |p: ProcessSnapshot|
                if p.restrained_by_probalance {
                    1int
                } else {
                    0
                },
        ),
{
    lemma_totals(rows@);
}

// ── Clicks ──────────────────────────────────────────────────────────────────

/// Whether `i` is the first place of a pid among the rows.
pub open spec fn first_shown(visible: Seq<TreeRow>, pid: u32, i: int) -> bool {
    &&& 0 <= i < visible.len()
    &&& visible[i].pid == pid
    &&& forall|j: int| 0 <= j < i ==> (#[trigger] visible[j]).pid != pid
}

proof fn lemma_place_is_first(pids: Seq<u32>, pid: u32)
    ensures
        processes::place_of(pids, pid) is None <==> !pids.contains(pid),
        processes::place_of(pids, pid) matches Some(i) ==> 0 <= i < pids.len() && pids[i] == pid
            && forall|j: int| 0 <= j < i ==> pids[j] != pid,
    decreases pids.len(),
{
    if pids.len() > 0 {
        let shorter = pids.drop_last();
        lemma_place_is_first(shorter, pid);
        if shorter.contains(pid) {
            let k = shorter.index_of(pid);
            assert(pids[k] == pid);
        }
        if pids.contains(pid) && pids.last() != pid {
            let k = pids.index_of(pid);
            assert(shorter[k] == pid);
        }
        if pids.last() == pid {
            assert(pids[pids.len() - 1] == pid);
        }
        if let Some(i) = processes::place_of(pids, pid) {
            assert forall|j: int| 0 <= j < i implies pids[j] != pid by {
                assert(shorter[j] == pids[j]);
                if processes::place_of(shorter, pid) is None && shorter[j] == pid {
                    assert(shorter.contains(pid));
                }
            }
        }
    }
}

/// A plain click leaves nothing selected but its process, and not even that if
/// it was selected before. A click with Ctrl turns its process in the set over
/// and no other.
pub proof fn clicks_select_their_process(
    view: &mut ProcessesView,
    pid: u32,
    ctrl: bool,
    visible: &[TreeRow],
    other: u32,
)
    requires
        call_ensures(ProcessesView::click, (view, pid, ctrl, false, visible), ()),
        other != pid,
    ensures
        final(view).last_clicked_pid == Some(pid),
        !ctrl ==> final(view).multi_selected@ == Set::<u32>::empty(),
        !ctrl && old(view).selected_pid == Some(pid) ==> final(view).selected_pid is None,
        !ctrl && old(view).selected_pid != Some(pid) ==> final(view).selected_pid == Some(pid),
        ctrl ==> final(view).selected_pid == Some(pid),
        ctrl ==> (final(view).multi_selected@.contains(pid) <==> !old(view).multi_selected@.contains(pid)),
        ctrl ==> (final(view).multi_selected@.contains(other) <==> old(view).multi_selected@.contains(other)),
        *final(view) == (ProcessesView {
            selected_pid: final(view).selected_pid,
            multi_selected: final(view).multi_selected,
            last_clicked_pid: final(view).last_clicked_pid,
            ..*old(view)
        }),
{
}

/// A click with Shift selects the processes of exactly those rows that stand
/// between the anchor's and the clicked one, both with them, whichever is above
/// the other. The anchor stays. It counts even with Ctrl held.
pub proof fn shift_clicks_select_the_rows_between(
    view: &mut ProcessesView,
    pid: u32,
    ctrl: bool,
    visible: &[TreeRow],
    a: int,
    b: int,
    other: u32,
)
    requires
        call_ensures(ProcessesView::click, (view, pid, ctrl, true, visible), ()),
        old(view).last_clicked_pid is Some,
        first_shown(visible@, old(view).last_clicked_pid->0, a),
        first_shown(visible@, pid, b),
    ensures
        final(view).multi_selected@.contains(other) <==> exists|k: int|
            (a <= k <= b || b <= k <= a) && (#[trigger] visible@[k]).pid == other,
        final(view).selected_pid == Some(pid),
        final(view).last_clicked_pid == old(view).last_clicked_pid,
        *final(view) == (ProcessesView {
            selected_pid: Some(pid),
            multi_selected: final(view).multi_selected,
            ..*old(view)
        }),
{
    let pids = processes::shown_pids(visible@);
    let anchor = old(view).last_clicked_pid->0;
    lemma_place_is_first(pids, anchor);
    lemma_place_is_first(pids, pid);
    assert(pids[a] == anchor);
    assert(pids[b] == pid);
    let x = processes::place_of(pids, anchor)->0;
    let y = processes::place_of(pids, pid)->0;
    assert(visible@[x].pid == anchor);
    assert(visible@[y].pid == pid);
    assert(x == a) by {
        if x < a {
            assert(visible@[x].pid != anchor);
        } else if a < x {
            assert(pids[a] != anchor);
        }
    }
    assert(y == b) by {
        if y < b {
            assert(visible@[y].pid != pid);
        } else if b < y {
            assert(pids[b] != pid);
        }
    }
    let lo = if a <= b {
        a
    } else {
        b
    };
    let hi = if a <= b {
        b
    } else {
        a
    };
    if final(view).multi_selected@.contains(other) {
        let k = choose|k: int| lo <= k <= hi && #[trigger] pids[k] == other;
        assert(visible@[k].pid == other);
    }
    if exists|k: int| (a <= k <= b || b <= k <= a) && (#[trigger] visible@[k]).pid == other {
        let k = choose|k: int|
            (a <= k <= b || b <= k <= a) && (#[trigger] visible@[k]).pid == other;
        assert(pids[k] == other);
    }
}

/// A click with Shift selects its process where there is no anchor, and changes
/// nothing where an end of the range is not shown.
pub proof fn shift_clicks_need_both_ends(
    view: &mut ProcessesView,
    pid: u32,
    ctrl: bool,
    visible: &[TreeRow],
)
    requires
        call_ensures(ProcessesView::click, (view, pid, ctrl, true, visible), ()),
    ensures
        old(view).last_clicked_pid is None ==> final(view).selected_pid == Some(pid) && final(view).multi_selected@ == Set::<u32>::empty() && final(view).last_clicked_pid == Some(pid),
        old(view).last_clicked_pid is Some && ((forall|k: int|
            0 <= k < visible@.len() ==> (#[trigger] visible@[k]).pid != pid) || (forall|k: int|
            0 <= k < visible@.len() ==> (#[trigger] visible@[k]).pid != old(view).last_clicked_pid->0)) ==> final(view).selected_pid == old(view).selected_pid && final(view).multi_selected@ == old(view).multi_selected@ && final(view).last_clicked_pid == old(view).last_clicked_pid,
{
    let pids = processes::shown_pids(visible@);
    lemma_place_is_first(pids, pid);
    if let Some(anchor) = old(view).last_clicked_pid {
        lemma_place_is_first(pids, anchor);
        if pids.contains(pid) {
            assert(visible@[pids.index_of(pid)].pid == pid);
        }
        if pids.contains(anchor) {
            assert(visible@[pids.index_of(anchor)].pid == anchor);
        }
    }
}

/// A right click inside the set keeps it and outside empties it; it changes
/// nothing else.
pub proof fn right_clicks_keep_or_empty_the_set(view: &mut ProcessesView, pid: u32)
    requires
        call_ensures(ProcessesView::right_click, (view, pid), ()),
    ensures
        old(view).multi_selected@.contains(pid) ==> final(view).multi_selected@ == old(view).multi_selected@,
        !old(view).multi_selected@.contains(pid) ==> final(view).multi_selected@ == Set::<
            u32,
        >::empty(),
        *final(view) == (ProcessesView { multi_selected: final(view).multi_selected, ..*old(view) }),
{
}

/// Folding turns one process over and leaves every other as it was.
pub proof fn folding_concerns_one_process(view: &mut ProcessesView, pid: u32, other: u32)
    requires
        call_ensures(ProcessesView::toggle_collapsed, (view, pid), ()),
        other != pid,
    ensures
        final(view).collapsed@.contains(pid) <==> !old(view).collapsed@.contains(pid),
        final(view).collapsed@.contains(other) <==> old(view).collapsed@.contains(other),
        *final(view) == (ProcessesView { collapsed: final(view).collapsed, ..*old(view) }),
{
}

/// A click on a header sorts by its column. A click on the sorted column turns
/// the order round; of the other columns names, pids and profiles start
/// ascending, and all else descending.
pub proof fn headers_sort_by_their_column(view: &mut ProcessesView, key: ProcessSortKey)
    requires
        call_ensures(ProcessesView::click_header, (view, key), ()),
    ensures
        final(view).sort_by == Some(key),
        old(view).sort_by == Some(key) ==> final(view).sort_desc == !old(view).sort_desc,
        old(view).sort_by != Some(key) && (key == ProcessSortKey::Cpu || key
            == ProcessSortKey::Memory || key == ProcessSortKey::Threads || key
            == ProcessSortKey::Priority || key == ProcessSortKey::Description || key
            == ProcessSortKey::Company || key == ProcessSortKey::User) ==> final(view).sort_desc,
        old(view).sort_by != Some(key) && (key == ProcessSortKey::ExeName || key
            == ProcessSortKey::Pid || key == ProcessSortKey::Profile) ==> !final(view).sort_desc,
        *final(view) == (ProcessesView {
            sort_by: final(view).sort_by,
            sort_desc: final(view).sort_desc,
            ..*old(view)
        }),
{
}

/// A header carries a mark exactly if its column is the sorted one, and the mark
/// tells the direction.
pub proof fn headers_mark_the_sorted_column(
    view: &ProcessesView,
    label: &str,
    key: ProcessSortKey,
    r: String,
)
    requires
        call_ensures(ProcessesView::header_text, (view, label, key), r),
    ensures
        text::begins_with(r@, label@),
        view.sort_by != Some(key) ==> r@ == label@,
        view.sort_by == Some(key) && view.sort_desc ==> r@ == label@.push(' ').push('v'),
        view.sort_by == Some(key) && !view.sort_desc ==> r@ == label@.push(' ').push('^'),
{
    reveal_strlit(" v");
    reveal_strlit(" ^");
    let mark = processes::header_mark(view.sort_by, view.sort_desc, key);
    text_laws::texts_occur_in_what_surrounds_them(Seq::empty(), label@, mark);
    assert(label@ + " v"@ =~= label@.push(' ').push('v'));
    assert(label@ + " ^"@ =~= label@.push(' ').push('^'));
    assert(label@ + Seq::empty() =~= label@);
}

/// A fresh list replaces the old one, unless it is empty and the old one is not.
pub proof fn an_empty_list_does_not_blank_the_table(
    view: &mut ProcessesView,
    latest: &Vec<ProcessSnapshot>,
)
    requires
        call_ensures(ProcessesView::refresh, (view, latest), ()),
    ensures
        latest@.len() > 0 ==> final(view).rows@ == latest@,
        latest@.len() == 0 ==> final(view).rows@ == old(view).rows@,
        *final(view) == (ProcessesView { rows: final(view).rows, ..*old(view) }),
{
    if latest@.len() == 0 && old(view).rows@.len() == 0 {
        assert(final(view).rows@ =~= old(view).rows@);
    }
}

/// The tree switch works only without a filter. Switching the tree on unfolds
/// it; switching it off keeps what was folded.
pub proof fn the_tree_switch_waits_for_the_filter(view: &mut ProcessesView)
    requires
        call_ensures(ProcessesView::click_tree, (view,), ()),
    ensures
        old(view).filter@.len() > 0 ==> final(view).tree_mode == old(view).tree_mode && final(view).collapsed@ == old(view).collapsed@,
        old(view).filter@.len() == 0 ==> final(view).tree_mode == !old(view).tree_mode,
        old(view).filter@.len() == 0 && final(view).tree_mode ==> final(view).collapsed@ == Set::<
            u32,
        >::empty(),
        !final(view).tree_mode ==> final(view).collapsed@ == old(view).collapsed@,
        *final(view) == (ProcessesView {
            tree_mode: final(view).tree_mode,
            collapsed: final(view).collapsed,
            ..*old(view)
        }),
{
}

/// The detail panel is about the selected process while it is listed, and closes
/// when it is gone.
pub proof fn the_panel_follows_the_selected_process(
    view: &mut ProcessesView,
    rows: &[ProcessSnapshot],
    r: Option<usize>,
)
    requires
        call_ensures(ProcessesView::detail_row, (view, rows), r),
    ensures
        r is Some ==> r->0 < rows@.len() && old(view).selected_pid == Some(rows@[r->0 as int].pid)
            && final(view).selected_pid == old(view).selected_pid && forall|j: int|
            0 <= j < r->0 ==> (#[trigger] rows@[j]).pid != rows@[r->0 as int].pid,
        *final(view) == (ProcessesView { selected_pid: final(view).selected_pid, ..*old(view) }),
        r is None ==> final(view).selected_pid is None,
        r is None && old(view).selected_pid is Some ==> forall|i: int|
            0 <= i < rows@.len() ==> Some((#[trigger] rows@[i]).pid) != old(view).selected_pid,
{
    if let Some(pid) = old(view).selected_pid {
        let pids = processes::pids_of(rows@);
        lemma_place_is_first(pids, pid);
        if r is None {
            assert forall|i: int| 0 <= i < rows@.len() implies (#[trigger] rows@[i]).pid != pid by {
                if rows@[i].pid == pid {
                    assert(pids[i] == pid);
                    assert(pids.contains(pid));
                }
            }
        } else {
            assert(pids[r->0 as int] == rows@[r->0 as int].pid);
            assert forall|j: int| 0 <= j < r->0 implies (#[trigger] rows@[j]).pid != pid by {
                assert(pids[j] == rows@[j].pid);
            }
        }
    }
}

/// A process is found at its first place, and not found only if it is not there.
pub proof fn processes_are_found_where_they_first_stand(
    rows: &[ProcessSnapshot],
    pid: u32,
    r: Option<usize>,
)
    requires
        call_ensures(processes::find_process, (rows, pid), r),
    ensures
        r is Some ==> r->0 < rows@.len() && rows@[r->0 as int].pid == pid && forall|j: int|
            0 <= j < r->0 ==> (#[trigger] rows@[j]).pid != pid,
        r is None ==> forall|j: int| 0 <= j < rows@.len() ==> (#[trigger] rows@[j]).pid != pid,
{
    let pids = processes::pids_of(rows@);
    lemma_place_is_first(pids, pid);
    assert forall|j: int| 0 <= j < rows@.len() && (r is Some ==> j < r->0) implies (
    #[trigger] rows@[j]).pid != pid by {
        assert(pids[j] == rows@[j].pid);
        if pids[j] == pid {
            assert(pids.contains(pid));
        }
    }
}

// ── Rows and cells ──────────────────────────────────────────────────────────

/// A row is set off as the focused one exactly if its process has the focus,
/// whatever else holds of it; then being held back counts, then having a
/// profile. Each state has a colour of its own.
pub proof fn rows_are_set_off_by_what_matters_most(
    p: &ProcessSnapshot,
    focused: Option<u32>,
    r: RowState,
    marker: Option<Tone>,
    name: Tone,
)
    requires
        call_ensures(tree::classify_row, (p, focused), r),
        call_ensures(tree::row_marker_color, (r,), marker),
        call_ensures(tree::row_exe_color, (r,), name),
    ensures
        r == RowState::Foreground <==> focused is Some && focused->0 == p.pid,
        r == RowState::Restrained <==> r != RowState::Foreground && p.restrained_by_probalance,
        r == RowState::Managed <==> r != RowState::Foreground && !p.restrained_by_probalance
            && p.managed_profile is Some,
        marker is None <==> r == RowState::Default,
        marker == Some(Tone::Accent) <==> r == RowState::Foreground,
        marker == Some(Tone::Warning) <==> r == RowState::Restrained,
        marker == Some(Tone::Success) <==> r == RowState::Managed,
        name == Tone::Accent <==> r == RowState::Foreground,
        name == Tone::Warning <==> r == RowState::Restrained,
        name == Tone::Accent || name == Tone::Warning || name == Tone::Text,
{
}

/// The focused process alone is marked in front of its name.
pub proof fn the_focused_name_is_marked(p: &ProcessSnapshot, state: RowState, r: String)
    requires
        call_ensures(process_cells::exe_label, (p, state), r),
    ensures
        state != RowState::Foreground ==> r@ == p.exe_name@,
        state == RowState::Foreground ==> r@ == seq!['>', ' '] + p.exe_name@,
{
    reveal_strlit("> ");
    assert("> "@ =~= seq!['>', ' ']);
}

/// The profile cell names the applied profile, with a star exactly if a rule
/// chose it; the status cell tells of being held back before any note.
pub proof fn cells_tell_of_profile_and_status(
    p: &ProcessSnapshot,
    profile: String,
    status: String,
)
    requires
        call_ensures(process_cells::profile_cell, (p,), profile),
        call_ensures(process_cells::status_cell, (p,), status),
    ensures
        p.managed_profile is Some && p.matched_rule_note is None ==> profile@
            == p.managed_profile->0@,
        p.managed_profile is Some && p.matched_rule_note is Some ==> profile@ == seq!['★', ' ']
            + p.managed_profile->0@,
        p.managed_profile is None ==> profile@ == seq!['—'],
        p.restrained_by_probalance ==> status@ == "● ProBalance"@,
        !p.restrained_by_probalance && p.matched_rule_note is None ==> status@ == seq!['—'],
        !p.restrained_by_probalance && p.matched_rule_note is Some
            && p.matched_rule_note->0@.len() > 0 ==> status@ == p.matched_rule_note->0@,
        !p.restrained_by_probalance && p.matched_rule_note is Some
            && p.matched_rule_note->0@.len() == 0 ==> status@ == "rule"@,
{
    reveal_strlit("★ ");
    reveal_strlit("—");
    assert("★ "@ =~= seq!['★', ' ']);
    assert("—"@ =~= seq!['—']);
}

/// The memory texts name each figure behind its own words.
pub proof fn memory_texts_name_each_figure(p: &ProcessSnapshot, r: String)
    requires
        call_ensures(process_cells::memory_hover, (p,), r),
    ensures
        text::begins_with(
            r@,
            "Working set: "@ + formatters::byte_text(p.memory_bytes as nat),
        ),
        text::occurs_in(
            "\nPeak working set: "@ + formatters::byte_text(p.peak_working_set_bytes as nat),
            r@,
        ),
        text::occurs_in(
            "\nPrivate bytes: "@ + formatters::byte_text(p.private_bytes as nat),
            r@,
        ),
{
    let a = "Working set: "@ + formatters::byte_text(p.memory_bytes as nat);
    let b = "\nPeak working set: "@ + formatters::byte_text(p.peak_working_set_bytes as nat);
    let c = "\nPrivate bytes: "@ + formatters::byte_text(p.private_bytes as nat);
    assert(r@ =~= a + (b + c));
    text_laws::texts_occur_in_what_surrounds_them(Seq::empty(), a, b + c);
    assert(r@ =~= a + b + c);
    text_laws::texts_occur_in_what_surrounds_them(a, b, c);
    assert(r@ =~= (a + b) + c + Seq::empty());
    text_laws::texts_occur_in_what_surrounds_them(a + b, c, Seq::empty());
}

/// The detail panel shows the figures of its process, and a dash where there is
/// nothing to show.
pub proof fn the_panel_shows_its_process(p: &ProcessSnapshot, r: Detail)
    requires
        call_ensures(process_cells::detail, (p,), r),
    ensures
        exists|digits: Seq<char>|
            r.badge@ == #[trigger] ("pid "@ + digits) && text_laws::value_of(digits, 10) == p.pid,
        exists|digits: Seq<char>|
            r.cpu@ == #[trigger] (digits + " %"@) && text_laws::value_of(digits, 10)
                == p.cpu_percent,
        text_laws::value_of(r.threads@, 10) == p.threads,
        text::begins_with(r.memory@, formatters::byte_text(p.memory_bytes as nat)),
        p.managed_profile is Some ==> text::occurs_in(p.managed_profile->0@, r.profile@),
        p.managed_profile is None ==> r.profile@ == "—"@,
        p.user is Some ==> r.user@ == p.user->0@,
        p.user is None ==> r.user@ == "—"@,
        p.matched_rule_note is Some && p.matched_rule_note->0@.len() > 0 ==> r.rule_note@
            == p.matched_rule_note->0@,
        p.matched_rule_note is None ==> r.rule_note@ == "—"@,
        p.restrained_by_probalance ==> r.probalance@ == "● restrained"@,
        !p.restrained_by_probalance ==> r.probalance@ == "—"@,
{
    text_laws::numerals_count_for_their_number(p.pid as nat, 10);
    text_laws::numerals_count_for_their_number(p.cpu_percent as nat, 10);
    text_laws::numerals_count_for_their_number(p.threads as nat, 10);
    let pid = text::decimal(p.pid as nat);
    let cpu = text::decimal(p.cpu_percent as nat);
    assert(r.badge@ == "pid "@ + pid);
    assert(r.cpu@ == cpu + " %"@);
    let now = formatters::byte_text(p.memory_bytes as nat);
    if p.peak_working_set_bytes > 0 || p.private_bytes > 0 {
        let rest = "  (peak "@ + formatters::byte_text(p.peak_working_set_bytes as nat)
            + " · private "@ + formatters::byte_text(p.private_bytes as nat) + ")"@;
        assert(r.memory@ =~= now + rest);
        text_laws::texts_occur_in_what_surrounds_them(Seq::empty(), now, rest);
    } else {
        assert(r.memory@ =~= now + Seq::empty());
        text_laws::texts_occur_in_what_surrounds_them(Seq::empty(), now, Seq::empty());
    }
    if let Some(id) = p.managed_profile {
        if p.matched_rule_note is Some {
            text_laws::texts_occur_in_what_surrounds_them("★ "@, id@, "  (Rule)"@);
        } else {
            assert(r.profile@ =~= Seq::empty() + id@ + Seq::empty());
            text_laws::texts_occur_in_what_surrounds_them(Seq::empty(), id@, Seq::empty());
        }
    }
}

/// An executable counts as pinned exactly if some affinity rule names it, case
/// apart.
pub proof fn pins_are_affinity_rules(known: Option<&Policy>, exe: &str, r: bool)
    requires
        call_ensures(process_cells::pinned, (known, exe), r),
    ensures
        r <==> known is Some && exists|i: int|
            0 <= i < known->0@.affinity_rules.len() && text::lower(
                (#[trigger] known->0@.affinity_rules[i]).exe_name,
            ) == text::lower(exe@),
{
}

/// Names of the system's accounts are muted, and no others.
pub proof fn system_accounts_are_muted(user: &str, r: Tone)
    requires
        call_ensures(process_cells::user_tone, (user,), r),
    ensures
        r == Tone::TextMuted || r == Tone::Text,
        user@ == "SYSTEM"@ ==> r == Tone::TextMuted,
        text::begins_with(user@, "NT AUTHORITY\\"@) || text::begins_with(user@, "NT SERVICE\\"@)
            || text::begins_with(user@, "Window Manager\\"@) || text::begins_with(
            user@,
            "Font Driver Host\\"@,
        ) ==> r == Tone::TextMuted,
        r == Tone::TextMuted ==> user@ == "SYSTEM"@ || text::begins_with(
            user@,
            "NT AUTHORITY\\"@,
        ) || text::begins_with(user@, "NT SERVICE\\"@) || text::begins_with(
            user@,
            "Window Manager\\"@,
        ) || text::begins_with(user@, "Font Driver Host\\"@),
{
}

/// The panel spells every line out: memory with peak and private bytes where
/// they are known, the priority by its name, the mask in all its digits, and
/// whether a rule chose the profile.
pub proof fn the_panel_spells_every_line_out(
    p: &ProcessSnapshot,
    r: Detail,
    now: String,
    peak: String,
    private: String,
    priority: &'static str,
)
    requires
        call_ensures(process_cells::detail, (p,), r),
        call_ensures(formatters::format_bytes, (p.memory_bytes,), now),
        call_ensures(formatters::format_bytes, (p.peak_working_set_bytes,), peak),
        call_ensures(formatters::format_bytes, (p.private_bytes,), private),
        call_ensures(formatters::priority_class_label, (p.priority_class_raw,), priority),
    ensures
        p.peak_working_set_bytes > 0 || p.private_bytes > 0 ==> r.memory@ == now@ + "  (peak "@
            + peak@ + " · private "@ + private@ + ")"@,
        p.peak_working_set_bytes == 0 && p.private_bytes == 0 ==> r.memory@ == now@,
        r.priority@ == priority@,
        r.affinity@ == "0x"@ + text::zero_padded(text::numeral(p.affinity_mask as nat, 16), 16),
        p.managed_profile is Some && p.matched_rule_note is Some ==> r.profile@ == "★ "@
            + p.managed_profile->0@ + "  (Rule)"@,
        p.managed_profile is Some && p.matched_rule_note is None ==> r.profile@
            == p.managed_profile->0@,
        p.matched_rule_note is Some && p.matched_rule_note->0@.len() == 0 ==> r.rule_note@
            == "—"@,
{
}

/// The tab opens as an unfolded tree, the busiest process first, with nothing
/// selected, filtered or remembered.
pub proof fn the_tab_opens_as_a_tree(r: ProcessesView)
    requires
        call_ensures(ProcessesView::default, (), r),
    ensures
        r.tree_mode,
        r.sort_by == Some(ProcessSortKey::Cpu),
        r.sort_desc,
        r.rows@.len() == 0,
        r.filter@.len() == 0,
        r.selected_pid is None,
        r.last_clicked_pid is None,
        r.collapsed@ == Set::<u32>::empty(),
        r.multi_selected@ == Set::<u32>::empty(),
        !r.remember_affinity,
{
}

/// The table has as many processes as pass the filter.
pub proof fn no_process_is_doubled(view: &ProcessesView, r: Option<Table>)
    requires
        call_ensures(ProcessesView::table, (view,), r),
        view.rows@.len() <= usize::MAX,
        r is Some,
    ensures
        r->0.rows@.len() == total(
            view.rows@,
            |p: ProcessSnapshot|
                if text::occurs_in(
                    text::lower(text::trim(view.filter@)),
                    text::lower(p.exe_name@),
                ) {
                    1int
                } else {
                    0
                },
        ),
{
    let kept = processes::filtered(view.rows@, view.filter@);
    lemma_passing(view.rows@, view.filter@);
    if !view.nests() {
        let leq = processes::row_order(kept, view.sort_by, view.sort_desc);
        let pass = |q: ProcessSnapshot| processes::passes(view.filter@, q);
        view.rows@.lemma_filter_len(pass);
        lemma_row_order(kept, view.sort_by, view.sort_desc);
        sorting::sorting_is_a_stable_permutation(kept.len(), leq);
    }
}

proof fn lemma_passing(rows: Seq<ProcessSnapshot>, filter: Seq<char>)
    ensures
        processes::filtered(rows, filter).len() == total(
            rows,
            |p: ProcessSnapshot|
                if text::occurs_in(text::lower(text::trim(filter)), text::lower(p.exe_name@)) {
                    1int
                } else {
                    0
                },
        ),
    decreases rows.len(),
{
    reveal(Seq::filter);
    if rows.len() > 0 {
        lemma_passing(rows.drop_last(), filter);
        lemma_total_last(
            rows,
            |p: ProcessSnapshot|
                if text::occurs_in(text::lower(text::trim(filter)), text::lower(p.exe_name@)) {
                    1int
                } else {
                    0
                },
        );
    }
}

} // verus!
