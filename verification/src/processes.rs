//! The Processes tab: what the table shows, and how clicks change it.

use std::cmp::Ordering;
use std::collections::HashSet;
use vstd::prelude::*;

use crate::ipc::ProcessSnapshot;
use crate::sorting;
use crate::text;
use crate::tree::{self, ProcessSortKey, TreeRow};

verus! {

broadcast use vstd::std_specs::hash::group_hash_axioms;

/// State of the Processes tab.
#[derive(Debug)]
pub struct ProcessesView {
    /// The latest process list.
    pub rows: Vec<ProcessSnapshot>,
    /// Part of the executable's name, in any case.
    pub filter: String,
    pub sort_by: Option<ProcessSortKey>,
    pub sort_desc: bool,
    /// The process in the detail panel.
    pub selected_pid: Option<u32>,
    /// Nest processes below their parents.
    pub tree_mode: bool,
    /// Processes whose children are hidden.
    pub collapsed: HashSet<u32>,
    /// Processes that menu actions apply to together.
    pub multi_selected: HashSet<u32>,
    /// The anchor of a range selection.
    pub last_clicked_pid: Option<u32>,
    /// Affinity picks from the menu become rules too.
    pub remember_affinity: bool,
}

impl Default for ProcessesView {
    /// An empty tree, busiest process first.
    fn default() -> (r: Self)
        ensures
            r.rows@.len() == 0,
            r.filter@.len() == 0,
            r.sort_by == Some(ProcessSortKey::Cpu),
            r.sort_desc,
            r.selected_pid is None,
            r.tree_mode,
            r.collapsed@ == Set::<u32>::empty(),
            r.multi_selected@ == Set::<u32>::empty(),
            r.last_clicked_pid is None,
            !r.remember_affinity,
    {
        ProcessesView {
            rows: Vec::new(),
            filter: String::new(),
            sort_by: Some(ProcessSortKey::Cpu),
            sort_desc: true,
            selected_pid: None,
            tree_mode: true,
            collapsed: HashSet::new(),
            multi_selected: HashSet::new(),
            last_clicked_pid: None,
            remember_affinity: false,
        }
    }
}

// ── Totals ──────────────────────────────────────────────────────────────────

/// What the toolbar says about all processes together.
#[derive(Debug, Clone, Copy, PartialEq, Eq, Structural)]
pub struct Totals {
    /// In percent of one logical processor.
    pub cpu: u32,
    pub memory: u64,
    pub threads: u32,
    pub managed: usize,
    pub restrained: usize,
}

/// Sum of the processor shares.
pub open spec fn cpu_sum(rows: Seq<ProcessSnapshot>) -> nat
    decreases rows.len(),
{
    if rows.len() == 0 {
        0
    } else {
        cpu_sum(rows.drop_last()) + rows.last().cpu_percent as nat
    }
}

/// Sum of the working sets.
pub open spec fn memory_sum(rows: Seq<ProcessSnapshot>) -> nat
    decreases rows.len(),
{
    if rows.len() == 0 {
        0
    } else {
        memory_sum(rows.drop_last()) + rows.last().memory_bytes as nat
    }
}

/// Sum of the thread counts.
pub open spec fn thread_sum(rows: Seq<ProcessSnapshot>) -> nat
    decreases rows.len(),
{
    if rows.len() == 0 {
        0
    } else {
        thread_sum(rows.drop_last()) + rows.last().threads as nat
    }
}

/// Number of processes that have a profile.
pub open spec fn managed_count(rows: Seq<ProcessSnapshot>) -> nat {
    rows.filter(|p: ProcessSnapshot| p.managed_profile is Some).len()
}

/// Number of processes that are held back.
pub open spec fn restrained_count(rows: Seq<ProcessSnapshot>) -> nat {
    rows.filter(|p: ProcessSnapshot| p.restrained_by_probalance).len()
}

/// Whether the sums fit the fields of `Totals`.
pub open spec fn sums_fit(rows: Seq<ProcessSnapshot>) -> bool {
    &&& cpu_sum(rows) <= u32::MAX
    &&& memory_sum(rows) <= u64::MAX
    &&& thread_sum(rows) <= u32::MAX
}

proof fn lemma_sums_grow(rows: Seq<ProcessSnapshot>, n: int)
    requires
        0 <= n <= rows.len(),
    ensures
        cpu_sum(rows.take(n)) <= cpu_sum(rows),
        memory_sum(rows.take(n)) <= memory_sum(rows),
        thread_sum(rows.take(n)) <= thread_sum(rows),
    decreases rows.len() - n,
{
    if n < rows.len() {
        lemma_sums_grow(rows, n + 1);
        assert(rows.take(n + 1).drop_last() =~= rows.take(n));
    } else {
        assert(rows.take(n) =~= rows);
    }
}

/// Adds everything up; `None` when a sum does not fit.
pub fn totals(rows: &[ProcessSnapshot]) -> (r: Option<Totals>)
    ensures
        r is Some == sums_fit(rows@),
        r is Some ==> {
            &&& r->0.cpu == cpu_sum(rows@)
            &&& r->0.memory == memory_sum(rows@)
            &&& r->0.threads == thread_sum(rows@)
            &&& r->0.managed == managed_count(rows@)
            &&& r->0.restrained == restrained_count(rows@)
        },
{
    let mut sum = Totals { cpu: 0, memory: 0, threads: 0, managed: 0, restrained: 0 };
    let ghost is_managed = |p: ProcessSnapshot| p.managed_profile is Some;
    let ghost is_restrained = |p: ProcessSnapshot| p.restrained_by_probalance;
    assert(rows@.take(0) =~= Seq::empty());
    proof {
        reveal(Seq::filter);
    }
    for i in 0..rows.len()
        invariant
            is_managed == |p: ProcessSnapshot| p.managed_profile is Some,
            is_restrained == |p: ProcessSnapshot| p.restrained_by_probalance,
            sum.cpu == cpu_sum(rows@.take(i as int)),
            sum.memory == memory_sum(rows@.take(i as int)),
            sum.threads == thread_sum(rows@.take(i as int)),
            sum.managed == rows@.take(i as int).filter(is_managed).len(),
            sum.restrained == rows@.take(i as int).filter(is_restrained).len(),
            sum.managed <= i,
            sum.restrained <= i,
    {
        let p = &rows[i];
        let ghost longer = rows@.take(i + 1);
        proof {
            assert(longer.drop_last() =~= rows@.take(i as int));
            assert(longer.last() == rows@[i as int]);
            lemma_sums_grow(rows@, i + 1);
            reveal(Seq::filter);
        }
        sum.cpu = match sum.cpu.checked_add(p.cpu_percent as u32) {
            Some(x) => x,
            None => { return None; },
        };
        sum.memory = match sum.memory.checked_add(p.memory_bytes) {
            Some(x) => x,
            None => { return None; },
        };
        sum.threads = match sum.threads.checked_add(p.threads) {
            Some(x) => x,
            None => { return None; },
        };
        if p.managed_profile.is_some() {
            sum.managed = sum.managed + 1;
        }
        if p.restrained_by_probalance {
            sum.restrained = sum.restrained + 1;
        }
    }
    assert(rows@.take(rows@.len() as int) =~= rows@);
    Some(sum)
}

// ── The table ───────────────────────────────────────────────────────────────

/// Whether a process passes the filter. White space around the filter does
/// not count.
pub open spec fn passes(filter: Seq<char>, p: ProcessSnapshot) -> bool {
    text::occurs_in(text::lower(text::trim(filter)), text::lower(p.exe_name@))
}

/// The processes that pass the filter, in list order.
pub open spec fn filtered(rows: Seq<ProcessSnapshot>, filter: Seq<char>) -> Seq<ProcessSnapshot> {
    rows.filter(|p: ProcessSnapshot| passes(filter, p))
}

/// The chosen order on positions of a list.
pub open spec fn row_order(
    rows: Seq<ProcessSnapshot>,
    sort_by: Option<ProcessSortKey>,
    desc: bool,
) -> spec_fn(usize, usize) -> bool {
    |x: usize, y: usize| tree::chosen_order(sort_by, desc)(tree::at(rows, x), tree::at(rows, y))
}

/// The processes in the chosen order, ties in list order.
pub open spec fn sorted_rows(
    rows: Seq<ProcessSnapshot>,
    sort_by: Option<ProcessSortKey>,
    desc: bool,
) -> Seq<ProcessSnapshot> {
    sorting::sorted_positions(rows.len(), row_order(rows, sort_by, desc)).map_values(
        |i: usize| tree::at(rows, i),
    )
}

/// One plain row per process.
pub open spec fn flat_view(rows: Seq<ProcessSnapshot>) -> Seq<TreeRow> {
    Seq::new(
        rows.len(),
        |i: int|
            TreeRow { pid: rows[i].pid, row_index: i as usize, depth: 0, has_children: false },
    )
}

/// What the table is drawn from: processes, and the visible rows over them.
#[derive(Debug)]
pub struct Table {
    pub rows: Vec<ProcessSnapshot>,
    pub visible: Vec<TreeRow>,
}

impl ProcessesView {
    /// Whether the rows are nested: only without a filter.
    pub open spec fn nests(self) -> bool {
        self.tree_mode && self.filter@.len() == 0
    }

    /// The processes behind the table.
    pub open spec fn table_rows(self) -> Seq<ProcessSnapshot> {
        let kept = filtered(self.rows@, self.filter@);
        if self.nests() {
            kept
        } else {
            sorted_rows(kept, self.sort_by, self.sort_desc)
        }
    }

    /// The visible rows.
    pub open spec fn visible_rows(self) -> Seq<TreeRow> {
        if self.nests() {
            tree::tree_view(
                self.table_rows(),
                tree::chosen_order(self.sort_by, self.sort_desc),
                self.collapsed@,
            )
        } else {
            flat_view(self.table_rows())
        }
    }

    /// Whether some row would be nested too deep to be drawn.
    pub open spec fn too_deep(self) -> bool {
        self.nests() && !tree::fits(
            tree::shown(
                self.table_rows(),
                tree::chosen_order(self.sort_by, self.sort_desc),
                self.collapsed@,
            ),
        )
    }

    /// Builds the table. `None` when some row would be nested more than 255
    /// deep.
    pub fn table(&self) -> (r: Option<Table>)
        ensures
            r is None == self.too_deep(),
            r is Some ==> r->0.rows@ == self.table_rows() && r->0.visible@ == self.visible_rows(),
    {
        let kept = keep_passing(&self.rows, self.filter.as_str());
        let sort_by = self.sort_by;
        let sort_desc = self.sort_desc;
        if self.tree_mode && self.filter.as_str().unicode_len() == 0 {
            let order = |a: &ProcessSnapshot, b: &ProcessSnapshot| -> (o: Ordering)
                ensures
                    o == (if !tree::chosen_order(sort_by, sort_desc)(*b, *a) {
                        Ordering::Less
                    } else if !tree::chosen_order(sort_by, sort_desc)(*a, *b) {
                        Ordering::Greater
                    } else {
                        Ordering::Equal
                    }),
                { tree::compare_snapshots(a, b, sort_by, sort_desc) };
            proof {
                tree::chosen_order_is_preorder(sort_by, sort_desc);
                assert(tree::agrees(order, kept@, tree::chosen_order(sort_by, sort_desc)));
            }
            match tree::try_build_tree_view(kept.as_slice(), &self.collapsed, order) {
                Some(visible) => Some(Table { rows: kept, visible }),
                None => None,
            }
        } else {
            let rows = sort_rows(&kept, sort_by, sort_desc);
            let visible = list_rows(&rows);
            Some(Table { rows, visible })
        }
    }
}

/// The processes that pass the filter.
fn keep_passing(rows: &Vec<ProcessSnapshot>, filter: &str) -> (r: Vec<ProcessSnapshot>)
    ensures
        r@ == filtered(rows@, filter@),
{
    let stripped = text::trimmed(filter);
    let wanted = text::to_lower(stripped.as_str());
    let ghost pass = |p: ProcessSnapshot| passes(filter@, p);
    let mut out: Vec<ProcessSnapshot> = Vec::new();
    proof {
        reveal(Seq::filter);
        assert(rows@.take(0) =~= Seq::empty());
    }
    for i in 0..rows.len()
        invariant
            wanted@ == text::lower(text::trim(filter@)),
            pass == |p: ProcessSnapshot| passes(filter@, p),
            out@ == rows@.take(i as int).filter(pass),
    {
        proof {
            reveal(Seq::filter);
            assert(rows@.take(i + 1).drop_last() =~= rows@.take(i as int));
        }
        let name = text::to_lower(rows[i].exe_name.as_str());
        if text::contains_text(name.as_str(), wanted.as_str()) {
            out.push(rows[i].clone());
        }
    }
    assert(rows@.take(rows@.len() as int) =~= rows@);
    out
}

/// The processes in the chosen order.
fn sort_rows(rows: &Vec<ProcessSnapshot>, sort_by: Option<ProcessSortKey>, desc: bool) -> (r: Vec<
    ProcessSnapshot,
>)
    ensures
        r@ == sorted_rows(rows@, sort_by, desc),
{
    let ghost leq = row_order(rows@, sort_by, desc);
    proof {
        tree::chosen_order_is_preorder(sort_by, desc);
        let order = tree::chosen_order(sort_by, desc);
        assert forall|x: usize, y: usize| #[trigger] leq(x, y) || leq(y, x) by {
            assert(order(tree::at(rows@, x), tree::at(rows@, y)) || order(
                tree::at(rows@, y),
                tree::at(rows@, x),
            ));
        }
        assert forall|x: usize, y: usize, z: usize| #[trigger] leq(x, y) && #[trigger] leq(
            y,
            z,
        ) implies leq(x, z) by {
            assert(order(tree::at(rows@, x), tree::at(rows@, y)));
            assert(order(tree::at(rows@, y), tree::at(rows@, z)));
        }
    }
    let not_after = |x: usize, y: usize| -> (b: bool)
        requires
            x < rows@.len(),
            y < rows@.len(),
        ensures
            b == tree::chosen_order(sort_by, desc)(tree::at(rows@, x), tree::at(rows@, y)),
        {
            match tree::compare_snapshots(&rows[x], &rows[y], sort_by, desc) {
                Ordering::Less => true,
                Ordering::Equal => true,
                Ordering::Greater => false,
            }
        };
    let order = sorting::sort_positions(rows.len(), not_after, Ghost(leq));
    pick_rows(rows, &order)
}

/// The processes at the given positions.
fn pick_rows(rows: &Vec<ProcessSnapshot>, order: &Vec<usize>) -> (r: Vec<ProcessSnapshot>)
    requires
        forall|k: int| 0 <= k < order@.len() ==> (#[trigger] order@[k]) < rows@.len(),
    ensures
        r@ == order@.map_values(|i: usize| tree::at(rows@, i)),
{
    let mut out: Vec<ProcessSnapshot> = Vec::new();
    let ghost pick = |i: usize| tree::at(rows@, i);
    for k in 0..order.len()
        invariant
            forall|j: int| 0 <= j < order@.len() ==> (#[trigger] order@[j]) < rows@.len(),
            pick == |i: usize| tree::at(rows@, i),
            out@ == order@.take(k as int).map_values(pick),
    {
        assert(order@[k as int] < rows@.len());
        out.push(rows[order[k]].clone());
        assert(order@.take(k + 1).map_values(pick) =~= order@.take(k as int).map_values(
            pick,
        ).push(pick(order@[k as int])));
    }
    assert(order@.take(order@.len() as int) =~= order@);
    out
}

/// One plain row per process.
fn list_rows(rows: &Vec<ProcessSnapshot>) -> (r: Vec<TreeRow>)
    ensures
        r@ == flat_view(rows@),
{
    let mut out: Vec<TreeRow> = Vec::new();
    for i in 0..rows.len()
        invariant
            out@.len() == i,
            forall|j: int| 0 <= j < i ==> out@[j] == flat_view(rows@)[j],
    {
        out.push(TreeRow { pid: rows[i].pid, row_index: i, depth: 0, has_children: false });
    }
    assert(out@ =~= flat_view(rows@));
    out
}

// ── Clicks ──────────────────────────────────────────────────────────────────

/// A set with one member put in or taken out.
pub open spec fn flipped(s: Set<u32>, pid: u32) -> Set<u32> {
    if s.contains(pid) {
        s.remove(pid)
    } else {
        s.insert(pid)
    }
}

/// The pids of a process list.
pub open spec fn pids_of(rows: Seq<ProcessSnapshot>) -> Seq<u32> {
    rows.map_values(|p: ProcessSnapshot| p.pid)
}

/// The pids of the visible rows, top to bottom.
pub open spec fn shown_pids(visible: Seq<TreeRow>) -> Seq<u32> {
    visible.map_values(|r: TreeRow| r.pid)
}

/// The first place of a pid.
pub open spec fn place_of(pids: Seq<u32>, pid: u32) -> Option<int>
    decreases pids.len(),
{
    if pids.len() == 0 {
        None
    } else {
        match place_of(pids.drop_last(), pid) {
            Some(i) => Some(i),
            None => if pids.last() == pid {
                Some(pids.len() - 1)
            } else {
                None
            },
        }
    }
}

/// The pids from one place to another, in either direction.
pub open spec fn pids_between(pids: Seq<u32>, a: int, b: int) -> Set<u32> {
    let lo = if a <= b {
        a
    } else {
        b
    };
    let hi = if a <= b {
        b
    } else {
        a
    };
    Set::new(|pid: u32| exists|k: int| lo <= k <= hi && #[trigger] pids[k] == pid)
}

/// What is selected: the process in the detail panel, the set that menus act
/// on, and the anchor of a range.
pub struct Selection {
    pub single: Option<u32>,
    pub multi: Set<u32>,
    pub anchor: Option<u32>,
}

/// A plain click selects one process, or nothing if it was selected.
pub open spec fn plain_click(s: Selection, pid: u32) -> Selection {
    Selection {
        single: if s.single == Some(pid) {
            None
        } else {
            Some(pid)
        },
        multi: Set::empty(),
        anchor: Some(pid),
    }
}

/// A click with Ctrl puts the process in or out of the set.
pub open spec fn ctrl_click(s: Selection, pid: u32) -> Selection {
    Selection { single: Some(pid), multi: flipped(s.multi, pid), anchor: Some(pid) }
}

/// A click with Shift selects the rows that are shown from the anchor to the
/// process. Without an anchor it selects the process; with one that is not
/// shown it does nothing.
pub open spec fn shift_click(s: Selection, pid: u32, visible: Seq<TreeRow>) -> Selection {
    let pids = shown_pids(visible);
    match s.anchor {
        None => Selection { single: Some(pid), multi: Set::empty(), anchor: Some(pid) },
        Some(anchor) => match (place_of(pids, anchor), place_of(pids, pid)) {
            (Some(a), Some(b)) => Selection {
                single: Some(pid),
                multi: pids_between(pids, a, b),
                anchor: s.anchor,
            },
            _ => s,
        },
    }
}

/// A right click outside the set empties it, so that the menu is about the
/// clicked process alone; inside it the set stays.
pub open spec fn right_click_set(set: Set<u32>, pid: u32) -> Set<u32> {
    if set.contains(pid) {
        set
    } else {
        Set::empty()
    }
}

/// Whether a column starts ascending when it is first chosen.
pub open spec fn starts_ascending(key: ProcessSortKey) -> bool {
    key == ProcessSortKey::ExeName || key == ProcessSortKey::Pid || key == ProcessSortKey::Profile
}

/// The column and direction after a click on a header.
pub open spec fn after_header_click(
    sort_by: Option<ProcessSortKey>,
    desc: bool,
    key: ProcessSortKey,
) -> (Option<ProcessSortKey>, bool) {
    if sort_by == Some(key) {
        (sort_by, !desc)
    } else {
        (Some(key), !starts_ascending(key))
    }
}

/// The mark behind the name of the sorted column.
pub open spec fn header_mark(
    sort_by: Option<ProcessSortKey>,
    desc: bool,
    key: ProcessSortKey,
) -> Seq<char> {
    if sort_by != Some(key) {
        Seq::empty()
    } else if desc {
        " v"@
    } else {
        " ^"@
    }
}

/// The place of the first process with this pid.
pub fn find_process(rows: &[ProcessSnapshot], pid: u32) -> (r: Option<usize>)
    ensures
        match r {
            Some(i) => place_of(pids_of(rows@), pid) == Some(i as int) && i < rows@.len()
                && rows@[i as int].pid == pid,
            None => place_of(pids_of(rows@), pid) is None,
        },
{
    let ghost pids = pids_of(rows@);
    assert(pids.take(0) =~= Seq::empty());
    for i in 0..rows.len()
        invariant
            pids == pids_of(rows@),
            place_of(pids.take(i as int), pid) is None,
    {
        assert(pids.take(i + 1).drop_last() =~= pids.take(i as int));
        if rows[i].pid == pid {
            proof {
                lemma_place_stays(pids, pid, i + 1);
            }
            return Some(i);
        }
    }
    assert(pids.take(rows@.len() as int) =~= pids);
    None
}

/// The place of the first visible row with this pid.
fn find_shown(visible: &[TreeRow], pid: u32) -> (r: Option<usize>)
    ensures
        match r {
            Some(i) => place_of(shown_pids(visible@), pid) == Some(i as int) && i < visible@.len(),
            None => place_of(shown_pids(visible@), pid) is None,
        },
{
    let ghost pids = shown_pids(visible@);
    assert(pids.take(0) =~= Seq::empty());
    for i in 0..visible.len()
        invariant
            pids == shown_pids(visible@),
            place_of(pids.take(i as int), pid) is None,
    {
        assert(pids.take(i + 1).drop_last() =~= pids.take(i as int));
        if visible[i].pid == pid {
            proof {
                lemma_place_stays(pids, pid, i + 1);
            }
            return Some(i);
        }
    }
    assert(pids.take(visible@.len() as int) =~= pids);
    None
}

proof fn lemma_place_stays(pids: Seq<u32>, pid: u32, n: int)
    requires
        0 <= n <= pids.len(),
        place_of(pids.take(n), pid) is Some,
    ensures
        place_of(pids, pid) == place_of(pids.take(n), pid),
    decreases pids.len() - n,
{
    if n < pids.len() {
        assert(pids.take(n + 1).drop_last() =~= pids.take(n));
        lemma_place_stays(pids, pid, n + 1);
    } else {
        assert(pids.take(n) =~= pids);
    }
}

impl ProcessesView {
    /// What is selected.
    pub open spec fn selection(self) -> Selection {
        Selection {
            single: self.selected_pid,
            multi: self.multi_selected@,
            anchor: self.last_clicked_pid,
        }
    }

    /// Whether everything but the selection is as in `before`.
    pub open spec fn selects_from(self, before: ProcessesView) -> bool {
        &&& self.rows == before.rows
        &&& self.filter == before.filter
        &&& self.sort_by == before.sort_by
        &&& self.sort_desc == before.sort_desc
        &&& self.tree_mode == before.tree_mode
        &&& self.collapsed == before.collapsed
        &&& self.remember_affinity == before.remember_affinity
    }

    /// Takes the latest process list over. An empty one does not replace
    /// processes that are shown.
    pub fn refresh(&mut self, latest: &Vec<ProcessSnapshot>)
        ensures
            final(self).rows@ == (if latest@.len() > 0 || old(self).rows@.len() == 0 {
                latest@
            } else {
                old(self).rows@
            }),
            *final(self) == (ProcessesView { rows: final(self).rows, ..*old(self) }),
    {
        if latest.len() > 0 || self.rows.len() == 0 {
            let mut copy: Vec<ProcessSnapshot> = Vec::new();
            for i in 0..latest.len()
                invariant
                    copy@ == latest@.take(i as int),
            {
                copy.push(latest[i].clone());
                assert(copy@ =~= latest@.take(i + 1));
            }
            assert(latest@.take(latest@.len() as int) =~= latest@);
            self.rows = copy;
        }
    }

    /// Empties the filter.
    pub fn clear_filter(&mut self)
        ensures
            final(self).filter@.len() == 0,
            *final(self) == (ProcessesView { filter: final(self).filter, ..*old(self) }),
    {
        self.filter = String::new();
    }

    /// A click on the tree switch. While a filter is set it does nothing; a
    /// tree that is switched on starts out expanded.
    pub fn click_tree(&mut self)
        ensures
            old(self).filter@.len() > 0 ==> *final(self) == *old(self),
            old(self).filter@.len() == 0 ==> {
                &&& final(self).tree_mode == !old(self).tree_mode
                &&& final(self).collapsed@ == (if old(self).tree_mode {
                    old(self).collapsed@
                } else {
                    Set::<u32>::empty()
                })
                &&& *final(self) == (ProcessesView {
                    tree_mode: final(self).tree_mode,
                    collapsed: final(self).collapsed,
                    ..*old(self)
                })
            },
    {
        if self.filter.as_str().unicode_len() == 0 {
            self.tree_mode = !self.tree_mode;
            if self.tree_mode {
                self.collapsed = HashSet::new();
            }
        }
    }

    /// A click on the name of a process. `visible` are the rows that the table
    /// shows.
    pub fn click(&mut self, pid: u32, ctrl: bool, shift: bool, visible: &[TreeRow])
        ensures
            final(self).selects_from(*old(self)),
            final(self).selection() == (if shift {
                shift_click(old(self).selection(), pid, visible@)
            } else if ctrl {
                ctrl_click(old(self).selection(), pid)
            } else {
                plain_click(old(self).selection(), pid)
            }),
    {
        if shift {
            match self.last_clicked_pid {
                Some(anchor) => {
                    let from = find_shown(visible, anchor);
                    let to = find_shown(visible, pid);
                    match (from, to) {
                        (Some(a), Some(b)) => {
                            self.multi_selected = collect_pids(visible, a, b);
                            self.selected_pid = Some(pid);
                        },
                        _ => {},
                    }
                },
                None => {
                    self.multi_selected = HashSet::new();
                    self.selected_pid = Some(pid);
                    self.last_clicked_pid = Some(pid);
                },
            }
        } else if ctrl {
            let was_in = self.multi_selected.remove(&pid);
            if !was_in {
                self.multi_selected.insert(pid);
            }
            assert(self.multi_selected@ =~= flipped(old(self).multi_selected@, pid));
            self.selected_pid = Some(pid);
            self.last_clicked_pid = Some(pid);
        } else {
            self.multi_selected = HashSet::new();
            let again = match self.selected_pid {
                Some(s) => s == pid,
                None => false,
            };
            self.selected_pid = if again {
                None
            } else {
                Some(pid)
            };
            self.last_clicked_pid = Some(pid);
        }
    }

    /// A right click on the name of a process, which opens its menu.
    pub fn right_click(&mut self, pid: u32)
        ensures
            final(self).multi_selected@ == right_click_set(old(self).multi_selected@, pid),
            *final(self) == (ProcessesView {
                multi_selected: final(self).multi_selected,
                ..*old(self)
            }),
    {
        if !self.multi_selected.contains(&pid) {
            self.multi_selected = HashSet::new();
        }
    }

    /// Closes the detail panel.
    pub fn close_detail(&mut self)
        ensures
            *final(self) == (ProcessesView { selected_pid: None, ..*old(self) }),
    {
        self.selected_pid = None;
    }

    /// Where the process of the detail panel stands in the rows of the table.
    /// The panel closes when the process is gone.
    pub fn detail_row(&mut self, rows: &[ProcessSnapshot]) -> (r: Option<usize>)
        ensures
            match old(self).selected_pid {
                None => r is None && *final(self) == *old(self),
                Some(pid) => match r {
                    Some(i) => {
                        &&& place_of(pids_of(rows@), pid) == Some(i as int)
                        &&& i < rows@.len()
                        &&& *final(self) == *old(self)
                    },
                    None => {
                        &&& place_of(pids_of(rows@), pid) is None
                        &&& *final(self) == (ProcessesView { selected_pid: None, ..*old(self) })
                    },
                },
            },
    {
        match self.selected_pid {
            None => None,
            Some(pid) => {
                let found = find_process(rows, pid);
                if found.is_none() {
                    self.selected_pid = None;
                }
                found
            },
        }
    }

    /// Hides the children of a process, or shows them again.
    pub fn toggle_collapsed(&mut self, pid: u32)
        ensures
            final(self).collapsed@ == flipped(old(self).collapsed@, pid),
            *final(self) == (ProcessesView { collapsed: final(self).collapsed, ..*old(self) }),
    {
        let was_in = self.collapsed.remove(&pid);
        if !was_in {
            self.collapsed.insert(pid);
        }
        assert(self.collapsed@ =~= flipped(old(self).collapsed@, pid));
    }

    /// A click on a column header.
    pub fn click_header(&mut self, key: ProcessSortKey)
        ensures
            (final(self).sort_by, final(self).sort_desc) == after_header_click(
                old(self).sort_by,
                old(self).sort_desc,
                key,
            ),
            *final(self) == (ProcessesView {
                sort_by: final(self).sort_by,
                sort_desc: final(self).sort_desc,
                ..*old(self)
            }),
    {
        if self.sorts_by(key) {
            self.sort_desc = !self.sort_desc;
        } else {
            self.sort_by = Some(key);
            self.sort_desc = !(key == ProcessSortKey::ExeName || key == ProcessSortKey::Pid || key
                == ProcessSortKey::Profile);
        }
    }

    /// Whether this column is the sorted one.
    pub fn sorts_by(&self, key: ProcessSortKey) -> (r: bool)
        ensures
            r == (self.sort_by == Some(key)),
    {
        match self.sort_by {
            Some(k) => k == key,
            None => false,
        }
    }

    /// The text of a column header.
    pub fn header_text(&self, label: &str, key: ProcessSortKey) -> (r: String)
        ensures
            r@ == label@ + header_mark(self.sort_by, self.sort_desc, key),
    {
        let mut out = label.to_owned();
        if self.sorts_by(key) {
            if self.sort_desc {
                out.append(" v");
            } else {
                out.append(" ^");
            }
        }
        out
    }
}

/// The pids from one visible row to another, in either direction.
fn collect_pids(visible: &[TreeRow], a: usize, b: usize) -> (r: HashSet<u32>)
    requires
        a < visible@.len(),
        b < visible@.len(),
    ensures
        r@ == pids_between(shown_pids(visible@), a as int, b as int),
{
    let ghost pids = shown_pids(visible@);
    let (lo, hi) = if a <= b {
        (a, b)
    } else {
        (b, a)
    };
    let mut out: HashSet<u32> = HashSet::new();
    assert(hi < visible.len());
    for k in lo..hi + 1
        invariant
            pids == shown_pids(visible@),
            lo <= hi < visible@.len(),
            forall|pid: u32| #[trigger]
                out@.contains(pid) <==> exists|j: int| lo <= j < k && #[trigger] pids[j] == pid,
    {
        let ghost before = out@;
        out.insert(visible[k].pid);
        assert forall|pid: u32| #[trigger] out@.contains(pid) <==> exists|j: int|
            lo <= j < k + 1 && #[trigger] pids[j] == pid by {
            if before.contains(pid) {
                let j = choose|j: int| lo <= j < k && #[trigger] pids[j] == pid;
                assert(pids[j] == pid);
            }
            assert(pids[k as int] == visible@[k as int].pid);
        }
    }
    assert(out@ =~= pids_between(pids, a as int, b as int));
    out
}

// ── Laws of clicking ────────────────────────────────────────────────────────

/// Collapsing a process twice, or clicking it twice with Ctrl, puts the set
/// back as it was.
pub proof fn flipping_twice_is_identity(s: Set<u32>, pid: u32)
    ensures
        flipped(flipped(s, pid), pid) == s,
{
    assert(flipped(flipped(s, pid), pid) =~= s);
}

/// Two plain clicks on a process leave nothing selected but the anchor, unless
/// it was selected before.
pub proof fn second_plain_click_deselects(s: Selection, pid: u32)
    requires
        s.single != Some(pid),
    ensures
        plain_click(plain_click(s, pid), pid) == (Selection {
            single: None,
            multi: Set::empty(),
            anchor: Some(pid),
        }),
{
}

/// A range selection holds both of its ends and does not depend on the
/// direction.
pub proof fn ranges_hold_their_ends(pids: Seq<u32>, a: int, b: int)
    requires
        0 <= a < pids.len(),
        0 <= b < pids.len(),
    ensures
        pids_between(pids, a, b).contains(pids[a]),
        pids_between(pids, a, b).contains(pids[b]),
        pids_between(pids, a, b) == pids_between(pids, b, a),
{
    assert(pids_between(pids, a, b) =~= pids_between(pids, b, a));
}

/// A range selection holds nothing but what is shown: a process that is hidden
/// in a collapsed branch, or filtered out, never gets into it.
pub proof fn ranges_hold_only_what_is_shown(
    s: Selection,
    pid: u32,
    visible: Seq<TreeRow>,
    other: u32,
)
    requires
        s.anchor is Some,
        place_of(shown_pids(visible), s.anchor->0) is Some,
        place_of(shown_pids(visible), pid) is Some,
        shift_click(s, pid, visible).multi.contains(other),
    ensures
        exists|k: int| 0 <= k < visible.len() && (#[trigger] visible[k]).pid == other,
{
    let pids = shown_pids(visible);
    lemma_place_in_range(pids, s.anchor->0);
    lemma_place_in_range(pids, pid);
    let a = place_of(pids, s.anchor->0)->0;
    let b = place_of(pids, pid)->0;
    let lo = if a <= b {
        a
    } else {
        b
    };
    let hi = if a <= b {
        b
    } else {
        a
    };
    let k = choose|k: int| lo <= k <= hi && #[trigger] pids[k] == other;
    assert(visible[k].pid == other);
}

proof fn lemma_place_in_range(pids: Seq<u32>, pid: u32)
    requires
        place_of(pids, pid) is Some,
    ensures
        0 <= place_of(pids, pid)->0 < pids.len(),
    decreases pids.len(),
{
    if place_of(pids.drop_last(), pid) is Some {
        lemma_place_in_range(pids.drop_last(), pid);
    }
}

/// Clicking a header twice leaves the column sorted by it, in the direction
/// opposite to that after the first click.
pub proof fn second_header_click_reverses(
    sort_by: Option<ProcessSortKey>,
    desc: bool,
    key: ProcessSortKey,
)
    ensures
        ({
            let once = after_header_click(sort_by, desc, key);
            let twice = after_header_click(once.0, once.1, key);
            once.0 == Some(key) && twice.0 == Some(key) && twice.1 == !once.1
        }),
{
}

/// The flat table shows every process that passes the filter exactly once.
pub proof fn flat_table_is_a_permutation(
    rows: Seq<ProcessSnapshot>,
    sort_by: Option<ProcessSortKey>,
    desc: bool,
)
    requires
        rows.len() <= usize::MAX,
    ensures
        sorted_rows(rows, sort_by, desc).to_multiset() == rows.to_multiset(),
        flat_view(sorted_rows(rows, sort_by, desc)).len() == rows.len(),
{
    let leq = row_order(rows, sort_by, desc);
    tree::chosen_order_is_preorder(sort_by, desc);
    let order = tree::chosen_order(sort_by, desc);
    assert forall|x: usize, y: usize| #[trigger] leq(x, y) || leq(y, x) by {
        assert(order(tree::at(rows, x), tree::at(rows, y)) || order(
            tree::at(rows, y),
            tree::at(rows, x),
        ));
    }
    assert forall|x: usize, y: usize, z: usize| #[trigger] leq(x, y) && #[trigger] leq(
        y,
        z,
    ) implies leq(x, z) by {
        assert(order(tree::at(rows, x), tree::at(rows, y)));
        assert(order(tree::at(rows, y), tree::at(rows, z)));
    }
    let places = sorting::positions(rows.len());
    let sorted = sorting::sorted_positions(rows.len(), leq);
    let pick = |i: usize| tree::at(rows, i);
    sorting::lemma_stable_is_total(leq);
    places.lemma_sort_by_ensures(sorting::stable(leq));
    lemma_same_multiset_maps(places, sorted, pick);
    assert(places.map_values(pick) =~= rows);
    vstd::seq_lib::to_multiset_len(rows);
    vstd::seq_lib::to_multiset_len(sorted_rows(rows, sort_by, desc));
}

proof fn lemma_same_multiset_maps(
    a: Seq<usize>,
    b: Seq<usize>,
    pick: spec_fn(usize) -> ProcessSnapshot,
)
    requires
        a.to_multiset() == b.to_multiset(),
    ensures
        a.map_values(pick).to_multiset() == b.map_values(pick).to_multiset(),
    decreases a.len(),
{
    broadcast use vstd::seq_lib::group_to_multiset_ensures;

    if a.len() == 0 {
        vstd::seq_lib::to_multiset_len(a);
        vstd::seq_lib::to_multiset_len(b);
        assert(a.map_values(pick) =~= b.map_values(pick));
    } else {
        let x = a.last();
        assert(a.to_multiset().count(x) > 0) by {
            vstd::seq_lib::to_multiset_contains(a, x);
        }
        vstd::seq_lib::to_multiset_contains(b, x);
        let k = choose|k: int| 0 <= k < b.len() && b[k] == x;
        let a0 = a.drop_last();
        let b0 = b.remove(k);
        vstd::seq_lib::to_multiset_remove(a, a.len() - 1);
        vstd::seq_lib::to_multiset_remove(b, k);
        assert(a.remove(a.len() - 1) =~= a0);
        lemma_same_multiset_maps(a0, b0, pick);
        assert(a.map_values(pick) =~= a0.map_values(pick).push(pick(x)));
        assert(b.map_values(pick).remove(k) =~= b0.map_values(pick));
        vstd::seq_lib::to_multiset_remove(b.map_values(pick), k);
        vstd::seq_lib::to_multiset_build(a0.map_values(pick), pick(x));
        vstd::seq_lib::to_multiset_contains(b.map_values(pick), pick(x));
        assert(b.map_values(pick)[k] == pick(x));
        assert(b.map_values(pick).to_multiset() =~= b0.map_values(pick).to_multiset().insert(
            pick(x),
        ));
    }
}

} // verus!
