//! Laws of the process tree: what it shows, that it shows it once, and in which
//! order.

use vstd::prelude::*;

use crate::ipc::ProcessSnapshot;
use crate::tree;

verus! {

/// No two processes share a pid.
pub open spec fn pids_distinct(rows: Seq<ProcessSnapshot>) -> bool {
    forall|i: int, j: int|
        0 <= i < j < rows.len() ==> (#[trigger] rows[i]).pid != (#[trigger] rows[j]).pid
}

// ── Collapsing ──────────────────────────────────────────────────────────────

proof fn lemma_nested_hides(
    rows: Seq<ProcessSnapshot>,
    kids: spec_fn(u32) -> Seq<usize>,
    few: Set<u32>,
    many: Set<u32>,
    i: usize,
    stack: Seq<u32>,
    x: (usize, nat),
)
    requires
        few.subset_of(many),
        tree::nested(rows, kids, many, i, stack).contains(x),
    ensures
        tree::nested(rows, kids, few, i, stack).contains(x),
    decreases tree::off_path(rows, stack).len(), 0nat,
{
    let pid = rows[i as int].pid;
    let shorter = tree::nested(rows, kids, many, i, stack);
    let longer = tree::nested(rows, kids, few, i, stack);
    let k = shorter.index_of(x);
    assert(longer[0] == (i, stack.len()));
    if k > 0 {
        tree::lemma_off_path_shrinks(rows, stack, i as int);
        let path = stack.push(pid);
        let below = tree::nested_all(rows, kids, many, kids(pid), path);
        assert(below[k - 1] == x);
        lemma_nested_all_hides(rows, kids, few, many, kids(pid), path, x);
        let above = tree::nested_all(rows, kids, few, kids(pid), path);
        let m = above.index_of(x);
        assert(longer[m + 1] == x);
    }
}

proof fn lemma_nested_all_hides(
    rows: Seq<ProcessSnapshot>,
    kids: spec_fn(u32) -> Seq<usize>,
    few: Set<u32>,
    many: Set<u32>,
    list: Seq<usize>,
    stack: Seq<u32>,
    x: (usize, nat),
)
    requires
        few.subset_of(many),
        tree::nested_all(rows, kids, many, list, stack).contains(x),
    ensures
        tree::nested_all(rows, kids, few, list, stack).contains(x),
    decreases tree::off_path(rows, stack).len(), list.len() + 1,
{
    let rest = list.drop_last();
    let head = tree::nested_all(rows, kids, many, rest, stack);
    let part = tree::nested(rows, kids, many, list.last(), stack);
    let head2 = tree::nested_all(rows, kids, few, rest, stack);
    let part2 = tree::nested(rows, kids, few, list.last(), stack);
    let k = tree::nested_all(rows, kids, many, list, stack).index_of(x);
    if k < head.len() {
        assert(head[k] == x);
        lemma_nested_all_hides(rows, kids, few, many, rest, stack, x);
        let m = head2.index_of(x);
        assert((head2 + part2)[m] == x);
    } else {
        assert(part[k - head.len()] == x);
        lemma_nested_hides(rows, kids, few, many, list.last(), stack, x);
        let m = part2.index_of(x);
        assert((head2 + part2)[head2.len() + m] == x);
    }
}

/// Collapsing more processes only hides rows: what is still shown was shown
/// before, at the same depth.
pub proof fn collapsing_only_hides(
    rows: Seq<ProcessSnapshot>,
    leq: spec_fn(ProcessSnapshot, ProcessSnapshot) -> bool,
    few: Set<u32>,
    many: Set<u32>,
    x: (usize, nat),
)
    requires
        few.subset_of(many),
        tree::shown(rows, leq, many).contains(x),
    ensures
        tree::shown(rows, leq, few).contains(x),
{
    lemma_nested_all_hides(
        rows,
        tree::sibling_lists(rows, leq),
        few,
        many,
        tree::sorted_roots(rows, leq),
        Seq::empty(),
        x,
    );
}

// ── Sibling lists ───────────────────────────────────────────────────────────

/// Whether process `x` hangs below a process with this pid.
pub open spec fn hangs_below(rows: Seq<ProcessSnapshot>, x: usize, pid: u32) -> bool {
    x < rows.len() && rows[x as int].parent_pid == pid && tree::has_live_parent(rows, x as int)
}

/// Whether process `x` is a root.
pub open spec fn is_root(rows: Seq<ProcessSnapshot>, x: usize) -> bool {
    x < rows.len() && !tree::has_live_parent(rows, x as int)
}

proof fn lemma_children(rows: Seq<ProcessSnapshot>, pid: u32, n: nat)
    requires
        n <= rows.len(),
        rows.len() <= usize::MAX,
    ensures
        tree::children_upto(rows, pid, n).no_duplicates(),
        forall|x: usize| #[trigger]
            tree::children_upto(rows, pid, n).contains(x) <==> x < n && hangs_below(rows, x, pid),
    decreases n,
{
    if n > 0 {
        lemma_children(rows, pid, (n - 1) as nat);
        let before = tree::children_upto(rows, pid, (n - 1) as nat);
        let all = tree::children_upto(rows, pid, n);
        let top = (n - 1) as usize;
        assert(!before.contains(top));
        assert forall|x: usize| #[trigger] all.contains(x) <==> x < n && hangs_below(
            rows,
            x,
            pid,
        ) by {
            if before.contains(x) {
                let k = before.index_of(x);
                assert(all[k] == x);
            }
            if all.contains(x) {
                let k = all.index_of(x);
                if k < before.len() {
                    assert(before[k] == x);
                }
            }
            if x == top && hangs_below(rows, x, pid) {
                assert(all[before.len() as int] == x);
            }
        }
        assert forall|i: int, j: int| 0 <= i < j < all.len() implies all[i] != all[j] by {
            assert(all[i] == before[i]);
            if j == before.len() {
                assert(before.contains(before[i]));
            }
        }
    }
}

proof fn lemma_roots(rows: Seq<ProcessSnapshot>, n: nat)
    requires
        n <= rows.len(),
        rows.len() <= usize::MAX,
    ensures
        tree::roots_upto(rows, n).no_duplicates(),
        forall|x: usize| #[trigger]
            tree::roots_upto(rows, n).contains(x) <==> x < n && is_root(rows, x),
    decreases n,
{
    if n > 0 {
        lemma_roots(rows, (n - 1) as nat);
        let before = tree::roots_upto(rows, (n - 1) as nat);
        let all = tree::roots_upto(rows, n);
        let top = (n - 1) as usize;
        assert(!before.contains(top));
        assert forall|x: usize| #[trigger] all.contains(x) <==> x < n && is_root(rows, x) by {
            if before.contains(x) {
                let k = before.index_of(x);
                assert(all[k] == x);
            }
            if all.contains(x) {
                let k = all.index_of(x);
                if k < before.len() {
                    assert(before[k] == x);
                }
            }
            if x == top && is_root(rows, x) {
                assert(all[before.len() as int] == x);
            }
        }
        assert forall|i: int, j: int| 0 <= i < j < all.len() implies all[i] != all[j] by {
            assert(all[i] == before[i]);
            if j == before.len() {
                assert(before.contains(before[i]));
            }
        }
    }
}

proof fn lemma_sorting_keeps_members(
    rows: Seq<ProcessSnapshot>,
    leq: spec_fn(ProcessSnapshot, ProcessSnapshot) -> bool,
    list: Seq<usize>,
)
    requires
        tree::is_preorder(leq),
        list.no_duplicates(),
    ensures
        list.sort_by(tree::position_order(rows, leq)).no_duplicates(),
        forall|x: usize| #[trigger]
            list.sort_by(tree::position_order(rows, leq)).contains(x) <==> list.contains(x),
{
    let order = tree::position_order(rows, leq);
    let sorted = list.sort_by(order);
    tree::lemma_position_order_total(rows, leq);
    list.lemma_sort_by_ensures(order);
    list.to_multiset_ensures();
    sorted.to_multiset_ensures();
    list.lemma_multiset_has_no_duplicates();
    sorted.lemma_multiset_has_no_duplicates_conv();
    assert forall|x: usize| #[trigger] sorted.contains(x) <==> list.contains(x) by {
        assert(sorted.contains(x) <==> sorted.to_multiset().count(x) > 0);
        assert(list.contains(x) <==> list.to_multiset().count(x) > 0);
    }
}

// ── Lines ───────────────────────────────────────────────────────────────────

/// Whether `parent` is the process that `child` hangs below.
pub open spec fn steps_up(rows: Seq<ProcessSnapshot>, child: usize, parent: usize) -> bool {
    &&& child < rows.len()
    &&& parent < rows.len()
    &&& hangs_below(rows, child, rows[parent as int].pid)
}

/// Whether each process of `line` hangs below the next.
pub open spec fn is_line(rows: Seq<ProcessSnapshot>, line: Seq<usize>) -> bool {
    &&& line.len() > 0
    &&& forall|t: int| 0 <= t < line.len() ==> (#[trigger] line[t]) < rows.len()
    &&& forall|t: int, u: int|
        0 <= t && u == t + 1 && u < line.len() ==> #[trigger] steps_up(rows, line[t], line[u])
}

/// Whether `line` leads from the shown process `x` up to process `i`, which
/// was reached along `stack`, without touching `stack` itself.
spec fn leads_up(
    rows: Seq<ProcessSnapshot>,
    stack: Seq<u32>,
    i: usize,
    x: (usize, nat),
    line: Seq<usize>,
) -> bool {
    &&& is_line(rows, line)
    &&& line[0] == x.0
    &&& line.last() == i
    &&& line.len() + stack.len() == x.1 + 1
    &&& forall|t: int|
        0 <= t < line.len() ==> !stack.contains(rows[(#[trigger] line[t]) as int].pid)
}

/// Which sibling list was reached along `stack`.
spec fn is_sibling(rows: Seq<ProcessSnapshot>, stack: Seq<u32>, x: usize) -> bool {
    if stack.len() == 0 {
        is_root(rows, x)
    } else {
        hangs_below(rows, x, stack.last())
    }
}

proof fn lemma_from_some_list_entry(
    rows: Seq<ProcessSnapshot>,
    kids: spec_fn(u32) -> Seq<usize>,
    collapsed: Set<u32>,
    list: Seq<usize>,
    stack: Seq<u32>,
    x: (usize, nat),
) -> (k: int)
    requires
        tree::nested_all(rows, kids, collapsed, list, stack).contains(x),
    ensures
        0 <= k < list.len(),
        tree::nested(rows, kids, collapsed, list[k], stack).contains(x),
    decreases list.len(),
{
    let rest = list.drop_last();
    let head = tree::nested_all(rows, kids, collapsed, rest, stack);
    let part = tree::nested(rows, kids, collapsed, list.last(), stack);
    let m = tree::nested_all(rows, kids, collapsed, list, stack).index_of(x);
    if m < head.len() {
        assert(head[m] == x);
        let k = lemma_from_some_list_entry(rows, kids, collapsed, rest, stack, x);
        assert(rest[k] == list[k]);
        k
    } else {
        assert(part[m - head.len()] == x);
        list.len() - 1
    }
}

proof fn lemma_shown_have_lines(
    rows: Seq<ProcessSnapshot>,
    leq: spec_fn(ProcessSnapshot, ProcessSnapshot) -> bool,
    collapsed: Set<u32>,
    i: usize,
    stack: Seq<u32>,
    x: (usize, nat),
) -> (line: Seq<usize>)
    requires
        rows.len() <= usize::MAX,
        tree::is_preorder(leq),
        tree::nested(rows, tree::sibling_lists(rows, leq), collapsed, i, stack).contains(x),
    ensures
        leads_up(rows, stack, i, x, line),
    decreases tree::off_path(rows, stack).len(),
{
    let kids = tree::sibling_lists(rows, leq);
    let pid = rows[i as int].pid;
    let all = tree::nested(rows, kids, collapsed, i, stack);
    let k = all.index_of(x);
    if k == 0 {
        assert(x == (i, stack.len()));
        seq![i]
    } else {
        let path = stack.push(pid);
        let below = tree::nested_all(rows, kids, collapsed, kids(pid), path);
        assert(below[k - 1] == x);
        let c = lemma_from_some_list_entry(rows, kids, collapsed, kids(pid), path, x);
        let child = kids(pid)[c];
        tree::lemma_off_path_shrinks(rows, stack, i as int);
        let line = lemma_shown_have_lines(rows, leq, collapsed, child, path, x);
        lemma_children(rows, pid, rows.len());
        lemma_sorting_keeps_members(rows, leq, tree::children_upto(rows, pid, rows.len()));
        assert(kids(pid).contains(child));
        let longer = line.push(i);
        assert forall|t: int, u: int| 0 <= t && u == t + 1 && u < longer.len() implies #[trigger]
        steps_up(rows, longer[t], longer[u]) by {
            if u < line.len() {
                assert(steps_up(rows, line[t], line[u]));
            }
        }
        assert forall|t: int| 0 <= t < longer.len() implies !stack.contains(
            rows[(#[trigger] longer[t]) as int].pid,
        ) by {
            if t < line.len() {
                assert(longer[t] == line[t]);
                assert(!path.contains(rows[line[t] as int].pid));
                if stack.contains(rows[line[t] as int].pid) {
                    let m = stack.index_of(rows[line[t] as int].pid);
                    assert(path[m] == stack[m]);
                }
            }
        }
        assert forall|t: int| 0 <= t < longer.len() implies (#[trigger] longer[t])
            < rows.len() by {
            if t < line.len() {
                assert(longer[t] == line[t]);
            }
        }
        longer
    }
}

proof fn lemma_lines_agree(
    rows: Seq<ProcessSnapshot>,
    a: Seq<usize>,
    b: Seq<usize>,
    t: int,
)
    requires
        pids_distinct(rows),
        is_line(rows, a),
        is_line(rows, b),
        a[0] == b[0],
        0 <= t < a.len(),
        t < b.len(),
    ensures
        a[t] == b[t],
    decreases t,
{
    if t > 0 {
        lemma_lines_agree(rows, a, b, t - 1);
        assert(steps_up(rows, a[t - 1], a[t]));
        assert(steps_up(rows, b[t - 1], b[t]));
        let x = a[t] as int;
        let y = b[t] as int;
        assert(rows[x].pid == rows[y].pid);
        if x < y {
            assert(rows[x].pid != rows[y].pid);
        } else if y < x {
            assert(rows[y].pid != rows[x].pid);
        }
    }
}

// ── Once ────────────────────────────────────────────────────────────────────

/// Whether no process stands in a list twice.
pub open spec fn shows_once(places: Seq<(usize, nat)>) -> bool {
    forall|j: int, k: int|
        0 <= j < k < places.len() ==> (#[trigger] places[j]).0 != (#[trigger] places[k]).0
}

proof fn lemma_lines_end_alike(
    rows: Seq<ProcessSnapshot>,
    stack: Seq<u32>,
    a: usize,
    b: usize,
    xa: (usize, nat),
    xb: (usize, nat),
    la: Seq<usize>,
    lb: Seq<usize>,
)
    requires
        pids_distinct(rows),
        is_sibling(rows, stack, a),
        is_sibling(rows, stack, b),
        leads_up(rows, stack, a, xa, la),
        leads_up(rows, stack, b, xb, lb),
        xa.0 == xb.0,
        la.len() <= lb.len(),
    ensures
        a == b,
{
    let end = la.len() - 1;
    lemma_lines_agree(rows, la, lb, end);
    if la.len() < lb.len() {
        assert(steps_up(rows, lb[end], lb[end + 1]));
        if stack.len() > 0 {
            assert(stack[stack.len() - 1] == rows[lb[end + 1] as int].pid);
            assert(!stack.contains(rows[lb[end + 1] as int].pid));
        }
    }
}

proof fn lemma_nested_once(
    rows: Seq<ProcessSnapshot>,
    leq: spec_fn(ProcessSnapshot, ProcessSnapshot) -> bool,
    collapsed: Set<u32>,
    i: usize,
    stack: Seq<u32>,
)
    requires
        rows.len() <= usize::MAX,
        tree::is_preorder(leq),
        pids_distinct(rows),
    ensures
        shows_once(tree::nested(rows, tree::sibling_lists(rows, leq), collapsed, i, stack)),
    decreases tree::off_path(rows, stack).len(), 0nat,
{
    let kids = tree::sibling_lists(rows, leq);
    let all = tree::nested(rows, kids, collapsed, i, stack);
    if all.len() > 1 {
        let pid = rows[i as int].pid;
        let path = stack.push(pid);
        let below = tree::nested_all(rows, kids, collapsed, kids(pid), path);
        assert(all =~= seq![(i, stack.len())] + below);
        tree::lemma_off_path_shrinks(rows, stack, i as int);
        lemma_children(rows, pid, rows.len());
        lemma_sorting_keeps_members(rows, leq, tree::children_upto(rows, pid, rows.len()));
        assert forall|k: int| 0 <= k < kids(pid).len() implies is_sibling(
            rows,
            path,
            #[trigger] kids(pid)[k],
        ) by {
            assert(kids(pid).contains(kids(pid)[k]));
        }
        lemma_nested_all_once(rows, leq, collapsed, kids(pid), path);
        assert forall|j: int, k: int| 0 <= j < k < all.len() implies (#[trigger] all[j]).0 != (
        #[trigger] all[k]).0 by {
            assert(all[k] == below[k - 1]);
            if j > 0 {
                assert(all[j] == below[j - 1]);
            } else {
                assert(below.contains(below[k - 1]));
                let c = lemma_from_some_list_entry(
                    rows,
                    kids,
                    collapsed,
                    kids(pid),
                    path,
                    below[k - 1],
                );
                let line = lemma_shown_have_lines(
                    rows,
                    leq,
                    collapsed,
                    kids(pid)[c],
                    path,
                    below[k - 1],
                );
                assert(!path.contains(rows[line[0] as int].pid));
                assert(path[stack.len() as int] == pid);
            }
        }
    }
}

proof fn lemma_nested_all_once(
    rows: Seq<ProcessSnapshot>,
    leq: spec_fn(ProcessSnapshot, ProcessSnapshot) -> bool,
    collapsed: Set<u32>,
    list: Seq<usize>,
    stack: Seq<u32>,
)
    requires
        rows.len() <= usize::MAX,
        tree::is_preorder(leq),
        pids_distinct(rows),
        list.no_duplicates(),
        forall|k: int| 0 <= k < list.len() ==> is_sibling(rows, stack, #[trigger] list[k]),
    ensures
        shows_once(
            tree::nested_all(rows, tree::sibling_lists(rows, leq), collapsed, list, stack),
        ),
    decreases tree::off_path(rows, stack).len(), list.len() + 1,
{
    let kids = tree::sibling_lists(rows, leq);
    if list.len() > 0 {
        let rest = list.drop_last();
        let last = list.last();
        let head = tree::nested_all(rows, kids, collapsed, rest, stack);
        let part = tree::nested(rows, kids, collapsed, last, stack);
        let all = tree::nested_all(rows, kids, collapsed, list, stack);
        assert(is_sibling(rows, stack, list[list.len() - 1]));
        assert forall|k: int| 0 <= k < rest.len() implies is_sibling(
            rows,
            stack,
            #[trigger] rest[k],
        ) by {
            assert(rest[k] == list[k]);
        }
        lemma_nested_all_once(rows, leq, collapsed, rest, stack);
        lemma_nested_once(rows, leq, collapsed, last, stack);
        assert forall|j: int, k: int| 0 <= j < k < all.len() implies (#[trigger] all[j]).0 != (
        #[trigger] all[k]).0 by {
            if k < head.len() {
                assert(all[j] == head[j]);
                assert(all[k] == head[k]);
            } else if j >= head.len() {
                assert(all[j] == part[j - head.len()]);
                assert(all[k] == part[k - head.len()]);
            } else {
                let xa = head[j];
                let xb = part[k - head.len()];
                assert(all[j] == xa);
                assert(all[k] == xb);
                assert(head.contains(xa));
                assert(part.contains(xb));
                let c = lemma_from_some_list_entry(rows, kids, collapsed, rest, stack, xa);
                let la = lemma_shown_have_lines(rows, leq, collapsed, rest[c], stack, xa);
                let lb = lemma_shown_have_lines(rows, leq, collapsed, last, stack, xb);
                if xa.0 == xb.0 {
                    assert(is_sibling(rows, stack, rest[c]));
                    if la.len() <= lb.len() {
                        lemma_lines_end_alike(rows, stack, rest[c], last, xa, xb, la, lb);
                    } else {
                        lemma_lines_end_alike(rows, stack, last, rest[c], xb, xa, lb, la);
                    }
                    assert(list[c] == list[list.len() - 1]);
                }
            }
        }
    }
}

proof fn lemma_sorted_roots(
    rows: Seq<ProcessSnapshot>,
    leq: spec_fn(ProcessSnapshot, ProcessSnapshot) -> bool,
)
    requires
        rows.len() <= usize::MAX,
        tree::is_preorder(leq),
    ensures
        tree::sorted_roots(rows, leq).no_duplicates(),
        forall|x: usize| #[trigger]
            tree::sorted_roots(rows, leq).contains(x) <==> is_root(rows, x),
{
    lemma_roots(rows, rows.len());
    lemma_sorting_keeps_members(rows, leq, tree::roots_upto(rows, rows.len()));
}

/// Where no two processes share a pid, the tree shows no process twice, however
/// the parent links run.
pub proof fn the_tree_shows_each_process_once(
    rows: Seq<ProcessSnapshot>,
    leq: spec_fn(ProcessSnapshot, ProcessSnapshot) -> bool,
    collapsed: Set<u32>,
)
    requires
        rows.len() <= usize::MAX,
        tree::is_preorder(leq),
        pids_distinct(rows),
    ensures
        shows_once(tree::shown(rows, leq, collapsed)),
{
    let roots = tree::sorted_roots(rows, leq);
    lemma_sorted_roots(rows, leq);
    assert forall|k: int| 0 <= k < roots.len() implies is_sibling(
        rows,
        Seq::empty(),
        #[trigger] roots[k],
    ) by {
        assert(roots.contains(roots[k]));
    }
    lemma_nested_all_once(rows, leq, collapsed, roots, Seq::empty());
}

// ── Exactly ─────────────────────────────────────────────────────────────────

/// Whether `line` leads from process `j` up to a root.
pub open spec fn leads_to_root(rows: Seq<ProcessSnapshot>, j: usize, line: Seq<usize>) -> bool {
    is_line(rows, line) && line[0] == j && is_root(rows, line.last())
}

/// Whether a process hangs, over any number of parents, below a root.
pub open spec fn is_rooted(rows: Seq<ProcessSnapshot>, j: usize) -> bool {
    exists|line: Seq<usize>| leads_to_root(rows, j, line)
}

/// Whether a process is shown, at any depth.
pub open spec fn is_shown(places: Seq<(usize, nat)>, j: usize) -> bool {
    exists|k: int| 0 <= k < places.len() && (#[trigger] places[k]).0 == j
}

/// The pids above place `m` of a line, the root's first.
spec fn pids_above(rows: Seq<ProcessSnapshot>, line: Seq<usize>, m: int) -> Seq<u32> {
    Seq::new((line.len() - 1 - m) as nat, |t: int| rows[line[line.len() - 1 - t] as int].pid)
}

proof fn lemma_lines_do_not_repeat(
    rows: Seq<ProcessSnapshot>,
    j: usize,
    line: Seq<usize>,
    m: int,
    n: int,
)
    requires
        pids_distinct(rows),
        leads_to_root(rows, j, line),
        0 <= m < n < line.len(),
    ensures
        rows[line[m] as int].pid != rows[line[n] as int].pid,
{
    if rows[line[m] as int].pid == rows[line[n] as int].pid {
        let x = line[m] as int;
        let y = line[n] as int;
        if x < y {
            assert(rows[x].pid != rows[y].pid);
        } else if y < x {
            assert(rows[y].pid != rows[x].pid);
        }
        let a = line.skip(m);
        let b = line.skip(n);
        lemma_tail_is_line(rows, line, m);
        lemma_tail_is_line(rows, line, n);
        let end = b.len() - 1;
        lemma_lines_agree(rows, a, b, end);
        assert(b[end] == line.last());
        assert(steps_up(rows, a[end], a[end + 1]));
    }
}

proof fn lemma_tail_is_line(rows: Seq<ProcessSnapshot>, line: Seq<usize>, m: int)
    requires
        is_line(rows, line),
        0 <= m < line.len(),
    ensures
        is_line(rows, line.skip(m)),
{
    let tail = line.skip(m);
    assert forall|t: int| 0 <= t < tail.len() implies (#[trigger] tail[t]) < rows.len() by {
        assert(tail[t] == line[m + t]);
    }
    assert forall|t: int, u: int| 0 <= t && u == t + 1 && u < tail.len() implies #[trigger]
    steps_up(rows, tail[t], tail[u]) by {
        assert(steps_up(rows, line[m + t], line[m + u]));
    }
}

proof fn lemma_entry_is_part(
    rows: Seq<ProcessSnapshot>,
    kids: spec_fn(u32) -> Seq<usize>,
    collapsed: Set<u32>,
    list: Seq<usize>,
    stack: Seq<u32>,
    k: int,
    x: (usize, nat),
)
    requires
        0 <= k < list.len(),
        tree::nested(rows, kids, collapsed, list[k], stack).contains(x),
    ensures
        tree::nested_all(rows, kids, collapsed, list, stack).contains(x),
    decreases list.len(),
{
    let rest = list.drop_last();
    let head = tree::nested_all(rows, kids, collapsed, rest, stack);
    let part = tree::nested(rows, kids, collapsed, list.last(), stack);
    if k < list.len() - 1 {
        assert(rest[k] == list[k]);
        lemma_entry_is_part(rows, kids, collapsed, rest, stack, k, x);
        let m = head.index_of(x);
        assert((head + part)[m] == x);
    } else {
        let m = part.index_of(x);
        assert((head + part)[head.len() + m] == x);
    }
}

/// What is shown below a process on a line to a root is shown, where nothing
/// above the process is collapsed.
proof fn lemma_line_is_shown(
    rows: Seq<ProcessSnapshot>,
    leq: spec_fn(ProcessSnapshot, ProcessSnapshot) -> bool,
    collapsed: Set<u32>,
    j: usize,
    line: Seq<usize>,
    m: int,
    x: (usize, nat),
)
    requires
        rows.len() <= usize::MAX,
        tree::is_preorder(leq),
        pids_distinct(rows),
        leads_to_root(rows, j, line),
        0 <= m < line.len(),
        forall|t: int|
            m < t < line.len() ==> !collapsed.contains(rows[(#[trigger] line[t]) as int].pid),
        tree::nested(
            rows,
            tree::sibling_lists(rows, leq),
            collapsed,
            line[m],
            pids_above(rows, line, m),
        ).contains(x),
    ensures
        tree::shown(rows, leq, collapsed).contains(x),
    decreases line.len() - m,
{
    let kids = tree::sibling_lists(rows, leq);
    let here = pids_above(rows, line, m);
    if m == line.len() - 1 {
        let roots = tree::sorted_roots(rows, leq);
        lemma_sorted_roots(rows, leq);
        assert(roots.contains(line[m]));
        let k = roots.index_of(line[m]);
        assert(here =~= Seq::empty());
        lemma_entry_is_part(rows, kids, collapsed, roots, Seq::empty(), k, x);
    } else {
        let parent = line[m + 1];
        let pid = rows[parent as int].pid;
        let above = pids_above(rows, line, m + 1);
        assert(here =~= above.push(pid));
        assert(steps_up(rows, line[m], line[m + 1]));
        lemma_children(rows, pid, rows.len());
        lemma_sorting_keeps_members(rows, leq, tree::children_upto(rows, pid, rows.len()));
        assert(kids(pid).contains(line[m]));
        let k = kids(pid).index_of(line[m]);
        lemma_entry_is_part(rows, kids, collapsed, kids(pid), here, k, x);
        if above.contains(pid) {
            let t = above.index_of(pid);
            lemma_lines_do_not_repeat(rows, j, line, m + 1, line.len() - 1 - t);
        }
        let below = tree::nested_all(rows, kids, collapsed, kids(pid), here);
        let whole = tree::nested(rows, kids, collapsed, parent, above);
        let at = below.index_of(x);
        assert(whole == seq![(parent, above.len())] + below);
        assert(whole[at + 1] == x);
        lemma_line_is_shown(rows, leq, collapsed, j, line, m + 1, x);
    }
}

/// With nothing collapsed the tree shows exactly the processes that hang below
/// some root. Only processes on a cycle of parent links, or below one, are
/// left out.
pub proof fn the_tree_shows_exactly_the_rooted(
    rows: Seq<ProcessSnapshot>,
    leq: spec_fn(ProcessSnapshot, ProcessSnapshot) -> bool,
    j: usize,
)
    requires
        rows.len() <= usize::MAX,
        tree::is_preorder(leq),
        pids_distinct(rows),
        j < rows.len(),
    ensures
        is_shown(tree::shown(rows, leq, Set::empty()), j) == is_rooted(rows, j),
{
    let kids = tree::sibling_lists(rows, leq);
    let none = Set::<u32>::empty();
    let all = tree::shown(rows, leq, none);
    let roots = tree::sorted_roots(rows, leq);
    lemma_sorted_roots(rows, leq);
    if is_shown(all, j) {
        let k = choose|k: int| 0 <= k < all.len() && (#[trigger] all[k]).0 == j;
        assert(all.contains(all[k]));
        let c = lemma_from_some_list_entry(rows, kids, none, roots, Seq::empty(), all[k]);
        let line = lemma_shown_have_lines(rows, leq, none, roots[c], Seq::empty(), all[k]);
        assert(roots.contains(roots[c]));
        assert(leads_to_root(rows, j, line));
    }
    if is_rooted(rows, j) {
        let line = choose|line: Seq<usize>| leads_to_root(rows, j, line);
        let above = pids_above(rows, line, 0);
        let own = tree::nested(rows, kids, none, line[0], above);
        if above.contains(rows[j as int].pid) {
            let t = above.index_of(rows[j as int].pid);
            lemma_lines_do_not_repeat(rows, j, line, 0, line.len() - 1 - t);
        }
        let x = (j, above.len());
        assert(own[0] == x);
        lemma_line_is_shown(rows, leq, none, j, line, 0, x);
        let k = all.index_of(x);
        assert(all[k].0 == j);
    }
}

// ── Collapsing one more ─────────────────────────────────────────────────────

/// Whether `line` leads from process `x` up to another with this pid.
pub open spec fn leads_to_pid(
    rows: Seq<ProcessSnapshot>,
    x: usize,
    pid: u32,
    line: Seq<usize>,
) -> bool {
    is_line(rows, line) && line.len() > 1 && line[0] == x && rows[line.last() as int].pid == pid
}

/// Whether a process with this pid is a proper ancestor of process `x`.
pub open spec fn lies_below(rows: Seq<ProcessSnapshot>, x: usize, pid: u32) -> bool {
    exists|line: Seq<usize>| leads_to_pid(rows, x, pid, line)
}

/// The shown processes that do not lie below `pid`.
spec fn outside(rows: Seq<ProcessSnapshot>, pid: u32) -> spec_fn((usize, nat)) -> bool {
    |x: (usize, nat)| !lies_below(rows, x.0, pid)
}

/// The ancestors of a process on a line to a root are those on the line.
proof fn lemma_ancestors_are_above(
    rows: Seq<ProcessSnapshot>,
    i: usize,
    line: Seq<usize>,
    pid: u32,
)
    requires
        pids_distinct(rows),
        leads_to_root(rows, i, line),
        lies_below(rows, i, pid),
    ensures
        pids_above(rows, line, 0).contains(pid),
{
    let other = choose|other: Seq<usize>| leads_to_pid(rows, i, pid, other);
    if other.len() <= line.len() {
        let end = other.len() - 1;
        lemma_lines_agree(rows, line, other, end);
        let above = pids_above(rows, line, 0);
        assert(above[line.len() - 1 - end] == pid);
    } else {
        let end = line.len() - 1;
        lemma_lines_agree(rows, line, other, end);
        assert(steps_up(rows, other[end], other[end + 1]));
    }
}

/// A line to a root grows by a child at its lower end.
proof fn lemma_line_grows(rows: Seq<ProcessSnapshot>, i: usize, line: Seq<usize>, child: usize)
    requires
        leads_to_root(rows, i, line),
        hangs_below(rows, child, rows[i as int].pid),
    ensures
        leads_to_root(rows, child, seq![child] + line),
        pids_above(rows, seq![child] + line, 0) == pids_above(rows, line, 0).push(
            rows[i as int].pid,
        ),
{
    let longer = seq![child] + line;
    assert forall|t: int| 0 <= t < longer.len() implies (#[trigger] longer[t]) < rows.len() by {
        if t > 0 {
            assert(longer[t] == line[t - 1]);
        }
    }
    assert forall|t: int, u: int| 0 <= t && u == t + 1 && u < longer.len() implies #[trigger]
    steps_up(rows, longer[t], longer[u]) by {
        if t > 0 {
            assert(steps_up(rows, line[t - 1], line[u - 1]));
        }
    }
    assert(longer.last() == line.last());
    assert(pids_above(rows, longer, 0) =~= pids_above(rows, line, 0).push(rows[i as int].pid));
}

/// Everything that is shown for a process but itself lies below it.
proof fn lemma_rest_lies_below(
    rows: Seq<ProcessSnapshot>,
    leq: spec_fn(ProcessSnapshot, ProcessSnapshot) -> bool,
    collapsed: Set<u32>,
    i: usize,
    stack: Seq<u32>,
    k: int,
)
    requires
        rows.len() <= usize::MAX,
        tree::is_preorder(leq),
        0 < k < tree::nested(rows, tree::sibling_lists(rows, leq), collapsed, i, stack).len(),
    ensures
        lies_below(
            rows,
            tree::nested(rows, tree::sibling_lists(rows, leq), collapsed, i, stack)[k].0,
            rows[i as int].pid,
        ),
{
    let kids = tree::sibling_lists(rows, leq);
    let pid = rows[i as int].pid;
    let path = stack.push(pid);
    let all = tree::nested(rows, kids, collapsed, i, stack);
    let below = tree::nested_all(rows, kids, collapsed, kids(pid), path);
    let x = all[k];
    assert(below[k - 1] == x);
    assert(below.contains(x));
    let c = lemma_from_some_list_entry(rows, kids, collapsed, kids(pid), path, x);
    let lower = lemma_shown_have_lines(rows, leq, collapsed, kids(pid)[c], path, x);
    assert(all.contains(x));
    let line = lemma_shown_have_lines(rows, leq, collapsed, i, stack, x);
    assert(leads_to_pid(rows, x.0, pid, line));
}

proof fn lemma_none_kept(
    places: Seq<(usize, nat)>,
    keep: spec_fn((usize, nat)) -> bool,
)
    requires
        forall|k: int| 0 <= k < places.len() ==> !keep(#[trigger] places[k]),
    ensures
        places.filter(keep) == Seq::<(usize, nat)>::empty(),
    decreases places.len(),
{
    reveal(Seq::filter);
    if places.len() > 0 {
        let shorter = places.drop_last();
        assert forall|k: int| 0 <= k < shorter.len() implies !keep(#[trigger] shorter[k]) by {
            assert(shorter[k] == places[k]);
        }
        lemma_none_kept(shorter, keep);
        assert(!keep(places[places.len() - 1]));
    }
}

proof fn lemma_nested_collapse(
    rows: Seq<ProcessSnapshot>,
    leq: spec_fn(ProcessSnapshot, ProcessSnapshot) -> bool,
    collapsed: Set<u32>,
    p: u32,
    i: usize,
    line: Seq<usize>,
)
    requires
        rows.len() <= usize::MAX,
        tree::is_preorder(leq),
        pids_distinct(rows),
        leads_to_root(rows, i, line),
        !pids_above(rows, line, 0).contains(p),
    ensures
        tree::nested(
            rows,
            tree::sibling_lists(rows, leq),
            collapsed.insert(p),
            i,
            pids_above(rows, line, 0),
        ) == tree::nested(
            rows,
            tree::sibling_lists(rows, leq),
            collapsed,
            i,
            pids_above(rows, line, 0),
        ).filter(outside(rows, p)),
    decreases tree::off_path(rows, pids_above(rows, line, 0)).len(), 0nat,
{
    let kids = tree::sibling_lists(rows, leq);
    let keep = outside(rows, p);
    let stack = pids_above(rows, line, 0);
    let more = collapsed.insert(p);
    let pid = rows[i as int].pid;
    let before = tree::nested(rows, kids, collapsed, i, stack);
    let after = tree::nested(rows, kids, more, i, stack);
    let own = seq![(i, stack.len())];
    if lies_below(rows, i, p) {
        lemma_ancestors_are_above(rows, i, line, p);
    }
    assert(keep((i, stack.len())));
    assert(own.filter(keep) =~= own) by {
        reveal_with_fuel(Seq::filter, 2);
        assert(own.drop_last() =~= Seq::empty());
    }
    if stack.contains(pid) {
        assert(before.filter(keep) =~= Seq::empty()) by {
            reveal(Seq::filter);
        }
    } else if collapsed.contains(pid) {
        assert(before =~= own);
        assert(after =~= own);
    } else {
        let path = stack.push(pid);
        let below = tree::nested_all(rows, kids, collapsed, kids(pid), path);
        assert(before == own + below);
        Seq::filter_distributes_over_add(own, below, keep);
        if pid == p {
            assert(after == own);
            assert forall|k: int| 0 <= k < below.len() implies !keep(#[trigger] below[k]) by {
                assert(before[k + 1] == below[k]);
                lemma_rest_lies_below(rows, leq, collapsed, i, stack, k + 1);
            }
            lemma_none_kept(below, keep);
            assert(before.filter(keep) =~= own);
        } else {
            tree::lemma_off_path_shrinks(rows, stack, i as int);
            lemma_children(rows, pid, rows.len());
            lemma_sorting_keeps_members(rows, leq, tree::children_upto(rows, pid, rows.len()));
            assert forall|k: int| 0 <= k < kids(pid).len() implies hangs_below(
                rows,
                #[trigger] kids(pid)[k],
                pid,
            ) by {
                assert(kids(pid).contains(kids(pid)[k]));
            }
            assert(!path.contains(p)) by {
                if path.contains(p) {
                    let t = path.index_of(p);
                    assert(stack[t] == p);
                }
            }
            lemma_nested_all_collapse(rows, leq, collapsed, p, kids(pid), i, line);
            assert(after == own + tree::nested_all(rows, kids, more, kids(pid), path));
        }
    }
}

/// The children of process `i`, which has a line to a root.
proof fn lemma_nested_all_collapse(
    rows: Seq<ProcessSnapshot>,
    leq: spec_fn(ProcessSnapshot, ProcessSnapshot) -> bool,
    collapsed: Set<u32>,
    p: u32,
    list: Seq<usize>,
    i: usize,
    line: Seq<usize>,
)
    requires
        rows.len() <= usize::MAX,
        tree::is_preorder(leq),
        pids_distinct(rows),
        leads_to_root(rows, i, line),
        !pids_above(rows, line, 0).push(rows[i as int].pid).contains(p),
        forall|k: int|
            0 <= k < list.len() ==> hangs_below(rows, #[trigger] list[k], rows[i as int].pid),
    ensures
        tree::nested_all(
            rows,
            tree::sibling_lists(rows, leq),
            collapsed.insert(p),
            list,
            pids_above(rows, line, 0).push(rows[i as int].pid),
        ) == tree::nested_all(
            rows,
            tree::sibling_lists(rows, leq),
            collapsed,
            list,
            pids_above(rows, line, 0).push(rows[i as int].pid),
        ).filter(outside(rows, p)),
    decreases
            tree::off_path(rows, pids_above(rows, line, 0).push(rows[i as int].pid)).len(),
            list.len() + 1,
{
    let kids = tree::sibling_lists(rows, leq);
    let keep = outside(rows, p);
    let path = pids_above(rows, line, 0).push(rows[i as int].pid);
    if list.len() == 0 {
        reveal(Seq::filter);
    } else {
        let rest = list.drop_last();
        let last = list.last();
        assert forall|k: int| 0 <= k < rest.len() implies hangs_below(
            rows,
            #[trigger] rest[k],
            rows[i as int].pid,
        ) by {
            assert(rest[k] == list[k]);
        }
        lemma_nested_all_collapse(rows, leq, collapsed, p, rest, i, line);
        assert(hangs_below(rows, list[list.len() - 1], rows[i as int].pid));
        lemma_line_grows(rows, i, line, last);
        lemma_nested_collapse(rows, leq, collapsed, p, last, seq![last] + line);
        Seq::filter_distributes_over_add(
            tree::nested_all(rows, kids, collapsed, rest, path),
            tree::nested(rows, kids, collapsed, last, path),
            keep,
        );
    }
}

proof fn lemma_roots_collapse(
    rows: Seq<ProcessSnapshot>,
    leq: spec_fn(ProcessSnapshot, ProcessSnapshot) -> bool,
    collapsed: Set<u32>,
    p: u32,
    list: Seq<usize>,
)
    requires
        rows.len() <= usize::MAX,
        tree::is_preorder(leq),
        pids_distinct(rows),
        forall|k: int| 0 <= k < list.len() ==> is_root(rows, #[trigger] list[k]),
    ensures
        tree::nested_all(
            rows,
            tree::sibling_lists(rows, leq),
            collapsed.insert(p),
            list,
            Seq::empty(),
        ) == tree::nested_all(
            rows,
            tree::sibling_lists(rows, leq),
            collapsed,
            list,
            Seq::empty(),
        ).filter(outside(rows, p)),
    decreases list.len(),
{
    let kids = tree::sibling_lists(rows, leq);
    if list.len() == 0 {
        reveal(Seq::filter);
    } else {
        let rest = list.drop_last();
        let last = list.last();
        assert forall|k: int| 0 <= k < rest.len() implies is_root(rows, #[trigger] rest[k]) by {
            assert(rest[k] == list[k]);
        }
        lemma_roots_collapse(rows, leq, collapsed, p, rest);
        assert(is_root(rows, list[list.len() - 1]));
        let line = seq![last];
        assert(leads_to_root(rows, last, line));
        assert(pids_above(rows, line, 0) =~= Seq::empty());
        lemma_nested_collapse(rows, leq, collapsed, p, last, line);
        Seq::filter_distributes_over_add(
            tree::nested_all(rows, kids, collapsed, rest, Seq::empty()),
            tree::nested(rows, kids, collapsed, last, Seq::empty()),
            outside(rows, p),
        );
    }
}

/// Keeping before making rows is keeping the rows made.
proof fn lemma_filter_rows(rows: Seq<ProcessSnapshot>, places: Seq<(usize, nat)>, p: u32)
    ensures
        places.filter(outside(rows, p)).map_values(|at: (usize, nat)| tree::row_of(rows, at))
            == places.map_values(|at: (usize, nat)| tree::row_of(rows, at)).filter(
            |r: tree::TreeRow| !lies_below(rows, r.row_index, p),
        ),
    decreases places.len(),
{
    reveal(Seq::filter);
    let make = |at: (usize, nat)| tree::row_of(rows, at);
    let keep = |r: tree::TreeRow| !lies_below(rows, r.row_index, p);
    if places.len() == 0 {
        assert(places.filter(outside(rows, p)).map_values(make) =~= places.map_values(make).filter(
            keep,
        ));
    } else {
        let shorter = places.drop_last();
        lemma_filter_rows(rows, shorter, p);
        assert(places.map_values(make).drop_last() =~= shorter.map_values(make));
        assert(places.map_values(make).last() == make(places.last()));
        let kept = shorter.filter(outside(rows, p));
        assert(kept.push(places.last()).map_values(make) =~= kept.map_values(make).push(
            make(places.last()),
        ));
    }
}

/// Where no two processes share a pid, collapsing one more process takes
/// exactly the rows away that lie below it. Its own row and all others stay,
/// with their fields and in their order.
pub proof fn collapsing_takes_away_what_lies_below(
    rows: Seq<ProcessSnapshot>,
    leq: spec_fn(ProcessSnapshot, ProcessSnapshot) -> bool,
    collapsed: Set<u32>,
    p: u32,
)
    requires
        rows.len() <= usize::MAX,
        tree::is_preorder(leq),
        pids_distinct(rows),
    ensures
        tree::shown(rows, leq, collapsed.insert(p)) == tree::shown(rows, leq, collapsed).filter(
            |x: (usize, nat)| !lies_below(rows, x.0, p),
        ),
        tree::tree_view(rows, leq, collapsed.insert(p)) == tree::tree_view(
            rows,
            leq,
            collapsed,
        ).filter(|r: tree::TreeRow| !lies_below(rows, r.row_index, p)),
{
    let roots = tree::sorted_roots(rows, leq);
    lemma_sorted_roots(rows, leq);
    assert forall|k: int| 0 <= k < roots.len() implies is_root(rows, #[trigger] roots[k]) by {
        assert(roots.contains(roots[k]));
    }
    lemma_roots_collapse(rows, leq, collapsed, p, roots);
    lemma_filter_rows(rows, tree::shown(rows, leq, collapsed), p);
}

// ── Under any collapsed set ─────────────────────────────────────────────────

/// Whether a process above process `x` is collapsed.
pub open spec fn is_folded_away(
    rows: Seq<ProcessSnapshot>,
    collapsed: Set<u32>,
    x: usize,
) -> bool {
    exists|pid: u32| collapsed.contains(pid) && #[trigger] lies_below(rows, x, pid)
}

/// Where no two processes share a pid, the tree shows exactly the processes
/// that hang below some root and have no collapsed process above them.
pub proof fn the_tree_shows_the_rooted_that_are_not_folded_away(
    rows: Seq<ProcessSnapshot>,
    leq: spec_fn(ProcessSnapshot, ProcessSnapshot) -> bool,
    collapsed: Set<u32>,
    j: usize,
)
    requires
        rows.len() <= usize::MAX,
        tree::is_preorder(leq),
        pids_distinct(rows),
        j < rows.len(),
    ensures
        is_shown(tree::shown(rows, leq, collapsed), j) == (is_rooted(rows, j) && !is_folded_away(
            rows,
            collapsed,
            j,
        )),
{
    let all = tree::shown(rows, leq, collapsed);
    if is_shown(all, j) {
        let k = choose|k: int| 0 <= k < all.len() && (#[trigger] all[k]).0 == j;
        let x = all[k];
        assert(all.contains(x));
        collapsing_only_hides(rows, leq, Set::empty(), collapsed, x);
        let whole = tree::shown(rows, leq, Set::empty());
        assert(whole[whole.index_of(x)].0 == j);
        the_tree_shows_exactly_the_rooted(rows, leq, j);
        if is_folded_away(rows, collapsed, j) {
            let p = choose|p: u32| collapsed.contains(p) && #[trigger] lies_below(rows, j, p);
            collapsing_takes_away_what_lies_below(rows, leq, collapsed, p);
            assert(collapsed.insert(p) =~= collapsed);
            let keep = |x: (usize, nat)| !lies_below(rows, x.0, p);
            assert(all == all.filter(keep));
            all.lemma_filter_pred(keep, k);
            assert(keep(all[k]));
        }
    }
    if is_rooted(rows, j) && !is_folded_away(rows, collapsed, j) {
        let line = choose|line: Seq<usize>| leads_to_root(rows, j, line);
        let above = pids_above(rows, line, 0);
        let own = tree::nested(rows, tree::sibling_lists(rows, leq), collapsed, j, above);
        if above.contains(rows[j as int].pid) {
            let t = above.index_of(rows[j as int].pid);
            lemma_lines_do_not_repeat(rows, j, line, 0, line.len() - 1 - t);
        }
        assert forall|t: int| 0 < t < line.len() implies !collapsed.contains(
            rows[(#[trigger] line[t]) as int].pid,
        ) by {
            let lower = line.take(t + 1);
            assert forall|s: int, u: int|
                0 <= s && u == s + 1 && u < lower.len() implies #[trigger] steps_up(
                rows,
                lower[s],
                lower[u],
            ) by {
                assert(steps_up(rows, line[s], line[u]));
            }
            assert forall|s: int| 0 <= s < lower.len() implies (#[trigger] lower[s])
                < rows.len() by {
                assert(lower[s] == line[s]);
            }
            assert(leads_to_pid(rows, j, rows[line[t] as int].pid, lower));
            assert(lies_below(rows, j, rows[line[t] as int].pid));
        }
        let x = (j, above.len());
        assert(own[0] == x);
        lemma_line_is_shown(rows, leq, collapsed, j, line, 0, x);
        assert(all[all.index_of(x)].0 == j);
    }
}

// ── Parents above their children ────────────────────────────────────────────

/// Whether the place `m` of a list is the nearest one before `k` that is less
/// deep, lies one level higher, and holds the parent of what `k` holds.
pub open spec fn is_parent_place(
    rows: Seq<ProcessSnapshot>,
    places: Seq<(usize, nat)>,
    k: int,
    m: int,
) -> bool {
    &&& 0 <= m < k
    &&& places[m].1 + 1 == places[k].1
    &&& steps_up(rows, places[k].0, places[m].0)
    &&& forall|t: int| m < t < k ==> (#[trigger] places[t]).1 >= places[k].1
}

/// The same of rows.
pub open spec fn is_parent_row(
    rows: Seq<ProcessSnapshot>,
    view: Seq<tree::TreeRow>,
    k: int,
    m: int,
) -> bool {
    &&& 0 <= m < k
    &&& view[m].depth + 1 == view[k].depth
    &&& steps_up(rows, view[k].row_index, view[m].row_index)
    &&& forall|t: int| m < t < k ==> (#[trigger] view[t]).depth >= view[k].depth
}

/// Whether every place deeper than `base` has its parent's place before it, and
/// none is less deep than `base`.
spec fn parents_above(rows: Seq<ProcessSnapshot>, places: Seq<(usize, nat)>, base: nat) -> bool {
    &&& forall|k: int| 0 <= k < places.len() ==> (#[trigger] places[k]).1 >= base
    &&& forall|k: int|
        0 <= k < places.len() && (#[trigger] places[k]).1 > base ==> exists|m: int|
            is_parent_place(rows, places, k, m)
}

/// Putting places in front moves the parents' places along.
proof fn lemma_parent_place_moves(
    rows: Seq<ProcessSnapshot>,
    before: Seq<(usize, nat)>,
    places: Seq<(usize, nat)>,
    k: int,
    m: int,
)
    requires
        k < places.len(),
        is_parent_place(rows, places, k, m),
    ensures
        is_parent_place(rows, before + places, before.len() + k, before.len() + m),
{
    let all = before + places;
    let n = before.len() as int;
    assert(all[n + k] == places[k]);
    assert(all[n + m] == places[m]);
    assert forall|t: int| n + m < t < n + k implies (#[trigger] all[t]).1 >= all[n + k].1 by {
        assert(all[t] == places[t - n]);
    }
}

proof fn lemma_nested_parents(
    rows: Seq<ProcessSnapshot>,
    leq: spec_fn(ProcessSnapshot, ProcessSnapshot) -> bool,
    collapsed: Set<u32>,
    i: usize,
    stack: Seq<u32>,
)
    requires
        rows.len() <= usize::MAX,
        tree::is_preorder(leq),
    ensures
        parents_above(
            rows,
            tree::nested(rows, tree::sibling_lists(rows, leq), collapsed, i, stack),
            stack.len(),
        ),
        forall|k: int|
            0 < k < tree::nested(rows, tree::sibling_lists(rows, leq), collapsed, i, stack).len()
                ==> (#[trigger] tree::nested(
                rows,
                tree::sibling_lists(rows, leq),
                collapsed,
                i,
                stack,
            )[k]).1 > stack.len(),
    decreases tree::off_path(rows, stack).len(), 0nat,
{
    let kids = tree::sibling_lists(rows, leq);
    let all = tree::nested(rows, kids, collapsed, i, stack);
    if all.len() > 1 {
        let pid = rows[i as int].pid;
        let path = stack.push(pid);
        let below = tree::nested_all(rows, kids, collapsed, kids(pid), path);
        let own = seq![(i, stack.len())];
        assert(all =~= own + below);
        tree::lemma_off_path_shrinks(rows, stack, i as int);
        lemma_nested_all_parents(rows, leq, collapsed, kids(pid), path);
        lemma_children(rows, pid, rows.len());
        lemma_sorting_keeps_members(rows, leq, tree::children_upto(rows, pid, rows.len()));
        assert forall|k: int| 0 <= k < all.len() implies (#[trigger] all[k]).1 >= stack.len() && (k
            > 0 ==> all[k].1 > stack.len()) by {
            if k > 0 {
                assert(all[k] == below[k - 1]);
            }
        }
        assert forall|k: int|
            0 <= k < all.len() && (#[trigger] all[k]).1 > stack.len() implies exists|m: int|
            is_parent_place(rows, all, k, m) by {
            assert(all[k] == below[k - 1]);
            if below[k - 1].1 > path.len() {
                let lower = k - 1;
                let m = choose|m: int| is_parent_place(rows, below, lower, m);
                lemma_parent_place_moves(rows, own, below, lower, m);
                assert(is_parent_place(rows, all, k, m + 1));
            } else {
                assert(kids(pid).contains(below[k - 1].0));
                assert forall|t: int| 0 < t < k implies (#[trigger] all[t]).1 >= all[k].1 by {
                    assert(all[t] == below[t - 1]);
                }
                assert(is_parent_place(rows, all, k, 0));
            }
        }
    }
}

proof fn lemma_nested_all_parents(
    rows: Seq<ProcessSnapshot>,
    leq: spec_fn(ProcessSnapshot, ProcessSnapshot) -> bool,
    collapsed: Set<u32>,
    list: Seq<usize>,
    stack: Seq<u32>,
)
    requires
        rows.len() <= usize::MAX,
        tree::is_preorder(leq),
    ensures
        parents_above(
            rows,
            tree::nested_all(rows, tree::sibling_lists(rows, leq), collapsed, list, stack),
            stack.len(),
        ),
        forall|k: int|
            0 <= k < tree::nested_all(
                rows,
                tree::sibling_lists(rows, leq),
                collapsed,
                list,
                stack,
            ).len() && (#[trigger] tree::nested_all(
                rows,
                tree::sibling_lists(rows, leq),
                collapsed,
                list,
                stack,
            )[k]).1 == stack.len() ==> list.contains(
                tree::nested_all(rows, tree::sibling_lists(rows, leq), collapsed, list, stack)[k].0,
            ),
    decreases tree::off_path(rows, stack).len(), list.len() + 1,
{
    let kids = tree::sibling_lists(rows, leq);
    if list.len() > 0 {
        let rest = list.drop_last();
        let last = list.last();
        let head = tree::nested_all(rows, kids, collapsed, rest, stack);
        let part = tree::nested(rows, kids, collapsed, last, stack);
        let all = tree::nested_all(rows, kids, collapsed, list, stack);
        let n = head.len() as int;
        lemma_nested_all_parents(rows, leq, collapsed, rest, stack);
        lemma_nested_parents(rows, leq, collapsed, last, stack);
        assert(all == head + part);
        assert forall|k: int| 0 <= k < all.len() implies (#[trigger] all[k]).1 >= stack.len() by {
            if k < n {
                assert(all[k] == head[k]);
            } else {
                assert(all[k] == part[k - n]);
            }
        }
        assert forall|k: int|
            0 <= k < all.len() && (#[trigger] all[k]).1 > stack.len() implies exists|m: int|
            is_parent_place(rows, all, k, m) by {
            if k < n {
                assert(all[k] == head[k]);
                let m = choose|m: int| is_parent_place(rows, head, k, m);
                assert(all[m] == head[m]);
                assert forall|t: int| m < t < k implies (#[trigger] all[t]).1 >= all[k].1 by {
                    assert(all[t] == head[t]);
                }
                assert(is_parent_place(rows, all, k, m));
            } else {
                assert(all[k] == part[k - n]);
                let own = k - n;
                let m = choose|m: int| is_parent_place(rows, part, own, m);
                lemma_parent_place_moves(rows, head, part, own, m);
                assert(is_parent_place(rows, all, k, n + m));
            }
        }
        assert forall|k: int| 0 <= k < all.len() && (#[trigger] all[k]).1 == stack.len() implies
            list.contains(all[k].0) by {
            if k < n {
                assert(all[k] == head[k]);
                assert(rest.contains(head[k].0));
                let c = rest.index_of(head[k].0);
                assert(list[c] == head[k].0);
            } else {
                assert(all[k] == part[k - n]);
                assert(k == n);
                assert(list[list.len() - 1] == all[k].0);
            }
        }
    }
}

/// The roots stand at depth 0, and every other row stands below its parent's:
/// the nearest row before it that is less deep is its parent's, one level up.
pub proof fn parents_stand_above_their_children(
    rows: Seq<ProcessSnapshot>,
    leq: spec_fn(ProcessSnapshot, ProcessSnapshot) -> bool,
    collapsed: Set<u32>,
    k: int,
)
    requires
        rows.len() <= usize::MAX,
        tree::is_preorder(leq),
        0 <= k < tree::shown(rows, leq, collapsed).len(),
    ensures
        ({
            let places = tree::shown(rows, leq, collapsed);
            let view = tree::tree_view(rows, leq, collapsed);
            &&& places[k].1 == 0 <==> is_root(rows, places[k].0)
            &&& !is_root(rows, places[k].0) ==> exists|m: int|
                is_parent_place(rows, places, k, m)
            &&& tree::fits(places) ==> {
                &&& view[k].depth == 0 <==> is_root(rows, view[k].row_index)
                &&& !is_root(rows, view[k].row_index) ==> exists|m: int|
                    is_parent_row(rows, view, k, m)
            }
        }),
{
    let places = tree::shown(rows, leq, collapsed);
    let view = tree::tree_view(rows, leq, collapsed);
    let roots = tree::sorted_roots(rows, leq);
    lemma_sorted_roots(rows, leq);
    lemma_nested_all_parents(rows, leq, collapsed, roots, Seq::empty());
    if places[k].1 == 0 {
        assert(roots.contains(places[k].0));
    } else {
        let m = choose|m: int| is_parent_place(rows, places, k, m);
        assert(is_parent_place(rows, places, k, m));
        if tree::fits(places) {
            assert(places[k].1 <= u8::MAX && places[m].1 <= u8::MAX);
            assert(view[k] == tree::row_of(rows, places[k]));
            assert(view[m] == tree::row_of(rows, places[m]));
            assert forall|t: int| m < t < k implies (#[trigger] view[t]).depth >= view[k].depth by {
                assert(places[t].1 <= u8::MAX);
                assert(view[t] == tree::row_of(rows, places[t]));
            }
            assert(is_parent_row(rows, view, k, m));
        }
    }
}

// ── Siblings in order ───────────────────────────────────────────────────────

/// Whether two processes are both roots, or hang below the same pid.
pub open spec fn are_siblings(rows: Seq<ProcessSnapshot>, a: usize, b: usize) -> bool {
    &&& a < rows.len()
    &&& b < rows.len()
    &&& if tree::has_live_parent(rows, a as int) {
        tree::has_live_parent(rows, b as int) && rows[a as int].parent_pid
            == rows[b as int].parent_pid
    } else {
        !tree::has_live_parent(rows, b as int)
    }
}

/// Whether siblings stand in a list in the given order, and where that does not
/// tell them apart in the order of the snapshots.
pub open spec fn siblings_in_order(
    rows: Seq<ProcessSnapshot>,
    leq: spec_fn(ProcessSnapshot, ProcessSnapshot) -> bool,
    places: Seq<(usize, nat)>,
) -> bool {
    forall|j: int, k: int|
        0 <= j < k < places.len() && are_siblings(rows, places[j].0, places[k].0)
            ==> tree::position_order(rows, leq)(
            (#[trigger] places[j]).0,
            (#[trigger] places[k]).0,
        )
}

/// Whether a list of positions is in order.
spec fn list_in_order(
    rows: Seq<ProcessSnapshot>,
    leq: spec_fn(ProcessSnapshot, ProcessSnapshot) -> bool,
    list: Seq<usize>,
) -> bool {
    forall|a: int, b: int|
        0 <= a < b < list.len() ==> tree::position_order(rows, leq)(
            #[trigger] list[a],
            #[trigger] list[b],
        )
}

proof fn lemma_sorted_in_order(
    rows: Seq<ProcessSnapshot>,
    leq: spec_fn(ProcessSnapshot, ProcessSnapshot) -> bool,
    list: Seq<usize>,
)
    requires
        tree::is_preorder(leq),
    ensures
        list_in_order(rows, leq, list.sort_by(tree::position_order(rows, leq))),
{
    let order = tree::position_order(rows, leq);
    tree::lemma_position_order_total(rows, leq);
    list.lemma_sort_by_ensures(order);
    let sorted = list.sort_by(order);
    assert forall|a: int, b: int| 0 <= a < b < sorted.len() implies order(
        #[trigger] sorted[a],
        #[trigger] sorted[b],
    ) by {
        assert(vstd::relations::sorted_by(sorted, order));
    }
}

/// A process that is reached over another is no sibling of one that was reached
/// along the same path.
proof fn lemma_deeper_is_no_sibling(
    rows: Seq<ProcessSnapshot>,
    stack: Seq<u32>,
    a: usize,
    b: usize,
    x: (usize, nat),
    line: Seq<usize>,
)
    requires
        is_sibling(rows, stack, a),
        leads_up(rows, stack, b, x, line),
        line.len() > 1,
    ensures
        !are_siblings(rows, a, x.0),
        !are_siblings(rows, x.0, a),
{
    assert(steps_up(rows, line[0], line[1]));
    if stack.len() > 0 && rows[a as int].parent_pid == rows[x.0 as int].parent_pid {
        assert(stack[stack.len() - 1] == rows[line[1] as int].pid);
        assert(!stack.contains(rows[line[1] as int].pid));
    }
}

proof fn lemma_nested_siblings(
    rows: Seq<ProcessSnapshot>,
    leq: spec_fn(ProcessSnapshot, ProcessSnapshot) -> bool,
    collapsed: Set<u32>,
    i: usize,
    stack: Seq<u32>,
)
    requires
        rows.len() <= usize::MAX,
        tree::is_preorder(leq),
        pids_distinct(rows),
        is_sibling(rows, stack, i),
    ensures
        siblings_in_order(
            rows,
            leq,
            tree::nested(rows, tree::sibling_lists(rows, leq), collapsed, i, stack),
        ),
    decreases tree::off_path(rows, stack).len(), 0nat,
{
    let kids = tree::sibling_lists(rows, leq);
    let order = tree::position_order(rows, leq);
    let all = tree::nested(rows, kids, collapsed, i, stack);
    if all.len() > 1 {
        let pid = rows[i as int].pid;
        let path = stack.push(pid);
        let below = tree::nested_all(rows, kids, collapsed, kids(pid), path);
        assert(all =~= seq![(i, stack.len())] + below);
        tree::lemma_off_path_shrinks(rows, stack, i as int);
        let children = tree::children_upto(rows, pid, rows.len());
        lemma_children(rows, pid, rows.len());
        lemma_sorting_keeps_members(rows, leq, children);
        lemma_sorted_in_order(rows, leq, children);
        assert forall|k: int| 0 <= k < kids(pid).len() implies is_sibling(
            rows,
            path,
            #[trigger] kids(pid)[k],
        ) by {
            assert(kids(pid).contains(kids(pid)[k]));
        }
        lemma_nested_all_siblings(rows, leq, collapsed, kids(pid), path);
        assert forall|j: int, k: int|
            0 <= j < k < all.len() && are_siblings(rows, all[j].0, all[k].0) implies order(
            (#[trigger] all[j]).0,
            (#[trigger] all[k]).0,
        ) by {
            let x = all[k];
            assert(x == below[k - 1]);
            if j > 0 {
                assert(all[j] == below[j - 1]);
            } else {
                assert(all.contains(x));
                assert(below.contains(x));
                let line = lemma_shown_have_lines(rows, leq, collapsed, i, stack, x);
                let c = lemma_from_some_list_entry(rows, kids, collapsed, kids(pid), path, x);
                let lower = lemma_shown_have_lines(rows, leq, collapsed, kids(pid)[c], path, x);
                lemma_deeper_is_no_sibling(rows, stack, i, i, x, line);
            }
        }
    }
}

proof fn lemma_nested_all_siblings(
    rows: Seq<ProcessSnapshot>,
    leq: spec_fn(ProcessSnapshot, ProcessSnapshot) -> bool,
    collapsed: Set<u32>,
    list: Seq<usize>,
    stack: Seq<u32>,
)
    requires
        rows.len() <= usize::MAX,
        tree::is_preorder(leq),
        pids_distinct(rows),
        list.no_duplicates(),
        list_in_order(rows, leq, list),
        forall|k: int| 0 <= k < list.len() ==> is_sibling(rows, stack, #[trigger] list[k]),
    ensures
        siblings_in_order(
            rows,
            leq,
            tree::nested_all(rows, tree::sibling_lists(rows, leq), collapsed, list, stack),
        ),
    decreases tree::off_path(rows, stack).len(), list.len() + 1,
{
    let kids = tree::sibling_lists(rows, leq);
    let order = tree::position_order(rows, leq);
    if list.len() > 0 {
        let rest = list.drop_last();
        let last = list.last();
        let head = tree::nested_all(rows, kids, collapsed, rest, stack);
        let part = tree::nested(rows, kids, collapsed, last, stack);
        let all = tree::nested_all(rows, kids, collapsed, list, stack);
        assert(is_sibling(rows, stack, list[list.len() - 1]));
        assert forall|k: int| 0 <= k < rest.len() implies is_sibling(
            rows,
            stack,
            #[trigger] rest[k],
        ) by {
            assert(rest[k] == list[k]);
        }
        assert forall|a: int, b: int| 0 <= a < b < rest.len() implies order(
            #[trigger] rest[a],
            #[trigger] rest[b],
        ) by {
            assert(order(list[a], list[b]));
        }
        lemma_nested_all_siblings(rows, leq, collapsed, rest, stack);
        lemma_nested_siblings(rows, leq, collapsed, last, stack);
        assert forall|j: int, k: int|
            0 <= j < k < all.len() && are_siblings(rows, all[j].0, all[k].0) implies order(
            (#[trigger] all[j]).0,
            (#[trigger] all[k]).0,
        ) by {
            if k < head.len() {
                assert(all[j] == head[j]);
                assert(all[k] == head[k]);
            } else if j >= head.len() {
                assert(all[j] == part[j - head.len()]);
                assert(all[k] == part[k - head.len()]);
            } else {
                let xa = head[j];
                let xb = part[k - head.len()];
                assert(all[j] == xa);
                assert(all[k] == xb);
                assert(head.contains(xa));
                assert(part.contains(xb));
                let c = lemma_from_some_list_entry(rows, kids, collapsed, rest, stack, xa);
                let la = lemma_shown_have_lines(rows, leq, collapsed, rest[c], stack, xa);
                let lb = lemma_shown_have_lines(rows, leq, collapsed, last, stack, xb);
                assert(is_sibling(rows, stack, rest[c]));
                if la.len() == 1 && lb.len() == 1 {
                    assert(order(list[c], list[list.len() - 1]));
                } else if la.len() == 1 {
                    lemma_deeper_is_no_sibling(rows, stack, rest[c], last, xb, lb);
                } else if lb.len() == 1 {
                    lemma_deeper_is_no_sibling(rows, stack, last, rest[c], xa, la);
                } else {
                    lemma_siblings_are_reached_alike(rows, stack, rest[c], last, xa, xb, la, lb);
                    assert(list[c] == list[list.len() - 1]);
                }
            }
        }
    }
}

/// Two siblings that are reached over others are reached over the same.
proof fn lemma_siblings_are_reached_alike(
    rows: Seq<ProcessSnapshot>,
    stack: Seq<u32>,
    a: usize,
    b: usize,
    xa: (usize, nat),
    xb: (usize, nat),
    la: Seq<usize>,
    lb: Seq<usize>,
)
    requires
        pids_distinct(rows),
        is_sibling(rows, stack, a),
        is_sibling(rows, stack, b),
        leads_up(rows, stack, a, xa, la),
        leads_up(rows, stack, b, xb, lb),
        la.len() > 1,
        lb.len() > 1,
        are_siblings(rows, xa.0, xb.0),
    ensures
        a == b,
{
    assert(steps_up(rows, la[0], la[1]));
    assert(steps_up(rows, lb[0], lb[1]));
    let p = la[1] as int;
    let q = lb[1] as int;
    assert(rows[p].pid == rows[q].pid);
    if p < q {
        assert(rows[p].pid != rows[q].pid);
    } else if q < p {
        assert(rows[q].pid != rows[p].pid);
    }
    let ta = la.skip(1);
    let tb = lb.skip(1);
    lemma_tail_is_line(rows, la, 1);
    lemma_tail_is_line(rows, lb, 1);
    let ya = (la[1], (xa.1 - 1) as nat);
    let yb = (lb[1], (xb.1 - 1) as nat);
    assert(leads_up(rows, stack, a, ya, ta)) by {
        assert forall|t: int| 0 <= t < ta.len() implies !stack.contains(
            rows[(#[trigger] ta[t]) as int].pid,
        ) by {
            assert(ta[t] == la[t + 1]);
        }
    }
    assert(leads_up(rows, stack, b, yb, tb)) by {
        assert forall|t: int| 0 <= t < tb.len() implies !stack.contains(
            rows[(#[trigger] tb[t]) as int].pid,
        ) by {
            assert(tb[t] == lb[t + 1]);
        }
    }
    if ta.len() <= tb.len() {
        lemma_lines_end_alike(rows, stack, a, b, ya, yb, ta, tb);
    } else {
        lemma_lines_end_alike(rows, stack, b, a, yb, ya, tb, ta);
    }
}

/// Where no two processes share a pid, the tree shows siblings in the chosen
/// order, and in the order of the snapshots where that does not tell them
/// apart.
pub proof fn siblings_come_in_order(
    rows: Seq<ProcessSnapshot>,
    leq: spec_fn(ProcessSnapshot, ProcessSnapshot) -> bool,
    collapsed: Set<u32>,
)
    requires
        rows.len() <= usize::MAX,
        tree::is_preorder(leq),
        pids_distinct(rows),
    ensures
        siblings_in_order(rows, leq, tree::shown(rows, leq, collapsed)),
        forall|j: int, k: int|
            0 <= j < k < tree::tree_view(rows, leq, collapsed).len() && are_siblings(
                rows,
                tree::tree_view(rows, leq, collapsed)[j].row_index,
                tree::tree_view(rows, leq, collapsed)[k].row_index,
            ) ==> tree::position_order(rows, leq)(
                (#[trigger] tree::tree_view(rows, leq, collapsed)[j]).row_index,
                (#[trigger] tree::tree_view(rows, leq, collapsed)[k]).row_index,
            ),
{
    let places = tree::shown(rows, leq, collapsed);
    let view = tree::tree_view(rows, leq, collapsed);
    let roots = tree::sorted_roots(rows, leq);
    lemma_sorted_roots(rows, leq);
    lemma_sorted_in_order(rows, leq, tree::roots_upto(rows, rows.len()));
    assert forall|k: int| 0 <= k < roots.len() implies is_sibling(
        rows,
        Seq::empty(),
        #[trigger] roots[k],
    ) by {
        assert(roots.contains(roots[k]));
    }
    lemma_nested_all_siblings(rows, leq, collapsed, roots, Seq::empty());
    assert forall|j: int, k: int|
        0 <= j < k < view.len() && are_siblings(
            rows,
            view[j].row_index,
            view[k].row_index,
        ) implies tree::position_order(rows, leq)(
        (#[trigger] view[j]).row_index,
        (#[trigger] view[k]).row_index,
    ) by {
        assert(view[j] == tree::row_of(rows, places[j]));
        assert(view[k] == tree::row_of(rows, places[k]));
    }
}

// ── What a row says ─────────────────────────────────────────────────────────

/// A row stands for the process that it points to. It says that the process has
/// children exactly if some listed process names it as its parent; so does,
/// in particular, every row with a row one level deeper right behind it.
pub proof fn rows_tell_of_their_processes(
    rows: Seq<ProcessSnapshot>,
    leq: spec_fn(ProcessSnapshot, ProcessSnapshot) -> bool,
    collapsed: Set<u32>,
    k: int,
)
    requires
        rows.len() <= usize::MAX,
        tree::is_preorder(leq),
        0 <= k < tree::tree_view(rows, leq, collapsed).len(),
    ensures
        ({
            let v = tree::tree_view(rows, leq, collapsed)[k];
            &&& v.row_index < rows.len()
            &&& v.pid == rows[v.row_index as int].pid
            &&& v.has_children <==> exists|i: int|
                0 <= i < rows.len() && (#[trigger] rows[i]).parent_pid == v.pid && v.pid != 0
            &&& tree::fits(tree::shown(rows, leq, collapsed)) && k + 1 < tree::tree_view(
                rows,
                leq,
                collapsed,
            ).len() && tree::tree_view(rows, leq, collapsed)[k + 1].depth == v.depth + 1
                ==> v.has_children
        }),
{
    let places = tree::shown(rows, leq, collapsed);
    let view = tree::tree_view(rows, leq, collapsed);
    let v = view[k];
    let kids = tree::sibling_lists(rows, leq);
    let roots = tree::sorted_roots(rows, leq);
    assert(places.contains(places[k]));
    let c = lemma_from_some_list_entry(rows, kids, collapsed, roots, Seq::empty(), places[k]);
    let line = lemma_shown_have_lines(rows, leq, collapsed, roots[c], Seq::empty(), places[k]);
    assert(line[0] == v.row_index);
    lemma_children(rows, v.pid, rows.len());
    let children = tree::children_upto(rows, v.pid, rows.len());
    if v.has_children {
        assert(children.contains(children[0]));
        let i = children[0] as int;
        assert(rows[i].parent_pid == v.pid);
    }
    if exists|i: int| 0 <= i < rows.len() && (#[trigger] rows[i]).parent_pid == v.pid && v.pid != 0 {
        let i = choose|i: int|
            0 <= i < rows.len() && (#[trigger] rows[i]).parent_pid == v.pid && v.pid != 0;
        assert(rows[v.row_index as int].pid == v.pid);
        assert(tree::is_listed(rows, rows[i].parent_pid));
        assert(hangs_below(rows, i as usize, v.pid));
        assert(children.contains(i as usize));
    }
    if tree::fits(places) && k + 1 < view.len() && view[k + 1].depth == v.depth + 1 {
        assert(places[k].1 <= u8::MAX && places[k + 1].1 <= u8::MAX);
        assert(view[k + 1] == tree::row_of(rows, places[k + 1]));
        assert(view[k] == tree::row_of(rows, places[k]));
        parents_stand_above_their_children(rows, leq, collapsed, k + 1);
        let after = k + 1;
        let m = choose|m: int| is_parent_place(rows, places, after, m);
        if m < k {
            assert(places[k].1 >= places[k + 1].1);
        }
        let i = places[k + 1].0 as int;
        assert(rows[i].parent_pid == v.pid);
        assert(children.contains(places[k + 1].0));
    }
}

/// A root is a process without a parent in the list, where parent 0 stands for
/// no parent; every other process hangs below the pid that it names.
pub proof fn roots_have_no_listed_parent(rows: Seq<ProcessSnapshot>, x: usize, pid: u32)
    requires
        x < rows.len(),
    ensures
        is_root(rows, x) <==> rows[x as int].parent_pid == 0 || forall|i: int|
            0 <= i < rows.len() ==> (#[trigger] rows[i]).pid != rows[x as int].parent_pid,
        hangs_below(rows, x, pid) <==> rows[x as int].parent_pid == pid && pid != 0 && exists|
            i: int,
        |
            0 <= i < rows.len() && (#[trigger] rows[i]).pid == pid,
{
}

/// Siblings that the chosen order does not tell apart stand in the order of the
/// snapshots.
pub proof fn siblings_that_tie_keep_their_order(
    rows: Seq<ProcessSnapshot>,
    leq: spec_fn(ProcessSnapshot, ProcessSnapshot) -> bool,
    collapsed: Set<u32>,
    j: int,
    k: int,
)
    requires
        rows.len() <= usize::MAX,
        tree::is_preorder(leq),
        pids_distinct(rows),
        0 <= j < k < tree::tree_view(rows, leq, collapsed).len(),
        are_siblings(
            rows,
            tree::tree_view(rows, leq, collapsed)[j].row_index,
            tree::tree_view(rows, leq, collapsed)[k].row_index,
        ),
    ensures
        ({
            let a = tree::tree_view(rows, leq, collapsed)[j].row_index;
            let b = tree::tree_view(rows, leq, collapsed)[k].row_index;
            &&& leq(rows[a as int], rows[b as int])
            &&& leq(rows[b as int], rows[a as int]) ==> a < b
        }),
{
    let places = tree::shown(rows, leq, collapsed);
    let view = tree::tree_view(rows, leq, collapsed);
    siblings_come_in_order(rows, leq, collapsed);
    the_tree_shows_each_process_once(rows, leq, collapsed);
    assert(view[j] == tree::row_of(rows, places[j]));
    assert(view[k] == tree::row_of(rows, places[k]));
    assert(places[j].0 != places[k].0);
}

// ── Descendants ─────────────────────────────────────────────────────────────

/// Whether the pid at place `k` is the next one of a depth-first walk: row `i`
/// makes it a child of the pid at place `j`, all children in the rows before
/// have been walked, and so have all children of the pids that came after
/// place `j`.
pub open spec fn goes_on_from(
    rows: Seq<ProcessSnapshot>,
    pids: Seq<u32>,
    k: int,
    j: int,
    i: int,
) -> bool {
    &&& 0 <= j < k
    &&& 0 <= i < rows.len()
    &&& rows[i].pid == pids[k]
    &&& rows[i].parent_pid == pids[j]
    &&& forall|h: int|
        0 <= h < i && (#[trigger] rows[h]).parent_pid == pids[j] ==> pids.take(k).contains(
            rows[h].pid,
        )
    &&& forall|m: int, h: int|
        j < m < k && 0 <= h < rows.len() && (#[trigger] rows[h]).parent_pid == (
        #[trigger] pids[m]) ==> pids.take(k).contains(rows[h].pid)
}

/// The walk goes deep first: every pid but the root is the first child not yet
/// walked, in the order of the rows, of the latest pid that has one.
pub proof fn walks_go_deep_first(rows: &[ProcessSnapshot], root_pid: u32, r: Vec<u32>, k: int)
    requires
        call_ensures(tree::descendants_of, (rows, root_pid), r),
        0 < k < r@.len(),
    ensures
        exists|j: int, i: int| #[trigger] goes_on_from(rows@, r@, k, j, i),
{
    assert(r@ == tree::walk(rows@, seq![root_pid], Seq::empty()));
    lemma_walk_goes_deep(rows@, seq![root_pid], Seq::empty(), k);
}

/// Whether the pid at place `p` of the queue stands there as a child by row `i`
/// of the pid at place `j`, with everything that comes before it seen or ahead
/// of it.
spec fn waits_for(
    rows: Seq<ProcessSnapshot>,
    queue: Seq<u32>,
    seen: Seq<u32>,
    p: int,
    j: int,
    i: int,
) -> bool {
    &&& 0 <= j < seen.len()
    &&& 0 <= i < rows.len()
    &&& rows[i].pid == queue[p]
    &&& rows[i].parent_pid == seen[j]
    &&& forall|h: int|
        0 <= h < i && (#[trigger] rows[h]).parent_pid == seen[j] ==> comes_before(
            queue,
            seen,
            p,
            rows[h].pid,
        )
    &&& forall|m: int, h: int|
        j < m < seen.len() && 0 <= h < rows.len() && (#[trigger] rows[h]).parent_pid == (
        #[trigger] seen[m]) ==> comes_before(queue, seen, p, rows[h].pid)
}

spec fn comes_before(queue: Seq<u32>, seen: Seq<u32>, p: int, pid: u32) -> bool {
    seen.contains(pid) || exists|q: int| 0 <= q < p && #[trigger] queue[q] == pid
}

spec fn all_wait(rows: Seq<ProcessSnapshot>, queue: Seq<u32>, seen: Seq<u32>) -> bool {
    if seen.len() == 0 {
        queue.len() <= 1
    } else {
        forall|p: int| 0 <= p < queue.len() ==> #[trigger] waits(rows, queue, seen, p)
    }
}

spec fn waits(rows: Seq<ProcessSnapshot>, queue: Seq<u32>, seen: Seq<u32>, p: int) -> bool {
    exists|j: int, i: int| #[trigger] waits_for(rows, queue, seen, p, j, i)
}

/// Each child stands for a row, and the rows before it for the children before.
proof fn lemma_children_stand_for_rows(
    rows: Seq<ProcessSnapshot>,
    pid: u32,
    n: nat,
    t: int,
) -> (i: int)
    requires
        n <= rows.len(),
        0 <= t < tree::child_pids_upto(rows, pid, n).len(),
    ensures
        0 <= i < n,
        rows[i].pid == tree::child_pids_upto(rows, pid, n)[t],
        rows[i].parent_pid == pid,
        forall|h: int|
            0 <= h < i && (#[trigger] rows[h]).parent_pid == pid ==> exists|q: int|
                0 <= q < t && #[trigger] tree::child_pids_upto(rows, pid, n)[q] == rows[h].pid,
    decreases n,
{
    let kids = tree::child_pids_upto(rows, pid, n);
    let before = tree::child_pids_upto(rows, pid, (n - 1) as nat);
    if t < before.len() {
        let i = lemma_children_stand_for_rows(rows, pid, (n - 1) as nat, t);
        assert forall|h: int| 0 <= h < i && (#[trigger] rows[h]).parent_pid == pid implies exists|
            q: int,
        |
            0 <= q < t && #[trigger] kids[q] == rows[h].pid by {
            let q = choose|q: int| 0 <= q < t && #[trigger] before[q] == rows[h].pid;
            assert(kids[q] == rows[h].pid);
        }
        i
    } else {
        tree::lemma_child_pids(rows, pid, (n - 1) as nat);
        assert forall|h: int| 0 <= h < n - 1 && (#[trigger] rows[h]).parent_pid
            == pid implies exists|q: int| 0 <= q < t && #[trigger] kids[q] == rows[h].pid by {
            assert(before.contains(rows[h].pid));
            let q = before.index_of(rows[h].pid);
            assert(kids[q] == rows[h].pid);
        }
        n - 1
    }
}

proof fn lemma_all_wait_after_a_skip(
    rows: Seq<ProcessSnapshot>,
    queue: Seq<u32>,
    seen: Seq<u32>,
)
    requires
        all_wait(rows, queue, seen),
        queue.len() > 0,
        seen.contains(queue[0]),
    ensures
        all_wait(rows, queue.drop_first(), seen),
{
    let rest = queue.drop_first();
    assert forall|p: int| 0 <= p < rest.len() implies #[trigger] waits(rows, rest, seen, p) by {
        assert(waits(rows, queue, seen, p + 1));
        let (j, i) = choose|j: int, i: int| #[trigger]
            waits_for(rows, queue, seen, p + 1, j, i);
        assert forall|pid: u32| comes_before(queue, seen, p + 1, pid) implies #[trigger]
            comes_before(rest, seen, p, pid) by {
            if !seen.contains(pid) {
                let q = choose|q: int| 0 <= q < p + 1 && #[trigger] queue[q] == pid;
                assert(rest[q - 1] == pid);
            }
        }
        assert(waits_for(rows, rest, seen, p, j, i));
    }
}

proof fn lemma_all_wait_after_a_step(
    rows: Seq<ProcessSnapshot>,
    queue: Seq<u32>,
    seen: Seq<u32>,
)
    requires
        all_wait(rows, queue, seen),
        queue.len() > 0,
    ensures
        all_wait(
            rows,
            tree::child_pids(rows, queue[0]) + queue.drop_first(),
            seen.push(queue[0]),
        ),
{
    let pid = queue[0];
    let kids = tree::child_pids(rows, pid);
    let next = kids + queue.drop_first();
    let grown = seen.push(pid);
    let last = seen.len() as int;
    tree::lemma_child_pids(rows, pid, rows.len());
    assert forall|p: int| 0 <= p < next.len() implies #[trigger] waits(rows, next, grown, p) by {
        if p < kids.len() {
            let i = lemma_children_stand_for_rows(rows, pid, rows.len(), p);
            assert forall|h: int| 0 <= h < i && (#[trigger] rows[h]).parent_pid
                == pid implies comes_before(next, grown, p, rows[h].pid) by {
                let q = choose|q: int| 0 <= q < p && #[trigger] kids[q] == rows[h].pid;
                assert(next[q] == rows[h].pid);
            }
            assert(grown[last] == pid);
            assert(next[p] == kids[p]);
            assert(waits_for(rows, next, grown, p, last, i));
        } else {
            let old_p = p - kids.len() + 1;
            assert(next[p] == queue[old_p]);
            assert(seen.len() > 0 ==> waits(rows, queue, seen, old_p));
            let (j, i) = choose|j: int, i: int| #[trigger]
                waits_for(rows, queue, seen, old_p, j, i);
            assert forall|c: u32| comes_before(queue, seen, old_p, c) implies #[trigger]
                comes_before(next, grown, p, c) by {
                if seen.contains(c) {
                    assert(grown[seen.index_of(c)] == c);
                } else {
                    let q = choose|q: int| 0 <= q < old_p && #[trigger] queue[q] == c;
                    if q == 0 {
                        assert(grown[last] == c);
                    } else {
                        assert(next[q - 1 + kids.len()] == c);
                    }
                }
            }
            assert(grown[j] == seen[j]);
            assert forall|m: int, h: int|
                j < m < grown.len() && 0 <= h < rows.len() && (#[trigger] rows[h]).parent_pid == (
                #[trigger] grown[m]) implies comes_before(next, grown, p, rows[h].pid) by {
                if m < last {
                    assert(rows[h].parent_pid == seen[m]);
                    assert(comes_before(queue, seen, old_p, rows[h].pid));
                } else {
                    assert(rows[h].pid == rows[h].pid && rows[h].parent_pid == pid);
                    assert(kids.contains(rows[h].pid));
                    let q = kids.index_of(rows[h].pid);
                    assert(next[q] == rows[h].pid);
                }
            }
            assert(waits_for(rows, next, grown, p, j, i));
        }
    }
}

proof fn lemma_walk_goes_deep(
    rows: Seq<ProcessSnapshot>,
    queue: Seq<u32>,
    seen: Seq<u32>,
    k: int,
)
    requires
        all_wait(rows, queue, seen),
        0 < k < tree::walk(rows, queue, seen).len(),
        k < seen.len() ==> exists|j: int, i: int| #[trigger] goes_on_from(rows, seen, k, j, i),
    ensures
        seen.is_prefix_of(tree::walk(rows, queue, seen)),
        exists|j: int, i: int| #[trigger]
            goes_on_from(rows, tree::walk(rows, queue, seen), k, j, i),
    decreases tree::unwalked(rows, queue, seen).len(), queue.len(),
{
    let done = tree::walk(rows, queue, seen);
    if queue.len() == 0 {
        assert(done == seen);
    } else if seen.contains(queue[0]) {
        tree::lemma_walk_skips(rows, queue, seen);
        lemma_all_wait_after_a_skip(rows, queue, seen);
        lemma_walk_goes_deep(rows, queue.drop_first(), seen, k);
    } else {
        let pid = queue[0];
        let next = tree::child_pids(rows, pid) + queue.drop_first();
        let grown = seen.push(pid);
        tree::lemma_walk_shrinks(rows, queue, seen);
        lemma_all_wait_after_a_step(rows, queue, seen);
        if k < seen.len() {
            let (j, i) = choose|j: int, i: int| #[trigger] goes_on_from(rows, seen, k, j, i);
            assert(grown.take(k) =~= seen.take(k));
            assert(forall|m: int| 0 <= m <= k ==> #[trigger] grown[m] == seen[m]);
            assert(goes_on_from(rows, grown, k, j, i));
        } else if k == seen.len() {
            assert(waits(rows, queue, seen, 0));
            let (j, i) = choose|j: int, i: int| #[trigger]
                waits_for(rows, queue, seen, 0, j, i);
            assert(grown.take(k) =~= seen);
            assert(forall|m: int| 0 <= m < k ==> #[trigger] grown[m] == seen[m]);
            assert(goes_on_from(rows, grown, k, j, i));
        }
        lemma_walk_goes_deep(rows, next, grown, k);
        assert(seen.is_prefix_of(done)) by {
            assert(grown.is_prefix_of(done));
            assert(done.subrange(0, seen.len() as int) =~= grown.subrange(0, seen.len() as int));
            assert(grown.subrange(0, seen.len() as int) =~= seen);
        }
    }
}

} // verus!
