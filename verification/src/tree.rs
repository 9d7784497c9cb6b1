//! The process tree of the Processes tab: sibling order, the depth-first view
//! and the set of descendants of a process.

use std::cmp::Ordering;
use std::collections::{HashMap, HashSet, VecDeque};
use vstd::prelude::*;

use crate::ipc::ProcessSnapshot;
use crate::text;
use crate::theme::Tone;

verus! {

broadcast use vstd::std_specs::hash::group_hash_axioms;

/// One visible row of the tree. `row_index` points into the snapshot list that
/// the view was built from.
#[derive(Debug, Clone, Copy, PartialEq, Eq, Structural)]
pub struct TreeRow {
    pub pid: u32,
    pub row_index: usize,
    pub depth: u8,
    pub has_children: bool,
}

// ── Parent links ────────────────────────────────────────────────────────────

/// Whether some process of the list has this pid.
pub open spec fn is_listed(rows: Seq<ProcessSnapshot>, pid: u32) -> bool {
    exists|i: int| 0 <= i < rows.len() && #[trigger] rows[i].pid == pid
}

/// Whether process `i` hangs below another process of the list. Parent 0
/// stands for "no parent", whatever the list holds.
pub open spec fn has_live_parent(rows: Seq<ProcessSnapshot>, i: int) -> bool {
    rows[i].parent_pid != 0 && is_listed(rows, rows[i].parent_pid)
}

/// The first `n` indices whose process is a child of `pid`, in list order.
pub open spec fn children_upto(rows: Seq<ProcessSnapshot>, pid: u32, n: nat) -> Seq<usize>
    decreases n,
{
    if n == 0 {
        Seq::empty()
    } else {
        let before = children_upto(rows, pid, (n - 1) as nat);
        if rows[n - 1].parent_pid == pid && has_live_parent(rows, n - 1) {
            before.push((n - 1) as usize)
        } else {
            before
        }
    }
}

/// The indices among the first `n` whose process is a root, in list order.
pub open spec fn roots_upto(rows: Seq<ProcessSnapshot>, n: nat) -> Seq<usize>
    decreases n,
{
    if n == 0 {
        Seq::empty()
    } else {
        let before = roots_upto(rows, (n - 1) as nat);
        if has_live_parent(rows, n - 1) {
            before
        } else {
            before.push((n - 1) as usize)
        }
    }
}

// ── Sibling order ───────────────────────────────────────────────────────────

/// A total preorder on snapshots.
pub open spec fn is_preorder(leq: spec_fn(ProcessSnapshot, ProcessSnapshot) -> bool) -> bool {
    &&& forall|a: ProcessSnapshot, b: ProcessSnapshot| #[trigger] leq(a, b) || leq(b, a)
    &&& forall|a: ProcessSnapshot, b: ProcessSnapshot, c: ProcessSnapshot| #[trigger]
        leq(a, b) && #[trigger] leq(b, c) ==> leq(a, c)
}

/// The order of two list positions: by `leq`, and by position where `leq` does
/// not tell them apart. Sorting by it is stable sorting by `leq`.
pub open spec fn position_order(
    rows: Seq<ProcessSnapshot>,
    leq: spec_fn(ProcessSnapshot, ProcessSnapshot) -> bool,
) -> spec_fn(usize, usize) -> bool {
    |x: usize, y: usize|
        leq(rows[x as int], rows[y as int]) && (leq(rows[y as int], rows[x as int]) ==> x <= y)
}

/// The children of `pid` in sibling order.
pub open spec fn sorted_children(
    rows: Seq<ProcessSnapshot>,
    leq: spec_fn(ProcessSnapshot, ProcessSnapshot) -> bool,
    pid: u32,
) -> Seq<usize> {
    children_upto(rows, pid, rows.len()).sort_by(position_order(rows, leq))
}

/// The roots in sibling order.
pub open spec fn sorted_roots(
    rows: Seq<ProcessSnapshot>,
    leq: spec_fn(ProcessSnapshot, ProcessSnapshot) -> bool,
) -> Seq<usize> {
    roots_upto(rows, rows.len()).sort_by(position_order(rows, leq))
}

/// The sibling lists of every process, as a function of the parent's pid.
pub open spec fn sibling_lists(
    rows: Seq<ProcessSnapshot>,
    leq: spec_fn(ProcessSnapshot, ProcessSnapshot) -> bool,
) -> spec_fn(u32) -> Seq<usize> {
    |pid: u32| sorted_children(rows, leq, pid)
}

// ── The view ────────────────────────────────────────────────────────────────

/// The pids of the list that are not on the path `stack`.
pub open spec fn off_path(rows: Seq<ProcessSnapshot>, stack: Seq<u32>) -> Set<u32> {
    rows.map_values(|r: ProcessSnapshot| r.pid).to_set().difference(stack.to_set())
}

/// The processes shown for the subtree of process `i` when it is reached along
/// the path `stack`, each with its nesting: nothing if its pid is already on
/// the path, else itself and, unless it is collapsed, its children's subtrees
/// one level deeper.
pub open spec fn nested(
    rows: Seq<ProcessSnapshot>,
    kids: spec_fn(u32) -> Seq<usize>,
    collapsed: Set<u32>,
    i: usize,
    stack: Seq<u32>,
) -> Seq<(usize, nat)>
    decreases off_path(rows, stack).len(), 0nat,
{
    if !(i < rows.len()) || stack.contains(rows[i as int].pid) {
        Seq::empty()
    } else if collapsed.contains(rows[i as int].pid) {
        seq![(i, stack.len())]
    } else {
        proof {
            lemma_off_path_shrinks(rows, stack, i as int);
        }
        seq![(i, stack.len())] + nested_all(
            rows,
            kids,
            collapsed,
            kids(rows[i as int].pid),
            stack.push(rows[i as int].pid),
        )
    }
}

/// The subtrees of several processes, one after the other.
pub open spec fn nested_all(
    rows: Seq<ProcessSnapshot>,
    kids: spec_fn(u32) -> Seq<usize>,
    collapsed: Set<u32>,
    list: Seq<usize>,
    stack: Seq<u32>,
) -> Seq<(usize, nat)>
    decreases off_path(rows, stack).len(), list.len() + 1,
{
    if list.len() == 0 {
        Seq::empty()
    } else {
        nested_all(rows, kids, collapsed, list.drop_last(), stack) + nested(
            rows,
            kids,
            collapsed,
            list.last(),
            stack,
        )
    }
}

/// Everything that is shown: the roots at nesting 0 and their subtrees.
pub open spec fn shown(
    rows: Seq<ProcessSnapshot>,
    leq: spec_fn(ProcessSnapshot, ProcessSnapshot) -> bool,
    collapsed: Set<u32>,
) -> Seq<(usize, nat)> {
    nested_all(rows, sibling_lists(rows, leq), collapsed, sorted_roots(rows, leq), Seq::empty())
}

/// The row for a shown process.
pub open spec fn row_of(rows: Seq<ProcessSnapshot>, at: (usize, nat)) -> TreeRow {
    TreeRow {
        pid: rows[at.0 as int].pid,
        row_index: at.0,
        depth: at.1 as u8,
        has_children: children_upto(rows, rows[at.0 as int].pid, rows.len()).len() > 0,
    }
}

/// The rows of the tree view, top to bottom.
pub open spec fn tree_view(
    rows: Seq<ProcessSnapshot>,
    leq: spec_fn(ProcessSnapshot, ProcessSnapshot) -> bool,
    collapsed: Set<u32>,
) -> Seq<TreeRow> {
    shown(rows, leq, collapsed).map_values(|at: (usize, nat)| row_of(rows, at))
}

/// Whether every nesting fits the depth field of a row.
pub open spec fn fits(places: Seq<(usize, nat)>) -> bool {
    forall|k: int| 0 <= k < places.len() ==> (#[trigger] places[k]).1 <= u8::MAX
}

pub proof fn lemma_off_path_shrinks(rows: Seq<ProcessSnapshot>, stack: Seq<u32>, i: int)
    requires
        0 <= i < rows.len(),
        !stack.contains(rows[i].pid),
    ensures
        off_path(rows, stack.push(rows[i].pid)).len() < off_path(rows, stack).len(),
{
    let pid = rows[i].pid;
    let pids = rows.map_values(|r: ProcessSnapshot| r.pid);
    vstd::seq_lib::seq_to_set_is_finite(pids);
    assert(pids.to_set().contains(pid)) by {
        assert(pids.contains(pids[i]));
    }
    assert(stack.push(pid).to_set() =~= stack.to_set().insert(pid)) by {
        assert forall|x: u32| stack.push(pid).contains(x) <==> stack.contains(x) || x == pid by {
            if stack.contains(x) {
                let k = stack.index_of(x);
                assert(stack.push(pid)[k] == x);
            }
            assert(stack.push(pid)[stack.len() as int] == pid);
        }
    }
    assert(off_path(rows, stack.push(pid)) =~= off_path(rows, stack).remove(pid));
}

/// A list that fits leaves every prefix of it fitting.
proof fn lemma_prefix_fits(
    rows: Seq<ProcessSnapshot>,
    kids: spec_fn(u32) -> Seq<usize>,
    collapsed: Set<u32>,
    list: Seq<usize>,
    stack: Seq<u32>,
    n: int,
)
    requires
        0 <= n <= list.len(),
        fits(nested_all(rows, kids, collapsed, list, stack)),
    ensures
        fits(nested_all(rows, kids, collapsed, list.take(n), stack)),
    decreases list.len() - n,
{
    if n == list.len() {
        assert(list.take(n) =~= list);
    } else {
        lemma_prefix_fits(rows, kids, collapsed, list, stack, n + 1);
        let longer = list.take(n + 1);
        assert(longer.drop_last() =~= list.take(n));
        let head = nested_all(rows, kids, collapsed, list.take(n), stack);
        let whole = nested_all(rows, kids, collapsed, longer, stack);
        assert forall|k: int| 0 <= k < head.len() implies (#[trigger] head[k]).1 <= u8::MAX by {
            assert(whole[k] == head[k]);
        }
    }
}

/// The list that a map holds for a pid; empty where it holds none.
spec fn entry<T>(lists: Map<u32, Vec<T>>, pid: u32) -> Seq<T> {
    if lists.contains_key(pid) {
        lists[pid]@
    } else {
        Seq::empty()
    }
}

/// Whether the map holds exactly the sibling lists that `kids` gives.
spec fn lists_match(children: Map<u32, Vec<usize>>, kids: spec_fn(u32) -> Seq<usize>) -> bool {
    forall|pid: u32| (#[trigger] kids(pid)) == entry(children, pid)
}

spec fn lists_in_range(rows: Seq<ProcessSnapshot>, kids: spec_fn(u32) -> Seq<usize>) -> bool {
    &&& forall|pid: u32, k: int|
        0 <= k < kids(pid).len() ==> (#[trigger] kids(pid)[k]) < rows.len()
    &&& forall|pid: u32| #[trigger]
        kids(pid).len() == children_upto(rows, pid, rows.len()).len()
}

fn path_holds(stack: &Vec<u32>, pid: u32) -> (r: bool)
    ensures
        r == stack@.contains(pid),
{
    for k in 0..stack.len()
        invariant
            forall|j: int| 0 <= j < k ==> stack@[j] != pid,
    {
        if stack[k] == pid {
            return true;
        }
    }
    false
}

/// Appends the subtree of process `i` to `out`. Answers `false`, with `out`
/// unfinished, when a row would be nested deeper than a row can say.
fn visit(
    rows: &[ProcessSnapshot],
    children: &HashMap<u32, Vec<usize>>,
    collapsed: &HashSet<u32>,
    i: usize,
    stack: &mut Vec<u32>,
    out: &mut Vec<TreeRow>,
    Ghost(kids): Ghost<spec_fn(u32) -> Seq<usize>>,
) -> (ok: bool)
    requires
        lists_match(children@, kids),
        lists_in_range(rows@, kids),
        i < rows@.len(),
    ensures
        final(stack)@ == old(stack)@,
        ok == fits(nested(rows@, kids, collapsed@, i, old(stack)@)),
        ok ==> final(out)@ == old(out)@ + nested(
            rows@,
            kids,
            collapsed@,
            i,
            old(stack)@,
        ).map_values(|at: (usize, nat)| row_of(rows@, at)),
    decreases off_path(rows@, old(stack)@).len(), 0nat,
{
    let pid = rows[i].pid;
    let ghost places = nested(rows@, kids, collapsed@, i, stack@);
    let ghost make = |at: (usize, nat)| row_of(rows@, at);
    if path_holds(stack, pid) {
        assert(out@ =~= old(out)@ + places.map_values(make));
        return true;
    }
    assert(places[0] == (i, stack@.len()));
    if stack.len() > 255 {
        return false;
    }
    let list = children.get(&pid);
    let has_children = match list {
        Some(l) => l.len() > 0,
        None => false,
    };
    assert(kids(pid).len() == children_upto(rows@, pid, rows@.len()).len());
    out.push(TreeRow { pid, row_index: i, depth: stack.len() as u8, has_children });
    let ghost first = out@;
    assert(first =~= old(out)@ + seq![(i, stack@.len())].map_values(make));
    if collapsed.contains(&pid) {
        return true;
    }
    let ghost path = stack@.push(pid);
    stack.push(pid);
    proof {
        lemma_off_path_shrinks(rows@, old(stack)@, i as int);
    }
    let ghost below = nested_all(rows@, kids, collapsed@, kids(pid), path);
    assert(places == seq![(i, old(stack)@.len())] + below);
    let ok = match list {
        Some(l) => visit_all(rows, children, collapsed, l.as_slice(), stack, out, Ghost(kids)),
        None => true,
    };
    stack.pop();
    assert(stack@ =~= old(stack)@);
    proof {
        if ok {
            assert forall|m: int| 0 <= m < places.len() implies (#[trigger] places[m]).1
                <= u8::MAX by {
                if m > 0 {
                    assert(places[m] == below[m - 1]);
                }
            }
            assert(out@ =~= old(out)@ + places.map_values(make));
        } else {
            let bad = choose|m: int| 0 <= m < below.len() && (#[trigger] below[m]).1 > u8::MAX;
            assert(places[bad + 1] == below[bad]);
        }
    }
    ok
}

/// Appends the subtrees of several processes to `out`; answers as `visit` does.
fn visit_all(
    rows: &[ProcessSnapshot],
    children: &HashMap<u32, Vec<usize>>,
    collapsed: &HashSet<u32>,
    list: &[usize],
    stack: &mut Vec<u32>,
    out: &mut Vec<TreeRow>,
    Ghost(kids): Ghost<spec_fn(u32) -> Seq<usize>>,
) -> (ok: bool)
    requires
        lists_match(children@, kids),
        lists_in_range(rows@, kids),
        forall|k: int| 0 <= k < list@.len() ==> (#[trigger] list@[k]) < rows@.len(),
    ensures
        final(stack)@ == old(stack)@,
        ok == fits(nested_all(rows@, kids, collapsed@, list@, old(stack)@)),
        ok ==> final(out)@ == old(out)@ + nested_all(
            rows@,
            kids,
            collapsed@,
            list@,
            old(stack)@,
        ).map_values(|at: (usize, nat)| row_of(rows@, at)),
    decreases off_path(rows@, old(stack)@).len(), 1nat,
{
    let ghost path = stack@;
    let ghost make = |at: (usize, nat)| row_of(rows@, at);
    assert(list@.take(0) =~= Seq::empty());
    assert(out@ =~= old(out)@ + Seq::<(usize, nat)>::empty().map_values(make));
    for k in 0..list.len()
        invariant
            lists_match(children@, kids),
            lists_in_range(rows@, kids),
            forall|j: int| 0 <= j < list@.len() ==> (#[trigger] list@[j]) < rows@.len(),
            stack@ == path,
            path == old(stack)@,
            make == |at: (usize, nat)| row_of(rows@, at),
            fits(nested_all(rows@, kids, collapsed@, list@.take(k as int), path)),
            out@ == old(out)@ + nested_all(
                rows@,
                kids,
                collapsed@,
                list@.take(k as int),
                path,
            ).map_values(make),
    {
        let ghost head = nested_all(rows@, kids, collapsed@, list@.take(k as int), path);
        let ghost part = nested(rows@, kids, collapsed@, list@[k as int], path);
        let ghost both = nested_all(rows@, kids, collapsed@, list@.take(k + 1), path);
        proof {
            assert(list@.take(k + 1).drop_last() =~= list@.take(k as int));
            assert(both == head + part);
        }
        let ok = visit(rows, children, collapsed, list[k], stack, out, Ghost(kids));
        if !ok {
            proof {
                let bad = choose|m: int| 0 <= m < part.len() && (#[trigger] part[m]).1 > u8::MAX;
                assert(both[head.len() + bad] == part[bad]);
                if fits(nested_all(rows@, kids, collapsed@, list@, path)) {
                    lemma_prefix_fits(rows@, kids, collapsed@, list@, path, k + 1);
                }
            }
            return false;
        }
        proof {
            assert forall|m: int| 0 <= m < both.len() implies (#[trigger] both[m]).1
                <= u8::MAX by {
                if m < head.len() {
                    assert(both[m] == head[m]);
                } else {
                    assert(both[m] == part[m - head.len()]);
                }
            }
            assert(out@ =~= old(out)@ + both.map_values(make));
        }
    }
    assert(list@.take(list@.len() as int) =~= list@);
    true
}

// ── Building the view ───────────────────────────────────────────────────────

/// The snapshot at a list position.
pub open spec fn at(rows: Seq<ProcessSnapshot>, x: usize) -> ProcessSnapshot {
    rows[x as int]
}

/// Whether a list position exists.
pub open spec fn in_list(rows: Seq<ProcessSnapshot>, x: usize) -> bool {
    x < rows.len()
}

/// Whether the comparison function can be called on every pair of the list.
pub open spec fn can_compare<F: Fn(&ProcessSnapshot, &ProcessSnapshot) -> Ordering>(
    order: F,
    rows: Seq<ProcessSnapshot>,
) -> bool {
    forall|x: usize, y: usize|
        in_list(rows, x) && in_list(rows, y) ==> #[trigger] order.requires(
            (&at(rows, x), &at(rows, y)),
        )
}

/// Whether every answer of the comparison function on the list is the one that
/// `leq` gives: `Less` where only `a <= b` holds, `Greater` where only
/// `b <= a` holds, `Equal` where both do.
pub open spec fn agrees<F: Fn(&ProcessSnapshot, &ProcessSnapshot) -> Ordering>(
    order: F,
    rows: Seq<ProcessSnapshot>,
    leq: spec_fn(ProcessSnapshot, ProcessSnapshot) -> bool,
) -> bool {
    forall|x: usize, y: usize, o: Ordering| #[trigger]
        order.ensures((&at(rows, x), &at(rows, y)), o) && in_list(rows, x) && in_list(rows, y)
            ==> o == (if !leq(at(rows, y), at(rows, x)) {
            Ordering::Less
        } else if !leq(at(rows, x), at(rows, y)) {
            Ordering::Greater
        } else {
            Ordering::Equal
        })
}

/// Whether an answer of the comparison function puts position `x` before `y`.
spec fn placed<F: Fn(&ProcessSnapshot, &ProcessSnapshot) -> Ordering>(
    order: F,
    rows: Seq<ProcessSnapshot>,
    x: usize,
    y: usize,
) -> bool {
    ||| x < y && exists|o: Ordering| #[trigger]
        order.ensures((&at(rows, x), &at(rows, y)), o) && o != Ordering::Greater
    ||| y < x && order.ensures((&at(rows, y), &at(rows, x)), Ordering::Greater)
}

/// Whether neighbours of the list are placed in this order.
spec fn in_order<F: Fn(&ProcessSnapshot, &ProcessSnapshot) -> Ordering>(
    order: F,
    rows: Seq<ProcessSnapshot>,
    list: Seq<usize>,
) -> bool {
    forall|k: int, m: int|
        0 <= k && m == k + 1 && m < list.len() ==> placed(
            order,
            rows,
            #[trigger] list[k],
            #[trigger] list[m],
        )
}

spec fn all_below(list: Seq<usize>, n: usize) -> bool {
    forall|k: int| 0 <= k < list.len() ==> (#[trigger] list[k]) < n
}

spec fn kids_before(rows: Seq<ProcessSnapshot>, pid: u32, n: usize) -> Seq<usize> {
    children_upto(rows, pid, n as nat)
}

spec fn roots_before(rows: Seq<ProcessSnapshot>, n: usize) -> Seq<usize> {
    roots_upto(rows, n as nat)
}

pub proof fn lemma_position_order_total(
    rows: Seq<ProcessSnapshot>,
    leq: spec_fn(ProcessSnapshot, ProcessSnapshot) -> bool,
)
    requires
        is_preorder(leq),
    ensures
        vstd::relations::total_ordering(position_order(rows, leq)),
{
    let r = position_order(rows, leq);
    assert forall|x: usize| #[trigger] r(x, x) by {
        assert(leq(rows[x as int], rows[x as int]) || leq(rows[x as int], rows[x as int]));
    }
    assert forall|x: usize, y: usize, z: usize| #[trigger] r(x, y) && #[trigger] r(
        y,
        z,
    ) implies r(x, z) by {
        let (a, b, c) = (rows[x as int], rows[y as int], rows[z as int]);
        assert(leq(a, b) && leq(b, c));
        if leq(c, a) {
            assert(leq(c, b));
            assert(leq(b, a));
        }
    }
    assert forall|x: usize, y: usize| #[trigger] r(x, y) || #[trigger] r(y, x) by {
        let (a, b) = (rows[x as int], rows[y as int]);
        assert(leq(a, b) || leq(b, a));
    }
}

/// Two placed positions stand in position order.
proof fn lemma_placed<F: Fn(&ProcessSnapshot, &ProcessSnapshot) -> Ordering>(
    order: F,
    rows: Seq<ProcessSnapshot>,
    leq: spec_fn(ProcessSnapshot, ProcessSnapshot) -> bool,
    x: usize,
    y: usize,
)
    requires
        is_preorder(leq),
        agrees(order, rows, leq),
        placed(order, rows, x, y),
        in_list(rows, x),
        in_list(rows, y),
    ensures
        position_order(rows, leq)(x, y),
{
    assert(leq(at(rows, x), at(rows, y)) || leq(at(rows, y), at(rows, x)));
    if x < y {
        let o = choose|o: Ordering| #[trigger]
            order.ensures((&at(rows, x), &at(rows, y)), o) && o != Ordering::Greater;
        assert(order.ensures((&at(rows, x), &at(rows, y)), o));
    }
}

/// A list in order is sorted by position order.
proof fn lemma_in_order_sorted<F: Fn(&ProcessSnapshot, &ProcessSnapshot) -> Ordering>(
    order: F,
    rows: Seq<ProcessSnapshot>,
    leq: spec_fn(ProcessSnapshot, ProcessSnapshot) -> bool,
    list: Seq<usize>,
)
    requires
        is_preorder(leq),
        agrees(order, rows, leq),
        in_order(order, rows, list),
        forall|k: int| 0 <= k < list.len() ==> in_list(rows, #[trigger] list[k]),
    ensures
        vstd::relations::sorted_by(list, position_order(rows, leq)),
    decreases list.len(),
{
    let r = position_order(rows, leq);
    lemma_position_order_total(rows, leq);
    if list.len() >= 2 {
        let shorter = list.drop_last();
        assert forall|k: int, m: int| 0 <= k && m == k + 1 && m < shorter.len() implies placed(
            order,
            rows,
            #[trigger] shorter[k],
            #[trigger] shorter[m],
        ) by {
            assert(shorter[k] == list[k] && shorter[m] == list[m]);
        }
        lemma_in_order_sorted(order, rows, leq, shorter);
        let last = list.len() - 1;
        assert(placed(order, rows, list[last - 1], list[last]));
        lemma_placed(order, rows, leq, list[last - 1], list[last]);
        assert forall|i: int, j: int| 0 <= i < j < list.len() implies #[trigger] r(
            list[i],
            list[j],
        ) by {
            if j < last {
                assert(r(shorter[i], shorter[j]));
            } else if i < last - 1 {
                assert(r(shorter[i], shorter[last - 1]));
                assert(r(list[i], list[last - 1]) && r(list[last - 1], list[last]));
            }
        }
    }
}

/// Puts position `i` into an ordered list, after everything that does not
/// compare greater.
fn insert_in_order<F: Fn(&ProcessSnapshot, &ProcessSnapshot) -> Ordering>(
    rows: &[ProcessSnapshot],
    order: &F,
    list: &mut Vec<usize>,
    i: usize,
)
    requires
        can_compare(*order, rows@),
        in_order(*order, rows@, old(list)@),
        all_below(old(list)@, i),
        in_list(rows@, i),
    ensures
        in_order(*order, rows@, final(list)@),
        final(list)@.to_multiset() == old(list)@.to_multiset().insert(i),
        forall|k: int| 0 <= k < final(list)@.len() ==> (#[trigger] final(list)@[k]) <= i,
{
    let mut place: usize = list.len();
    let mut searching: bool = true;
    while searching && place > 0
        invariant
            can_compare(*order, rows@),
            all_below(list@, i),
            in_list(rows@, i),
            place <= list@.len(),
            place < list@.len() ==> placed(*order, rows@, i, list@[place + 0]),
            !searching ==> place > 0 && placed(*order, rows@, list@[place - 1], i),
            list@ == old(list)@,
        decreases place + (if searching { 1int } else { 0int }),
    {
        let other = list[place - 1];
        assert(list@[place - 1] == other);
        assert(in_list(rows@, other));
        assert(order.requires((&at(rows@, other), &at(rows@, i))));
        match order(&rows[other], &rows[i]) {
            Ordering::Greater => {
                place = place - 1;
            },
            _ => {
                searching = false;
            },
        }
    }
    let ghost before = list@;
    list.insert(place, i);
    proof {
        broadcast use vstd::seq_lib::group_to_multiset_ensures;

        assert(list@ == before.insert(place + 0, i));
        assert forall|k: int, m: int| 0 <= k && m == k + 1 && m < list@.len() implies placed(
            *order,
            rows@,
            #[trigger] list@[k],
            #[trigger] list@[m],
        ) by {
            if m < place {
                assert(placed(*order, rows@, before[k], before[m]));
            } else if k > place {
                assert(placed(*order, rows@, before[k - 1], before[m - 1]));
            }
        }
    }
}

/// The sibling lists after the first `n` processes were filed.
spec fn filed<F: Fn(&ProcessSnapshot, &ProcessSnapshot) -> Ordering>(
    order: F,
    rows: Seq<ProcessSnapshot>,
    children: Map<u32, Vec<usize>>,
    n: usize,
) -> bool {
    forall|pid: u32|
        if #[trigger] children.contains_key(pid) {
            &&& in_order(order, rows, children[pid]@)
            &&& children[pid]@.to_multiset() == kids_before(rows, pid, n).to_multiset()
            &&& all_below(children[pid]@, n)
        } else {
            kids_before(rows, pid, n).len() == 0
        }
}

/// Lists that were filed in order are the sibling lists of every `leq` that
/// the comparison function agrees with.
proof fn lemma_filed_is_sorted<F: Fn(&ProcessSnapshot, &ProcessSnapshot) -> Ordering>(
    order: F,
    rows: Seq<ProcessSnapshot>,
    leq: spec_fn(ProcessSnapshot, ProcessSnapshot) -> bool,
    list: Seq<usize>,
    unsorted: Seq<usize>,
    n: usize,
)
    requires
        is_preorder(leq),
        agrees(order, rows, leq),
        in_order(order, rows, list),
        list.to_multiset() == unsorted.to_multiset(),
        all_below(list, n),
        n == rows.len(),
    ensures
        unsorted.sort_by(position_order(rows, leq)) == list,
{
    lemma_position_order_total(rows, leq);
    unsorted.lemma_sort_by_ensures(position_order(rows, leq));
    lemma_in_order_sorted(order, rows, leq, list);
    vstd::seq_lib::lemma_sorted_unique(
        unsorted.sort_by(position_order(rows, leq)),
        list,
        position_order(rows, leq),
    );
}

proof fn lemma_file_one(rows: Seq<ProcessSnapshot>, pid: u32, i: usize)
    requires
        i < rows.len(),
        rows.len() <= usize::MAX,
    ensures
        kids_before(rows, pid, (i + 1) as usize) == (if rows[i as int].parent_pid == pid
            && has_live_parent(rows, i as int) {
            kids_before(rows, pid, i).push(i)
        } else {
            kids_before(rows, pid, i)
        }),
        roots_before(rows, (i + 1) as usize) == (if has_live_parent(rows, i as int) {
            roots_before(rows, i)
        } else {
            roots_before(rows, i).push(i)
        }),
{
}

/// Whether process `i` has a live parent, given the set of listed pids.
fn parent_is_live(rows: &[ProcessSnapshot], listed: &HashSet<u32>, i: usize) -> (r: bool)
    requires
        i < rows@.len(),
        forall|pid: u32| #[trigger] listed@.contains(pid) <==> is_listed(rows@, pid),
    ensures
        r == has_live_parent(rows@, i as int),
{
    rows[i].parent_pid != 0 && listed.contains(&rows[i].parent_pid)
}

fn listed_pids(rows: &[ProcessSnapshot]) -> (listed: HashSet<u32>)
    ensures
        forall|pid: u32| #[trigger] listed@.contains(pid) <==> is_listed(rows@, pid),
{
    let mut listed: HashSet<u32> = HashSet::new();
    for i in 0..rows.len()
        invariant
            forall|pid: u32| #[trigger]
                listed@.contains(pid) <==> exists|k: int|
                    0 <= k < i && #[trigger] rows@[k].pid == pid,
    {
        listed.insert(rows[i].pid);
        proof {
            assert forall|pid: u32| #[trigger] listed@.contains(pid) implies exists|k: int|
                0 <= k < i + 1 && #[trigger] rows@[k].pid == pid by {
                if pid == rows@[i as int].pid {
                } else {
                    let k = choose|k: int| 0 <= k < i && #[trigger] rows@[k].pid == pid;
                    assert(rows@[k].pid == pid);
                }
            }
        }
    }
    listed
}

/// Builds the tree view, or answers `None` when some row would be nested more
/// than 255 deep. Siblings are ordered by `order`, ties in list order.
pub fn try_build_tree_view<F: Fn(&ProcessSnapshot, &ProcessSnapshot) -> Ordering>(
    rows: &[ProcessSnapshot],
    collapsed: &HashSet<u32>,
    order: F,
) -> (r: Option<Vec<TreeRow>>)
    requires
        can_compare(order, rows@),
    ensures
        forall|leq: spec_fn(ProcessSnapshot, ProcessSnapshot) -> bool|
            is_preorder(leq) && #[trigger] agrees(order, rows@, leq) ==> match r {
                Some(v) => fits(shown(rows@, leq, collapsed@)) && v@ == tree_view(
                    rows@,
                    leq,
                    collapsed@,
                ),
                None => !fits(shown(rows@, leq, collapsed@)),
            },
{
    let listed = listed_pids(rows);
    let mut children: HashMap<u32, Vec<usize>> = HashMap::new();
    let mut roots: Vec<usize> = Vec::new();
    let count: usize = rows.len();
    assert(kids_before(rows@, 0, 0) =~= Seq::empty());
    for i in 0..count
        invariant
            count == rows@.len(),
            can_compare(order, rows@),
            forall|pid: u32| #[trigger] listed@.contains(pid) <==> is_listed(rows@, pid),
            filed(order, rows@, children@, i),
            in_order(order, rows@, roots@),
            roots@.to_multiset() == roots_before(rows@, i).to_multiset(),
            all_below(roots@, i),
    {
        broadcast use vstd::seq_lib::group_to_multiset_ensures;

        let ghost children0 = children@;
        let next: usize = i + 1;
        proof {
            assert forall|pid: u32| true implies kids_before(rows@, pid, next) == (if at(
                rows@,
                i,
            ).parent_pid == pid && has_live_parent(rows@, i + 0) {
                #[trigger] kids_before(rows@, pid, i).push(i)
            } else {
                kids_before(rows@, pid, i)
            }) by {
                lemma_file_one(rows@, pid, i);
            }
            lemma_file_one(rows@, 0, i);
        }
        if parent_is_live(rows, &listed, i) {
            let parent = rows[i].parent_pid;
            let mut list = match children.remove(&parent) {
                Some(l) => l,
                None => Vec::new(),
            };
            proof {
                if !children0.contains_key(parent) {
                    assert(kids_before(rows@, parent, i) =~= Seq::empty());
                }
            }
            insert_in_order(rows, &order, &mut list, i);
            children.insert(parent, list);
        } else {
            insert_in_order(rows, &order, &mut roots, i);
        }
    }
    let ghost kids = |pid: u32| entry(children@, pid);
    proof {
        broadcast use vstd::seq_lib::group_to_multiset_ensures;

        assert forall|pid: u32| #[trigger]
            kids(pid).len() == children_upto(rows@, pid, rows@.len()).len() by {
            assert(kids_before(rows@, pid, count) == children_upto(rows@, pid, rows@.len()));
            if children@.contains_key(pid) {
                kids(pid).to_multiset_ensures();
                kids_before(rows@, pid, count).to_multiset_ensures();
            }
        }
        assert(lists_in_range(rows@, kids));
    }
    let mut out: Vec<TreeRow> = Vec::new();
    let mut stack: Vec<u32> = Vec::new();
    let ghost whole = nested_all(rows@, kids, collapsed@, roots@, Seq::empty());
    proof {
        assert forall|leq: spec_fn(ProcessSnapshot, ProcessSnapshot) -> bool|
            is_preorder(leq) && #[trigger] agrees(order, rows@, leq) implies shown(
            rows@,
            leq,
            collapsed@,
        ) == whole by {
            assert forall|pid: u32| #[trigger] kids(pid) == sibling_lists(rows@, leq)(pid) by {
                let unsorted = children_upto(rows@, pid, rows@.len());
                assert(kids_before(rows@, pid, count) == unsorted);
                if children@.contains_key(pid) {
                    lemma_filed_is_sorted(order, rows@, leq, kids(pid), unsorted, count);
                } else {
                    lemma_position_order_total(rows@, leq);
                    unsorted.lemma_sort_by_ensures(position_order(rows@, leq));
                    unsorted.to_multiset_ensures();
                    sorted_children(rows@, leq, pid).to_multiset_ensures();
                    assert(sorted_children(rows@, leq, pid) =~= Seq::empty());
                }
            }
            assert(kids =~= sibling_lists(rows@, leq));
            lemma_filed_is_sorted(
                order,
                rows@,
                leq,
                roots@,
                roots_upto(rows@, rows@.len()),
                count,
            );
        }
    }
    let ok = visit_all(
        rows,
        &children,
        collapsed,
        roots.as_slice(),
        &mut stack,
        &mut out,
        Ghost(kids),
    );
    if ok {
        Some(out)
    } else {
        None
    }
}

/// Builds the depth-first view of the process tree. A process is a root when
/// its parent is 0 or not in the list; a process that would show up again
/// below itself is left out; the children of a collapsed process are hidden.
/// No row may be nested more than 255 deep.
pub fn build_tree_view<F: Fn(&ProcessSnapshot, &ProcessSnapshot) -> Ordering>(
    rows: &[ProcessSnapshot],
    collapsed: &HashSet<u32>,
    order: F,
) -> (r: Vec<TreeRow>)
    requires
        can_compare(order, rows@),
        exists|leq: spec_fn(ProcessSnapshot, ProcessSnapshot) -> bool|
            is_preorder(leq) && #[trigger] agrees(order, rows@, leq) && fits(
                shown(rows@, leq, collapsed@),
            ),
    ensures
        forall|leq: spec_fn(ProcessSnapshot, ProcessSnapshot) -> bool|
            is_preorder(leq) && #[trigger] agrees(order, rows@, leq) ==> r@ == tree_view(
                rows@,
                leq,
                collapsed@,
            ),
{
    match try_build_tree_view(rows, collapsed, order) {
        Some(v) => v,
        None => Vec::new(),
    }
}

// ── Sort keys ───────────────────────────────────────────────────────────────

/// The column that the Processes table is sorted by.
#[derive(Debug, Clone, Copy, PartialEq, Eq, Structural)]
pub enum ProcessSortKey {
    ExeName,
    Pid,
    Cpu,
    Memory,
    Threads,
    Priority,
    Profile,
    Description,
    Company,
    User,
}

/// The collation key of an optional text: lower case, with U+FFFF in place of
/// a missing text so that it comes after every ordinary one.
pub open spec fn collation(t: Option<String>) -> Seq<char> {
    match t {
        Some(s) => text::lower(s@),
        None => seq!['\u{ffff}'],
    }
}

/// Order of optional texts: none before any, else dictionary order.
pub open spec fn optional_text_leq(a: Option<String>, b: Option<String>) -> bool {
    match a {
        None => true,
        Some(x) => match b {
            None => false,
            Some(y) => text::text_leq(x@, y@),
        },
    }
}

/// Whether `a` comes no later than `b` in ascending order of a column.
pub open spec fn key_leq(key: ProcessSortKey, a: ProcessSnapshot, b: ProcessSnapshot) -> bool {
    match key {
        ProcessSortKey::ExeName => text::text_leq(text::lower(a.exe_name@), text::lower(b.exe_name@)),
        ProcessSortKey::Pid => a.pid <= b.pid,
        ProcessSortKey::Cpu => a.cpu_percent <= b.cpu_percent,
        ProcessSortKey::Memory => a.memory_bytes <= b.memory_bytes,
        ProcessSortKey::Threads => a.threads <= b.threads,
        ProcessSortKey::Priority => a.priority_class_raw <= b.priority_class_raw,
        ProcessSortKey::Profile => optional_text_leq(a.managed_profile, b.managed_profile),
        ProcessSortKey::Description => text::text_leq(
            collation(a.description),
            collation(b.description),
        ),
        ProcessSortKey::Company => text::text_leq(collation(a.company), collation(b.company)),
        ProcessSortKey::User => text::text_leq(collation(a.user), collation(b.user)),
    }
}

/// The order that a choice of column and direction stands for. Without a
/// column every two processes tie.
pub open spec fn chosen_order(sort_by: Option<ProcessSortKey>, desc: bool) -> spec_fn(
    ProcessSnapshot,
    ProcessSnapshot,
) -> bool {
    |a: ProcessSnapshot, b: ProcessSnapshot|
        match sort_by {
            None => true,
            Some(key) => if desc {
                key_leq(key, b, a)
            } else {
                key_leq(key, a, b)
            },
        }
}

/// Every choice of column and direction is a total preorder, so sorting by it
/// is well defined.
pub proof fn chosen_order_is_preorder(sort_by: Option<ProcessSortKey>, desc: bool)
    ensures
        is_preorder(chosen_order(sort_by, desc)),
{
    let leq = chosen_order(sort_by, desc);
    assert forall|a: ProcessSnapshot, b: ProcessSnapshot| #[trigger] leq(a, b) || leq(b, a) by {
        if let Some(key) = sort_by {
            lemma_key_order(key, a, b, a);
        }
    }
    assert forall|a: ProcessSnapshot, b: ProcessSnapshot, c: ProcessSnapshot| #[trigger]
        leq(a, b) && #[trigger] leq(b, c) implies leq(a, c) by {
        if let Some(key) = sort_by {
            lemma_key_order(key, a, b, c);
            lemma_key_order(key, c, b, a);
        }
    }
}

/// Reversing the direction reverses the order.
pub proof fn descending_reverses(
    sort_by: Option<ProcessSortKey>,
    a: ProcessSnapshot,
    b: ProcessSnapshot,
)
    ensures
        chosen_order(sort_by, true)(a, b) == chosen_order(sort_by, false)(b, a),
{
}

proof fn lemma_key_order(
    key: ProcessSortKey,
    a: ProcessSnapshot,
    b: ProcessSnapshot,
    c: ProcessSnapshot,
)
    ensures
        key_leq(key, a, b) || key_leq(key, b, a),
        key_leq(key, a, b) && key_leq(key, b, c) ==> key_leq(key, a, c),
{
    match key {
        ProcessSortKey::ExeName => {
            text::text_order_is_total(text::lower(a.exe_name@), text::lower(b.exe_name@), text::lower(c.exe_name@));
        },
        ProcessSortKey::Profile => {
            let x = if let Some(s) = a.managed_profile { s@ } else { Seq::empty() };
            let y = if let Some(s) = b.managed_profile { s@ } else { Seq::empty() };
            let z = if let Some(s) = c.managed_profile { s@ } else { Seq::empty() };
            text::text_order_is_total(x, y, z);
        },
        ProcessSortKey::Description => {
            text::text_order_is_total(
                collation(a.description),
                collation(b.description),
                collation(c.description),
            );
        },
        ProcessSortKey::Company => {
            text::text_order_is_total(collation(a.company), collation(b.company), collation(c.company));
        },
        ProcessSortKey::User => {
            text::text_order_is_total(collation(a.user), collation(b.user), collation(c.user));
        },
        _ => {},
    }
}

fn collation_text(t: &Option<String>) -> (r: String)
    ensures
        r@ == collation(*t),
{
    match t {
        Some(s) => text::to_lower(s.as_str()),
        None => {
            let mut last = String::new();
            last.push('\u{ffff}');
            assert(last@ =~= seq!['\u{ffff}']);
            last
        },
    }
}

/// Whether `a` comes no later than `b` in ascending order of a column.
fn not_after(key: ProcessSortKey, a: &ProcessSnapshot, b: &ProcessSnapshot) -> (r: bool)
    ensures
        r == key_leq(key, *a, *b),
{
    match key {
        ProcessSortKey::ExeName => {
            let x = text::to_lower(a.exe_name.as_str());
            let y = text::to_lower(b.exe_name.as_str());
            text::text_not_after(x.as_str(), y.as_str())
        },
        ProcessSortKey::Pid => a.pid <= b.pid,
        ProcessSortKey::Cpu => a.cpu_percent <= b.cpu_percent,
        ProcessSortKey::Memory => a.memory_bytes <= b.memory_bytes,
        ProcessSortKey::Threads => a.threads <= b.threads,
        ProcessSortKey::Priority => a.priority_class_raw <= b.priority_class_raw,
        ProcessSortKey::Profile => match &a.managed_profile {
            None => true,
            Some(x) => match &b.managed_profile {
                None => false,
                Some(y) => text::text_not_after(x.as_str(), y.as_str()),
            },
        },
        ProcessSortKey::Description => {
            let x = collation_text(&a.description);
            let y = collation_text(&b.description);
            text::text_not_after(x.as_str(), y.as_str())
        },
        ProcessSortKey::Company => {
            let x = collation_text(&a.company);
            let y = collation_text(&b.company);
            text::text_not_after(x.as_str(), y.as_str())
        },
        ProcessSortKey::User => {
            let x = collation_text(&a.user);
            let y = collation_text(&b.user);
            text::text_not_after(x.as_str(), y.as_str())
        },
    }
}

/// Compares two processes by the chosen column and direction.
pub fn compare_snapshots(
    a: &ProcessSnapshot,
    b: &ProcessSnapshot,
    sort_by: Option<ProcessSortKey>,
    desc: bool,
) -> (r: Ordering)
    ensures
        r == (if !chosen_order(sort_by, desc)(*b, *a) {
            Ordering::Less
        } else if !chosen_order(sort_by, desc)(*a, *b) {
            Ordering::Greater
        } else {
            Ordering::Equal
        }),
{
    match sort_by {
        None => Ordering::Equal,
        Some(key) => {
            let (first, second) = if desc {
                (b, a)
            } else {
                (a, b)
            };
            proof {
                lemma_key_order(key, *first, *second, *first);
            }
            if !not_after(key, second, first) {
                Ordering::Less
            } else if !not_after(key, first, second) {
                Ordering::Greater
            } else {
                Ordering::Equal
            }
        },
    }
}

/// The long hover text of a column header.
pub open spec fn hover_text(key: ProcessSortKey) -> Seq<char> {
    match key {
        ProcessSortKey::ExeName =>
            "Executable filename. Click to sort alphabetically; click again to flip direction."@,
        ProcessSortKey::Pid =>
            "Process ID. Stable within a process's lifetime, reused after exit."@,
        ProcessSortKey::Cpu =>
            "Live CPU usage as % of one logical processor. Sort descending to find the noisy one fast."@,
        ProcessSortKey::Memory =>
            "Working-set size — resident RAM the process is using right now. Hover the cell for peak + private bytes."@,
        ProcessSortKey::Threads => "Live thread count."@,
        ProcessSortKey::Priority =>
            "Windows priority class. Game Mode + manual overrides can change this from its default."@,
        ProcessSortKey::Profile =>
            "Profile FrameSage has applied to this PID. Star ★ marks profiles that came from a Rule (vs one-shot)."@,
        ProcessSortKey::Description =>
            "Friendly name from the exe's version resource (\"Microsoft Edge\" beside msedge.exe)."@,
        ProcessSortKey::Company =>
            "Publisher string from the version resource. Useful for spotting unfamiliar binaries."@,
        ProcessSortKey::User =>
            "User account that owns the process. SYSTEM / NT SERVICE rows render muted so user-owned code stands out."@,
    }
}

/// The long hover text of a column header.
pub fn column_hover_text(key: ProcessSortKey) -> (r: &'static str)
    ensures
        r@ == hover_text(key),
{
    match key {
        ProcessSortKey::ExeName =>
            "Executable filename. Click to sort alphabetically; click again to flip direction.",
        ProcessSortKey::Pid =>
            "Process ID. Stable within a process's lifetime, reused after exit.",
        ProcessSortKey::Cpu =>
            "Live CPU usage as % of one logical processor. Sort descending to find the noisy one fast.",
        ProcessSortKey::Memory =>
            "Working-set size — resident RAM the process is using right now. Hover the cell for peak + private bytes.",
        ProcessSortKey::Threads => "Live thread count.",
        ProcessSortKey::Priority =>
            "Windows priority class. Game Mode + manual overrides can change this from its default.",
        ProcessSortKey::Profile =>
            "Profile FrameSage has applied to this PID. Star ★ marks profiles that came from a Rule (vs one-shot).",
        ProcessSortKey::Description =>
            "Friendly name from the exe's version resource (\"Microsoft Edge\" beside msedge.exe).",
        ProcessSortKey::Company =>
            "Publisher string from the version resource. Useful for spotting unfamiliar binaries.",
        ProcessSortKey::User =>
            "User account that owns the process. SYSTEM / NT SERVICE rows render muted so user-owned code stands out.",
    }
}

// ── Row classification ──────────────────────────────────────────────────────

/// How a row of the Processes table is set off.
#[derive(Debug, Clone, Copy, PartialEq, Eq, Structural)]
pub enum RowState {
    /// The focused application. Wins over every other state.
    Foreground,
    /// Demoted for contention relief.
    Restrained,
    /// A profile is applied.
    Managed,
    Default,
}

/// Sets a row off by the most interesting thing about it.
pub fn classify_row(p: &ProcessSnapshot, foreground_pid: Option<u32>) -> (r: RowState)
    ensures
        r == (if foreground_pid == Some(p.pid) {
            RowState::Foreground
        } else if p.restrained_by_probalance {
            RowState::Restrained
        } else if p.managed_profile is Some {
            RowState::Managed
        } else {
            RowState::Default
        }),
{
    let focused = match foreground_pid {
        Some(pid) => pid == p.pid,
        None => false,
    };
    if focused {
        RowState::Foreground
    } else if p.restrained_by_probalance {
        RowState::Restrained
    } else if p.managed_profile.is_some() {
        RowState::Managed
    } else {
        RowState::Default
    }
}

/// The tone of the bar in front of a row; plain rows have none.
pub fn row_marker_color(state: RowState) -> (r: Option<Tone>)
    ensures
        r == (match state {
            RowState::Foreground => Some(Tone::Accent),
            RowState::Restrained => Some(Tone::Warning),
            RowState::Managed => Some(Tone::Success),
            RowState::Default => None,
        }),
{
    match state {
        RowState::Foreground => Some(Tone::Accent),
        RowState::Restrained => Some(Tone::Warning),
        RowState::Managed => Some(Tone::Success),
        RowState::Default => None,
    }
}

/// The tone of the executable's name. Managed rows keep the plain tone.
pub fn row_exe_color(state: RowState) -> (r: Tone)
    ensures
        r == (match state {
            RowState::Foreground => Tone::Accent,
            RowState::Restrained => Tone::Warning,
            RowState::Managed | RowState::Default => Tone::Text,
        }),
{
    match state {
        RowState::Foreground => Tone::Accent,
        RowState::Restrained => Tone::Warning,
        RowState::Managed | RowState::Default => Tone::Text,
    }
}

// ── Descendants ─────────────────────────────────────────────────────────────

/// The pids of the first `n` processes that name `pid` as their parent, in
/// list order.
pub open spec fn child_pids_upto(rows: Seq<ProcessSnapshot>, pid: u32, n: nat) -> Seq<u32>
    decreases n,
{
    if n == 0 {
        Seq::empty()
    } else {
        let before = child_pids_upto(rows, pid, (n - 1) as nat);
        if rows[n - 1].parent_pid == pid {
            before.push(rows[n - 1].pid)
        } else {
            before
        }
    }
}

/// The pids of all processes that name `pid` as their parent.
pub open spec fn child_pids(rows: Seq<ProcessSnapshot>, pid: u32) -> Seq<u32> {
    child_pids_upto(rows, pid, rows.len())
}

/// Pids that a walk with this queue can still come upon.
pub open spec fn unwalked(
    rows: Seq<ProcessSnapshot>,
    queue: Seq<u32>,
    seen: Seq<u32>,
) -> Set<u32> {
    rows.map_values(|r: ProcessSnapshot| r.pid).to_set().union(queue.to_set()).difference(
        seen.to_set(),
    )
}

/// Walks depth first: takes the head of the queue, and unless it was seen
/// before, records it and goes on with its children.
pub open spec fn walk(rows: Seq<ProcessSnapshot>, queue: Seq<u32>, seen: Seq<u32>) -> Seq<u32>
    decreases unwalked(rows, queue, seen).len(), queue.len(),
{
    if queue.len() == 0 {
        seen
    } else if seen.contains(queue[0]) {
        proof {
            lemma_walk_skips(rows, queue, seen);
        }
        walk(rows, queue.drop_first(), seen)
    } else {
        proof {
            lemma_walk_shrinks(rows, queue, seen);
        }
        walk(rows, child_pids(rows, queue[0]) + queue.drop_first(), seen.push(queue[0]))
    }
}

pub proof fn lemma_child_pids(rows: Seq<ProcessSnapshot>, pid: u32, n: nat)
    requires
        n <= rows.len(),
    ensures
        forall|c: u32| #[trigger]
            child_pids_upto(rows, pid, n).contains(c) <==> exists|i: int|
                0 <= i < n && #[trigger] rows[i].pid == c && rows[i].parent_pid == pid,
    decreases n,
{
    if n > 0 {
        lemma_child_pids(rows, pid, (n - 1) as nat);
        let before = child_pids_upto(rows, pid, (n - 1) as nat);
        let after = child_pids_upto(rows, pid, n);
        assert forall|c: u32| #[trigger] after.contains(c) <==> exists|i: int|
            0 <= i < n && #[trigger] rows[i].pid == c && rows[i].parent_pid == pid by {
            if after.contains(c) {
                let k = after.index_of(c);
                if k < before.len() {
                    assert(before[k] == c);
                    assert(before.contains(c));
                    let i = choose|i: int|
                        0 <= i < n - 1 && #[trigger] rows[i].pid == c && rows[i].parent_pid == pid;
                    assert(rows[i].pid == c);
                } else {
                    assert(rows[n - 1].pid == c);
                }
            }
            if exists|i: int|
                0 <= i < n && #[trigger] rows[i].pid == c && rows[i].parent_pid == pid {
                let i = choose|i: int|
                    0 <= i < n && #[trigger] rows[i].pid == c && rows[i].parent_pid == pid;
                if i < n - 1 {
                    assert(before.contains(c));
                    let k = before.index_of(c);
                    assert(after[k] == c);
                } else {
                    assert(after[before.len() as int] == c);
                }
            }
        }
    }
}

pub proof fn lemma_walk_skips(rows: Seq<ProcessSnapshot>, queue: Seq<u32>, seen: Seq<u32>)
    requires
        queue.len() > 0,
        seen.contains(queue[0]),
    ensures
        unwalked(rows, queue.drop_first(), seen) == unwalked(rows, queue, seen),
{
    let rest = queue.drop_first();
    assert forall|x: u32| queue.contains(x) <==> rest.contains(x) || x == queue[0] by {
        if queue.contains(x) && x != queue[0] {
            let k = queue.index_of(x);
            assert(rest[k - 1] == x);
        }
        if rest.contains(x) {
            let k = rest.index_of(x);
            assert(queue[k + 1] == x);
        }
    }
    assert(unwalked(rows, rest, seen) =~= unwalked(rows, queue, seen));
}

pub proof fn lemma_walk_shrinks(rows: Seq<ProcessSnapshot>, queue: Seq<u32>, seen: Seq<u32>)
    requires
        queue.len() > 0,
        !seen.contains(queue[0]),
    ensures
        unwalked(
            rows,
            child_pids(rows, queue[0]) + queue.drop_first(),
            seen.push(queue[0]),
        ).len() < unwalked(rows, queue, seen).len(),
{
    let pid = queue[0];
    let kids = child_pids(rows, pid);
    let next = kids + queue.drop_first();
    let pids = rows.map_values(|r: ProcessSnapshot| r.pid);
    vstd::seq_lib::seq_to_set_is_finite(pids);
    vstd::seq_lib::seq_to_set_is_finite(queue);
    lemma_child_pids(rows, pid, rows.len());
    let smaller = unwalked(rows, next, seen.push(pid));
    let larger = unwalked(rows, queue, seen);
    assert(queue.contains(queue[0]));
    assert(larger.contains(pid));
    assert(seen.push(pid)[seen.len() as int] == pid);
    assert(!smaller.contains(pid));
    assert forall|x: u32| smaller.contains(x) implies larger.contains(x) by {
        if next.contains(x) {
            let k = next.index_of(x);
            if k >= kids.len() {
                assert(queue[k - kids.len() + 1] == x);
            } else {
                assert(kids[k] == x);
                assert(kids.contains(x));
                let i = choose|i: int|
                    0 <= i < rows.len() && #[trigger] rows[i].pid == x && rows[i].parent_pid == pid;
                assert(pids[i] == x);
            }
        }
        if seen.contains(x) {
            let k = seen.index_of(x);
            assert(seen.push(pid)[k] == x);
        }
    }
    assert(smaller.subset_of(larger.remove(pid)));
    vstd::set_lib::lemma_len_subset(smaller, larger.remove(pid));
}

/// The children of every process, by parent pid.
fn children_by_parent(rows: &[ProcessSnapshot]) -> (children: HashMap<u32, Vec<u32>>)
    ensures
        forall|pid: u32| child_pids(rows@, pid) == #[trigger] entry(children@, pid),
{
    let mut children: HashMap<u32, Vec<u32>> = HashMap::new();
    for i in 0..rows.len()
        invariant
            forall|pid: u32| child_pids_upto(rows@, pid, i as nat) == #[trigger] entry(children@, pid),
    {
        let ghost children0 = children@;
        let parent = rows[i].parent_pid;
        let mut list = match children.remove(&parent) {
            Some(l) => l,
            None => Vec::new(),
        };
        assert(list@ == entry(children0, parent));
        list.push(rows[i].pid);
        children.insert(parent, list);
        proof {
            assert forall|pid: u32| child_pids_upto(rows@, pid, (i + 1) as nat) == #[trigger] entry(children@, pid) by {
                assert(child_pids_upto(rows@, pid, i as nat) == entry(children0, pid));
            }
        }
    }
    children
}

/// `root_pid` and every pid that descends from it through parent links, depth
/// first, each once.
pub fn descendants_of(rows: &[ProcessSnapshot], root_pid: u32) -> (r: Vec<u32>)
    ensures
        r@ == walk(rows@, seq![root_pid], Seq::empty()),
{
    let children = children_by_parent(rows);
    let mut out: Vec<u32> = Vec::new();
    let mut seen: HashSet<u32> = HashSet::new();
    let mut queue: VecDeque<u32> = VecDeque::new();
    queue.push_back(root_pid);
    assert(queue@ =~= seq![root_pid]);
    assert(seen@ =~= out@.to_set());
    while queue.len() > 0
        invariant
            forall|pid: u32| child_pids(rows@, pid) == #[trigger] entry(children@, pid),
            walk(rows@, queue@, out@) == walk(rows@, seq![root_pid], Seq::empty()),
            seen@ == out@.to_set(),
        decreases unwalked(rows@, queue@, out@).len(), queue@.len(),
    {
        let ghost queue0 = queue@;
        let ghost out0 = out@;
        if let Some(pid) = queue.pop_front() {
            assert(queue@ =~= queue0.drop_first());
            if seen.contains(&pid) {
                proof {
                    assert(out0.to_set().contains(pid));
                    lemma_walk_skips(rows@, queue0, out0);
                }
            } else {
                proof {
                    assert(!out0.to_set().contains(pid));
                    lemma_walk_shrinks(rows@, queue0, out0);
                }
                seen.insert(pid);
                out.push(pid);
                assert(out@.to_set() =~= out0.to_set().insert(pid)) by {
                    assert forall|x: u32| out@.contains(x) <==> out0.contains(x) || x == pid by {
                        if out0.contains(x) {
                            assert(out@[out0.index_of(x)] == x);
                        }
                        assert(out@[out0.len() as int] == pid);
                    }
                }
                let ghost rest = queue@;
                if let Some(list) = children.get(&pid) {
                    assert(list@ == entry(children@, pid));
                    let mut k: usize = list.len();
                    assert(list@.skip(k as int) + rest =~= rest);
                    while k > 0
                        invariant
                            k <= list@.len(),
                            queue@ == list@.skip(k as int) + rest,
                        decreases k,
                    {
                        k = k - 1;
                        queue.push_front(list[k]);
                        assert(queue@ =~= list@.skip(k as int) + rest);
                    }
                    assert(list@.skip(0) =~= list@);
                } else {
                    assert(entry(children@, pid) =~= Seq::empty());
                    assert(rest =~= child_pids(rows@, pid) + rest);
                }
                assert(queue@ == child_pids(rows@, pid) + rest);
            }
        }
    }
    assert(queue@ =~= Seq::empty());
    out
}

/// Whether `child` names `parent` as its parent.
pub open spec fn is_child(rows: Seq<ProcessSnapshot>, parent: u32, child: u32) -> bool {
    exists|i: int|
        0 <= i < rows.len() && #[trigger] rows[i].pid == child && rows[i].parent_pid == parent
}

/// A chain of parent links from the first pid to the last.
pub open spec fn is_lineage(rows: Seq<ProcessSnapshot>, line: Seq<u32>) -> bool {
    &&& line.len() > 0
    &&& forall|k: int, m: int|
        0 <= k && m == k + 1 && m < line.len() ==> is_child(
            rows,
            #[trigger] line[k],
            #[trigger] line[m],
        )
}

/// Whether `pid` is `root` or descends from it.
pub open spec fn descends(rows: Seq<ProcessSnapshot>, root: u32, pid: u32) -> bool {
    exists|line: Seq<u32>| #[trigger]
        is_lineage(rows, line) && line[0] == root && line.last() == pid
}

/// Adding a child to a lineage makes a longer lineage.
proof fn lemma_descends_step(rows: Seq<ProcessSnapshot>, root: u32, pid: u32, child: u32)
    requires
        descends(rows, root, pid),
        is_child(rows, pid, child),
    ensures
        descends(rows, root, child),
{
    let line = choose|line: Seq<u32>| #[trigger]
        is_lineage(rows, line) && line[0] == root && line.last() == pid;
    let longer = line.push(child);
    assert forall|k: int, m: int| 0 <= k && m == k + 1 && m < longer.len() implies is_child(
        rows,
        #[trigger] longer[k],
        #[trigger] longer[m],
    ) by {
        if m < line.len() {
            assert(is_child(rows, line[k], line[m]));
        }
    }
    assert(is_lineage(rows, longer));
    assert(longer.last() == child);
}

/// What holds between the pids seen and queued throughout a walk from `root`.
pub open spec fn walk_invariant(
    rows: Seq<ProcessSnapshot>,
    root: u32,
    queue: Seq<u32>,
    seen: Seq<u32>,
) -> bool {
    &&& seen.no_duplicates()
    &&& forall|k: int| 0 <= k < seen.len() ==> descends(rows, root, #[trigger] seen[k])
    &&& forall|k: int| 0 <= k < queue.len() ==> descends(rows, root, #[trigger] queue[k])
    &&& seen.contains(root) || queue.contains(root)
    &&& forall|p: u32, c: u32| #[trigger]
        is_child(rows, p, c) && seen.contains(p) ==> seen.contains(c) || queue.contains(c)
    &&& if seen.len() > 0 {
        seen[0] == root
    } else {
        queue.len() > 0 && queue[0] == root
    }
}

/// A walk keeps its invariant to the end.
proof fn lemma_walk(rows: Seq<ProcessSnapshot>, root: u32, queue: Seq<u32>, seen: Seq<u32>)
    requires
        walk_invariant(rows, root, queue, seen),
    ensures
        walk_invariant(rows, root, Seq::empty(), walk(rows, queue, seen)),
    decreases unwalked(rows, queue, seen).len(), queue.len(),
{
    if queue.len() == 0 {
        assert(queue =~= Seq::empty());
    } else if seen.contains(queue[0]) {
        lemma_walk_skips(rows, queue, seen);
        let rest = queue.drop_first();
        assert forall|x: u32| queue.contains(x) implies rest.contains(x) || x == queue[0] by {
            let k = queue.index_of(x);
            if k > 0 {
                assert(rest[k - 1] == x);
            }
        }
        lemma_walk(rows, root, rest, seen);
    } else {
        let pid = queue[0];
        let kids = child_pids(rows, pid);
        let rest = queue.drop_first();
        let next = kids + rest;
        let grown = seen.push(pid);
        lemma_walk_shrinks(rows, queue, seen);
        lemma_child_pids(rows, pid, rows.len());
        assert forall|x: u32| queue.contains(x) implies next.contains(x) || x == pid by {
            let k = queue.index_of(x);
            if k > 0 {
                assert(next[kids.len() + k - 1] == x);
            }
        }
        assert forall|x: u32| seen.contains(x) implies grown.contains(x) by {
            assert(grown[seen.index_of(x)] == x);
        }
        assert(grown[seen.len() as int] == pid);
        assert forall|k: int| 0 <= k < next.len() implies descends(rows, root, #[trigger] next[k]) by {
            if k >= kids.len() {
                assert(next[k] == queue[k - kids.len() + 1]);
            } else {
                let c = kids[k];
                assert(kids.contains(c));
                assert(is_child(rows, pid, c));
                lemma_descends_step(rows, root, pid, c);
            }
        }
        assert forall|p: u32, c: u32| #[trigger]
            is_child(rows, p, c) && grown.contains(p) implies grown.contains(c) || next.contains(
            c,
        ) by {
            let j = grown.index_of(p);
            if j < seen.len() {
                assert(seen[j] == p);
                assert(seen.contains(p));
            } else {
                assert(kids.contains(c));
                let k = kids.index_of(c);
                assert(next[k] == c);
            }
        }
        assert(grown.no_duplicates()) by {
            assert forall|i: int, j: int| 0 <= i < grown.len() && 0 <= j < grown.len() && i
                != j implies grown[i] != grown[j] by {
                if i < seen.len() && j < seen.len() {
                } else if i < seen.len() {
                    assert(seen.contains(seen[i]));
                } else {
                    assert(seen.contains(seen[j]));
                }
            }
        }
        lemma_walk(rows, root, next, grown);
    }
}

/// The result of `descendants_of` starts with the root, holds nothing twice,
/// and holds exactly the root and the pids that descend from it, cycles or
/// not.
pub proof fn descendants_are_exactly_the_reachable(rows: Seq<ProcessSnapshot>, root: u32)
    ensures
        walk(rows, seq![root], Seq::empty()).len() > 0,
        walk(rows, seq![root], Seq::empty())[0] == root,
        walk(rows, seq![root], Seq::empty()).no_duplicates(),
        forall|pid: u32| #[trigger]
            walk(rows, seq![root], Seq::empty()).contains(pid) <==> descends(rows, root, pid),
{
    let start = seq![root];
    let done = walk(rows, start, Seq::empty());
    assert(is_lineage(rows, start));
    assert(start.last() == root);
    assert(descends(rows, root, root));
    assert(start[0] == root);
    assert(start.contains(root));
    lemma_walk(rows, root, start, Seq::empty());
    assert forall|pid: u32| descends(rows, root, pid) implies done.contains(pid) by {
        let line = choose|line: Seq<u32>| #[trigger]
            is_lineage(rows, line) && line[0] == root && line.last() == pid;
        lemma_lineage_in_walk(rows, root, done, line);
    }
}

/// A set of pids that is closed under children holds every lineage from a pid
/// that it holds.
proof fn lemma_lineage_in_walk(
    rows: Seq<ProcessSnapshot>,
    root: u32,
    done: Seq<u32>,
    line: Seq<u32>,
)
    requires
        walk_invariant(rows, root, Seq::empty(), done),
        is_lineage(rows, line),
        line[0] == root,
    ensures
        done.contains(line.last()),
    decreases line.len(),
{
    if line.len() == 1 {
        assert(line.last() == root);
    } else {
        let shorter = line.drop_last();
        assert forall|k: int, m: int| 0 <= k && m == k + 1 && m < shorter.len() implies is_child(
            rows,
            #[trigger] shorter[k],
            #[trigger] shorter[m],
        ) by {
            assert(is_child(rows, line[k], line[m]));
        }
        lemma_lineage_in_walk(rows, root, done, shorter);
        assert(is_child(rows, line[line.len() - 2], line[line.len() - 1]));
    }
}

/// Whether some pid of the list names one of the first `n` pids as its parent.
pub open spec fn has_parent_among(
    rows: Seq<ProcessSnapshot>,
    pids: Seq<u32>,
    n: int,
    pid: u32,
) -> bool {
    exists|j: int| 0 <= j < n && is_child(rows, #[trigger] pids[j], pid)
}

proof fn lemma_walk_parents(rows: Seq<ProcessSnapshot>, queue: Seq<u32>, seen: Seq<u32>)
    requires
        seen.len() == 0 ==> queue.len() <= 1,
        seen.len() > 0 ==> forall|k: int|
            0 <= k < queue.len() ==> has_parent_among(
                rows,
                seen,
                seen.len() as int,
                #[trigger] queue[k],
            ),
        forall|k: int| 0 < k < seen.len() ==> has_parent_among(rows, seen, k, #[trigger] seen[k]),
    ensures
        forall|k: int|
            0 < k < walk(rows, queue, seen).len() ==> has_parent_among(
                rows,
                walk(rows, queue, seen),
                k,
                #[trigger] walk(rows, queue, seen)[k],
            ),
    decreases unwalked(rows, queue, seen).len(), queue.len(),
{
    if queue.len() == 0 {
        assert(walk(rows, queue, seen) == seen);
    } else if seen.contains(queue[0]) {
        lemma_walk_skips(rows, queue, seen);
        let rest = queue.drop_first();
        assert(walk(rows, queue, seen) == walk(rows, rest, seen));
        assert forall|k: int| 0 <= k < rest.len() implies has_parent_among(
            rows,
            seen,
            seen.len() as int,
            #[trigger] rest[k],
        ) by {
            assert(rest[k] == queue[k + 1]);
        }
        lemma_walk_parents(rows, rest, seen);
    } else {
        let pid = queue[0];
        let kids = child_pids(rows, pid);
        let next = kids + queue.drop_first();
        let grown = seen.push(pid);
        lemma_walk_shrinks(rows, queue, seen);
        lemma_child_pids(rows, pid, rows.len());
        assert forall|k: int| 0 <= k < next.len() implies has_parent_among(
            rows,
            grown,
            grown.len() as int,
            #[trigger] next[k],
        ) by {
            if k < kids.len() {
                assert(kids.contains(kids[k]));
                assert(is_child(rows, grown[seen.len() as int], next[k]));
            } else {
                assert(next[k] == queue[k - kids.len() + 1]);
                let j = choose|j: int|
                    0 <= j < seen.len() && is_child(rows, #[trigger] seen[j], next[k]);
                assert(is_child(rows, grown[j], next[k]));
            }
        }
        assert forall|k: int| 0 < k < grown.len() implies has_parent_among(
            rows,
            grown,
            k,
            #[trigger] grown[k],
        ) by {
            assert(k < seen.len() ==> grown[k] == seen[k]);
            assert(has_parent_among(rows, seen, k, grown[k]));
            let j = choose|j: int| 0 <= j < k && is_child(rows, #[trigger] seen[j], grown[k]);
            assert(is_child(rows, grown[j], grown[k]));
        }
        assert(walk(rows, queue, seen) == walk(rows, next, grown));
        lemma_walk_parents(rows, next, grown);
    }
}

/// In the result of `descendants_of` every pid but the root comes after one
/// that it names as its parent.
pub proof fn parents_come_before_their_children(
    rows: Seq<ProcessSnapshot>,
    root: u32,
    k: int,
)
    requires
        0 < k < walk(rows, seq![root], Seq::empty()).len(),
    ensures
        has_parent_among(
            rows,
            walk(rows, seq![root], Seq::empty()),
            k,
            walk(rows, seq![root], Seq::empty())[k],
        ),
{
    lemma_walk_parents(rows, seq![root], Seq::empty());
}

} // verus!
