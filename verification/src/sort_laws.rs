//! Laws of the process table's columns: which field each sorts by, and which
//! way round.

use std::cmp::Ordering;
use vstd::prelude::*;

use crate::ipc::ProcessSnapshot;
use crate::text;
use crate::text_laws;
use crate::tree::{self, ProcessSortKey};

verus! {

/// The outcome for two processes of which the first stands before the second,
/// or the second before the first, in ascending order.
pub open spec fn outcome(first: bool, second: bool, desc: bool) -> Ordering {
    if first != desc && (first || second) {
        Ordering::Less
    } else if first || second {
        Ordering::Greater
    } else {
        Ordering::Equal
    }
}

/// Each column of numbers sorts by its own field: the smaller number comes first
/// in ascending order and last in descending order, and equal numbers tie.
pub proof fn number_columns_sort_by_their_numbers(
    a: &ProcessSnapshot,
    b: &ProcessSnapshot,
    key: ProcessSortKey,
    desc: bool,
    r: Ordering,
)
    requires
        call_ensures(tree::compare_snapshots, (a, b, Some(key), desc), r),
    ensures
        key == ProcessSortKey::Pid ==> r == outcome(a.pid < b.pid, b.pid < a.pid, desc),
        key == ProcessSortKey::Cpu ==> r == outcome(
            a.cpu_percent < b.cpu_percent,
            b.cpu_percent < a.cpu_percent,
            desc,
        ),
        key == ProcessSortKey::Memory ==> r == outcome(
            a.memory_bytes < b.memory_bytes,
            b.memory_bytes < a.memory_bytes,
            desc,
        ),
        key == ProcessSortKey::Threads ==> r == outcome(
            a.threads < b.threads,
            b.threads < a.threads,
            desc,
        ),
        key == ProcessSortKey::Priority ==> r == outcome(
            a.priority_class_raw < b.priority_class_raw,
            b.priority_class_raw < a.priority_class_raw,
            desc,
        ),
{
}

/// Whether an optional text stands before another where case does not count and
/// a missing text comes after every text of ordinary characters.
pub open spec fn text_before(a: Option<String>, b: Option<String>) -> bool {
    match (a, b) {
        (Some(x), Some(y)) => text_laws::precedes(text::lower(x@), text::lower(y@)),
        (Some(x), None) => x@.len() == 0 || (x@[0] as int) < 0xffff,
        _ => false,
    }
}

/// Whether a text can be told from a missing one by its first character.
pub open spec fn is_ordinary(t: Option<String>) -> bool {
    match t {
        Some(x) => x@.len() == 0 || (x@[0] as int) < 0xffff,
        None => true,
    }
}

/// The name column sorts by the executable's name, case apart.
pub proof fn the_name_column_sorts_by_name(
    a: &ProcessSnapshot,
    b: &ProcessSnapshot,
    desc: bool,
    r: Ordering,
)
    requires
        call_ensures(tree::compare_snapshots, (a, b, Some(ProcessSortKey::ExeName), desc), r),
    ensures
        r == outcome(
            text_laws::precedes(text::lower(a.exe_name@), text::lower(b.exe_name@)),
            text_laws::precedes(text::lower(b.exe_name@), text::lower(a.exe_name@)),
            desc,
        ),
{
    let x = text::lower(a.exe_name@);
    let y = text::lower(b.exe_name@);
    text_laws::texts_are_ordered_by_their_first_difference(x, y);
    text_laws::texts_are_ordered_by_their_first_difference(y, x);
}

/// The profile column sorts by the applied profile's id; a process without one
/// comes before all that have one.
pub proof fn the_profile_column_sorts_by_profile(
    a: &ProcessSnapshot,
    b: &ProcessSnapshot,
    desc: bool,
    r: Ordering,
)
    requires
        call_ensures(tree::compare_snapshots, (a, b, Some(ProcessSortKey::Profile), desc), r),
    ensures
        a.managed_profile is None && b.managed_profile is None ==> r == Ordering::Equal,
        a.managed_profile is None && b.managed_profile is Some ==> r == outcome(true, false, desc),
        a.managed_profile is Some && b.managed_profile is None ==> r == outcome(false, true, desc),
        a.managed_profile is Some && b.managed_profile is Some ==> r == outcome(
            text_laws::precedes(a.managed_profile->0@, b.managed_profile->0@),
            text_laws::precedes(b.managed_profile->0@, a.managed_profile->0@),
            desc,
        ),
{
    if let Some(x) = a.managed_profile {
        if let Some(y) = b.managed_profile {
            text_laws::texts_are_ordered_by_their_first_difference(x@, y@);
            text_laws::texts_are_ordered_by_their_first_difference(y@, x@);
        }
    }
}

proof fn lemma_collation(a: Option<String>, b: Option<String>)
    requires
        is_ordinary(a),
        is_ordinary(b),
    ensures
        text::text_leq(tree::collation(b), tree::collation(a)) == !text_before(a, b),
{
    let x = tree::collation(a);
    let y = tree::collation(b);
    text_laws::texts_are_ordered_by_their_first_difference(x, y);
    if a is Some && b is None {
        if x.len() > 0 {
            text_laws::lowering_moves_capitals_alone(a->0@, 0);
        }
        assert(text_laws::parts_at(x, y, 0));
    }
    if a is None && text_laws::precedes(x, y) {
        let k = choose|k: int| text_laws::parts_at(x, y, k);
        if b is Some {
            text_laws::lowering_moves_capitals_alone(b->0@, 0);
            if k == 1 {
                assert(x[0] == y[0]);
            }
        } else if k == 1 {
            assert(y.len() == 1);
        }
    }
}

/// The columns of version texts and of users sort by their own text, case
/// apart; a process without the text comes after all that have one.
pub proof fn text_columns_sort_by_their_texts(
    a: &ProcessSnapshot,
    b: &ProcessSnapshot,
    key: ProcessSortKey,
    desc: bool,
    r: Ordering,
)
    requires
        call_ensures(tree::compare_snapshots, (a, b, Some(key), desc), r),
        is_ordinary(a.description) && is_ordinary(b.description),
        is_ordinary(a.company) && is_ordinary(b.company),
        is_ordinary(a.user) && is_ordinary(b.user),
    ensures
        key == ProcessSortKey::Description ==> r == outcome(
            text_before(a.description, b.description),
            text_before(b.description, a.description),
            desc,
        ),
        key == ProcessSortKey::Company ==> r == outcome(
            text_before(a.company, b.company),
            text_before(b.company, a.company),
            desc,
        ),
        key == ProcessSortKey::User ==> r == outcome(
            text_before(a.user, b.user),
            text_before(b.user, a.user),
            desc,
        ),
{
    lemma_collation(a.description, b.description);
    lemma_collation(b.description, a.description);
    lemma_collation(a.company, b.company);
    lemma_collation(b.company, a.company);
    lemma_collation(a.user, b.user);
    lemma_collation(b.user, a.user);
    text::text_order_is_total(
        tree::collation(a.description),
        tree::collation(b.description),
        Seq::empty(),
    );
    text::text_order_is_total(tree::collation(a.company), tree::collation(b.company), Seq::empty());
    text::text_order_is_total(tree::collation(a.user), tree::collation(b.user), Seq::empty());
}

/// Without a column all processes tie.
pub proof fn no_column_tells_nothing_apart(
    a: &ProcessSnapshot,
    b: &ProcessSnapshot,
    desc: bool,
    r: Ordering,
)
    requires
        call_ensures(tree::compare_snapshots, (a, b, None, desc), r),
    ensures
        r == Ordering::Equal,
{
}

} // verus!
