//! Laws of processor masks and of the dialog that edits them, bit by bit.

use vstd::prelude::*;

use crate::affinity::{self, AffinityPicker, Preset};
use crate::formatters;
use crate::ipc::ProcessSnapshot;
use crate::policy::{self, CoreKind, CpuSelector, Policy};
use crate::text;

verus! {

/// Whether bit `i` of a mask is set.
pub open spec fn bit(mask: u64, i: u64) -> bool {
    (mask >> i) & 1 == 1
}

/// The number of processors that is gone by: 32 while it is unknown.
pub open spec fn machine(count: usize) -> int {
    if count == 0 {
        32
    } else {
        count as int
    }
}

proof fn lemma_bit(mask: u64, i: u64)
    requires
        i < 64,
    ensures
        formatters::has_cpu(mask, i as nat) == bit(mask, i),
{
}

// ── Masks ───────────────────────────────────────────────────────────────────

/// A range holds its processors and no others.
pub proof fn ranges_hold_their_processors(lo: usize, hi: usize, r: u64, i: u64)
    requires
        call_ensures(affinity::range_mask, (lo, hi), r),
        i < 64,
    ensures
        bit(r, i) <==> lo <= i < hi,
{
    lemma_bit(r, i);
}

/// An explicit selector means its own bits as far as the machine goes, the
/// cache die is the lower half, the performance cores are the upper half, and
/// every other selector is the whole machine.
pub proof fn selectors_mean_their_processors(
    selector: &CpuSelector,
    cpu_count: usize,
    r: u64,
    i: u64,
)
    requires
        call_ensures(affinity::selector_to_mask, (selector, cpu_count), r),
        i < 64,
    ensures
        selector matches CpuSelector::Mask(m) ==> (bit(r, i) <==> bit(*m, i) && i < machine(
            cpu_count,
        )),
        selector matches CpuSelector::Kind(CoreKind::Cache) ==> (bit(r, i) <==> i < machine(
            cpu_count,
        ) / 2),
        selector matches CpuSelector::Kind(CoreKind::Performance) ==> (bit(r, i) <==> machine(
            cpu_count,
        ) / 2 <= i < machine(cpu_count)),
        selector is All || selector is Ccd || selector is CcdNot || selector is TopRanked
            || *selector == CpuSelector::Kind(CoreKind::Efficiency) ==> (bit(r, i) <==> i < machine(
            cpu_count,
        )),
{
    lemma_bit(r, i);
    if let CpuSelector::Mask(m) = selector {
        lemma_bit(*m, i);
    }
    assert(formatters::has_cpu(r, i as nat) == affinity::selects(
        *selector,
        affinity::cpus_or_fallback(cpu_count as nat),
        i as nat,
    ));
}

/// The cache die and the performance cores share no processor, and together
/// they are the machine.
pub proof fn the_dies_make_up_the_machine(
    cpu_count: usize,
    cache: u64,
    performance: u64,
    all: u64,
    i: u64,
)
    requires
        call_ensures(
            affinity::selector_to_mask,
            (&CpuSelector::Kind(CoreKind::Cache), cpu_count),
            cache,
        ),
        call_ensures(
            affinity::selector_to_mask,
            (&CpuSelector::Kind(CoreKind::Performance), cpu_count),
            performance,
        ),
        call_ensures(affinity::selector_to_mask, (&CpuSelector::All, cpu_count), all),
        i < 64,
    ensures
        bit(all, i) <==> bit(cache, i) || bit(performance, i),
        !(bit(cache, i) && bit(performance, i)),
{
    selectors_mean_their_processors(&CpuSelector::Kind(CoreKind::Cache), cpu_count, cache, i);
    selectors_mean_their_processors(
        &CpuSelector::Kind(CoreKind::Performance),
        cpu_count,
        performance,
        i,
    );
    selectors_mean_their_processors(&CpuSelector::All, cpu_count, all, i);
}

/// An unknown number of processors is taken to be 32; a known one is believed.
pub proof fn unknown_machines_have_thirty_two(count: usize, r: usize)
    requires
        call_ensures(affinity::known_cpus, (count,), r),
    ensures
        r == machine(count),
{
}

proof fn lemma_tally_of_nothing(n: nat)
    requires
        n <= 64,
    ensures
        affinity::cpu_tally(0, n) == 0,
    decreases n,
{
    if n > 0 {
        lemma_tally_of_nothing((n - 1) as nat);
        let k = (n - 1) as u64;
        assert((0u64 >> k) & 1 == 0) by (bit_vector);
    }
}

proof fn lemma_tally_of_one_more(small: u64, big: u64, i: u64, n: nat)
    requires
        i < 64,
        n <= 64,
        !bit(small, i),
        bit(big, i),
        forall|j: u64| j < 64 && j != i ==> #[trigger] bit(big, j) == bit(small, j),
    ensures
        affinity::cpu_tally(big, n) == affinity::cpu_tally(small, n) + if i < n {
            1nat
        } else {
            0nat
        },
    decreases n,
{
    if n > 0 {
        let k = (n - 1) as u64;
        lemma_tally_of_one_more(small, big, i, (n - 1) as nat);
        lemma_bit(small, k);
        lemma_bit(big, k);
        assert(k != i ==> bit(big, k) == bit(small, k));
    }
}

/// An empty mask counts nothing, and every processor more counts one more.
pub proof fn every_processor_counts_once(
    small: u64,
    big: u64,
    i: u64,
    fewer: u32,
    more: u32,
    none: u32,
)
    requires
        call_ensures(affinity::count_cpus, (small,), fewer),
        call_ensures(affinity::count_cpus, (big,), more),
        call_ensures(affinity::count_cpus, (0u64,), none),
        i < 64,
        !bit(small, i),
        bit(big, i),
        forall|j: u64| j < 64 && j != i ==> #[trigger] bit(big, j) == bit(small, j),
    ensures
        none == 0,
        more == fewer + 1,
{
    lemma_tally_of_nothing(64);
    lemma_tally_of_one_more(small, big, i, 64);
}

// ── The dialog ──────────────────────────────────────────────────────────────

/// The dialog is about the process it was opened for. It offers to keep a rule
/// exactly where there is one.
pub proof fn the_dialog_is_about_its_process(
    pid: u32,
    exe_name: String,
    policy: Option<&Policy>,
    rows: &[ProcessSnapshot],
    cpu_count: usize,
    r: AffinityPicker,
)
    requires
        call_ensures(AffinityPicker::open, (pid, exe_name, policy, rows, cpu_count), r),
    ensures
        r.pid == pid,
        r.exe_name@ == exe_name@,
        r.save_as_rule == r.rule_existed_at_open,
        r.rule_existed_at_open <==> policy is Some && exists|i: int|
            0 <= i < policy->0.affinity_rules@.len() && text::lower(
                (#[trigger] policy->0.affinity_rules@[i]).exe_name@,
            ) == text::lower(exe_name@),
{
    if policy is Some {
        let p = policy->0;
        let views = p@.affinity_rules;
        assert(views.len() == p.affinity_rules@.len());
        assert forall|i: int| 0 <= i < p.affinity_rules@.len() implies (
        #[trigger] p.affinity_rules@[i])@ == views[i] by {}
        policy::affinity_selector_found_iff_rule(views, exe_name@);
        if policy::has_affinity_rule(views, exe_name@) {
            let i = choose|i: int|
                0 <= i < views.len() && policy::is_rule_for(#[trigger] views[i], exe_name@);
            assert(p.affinity_rules@[i]@ == views[i]);
        }
        assert forall|i: int|
            0 <= i < p.affinity_rules@.len() && text::lower(
                (#[trigger] p.affinity_rules@[i]).exe_name@,
            ) == text::lower(exe_name@) implies policy::has_affinity_rule(views, exe_name@) by {
            assert(p.affinity_rules@[i]@ == views[i]);
            assert(policy::is_rule_for(views[i], exe_name@));
        }
    }
}

proof fn lemma_live_mask(rows: Seq<ProcessSnapshot>, pid: u32, k: int)
    requires
        0 <= k < rows.len(),
        rows[k].pid == pid,
        forall|j: int| 0 <= j < k ==> (#[trigger] rows[j]).pid != pid,
    ensures
        affinity::live_mask(rows, pid) == Some(rows[k].affinity_mask),
    decreases k,
{
    if k > 0 {
        let rest = rows.drop_first();
        assert(rows[0].pid != pid);
        assert forall|j: int| 0 <= j < k - 1 implies (#[trigger] rest[j]).pid != pid by {
            assert(rest[j] == rows[j + 1]);
        }
        lemma_live_mask(rest, pid, k - 1);
    }
}

proof fn lemma_no_live_mask(rows: Seq<ProcessSnapshot>, pid: u32)
    requires
        forall|j: int| 0 <= j < rows.len() ==> (#[trigger] rows[j]).pid != pid,
    ensures
        affinity::live_mask(rows, pid) is None,
    decreases rows.len(),
{
    if rows.len() > 0 {
        let rest = rows.drop_first();
        assert(rows[0].pid != pid);
        assert forall|j: int| 0 <= j < rest.len() implies (#[trigger] rest[j]).pid != pid by {
            assert(rest[j] == rows[j + 1]);
        }
        lemma_no_live_mask(rest, pid);
    }
}

/// Without a rule the dialog starts from the mask that the process has, or from
/// every bit where the process is not listed.
pub proof fn the_dialog_starts_from_the_live_mask(
    pid: u32,
    exe_name: String,
    policy: Option<&Policy>,
    rows: &[ProcessSnapshot],
    cpu_count: usize,
    r: AffinityPicker,
)
    requires
        call_ensures(AffinityPicker::open, (pid, exe_name, policy, rows, cpu_count), r),
        !r.rule_existed_at_open,
    ensures
        forall|k: int|
            0 <= k < rows@.len() && (#[trigger] rows@[k]).pid == pid && (forall|j: int|
                0 <= j < k ==> (#[trigger] rows@[j]).pid != pid) ==> r.mask
                == rows@[k].affinity_mask,
        (forall|j: int| 0 <= j < rows@.len() ==> (#[trigger] rows@[j]).pid != pid) ==> r.mask
            == 0xffff_ffff_ffff_ffff,
{
    assert forall|k: int|
        0 <= k < rows@.len() && (#[trigger] rows@[k]).pid == pid && (forall|j: int|
            0 <= j < k ==> (#[trigger] rows@[j]).pid != pid) implies r.mask
        == rows@[k].affinity_mask by {
        lemma_live_mask(rows@, pid, k);
    }
    if forall|j: int| 0 <= j < rows@.len() ==> (#[trigger] rows@[j]).pid != pid {
        lemma_no_live_mask(rows@, pid);
    }
}

/// With a rule the dialog starts from what the rule means on this machine,
/// unless that is nothing at all.
pub proof fn the_dialog_starts_from_the_rule(
    pid: u32,
    exe_name: String,
    policy: Option<&Policy>,
    rows: &[ProcessSnapshot],
    cpu_count: usize,
    r: AffinityPicker,
    exe: &str,
    selector: CpuSelector,
    meant: u64,
)
    requires
        call_ensures(AffinityPicker::open, (pid, exe_name, policy, rows, cpu_count), r),
        policy is Some,
        call_ensures(
            Policy::affinity_rule_for,
            (policy->0, exe),
            Some(selector),
        ),
        exe@ == exe_name@,
        call_ensures(affinity::selector_to_mask, (&selector, cpu_count), meant),
        meant != 0,
    ensures
        r.mask == meant,
        r.save_as_rule,
{
    let n = affinity::cpus_or_fallback(cpu_count as nat);
    let i = some_bit(meant);
    lemma_bit(meant, i);
    assert(affinity::selects(selector, n, i as nat));
    assert forall|j: nat| j < 64 implies #[trigger] formatters::has_cpu(r.mask, j)
        == formatters::has_cpu(meant, j) by {
        assert(formatters::has_cpu(meant, j) == affinity::selects(selector, n, j));
    }
    affinity::masks_are_told_apart_by_their_processors(r.mask, meant);
}

/// A rule that means no processor of this machine counts as none: the dialog
/// starts from the mask that the process has, or from every bit.
pub proof fn rules_that_mean_nothing_count_as_none(
    pid: u32,
    exe_name: String,
    policy: Option<&Policy>,
    rows: &[ProcessSnapshot],
    cpu_count: usize,
    r: AffinityPicker,
    exe: &str,
    selector: CpuSelector,
    meant: u64,
)
    requires
        call_ensures(AffinityPicker::open, (pid, exe_name, policy, rows, cpu_count), r),
        policy is Some,
        call_ensures(
            Policy::affinity_rule_for,
            (policy->0, exe),
            Some(selector),
        ),
        exe@ == exe_name@,
        call_ensures(affinity::selector_to_mask, (&selector, cpu_count), meant),
        meant == 0,
    ensures
        r.save_as_rule,
        forall|k: int|
            0 <= k < rows@.len() && (#[trigger] rows@[k]).pid == pid && (forall|j: int|
                0 <= j < k ==> (#[trigger] rows@[j]).pid != pid) ==> r.mask
                == rows@[k].affinity_mask,
        (forall|j: int| 0 <= j < rows@.len() ==> (#[trigger] rows@[j]).pid != pid) ==> r.mask
            == 0xffff_ffff_ffff_ffff,
{
    let n = affinity::cpus_or_fallback(cpu_count as nat);
    assert forall|j: nat| j < 64 implies !#[trigger] affinity::selects(selector, n, j) by {
        let k = j as u64;
        assert((0u64 >> k) & 1 == 0) by (bit_vector);
        assert(formatters::has_cpu(meant, j) == affinity::selects(selector, n, j));
    }
    assert forall|k: int|
        0 <= k < rows@.len() && (#[trigger] rows@[k]).pid == pid && (forall|j: int|
            0 <= j < k ==> (#[trigger] rows@[j]).pid != pid) implies r.mask
        == rows@[k].affinity_mask by {
        lemma_live_mask(rows@, pid, k);
    }
    if forall|j: int| 0 <= j < rows@.len() ==> (#[trigger] rows@[j]).pid != pid {
        lemma_no_live_mask(rows@, pid);
    }
}

proof fn some_bit(mask: u64) -> (i: u64)
    requires
        mask != 0,
    ensures
        i < 64,
        bit(mask, i),
{
    if forall|i: u64| i < 64 ==> !#[trigger] bit(mask, i) {
        assert forall|j: nat| j < 64 implies #[trigger] formatters::has_cpu(mask, j)
            == formatters::has_cpu(0, j) by {
            let k = j as u64;
            assert(!bit(mask, k));
            assert((0u64 >> k) & 1 == 0) by (bit_vector);
        }
        affinity::masks_are_told_apart_by_their_processors(mask, 0);
    }
    choose|i: u64| i < 64 && bit(mask, i)
}

/// Each quick choice means its processors; inverting flips those of the machine
/// and keeps the bits beyond. Nothing but the mask changes.
pub proof fn quick_choices_mean_their_processors(
    picker: &mut AffinityPicker,
    preset: Preset,
    cpu_count: usize,
    i: u64,
)
    requires
        call_ensures(AffinityPicker::preset, (picker, preset, cpu_count), ()),
        i < 64,
    ensures
        preset is CacheDie ==> (bit(final(picker).mask, i) <==> i < machine(cpu_count) / 2),
        preset is OtherDie ==> (bit(final(picker).mask, i) <==> machine(cpu_count) / 2 <= i
            < machine(cpu_count)),
        preset is AllCores ==> (bit(final(picker).mask, i) <==> i < machine(cpu_count)),
        preset is Invert && i < machine(cpu_count) ==> bit(final(picker).mask, i) == !bit(
            old(picker).mask,
            i,
        ),
        preset is Invert && i >= machine(cpu_count) ==> bit(final(picker).mask, i) == bit(
            old(picker).mask,
            i,
        ),
        final(picker).pid == old(picker).pid,
        final(picker).exe_name == old(picker).exe_name,
        final(picker).save_as_rule == old(picker).save_as_rule,
        final(picker).rule_existed_at_open == old(picker).rule_existed_at_open,
{
    lemma_bit(final(picker).mask, i);
    lemma_bit(old(picker).mask, i);
    assert(formatters::has_cpu(final(picker).mask, i as nat) == affinity::preset_bit(
        old(picker).mask,
        preset,
        affinity::cpus_or_fallback(cpu_count as nat),
        i as nat,
    ));
}

/// A box shows what it was last set to, and no other box moves. Boxes from the
/// sixty-fourth on share the last bit.
pub proof fn boxes_show_what_they_were_set_to(
    picker: &mut AffinityPicker,
    i: usize,
    on: bool,
    j: usize,
    before: bool,
    after: bool,
)
    requires
        call_ensures(AffinityPicker::shows_cpu, (old(picker), j), before),
        call_ensures(AffinityPicker::set_cpu, (picker, i, on), ()),
        call_ensures(AffinityPicker::shows_cpu, (final(picker), j), after),
    ensures
        i == j || (i >= 63 && j >= 63) ==> after == on,
        i != j && (i < 63 || j < 63) ==> after == before,
        j < 64 ==> before == bit(old(picker).mask, j as u64),
        final(picker).pid == old(picker).pid,
        final(picker).exe_name == old(picker).exe_name,
        final(picker).save_as_rule == old(picker).save_as_rule,
        final(picker).rule_existed_at_open == old(picker).rule_existed_at_open,
{
    let b = affinity::box_bit(j as nat);
    assert(formatters::has_cpu(final(picker).mask, b) == (if b == affinity::box_bit(i as nat) {
        on
    } else {
        formatters::has_cpu(old(picker).mask, b)
    }));
}

/// A mask can be applied exactly when some processor is in it.
pub proof fn empty_masks_are_not_applied(picker: &AffinityPicker, r: bool)
    requires
        call_ensures(AffinityPicker::may_apply, (picker,), r),
    ensures
        r <==> exists|i: u64| i < 64 && #[trigger] bit(picker.mask, i),
{
    if picker.mask != 0 {
        let i = some_bit(picker.mask);
        assert(bit(picker.mask, i));
    } else {
        assert forall|i: u64| i < 64 implies !#[trigger] bit(picker.mask, i) by {
            assert((0u64 >> i) & 1 == 0) by (bit_vector);
        }
    }
}

/// The summary gives the mask in sixteen hexadecimal digits and the number of
/// its processors.
pub proof fn the_summary_counts_the_mask(picker: &AffinityPicker, r: String, count: u32)
    requires
        call_ensures(AffinityPicker::summary, (picker,), r),
        call_ensures(affinity::count_cpus, (picker.mask,), count),
    ensures
        r@ == "Mask: 0x"@ + text::zero_padded(
            text::upper(text::numeral(picker.mask as nat, 16)),
            16,
        ) + "  ("@ + text::decimal(count as nat) + " cores)"@,
{
}

} // verus!
