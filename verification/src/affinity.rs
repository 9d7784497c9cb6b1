//! Processor masks and the dialog that edits them.

use vstd::prelude::*;

use crate::formatters;
use crate::ipc::{self, AdminCall, ProcessSnapshot, Request};
use crate::policy::{self, AffinityRule, CoreKind, CpuSelector, Policy};
use crate::text;

verus! {

// ── Masks ───────────────────────────────────────────────────────────────────

/// Whether `mask` holds exactly the processors `lo, .., hi - 1` below 64.
pub open spec fn is_range_mask(mask: u64, lo: nat, hi: nat) -> bool {
    forall|i: nat| i < 64 ==> #[trigger] formatters::has_cpu(mask, i) == (lo <= i < hi)
}

proof fn lemma_set_bit(mask: u64, i: u64, j: u64)
    requires
        i < 64,
        j < 64,
    ensures
        ((mask | (1u64 << i)) >> j) & 1 == 1 <==> (mask >> j) & 1 == 1 || j == i,
        ((mask & !(1u64 << i)) >> j) & 1 == 1 <==> (mask >> j) & 1 == 1 && j != i,
{
    assert(((mask | (1u64 << i)) >> j) & 1 == 1 <==> (mask >> j) & 1 == 1 || j == i)
        by (bit_vector)
        requires
            i < 64,
            j < 64,
    ;
    assert(((mask & !(1u64 << i)) >> j) & 1 == 1 <==> (mask >> j) & 1 == 1 && j != i)
        by (bit_vector)
        requires
            i < 64,
            j < 64,
    ;
}

/// Two masks with the same processors are the same mask.
pub proof fn masks_are_told_apart_by_their_processors(a: u64, b: u64)
    requires
        forall|i: nat| i < 64 ==> #[trigger] formatters::has_cpu(a, i) == formatters::has_cpu(b, i),
    ensures
        a == b,
{
    if a != b {
        let d = a ^ b;
        assert(d != 0) by (bit_vector)
            requires
                a != b,
                d == a ^ b,
        ;
        let i = lemma_some_bit(d, 64);
        assert(formatters::has_cpu(a, i as nat) == formatters::has_cpu(b, i as nat));
        assert(((a >> i) & 1 == 1) == ((b >> i) & 1 == 1) ==> (d >> i) & 1 == 0) by (bit_vector)
            requires
                d == a ^ b,
        ;
    }
}

/// A number below `2^n` that is not zero has a bit set.
proof fn lemma_some_bit(d: u64, n: u64) -> (i: u64)
    requires
        d != 0,
        n <= 64,
        n < 64 ==> d < (1u64 << n),
    ensures
        i < 64,
        (d >> i) & 1 == 1,
    decreases n,
{
    if n == 0 {
        assert(1u64 << 0 == 1) by (bit_vector);
        0
    } else {
        let m = (n - 1) as u64;
        if (d >> m) & 1 == 1 {
            m
        } else {
            assert(d < (1u64 << m)) by (bit_vector)
                requires
                    (d >> m) & 1 != 1,
                    n <= 64,
                    m + 1 == n,
                    n < 64 ==> d < (1u64 << n),
            ;
            lemma_some_bit(d, m)
        }
    }
}

/// The processors `lo, .., hi - 1`, as far as a mask can hold them.
pub fn range_mask(lo: usize, hi: usize) -> (r: u64)
    ensures
        is_range_mask(r, lo as nat, hi as nat),
{
    let mut m: u64 = 0;
    let mut i: usize = lo;
    assert forall|j: nat| j < 64 implies !#[trigger] formatters::has_cpu(0, j) by {
        let k = j as u64;
        assert((0u64 >> k) & 1 == 0) by (bit_vector);
    }
    while i < hi && i < 64
        invariant
            lo <= i,
            i <= hi || i == lo,
            forall|j: nat| j < 64 ==> #[trigger] formatters::has_cpu(m, j) == (lo <= j < i),
        decreases 64 - i,
    {
        let ghost m0 = m;
        m = m | (1u64 << (i as u64));
        proof {
            assert forall|j: nat| j < 64 implies #[trigger] formatters::has_cpu(m, j) == (lo <= j
                < i + 1) by {
                lemma_set_bit(m0, i as u64, j as u64);
                assert(formatters::has_cpu(m0, j) == (lo <= j < i));
            }
        }
        i = i + 1;
    }
    m
}

/// The number of processors to assume while it is unknown.
pub const FALLBACK_CPUS: usize = 32;

/// The number of processors, or the assumed one.
pub open spec fn cpus_or_fallback(count: nat) -> nat {
    if count == 0 {
        FALLBACK_CPUS as nat
    } else {
        count
    }
}

pub fn known_cpus(count: usize) -> (r: usize)
    ensures
        r == cpus_or_fallback(count as nat),
{
    if count == 0 {
        FALLBACK_CPUS
    } else {
        count
    }
}

/// Whether a selector stands for processor `i` on a machine with `n` of them.
/// The cache die is taken to be the lower half and the other the upper half;
/// selectors that need the real topology stand for every processor.
pub open spec fn selects(selector: CpuSelector, n: nat, i: nat) -> bool {
    i < n && match selector {
        CpuSelector::Mask(m) => formatters::has_cpu(m, i),
        CpuSelector::Kind(CoreKind::Cache) => i < n / 2,
        CpuSelector::Kind(CoreKind::Performance) => i >= n / 2,
        _ => true,
    }
}

/// Whether `mask` holds exactly what a selector stands for.
pub open spec fn is_mask_of(mask: u64, selector: CpuSelector, n: nat) -> bool {
    forall|i: nat| i < 64 ==> #[trigger] formatters::has_cpu(mask, i) == selects(selector, n, i)
}

/// The mask that a selector stands for.
pub fn selector_to_mask(selector: &CpuSelector, cpu_count: usize) -> (r: u64)
    ensures
        is_mask_of(r, *selector, cpus_or_fallback(cpu_count as nat)),
{
    let n: usize = known_cpus(cpu_count);
    let all: u64 = range_mask(0, n);
    match selector {
        CpuSelector::Mask(m) => {
            let r: u64 = *m & all;
            proof {
                assert forall|i: nat| i < 64 implies #[trigger] formatters::has_cpu(r, i)
                    == selects(*selector, n as nat, i) by {
                    let k = i as u64;
                    let mm = *m;
                    assert(((mm & all) >> k) & 1 == 1 <==> (mm >> k) & 1 == 1 && (all >> k) & 1
                        == 1) by (bit_vector);
                    assert(formatters::has_cpu(all, i) == (0 <= i < n));
                }
            }
            r
        },
        CpuSelector::Kind(CoreKind::Cache) => range_mask(0, n / 2),
        CpuSelector::Kind(CoreKind::Performance) => range_mask(n / 2, n),
        _ => all,
    }
}

/// How many of the first `n` processors a mask holds.
pub open spec fn cpu_tally(mask: u64, n: nat) -> nat
    decreases n,
{
    if n == 0 {
        0
    } else {
        cpu_tally(mask, (n - 1) as nat) + if formatters::has_cpu(mask, (n - 1) as nat) {
            1nat
        } else {
            0nat
        }
    }
}

/// The number of processors in a mask.
pub fn count_cpus(mask: u64) -> (r: u32)
    ensures
        r == cpu_tally(mask, 64),
{
    let mut count: u32 = 0;
    for i in 0..64u64
        invariant
            count == cpu_tally(mask, i as nat),
            count <= i,
    {
        if (mask >> i) & 1 == 1 {
            count = count + 1;
        }
    }
    count
}

// ── The dialog ──────────────────────────────────────────────────────────────

/// The custom-mask dialog.
#[derive(Debug, PartialEq, Eq)]
pub struct AffinityPicker {
    pub pid: u32,
    pub exe_name: String,
    /// Bit `i` set: processor `i` is allowed.
    pub mask: u64,
    /// Whether applying also writes a persistent rule.
    pub save_as_rule: bool,
    /// Whether there was a rule when the dialog was opened.
    pub rule_existed_at_open: bool,
}

/// A quick choice of the dialog.
#[derive(Debug, Clone, Copy, PartialEq, Eq, Structural)]
pub enum Preset {
    CacheDie,
    OtherDie,
    AllCores,
    Invert,
}

/// The button that ended a frame of the dialog.
#[derive(Debug, Clone, Copy, PartialEq, Eq, Structural)]
pub enum PickerClick {
    Apply,
    RemoveRule,
    Cancel,
}

/// Whether a selector means any processor that a mask can hold.
pub open spec fn selects_any(selector: CpuSelector, cpus: nat) -> bool {
    exists|i: nat| i < 64 && #[trigger] selects(selector, cpus, i)
}

/// The first mask of a dialog: the rule's, else the process's own, else all. A
/// rule that means no processor counts as none.
pub open spec fn first_mask_is(
    mask: u64,
    rule: Option<CpuSelector>,
    live: Option<u64>,
    cpus: nat,
) -> bool {
    if rule is Some && selects_any(rule->0, cpus) {
        is_mask_of(mask, rule->0, cpus)
    } else {
        mask == (match live {
            Some(m) => m,
            None => u64::MAX,
        })
    }
}

/// The affinity mask of the first process with this pid.
pub open spec fn live_mask(rows: Seq<ProcessSnapshot>, pid: u32) -> Option<u64>
    decreases rows.len(),
{
    if rows.len() == 0 {
        None
    } else if rows[0].pid == pid {
        Some(rows[0].affinity_mask)
    } else {
        live_mask(rows.drop_first(), pid)
    }
}

fn find_live_mask(rows: &[ProcessSnapshot], pid: u32) -> (r: Option<u64>)
    ensures
        r == live_mask(rows@, pid),
{
    assert(rows@.skip(0) =~= rows@);
    for i in 0..rows.len()
        invariant
            live_mask(rows@.skip(i as int), pid) == live_mask(rows@, pid),
    {
        assert(rows@.skip(i as int).drop_first() =~= rows@.skip(i + 1));
        if rows[i].pid == pid {
            return Some(rows[i].affinity_mask);
        }
    }
    None
}

impl AffinityPicker {
    /// Opens the dialog for a process.
    pub fn open(
        pid: u32,
        exe_name: String,
        policy: Option<&Policy>,
        rows: &[ProcessSnapshot],
        cpu_count: usize,
    ) -> (r: AffinityPicker)
        ensures
            is_opened(r, pid, exe_name, policy, rows@, cpu_count as nat),
    {
        let rule = match policy {
            Some(p) => p.affinity_rule_for(exe_name.as_str()),
            None => None,
        };
        let preset: u64 = match rule {
            Some(selector) => selector_to_mask(&selector, cpu_count),
            None => 0,
        };
        let mask: u64 = if preset != 0 {
            preset
        } else {
            match find_live_mask(rows, pid) {
                Some(m) => m,
                None => u64::MAX,
            }
        };
        proof {
            if let Some(selector) = rule {
                let n = cpus_or_fallback(cpu_count as nat);
                if preset != 0 {
                    let i = lemma_some_bit(preset, 64);
                    assert(formatters::has_cpu(preset, i as nat));
                    assert(selects(selector, n, i as nat));
                } else if selects_any(selector, n) {
                    let i = choose|i: nat| i < 64 && #[trigger] selects(selector, n, i);
                    let k = i as u64;
                    assert((0u64 >> k) & 1 == 0) by (bit_vector);
                    assert(formatters::has_cpu(preset, i));
                }
            }
        }
        let existed = rule.is_some();
        AffinityPicker {
            pid,
            exe_name,
            mask,
            save_as_rule: existed,
            rule_existed_at_open: existed,
        }
    }

    /// Takes a quick choice over. `Invert` flips every processor of the
    /// machine and keeps bits beyond them.
    pub fn preset(&mut self, preset: Preset, cpu_count: usize)
        ensures
            *final(self) == (AffinityPicker { mask: final(self).mask, ..*old(self) }),
            forall|i: nat|
                i < 64 ==> #[trigger] formatters::has_cpu(final(self).mask, i) == preset_bit(
                    old(self).mask,
                    preset,
                    cpus_or_fallback(cpu_count as nat),
                    i,
                ),
    {
        let n: usize = known_cpus(cpu_count);
        let half: usize = n / 2;
        let before = self.mask;
        match preset {
            Preset::CacheDie => {
                self.mask = range_mask(0, half);
            },
            Preset::OtherDie => {
                self.mask = range_mask(half, n);
            },
            Preset::AllCores => {
                self.mask = range_mask(0, n);
            },
            Preset::Invert => {
                let all = range_mask(0, n);
                self.mask = before ^ all;
                proof {
                    assert forall|i: nat| i < 64 implies #[trigger] formatters::has_cpu(
                        before ^ all,
                        i,
                    ) == (formatters::has_cpu(before, i) != (i < n)) by {
                        let k = i as u64;
                        assert(((before ^ all) >> k) & 1 == 1 <==> ((before >> k) & 1 == 1) != ((
                        all >> k) & 1 == 1)) by (bit_vector);
                        assert(formatters::has_cpu(all, i) == (0 <= i < n));
                    }
                }
            },
        }
    }

    /// Checks or clears the box of processor `i`. Boxes past the last bit of a
    /// mask share that bit.
    pub fn set_cpu(&mut self, i: usize, on: bool)
        ensures
            *final(self) == (AffinityPicker { mask: final(self).mask, ..*old(self) }),
            forall|j: nat|
                j < 64 ==> #[trigger] formatters::has_cpu(final(self).mask, j) == (if j
                    == box_bit(i as nat) {
                    on
                } else {
                    formatters::has_cpu(old(self).mask, j)
                }),
    {
        let b: u64 = if i < 63 {
            i as u64
        } else {
            63
        };
        let before = self.mask;
        if on {
            self.mask = before | (1u64 << b);
        } else {
            self.mask = before & !(1u64 << b);
        }
        proof {
            assert forall|j: nat| j < 64 implies #[trigger] formatters::has_cpu(self.mask, j) == (
            if j == box_bit(i as nat) {
                on
            } else {
                formatters::has_cpu(before, j)
            }) by {
                lemma_set_bit(before, b, j as u64);
            }
        }
    }

    /// Whether the box of processor `i` is checked.
    pub fn shows_cpu(&self, i: usize) -> (r: bool)
        ensures
            r == formatters::has_cpu(self.mask, box_bit(i as nat)),
    {
        let b: u64 = if i < 63 {
            i as u64
        } else {
            63
        };
        (self.mask >> b) & 1 == 1
    }

    /// Whether the mask can be applied: it must hold some processor.
    pub fn may_apply(&self) -> (r: bool)
        ensures
            r == (self.mask != 0),
    {
        self.mask != 0
    }

    /// The line below the boxes.
    pub fn summary(&self) -> (r: String)
        ensures
            r@ == summary_text(self.mask),
    {
        let digits = text::format_in_base(self.mask, 16);
        let upper = text::to_upper(digits.as_str());
        let padded = text::pad_zeros(upper, 16);
        let mut out = "Mask: 0x".to_owned();
        out.append(padded.as_str());
        out.append("  (");
        let count = text::format_decimal(count_cpus(self.mask) as u64);
        out.append(count.as_str());
        out.append(" cores)");
        out
    }

    /// What the button asks of the service. Every button closes the dialog.
    pub fn resolve(&self, click: PickerClick) -> (r: Option<AdminCall>)
        ensures
            match click {
                PickerClick::Apply => r is Some && if self.save_as_rule {
                    ipc::asks_for_rule(
                        r->0,
                        self.exe_name@,
                        CpuSelector::Mask(self.mask),
                        "save affinity rule"@,
                    )
                } else {
                    ipc::asks(
                        r->0,
                        Request::SetProcessAffinity {
                            pid: self.pid,
                            selector: CpuSelector::Mask(self.mask),
                        },
                        "set affinity"@,
                    )
                },
                PickerClick::RemoveRule => r is Some && ipc::asks(
                    r->0,
                    Request::DeleteAffinityRule { exe_name: self.exe_name },
                    "delete affinity rule"@,
                ),
                PickerClick::Cancel => r is None,
            },
    {
        match click {
            PickerClick::Apply => if self.save_as_rule {
                Some(
                    AdminCall {
                        request: Request::SetAffinityRule {
                            rule: AffinityRule {
                                exe_name: self.exe_name.clone(),
                                selector: CpuSelector::Mask(self.mask),
                                note: String::new(),
                            },
                            apply_to_live: true,
                        },
                        label: "save affinity rule",
                    },
                )
            } else {
                Some(
                    AdminCall {
                        request: Request::SetProcessAffinity {
                            pid: self.pid,
                            selector: CpuSelector::Mask(self.mask),
                        },
                        label: "set affinity",
                    },
                )
            },
            PickerClick::RemoveRule => Some(
                AdminCall {
                    request: Request::DeleteAffinityRule { exe_name: self.exe_name.clone() },
                    label: "delete affinity rule",
                },
            ),
            PickerClick::Cancel => None,
        }
    }
}

/// Whether this is the dialog as it opens for a process.
pub open spec fn is_opened(
    picker: AffinityPicker,
    pid: u32,
    exe_name: String,
    policy: Option<&Policy>,
    rows: Seq<ProcessSnapshot>,
    cpu_count: nat,
) -> bool {
    let rule = rule_selector(policy, exe_name@);
    &&& picker.pid == pid
    &&& picker.exe_name == exe_name
    &&& first_mask_is(picker.mask, rule, live_mask(rows, pid), cpus_or_fallback(cpu_count))
    &&& picker.save_as_rule == (rule is Some)
    &&& picker.rule_existed_at_open == (rule is Some)
}

/// The selector of the policy's rule for an executable, if there is one.
pub open spec fn rule_selector(policy: Option<&Policy>, exe: Seq<char>) -> Option<CpuSelector> {
    match policy {
        Some(p) => policy::affinity_selector_for(p@.affinity_rules, exe),
        None => None,
    }
}

/// The mask bit that the box of processor `i` stands for.
pub open spec fn box_bit(i: nat) -> nat {
    if i < 63 {
        i
    } else {
        63
    }
}

/// Processor `i` after a quick choice on a machine with `n` processors.
pub open spec fn preset_bit(mask: u64, preset: Preset, n: nat, i: nat) -> bool {
    match preset {
        Preset::CacheDie => i < n / 2,
        Preset::OtherDie => n / 2 <= i < n,
        Preset::AllCores => i < n,
        Preset::Invert => formatters::has_cpu(mask, i) != (i < n),
    }
}

/// Inverting twice gives the mask back.
pub proof fn inverting_twice_is_identity(mask: u64, once: u64, twice: u64, n: nat)
    requires
        forall|i: nat|
            i < 64 ==> #[trigger] formatters::has_cpu(once, i) == preset_bit(
                mask,
                Preset::Invert,
                n,
                i,
            ),
        forall|i: nat|
            i < 64 ==> #[trigger] formatters::has_cpu(twice, i) == preset_bit(
                once,
                Preset::Invert,
                n,
                i,
            ),
    ensures
        twice == mask,
{
    assert forall|i: nat| i < 64 implies #[trigger] formatters::has_cpu(twice, i)
        == formatters::has_cpu(mask, i) by {
        assert(formatters::has_cpu(once, i) == preset_bit(mask, Preset::Invert, n, i));
    }
    masks_are_told_apart_by_their_processors(twice, mask);
}

/// The two halves of the machine share no processor and leave none out.
pub proof fn dies_split_the_machine(mask: u64, n: nat, i: nat)
    requires
        i < n,
    ensures
        preset_bit(mask, Preset::CacheDie, n, i) != preset_bit(mask, Preset::OtherDie, n, i),
{
}

/// The text of the dialog's summary line.
pub open spec fn summary_text(mask: u64) -> Seq<char> {
    "Mask: 0x"@ + text::zero_padded(text::upper(text::numeral(mask as nat, 16)), 16) + "  ("@
        + text::decimal(cpu_tally(mask, 64)) + " cores)"@
}

} // verus!
