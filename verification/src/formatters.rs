//! Labels and tooltips: byte counts, affinity masks, core loads, profile ids.

use vstd::prelude::*;

use crate::ipc::StatusSnapshot;
use crate::sorting;
use crate::text;
use crate::theme::Tone;

verus! {

// ── Byte counts ─────────────────────────────────────────────────────────────

pub const KIB: u64 = 0x400;

pub const MIB: u64 = 0x10_0000;

pub const GIB: u64 = 0x4000_0000;

/// `num / den` rounded to the nearest integer, ties to even.
pub open spec fn half_even(num: int, den: int) -> int {
    let low = num / den;
    let twice = 2 * (num % den);
    if twice < den || (twice == den && low % 2 == 0) {
        low
    } else {
        low + 1
    }
}

/// The distance between neighbouring double-precision values at `b`: 1 below
/// 2^53, doubling with every further bit.
pub open spec fn spacing(b: nat) -> nat
    decreases b,
{
    if b < 0x20_0000_0000_0000 {
        1
    } else {
        2 * spacing(b / 2)
    }
}

/// `b` rounded to double precision.
pub open spec fn as_double(b: nat) -> int {
    half_even(b as int, spacing(b) as int) * spacing(b)
}

/// Tenths of a unit of `1 << 30` bytes, rounded to nearest, ties to even,
/// after rounding the count to double precision.
pub open spec fn gib_tenths(b: nat) -> int {
    half_even(10 * as_double(b), 0x4000_0000)
}

/// A byte count in the largest unit that it fills: gibibytes with one decimal,
/// else whole mebibytes, kibibytes or bytes.
pub open spec fn byte_text(b: nat) -> Seq<char> {
    if b >= GIB {
        text::decimal((gib_tenths(b) / 10) as nat) + seq!['.'] + text::decimal(
            (gib_tenths(b) % 10) as nat,
        ) + " GB"@
    } else if b >= MIB {
        text::decimal(b / (MIB as nat)) + " MB"@
    } else if b >= KIB {
        text::decimal(b / (KIB as nat)) + " KB"@
    } else {
        text::decimal(b) + " B"@
    }
}

proof fn lemma_half_even(num: int, den: int)
    requires
        num >= 0,
        den > 0,
    ensures
        0 <= half_even(num, den) <= num / den + 1,
        half_even(num, den) * den <= num + den,
{
    let low = num / den;
    assert(low >= 0 && low * den <= num) by (nonlinear_arith)
        requires
            num >= 0,
            den > 0,
            low == num / den,
    ;
    assert((low + 1) * den == low * den + den) by (nonlinear_arith);
}

fn round_half_even(num: u128, den: u128) -> (r: u128)
    requires
        0 < den,
        den <= 0x1_0000_0000_0000,
        num < 0x1_0000_0000_0000_0000_0000_0000,
    ensures
        r == half_even(num as int, den as int),
        r <= num + 1,
{
    proof {
        lemma_half_even(num as int, den as int);
        assert(num / den <= num) by (nonlinear_arith)
            requires
                den >= 1,
        ;
        assert(num % den < den);
    }
    let low: u128 = num / den;
    let twice: u128 = 2 * (num % den);
    if twice < den || (twice == den && low % 2 == 0) {
        low
    } else {
        low + 1
    }
}

fn double_spacing(b: u64) -> (r: u64)
    ensures
        r == spacing(b as nat),
        1 <= r <= 0x1000,
{
    let mut unit: u64 = 1;
    let mut rest: u64 = b;
    while rest >= 0x20_0000_0000_0000
        invariant
            unit * spacing(rest as nat) == spacing(b as nat),
            1 <= unit <= 0x1000,
            rest * unit <= b,
        decreases rest,
    {
        proof {
            assert(unit < 0x800) by (nonlinear_arith)
                requires
                    rest >= 0x20_0000_0000_0000,
                    rest * unit <= u64::MAX,
            ;
            assert((rest / 2) * (2 * unit) <= rest * unit) by (nonlinear_arith)
                requires
                    unit >= 1,
                    rest >= 0,
            ;
            assert((2 * unit) * spacing((rest / 2) as nat) == unit * (2 * spacing(
                (rest / 2) as nat,
            ))) by (nonlinear_arith);
        }
        rest = rest / 2;
        unit = 2 * unit;
    }
    assert(spacing(rest as nat) == 1);
    assert(unit * 1 == unit);
    unit
}

/// Human-readable byte count.
pub fn format_bytes(b: u64) -> (r: String)
    ensures
        r@ == byte_text(b as nat),
{
    if b >= GIB {
        let unit: u64 = double_spacing(b);
        proof {
            lemma_half_even(b as int, unit as int);
        }
        let count: u128 = round_half_even(b as u128, unit as u128);
        proof {
            assert(count * unit <= b + unit);
        }
        let value: u128 = count * (unit as u128);
        proof {
            lemma_half_even(10 * value, 0x4000_0000);
        }
        let tenths: u128 = round_half_even(10 * value, 0x4000_0000);
        let whole: u64 = (tenths / 10) as u64;
        let part: u64 = (tenths % 10) as u64;
        let mut out = text::format_decimal(whole);
        out.push('.');
        let decimals = text::format_decimal(part);
        out.append(decimals.as_str());
        out.append(" GB");
        assert(out@ =~= byte_text(b as nat));
        out
    } else if b >= MIB {
        let mut out = text::format_decimal(b / MIB);
        out.append(" MB");
        out
    } else if b >= KIB {
        let mut out = text::format_decimal(b / KIB);
        out.append(" KB");
        out
    } else {
        let mut out = text::format_decimal(b);
        out.append(" B");
        out
    }
}

/// Whole mebibytes, rounded to nearest, ties to even, after rounding the count
/// to double precision.
pub open spec fn whole_mib(b: nat) -> int {
    half_even(as_double(b), 0x10_0000)
}

/// Rounds a byte count to whole mebibytes.
pub fn round_to_mib(b: u64) -> (r: u64)
    ensures
        r == whole_mib(b as nat),
{
    let unit: u64 = double_spacing(b);
    proof {
        lemma_half_even(b as int, unit as int);
    }
    let count: u128 = round_half_even(b as u128, unit as u128);
    proof {
        assert(count * unit <= b + unit);
    }
    let value: u128 = count * (unit as u128);
    proof {
        lemma_half_even(value as int, 0x10_0000);
    }
    round_half_even(value, 0x10_0000) as u64
}

// ── CPU load and affinity ───────────────────────────────────────────────────

/// The tone of a CPU percentage: green at idle up to 10, plain up to 50, yellow
/// on busy up to 80, red on hot above.
pub open spec fn cpu_tone(cpu: u16) -> Tone {
    if cpu <= 10 {
        Tone::Success
    } else if cpu <= 50 {
        Tone::Text
    } else if cpu <= 80 {
        Tone::Warning
    } else {
        Tone::Error
    }
}

/// Picks the tone of a CPU percentage.
pub fn cpu_percent_color(cpu: u16) -> (r: Tone)
    ensures
        r == cpu_tone(cpu),
{
    if cpu <= 10 {
        Tone::Success
    } else if cpu <= 50 {
        Tone::Text
    } else if cpu <= 80 {
        Tone::Warning
    } else {
        Tone::Error
    }
}

/// Whether processor `i` belongs to the mask.
pub open spec fn has_cpu(mask: u64, i: nat) -> bool {
    i < 64 && (mask >> (i as u64)) & 1 == 1
}

/// The last processor of the run of set bits that holds `i`.
pub open spec fn run_end(mask: u64, i: nat) -> nat
    decreases 64 - i,
{
    if i < 64 && has_cpu(mask, i + 1) {
        run_end(mask, i + 1)
    } else {
        i
    }
}

/// The maximal runs of set bits from processor `i` on, as first and last.
pub open spec fn runs_from(mask: u64, i: nat) -> Seq<(nat, nat)>
    decreases 64 - i,
{
    if i >= 64 {
        Seq::empty()
    } else if !has_cpu(mask, i) {
        runs_from(mask, i + 1)
    } else {
        proof {
            lemma_run_end(mask, i);
        }
        seq![(i, run_end(mask, i))] + runs_from(mask, run_end(mask, i) + 1)
    }
}

/// One run: the number alone, or first and last with an en dash between.
pub open spec fn run_text(run: (nat, nat)) -> Seq<char> {
    if run.0 == run.1 {
        text::decimal(run.0)
    } else {
        text::decimal(run.0) + "–"@ + text::decimal(run.1)
    }
}

/// The processors of a mask as a list of runs.
pub open spec fn affinity_text(mask: u64) -> Seq<char> {
    if mask == 0 {
        "(none)"@
    } else {
        "CPUs: "@ + text::join(
            runs_from(mask, 0).map_values(|r: (nat, nat)| run_text(r)),
            ", "@,
        )
    }
}

/// A run ends at or after its start, is filled, and is followed by a gap.
pub proof fn lemma_run_end(mask: u64, i: nat)
    requires
        has_cpu(mask, i),
    ensures
        i <= run_end(mask, i) < 64,
        forall|k: nat| i <= k <= run_end(mask, i) ==> has_cpu(mask, k),
        !has_cpu(mask, run_end(mask, i) + 1),
    decreases 64 - i,
{
    if i < 64 && has_cpu(mask, i + 1) {
        lemma_run_end(mask, i + 1);
    }
}

/// Whether processor `c` lies in one of the runs.
pub open spec fn in_runs(runs: Seq<(nat, nat)>, c: nat) -> bool {
    exists|k: int| 0 <= k < runs.len() && (#[trigger] runs[k]).0 <= c <= runs[k].1
}

/// The listed runs hold exactly the processors of the mask.
pub proof fn runs_are_exactly_the_set_bits(mask: u64, c: nat)
    ensures
        in_runs(runs_from(mask, 0), c) <==> has_cpu(mask, c),
{
    lemma_runs_from(mask, 0, c);
}

proof fn lemma_runs_from(mask: u64, i: nat, c: nat)
    ensures
        in_runs(runs_from(mask, i), c) <==> i <= c && has_cpu(mask, c),
    decreases 64 - i,
{
    if i >= 64 {
    } else if !has_cpu(mask, i) {
        lemma_runs_from(mask, i + 1, c);
    } else {
        lemma_run_end(mask, i);
        let end = run_end(mask, i);
        let rest = runs_from(mask, end + 1);
        let all = runs_from(mask, i);
        lemma_runs_from(mask, end + 1, c);
        assert(all == seq![(i, end)] + rest);
        assert(all[0] == (i, end));
        if in_runs(rest, c) {
            let k = choose|k: int| 0 <= k < rest.len() && (#[trigger] rest[k]).0 <= c <= rest[k].1;
            assert(all[k + 1] == rest[k]);
        }
        if in_runs(all, c) {
            let k = choose|k: int| 0 <= k < all.len() && (#[trigger] all[k]).0 <= c <= all[k].1;
            if k > 0 {
                assert(rest[k - 1] == all[k]);
            }
        }
        if i <= c && has_cpu(mask, c) && c > end {
            assert(c != end + 1);
        }
    }
}

/// Neighbouring runs never touch: between the end of one and the start of the
/// next there is a processor outside the mask.
pub proof fn runs_are_separated(mask: u64, i: nat, k: int)
    requires
        0 <= k < runs_from(mask, i).len() - 1,
    ensures
        runs_from(mask, i)[k].1 + 1 < runs_from(mask, i)[k + 1].0,
    decreases 64 - i,
{
    if i < 64 {
        if !has_cpu(mask, i) {
            runs_are_separated(mask, i + 1, k);
        } else {
            lemma_run_end(mask, i);
            let end = run_end(mask, i);
            let rest = runs_from(mask, end + 1);
            assert(runs_from(mask, i) == seq![(i, end)] + rest);
            if k == 0 {
                assert(runs_from(mask, i)[1] == rest[0]);
                lemma_runs_start(mask, end + 1);
            } else {
                runs_are_separated(mask, end + 1, k - 1);
            }
        }
    }
}

proof fn lemma_runs_start(mask: u64, i: nat)
    requires
        runs_from(mask, i).len() > 0,
    ensures
        runs_from(mask, i)[0].0 >= i,
        has_cpu(mask, runs_from(mask, i)[0].0),
    decreases 64 - i,
{
    if i < 64 {
        if !has_cpu(mask, i) {
            lemma_runs_start(mask, i + 1);
        } else {
            lemma_run_end(mask, i);
        }
    }
}

fn has_cpu_bit(mask: u64, i: u32) -> (r: bool)
    ensures
        r == has_cpu(mask, i as nat),
{
    i < 64 && (mask >> (i as u64)) & 1 == 1
}

/// Appends one run to the list of run texts.
fn push_run(out: &mut Vec<String>, start: u32, end: u32)
    ensures
        final(out)@.len() == old(out)@.len() + 1,
        text::texts(final(out)@) == text::texts(old(out)@).push(
            run_text((start as nat, end as nat)),
        ),
{
    let ghost before = text::texts(out@);
    let mut run = text::format_decimal(start as u64);
    if start != end {
        run.append("–");
        let last = text::format_decimal(end as u64);
        run.append(last.as_str());
    }
    out.push(run);
    assert(text::texts(out@) =~= before.push(run_text((start as nat, end as nat))));
}

/// The processors of an affinity mask in words.
pub fn decode_affinity_mask(mask: u64) -> (r: String)
    ensures
        r@ == affinity_text(mask),
{
    if mask == 0 {
        return "(none)".to_owned();
    }
    let mut groups: Vec<String> = Vec::new();
    let mut i: u32 = 0;
    let ghost all = runs_from(mask, 0);
    let ghost mut done: Seq<(nat, nat)> = Seq::empty();
    let ghost show = |r: (nat, nat)| run_text(r);
    assert(text::texts(groups@) =~= done.map_values(show));
    assert(done + runs_from(mask, 0) =~= all);
    while i < 64
        invariant
            i <= 64,
            all == runs_from(mask, 0),
            all == done + runs_from(mask, i as nat),
            show == |r: (nat, nat)| run_text(r),
            text::texts(groups@) == done.map_values(show),
        decreases 64 - i,
    {
        if has_cpu_bit(mask, i) {
            let start = i;
            proof {
                lemma_run_end(mask, start as nat);
            }
            while has_cpu_bit(mask, i + 1)
                invariant
                    start <= i < 64,
                    has_cpu(mask, i as nat),
                    run_end(mask, i as nat) == run_end(mask, start as nat),
                decreases 64 - i,
            {
                i = i + 1;
            }
            push_run(&mut groups, start, i);
            proof {
                let run = (start as nat, i as nat);
                let next = done.push(run);
                assert(runs_from(mask, start as nat) == seq![run] + runs_from(
                    mask,
                    (i + 1) as nat,
                ));
                assert(done + runs_from(mask, start as nat) =~= next + runs_from(
                    mask,
                    (i + 1) as nat,
                ));
                assert(next.map_values(show) =~= done.map_values(show).push(show(run)));
                done = next;
            }
        }
        i = i + 1;
    }
    assert(done =~= all);
    let list = text::join_texts(groups.as_slice(), ", ");
    let mut out = "CPUs: ".to_owned();
    out.append(list.as_str());
    out
}

/// Cores by load, busiest first, ties in core order.
pub open spec fn cores_by_load(percents: Seq<u8>) -> Seq<usize> {
    sorting::sorted_positions(percents.len(), load_order(percents))
}

pub open spec fn load_order(percents: Seq<u8>) -> spec_fn(usize, usize) -> bool {
    |x: usize, y: usize| percents[x as int] >= percents[y as int]
}

pub open spec fn core_line(percents: Seq<u8>, i: usize) -> Seq<char> {
    "Core "@ + text::decimal(i as nat) + ": "@ + text::decimal(percents[i as int] as nat) + "%"@
}

/// The tooltip that lists the `n` busiest cores, one per line.
pub open spec fn top_cores_text(percents: Seq<u8>, n: nat) -> Seq<char> {
    if percents.len() == 0 {
        "(per-core data not available yet)"@
    } else {
        let shown = if n < percents.len() {
            n
        } else {
            percents.len()
        };
        text::join(
            cores_by_load(percents).take(shown as int).map_values(
                |i: usize| core_line(percents, i),
            ),
            "\n"@,
        )
    }
}

/// Lists the `n` busiest cores.
pub fn format_top_cores(percents: &[u8], n: usize) -> (r: String)
    ensures
        r@ == top_cores_text(percents@, n as nat),
{
    if percents.len() == 0 {
        return "(per-core data not available yet)".to_owned();
    }
    let not_after = |x: usize, y: usize| -> (b: bool)
        requires
            x < percents@.len(),
            y < percents@.len(),
        ensures
            b == (percents@[x as int] >= percents@[y as int]),
        { percents[x] >= percents[y] };
    let order = sorting::sort_positions(percents.len(), not_after, Ghost(load_order(percents@)));
    let shown: usize = if n < order.len() {
        n
    } else {
        order.len()
    };
    let ghost line = |i: usize| core_line(percents@, i);
    let mut lines: Vec<String> = Vec::new();
    assert(text::texts(lines@) =~= order@.take(0).map_values(line));
    for k in 0..shown
        invariant
            shown <= order@.len(),
            forall|j: int| 0 <= j < order@.len() ==> (#[trigger] order@[j]) < percents@.len(),
            line == |i: usize| core_line(percents@, i),
            text::texts(lines@) == order@.take(k as int).map_values(line),
    {
        let ghost done = text::texts(lines@);
        let core = order[k];
        assert(order@[k as int] < percents@.len());
        let mut out = "Core ".to_owned();
        let index = text::format_decimal(core as u64);
        out.append(index.as_str());
        out.append(": ");
        let load = text::format_decimal(percents[core] as u64);
        out.append(load.as_str());
        out.append("%");
        lines.push(out);
        assert(text::texts(lines@) =~= done.push(line(core)));
        assert(order@.take(k + 1).map_values(line) =~= order@.take(k as int).map_values(
            line,
        ).push(line(core)));
    }
    text::join_texts(lines.as_slice(), "\n")
}

/// The short name of a raw Win32 priority class.
pub open spec fn priority_text(raw: u32) -> Seq<char> {
    if raw == 0x40 {
        "Idle"@
    } else if raw == 0x4000 {
        "BelowNormal"@
    } else if raw == 0x20 {
        "Normal"@
    } else if raw == 0x8000 {
        "AboveNormal"@
    } else if raw == 0x80 {
        "High"@
    } else if raw == 0x100 {
        "Realtime"@
    } else {
        "—"@
    }
}

/// The short name of a raw Win32 priority class, or a dash.
pub fn priority_class_label(raw: u32) -> (r: &'static str)
    ensures
        r@ == priority_text(raw),
{
    if raw == 0x40 {
        "Idle"
    } else if raw == 0x4000 {
        "BelowNormal"
    } else if raw == 0x20 {
        "Normal"
    } else if raw == 0x8000 {
        "AboveNormal"
    } else if raw == 0x80 {
        "High"
    } else if raw == 0x100 {
        "Realtime"
    } else {
        "—"
    }
}

// ── Tray tooltip ────────────────────────────────────────────────────────────

/// The two lines shown when the pointer rests on the tray icon.
pub open spec fn tooltip_text(connected: bool, status: Option<&StatusSnapshot>) -> Seq<char> {
    let state = if !connected {
        "disconnected"@
    } else if status is Some && status->0.paused {
        "paused"@
    } else {
        "running"@
    };
    let profile = if status is Some && status->0.active_profile is Some {
        status->0.active_profile->0.id@
    } else {
        "—"@
    };
    let exe = if status is Some && status->0.foreground is Some {
        status->0.foreground->0.exe_name@
    } else {
        "—"@
    };
    "FrameSage — "@ + state + "\nActive: "@ + profile + "  ·  Foreground: "@ + exe
}

/// The text of the tray icon's tooltip.
pub fn format_tray_tooltip(connected: bool, status: Option<&StatusSnapshot>) -> (r: String)
    ensures
        r@ == tooltip_text(connected, status),
{
    let mut out = "FrameSage — ".to_owned();
    let paused = match status {
        Some(s) => s.paused,
        None => false,
    };
    out.append(
        if !connected {
            "disconnected"
        } else if paused {
            "paused"
        } else {
            "running"
        },
    );
    out.append("\nActive: ");
    match status {
        Some(s) => match &s.active_profile {
            Some(p) => out.append(p.id.as_str()),
            None => out.append("—"),
        },
        None => out.append("—"),
    }
    out.append("  ·  Foreground: ");
    match status {
        Some(s) => match &s.foreground {
            Some(f) => out.append(f.exe_name.as_str()),
            None => out.append("—"),
        },
        None => out.append("—"),
    }
    out
}

// ── Profile ids ─────────────────────────────────────────────────────────────

pub open spec fn is_separator(c: char) -> bool {
    c == '-' || c == '_'
}

/// How many characters stand before the first separator.
pub open spec fn word_len(s: Seq<char>) -> nat
    decreases s.len(),
{
    if s.len() == 0 || is_separator(s[0]) {
        0
    } else {
        1 + word_len(s.drop_first())
    }
}

pub proof fn lemma_word_len(s: Seq<char>)
    ensures
        word_len(s) <= s.len(),
    decreases s.len(),
{
    if s.len() > 0 && !is_separator(s[0]) {
        lemma_word_len(s.drop_first());
    }
}

/// The maximal pieces of `s` without separators, in order.
pub open spec fn words(s: Seq<char>) -> Seq<Seq<char>>
    decreases s.len(),
{
    if s.len() == 0 {
        Seq::empty()
    } else if word_len(s) == 0 {
        words(s.drop_first())
    } else {
        proof {
            lemma_word_len(s);
        }
        seq![s.take(word_len(s) as int)] + words(s.skip(word_len(s) as int))
    }
}

/// Hardware names that are written in capitals.
pub open spec fn is_acronym(w: Seq<char>) -> bool {
    ||| w == "X3D"@
    ||| w == "CPU"@
    ||| w == "GPU"@
    ||| w == "RAM"@
    ||| w == "IO"@
    ||| w == "CCD"@
    ||| w == "AMD"@
    ||| w == "NV"@
    ||| w == "DLSS"@
}

/// A word with its first letter in upper case; acronyms wholly so.
pub open spec fn pretty_word(w: Seq<char>) -> Seq<char> {
    if is_acronym(text::upper(w)) {
        text::upper(w)
    } else {
        seq![text::upper_char(w[0])] + w.drop_first()
    }
}

/// A profile id as it is shown: its words, made pretty, with blanks between.
pub open spec fn pretty_id(raw: Seq<char>) -> Seq<char> {
    text::join(words(raw).map_values(|w: Seq<char>| pretty_word(w)), " "@)
}

fn is_acronym_text(w: &str) -> (r: bool)
    ensures
        r == is_acronym(w@),
{
    text::same_text(w, "X3D") || text::same_text(w, "CPU") || text::same_text(w, "GPU")
        || text::same_text(w, "RAM") || text::same_text(w, "IO") || text::same_text(w, "CCD")
        || text::same_text(w, "AMD") || text::same_text(w, "NV") || text::same_text(w, "DLSS")
}

fn prettify(cs: &[char]) -> (r: String)
    requires
        cs@.len() > 0,
    ensures
        r@ == pretty_word(cs@),
{
    let plain = text::from_chars(cs);
    let upper = text::to_upper(plain.as_str());
    if is_acronym_text(upper.as_str()) {
        return upper;
    }
    let mut out = String::new();
    out.push(text::to_upper_char(cs[0]));
    for i in 1..cs.len()
        invariant
            cs@.len() > 0,
            out@ == seq![text::upper_char(cs@[0])] + cs@.subrange(1, i as int),
    {
        out.push(cs[i]);
        assert(out@ =~= seq![text::upper_char(cs@[0])] + cs@.subrange(1, i + 1));
    }
    assert(cs@.subrange(1, cs@.len() as int) =~= cs@.drop_first());
    out
}

/// The display label of a profile id slug.
pub fn display_profile_id(raw: &str) -> (r: String)
    ensures
        r@ == pretty_id(raw@),
{
    let cs = text::to_chars(raw);
    let ghost pretty = |w: Seq<char>| pretty_word(w);
    let ghost all = words(raw@);
    let ghost mut done: Seq<Seq<char>> = Seq::empty();
    let mut parts: Vec<String> = Vec::new();
    let mut i: usize = 0;
    assert(cs@.skip(0) =~= raw@);
    assert(done + words(raw@) =~= all);
    assert(text::texts(parts@) =~= done.map_values(pretty));
    while i < cs.len()
        invariant
            i <= cs@.len(),
            pretty == |w: Seq<char>| pretty_word(w),
            all == done + words(cs@.skip(i as int)),
            text::texts(parts@) == done.map_values(pretty),
        decreases cs@.len() - i,
    {
        let ghost rest = cs@.skip(i as int);
        let start = i;
        while i < cs.len() && cs[i] != '-' && cs[i] != '_'
            invariant
                start <= i <= cs@.len(),
                rest == cs@.skip(start as int),
                word_len(rest) == (i - start) + word_len(cs@.skip(i as int)),
            decreases cs@.len() - i,
        {
            assert(cs@.skip(i as int).drop_first() =~= cs@.skip(i + 1));
            i = i + 1;
        }
        assert(word_len(cs@.skip(i as int)) == 0);
        if i == start {
            assert(rest.drop_first() =~= cs@.skip(i + 1));
            i = i + 1;
        } else {
            let mut token: Vec<char> = Vec::new();
            for k in start..i
                invariant
                    start <= i <= cs@.len(),
                    token@ == cs@.subrange(start as int, k as int),
            {
                token.push(cs[k]);
                assert(token@ =~= cs@.subrange(start as int, k + 1));
            }
            let ghost word = rest.take(word_len(rest) as int);
            assert(token@ =~= word);
            parts.push(prettify(token.as_slice()));
            proof {
                let next = done.push(word);
                assert(rest.skip(word_len(rest) as int) =~= cs@.skip(i as int));
                assert(done + words(rest) =~= next + words(cs@.skip(i as int)));
                assert(next.map_values(pretty) =~= done.map_values(pretty).push(pretty(word)));
                assert(text::texts(parts@) =~= next.map_values(pretty));
                done = next;
            }
        }
    }
    assert(words(cs@.skip(i as int)) =~= Seq::empty());
    assert(done =~= all);
    text::join_texts(parts.as_slice(), " ")
}

// ── Echo line ───────────────────────────────────────────────────────────────

/// `s` cut to `max` characters, the last of them an ellipsis if it was longer.
pub open spec fn echo_text(s: Seq<char>, max: nat) -> Seq<char> {
    if s.len() <= max {
        s
    } else {
        s.take(max - 1).push('…')
    }
}

/// Cuts a text to fit the echo line.
pub fn truncate_for_echo(s: &str, max: usize) -> (r: String)
    requires
        max > 0 || s@.len() == 0,
    ensures
        r@ == echo_text(s@, max as nat),
        r@.len() <= max,
{
    if s.unicode_len() <= max {
        s.to_owned()
    } else {
        let kept = s.substring_char(0, max - 1);
        let mut out = kept.to_owned();
        out.push('…');
        out
    }
}

} // verus!
