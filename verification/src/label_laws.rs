//! Laws of the labels that are written for numbers, masks, loads and ids.

use vstd::prelude::*;

use crate::formatters;
use crate::ipc::StatusSnapshot;
use crate::sorting;
use crate::text;
use crate::theme::Tone;

verus! {

// ── Byte counts ─────────────────────────────────────────────────────────────

/// Below a gibibyte a size is a whole number of the largest unit that it fills,
/// rounded down.
pub proof fn small_sizes_are_rounded_down(b: u64, r: String, n: nat)
    requires
        call_ensures(formatters::format_bytes, (b,), r),
    ensures
        b < 1024 ==> r@ == text::decimal(b as nat) + " B"@,
        0x400 <= b < 0x10_0000 && n * 0x400 <= b < n * 0x400 + 0x400 ==> r@ == text::decimal(n)
            + " KB"@,
        0x10_0000 <= b < 0x4000_0000 && n * 0x10_0000 <= b < n * 0x10_0000 + 0x10_0000 ==> r@
            == text::decimal(n) + " MB"@,
{
}

/// Whether `n` is the whole number nearest to a fraction; of two that are
/// equally near, the even one.
pub open spec fn is_nearest(n: int, num: int, den: int) -> bool {
    ||| 2 * num - den < 2 * n * den < 2 * num + den
    ||| n % 2 == 0 && (2 * n * den == 2 * num - den || 2 * n * den == 2 * num + den)
}

proof fn lemma_nearest(n: int, num: int, den: int)
    requires
        num >= 0,
        den > 0,
        is_nearest(n, num, den),
    ensures
        formatters::half_even(num, den) == n,
{
    let low = num / den;
    let rest = num % den;
    assert(num == low * den + rest && 0 <= rest < den) by (nonlinear_arith)
        requires
            den > 0,
            low == num / den,
            rest == num % den,
    ;
    let twice = 2 * n * den;
    assert(twice == 2 * (n * den)) by (nonlinear_arith)
        requires
            twice == 2 * n * den,
    ;
    let diff = n - low;
    assert(n * den == low * den + diff * den) by (nonlinear_arith)
        requires
            diff == n - low,
    ;
    if diff >= 2 {
        assert(diff * den >= 2 * den) by (nonlinear_arith)
            requires
                diff >= 2,
                den > 0,
        ;
    }
    if diff <= -1 {
        assert(diff * den <= -den) by (nonlinear_arith)
            requires
                diff <= -1,
                den > 0,
        ;
    }
    if diff == 0 {
        assert(diff * den == 0) by (nonlinear_arith)
            requires
                diff == 0,
        ;
    }
    if diff == 1 {
        assert(diff * den == den) by (nonlinear_arith)
            requires
                diff == 1,
        ;
    }
}

proof fn lemma_half_even_is_near(num: int, den: int)
    requires
        num >= 0,
        den > 0,
    ensures
        2 * num - den <= 2 * (formatters::half_even(num, den) * den) <= 2 * num + den,
        formatters::half_even(num, den) >= 0,
{
    let low = num / den;
    let rest = num % den;
    assert(num == low * den + rest && 0 <= rest < den && low >= 0) by (nonlinear_arith)
        requires
            num >= 0,
            den > 0,
            low == num / den,
            rest == num % den,
    ;
    assert((low + 1) * den == low * den + den) by (nonlinear_arith);
}

/// Up to eight pebibytes, a size from a gibibyte on is the nearest tenth of a
/// gibibyte; of two that are equally near, the even one.
pub proof fn large_sizes_are_the_nearest_tenth(b: u64, r: String, tenths: nat)
    requires
        call_ensures(formatters::format_bytes, (b,), r),
        1024 * 1024 * 1024 <= b < 0x20_0000_0000_0000,
        is_nearest(tenths as int, 10 * b, 0x4000_0000),
    ensures
        r@ == text::decimal(tenths / 10) + seq!['.'] + text::decimal(tenths % 10) + " GB"@,
{
    assert(formatters::spacing(b as nat) == 1);
    lemma_nearest(b as int, b as int, 1);
    assert(formatters::as_double(b as nat) == b);
    lemma_nearest(tenths as int, 10 * b, 0x4000_0000);
}

proof fn lemma_spacing(b: nat)
    requires
        b <= u64::MAX,
    ensures
        1 <= formatters::spacing(b) <= 0x800,
{
    reveal_with_fuel(formatters::spacing, 13);
}

/// A size of a gibibyte or more is never written more than half a tenth off, up
/// to the bytes that a double cannot tell apart.
pub proof fn no_size_is_far_off(b: u64, r: String)
    requires
        call_ensures(formatters::format_bytes, (b,), r),
        1024 * 1024 * 1024 <= b,
    ensures
        exists|tenths: int|
            {
                &&& r@ == text::decimal((tenths / 10) as nat) + seq!['.'] + #[trigger] text::decimal(
                    (tenths % 10) as nat,
                ) + " GB"@
                &&& -0x2000_0000 - 10 * 0x400 <= tenths * 0x4000_0000 - 10 * b <= 0x2000_0000 + 10
                    * 0x400
            },
{
    let unit = formatters::spacing(b as nat) as int;
    lemma_spacing(b as nat);
    lemma_half_even_is_near(b as int, unit);
    let d = formatters::as_double(b as nat);
    assert(2 * b - unit <= 2 * d <= 2 * b + unit);
    lemma_half_even_is_near(10 * d, 0x4000_0000);
    let tenths = formatters::gib_tenths(b as nat);
    assert(r@ == text::decimal((tenths / 10) as nat) + seq!['.'] + text::decimal(
        (tenths % 10) as nat,
    ) + " GB"@);
}

/// Whole mebibytes are the nearest; of two that are equally near, the even one.
pub proof fn mebibytes_are_the_nearest(b: u64, r: u64, n: nat)
    requires
        call_ensures(formatters::round_to_mib, (b,), r),
        b < 0x20_0000_0000_0000,
        is_nearest(n as int, b as int, 0x10_0000),
    ensures
        r == n,
{
    assert(formatters::spacing(b as nat) == 1);
    lemma_nearest(b as int, b as int, 1);
    assert(formatters::as_double(b as nat) == b);
    lemma_nearest(n as int, b as int, 0x10_0000);
}

// ── Loads and masks ─────────────────────────────────────────────────────────

/// A load is green up to a tenth, plain up to a half, yellow up to eighty per
/// cent and red above.
pub proof fn loads_warm_up(cpu: u16, r: Tone)
    requires
        call_ensures(formatters::cpu_percent_color, (cpu,), r),
    ensures
        r is Success <==> cpu <= 10,
        r is Text <==> 10 < cpu <= 50,
        r is Warning <==> 50 < cpu <= 80,
        r is Error <==> cpu > 80,
{
}

/// Whether these are the runs of set bits of a mask: in ascending order, apart
/// from each other, and holding its processors exactly.
pub open spec fn are_runs_of(runs: Seq<(nat, nat)>, mask: u64) -> bool {
    &&& forall|k: int| 0 <= k < runs.len() ==> (#[trigger] runs[k]).0 <= runs[k].1 < 64
    &&& forall|j: int, k: int|
        0 <= j < k < runs.len() ==> (#[trigger] runs[j]).1 + 1 < (#[trigger] runs[k]).0
    &&& forall|i: u64|
        i < 64 ==> ((#[trigger] (mask >> i)) & 1 == 1 <==> formatters::in_runs(runs, i as nat))
}

proof fn lemma_runs(mask: u64, i: nat)
    ensures
        ({
            let runs = formatters::runs_from(mask, i);
            &&& forall|k: int| 0 <= k < runs.len() ==> i <= (#[trigger] runs[k]).0 <= runs[k].1
                < 64
            &&& forall|j: int, k: int|
                0 <= j < k < runs.len() ==> (#[trigger] runs[j]).1 + 1 < (#[trigger] runs[k]).0
        }),
    decreases 64 - i,
{
    if i < 64 {
        if !formatters::has_cpu(mask, i) {
            lemma_runs(mask, i + 1);
            assert(formatters::runs_from(mask, i) == formatters::runs_from(mask, i + 1));
        } else {
            formatters::lemma_run_end(mask, i);
            let end = formatters::run_end(mask, i);
            let rest = formatters::runs_from(mask, end + 1);
            let all = formatters::runs_from(mask, i);
            lemma_runs(mask, end + 1);
            assert(all == seq![(i, end)] + rest);
            if rest.len() > 0 {
                formatters::runs_are_separated(mask, i, 0);
                assert(all[1] == rest[0]);
            }
            assert forall|j: int, k: int| 0 <= j < k < all.len() implies (#[trigger] all[j]).1 + 1
                < (#[trigger] all[k]).0 by {
                assert(all[k] == rest[k - 1]);
                if j > 0 {
                    assert(all[j] == rest[j - 1]);
                } else if k > 1 {
                    assert(rest[0].1 + 1 < rest[k - 1].0);
                    assert(rest[0].0 <= rest[0].1);
                }
            }
            assert forall|k: int| 0 <= k < all.len() implies i <= (#[trigger] all[k]).0
                <= all[k].1 < 64 by {
                if k > 0 {
                    assert(all[k] == rest[k - 1]);
                }
            }
        }
    }
}

/// A mask is spelled out by its runs of processors: single ones by their
/// number, longer ones by first and last.
pub proof fn masks_are_spelled_out_by_runs(mask: u64, r: String)
    requires
        call_ensures(formatters::decode_affinity_mask, (mask,), r),
    ensures
        mask == 0 ==> r@ == "(none)"@,
        mask != 0 ==> exists|runs: Seq<(nat, nat)>| #[trigger]
            are_runs_of(runs, mask) && r@ == "CPUs: "@ + text::join(
                runs.map_values(
                    |run: (nat, nat)|
                        if run.0 < run.1 {
                            text::decimal(run.0) + "–"@ + text::decimal(run.1)
                        } else {
                            text::decimal(run.0)
                        },
                ),
                ", "@,
            ),
{
    let runs = formatters::runs_from(mask, 0);
    lemma_runs(mask, 0);
    assert forall|i: u64| i < 64 implies ((#[trigger] (mask >> i)) & 1 == 1
        <==> formatters::in_runs(runs, i as nat)) by {
        formatters::runs_are_exactly_the_set_bits(mask, i as nat);
    }
    assert(are_runs_of(runs, mask));
    let words = |run: (nat, nat)|
        if run.0 < run.1 {
            text::decimal(run.0) + "–"@ + text::decimal(run.1)
        } else {
            text::decimal(run.0)
        };
    assert(runs.map_values(|run: (nat, nat)| formatters::run_text(run)) =~= runs.map_values(
        words,
    )) by {
        assert forall|k: int| 0 <= k < runs.len() implies formatters::run_text(
            #[trigger] runs[k],
        ) == words(runs[k]) by {}
    }
}

/// Whether `order` names the `n` busiest cores, the busiest first and cores of
/// equal load by their number.
pub open spec fn are_busiest(order: Seq<usize>, loads: Seq<u8>, n: nat) -> bool {
    &&& order.len() == (if n <= loads.len() {
        n
    } else {
        loads.len()
    })
    &&& forall|k: int| 0 <= k < order.len() ==> (#[trigger] order[k]) < loads.len()
    &&& forall|j: int, k: int|
        0 <= j < k < order.len() ==> loads[(#[trigger] order[j]) as int] > loads[(
        #[trigger] order[k]) as int] || (loads[order[j] as int] == loads[order[k] as int]
            && order[j] < order[k])
    &&& forall|i: usize, k: int|
        0 <= k < order.len() && i < loads.len() && !(#[trigger] order.contains(i)) ==> loads[(
        #[trigger] order[k]) as int] >= loads[i as int]
}

/// The tooltip lists the busiest cores with their loads, one per line.
pub proof fn the_busiest_cores_are_listed(loads: &[u8], n: usize, r: String)
    requires
        call_ensures(formatters::format_top_cores, (loads, n), r),
    ensures
        loads@.len() == 0 ==> r@ == "(per-core data not available yet)"@,
        loads@.len() > 0 ==> exists|order: Seq<usize>| #[trigger]
            are_busiest(order, loads@, n as nat) && r@ == text::join(
                order.map_values(
                    |i: usize|
                        "Core "@ + text::decimal(i as nat) + ": "@ + text::decimal(
                            loads@[i as int] as nat,
                        ) + "%"@,
                ),
                "\n"@,
            ),
{
    if loads@.len() > 0 {
        let leq = formatters::load_order(loads@);
        let all = sorting::sorted_positions(loads@.len(), leq);
        assert(loads.len() == loads@.len());
        sorting::sorting_is_a_stable_permutation(loads@.len(), leq);
        let shown: nat = if n < loads@.len() {
            n as nat
        } else {
            loads@.len()
        };
        let order = all.take(shown as int);
        assert forall|j: int, k: int| 0 <= j < k < order.len() implies loads@[(
        #[trigger] order[j]) as int] > loads@[(#[trigger] order[k]) as int] || (
        loads@[order[j] as int] == loads@[order[k] as int] && order[j] < order[k]) by {
            assert(order[j] == all[j] && order[k] == all[k]);
            assert(leq(all[j], all[k]));
            if leq(all[k], all[j]) {
                assert(all[j] < all[k]);
            }
        }
        assert forall|i: usize, k: int|
            0 <= k < order.len() && i < loads@.len() && !(
            #[trigger] order.contains(i)) implies loads@[(#[trigger] order[k]) as int]
            >= loads@[i as int] by {
            sorting::sorting_leaves_nothing_out(loads@.len(), leq, i);
            let p = all.index_of(i);
            if p < shown {
                assert(order[p] == i);
            }
            assert(order[k] == all[k]);
            assert(leq(all[k], all[p]));
        }
        assert(are_busiest(order, loads@, n as nat));
        assert(order.map_values(|i: usize| formatters::core_line(loads@, i)) =~= order.map_values(
            |i: usize|
                "Core "@ + text::decimal(i as nat) + ": "@ + text::decimal(
                    loads@[i as int] as nat,
                ) + "%"@,
        ));
    }
}

/// The six priority classes of Windows have names; any other number has a dash.
pub proof fn priority_classes_have_names(raw: u32, r: &'static str)
    requires
        call_ensures(formatters::priority_class_label, (raw,), r),
    ensures
        raw == 0x40 ==> r@ == "Idle"@,
        raw == 0x4000 ==> r@ == "BelowNormal"@,
        raw == 0x20 ==> r@ == "Normal"@,
        raw == 0x8000 ==> r@ == "AboveNormal"@,
        raw == 0x80 ==> r@ == "High"@,
        raw == 0x100 ==> r@ == "Realtime"@,
        raw != 0x40 && raw != 0x4000 && raw != 0x20 && raw != 0x8000 && raw != 0x80 && raw
            != 0x100 ==> r@ == "—"@,
{
}

// ── The tooltip and the echo ────────────────────────────────────────────────

/// The tooltip says how the engine is, which profile is applied and what has
/// the focus; without a connection nothing else counts for the state.
pub proof fn the_tooltip_tells_of_the_engine(
    connected: bool,
    status: Option<&StatusSnapshot>,
    r: String,
)
    requires
        call_ensures(formatters::format_tray_tooltip, (connected, status), r),
    ensures
        ({
            let word = if !connected {
                "disconnected"@
            } else if status is Some && status->0.paused {
                "paused"@
            } else {
                "running"@
            };
            let profile = match status {
                Some(s) => match s.active_profile {
                    Some(p) => p.id@,
                    None => "—"@,
                },
                None => "—"@,
            };
            let exe = match status {
                Some(s) => match s.foreground {
                    Some(f) => f.exe_name@,
                    None => "—"@,
                },
                None => "—"@,
            };
            r@ == "FrameSage — "@ + word + "\nActive: "@ + profile + "  ·  Foreground: "@ + exe
        }),
{
}

/// A text that fits is shown as it is. A longer one keeps its beginning, ends
/// in an ellipsis, and fills the room exactly.
pub proof fn long_texts_end_in_an_ellipsis(s: &str, max: usize, r: String)
    requires
        call_ensures(formatters::truncate_for_echo, (s, max), r),
        max > 0,
    ensures
        s@.len() <= max ==> r@ == s@,
        s@.len() > max ==> r@.len() == max && r@.last() == '…' && forall|i: int|
            0 <= i < max - 1 ==> #[trigger] r@[i] == s@[i],
{
}

// ── Profile ids ─────────────────────────────────────────────────────────────

/// Whether a text is a word: not empty, and without a dash or an underscore.
pub open spec fn is_word(w: Seq<char>) -> bool {
    &&& w.len() > 0
    &&& forall|k: int| 0 <= k < w.len() ==> (#[trigger] w[k]) != '-' && w[k] != '_'
}

/// The hardware names that are written in capitals.
pub open spec fn is_hardware(w: Seq<char>) -> bool {
    let u = text::upper(w);
    ||| u == "X3D"@
    ||| u == "CPU"@
    ||| u == "GPU"@
    ||| u == "RAM"@
    ||| u == "IO"@
    ||| u == "CCD"@
    ||| u == "AMD"@
    ||| u == "NV"@
    ||| u == "DLSS"@
}

proof fn lemma_word(w: Seq<char>)
    requires
        is_word(w),
    ensures
        formatters::word_len(w) == w.len(),
        formatters::words(w) == seq![w],
    decreases w.len(),
{
    lemma_plain_len(w);
    assert(w.take(w.len() as int) =~= w);
    assert(w.skip(w.len() as int) =~= Seq::empty());
    assert(formatters::words(Seq::<char>::empty()) =~= Seq::empty());
    assert(formatters::words(w) =~= seq![w]);
}

proof fn lemma_plain_len(w: Seq<char>)
    requires
        forall|k: int| 0 <= k < w.len() ==> (#[trigger] w[k]) != '-' && w[k] != '_',
    ensures
        formatters::word_len(w) == w.len(),
    decreases w.len(),
{
    if w.len() > 0 {
        let rest = w.drop_first();
        assert(!formatters::is_separator(w[0]));
        assert forall|k: int| 0 <= k < rest.len() implies (#[trigger] rest[k]) != '-' && rest[k]
            != '_' by {
            assert(rest[k] == w[k + 1]);
        }
        lemma_plain_len(rest);
    }
}

/// A single word is shown with a capital in front; the names of hardware are
/// shown in capitals.
pub proof fn words_get_a_capital(id: &str, r: String)
    requires
        call_ensures(formatters::display_profile_id, (id,), r),
        is_word(id@),
    ensures
        is_hardware(id@) ==> r@ == text::upper(id@),
        !is_hardware(id@) ==> r@ == seq![text::upper_char(id@[0])] + id@.drop_first(),
{
    lemma_word(id@);
    let pretty = |w: Seq<char>| formatters::pretty_word(w);
    assert(seq![id@].map_values(pretty) =~= seq![formatters::pretty_word(id@)]);
    assert(text::join(seq![formatters::pretty_word(id@)], " "@) =~= formatters::pretty_word(id@));
}

proof fn lemma_words_split(a: Seq<char>, c: char, w: Seq<char>)
    requires
        c == '-' || c == '_',
        is_word(w),
    ensures
        formatters::words(a.push(c) + w) == formatters::words(a).push(w),
    decreases a.len(),
{
    let whole = a.push(c) + w;
    if a.len() == 0 {
        assert(whole[0] == c);
        assert(whole.drop_first() =~= w);
        lemma_word(w);
        assert(formatters::words(a) =~= Seq::empty());
        assert(seq![w] =~= Seq::<Seq<char>>::empty().push(w));
    } else {
        let n = formatters::word_len(a);
        formatters::lemma_word_len(a);
        lemma_same_word(a, c, w);
        if n == 0 {
            assert(whole.drop_first() =~= a.drop_first().push(c) + w);
            lemma_words_split(a.drop_first(), c, w);
        } else {
            assert(whole.take(n as int) =~= a.take(n as int));
            assert(whole.skip(n as int) =~= a.skip(n as int).push(c) + w);
            lemma_words_split(a.skip(n as int), c, w);
            assert(formatters::words(whole) =~= formatters::words(a).push(w));
        }
    }
}

proof fn lemma_same_word(a: Seq<char>, c: char, w: Seq<char>)
    requires
        c == '-' || c == '_',
    ensures
        formatters::word_len(a.push(c) + w) == formatters::word_len(a),
    decreases a.len(),
{
    let whole = a.push(c) + w;
    if a.len() == 0 {
        assert(whole[0] == c);
    } else {
        assert(whole[0] == a[0]);
        assert(whole.drop_first() =~= a.drop_first().push(c) + w);
        lemma_same_word(a.drop_first(), c, w);
    }
}

/// A word more behind a dash or an underscore is shown behind a blank, and
/// separators at the end are not shown at all.
pub proof fn separators_become_blanks(
    short: &str,
    c: char,
    word: &str,
    long: &str,
    a: String,
    w: String,
    r: String,
)
    requires
        call_ensures(formatters::display_profile_id, (short,), a),
        call_ensures(formatters::display_profile_id, (word,), w),
        call_ensures(formatters::display_profile_id, (long,), r),
        c == '-' || c == '_',
        is_word(word@),
        long@ == short@.push(c) + word@,
    ensures
        formatters::words(short@).len() > 0 ==> r@ == a@ + " "@ + w@,
        short@.len() == 0 ==> r@ == w@,
{
    lemma_words_split(short@, c, word@);
    lemma_word(word@);
    let pretty = |w: Seq<char>| formatters::pretty_word(w);
    let before = formatters::words(short@);
    let list = before.map_values(pretty);
    let last = formatters::pretty_word(word@);
    assert(before.push(word@).map_values(pretty) =~= list.push(last));
    assert(seq![word@].map_values(pretty) =~= seq![last]);
    assert(text::join(seq![last], " "@) =~= last);
    assert(list.push(last).drop_last() =~= list);
    if short@.len() == 0 {
        assert(list.push(last).len() == 1);
    }
}

} // verus!
