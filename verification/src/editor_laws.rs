//! Laws of the profile editor: what is offered for its lists, what a tick
//! means, and what a choice keeps.

use vstd::prelude::*;

use crate::editors::{self, CpuSelectorKind, ListKind, PlanChoice, Verdict};
use crate::formatters;
use crate::ipc::{ProcessSnapshot, ServiceInfo, ServiceStatusKind};
use crate::onboarding_laws;
use crate::policy::{
    AntiCheatProfile, CoreKind, CpuSelector, GameModeActions, PowerPlanId, Profile,
};
use crate::policy_laws;
use crate::sorting;
use crate::text;
use crate::text_laws;
use crate::theme::Tone;

verus! {

// ── What is offered ─────────────────────────────────────────────────────────

/// Whether a list holds a name, in whatever case.
pub open spec fn names(items: Seq<String>, s: Seq<char>) -> bool {
    exists|j: int| 0 <= j < items.len() && text::lower((#[trigger] items[j])@) == text::lower(s)
}

proof fn lemma_names(items: Seq<String>, s: Seq<char>)
    ensures
        editors::lists_name(text::texts(items), s) == names(items, s),
{
    let all = text::texts(items);
    assert(all.len() == items.len());
    assert forall|j: int| 0 <= j < items.len() implies all[j] == (#[trigger] items[j])@ by {}
    if editors::lists_name(all, s) {
        let j = choose|j: int|
            0 <= j < all.len() && text::lower(#[trigger] all[j]) == text::lower(s);
        assert(text::lower(items[j]@) == text::lower(s));
    }
    if names(items, s) {
        let j = choose|j: int|
            0 <= j < items.len() && text::lower((#[trigger] items[j])@) == text::lower(s);
        assert(text::lower(all[j]) == text::lower(s));
    }
}

/// Whether a process can go on the suspend list: it is no part of the kernel,
/// is not protected, does something, and is not on the list yet.
pub open spec fn can_be_listed(
    p: ProcessSnapshot,
    protected: bool,
    listed: Seq<String>,
) -> bool {
    &&& p.pid != 0
    &&& p.pid != 4
    &&& p.cpu_percent > 0
    &&& !protected
    &&& !names(listed, p.exe_name@)
}

proof fn lemma_candidate_places(
    rows: Seq<ProcessSnapshot>,
    denied: Seq<bool>,
    listed: Seq<Seq<char>>,
    n: nat,
)
    requires
        n <= rows.len(),
        rows.len() <= usize::MAX,
    ensures
        ({
            let places = editors::candidates_upto(rows, denied, listed, n);
            &&& places.len() <= n
            &&& forall|k: int|
                0 <= k < places.len() ==> (#[trigger] places[k]) < n && editors::is_candidate(
                    rows[places[k] as int],
                    denied[places[k] as int],
                    listed,
                )
            &&& forall|j: int, k: int|
                0 <= j < k < places.len() ==> (#[trigger] places[j]) < (#[trigger] places[k])
            &&& forall|i: usize|
                i < n && editors::is_candidate(#[trigger] rows[i as int], denied[i as int], listed)
                    ==> places.contains(i)
        }),
    decreases n,
{
    if n > 0 {
        let m = (n - 1) as nat;
        lemma_candidate_places(rows, denied, listed, m);
        let before = editors::candidates_upto(rows, denied, listed, m);
        let places = editors::candidates_upto(rows, denied, listed, n);
        assert forall|i: usize|
            i < n && editors::is_candidate(
                #[trigger] rows[i as int],
                denied[i as int],
                listed,
            ) implies places.contains(i) by {
            if i < m {
                let k = before.index_of(i);
                assert(places[k] == i);
            } else {
                assert(places[before.len() as int] == i);
            }
        }
    }
}

/// Only processes that can go on the suspend list are offered, each once, the
/// busiest first and otherwise in the order of the list. There are at most
/// thirty, and none that is left out is busier than one that is offered.
pub proof fn the_busiest_processes_are_offered(
    rows: &[ProcessSnapshot],
    denied: &[bool],
    listed: &[String],
    r: Vec<usize>,
)
    requires
        call_ensures(editors::discover_processes, (rows, denied, listed), r),
        denied@.len() == rows@.len(),
    ensures
        r@.len() <= 30,
        forall|k: int|
            0 <= k < r@.len() ==> (#[trigger] r@[k]) < rows@.len() && can_be_listed(
                rows@[r@[k] as int],
                denied@[r@[k] as int],
                listed@,
            ),
        forall|j: int, k: int|
            0 <= j < k < r@.len() ==> rows@[(#[trigger] r@[j]) as int].cpu_percent
                > rows@[(#[trigger] r@[k]) as int].cpu_percent || (rows@[r@[j] as int].cpu_percent
                == rows@[r@[k] as int].cpu_percent && r@[j] < r@[k]),
        forall|i: usize|
            i < rows@.len() && can_be_listed(#[trigger] rows@[i as int], denied@[i as int], listed@)
                ==> r@.contains(i) || (r@.len() == 30 && forall|k: int|
                0 <= k < r@.len() ==> rows@[(#[trigger] r@[k]) as int].cpu_percent
                    >= rows@[i as int].cpu_percent),
{
    let all = text::texts(listed@);
    let places = editors::candidates_upto(rows@, denied@, all, rows@.len());
    let leq = editors::busier(rows@, places);
    assert(rows.len() == rows@.len());
    lemma_candidate_places(rows@, denied@, all, rows@.len());
    assert forall|i: int| 0 <= i < rows@.len() implies editors::is_candidate(
        #[trigger] rows@[i],
        denied@[i],
        all,
    ) == can_be_listed(rows@[i], denied@[i], listed@) by {
        lemma_names(listed@, rows@[i].exe_name@);
    }
    sorting::sorting_is_a_stable_permutation(places.len(), leq);
    let order = sorting::sorted_positions(places.len(), leq);
    assert forall|k: int| 0 <= k < r@.len() implies (#[trigger] r@[k]) == places[order[k] as int]
        && order[k] < places.len() by {}
    assert forall|k: int| 0 <= k < r@.len() implies (#[trigger] r@[k]) < rows@.len()
        && can_be_listed(rows@[r@[k] as int], denied@[r@[k] as int], listed@) by {
        assert(places[order[k] as int] < rows@.len());
    }
    assert forall|j: int, k: int| 0 <= j < k < r@.len() implies rows@[(
    #[trigger] r@[j]) as int].cpu_percent > rows@[(#[trigger] r@[k]) as int].cpu_percent || (
    rows@[r@[j] as int].cpu_percent == rows@[r@[k] as int].cpu_percent && r@[j] < r@[k]) by {
        assert(leq(order[j], order[k]));
        if leq(order[k], order[j]) {
            assert(order[j] < order[k]);
            assert(places[order[j] as int] < places[order[k] as int]);
        }
    }
    assert forall|i: usize|
        i < rows@.len() && can_be_listed(
            #[trigger] rows@[i as int],
            denied@[i as int],
            listed@,
        ) implies r@.contains(i) || (r@.len() == 30 && forall|k: int|
        0 <= k < r@.len() ==> rows@[(#[trigger] r@[k]) as int].cpu_percent
            >= rows@[i as int].cpu_percent) by {
        assert(editors::is_candidate(rows@[i as int], denied@[i as int], all));
        assert(places.contains(i));
        let p = places.index_of(i);
        sorting::sorting_leaves_nothing_out(places.len(), leq, p as usize);
        let k = order.index_of(p as usize);
        if k < r@.len() {
            assert(r@[k] == i);
        } else {
            assert forall|q: int| 0 <= q < r@.len() implies rows@[(
            #[trigger] r@[q]) as int].cpu_percent >= rows@[i as int].cpu_percent by {
                assert(leq(order[q], order[k]));
            }
        }
    }
}

proof fn lemma_service_places(
    services: Seq<ServiceInfo>,
    denied: Seq<bool>,
    listed: Seq<Seq<char>>,
    n: nat,
)
    requires
        n <= services.len(),
        services.len() <= usize::MAX,
    ensures
        ({
            let places = editors::services_upto(services, denied, listed, n);
            &&& forall|k: int|
                0 <= k < places.len() ==> (#[trigger] places[k]) < n && !denied[places[k] as int]
                    && !editors::lists_name(listed, services[places[k] as int].name@)
            &&& forall|j: int, k: int|
                0 <= j < k < places.len() ==> (#[trigger] places[j]) < (#[trigger] places[k])
            &&& forall|i: usize|
                i < n && !denied[i as int] && !editors::lists_name(
                    listed,
                    (#[trigger] services[i as int]).name@,
                ) ==> places.contains(i)
        }),
    decreases n,
{
    if n > 0 {
        let m = (n - 1) as nat;
        lemma_service_places(services, denied, listed, m);
        let before = editors::services_upto(services, denied, listed, m);
        let places = editors::services_upto(services, denied, listed, n);
        assert forall|i: usize|
            i < n && !denied[i as int] && !editors::lists_name(
                listed,
                (#[trigger] services[i as int]).name@,
            ) implies places.contains(i) by {
            if i < m {
                let k = before.index_of(i);
                assert(places[k] == i);
            } else {
                assert(places[before.len() as int] == i);
            }
        }
    }
}

/// Every service that is neither protected nor on the stop list is offered, in
/// the order of the report, and no other.
pub proof fn unlisted_services_are_offered(
    services: &[ServiceInfo],
    denied: &[bool],
    listed: &[String],
    r: Vec<usize>,
)
    requires
        call_ensures(editors::discover_services, (services, denied, listed), r),
        denied@.len() == services@.len(),
    ensures
        forall|i: usize| #[trigger]
            r@.contains(i) <==> i < services@.len() && !denied@[i as int] && !names(
                listed@,
                services@[i as int].name@,
            ),
        forall|j: int, k: int|
            0 <= j < k < r@.len() ==> (#[trigger] r@[j]) < (#[trigger] r@[k]),
{
    let all = text::texts(listed@);
    assert(services.len() == services@.len());
    lemma_service_places(services@, denied@, all, services@.len());
    assert forall|i: usize| #[trigger]
        r@.contains(i) <==> i < services@.len() && !denied@[i as int] && !names(
            listed@,
            services@[i as int].name@,
        ) by {
        lemma_names(listed@, services@[i as int].name@);
        if r@.contains(i) {
            let k = r@.index_of(i);
            assert(r@[k] == i);
        }
    }
}

/// Each state of a service has its word and its tone.
pub proof fn states_have_words(status: ServiceStatusKind, r: (Tone, &'static str))
    requires
        call_ensures(editors::service_badge, (status,), r),
    ensures
        status is Running ==> r.0 is Success && r.1@ == "Running"@,
        status is Stopped ==> r.0 is TextMuted && r.1@ == "Stopped"@,
        status is Pending ==> r.0 is Warning && r.1@ == "Pending"@,
{
}

/// The line beside the button counts what was loaded; before that it says what
/// to do.
pub proof fn loaded_services_are_counted(count: usize, r: String)
    requires
        call_ensures(editors::loaded_line, (count,), r),
    ensures
        count == 0 ==> r@ == "Click Refresh to load services"@,
        count > 0 ==> r@ == text::decimal(count as nat) + " services loaded."@,
{
}

/// Sizes in the list are written as everywhere else.
pub proof fn sizes_are_written_alike(bytes: u64, here: String, elsewhere: String)
    requires
        call_ensures(editors::format_bytes_compact, (bytes,), here),
        call_ensures(formatters::format_bytes, (bytes,), elsewhere),
    ensures
        here@ == elsewhere@,
{
}

// ── Ticks ───────────────────────────────────────────────────────────────────

/// A name is ticked as the last click on it said, in whatever case it is
/// written, and no other name is touched.
pub proof fn ticks_stay_until_the_next_click(
    ticks: &mut Vec<String>,
    name: &str,
    on: bool,
    other: &str,
    before: bool,
    after: bool,
)
    requires
        call_ensures(editors::ticked, (old(ticks), other), before),
        call_ensures(editors::tick, (ticks, name, on), ()),
        call_ensures(editors::ticked, (final(ticks), other), after),
    ensures
        text::lower(other@) == text::lower(name@) ==> after == on,
        text::lower(other@) != text::lower(name@) ==> after == before,
{
    editors::ticks_follow_the_last_click(text::texts(old(ticks)@), name@, other@, on);
}

/// Nothing is ticked to begin with.
pub proof fn no_ticks_no_names(ticks: &Vec<String>, name: &str, r: bool)
    requires
        call_ensures(editors::ticked, (ticks, name), r),
        ticks@.len() == 0,
    ensures
        !r,
{
    assert(text::texts(ticks@).len() == 0);
}

/// Whether `places` go upwards through a list of names and stand for `added`.
pub open spec fn stand_for(places: Seq<int>, all: Seq<String>, added: Seq<Seq<char>>) -> bool {
    &&& places.len() == added.len()
    &&& forall|k: int|
        0 <= k < places.len() ==> 0 <= #[trigger] places[k] < all.len() && all[places[k]]@
            == added[k]
    &&& forall|j: int, k: int|
        0 <= j < k < places.len() ==> (#[trigger] places[j]) < (#[trigger] places[k])
}

proof fn lemma_added_places(
    items: Seq<Seq<char>>,
    all: Seq<String>,
    ticks: Seq<Seq<char>>,
    n: nat,
) -> (places: Seq<int>)
    requires
        n <= all.len(),
    ensures
        ({
            let after = editors::list_with(items, text::texts(all).take(n as int), ticks);
            &&& items.len() <= after.len()
            &&& after.take(items.len() as int) == items
            &&& stand_for(places, all, after.skip(items.len() as int))
            &&& forall|k: int| 0 <= k < places.len() ==> (#[trigger] places[k]) < n
            &&& forall|k: int|
                0 <= k < places.len() ==> ticks.contains(
                    text::lower(all[#[trigger] places[k]]@),
                )
            &&& forall|j: int, k: int|
                items.len() <= k < after.len() && 0 <= j < k ==> (#[trigger] after[j]) != (
                #[trigger] after[k])
        }),
    decreases n,
{
    let whole = text::texts(all);
    if n == 0 {
        assert(whole.take(0) =~= Seq::empty());
        assert(items.skip(items.len() as int) =~= Seq::empty());
        assert(items.take(items.len() as int) =~= items);
        Seq::empty()
    } else {
        let m = (n - 1) as nat;
        let places = lemma_added_places(items, all, ticks, m);
        assert(whole.take(n as int).drop_last() =~= whole.take(m as int));
        assert(whole.take(n as int).last() == all[m as int]@);
        let before = editors::list_with(items, whole.take(m as int), ticks);
        let after = editors::list_with(items, whole.take(n as int), ticks);
        let name = all[m as int]@;
        if editors::is_ticked(ticks, name) && !before.contains(name) {
            assert(after == before.push(name));
            let longer = places.push(m as int);
            let added = before.skip(items.len() as int);
            assert(after.skip(items.len() as int) =~= added.push(name));
            assert(after.take(items.len() as int) =~= before.take(items.len() as int));
            assert forall|k: int| 0 <= k < longer.len() implies 0 <= #[trigger] longer[k]
                < all.len() && all[longer[k]]@ == added.push(name)[k] && ticks.contains(
                text::lower(all[longer[k]]@),
            ) && longer[k] < n by {
                if k < places.len() {
                    assert(longer[k] == places[k]);
                }
            }
            assert forall|j: int, k: int| 0 <= j < k < longer.len() implies (#[trigger] longer[j])
                < (#[trigger] longer[k]) by {
                assert(longer[j] == places[j]);
                if k < places.len() {
                    assert(longer[k] == places[k]);
                }
            }
            assert forall|j: int, k: int|
                items.len() <= k < after.len() && 0 <= j < k implies (#[trigger] after[j]) != (
            #[trigger] after[k]) by {
                assert(after[j] == before[j]);
                if k < before.len() {
                    assert(after[k] == before[k]);
                } else {
                    assert(before.contains(before[j]));
                }
            }
            longer
        } else {
            places
        }
    }
}

/// Adding keeps the list and puts ticked names behind it: every ticked name is
/// on the list afterwards, in the order given and none of them twice, and no
/// tick is left.
pub proof fn ticked_names_are_added_once(
    items: &mut Vec<String>,
    all: &[String],
    ticks: &mut Vec<String>,
)
    requires
        call_ensures(editors::add_ticked, (items, all, ticks), ()),
    ensures
        ({
            let before = text::texts(old(items)@);
            let after = text::texts(final(items)@);
            &&& before.len() <= after.len()
            &&& after.take(before.len() as int) == before
            &&& exists|places: Seq<int>| #[trigger]
                stand_for(places, all@, after.skip(before.len() as int)) && forall|k: int|
                    0 <= k < places.len() ==> text::texts(old(ticks)@).contains(
                        text::lower(all@[#[trigger] places[k]]@),
                    )
            &&& forall|j: int, k: int|
                before.len() <= k < after.len() && 0 <= j < k ==> (#[trigger] after[j]) != (
                #[trigger] after[k])
            &&& forall|i: int|
                0 <= i < all@.len() && text::texts(old(ticks)@).contains(
                    text::lower((#[trigger] all@[i])@),
                ) ==> after.contains(all@[i]@)
        }),
        final(ticks)@.len() == 0,
{
    let before = text::texts(old(items)@);
    let after = text::texts(final(items)@);
    let whole = text::texts(all@);
    let chosen = text::texts(old(ticks)@);
    assert(whole.len() == all@.len());
    assert(whole.take(whole.len() as int) =~= whole);
    let places = lemma_added_places(before, all@, chosen, all@.len());
    assert(stand_for(places, all@, after.skip(before.len() as int)));
    editors::adding_ticked_names_keeps_the_list(before, whole, chosen);
    assert forall|i: int|
        0 <= i < all@.len() && chosen.contains(
            text::lower((#[trigger] all@[i])@),
        ) implies after.contains(all@[i]@) by {
        assert(whole[i] == all@[i]@);
        assert(editors::is_ticked(chosen, whole[i]));
    }
}

/// The button says how many names it adds, and to which list.
pub proof fn the_add_button_counts(count: usize, list: ListKind, r: String)
    requires
        call_ensures(editors::add_label, (count, list), r),
    ensures
        list is Service ==> r@ == "Add "@ + text::decimal(count as nat)
            + " selected to stop list"@,
        list is Process ==> r@ == "Add "@ + text::decimal(count as nat)
            + " selected to suspend list"@,
{
}

/// A blank entry is not judged. A protected one is an error with its reason, a
/// curated one is fine, and any other is left to the user.
pub proof fn entries_are_judged(
    kind: ListKind,
    entry: &str,
    verdict: &Verdict,
    r: Option<(Tone, String)>,
)
    requires
        call_ensures(editors::verdict_line, (kind, entry, verdict), r),
    ensures
        r is None <==> text_laws::is_blank(entry@),
        r is Some ==> {
            &&& verdict matches Verdict::Denied(reason) ==> (r->0).0 is Error && (r->0).1@
                == "Blocked: "@ + reason@
            &&& verdict is Allowed ==> (r->0).0 is Success && (r->0).1@
                == "OK (in curated allowlist)"@
            &&& verdict is Unlisted ==> (r->0).0 is TextMuted
            &&& verdict is Unlisted && kind is Service ==> (r->0).1@
                == "unknown — accepted, but verify before stopping"@
            &&& verdict is Unlisted && kind is Process ==> (r->0).1@
                == "unknown — accepted, but verify before suspending"@
        },
{
    text_laws::blank_texts_trim_to_nothing(entry@);
}

// ── Settings of a profile ───────────────────────────────────────────────────

/// Switching the system-wide actions on starts with none of them, switching
/// them off drops them, and a switch that is already so keeps them.
pub proof fn actions_start_empty(p: &mut Profile, enabled: bool)
    requires
        call_ensures(editors::set_game_mode, (p, enabled), ()),
    ensures
        onboarding_laws::same_but_actions(*old(p), *final(p)),
        final(p).game_mode is Some == enabled,
        enabled && old(p).game_mode is Some ==> policy_laws::same_profile(*old(p), *final(p)),
        enabled && old(p).game_mode is None ==> {
            let gm = final(p).game_mode->0;
            &&& !gm.hide_taskbar
            &&& gm.focus_assist is None
            &&& gm.stop_services@.len() == 0
            &&& gm.suspend_processes@.len() == 0
            &&& gm.power_plan is None
            &&& !gm.pause_windows_update
            &&& gm.rest@.len() == 0
        },
{
    if enabled && old(p).game_mode is Some {
        policy_laws::lemma_same_profile(*old(p), *final(p));
    }
    if enabled && old(p).game_mode is None {
        let gm = final(p).game_mode->0;
        assert(gm@.stop_services.len() == gm.stop_services@.len());
        assert(gm@.suspend_processes.len() == gm.suspend_processes@.len());
    }
}

/// Clearing the setting that nothing honours clears that setting alone.
pub proof fn only_focus_assist_is_cleared(gm: &mut GameModeActions)
    requires
        call_ensures(editors::clear_focus_assist, (gm,), ()),
    ensures
        final(gm).focus_assist is None,
        final(gm).hide_taskbar == old(gm).hide_taskbar,
        policy_laws::same_texts(final(gm).stop_services@, old(gm).stop_services@),
        policy_laws::same_texts(final(gm).suspend_processes@, old(gm).suspend_processes@),
        policy_laws::same_plan(final(gm).power_plan, old(gm).power_plan),
        final(gm).pause_windows_update == old(gm).pause_windows_update,
        final(gm).rest@ == old(gm).rest@,
{
    policy_laws::lemma_same_texts(final(gm).stop_services@, old(gm).stop_services@);
    policy_laws::lemma_same_texts(final(gm).suspend_processes@, old(gm).suspend_processes@);
}

/// The anti-cheat behaviours are offered from the boldest to none at all.
pub proof fn behaviours_are_offered_in_order(r: Vec<AntiCheatProfile>)
    requires
        call_ensures(editors::anti_cheat_options, (), r),
    ensures
        r@.len() == 4,
        r@[0] is Aggressive,
        r@[1] is Hybrid,
        r@[2] is SafeMode,
        r@[3] is Disabled,
{
}

/// Each anti-cheat behaviour has its name and its explanation.
pub proof fn behaviours_are_explained(p: AntiCheatProfile, r: (&'static str, &'static str))
    requires
        call_ensures(editors::describe_anti_cheat, (p,), r),
    ensures
        p is Aggressive ==> r.0@ == "Aggressive"@ && r.1@
            == "Full sledgehammer. Every knob in the Profile applies, including direct modifications to the game process (affinity, priority, CPU sets, I/O priority, power throttling). Recommended for games with no AC concerns (single-player, EAC-with-no-Javelin titles)."@,
        p is Hybrid ==> r.0@ == "Hybrid"@ && r.1@
            == "Environment actions at full strength (services / processes / power / taskbar), but the game process itself is left alone. Recommended for BF6 + EA Javelin: Javelin actively blocks core parking / affinity changes on dual-CCD Ryzen during multiplayer and the press has named Process Lasso as risk-bearing."@,
        p is SafeMode ==> r.0@ == "AC-Safe Mode"@ && r.1@
            == "Environment actions still fire; game-process modifications NEVER fire even if the user-authored profile asks for them. The defensive choice for Vanguard-protected titles (Valorant). Mirrors the Hone approach (1M+ Valorant users, zero AC issues)."@,
        p is Disabled ==> r.0@ == "Disabled"@ && r.1@
            == "Engine enters STANDBY for this profile — no apply, no scans, no ProBalance. Use when even the environment actions are too risky (ESEA conflicts, unknown-AC titles you're paranoid about). You can still manually flip back to a stricter tier later."@,
{
}

/// A setting shows its value, or that it has none.
pub proof fn unset_settings_say_so(current: Option<String>, r: String)
    requires
        call_ensures(editors::combo_text, (current,), r),
    ensures
        current is Some ==> r@ == current->0@,
        current is None ==> r@ == "<unset>"@,
{
}

// ── Power plans ─────────────────────────────────────────────────────────────

/// Whether a choice is what a power plan is.
pub open spec fn is_choice_of(choice: PlanChoice, plan: Option<PowerPlanId>) -> bool {
    match plan {
        None => choice is Unset,
        Some(PowerPlanId::Balanced) => choice is Balanced,
        Some(PowerPlanId::HighPerformance) => choice is HighPerformance,
        Some(PowerPlanId::PowerSaver) => choice is PowerSaver,
        Some(PowerPlanId::UltimatePerformance) => choice is UltimatePerformance,
        Some(PowerPlanId::Custom(_)) => choice is Custom,
    }
}

/// Each power plan is its own choice, under its own name.
pub proof fn plans_are_choices(
    plan: &Option<PowerPlanId>,
    choice: PlanChoice,
    label: &'static str,
)
    requires
        call_ensures(PlanChoice::of, (plan,), choice),
        call_ensures(PlanChoice::label, (choice,), label),
    ensures
        is_choice_of(choice, *plan),
        choice is Unset ==> label@ == "<unset>"@,
        choice is Balanced ==> label@ == "Balanced"@,
        choice is HighPerformance ==> label@ == "High Performance"@,
        choice is PowerSaver ==> label@ == "Power Saver"@,
        choice is UltimatePerformance ==> label@ == "Ultimate Performance"@,
        choice is Custom ==> label@ == "<custom>"@,
{
}

/// A choice stands. Choosing what is there keeps it, GUID and all; a custom
/// plan that is new has no GUID yet.
pub proof fn plan_choices_stand(plan: &mut Option<PowerPlanId>, choice: PlanChoice)
    requires
        call_ensures(editors::choose_plan, (plan, choice), ()),
    ensures
        is_choice_of(choice, *final(plan)),
        is_choice_of(choice, *old(plan)) ==> policy_laws::same_plan(*old(plan), *final(plan)),
        choice is Custom && !is_choice_of(choice, *old(plan)) ==> (
        *final(plan))->0->Custom_0@.len() == 0,
{
}

// ── Processor selectors ─────────────────────────────────────────────────────

/// Whether a kind is what a selector is.
pub open spec fn is_kind_of(kind: CpuSelectorKind, sel: Option<CpuSelector>) -> bool {
    match sel {
        None => kind is Unset,
        Some(CpuSelector::All) => kind is All,
        Some(CpuSelector::Kind(_)) => kind is Kind,
        Some(CpuSelector::Ccd(_)) => kind is Ccd,
        Some(CpuSelector::CcdNot(_)) => kind is CcdNot,
        Some(CpuSelector::TopRanked(_)) => kind is TopRanked,
        Some(CpuSelector::Mask(_)) => kind is Mask,
    }
}

/// Each selector has its kind, and each kind its name.
pub proof fn selectors_have_kinds(
    sel: Option<&CpuSelector>,
    kind: CpuSelectorKind,
    label: &'static str,
)
    requires
        call_ensures(CpuSelectorKind::from_option, (sel,), kind),
        call_ensures(CpuSelectorKind::label, (kind,), label),
    ensures
        sel is None ==> kind is Unset,
        sel is Some ==> is_kind_of(kind, Some(*sel->0)),
        kind is Unset ==> label@ == "— (unset)"@,
        kind is All ==> label@ == "All cores"@,
        kind is Kind ==> label@ == "By core kind"@,
        kind is Ccd ==> label@ == "CCD by index"@,
        kind is CcdNot ==> label@ == "Everything except CCD"@,
        kind is TopRanked ==> label@ == "Top N by CPPC rank"@,
        kind is Mask ==> label@ == "Explicit bitmask"@,
{
}

/// A kind starts with a selector of that kind: the cache cores, the first die,
/// all but the second, the best eight, the lowest sixteen.
pub proof fn kinds_start_with_a_selector(kind: CpuSelectorKind, r: Option<CpuSelector>)
    requires
        call_ensures(CpuSelectorKind::default_value, (kind,), r),
    ensures
        is_kind_of(kind, r),
        kind is Kind ==> r == Some(CpuSelector::Kind(CoreKind::Cache)),
        kind is Ccd ==> r == Some(CpuSelector::Ccd(0)),
        kind is CcdNot ==> r == Some(CpuSelector::CcdNot(1)),
        kind is TopRanked ==> r == Some(CpuSelector::TopRanked(8)),
        kind is Mask ==> r == Some(CpuSelector::Mask(0xffff)),
{
}

/// A choice of kind stands; the kind that is there keeps its selector, a new
/// one starts with its first.
pub proof fn kind_choices_stand(
    sel: &mut Option<CpuSelector>,
    kind: CpuSelectorKind,
    start: Option<CpuSelector>,
)
    requires
        call_ensures(editors::choose_selector_kind, (sel, kind), ()),
        call_ensures(CpuSelectorKind::default_value, (kind,), start),
    ensures
        is_kind_of(kind, *final(sel)),
        is_kind_of(kind, *old(sel)) ==> *final(sel) == *old(sel),
        !is_kind_of(kind, *old(sel)) ==> *final(sel) == start,
{
}

/// A selector in words names its kind and then its value; a mask is spelled out
/// by its processors.
pub proof fn selectors_are_put_in_words(selector: Option<&CpuSelector>, r: String)
    requires
        call_ensures(editors::selector_text, (selector,), r),
    ensures
        match selector {
            None => r@ == "<unset>"@,
            Some(CpuSelector::All) => r@ == "All cores"@,
            Some(CpuSelector::Kind(CoreKind::Performance)) => r@ == "By core kind"@ + ": "@
                + "Performance"@,
            Some(CpuSelector::Kind(CoreKind::Efficiency)) => r@ == "By core kind"@ + ": "@
                + "Efficiency"@,
            Some(CpuSelector::Kind(CoreKind::Cache)) => r@ == "By core kind"@ + ": "@ + "Cache"@,
            Some(CpuSelector::Ccd(n)) => r@ == "CCD by index"@ + " "@ + text::decimal(*n as nat),
            Some(CpuSelector::CcdNot(n)) => r@ == "Everything except CCD"@ + " "@ + text::decimal(
                *n as nat,
            ),
            Some(CpuSelector::TopRanked(n)) => r@ == "Top N by CPPC rank"@ + ": "@
                + text::decimal(*n as nat),
            Some(CpuSelector::Mask(m)) => r@ == formatters::affinity_text(*m),
        },
{
}

/// The editor offers sixteen dies, and from one up to 128 ranked cores.
pub proof fn the_editor_has_limits()
    ensures
        editors::MAX_CCD == 15,
        editors::MIN_RANKED == 1,
        editors::MAX_RANKED == 128,
{
}

} // verus!
