//! The profile editor: the lists of services and processes, what can be added
//! to them, and the settings that are chosen from a list.

use vstd::prelude::*;

use crate::formatters;
use crate::ipc::{ProcessSnapshot, ServiceInfo, ServiceStatusKind};
use crate::policy::{
    self, AntiCheatProfile, CoreKind, CpuSelector, GameModeActions, GameModeView, PowerPlanId,
    PowerPlanView, Profile, ProfileView,
};
use crate::sorting;
use crate::text;
use crate::theme::Tone;

verus! {

// ── Picking from what is running ────────────────────────────────────────────

/// Whether some text of a list equals `s` up to case.
pub open spec fn lists_name(items: Seq<Seq<char>>, s: Seq<char>) -> bool {
    exists|i: int| 0 <= i < items.len() && text::lower(#[trigger] items[i]) == text::lower(s)
}

fn has_name(items: &[String], s: &str) -> (r: bool)
    ensures
        r == lists_name(text::texts(items@), s@),
{
    for i in 0..items.len()
        invariant
            forall|j: int|
                0 <= j < i ==> text::lower(#[trigger] text::texts(items@)[j]) != text::lower(s@),
    {
        assert(text::texts(items@)[i as int] == items@[i as int]@);
        if text::same_ignoring_case(items[i].as_str(), s) {
            return true;
        }
    }
    false
}

fn has_text(items: &Vec<String>, s: &str) -> (r: bool)
    ensures
        r == text::texts(items@).contains(s@),
{
    for i in 0..items.len()
        invariant
            forall|j: int| 0 <= j < i ==> (#[trigger] text::texts(items@)[j]) != s@,
    {
        assert(text::texts(items@)[i as int] == items@[i as int]@);
        if text::same_text(items[i].as_str(), s) {
            return true;
        }
    }
    false
}

/// Most processes that are offered.
pub const MAX_CANDIDATES: usize = 30;

/// Whether a process is offered for the suspend list: it is no part of the
/// kernel, is not on the list yet, may be suspended, and uses the processor.
pub open spec fn is_candidate(
    p: ProcessSnapshot,
    is_denied: bool,
    listed: Seq<Seq<char>>,
) -> bool {
    &&& p.pid != 0
    &&& p.pid != 4
    &&& !lists_name(listed, p.exe_name@)
    &&& !is_denied
    &&& p.cpu_percent >= 1
}

/// The places of the first `n` processes that are offered.
pub open spec fn candidates_upto(
    rows: Seq<ProcessSnapshot>,
    denied: Seq<bool>,
    listed: Seq<Seq<char>>,
    n: nat,
) -> Seq<usize>
    decreases n,
{
    if n == 0 {
        Seq::empty()
    } else {
        let before = candidates_upto(rows, denied, listed, (n - 1) as nat);
        if is_candidate(rows[n - 1], denied[n - 1], listed) {
            before.push((n - 1) as usize)
        } else {
            before
        }
    }
}

/// The busiest first.
pub open spec fn busier(rows: Seq<ProcessSnapshot>, places: Seq<usize>) -> spec_fn(
    usize,
    usize,
) -> bool {
    |x: usize, y: usize|
        rows[places[x as int] as int].cpu_percent >= rows[places[y as int] as int].cpu_percent
}

/// The first entries of a list, up to the number that is offered.
pub open spec fn capped(places: Seq<usize>) -> Seq<usize> {
    if places.len() > MAX_CANDIDATES {
        places.take(MAX_CANDIDATES as int)
    } else {
        places
    }
}

/// The places of the processes that are offered, the busiest first, ties in
/// list order, up to a limit.
pub open spec fn offered_processes(
    rows: Seq<ProcessSnapshot>,
    denied: Seq<bool>,
    listed: Seq<Seq<char>>,
) -> Seq<usize> {
    let places = candidates_upto(rows, denied, listed, rows.len());
    capped(
        sorting::sorted_positions(places.len(), busier(rows, places)).map_values(
            |i: usize| places[i as int],
        ),
    )
}

proof fn lemma_candidates_in_range(
    rows: Seq<ProcessSnapshot>,
    denied: Seq<bool>,
    listed: Seq<Seq<char>>,
    n: nat,
)
    requires
        n <= rows.len(),
        rows.len() <= usize::MAX,
    ensures
        forall|k: int|
            0 <= k < candidates_upto(rows, denied, listed, n).len() ==> (
            #[trigger] candidates_upto(rows, denied, listed, n)[k]) < n,
    decreases n,
{
    if n > 0 {
        lemma_candidates_in_range(rows, denied, listed, (n - 1) as nat);
        let before = candidates_upto(rows, denied, listed, (n - 1) as nat);
        let all = candidates_upto(rows, denied, listed, n);
        assert forall|k: int| 0 <= k < all.len() implies (#[trigger] all[k]) < n by {
            if k < before.len() {
                assert(all[k] == before[k]);
            }
        }
    }
}

/// Finds the processes that are offered for the suspend list. `denied` says of
/// each whether it must never be suspended.
pub fn discover_processes(
    rows: &[ProcessSnapshot],
    denied: &[bool],
    suspend_processes: &[String],
) -> (r: Vec<usize>)
    requires
        denied@.len() == rows@.len(),
    ensures
        r@ == offered_processes(rows@, denied@, text::texts(suspend_processes@)),
{
    let ghost listed = text::texts(suspend_processes@);
    let mut places: Vec<usize> = Vec::new();
    for i in 0..rows.len()
        invariant
            denied@.len() == rows@.len(),
            listed == text::texts(suspend_processes@),
            places@ == candidates_upto(rows@, denied@, listed, i as nat),
    {
        let p = &rows[i];
        if p.pid != 0 && p.pid != 4 && !has_name(suspend_processes, p.exe_name.as_str())
            && !denied[i] && p.cpu_percent >= 1 {
            places.push(i);
        }
    }
    assert(rows.len() == rows@.len());
    proof {
        lemma_candidates_in_range(rows@, denied@, listed, rows@.len());
    }
    let ghost leq = busier(rows@, places@);
    let not_after = |x: usize, y: usize| -> (b: bool)
        requires
            x < places@.len(),
            y < places@.len(),
            forall|k: int| 0 <= k < places@.len() ==> (#[trigger] places@[k]) < rows@.len(),
        ensures
            b == (rows@[places@[x as int] as int].cpu_percent
                >= rows@[places@[y as int] as int].cpu_percent),
        {
            assert(places@[x as int] < rows@.len());
            assert(places@[y as int] < rows@.len());
            rows[places[x]].cpu_percent >= rows[places[y]].cpu_percent
        };
    let order = sorting::sort_positions(places.len(), not_after, Ghost(leq));
    let shown: usize = if order.len() > MAX_CANDIDATES {
        MAX_CANDIDATES
    } else {
        order.len()
    };
    let ghost sorted = order@.map_values(|i: usize| places@[i as int]);
    let mut out: Vec<usize> = Vec::new();
    for k in 0..shown
        invariant
            shown <= order@.len(),
            sorted == order@.map_values(|i: usize| places@[i as int]),
            forall|j: int| 0 <= j < order@.len() ==> (#[trigger] order@[j]) < places@.len(),
            out@ == sorted.take(k as int),
    {
        assert(order@[k as int] < places@.len());
        out.push(places[order[k]]);
        assert(out@ =~= sorted.take(k + 1));
    }
    assert(sorted.take(shown as int) =~= capped(sorted));
    out
}

proof fn lemma_candidates_are_candidates(
    rows: Seq<ProcessSnapshot>,
    denied: Seq<bool>,
    listed: Seq<Seq<char>>,
    n: nat,
    k: int,
)
    requires
        n <= rows.len(),
        rows.len() <= usize::MAX,
        0 <= k < candidates_upto(rows, denied, listed, n).len(),
    ensures
        ({
            let i = candidates_upto(rows, denied, listed, n)[k] as int;
            i < n && is_candidate(rows[i], denied[i], listed)
        }),
    decreases n,
{
    let before = candidates_upto(rows, denied, listed, (n - 1) as nat);
    if k < before.len() {
        lemma_candidates_are_candidates(rows, denied, listed, (n - 1) as nat, k);
    }
}

/// Only processes that may be suspended and are not on the list yet are
/// offered, the busiest first, and never more than the limit.
pub proof fn only_candidates_are_offered(
    rows: Seq<ProcessSnapshot>,
    denied: Seq<bool>,
    listed: Seq<Seq<char>>,
)
    requires
        denied.len() == rows.len(),
        rows.len() <= usize::MAX,
    ensures
        ({
            let offered = offered_processes(rows, denied, listed);
            &&& offered.len() <= MAX_CANDIDATES
            &&& forall|k: int|
                0 <= k < offered.len() ==> (#[trigger] offered[k]) < rows.len() && is_candidate(
                    rows[offered[k] as int],
                    denied[offered[k] as int],
                    listed,
                )
            &&& forall|j: int, k: int|
                0 <= j < k < offered.len() ==> rows[(#[trigger] offered[j]) as int].cpu_percent
                    >= rows[(#[trigger] offered[k]) as int].cpu_percent
        }),
{
    let places = candidates_upto(rows, denied, listed, rows.len());
    let leq = busier(rows, places);
    lemma_candidates_few(rows, denied, listed, rows.len());
    sorting::sorting_is_a_stable_permutation(places.len(), leq);
    let order = sorting::sorted_positions(places.len(), leq);
    let offered = offered_processes(rows, denied, listed);
    assert forall|k: int| 0 <= k < offered.len() implies (#[trigger] offered[k]) < rows.len()
        && is_candidate(rows[offered[k] as int], denied[offered[k] as int], listed) by {
        assert(offered[k] == places[order[k] as int]);
        lemma_candidates_are_candidates(rows, denied, listed, rows.len(), order[k] as int);
    }
    assert forall|j: int, k: int| 0 <= j < k < offered.len() implies rows[(
    #[trigger] offered[j]) as int].cpu_percent >= rows[(
    #[trigger] offered[k]) as int].cpu_percent by {
        assert(offered[j] == places[order[j] as int]);
        assert(offered[k] == places[order[k] as int]);
        assert(leq(order[j], order[k]));
    }
}

proof fn lemma_candidates_few(
    rows: Seq<ProcessSnapshot>,
    denied: Seq<bool>,
    listed: Seq<Seq<char>>,
    n: nat,
)
    ensures
        candidates_upto(rows, denied, listed, n).len() <= n,
    decreases n,
{
    if n > 0 {
        lemma_candidates_few(rows, denied, listed, (n - 1) as nat);
    }
}

/// The places of the first `n` services that are offered for the stop list:
/// not on it yet, and not among those that must never be stopped.
pub open spec fn services_upto(
    services: Seq<ServiceInfo>,
    denied: Seq<bool>,
    listed: Seq<Seq<char>>,
    n: nat,
) -> Seq<usize>
    decreases n,
{
    if n == 0 {
        Seq::empty()
    } else {
        let before = services_upto(services, denied, listed, (n - 1) as nat);
        if !lists_name(listed, services[n - 1].name@) && !denied[n - 1] {
            before.push((n - 1) as usize)
        } else {
            before
        }
    }
}

/// Finds the services that are offered for the stop list, in the order in
/// which they were reported.
pub fn discover_services(
    services: &[ServiceInfo],
    denied: &[bool],
    stop_services: &[String],
) -> (r: Vec<usize>)
    requires
        denied@.len() == services@.len(),
    ensures
        r@ == services_upto(
            services@,
            denied@,
            text::texts(stop_services@),
            services@.len(),
        ),
{
    let ghost listed = text::texts(stop_services@);
    let mut places: Vec<usize> = Vec::new();
    for i in 0..services.len()
        invariant
            denied@.len() == services@.len(),
            listed == text::texts(stop_services@),
            places@ == services_upto(services@, denied@, listed, i as nat),
    {
        if !has_name(stop_services, services[i].name.as_str()) && !denied[i] {
            places.push(i);
        }
    }
    places
}

/// The tone and the word for a service's state.
pub fn service_badge(status: ServiceStatusKind) -> (r: (Tone, &'static str))
    ensures
        r.0 == (match status {
            ServiceStatusKind::Running => Tone::Success,
            ServiceStatusKind::Stopped => Tone::TextMuted,
            ServiceStatusKind::Pending => Tone::Warning,
        }),
        r.1@ == (match status {
            ServiceStatusKind::Running => "Running"@,
            ServiceStatusKind::Stopped => "Stopped"@,
            ServiceStatusKind::Pending => "Pending"@,
        }),
{
    match status {
        ServiceStatusKind::Running => (Tone::Success, "Running"),
        ServiceStatusKind::Stopped => (Tone::TextMuted, "Stopped"),
        ServiceStatusKind::Pending => (Tone::Warning, "Pending"),
    }
}

/// What stands beside the button that loads the services.
pub open spec fn loaded_text(count: nat) -> Seq<char> {
    if count == 0 {
        "Click Refresh to load services"@
    } else {
        text::decimal(count) + " services loaded."@
    }
}

/// Writes what stands beside the button that loads the services.
pub fn loaded_line(count: usize) -> (r: String)
    ensures
        r@ == loaded_text(count as nat),
{
    if count == 0 {
        "Click Refresh to load services".to_owned()
    } else {
        let mut out = text::format_decimal(count as u64);
        out.append(" services loaded.");
        out
    }
}

/// A size in the list of what is running.
pub fn format_bytes_compact(bytes: u64) -> (r: String)
    ensures
        r@ == formatters::byte_text(bytes as nat),
{
    formatters::format_bytes(bytes)
}

// ── Ticks ───────────────────────────────────────────────────────────────────

/// Whether a name is ticked. Ticks are kept in lower case.
pub open spec fn is_ticked(ticks: Seq<Seq<char>>, name: Seq<char>) -> bool {
    ticks.contains(text::lower(name))
}

/// The ticks after a name was ticked or unticked.
pub open spec fn ticks_after(ticks: Seq<Seq<char>>, name: Seq<char>, on: bool) -> Seq<Seq<char>> {
    let key = text::lower(name);
    if on {
        if ticks.contains(key) {
            ticks
        } else {
            ticks.push(key)
        }
    } else {
        ticks.filter(|t: Seq<char>| t != key)
    }
}

/// Ticks a name, or takes its tick away.
pub fn tick(ticks: &mut Vec<String>, name: &str, on: bool)
    ensures
        text::texts(final(ticks)@) == ticks_after(text::texts(old(ticks)@), name@, on),
{
    let key = text::to_lower(name);
    if on {
        if !has_text(ticks, key.as_str()) {
            let ghost before = text::texts(ticks@);
            ticks.push(key);
            assert(text::texts(ticks@) =~= before.push(key@));
        }
    } else {
        let ghost before = text::texts(ticks@);
        let ghost other = |t: Seq<char>| t != text::lower(name@);
        let mut kept: Vec<String> = Vec::new();
        proof {
            reveal(Seq::filter);
            assert(before.take(0) =~= Seq::empty());
            assert(text::texts(kept@) =~= before.take(0).filter(other));
        }
        for i in 0..ticks.len()
            invariant
                before == text::texts(ticks@),
                key@ == text::lower(name@),
                other == |t: Seq<char>| t != text::lower(name@),
                text::texts(kept@) == before.take(i as int).filter(other),
        {
            let ghost done = text::texts(kept@);
            proof {
                reveal(Seq::filter);
                assert(before.take(i + 1).drop_last() =~= before.take(i as int));
                assert(before.take(i + 1).last() == ticks@[i as int]@);
            }
            if !text::same_text(ticks[i].as_str(), key.as_str()) {
                kept.push(ticks[i].clone());
                assert(text::texts(kept@) =~= done.push(ticks@[i as int]@));
            }
        }
        assert(before.take(before.len() as int) =~= before);
        *ticks = kept;
    }
}

/// Whether a name is ticked.
pub fn ticked(ticks: &Vec<String>, name: &str) -> (r: bool)
    ensures
        r == is_ticked(text::texts(ticks@), name@),
{
    let key = text::to_lower(name);
    has_text(ticks, key.as_str())
}

/// Ticking a name ticks it in every case, and taking the tick away undoes
/// that. No other name is touched.
pub proof fn ticks_follow_the_last_click(
    ticks: Seq<Seq<char>>,
    name: Seq<char>,
    other: Seq<char>,
    on: bool,
)
    ensures
        is_ticked(ticks_after(ticks, name, on), other) == (if text::lower(other) == text::lower(
            name,
        ) {
            on
        } else {
            is_ticked(ticks, other)
        }),
{
    let key = text::lower(name);
    let sought = text::lower(other);
    let keep = |t: Seq<char>| t != key;
    if on {
        if !ticks.contains(key) {
            let after = ticks.push(key);
            assert(after[ticks.len() as int] == key);
            if ticks.contains(sought) {
                let k = ticks.index_of(sought);
                assert(after[k] == sought);
            }
            if after.contains(sought) {
                let k = after.index_of(sought);
                if k < ticks.len() {
                    assert(ticks[k] == sought);
                }
            }
        }
    } else {
        let after = ticks.filter(keep);
        broadcast use vstd::seq_lib::group_filter_ensures;

        if after.contains(sought) {
            let k = after.index_of(sought);
            assert(keep(after[k]));
            ticks.lemma_filter_contains_rev(keep, sought);
        }
        if ticks.contains(sought) && sought != key {
            let k = ticks.index_of(sought);
            assert(keep(ticks[k]));
            assert(after.contains(ticks[k]));
        }
    }
}

/// A list with the ticked names added, in the order given; a name that is on
/// the list is not added again.
pub open spec fn list_with(
    items: Seq<Seq<char>>,
    names: Seq<Seq<char>>,
    ticks: Seq<Seq<char>>,
) -> Seq<Seq<char>>
    decreases names.len(),
{
    if names.len() == 0 {
        items
    } else {
        let before = list_with(items, names.drop_last(), ticks);
        if is_ticked(ticks, names.last()) && !before.contains(names.last()) {
            before.push(names.last())
        } else {
            before
        }
    }
}

/// Adds the ticked names to a list, and takes all ticks away.
pub fn add_ticked(items: &mut Vec<String>, names: &[String], ticks: &mut Vec<String>)
    ensures
        text::texts(final(items)@) == list_with(
            text::texts(old(items)@),
            text::texts(names@),
            text::texts(old(ticks)@),
        ),
        final(ticks)@.len() == 0,
{
    let ghost first = text::texts(items@);
    let ghost all = text::texts(names@);
    let ghost chosen = text::texts(ticks@);
    assert(all.take(0) =~= Seq::empty());
    for i in 0..names.len()
        invariant
            all == text::texts(names@),
            chosen == text::texts(ticks@),
            text::texts(items@) == list_with(first, all.take(i as int), chosen),
    {
        proof {
            assert(all.take(i + 1).drop_last() =~= all.take(i as int));
            assert(all.take(i + 1).last() == names@[i as int]@);
        }
        let ghost before = text::texts(items@);
        if ticked(ticks, names[i].as_str()) && !has_text(items, names[i].as_str()) {
            items.push(names[i].clone());
            assert(text::texts(items@) =~= before.push(names@[i as int]@));
        }
    }
    assert(all.take(all.len() as int) =~= all);
    *ticks = Vec::new();
}

/// Adding keeps what is on the list, in place, and puts every ticked name on
/// it.
pub proof fn adding_ticked_names_keeps_the_list(
    items: Seq<Seq<char>>,
    names: Seq<Seq<char>>,
    ticks: Seq<Seq<char>>,
)
    ensures
        items.len() <= list_with(items, names, ticks).len(),
        list_with(items, names, ticks).take(items.len() as int) == items,
        forall|i: int|
            0 <= i < names.len() && is_ticked(ticks, #[trigger] names[i]) ==> list_with(
                items,
                names,
                ticks,
            ).contains(names[i]),
    decreases names.len(),
{
    if names.len() == 0 {
        assert(items.take(items.len() as int) =~= items);
    } else {
        let shorter = names.drop_last();
        adding_ticked_names_keeps_the_list(items, shorter, ticks);
        let before = list_with(items, shorter, ticks);
        let after = list_with(items, names, ticks);
        assert(after.take(items.len() as int) =~= before.take(items.len() as int));
        assert forall|i: int| 0 <= i < names.len() && is_ticked(
            ticks,
            #[trigger] names[i],
        ) implies after.contains(names[i]) by {
            if i < shorter.len() {
                assert(shorter[i] == names[i]);
                let k = before.index_of(names[i]);
                assert(after[k] == names[i]);
            } else if !before.contains(names.last()) {
                assert(after[before.len() as int] == names.last());
            }
        }
    }
}

/// The text of the button that adds the ticked names.
pub fn add_label(count: usize, list: ListKind) -> (r: String)
    ensures
        r@ == "Add "@ + text::decimal(count as nat) + (match list {
            ListKind::Service => " selected to stop list"@,
            ListKind::Process => " selected to suspend list"@,
        }),
{
    let mut out = "Add ".to_owned();
    let digits = text::format_decimal(count as u64);
    out.append(digits.as_str());
    match list {
        ListKind::Service => out.append(" selected to stop list"),
        ListKind::Process => out.append(" selected to suspend list"),
    }
    out
}

// ── Entries that must not be touched ────────────────────────────────────────

/// What a list of the editor holds.
#[derive(Debug, Clone, Copy, PartialEq, Eq, Structural)]
pub enum ListKind {
    Service,
    Process,
}

/// What the curated lists say about an entry.
#[derive(Debug, PartialEq, Eq)]
pub enum Verdict {
    /// Never touched, for this reason.
    Denied(String),
    Allowed,
    Unlisted,
}

/// What stands beside an entry.
pub open spec fn verdict_text(kind: ListKind, verdict: Verdict) -> Seq<char> {
    match verdict {
        Verdict::Denied(reason) => "Blocked: "@ + reason@,
        Verdict::Allowed => "OK (in curated allowlist)"@,
        Verdict::Unlisted => match kind {
            ListKind::Service => "unknown — accepted, but verify before stopping"@,
            ListKind::Process => "unknown — accepted, but verify before suspending"@,
        },
    }
}

/// Writes what stands beside an entry; a blank entry gets nothing.
pub fn verdict_line(kind: ListKind, entry: &str, verdict: &Verdict) -> (r: Option<(Tone, String)>)
    ensures
        r is None == (text::trim(entry@).len() == 0),
        match r {
            Some((tone, line)) => {
                &&& tone == (match *verdict {
                    Verdict::Denied(_) => Tone::Error,
                    Verdict::Allowed => Tone::Success,
                    Verdict::Unlisted => Tone::TextMuted,
                })
                &&& line@ == verdict_text(kind, *verdict)
            },
            None => true,
        },
{
    let trimmed = text::trimmed(entry);
    if trimmed.as_str().unicode_len() == 0 {
        return None;
    }
    Some(
        match verdict {
            Verdict::Denied(reason) => {
                let mut out = "Blocked: ".to_owned();
                out.append(reason.as_str());
                (Tone::Error, out)
            },
            Verdict::Allowed => (Tone::Success, "OK (in curated allowlist)".to_owned()),
            Verdict::Unlisted => (
                Tone::TextMuted,
                match kind {
                    ListKind::Service =>
                        "unknown — accepted, but verify before stopping".to_owned(),
                    ListKind::Process =>
                        "unknown — accepted, but verify before suspending".to_owned(),
                },
            ),
        },
    )
}

// ── Settings of a profile ───────────────────────────────────────────────────

/// A profile with its system-wide actions switched on or off. Switching on
/// starts with actions that do nothing; no change leaves them alone.
pub fn set_game_mode(p: &mut Profile, enabled: bool)
    ensures
        final(p)@ == (ProfileView {
            game_mode: if enabled == (old(p).game_mode is Some) {
                old(p)@.game_mode
            } else if enabled {
                Some(policy::no_actions())
            } else {
                None
            },
            ..old(p)@
        }),
{
    if enabled != p.game_mode.is_some() {
        p.game_mode = if enabled {
            Some(GameModeActions::default())
        } else {
            None
        };
    }
}

/// Clears the setting that nothing honours.
pub fn clear_focus_assist(gm: &mut GameModeActions)
    ensures
        final(gm)@ == (GameModeView { focus_assist: None, ..old(gm)@ }),
{
    gm.focus_assist = None;
}

/// The name of an anti-cheat behaviour.
pub open spec fn anti_cheat_text(p: AntiCheatProfile) -> Seq<char> {
    match p {
        AntiCheatProfile::Aggressive => "Aggressive"@,
        AntiCheatProfile::Hybrid => "Hybrid"@,
        AntiCheatProfile::SafeMode => "AC-Safe Mode"@,
        AntiCheatProfile::Disabled => "Disabled"@,
    }
}

/// What an anti-cheat behaviour means.
pub open spec fn anti_cheat_explanation(p: AntiCheatProfile) -> Seq<char> {
    match p {
        AntiCheatProfile::Aggressive =>
            "Full sledgehammer. Every knob in the Profile applies, including direct modifications to the game process (affinity, priority, CPU sets, I/O priority, power throttling). Recommended for games with no AC concerns (single-player, EAC-with-no-Javelin titles)."@,
        AntiCheatProfile::Hybrid =>
            "Environment actions at full strength (services / processes / power / taskbar), but the game process itself is left alone. Recommended for BF6 + EA Javelin: Javelin actively blocks core parking / affinity changes on dual-CCD Ryzen during multiplayer and the press has named Process Lasso as risk-bearing."@,
        AntiCheatProfile::SafeMode =>
            "Environment actions still fire; game-process modifications NEVER fire even if the user-authored profile asks for them. The defensive choice for Vanguard-protected titles (Valorant). Mirrors the Hone approach (1M+ Valorant users, zero AC issues)."@,
        AntiCheatProfile::Disabled =>
            "Engine enters STANDBY for this profile — no apply, no scans, no ProBalance. Use when even the environment actions are too risky (ESEA conflicts, unknown-AC titles you're paranoid about). You can still manually flip back to a stricter tier later."@,
    }
}

/// The anti-cheat behaviours in the order of the editor.
pub open spec fn anti_cheat_order() -> Seq<AntiCheatProfile> {
    seq![
        AntiCheatProfile::Aggressive,
        AntiCheatProfile::Hybrid,
        AntiCheatProfile::SafeMode,
        AntiCheatProfile::Disabled,
    ]
}

/// Lists the anti-cheat behaviours in the order of the editor.
pub fn anti_cheat_options() -> (r: Vec<AntiCheatProfile>)
    ensures
        r@ == anti_cheat_order(),
{
    let mut out: Vec<AntiCheatProfile> = Vec::new();
    out.push(AntiCheatProfile::Aggressive);
    out.push(AntiCheatProfile::Hybrid);
    out.push(AntiCheatProfile::SafeMode);
    out.push(AntiCheatProfile::Disabled);
    assert(out@ =~= anti_cheat_order());
    out
}

/// The name of an anti-cheat behaviour and what it means.
pub fn describe_anti_cheat(p: AntiCheatProfile) -> (r: (&'static str, &'static str))
    ensures
        r.0@ == anti_cheat_text(p),
        r.1@ == anti_cheat_explanation(p),
{
    match p {
        AntiCheatProfile::Aggressive => (
            "Aggressive",
            "Full sledgehammer. Every knob in the Profile applies, including direct modifications to the game process (affinity, priority, CPU sets, I/O priority, power throttling). Recommended for games with no AC concerns (single-player, EAC-with-no-Javelin titles).",
        ),
        AntiCheatProfile::Hybrid => (
            "Hybrid",
            "Environment actions at full strength (services / processes / power / taskbar), but the game process itself is left alone. Recommended for BF6 + EA Javelin: Javelin actively blocks core parking / affinity changes on dual-CCD Ryzen during multiplayer and the press has named Process Lasso as risk-bearing.",
        ),
        AntiCheatProfile::SafeMode => (
            "AC-Safe Mode",
            "Environment actions still fire; game-process modifications NEVER fire even if the user-authored profile asks for them. The defensive choice for Vanguard-protected titles (Valorant). Mirrors the Hone approach (1M+ Valorant users, zero AC issues).",
        ),
        AntiCheatProfile::Disabled => (
            "Disabled",
            "Engine enters STANDBY for this profile — no apply, no scans, no ProBalance. Use when even the environment actions are too risky (ESEA conflicts, unknown-AC titles you're paranoid about). You can still manually flip back to a stricter tier later.",
        ),
    }
}

/// The text of a setting that may be unset.
pub fn combo_text(current: Option<String>) -> (r: String)
    ensures
        r@ == (match current {
            Some(s) => s@,
            None => "<unset>"@,
        }),
{
    match current {
        Some(s) => s,
        None => "<unset>".to_owned(),
    }
}

// ── Power plans ─────────────────────────────────────────────────────────────

/// A power plan without the GUID of a custom one.
#[derive(Debug, Clone, Copy, PartialEq, Eq, Structural)]
pub enum PlanChoice {
    Unset,
    Balanced,
    HighPerformance,
    PowerSaver,
    UltimatePerformance,
    Custom,
}

/// The choice that a power plan is.
pub open spec fn plan_choice(plan: Option<PowerPlanView>) -> PlanChoice {
    match plan {
        None => PlanChoice::Unset,
        Some(PowerPlanView::Balanced) => PlanChoice::Balanced,
        Some(PowerPlanView::HighPerformance) => PlanChoice::HighPerformance,
        Some(PowerPlanView::PowerSaver) => PlanChoice::PowerSaver,
        Some(PowerPlanView::UltimatePerformance) => PlanChoice::UltimatePerformance,
        Some(PowerPlanView::Custom(_)) => PlanChoice::Custom,
    }
}

/// The power plan that a choice starts with; a custom one has no GUID yet.
pub open spec fn chosen_plan(choice: PlanChoice) -> Option<PowerPlanView> {
    match choice {
        PlanChoice::Unset => None,
        PlanChoice::Balanced => Some(PowerPlanView::Balanced),
        PlanChoice::HighPerformance => Some(PowerPlanView::HighPerformance),
        PlanChoice::PowerSaver => Some(PowerPlanView::PowerSaver),
        PlanChoice::UltimatePerformance => Some(PowerPlanView::UltimatePerformance),
        PlanChoice::Custom => Some(PowerPlanView::Custom(Seq::empty())),
    }
}

impl PlanChoice {
    /// The choice that a power plan is.
    pub fn of(plan: &Option<PowerPlanId>) -> (r: PlanChoice)
        ensures
            r == plan_choice(policy::plan_view(*plan)),
    {
        match plan {
            None => PlanChoice::Unset,
            Some(PowerPlanId::Balanced) => PlanChoice::Balanced,
            Some(PowerPlanId::HighPerformance) => PlanChoice::HighPerformance,
            Some(PowerPlanId::PowerSaver) => PlanChoice::PowerSaver,
            Some(PowerPlanId::UltimatePerformance) => PlanChoice::UltimatePerformance,
            Some(PowerPlanId::Custom(_)) => PlanChoice::Custom,
        }
    }

    /// The text of this choice.
    pub fn label(self) -> (r: &'static str)
        ensures
            r@ == (match self {
                PlanChoice::Unset => "<unset>"@,
                PlanChoice::Balanced => "Balanced"@,
                PlanChoice::HighPerformance => "High Performance"@,
                PlanChoice::PowerSaver => "Power Saver"@,
                PlanChoice::UltimatePerformance => "Ultimate Performance"@,
                PlanChoice::Custom => "<custom>"@,
            }),
    {
        match self {
            PlanChoice::Unset => "<unset>",
            PlanChoice::Balanced => "Balanced",
            PlanChoice::HighPerformance => "High Performance",
            PlanChoice::PowerSaver => "Power Saver",
            PlanChoice::UltimatePerformance => "Ultimate Performance",
            PlanChoice::Custom => "<custom>",
        }
    }
}

/// Takes a choice of power plan over. The choice that is already there keeps
/// its GUID.
pub fn choose_plan(plan: &mut Option<PowerPlanId>, choice: PlanChoice)
    ensures
        policy::plan_view(*final(plan)) == (if plan_choice(policy::plan_view(*old(plan)))
            == choice {
            policy::plan_view(*old(plan))
        } else {
            chosen_plan(choice)
        }),
{
    if PlanChoice::of(plan) != choice {
        *plan = match choice {
            PlanChoice::Unset => None,
            PlanChoice::Balanced => Some(PowerPlanId::Balanced),
            PlanChoice::HighPerformance => Some(PowerPlanId::HighPerformance),
            PlanChoice::PowerSaver => Some(PowerPlanId::PowerSaver),
            PlanChoice::UltimatePerformance => Some(PowerPlanId::UltimatePerformance),
            PlanChoice::Custom => Some(PowerPlanId::Custom(String::new())),
        };
    }
}

/// A choice of power plan stands: the plan it starts with is that choice.
pub proof fn chosen_plans_stand(choice: PlanChoice)
    ensures
        plan_choice(chosen_plan(choice)) == choice,
{
}

// ── Processor selectors ─────────────────────────────────────────────────────

/// A processor selector without its value.
#[derive(Debug, Clone, Copy, PartialEq, Eq, Structural)]
pub enum CpuSelectorKind {
    Unset,
    All,
    Kind,
    Ccd,
    CcdNot,
    TopRanked,
    Mask,
}

/// Highest die index that the editor offers.
pub const MAX_CCD: u32 = 15;

/// Lowest number of ranked cores that the editor offers.
pub const MIN_RANKED: u32 = 1;

/// Highest number of ranked cores that the editor offers.
pub const MAX_RANKED: u32 = 128;

/// The kind of a selector.
pub open spec fn selector_kind(sel: Option<CpuSelector>) -> CpuSelectorKind {
    match sel {
        None => CpuSelectorKind::Unset,
        Some(CpuSelector::All) => CpuSelectorKind::All,
        Some(CpuSelector::Kind(_)) => CpuSelectorKind::Kind,
        Some(CpuSelector::Ccd(_)) => CpuSelectorKind::Ccd,
        Some(CpuSelector::CcdNot(_)) => CpuSelectorKind::CcdNot,
        Some(CpuSelector::TopRanked(_)) => CpuSelectorKind::TopRanked,
        Some(CpuSelector::Mask(_)) => CpuSelectorKind::Mask,
    }
}

/// The selector that a kind starts with.
pub open spec fn first_selector(kind: CpuSelectorKind) -> Option<CpuSelector> {
    match kind {
        CpuSelectorKind::Unset => None,
        CpuSelectorKind::All => Some(CpuSelector::All),
        CpuSelectorKind::Kind => Some(CpuSelector::Kind(CoreKind::Cache)),
        CpuSelectorKind::Ccd => Some(CpuSelector::Ccd(0)),
        CpuSelectorKind::CcdNot => Some(CpuSelector::CcdNot(1)),
        CpuSelectorKind::TopRanked => Some(CpuSelector::TopRanked(8)),
        CpuSelectorKind::Mask => Some(CpuSelector::Mask(0xffff)),
    }
}

/// The text of a kind.
pub open spec fn kind_label(kind: CpuSelectorKind) -> Seq<char> {
    match kind {
        CpuSelectorKind::Unset => "— (unset)"@,
        CpuSelectorKind::All => "All cores"@,
        CpuSelectorKind::Kind => "By core kind"@,
        CpuSelectorKind::Ccd => "CCD by index"@,
        CpuSelectorKind::CcdNot => "Everything except CCD"@,
        CpuSelectorKind::TopRanked => "Top N by CPPC rank"@,
        CpuSelectorKind::Mask => "Explicit bitmask"@,
    }
}

/// The name of a kind of core.
pub open spec fn core_name(kind: CoreKind) -> Seq<char> {
    match kind {
        CoreKind::Performance => "Performance"@,
        CoreKind::Efficiency => "Efficiency"@,
        CoreKind::Cache => "Cache"@,
    }
}

/// A processor choice in words.
pub open spec fn selector_words(selector: Option<CpuSelector>) -> Seq<char> {
    let label = kind_label(selector_kind(selector));
    match selector {
        None => "<unset>"@,
        Some(CpuSelector::All) => label,
        Some(CpuSelector::Kind(kind)) => label + ": "@ + core_name(kind),
        Some(CpuSelector::Ccd(n)) => label + " "@ + text::decimal(n as nat),
        Some(CpuSelector::CcdNot(n)) => label + " "@ + text::decimal(n as nat),
        Some(CpuSelector::TopRanked(n)) => label + ": "@ + text::decimal(n as nat),
        Some(CpuSelector::Mask(mask)) => formatters::affinity_text(mask),
    }
}

/// Puts a processor choice in words.
pub fn selector_text(selector: Option<&CpuSelector>) -> (r: String)
    ensures
        r@ == selector_words(
            match selector {
                Some(s) => Some(*s),
                None => None,
            },
        ),
{
    let mut out = CpuSelectorKind::from_option(selector).label().to_owned();
    match selector {
        None => { return "<unset>".to_owned(); },
        Some(CpuSelector::All) => {},
        Some(CpuSelector::Kind(kind)) => {
            out.append(": ");
            out.append(
                match kind {
                    CoreKind::Performance => "Performance",
                    CoreKind::Efficiency => "Efficiency",
                    CoreKind::Cache => "Cache",
                },
            );
        },
        Some(CpuSelector::Ccd(n)) | Some(CpuSelector::CcdNot(n)) => {
            out.append(" ");
            let digits = text::format_decimal(*n as u64);
            out.append(digits.as_str());
        },
        Some(CpuSelector::TopRanked(n)) => {
            out.append(": ");
            let digits = text::format_decimal(*n as u64);
            out.append(digits.as_str());
        },
        Some(CpuSelector::Mask(mask)) => { return formatters::decode_affinity_mask(*mask); },
    }
    out
}

impl CpuSelectorKind {
    /// The kind of a selector.
    pub fn from_option(sel: Option<&CpuSelector>) -> (r: CpuSelectorKind)
        ensures
            r == selector_kind(
                match sel {
                    Some(s) => Some(*s),
                    None => None,
                },
            ),
    {
        match sel {
            None => CpuSelectorKind::Unset,
            Some(CpuSelector::All) => CpuSelectorKind::All,
            Some(CpuSelector::Kind(_)) => CpuSelectorKind::Kind,
            Some(CpuSelector::Ccd(_)) => CpuSelectorKind::Ccd,
            Some(CpuSelector::CcdNot(_)) => CpuSelectorKind::CcdNot,
            Some(CpuSelector::TopRanked(_)) => CpuSelectorKind::TopRanked,
            Some(CpuSelector::Mask(_)) => CpuSelectorKind::Mask,
        }
    }

    /// The text of this kind.
    pub fn label(self) -> (r: &'static str)
        ensures
            r@ == kind_label(self),
    {
        match self {
            CpuSelectorKind::Unset => "— (unset)",
            CpuSelectorKind::All => "All cores",
            CpuSelectorKind::Kind => "By core kind",
            CpuSelectorKind::Ccd => "CCD by index",
            CpuSelectorKind::CcdNot => "Everything except CCD",
            CpuSelectorKind::TopRanked => "Top N by CPPC rank",
            CpuSelectorKind::Mask => "Explicit bitmask",
        }
    }

    /// The selector that this kind starts with.
    pub fn default_value(self) -> (r: Option<CpuSelector>)
        ensures
            r == first_selector(self),
    {
        match self {
            CpuSelectorKind::Unset => None,
            CpuSelectorKind::All => Some(CpuSelector::All),
            CpuSelectorKind::Kind => Some(CpuSelector::Kind(CoreKind::Cache)),
            CpuSelectorKind::Ccd => Some(CpuSelector::Ccd(0)),
            CpuSelectorKind::CcdNot => Some(CpuSelector::CcdNot(1)),
            CpuSelectorKind::TopRanked => Some(CpuSelector::TopRanked(8)),
            CpuSelectorKind::Mask => Some(CpuSelector::Mask(0xffff)),
        }
    }
}

/// Takes a choice of kind over. The kind that is already there keeps its
/// value.
pub fn choose_selector_kind(sel: &mut Option<CpuSelector>, kind: CpuSelectorKind)
    ensures
        *final(sel) == (if selector_kind(*old(sel)) == kind {
            *old(sel)
        } else {
            first_selector(kind)
        }),
{
    if CpuSelectorKind::from_option(sel.as_ref()) != kind {
        *sel = kind.default_value();
    }
}

/// A choice of kind stands: the selector it starts with is of that kind.
pub proof fn chosen_kinds_stand(kind: CpuSelectorKind)
    ensures
        selector_kind(first_selector(kind)) == kind,
{
}

} // verus!
