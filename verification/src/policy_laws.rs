//! Laws of the policy: what copies keep, what a look-up finds, and what an edit
//! leaves alone.

use vstd::prelude::*;

use crate::policy::{
    self, AffinityRule, AffinityRuleView, AppMatch, AppRule, CpuSelector, GameModeActions, MatchKind, Policy,
    PowerPlanId, ProBalanceConfig, Profile,
};
use crate::sorting;
use crate::text;

verus! {

// ── Being alike ─────────────────────────────────────────────────────────────

/// Whether two lists hold the same texts in the same order.
pub open spec fn same_texts(a: Seq<String>, b: Seq<String>) -> bool {
    &&& a.len() == b.len()
    &&& forall|i: int| 0 <= i < a.len() ==> (#[trigger] a[i])@ == b[i]@
}

/// Whether both texts are missing, or both are there and equal.
pub open spec fn same_text(a: Option<String>, b: Option<String>) -> bool {
    match (a, b) {
        (None, None) => true,
        (Some(x), Some(y)) => x@ == y@,
        _ => false,
    }
}

/// Whether two settings name the same power plan.
pub open spec fn same_plan(a: Option<PowerPlanId>, b: Option<PowerPlanId>) -> bool {
    match (a, b) {
        (None, None) => true,
        (Some(PowerPlanId::Custom(x)), Some(PowerPlanId::Custom(y))) => x@ == y@,
        (Some(PowerPlanId::Custom(_)), _) => false,
        (_, Some(PowerPlanId::Custom(_))) => false,
        (Some(x), Some(y)) => x == y,
        _ => false,
    }
}

/// Whether two sets of system-wide actions agree in every field.
pub open spec fn same_actions(a: GameModeActions, b: GameModeActions) -> bool {
    &&& a.hide_taskbar == b.hide_taskbar
    &&& a.focus_assist == b.focus_assist
    &&& same_texts(a.stop_services@, b.stop_services@)
    &&& same_texts(a.suspend_processes@, b.suspend_processes@)
    &&& same_plan(a.power_plan, b.power_plan)
    &&& a.pause_windows_update == b.pause_windows_update
    &&& a.rest@ == b.rest@
}

/// Whether two profiles agree in every field.
pub open spec fn same_profile(a: Profile, b: Profile) -> bool {
    &&& a.id@ == b.id@
    &&& a.description@ == b.description@
    &&& a.ac_safe_mode_target == b.ac_safe_mode_target
    &&& a.power_throttling == b.power_throttling
    &&& a.priority_class == b.priority_class
    &&& a.io_priority == b.io_priority
    &&& a.memory_priority == b.memory_priority
    &&& a.trim_working_set == b.trim_working_set
    &&& a.persistent == b.persistent
    &&& a.cpu_sets == b.cpu_sets
    &&& a.affinity_mask == b.affinity_mask
    &&& match (a.game_mode, b.game_mode) {
        (None, None) => true,
        (Some(x), Some(y)) => same_actions(x, y),
        _ => false,
    }
    &&& a.manual_global_eligible == b.manual_global_eligible
    &&& a.rest@ == b.rest@
}

/// Whether two matches look at the same thing for the same text.
pub open spec fn same_match(a: AppMatch, b: AppMatch) -> bool {
    match (a, b) {
        (AppMatch::ExeName(x), AppMatch::ExeName(y)) => x@ == y@,
        (AppMatch::PathContains(x), AppMatch::PathContains(y)) => x@ == y@,
        (AppMatch::WindowTitleContains(x), AppMatch::WindowTitleContains(y)) => x@ == y@,
        _ => false,
    }
}

/// Whether two match rules agree in every field.
pub open spec fn same_rule(a: AppRule, b: AppRule) -> bool {
    &&& same_match(a.matcher, b.matcher)
    &&& a.profile@ == b.profile@
    &&& a.note@ == b.note@
}

/// Whether two affinity rules agree in every field.
pub open spec fn same_affinity_rule(a: AffinityRule, b: AffinityRule) -> bool {
    &&& a.exe_name@ == b.exe_name@
    &&& a.selector == b.selector
    &&& a.note@ == b.note@
}

/// Whether two policies have the same profiles, in the same order.
pub open spec fn same_profiles(a: Policy, b: Policy) -> bool {
    &&& a.profiles@.len() == b.profiles@.len()
    &&& forall|i: int|
        0 <= i < a.profiles@.len() ==> same_profile(#[trigger] a.profiles@[i], b.profiles@[i])
}

/// Whether two policies have the same match rules, in the same order.
pub open spec fn same_rules(a: Policy, b: Policy) -> bool {
    &&& a.rules@.len() == b.rules@.len()
    &&& forall|i: int| 0 <= i < a.rules@.len() ==> same_rule(#[trigger] a.rules@[i], b.rules@[i])
}

/// Whether two policies have the same affinity rules, in the same order.
pub open spec fn same_affinity_rules(a: Policy, b: Policy) -> bool {
    &&& a.affinity_rules@.len() == b.affinity_rules@.len()
    &&& forall|i: int|
        0 <= i < a.affinity_rules@.len() ==> same_affinity_rule(
            #[trigger] a.affinity_rules@[i],
            b.affinity_rules@[i],
        )
}

/// Whether two policies balance load by the same numbers.
pub open spec fn same_balance(a: ProBalanceConfig, b: ProBalanceConfig) -> bool {
    &&& a.enabled == b.enabled
    &&& a.system_cpu_threshold_percent == b.system_cpu_threshold_percent
    &&& a.hog_cpu_threshold_percent == b.hog_cpu_threshold_percent
    &&& a.min_restrain_ms == b.min_restrain_ms
}

/// Whether two policies agree in the settings that stand outside every list.
pub open spec fn same_settings(a: Policy, b: Policy) -> bool {
    &&& a.default_profile@ == b.default_profile@
    &&& same_text(a.background_profile, b.background_profile)
    &&& same_balance(a.probalance, b.probalance)
    &&& a.closed_loop_enabled == b.closed_loop_enabled
    &&& a.rest@ == b.rest@
}

/// Whether two policies agree in every field.
pub open spec fn same_policy(a: Policy, b: Policy) -> bool {
    &&& same_profiles(a, b)
    &&& same_rules(a, b)
    &&& same_affinity_rules(a, b)
    &&& same_settings(a, b)
}

/// Lists with the same texts hold the same texts at every place.
pub proof fn lemma_same_texts(a: Seq<String>, b: Seq<String>)
    requires
        text::texts(a) == text::texts(b),
    ensures
        same_texts(a, b),
{
    assert(text::texts(a).len() == a.len());
    assert(text::texts(b).len() == b.len());
    assert forall|i: int| 0 <= i < a.len() implies (#[trigger] a[i])@ == b[i]@ by {
        assert(text::texts(a)[i] == a[i]@);
        assert(text::texts(b)[i] == b[i]@);
    }
}

proof fn lemma_same_actions(a: GameModeActions, b: GameModeActions)
    requires
        a@ == b@,
    ensures
        same_actions(a, b),
{
    lemma_same_texts(a.stop_services@, b.stop_services@);
    lemma_same_texts(a.suspend_processes@, b.suspend_processes@);
}

/// Profiles with the same texts agree in every field.
pub proof fn lemma_same_profile(a: Profile, b: Profile)
    requires
        a@ == b@,
    ensures
        same_profile(a, b),
{
    if a.game_mode is Some {
        assert(b.game_mode is Some);
        lemma_same_actions(a.game_mode->0, b.game_mode->0);
    }
}

/// Policies with the same texts have the same profiles.
pub proof fn lemma_same_profiles(a: Policy, b: Policy)
    requires
        a@.profiles == b@.profiles,
    ensures
        same_profiles(a, b),
{
    assert(a@.profiles.len() == a.profiles@.len());
    assert(b@.profiles.len() == b.profiles@.len());
    assert forall|i: int| 0 <= i < a.profiles@.len() implies same_profile(
        #[trigger] a.profiles@[i],
        b.profiles@[i],
    ) by {
        assert(a@.profiles[i] == a.profiles@[i]@);
        assert(b@.profiles[i] == b.profiles@[i]@);
        lemma_same_profile(a.profiles@[i], b.profiles@[i]);
    }
}

/// Policies with the same texts have the same match rules.
pub proof fn lemma_same_rules(a: Policy, b: Policy)
    requires
        a@.rules == b@.rules,
    ensures
        same_rules(a, b),
{
    assert(a@.rules.len() == a.rules@.len());
    assert(b@.rules.len() == b.rules@.len());
    assert forall|i: int| 0 <= i < a.rules@.len() implies same_rule(
        #[trigger] a.rules@[i],
        b.rules@[i],
    ) by {
        assert(a@.rules[i] == a.rules@[i]@);
        assert(b@.rules[i] == b.rules@[i]@);
    }
}

/// Policies with the same texts have the same affinity rules.
pub proof fn lemma_same_affinity_rules(a: Policy, b: Policy)
    requires
        a@.affinity_rules == b@.affinity_rules,
    ensures
        same_affinity_rules(a, b),
{
    assert(a@.affinity_rules.len() == a.affinity_rules@.len());
    assert(b@.affinity_rules.len() == b.affinity_rules@.len());
    assert forall|i: int| 0 <= i < a.affinity_rules@.len() implies same_affinity_rule(
        #[trigger] a.affinity_rules@[i],
        b.affinity_rules@[i],
    ) by {
        assert(a@.affinity_rules[i] == a.affinity_rules@[i]@);
        assert(b@.affinity_rules[i] == b.affinity_rules@[i]@);
    }
}

/// Policies with the same texts agree in every field.
pub proof fn lemma_same_policy(a: Policy, b: Policy)
    requires
        a@ == b@,
    ensures
        same_policy(a, b),
{
    lemma_same_profiles(a, b);
    lemma_same_rules(a, b);
    lemma_same_affinity_rules(a, b);
}

// ── Copies ──────────────────────────────────────────────────────────────────

/// A copy of a policy has every profile, rule and setting of it.
pub proof fn copies_of_a_policy_keep_everything(p: &Policy, r: Policy)
    requires
        call_ensures(Policy::clone, (p,), r),
    ensures
        same_policy(*p, r),
{
    lemma_same_policy(*p, r);
}

/// A copy of a profile has every setting of it.
pub proof fn copies_of_a_profile_keep_everything(p: &Profile, r: Profile)
    requires
        call_ensures(Profile::clone, (p,), r),
    ensures
        same_profile(*p, r),
{
    lemma_same_profile(*p, r);
}

/// A new profile has the given id and asks for nothing at all.
pub proof fn new_profiles_ask_for_nothing(id: &str, r: Profile)
    requires
        call_ensures(Profile::new, (id,), r),
    ensures
        r.id@ == id@,
        r.description@.len() == 0,
        r.ac_safe_mode_target is Aggressive,
        r.power_throttling is None,
        r.priority_class is None,
        r.io_priority is None,
        r.memory_priority is None,
        !r.trim_working_set,
        !r.persistent,
        r.cpu_sets is None,
        r.affinity_mask is None,
        r.game_mode is None,
        !r.manual_global_eligible,
        r.rest@.len() == 0,
{
}

/// A policy starts without profiles and rules, with everything switched off.
pub proof fn new_policies_do_nothing(r: Policy)
    requires
        call_ensures(Policy::default, (), r),
    ensures
        r.profiles@.len() == 0,
        r.rules@.len() == 0,
        r.affinity_rules@.len() == 0,
        r.default_profile@ == "default"@,
        r.background_profile is None,
        !r.probalance.enabled,
        r.probalance.system_cpu_threshold_percent == 0,
        r.probalance.hog_cpu_threshold_percent == 0,
        r.probalance.min_restrain_ms == 0,
        !r.closed_loop_enabled,
        r.rest@.len() == 0,
{
    assert(r@.profiles.len() == r.profiles@.len());
    assert(r@.rules.len() == r.rules@.len());
    assert(r@.affinity_rules.len() == r.affinity_rules@.len());
}

/// System-wide actions start with nothing to do.
pub proof fn new_actions_do_nothing(r: GameModeActions)
    requires
        call_ensures(GameModeActions::default, (), r),
    ensures
        !r.hide_taskbar,
        r.focus_assist is None,
        r.stop_services@.len() == 0,
        r.suspend_processes@.len() == 0,
        r.power_plan is None,
        !r.pause_windows_update,
        r.rest@.len() == 0,
{
    assert(r@.stop_services.len() == r.stop_services@.len());
    assert(r@.suspend_processes.len() == r.suspend_processes@.len());
}

/// A match is made of a kind and a text, and gives both back.
pub proof fn matches_give_back_what_they_are_made_of(
    kind: MatchKind,
    value: String,
    r: AppMatch,
    k: MatchKind,
    v: &String,
)
    requires
        call_ensures(AppMatch::new, (kind, value), r),
        call_ensures(AppMatch::kind, (&r,), k),
        call_ensures(AppMatch::value, (&r,), v),
    ensures
        k == kind,
        v@ == value@,
        kind is ExeName ==> r is ExeName && r->ExeName_0@ == value@,
        kind is PathContains ==> r is PathContains && r->PathContains_0@ == value@,
        kind is WindowTitleContains ==> r is WindowTitleContains && r->WindowTitleContains_0@
            == value@,
{
}

// ── Looking things up ───────────────────────────────────────────────────────

/// A profile is found where its id first stands, and only where it stands.
pub proof fn profiles_are_found_by_their_id(p: &Policy, id: &str, r: Option<usize>)
    requires
        call_ensures(Policy::find_profile, (p, id), r),
    ensures
        r is Some <==> exists|i: int|
            0 <= i < p.profiles@.len() && (#[trigger] p.profiles@[i]).id@ == id@,
        r is Some ==> r->0 < p.profiles@.len() && p.profiles@[r->0 as int].id@ == id@,
        r is Some ==> forall|j: int| 0 <= j < r->0 ==> (#[trigger] p.profiles@[j]).id@ != id@,
{
    policy::profile_position_is_first_match(p@.profiles, id@);
    assert forall|j: int| 0 <= j < p.profiles@.len() implies (#[trigger] p.profiles@[j]).id@
        == p@.profiles[j].id by {}
}

/// Whether a list holds a text.
pub open spec fn lists(items: Seq<String>, s: Seq<char>) -> bool {
    exists|k: int| 0 <= k < items.len() && (#[trigger] items[k])@ == s
}

/// Whether some profile of a policy has an id.
pub open spec fn has_id(p: Policy, id: Seq<char>) -> bool {
    exists|i: int| 0 <= i < p.profiles@.len() && (#[trigger] p.profiles@[i]).id@ == id
}

/// The list of ids holds the id of every profile once, and goes by the
/// dictionary.
pub proof fn ids_are_listed_by_the_dictionary(p: &Policy, r: Vec<String>)
    requires
        call_ensures(Policy::profile_ids, (p,), r),
    ensures
        r@.len() == p.profiles@.len(),
        forall|i: int, j: int|
            0 <= i < j < r@.len() ==> text::text_leq((#[trigger] r@[i])@, (#[trigger] r@[j])@),
        forall|i: int|
            0 <= i < p.profiles@.len() ==> lists(r@, (#[trigger] p.profiles@[i]).id@),
        forall|k: int| 0 <= k < r@.len() ==> has_id(*p, (#[trigger] r@[k])@),
{
    let views = p@.profiles;
    let n = views.len();
    let leq = policy::id_order(views);
    policy::sorted_ids_count(views);
    let order = sorting::sorted_positions(n, leq);
    policy::lemma_id_order(views);
    assert(p.profiles.len() == p.profiles@.len());
    sorting::sorting_is_a_stable_permutation(n, leq);
    assert(text::texts(r@).len() == r@.len());
    assert forall|k: int| 0 <= k < r@.len() implies (#[trigger] r@[k])@ == views[order[k] as int].id
        && order[k] < n by {
        assert(text::texts(r@)[k] == r@[k]@);
    }
    assert forall|i: int, j: int| 0 <= i < j < r@.len() implies text::text_leq(
        (#[trigger] r@[i])@,
        (#[trigger] r@[j])@,
    ) by {
        assert(leq(order[i], order[j]));
    }
    assert forall|i: int| 0 <= i < p.profiles@.len() implies lists(
        r@,
        (#[trigger] p.profiles@[i]).id@,
    ) by {
        sorting::sorting_leaves_nothing_out(n, leq, i as usize);
        let k = order.index_of(i as usize);
        assert(r@[k]@ == views[i].id);
        assert(views[i] == p.profiles@[i]@);
    }
    assert forall|k: int| 0 <= k < r@.len() implies has_id(*p, (#[trigger] r@[k])@) by {
        assert(views[order[k] as int] == p.profiles@[order[k] as int]@);
    }
}

/// An id is taken when some profile has it, in whatever case.
pub proof fn ids_are_taken_in_any_case(p: &Policy, id: &str, r: bool)
    requires
        call_ensures(Policy::is_id_taken, (p, id), r),
    ensures
        r <==> exists|i: int|
            0 <= i < p.profiles@.len() && text::lower((#[trigger] p.profiles@[i]).id@)
                == text::lower(id@),
{
    assert forall|i: int| 0 <= i < p.profiles@.len() implies (#[trigger] p.profiles@[i]).id@
        == p@.profiles[i].id by {}
    if r {
        let i = choose|i: int|
            0 <= i < p@.profiles.len() && text::lower((#[trigger] p@.profiles[i]).id)
                == text::lower(id@);
        assert(p.profiles@[i].id@ == p@.profiles[i].id);
    }
}

/// A profile is in use when some match rule applies exactly it.
pub proof fn profiles_are_used_by_rules(p: &Policy, id: &str, r: bool)
    requires
        call_ensures(Policy::is_profile_used, (p, id), r),
    ensures
        r <==> exists|i: int|
            0 <= i < p.rules@.len() && (#[trigger] p.rules@[i]).profile@ == id@,
{
    assert forall|i: int| 0 <= i < p.rules@.len() implies (#[trigger] p.rules@[i]).profile@
        == p@.rules[i].profile by {}
    if r {
        let i = choose|i: int| 0 <= i < p@.rules.len() && (#[trigger] p@.rules[i]).profile == id@;
        assert(p.rules@[i].profile@ == p@.rules[i].profile);
    }
}

/// An executable has a match rule when some rule matches executables by that
/// name, in whatever case. Rules on paths and titles do not count.
pub proof fn executables_are_matched_by_name(p: &Policy, exe: &str, r: bool)
    requires
        call_ensures(Policy::has_rule_for_exe, (p, exe), r),
    ensures
        r <==> exists|i: int|
            0 <= i < p.rules@.len() && (#[trigger] p.rules@[i]).matcher is ExeName && text::lower(
                p.rules@[i].matcher->ExeName_0@,
            ) == text::lower(exe@),
{
    assert forall|i: int| 0 <= i < p.rules@.len() implies (#[trigger] p.rules@[i])@
        == p@.rules[i] by {}
    if r {
        let i = choose|i: int|
            0 <= i < p@.rules.len() && (#[trigger] p@.rules[i]).kind == MatchKind::ExeName
                && text::lower(p@.rules[i].value) == text::lower(exe@);
        assert(p.rules@[i]@ == p@.rules[i]);
    }
}

/// The affinity rule of an executable is the first one by its name, in
/// whatever case.
pub proof fn the_first_affinity_rule_counts(p: &Policy, exe: &str, r: Option<CpuSelector>)
    requires
        call_ensures(Policy::affinity_rule_for, (p, exe), r),
    ensures
        match r {
            Some(selector) => exists|i: int|
                {
                    &&& 0 <= i < p.affinity_rules@.len()
                    &&& text::lower((#[trigger] p.affinity_rules@[i]).exe_name@) == text::lower(
                        exe@,
                    )
                    &&& p.affinity_rules@[i].selector == selector
                    &&& forall|j: int|
                        0 <= j < i ==> text::lower((#[trigger] p.affinity_rules@[j]).exe_name@)
                            != text::lower(exe@)
                },
            None => forall|j: int|
                0 <= j < p.affinity_rules@.len() ==> text::lower(
                    (#[trigger] p.affinity_rules@[j]).exe_name@,
                ) != text::lower(exe@),
        },
{
    let views = p@.affinity_rules;
    assert forall|j: int| 0 <= j < p.affinity_rules@.len() implies (
    #[trigger] p.affinity_rules@[j])@ == views[j] by {}
    let k = lemma_first_affinity_rule(views, exe@);
    if r is Some {
        assert(p.affinity_rules@[k]@ == views[k]);
        assert forall|j: int| 0 <= j < k implies text::lower(
            (#[trigger] p.affinity_rules@[j]).exe_name@,
        ) != text::lower(exe@) by {
            assert(p.affinity_rules@[j]@ == views[j]);
        }
    }
}

proof fn lemma_first_affinity_rule(rules: Seq<AffinityRuleView>, exe: Seq<char>) -> (k: int)
    ensures
        policy::affinity_selector_for(rules, exe) is Some ==> {
            &&& 0 <= k < rules.len()
            &&& text::lower(rules[k].exe_name) == text::lower(exe)
            &&& policy::affinity_selector_for(rules, exe) == Some(rules[k].selector)
            &&& forall|j: int|
                0 <= j < k ==> text::lower((#[trigger] rules[j]).exe_name) != text::lower(exe)
        },
        policy::affinity_selector_for(rules, exe) is None ==> forall|j: int|
            0 <= j < rules.len() ==> text::lower((#[trigger] rules[j]).exe_name) != text::lower(
                exe,
            ),
    decreases rules.len(),
{
    if rules.len() == 0 || policy::is_rule_for(rules[0], exe) {
        0
    } else {
        let rest = rules.drop_first();
        let k = lemma_first_affinity_rule(rest, exe);
        assert forall|j: int|
            0 < j < rules.len() && (policy::affinity_selector_for(rest, exe) is None || j < k
                + 1) implies text::lower((#[trigger] rules[j]).exe_name) != text::lower(exe) by {
            assert(rules[j] == rest[j - 1]);
        }
        k + 1
    }
}

// ── Edits ───────────────────────────────────────────────────────────────────

/// Putting a profile in changes that profile alone: it stands under its id
/// afterwards, every other one stays where it was, and so does all else.
pub proof fn putting_a_profile_in_touches_no_other(p: &mut Policy, profile: Profile)
    requires
        call_ensures(Policy::put_profile, (p, profile), ()),
    ensures
        exists|i: int|
            {
                &&& 0 <= i < final(p).profiles@.len()
                &&& same_profile(#[trigger] final(p).profiles@[i], profile)
                &&& forall|j: int|
                    0 <= j < old(p).profiles@.len() && j != i ==> same_profile(
                        #[trigger] final(p).profiles@[j],
                        old(p).profiles@[j],
                    )
                &&& i < old(p).profiles@.len() ==> old(p).profiles@[i].id@ == profile.id@
                    && final(p).profiles@.len() == old(p).profiles@.len()
                &&& i >= old(p).profiles@.len() ==> final(p).profiles@.len()
                    == old(p).profiles@.len() + 1 && forall|j: int|
                    0 <= j < old(p).profiles@.len() ==> (#[trigger] old(p).profiles@[j]).id@
                        != profile.id@
            },
        same_rules(*old(p), *final(p)),
        same_affinity_rules(*old(p), *final(p)),
        same_settings(*old(p), *final(p)),
{
    let a = *old(p);
    let b = *final(p);
    lemma_same_rules(a, b);
    lemma_same_affinity_rules(a, b);
    policy::profile_position_is_first_match(a@.profiles, profile@.id);
    assert(a@.profiles.len() == a.profiles@.len());
    assert(b@.profiles.len() == b.profiles@.len());
    assert forall|j: int| 0 <= j < a.profiles@.len() implies (#[trigger] a.profiles@[j])@
        == a@.profiles[j] by {}
    assert forall|j: int| 0 <= j < b.profiles@.len() implies (#[trigger] b.profiles@[j])@
        == b@.profiles[j] by {}
    let i = match policy::profile_position(a@.profiles, profile@.id) {
        Some(i) => i,
        None => a@.profiles.len() as int,
    };
    assert(b.profiles@[i]@ == b@.profiles[i]);
    lemma_same_profile(b.profiles@[i], profile);
    assert forall|j: int| 0 <= j < a.profiles@.len() && j != i implies same_profile(
        #[trigger] b.profiles@[j],
        a.profiles@[j],
    ) by {
        assert(b@.profiles[j] == a@.profiles[j]);
        assert(a.profiles@[j]@ == a@.profiles[j]);
        lemma_same_profile(b.profiles@[j], a.profiles@[j]);
    }
    if i < a.profiles@.len() {
        assert(a.profiles@[i]@ == a@.profiles[i]);
    } else {
        assert forall|j: int| 0 <= j < a.profiles@.len() implies (#[trigger] a.profiles@[j]).id@
            != profile.id@ by {
            assert(a.profiles@[j]@ == a@.profiles[j]);
        }
    }
}

/// Taking a profile out takes the first one with the id and nothing else; the
/// others close the gap in their order.
pub proof fn taking_a_profile_out_touches_no_other(p: &mut Policy, id: &str)
    requires
        call_ensures(Policy::remove_profile, (p, id), ()),
    ensures
        match policy::profile_position(old(p)@.profiles, id@) {
            None => same_profiles(*old(p), *final(p)),
            Some(i) => {
                &&& old(p).profiles@[i].id@ == id@
                &&& final(p).profiles@.len() == old(p).profiles@.len() - 1
                &&& forall|j: int|
                    0 <= j < i ==> same_profile(
                        #[trigger] final(p).profiles@[j],
                        old(p).profiles@[j],
                    ) && old(p).profiles@[j].id@ != id@
                &&& forall|j: int|
                    i <= j < final(p).profiles@.len() ==> same_profile(
                        #[trigger] final(p).profiles@[j],
                        old(p).profiles@[j + 1],
                    )
            },
        },
        policy::profile_position(old(p)@.profiles, id@) is None ==> forall|j: int|
            0 <= j < old(p).profiles@.len() ==> (#[trigger] old(p).profiles@[j]).id@ != id@,
        same_rules(*old(p), *final(p)),
        same_affinity_rules(*old(p), *final(p)),
        same_settings(*old(p), *final(p)),
{
    let a = *old(p);
    let b = *final(p);
    lemma_same_rules(a, b);
    lemma_same_affinity_rules(a, b);
    policy::profile_position_is_first_match(a@.profiles, id@);
    assert(a@.profiles.len() == a.profiles@.len());
    assert(b@.profiles.len() == b.profiles@.len());
    assert forall|j: int| 0 <= j < a.profiles@.len() implies (#[trigger] a.profiles@[j])@
        == a@.profiles[j] by {}
    assert forall|j: int| 0 <= j < b.profiles@.len() implies (#[trigger] b.profiles@[j])@
        == b@.profiles[j] by {}
    match policy::profile_position(a@.profiles, id@) {
        None => {
            lemma_same_profiles(a, b);
        },
        Some(i) => {
            assert(a.profiles@[i]@ == a@.profiles[i]);
            assert forall|j: int| 0 <= j < i implies same_profile(
                #[trigger] b.profiles@[j],
                a.profiles@[j],
            ) && a.profiles@[j].id@ != id@ by {
                assert(b@.profiles[j] == a@.profiles[j]);
                assert(a.profiles@[j]@ == a@.profiles[j]);
                lemma_same_profile(b.profiles@[j], a.profiles@[j]);
            }
            assert forall|j: int| i <= j < b.profiles@.len() implies same_profile(
                #[trigger] b.profiles@[j],
                a.profiles@[j + 1],
            ) by {
                assert(b@.profiles[j] == a@.profiles[j + 1]);
                assert(a.profiles@[j + 1]@ == a@.profiles[j + 1]);
                lemma_same_profile(b.profiles@[j], a.profiles@[j + 1]);
            }
        },
    }
}

/// A rule that is added comes last, behind all that were there.
pub proof fn added_rules_come_last(p: &mut Policy, rule: AppRule)
    requires
        call_ensures(policy::add_rule, (p, rule), ()),
    ensures
        final(p).rules@.len() == old(p).rules@.len() + 1,
        same_rule(final(p).rules@[old(p).rules@.len() as int], rule),
        forall|j: int|
            0 <= j < old(p).rules@.len() ==> same_rule(
                #[trigger] final(p).rules@[j],
                old(p).rules@[j],
            ),
        same_profiles(*old(p), *final(p)),
        same_affinity_rules(*old(p), *final(p)),
        same_settings(*old(p), *final(p)),
{
    let a = *old(p);
    let b = *final(p);
    lemma_same_profiles(a, b);
    lemma_same_affinity_rules(a, b);
    assert(a@.rules.len() == a.rules@.len());
    assert(b@.rules.len() == b.rules@.len());
    assert forall|j: int| 0 <= j < b.rules@.len() implies (#[trigger] b.rules@[j])@
        == b@.rules[j] by {}
    assert(b.rules@[a.rules@.len() as int]@ == b@.rules[a.rules@.len() as int]);
    assert forall|j: int| 0 <= j < a.rules@.len() implies same_rule(
        #[trigger] b.rules@[j],
        a.rules@[j],
    ) by {
        assert(b@.rules[j] == a@.rules[j]);
        assert(a.rules@[j]@ == a@.rules[j]);
    }
}

/// An edit starts from the draft; without one, from a copy of the service's
/// policy.
pub proof fn edits_start_from_the_draft(
    draft: &mut Option<Policy>,
    current: &Policy,
    r: Policy,
)
    requires
        call_ensures(policy::take_draft, (draft, current), r),
    ensures
        *old(draft) is Some ==> same_policy((*old(draft))->0, r),
        *old(draft) is None ==> same_policy(*current, r),
        *final(draft) is None,
{
    if *old(draft) is Some {
        lemma_same_policy((*old(draft))->0, r);
    } else {
        lemma_same_policy(*current, r);
    }
}

/// A draft that is there stays; without one, the service's policy is copied.
pub proof fn a_draft_is_opened_once(draft: &mut Option<Policy>, current: &Policy)
    requires
        call_ensures(policy::start_draft, (draft, current), ()),
    ensures
        *final(draft) is Some,
        *old(draft) is Some ==> same_policy((*old(draft))->0, (*final(draft))->0),
        *old(draft) is None ==> same_policy(*current, (*final(draft))->0),
{
    if *old(draft) is Some {
        lemma_same_policy((*old(draft))->0, (*final(draft))->0);
    } else {
        lemma_same_policy(*current, (*final(draft))->0);
    }
}

} // verus!
