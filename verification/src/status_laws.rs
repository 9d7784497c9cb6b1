//! Laws of the Status tab and of the hotkey: what a switch stores, and which
//! profile is applied system-wide.

use vstd::prelude::*;

use crate::formatters;
use crate::ipc::{AdminCall, Request, StatusSnapshot};
use crate::policy::{ProBalanceConfig, Profile, ProfileView};
use crate::policy_laws;
use crate::status_tab::{self, BalanceCard};
use crate::text;

verus! {

// ── The load balancer ───────────────────────────────────────────────────────

/// Switching the load balancer over stores the service's own policy with one
/// bit flipped: both thresholds, the dwell, every profile, every rule and every
/// other setting stay what they were.
pub proof fn switching_the_balancer_flips_one_bit(status: &StatusSnapshot, r: AdminCall)
    requires
        call_ensures(status_tab::toggle_balance, (status,), r),
    ensures
        r.request is SetPolicy,
        r.label@ == "toggle probalance"@,
        ({
            let before = status.policy;
            let after = r.request->SetPolicy_policy;
            &&& after.probalance.enabled == !before.probalance.enabled
            &&& after.probalance.system_cpu_threshold_percent
                == before.probalance.system_cpu_threshold_percent
            &&& after.probalance.hog_cpu_threshold_percent
                == before.probalance.hog_cpu_threshold_percent
            &&& after.probalance.min_restrain_ms == before.probalance.min_restrain_ms
            &&& policy_laws::same_profiles(before, after)
            &&& policy_laws::same_rules(before, after)
            &&& policy_laws::same_affinity_rules(before, after)
            &&& after.default_profile@ == before.default_profile@
            &&& policy_laws::same_text(before.background_profile, after.background_profile)
            &&& after.closed_loop_enabled == before.closed_loop_enabled
            &&& after.rest@ == before.rest@
        }),
{
    policy_laws::lemma_same_profiles(status.policy, r.request->SetPolicy_policy);
    policy_laws::lemma_same_rules(status.policy, r.request->SetPolicy_policy);
    policy_laws::lemma_same_affinity_rules(status.policy, r.request->SetPolicy_policy);
}

/// Where the service has taken a switch over, the next switch stores the policy
/// of the start.
pub proof fn two_switches_store_the_first_policy(
    status: &StatusSnapshot,
    first: AdminCall,
    later: &StatusSnapshot,
    second: AdminCall,
)
    requires
        call_ensures(status_tab::toggle_balance, (status,), first),
        first.request is SetPolicy,
        later.policy@ == first.request->SetPolicy_policy@,
        call_ensures(status_tab::toggle_balance, (later,), second),
    ensures
        second.request is SetPolicy,
        policy_laws::same_policy(status.policy, second.request->SetPolicy_policy),
{
    policy_laws::lemma_same_policy(status.policy, second.request->SetPolicy_policy);
}

/// The card names the state that is, the button the state that would be, and
/// each number stands where its meaning is.
pub proof fn the_card_tells_of_the_balancer(
    cfg: &ProBalanceConfig,
    restrained: usize,
    r: BalanceCard,
)
    requires
        call_ensures(status_tab::balance_card, (cfg, restrained), r),
    ensures
        cfg.enabled ==> r.badge@ == "Enabled"@ && r.badge_tone is Success && r.button@
            == "Disable ProBalance"@,
        !cfg.enabled ==> r.badge@ == "Disabled"@ && r.badge_tone is TextMuted && r.button@
            == "Enable ProBalance"@,
        r.restraining@ == text::decimal(restrained as nat) + " processes"@,
        restrained == 0 ==> r.restraining_tone is TextMuted,
        restrained >= 1 ==> r.restraining_tone is Warning,
        r.trigger@ == "system CPU >= "@ + text::decimal(
            cfg.system_cpu_threshold_percent as nat,
        ) + "% AND non-foreground hog >= "@ + text::decimal(cfg.hog_cpu_threshold_percent as nat)
            + "% of one core"@,
        r.dwell@ == text::decimal(cfg.min_restrain_ms as nat)
            + " ms before any restraint can be released"@,
{
}

// ── System-wide profiles ────────────────────────────────────────────────────

/// Whether `places` are the places of the profiles that can be applied
/// system-wide, in ascending order.
pub open spec fn are_eligible_places(profiles: Seq<Profile>, places: Seq<int>) -> bool {
    &&& forall|k: int|
        0 <= k < places.len() ==> 0 <= #[trigger] places[k] < profiles.len()
            && profiles[places[k]].manual_global_eligible
    &&& forall|j: int, k: int|
        0 <= j < k < places.len() ==> (#[trigger] places[j]) < (#[trigger] places[k])
    &&& forall|i: int|
        0 <= i < profiles.len() && (#[trigger] profiles[i]).manual_global_eligible
            ==> places.contains(i)
}

/// Whether a list holds the ids of the profiles at these places, in order.
pub open spec fn holds_ids_at(
    ids: Seq<String>,
    profiles: Seq<Profile>,
    places: Seq<int>,
) -> bool {
    &&& ids.len() == places.len()
    &&& forall|k: int| 0 <= k < ids.len() ==> (#[trigger] ids[k])@ == profiles[places[k]].id@
}

proof fn lemma_eligible_places(profiles: Seq<Profile>, views: Seq<ProfileView>) -> (places: Seq<
    int,
>)
    requires
        views.len() == profiles.len(),
        forall|i: int| 0 <= i < views.len() ==> (#[trigger] views[i]) == profiles[i]@,
    ensures
        are_eligible_places(profiles, places),
        status_tab::eligible_ids(views).len() == places.len(),
        forall|k: int|
            0 <= k < places.len() ==> (#[trigger] status_tab::eligible_ids(views)[k])
                == profiles[places[k]].id@,
    decreases profiles.len(),
{
    let fits = |p: ProfileView| p.manual_global_eligible;
    let id = |p: ProfileView| p.id;
    reveal(Seq::filter);
    if profiles.len() == 0 {
        Seq::empty()
    } else {
        let before = lemma_eligible_places(profiles.drop_last(), views.drop_last());
        let shorter = profiles.drop_last();
        let n = profiles.len() - 1;
        let ids = status_tab::eligible_ids(views.drop_last());
        let kept = views.drop_last().filter(fits);
        assert(views.last() == profiles[n]@);
        assert forall|i: int| 0 <= i < n implies shorter[i] == profiles[i] by {}
        if profiles[n].manual_global_eligible {
            let places = before.push(n);
            assert(kept.push(views.last()).map_values(id) =~= kept.map_values(id).push(
                views.last().id,
            ));
            assert(status_tab::eligible_ids(views) =~= ids.push(views.last().id));
            assert forall|i: int|
                0 <= i < profiles.len() && (
                #[trigger] profiles[i]).manual_global_eligible implies places.contains(i) by {
                if i < n {
                    assert(shorter[i] == profiles[i]);
                    let k = before.index_of(i);
                    assert(places[k] == i);
                } else {
                    assert(places[before.len() as int] == n);
                }
            }
            assert forall|k: int| 0 <= k < places.len() implies 0 <= #[trigger] places[k]
                < profiles.len() && profiles[places[k]].manual_global_eligible
                && status_tab::eligible_ids(views)[k] == profiles[places[k]].id@ by {
                if k < before.len() {
                    assert(places[k] == before[k]);
                    assert(shorter[before[k]] == profiles[before[k]]);
                    assert(ids[k] == shorter[before[k]].id@);
                }
            }
            assert forall|j: int, k: int| 0 <= j < k < places.len() implies (#[trigger] places[j])
                < (#[trigger] places[k]) by {
                assert(places[j] == before[j]);
                if k < before.len() {
                    assert(places[k] == before[k]);
                }
            }
            places
        } else {
            assert forall|i: int|
                0 <= i < profiles.len() && (
                #[trigger] profiles[i]).manual_global_eligible implies before.contains(i) by {
                assert(shorter[i] == profiles[i]);
            }
            assert forall|k: int| 0 <= k < before.len() implies 0 <= #[trigger] before[k]
                < profiles.len() && profiles[before[k]].manual_global_eligible
                && status_tab::eligible_ids(views)[k] == profiles[before[k]].id@ by {
                assert(shorter[before[k]] == profiles[before[k]]);
            }
            before
        }
    }
}

/// Every profile that can be applied system-wide is on the list, no other is,
/// and they stand in the order of the policy.
pub proof fn the_list_holds_the_eligible_profiles(status: &StatusSnapshot, r: Vec<String>)
    requires
        call_ensures(status_tab::list_eligible, (status,), r),
    ensures
        exists|places: Seq<int>| #[trigger]
            are_eligible_places(status.policy.profiles@, places) && holds_ids_at(
                r@,
                status.policy.profiles@,
                places,
            ),
{
    let places = lemma_eligible_places(status.policy.profiles@, status.policy@.profiles);
    assert(text::texts(r@).len() == r@.len());
    assert forall|k: int| 0 <= k < r@.len() implies (#[trigger] r@[k])@
        == status.policy.profiles@[places[k]].id@ by {
        assert(text::texts(r@)[k] == r@[k]@);
    }
    assert(holds_ids_at(r@, status.policy.profiles@, places));
}

/// The hotkey takes a system-wide profile back while there is one. Otherwise it
/// applies the first profile of the policy that can be, and does nothing where
/// none can.
pub proof fn the_hotkey_switches_over(status: &StatusSnapshot, r: Option<AdminCall>)
    requires
        call_ensures(status_tab::hotkey_call, (status,), r),
    ensures
        status.manual_global_active is Some ==> r is Some
            && r->0.request is DisableManualGlobalGameMode,
        status.manual_global_active is None ==> {
            &&& r is Some <==> exists|i: int|
                0 <= i < status.policy.profiles@.len() && (
                #[trigger] status.policy.profiles@[i]).manual_global_eligible
            &&& r is Some ==> r->0.request is EnableManualGlobalGameMode
            &&& forall|i: int|
                {
                    &&& 0 <= i < status.policy.profiles@.len()
                    &&& (#[trigger] status.policy.profiles@[i]).manual_global_eligible
                    &&& forall|j: int|
                        0 <= j < i ==> !(
                        #[trigger] status.policy.profiles@[j]).manual_global_eligible
                } ==> r->0.request->EnableManualGlobalGameMode_profile@
                    == status.policy.profiles@[i].id@
        },
{
    let profiles = status.policy.profiles@;
    let places = lemma_eligible_places(profiles, status.policy@.profiles);
    if status.manual_global_active is None {
        if places.len() > 0 {
            assert(0 <= places[0] < profiles.len());
            assert(profiles[places[0]].manual_global_eligible);
        }
        assert forall|i: int|
            {
                &&& 0 <= i < profiles.len()
                &&& (#[trigger] profiles[i]).manual_global_eligible
                &&& forall|j: int| 0 <= j < i ==> !(#[trigger] profiles[j]).manual_global_eligible
            } implies r->0.request->EnableManualGlobalGameMode_profile@ == profiles[i].id@ by {
            assert(places.contains(i));
            let k = places.index_of(i);
            if k > 0 {
                assert(places[0] < places[k]);
                assert(profiles[places[0]].manual_global_eligible);
            }
        }
        assert forall|i: int|
            0 <= i < profiles.len() && (
            #[trigger] profiles[i]).manual_global_eligible implies places.len() > 0 by {
            assert(places.contains(i));
        }
    }
}

/// Entering names the profile, leaving names none.
pub proof fn entering_names_the_profile(
    profile: String,
    enter: AdminCall,
    leave: AdminCall,
    label: String,
    id: &str,
)
    requires
        call_ensures(status_tab::enter_manual_global, (profile,), enter),
        call_ensures(status_tab::exit_manual_global, (), leave),
        call_ensures(status_tab::enter_label, (id,), label),
    ensures
        enter.request == (Request::EnableManualGlobalGameMode { profile }),
        enter.label@ == "enable manual global game mode"@,
        leave.request == Request::DisableManualGlobalGameMode,
        leave.label@ == "disable manual global game mode"@,
        label@ == "Enter "@ + formatters::pretty_id(id@),
{
}

/// A session can be ended exactly while the applied profile acts on the whole
/// system.
pub proof fn sessions_need_system_wide_actions(status: &StatusSnapshot, r: bool)
    requires
        call_ensures(status_tab::in_game_mode, (status,), r),
    ensures
        status.active_profile is None ==> !r,
        status.active_profile is Some ==> r == (status.active_profile->0.game_mode is Some),
{
}

} // verus!
