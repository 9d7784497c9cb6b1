//! The Status tab: the load balancer's card and the quick actions.

use vstd::prelude::*;

use crate::formatters;
use crate::ipc::{self, AdminCall, ProcessSnapshot, Request, StatusSnapshot};
use crate::policy::{PolicyView, ProBalanceConfig, ProfileView};
use crate::processes;
use crate::text;
use crate::theme::Tone;

verus! {

// ── The load balancer ───────────────────────────────────────────────────────

/// Counts the processes that are held back.
pub fn count_restrained(rows: &[ProcessSnapshot]) -> (r: usize)
    ensures
        r == processes::restrained_count(rows@),
{
    let ghost held = |p: ProcessSnapshot| p.restrained_by_probalance;
    let mut n: usize = 0;
    proof {
        reveal(Seq::filter);
        assert(rows@.take(0) =~= Seq::empty());
    }
    for i in 0..rows.len()
        invariant
            held == |p: ProcessSnapshot| p.restrained_by_probalance,
            n == rows@.take(i as int).filter(held).len(),
            n <= i,
    {
        proof {
            reveal(Seq::filter);
            assert(rows@.take(i + 1).drop_last() =~= rows@.take(i as int));
        }
        if rows[i].restrained_by_probalance {
            n = n + 1;
        }
    }
    assert(rows@.take(rows@.len() as int) =~= rows@);
    n
}

/// Counts the processes that have a profile.
pub fn count_managed(rows: &[ProcessSnapshot]) -> (r: usize)
    ensures
        r == processes::managed_count(rows@),
{
    let ghost managed = |p: ProcessSnapshot| p.managed_profile is Some;
    let mut n: usize = 0;
    proof {
        reveal(Seq::filter);
        assert(rows@.take(0) =~= Seq::empty());
    }
    for i in 0..rows.len()
        invariant
            managed == |p: ProcessSnapshot| p.managed_profile is Some,
            n == rows@.take(i as int).filter(managed).len(),
            n <= i,
    {
        proof {
            reveal(Seq::filter);
            assert(rows@.take(i + 1).drop_last() =~= rows@.take(i as int));
        }
        if rows[i].managed_profile.is_some() {
            n = n + 1;
        }
    }
    assert(rows@.take(rows@.len() as int) =~= rows@);
    n
}

/// The condition under which processes are held back.
pub open spec fn trigger_text(cfg: ProBalanceConfig) -> Seq<char> {
    "system CPU >= "@ + text::decimal(cfg.system_cpu_threshold_percent as nat)
        + "% AND non-foreground hog >= "@ + text::decimal(cfg.hog_cpu_threshold_percent as nat)
        + "% of one core"@
}

/// The lines of the load balancer's card.
#[derive(Debug, PartialEq, Eq)]
pub struct BalanceCard {
    pub badge: &'static str,
    pub badge_tone: Tone,
    pub restraining: String,
    pub restraining_tone: Tone,
    pub trigger: String,
    pub dwell: String,
    pub button: &'static str,
}

/// Writes the load balancer's card.
pub fn balance_card(cfg: &ProBalanceConfig, restrained: usize) -> (r: BalanceCard)
    ensures
        r.badge@ == (if cfg.enabled {
            "Enabled"@
        } else {
            "Disabled"@
        }),
        r.badge_tone == (if cfg.enabled {
            Tone::Success
        } else {
            Tone::TextMuted
        }),
        r.restraining@ == text::decimal(restrained as nat) + " processes"@,
        r.restraining_tone == (if restrained > 0 {
            Tone::Warning
        } else {
            Tone::TextMuted
        }),
        r.trigger@ == trigger_text(*cfg),
        r.dwell@ == text::decimal(cfg.min_restrain_ms as nat)
            + " ms before any restraint can be released"@,
        r.button@ == (if cfg.enabled {
            "Disable ProBalance"@
        } else {
            "Enable ProBalance"@
        }),
{
    let mut restraining = text::format_decimal(restrained as u64);
    restraining.append(" processes");
    let mut trigger = "system CPU >= ".to_owned();
    let system = text::format_decimal(cfg.system_cpu_threshold_percent as u64);
    trigger.append(system.as_str());
    trigger.append("% AND non-foreground hog >= ");
    let hog = text::format_decimal(cfg.hog_cpu_threshold_percent as u64);
    trigger.append(hog.as_str());
    trigger.append("% of one core");
    let mut dwell = text::format_decimal(cfg.min_restrain_ms);
    dwell.append(" ms before any restraint can be released");
    BalanceCard {
        badge: if cfg.enabled {
            "Enabled"
        } else {
            "Disabled"
        },
        badge_tone: if cfg.enabled {
            Tone::Success
        } else {
            Tone::TextMuted
        },
        restraining,
        restraining_tone: if restrained > 0 {
            Tone::Warning
        } else {
            Tone::TextMuted
        },
        trigger,
        dwell,
        button: if cfg.enabled {
            "Disable ProBalance"
        } else {
            "Enable ProBalance"
        },
    }
}

/// The policy with the load balancer switched over.
pub open spec fn with_balance_switched(p: PolicyView) -> PolicyView {
    PolicyView {
        probalance: ProBalanceConfig { enabled: !p.probalance.enabled, ..p.probalance },
        ..p
    }
}

/// Asks the service to switch the load balancer over. Nothing else of its
/// policy changes.
pub fn toggle_balance(status: &StatusSnapshot) -> (r: AdminCall)
    ensures
        ipc::asks_to_store(r, with_balance_switched(status.policy@), "toggle probalance"@),
{
    let mut policy = status.policy.clone();
    let cfg = policy.probalance;
    policy.probalance = ProBalanceConfig {
        enabled: !cfg.enabled,
        system_cpu_threshold_percent: cfg.system_cpu_threshold_percent,
        hog_cpu_threshold_percent: cfg.hog_cpu_threshold_percent,
        min_restrain_ms: cfg.min_restrain_ms,
    };
    AdminCall { request: Request::SetPolicy { policy }, label: "toggle probalance" }
}

/// Switching the load balancer twice restores the policy.
pub proof fn switching_twice_restores_the_policy(p: PolicyView)
    ensures
        with_balance_switched(with_balance_switched(p)) == p,
{
}

// ── Quick actions ───────────────────────────────────────────────────────────

/// Whether a session can be ended: the applied profile acts on the system.
pub fn in_game_mode(status: &StatusSnapshot) -> (r: bool)
    ensures
        r == (status.active_profile is Some && status.active_profile->0.game_mode is Some),
{
    match &status.active_profile {
        Some(p) => p.game_mode.is_some(),
        None => false,
    }
}

/// The ids of the profiles that can be applied system-wide, in policy order.
pub open spec fn eligible_ids(profiles: Seq<ProfileView>) -> Seq<Seq<char>> {
    profiles.filter(|p: ProfileView| p.manual_global_eligible).map_values(|p: ProfileView| p.id)
}

/// Lists the profiles that can be applied system-wide.
pub fn list_eligible(status: &StatusSnapshot) -> (r: Vec<String>)
    ensures
        text::texts(r@) == eligible_ids(status.policy@.profiles),
{
    let ghost views = status.policy@.profiles;
    let ghost fits = |p: ProfileView| p.manual_global_eligible;
    let ghost id = |p: ProfileView| p.id;
    let mut out: Vec<String> = Vec::new();
    proof {
        reveal(Seq::filter);
        assert(views.take(0) =~= Seq::empty());
        assert(text::texts(out@) =~= views.take(0).filter(fits).map_values(id));
    }
    for i in 0..status.policy.profiles.len()
        invariant
            views == status.policy@.profiles,
            fits == |p: ProfileView| p.manual_global_eligible,
            id == |p: ProfileView| p.id,
            text::texts(out@) == views.take(i as int).filter(fits).map_values(id),
    {
        let p = &status.policy.profiles[i];
        let ghost done = text::texts(out@);
        let ghost kept = views.take(i as int).filter(fits);
        proof {
            reveal(Seq::filter);
            assert(views.take(i + 1).drop_last() =~= views.take(i as int));
            assert(views.take(i + 1).last() == p@);
        }
        if p.manual_global_eligible {
            out.push(p.id.clone());
            assert(text::texts(out@) =~= done.push(p.id@));
            assert(kept.push(p@).map_values(id) =~= kept.map_values(id).push(p.id@));
        }
    }
    assert(views.take(views.len() as int) =~= views);
    out
}

/// The text of the button that applies a profile system-wide.
pub fn enter_label(id: &str) -> (r: String)
    ensures
        r@ == "Enter "@ + formatters::pretty_id(id@),
{
    let mut out = "Enter ".to_owned();
    let name = formatters::display_profile_id(id);
    out.append(name.as_str());
    out
}

/// Asks the service to apply a profile system-wide.
pub fn enter_manual_global(profile: String) -> (r: AdminCall)
    ensures
        ipc::asks(
            r,
            Request::EnableManualGlobalGameMode { profile },
            "enable manual global game mode"@,
        ),
{
    AdminCall {
        request: Request::EnableManualGlobalGameMode { profile },
        label: "enable manual global game mode",
    }
}

/// The profile that the hotkey applies system-wide: the first that can be.
pub open spec fn hotkey_profile(status: StatusSnapshot) -> Option<Seq<char>> {
    let ids = eligible_ids(status.policy@.profiles);
    if ids.len() > 0 {
        Some(ids[0])
    } else {
        None
    }
}

/// What a press of the hotkey asks of the service: to take a system-wide
/// profile back, else to apply the first one that can be; nothing where there
/// is none.
pub fn hotkey_call(status: &StatusSnapshot) -> (r: Option<AdminCall>)
    ensures
        if status.manual_global_active is Some {
            &&& r is Some
            &&& ipc::asks(
                r->0,
                Request::DisableManualGlobalGameMode,
                "disable manual global game mode"@,
            )
        } else {
            match hotkey_profile(*status) {
                Some(id) => {
                    &&& r is Some
                    &&& r->0.label@ == "enable manual global game mode"@
                    &&& r->0.request matches Request::EnableManualGlobalGameMode { profile }
                    &&& profile@ == id
                },
                None => r is None,
            }
        },
{
    if status.manual_global_active.is_some() {
        return Some(exit_manual_global());
    }
    let ids = list_eligible(status);
    assert(ids@.len() == text::texts(ids@).len());
    if ids.len() > 0 {
        assert(text::texts(ids@)[0] == ids@[0]@);
        Some(enter_manual_global(ids[0].clone()))
    } else {
        None
    }
}

/// Asks the service to take a system-wide profile back.
pub fn exit_manual_global() -> (r: AdminCall)
    ensures
        ipc::asks(
            r,
            Request::DisableManualGlobalGameMode,
            "disable manual global game mode"@,
        ),
{
    AdminCall {
        request: Request::DisableManualGlobalGameMode,
        label: "disable manual global game mode",
    }
}

} // verus!
