//! The first-run wizard: its pages, when it may be left, and what the choices
//! do to the policy.

use vstd::prelude::*;

use crate::policy::{self, GameModeActions, GameModeView, Policy, PolicyView, Profile, ProfileView};
use crate::text;

verus! {

/// How much the gaming profiles may do to the machine.
#[derive(Debug, Clone, Copy, PartialEq, Eq, Structural)]
pub enum AggressionLevel {
    /// The seeded actions as they are.
    Aggressive,
    /// Pinning, priority and the power plan only.
    Balanced,
    /// Pinning only.
    PinningOnly,
}

/// The name of a level.
pub open spec fn level_label(level: AggressionLevel) -> Seq<char> {
    match level {
        AggressionLevel::Aggressive => "Aggressive"@,
        AggressionLevel::Balanced => "Balanced"@,
        AggressionLevel::PinningOnly => "Pinning only"@,
    }
}

/// Whom a level is for.
pub open spec fn level_subtitle(level: AggressionLevel) -> Seq<char> {
    match level {
        AggressionLevel::Aggressive => "recommended for dedicated gaming PCs"@,
        AggressionLevel::Balanced => "OK for shared / work-also-laptop machines"@,
        AggressionLevel::PinningOnly => "the safest of the three"@,
    }
}

impl AggressionLevel {
    pub fn label(self) -> (r: &'static str)
        ensures
            r@ == level_label(self),
    {
        match self {
            AggressionLevel::Aggressive => "Aggressive",
            AggressionLevel::Balanced => "Balanced",
            AggressionLevel::PinningOnly => "Pinning only",
        }
    }

    pub fn subtitle(self) -> (r: &'static str)
        ensures
            r@ == level_subtitle(self),
    {
        match self {
            AggressionLevel::Aggressive => "recommended for dedicated gaming PCs",
            AggressionLevel::Balanced => "OK for shared / work-also-laptop machines",
            AggressionLevel::PinningOnly => "the safest of the three",
        }
    }
}

/// Whether sessions are to be measured.
#[derive(Debug, Clone, Copy, PartialEq, Eq, Structural)]
pub enum ClosedLoopChoice {
    Enable,
    LeaveDisabled,
}

/// Where the wizard stands and what was picked so far. Nothing is picked to
/// begin with.
#[derive(Debug, Clone, Copy, PartialEq, Eq, Structural)]
pub struct OnboardingState {
    pub page: u8,
    pub choice: Option<AggressionLevel>,
    pub closed_loop_choice: Option<ClosedLoopChoice>,
}

/// What the host does after a frame of the wizard.
#[derive(Debug, Clone, Copy, PartialEq, Eq, Structural)]
pub enum OnboardingResult {
    /// Apply the choices and write the marker.
    Finished { level: AggressionLevel, closed_loop: ClosedLoopChoice },
    StillVisible,
}

/// A button of the wizard.
#[derive(Debug, Clone, Copy, PartialEq, Eq, Structural)]
pub enum NextAction {
    Forward,
    Back,
    Finish,
}

/// The pages in order.
#[derive(Debug, Clone, Copy, PartialEq, Eq, Structural)]
pub enum Page {
    Intro,
    Level,
    ClosedLoop,
    ManualHotkey,
    Finale,
}

/// Page that asks for a level.
pub const LEVEL_PAGE: u8 = 1;

/// Page that asks about measuring sessions.
pub const CLOSED_LOOP_PAGE: u8 = 2;

/// The last page.
pub const LAST_PAGE_INDEX: u8 = 4;

/// Shown before measuring is enabled.
pub const CLOSED_LOOP_PAGE_EDR_DISCLOSURE: &'static str = "EDR validation in progress for v0.7.1. Enable if you're on a personal machine; we recommend leaving disabled on work-managed machines until v0.7.1 confirms compatibility.";

impl Default for OnboardingState {
    fn default() -> (r: Self)
        ensures
            r == (OnboardingState { page: 0, choice: None, closed_loop_choice: None }),
    {
        OnboardingState { page: 0, choice: None, closed_loop_choice: None }
    }
}

/// The page behind an index; indices past the end show the last page.
pub open spec fn page_at(index: u8) -> Page {
    if index == 0 {
        Page::Intro
    } else if index == LEVEL_PAGE {
        Page::Level
    } else if index == CLOSED_LOOP_PAGE {
        Page::ClosedLoop
    } else if index == 3 {
        Page::ManualHotkey
    } else {
        Page::Finale
    }
}

impl OnboardingState {
    /// What has to be picked on the pages left behind has been picked.
    pub open spec fn well_formed(self) -> bool {
        &&& self.page <= LAST_PAGE_INDEX
        &&& self.page > LEVEL_PAGE ==> self.choice is Some
        &&& self.page > CLOSED_LOOP_PAGE ==> self.closed_loop_choice is Some
    }

    /// The wizard as it is reopened for the question about measuring alone. The
    /// level that changes nothing stands chosen.
    pub fn for_opt_in() -> (r: Self)
        ensures
            r == (OnboardingState {
                page: CLOSED_LOOP_PAGE,
                choice: Some(AggressionLevel::Aggressive),
                closed_loop_choice: None,
            }),
            r.well_formed(),
    {
        OnboardingState {
            page: CLOSED_LOOP_PAGE,
            choice: Some(AggressionLevel::Aggressive),
            closed_loop_choice: None,
        }
    }

    /// The page that is shown.
    pub fn current(&self) -> (r: Page)
        ensures
            r == page_at(self.page),
    {
        if self.page == 0 {
            Page::Intro
        } else if self.page == LEVEL_PAGE {
            Page::Level
        } else if self.page == CLOSED_LOOP_PAGE {
            Page::ClosedLoop
        } else if self.page == 3 {
            Page::ManualHotkey
        } else {
            Page::Finale
        }
    }

    pub open spec fn may_continue_spec(self) -> bool {
        match page_at(self.page) {
            Page::Level => self.choice is Some,
            Page::ClosedLoop => self.closed_loop_choice is Some,
            _ => true,
        }
    }

    /// Whether the Continue button is enabled.
    pub fn may_continue(&self) -> (r: bool)
        ensures
            r == self.may_continue_spec(),
    {
        match self.current() {
            Page::Level => self.choice.is_some(),
            Page::ClosedLoop => self.closed_loop_choice.is_some(),
            _ => true,
        }
    }

    /// Whether a button is there to be clicked: Continue where enabled and not
    /// on the last page, Back but on the first, Finish on the last.
    pub open spec fn offers(self, action: NextAction) -> bool {
        match action {
            NextAction::Forward => page_at(self.page) != Page::Finale && self.may_continue_spec(),
            NextAction::Back => page_at(self.page) != Page::Intro,
            NextAction::Finish => page_at(self.page) == Page::Finale,
        }
    }

    /// Picks a level.
    pub fn pick_level(&mut self, level: AggressionLevel)
        ensures
            *final(self) == (OnboardingState { choice: Some(level), ..*old(self) }),
    {
        self.choice = Some(level);
    }

    /// Picks whether sessions are measured.
    pub fn pick_closed_loop(&mut self, choice: ClosedLoopChoice)
        ensures
            *final(self) == (OnboardingState { closed_loop_choice: Some(choice), ..*old(self) }),
    {
        self.closed_loop_choice = Some(choice);
    }

    /// Carries out the click of a frame, if there was one. Finish needs both
    /// choices to have been made.
    pub fn step(&mut self, action: Option<NextAction>) -> (r: OnboardingResult)
        requires
            action == Some(NextAction::Finish) ==> old(self).choice is Some && old(
                self,
            ).closed_loop_choice is Some,
        ensures
            final(self).choice == old(self).choice,
            final(self).closed_loop_choice == old(self).closed_loop_choice,
            final(self).page == (match action {
                Some(NextAction::Forward) => if old(self).page < LAST_PAGE_INDEX {
                    old(self).page + 1
                } else {
                    LAST_PAGE_INDEX as int
                },
                Some(NextAction::Back) => if old(self).page > 0 {
                    old(self).page - 1
                } else {
                    0
                },
                _ => old(self).page as int,
            }),
            r == (match action {
                Some(NextAction::Finish) => OnboardingResult::Finished {
                    level: old(self).choice->0,
                    closed_loop: old(self).closed_loop_choice->0,
                },
                _ => OnboardingResult::StillVisible,
            }),
            old(self).well_formed() && (action matches Some(a) ==> old(self).offers(a))
                ==> final(self).well_formed(),
    {
        match action {
            Some(NextAction::Forward) => {
                self.page = if self.page < LAST_PAGE_INDEX {
                    self.page + 1
                } else {
                    LAST_PAGE_INDEX
                };
                OnboardingResult::StillVisible
            },
            Some(NextAction::Back) => {
                self.page = if self.page > 0 {
                    self.page - 1
                } else {
                    0
                };
                OnboardingResult::StillVisible
            },
            Some(NextAction::Finish) => match (self.choice, self.closed_loop_choice) {
                (Some(level), Some(closed_loop)) => OnboardingResult::Finished {
                    level,
                    closed_loop,
                },
                _ => OnboardingResult::StillVisible,
            },
            None => OnboardingResult::StillVisible,
        }
    }
}

/// The Finish button is only ever there when both choices were made.
pub proof fn finish_needs_both_choices(state: OnboardingState)
    requires
        state.well_formed(),
        state.offers(NextAction::Finish),
    ensures
        state.choice is Some,
        state.closed_loop_choice is Some,
{
}

// ── What the choices do ─────────────────────────────────────────────────────

/// Profiles that the level is about: those whose id begins with "game".
pub open spec fn is_gaming(id: Seq<char>) -> bool {
    text::begins_with(id, "game"@)
}

/// Game Mode actions with the power plan as the only thing left of what
/// touches the machine.
pub open spec fn balanced(gm: GameModeView) -> GameModeView {
    GameModeView {
        stop_services: Seq::empty(),
        suspend_processes: Seq::empty(),
        hide_taskbar: false,
        pause_windows_update: false,
        ..gm
    }
}

/// A profile under a level.
pub open spec fn profile_under(p: ProfileView, level: AggressionLevel) -> ProfileView {
    if !is_gaming(p.id) {
        p
    } else {
        match level {
            AggressionLevel::Aggressive => p,
            AggressionLevel::Balanced => ProfileView {
                game_mode: match p.game_mode {
                    Some(gm) => Some(balanced(gm)),
                    None => None,
                },
                ..p
            },
            AggressionLevel::PinningOnly => ProfileView { game_mode: None, ..p },
        }
    }
}

/// A policy under a level: every profile under it, the rest as it was.
pub open spec fn policy_under(policy: PolicyView, level: AggressionLevel) -> PolicyView {
    PolicyView {
        profiles: policy.profiles.map_values(|p: ProfileView| profile_under(p, level)),
        ..policy
    }
}

/// The balanced form of a set of actions.
pub fn balanced_from(aggressive: &GameModeActions) -> (r: GameModeActions)
    ensures
        r@ == balanced(aggressive@),
{
    let r = GameModeActions {
        hide_taskbar: false,
        focus_assist: aggressive.focus_assist,
        stop_services: Vec::new(),
        suspend_processes: Vec::new(),
        power_plan: policy::clone_plan(&aggressive.power_plan),
        pause_windows_update: false,
        rest: aggressive.rest.clone(),
    };
    assert(r@.stop_services =~= Seq::empty());
    assert(r@.suspend_processes =~= Seq::empty());
    r
}

fn apply_to_profile(p: &Profile, level: AggressionLevel) -> (r: Profile)
    ensures
        r@ == profile_under(p@, level),
{
    let mut out = p.clone();
    if text::starts_with_text(p.id.as_str(), "game") {
        match level {
            AggressionLevel::Aggressive => {},
            AggressionLevel::Balanced => {
                if let Some(gm) = &p.game_mode {
                    out.game_mode = Some(balanced_from(gm));
                }
            },
            AggressionLevel::PinningOnly => {
                out.game_mode = None;
            },
        }
    }
    out
}

/// Brings the gaming profiles to the chosen level; everything else stays.
pub fn apply_choice_to_policy(policy: &mut Policy, level: AggressionLevel)
    ensures
        final(policy)@ == policy_under(old(policy)@, level),
{
    let ghost under = |p: ProfileView| profile_under(p, level);
    let mut out: Vec<Profile> = Vec::new();
    for i in 0..policy.profiles.len()
        invariant
            policy@ == old(policy)@,
            policy.profiles@ == old(policy).profiles@,
            under == |p: ProfileView| profile_under(p, level),
            policy::profile_views(out@) == policy@.profiles.take(i as int).map_values(under),
    {
        let ghost done = policy::profile_views(out@);
        out.push(apply_to_profile(&policy.profiles[i], level));
        assert(policy::profile_views(out@) =~= done.push(under(policy@.profiles[i as int])));
        assert(policy@.profiles.take(i + 1).map_values(under) =~= policy@.profiles.take(
            i as int,
        ).map_values(under).push(under(policy@.profiles[i as int])));
    }
    assert(policy@.profiles.take(policy@.profiles.len() as int) =~= policy@.profiles);
    policy.profiles = out;
}

/// Turns measuring on or off as chosen; everything else stays.
pub fn apply_closed_loop_to_policy(policy: &mut Policy, choice: ClosedLoopChoice)
    ensures
        final(policy)@ == (PolicyView {
            closed_loop_enabled: choice == ClosedLoopChoice::Enable,
            ..old(policy)@
        }),
{
    policy.closed_loop_enabled = choice == ClosedLoopChoice::Enable;
}

/// The aggressive level changes nothing.
pub proof fn aggressive_changes_nothing(policy: PolicyView)
    ensures
        policy_under(policy, AggressionLevel::Aggressive) == policy,
{
    assert(policy_under(policy, AggressionLevel::Aggressive).profiles =~= policy.profiles);
}

/// Applying a level twice is applying it once.
pub proof fn levels_are_idempotent(policy: PolicyView, level: AggressionLevel)
    ensures
        policy_under(policy_under(policy, level), level) == policy_under(policy, level),
{
    assert(policy_under(policy_under(policy, level), level).profiles =~= policy_under(
        policy,
        level,
    ).profiles);
}

/// Of the balanced level and pinning only, in whichever order, pinning only is
/// what comes out.
pub proof fn pinning_only_wins_over_balanced(policy: PolicyView)
    ensures
        policy_under(
            policy_under(policy, AggressionLevel::Balanced),
            AggressionLevel::PinningOnly,
        ) == policy_under(policy, AggressionLevel::PinningOnly),
        policy_under(
            policy_under(policy, AggressionLevel::PinningOnly),
            AggressionLevel::Balanced,
        ) == policy_under(policy, AggressionLevel::PinningOnly),
{
    let pinned = policy_under(policy, AggressionLevel::PinningOnly);
    let eased = policy_under(policy, AggressionLevel::Balanced);
    assert(policy_under(eased, AggressionLevel::PinningOnly).profiles =~= pinned.profiles);
    assert(policy_under(pinned, AggressionLevel::Balanced).profiles =~= pinned.profiles);
}

/// No level touches a profile that is not for gaming, and no level changes
/// anything of a gaming profile but its Game Mode actions; balanced keeps their
/// power plan.
pub proof fn levels_touch_only_game_mode(policy: PolicyView, level: AggressionLevel, i: int)
    requires
        0 <= i < policy.profiles.len(),
    ensures
        ({
            let before = policy.profiles[i];
            let after = policy_under(policy, level).profiles[i];
            &&& !is_gaming(before.id) ==> after == before
            &&& after == (ProfileView { game_mode: after.game_mode, ..before })
            &&& level == AggressionLevel::Balanced && before.game_mode is Some
                ==> after.game_mode is Some && after.game_mode->0.power_plan
                == before.game_mode->0.power_plan
            &&& level == AggressionLevel::PinningOnly && is_gaming(before.id)
                ==> after.game_mode is None
        }),
{
}

} // verus!
