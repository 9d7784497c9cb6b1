//! Laws of the first-run wizard: how its pages follow each other, and what the
//! choices leave of the policy.

use vstd::prelude::*;

use crate::onboarding::{
    self, AggressionLevel, ClosedLoopChoice, NextAction, OnboardingResult, OnboardingState, Page,
};
use crate::policy::{GameModeActions, Policy, Profile};
use crate::policy_laws;
use crate::rule_laws;

verus! {

// ── Pages ───────────────────────────────────────────────────────────────────

/// The wizard starts on its first page with nothing picked. Reopened for the
/// question about measuring, it starts there, with the level that changes
/// nothing.
pub proof fn the_wizard_starts_with_nothing_picked(
    fresh: OnboardingState,
    reopened: OnboardingState,
    first: Page,
    asked: Page,
)
    requires
        call_ensures(OnboardingState::default, (), fresh),
        call_ensures(OnboardingState::for_opt_in, (), reopened),
        call_ensures(OnboardingState::current, (&fresh,), first),
        call_ensures(OnboardingState::current, (&reopened,), asked),
    ensures
        first is Intro,
        fresh.choice is None,
        fresh.closed_loop_choice is None,
        asked is ClosedLoop,
        reopened.choice == Some(AggressionLevel::Aggressive),
        reopened.closed_loop_choice is None,
{
}

/// Each page has its place, and the last one is shown from its place on.
pub proof fn pages_have_their_places(state: &OnboardingState, r: Page)
    requires
        call_ensures(OnboardingState::current, (state,), r),
    ensures
        state.page == 0 <==> r is Intro,
        state.page == 1 <==> r is Level,
        state.page == 2 <==> r is ClosedLoop,
        state.page == 3 <==> r is ManualHotkey,
        state.page >= 4 <==> r is Finale,
{
}

/// Only the two questions hold the wizard up, each until it is answered.
pub proof fn questions_must_be_answered(state: &OnboardingState, r: bool)
    requires
        call_ensures(OnboardingState::may_continue, (state,), r),
    ensures
        state.page == 1 ==> r == (state.choice is Some),
        state.page == 2 ==> r == (state.closed_loop_choice is Some),
        state.page != 1 && state.page != 2 ==> r,
{
}

/// A pick answers its own question and no other.
pub proof fn picks_answer_their_question(
    a: &mut OnboardingState,
    level: AggressionLevel,
    b: &mut OnboardingState,
    choice: ClosedLoopChoice,
)
    requires
        call_ensures(OnboardingState::pick_level, (a, level), ()),
        call_ensures(OnboardingState::pick_closed_loop, (b, choice), ()),
    ensures
        final(a).choice == Some(level),
        final(a).closed_loop_choice == old(a).closed_loop_choice,
        final(a).page == old(a).page,
        final(b).closed_loop_choice == Some(choice),
        final(b).choice == old(b).choice,
        final(b).page == old(b).page,
{
}

/// Continue and Back move by one page and stop at the ends; Finish hands over
/// what was picked; no button changes a pick.
pub proof fn buttons_turn_one_page(
    state: &mut OnboardingState,
    action: Option<NextAction>,
    r: OnboardingResult,
)
    requires
        action == Some(NextAction::Finish) ==> old(state).choice is Some
            && old(state).closed_loop_choice is Some,
        call_ensures(OnboardingState::step, (state, action), r),
    ensures
        action == Some(NextAction::Forward) && old(state).page < 4 ==> final(state).page
            == old(state).page + 1,
        action == Some(NextAction::Forward) && old(state).page == 4 ==> final(state).page == 4,
        action == Some(NextAction::Back) && old(state).page > 0 ==> final(state).page
            == old(state).page - 1,
        action == Some(NextAction::Back) && old(state).page == 0 ==> final(state).page == 0,
        action is None || action == Some(NextAction::Finish) ==> final(state).page
            == old(state).page,
        final(state).choice == old(state).choice,
        final(state).closed_loop_choice == old(state).closed_loop_choice,
        action == Some(NextAction::Finish) ==> r is Finished && Some(r->level)
            == old(state).choice && Some(r->closed_loop) == old(state).closed_loop_choice,
        action != Some(NextAction::Finish) ==> r is StillVisible,
{
}

/// Going on and back again shows the page of before.
pub proof fn back_undoes_continue(
    state: &mut OnboardingState,
    r: OnboardingResult,
    later: &mut OnboardingState,
    s: OnboardingResult,
)
    requires
        old(state).page < 4,
        call_ensures(OnboardingState::step, (state, Some(NextAction::Forward)), r),
        *old(later) == *final(state),
        call_ensures(OnboardingState::step, (later, Some(NextAction::Back)), s),
    ensures
        *final(later) == *old(state),
{
}

/// Every level has its own name and its own advice.
pub proof fn levels_have_names(
    level: AggressionLevel,
    label: &'static str,
    subtitle: &'static str,
)
    requires
        call_ensures(AggressionLevel::label, (level,), label),
        call_ensures(AggressionLevel::subtitle, (level,), subtitle),
    ensures
        level is Aggressive ==> label@ == "Aggressive"@ && subtitle@
            == "recommended for dedicated gaming PCs"@,
        level is Balanced ==> label@ == "Balanced"@ && subtitle@
            == "OK for shared / work-also-laptop machines"@,
        level is PinningOnly ==> label@ == "Pinning only"@ && subtitle@
            == "the safest of the three"@,
{
}

// ── What the choices do ─────────────────────────────────────────────────────

/// Whether an id begins with `game`.
pub open spec fn is_game(id: Seq<char>) -> bool {
    &&& id.len() >= 4
    &&& id[0] == 'g'
    &&& id[1] == 'a'
    &&& id[2] == 'm'
    &&& id[3] == 'e'
}

proof fn lemma_is_game(id: Seq<char>)
    ensures
        onboarding::is_gaming(id) == is_game(id),
{
    reveal_strlit("game");
    let word = "game"@;
    assert(word.len() == 4);
    if is_game(id) {
        assert(id.take(4) =~= word);
        assert(id.subrange(0, 4) =~= word);
    }
    if onboarding::is_gaming(id) {
        assert(id.subrange(0, 4) =~= word);
        assert(id.subrange(0, 4)[0] == id[0]);
        assert(id.subrange(0, 4)[1] == id[1]);
        assert(id.subrange(0, 4)[2] == id[2]);
        assert(id.subrange(0, 4)[3] == id[3]);
    }
}

/// Whether two profiles agree in everything but their system-wide actions.
pub open spec fn same_but_actions(a: Profile, b: Profile) -> bool {
    &&& a.id@ == b.id@
    &&& a.description@ == b.description@
    &&& a.ac_safe_mode_target == b.ac_safe_mode_target
    &&& a.power_throttling == b.power_throttling
    &&& a.priority_class == b.priority_class
    &&& a.io_priority == b.io_priority
    &&& a.memory_priority == b.memory_priority
    &&& a.trim_working_set == b.trim_working_set
    &&& a.persistent == b.persistent
    &&& a.cpu_sets == b.cpu_sets
    &&& a.affinity_mask == b.affinity_mask
    &&& a.manual_global_eligible == b.manual_global_eligible
    &&& a.rest@ == b.rest@
}

/// Whether `after` keeps the power plan of `before` and nothing else that
/// touches the machine.
pub open spec fn keeps_the_plan_alone(before: GameModeActions, after: GameModeActions) -> bool {
    &&& policy_laws::same_plan(before.power_plan, after.power_plan)
    &&& !after.hide_taskbar
    &&& !after.pause_windows_update
    &&& after.stop_services@.len() == 0
    &&& after.suspend_processes@.len() == 0
    &&& after.focus_assist == before.focus_assist
    &&& after.rest@ == before.rest@
}

proof fn lemma_balanced(before: GameModeActions, after: GameModeActions)
    requires
        after@ == onboarding::balanced(before@),
    ensures
        keeps_the_plan_alone(before, after),
{
    assert(after@.stop_services.len() == after.stop_services@.len());
    assert(after@.suspend_processes.len() == after.suspend_processes@.len());
}

/// The balanced form of system-wide actions keeps the power plan alone.
pub proof fn balancing_keeps_the_power_plan(before: &GameModeActions, r: GameModeActions)
    requires
        call_ensures(onboarding::balanced_from, (before,), r),
    ensures
        keeps_the_plan_alone(*before, r),
{
    lemma_balanced(*before, r);
}

/// Whether a profile is what a level makes of another: gaming profiles keep all
/// their system-wide actions, the power plan alone, or none; other profiles are
/// left alone.
pub open spec fn is_under(before: Profile, after: Profile, level: AggressionLevel) -> bool {
    &&& same_but_actions(before, after)
    &&& !is_game(before.id@) || level is Aggressive ==> policy_laws::same_profile(before, after)
    &&& is_game(before.id@) && level is PinningOnly ==> after.game_mode is None
    &&& is_game(before.id@) && level is Balanced ==> {
        &&& after.game_mode is Some == before.game_mode is Some
        &&& before.game_mode is Some ==> keeps_the_plan_alone(
            before.game_mode->0,
            after.game_mode->0,
        )
    }
}

/// A level is about the gaming profiles' system-wide actions; every profile
/// stays in its place, and no rule or other setting changes.
pub proof fn levels_are_about_gaming_profiles(p: &mut Policy, level: AggressionLevel)
    requires
        call_ensures(onboarding::apply_choice_to_policy, (p, level), ()),
    ensures
        rule_laws::same_but_profiles(*old(p), *final(p)),
        final(p).profiles@.len() == old(p).profiles@.len(),
        forall|i: int|
            0 <= i < old(p).profiles@.len() ==> is_under(
                #[trigger] old(p).profiles@[i],
                final(p).profiles@[i],
                level,
            ),
{
    let a = *old(p);
    let b = *final(p);
    policy_laws::lemma_same_rules(a, b);
    policy_laws::lemma_same_affinity_rules(a, b);
    assert(a@.profiles.len() == a.profiles@.len());
    assert(b@.profiles.len() == b.profiles@.len());
    assert forall|i: int| 0 <= i < a.profiles@.len() implies is_under(
        #[trigger] a.profiles@[i],
        b.profiles@[i],
        level,
    ) by {
        let before = a.profiles@[i];
        let after = b.profiles@[i];
        assert(before@ == a@.profiles[i]);
        assert(after@ == b@.profiles[i]);
        assert(after@ == onboarding::profile_under(before@, level));
        lemma_is_game(before.id@);
        if !is_game(before.id@) || level is Aggressive {
            policy_laws::lemma_same_profile(before, after);
        } else if level is Balanced && before.game_mode is Some {
            lemma_balanced(before.game_mode->0, after.game_mode->0);
        }
    }
}

/// The answer about measuring sets that switch and nothing else.
pub proof fn measuring_is_one_switch(p: &mut Policy, choice: ClosedLoopChoice)
    requires
        call_ensures(onboarding::apply_closed_loop_to_policy, (p, choice), ()),
    ensures
        choice is Enable ==> final(p).closed_loop_enabled,
        choice is LeaveDisabled ==> !final(p).closed_loop_enabled,
        policy_laws::same_profiles(*old(p), *final(p)),
        policy_laws::same_rules(*old(p), *final(p)),
        policy_laws::same_affinity_rules(*old(p), *final(p)),
        final(p).default_profile@ == old(p).default_profile@,
        policy_laws::same_text(final(p).background_profile, old(p).background_profile),
        policy_laws::same_balance(final(p).probalance, old(p).probalance),
        final(p).rest@ == old(p).rest@,
{
    policy_laws::lemma_same_profiles(*old(p), *final(p));
    policy_laws::lemma_same_rules(*old(p), *final(p));
    policy_laws::lemma_same_affinity_rules(*old(p), *final(p));
}

} // verus!
