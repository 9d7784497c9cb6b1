//! Laws of the Profiles tab: what a click changes, what it asks for, and what
//! may be deleted.

use vstd::prelude::*;

use crate::formatters;
use crate::ipc::{AdminCall, Request, StatusSnapshot};
use crate::policy::{self, Policy, Profile};
use crate::policy_laws;
use crate::profiles_tab::{
    self, IdCheck, ProfileCard, ProfileOp, ProfilesButtons, ProfilesEditor,
};
use crate::rule_laws;
use crate::text;
use crate::text_laws;

verus! {

/// Whether some profile of a policy has an id, in whatever case.
pub open spec fn has_id_in_any_case(p: Policy, id: Seq<char>) -> bool {
    exists|i: int|
        0 <= i < p.profiles@.len() && text::lower((#[trigger] p.profiles@[i]).id@) == text::lower(
            id,
        )
}

proof fn lemma_profile_views(p: Policy)
    ensures
        p@.profiles.len() == p.profiles@.len(),
        forall|j: int|
            0 <= j < p.profiles@.len() ==> (#[trigger] p.profiles@[j])@ == p@.profiles[j],
{
}

proof fn lemma_taken(p: Policy, id: Seq<char>)
    ensures
        policy::id_is_taken(p@.profiles, id) == has_id_in_any_case(p, id),
{
    lemma_profile_views(p);
    if policy::id_is_taken(p@.profiles, id) {
        let i = choose|i: int|
            0 <= i < p@.profiles.len() && text::lower((#[trigger] p@.profiles[i]).id)
                == text::lower(id);
        assert(p.profiles@[i]@ == p@.profiles[i]);
    }
    if has_id_in_any_case(p, id) {
        let i = choose|i: int|
            0 <= i < p.profiles@.len() && text::lower((#[trigger] p.profiles@[i]).id@)
                == text::lower(id);
        assert(p.profiles@[i]@ == p@.profiles[i]);
    }
}

// ── New profiles ────────────────────────────────────────────────────────────

/// A new profile needs an id that is not blank and that no profile has in any
/// case; blanks at its ends do not count.
pub proof fn new_ids_are_free(
    draft: &Option<Policy>,
    current: &Policy,
    typed: &str,
    r: IdCheck,
)
    requires
        call_ensures(profiles_tab::check_new_id, (draft, current, typed), r),
    ensures
        r.taken == has_id_in_any_case(rule_laws::base_of(*draft, *current), text::trim(typed@)),
        r.can_save == (!r.taken && !text_laws::is_blank(typed@)),
{
    text_laws::blank_texts_trim_to_nothing(typed@);
    lemma_taken(rule_laws::base_of(*draft, *current), text::trim(typed@));
}

/// Whether a profile has an id and asks for nothing.
pub open spec fn is_new(p: Profile, id: Seq<char>) -> bool {
    &&& p.id@ == id
    &&& p.description@.len() == 0
    &&& p.ac_safe_mode_target is Aggressive
    &&& p.power_throttling is None
    &&& p.priority_class is None
    &&& p.io_priority is None
    &&& p.memory_priority is None
    &&& !p.trim_working_set
    &&& !p.persistent
    &&& p.cpu_sets is None
    &&& p.affinity_mask is None
    &&& p.game_mode is None
    &&& !p.manual_global_eligible
    &&& p.rest@.len() == 0
}

/// Whether `after` is `before` with a new profile behind all others.
pub open spec fn gains_a_profile(before: Policy, after: Policy, id: Seq<char>) -> bool {
    &&& rule_laws::same_but_profiles(before, after)
    &&& after.profiles@.len() == before.profiles@.len() + 1
    &&& is_new(after.profiles@[before.profiles@.len() as int], id)
    &&& forall|j: int|
        0 <= j < before.profiles@.len() ==> policy_laws::same_profile(
            #[trigger] after.profiles@[j],
            before.profiles@[j],
        )
}

proof fn lemma_gains(before: Policy, after: Policy, id: Seq<char>)
    requires
        !has_id_in_any_case(before, id),
        after@ == (policy::PolicyView {
            profiles: policy::profiles_with(before@.profiles, policy::blank_profile(id)),
            ..before@
        }),
    ensures
        gains_a_profile(before, after, id),
{
    lemma_profile_views(before);
    lemma_profile_views(after);
    lemma_taken(before, id);
    policy::profile_position_is_first_match(before@.profiles, id);
    if let Some(i) = policy::profile_position(before@.profiles, id) {
        assert(text::lower(before@.profiles[i].id) == text::lower(id));
    }
    policy_laws::lemma_same_rules(before, after);
    policy_laws::lemma_same_affinity_rules(before, after);
    let n = before.profiles@.len() as int;
    assert(after.profiles@[n]@ == after@.profiles[n]);
    assert forall|j: int| 0 <= j < n implies policy_laws::same_profile(
        #[trigger] after.profiles@[j],
        before.profiles@[j],
    ) by {
        assert(after.profiles@[j]@ == after@.profiles[j]);
        assert(before.profiles@[j]@ == before@.profiles[j]);
        policy_laws::lemma_same_profile(after.profiles@[j], before.profiles@[j]);
    }
}

/// Saving the form adds one profile that asks for nothing, behind all others,
/// and goes on to edit it. With elevation what the draft says is sent as well.
/// An id that is blank or taken changes nothing.
pub proof fn saving_adds_one_profile(
    editor: &mut ProfilesEditor,
    draft: &mut Option<Policy>,
    status: &StatusSnapshot,
    elevated: bool,
    r: Option<AdminCall>,
)
    requires
        call_ensures(ProfilesEditor::commit_new, (editor, draft, status, elevated), r),
    ensures
        ({
            let before = rule_laws::base_of(*old(draft), status.policy);
            if old(editor).new_form is Some && !text_laws::is_blank(old(editor).new_form->0@)
                && !has_id_in_any_case(before, text::trim(old(editor).new_form->0@)) {
                let id = text::trim(old(editor).new_form->0@);
                &&& final(editor).new_form is None
                &&& final(editor).editing_id is Some
                &&& final(editor).editing_id->0@ == id
                &&& *final(draft) is Some
                &&& gains_a_profile(before, (*final(draft))->0, id)
                &&& r is Some == elevated
                &&& elevated ==> {
                    &&& r->0.request is SetPolicy
                    &&& r->0.label@ == "save profile"@
                    &&& gains_a_profile(before, r->0.request->SetPolicy_policy, id)
                }
            } else {
                &&& r is None
                &&& *final(editor) == *old(editor)
                &&& *final(draft) == *old(draft)
            }
        }),
{
    let before = rule_laws::base_of(*old(draft), status.policy);
    if old(editor).new_form is Some {
        let typed = old(editor).new_form->0@;
        let id = text::trim(typed);
        text_laws::blank_texts_trim_to_nothing(typed);
        lemma_taken(before, id);
        if !text_laws::is_blank(typed) && !has_id_in_any_case(before, id) {
            lemma_gains(before, (*final(draft))->0, id);
            if elevated {
                lemma_gains(before, r->0.request->SetPolicy_policy, id);
            }
        }
    }
}

/// The form for a new profile opens empty and takes the place of the edited
/// profile; what was shown becomes the draft.
pub proof fn the_new_form_opens_empty(
    editor: &mut ProfilesEditor,
    draft: &mut Option<Policy>,
    status: &StatusSnapshot,
)
    requires
        call_ensures(ProfilesEditor::open_new, (editor, draft, status), ()),
    ensures
        final(editor).editing_id is None,
        final(editor).new_form is Some,
        final(editor).new_form->0@.len() == 0,
        *final(draft) is Some,
        policy_laws::same_policy(
            rule_laws::base_of(*old(draft), status.policy),
            (*final(draft))->0,
        ),
{
    policy_laws::lemma_same_policy(
        rule_laws::base_of(*old(draft), status.policy),
        (*final(draft))->0,
    );
}

/// Cancelling closes the form alone; discarding closes everything and gives the
/// draft up.
pub proof fn leaving_the_forms(
    editor: &mut ProfilesEditor,
    other: &mut ProfilesEditor,
    draft: &mut Option<Policy>,
)
    requires
        call_ensures(ProfilesEditor::cancel_new, (editor,), ()),
        call_ensures(ProfilesEditor::discard, (other, draft), ()),
    ensures
        final(editor).new_form is None,
        final(editor).editing_id == old(editor).editing_id,
        final(other).new_form is None,
        final(other).editing_id is None,
        *final(draft) is None,
{
}

// ── Cards ───────────────────────────────────────────────────────────────────

/// Whether the policy names a profile: as its default, as its background
/// profile, or in a match rule.
pub open spec fn is_named(p: Policy, id: Seq<char>) -> bool {
    ||| p.default_profile@ == id
    ||| p.background_profile is Some && p.background_profile->0@ == id
    ||| exists|i: int| 0 <= i < p.rules@.len() && (#[trigger] p.rules@[i]).profile@ == id
}

proof fn lemma_used(p: Policy, id: Seq<char>)
    ensures
        policy::is_used_by_rule(p@.rules, id) <==> exists|i: int|
            0 <= i < p.rules@.len() && (#[trigger] p.rules@[i]).profile@ == id,
        profiles_tab::is_referenced(p@, id) == is_named(p, id),
{
    assert(p@.rules.len() == p.rules@.len());
    assert forall|i: int| 0 <= i < p.rules@.len() implies (#[trigger] p.rules@[i])@
        == p@.rules[i] by {}
    if policy::is_used_by_rule(p@.rules, id) {
        let i = choose|i: int| 0 <= i < p@.rules.len() && (#[trigger] p@.rules[i]).profile == id;
        assert(p.rules@[i]@ == p@.rules[i]);
    }
}

/// A card tells of its own profile. Nothing can be done without elevation or
/// while a rule is edited, nor to the edited profile; an applied profile is not
/// applied again; and what is applied, pinned or named anywhere cannot be
/// deleted.
pub proof fn cards_offer_what_can_be_done(
    status: &StatusSnapshot,
    draft: &Option<Policy>,
    editor: &ProfilesEditor,
    elevated: bool,
    rule_form_open: bool,
    id: &str,
    r: ProfileCard,
)
    requires
        call_ensures(
            profiles_tab::profile_card,
            (status, draft, editor, elevated, rule_form_open, id),
            r,
        ),
    ensures
        r.active == (status.active_profile is Some && status.active_profile->0.id@ == id@),
        r.editing == (editor.editing_id is Some && editor.editing_id->0@ == id@),
        r.manual == (status.manual_override is Some && status.manual_override->0@ == id@),
        !elevated || rule_form_open ==> !r.can_edit && !r.can_apply && !r.can_toggle_manual
            && !r.can_delete,
        r.editing ==> !r.can_apply && !r.can_toggle_manual && !r.can_delete,
        editor.editing_id is Some || editor.new_form is Some ==> !r.can_edit,
        r.active ==> !r.can_apply && !r.can_delete,
        r.manual ==> !r.can_delete,
        is_named(rule_laws::base_of(*draft, status.policy), id@) ==> !r.can_delete,
        elevated && !rule_form_open && !r.editing ==> {
            &&& r.can_toggle_manual
            &&& !r.active ==> r.can_apply
            &&& !r.active && !r.manual && !is_named(
                rule_laws::base_of(*draft, status.policy),
                id@,
            ) ==> r.can_delete
        },
        elevated && !rule_form_open && editor.editing_id is None && editor.new_form is None
            ==> r.can_edit,
{
    lemma_used(rule_laws::base_of(*draft, status.policy), id@);
}

/// The heading is the profile's name, marked while it is edited or applied.
pub proof fn headings_mark_the_state(card: ProfileCard, id: &str, r: String)
    requires
        call_ensures(profiles_tab::card_heading, (card, id), r),
    ensures
        card.editing ==> r@ == formatters::pretty_id(id@) + "  (editing)"@,
        !card.editing && card.active ==> r@ == formatters::pretty_id(id@) + "  (active)"@,
        !card.editing && !card.active ==> r@ == formatters::pretty_id(id@),
{
    if !card.editing && !card.active {
        assert(formatters::pretty_id(id@) + Seq::<char>::empty() =~= formatters::pretty_id(id@));
    }
}

/// The hover text gives the first reason why a profile cannot be deleted.
pub proof fn hover_texts_give_the_reason(
    card: ProfileCard,
    draft: &Option<Policy>,
    current: &Policy,
    id: &str,
    r: &'static str,
)
    requires
        call_ensures(profiles_tab::delete_hover, (card, draft, current, id), r),
    ensures
        ({
            let shown = rule_laws::base_of(*draft, *current);
            let by_default = shown.default_profile@ == id@;
            let by_background = shown.background_profile is Some
                && shown.background_profile->0@ == id@;
            let by_rule = exists|i: int|
                0 <= i < shown.rules@.len() && (#[trigger] shown.rules@[i]).profile@ == id@;
            &&& by_default ==> r@ == "Cannot delete the default profile."@
            &&& !by_default && by_background ==> r@ == "Cannot delete the background profile."@
            &&& !by_default && !by_background && by_rule ==> r@
                == "Cannot delete: still referenced by one or more rules. Remove or edit those rules first."@
            &&& !is_named(shown, id@) && (card.active || card.manual) ==> r@
                == "Cannot delete the currently-applied profile."@
            &&& !is_named(shown, id@) && !card.active && !card.manual ==> r@
                == "Delete this profile from the policy."@
        }),
{
    lemma_used(rule_laws::base_of(*draft, *current), id@);
}

/// The button of a pinned profile unpins, that of any other pins it.
pub proof fn the_pin_button_switches_over(
    card: ProfileCard,
    id: String,
    label: &'static str,
    op: ProfileOp,
)
    requires
        call_ensures(profiles_tab::manual_label, (card,), label),
        call_ensures(profiles_tab::manual_op, (card, id), op),
    ensures
        card.manual ==> label@ == "Exit manual mode"@ && op is ClearManual,
        !card.manual ==> label@ == "Set as manual mode"@ && op is SetManual && op->SetManual_0
            == id,
{
}

/// Only one thing is edited at a time, and only a draft can be saved or
/// discarded.
pub proof fn the_toolbar_follows_the_state(
    elevated: bool,
    editor: &ProfilesEditor,
    rule_form_open: bool,
    draft: &Option<Policy>,
    r: ProfilesButtons,
)
    requires
        call_ensures(
            profiles_tab::profiles_buttons,
            (elevated, editor, rule_form_open, draft),
            r,
        ),
    ensures
        r.add <==> elevated && editor.editing_id is None && editor.new_form is None
            && !rule_form_open,
        r.discard == (draft is Some),
        r.save == (elevated && r.discard),
{
}

// ── Clicks ──────────────────────────────────────────────────────────────────

/// Clicks that apply or pin a profile name it to the service and touch neither
/// the draft nor the forms.
pub proof fn applying_names_the_profile(
    editor: &mut ProfilesEditor,
    op: ProfileOp,
    draft: &mut Option<Policy>,
    status: &StatusSnapshot,
    r: Option<AdminCall>,
)
    requires
        call_ensures(ProfilesEditor::apply, (editor, op, draft, status), r),
    ensures
        op is ApplyNow || op is SetManual || op is ClearManual <==> r is Some,
        op is ApplyNow ==> r->0.request == (Request::ApplyOnce { profile: op->ApplyNow_0 })
            && r->0.label@ == "apply now"@,
        op is SetManual ==> r->0.request == (Request::SetManualOverride {
            profile: op->SetManual_0,
        }) && r->0.label@ == "set manual override"@,
        op is ClearManual ==> r->0.request == Request::ClearManualOverride && r->0.label@
            == "clear manual override"@,
        r is Some ==> {
            &&& final(editor).editing_id == old(editor).editing_id
            &&& final(editor).new_form == old(editor).new_form
            &&& *final(draft) is Some == *old(draft) is Some
            &&& *old(draft) is Some ==> policy_laws::same_policy(
                (*old(draft))->0,
                (*final(draft))->0,
            )
        },
{
    if r is Some && *old(draft) is Some {
        policy_laws::lemma_same_policy((*old(draft))->0, (*final(draft))->0);
    }
}

/// Editing a profile opens it in place of any other form; leaving it keeps the
/// draft.
pub proof fn editing_opens_one_profile(
    editor: &mut ProfilesEditor,
    op: ProfileOp,
    draft: &mut Option<Policy>,
    status: &StatusSnapshot,
    r: Option<AdminCall>,
)
    requires
        call_ensures(ProfilesEditor::apply, (editor, op, draft, status), r),
    ensures
        op is EnterEdit ==> {
            &&& final(editor).editing_id == Some(op->EnterEdit_0)
            &&& final(editor).new_form is None
            &&& *final(draft) is Some
            &&& policy_laws::same_policy(
                rule_laws::base_of(*old(draft), status.policy),
                (*final(draft))->0,
            )
        },
        op is ExitEdit ==> {
            &&& final(editor).editing_id is None
            &&& final(editor).new_form == old(editor).new_form
            &&& *final(draft) is Some == *old(draft) is Some
            &&& *old(draft) is Some ==> policy_laws::same_policy(
                (*old(draft))->0,
                (*final(draft))->0,
            )
        },
{
    if op is EnterEdit {
        policy_laws::lemma_same_policy(
            rule_laws::base_of(*old(draft), status.policy),
            (*final(draft))->0,
        );
    }
    if op is ExitEdit && *old(draft) is Some {
        policy_laws::lemma_same_policy((*old(draft))->0, (*final(draft))->0);
    }
}

/// An update lands in the profile with its id and in no other.
pub proof fn updates_land_in_their_profile(
    editor: &mut ProfilesEditor,
    p: Profile,
    draft: &mut Option<Policy>,
    status: &StatusSnapshot,
    r: Option<AdminCall>,
    i: int,
)
    requires
        call_ensures(
            ProfilesEditor::apply,
            (editor, ProfileOp::UpdateProfile(p), draft, status),
            r,
        ),
        ({
            let before = rule_laws::base_of(*old(draft), status.policy);
            &&& 0 <= i < before.profiles@.len()
            &&& before.profiles@[i].id@ == p.id@
            &&& before@.ids_distinct()
        }),
    ensures
        ({
            let before = rule_laws::base_of(*old(draft), status.policy);
            let after = (*final(draft))->0;
            &&& *final(draft) is Some
            &&& rule_laws::same_but_profiles(before, after)
            &&& after.profiles@.len() == before.profiles@.len()
            &&& policy_laws::same_profile(after.profiles@[i], p)
            &&& forall|j: int|
                0 <= j < before.profiles@.len() && j != i ==> policy_laws::same_profile(
                    #[trigger] after.profiles@[j],
                    before.profiles@[j],
                )
        }),
        final(editor).editing_id == old(editor).editing_id,
        final(editor).new_form == old(editor).new_form,
{
    let before = rule_laws::base_of(*old(draft), status.policy);
    let after = (*final(draft))->0;
    lemma_profile_views(before);
    lemma_profile_views(after);
    policy::profile_position_is_first_match(before@.profiles, p@.id);
    assert(before.profiles@[i]@ == before@.profiles[i]);
    let k = policy::profile_position(before@.profiles, p@.id)->0;
    assert(before@.profiles[k].id == before@.profiles[i].id);
    assert(k == i);
    policy_laws::lemma_same_rules(before, after);
    policy_laws::lemma_same_affinity_rules(before, after);
    assert(after.profiles@[i]@ == after@.profiles[i]);
    policy_laws::lemma_same_profile(after.profiles@[i], p);
    assert forall|j: int| 0 <= j < before.profiles@.len() && j != i implies policy_laws::same_profile(
        #[trigger] after.profiles@[j],
        before.profiles@[j],
    ) by {
        assert(after.profiles@[j]@ == after@.profiles[j]);
        assert(before.profiles@[j]@ == before@.profiles[j]);
        policy_laws::lemma_same_profile(after.profiles@[j], before.profiles@[j]);
    }
}

/// Deleting a profile takes that one out of the draft; the ones behind it move
/// up.
pub proof fn deleting_takes_one_profile(
    editor: &mut ProfilesEditor,
    id: String,
    draft: &mut Option<Policy>,
    status: &StatusSnapshot,
    r: Option<AdminCall>,
    i: int,
)
    requires
        call_ensures(
            ProfilesEditor::apply,
            (editor, ProfileOp::DeleteProfile(id), draft, status),
            r,
        ),
        ({
            let before = rule_laws::base_of(*old(draft), status.policy);
            &&& 0 <= i < before.profiles@.len()
            &&& before.profiles@[i].id@ == id@
            &&& before@.ids_distinct()
        }),
    ensures
        ({
            let before = rule_laws::base_of(*old(draft), status.policy);
            let after = (*final(draft))->0;
            &&& *final(draft) is Some
            &&& rule_laws::same_but_profiles(before, after)
            &&& after.profiles@.len() == before.profiles@.len() - 1
            &&& forall|j: int|
                0 <= j < after.profiles@.len() ==> policy_laws::same_profile(
                    #[trigger] after.profiles@[j],
                    before.profiles@[if j < i {
                        j
                    } else {
                        j + 1
                    }],
                )
        }),
        r is None,
{
    let before = rule_laws::base_of(*old(draft), status.policy);
    let after = (*final(draft))->0;
    lemma_profile_views(before);
    lemma_profile_views(after);
    policy::profile_position_is_first_match(before@.profiles, id@);
    assert(before.profiles@[i]@ == before@.profiles[i]);
    let k = policy::profile_position(before@.profiles, id@)->0;
    assert(before@.profiles[k].id == before@.profiles[i].id);
    assert(k == i);
    policy_laws::lemma_same_rules(before, after);
    policy_laws::lemma_same_affinity_rules(before, after);
    assert forall|j: int| 0 <= j < after.profiles@.len() implies policy_laws::same_profile(
        #[trigger] after.profiles@[j],
        before.profiles@[if j < i {
            j
        } else {
            j + 1
        }],
    ) by {
        let b = if j < i {
            j
        } else {
            j + 1
        };
        assert(after.profiles@[j]@ == after@.profiles[j]);
        assert(before.profiles@[b]@ == before@.profiles[b]);
        policy_laws::lemma_same_profile(after.profiles@[j], before.profiles@[b]);
    }
}

} // verus!
