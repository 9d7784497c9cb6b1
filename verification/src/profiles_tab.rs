//! The Profiles tab: adding, editing, applying and deleting profiles.

use vstd::prelude::*;

use crate::formatters;
use crate::ipc::{self, AdminCall, Request, StatusSnapshot};
use crate::policy::{self, Policy, PolicyView, Profile, ProfileView, RuleView};
use crate::text;

verus! {

/// State of the Profiles tab. At most one profile is edited at a time, and
/// none while the form for a new one is open.
#[derive(Debug, PartialEq, Eq)]
pub struct ProfilesEditor {
    pub editing_id: Option<String>,
    /// The id in the form for a new profile, while it is open.
    pub new_form: Option<String>,
}

impl Default for ProfilesEditor {
    fn default() -> (r: Self)
        ensures
            r.editing_id is None,
            r.new_form is None,
            edits_one_thing(r),
    {
        ProfilesEditor { editing_id: None, new_form: None }
    }
}

/// A profile is not edited while the form for a new one is open.
pub open spec fn edits_one_thing(editor: ProfilesEditor) -> bool {
    editor.editing_id is None || editor.new_form is None
}

// ── Toolbar ─────────────────────────────────────────────────────────────────

/// Which buttons of the toolbar can be clicked.
#[derive(Debug, Clone, Copy, PartialEq, Eq, Structural)]
pub struct ProfilesButtons {
    pub add: bool,
    pub save: bool,
    pub discard: bool,
}

/// Decides which buttons of the toolbar can be clicked. A profile can be added
/// while no other form is open.
pub fn profiles_buttons(
    elevated: bool,
    editor: &ProfilesEditor,
    rule_form_open: bool,
    draft: &Option<Policy>,
) -> (r: ProfilesButtons)
    ensures
        r == (ProfilesButtons {
            add: elevated && editor.editing_id is None && editor.new_form is None
                && !rule_form_open,
            save: elevated && draft is Some,
            discard: draft is Some,
        }),
{
    ProfilesButtons {
        add: elevated && editor.editing_id.is_none() && editor.new_form.is_none()
            && !rule_form_open,
        save: elevated && draft.is_some(),
        discard: draft.is_some(),
    }
}

/// Whether a new profile can have this id: it is more than blanks, and no
/// profile has it in any case.
pub open spec fn is_free_id(shown: PolicyView, typed: Seq<char>) -> bool {
    text::trim(typed).len() > 0 && !policy::id_is_taken(shown.profiles, text::trim(typed))
}

/// What the form for a new profile says about the typed id.
#[derive(Debug, Clone, Copy, PartialEq, Eq, Structural)]
pub struct IdCheck {
    pub taken: bool,
    pub can_save: bool,
}

/// Checks the id of a new profile against the shown policy.
pub fn check_new_id(draft: &Option<Policy>, current: &Policy, typed: &str) -> (r: IdCheck)
    ensures
        ({
            let shown = policy::draft_or(*draft, *current);
            &&& r.taken == policy::id_is_taken(shown.profiles, text::trim(typed@))
            &&& r.can_save == is_free_id(shown, typed@)
        }),
{
    let shown: &Policy = match draft {
        Some(d) => d,
        None => current,
    };
    let id = text::trimmed(typed);
    let taken = shown.is_id_taken(id.as_str());
    IdCheck { taken, can_save: id.as_str().unicode_len() > 0 && !taken }
}

impl ProfilesEditor {
    /// Opens the form for a new profile in place of the edited one, and a
    /// draft if there is none.
    pub fn open_new(&mut self, draft: &mut Option<Policy>, status: &StatusSnapshot)
        ensures
            final(self).editing_id is None,
            edits_one_thing(*final(self)),
            policy::text_view(final(self).new_form) == Some(Seq::<char>::empty()),
            policy::draft_view(*final(draft)) == Some(
                policy::draft_or(*old(draft), status.policy),
            ),
    {
        self.editing_id = None;
        self.new_form = Some(String::new());
        policy::start_draft(draft, &status.policy);
    }

    /// Closes the form for a new profile.
    pub fn cancel_new(&mut self)
        ensures
            final(self).editing_id == old(self).editing_id,
            final(self).new_form is None,
            edits_one_thing(*final(self)),
    {
        self.new_form = None;
    }

    /// Throws the draft away and leaves every form.
    pub fn discard(&mut self, draft: &mut Option<Policy>)
        ensures
            final(self).editing_id is None,
            final(self).new_form is None,
            edits_one_thing(*final(self)),
            *final(draft) is None,
    {
        *draft = None;
        self.editing_id = None;
        self.new_form = None;
    }

    /// Adds a blank profile with the typed id to the draft and opens it for
    /// editing; with elevation the draft is sent to the service and kept.
    /// Without a form, or with an id that is not free, nothing happens.
    pub fn commit_new(
        &mut self,
        draft: &mut Option<Policy>,
        status: &StatusSnapshot,
        elevated: bool,
    ) -> (r: Option<AdminCall>)
        ensures
            edits_one_thing(*old(self)) ==> edits_one_thing(*final(self)),
            ({
                let typed = policy::text_view(old(self).new_form);
                let base = policy::draft_or(*old(draft), status.policy);
                if typed is Some && is_free_id(base, typed->0) {
                    let id = text::trim(typed->0);
                    let next = PolicyView {
                        profiles: policy::profiles_with(
                            base.profiles,
                            policy::blank_profile(id),
                        ),
                        ..base
                    };
                    &&& final(self).new_form is None
                    &&& policy::text_view(final(self).editing_id) == Some(id)
                    &&& policy::draft_view(*final(draft)) == Some(next)
                    &&& r is Some == elevated
                    &&& elevated ==> ipc::asks_to_store(r->0, next, "save profile"@)
                } else {
                    &&& r is None
                    &&& *final(self) == *old(self)
                    &&& *final(draft) == *old(draft)
                }
            }),
    {
        let id = match &self.new_form {
            Some(typed) => {
                let check = check_new_id(draft, &status.policy, typed.as_str());
                if !check.can_save {
                    return None;
                }
                text::trimmed(typed.as_str())
            },
            None => { return None; },
        };
        let mut edited = policy::take_draft(draft, &status.policy);
        edited.put_profile(Profile::new(id.as_str()));
        self.new_form = None;
        self.editing_id = Some(id);
        let call = if elevated {
            Some(
                AdminCall {
                    request: Request::SetPolicy { policy: edited.clone() },
                    label: "save profile",
                },
            )
        } else {
            None
        };
        *draft = Some(edited);
        call
    }
}

/// A new profile gets an id of its own: the ids of the policy stay distinct,
/// and the profile is found under its id.
pub proof fn new_profiles_keep_ids_distinct(shown: PolicyView, typed: Seq<char>)
    requires
        shown.ids_distinct(),
        is_free_id(shown, typed),
    ensures
        ({
            let p = policy::blank_profile(text::trim(typed));
            let next = PolicyView { profiles: policy::profiles_with(shown.profiles, p), ..shown };
            &&& next.ids_distinct()
            &&& next.profiles == shown.profiles.push(p)
        }),
{
    let p = policy::blank_profile(text::trim(typed));
    policy::profiles_with_keeps_ids_distinct(shown, p);
    policy::profile_position_is_first_match(shown.profiles, p.id);
    if let Some(i) = policy::profile_position(shown.profiles, p.id) {
        assert(text::lower(shown.profiles[i].id) == text::lower(p.id));
    }
}

// ── Profile cards ───────────────────────────────────────────────────────────

/// What a profile's card shows and lets the user do.
#[derive(Debug, Clone, Copy, PartialEq, Eq, Structural)]
pub struct ProfileCard {
    pub active: bool,
    pub editing: bool,
    /// The profile is pinned to every foreground.
    pub manual: bool,
    pub can_edit: bool,
    pub can_apply: bool,
    pub can_toggle_manual: bool,
    pub can_delete: bool,
}

/// Whether the shown policy depends on a profile.
pub open spec fn is_referenced(shown: PolicyView, id: Seq<char>) -> bool {
    ||| shown.default_profile == id
    ||| shown.background_profile == Some(id)
    ||| policy::is_used_by_rule(shown.rules, id)
}

/// Whether a profile is the applied one.
pub open spec fn is_active(status: StatusSnapshot, id: Seq<char>) -> bool {
    match status.active_profile {
        Some(p) => p.id@ == id,
        None => false,
    }
}

/// The card of a profile.
pub open spec fn card_of(
    status: StatusSnapshot,
    shown: PolicyView,
    editor: ProfilesEditor,
    elevated: bool,
    rule_form_open: bool,
    id: Seq<char>,
) -> ProfileCard {
    let active = is_active(status, id);
    let editing = policy::text_view(editor.editing_id) == Some(id);
    let manual = policy::text_view(status.manual_override) == Some(id);
    let free = elevated && !rule_form_open;
    ProfileCard {
        active,
        editing,
        manual,
        can_edit: free && editor.editing_id is None && editor.new_form is None,
        can_apply: free && !editing && !active,
        can_toggle_manual: free && !editing,
        can_delete: free && !editing && !active && !manual && !is_referenced(shown, id),
    }
}

fn is_text(t: &Option<String>, s: &str) -> (r: bool)
    ensures
        r == (policy::text_view(*t) == Some(s@)),
{
    match t {
        Some(x) => text::same_text(x.as_str(), s),
        None => false,
    }
}

fn shown_policy<'a>(draft: &'a Option<Policy>, current: &'a Policy) -> (r: &'a Policy)
    ensures
        r@ == policy::draft_or(*draft, *current),
{
    match draft {
        Some(d) => d,
        None => current,
    }
}

/// Works out the card of a profile.
pub fn profile_card(
    status: &StatusSnapshot,
    draft: &Option<Policy>,
    editor: &ProfilesEditor,
    elevated: bool,
    rule_form_open: bool,
    id: &str,
) -> (r: ProfileCard)
    ensures
        r == card_of(
            *status,
            policy::draft_or(*draft, status.policy),
            *editor,
            elevated,
            rule_form_open,
            id@,
        ),
{
    let shown = shown_policy(draft, &status.policy);
    let active = match &status.active_profile {
        Some(p) => text::same_text(p.id.as_str(), id),
        None => false,
    };
    let editing = is_text(&editor.editing_id, id);
    let manual = is_text(&status.manual_override, id);
    let free = elevated && !rule_form_open;
    let referenced = text::same_text(shown.default_profile.as_str(), id) || is_text(
        &shown.background_profile,
        id,
    ) || shown.is_profile_used(id);
    ProfileCard {
        active,
        editing,
        manual,
        can_edit: free && editor.editing_id.is_none() && editor.new_form.is_none(),
        can_apply: free && !editing && !active,
        can_toggle_manual: free && !editing,
        can_delete: free && !editing && !active && !manual && !referenced,
    }
}

/// The heading of a card.
pub open spec fn heading_text(card: ProfileCard, id: Seq<char>) -> Seq<char> {
    formatters::pretty_id(id) + (if card.editing {
        "  (editing)"@
    } else if card.active {
        "  (active)"@
    } else {
        Seq::empty()
    })
}

/// Writes the heading of a card.
pub fn card_heading(card: ProfileCard, id: &str) -> (r: String)
    ensures
        r@ == heading_text(card, id@),
{
    let mut out = formatters::display_profile_id(id);
    if card.editing {
        out.append("  (editing)");
    } else if card.active {
        out.append("  (active)");
    } else {
        assert(out@ =~= heading_text(card, id@));
    }
    out
}

/// Why a profile cannot be deleted, or what deleting does.
pub open spec fn delete_text(card: ProfileCard, shown: PolicyView, id: Seq<char>) -> Seq<char> {
    if shown.default_profile == id {
        "Cannot delete the default profile."@
    } else if shown.background_profile == Some(id) {
        "Cannot delete the background profile."@
    } else if policy::is_used_by_rule(shown.rules, id) {
        "Cannot delete: still referenced by one or more rules. Remove or edit those rules first."@
    } else if card.active || card.manual {
        "Cannot delete the currently-applied profile."@
    } else {
        "Delete this profile from the policy."@
    }
}

/// The hover text of the delete button.
pub fn delete_hover(
    card: ProfileCard,
    draft: &Option<Policy>,
    current: &Policy,
    id: &str,
) -> (r: &'static str)
    ensures
        r@ == delete_text(card, policy::draft_or(*draft, *current), id@),
{
    let shown = shown_policy(draft, current);
    if text::same_text(shown.default_profile.as_str(), id) {
        "Cannot delete the default profile."
    } else if is_text(&shown.background_profile, id) {
        "Cannot delete the background profile."
    } else if shown.is_profile_used(id) {
        "Cannot delete: still referenced by one or more rules. Remove or edit those rules first."
    } else if card.active || card.manual {
        "Cannot delete the currently-applied profile."
    } else {
        "Delete this profile from the policy."
    }
}

/// The text of the button that pins a profile.
pub fn manual_label(card: ProfileCard) -> (r: &'static str)
    ensures
        r@ == (if card.manual {
            "Exit manual mode"@
        } else {
            "Set as manual mode"@
        }),
{
    if card.manual {
        "Exit manual mode"
    } else {
        "Set as manual mode"
    }
}

// ── Operations ──────────────────────────────────────────────────────────────

/// A click on a card.
#[derive(Debug, PartialEq, Eq)]
pub enum ProfileOp {
    EnterEdit(String),
    ExitEdit,
    /// The edited profile takes the place of the one with its id.
    UpdateProfile(Profile),
    ApplyNow(String),
    SetManual(String),
    ClearManual,
    DeleteProfile(String),
}

/// The click on the button that pins a profile.
pub fn manual_op(card: ProfileCard, id: String) -> (r: ProfileOp)
    ensures
        r == (if card.manual {
            ProfileOp::ClearManual
        } else {
            ProfileOp::SetManual(id)
        }),
{
    if card.manual {
        ProfileOp::ClearManual
    } else {
        ProfileOp::SetManual(id)
    }
}

/// Asks the service to stop pinning a profile.
pub fn clear_manual() -> (r: AdminCall)
    ensures
        ipc::asks(r, Request::ClearManualOverride, "clear manual override"@),
{
    AdminCall { request: Request::ClearManualOverride, label: "clear manual override" }
}

/// The draft after a click on a card.
pub open spec fn draft_after(
    op: ProfileOp,
    draft: Option<Policy>,
    current: Policy,
) -> Option<PolicyView> {
    let base = policy::draft_or(draft, current);
    match op {
        ProfileOp::EnterEdit(_) => Some(base),
        ProfileOp::UpdateProfile(p) => Some(
            PolicyView { profiles: policy::profiles_with(base.profiles, p@), ..base },
        ),
        ProfileOp::DeleteProfile(id) => Some(
            PolicyView { profiles: policy::profiles_without(base.profiles, id@), ..base },
        ),
        _ => policy::draft_view(draft),
    }
}

/// Whether a call is what a click on a card asks of the service.
pub open spec fn asked_by(op: ProfileOp, call: Option<AdminCall>) -> bool {
    match op {
        ProfileOp::ApplyNow(profile) => {
            &&& call is Some
            &&& ipc::asks(call->0, Request::ApplyOnce { profile }, "apply now"@)
        },
        ProfileOp::SetManual(profile) => {
            &&& call is Some
            &&& ipc::asks(
                call->0,
                Request::SetManualOverride { profile },
                "set manual override"@,
            )
        },
        ProfileOp::ClearManual => {
            &&& call is Some
            &&& ipc::asks(call->0, Request::ClearManualOverride, "clear manual override"@)
        },
        _ => call is None,
    }
}

impl ProfilesEditor {
    /// Carries a click on a card out. Edits and deletions stay in the draft
    /// until it is saved.
    pub fn apply(
        &mut self,
        op: ProfileOp,
        draft: &mut Option<Policy>,
        status: &StatusSnapshot,
    ) -> (r: Option<AdminCall>)
        ensures
            policy::draft_view(*final(draft)) == draft_after(op, *old(draft), status.policy),
            asked_by(op, r),
            edits_one_thing(*old(self)) ==> edits_one_thing(*final(self)),
            final(self).new_form == (match op {
                ProfileOp::EnterEdit(_) => None,
                _ => old(self).new_form,
            }),
            final(self).editing_id == (match op {
                ProfileOp::EnterEdit(id) => Some(id),
                ProfileOp::ExitEdit => None,
                _ => old(self).editing_id,
            }),
    {
        match op {
            ProfileOp::EnterEdit(id) => {
                self.editing_id = Some(id);
                self.new_form = None;
                policy::start_draft(draft, &status.policy);
                None
            },
            ProfileOp::ExitEdit => {
                self.editing_id = None;
                None
            },
            ProfileOp::UpdateProfile(p) => {
                let mut edited = policy::take_draft(draft, &status.policy);
                edited.put_profile(p);
                *draft = Some(edited);
                None
            },
            ProfileOp::ApplyNow(profile) => Some(
                AdminCall { request: Request::ApplyOnce { profile }, label: "apply now" },
            ),
            ProfileOp::SetManual(profile) => Some(
                AdminCall {
                    request: Request::SetManualOverride { profile },
                    label: "set manual override",
                },
            ),
            ProfileOp::ClearManual => Some(clear_manual()),
            ProfileOp::DeleteProfile(id) => {
                let mut edited = policy::take_draft(draft, &status.policy);
                edited.remove_profile(id.as_str());
                *draft = Some(edited);
                None
            },
        }
    }
}

/// Whether the profile that a rule applies exists.
pub open spec fn rule_resolves(profiles: Seq<ProfileView>, rule: RuleView) -> bool {
    policy::profile_position(profiles, rule.profile) is Some
}

/// Whether every profile that the policy names exists.
pub open spec fn is_resolved(p: PolicyView) -> bool {
    &&& policy::profile_position(p.profiles, p.default_profile) is Some
    &&& p.background_profile is Some ==> policy::profile_position(
        p.profiles,
        p.background_profile->0,
    ) is Some
    &&& forall|i: int|
        0 <= i < p.rules.len() ==> rule_resolves(p.profiles, #[trigger] p.rules[i])
}

proof fn lemma_others_stay(profiles: Seq<ProfileView>, id: Seq<char>, other: Seq<char>)
    requires
        id != other,
        policy::profile_position(profiles, other) is Some,
    ensures
        policy::profile_position(policy::profiles_without(profiles, id), other) is Some,
{
    let rest = policy::profiles_without(profiles, id);
    policy::profile_position_is_first_match(profiles, id);
    policy::profile_position_is_first_match(profiles, other);
    policy::profile_position_is_first_match(rest, other);
    if let Some(i) = policy::profile_position(profiles, id) {
        let j = policy::profile_position(profiles, other)->0;
        let k = if j < i {
            j
        } else {
            j - 1
        };
        assert(rest[k] == profiles[j]);
    }
}

/// A profile whose card offers deletion can go: every profile that the policy
/// names still exists afterwards.
pub proof fn deletions_on_offer_leave_no_dangling_id(
    status: StatusSnapshot,
    shown: PolicyView,
    editor: ProfilesEditor,
    elevated: bool,
    rule_form_open: bool,
    id: Seq<char>,
)
    requires
        is_resolved(shown),
        card_of(status, shown, editor, elevated, rule_form_open, id).can_delete,
    ensures
        is_resolved(
            PolicyView { profiles: policy::profiles_without(shown.profiles, id), ..shown },
        ),
{
    let rest = policy::profiles_without(shown.profiles, id);
    lemma_others_stay(shown.profiles, id, shown.default_profile);
    if shown.background_profile is Some {
        lemma_others_stay(shown.profiles, id, shown.background_profile->0);
    }
    assert forall|i: int| 0 <= i < shown.rules.len() implies rule_resolves(
        rest,
        #[trigger] shown.rules[i],
    ) by {
        assert(rule_resolves(shown.profiles, shown.rules[i]));
        lemma_others_stay(shown.profiles, id, shown.rules[i].profile);
    }
}

} // verus!
