//! The Rules tab: the form that adds or edits a match rule, the list, and the
//! list of affinity rules.

use vstd::prelude::*;

use crate::ipc::{self, AdminCall, ForegroundSnapshot, Request, StatusSnapshot};
use crate::policy::{
    self, AffinityRule, AffinityRuleView, AppMatch, AppRule, MatchKind, Policy, PolicyView,
    RuleView,
};
use crate::sorting;
use crate::text;

verus! {

/// The form for one match rule.
#[derive(Debug, PartialEq, Eq)]
pub struct RuleForm {
    /// The rule that is edited; `None` while adding one.
    pub editing_index: Option<usize>,
    pub match_kind: MatchKind,
    pub match_value: String,
    pub profile_id: String,
    pub note: String,
}

/// State of the Rules tab.
#[derive(Debug, PartialEq, Eq)]
pub struct RulesEditor {
    pub form: Option<RuleForm>,
}

impl Default for RulesEditor {
    fn default() -> (r: Self)
        ensures
            r.form is None,
    {
        RulesEditor { form: None }
    }
}

/// A form by its texts.
pub struct FormView {
    pub editing_index: Option<usize>,
    pub kind: MatchKind,
    pub value: Seq<char>,
    pub profile: Seq<char>,
    pub note: Seq<char>,
}

impl View for RuleForm {
    type V = FormView;

    open spec fn view(&self) -> FormView {
        FormView {
            editing_index: self.editing_index,
            kind: self.match_kind,
            value: self.match_value@,
            profile: self.profile_id@,
            note: self.note@,
        }
    }
}

/// The open form.
pub open spec fn form_view(editor: RulesEditor) -> Option<FormView> {
    match editor.form {
        Some(f) => Some(f@),
        None => None,
    }
}

// ── Toolbar ─────────────────────────────────────────────────────────────────

/// Which buttons can be clicked.
#[derive(Debug, Clone, Copy, PartialEq, Eq, Structural)]
pub struct RulesButtons {
    pub add: bool,
    pub add_for_foreground: bool,
    pub save: bool,
    pub discard: bool,
    /// Edit and Delete of every rule.
    pub change: bool,
}

/// Decides which buttons can be clicked: changes need elevation and no open
/// form, saving needs elevation and a draft.
pub fn rules_buttons(
    elevated: bool,
    editor: &RulesEditor,
    draft: &Option<Policy>,
    foreground: &Option<ForegroundSnapshot>,
) -> (r: RulesButtons)
    ensures
        r == (RulesButtons {
            add: elevated && editor.form is None,
            add_for_foreground: elevated && editor.form is None && foreground is Some,
            save: elevated && draft is Some,
            discard: draft is Some,
            change: elevated && editor.form is None,
        }),
{
    let free = elevated && editor.form.is_none();
    RulesButtons {
        add: free,
        add_for_foreground: free && foreground.is_some(),
        save: elevated && draft.is_some(),
        discard: draft.is_some(),
        change: free,
    }
}

/// The profile that a new rule starts with: the first id of the shown policy,
/// else the service's default profile.
pub open spec fn first_profile(shown: PolicyView, current: PolicyView) -> Seq<char> {
    if shown.profiles.len() > 0 {
        policy::sorted_ids(shown.profiles)[0]
    } else {
        current.default_profile
    }
}

fn pick_first_profile(draft: &Option<Policy>, current: &Policy) -> (r: String)
    ensures
        r@ == first_profile(policy::draft_or(*draft, *current), current@),
{
    let shown: &Policy = match draft {
        Some(d) => d,
        None => current,
    };
    proof {
        policy::sorted_ids_count(shown@.profiles);
    }
    let ids = shown.profile_ids();
    assert(ids@.len() == text::texts(ids@).len());
    if ids.len() > 0 {
        assert(text::texts(ids@)[0] == ids@[0]@);
        ids[0].clone()
    } else {
        current.default_profile.clone()
    }
}

/// The form behind "Add rule".
pub open spec fn blank_form(draft: Option<Policy>, current: Policy) -> FormView {
    FormView {
        editing_index: None,
        kind: MatchKind::ExeName,
        value: Seq::empty(),
        profile: first_profile(policy::draft_or(draft, current), current@),
        note: Seq::empty(),
    }
}

impl RulesEditor {
    /// Opens an empty form, and a draft if there is none.
    pub fn open_add(&mut self, draft: &mut Option<Policy>, status: &StatusSnapshot)
        ensures
            form_view(*final(self)) == Some(blank_form(*old(draft), status.policy)),
            policy::draft_view(*final(draft)) == Some(
                policy::draft_or(*old(draft), status.policy),
            ),
    {
        let profile_id = pick_first_profile(draft, &status.policy);
        self.form = Some(
            RuleForm {
                editing_index: None,
                match_kind: MatchKind::ExeName,
                match_value: String::new(),
                profile_id,
                note: String::new(),
            },
        );
        policy::start_draft(draft, &status.policy);
    }

    /// Opens a form that is filled in from the focused application: its
    /// executable, and its title as the note. Without one nothing happens.
    pub fn open_add_for_foreground(
        &mut self,
        draft: &mut Option<Policy>,
        status: &StatusSnapshot,
    )
        ensures
            match status.foreground {
                None => *final(self) == *old(self) && *final(draft) == *old(draft),
                Some(fg) => {
                    &&& form_view(*final(self)) == Some(
                        FormView {
                            value: fg.exe_name@,
                            note: fg.title@,
                            ..blank_form(*old(draft), status.policy)
                        },
                    )
                    &&& policy::draft_view(*final(draft)) == Some(
                        policy::draft_or(*old(draft), status.policy),
                    )
                },
            },
    {
        if let Some(fg) = &status.foreground {
            let profile_id = pick_first_profile(draft, &status.policy);
            self.form = Some(
                RuleForm {
                    editing_index: None,
                    match_kind: MatchKind::ExeName,
                    match_value: fg.exe_name.clone(),
                    profile_id,
                    note: fg.title.clone(),
                },
            );
            policy::start_draft(draft, &status.policy);
        }
    }

    /// Throws the draft and the form away.
    pub fn discard(&mut self, draft: &mut Option<Policy>)
        ensures
            final(self).form is None,
            *final(draft) is None,
    {
        *draft = None;
        self.form = None;
    }

    /// Closes the form.
    pub fn cancel(&mut self)
        ensures
            final(self).form is None,
    {
        self.form = None;
    }
}

/// Hands the draft to the service; nothing to send without one.
pub fn save_draft(draft: &mut Option<Policy>) -> (r: Option<AdminCall>)
    ensures
        *final(draft) is None,
        r is Some == (*old(draft) is Some),
        r is Some ==> ipc::asks_to_store(r->0, (*old(draft))->0@, "save policy"@),
{
    match draft.take() {
        Some(d) => Some(
            AdminCall { request: Request::SetPolicy { policy: d }, label: "save policy" },
        ),
        None => None,
    }
}

// ── The form ────────────────────────────────────────────────────────────────

/// The example in an empty value field.
pub fn value_hint(kind: MatchKind) -> (r: &'static str)
    ensures
        r@ == (match kind {
            MatchKind::ExeName => "e.g. bf6.exe"@,
            MatchKind::PathContains => "e.g. Battlefield 6"@,
            MatchKind::WindowTitleContains => "e.g. DEBUG"@,
        }),
{
    match kind {
        MatchKind::ExeName => "e.g. bf6.exe",
        MatchKind::PathContains => "e.g. Battlefield 6",
        MatchKind::WindowTitleContains => "e.g. DEBUG",
    }
}

/// The button that takes the value from the focused application.
pub fn shortcut_label(kind: MatchKind) -> (r: &'static str)
    ensures
        r@ == (match kind {
            MatchKind::ExeName => "Use foreground exe"@,
            MatchKind::PathContains => "Use foreground path"@,
            MatchKind::WindowTitleContains => "Use foreground title"@,
        }),
{
    match kind {
        MatchKind::ExeName => "Use foreground exe",
        MatchKind::PathContains => "Use foreground path",
        MatchKind::WindowTitleContains => "Use foreground title",
    }
}

/// The value that the focused application offers; an empty title is none.
pub open spec fn shortcut(kind: MatchKind, foreground: Option<ForegroundSnapshot>) -> Option<
    String,
> {
    match foreground {
        None => None,
        Some(fg) => match kind {
            MatchKind::ExeName => Some(fg.exe_name),
            MatchKind::PathContains => Some(fg.path),
            MatchKind::WindowTitleContains => if fg.title@.len() == 0 {
                None
            } else {
                Some(fg.title)
            },
        },
    }
}

/// Takes the value from the focused application.
pub fn shortcut_value(kind: MatchKind, foreground: &Option<ForegroundSnapshot>) -> (r: Option<
    String,
>)
    ensures
        r == shortcut(kind, *foreground),
{
    match foreground {
        None => None,
        Some(fg) => match kind {
            MatchKind::ExeName => Some(fg.exe_name.clone()),
            MatchKind::PathContains => Some(fg.path.clone()),
            MatchKind::WindowTitleContains => if fg.title.as_str().unicode_len() == 0 {
                None
            } else {
                Some(fg.title.clone())
            },
        },
    }
}

/// Whether a form can be saved: value and profile are more than blanks.
pub open spec fn is_complete(form: FormView) -> bool {
    text::trim(form.value).len() > 0 && text::trim(form.profile).len() > 0
}

/// The rule that a form describes.
pub open spec fn rule_of(form: FormView) -> RuleView {
    RuleView {
        kind: form.kind,
        value: text::trim(form.value),
        profile: text::trim(form.profile),
        note: text::trim(form.note),
    }
}

/// The form that edits a rule.
pub open spec fn form_for(i: usize, rule: RuleView) -> FormView {
    FormView {
        editing_index: Some(i),
        kind: rule.kind,
        value: rule.value,
        profile: rule.profile,
        note: rule.note,
    }
}

/// The rules after a form was saved: its rule is replaced, or a new one comes
/// last.
pub open spec fn rules_after(rules: Seq<RuleView>, form: FormView) -> Seq<RuleView> {
    match form.editing_index {
        Some(i) => if i < rules.len() {
            rules.update(i as int, rule_of(form))
        } else {
            rules.push(rule_of(form))
        },
        None => rules.push(rule_of(form)),
    }
}

impl RuleForm {
    /// Decides whether the form can be saved.
    pub fn can_save(&self) -> (r: bool)
        ensures
            r == is_complete(self@),
    {
        let value = text::trimmed(self.match_value.as_str());
        let profile = text::trimmed(self.profile_id.as_str());
        value.as_str().unicode_len() > 0 && profile.as_str().unicode_len() > 0
    }

    /// The heading of the form.
    pub fn heading(&self) -> (r: &'static str)
        ensures
            r@ == (if self.editing_index is Some {
                "Edit rule"@
            } else {
                "Add rule"@
            }),
    {
        if self.editing_index.is_some() {
            "Edit rule"
        } else {
            "Add rule"
        }
    }
}

impl RulesEditor {
    /// Saves the open form. The rule goes into the draft and the form closes;
    /// with elevation the draft goes to the service at once. Without a form
    /// that can be saved nothing happens.
    pub fn commit(
        &mut self,
        draft: &mut Option<Policy>,
        status: &StatusSnapshot,
        elevated: bool,
    ) -> (r: Option<AdminCall>)
        ensures
            ({
                let open = form_view(*old(self));
                let base = policy::draft_or(*old(draft), status.policy);
                if open is Some && is_complete(open->0) {
                    let next = PolicyView { rules: rules_after(base.rules, open->0), ..base };
                    &&& final(self).form is None
                    &&& r is Some == elevated
                    &&& elevated ==> ipc::asks_to_store(r->0, next, "save rule"@)
                    &&& policy::draft_view(*final(draft)) == (if elevated {
                        None
                    } else {
                        Some(next)
                    })
                } else {
                    &&& r is None
                    &&& *final(self) == *old(self)
                    &&& *final(draft) == *old(draft)
                }
            }),
    {
        let ready = match &self.form {
            Some(f) => f.can_save(),
            None => false,
        };
        if !ready {
            return None;
        }
        match self.form.take() {
            None => None,
            Some(form) => {
                let ghost fv = form@;
                let rule = AppRule {
                    matcher: AppMatch::new(
                        form.match_kind,
                        text::trimmed(form.match_value.as_str()),
                    ),
                    profile: text::trimmed(form.profile_id.as_str()),
                    note: text::trimmed(form.note.as_str()),
                };
                assert(rule@ == rule_of(fv));
                let mut edited = policy::take_draft(draft, &status.policy);
                let ghost base = edited@;
                match form.editing_index {
                    Some(i) => if i < edited.rules.len() {
                        edited.rules.set(i, rule);
                        assert(edited@.rules =~= base.rules.update(i as int, rule@));
                    } else {
                        policy::add_rule(&mut edited, rule);
                    },
                    None => {
                        policy::add_rule(&mut edited, rule);
                    },
                }
                assert(edited@ == (PolicyView { rules: rules_after(base.rules, fv), ..base }));
                if elevated {
                    Some(
                        AdminCall {
                            request: Request::SetPolicy { policy: edited },
                            label: "save rule",
                        },
                    )
                } else {
                    *draft = Some(edited);
                    None
                }
            },
        }
    }

    /// Opens the form on a rule of the draft. There is a draft afterwards; a
    /// rule that does not exist opens nothing.
    pub fn edit(&mut self, draft: &mut Option<Policy>, status: &StatusSnapshot, i: usize)
        ensures
            ({
                let base = policy::draft_or(*old(draft), status.policy);
                &&& policy::draft_view(*final(draft)) == Some(base)
                &&& if i < base.rules.len() {
                    form_view(*final(self)) == Some(form_for(i, base.rules[i as int]))
                } else {
                    *final(self) == *old(self)
                }
            }),
    {
        let edited = policy::take_draft(draft, &status.policy);
        if i < edited.rules.len() {
            let rule = &edited.rules[i];
            assert(edited@.rules[i as int] == rule@);
            self.form = Some(
                RuleForm {
                    editing_index: Some(i),
                    match_kind: rule.matcher.kind(),
                    match_value: rule.matcher.value().clone(),
                    profile_id: rule.profile.clone(),
                    note: rule.note.clone(),
                },
            );
        }
        *draft = Some(edited);
    }
}

/// Takes a rule out of the draft. There is a draft afterwards; a rule that
/// does not exist takes nothing out.
pub fn delete_rule(draft: &mut Option<Policy>, status: &StatusSnapshot, i: usize)
    ensures
        ({
            let base = policy::draft_or(*old(draft), status.policy);
            policy::draft_view(*final(draft)) == Some(
                if i < base.rules.len() {
                    PolicyView { rules: base.rules.remove(i as int), ..base }
                } else {
                    base
                },
            )
        }),
{
    let mut edited = policy::take_draft(draft, &status.policy);
    let ghost base = edited@;
    if i < edited.rules.len() {
        edited.rules.remove(i);
        assert(edited@.rules =~= base.rules.remove(i as int));
    }
    *draft = Some(edited);
}

/// Opening a rule for editing and saving the untouched form keeps every rule
/// as it was, as long as the rule's texts have no blanks around them.
pub proof fn saving_an_untouched_form_changes_nothing(rules: Seq<RuleView>, i: usize)
    requires
        i < rules.len(),
        text::trim(rules[i as int].value) == rules[i as int].value,
        text::trim(rules[i as int].profile) == rules[i as int].profile,
        text::trim(rules[i as int].note) == rules[i as int].note,
    ensures
        rules_after(rules, form_for(i, rules[i as int])) == rules,
{
    assert(rules_after(rules, form_for(i, rules[i as int])) =~= rules);
}

/// A rule that came from a form can be opened and saved again without any
/// change.
pub proof fn saved_rules_survive_another_save(rules: Seq<RuleView>, i: usize, form: FormView)
    requires
        i < rules.len(),
        rules[i as int] == rule_of(form),
    ensures
        rules_after(rules, form_for(i, rules[i as int])) == rules,
        is_complete(form) ==> is_complete(form_for(i, rules[i as int])),
{
    text::trimming_twice_is_trimming_once(form.value);
    text::trimming_twice_is_trimming_once(form.profile);
    text::trimming_twice_is_trimming_once(form.note);
    saving_an_untouched_form_changes_nothing(rules, i);
}

/// A form for a new rule adds exactly one rule, behind all others, so no rule
/// that matched before is matched later.
pub proof fn adding_keeps_the_other_rules(rules: Seq<RuleView>, form: FormView)
    requires
        form.editing_index is None,
    ensures
        rules_after(rules, form).len() == rules.len() + 1,
        rules_after(rules, form).take(rules.len() as int) == rules,
        rules_after(rules, form).last() == rule_of(form),
{
    assert(rules_after(rules, form).take(rules.len() as int) =~= rules);
}

// ── The list ────────────────────────────────────────────────────────────────

/// The tag of a match, filled up to six characters.
pub open spec fn match_tag(kind: MatchKind) -> Seq<char> {
    match kind {
        MatchKind::ExeName => "exe   "@,
        MatchKind::PathContains => "path~ "@,
        MatchKind::WindowTitleContains => "title~"@,
    }
}

/// The line of a rule.
pub open spec fn rule_text(rule: RuleView) -> Seq<char> {
    match_tag(rule.kind) + "  "@ + rule.value + "  ->  "@ + rule.profile + (if rule.note.len()
        == 0 {
        Seq::empty()
    } else {
        "  ("@ + rule.note + ")"@
    })
}

/// Writes the line of a rule.
pub fn rule_line(rule: &AppRule) -> (r: String)
    ensures
        r@ == rule_text(rule@),
{
    let mut out = match rule.matcher.kind() {
        MatchKind::ExeName => "exe   ".to_owned(),
        MatchKind::PathContains => "path~ ".to_owned(),
        MatchKind::WindowTitleContains => "title~".to_owned(),
    };
    out.append("  ");
    out.append(rule.matcher.value().as_str());
    out.append("  ->  ");
    out.append(rule.profile.as_str());
    if rule.note.as_str().unicode_len() > 0 {
        let mut note = "  (".to_owned();
        note.append(rule.note.as_str());
        note.append(")");
        out.append(note.as_str());
    } else {
        assert(out@ =~= rule_text(rule@));
    }
    out
}

// ── Affinity rules ──────────────────────────────────────────────────────────

/// The order of the affinity rules: by executable, in any case.
pub open spec fn exe_order(rules: Seq<AffinityRuleView>) -> spec_fn(usize, usize) -> bool {
    |x: usize, y: usize|
        text::text_leq(
            text::lower(rules[x as int].exe_name),
            text::lower(rules[y as int].exe_name),
        )
}

/// The affinity rules in the order of the list.
pub open spec fn listed_affinity_rules(rules: Seq<AffinityRuleView>) -> Seq<AffinityRuleView> {
    sorting::sorted_positions(rules.len(), exe_order(rules)).map_values(|i: usize| rules[i as int])
}

/// Lists the affinity rules by executable.
pub fn sort_affinity_rules(rules: &Vec<AffinityRule>) -> (r: Vec<AffinityRule>)
    ensures
        policy::affinity_rule_views(r@) == listed_affinity_rules(
            policy::affinity_rule_views(rules@),
        ),
{
    let ghost views = policy::affinity_rule_views(rules@);
    let ghost leq = exe_order(views);
    proof {
        assert forall|x: usize, y: usize| #[trigger] leq(x, y) || leq(y, x) by {
            let a = text::lower(views[x as int].exe_name);
            let b = text::lower(views[y as int].exe_name);
            text::text_order_is_total(a, b, a);
        }
        assert forall|x: usize, y: usize, z: usize| #[trigger] leq(x, y) && #[trigger] leq(
            y,
            z,
        ) implies leq(x, z) by {
            let a = text::lower(views[x as int].exe_name);
            let b = text::lower(views[y as int].exe_name);
            let c = text::lower(views[z as int].exe_name);
            text::text_order_is_total(a, b, c);
        }
    }
    let not_after = |x: usize, y: usize| -> (b: bool)
        requires
            x < rules@.len(),
            y < rules@.len(),
        ensures
            b == text::text_leq(
                text::lower(rules@[x as int].exe_name@),
                text::lower(rules@[y as int].exe_name@),
            ),
        {
            let a = text::to_lower(rules[x].exe_name.as_str());
            let b = text::to_lower(rules[y].exe_name.as_str());
            text::text_not_after(a.as_str(), b.as_str())
        };
    let order = sorting::sort_positions(rules.len(), not_after, Ghost(leq));
    let mut out: Vec<AffinityRule> = Vec::new();
    let ghost pick = |i: usize| views[i as int];
    assert(policy::affinity_rule_views(out@) =~= order@.take(0).map_values(pick));
    for k in 0..order.len()
        invariant
            forall|j: int| 0 <= j < order@.len() ==> (#[trigger] order@[j]) < rules@.len(),
            views == policy::affinity_rule_views(rules@),
            pick == |i: usize| views[i as int],
            policy::affinity_rule_views(out@) == order@.take(k as int).map_values(pick),
    {
        assert(order@[k as int] < rules@.len());
        let ghost done = policy::affinity_rule_views(out@);
        let rule = &rules[order[k]];
        let copy = AffinityRule {
            exe_name: rule.exe_name.clone(),
            selector: rule.selector,
            note: rule.note.clone(),
        };
        out.push(copy);
        assert(policy::affinity_rule_views(out@) =~= done.push(pick(order@[k as int])));
        assert(order@.take(k + 1).map_values(pick) =~= order@.take(k as int).map_values(
            pick,
        ).push(pick(order@[k as int])));
    }
    assert(order@.take(order@.len() as int) =~= order@);
    out
}

/// Asks the service to drop an affinity rule.
pub fn remove_affinity_rule(exe_name: String) -> (r: AdminCall)
    ensures
        ipc::asks(r, Request::DeleteAffinityRule { exe_name }, "delete affinity rule"@),
{
    AdminCall {
        request: Request::DeleteAffinityRule { exe_name },
        label: "delete affinity rule",
    }
}

} // verus!
