//! Laws of the Rules tab: what a form becomes, and which rules it leaves alone.

use vstd::prelude::*;

use crate::ipc::{AdminCall, ForegroundSnapshot, Request, StatusSnapshot};
use crate::policy::{self, AffinityRule, AppRule, MatchKind, Policy};
use crate::policy_laws;
use crate::rules_tab::{self, RuleForm, RulesButtons, RulesEditor};
use crate::sorting;
use crate::text;
use crate::text_laws;

verus! {

/// The policy that edits start from: the draft while there is one.
pub open spec fn base_of(draft: Option<Policy>, current: Policy) -> Policy {
    match draft {
        Some(d) => d,
        None => current,
    }
}

/// Whether two policies agree in everything but their match rules.
pub open spec fn same_but_rules(a: Policy, b: Policy) -> bool {
    &&& policy_laws::same_profiles(a, b)
    &&& policy_laws::same_affinity_rules(a, b)
    &&& policy_laws::same_settings(a, b)
}

/// Whether two policies agree in everything but their profiles.
pub open spec fn same_but_profiles(a: Policy, b: Policy) -> bool {
    &&& policy_laws::same_rules(a, b)
    &&& policy_laws::same_affinity_rules(a, b)
    &&& policy_laws::same_settings(a, b)
}

proof fn lemma_rule_views(p: Policy)
    ensures
        p@.rules.len() == p.rules@.len(),
        forall|j: int| 0 <= j < p.rules@.len() ==> (#[trigger] p.rules@[j])@ == p@.rules[j],
{
}

// ── Opening the form ────────────────────────────────────────────────────────

/// Whether a new rule starts with this profile: the first id of the dictionary,
/// or the service's default profile where no profile exists.
pub open spec fn is_first_choice(shown: Policy, current: Policy, id: Seq<char>) -> bool {
    if shown.profiles@.len() == 0 {
        id == current.default_profile@
    } else {
        &&& policy_laws::has_id(shown, id)
        &&& forall|i: int|
            0 <= i < shown.profiles@.len() ==> text::text_leq(
                id,
                (#[trigger] shown.profiles@[i]).id@,
            )
    }
}

proof fn lemma_first_profile(shown: Policy, current: Policy)
    ensures
        is_first_choice(shown, current, rules_tab::first_profile(shown@, current@)),
{
    let views = shown@.profiles;
    let n = views.len();
    assert(n == shown.profiles@.len());
    if n > 0 {
        let leq = policy::id_order(views);
        policy::sorted_ids_count(views);
        policy::lemma_id_order(views);
        assert(shown.profiles.len() == shown.profiles@.len());
        sorting::sorting_is_a_stable_permutation(n, leq);
        let order = sorting::sorted_positions(n, leq);
        let id = views[order[0] as int].id;
        assert(policy::sorted_ids(views)[0] == id);
        assert(shown.profiles@[order[0] as int].id@ == id);
        assert forall|i: int| 0 <= i < n implies text::text_leq(
            id,
            (#[trigger] shown.profiles@[i]).id@,
        ) by {
            sorting::sorting_leaves_nothing_out(n, leq, i as usize);
            let k = order.index_of(i as usize);
            if k > 0 {
                assert(leq(order[0], order[k]));
            } else {
                text::text_order_is_total(id, id, id);
            }
            assert(shown.profiles@[i]@ == views[i]);
        }
    }
}

/// "Add rule" opens an empty form for a rule on an executable, with the first
/// profile there is, and edits a draft that says what was shown.
pub proof fn adding_opens_an_empty_form(
    editor: &mut RulesEditor,
    draft: &mut Option<Policy>,
    status: &StatusSnapshot,
)
    requires
        call_ensures(RulesEditor::open_add, (editor, draft, status), ()),
    ensures
        final(editor).form is Some,
        ({
            let form = final(editor).form->0;
            let shown = base_of(*old(draft), status.policy);
            &&& form.editing_index is None
            &&& form.match_kind is ExeName
            &&& form.match_value@.len() == 0
            &&& form.note@.len() == 0
            &&& is_first_choice(shown, status.policy, form.profile_id@)
        }),
        *final(draft) is Some,
        policy_laws::same_policy(base_of(*old(draft), status.policy), (*final(draft))->0),
{
    let shown = base_of(*old(draft), status.policy);
    lemma_first_profile(shown, status.policy);
    policy_laws::lemma_same_policy(shown, (*final(draft))->0);
}

/// "Add rule for the foreground" fills the form in from the focused window: the
/// executable is what is matched, the title is the note. Without a focused
/// window nothing opens.
pub proof fn adding_for_the_foreground_fills_the_form_in(
    editor: &mut RulesEditor,
    draft: &mut Option<Policy>,
    status: &StatusSnapshot,
)
    requires
        call_ensures(RulesEditor::open_add_for_foreground, (editor, draft, status), ()),
    ensures
        status.foreground is None ==> *final(editor) == *old(editor) && *final(draft)
            == *old(draft),
        status.foreground is Some ==> {
            &&& final(editor).form is Some
            &&& final(editor).form->0.editing_index is None
            &&& final(editor).form->0.match_kind is ExeName
            &&& final(editor).form->0.match_value@ == status.foreground->0.exe_name@
            &&& final(editor).form->0.note@ == status.foreground->0.title@
            &&& is_first_choice(
                base_of(*old(draft), status.policy),
                status.policy,
                final(editor).form->0.profile_id@,
            )
            &&& *final(draft) is Some
            &&& policy_laws::same_policy(
                base_of(*old(draft), status.policy),
                (*final(draft))->0,
            )
        },
{
    let shown = base_of(*old(draft), status.policy);
    if status.foreground is Some {
        lemma_first_profile(shown, status.policy);
        policy_laws::lemma_same_policy(shown, (*final(draft))->0);
    }
}

/// "Edit" opens the form with what the rule says, word for word, and remembers
/// which rule it is.
pub proof fn editing_shows_the_rule(
    editor: &mut RulesEditor,
    draft: &mut Option<Policy>,
    status: &StatusSnapshot,
    i: usize,
)
    requires
        call_ensures(RulesEditor::edit, (editor, draft, status, i), ()),
    ensures
        *final(draft) is Some,
        policy_laws::same_policy(base_of(*old(draft), status.policy), (*final(draft))->0),
        i >= base_of(*old(draft), status.policy).rules@.len() ==> *final(editor) == *old(editor),
        i < base_of(*old(draft), status.policy).rules@.len() ==> {
            let rule = base_of(*old(draft), status.policy).rules@[i as int];
            &&& final(editor).form is Some
            &&& final(editor).form->0.editing_index == Some(i)
            &&& match rule.matcher {
                policy::AppMatch::ExeName(v) => final(editor).form->0.match_kind is ExeName
                    && final(editor).form->0.match_value@ == v@,
                policy::AppMatch::PathContains(v) => final(editor).form->0.match_kind
                    is PathContains && final(editor).form->0.match_value@ == v@,
                policy::AppMatch::WindowTitleContains(v) => final(editor).form->0.match_kind
                    is WindowTitleContains && final(editor).form->0.match_value@ == v@,
            }
            &&& final(editor).form->0.profile_id@ == rule.profile@
            &&& final(editor).form->0.note@ == rule.note@
        },
{
    let shown = base_of(*old(draft), status.policy);
    policy_laws::lemma_same_policy(shown, (*final(draft))->0);
    lemma_rule_views(shown);
    if i < shown.rules@.len() {
        assert(shown.rules@[i as int]@ == shown@.rules[i as int]);
    }
}

/// Cancelling closes the form and keeps the draft; discarding gives both up.
pub proof fn leaving_the_form(
    editor: &mut RulesEditor,
    other: &mut RulesEditor,
    draft: &mut Option<Policy>,
)
    requires
        call_ensures(RulesEditor::cancel, (editor,), ()),
        call_ensures(RulesEditor::discard, (other, draft), ()),
    ensures
        final(editor).form is None,
        final(other).form is None,
        *final(draft) is None,
{
}

// ── Saving ──────────────────────────────────────────────────────────────────

/// Whether a form can be saved: neither what is matched nor the profile is
/// blank.
pub open spec fn is_filled_in(form: RuleForm) -> bool {
    !text_laws::is_blank(form.match_value@) && !text_laws::is_blank(form.profile_id@)
}

/// Whether a rule says what a form says, without the blanks at the ends.
pub open spec fn says_what(rule: AppRule, form: RuleForm) -> bool {
    &&& match form.match_kind {
        MatchKind::ExeName => rule.matcher is ExeName && rule.matcher->ExeName_0@ == text::trim(
            form.match_value@,
        ),
        MatchKind::PathContains => rule.matcher is PathContains && rule.matcher->PathContains_0@
            == text::trim(form.match_value@),
        MatchKind::WindowTitleContains => rule.matcher is WindowTitleContains
            && rule.matcher->WindowTitleContains_0@ == text::trim(form.match_value@),
    }
    &&& rule.profile@ == text::trim(form.profile_id@)
    &&& rule.note@ == text::trim(form.note@)
}

/// Whether `after` is `before` with a form's rule in it: in place of the rule
/// that was edited where that still exists, else behind all others.
pub open spec fn takes_the_form_in(before: Policy, after: Policy, form: RuleForm) -> bool {
    &&& same_but_rules(before, after)
    &&& if form.editing_index is Some && form.editing_index->0 < before.rules@.len() {
        &&& after.rules@.len() == before.rules@.len()
        &&& says_what(after.rules@[form.editing_index->0 as int], form)
        &&& forall|j: int|
            0 <= j < before.rules@.len() && j != form.editing_index->0 ==> policy_laws::same_rule(
                #[trigger] after.rules@[j],
                before.rules@[j],
            )
    } else {
        &&& after.rules@.len() == before.rules@.len() + 1
        &&& says_what(after.rules@[before.rules@.len() as int], form)
        &&& forall|j: int|
            0 <= j < before.rules@.len() ==> policy_laws::same_rule(
                #[trigger] after.rules@[j],
                before.rules@[j],
            )
    }
}

/// A form can be saved exactly when it is filled in.
pub proof fn forms_are_saved_when_filled_in(form: &RuleForm, r: bool)
    requires
        call_ensures(RuleForm::can_save, (form,), r),
    ensures
        r == is_filled_in(*form),
{
    text_laws::blank_texts_trim_to_nothing(form.match_value@);
    text_laws::blank_texts_trim_to_nothing(form.profile_id@);
}

/// Saving a form puts its rule into the policy and closes it. With elevation
/// the policy goes to the service and no draft is left; without, it stays the
/// draft. A form that is not filled in changes nothing.
pub proof fn saving_takes_the_form_in(
    editor: &mut RulesEditor,
    draft: &mut Option<Policy>,
    status: &StatusSnapshot,
    elevated: bool,
    r: Option<AdminCall>,
)
    requires
        call_ensures(RulesEditor::commit, (editor, draft, status, elevated), r),
    ensures
        old(editor).form is None || !is_filled_in(old(editor).form->0) ==> r is None
            && *final(editor) == *old(editor) && *final(draft) == *old(draft),
        old(editor).form is Some && is_filled_in(old(editor).form->0) ==> {
            let before = base_of(*old(draft), status.policy);
            &&& final(editor).form is None
            &&& elevated ==> {
                &&& *final(draft) is None
                &&& r is Some
                &&& r->0.request is SetPolicy
                &&& r->0.label@ == "save rule"@
                &&& takes_the_form_in(
                    before,
                    r->0.request->SetPolicy_policy,
                    old(editor).form->0,
                )
            }
            &&& !elevated ==> {
                &&& r is None
                &&& *final(draft) is Some
                &&& takes_the_form_in(before, (*final(draft))->0, old(editor).form->0)
            }
        },
{
    if old(editor).form is Some {
        let form = old(editor).form->0;
        text_laws::blank_texts_trim_to_nothing(form.match_value@);
        text_laws::blank_texts_trim_to_nothing(form.profile_id@);
        if is_filled_in(form) {
            let before = base_of(*old(draft), status.policy);
            let after = if elevated {
                r->0.request->SetPolicy_policy
            } else {
                (*final(draft))->0
            };
            lemma_rule_views(before);
            lemma_rule_views(after);
            policy_laws::lemma_same_profiles(before, after);
            policy_laws::lemma_same_affinity_rules(before, after);
            assert forall|j: int|
                0 <= j < before.rules@.len() && after@.rules[j]
                    == before@.rules[j] implies policy_laws::same_rule(
                #[trigger] after.rules@[j],
                before.rules@[j],
            ) by {
                assert(after.rules@[j]@ == after@.rules[j]);
                assert(before.rules@[j]@ == before@.rules[j]);
            }
            if form.editing_index is Some && form.editing_index->0 < before.rules@.len() {
                let i = form.editing_index->0 as int;
                assert(after.rules@[i]@ == after@.rules[i]);
                assert(says_what(after.rules@[i], form));
            } else {
                let n = before.rules@.len() as int;
                assert(after.rules@[n]@ == after@.rules[n]);
                assert(says_what(after.rules@[n], form));
            }
            assert(takes_the_form_in(before, after, form));
        }
    }
}

/// Deleting takes the chosen rule out of the draft and no other; the rules
/// behind it move up.
pub proof fn deleting_takes_one_rule(
    draft: &mut Option<Policy>,
    status: &StatusSnapshot,
    i: usize,
)
    requires
        call_ensures(rules_tab::delete_rule, (draft, status, i), ()),
    ensures
        *final(draft) is Some,
        ({
            let before = base_of(*old(draft), status.policy);
            let after = (*final(draft))->0;
            &&& same_but_rules(before, after)
            &&& i >= before.rules@.len() ==> policy_laws::same_rules(before, after)
            &&& i < before.rules@.len() ==> {
                &&& after.rules@.len() == before.rules@.len() - 1
                &&& forall|j: int|
                    0 <= j < after.rules@.len() ==> policy_laws::same_rule(
                        #[trigger] after.rules@[j],
                        before.rules@[if j < i {
                            j
                        } else {
                            j + 1
                        }],
                    )
            }
        }),
{
    let before = base_of(*old(draft), status.policy);
    let after = (*final(draft))->0;
    policy_laws::lemma_same_profiles(before, after);
    policy_laws::lemma_same_affinity_rules(before, after);
    lemma_rule_views(before);
    lemma_rule_views(after);
    if i < before.rules@.len() {
        assert forall|j: int| 0 <= j < after.rules@.len() implies policy_laws::same_rule(
            #[trigger] after.rules@[j],
            before.rules@[if j < i {
                j
            } else {
                j + 1
            }],
        ) by {
            let k = if j < i {
                j
            } else {
                j + 1
            };
            assert(after.rules@[j]@ == after@.rules[j]);
            assert(before.rules@[k]@ == before@.rules[k]);
        }
    } else {
        policy_laws::lemma_same_rules(before, after);
    }
}

/// Saving the draft sends exactly the draft and leaves none.
pub proof fn saving_sends_the_draft(draft: &mut Option<Policy>, r: Option<AdminCall>)
    requires
        call_ensures(rules_tab::save_draft, (draft,), r),
    ensures
        *final(draft) is None,
        *old(draft) is None ==> r is None,
        *old(draft) is Some ==> {
            &&& r is Some
            &&& r->0.request is SetPolicy
            &&& r->0.label@ == "save policy"@
            &&& policy_laws::same_policy((*old(draft))->0, r->0.request->SetPolicy_policy)
        },
{
    if *old(draft) is Some {
        policy_laws::lemma_same_policy((*old(draft))->0, r->0.request->SetPolicy_policy);
    }
}

// ── What is on offer ────────────────────────────────────────────────────────

/// Nothing changes without elevation, nothing else opens while a form is open,
/// and only a draft can be saved or discarded.
pub proof fn buttons_follow_the_state(
    elevated: bool,
    editor: &RulesEditor,
    draft: &Option<Policy>,
    foreground: &Option<ForegroundSnapshot>,
    r: RulesButtons,
)
    requires
        call_ensures(rules_tab::rules_buttons, (elevated, editor, draft, foreground), r),
    ensures
        !elevated ==> !r.add && !r.add_for_foreground && !r.save && !r.change,
        editor.form is Some ==> !r.add && !r.add_for_foreground && !r.change,
        elevated && editor.form is None ==> r.add && r.change,
        r.add_for_foreground == (r.add && foreground is Some),
        r.discard == (draft is Some),
        r.save == (elevated && r.discard),
{
}

/// The shortcut offers what the focused window has of the kind that is matched;
/// a window without a title offers none.
pub proof fn shortcuts_offer_what_is_matched(
    kind: MatchKind,
    foreground: &Option<ForegroundSnapshot>,
    r: Option<String>,
)
    requires
        call_ensures(rules_tab::shortcut_value, (kind, foreground), r),
    ensures
        *foreground is None ==> r is None,
        *foreground is Some ==> {
            let fg = (*foreground)->0;
            &&& kind is ExeName ==> r is Some && r->0@ == fg.exe_name@
            &&& kind is PathContains ==> r is Some && r->0@ == fg.path@
            &&& kind is WindowTitleContains && fg.title@.len() == 0 ==> r is None
            &&& kind is WindowTitleContains && fg.title@.len() > 0 ==> r is Some && r->0@
                == fg.title@
        },
{
}

/// Each kind of match has its own hint, its own button and its own tag.
pub proof fn kinds_have_words_of_their_own(
    kind: MatchKind,
    hint: &'static str,
    button: &'static str,
    form: &RuleForm,
    heading: &'static str,
)
    requires
        call_ensures(rules_tab::value_hint, (kind,), hint),
        call_ensures(rules_tab::shortcut_label, (kind,), button),
        call_ensures(RuleForm::heading, (form,), heading),
    ensures
        kind is ExeName ==> hint@ == "e.g. bf6.exe"@ && button@ == "Use foreground exe"@,
        kind is PathContains ==> hint@ == "e.g. Battlefield 6"@ && button@
            == "Use foreground path"@,
        kind is WindowTitleContains ==> hint@ == "e.g. DEBUG"@ && button@
            == "Use foreground title"@,
        form.editing_index is Some ==> heading@ == "Edit rule"@,
        form.editing_index is None ==> heading@ == "Add rule"@,
{
}

/// The line of a rule names what is matched, then the profile, then the note if
/// there is one. The tags of all kinds are equally wide.
pub proof fn rule_lines_name_every_part(rule: &AppRule, r: String)
    requires
        call_ensures(rules_tab::rule_line, (rule,), r),
    ensures
        ({
            let (tag, value) = match rule.matcher {
                policy::AppMatch::ExeName(v) => ("exe   "@, v@),
                policy::AppMatch::PathContains(v) => ("path~ "@, v@),
                policy::AppMatch::WindowTitleContains(v) => ("title~"@, v@),
            };
            let line = tag + "  "@ + value + "  ->  "@ + rule.profile@;
            &&& tag.len() == 6
            &&& rule.note@.len() == 0 ==> r@ == line
            &&& rule.note@.len() > 0 ==> r@ == line + ("  ("@ + rule.note@ + ")"@)
        }),
{
    reveal_strlit("exe   ");
    reveal_strlit("path~ ");
    reveal_strlit("title~");
    assert(rules_tab::rule_text(rule@) == r@);
    if rule.note@.len() == 0 {
        let (tag, value) = match rule.matcher {
            policy::AppMatch::ExeName(v) => ("exe   "@, v@),
            policy::AppMatch::PathContains(v) => ("path~ "@, v@),
            policy::AppMatch::WindowTitleContains(v) => ("title~"@, v@),
        };
        let line = tag + "  "@ + value + "  ->  "@ + rule.profile@;
        assert(line + Seq::<char>::empty() =~= line);
    }
}

// ── Affinity rules ──────────────────────────────────────────────────────────

/// Whether a list holds a rule.
pub open spec fn holds_rule(rules: Seq<AffinityRule>, rule: AffinityRule) -> bool {
    exists|k: int|
        0 <= k < rules.len() && policy_laws::same_affinity_rule(#[trigger] rules[k], rule)
}

/// The list of affinity rules holds every rule and no other, by executable in
/// whatever case.
pub proof fn affinity_rules_are_listed_by_executable(
    rules: &Vec<AffinityRule>,
    r: Vec<AffinityRule>,
)
    requires
        call_ensures(rules_tab::sort_affinity_rules, (rules,), r),
    ensures
        r@.len() == rules@.len(),
        forall|i: int| 0 <= i < rules@.len() ==> holds_rule(r@, #[trigger] rules@[i]),
        forall|k: int| 0 <= k < r@.len() ==> holds_rule(rules@, #[trigger] r@[k]),
        forall|j: int, k: int|
            0 <= j < k < r@.len() ==> text::text_leq(
                text::lower((#[trigger] r@[j]).exe_name@),
                text::lower((#[trigger] r@[k]).exe_name@),
            ),
{
    let views = policy::affinity_rule_views(rules@);
    let listed = policy::affinity_rule_views(r@);
    let n = views.len();
    let leq = rules_tab::exe_order(views);
    assert forall|x: usize, y: usize| #[trigger] leq(x, y) || leq(y, x) by {
        let a = text::lower(views[x as int].exe_name);
        let b = text::lower(views[y as int].exe_name);
        text::text_order_is_total(a, b, a);
    }
    assert forall|x: usize, y: usize, z: usize| #[trigger] leq(x, y) && #[trigger] leq(
        y,
        z,
    ) implies leq(x, z) by {
        let a = text::lower(views[x as int].exe_name);
        let b = text::lower(views[y as int].exe_name);
        let c = text::lower(views[z as int].exe_name);
        text::text_order_is_total(a, b, c);
    }
    assert(rules.len() == rules@.len());
    sorting::sorting_is_a_stable_permutation(n, leq);
    let order = sorting::sorted_positions(n, leq);
    assert(listed.len() == r@.len());
    assert forall|k: int| 0 <= k < r@.len() implies (#[trigger] r@[k])@ == views[order[k] as int]
        && order[k] < n by {
        assert(listed[k] == r@[k]@);
    }
    assert forall|j: int| 0 <= j < n implies (#[trigger] rules@[j])@ == views[j] by {}
    assert forall|k: int| 0 <= k < r@.len() implies holds_rule(rules@, #[trigger] r@[k]) by {
        assert(rules@[order[k] as int]@ == views[order[k] as int]);
        assert(policy_laws::same_affinity_rule(rules@[order[k] as int], r@[k]));
    }
    assert forall|i: int| 0 <= i < rules@.len() implies holds_rule(r@, #[trigger] rules@[i]) by {
        sorting::sorting_leaves_nothing_out(n, leq, i as usize);
        let k = order.index_of(i as usize);
        assert(r@[k]@ == views[i]);
        assert(policy_laws::same_affinity_rule(r@[k], rules@[i]));
    }
    assert forall|j: int, k: int| 0 <= j < k < r@.len() implies text::text_leq(
        text::lower((#[trigger] r@[j]).exe_name@),
        text::lower((#[trigger] r@[k]).exe_name@),
    ) by {
        assert(leq(order[j], order[k]));
    }
}

/// Removing an affinity rule names the executable it is about.
pub proof fn removing_names_the_executable(exe_name: String, r: AdminCall)
    requires
        call_ensures(rules_tab::remove_affinity_rule, (exe_name,), r),
    ensures
        r.request == (Request::DeleteAffinityRule { exe_name }),
        r.label@ == "delete affinity rule"@,
{
}

} // verus!
