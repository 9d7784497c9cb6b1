//! Laws of the small texts and switches of the Processes tab.

use vstd::prelude::*;

use crate::formatters;
use crate::ipc::{ProcessSnapshot, StatusSnapshot};
use crate::policy::Policy;
use crate::process_actions::{TerminateConfirm, TerminateQueue};
use crate::process_cells;
use crate::process_menu::{self, MenuChoice};
use crate::processes::ProcessesView;
use crate::text;
use crate::text_edit;
use crate::tree::{self, ProcessSortKey};

verus! {

// ── Cells ───────────────────────────────────────────────────────────────────

/// A folded branch can be opened, an open one folded.
pub proof fn branches_show_how_they_stand(folded: &'static str, open: &'static str)
    requires
        call_ensures(process_cells::branch_glyph, (true,), folded),
        call_ensures(process_cells::branch_glyph, (false,), open),
    ensures
        folded@ == "+"@,
        open@ == "-"@,
{
}

/// A text gets a hover text when its bytes are more than the column takes.
pub proof fn long_texts_get_a_hover(cell: &str, limit: usize, r: bool)
    requires
        call_ensures(process_cells::needs_hover, (cell, limit), r),
        vstd::utf8::encode_utf8(cell@).len() <= usize::MAX,
    ensures
        r <==> vstd::utf8::encode_utf8(cell@).len() > limit,
        process_cells::WIDE_CELL_BYTES == 24,
        process_cells::NARROW_CELL_BYTES == 18,
{
}

/// The affinity cell shows the mask as the editor does, with a pin in front
/// where a rule holds it.
pub proof fn pinned_masks_are_marked(mask: u64, pinned: String, plain: String, shown: String)
    requires
        call_ensures(process_cells::affinity_cell, (mask, true), pinned),
        call_ensures(process_cells::affinity_cell, (mask, false), plain),
        call_ensures(text_edit::show_mask, (mask,), shown),
    ensures
        plain@ == shown@,
        pinned@ == "📌 "@ + shown@,
{
}

/// The hover text spells the mask out and says what a click does.
pub proof fn affinity_hovers_say_what_a_click_does(
    mask: u64,
    pinned: String,
    plain: String,
    spelled: String,
)
    requires
        call_ensures(process_cells::affinity_hover, (mask, true), pinned),
        call_ensures(process_cells::affinity_hover, (mask, false), plain),
        call_ensures(formatters::decode_affinity_mask, (mask,), spelled),
    ensures
        pinned@ == spelled@
            + "\n\n📌 Persistent affinity rule active for this exe. Click to edit, right-click to remove."@,
        plain@ == spelled@
            + "\n\nClick to edit affinity. Toggle the Save-as-rule checkbox in the picker to make it persistent across launches."@,
{
}

/// Each column says what it shows.
pub proof fn columns_say_what_they_show(key: ProcessSortKey, r: &'static str)
    requires
        call_ensures(tree::column_hover_text, (key,), r),
    ensures
        key is ExeName ==> r@ == "Executable filename. Click to sort alphabetically; click again to flip direction."@,
        key is Pid ==> r@ == "Process ID. Stable within a process's lifetime, reused after exit."@,
        key is Cpu ==> r@ == "Live CPU usage as % of one logical processor. Sort descending to find the noisy one fast."@,
        key is Memory ==> r@ == "Working-set size — resident RAM the process is using right now. Hover the cell for peak + private bytes."@,
        key is Threads ==> r@ == "Live thread count."@,
        key is Priority ==> r@ == "Windows priority class. Game Mode + manual overrides can change this from its default."@,
        key is Profile ==> r@ == "Profile FrameSage has applied to this PID. Star ★ marks profiles that came from a Rule (vs one-shot)."@,
        key is Description ==> r@ == "Friendly name from the exe's version resource (\"Microsoft Edge\" beside msedge.exe)."@,
        key is Company ==> r@ == "Publisher string from the version resource. Useful for spotting unfamiliar binaries."@,
        key is User ==> r@ == "User account that owns the process. SYSTEM / NT SERVICE rows render muted so user-owned code stands out."@,
{
}

// ── Switches ────────────────────────────────────────────────────────────────

/// Emptying the filter empties the filter, closing the panel unselects, and
/// neither touches anything else.
pub proof fn clearing_touches_nothing_else(a: &mut ProcessesView, b: &mut ProcessesView)
    requires
        call_ensures(ProcessesView::clear_filter, (a,), ()),
        call_ensures(ProcessesView::close_detail, (b,), ()),
    ensures
        final(a).filter@.len() == 0,
        *final(a) == (ProcessesView { filter: final(a).filter, ..*old(a) }),
        final(b).selected_pid is None,
        *final(b) == (ProcessesView { selected_pid: None, ..*old(b) }),
{
}

/// At most one column is the sorted one.
pub proof fn one_column_is_sorted_by(
    view: &ProcessesView,
    a: ProcessSortKey,
    b: ProcessSortKey,
    by_a: bool,
    by_b: bool,
)
    requires
        call_ensures(ProcessesView::sorts_by, (view, a), by_a),
        call_ensures(ProcessesView::sorts_by, (view, b), by_b),
    ensures
        by_a <==> view.sort_by == Some(a),
        by_a && by_b ==> a == b,
{
}

// ── Menus and dialogs ───────────────────────────────────────────────────────

/// The profile menus list the ids as the policy does; before the first status
/// they are empty.
pub proof fn profile_menus_list_the_ids(
    status: Option<&StatusSnapshot>,
    r: Vec<String>,
    ids: Vec<String>,
)
    requires
        call_ensures(process_menu::menu_profiles, (status,), r),
        status is Some ==> call_ensures(Policy::profile_ids, (&status->0.policy,), ids),
    ensures
        status is None ==> r@.len() == 0,
        status is Some ==> text::texts(r@) == text::texts(ids@),
{
    assert(text::texts(r@).len() == r@.len());
}

/// The title names the process, or counts the processes when there are more.
pub proof fn titles_name_or_count(p: &ProcessSnapshot, count: usize, r: String)
    requires
        call_ensures(process_menu::title, (p, count), r),
    ensures
        count <= 1 ==> r@ == p.exe_name@ + " (pid "@ + text::decimal(p.pid as nat) + ")"@,
        count > 1 ==> r@ == text::decimal(count as nat) + " processes selected"@,
{
}

/// The entries say what they do, and to how many processes when there are more.
pub proof fn entries_say_to_how_many(choice: &MenuChoice, count: usize, r: String)
    requires
        call_ensures(process_menu::entry_label, (choice, count), r),
    ensures
        choice is TrimWorkingSet || choice is Suspend || choice is Resume || choice is Terminate
            ==> call_requires(process_menu::entry_label, (choice, count)),
        choice is TrimWorkingSet && count <= 1 ==> r@ == "Trim working set"@,
        choice is TrimWorkingSet && count > 1 ==> r@ == "Trim working set on "@ + text::decimal(
            count as nat,
        ) + " processes"@,
        choice is Suspend && count <= 1 ==> r@ == "Suspend process"@,
        choice is Suspend && count > 1 ==> r@ == "Suspend "@ + text::decimal(count as nat)
            + " processes"@,
        choice is Resume && count <= 1 ==> r@ == "Resume process"@,
        choice is Resume && count > 1 ==> r@ == "Resume "@ + text::decimal(count as nat)
            + " processes"@,
        choice is Terminate && count <= 1 ==> r@ == "Terminate process…"@,
        choice is Terminate && count > 1 ==> r@ == "Terminate "@ + text::decimal(count as nat)
            + " processes…"@,
{
}

/// The dialog warns of the very process that it kills.
pub proof fn the_dialog_names_its_process(confirm: &TerminateConfirm, r: String)
    requires
        call_ensures(TerminateConfirm::warning, (confirm,), r),
    ensures
        r@ == "FrameSage will call TerminateProcess on "@ + confirm.exe_name@ + " (pid "@
            + text::decimal(confirm.pid as nat)
            + "). The process has no chance to save state. If it owns unsaved work or is a system process you'll see immediate side effects."@,
{
}

/// Of several dialogs the first that waits is shown; with none nothing is.
pub proof fn the_first_dialog_is_shown(queue: &TerminateQueue, r: Option<&TerminateConfirm>)
    requires
        call_ensures(TerminateQueue::shown, (queue,), r),
    ensures
        r is Some <==> queue@.len() > 0,
        r is Some ==> *r->0 == queue@[0],
{
}

} // verus!
