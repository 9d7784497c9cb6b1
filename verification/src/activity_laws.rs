//! Laws of the activity feed and of its log on disk.

use vstd::prelude::*;

use crate::activity_log::{self, PersistedActivityEvent};
use crate::activity_tab::{self, ActivityLogView};
use crate::ipc_client;
use crate::state::{EventKind, RecentEvent, Timestamp};
use crate::text;

verus! {

// ── The list ────────────────────────────────────────────────────────────────

/// Whether the box of a category is checked.
pub open spec fn is_checked(view: ActivityLogView, kind: EventKind) -> bool {
    ||| kind is Foreground && view.show_foreground
    ||| kind is Engine && view.show_engine
    ||| kind is ProBalanceRestrained && view.show_probalance_restrain
    ||| kind is ProBalanceRestored && view.show_probalance_restore
    ||| kind is Other && view.show_other
}

/// Each category has its own box, and all are checked to begin with.
pub proof fn boxes_choose_categories(
    view: &ActivityLogView,
    kind: EventKind,
    r: bool,
    fresh: ActivityLogView,
)
    requires
        call_ensures(ActivityLogView::wants_kind, (view, kind), r),
        call_ensures(ActivityLogView::default, (), fresh),
    ensures
        r == is_checked(*view, kind),
        fresh.show_foreground,
        fresh.show_engine,
        fresh.show_probalance_restrain,
        fresh.show_probalance_restore,
        fresh.show_other,
        fresh.filter@.len() == 0,
{
    assert(fresh.wants(EventKind::Foreground));
    assert(fresh.wants(EventKind::Engine));
    assert(fresh.wants(EventKind::ProBalanceRestrained));
    assert(fresh.wants(EventKind::ProBalanceRestored));
    assert(fresh.wants(EventKind::Other));
}

/// The list holds every event of a checked category whose line holds the
/// filter, in whatever case, and no other. The newest comes first.
pub proof fn the_feed_goes_from_the_newest(
    view: &ActivityLogView,
    events: &[RecentEvent],
    r: Vec<usize>,
)
    requires
        call_ensures(ActivityLogView::visible, (view, events), r),
    ensures
        forall|i: usize| #[trigger]
            r@.contains(i) <==> i < events@.len() && is_checked(*view, events@[i as int].kind)
                && text::occurs_in(
                text::lower(view.filter@),
                text::lower(events@[i as int].label@),
            ),
        forall|j: int, k: int|
            0 <= j < k < r@.len() ==> (#[trigger] r@[j]) > (#[trigger] r@[k]),
{
    assert(events.len() == events@.len());
    activity_tab::the_list_is_complete_and_newest_first(*view, events@);
}

/// The last labels are those of the last events, from the newest back.
pub proof fn the_latest_labels_go_back(recent: &[RecentEvent], n: usize, r: Vec<String>)
    requires
        call_ensures(activity_tab::latest_labels, (recent, n), r),
    ensures
        n <= recent@.len() ==> r@.len() == n,
        n > recent@.len() ==> r@.len() == recent@.len(),
        forall|k: int|
            0 <= k < r@.len() ==> (#[trigger] r@[k])@ == recent@[recent@.len() - 1 - k].label@,
{
    let all = text::texts(r@);
    assert(all.len() == r@.len());
    assert forall|k: int| 0 <= k < r@.len() implies (#[trigger] r@[k])@ == recent@[recent@.len()
        - 1 - k].label@ by {
        assert(all[k] == r@[k]@);
    }
}

/// An empty list says whether there is nothing or nothing that fits. The Status
/// tab shows twenty events, the strip below five.
pub proof fn empty_lists_say_why(nothing: &'static str, nothing_fits: &'static str)
    requires
        call_ensures(activity_tab::empty_message, (true,), nothing),
        call_ensures(activity_tab::empty_message, (false,), nothing_fits),
    ensures
        nothing@ == "No events yet. Activity will appear here as the engine reconciles."@,
        nothing_fits@ == "No events match the current filter."@,
        activity_tab::STATUS_EVENTS == 20,
        activity_tab::STRIP_EVENTS == 5,
{
}

// ── Lines of the log ────────────────────────────────────────────────────────

/// What is logged of an event: the first version, its whole seconds since the
/// epoch, its category and its line.
pub proof fn events_are_logged_whole(
    at: Timestamp,
    kind: &str,
    label: String,
    r: PersistedActivityEvent,
    version: u32,
)
    requires
        call_ensures(PersistedActivityEvent::new, (at, kind, label), r),
        call_ensures(activity_log::default_schema_version, (), version),
    ensures
        r.schema_version == 1,
        version == 1,
        at.secs >= 0 ==> r.at_unix_secs == at.secs,
        at.secs < 0 ==> r.at_unix_secs == 0,
        r.kind@ == kind@,
        r.label@ == label@,
{
}

/// What is read back has the second it was logged at, the category of its name,
/// and its line.
pub proof fn logged_events_come_back(
    ev: PersistedActivityEvent,
    r: RecentEvent,
    tag: &str,
    kind: EventKind,
)
    requires
        ev.at_unix_secs <= i64::MAX,
        call_ensures(activity_log::hydrate, (ev,), r),
        tag@ == ev.kind@,
        call_ensures(EventKind::from_persist_tag, (tag,), kind),
    ensures
        r.at.secs == ev.at_unix_secs,
        r.at.nanos == 0,
        r.kind == kind,
        r.label@ == ev.label@,
        activity_log::HYDRATE_LIMIT == 200,
{
}

/// Whether a row of bytes can stand on a line: it holds no line break, and does
/// not end in a carriage return.
pub open spec fn fits_a_line(line: Seq<u8>) -> bool {
    &&& line.len() > 0
    &&& !line.contains(10)
    &&& line.last() != 13
}

/// Whether a file is empty or ends in a line break.
pub open spec fn is_at_line_start(body: Seq<u8>) -> bool {
    body.len() == 0 || body.last() == 10
}

/// A line that is added to a file is read behind the others, whether a line
/// break, a carriage return with one, or nothing ends it.
pub proof fn added_lines_are_read_last(
    body: &[u8],
    line: Seq<u8>,
    ended: &[u8],
    returned: &[u8],
    open: &[u8],
    before: Vec<Vec<u8>>,
    by_break: Vec<Vec<u8>>,
    by_return: Vec<Vec<u8>>,
    by_nothing: Vec<Vec<u8>>,
)
    requires
        call_ensures(activity_log::split_lines, (body,), before),
        call_ensures(activity_log::split_lines, (ended,), by_break),
        call_ensures(activity_log::split_lines, (returned,), by_return),
        call_ensures(activity_log::split_lines, (open,), by_nothing),
        is_at_line_start(body@),
        fits_a_line(line),
        ended@ == body@ + line.push(10),
        returned@ == body@ + line.push(13).push(10),
        open@ == body@ + line,
    ensures
        ({
            let lines = activity_log::line_bytes(before@);
            &&& activity_log::line_bytes(by_break@) == lines.push(line)
            &&& activity_log::line_bytes(by_return@) == lines.push(line)
            &&& activity_log::line_bytes(by_nothing@) == lines.push(line)
        }),
{
    reveal_with_fuel(Seq::filter, 3);
    let b = body@;
    let blank = Seq::<u8>::empty();
    activity_log::appended_line_is_read_last(b, line);
    let old_lines = activity_log::ended_lines(b);
    assert(activity_log::open_line(b) =~= blank);
    activity_log::lemma_line_grows(b, line);
    // without an end
    assert(old_lines.push(line).drop_last() =~= old_lines);
    assert(old_lines.push(blank).drop_last() =~= old_lines);
    // with a carriage return
    let marked = line.push(13);
    assert(!marked.contains(10)) by {
        if marked.contains(10) {
            let k = marked.index_of(10);
            if k < line.len() {
                assert(line[k] == 10);
            }
        }
    }
    activity_log::lemma_line_grows(b, marked);
    assert(returned@.drop_last() =~= b + marked);
    assert(returned@.last() == 10);
    assert(activity_log::without_return(marked) =~= line);
    assert(activity_log::ended_lines(returned@) == old_lines.push(line));
    assert(activity_log::open_line(returned@) =~= blank);
    assert(old_lines.push(line).push(blank).drop_last() =~= old_lines.push(line));
}

/// An empty file has no lines, and an empty line is none.
pub proof fn empty_lines_are_none(
    nothing: &[u8],
    body: &[u8],
    longer: &[u8],
    none: Vec<Vec<u8>>,
    before: Vec<Vec<u8>>,
    after: Vec<Vec<u8>>,
)
    requires
        call_ensures(activity_log::split_lines, (nothing,), none),
        call_ensures(activity_log::split_lines, (body,), before),
        call_ensures(activity_log::split_lines, (longer,), after),
        nothing@.len() == 0,
        is_at_line_start(body@),
        longer@ == body@.push(10),
    ensures
        none@.len() == 0,
        activity_log::line_bytes(after@) == activity_log::line_bytes(before@),
{
    reveal_with_fuel(Seq::filter, 3);
    let blank = Seq::<u8>::empty();
    assert(nothing@ =~= blank);
    assert(activity_log::ended_lines(nothing@).push(blank).drop_last() =~= Seq::<
        Seq<u8>,
    >::empty());
    assert(activity_log::line_bytes(none@).len() == none@.len());
    let b = body@;
    let old_lines = activity_log::ended_lines(b);
    assert(longer@.drop_last() =~= b);
    assert(activity_log::open_line(b) =~= blank);
    assert(activity_log::open_line(longer@) =~= blank);
    assert(activity_log::without_return(blank) =~= blank);
    assert(activity_log::ended_lines(longer@) == old_lines.push(blank));
    assert(old_lines.push(blank).push(blank).drop_last() =~= old_lines.push(blank));
    assert(old_lines.push(blank).drop_last() =~= old_lines);
}

/// A line is ended by a line break, and a file is its lines, each ended by one.
pub proof fn files_are_ended_lines(
    line: Vec<u8>,
    ended: Vec<u8>,
    fewer: Vec<Vec<u8>>,
    more: Vec<Vec<u8>>,
    short: Vec<u8>,
    long: Vec<u8>,
)
    requires
        call_ensures(activity_log::end_line, (line,), ended),
        call_ensures(activity_log::join_lines, (fewer,), short),
        call_ensures(activity_log::join_lines, (more,), long),
        more@.len() == fewer@.len() + 1,
        forall|i: int| 0 <= i < fewer@.len() ==> (#[trigger] more@[i])@ == fewer@[i]@,
        more@[fewer@.len() as int]@ == line@,
    ensures
        ended@ == line@.push(10),
        long@ == short@ + ended@,
        fewer@.len() == 0 ==> short@.len() == 0,
{
    let a = activity_log::line_bytes(fewer@);
    let b = activity_log::line_bytes(more@);
    assert(b =~= a.push(line@)) by {
        assert forall|i: int| 0 <= i < b.len() implies b[i] == a.push(line@)[i] by {
            assert(b[i] == more@[i]@);
            if i < a.len() {
                assert(a[i] == fewer@[i]@);
            }
        }
    }
    assert(b.drop_last() =~= a);
}

// ── Reading the log ─────────────────────────────────────────────────────────

/// Nothing is read of an empty log, and nothing where nothing is wanted. A line
/// that cannot be read, or that has another version than the first, changes
/// nothing of what is read.
pub proof fn bad_lines_change_nothing(
    lines: Vec<Option<PersistedActivityEvent>>,
    bad: Option<PersistedActivityEvent>,
    longer: Vec<Option<PersistedActivityEvent>>,
    n: usize,
    before: Vec<PersistedActivityEvent>,
    after: Vec<PersistedActivityEvent>,
    none: Vec<PersistedActivityEvent>,
)
    requires
        call_ensures(activity_log::load_last, (lines, n), before),
        call_ensures(activity_log::load_last, (longer, n), after),
        call_ensures(activity_log::load_last, (lines, 0usize), none),
        longer@ == lines@.push(bad),
        bad is Some ==> bad->0.schema_version != 1,
    ensures
        after@ == before@,
        none@.len() == 0,
        lines@.len() == 0 ==> before@.len() == 0,
{
    assert(longer@.drop_last() =~= lines@);
}

/// A line of the first version is read behind all others; where the limit is
/// reached the oldest makes room.
pub proof fn good_lines_are_read_last(
    lines: Vec<Option<PersistedActivityEvent>>,
    ev: PersistedActivityEvent,
    longer: Vec<Option<PersistedActivityEvent>>,
    n: usize,
    before: Vec<PersistedActivityEvent>,
    after: Vec<PersistedActivityEvent>,
)
    requires
        call_ensures(activity_log::load_last, (lines, n), before),
        call_ensures(activity_log::load_last, (longer, n), after),
        longer@ == lines@.push(Some(ev)),
        ev.schema_version == 1,
        n > 0,
    ensures
        before@.len() < n ==> after@ == before@.push(ev),
        before@.len() >= n ==> before@.len() == n && after@ == before@.drop_first().push(ev),
{
    assert(longer@.drop_last() =~= lines@);
    let valid = activity_log::valid_events(lines@);
    assert(activity_log::valid_events(longer@) == valid.push(ev));
    assert(after@ == ipc_client::newest(valid.push(ev), n as nat));
    if before@.len() < n {
        assert(after@ =~= before@.push(ev));
    } else {
        assert(after@ =~= before@.drop_first().push(ev));
    }
}

/// A log is cut down when it is larger than five mebibytes, to the ten thousand
/// newest events.
pub proof fn large_logs_are_cut_down(
    file_bytes: u64,
    cut: bool,
    lines: Vec<Option<PersistedActivityEvent>>,
    kept: Vec<PersistedActivityEvent>,
    last: Vec<PersistedActivityEvent>,
)
    requires
        call_ensures(activity_log::needs_rotation, (file_bytes,), cut),
        call_ensures(activity_log::rotated, (lines,), kept),
        call_ensures(activity_log::load_last, (lines, 10_000usize), last),
    ensures
        cut <==> file_bytes > 5 * 1024 * 1024,
        kept@ == last@,
{
}

} // verus!
