//! Laws of the Sessions tab: what is found in a recorded session, and what is
//! asked for.

use vstd::prelude::*;

use crate::formatters;
use crate::ipc::{Request, StatusSnapshot};
use crate::sessions::{
    self, DeltaBand, SessionDetailState, SessionEvent, SessionListEntry, SessionsAction,
    SessionsPage,
};
use crate::text;
use crate::text_laws;
use crate::theme::Tone;

verus! {

// ── Where the rules took hold ───────────────────────────────────────────────

/// Whether the event at place `k` is a profile being applied or Game Mode being
/// entered, at the moment `t`.
pub open spec fn takes_hold(events: Seq<SessionEvent>, k: int, t: u64) -> bool {
    &&& 0 <= k < events.len()
    &&& events[k] is FramesageAction
    &&& events[k]->FramesageAction_at_ms == t
    &&& events[k]->action@ == "apply_profile"@ || events[k]->action@ == "game_mode_entered"@
}

/// Whether place `k` is the first of that kind.
pub open spec fn takes_hold_first(events: Seq<SessionEvent>, k: int, t: u64) -> bool {
    takes_hold(events, k, t) && forall|j: int, s: u64| 0 <= j < k ==> !takes_hold(events, j, s)
}

/// The marker stands at the first moment at which a profile was applied or Game
/// Mode entered; there is none exactly if neither ever happened.
pub proof fn the_marker_is_the_first_hold(events: &[SessionEvent], r: Option<u64>)
    requires
        call_ensures(sessions::find_apply, (events,), r),
    ensures
        r is None <==> forall|k: int, t: u64| !takes_hold(events@, k, t),
        r is Some ==> exists|k: int| takes_hold_first(events@, k, r->0),
{
    let k = lemma_first_apply(events@);
    if r is Some {
        assert(takes_hold_first(events@, k, r->0));
    }
}

proof fn lemma_first_apply(events: Seq<SessionEvent>) -> (k: int)
    ensures
        sessions::first_apply(events) is None ==> forall|j: int, t: u64|
            !takes_hold(events, j, t),
        sessions::first_apply(events) is Some ==> takes_hold_first(
            events,
            k,
            sessions::first_apply(events)->0,
        ),
    decreases events.len(),
{
    if events.len() == 0 {
        0
    } else if sessions::is_apply(events[0]) {
        0
    } else {
        let rest = events.drop_first();
        let k = lemma_first_apply(rest);
        assert forall|j: int, t: u64| takes_hold(events, j, t) implies takes_hold(
            rest,
            j - 1,
            t,
        ) by {
            if j > 0 {
                assert(rest[j - 1] == events[j]);
            }
        }
        assert(sessions::first_apply(events) == sessions::first_apply(rest));
        if sessions::first_apply(rest) is Some {
            assert(rest[k] == events[k + 1]);
        }
        k + 1
    }
}

/// The marker is drawn where the chart reaches its moment, and nowhere else.
pub proof fn markers_stay_on_the_chart(
    points: &[(u64, u32, u32)],
    apply: Option<u64>,
    r: Option<u64>,
)
    requires
        call_ensures(sessions::chart_marker, (points, apply), r),
    ensures
        r is Some ==> r == apply && points@.len() >= 2 && points@[0].0 <= r->0
            <= points@[points@.len() - 1].0,
        r is None && apply is Some && points@.len() >= 2 ==> apply->0 < points@[0].0 || apply->0
            > points@[points@.len() - 1].0,
{
}

// ── Charts ──────────────────────────────────────────────────────────────────

/// How many of the first `n` events are frame samples.
pub open spec fn frames_before(events: Seq<SessionEvent>, n: int) -> int
    decreases n,
{
    if n <= 0 {
        0
    } else if events[n - 1] is FrameSample {
        frames_before(events, n - 1) + 1
    } else {
        frames_before(events, n - 1)
    }
}

/// Each frame sample is a point of the chart, at its own moment and with its
/// own median and 99th percentile, in the order in which they were recorded;
/// there are no other points.
pub proof fn frame_samples_are_the_points(
    events: &[SessionEvent],
    r: Vec<(u64, u32, u32)>,
    k: int,
)
    requires
        call_ensures(sessions::collect_frames, (events,), r),
        0 <= k < events@.len(),
    ensures
        r@.len() == frames_before(events@, events@.len() as int),
        events@[k] is FrameSample ==> {
            let at = frames_before(events@, k);
            &&& 0 <= at < r@.len()
            &&& r@[at].0 == events@[k]->FrameSample_at_ms
            &&& r@[at].1 == events@[k]->frame_time_us_p50
            &&& r@[at].2 == events@[k]->frame_time_us_p99
        },
{
    lemma_frames(events@, events@.len() as int, k);
    assert(events@.take(events@.len() as int) =~= events@);
}

proof fn lemma_frames(events: Seq<SessionEvent>, n: int, k: int)
    requires
        0 <= k < events.len(),
        0 <= n <= events.len(),
    ensures
        sessions::frame_points(events.take(n)).len() == frames_before(events, n),
        0 <= frames_before(events, n),
        k < n && events[k] is FrameSample ==> {
            let at = frames_before(events, k);
            let points = sessions::frame_points(events.take(n));
            &&& 0 <= at < points.len()
            &&& points[at].0 == events[k]->FrameSample_at_ms
            &&& points[at].1 == events[k]->frame_time_us_p50
            &&& points[at].2 == events[k]->frame_time_us_p99
        },
    decreases n,
{
    if n > 0 {
        lemma_frames(events, n - 1, k);
        assert(events.take(n).drop_last() =~= events.take(n - 1));
        assert(events.take(n).last() == events[n - 1]);
    } else {
        assert(events.take(0) =~= Seq::empty());
    }
}

/// How many of the first `n` events are processor samples with a core.
pub open spec fn loads_before(events: Seq<SessionEvent>, n: int) -> int
    decreases n,
{
    if n <= 0 {
        0
    } else if events[n - 1] is CpuSample && events[n - 1]->per_core_pct@.len() > 0 {
        loads_before(events, n - 1) + 1
    } else {
        loads_before(events, n - 1)
    }
}

/// Each processor sample with a core is a column of the heatmap, in order and
/// with its own loads from the first core on; below them the column is idle.
/// All columns are of one height, which some sample fills.
pub proof fn processor_samples_are_the_columns(events: &[SessionEvent], r: Vec<Vec<u8>>, k: int)
    requires
        call_ensures(sessions::collect_heat, (events,), r),
        0 <= k < events@.len(),
    ensures
        r@.len() == loads_before(events@, events@.len() as int),
        events@[k] is CpuSample && events@[k]->per_core_pct@.len() > 0 ==> {
            let at = loads_before(events@, k);
            let loads = events@[k]->per_core_pct@;
            &&& 0 <= at < r@.len()
            &&& r@[at]@.len() >= loads.len()
            &&& forall|c: int|
                0 <= c < r@[at]@.len() ==> #[trigger] r@[at]@[c] == (if c < loads.len() {
                    loads[c]
                } else {
                    0
                })
        },
        forall|a: int, b: int|
            0 <= a < r@.len() && 0 <= b < r@.len() ==> (#[trigger] r@[a])@.len() == (
            #[trigger] r@[b])@.len(),
{
    let columns = sessions::heat_columns(events@);
    lemma_loads(events@, events@.len() as int, k);
    assert(events@.take(events@.len() as int) =~= events@);
    assert forall|a: int| 0 <= a < r@.len() implies (#[trigger] r@[a])@ == sessions::heat_map(
        columns,
    )[a] by {
        assert(sessions::grid(r@)[a] == r@[a]@);
    }
    assert(sessions::grid(r@).len() == r@.len());
    if events@[k] is CpuSample && events@[k]->per_core_pct@.len() > 0 {
        let at = loads_before(events@, k);
        sessions::no_core_is_cut_off(columns, at);
    }
}

proof fn lemma_loads(events: Seq<SessionEvent>, n: int, k: int)
    requires
        0 <= k < events.len(),
        0 <= n <= events.len(),
    ensures
        sessions::heat_columns(events.take(n)).len() == loads_before(events, n),
        0 <= loads_before(events, n),
        k < n && events[k] is CpuSample && events[k]->per_core_pct@.len() > 0 ==> {
            let at = loads_before(events, k);
            let columns = sessions::heat_columns(events.take(n));
            0 <= at < columns.len() && columns[at] == events[k]->per_core_pct@
        },
    decreases n,
{
    if n > 0 {
        lemma_loads(events, n - 1, k);
        assert(events.take(n).drop_last() =~= events.take(n - 1));
        assert(events.take(n).last() == events[n - 1]);
    } else {
        assert(events.take(0) =~= Seq::empty());
    }
}

/// The heatmap is as high as the sample with the most cores, no higher.
pub proof fn the_heatmap_is_as_high_as_the_most_cores(events: &[SessionEvent], r: Vec<Vec<u8>>)
    requires
        call_ensures(sessions::collect_heat, (events,), r),
        r@.len() > 0,
    ensures
        exists|k: int|
            0 <= k < events@.len() && (#[trigger] events@[k]) is CpuSample
                && events@[k]->per_core_pct@.len() == r@[0]@.len(),
{
    let columns = sessions::heat_columns(events@);
    assert(sessions::grid(r@).len() == r@.len());
    assert(sessions::grid(r@)[0] == r@[0]@);
    let c = lemma_some_column_is_full(columns);
    let k = lemma_columns_are_samples(events@, c);
    assert(events@[k] is CpuSample);
}

proof fn lemma_some_column_is_full(columns: Seq<Seq<u8>>) -> (c: int)
    requires
        columns.len() > 0,
    ensures
        0 <= c < columns.len(),
        columns[c].len() == sessions::heat_rows(columns),
    decreases columns.len(),
{
    let n = columns.len() - 1;
    let shorter = columns.drop_last();
    if shorter.len() == 0 || columns.last().len() > sessions::heat_rows(shorter) {
        n
    } else {
        lemma_some_column_is_full(shorter)
    }
}

proof fn lemma_columns_are_samples(events: Seq<SessionEvent>, c: int) -> (k: int)
    requires
        0 <= c < sessions::heat_columns(events).len(),
    ensures
        0 <= k < events.len(),
        events[k] is CpuSample,
        events[k]->per_core_pct@ == sessions::heat_columns(events)[c],
    decreases events.len(),
{
    let before = sessions::heat_columns(events.drop_last());
    if c < before.len() {
        lemma_columns_are_samples(events.drop_last(), c)
    } else {
        events.len() - 1
    }
}

// ── Pages and clicks ────────────────────────────────────────────────────────

/// The list is shown exactly if the build can measure and something was
/// recorded; an empty one says whether recording is on; before a status nothing
/// is claimed of the build.
pub proof fn the_page_follows_from_what_is_known(
    status: Option<&StatusSnapshot>,
    listed: Option<usize>,
    r: SessionsPage,
)
    requires
        call_ensures(sessions::sessions_page, (status, listed), r),
    ensures
        r == SessionsPage::Connecting <==> status is None,
        r == SessionsPage::UnsupportedBuild <==> status is Some
            && !status->0.closed_loop_build_supported,
        r == SessionsPage::Loading <==> status is Some && status->0.closed_loop_build_supported
            && listed is None,
        r == SessionsPage::List <==> status is Some && status->0.closed_loop_build_supported
            && listed is Some && listed->0 > 0,
        r is NoSessions <==> status is Some && status->0.closed_loop_build_supported && listed
            == Some(0usize),
        r is NoSessions ==> r->enabled == status->0.policy.closed_loop_enabled,
{
}

/// The list is fetched while it is missing and no fetch is under way; a click
/// opens the clicked session unless it is open.
pub proof fn sessions_are_fetched_when_needed(
    page: SessionsPage,
    pending: bool,
    by_itself: Option<SessionsAction>,
    entry: &SessionListEntry,
    selected: Option<&String>,
    clicked: Option<SessionsAction>,
)
    requires
        call_ensures(sessions::page_action, (page, pending), by_itself),
        call_ensures(sessions::click_entry, (entry, selected), clicked),
    ensures
        by_itself is Some <==> page == SessionsPage::Loading && !pending,
        by_itself is Some ==> by_itself->0 is RefreshList,
        clicked is None <==> selected is Some && selected->0@ == entry.session_id@,
        clicked is Some ==> clicked->0 is OpenDetail && clicked->0->OpenDetail_0@
            == entry.session_id@,
{
}

/// Only fetching the list and opening a session reach the service, each as what
/// it is.
pub proof fn session_actions_are_requested(action: SessionsAction, r: Option<Request>)
    requires
        call_ensures(sessions::action_request, (action,), r),
    ensures
        action is RefreshList ==> r == Some(Request::ListSessions),
        action is OpenDetail ==> r is Some && r->0 is ReadSession && r->0->session_id
            == action->OpenDetail_0,
        action is OpenClosedLoopOptIn ==> r is None,
{
}

/// Praise is for a clear improvement alone, a warning for every regression, and
/// only the clear answers are set in bold.
pub proof fn answers_are_toned_honestly(band: DeltaBand, tone: Tone, strong: bool)
    requires
        call_ensures(sessions::band_tone, (band,), tone),
        call_ensures(sessions::band_is_strong, (band,), strong),
    ensures
        tone == Tone::Success <==> band == DeltaBand::Improved,
        tone == Tone::Warning <==> band == DeltaBand::Degraded || band
            == DeltaBand::SlightRegression,
        tone == Tone::Success || tone == Tone::Warning || tone == Tone::TextMuted,
        strong <==> band == DeltaBand::Degraded || band == DeltaBand::Improved,
{
}

// ── Texts ───────────────────────────────────────────────────────────────────

/// The stored bytes are those of every session together.
pub proof fn stored_bytes_add_up(a: Seq<SessionListEntry>, b: Seq<SessionListEntry>)
    ensures
        sessions::stored_bytes(a + b) == sessions::stored_bytes(a) + sessions::stored_bytes(b),
        a.len() == 1 ==> sessions::stored_bytes(a) == a[0].file_bytes,
    decreases b.len(),
{
    if b.len() == 0 {
        assert(a + b =~= a);
    } else {
        stored_bytes_add_up(a, b.drop_last());
        assert((a + b).drop_last() =~= a + b.drop_last());
    }
    if a.len() == 1 {
        assert(a.drop_last() =~= Seq::empty());
        assert(sessions::stored_bytes(a.drop_last()) == 0);
    }
}

/// The line of a session tells its game, its profile, and its minutes and
/// seconds, which together are its duration; the seconds stay below a minute
/// and take two digits.
pub proof fn durations_are_minutes_and_seconds(secs: u64)
    ensures
        exists|m: Seq<char>, s: Seq<char>|
            sessions::duration_text(Some(secs)) == #[trigger] (m + "m"@ + s + "s"@) && s.len() == 2
                && text_laws::value_of(m, 10) * 60 + text_laws::value_of(s, 10) == secs
                && text_laws::value_of(s, 10) < 60,
{
    let m = text::decimal(secs as nat / 60);
    let low = text::decimal(secs as nat % 60);
    let s = text::zero_padded(low, 2);
    text_laws::numerals_count_for_their_number(secs as nat / 60, 10);
    text_laws::numerals_count_for_their_number(secs as nat % 60, 10);
    text_laws::padding_puts_zeros_in_front(low, 2);
    lemma_short_decimal(secs as nat % 60);
    lemma_padded_value(low);
    assert(sessions::duration_text(Some(secs)) == m + "m"@ + s + "s"@);
}

proof fn lemma_short_decimal(n: nat)
    requires
        n < 60,
    ensures
        1 <= text::decimal(n).len() <= 2,
{
    if n >= 10 {
        assert(text::numeral(n / 10, 10).len() == 1);
    }
}

proof fn lemma_padded_value(digits: Seq<char>)
    requires
        1 <= digits.len() <= 2,
    ensures
        text_laws::value_of(text::zero_padded(digits, 2), 10) == text_laws::value_of(
            digits,
            10,
        ),
{
    if digits.len() == 1 {
        let padded = seq!['0'] + digits;
        reveal_with_fuel(text::zero_padded, 2);
        reveal_with_fuel(text_laws::value_of, 3);
        assert(text::zero_padded(digits, 2) == padded);
        assert(padded.drop_last() =~= seq!['0']);
        assert(padded.last() == digits.last());
        assert(seq!['0'].drop_last() =~= Seq::<char>::empty());
        assert(digits.drop_last() =~= Seq::<char>::empty());
        assert(text_laws::value_of(seq!['0'], 10) == 0);
        assert(text_laws::value_of(digits.drop_last(), 10) == 0);
    }
}

/// Stripping a headline takes its pairs of asterisks out and leaves the words
/// between them as they are, in order.
pub proof fn stripping_keeps_the_words(words: Seq<char>, rest: Seq<char>)
    requires
        !words.contains('*'),
    ensures
        sessions::unmarked("**"@ + words + "**"@ + rest) == words + sessions::unmarked(rest),
        sessions::unmarked(words) == words,
{
    reveal_strlit("**");
    let tail = "**"@ + rest;
    let all = "**"@ + words + "**"@ + rest;
    assert(all[0] == '*' && all[1] == '*');
    assert(all.skip(2) =~= words + tail);
    assert(tail.skip(2) =~= rest);
    assert(tail[0] == '*' && tail[1] == '*');
    lemma_unmarked_words(words, tail);
    lemma_unmarked_words(words, Seq::empty());
    assert(words + Seq::empty() =~= words);
    assert(words + sessions::unmarked(Seq::empty()) =~= words);
}

proof fn lemma_unmarked_words(words: Seq<char>, rest: Seq<char>)
    requires
        !words.contains('*'),
    ensures
        sessions::unmarked(words + rest) == words + sessions::unmarked(rest),
    decreases words.len(),
{
    if words.len() == 0 {
        assert(words + rest =~= rest);
        assert(words + sessions::unmarked(rest) =~= sessions::unmarked(rest));
    } else {
        let all = words + rest;
        let shorter = words.skip(1);
        assert(words.contains(words[0]));
        assert(all[0] == words[0]);
        if shorter.contains('*') {
            let k = shorter.index_of('*');
            assert(words[k + 1] == '*');
        }
        lemma_unmarked_words(shorter, rest);
        assert(all.skip(1) =~= shorter + rest);
        assert(seq![words[0]] + (shorter + sessions::unmarked(rest)) =~= words
            + sessions::unmarked(rest));
    }
}

/// The line above the list counts the sessions and rounds their bytes to whole
/// mebibytes; it is missing only where the bytes cannot be told.
pub proof fn the_storage_line_counts(
    list: &[SessionListEntry],
    r: Option<String>,
    bytes: u64,
    mebibytes: u64,
)
    requires
        call_ensures(sessions::storage_line, (list,), r),
        bytes == sessions::stored_bytes(list@),
        call_ensures(formatters::round_to_mib, (bytes,), mebibytes),
    ensures
        r is Some,
        list@.len() == 1 ==> r->0@ == "📁 "@ + text::decimal(1) + " session"@ + Seq::empty()
            + " stored · "@ + text::decimal(mebibytes as nat) + " MB · cap 1 GB"@,
        list@.len() != 1 ==> r->0@ == "📁 "@ + text::decimal(list@.len()) + " session"@ + "s"@
            + " stored · "@ + text::decimal(mebibytes as nat) + " MB · cap 1 GB"@,
{
}

/// The line of a session names game, profile and duration, and says when data
/// is missing; a session without an end is in progress or crashed.
pub proof fn session_lines_name_game_and_profile(e: &SessionListEntry, r: String)
    requires
        call_ensures(sessions::entry_line, (e,), r),
    ensures
        ({
            let length = match e.duration_secs {
                Some(s) => sessions::duration_text(Some(s)),
                None => "in progress / crashed"@,
            };
            let line = "🎮 "@ + e.game_exe@ + " · "@ + e.profile_id@ + " · "@ + length;
            &&& e.partial_data ==> r@ == line + "  ⚠ partial data"@
            &&& !e.partial_data ==> r@ == line
        }),
{
    let line = "🎮 "@ + e.game_exe@ + " · "@ + e.profile_id@ + " · "@ + sessions::duration_text(
        e.duration_secs,
    );
    assert(line + Seq::<char>::empty() =~= line);
}

/// Below the list stands whether a session is being fetched or one can be
/// chosen.
pub proof fn the_hint_tells_of_fetching(fetching: &'static str, idle: &'static str)
    requires
        call_ensures(sessions::detail_hint, (true,), fetching),
        call_ensures(sessions::detail_hint, (false,), idle),
    ensures
        fetching@ == "Loading session…"@,
        idle@ == "Select a session to see the \"Did it help?\" attribution."@,
{
}

/// How many events satisfy something.
pub open spec fn number_of(
    events: Seq<SessionEvent>,
    counts: spec_fn(SessionEvent) -> bool,
) -> nat
    decreases events.len(),
{
    if events.len() == 0 {
        0
    } else {
        number_of(events.drop_last(), counts) + if counts(events.last()) {
            1nat
        } else {
            0nat
        }
    }
}

proof fn lemma_number_of(events: Seq<SessionEvent>, counts: spec_fn(SessionEvent) -> bool)
    ensures
        events.filter(counts).len() == number_of(events, counts),
    decreases events.len(),
{
    reveal(Seq::filter);
    if events.len() > 0 {
        lemma_number_of(events.drop_last(), counts);
    }
}

/// The summary counts all events, the frame samples and the actions, and the
/// lines that could not be read where there are any.
pub proof fn the_summary_counts_events(detail: &SessionDetailState, r: String)
    requires
        call_ensures(SessionDetailState::summary, (detail,), r),
    ensures
        ({
            let line = text::decimal(detail.events@.len()) + " events · "@ + text::decimal(
                number_of(detail.events@, |e: SessionEvent| e is FrameSample),
            ) + " frame samples · "@ + text::decimal(
                number_of(detail.events@, |e: SessionEvent| e is FramesageAction),
            ) + " actions"@;
            &&& detail.skipped_lines == 0 ==> r@ == line
            &&& detail.skipped_lines > 0 ==> r@ == line + (" · "@ + text::decimal(
                detail.skipped_lines as nat,
            ) + " malformed lines skipped"@)
        }),
{
    lemma_number_of(detail.events@, |e: SessionEvent| e is FrameSample);
    lemma_number_of(detail.events@, |e: SessionEvent| e is FramesageAction);
    let line = text::decimal(detail.events@.len()) + " events · "@ + text::decimal(
        number_of(detail.events@, |e: SessionEvent| e is FrameSample),
    ) + " frame samples · "@ + text::decimal(
        number_of(detail.events@, |e: SessionEvent| e is FramesageAction),
    ) + " actions"@;
    assert(line + Seq::<char>::empty() =~= line);
}

/// The spans are told in whole seconds, the baseline first.
pub proof fn spans_are_told_in_seconds(
    baseline: (u64, u64),
    with_rules: (u64, u64),
    r: String,
    a: nat,
    b: nat,
    c: nat,
    d: nat,
)
    requires
        call_ensures(sessions::windows_line, (baseline, with_rules), r),
        a * 1000 <= baseline.0 < a * 1000 + 1000,
        b * 1000 <= baseline.1 < b * 1000 + 1000,
        c * 1000 <= with_rules.0 < c * 1000 + 1000,
        d * 1000 <= with_rules.1 < d * 1000 + 1000,
    ensures
        r@ == "baseline "@ + text::decimal(a) + "s–"@ + text::decimal(b) + "s · with rules "@
            + text::decimal(c) + "s–"@ + text::decimal(d) + "s"@,
{
}

} // verus!
