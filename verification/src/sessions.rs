//! The Sessions tab: what it shows while nothing can be shown, the list of
//! recorded sessions, and the parts of one session that the charts draw.

use vstd::prelude::*;

use crate::formatters;
use crate::ipc::{Request, StatusSnapshot};
use crate::text;
use crate::theme::Tone;

verus! {

// ── Texts ───────────────────────────────────────────────────────────────────

/// Heading where the Windows build cannot measure sessions.
pub const UNSUPPORTED_BUILD_HEADING: &'static str =
    "Closed-loop measurement requires Windows 11 24H2 or later.";

/// What still works on such a build.
pub const UNSUPPORTED_BUILD_BODY: &'static str =
    "FrameSage is running in static-rule mode — rules still fire, but FrameSage can't measure whether they helped on this Windows build. To enable session recording and the \"Did it help?\" attribution UI, upgrade to Windows 11 24H2 (build 26100) or later.";

/// What the tab will show once there is a session.
pub const NO_SESSIONS_BODY: &'static str =
    "FrameSage measures whether its rules actually helped your games. After your first 90-second gaming session, this tab will show frame-time and CPU history per session, which profile FrameSage applied and when, and the honest answer to \"Did 1% lows improve?\" — including when they didn't.";

/// Why older builds are left out.
pub const WHY_REQUIREMENT_BODY: &'static str =
    "ETW kernel-event schemas are stable on builds we've empirically validated, and v0.7 ships with empirical validation only on Win11 24H2. Older builds may or may not work, and v0.7 won't claim measurement results it can't substantiate.";

/// Where recorded data stays.
pub const NO_SESSIONS_PRIVACY_FOOTER: &'static str =
    "Once enabled, just play. Sessions record automatically when a rule fires. Recorded data is local-only — nothing leaves your machine.";

// ── Which page ──────────────────────────────────────────────────────────────

/// What the tab asks for.
#[derive(Debug, PartialEq, Eq)]
pub enum SessionsAction {
    /// Fetch the list of sessions.
    RefreshList,
    /// Fetch one session.
    OpenDetail(String),
    /// Show the opt-in with its disclosure.
    OpenClosedLoopOptIn,
}

/// What the tab shows.
#[derive(Debug, Clone, Copy, PartialEq, Eq, Structural)]
pub enum SessionsPage {
    /// No status yet, so nothing is known about the build.
    Connecting,
    UnsupportedBuild,
    Loading,
    /// Nothing recorded; says whether recording is on.
    NoSessions { enabled: bool },
    List,
}

/// The page for a status and the number of listed sessions.
pub open spec fn page_for(status: Option<&StatusSnapshot>, sessions: Option<nat>) -> SessionsPage {
    match status {
        None => SessionsPage::Connecting,
        Some(s) => if !s.closed_loop_build_supported {
            SessionsPage::UnsupportedBuild
        } else {
            match sessions {
                None => SessionsPage::Loading,
                Some(n) => if n == 0 {
                    SessionsPage::NoSessions { enabled: s.policy.closed_loop_enabled }
                } else {
                    SessionsPage::List
                },
            }
        },
    }
}

/// Picks the page. `sessions` is the number of listed sessions, `None` before
/// the list was fetched.
pub fn sessions_page(status: Option<&StatusSnapshot>, sessions: Option<usize>) -> (r: SessionsPage)
    ensures
        r == page_for(
            status,
            match sessions {
                Some(n) => Some(n as nat),
                None => None,
            },
        ),
{
    match status {
        None => SessionsPage::Connecting,
        Some(s) => if !s.closed_loop_build_supported {
            SessionsPage::UnsupportedBuild
        } else {
            match sessions {
                None => SessionsPage::Loading,
                Some(n) => if n == 0 {
                    SessionsPage::NoSessions { enabled: s.policy.closed_loop_enabled }
                } else {
                    SessionsPage::List
                },
            }
        },
    }
}

/// What a page asks for by itself: the list is fetched once, not while a fetch
/// is under way.
pub fn page_action(page: SessionsPage, fetch_pending: bool) -> (r: Option<SessionsAction>)
    ensures
        r == (if page == SessionsPage::Loading && !fetch_pending {
            Some(SessionsAction::RefreshList)
        } else {
            None
        }),
{
    if page == SessionsPage::Loading && !fetch_pending {
        Some(SessionsAction::RefreshList)
    } else {
        None
    }
}

/// The request behind an action; the opt-in needs none.
pub fn action_request(action: SessionsAction) -> (r: Option<Request>)
    ensures
        r == (match action {
            SessionsAction::RefreshList => Some(Request::ListSessions),
            SessionsAction::OpenDetail(id) => Some(Request::ReadSession { session_id: id }),
            SessionsAction::OpenClosedLoopOptIn => None,
        }),
{
    match action {
        SessionsAction::RefreshList => Some(Request::ListSessions),
        SessionsAction::OpenDetail(id) => Some(Request::ReadSession { session_id: id }),
        SessionsAction::OpenClosedLoopOptIn => None,
    }
}

/// A build that cannot measure never promises sessions: the tab says so, or
/// that it is still connecting, whatever was recorded or switched on.
pub proof fn unsupported_builds_are_never_promised_sessions(
    status: Option<&StatusSnapshot>,
    sessions: Option<nat>,
)
    requires
        status is Some ==> !status->0.closed_loop_build_supported,
    ensures
        page_for(status, sessions) == SessionsPage::UnsupportedBuild || page_for(status, sessions)
            == SessionsPage::Connecting,
{
}

// ── The list ────────────────────────────────────────────────────────────────

/// One recorded session.
#[derive(Debug, PartialEq, Eq)]
pub struct SessionListEntry {
    pub session_id: String,
    pub game_exe: String,
    pub profile_id: String,
    /// `None` while it runs, or after a crash.
    pub duration_secs: Option<u64>,
    pub partial_data: bool,
    pub file_bytes: u64,
}

/// Sum of the file sizes.
pub open spec fn stored_bytes(list: Seq<SessionListEntry>) -> nat
    decreases list.len(),
{
    if list.len() == 0 {
        0
    } else {
        stored_bytes(list.drop_last()) + list.last().file_bytes as nat
    }
}

/// The line above the list.
pub open spec fn storage_text(count: nat, bytes: nat) -> Seq<char> {
    "📁 "@ + text::decimal(count) + " session"@ + (if count == 1 {
        Seq::empty()
    } else {
        "s"@
    }) + " stored · "@ + text::decimal(formatters::whole_mib(bytes) as nat) + " MB · cap 1 GB"@
}

proof fn lemma_stored_bytes_grow(list: Seq<SessionListEntry>, n: int)
    requires
        0 <= n <= list.len(),
    ensures
        stored_bytes(list.take(n)) <= stored_bytes(list),
    decreases list.len() - n,
{
    if n < list.len() {
        lemma_stored_bytes_grow(list, n + 1);
        assert(list.take(n + 1).drop_last() =~= list.take(n));
    } else {
        assert(list.take(n) =~= list);
    }
}

/// Writes the line above the list; `None` when the sizes do not add up in 64
/// bits.
pub fn storage_line(list: &[SessionListEntry]) -> (r: Option<String>)
    ensures
        r is Some == (stored_bytes(list@) <= u64::MAX),
        r is Some ==> r->0@ == storage_text(list@.len(), stored_bytes(list@)),
{
    let mut total: u64 = 0;
    assert(list@.take(0) =~= Seq::empty());
    for i in 0..list.len()
        invariant
            total == stored_bytes(list@.take(i as int)),
    {
        proof {
            assert(list@.take(i + 1).drop_last() =~= list@.take(i as int));
            lemma_stored_bytes_grow(list@, i + 1);
        }
        total = match total.checked_add(list[i].file_bytes) {
            Some(x) => x,
            None => { return None; },
        };
    }
    assert(list@.take(list@.len() as int) =~= list@);
    let mut out = "📁 ".to_owned();
    let count = text::format_decimal(list.len() as u64);
    out.append(count.as_str());
    out.append(" session");
    if list.len() != 1 {
        out.append("s");
    } else {
        assert(out@ =~= "📁 "@ + text::decimal(list@.len()) + " session"@ + Seq::empty());
    }
    out.append(" stored · ");
    let megabytes = text::format_decimal(formatters::round_to_mib(total));
    out.append(megabytes.as_str());
    out.append(" MB · cap 1 GB");
    Some(out)
}

/// How long a session ran.
pub open spec fn duration_text(secs: Option<u64>) -> Seq<char> {
    match secs {
        Some(s) => text::decimal(s as nat / 60) + "m"@ + text::zero_padded(
            text::decimal(s as nat % 60),
            2,
        ) + "s"@,
        None => "in progress / crashed"@,
    }
}

fn format_duration(secs: Option<u64>) -> (r: String)
    ensures
        r@ == duration_text(secs),
{
    match secs {
        Some(s) => {
            let mut out = text::format_decimal(s / 60);
            out.append("m");
            let seconds = text::pad_zeros(text::format_decimal(s % 60), 2);
            out.append(seconds.as_str());
            out.append("s");
            out
        },
        None => "in progress / crashed".to_owned(),
    }
}

/// The line of a session.
pub open spec fn entry_text(e: SessionListEntry) -> Seq<char> {
    "🎮 "@ + e.game_exe@ + " · "@ + e.profile_id@ + " · "@ + duration_text(e.duration_secs) + (
    if e.partial_data {
        "  ⚠ partial data"@
    } else {
        Seq::empty()
    })
}

/// Writes the line of a session.
pub fn entry_line(e: &SessionListEntry) -> (r: String)
    ensures
        r@ == entry_text(*e),
{
    let mut out = "🎮 ".to_owned();
    out.append(e.game_exe.as_str());
    out.append(" · ");
    out.append(e.profile_id.as_str());
    out.append(" · ");
    let duration = format_duration(e.duration_secs);
    out.append(duration.as_str());
    if e.partial_data {
        out.append("  ⚠ partial data");
    } else {
        assert(out@ =~= entry_text(*e));
    }
    out
}

/// A click on a session opens it, unless it is open.
pub fn click_entry(e: &SessionListEntry, selected: Option<&String>) -> (r: Option<SessionsAction>)
    ensures
        r == (if selected is Some && selected->0@ == e.session_id@ {
            None
        } else {
            Some(SessionsAction::OpenDetail(e.session_id))
        }),
{
    let open = match selected {
        Some(id) => text::same_text(id.as_str(), e.session_id.as_str()),
        None => false,
    };
    if open {
        None
    } else {
        Some(SessionsAction::OpenDetail(e.session_id.clone()))
    }
}

/// What stands below the list while no session is open.
pub fn detail_hint(fetch_pending: bool) -> (r: &'static str)
    ensures
        r@ == (if fetch_pending {
            "Loading session…"@
        } else {
            "Select a session to see the \"Did it help?\" attribution."@
        }),
{
    if fetch_pending {
        "Loading session…"
    } else {
        "Select a session to see the \"Did it help?\" attribution."
    }
}

// ── One session ─────────────────────────────────────────────────────────────

/// What was recorded at a moment of a session.
#[derive(Debug, PartialEq, Eq)]
pub enum SessionEvent {
    FrameSample { at_ms: u64, frame_time_us_p50: u32, frame_time_us_p99: u32 },
    CpuSample { at_ms: u64, per_core_pct: Vec<u8> },
    FramesageAction { at_ms: u64, action: String },
    /// Anything that no chart draws.
    Other,
}

/// The open session.
#[derive(Debug, PartialEq, Eq)]
pub struct SessionDetailState {
    pub session_id: String,
    pub events: Vec<SessionEvent>,
    /// Lines of the file that could not be read.
    pub skipped_lines: u64,
    pub show_partial_anyway: bool,
}

/// The line below the heading of a session.
pub open spec fn summary_text(events: Seq<SessionEvent>, skipped: nat) -> Seq<char> {
    text::decimal(events.len()) + " events · "@ + text::decimal(
        events.filter(|e: SessionEvent| e is FrameSample).len(),
    ) + " frame samples · "@ + text::decimal(
        events.filter(|e: SessionEvent| e is FramesageAction).len(),
    ) + " actions"@ + (if skipped > 0 {
        " · "@ + text::decimal(skipped) + " malformed lines skipped"@
    } else {
        Seq::empty()
    })
}

impl SessionDetailState {
    /// Writes the line below the heading.
    pub fn summary(&self) -> (r: String)
        ensures
            r@ == summary_text(self.events@, self.skipped_lines as nat),
    {
        let ghost is_frame = |e: SessionEvent| e is FrameSample;
        let ghost is_action = |e: SessionEvent| e is FramesageAction;
        let mut frames: usize = 0;
        let mut actions: usize = 0;
        let ghost all = self.events@;
        proof {
            reveal(Seq::filter);
            assert(all.take(0) =~= Seq::empty());
        }
        for i in 0..self.events.len()
            invariant
                all == self.events@,
                is_frame == |e: SessionEvent| e is FrameSample,
                is_action == |e: SessionEvent| e is FramesageAction,
                frames == all.take(i as int).filter(is_frame).len(),
                actions == all.take(i as int).filter(is_action).len(),
                frames <= i,
                actions <= i,
        {
            proof {
                reveal(Seq::filter);
                assert(all.take(i + 1).drop_last() =~= all.take(i as int));
            }
            match &self.events[i] {
                SessionEvent::FrameSample { .. } => {
                    frames = frames + 1;
                },
                SessionEvent::FramesageAction { .. } => {
                    actions = actions + 1;
                },
                _ => {},
            }
        }
        assert(all.take(all.len() as int) =~= all);
        let mut out = text::format_decimal(self.events.len() as u64);
        out.append(" events · ");
        let frame_count = text::format_decimal(frames as u64);
        out.append(frame_count.as_str());
        out.append(" frame samples · ");
        let action_count = text::format_decimal(actions as u64);
        out.append(action_count.as_str());
        out.append(" actions");
        if self.skipped_lines > 0 {
            let mut tail = " · ".to_owned();
            let skipped = text::format_decimal(self.skipped_lines);
            tail.append(skipped.as_str());
            tail.append(" malformed lines skipped");
            out.append(tail.as_str());
        } else {
            assert(out@ =~= summary_text(self.events@, 0));
        }
        out
    }
}

/// A point of the frame-time chart: moment, median and 99th percentile.
pub open spec fn frame_point(e: SessionEvent) -> Option<(u64, u32, u32)> {
    match e {
        SessionEvent::FrameSample { at_ms, frame_time_us_p50, frame_time_us_p99 } => Some(
            (at_ms, frame_time_us_p50, frame_time_us_p99),
        ),
        _ => None,
    }
}

/// The points of the frame-time chart, in order.
pub open spec fn frame_points(events: Seq<SessionEvent>) -> Seq<(u64, u32, u32)>
    decreases events.len(),
{
    if events.len() == 0 {
        Seq::empty()
    } else {
        let before = frame_points(events.drop_last());
        match frame_point(events.last()) {
            Some(p) => before.push(p),
            None => before,
        }
    }
}

/// Collects the points of the frame-time chart.
pub fn collect_frames(events: &[SessionEvent]) -> (r: Vec<(u64, u32, u32)>)
    ensures
        r@ == frame_points(events@),
{
    let mut out: Vec<(u64, u32, u32)> = Vec::new();
    assert(events@.take(0) =~= Seq::empty());
    for i in 0..events.len()
        invariant
            out@ == frame_points(events@.take(i as int)),
    {
        assert(events@.take(i + 1).drop_last() =~= events@.take(i as int));
        match &events[i] {
            SessionEvent::FrameSample { at_ms, frame_time_us_p50, frame_time_us_p99 } => {
                out.push((*at_ms, *frame_time_us_p50, *frame_time_us_p99));
            },
            _ => {},
        }
    }
    assert(events@.take(events@.len() as int) =~= events@);
    out
}

/// Whether an event is where the rules took hold.
pub open spec fn is_apply(e: SessionEvent) -> bool {
    match e {
        SessionEvent::FramesageAction { at_ms, action } => action@ == "apply_profile"@ || action@
            == "game_mode_entered"@,
        _ => false,
    }
}

/// The moment of an event where the rules took hold.
pub open spec fn apply_moment(e: SessionEvent) -> u64 {
    match e {
        SessionEvent::FramesageAction { at_ms, action } => at_ms,
        _ => 0,
    }
}

/// The moment at which the rules first took hold.
pub open spec fn first_apply(events: Seq<SessionEvent>) -> Option<u64>
    decreases events.len(),
{
    if events.len() == 0 {
        None
    } else if is_apply(events[0]) {
        Some(apply_moment(events[0]))
    } else {
        first_apply(events.drop_first())
    }
}

/// Finds the moment at which the rules first took hold.
pub fn find_apply(events: &[SessionEvent]) -> (r: Option<u64>)
    ensures
        r == first_apply(events@),
{
    assert(events@.skip(0) =~= events@);
    for i in 0..events.len()
        invariant
            first_apply(events@.skip(i as int)) == first_apply(events@),
    {
        let ghost rest = events@.skip(i as int);
        assert(rest.drop_first() =~= events@.skip(i + 1));
        assert(rest[0] == events@[i as int]);
        if let SessionEvent::FramesageAction { at_ms, action } = &events[i] {
            if text::same_text(action.as_str(), "apply_profile") || text::same_text(
                action.as_str(),
                "game_mode_entered",
            ) {
                return Some(*at_ms);
            }
        }
    }
    assert(events@.skip(events@.len() as int) =~= Seq::empty());
    None
}

/// Points that a chart needs at least.
pub const MIN_CHART_POINTS: usize = 2;

/// Where the marker of the chart stands: the first moment at which the rules
/// took hold, if the chart reaches it. The chart is drawn from two points on.
pub fn chart_marker(points: &[(u64, u32, u32)], apply: Option<u64>) -> (r: Option<u64>)
    ensures
        r == (if points@.len() >= MIN_CHART_POINTS && apply is Some && points@[0].0 <= apply->0
            && apply->0 <= points@.last().0 {
            apply
        } else {
            None
        }),
{
    if points.len() < MIN_CHART_POINTS {
        return None;
    }
    match apply {
        Some(t) => if points[0].0 <= t && t <= points[points.len() - 1].0 {
            Some(t)
        } else {
            None
        },
        None => None,
    }
}

/// The loads of an event that the heatmap draws: at least one core.
pub open spec fn core_loads(e: SessionEvent) -> Option<Seq<u8>> {
    match e {
        SessionEvent::CpuSample { at_ms, per_core_pct } => if per_core_pct@.len() > 0 {
            Some(per_core_pct@)
        } else {
            None
        },
        _ => None,
    }
}

/// The columns of the heatmap, in order.
pub open spec fn heat_columns(events: Seq<SessionEvent>) -> Seq<Seq<u8>>
    decreases events.len(),
{
    if events.len() == 0 {
        Seq::empty()
    } else {
        let before = heat_columns(events.drop_last());
        match core_loads(events.last()) {
            Some(c) => before.push(c),
            None => before,
        }
    }
}

/// The number of rows of the heatmap: the most cores of any column.
pub open spec fn heat_rows(columns: Seq<Seq<u8>>) -> nat
    decreases columns.len(),
{
    if columns.len() == 0 {
        0
    } else {
        let before = heat_rows(columns.drop_last());
        if columns.last().len() > before {
            columns.last().len()
        } else {
            before
        }
    }
}

/// A cell of the heatmap; a core that a column does not have is idle.
pub open spec fn heat_cell(column: Seq<u8>, core: nat) -> u8 {
    if core < column.len() {
        column[core as int]
    } else {
        0
    }
}

/// The heatmap by columns, all of the same height.
pub open spec fn heat_map(columns: Seq<Seq<u8>>) -> Seq<Seq<u8>> {
    columns.map_values(
        |c: Seq<u8>| Seq::new(heat_rows(columns), |core: int| heat_cell(c, core as nat)),
    )
}

/// The columns of a grid.
pub open spec fn grid(v: Seq<Vec<u8>>) -> Seq<Seq<u8>> {
    v.map_values(|c: Vec<u8>| c@)
}

fn copy_column(column: &Vec<u8>, rows: usize) -> (r: Vec<u8>)
    ensures
        r@ == Seq::new(rows as nat, |core: int| heat_cell(column@, core as nat)),
{
    let mut out: Vec<u8> = Vec::new();
    for core in 0..rows
        invariant
            out@.len() == core,
            forall|k: int| 0 <= k < core ==> (#[trigger] out@[k]) == heat_cell(column@, k as nat),
    {
        if core < column.len() {
            out.push(column[core]);
        } else {
            out.push(0);
        }
    }
    assert(out@ =~= Seq::new(rows as nat, |core: int| heat_cell(column@, core as nat)));
    out
}

/// Draws the heatmap up by columns; empty without a sample.
pub fn collect_heat(events: &[SessionEvent]) -> (r: Vec<Vec<u8>>)
    ensures
        grid(r@) == heat_map(heat_columns(events@)),
{
    let mut columns: Vec<Vec<u8>> = Vec::new();
    let mut rows: usize = 0;
    assert(events@.take(0) =~= Seq::empty());
    assert(grid(columns@) =~= heat_columns(events@.take(0)));
    for i in 0..events.len()
        invariant
            grid(columns@) == heat_columns(events@.take(i as int)),
            rows == heat_rows(heat_columns(events@.take(i as int))),
    {
        let ghost done = grid(columns@);
        assert(events@.take(i + 1).drop_last() =~= events@.take(i as int));
        if let SessionEvent::CpuSample { at_ms: _, per_core_pct } = &events[i] {
            if per_core_pct.len() > 0 {
                let copy = copy_column(per_core_pct, per_core_pct.len());
                assert(copy@ =~= per_core_pct@);
                columns.push(copy);
                assert(grid(columns@) =~= done.push(copy@));
                assert(done.push(copy@).drop_last() =~= done);
                if per_core_pct.len() > rows {
                    rows = per_core_pct.len();
                }
            }
        }
    }
    assert(events@.take(events@.len() as int) =~= events@);
    let ghost all = heat_columns(events@);
    let mut out: Vec<Vec<u8>> = Vec::new();
    for k in 0..columns.len()
        invariant
            all == grid(columns@),
            rows == heat_rows(all),
            out@.len() == k,
            forall|j: int| 0 <= j < k ==> (#[trigger] out@[j])@ == heat_map(all)[j],
    {
        let column = copy_column(&columns[k], rows);
        assert(columns@[k as int]@ == all[k as int]);
        assert(column@ == heat_map(all)[k as int]);
        out.push(column);
    }
    assert(grid(out@) =~= heat_map(all));
    out
}

/// Every sample fits the heatmap: no column has more cores than it has rows.
pub proof fn no_core_is_cut_off(columns: Seq<Seq<u8>>, k: int)
    requires
        0 <= k < columns.len(),
    ensures
        columns[k].len() <= heat_rows(columns),
    decreases columns.len(),
{
    if k < columns.len() - 1 {
        no_core_is_cut_off(columns.drop_last(), k);
    }
}

// ── Did it help? ────────────────────────────────────────────────────────────

/// How the frame times changed.
#[derive(Debug, Clone, Copy, PartialEq, Eq, Structural)]
pub enum DeltaBand {
    Improved,
    ModestImprovement,
    NoEffect,
    SlightRegression,
    Degraded,
}

/// The tone of an answer: praise only for a clear improvement, a warning for
/// any regression.
pub fn band_tone(band: DeltaBand) -> (r: Tone)
    ensures
        r == (match band {
            DeltaBand::Improved => Tone::Success,
            DeltaBand::ModestImprovement | DeltaBand::NoEffect => Tone::TextMuted,
            DeltaBand::SlightRegression | DeltaBand::Degraded => Tone::Warning,
        }),
{
    match band {
        DeltaBand::Improved => Tone::Success,
        DeltaBand::ModestImprovement | DeltaBand::NoEffect => Tone::TextMuted,
        DeltaBand::SlightRegression | DeltaBand::Degraded => Tone::Warning,
    }
}

/// Whether an answer is set in bold: the clear ones are.
pub fn band_is_strong(band: DeltaBand) -> (r: bool)
    ensures
        r == (band == DeltaBand::Degraded || band == DeltaBand::Improved),
{
    band == DeltaBand::Degraded || band == DeltaBand::Improved
}

/// A headline without its emphasis marks.
pub open spec fn unmarked(s: Seq<char>) -> Seq<char>
    decreases s.len(),
{
    if s.len() == 0 {
        Seq::empty()
    } else if s.len() >= 2 && s[0] == '*' && s[1] == '*' {
        unmarked(s.skip(2))
    } else {
        seq![s[0]] + unmarked(s.skip(1))
    }
}

/// Takes the emphasis marks out of a headline.
pub fn strip_marks(headline: &str) -> (r: String)
    ensures
        r@ == unmarked(headline@),
{
    let cs = text::to_chars(headline);
    let mut out: Vec<char> = Vec::new();
    let mut i: usize = 0;
    assert(cs@.skip(0) =~= cs@);
    while i < cs.len()
        invariant
            i <= cs@.len(),
            out@ + unmarked(cs@.skip(i as int)) == unmarked(cs@),
        decreases cs@.len() - i,
    {
        let ghost rest = cs@.skip(i as int);
        let ghost before = out@;
        if cs.len() - i >= 2 && cs[i] == '*' && cs[i + 1] == '*' {
            assert(rest.skip(2) =~= cs@.skip(i + 2));
            i = i + 2;
        } else {
            assert(rest.skip(1) =~= cs@.skip(i + 1));
            out.push(cs[i]);
            assert(out@ + unmarked(cs@.skip(i + 1)) =~= before + unmarked(rest));
            i = i + 1;
        }
    }
    assert(cs@.skip(cs@.len() as int) =~= Seq::empty());
    assert(out@ =~= unmarked(cs@));
    text::from_chars(out.as_slice())
}

/// The line about the spans of time that are held against each other.
pub open spec fn windows_text(baseline: (u64, u64), with_rules: (u64, u64)) -> Seq<char> {
    "baseline "@ + text::decimal(baseline.0 as nat / 1000) + "s–"@ + text::decimal(
        baseline.1 as nat / 1000,
    ) + "s · with rules "@ + text::decimal(with_rules.0 as nat / 1000) + "s–"@ + text::decimal(
        with_rules.1 as nat / 1000,
    ) + "s"@
}

/// Writes the line about the spans of time, which are given in milliseconds.
pub fn windows_line(baseline: (u64, u64), with_rules: (u64, u64)) -> (r: String)
    ensures
        r@ == windows_text(baseline, with_rules),
{
    let mut out = "baseline ".to_owned();
    let a = text::format_decimal(baseline.0 / 1000);
    out.append(a.as_str());
    out.append("s–");
    let b = text::format_decimal(baseline.1 / 1000);
    out.append(b.as_str());
    out.append("s · with rules ");
    let c = text::format_decimal(with_rules.0 / 1000);
    out.append(c.as_str());
    out.append("s–");
    let d = text::format_decimal(with_rules.1 / 1000);
    out.append(d.as_str());
    out.append("s");
    out
}

} // verus!
