//! State that the background threads and the window share, and the tallies
//! that the Status tab draws from it.

use std::collections::{HashMap, VecDeque};
use vstd::prelude::*;

use crate::ipc::{ProcessSnapshot, StatusSnapshot, SystemMetrics};
use crate::text;
use crate::theme::Tone;

verus! {

/// A moment of wall-clock time: whole seconds since the Unix epoch and the
/// nanoseconds past them.
#[derive(Debug, Clone, Copy, PartialEq, Eq, PartialOrd, Ord, Structural)]
pub struct Timestamp {
    pub secs: i64,
    pub nanos: u32,
}

impl Timestamp {
    /// Whether this moment lies before another.
    pub open spec fn before(self, other: Timestamp) -> bool {
        self.secs < other.secs || (self.secs == other.secs && self.nanos < other.nanos)
    }

    pub fn is_before(self, other: Timestamp) -> (r: bool)
        ensures
            r == self.before(other),
    {
        self.secs < other.secs || (self.secs == other.secs && self.nanos < other.nanos)
    }

    /// The moment `span` seconds earlier, or this one where that cannot be
    /// said.
    pub open spec fn minus_secs(self, span: int) -> Timestamp {
        if self.secs - span >= i64::MIN {
            Timestamp { secs: (self.secs - span) as i64, nanos: self.nanos }
        } else {
            self
        }
    }
}

/// Samples kept of the machine's load and of each process's.
pub const SYSTEM_HISTORY_LEN: usize = 60;

/// Seconds that the session tallies look back.
pub const STATS_WINDOW_SECS: i64 = 86_400;

/// Coarse category of an engine event.
#[derive(Debug, Clone, Copy, PartialEq, Eq, Hash, Structural)]
pub enum EventKind {
    Foreground,
    Engine,
    ProBalanceRestrained,
    ProBalanceRestored,
    /// Anything that has no category of its own.
    Other,
}

/// The label of a category in the window.
pub open spec fn display_text(kind: EventKind) -> Seq<char> {
    match kind {
        EventKind::Foreground => "Foreground"@,
        EventKind::Engine => "Engine"@,
        EventKind::ProBalanceRestrained => "ProBalance demote"@,
        EventKind::ProBalanceRestored => "ProBalance restore"@,
        EventKind::Other => "Other"@,
    }
}

/// The name of a category on disk.
pub open spec fn tag_text(kind: EventKind) -> Seq<char> {
    match kind {
        EventKind::Foreground => "foreground"@,
        EventKind::Engine => "engine"@,
        EventKind::ProBalanceRestrained => "probalance_restrained"@,
        EventKind::ProBalanceRestored => "probalance_restored"@,
        EventKind::Other => "other"@,
    }
}

/// The category that a name on disk stands for.
pub open spec fn kind_of_tag(tag: Seq<char>) -> EventKind {
    if tag == "foreground"@ {
        EventKind::Foreground
    } else if tag == "engine"@ {
        EventKind::Engine
    } else if tag == "probalance_restrained"@ {
        EventKind::ProBalanceRestrained
    } else if tag == "probalance_restored"@ {
        EventKind::ProBalanceRestored
    } else {
        EventKind::Other
    }
}

impl EventKind {
    /// The label of this category in the window.
    pub fn display(self) -> (r: &'static str)
        ensures
            r@ == display_text(self),
    {
        match self {
            EventKind::Foreground => "Foreground",
            EventKind::Engine => "Engine",
            EventKind::ProBalanceRestrained => "ProBalance demote",
            EventKind::ProBalanceRestored => "ProBalance restore",
            EventKind::Other => "Other",
        }
    }

    /// The name of this category on disk.
    pub fn persist_tag(self) -> (r: &'static str)
        ensures
            r@ == tag_text(self),
    {
        match self {
            EventKind::Foreground => "foreground",
            EventKind::Engine => "engine",
            EventKind::ProBalanceRestrained => "probalance_restrained",
            EventKind::ProBalanceRestored => "probalance_restored",
            EventKind::Other => "other",
        }
    }

    /// The category that a name on disk stands for; unknown names are `Other`.
    pub fn from_persist_tag(tag: &str) -> (r: EventKind)
        ensures
            r == kind_of_tag(tag@),
    {
        if text::same_text(tag, "foreground") {
            EventKind::Foreground
        } else if text::same_text(tag, "engine") {
            EventKind::Engine
        } else if text::same_text(tag, "probalance_restrained") {
            EventKind::ProBalanceRestrained
        } else if text::same_text(tag, "probalance_restored") {
            EventKind::ProBalanceRestored
        } else {
            EventKind::Other
        }
    }

    /// The tone that this category is shown in.
    pub fn color(self) -> (r: Tone)
        ensures
            r == (match self {
                EventKind::Foreground => Tone::Accent,
                EventKind::Engine => Tone::TextMuted,
                EventKind::ProBalanceRestrained => Tone::Warning,
                EventKind::ProBalanceRestored => Tone::Success,
                EventKind::Other => Tone::Text,
            }),
    {
        match self {
            EventKind::Foreground => Tone::Accent,
            EventKind::Engine => Tone::TextMuted,
            EventKind::ProBalanceRestrained => Tone::Warning,
            EventKind::ProBalanceRestored => Tone::Success,
            EventKind::Other => Tone::Text,
        }
    }
}

/// Reading back the name of a category gives the category.
pub proof fn persist_tag_round_trips(kind: EventKind)
    ensures
        kind_of_tag(tag_text(kind)) == kind,
{
    reveal_strlit("foreground");
    reveal_strlit("engine");
    reveal_strlit("probalance_restrained");
    reveal_strlit("probalance_restored");
    reveal_strlit("other");
    assert("foreground"@.len() == 10);
    assert("engine"@.len() == 6);
    assert("probalance_restrained"@.len() == 21);
    assert("probalance_restored"@.len() == 19);
    assert("other"@.len() == 5);
}

/// A name that no category has is read as `Other`, not dropped.
pub proof fn unknown_tags_become_other(tag: Seq<char>)
    requires
        forall|kind: EventKind| #[trigger] tag_text(kind) != tag,
    ensures
        kind_of_tag(tag) == EventKind::Other,
{
    assert(tag_text(EventKind::Foreground) != tag);
    assert(tag_text(EventKind::Engine) != tag);
    assert(tag_text(EventKind::ProBalanceRestrained) != tag);
    assert(tag_text(EventKind::ProBalanceRestored) != tag);
}

/// One row of the activity buffer.
#[derive(Debug, PartialEq, Eq)]
pub struct RecentEvent {
    pub at: Timestamp,
    pub kind: EventKind,
    pub label: String,
}

impl Clone for RecentEvent {
    fn clone(&self) -> (r: Self)
        ensures
            r == *self,
    {
        RecentEvent { at: self.at, kind: self.kind, label: self.label.clone() }
    }
}

/// What the engine did lately.
#[derive(Debug, Clone, Copy, PartialEq, Eq, Structural)]
pub struct SessionStats {
    pub profiles_applied: u32,
    pub probalance_demotions: u32,
    pub probalance_restores: u32,
    pub game_mode_sessions: u32,
}

impl Default for SessionStats {
    fn default() -> (r: Self)
        ensures
            r == (SessionStats {
                profiles_applied: 0,
                probalance_demotions: 0,
                probalance_restores: 0,
                game_mode_sessions: 0,
            }),
    {
        SessionStats {
            profiles_applied: 0,
            probalance_demotions: 0,
            probalance_restores: 0,
            game_mode_sessions: 0,
        }
    }
}

/// How many events satisfy `counts`.
pub open spec fn tally(recent: Seq<RecentEvent>, counts: spec_fn(RecentEvent) -> bool) -> nat
    decreases recent.len(),
{
    if recent.len() == 0 {
        0
    } else {
        tally(recent.drop_last(), counts) + if counts(recent.last()) {
            1nat
        } else {
            0nat
        }
    }
}

/// Whether an event lies within the tally window that ends at `now`.
pub open spec fn is_recent(e: RecentEvent, now: Timestamp) -> bool {
    !e.at.before(now.minus_secs(STATS_WINDOW_SECS as int))
}

/// Whether an event tells of a Game Mode session beginning. Such events come
/// as engine events, known by how their label begins.
pub open spec fn is_session_start(e: RecentEvent) -> bool {
    (e.kind == EventKind::Engine || e.kind == EventKind::Other) && text::begins_with(
        e.label@,
        "Game Mode entered"@,
    )
}

pub open spec fn counts_kind(kind: EventKind, now: Timestamp) -> spec_fn(RecentEvent) -> bool {
    |e: RecentEvent| is_recent(e, now) && e.kind == kind
}

pub open spec fn counts_session(now: Timestamp) -> spec_fn(RecentEvent) -> bool {
    |e: RecentEvent| is_recent(e, now) && is_session_start(e)
}

proof fn lemma_tally_bound(recent: Seq<RecentEvent>, counts: spec_fn(RecentEvent) -> bool)
    ensures
        tally(recent, counts) <= recent.len(),
    decreases recent.len(),
{
    if recent.len() > 0 {
        lemma_tally_bound(recent.drop_last(), counts);
    }
}

impl SessionStats {
    /// Tallies the events of the day before `now`.
    pub fn from_recent(recent: &[RecentEvent], now: Timestamp) -> (r: SessionStats)
        requires
            recent@.len() <= u32::MAX,
        ensures
            r.profiles_applied == tally(recent@, counts_kind(EventKind::Foreground, now)),
            r.probalance_demotions == tally(
                recent@,
                counts_kind(EventKind::ProBalanceRestrained, now),
            ),
            r.probalance_restores == tally(
                recent@,
                counts_kind(EventKind::ProBalanceRestored, now),
            ),
            r.game_mode_sessions == tally(recent@, counts_session(now)),
    {
        let cutoff = match now.secs.checked_sub(STATS_WINDOW_SECS) {
            Some(secs) => Timestamp { secs, nanos: now.nanos },
            None => now,
        };
        let mut out = SessionStats::default();
        for i in 0..recent.len()
            invariant
                recent@.len() <= u32::MAX,
                cutoff == now.minus_secs(STATS_WINDOW_SECS as int),
                out.profiles_applied == tally(
                    recent@.take(i as int),
                    counts_kind(EventKind::Foreground, now),
                ),
                out.probalance_demotions == tally(
                    recent@.take(i as int),
                    counts_kind(EventKind::ProBalanceRestrained, now),
                ),
                out.probalance_restores == tally(
                    recent@.take(i as int),
                    counts_kind(EventKind::ProBalanceRestored, now),
                ),
                out.game_mode_sessions == tally(recent@.take(i as int), counts_session(now)),
        {
            let ev = &recent[i];
            proof {
                let seen = recent@.take(i as int);
                assert(recent@.take(i + 1).drop_last() =~= seen);
                lemma_tally_bound(seen, counts_kind(EventKind::Foreground, now));
                lemma_tally_bound(seen, counts_kind(EventKind::ProBalanceRestrained, now));
                lemma_tally_bound(seen, counts_kind(EventKind::ProBalanceRestored, now));
                lemma_tally_bound(seen, counts_session(now));
            }
            if !ev.at.is_before(cutoff) {
                match ev.kind {
                    EventKind::Foreground => {
                        out.profiles_applied = out.profiles_applied + 1;
                    },
                    EventKind::ProBalanceRestrained => {
                        out.probalance_demotions = out.probalance_demotions + 1;
                    },
                    EventKind::ProBalanceRestored => {
                        out.probalance_restores = out.probalance_restores + 1;
                    },
                    EventKind::Engine | EventKind::Other => {
                        if text::starts_with_text(ev.label.as_str(), "Game Mode entered") {
                            out.game_mode_sessions = out.game_mode_sessions + 1;
                        }
                    },
                }
            }
        }
        assert(recent@.take(recent@.len() as int) =~= recent@);
        out
    }
}

/// An event from before the window changes no tally.
pub proof fn old_events_do_not_count(recent: Seq<RecentEvent>, e: RecentEvent, now: Timestamp)
    requires
        !is_recent(e, now),
    ensures
        forall|kind: EventKind| #[trigger]
            tally(recent.push(e), counts_kind(kind, now)) == tally(recent, counts_kind(kind, now)),
        tally(recent.push(e), counts_session(now)) == tally(recent, counts_session(now)),
{
    assert(recent.push(e).drop_last() =~= recent);
}

proof fn lemma_tally_joins(
    earlier: Seq<RecentEvent>,
    later: Seq<RecentEvent>,
    counts: spec_fn(RecentEvent) -> bool,
)
    ensures
        tally(earlier + later, counts) == tally(earlier, counts) + tally(later, counts),
    decreases later.len(),
{
    if later.len() == 0 {
        assert(earlier + later =~= earlier);
    } else {
        lemma_tally_joins(earlier, later.drop_last(), counts);
        assert((earlier + later).drop_last() =~= earlier + later.drop_last());
    }
}

/// The tallies of two lists of events, joined, are the sums of their tallies.
pub proof fn tallies_add_up(earlier: Seq<RecentEvent>, later: Seq<RecentEvent>, now: Timestamp)
    ensures
        forall|kind: EventKind| #[trigger]
            tally(earlier + later, counts_kind(kind, now)) == tally(earlier, counts_kind(kind, now))
                + tally(later, counts_kind(kind, now)),
        tally(earlier + later, counts_session(now)) == tally(earlier, counts_session(now)) + tally(
            later,
            counts_session(now),
        ),
{
    assert forall|kind: EventKind| #[trigger]
        tally(earlier + later, counts_kind(kind, now)) == tally(earlier, counts_kind(kind, now))
            + tally(later, counts_kind(kind, now)) by {
        lemma_tally_joins(earlier, later, counts_kind(kind, now));
    }
    lemma_tally_joins(earlier, later, counts_session(now));
}

/// What the background threads leave for the window.
#[derive(Debug)]
pub struct AppState {
    pub connected: bool,
    pub last_error: Option<String>,
    pub status: Option<StatusSnapshot>,
    /// Newest event last.
    pub recent: Vec<RecentEvent>,
    pub processes: Vec<ProcessSnapshot>,
    pub system: SystemMetrics,
    /// CPU and memory percentages, newest last.
    pub system_history: VecDeque<(u8, u8)>,
    /// CPU percentages by pid, newest last.
    pub per_pid_cpu_history: HashMap<u32, VecDeque<u8>>,
}

impl Default for AppState {
    fn default() -> (r: Self)
        ensures
            !r.connected,
            r.last_error is None,
            r.status is None,
            r.recent@ == Seq::<RecentEvent>::empty(),
            r.processes@ == Seq::<ProcessSnapshot>::empty(),
            r.system.per_core_cpu_percent@.len() == 0,
            r.system.cpu_percent == 0,
            r.system.memory_used_bytes == 0,
            r.system.memory_total_bytes == 0,
            r.system_history@ == Seq::<(u8, u8)>::empty(),
            r.per_pid_cpu_history@ == Map::<u32, VecDeque<u8>>::empty(),
    {
        AppState {
            connected: false,
            last_error: None,
            status: None,
            recent: Vec::new(),
            processes: Vec::new(),
            system: SystemMetrics::default(),
            system_history: VecDeque::new(),
            per_pid_cpu_history: HashMap::new(),
        }
    }
}

} // verus!
