//! The Activity tab: which events are listed, newest first.

use vstd::prelude::*;

use crate::state::{EventKind, RecentEvent};
use crate::text;

verus! {

/// State of the Activity tab.
#[derive(Debug, PartialEq, Eq)]
pub struct ActivityLogView {
    pub show_foreground: bool,
    pub show_engine: bool,
    pub show_probalance_restrain: bool,
    pub show_probalance_restore: bool,
    pub show_other: bool,
    /// Part of the label, in any case.
    pub filter: String,
}

impl Default for ActivityLogView {
    /// Everything is shown.
    fn default() -> (r: Self)
        ensures
            forall|kind: EventKind| #[trigger] r.wants(kind),
            r.filter@.len() == 0,
    {
        ActivityLogView {
            show_foreground: true,
            show_engine: true,
            show_probalance_restrain: true,
            show_probalance_restore: true,
            show_other: true,
            filter: String::new(),
        }
    }
}

impl ActivityLogView {
    /// Whether events of a category are shown.
    pub open spec fn wants(self, kind: EventKind) -> bool {
        match kind {
            EventKind::Foreground => self.show_foreground,
            EventKind::Engine => self.show_engine,
            EventKind::ProBalanceRestrained => self.show_probalance_restrain,
            EventKind::ProBalanceRestored => self.show_probalance_restore,
            EventKind::Other => self.show_other,
        }
    }

    /// Whether an event is shown.
    pub open spec fn lists(self, e: RecentEvent) -> bool {
        self.wants(e.kind) && text::occurs_in(text::lower(self.filter@), text::lower(e.label@))
    }

    /// Decides whether events of a category are shown.
    pub fn wants_kind(&self, kind: EventKind) -> (r: bool)
        ensures
            r == self.wants(kind),
    {
        match kind {
            EventKind::Foreground => self.show_foreground,
            EventKind::Engine => self.show_engine,
            EventKind::ProBalanceRestrained => self.show_probalance_restrain,
            EventKind::ProBalanceRestored => self.show_probalance_restore,
            EventKind::Other => self.show_other,
        }
    }

    /// The places of the shown events, newest first. Events are appended, so
    /// the newest stands last in the buffer.
    pub fn visible(&self, events: &[RecentEvent]) -> (r: Vec<usize>)
        ensures
            r@ == listed_places(*self, events@),
    {
        let needle = text::to_lower(self.filter.as_str());
        let mut out: Vec<usize> = Vec::new();
        let mut n: usize = events.len();
        assert(events@.take(n as int) =~= events@);
        while n > 0
            invariant
                n <= events@.len(),
                needle@ == text::lower(self.filter@),
                out@ + listed_places(*self, events@.take(n as int)) == listed_places(*self, events@),
            decreases n,
        {
            let ghost before = out@;
            let ghost longer = events@.take(n as int);
            let e = &events[n - 1];
            let label = text::to_lower(e.label.as_str());
            assert(longer.drop_last() =~= events@.take(n - 1));
            assert(longer.last() == *e);
            let found = text::contains_text(label.as_str(), needle.as_str());
            if self.wants_kind(e.kind) && found {
                out.push(n - 1);
                assert(out@ + listed_places(*self, events@.take(n - 1)) =~= before + listed_places(
                    *self,
                    longer,
                ));
            }
            n = n - 1;
        }
        assert(listed_places(*self, events@.take(0)) =~= Seq::empty());
        assert(out@ =~= listed_places(*self, events@));
        out
    }
}

/// The places of the shown events, newest first.
pub open spec fn listed_places(view: ActivityLogView, events: Seq<RecentEvent>) -> Seq<usize>
    decreases events.len(),
{
    if events.len() == 0 {
        Seq::empty()
    } else {
        let older = listed_places(view, events.drop_last());
        if view.lists(events.last()) {
            seq![(events.len() - 1) as usize] + older
        } else {
            older
        }
    }
}

/// The list shows exactly the events that pass the filters, newest first.
pub proof fn the_list_is_complete_and_newest_first(
    view: ActivityLogView,
    events: Seq<RecentEvent>,
)
    requires
        events.len() <= usize::MAX,
    ensures
        forall|i: usize| #[trigger]
            listed_places(view, events).contains(i) <==> i < events.len() && view.lists(
                events[i as int],
            ),
        forall|j: int, k: int|
            0 <= j < k < listed_places(view, events).len() ==> (#[trigger] listed_places(
                view,
                events,
            )[j]) > (#[trigger] listed_places(view, events)[k]),
    decreases events.len(),
{
    if events.len() > 0 {
        let shorter = events.drop_last();
        the_list_is_complete_and_newest_first(view, shorter);
        let older = listed_places(view, shorter);
        let all = listed_places(view, events);
        let top = (events.len() - 1) as usize;
        assert forall|k: int| 0 <= k < older.len() implies (#[trigger] older[k]) < top by {
            assert(older.contains(older[k]));
        }
        assert forall|i: usize| #[trigger] all.contains(i) <==> i < events.len() && view.lists(
            events[i as int],
        ) by {
            if i < top {
                assert(shorter[i as int] == events[i as int]);
                if older.contains(i) {
                    let k = older.index_of(i);
                    if view.lists(events.last()) {
                        assert(all[k + 1] == i);
                    } else {
                        assert(all[k] == i);
                    }
                }
                if all.contains(i) {
                    let k = all.index_of(i);
                    if view.lists(events.last()) {
                        assert(older[k - 1] == i);
                    } else {
                        assert(older[k] == i);
                    }
                }
            } else {
                if all.contains(i) {
                    let k = all.index_of(i);
                    if view.lists(events.last()) {
                        if k > 0 {
                            assert(older[k - 1] == i);
                        }
                    } else {
                        assert(older[k] == i);
                    }
                }
                if i == top && view.lists(events.last()) {
                    assert(all[0] == top);
                }
            }
        }
        assert forall|j: int, k: int| 0 <= j < k < all.len() implies (#[trigger] all[j]) > (
        #[trigger] all[k]) by {
            if view.lists(events.last()) {
                assert(all[k] == older[k - 1]);
                if j > 0 {
                    assert(all[j] == older[j - 1]);
                }
            }
        }
    }
}

/// What an empty list says.
pub fn empty_message(no_events: bool) -> (r: &'static str)
    ensures
        r@ == (if no_events {
            "No events yet. Activity will appear here as the engine reconciles."@
        } else {
            "No events match the current filter."@
        }),
{
    if no_events {
        "No events yet. Activity will appear here as the engine reconciles."
    } else {
        "No events match the current filter."
    }
}

/// Events that the Status tab lists.
pub const STATUS_EVENTS: usize = 20;

/// Events that the strip at the window's bottom lists.
pub const STRIP_EVENTS: usize = 5;

/// The labels of the last `n` events, newest first.
pub open spec fn latest_texts(recent: Seq<RecentEvent>, n: nat) -> Seq<Seq<char>> {
    Seq::new(
        if n < recent.len() {
            n
        } else {
            recent.len()
        },
        |k: int| recent[recent.len() - 1 - k].label@,
    )
}

/// Copies the labels of the last `n` events, newest first.
pub fn latest_labels(recent: &[RecentEvent], n: usize) -> (r: Vec<String>)
    ensures
        text::texts(r@) == latest_texts(recent@, n as nat),
{
    let shown: usize = if n < recent.len() {
        n
    } else {
        recent.len()
    };
    let mut out: Vec<String> = Vec::new();
    for k in 0..shown
        invariant
            shown <= recent@.len(),
            out@.len() == k,
            forall|j: int|
                0 <= j < k ==> (#[trigger] out@[j])@ == recent@[recent@.len() - 1 - j].label@,
    {
        out.push(recent[recent.len() - 1 - k].label.clone());
    }
    assert(text::texts(out@) =~= latest_texts(recent@, n as nat));
    out
}

} // verus!
