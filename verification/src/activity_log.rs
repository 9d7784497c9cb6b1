//! The activity log on disk: what is written for an event, which lines are
//! read back, and when the file is cut down.

use vstd::prelude::*;

use crate::ipc_client;
use crate::state::{self, EventKind, RecentEvent, Timestamp};

verus! {

/// Version of the line format.
pub const SCHEMA_VERSION: u32 = 1;

/// File size from which on the log is cut down.
pub const MAX_PERSISTED_BYTES: u64 = 0x50_0000;

/// Events kept when the log is cut down.
pub const MAX_PERSISTED_EVENTS: usize = 10_000;

/// Events taken into memory at startup.
pub const HYDRATE_LIMIT: usize = 200;

/// One line of the log.
#[derive(Debug, PartialEq, Eq)]
pub struct PersistedActivityEvent {
    pub schema_version: u32,
    pub at_unix_secs: u64,
    /// The category's name on disk.
    pub kind: String,
    pub label: String,
}

/// The version of a line that does not name one.
pub fn default_schema_version() -> (r: u32)
    ensures
        r == SCHEMA_VERSION,
{
    SCHEMA_VERSION
}

impl PersistedActivityEvent {
    /// The line for an event; moments before the Unix epoch count as 0.
    pub fn new(at: Timestamp, kind: &str, label: String) -> (r: Self)
        ensures
            r.schema_version == SCHEMA_VERSION,
            r.at_unix_secs == (if at.secs < 0 {
                0
            } else {
                at.secs as int
            }),
            r.kind@ == kind@,
            r.label == label,
    {
        PersistedActivityEvent {
            schema_version: SCHEMA_VERSION,
            at_unix_secs: if at.secs < 0 {
                0
            } else {
                at.secs as u64
            },
            kind: kind.to_owned(),
            label,
        }
    }
}

// ── Lines ───────────────────────────────────────────────────────────────────

/// The byte that ends a line.
pub const LINE_BREAK: u8 = 0x0a;

/// The byte that may stand in front of it.
pub const CARRIAGE_RETURN: u8 = 0x0d;

/// A line without the carriage return at its end.
pub open spec fn without_return(line: Seq<u8>) -> Seq<u8> {
    if line.len() > 0 && line.last() == CARRIAGE_RETURN {
        line.drop_last()
    } else {
        line
    }
}

/// What stands behind the last line break of a file.
pub open spec fn open_line(body: Seq<u8>) -> Seq<u8>
    decreases body.len(),
{
    if body.len() == 0 || body.last() == LINE_BREAK {
        Seq::empty()
    } else {
        open_line(body.drop_last()).push(body.last())
    }
}

/// The lines of a file that a line break ends, without it.
pub open spec fn ended_lines(body: Seq<u8>) -> Seq<Seq<u8>>
    decreases body.len(),
{
    if body.len() == 0 {
        Seq::empty()
    } else if body.last() == LINE_BREAK {
        ended_lines(body.drop_last()).push(without_return(open_line(body.drop_last())))
    } else {
        ended_lines(body.drop_last())
    }
}

/// The lines of a file, in order, but for empty ones.
pub open spec fn file_lines(body: Seq<u8>) -> Seq<Seq<u8>> {
    ended_lines(body).push(open_line(body)).filter(|line: Seq<u8>| line.len() > 0)
}

/// The bytes of each line.
pub open spec fn line_bytes(lines: Seq<Vec<u8>>) -> Seq<Seq<u8>> {
    lines.map_values(|line: Vec<u8>| line@)
}

/// Appends a line to a list unless it is empty.
fn keep_line(out: &mut Vec<Vec<u8>>, line: Vec<u8>, Ghost(before): Ghost<Seq<Seq<u8>>>)
    requires
        line_bytes(old(out)@) == before.filter(|line: Seq<u8>| line.len() > 0),
    ensures
        line_bytes(final(out)@) == before.push(line@).filter(|line: Seq<u8>| line.len() > 0),
{
    let ghost kept = line_bytes(out@);
    proof {
        reveal(Seq::filter);
        assert(before.push(line@).drop_last() =~= before);
    }
    if line.len() > 0 {
        let ghost bytes = line@;
        out.push(line);
        assert(line_bytes(out@) =~= kept.push(bytes));
    }
}

/// Splits a file into its lines. Empty lines are left out.
pub fn split_lines(body: &[u8]) -> (r: Vec<Vec<u8>>)
    ensures
        line_bytes(r@) == file_lines(body@),
{
    let mut out: Vec<Vec<u8>> = Vec::new();
    let mut line: Vec<u8> = Vec::new();
    proof {
        reveal(Seq::filter);
        assert(body@.take(0) =~= Seq::empty());
        assert(line_bytes(out@) =~= ended_lines(body@.take(0)).filter(
            |line: Seq<u8>| line.len() > 0,
        ));
    }
    for i in 0..body.len()
        invariant
            line@ == open_line(body@.take(i as int)),
            line_bytes(out@) == ended_lines(body@.take(i as int)).filter(
                |line: Seq<u8>| line.len() > 0,
            ),
    {
        let ghost head = body@.take(i as int);
        assert(body@.take(i + 1).drop_last() =~= head);
        if body[i] == LINE_BREAK {
            if line.len() > 0 && line[line.len() - 1] == CARRIAGE_RETURN {
                line.pop();
            }
            assert(line@ =~= without_return(open_line(head)));
            keep_line(&mut out, line, Ghost(ended_lines(head)));
            line = Vec::new();
            assert(line@ =~= open_line(body@.take(i + 1)));
        } else {
            line.push(body[i]);
        }
    }
    assert(body@.take(body@.len() as int) =~= body@);
    keep_line(&mut out, line, Ghost(ended_lines(body@)));
    out
}

/// A line with its line break, as it is appended to the file.
pub fn end_line(line: Vec<u8>) -> (r: Vec<u8>)
    ensures
        r@ == line@.push(LINE_BREAK),
{
    let mut line = line;
    line.push(LINE_BREAK);
    line
}

/// Whether a text can stand on a line of its own: it is not empty, holds no
/// line break and does not end in a carriage return.
pub open spec fn is_one_line(line: Seq<u8>) -> bool {
    line.len() > 0 && !line.contains(LINE_BREAK) && line.last() != CARRIAGE_RETURN
}

/// A line grows behind the last line break.
pub proof fn lemma_line_grows(body: Seq<u8>, line: Seq<u8>)
    requires
        body.len() > 0 ==> body.last() == LINE_BREAK,
        !line.contains(LINE_BREAK),
    ensures
        open_line(body + line) == line,
        ended_lines(body + line) == ended_lines(body),
    decreases line.len(),
{
    if line.len() == 0 {
        assert(body + line =~= body);
        assert(line =~= Seq::empty());
    } else {
        let shorter = line.drop_last();
        assert(line.contains(line.last()));
        if shorter.contains(LINE_BREAK) {
            let k = shorter.index_of(LINE_BREAK);
            assert(line[k] == LINE_BREAK);
        }
        lemma_line_grows(body, shorter);
        assert((body + line).drop_last() =~= body + shorter);
        assert(shorter.push(line.last()) =~= line);
    }
}

/// A line that is appended to a file that is empty or ends in a line break is
/// read behind all the others, byte for byte.
pub proof fn appended_line_is_read_last(body: Seq<u8>, line: Seq<u8>)
    requires
        body.len() > 0 ==> body.last() == LINE_BREAK,
        is_one_line(line),
    ensures
        file_lines(body + line.push(LINE_BREAK)) == file_lines(body).push(line),
{
    reveal_with_fuel(Seq::filter, 2);
    let longer = body + line.push(LINE_BREAK);
    let blank = Seq::<u8>::empty();
    lemma_line_grows(body, line);
    assert(longer.drop_last() =~= body + line);
    assert(longer.last() == LINE_BREAK);
    let before = ended_lines(body);
    assert(ended_lines(longer) == before.push(line));
    assert(open_line(body) =~= blank);
    assert(before.push(blank).drop_last() =~= before);
    assert(before.push(line).push(blank).drop_last() =~= before.push(line));
    assert(before.push(line).drop_last() =~= before);
}

/// A file made of these lines, each with its line break.
pub open spec fn joined(lines: Seq<Seq<u8>>) -> Seq<u8>
    decreases lines.len(),
{
    if lines.len() == 0 {
        Seq::empty()
    } else {
        joined(lines.drop_last()) + lines.last().push(LINE_BREAK)
    }
}

/// Makes a file of these lines.
pub fn join_lines(lines: Vec<Vec<u8>>) -> (r: Vec<u8>)
    ensures
        r@ == joined(line_bytes(lines@)),
{
    let mut out: Vec<u8> = Vec::new();
    let ghost all = line_bytes(lines@);
    for i in 0..lines.len()
        invariant
            all == line_bytes(lines@),
            out@ == joined(all.take(i as int)),
    {
        let ghost before = out@;
        assert(all.take(i + 1).drop_last() =~= all.take(i as int));
        let line = &lines[i];
        for j in 0..line.len()
            invariant
                out@ == before + line@.take(j as int),
        {
            out.push(line[j]);
            assert(out@ =~= before + line@.take(j + 1));
        }
        out.push(LINE_BREAK);
        assert(out@ =~= before + all[i as int].push(LINE_BREAK));
    }
    assert(all.take(all.len() as int) =~= all);
    out
}

/// The lines that a file is made of are read back, byte for byte and in order.
pub proof fn joined_lines_are_read_back(lines: Seq<Seq<u8>>)
    requires
        forall|i: int| 0 <= i < lines.len() ==> is_one_line(#[trigger] lines[i]),
    ensures
        file_lines(joined(lines)) == lines,
        joined(lines).len() > 0 ==> joined(lines).last() == LINE_BREAK,
    decreases lines.len(),
{
    if lines.len() == 0 {
        reveal_with_fuel(Seq::filter, 2);
        let blank = Seq::<u8>::empty();
        assert(ended_lines(joined(lines)).push(blank).drop_last() =~= Seq::<Seq<u8>>::empty());
        assert(file_lines(joined(lines)) =~= lines);
    } else {
        let shorter = lines.drop_last();
        assert forall|i: int| 0 <= i < shorter.len() implies is_one_line(#[trigger] shorter[i]) by {
            assert(shorter[i] == lines[i]);
        }
        joined_lines_are_read_back(shorter);
        appended_line_is_read_last(joined(shorter), lines.last());
        assert(shorter.push(lines.last()) =~= lines);
    }
}

// ── Events ──────────────────────────────────────────────────────────────────

/// The events of the lines that could be read and have the current version,
/// in file order. `None` stands for a line that could not be read.
pub open spec fn valid_events(
    lines: Seq<Option<PersistedActivityEvent>>,
) -> Seq<PersistedActivityEvent>
    decreases lines.len(),
{
    if lines.len() == 0 {
        Seq::empty()
    } else {
        let before = valid_events(lines.drop_last());
        match lines.last() {
            Some(ev) => if ev.schema_version == SCHEMA_VERSION {
                before.push(ev)
            } else {
                before
            },
            None => before,
        }
    }
}

/// The last `n` valid events. Unreadable lines and lines of another version
/// are dropped without harm to the rest.
pub fn load_last(lines: Vec<Option<PersistedActivityEvent>>, n: usize) -> (r: Vec<
    PersistedActivityEvent,
>)
    ensures
        r@ == ipc_client::newest(valid_events(lines@), n as nat),
{
    let mut lines = lines;
    let ghost all = lines@;
    let mut rest: Vec<PersistedActivityEvent> = Vec::new();
    while lines.len() > 0
        invariant
            valid_events(lines@) + reversed(rest@) == valid_events(all),
        decreases lines@.len(),
    {
        let ghost lines0 = lines@;
        let ghost rest0 = rest@;
        if let Some(line) = lines.pop() {
            assert(lines@ =~= lines0.drop_last());
            if let Some(ev) = line {
                if ev.schema_version == SCHEMA_VERSION {
                    rest.push(ev);
                    assert(reversed(rest@) =~= seq![ev] + reversed(rest0));
                    assert(valid_events(lines0) + reversed(rest0) =~= valid_events(lines@)
                        + reversed(rest@));
                }
            }
        }
    }
    assert(valid_events(lines@) =~= Seq::empty());
    assert(reversed(rest@) =~= valid_events(all));
    let mut out: Vec<PersistedActivityEvent> = Vec::new();
    let ghost valid = valid_events(all);
    while rest.len() > 0
        invariant
            out@ + reversed(rest@) == valid,
        decreases rest@.len(),
    {
        let ghost rest0 = rest@;
        let ghost out0 = out@;
        if let Some(ev) = rest.pop() {
            out.push(ev);
            assert(reversed(rest0) =~= seq![ev] + reversed(rest@));
            assert(out@ + reversed(rest@) =~= out0 + reversed(rest0));
        }
    }
    assert(out@ =~= valid);
    if out.len() > n {
        let start: usize = out.len() - n;
        out.split_off(start)
    } else {
        out
    }
}

/// `s` back to front.
pub open spec fn reversed<T>(s: Seq<T>) -> Seq<T> {
    Seq::new(s.len(), |i: int| s[s.len() - 1 - i])
}

/// Whether a log of this size is cut down.
pub fn needs_rotation(file_bytes: u64) -> (r: bool)
    ensures
        r == (file_bytes > MAX_PERSISTED_BYTES),
{
    file_bytes > MAX_PERSISTED_BYTES
}

/// The events that stay when the log is cut down.
pub fn rotated(lines: Vec<Option<PersistedActivityEvent>>) -> (r: Vec<PersistedActivityEvent>)
    ensures
        r@ == ipc_client::newest(valid_events(lines@), MAX_PERSISTED_EVENTS as nat),
        r@.len() <= MAX_PERSISTED_EVENTS,
{
    load_last(lines, MAX_PERSISTED_EVENTS)
}

/// The lines of a freshly written log.
pub open spec fn written(events: Seq<PersistedActivityEvent>) -> Seq<
    Option<PersistedActivityEvent>,
> {
    events.map_values(|e: PersistedActivityEvent| Some(e))
}

/// What is written with the current version is read back, all of it and in
/// order.
pub proof fn written_events_are_read_back(events: Seq<PersistedActivityEvent>)
    requires
        forall|i: int| 0 <= i < events.len() ==> (#[trigger] events[i]).schema_version
            == SCHEMA_VERSION,
    ensures
        valid_events(written(events)) == events,
    decreases events.len(),
{
    if events.len() > 0 {
        let shorter = events.drop_last();
        assert forall|i: int| 0 <= i < shorter.len() implies (#[trigger] shorter[i]).schema_version
            == SCHEMA_VERSION by {
            assert(shorter[i] == events[i]);
        }
        written_events_are_read_back(shorter);
        assert(written(events).drop_last() =~= written(shorter));
        assert(shorter.push(events.last()) =~= events);
    } else {
        assert(written(events) =~= Seq::empty());
        assert(events =~= Seq::empty());
    }
}

/// An event that is appended is read back behind what was read before, with
/// nothing else changed.
pub proof fn appended_event_is_read_last(
    lines: Seq<Option<PersistedActivityEvent>>,
    ev: PersistedActivityEvent,
    n: nat,
)
    requires
        ev.schema_version == SCHEMA_VERSION,
    ensures
        ipc_client::newest(valid_events(lines.push(Some(ev))), n + 1) == ipc_client::newest(
            valid_events(lines),
            n,
        ).push(ev),
{
    assert(lines.push(Some(ev)).drop_last() =~= lines);
    let before = valid_events(lines);
    assert(valid_events(lines.push(Some(ev))) == before.push(ev));
    assert(ipc_client::newest(before.push(ev), n + 1) =~= ipc_client::newest(before, n).push(ev));
}

/// Dropping a line that is unreadable or of another version does not change
/// what is read.
pub proof fn bad_lines_do_no_harm(
    before: Seq<Option<PersistedActivityEvent>>,
    bad: Option<PersistedActivityEvent>,
    after: Seq<Option<PersistedActivityEvent>>,
)
    requires
        bad matches Some(ev) ==> ev.schema_version != SCHEMA_VERSION,
    ensures
        valid_events(before.push(bad) + after) == valid_events(before + after),
    decreases after.len(),
{
    if after.len() == 0 {
        assert(before.push(bad) + after =~= before.push(bad));
        assert(before.push(bad).drop_last() =~= before);
        assert(before + after =~= before);
    } else {
        bad_lines_do_no_harm(before, bad, after.drop_last());
        assert((before.push(bad) + after).drop_last() =~= before.push(bad) + after.drop_last());
        assert((before + after).drop_last() =~= before + after.drop_last());
    }
}

/// The events read are of the current version.
pub proof fn only_current_events_are_read(lines: Seq<Option<PersistedActivityEvent>>, k: int)
    requires
        0 <= k < valid_events(lines).len(),
    ensures
        valid_events(lines)[k].schema_version == SCHEMA_VERSION,
    decreases lines.len(),
{
    if lines.len() > 0 {
        let before = valid_events(lines.drop_last());
        if k < before.len() {
            only_current_events_are_read(lines.drop_last(), k);
        }
    }
}

/// Cutting the log down loses nothing that a later reading of up to the kept
/// number of events would want.
pub proof fn rotation_keeps_the_tail(lines: Seq<Option<PersistedActivityEvent>>, n: nat)
    requires
        n <= MAX_PERSISTED_EVENTS,
    ensures
        ipc_client::newest(
            valid_events(
                written(
                    ipc_client::newest(valid_events(lines), MAX_PERSISTED_EVENTS as nat),
                ),
            ),
            n,
        ) == ipc_client::newest(valid_events(lines), n),
{
    let valid = valid_events(lines);
    let kept = ipc_client::newest(valid, MAX_PERSISTED_EVENTS as nat);
    assert forall|i: int| 0 <= i < kept.len() implies (#[trigger] kept[i]).schema_version
        == SCHEMA_VERSION by {
        only_current_events_are_read(lines, i + (valid.len() - kept.len()));
    }
    written_events_are_read_back(kept);
    assert(ipc_client::newest(kept, n) =~= ipc_client::newest(valid, n));
}

// ── The file as a whole ─────────────────────────────────────────────────────

/// Whether a way of writing an event and a way of reading a line go together:
/// an event of the current version is written on one line and read back whole.
pub open spec fn go_together(
    encode: spec_fn(PersistedActivityEvent) -> Seq<u8>,
    decode: spec_fn(Seq<u8>) -> Option<PersistedActivityEvent>,
) -> bool {
    forall|ev: PersistedActivityEvent|
        ev.schema_version == SCHEMA_VERSION ==> is_one_line(#[trigger] encode(ev)) && decode(
            encode(ev),
        ) == Some(ev)
}

/// The valid events of a file.
pub open spec fn events_in(
    body: Seq<u8>,
    decode: spec_fn(Seq<u8>) -> Option<PersistedActivityEvent>,
) -> Seq<PersistedActivityEvent> {
    valid_events(file_lines(body).map_values(decode))
}

/// A file after a check of its size: one that is too large is made anew of its
/// newest events.
pub open spec fn file_rotated(
    body: Seq<u8>,
    encode: spec_fn(PersistedActivityEvent) -> Seq<u8>,
    decode: spec_fn(Seq<u8>) -> Option<PersistedActivityEvent>,
) -> Seq<u8> {
    if body.len() > MAX_PERSISTED_BYTES {
        joined(
            ipc_client::newest(events_in(body, decode), MAX_PERSISTED_EVENTS as nat).map_values(
                encode,
            ),
        )
    } else {
        body
    }
}

/// An event that is appended to a file that is empty or ends in a line break is
/// read from it behind all that was read before, whatever its label holds.
pub proof fn event_appended_to_the_file_is_read_last(
    body: Seq<u8>,
    ev: PersistedActivityEvent,
    encode: spec_fn(PersistedActivityEvent) -> Seq<u8>,
    decode: spec_fn(Seq<u8>) -> Option<PersistedActivityEvent>,
    n: nat,
)
    requires
        go_together(encode, decode),
        body.len() > 0 ==> body.last() == LINE_BREAK,
        ev.schema_version == SCHEMA_VERSION,
    ensures
        ipc_client::newest(events_in(body + encode(ev).push(LINE_BREAK), decode), n + 1)
            == ipc_client::newest(events_in(body, decode), n).push(ev),
{
    let line = encode(ev);
    appended_line_is_read_last(body, line);
    let lines = file_lines(body).map_values(decode);
    assert(file_lines(body).push(line).map_values(decode) =~= lines.push(Some(ev)));
    appended_event_is_read_last(lines, ev, n);
}

/// What a file is made of anew is read back from it.
proof fn lemma_events_are_read_back(
    events: Seq<PersistedActivityEvent>,
    encode: spec_fn(PersistedActivityEvent) -> Seq<u8>,
    decode: spec_fn(Seq<u8>) -> Option<PersistedActivityEvent>,
)
    requires
        go_together(encode, decode),
        forall|i: int| 0 <= i < events.len() ==> (#[trigger] events[i]).schema_version
            == SCHEMA_VERSION,
    ensures
        events_in(joined(events.map_values(encode)), decode) == events,
{
    let lines = events.map_values(encode);
    assert forall|i: int| 0 <= i < lines.len() implies is_one_line(#[trigger] lines[i]) by {
        assert(events[i].schema_version == SCHEMA_VERSION);
        assert(lines[i] == encode(events[i]));
    }
    joined_lines_are_read_back(lines);
    assert(lines.map_values(decode) =~= written(events)) by {
        assert forall|i: int| 0 <= i < lines.len() implies #[trigger] lines.map_values(decode)[i]
            == written(events)[i] by {
            assert(events[i].schema_version == SCHEMA_VERSION);
            assert(lines[i] == encode(events[i]));
        }
    }
    written_events_are_read_back(events);
}

/// A file that is not too large stays as it is, bad lines and all, and so does
/// one whose size was checked just before.
pub proof fn rotating_twice_is_rotating_once(
    body: Seq<u8>,
    encode: spec_fn(PersistedActivityEvent) -> Seq<u8>,
    decode: spec_fn(Seq<u8>) -> Option<PersistedActivityEvent>,
)
    requires
        go_together(encode, decode),
    ensures
        body.len() <= MAX_PERSISTED_BYTES ==> file_rotated(body, encode, decode) == body,
        file_rotated(file_rotated(body, encode, decode), encode, decode) == file_rotated(
            body,
            encode,
            decode,
        ),
{
    let lines = file_lines(body).map_values(decode);
    let valid = events_in(body, decode);
    let most = MAX_PERSISTED_EVENTS as nat;
    let kept = ipc_client::newest(valid, most);
    assert forall|i: int| 0 <= i < kept.len() implies (#[trigger] kept[i]).schema_version
        == SCHEMA_VERSION by {
        only_current_events_are_read(lines, i + (valid.len() - kept.len()));
    }
    lemma_events_are_read_back(kept, encode, decode);
    assert(ipc_client::newest(kept, most) =~= kept);
}

// ── Into the buffer ─────────────────────────────────────────────────────────

/// The buffer entry for a line read back.
pub open spec fn hydrated_kind(ev: PersistedActivityEvent) -> EventKind {
    state::kind_of_tag(ev.kind@)
}

/// The buffer entry for a line read back.
pub fn hydrate(ev: PersistedActivityEvent) -> (r: RecentEvent)
    requires
        ev.at_unix_secs <= i64::MAX,
    ensures
        r.at == (Timestamp { secs: ev.at_unix_secs as i64, nanos: 0 }),
        r.kind == hydrated_kind(ev),
        r.label == ev.label,
{
    RecentEvent {
        at: Timestamp { secs: ev.at_unix_secs as i64, nanos: 0 },
        kind: EventKind::from_persist_tag(ev.kind.as_str()),
        label: ev.label,
    }
}

/// An event that is logged and read back has its category, its label and its
/// whole seconds.
pub proof fn logged_event_is_hydrated(
    at: Timestamp,
    kind: EventKind,
    logged: PersistedActivityEvent,
    back: RecentEvent,
)
    requires
        at.secs >= 0,
        logged.schema_version == SCHEMA_VERSION,
        logged.at_unix_secs == at.secs,
        logged.kind@ == state::tag_text(kind),
        back.at == (Timestamp { secs: logged.at_unix_secs as i64, nanos: 0 }),
        back.kind == hydrated_kind(logged),
        back.label == logged.label,
    ensures
        back.kind == kind,
        back.at.secs == at.secs,
        back.label == logged.label,
{
    state::persist_tag_round_trips(kind);
}

} // verus!
