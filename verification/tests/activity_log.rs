use framesage_tray::activity_log::{
    default_schema_version, end_line, hydrate, join_lines, load_last, needs_rotation, rotated,
    split_lines, PersistedActivityEvent, MAX_PERSISTED_EVENTS,
};
use framesage_tray::state::{EventKind, Timestamp};
use serde_json::Value;

fn line_of(ev: &PersistedActivityEvent) -> String {
    let mut map = serde_json::Map::new();
    map.insert("schema_version".into(), Value::from(ev.schema_version));
    map.insert("at_unix_secs".into(), Value::from(ev.at_unix_secs));
    map.insert("kind".into(), Value::from(ev.kind.clone()));
    map.insert("label".into(), Value::from(ev.label.clone()));
    Value::Object(map).to_string()
}

fn parse_line(line: &[u8]) -> Option<PersistedActivityEvent> {
    let v: Value = serde_json::from_slice(line).ok()?;
    let schema_version = match v.get("schema_version") {
        Some(x) => x.as_u64()? as u32,
        None => default_schema_version(),
    };
    Some(PersistedActivityEvent {
        schema_version,
        at_unix_secs: v.get("at_unix_secs")?.as_u64()?,
        kind: v.get("kind")?.as_str()?.to_owned(),
        label: v.get("label")?.as_str()?.to_owned(),
    })
}

fn read(file: &str, n: usize) -> Vec<PersistedActivityEvent> {
    load_last(split_lines(file.as_bytes()).iter().map(|line| parse_line(line)).collect(), n)
}

fn at(secs: i64) -> Timestamp {
    Timestamp { secs, nanos: 0 }
}

#[test]
fn round_trip_three_events() {
    let now = 1_736_000_000;
    let mut file = String::new();
    for ev in [
        PersistedActivityEvent::new(at(now), "foreground", "firefox.exe -> perf".into()),
        PersistedActivityEvent::new(at(now + 1), "engine", "engine paused".into()),
        PersistedActivityEvent::new(
            at(now + 2),
            "probalance_restrained",
            "restrained chrome.exe".into(),
        ),
    ] {
        file.push_str(&line_of(&ev));
        file.push('\n');
    }
    let loaded = read(&file, 100);
    assert_eq!(loaded.len(), 3);
    assert_eq!(loaded[0].kind, "foreground");
    assert_eq!(loaded[1].label, "engine paused");
    assert_eq!(loaded[2].at_unix_secs, 1_736_000_002);
}

#[test]
fn load_last_returns_only_tail() {
    let mut file = String::new();
    for i in 0..50 {
        let ev =
            PersistedActivityEvent::new(at(1_700_000_000 + i), "engine", format!("event {i}"));
        file.push_str(&line_of(&ev));
        file.push('\n');
    }
    let loaded = read(&file, 10);
    assert_eq!(loaded.len(), 10);
    assert_eq!(loaded[0].label, "event 40");
    assert_eq!(loaded[9].label, "event 49");
}

#[test]
fn future_schema_version_lines_are_dropped() {
    let file = r#"{"schema_version":1,"at_unix_secs":100,"kind":"engine","label":"ok"}
{"schema_version":999,"at_unix_secs":200,"kind":"engine","label":"future"}
{"schema_version":1,"at_unix_secs":300,"kind":"engine","label":"also ok"}
"#;
    let loaded = read(file, 100);
    assert_eq!(loaded.len(), 2);
    assert_eq!(loaded[0].label, "ok");
    assert_eq!(loaded[1].label, "also ok");
}

#[test]
fn corrupt_lines_are_dropped() {
    let file = r#"{"schema_version":1,"at_unix_secs":100,"kind":"engine","label":"before"}
not valid json at all
{"schema_version":1,"at_unix_secs":300,"kind":"engine","label":"after"}
"#;
    let loaded = read(file, 100);
    assert_eq!(loaded.len(), 2);
    assert_eq!(loaded[0].label, "before");
    assert_eq!(loaded[1].label, "after");
}

#[test]
fn moments_before_the_epoch_count_as_the_epoch() {
    let ev = PersistedActivityEvent::new(at(-5), "engine", String::new());
    assert_eq!(ev.at_unix_secs, 0);
    assert_eq!(ev.schema_version, default_schema_version());
}

#[test]
fn large_files_are_cut_down_to_their_tail() {
    assert!(!needs_rotation(5 * 1024 * 1024));
    assert!(needs_rotation(5 * 1024 * 1024 + 1));
    let mut lines: Vec<Option<PersistedActivityEvent>> = Vec::new();
    for i in 0..(MAX_PERSISTED_EVENTS + 3) {
        lines.push(Some(PersistedActivityEvent::new(
            at(i as i64),
            "engine",
            String::new(),
        )));
        lines.push(None);
    }
    let kept = rotated(lines);
    assert_eq!(kept.len(), MAX_PERSISTED_EVENTS);
    assert_eq!(kept[0].at_unix_secs, 3);
}

#[test]
fn logged_events_come_back_with_their_category() {
    let ev = PersistedActivityEvent::new(
        at(77),
        EventKind::ProBalanceRestored.persist_tag(),
        "chrome".into(),
    );
    let back = hydrate(ev);
    assert_eq!(back.kind, EventKind::ProBalanceRestored);
    assert_eq!(back.at, at(77));
    assert_eq!(back.label, "chrome");
}

#[test]
fn files_are_split_at_line_breaks() {
    let split = |body: &str| -> Vec<String> {
        split_lines(body.as_bytes())
            .into_iter()
            .map(|line| String::from_utf8(line).unwrap())
            .collect()
    };
    assert!(split("").is_empty());
    assert!(split("\n\r\n\n").is_empty());
    assert_eq!(split("a\nb\r\n\nc"), vec!["a", "b", "c"]);
    assert_eq!(split("a\rb\nc\r"), vec!["a\rb", "c\r"]);
    assert_eq!(end_line(b"x".to_vec()), b"x\n".to_vec());
}

#[test]
fn an_appended_event_is_read_last_and_whole() {
    let mut file = String::new();
    for label in ["one", "two"] {
        let ev = PersistedActivityEvent::new(at(5), "engine", label.into());
        file.push_str(&line_of(&ev));
        file.push('\n');
    }
    let before = read(&file, 1);
    let ev = PersistedActivityEvent::new(at(6), "other", "a \"b\"\r\nc \\ d".into());
    file.push_str(&String::from_utf8(end_line(line_of(&ev).into_bytes())).unwrap());
    let mut want = before;
    want.push(ev);
    assert_eq!(read(&file, 2), want);
}

#[test]
fn rotating_a_rotated_log_keeps_its_bytes() {
    let parse = |body: &[u8]| -> Vec<Option<PersistedActivityEvent>> {
        split_lines(body).iter().map(|line| parse_line(line)).collect()
    };
    let write = |events: Vec<PersistedActivityEvent>| -> Vec<u8> {
        join_lines(events.iter().map(|ev| line_of(ev).into_bytes()).collect())
    };
    let mut file = b"no json\n".to_vec();
    for i in 0..(MAX_PERSISTED_EVENTS + 5) {
        let ev = PersistedActivityEvent::new(at(i as i64), "engine", "a\n\"b\"".repeat(60));
        file.extend(end_line(line_of(&ev).into_bytes()));
    }
    assert!(needs_rotation(file.len() as u64));
    let once = write(rotated(parse(&file)));
    assert!(needs_rotation(once.len() as u64));
    assert_eq!(split_lines(&once).len(), MAX_PERSISTED_EVENTS);
    assert_eq!(write(rotated(parse(&once))), once);
    assert_eq!(join_lines(vec![b"a".to_vec(), b"b".to_vec()]), b"a\nb\n".to_vec());
    assert!(join_lines(Vec::new()).is_empty());
}
