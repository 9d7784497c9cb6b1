use framesage_tray::tray_prefs::{ProcessesColumns, StoredColumns, StoredPrefs, TrayPrefs};
use serde_json::Value;

#[test]
fn defaults_show_every_optional_column() {
    let c = ProcessesColumns::default();
    assert!(c.description && c.company && c.user && c.threads && c.priority && c.affinity);
}

fn write(stored: &StoredPrefs) -> String {
    let mut map = serde_json::Map::new();
    map.insert("schema_version".into(), Value::from(stored.schema_version));
    if let Some(c) = stored.processes_columns {
        let mut columns = serde_json::Map::new();
        columns.insert("description".into(), Value::from(c.description));
        columns.insert("company".into(), Value::from(c.company));
        columns.insert("user".into(), Value::from(c.user));
        columns.insert("threads".into(), Value::from(c.threads));
        columns.insert("priority".into(), Value::from(c.priority));
        columns.insert("affinity".into(), Value::from(c.affinity));
        map.insert("processes_columns".into(), Value::Object(columns));
    }
    Value::Object(map).to_string()
}

fn flag(v: &Value, name: &str) -> Option<bool> {
    v.get(name)?.as_bool()
}

fn parse(json: &str) -> Option<StoredPrefs> {
    let v: Value = serde_json::from_str(json).ok()?;
    let schema_version = v.get("schema_version").and_then(Value::as_u64).map(|n| n as u32);
    let processes_columns = v.get("processes_columns").map(|c| StoredColumns {
        description: flag(c, "description"),
        company: flag(c, "company"),
        user: flag(c, "user"),
        threads: flag(c, "threads"),
        priority: flag(c, "priority"),
        affinity: flag(c, "affinity"),
    });
    Some(StoredPrefs {
        schema_version,
        processes_columns,
    })
}

#[test]
fn prefs_round_trip_through_json_and_tolerate_missing_fields() {
    let prefs = TrayPrefs {
        schema_version: 1,
        processes_columns: ProcessesColumns {
            company: false,
            affinity: false,
            ..Default::default()
        },
    };
    let json = write(&prefs.stored());
    let back = TrayPrefs::restore(parse(&json));
    assert_eq!(prefs, back);

    let minimal = TrayPrefs::restore(parse(r#"{"schema_version":1}"#));
    assert_eq!(minimal.processes_columns, ProcessesColumns::default());
}

#[test]
fn unreadable_prefs_fall_back_to_the_defaults() {
    assert_eq!(TrayPrefs::restore(parse("not json")), TrayPrefs::default());
    let newer = TrayPrefs::restore(parse(r#"{"schema_version":7}"#));
    assert_eq!(newer.schema_version, 7);
}

#[test]
fn each_missing_column_falls_back_to_its_default() {
    let partial = r#"{"schema_version":1,"processes_columns":{"company":false}}"#;
    assert_eq!(
        TrayPrefs::restore(parse(partial)),
        TrayPrefs {
            schema_version: 1,
            processes_columns: ProcessesColumns {
                company: false,
                ..Default::default()
            },
        }
    );
    let unversioned = TrayPrefs::restore(parse(r#"{"processes_columns":{"user":false}}"#));
    assert_eq!(unversioned.schema_version, 1);
    assert!(!unversioned.processes_columns.user);
    assert!(unversioned.processes_columns.company);
}
