//! The device registry.

use sapphire_workspace::cli::device::{self, DeviceCommand, DeviceError, DeviceOutcome};
use sapphire_workspace::cli::device_lines::{renamed_lines, show_lines, table_lines};
use sapphire_workspace::ids::{Timestamp, Uuid};
use sapphire_workspace::paths::FsPath;
use sapphire_workspace::sync::devices::{
    file_text, record_lines, DeviceContext, DeviceDefaults, DeviceRecord, DeviceRegistry,
};
use sapphire_workspace::sync::error::Error;

fn defaults(hostname: &str) -> DeviceDefaults {
    DeviceDefaults {
        hostname: hostname.to_owned(),
        app_id: "sapphire-workspace-cli".to_owned(),
        app_version: "0.9.0".to_owned(),
        platform: "linux".to_owned(),
        arch: "x86_64".to_owned(),
    }
}

fn ctx(hostname: &str) -> DeviceContext {
    DeviceContext::from_defaults(Uuid::now_v7(), defaults(hostname))
}

fn empty_registry(name: &str) -> DeviceRegistry {
    let path = FsPath::from_text(&format!("/tmp/{name}/devices.jsonl"));
    DeviceRegistry::load(path, Vec::new()).unwrap()
}

fn tick(after: Timestamp) -> Timestamp {
    let mut now = Timestamp::now();
    while !after.is_before(now) {
        now = Timestamp::now();
    }
    now
}

fn same_record(a: &DeviceRecord, b: &DeviceRecord) -> bool {
    a.id == b.id
        && a.name == b.name
        && a.hostname == b.hostname
        && a.app_id == b.app_id
        && a.app_version == b.app_version
        && a.platform == b.platform
        && a.arch == b.arch
        && a.registered_at == b.registered_at
        && a.updated_at == b.updated_at
}

#[test]
fn load_missing_file_is_empty() {
    let path = FsPath::from_text("missing/does-not-exist.jsonl");
    let registry = DeviceRegistry::load(path, Vec::new()).unwrap();
    assert!(registry.records().is_empty());
    assert_eq!(registry.path().text, "missing/does-not-exist.jsonl");
}

#[test]
fn merge_first_time_appends_new_record() {
    let mut registry = empty_registry("first");
    let c = ctx("my-host");
    let outcome = registry.merge_device_context(&c);
    assert!(outcome.changed);
    let r = registry.lookup(c.id).unwrap();
    assert_eq!(r.name, "my-host");
    assert_eq!(r.hostname, "my-host");
    assert_eq!(r.app_id, "sapphire-workspace-cli");
    assert_eq!(r.app_version, "0.9.0");
    // Fresh registration: context had None, record uses registered_at.
    assert_eq!(r.registered_at, r.updated_at);
}

#[test]
fn merge_first_time_preserves_context_updated_at() {
    // A rename that happened in workspace A propagated into the
    // context.  Opening workspace B for the first time should carry
    // that timestamp over so subsequent merges don't oscillate.
    let mut registry = empty_registry("first-with-ts");
    let mut c = ctx("host");
    c.name = "renamed".into();
    let now = Timestamp::now();
    let t = Timestamp { secs: now.secs - 3600, nanos: now.nanos };
    c.updated_at = Some(t);
    let outcome = registry.merge_device_context(&c);
    assert!(outcome.changed);
    assert_eq!(outcome.record.name, "renamed");
    assert_eq!(outcome.record.updated_at, t);
}

#[test]
fn merge_is_idempotent_on_unchanged_input() {
    let mut registry = empty_registry("idem");
    let c = ctx("a");
    assert!(registry.merge_device_context(&c).changed);
    let before_updated = registry.lookup(c.id).unwrap().updated_at;
    tick(before_updated);
    let second = registry.merge_device_context(&c);
    assert!(!second.changed);
    assert_eq!(registry.lookup(c.id).unwrap().updated_at, before_updated);
}

#[test]
fn merge_overwrites_host_fields_without_bumping_updated_at() {
    let mut registry = empty_registry("host-overwrite");
    let c = ctx("host-a");
    assert!(registry.merge_device_context(&c).changed);
    let before = registry.lookup(c.id).unwrap().copy();
    tick(before.updated_at);
    let mut bumped = c.clone();
    bumped.app_version = "2.0.0".into();
    bumped.platform = "macos".into();
    let outcome = registry.merge_device_context(&bumped);
    assert!(outcome.changed);
    let after = registry.lookup(c.id).unwrap();
    assert_eq!(after.app_version, "2.0.0");
    assert_eq!(after.platform, "macos");
    // Host-only change must not bump updated_at.
    assert_eq!(after.updated_at, before.updated_at);
    // Name unchanged.
    assert_eq!(after.name, before.name);
}

#[test]
fn merge_context_wins_name_when_updated_at_newer() {
    let mut registry = empty_registry("ctx-wins");
    let c = ctx("host");
    registry.merge_device_context(&c);
    let existing_updated = registry.lookup(c.id).unwrap().updated_at;

    let mut c2 = c.clone();
    c2.name = "ctx-name".into();
    c2.updated_at =
        Some(Timestamp { secs: existing_updated.secs + 10, nanos: existing_updated.nanos });
    let outcome = registry.merge_device_context(&c2);
    assert!(outcome.changed);
    assert_eq!(registry.lookup(c.id).unwrap().name, "ctx-name");
    assert_eq!(registry.lookup(c.id).unwrap().updated_at, c2.updated_at.unwrap());
}

#[test]
fn merge_record_wins_name_when_newer() {
    let mut registry = empty_registry("rec-wins");
    let c = ctx("host");
    registry.merge_device_context(&c);
    registry.set_name(c.id, "record-name").unwrap();
    let record_updated = registry.lookup(c.id).unwrap().updated_at;

    let mut c2 = c.clone();
    c2.name = "stale-ctx-name".into();
    c2.updated_at = Some(Timestamp { secs: record_updated.secs - 10, nanos: record_updated.nanos });
    let outcome = registry.merge_device_context(&c2);
    // Host fields match, name-wise record wins: no change at all.
    assert!(!outcome.changed);
    assert_eq!(registry.lookup(c.id).unwrap().name, "record-name");
}

#[test]
fn merge_keeps_uuidv7_order() {
    let mut registry = empty_registry("order");
    let a_id = Uuid::now_v7();
    let b_id = Uuid::now_v7();
    let mut b = ctx("b");
    b.id = b_id;
    let mut a = ctx("a");
    a.id = a_id;
    // Insert in reverse order: storage should still be ascending.
    registry.merge_device_context(&b);
    registry.merge_device_context(&a);
    let ids: Vec<Uuid> = registry.records().iter().map(|r| r.id).collect();
    assert_eq!(ids, vec![a_id, b_id]);
    assert_eq!(registry.device_number(a_id), Some(1));
    assert_eq!(registry.device_number(b_id), Some(2));
}

fn to_json(r: &DeviceRecord) -> String {
    let mut m = serde_json::Map::new();
    let texts = [
        ("id", r.id.to_text()),
        ("name", r.name.clone()),
        ("hostname", r.hostname.clone()),
        ("app_id", r.app_id.clone()),
        ("app_version", r.app_version.clone()),
        ("platform", r.platform.clone()),
        ("arch", r.arch.clone()),
    ];
    for (k, v) in texts {
        m.insert(k.to_owned(), serde_json::Value::String(v));
    }
    m.insert("registered_secs".to_owned(), serde_json::Value::from(r.registered_at.secs));
    m.insert("registered_nanos".to_owned(), serde_json::Value::from(r.registered_at.nanos));
    m.insert("updated_secs".to_owned(), serde_json::Value::from(r.updated_at.secs));
    m.insert("updated_nanos".to_owned(), serde_json::Value::from(r.updated_at.nanos));
    serde_json::Value::Object(m).to_string()
}

fn from_json(line: &str) -> Result<DeviceRecord, String> {
    let v: serde_json::Value = serde_json::from_str(line).map_err(|e| e.to_string())?;
    let text = |k: &str| v[k].as_str().unwrap().to_owned();
    let time = |s: &str, n: &str| Timestamp {
        secs: v[s].as_i64().unwrap(),
        nanos: v[n].as_u64().unwrap() as u32,
    };
    Ok(DeviceRecord {
        id: Uuid::parse(&text("id")).unwrap(),
        name: text("name"),
        hostname: text("hostname"),
        app_id: text("app_id"),
        app_version: text("app_version"),
        platform: text("platform"),
        arch: text("arch"),
        registered_at: time("registered_secs", "registered_nanos"),
        updated_at: time("updated_secs", "updated_nanos"),
    })
}

fn read_file(contents: &str) -> Result<DeviceRegistry, Error> {
    let entries = record_lines(contents).into_iter().map(|(n, l)| (n, from_json(&l))).collect();
    DeviceRegistry::load(FsPath::from_text("devices.jsonl"), entries)
}

#[test]
fn save_load_roundtrip_preserves_all_fields() {
    let mut registry = empty_registry("rt");
    registry.merge_device_context(&ctx("round"));
    registry.merge_device_context(&ctx("trip\nwith \"quotes\""));
    let lines: Vec<String> = registry.records().iter().map(to_json).collect();
    let contents = file_text(&lines);
    assert!(contents.ends_with('\n'));

    let reloaded = read_file(&contents).unwrap();
    assert_eq!(reloaded.records().len(), registry.records().len());
    for (a, b) in reloaded.records().iter().zip(registry.records().iter()) {
        assert!(same_record(a, b));
    }
}

#[test]
fn set_name_bumps_updated_at_only() {
    let mut registry = empty_registry("setname");
    let c = ctx("seed");
    registry.merge_device_context(&c);
    let before = registry.lookup(c.id).unwrap().copy();
    tick(before.updated_at);
    registry.set_name(c.id, "alice-laptop").unwrap();
    let after = registry.lookup(c.id).unwrap();
    assert_eq!(after.name, "alice-laptop");
    assert_eq!(after.id, before.id);
    assert_eq!(after.registered_at, before.registered_at);
    assert_eq!(after.hostname, before.hostname);
    assert_eq!(after.app_id, before.app_id);
    assert_eq!(after.app_version, before.app_version);
    assert_eq!(after.platform, before.platform);
    assert_eq!(after.arch, before.arch);
    assert!(before.updated_at.is_before(after.updated_at));
}

#[test]
fn set_name_unknown_id_errors() {
    let mut registry = empty_registry("setname-missing");
    let err = registry.set_name(Uuid::now_v7(), "nope").unwrap_err();
    assert!(matches!(err, Error::DeviceNotFound { .. }));
}

#[test]
fn update_if_newer_respects_updated_at() {
    let mut registry = empty_registry("newer");
    let c = ctx("old");
    registry.merge_device_context(&c);

    let mut incoming = registry.lookup(c.id).unwrap().copy();
    incoming.name = "old-but-older".to_owned();
    incoming.updated_at.secs -= 10;
    assert!(!registry.update_if_newer(incoming).unwrap());
    assert_ne!(registry.lookup(c.id).unwrap().name, "old-but-older");

    let mut fresh = registry.lookup(c.id).unwrap().copy();
    fresh.name = "winner".to_owned();
    fresh.updated_at = Timestamp::now();
    fresh.updated_at.secs += 1;
    assert!(registry.update_if_newer(fresh).unwrap());
    assert_eq!(registry.lookup(c.id).unwrap().name, "winner");
}

#[test]
fn update_if_newer_inserts_unknown_devices() {
    let mut registry = empty_registry("insert");
    let c = ctx("a");
    let known = registry.merge_device_context(&c).record;
    let mut other = known.copy();
    other.id = Uuid { value: known.id.value - 1 };
    assert!(registry.update_if_newer(other.copy()).unwrap());
    assert!(!registry.update_if_newer(other).unwrap());
    assert_eq!(registry.device_number(known.id), Some(2));
}

#[test]
fn malformed_line_reports_error_with_line_number() {
    let err = read_file("not-json\n").unwrap_err();
    match err {
        Error::DeviceRecordParse { line, .. } => assert_eq!(line, 1),
        other => panic!("unexpected error: {other:?}"),
    }
}

#[test]
fn blank_lines_count_but_hold_nothing() {
    let lines = record_lines("\n  \r\nfirst\r\n\nsecond");
    assert_eq!(lines, vec![(3, "first".to_owned()), (5, "second".to_owned())]);
    assert_eq!(file_text(&Vec::new()), "");
    assert_eq!(file_text(&vec!["a".to_owned(), "b".to_owned()]), "a\nb\n");
}

#[test]
fn registry_file_is_sorted_on_load() {
    let mut registry = empty_registry("sorted");
    let first = registry.merge_device_context(&ctx("a")).record;
    let second = registry.merge_device_context(&ctx("b")).record;
    let contents = file_text(&vec![to_json(&second), to_json(&first)]);
    let reloaded = read_file(&contents).unwrap();
    assert_eq!(reloaded.records()[0].id, first.id);
    assert_eq!(reloaded.records()[1].id, second.id);
}

#[test]
fn merge_at_a_given_time() {
    let mut registry = empty_registry("at");
    let c = ctx("h");
    let now = Timestamp { secs: 1000, nanos: 5 };
    let outcome = registry.merge_device_context_at(&c, now);
    assert_eq!(outcome.record.registered_at, now);
    assert_eq!(outcome.record.updated_at, now);
    // A context whose name was changed at the same moment does not win.
    let mut same = c.clone();
    same.name = "other".to_owned();
    same.updated_at = Some(now);
    assert!(!registry.merge_device_context_at(&same, Timestamp { secs: 2000, nanos: 0 }).changed);
    registry.set_name_at(c.id, "n", Timestamp { secs: 1, nanos: 0 }).unwrap();
    assert_eq!(registry.lookup(c.id).unwrap().updated_at.secs, 1);
}

#[test]
fn error_texts_of_devices() {
    let id = Uuid { value: 0x0123_4567_89ab_cdef_0123_4567_89ab_cdef };
    assert_eq!(
        Error::DeviceNotFound { id }.message(),
        "device record for id '01234567-89ab-cdef-0123-456789abcdef' not found in registry"
    );
    let e = Error::DeviceRecordParse { path: "p".into(), line: 12, reason: "r".into() };
    assert_eq!(e.message(), "malformed device record at 'p' line 12: r");
}

#[test]
fn targets_by_number_and_identifier() {
    let mut registry = empty_registry("targets");
    let a = registry.merge_device_context(&ctx("a")).record;
    let b = registry.merge_device_context(&ctx("b")).record;

    let (r, n) = device::resolve_target(&registry, "2").unwrap();
    assert_eq!((r.id, n), (b.id, 2));
    let (r, n) = device::resolve_target(&registry, &a.id.to_text()).unwrap();
    assert_eq!((r.id, n), (a.id, 1));

    let out = device::resolve_target(&registry, "3").unwrap_err();
    assert_eq!(out.message(), "device number 3 out of range (1..=2)");
    assert!(matches!(
        device::resolve_target(&registry, "0").unwrap_err(),
        DeviceError::OutOfRange { number: 0, count: 2 }
    ));
    let unknown = Uuid { value: 7 };
    assert_eq!(
        device::resolve_target(&registry, &unknown.to_text()).unwrap_err().message(),
        "no device with id 00000000-0000-0000-0000-000000000007 in registry"
    );
    let text = device::resolve_target(&registry, "laptop").unwrap_err().message();
    assert!(text.starts_with("'laptop' is neither a UUID nor a device number: "));
}

#[test]
fn device_commands() {
    let mut registry = empty_registry("commands");
    let mut c = ctx("host");
    c.name = "a name that is longer than twenty".to_owned();
    c.app_version = "1".to_owned();
    let me = registry.merge_device_context(&c).record;

    match device::run(&registry, Some(me.id), &DeviceCommand::List).unwrap() {
        DeviceOutcome::Listing(rows) => {
            assert_eq!(rows.len(), 1);
            assert!(rows[0].is_self);
            assert_eq!(rows[0].number, 1);
            assert_eq!(rows[0].name, "a name that is long\u{2026}");
            assert_eq!(rows[0].app, "sapphire-workspace-cli 1");
            assert_eq!(rows[0].platform, "linux");
            assert_eq!(rows[0].id, me.id.to_text());
        }
        other => panic!("unexpected: {other:?}"),
    }
    let rename = DeviceCommand::SetName { name: "new".to_owned() };
    assert!(matches!(
        device::run(&registry, None, &rename).unwrap(),
        DeviceOutcome::Rename(n) if n == "new"
    ));
    let show = DeviceCommand::Show { target: None };
    match device::run(&registry, Some(me.id), &show).unwrap() {
        DeviceOutcome::Record { record, number, is_self } => {
            assert_eq!((record.id, number, is_self), (me.id, 1, true));
        }
        other => panic!("unexpected: {other:?}"),
    }
    assert_eq!(
        device::run(&registry, None, &show).unwrap_err().message(),
        "cannot determine this device's id"
    );
    assert_eq!(
        device::run(&registry, Some(Uuid { value: 1 }), &show).unwrap_err().message(),
        "this device is not registered yet"
    );
}

#[test]
fn truncation_of_names() {
    assert_eq!(device::truncate("abc", 3), "abc");
    assert_eq!(device::truncate("abcd", 3), "ab\u{2026}");
    assert_eq!(device::truncate("日本語文", 3), "日本\u{2026}");
    assert_eq!(device::truncate("a", 0), "\u{2026}");
    assert_eq!(device::truncate("", 0), "");
}

#[test]
fn device_numbers_are_stable() {
    let mut registry = empty_registry("stable");
    let mut first = ctx("a");
    first.id = Uuid { value: 10 };
    let mut second = ctx("b");
    second.id = Uuid { value: 20 };
    registry.merge_device_context(&first);
    registry.merge_device_context(&second);
    let mut third = ctx("c");
    third.id = Uuid { value: 30 };
    registry.merge_device_context(&third);
    assert_eq!(registry.device_number(first.id), Some(1));
    assert_eq!(registry.device_number(second.id), Some(2));
    assert_eq!(registry.device_number(third.id), Some(3));
    assert_eq!(registry.device_number(Uuid { value: 11 }), None);
}

#[test]
fn lines_about_devices() {
    let mut registry = empty_registry("lines");
    assert_eq!(
        table_lines(&device::list_rows(&registry, None)),
        Some(vec!["(no devices registered)".to_owned()])
    );
    let mut c = ctx("host");
    c.id = Uuid { value: 0x0123_4567_89ab_cdef_0123_4567_89ab_cdef };
    c.name = "名前".to_owned();
    c.app_version = "1.2".to_owned();
    c.updated_at = None;
    // 2015-05-15 00:00:07 UTC and half a second.
    let t = Timestamp { secs: 1_431_648_007, nanos: 500_000_000 };
    let me = registry.merge_device_context_at(&c, t).record;

    let lines = table_lines(&device::list_rows(&registry, Some(me.id))).unwrap();
    assert_eq!(
        lines,
        vec![
            format!(" {:>2}  {:36}  {:20}  {:24}  {:8}  updated_at", "#", "id", "name", "app", "platform"),
            format!(
                "*{:>2}  {:36}  {:20}  {:24}  {:8}  2015-05-15 00:00:07Z",
                1,
                "01234567-89ab-cdef-0123-456789abcdef",
                "名前",
                device::truncate(&format!("{} 1.2", me.app_id), 24),
                me.platform,
            ),
        ]
    );
    assert!(table_lines(&device::list_rows(&registry, None)).unwrap()[1].starts_with("  1  0123"));

    let shown = show_lines(&me, 12, true).unwrap();
    assert_eq!(
        shown,
        vec![
            "device number:  12".to_owned(),
            "id:             01234567-89ab-cdef-0123-456789abcdef".to_owned(),
            "name:           名前".to_owned(),
            format!("hostname:       {}", me.hostname),
            format!("app:            {} 1.2", me.app_id),
            format!("platform:       {} / {}", me.platform, me.arch),
            "registered_at:  2015-05-15T00:00:07.500+00:00".to_owned(),
            "updated_at:     2015-05-15T00:00:07.500+00:00".to_owned(),
            "(this device)".to_owned(),
        ]
    );
    assert_eq!(show_lines(&me, 12, false).unwrap()[..], shown[..8]);
    assert_eq!(
        renamed_lines("new", Some(me.id)),
        vec![
            "device name updated to 'new' (id: 01234567-89ab-cdef-0123-456789abcdef)",
            "next `sync` will commit and push this change",
        ]
    );
    assert_eq!(renamed_lines("new", None)[0], "device name updated to 'new'");
}

#[test]
fn times_outside_of_the_calendar() {
    let far = Timestamp { secs: i64::MAX, nanos: 0 };
    assert_eq!(far.to_date_text(), None);
    assert_eq!(far.to_rfc3339(), None);
    let mut registry = empty_registry("far");
    let me = registry.merge_device_context_at(&ctx("host"), far).record;
    assert_eq!(show_lines(&me, 1, false), None);
}

#[test]
fn the_present_is_a_date() {
    let now = Timestamp::now();
    assert!(now.nanos < 1_000_000_000);
    let date = now.to_date_text().unwrap();
    let full = now.to_rfc3339().unwrap();
    assert_eq!(date[..10], full[..10]);
    assert_eq!(date[11..19], full[11..19]);
}
