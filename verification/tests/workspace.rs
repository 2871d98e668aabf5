//! Workspaces, their configuration and their index.

use sapphire_workspace::ids::{Timestamp, Uuid};
use sapphire_workspace::retrieve::config::{RetrieveConfig, VectorDb};
use sapphire_workspace::retrieve::sqlite_store::{upsert_chunks, ChunkOp, StoredChunk};
use sapphire_workspace::sync::config::SyncConfig;
use sapphire_workspace::sync::devices::DeviceDefaults;
use sapphire_workspace::paths::{with_slashes, FsPath};
use sapphire_workspace::workspace::config::{EnvOverrides, UserConfig, WorkspaceConfig};
use sapphire_workspace::workspace::context::{load_or_create_device_id, AppContext};
use sapphire_workspace::workspace::error::Error;
use sapphire_workspace::workspace::identity::{
    path_hash, path_to_doc_id, path_uuid, uuid_of_digest,
};
use sapphire_workspace::workspace::indexer::{
    file_kind, lower_kind, make_document, walk_into, FileEntry, FileKind, SyncRun,
};
use sapphire_workspace::workspace::util::merge_toml_values;
use sapphire_workspace::workspace::workspace::{
    ancestors, cache_home, consents, hashed_cache_name, marker_name, parent, root_source, RootSource,
    Workspace, DEFAULT_WORKSPACE_MARKER,
};
use sapphire_workspace::workspace::workspace_state::{
    check_embedding, db_info, load_embedder, load_retrieve_backend, on_file_deleted,
    on_file_updated, EmbedRefusal, VectorBackend,
};

fn toml(text: &str) -> toml::Value {
    toml::Value::Table(text.parse::<toml::Table>().unwrap())
}

#[test]
fn overlays_are_merged_table_by_table() {
    let base = toml(
        "a = 1\nlist = [1, 2]\n[retrieve.embedding]\nmodel = \"large\"\ndimension = 3072\nprovider = \"p\"\n",
    );
    let overlay = toml(
        "b = 2.5\nlist = [3]\n[retrieve.embedding]\nmodel = \"small\"\ndimension = 1536\n[sync]\nbackend = \"git\"\n",
    );
    let merged = merge_toml_values(base.clone(), overlay.clone());
    let expected = toml(
        "a = 1\nb = 2.5\nlist = [3]\n[retrieve.embedding]\nmodel = \"small\"\ndimension = 1536\nprovider = \"p\"\n[sync]\nbackend = \"git\"\n",
    );
    assert_eq!(merged, expected);
    assert_eq!(merge_toml_values(merged.clone(), overlay), merged);
    assert_eq!(merge_toml_values(base.clone(), toml("")), base);
}

#[test]
fn overlays_replace_what_is_no_table() {
    let merged = merge_toml_values(toml("x = 1\n[y]\nz = 1\n"), toml("y = \"s\"\n[x]\nq = 2\n"));
    assert_eq!(merged, toml("y = \"s\"\n[x]\nq = 2\n"));
    let leaf = merge_toml_values(toml::Value::Integer(1), toml::Value::Boolean(true));
    assert_eq!(leaf, toml::Value::Boolean(true));
    let table = merge_toml_values(toml::Value::Integer(1), toml("a = 1"));
    assert_eq!(table, toml("a = 1"));
}

fn no_env() -> EnvOverrides {
    EnvOverrides {
        retrieve_db: None,
        enabled: None,
        provider: None,
        model: None,
        api_key_env: None,
        base_url: None,
        dimension: None,
    }
}

#[test]
fn an_empty_environment_overrides_nothing() {
    let mut c = UserConfig { retrieve: None };
    let mut env = no_env();
    env.retrieve_db = Some("postgres".to_owned());
    env.dimension = Some("many".to_owned());
    c.apply_env_overrides(&env);
    assert!(c.retrieve.is_none());
    assert!(!env.overrides_any());
}

#[test]
fn the_environment_overrides_settings() {
    let mut c = UserConfig { retrieve: None };
    let env = EnvOverrides {
        retrieve_db: Some("sqlite_vec".to_owned()),
        enabled: Some("yes".to_owned()),
        provider: Some("openai".to_owned()),
        model: None,
        api_key_env: Some("K".to_owned()),
        base_url: None,
        dimension: Some("1536".to_owned()),
    };
    c.apply_env_overrides(&env);
    let r = c.retrieve.as_ref().unwrap();
    assert_eq!(r.db, VectorDb::SqliteVec);
    let e = r.embedding.as_ref().unwrap();
    assert!(e.enabled);
    assert_eq!(e.provider, "openai");
    assert_eq!(e.model, "");
    assert_eq!(e.api_key_env.as_deref(), Some("K"));
    assert_eq!(e.dimension, Some(1536));

    let mut more = no_env();
    more.enabled = Some("TRUE".to_owned());
    more.model = Some("m".to_owned());
    more.base_url = Some("u".to_owned());
    c.apply_env_overrides(&more);
    let e = c.retrieve.as_ref().unwrap().embedding.as_ref().unwrap();
    assert!(!e.enabled);
    assert_eq!((e.provider.as_str(), e.model.as_str()), ("openai", "m"));
    assert_eq!(e.base_url.as_deref(), Some("u"));
    for word in ["1", "true", "yes"] {
        let mut on = no_env();
        on.enabled = Some(word.to_owned());
        let mut c = UserConfig { retrieve: None };
        c.apply_env_overrides(&on);
        assert!(c.retrieve.unwrap().embedding.unwrap().enabled);
    }
}

#[test]
fn workspace_settings_serve_as_user_settings() {
    let mut c = WorkspaceConfig { sync: SyncConfig::default(), retrieve: RetrieveConfig::default() };
    c.retrieve.db = VectorDb::LanceDb;
    assert_eq!(c.to_user_config().retrieve.unwrap().db, VectorDb::LanceDb);
}

fn defaults() -> DeviceDefaults {
    DeviceDefaults {
        hostname: "host".to_owned(),
        app_id: "app".to_owned(),
        app_version: "1".to_owned(),
        platform: "linux".to_owned(),
        arch: "x86_64".to_owned(),
    }
}

#[test]
fn what_is_given_first_counts() {
    let mut ctx = AppContext::new("my-app");
    assert_eq!(ctx.app_name, "my-app");
    assert!(!ctx.allows_external_paths());
    ctx.set_cache_dir(FsPath::from_text("/cache"));
    ctx.set_cache_dir(FsPath::from_text("/other"));
    ctx.set_data_dir(FsPath::from_text("/data"));
    ctx.set_data_dir(FsPath::from_text("/other"));
    assert_eq!(ctx.cache_dir().text, "/cache");
    assert_eq!(ctx.data_dir().text, "/data");
    assert_eq!(ctx.model_cache_dir().text, "/cache/models");
    assert_eq!(ctx.device_id_path().text, "/data/device_id");
    let mut second = defaults();
    second.hostname = "ignored".to_owned();
    ctx.set_device_defaults(defaults());
    ctx.set_device_defaults(second);
    assert!(ctx.needs_device_id());
    assert!(ctx.device(None).is_none());
    assert_eq!(ctx.device_id(), None);
    let d = ctx.device(Some(Uuid { value: 1 })).unwrap();
    assert_eq!((d.id.value, d.name.as_str()), (1, "host"));
    assert_eq!(ctx.device(Some(Uuid { value: 2 })).unwrap().id.value, 1);
    assert_eq!(ctx.device_id(), Some(Uuid { value: 1 }));
    let ctx = ctx.allow_external_paths();
    assert!(ctx.allows_external_paths());
    assert_eq!(ctx.cache_dir().text, "/cache");
}

#[test]
fn newer_names_are_taken_over() {
    let mut ctx = AppContext::new("a");
    let t = Timestamp { secs: 10, nanos: 0 };
    assert!(!ctx.update_device_name_if_newer("x", t));
    ctx.set_device_defaults(defaults());
    ctx.device(Some(Uuid { value: 1 }));
    assert!(ctx.update_device_name_if_newer("x", t));
    assert!(!ctx.update_device_name_if_newer("y", t));
    assert!(ctx.update_device_name_if_newer("z", Timestamp { secs: 10, nanos: 1 }));
    let d = ctx.device(None).unwrap();
    assert_eq!(d.name, "z");
    assert_eq!(d.updated_at, Some(Timestamp { secs: 10, nanos: 1 }));
}

#[test]
fn device_identifiers_are_kept() {
    let fresh = load_or_create_device_id(None);
    let text = fresh.write.unwrap();
    assert_eq!(text, fresh.id.to_text());
    assert_eq!(text.as_bytes()[14], b'7');
    let again = load_or_create_device_id(Some(&text));
    assert_eq!(again.id, fresh.id);
    assert!(again.write.is_none());
    let padded = format!("  {text}\n");
    assert_eq!(load_or_create_device_id(Some(&padded)).id, fresh.id);
    let broken = load_or_create_device_id(Some("not an id"));
    assert!(broken.write.is_some());
    assert_ne!(broken.id, fresh.id);
}

#[test]
fn identifiers_as_text() {
    let id = Uuid { value: 0x550e8400_e29b_41d4_a716_446655440000 };
    assert_eq!(id.to_text(), "550e8400-e29b-41d4-a716-446655440000");
    assert_eq!(Uuid::parse("550E8400E29B41D4A716446655440000").unwrap(), id);
    assert!(Uuid::parse("550e8400").is_err());
    assert_eq!(Uuid { value: 0 }.to_text(), "00000000-0000-0000-0000-000000000000");
}

#[test]
fn hashes_of_paths() {
    assert_eq!(path_hash(b""), 0xcbf29ce484222325);
    assert_eq!(path_hash(b"a"), 0xaf63dc4c8601ec8c);
    assert_eq!(path_hash(b"foobar"), 0x85944171f73967e8);
    assert_eq!(path_to_doc_id(b"a"), 0xaf63dc4c8601ec8cu64 as i64);
}

#[test]
fn identifiers_of_workspaces() {
    // MD5("") is d41d8cd98f00b204e9800998ecf8427e.
    assert_eq!(path_uuid(b"").to_text(), "d41d8cd9-8f00-8204-a980-0998ecf8427e");
    // MD5("abc") is 900150983cd24fb0d6963f7d28e17f72.
    assert_eq!(path_uuid(b"abc").to_text(), "90015098-3cd2-8fb0-9696-3f7d28e17f72");
    assert_eq!(
        uuid_of_digest(vec![0xff; 16]).to_text(),
        "ffffffff-ffff-8fff-bfff-ffffffffffff"
    );
}

#[test]
fn directories_upwards() {
    assert_eq!(ancestors("/a/b/c"), vec!["/a/b/c", "/a/b", "/a", "/"]);
    assert_eq!(ancestors("/"), vec!["/"]);
    assert_eq!(parent("/a"), Some("/".to_owned()));
    assert_eq!(parent("/"), None);
    for start in ["/", "/x", "/x/y.z/w"] {
        let expected: Vec<&str> =
            std::path::Path::new(start).ancestors().map(|p| p.to_str().unwrap()).collect();
        assert_eq!(ancestors(start), expected);
    }
}

#[test]
fn workspaces_are_found_upwards() {
    let raw: Vec<Vec<u8>> = vec![b"/a/b".to_vec(), b"/a".to_vec(), b"/".to_vec()];
    let ws = Workspace::find_from("app", "/a/b", &vec![false, true, true], &raw).unwrap();
    assert_eq!((ws.root.text.as_str(), ws.root.raw.as_slice()), ("/a", b"/a".as_slice()));
    assert_eq!(ws.uuid(), path_uuid(b"/a"));
    let e = Workspace::find_from("app", "/a/b", &vec![false, false, false], &raw).unwrap_err();
    assert!(matches!(e, Error::MarkerNotFound { .. }));
    assert_eq!(e.message(), "no '.app' directory found in '/a/b' or any parent");
}

#[test]
fn files_of_a_workspace() {
    let ws = Workspace::from_root("app", FsPath::from_text("/w"), true).unwrap();
    assert_eq!(ws.marker_dir().text, "/w/.app");
    assert_eq!(ws.config_path().text, "/w/.app/config.toml");
    assert_eq!(ws.devices_path().text, "/w/.app/devices.jsonl");
    let mut ctx = AppContext::new("app");
    ctx.set_cache_dir(FsPath::from_text("/c"));
    let id = path_uuid(b"/w").to_text();
    assert_eq!(ws.cache_dir(&ctx).text, format!("/c/{id}"));
    assert_eq!(ctx.cache_dir_for(b"/w").text, format!("/c/{id}"));
    assert_eq!(ws.retrieve_db_path(&ctx).text, format!("/c/{id}/retrieve_v4.db"));
    let e = Workspace::from_root("app", FsPath::from_text("/w"), false).unwrap_err();
    assert_eq!(e.message(), "workspace marker '.app' not found in '/w'");
    let own = Workspace::from_root_with_uuid("app", FsPath::from_text("/w"), Uuid { value: 5 }, true).unwrap();
    assert_eq!(own.uuid(), Uuid { value: 5 });
    assert!(Workspace::from_root_with_uuid("app", FsPath::from_text("/w"), Uuid { value: 5 }, false).is_err());
    assert_eq!(DEFAULT_WORKSPACE_MARKER, marker_name("sapphire-workspace"));
}

#[test]
fn sources_of_the_root() {
    let explicit = FsPath::from_text("/e");
    let source = root_source(Some(&explicit), Some("/v"));
    assert!(matches!(source, RootSource::Explicit(p) if p.text == "/e" && p.raw == b"/e"));
    assert!(matches!(root_source(None, Some("/v")), RootSource::Environment(p) if p == "/v"));
    assert!(matches!(root_source(None, Some("")), RootSource::CurrentDir));
    assert!(matches!(root_source(None, None), RootSource::CurrentDir));
    for yes in ["", "\n", "y\n", " Y "] {
        assert!(consents(yes));
    }
    for no in ["n", "yes", "yy"] {
        assert!(!consents(no));
    }
}

#[test]
fn caches_named_after_hashes() {
    assert_eq!(hashed_cache_name(b"a", Some("dir")), "af63dc4c8601ec8c-dir");
    assert_eq!(hashed_cache_name(b"", None), "cbf29ce484222325-root");
    assert_eq!(cache_home(Some("/x"), Some("/h"), "/t"), "/x");
    assert_eq!(cache_home(Some(""), Some("/h"), "/t"), "/h/.cache");
    assert_eq!(cache_home(None, None, "/t"), "/t");
}

#[test]
fn kinds_of_files() {
    for ext in ["md", "MD", "Markdown", "txt", "rst", "org"] {
        assert_eq!(file_kind(Some(ext)), FileKind::Markdown);
    }
    for ext in ["json", "JSON"] {
        assert_eq!(file_kind(Some(ext)), FileKind::Json);
    }
    for ext in ["jsonl", "JSONL"] {
        assert_eq!(file_kind(Some(ext)), FileKind::Jsonl);
    }
    for ext in ["rs", "", "mdx", "jsonlines"] {
        assert_eq!(file_kind(Some(ext)), FileKind::Other);
    }
    assert_eq!(file_kind(None), FileKind::Other);
    assert_eq!(lower_kind("MD"), FileKind::Other);
    assert!(walk_into(".hidden", false));
    assert!(!walk_into(".git", true));
    assert!(walk_into("dir", true));
    assert!(walk_into("", true));
}

#[test]
fn documents_of_files() {
    let d = make_document(&FsPath::from_text("/w/a.md"), "a.md", "text".to_owned(), FileKind::Markdown);
    assert_eq!(d.id, path_to_doc_id(b"/w/a.md"));
    assert_eq!((d.title.as_str(), d.body.as_str(), d.path.as_str()), ("a.md", "text", "/w/a.md"));
    assert!(d.chunks.is_none());
    let log = "{\"content\":\"x\"}\n\n{\"content\":\"y\"}".to_owned();
    let d = make_document(&FsPath::from_text("/w/l.jsonl"), "l.jsonl", log.clone(), FileKind::Jsonl);
    assert_eq!(d.body, "x\n\ny");
    assert_eq!(
        d.chunks.unwrap(),
        vec![(0, 0, "l.jsonl\n\nx".to_owned()), (2, 2, "l.jsonl\n\ny".to_owned())]
    );
    let d = make_document(&FsPath::from_text("/w/l.jsonl"), "", log, FileKind::Jsonl);
    assert_eq!(d.chunks.unwrap()[0].2, "x");
    let list = "[\n {\"content\":\"x\"},\n {\n\"content\":\"y\"}\n]".to_owned();
    let d = make_document(&FsPath::from_text("/w/l.json"), "l.json", list, FileKind::Json);
    assert_eq!(d.body, "x\n\ny");
    assert_eq!(
        d.chunks.unwrap(),
        vec![(1, 1, "l.json\n\nx".to_owned()), (2, 3, "l.json\n\ny".to_owned())]
    );
}

fn entry(path: &str, ext: Option<&str>, mtime: i64, known: Option<i64>) -> FileEntry {
    FileEntry {
        path: FsPath::from_text(path),
        title: path.trim_start_matches("/w/").to_owned(),
        extension: ext.map(|e| e.to_owned()),
        mtime,
        known_mtime: known,
    }
}

#[test]
fn a_full_run_indexes_every_file() {
    let gone = path_to_doc_id(b"/w/gone.md");
    let unreadable = path_to_doc_id(b"/w/u.md");
    let mut run = SyncRun::full(vec![gone, unreadable, gone]);
    let a = entry("/w/a.md", Some("md"), 1, Some(1));
    assert!(run.wants(&a));
    let up = run.visit(&a, Some("A".to_owned())).unwrap();
    assert_eq!(up.document.body, "A");
    assert_eq!(up.record_mtime, None);
    let other = entry("/w/x.rs", Some("rs"), 1, None);
    assert!(!run.wants(&other));
    assert!(run.visit(&other, None).is_none());
    assert!(run.visit(&entry("/w/u.md", Some("md"), 1, None), None).is_none());
    let s = run.finish();
    assert_eq!((s.upserted, s.removed), (1, 2));
    assert_eq!(s.removals, vec![gone, unreadable]);
    assert!(s.rebuild_before && s.rebuild_after);
}

#[test]
fn an_incremental_run_skips_unchanged_files() {
    let kept = path_to_doc_id(b"/w/a.md");
    let unreadable = path_to_doc_id(b"/w/u.md");
    let mut run = SyncRun::incremental(vec![kept, unreadable]);
    let a = entry("/w/a.md", Some("md"), 1, Some(1));
    assert!(!run.wants(&a));
    assert!(run.visit(&a, None).is_none());
    let u = entry("/w/u.md", Some("md"), 2, Some(1));
    assert!(run.wants(&u));
    assert!(run.visit(&u, None).is_none());
    let s = run.finish();
    assert_eq!((s.upserted, s.removed), (0, 0));
    assert!(!s.rebuild_before && !s.rebuild_after);

    let mut run = SyncRun::incremental(vec![kept]);
    let b = entry("/w/b.md", Some("md"), 7, None);
    let up = run.visit(&b, Some("B".to_owned())).unwrap();
    assert_eq!(up.record_mtime, Some(7));
    let s = run.finish();
    assert_eq!((s.upserted, s.removals), (1, vec![kept]));
    assert!(s.rebuild_before && s.rebuild_after);
}

#[test]
fn changed_and_deleted_files() {
    let d = on_file_updated(&FsPath::from_text("/w/l.jsonl"), "l.jsonl", "{}".to_owned());
    assert_eq!((d.body.as_str(), d.chunks.is_none()), ("{}", true));
    assert_eq!(on_file_deleted(&FsPath::from_text("/w/l.jsonl")), d.id);
}

#[test]
fn settings_of_embeddings() {
    let mut c = RetrieveConfig::default();
    assert_eq!(check_embedding(&c), Err(EmbedRefusal::NoSection));
    assert_eq!(load_retrieve_backend(&c), VectorBackend::Absent);
    assert!(load_embedder(&c, FsPath::from_text("/m")).is_none());
    c.embedding = Some(Default::default());
    assert_eq!(check_embedding(&c), Err(EmbedRefusal::NotEnabled));
    c.embedding.as_mut().unwrap().enabled = true;
    assert_eq!(check_embedding(&c), Err(EmbedRefusal::NoVectorDb));
    let embedder = load_embedder(&c, FsPath::from_text("/m")).unwrap();
    assert_eq!(embedder.cache_dir.unwrap().text, "/m");
    c.db = VectorDb::SqliteVec;
    assert_eq!(check_embedding(&c), Err(EmbedRefusal::NoDimension));
    assert_eq!(load_retrieve_backend(&c), VectorBackend::Absent);
    c.embedding.as_mut().unwrap().dimension = Some(3);
    assert_eq!(check_embedding(&c), Ok(()));
    assert_eq!(load_retrieve_backend(&c), VectorBackend::Sqlite(3));
    c.db = VectorDb::LanceDb;
    assert_eq!(load_retrieve_backend(&c), VectorBackend::LanceDb(3));
}

#[test]
fn statistics_of_a_database() {
    let i = db_info(FsPath::from_text("/db"), None, None);
    assert_eq!((i.schema_version, i.document_count, i.pending_count), (4, 0, 0));
    assert_eq!(db_info(FsPath::from_text("/db"), Some(9), None).document_count, 9);
}

#[test]
fn appending_to_a_log_drops_no_vector() {
    let before = make_document(
        &FsPath::from_text("/w/l.jsonl"),
        "l",
        "{\"text\":\"a\"}\n".to_owned(),
        FileKind::Jsonl,
    );
    let after = make_document(
        &FsPath::from_text("/w/l.jsonl"),
        "l",
        "{\"text\":\"a\"}\n{\"text\":\"b\"}".to_owned(),
        FileKind::Jsonl,
    );
    let stored: Vec<StoredChunk> = before
        .chunks
        .unwrap()
        .into_iter()
        .map(|(line, _, text)| StoredChunk { line_start: line as i64, text })
        .collect();
    let plan = upsert_chunks(&stored, &after.chunks.unwrap(), true);
    assert_eq!(plan.len(), 3);
    assert!(!plan.iter().any(|op| matches!(op, ChunkOp::DropVector { .. })));
}

#[test]
fn the_environment_overrides_once_and_for_all() {
    let mut env = no_env();
    env.enabled = Some("1".to_owned());
    env.dimension = Some("+07".to_owned());
    let mut once = UserConfig { retrieve: None };
    once.apply_env_overrides(&env);
    let mut twice = once.clone();
    twice.apply_env_overrides(&env);
    assert_eq!(format!("{once:?}"), format!("{twice:?}"));
    assert_eq!(once.retrieve.unwrap().embedding.unwrap().dimension, Some(7));
}

#[test]
fn files_are_identified_by_their_bytes() {
    let path = FsPath { raw: b"/w/\xff.md".to_vec(), text: "/w/\u{fffd}.md".to_owned() };
    let d = make_document(&path, "t", "x".to_owned(), FileKind::Markdown);
    assert_eq!(d.id, path_to_doc_id(b"/w/\xff.md"));
    assert_eq!(d.path, "/w/\u{fffd}.md");
    assert_eq!(on_file_deleted(&path), d.id);
    let text = FsPath::from_text("/w/\u{fffd}.md");
    assert_eq!(text.raw, "/w/\u{fffd}.md".as_bytes());
    assert_ne!(make_document(&text, "t", "x".to_owned(), FileKind::Markdown).id, d.id);
    let ws = Workspace::at("app", FsPath { raw: b"/\xff".to_vec(), text: "/\u{fffd}".to_owned() });
    assert_eq!((ws.uuid(), ws.root.text.as_str()), (path_uuid(b"/\xff"), "/\u{fffd}"));
    assert_eq!(ws.devices_path().raw, b"/\xff/.app/devices.jsonl");
    let raw: Vec<Vec<u8>> = vec![b"/\xff/b".to_vec(), b"/\xff".to_vec(), b"/".to_vec()];
    let found = vec![false, true, false];
    let ws = Workspace::find_from("app", "/\u{fffd}/b", &found, &raw).unwrap();
    assert_eq!((ws.root.raw.as_slice(), ws.uuid()), (b"/\xff".as_slice(), path_uuid(b"/\xff")));
}

#[test]
fn paths_with_backslashes() {
    assert_eq!(with_slashes("a\\b", false), "a\\b");
    assert_eq!(with_slashes("C:\\w\\.git\\x", true), "C:/w/.git/x");
    assert_eq!(with_slashes("\\\\?\\C:\\w", true), "C:/w");
    assert_eq!(with_slashes("\\\\?\\UNC\\s", true), "//?/UNC/s");
    assert_eq!(with_slashes("", true), "");
}
