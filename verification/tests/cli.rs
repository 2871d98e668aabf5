//! The command-line program.

use sapphire_workspace::cli::config::UserConfig;
use sapphire_workspace::cli::info::{
    describe, describe_embedding, human_size, is_stale_lancedb, is_stale_retrieve,
};
use sapphire_workspace::cli::mcp::{
    embeds_backlog, search_limit, workspace_info, workspace_rebuilt, workspace_synced,
};
use sapphire_workspace::cli::watch::{
    path_action, PathAction, Wake, WatchAction, WatchEvent, WatchLoop, WatchTimers,
};
use sapphire_workspace::paths::FsPath;
use sapphire_workspace::retrieve::config::{EmbeddingConfig, RetrieveConfig, VectorDb};
use sapphire_workspace::retrieve::lancedb_store::data_dir;
use sapphire_workspace::retrieve::vector_store::VecInfo;
use sapphire_workspace::sync::config::SyncConfig;
use sapphire_workspace::workspace::config::EnvOverrides;
use sapphire_workspace::workspace::context::AppContext;
use sapphire_workspace::workspace::workspace::Workspace;
use sapphire_workspace::workspace::workspace_state::db_info;

fn float_size(bytes: u64) -> String {
    if bytes >= 1_073_741_824 {
        format!("{:.1} GB", bytes as f64 / 1_073_741_824.0)
    } else if bytes >= 1_048_576 {
        format!("{:.1} MB", bytes as f64 / 1_048_576.0)
    } else if bytes >= 1_024 {
        format!("{:.1} KB", bytes as f64 / 1_024.0)
    } else {
        format!("{bytes} B")
    }
}

#[test]
fn sizes_for_people() {
    assert_eq!(human_size(0), "0 B");
    assert_eq!(human_size(1023), "1023 B");
    assert_eq!(human_size(1024), "1.0 KB");
    assert_eq!(human_size(1536), "1.5 KB");
    assert_eq!(human_size(1_048_575), "1024.0 KB");
    assert_eq!(human_size(5_368_709_120), "5.0 GB");
    // Exactly between two tenths: the even one.
    assert_eq!(human_size(1280), "1.2 KB");
    assert_eq!(human_size(1792), "1.8 KB");
}

#[test]
fn sizes_agree_with_floating_point() {
    let mut n: u64 = 1;
    for i in 0..4000u64 {
        n = n.wrapping_mul(6364136223846793005).wrapping_add(1442695040888963407);
        let bytes = n >> (i % 64);
        assert_eq!(human_size(bytes), float_size(bytes));
    }
    for k in 0..64 {
        for d in [0u64, 1, 2, 3, 512, 1024] {
            let bytes = (1u64 << k).wrapping_add(d);
            assert_eq!(human_size(bytes), float_size(bytes));
            let below = (1u64 << k).wrapping_sub(d);
            assert_eq!(human_size(below), float_size(below));
        }
    }
    for bytes in 1024..20000 {
        assert_eq!(human_size(bytes), float_size(bytes));
    }
}

#[test]
fn stale_names() {
    assert!(is_stale_retrieve("retrieve_v3.db"));
    assert!(is_stale_retrieve("retrieve_v40.db"));
    assert!(!is_stale_retrieve("retrieve_v4.db"));
    assert!(!is_stale_retrieve("retrieve_v3.db-wal"));
    assert!(!is_stale_retrieve("other_v3.db"));
    assert!(is_stale_lancedb("lancedb_full_v2"));
    assert!(is_stale_lancedb("lancedb_full_v-1"));
    assert!(is_stale_lancedb("lancedb_full_v03"));
    assert!(!is_stale_lancedb("lancedb_full_v3"));
    assert!(!is_stale_lancedb("lancedb_full_v"));
    assert!(!is_stale_lancedb("lancedb_full_vx"));
    assert!(!is_stale_lancedb("lancedb_v1"));
    assert!(!is_stale_lancedb("lancedb_v4"));
    assert!(!is_stale_lancedb("lancedb_v3"));
    assert!(!is_stale_lancedb("lancedb_v"));
    assert!(!is_stale_lancedb("lancedb_x1"));
    assert!(!is_stale_lancedb("lancedb_full_v2147483648"));
}

#[test]
fn descriptions_of_a_workspace() {
    let info = db_info(FsPath::from_text("/c/db"), Some(3), None);
    assert_eq!(
        describe("/w", &info, &Vec::new(), 0),
        vec![
            "workspace:      /w",
            "db path:        /c/db",
            "schema version: v4 (app: v4)",
            "documents:      3",
        ]
    );
    let stale = vec!["retrieve_v2.db".to_owned(), "retrieve_v3.db".to_owned()];
    assert_eq!(
        describe("/w", &info, &stale, 2048)[4],
        "stale dbs:      retrieve_v2.db, retrieve_v3.db (2.0 KB) — run `sapphire-workspace clean` to remove"
    );
    assert_eq!(
        workspace_info("/w", &info),
        "workspace:      /w\ndb path:        /c/db\nschema version: v4\ndocuments:      3"
    );
    assert_eq!(workspace_synced(7), "synced: 7 files");
    assert_eq!(workspace_rebuilt(7), "rebuilt: 7 files indexed");
}

#[test]
fn descriptions_of_embeddings() {
    let mut c = RetrieveConfig::default();
    let none: Vec<String> = Vec::new();
    assert!(describe_embedding(&c, None, "", &none, 0).is_empty());
    let mut e = EmbeddingConfig::default();
    e.enabled = true;
    e.provider = "openai".to_owned();
    e.model = "m".to_owned();
    c.embedding = Some(e);
    let first = "embedding:      enabled (provider=openai, model=m)";
    assert_eq!(describe_embedding(&c, None, "", &none, 0), vec![first]);
    c.db = VectorDb::SqliteVec;
    assert_eq!(
        describe_embedding(&c, None, "", &none, 0),
        vec![first, "vector backend: sqlite_vec (dimension not configured)"]
    );
    c.embedding.as_mut().unwrap().dimension = Some(3);
    let vectors = VecInfo { embedding_dim: 3, vector_count: 5, pending_count: 2 };
    assert_eq!(
        describe_embedding(&c, Some(vectors), "", &none, 0),
        vec![first, "vector backend: sqlite_vec (dim=3)", "vectors:        5 indexed, 2 pending"]
    );
    c.db = VectorDb::LanceDb;
    assert_eq!(
        describe_embedding(&c, Some(vectors), "/l", &vec!["lancedb_full_v1".to_owned()], 10),
        vec![
            first,
            "vector backend: lancedb",
            "lancedb path:   /l",
            "vectors:        5 indexed, 2 pending",
            "stale lancedb:  lancedb_full_v1 (10 B) — run `sapphire-workspace clean` to remove",
        ]
    );
}

#[test]
fn searches_embed_a_small_backlog() {
    assert!(!embeds_backlog(0));
    assert!(embeds_backlog(1));
    assert!(embeds_backlog(50));
    assert!(!embeds_backlog(51));
    assert_eq!(search_limit(None), 10);
    assert_eq!(search_limit(Some(0)), 0);
}

#[test]
fn settings_of_the_program() {
    let mut c = UserConfig {
        sync_interval_minutes: Some(2),
        sync: SyncConfig::default(),
        retrieve: RetrieveConfig::default(),
    };
    assert_eq!(c.sync_interval(), Some(120));
    let env = EnvOverrides {
        retrieve_db: Some("lancedb".to_owned()),
        enabled: None,
        provider: None,
        model: None,
        api_key_env: None,
        base_url: None,
        dimension: None,
    };
    c.apply_env_overrides(&env);
    assert_eq!(c.retrieve.db, VectorDb::LanceDb);
    assert!(c.retrieve.embedding.is_some());
}

#[test]
fn changes_to_files() {
    assert_eq!(path_action(b"/w/a.md", true, true), PathAction::Upsert);
    assert_eq!(path_action(b"/w/a.md", false, false), PathAction::Delete);
    assert_eq!(path_action(b"/w/dir", false, true), PathAction::Ignore);
    assert_eq!(path_action(b"/w/.git/x", true, true), PathAction::Ignore);
    assert_eq!(path_action(b"/w/../a.md", true, true), PathAction::Ignore);
    assert_eq!(path_action(b"./a.md", true, true), PathAction::Ignore);
    assert_eq!(path_action(b"/w/.\xff", true, true), PathAction::Ignore);
    assert_eq!(path_action(b"/w/\xff.md", true, true), PathAction::Upsert);
}

const SECOND: u128 = 1_000_000_000;

#[test]
fn watching_without_tasks() {
    let (mut w, first) = WatchLoop::start(WatchTimers::start(None, None, 5), 5);
    assert_eq!(first, WatchAction::Wait(None));
    assert_eq!(w.advance(WatchEvent::Woke(Wake::Events), 6), WatchAction::HandleFiles);
    assert_eq!(w.advance(WatchEvent::Done, 7), WatchAction::Wait(None));
    assert_eq!(w.advance(WatchEvent::Woke(Wake::WatchError), 8), WatchAction::ReportError);
    assert_eq!(w.advance(WatchEvent::Done, 9), WatchAction::Wait(None));
    assert_eq!(w.advance(WatchEvent::Woke(Wake::Disconnected), 10), WatchAction::Stop);
}

#[test]
fn watching_with_tasks() {
    let (mut w, first) = WatchLoop::start(WatchTimers::start(Some(60), Some(90), 0), 0);
    assert_eq!(first, WatchAction::Wait(Some(60 * SECOND)));
    // Nothing is due yet after a change.
    assert_eq!(w.advance(WatchEvent::Woke(Wake::Events), SECOND), WatchAction::HandleFiles);
    assert_eq!(w.advance(WatchEvent::Done, 2 * SECOND), WatchAction::Wait(Some(58 * SECOND)));
    // Git is due.
    assert_eq!(w.advance(WatchEvent::Woke(Wake::Timeout), 60 * SECOND), WatchAction::RunGit);
    assert_eq!(w.advance(WatchEvent::Done, 61 * SECOND), WatchAction::Wait(Some(29 * SECOND)));
    // Both are due.
    assert_eq!(w.advance(WatchEvent::Woke(Wake::Timeout), 130 * SECOND), WatchAction::RunGit);
    assert_eq!(w.advance(WatchEvent::Done, 131 * SECOND), WatchAction::RunRetrieve);
    assert_eq!(w.advance(WatchEvent::Done, 140 * SECOND), WatchAction::Wait(Some(51 * SECOND)));
    // An error does not run tasks.
    assert_eq!(w.advance(WatchEvent::Woke(Wake::WatchError), 500 * SECOND), WatchAction::ReportError);
    assert_eq!(w.advance(WatchEvent::Done, 500 * SECOND), WatchAction::Wait(Some(0)));
}

#[test]
fn what_is_in_use_is_not_stale() {
    let mut ctx = AppContext::new("app");
    ctx.set_cache_dir(FsPath::from_text("/c"));
    let workspace = Workspace::at("app", FsPath::from_text("/w"));
    let db = workspace.retrieve_db_path(&ctx);
    assert!(!is_stale_retrieve(db.text.rsplit('/').next().unwrap()));
    let tables = data_dir(&FsPath::from_text("/c"));
    assert!(!is_stale_lancedb(tables.text.rsplit('/').next().unwrap()));
}
