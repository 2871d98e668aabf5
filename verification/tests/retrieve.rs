//! Documents, queries, grouping, the in-memory store and the back ends.

use sapphire_workspace::double::Double;
use sapphire_workspace::paths::FsPath;
use sapphire_workspace::retrieve::config::{
    EmbeddingConfig, HybridConfig, RetrieveConfig, VectorDb,
};
use sapphire_workspace::retrieve::db::{BackendState, InMemoryStore, RetrieveDb};
use sapphire_workspace::retrieve::embed::{
    build_embedder, missing_api_key, parse_float_array, parse_ollama_response,
    parse_openai_response, place_vector, EmbedderChoice, EmbedderConfig, FastEmbedModel,
};
use sapphire_workspace::retrieve::error::Error;
use sapphire_workspace::retrieve::grouping::{group_by_file, ChunkRow};
use sapphire_workspace::retrieve::lance_vectors;
use sapphire_workspace::retrieve::lancedb_store::{self, LanceStep};
use sapphire_workspace::retrieve::patterns;
use sapphire_workspace::retrieve::retrieve_store::{Document, FtsQuery, HybridQuery, VectorQuery};
use sapphire_workspace::retrieve::sqlite_store::{
    self, ChunkOp, SchemaStep, SqliteStore, StoredChunk, VecTableStep,
};
use sapphire_workspace::retrieve::titled::{ChunkSearchResult, TitledChunk, TitledDocument};
use sapphire_workspace::retrieve::vector_store::{embed_batches, vec_serialize, Chunk};

fn score(x: f64) -> Double {
    Double { bits: x.to_bits() }
}

fn row(doc_id: i64, path: &str, line: usize, text: &str, s: f64) -> ChunkRow {
    ChunkRow {
        doc_id,
        path: path.to_owned(),
        line_start: line,
        line_end: line + 1,
        text: text.to_owned(),
        score: score(s),
    }
}

#[test]
fn rows_are_grouped_by_file() {
    let rows = vec![
        row(1, "/a", 0, "a0", -1.0),
        row(2, "/b", 0, "b0", -3.0),
        row(1, "/other", 4, "a4", -2.0),
        row(3, "/c", 7, "c7", -3.0),
        row(1, "/a", 9, "a9", -2.0),
    ];
    let files = group_by_file(rows, 10);
    let ids: Vec<i64> = files.iter().map(|f| f.id).collect();
    assert_eq!(ids, vec![2, 3, 1]);
    assert_eq!(files[2].path, "/a");
    assert_eq!(files[2].score, score(-2.0));
    let hits: Vec<(usize, &str)> =
        files[2].chunks.iter().map(|h| (h.line_start, h.text.as_str())).collect();
    assert_eq!(hits, vec![(4, "a4"), (9, "a9"), (0, "a0")]);
}

#[test]
fn grouping_keeps_the_best_files() {
    let rows = vec![row(1, "/a", 0, "x", 3.0), row(2, "/b", 0, "y", 1.0), row(3, "/c", 0, "z", 2.0)];
    let ids: Vec<i64> = group_by_file(rows.clone(), 2).iter().map(|f| f.id).collect();
    assert_eq!(ids, vec![2, 3]);
    assert!(group_by_file(rows, 0).is_empty());
    assert!(group_by_file(Vec::new(), 5).is_empty());
}

#[test]
fn similar_rows_are_filtered_by_prefix() {
    let rows = vec![row(1, "/w/a", 0, "x", 0.5), row(2, "/v/b", 0, "y", 0.25)];
    let all = sqlite_store::search_similar(rows.clone(), None, 10);
    assert_eq!(all.len(), 2);
    assert_eq!(all[0].id, 2);
    let some = sqlite_store::search_similar(rows, Some("/w"), 10);
    assert_eq!(some.len(), 1);
    assert_eq!(some[0].id, 1);
}

#[test]
fn full_text_rows_lie_under_the_literal_prefix() {
    let rows = vec![row(1, "/w/[a]/x", 0, "x", -0.5), row(2, "/w/a", 0, "y", -0.75)];
    let some = sqlite_store::search_fts(rows.clone(), Some("/w/[a]"), 10);
    assert_eq!(some.iter().map(|f| f.id).collect::<Vec<i64>>(), vec![1]);
    let all = sqlite_store::search_fts(rows, None, 10);
    assert_eq!(all.iter().map(|f| f.id).collect::<Vec<i64>>(), vec![2, 1]);
}

#[test]
fn rows_of_similar_chunks() {
    let mut cut = near(1, 3, 0.5);
    cut.column = 7;
    let rows = lancedb_store::found_rows(vec![cut, near(2, 4, 1.0)]);
    let got: Vec<(i64, usize, usize)> =
        rows.iter().map(|r| (r.doc_id, r.line_start, r.line_end)).collect();
    assert_eq!(got, vec![(1, 3, 7), (2, 4, 4)]);
    assert_eq!((rows[0].path.as_str(), rows[0].text.as_str()), ("/1", "c3"));
}

fn near(doc_id: i64, line: usize, s: f64) -> ChunkSearchResult {
    ChunkSearchResult {
        doc_id,
        line,
        column: 0,
        doc_title: format!("t{doc_id}"),
        doc_path: format!("/{doc_id}"),
        chunk_text: format!("c{line}"),
        score: score(s),
    }
}

#[test]
fn chunk_results_become_document_results() {
    let chunks = vec![near(1, 0, 0.9), near(2, 0, 0.5), near(1, 3, 0.1), near(3, 0, 0.5)];
    let found = RetrieveDb::dedup_chunk_results(chunks.clone(), 10);
    let got: Vec<(i64, f64)> = found.iter().map(|r| (r.id, f64::from_bits(r.score.bits))).collect();
    assert_eq!(got, vec![(1, 0.1), (2, 0.5), (3, 0.5)]);
    assert_eq!(found[0].title, "t1");
    assert_eq!(RetrieveDb::dedup_chunk_results(chunks, 1).len(), 1);
}

fn doc(id: i64, title: &str, body: &str) -> TitledDocument {
    TitledDocument {
        id,
        title: title.to_owned(),
        body: body.to_owned(),
        path: format!("/{title}"),
        chunks: None,
    }
}

#[test]
fn in_memory_store_holds_files_and_documents() {
    let mut store = InMemoryStore::new();
    store.upsert_file("/a", 1);
    store.upsert_file("/b", 2);
    store.upsert_file("/a", 3);
    assert_eq!(store.file_mtimes(), vec![("/a".to_owned(), 3), ("/b".to_owned(), 2)]);
    store.remove_file("/a");
    store.remove_file("/c");
    assert_eq!(store.file_count(), 1);

    store.upsert_document(&doc(1, "zeta", "Hello World"));
    store.upsert_document(&doc(2, "Alpha hello", "x"));
    store.upsert_document(&doc(3, "beta", "nothing"));
    let found = store.search_fts("HELLO", 10);
    let titles: Vec<&str> = found.iter().map(|r| r.title.as_str()).collect();
    assert_eq!(titles, vec!["Alpha hello", "zeta"]);
    assert_eq!(store.search_fts("hello", 1).len(), 1);
    assert_eq!(store.search_fts("hello", 1)[0].id, 1);
    store.upsert_document(&doc(1, "zeta", "gone"));
    assert_eq!(store.search_fts("hello", 10).len(), 1);
    assert_eq!(store.document_ids(), vec![1, 2, 3]);
    store.remove_document(2);
    assert_eq!(store.document_count(), 2);
    assert_eq!(store.vec_info().pending_count, 0);
    assert_eq!(store.search_fts("ÄRGER", 10).len(), 0);
    store.upsert_document(&doc(9, "ärger", ""));
    assert_eq!(store.search_fts("ÄRGER", 10).len(), 1);
}

#[test]
fn back_ends_are_initialised_once() {
    let mut db = RetrieveDb::open(&FsPath::from_text("/cache/retrieve.db"));
    assert_eq!(db.backend(), BackendState::Sqlite(None));
    assert!(db.init_sqlite_vec(3));
    assert!(!db.init_sqlite_vec(4));
    assert!(!db.init_lancedb(4));
    assert_eq!(db.backend(), BackendState::Sqlite(Some(3)));
    let (files, mut fresh) = RetrieveDb::rebuild(&FsPath::from_text("/x.db"));
    let files: Vec<&str> = files.iter().map(|f| f.text.as_str()).collect();
    assert_eq!(files, vec!["/x.db", "/x.db-wal", "/x.db-shm"]);
    assert!(fresh.init_lancedb(8));
    assert_eq!(fresh.backend(), BackendState::LanceDb(8));
    assert!(BackendState::InMemory.needs_init());
    assert!(!BackendState::LanceDb(1).needs_init());
    assert_eq!(fresh.db_path().text, "/x.db");
}

#[test]
fn query_builders() {
    let q = FtsQuery::new("x").limit(3).path_prefix("/w");
    assert_eq!((q.query, q.limit, q.path_prefix), ("x", 3, Some("/w")));
    assert_eq!(FtsQuery::new("x").limit, 10);
    let v = VectorQuery::new("y", "embedder").limit(2).path_prefix("/p");
    assert_eq!((v.query, v.embedder, v.limit, v.path_prefix), ("y", "embedder", 2, Some("/p")));
    let h: HybridQuery<'_, str> = HybridQuery::new("z");
    assert_eq!(f64::from_bits(h.rrf_k.bits), 60.0);
    assert_eq!(f64::from_bits(h.weight_fts.bits), 1.0);
    assert_eq!(f64::from_bits(h.weight_sem.bits), 1.0);
    assert!(h.embedder.is_none());
    let h = h.embedder("e").limit(1).path_prefix("/q").rrf_k(score(1.0)).weight_fts(score(0.25)).weight_sem(score(0.75));
    assert_eq!(h.embedder, Some("e"));
    assert_eq!((h.limit, h.path_prefix), (1, Some("/q")));
    assert_eq!(h.weight_sem, score(0.75));
    assert_eq!(h.weight_fts, score(0.25));
    assert_eq!(h.rrf_k, score(1.0));
}

fn stored(line_start: i64, text: &str) -> StoredChunk {
    StoredChunk { line_start, text: text.to_owned() }
}

fn cut(start: usize, end: usize, text: &str) -> (usize, usize, String) {
    (start, end, text.to_owned())
}

fn show(plan: &[ChunkOp]) -> Vec<String> {
    plan.iter()
        .map(|op| match op {
            ChunkOp::DropVector { line_start } => format!("drop {line_start}"),
            ChunkOp::FtsDelete { line_start, text } => format!("-{line_start}:{text}"),
            ChunkOp::FtsInsert { line_start, text } => format!("+{line_start}:{text}"),
            ChunkOp::DeleteRow { line_start } => format!("delete {line_start}"),
            ChunkOp::WriteRow { line_start, line_end, text } => {
                format!("write {line_start}..{line_end}:{text}")
            }
        })
        .collect()
}

#[test]
fn chunks_replace_stored_chunks() {
    let old = vec![stored(0, "same"), stored(2, "old"), stored(5, "stale")];
    let new = vec![cut(0, 1, "same"), cut(2, 2, "new"), cut(7, 9, "fresh")];
    assert_eq!(
        show(&sqlite_store::upsert_chunks(&old, &new, true)),
        vec![
            "drop 5", "-5:stale", "delete 5", "write 0..1:same", "write 2..2:new", "-2:old",
            "+2:new", "drop 2", "write 7..9:fresh", "+7:fresh",
        ]
    );
    assert_eq!(
        show(&sqlite_store::upsert_chunks(&old, &new, false)),
        vec![
            "-5:stale", "delete 5", "write 0..1:same", "write 2..2:new", "-2:old", "+2:new",
            "write 7..9:fresh", "+7:fresh",
        ]
    );
    assert_eq!(
        show(&sqlite_store::remove_document(&old[..1].to_vec(), true)),
        vec!["drop 0", "-0:same", "delete 0"]
    );
}

#[test]
fn later_chunks_see_earlier_ones() {
    let new = vec![cut(1, 1, "a"), cut(1, 2, "b"), cut(1, 3, "b")];
    assert_eq!(
        show(&sqlite_store::upsert_chunks(&Vec::new(), &new, true)),
        vec!["write 1..1:a", "+1:a", "write 1..2:b", "-1:a", "+1:b", "drop 1", "write 1..3:b"]
    );
}

#[test]
fn chunks_of_documents() {
    let mut d = Document { id: 1, body: "A\n\nB".to_owned(), path: "/p".to_owned(), chunks: None };
    assert_eq!(sqlite_store::document_chunks(&d), vec![cut(0, 0, "A"), cut(1, 1, "B")]);
    d.chunks = Some(vec![cut(4, 6, "C")]);
    assert_eq!(sqlite_store::document_chunks(&d), vec![cut(4, 6, "C")]);
}

#[test]
fn database_versions() {
    assert!(!sqlite_store::needs_wipe(0));
    assert!(sqlite_store::needs_wipe(3));
    assert!(sqlite_store::needs_wipe(-1));
    assert!(!sqlite_store::needs_wipe(4));
    assert!(!sqlite_store::needs_wipe(5));
    assert!(matches!(sqlite_store::schema_step(0), Ok(SchemaStep::Create)));
    assert!(matches!(sqlite_store::schema_step(4), Ok(SchemaStep::Use)));
    let e = sqlite_store::schema_step(5).unwrap_err();
    assert!(matches!(e, Error::SchemaTooNew { db_version: 5, app_version: 4 }));
    assert_eq!(
        e.message(),
        "retrieve DB schema too new: DB version 5, app version 4; delete the retrieve DB file and re-sync"
    );
    assert_eq!(Error::Embed("x".to_owned()).message(), "embedding error: x");
}

#[test]
fn tables_of_vectors() {
    assert_eq!(sqlite_store::ensure_vec_tables(None, 3), VecTableStep::Create);
    assert_eq!(sqlite_store::ensure_vec_tables(Some("x"), 3), VecTableStep::Create);
    assert_eq!(sqlite_store::ensure_vec_tables(Some("3"), 3), VecTableStep::Keep);
    assert_eq!(
        sqlite_store::ensure_vec_tables(Some("1536"), 3),
        VecTableStep::Recreate { old_dim: 1536 }
    );
    assert_eq!(
        sqlite_store::create_vec_table_sql(3, true),
        "CREATE VIRTUAL TABLE IF NOT EXISTS chunk_vectors USING vec0(chunk_id INTEGER PRIMARY KEY, embedding FLOAT[3])"
    );
    assert_eq!(
        sqlite_store::create_vec_table_sql(3, false),
        "CREATE VIRTUAL TABLE chunk_vectors USING vec0(chunk_id INTEGER PRIMARY KEY, embedding FLOAT[3])"
    );
    assert_eq!(sqlite_store::over_fetch(10), 50);
    assert_eq!(patterns::prefix_glob("/w/"), "/w/*");
    assert_eq!(patterns::prefix_glob("/w/[a]?*"), "/w/[[]a][?][*]*");
}

#[test]
fn statistics_of_vectors() {
    let fts = SqliteStore::new_fts_only(FsPath::from_text("/db"));
    assert_eq!(fts.dim(), None);
    assert_eq!(fts.db_path().text, "/db");
    assert_eq!(fts.vec_info(7, 3).pending_count, 0);
    let vec = SqliteStore::new_with_vec(FsPath::from_text("/db"), 4);
    assert_eq!(vec.dim(), Some(4));
    let info = vec.vec_info(7, 3);
    assert_eq!((info.embedding_dim, info.vector_count, info.pending_count), (4, 3, 4));
    assert_eq!(vec.vec_info(3, 7).pending_count, 0);
    assert_eq!(lancedb_store::vec_info(2, 9, 4).pending_count, 5);
}

#[test]
fn pending_chunks_have_no_vector() {
    let chunk = |doc_id: i64, line_start: usize| Chunk {
        doc_id,
        line_start,
        line_end: line_start,
        text: "t".to_owned(),
        doc_path: "/p".to_owned(),
    };
    let all = vec![chunk(1, 0), chunk(1, 2), chunk(2, 0)];
    let pending = sqlite_store::collect_pending_chunks(all, &vec![(1, 2), (2, 1)]);
    let keys: Vec<(i64, usize)> = pending.iter().map(|c| (c.doc_id, c.line_start)).collect();
    assert_eq!(keys, vec![(1, 0), (2, 0)]);
}

#[test]
fn vectors_are_laid_out_in_little_endian() {
    let v = [1.0f32, -2.5, 3.0e-9];
    let bits: Vec<u32> = v.iter().map(|x| x.to_bits()).collect();
    let expected: Vec<u8> = v.iter().flat_map(|x| x.to_le_bytes()).collect();
    assert_eq!(vec_serialize(&bits), expected);
}

#[test]
fn batches_of_a_hundred() {
    assert_eq!(embed_batches(0), vec![]);
    assert_eq!(embed_batches(1), vec![(0, 1)]);
    assert_eq!(embed_batches(100), vec![(0, 100)]);
    assert_eq!(embed_batches(250), vec![(0, 100), (100, 200), (200, 250)]);
}

fn config(provider: &str, model: &str) -> EmbedderConfig {
    EmbedderConfig {
        provider: provider.to_owned(),
        model: model.to_owned(),
        api_key_env: None,
        base_url: None,
        cache_dir: None,
    }
}

#[test]
fn embedders_are_chosen_by_provider() {
    match build_embedder(&config("openai", "m")).unwrap() {
        EmbedderChoice::OpenAi { url, api_key_env } => {
            assert_eq!(url, "https://api.openai.com/v1/embeddings");
            assert_eq!(api_key_env, "OPENAI_API_KEY");
        }
        other => panic!("unexpected: {other:?}"),
    }
    let mut c = config("ollama", "m");
    c.base_url = Some("http://h:1".to_owned());
    match build_embedder(&c).unwrap() {
        EmbedderChoice::Ollama { url } => assert_eq!(url, "http://h:1/api/embed"),
        other => panic!("unexpected: {other:?}"),
    }
    match build_embedder(&config("fastembed", "MultilingualE5Base")).unwrap() {
        EmbedderChoice::FastEmbed { model } => assert_eq!(model, FastEmbedModel::MultilingualE5Base),
        other => panic!("unexpected: {other:?}"),
    }
    assert_eq!(
        build_embedder(&config("nope", "m")).unwrap_err().message(),
        "embedding error: unknown embedding provider `nope`; supported values: openai, ollama, fastembed"
    );
    assert!(build_embedder(&config("fastembed", "nope"))
        .unwrap_err()
        .message()
        .starts_with("embedding error: unknown fastembed model `nope`; supported: AllMiniLML6V2, "));
    assert_eq!(
        missing_api_key("KEY").message(),
        "embedding error: environment variable `KEY` is not set"
    );
}

fn parse(text: &str) -> serde_json::Value {
    serde_json::from_str(text).unwrap()
}

fn floats(v: &[Double]) -> Vec<f64> {
    v.iter().map(|d| f64::from_bits(d.bits)).collect()
}

#[test]
fn openai_replies_are_placed_by_index() {
    let reply = parse("{\"data\":[{\"index\":1,\"embedding\":[1,2.5]},{\"index\":0,\"embedding\":[-3e2]},{\"index\":9,\"embedding\":[]}]}");
    let vectors = parse_openai_response(&reply, 3).unwrap();
    let got: Vec<Vec<f64>> = vectors.iter().map(|v| floats(v)).collect();
    assert_eq!(got, vec![vec![-300.0], vec![1.0, 2.5], vec![]]);

    let fails = |text: &str| parse_openai_response(&parse(text), 1).unwrap_err().message();
    assert_eq!(fails("{}"), "embedding error: unexpected OpenAI response: missing `data` array");
    assert_eq!(fails("[1]"), "embedding error: unexpected OpenAI response: missing `data` array");
    assert_eq!(
        fails("{\"data\":[{\"index\":-1,\"embedding\":[]}]}"),
        "embedding error: missing `index` in embedding object"
    );
    assert_eq!(
        fails("{\"data\":[{\"index\":0.0,\"embedding\":[]}]}"),
        "embedding error: missing `index` in embedding object"
    );
    assert_eq!(
        fails("{\"data\":[{\"index\":0}]}"),
        "embedding error: embedding value is not a JSON array"
    );
    assert_eq!(
        fails("{\"data\":[{\"index\":0,\"embedding\":[1,\"x\"]}]}"),
        "embedding error: non-numeric value in embedding vector"
    );
    let index = parse("{\"data\":[{\"index\":18446744073709551615,\"embedding\":[]}]}");
    assert_eq!(parse_openai_response(&index, 1).unwrap(), vec![vec![]]);
}

#[test]
fn ollama_replies_keep_their_order() {
    let reply = parse("{\"embeddings\":[[1],[0.5,2]]}");
    let got: Vec<Vec<f64>> = parse_ollama_response(&reply).unwrap().iter().map(|v| floats(v)).collect();
    assert_eq!(got, vec![vec![1.0], vec![0.5, 2.0]]);
    assert_eq!(
        parse_ollama_response(&parse("{}")).unwrap_err().message(),
        "embedding error: unexpected Ollama response: missing `embeddings` array"
    );
    assert!(parse_ollama_response(&parse("{\"embeddings\":[[1],2]}")).is_err());
    assert_eq!(floats(&parse_float_array(&parse("[0.1]")).unwrap()), vec![0.1]);
    let mut placed = vec![vec![], vec![]];
    place_vector(&mut placed, 1, vec![score(1.0)]);
    place_vector(&mut placed, 2, vec![score(2.0)]);
    assert_eq!(placed, vec![vec![], vec![score(1.0)]]);
}

#[test]
fn retrieval_settings() {
    assert_eq!(VectorDb::SqliteVec.as_str(), "sqlite_vec");
    for db in [VectorDb::Disabled, VectorDb::SqliteVec, VectorDb::LanceDb] {
        assert_eq!(VectorDb::from_name(db.as_str()), Some(db));
    }
    assert_eq!(VectorDb::from_name("LanceDB"), None);
    assert_eq!(VectorDb::default(), VectorDb::Disabled);
    let h = HybridConfig::default();
    assert_eq!(f64::from_bits(h.fts_weight.bits), 0.5);
    assert_eq!(h.rrf_k, 60);
    let mut c = RetrieveConfig::default();
    assert_eq!(c.sync_interval(), None);
    c.sync_interval_minutes = Some(0);
    assert_eq!(c.sync_interval(), None);
    c.sync_interval_minutes = Some(u32::MAX);
    assert_eq!(c.sync_interval(), Some(u32::MAX as u64 * 60));
    let mut e = EmbeddingConfig::default();
    e.provider = "p".to_owned();
    e.api_key_env = Some("K".to_owned());
    let r = e.to_embedder_config();
    assert_eq!(r.provider, "p");
    assert_eq!(r.api_key_env.as_deref(), Some("K"));
    assert!(r.cache_dir.is_none());
}

#[test]
fn directories_of_lancedb() {
    let cache = FsPath::from_text("/cache");
    assert_eq!(lancedb_store::data_dir(&cache).text, "/cache/lancedb_v3");
    assert_eq!(lance_vectors::versioned_dir(&cache).text, "/cache/lancedb_v1");
}

#[test]
fn filters_of_lancedb() {
    assert_eq!(lancedb_store::escape_sql_string("it's 'x'"), "it''s ''x''");
    assert_eq!(lancedb_store::prefix_filter("path", "/o'b"), "path LIKE '/o''b%'");
    assert_eq!(
        lancedb_store::prefix_filter("path", "/w/a_b%\\'"),
        "path LIKE '/w/a\\_b\\%\\\\''%' ESCAPE '\\'"
    );
    assert_eq!(lancedb_store::text_filter("path", "a'"), "path = 'a'''");
    assert_eq!(lancedb_store::id_filter("doc_id", -5), "doc_id = -5");
}

#[test]
fn rows_of_a_lancedb_document() {
    let mut d = doc(7, "T", "A\n\nB");
    let mut steps = lancedb_store::upsert_document(&d);
    assert_eq!(steps.len(), 4);
    assert!(matches!(
        &steps[0],
        LanceStep::MergeDocument { id: 7, title, body, path }
            if title == "T" && body == "A\n\nB" && path == "/T"
    ));
    assert!(matches!(steps[1], LanceStep::DeleteChunks { doc_id: 7 }));
    assert!(matches!(steps[2], LanceStep::DeleteVectors { doc_id: 7 }));
    let c = added(steps.pop().unwrap());
    assert_eq!(c.doc_ids, vec![7, 7]);
    assert_eq!(c.lines, vec![0, 1]);
    assert_eq!(c.cols, vec![0, 0]);
    assert_eq!(c.texts, vec!["T\n\nA", "T\n\nB"]);
    assert_eq!(c.titles, vec!["T", "T"]);
    assert_eq!(c.paths, vec!["/T", "/T"]);
    d.chunks = Some(vec![]);
    assert_eq!(lancedb_store::upsert_document(&d).len(), 3);
    d.chunks = Some(vec![cut(3, 4, "x")]);
    let c = added(lancedb_store::upsert_document(&d).pop().unwrap());
    assert_eq!((c.lines, c.cols, c.texts), (vec![3], vec![4], vec!["x".to_owned()]));
    let steps = lancedb_store::remove_document(7);
    assert!(matches!(
        steps[..],
        [
            LanceStep::DeleteDocument { id: 7 },
            LanceStep::DeleteChunks { doc_id: 7 },
            LanceStep::DeleteVectors { doc_id: 7 }
        ]
    ));
}

fn added(step: LanceStep) -> lancedb_store::ChunkColumns {
    match step {
        LanceStep::AddChunks(columns) => columns,
        other => panic!("unexpected: {other:?}"),
    }
}

#[test]
fn full_text_results_of_lancedb() {
    let full = lancedb_store::FtsBatch {
        num_rows: 1,
        ids: Some(vec![5]),
        titles: Some(vec!["t".to_owned()]),
        paths: Some(vec!["/p".to_owned()]),
        scores: None,
    };
    let mut scored = full.clone();
    scored.scores = Some(vec![score(1.5)]);
    let mut broken = full.clone();
    broken.paths = None;
    let found = lancedb_store::search_fts(&vec![full, broken, scored]);
    let got: Vec<(i64, f64)> = found.iter().map(|r| (r.id, f64::from_bits(r.score.bits))).collect();
    assert_eq!(got, vec![(5, 0.0), (5, 1.5)]);
    assert_eq!(lancedb_store::results_under(found.clone(), Some("/p")).len(), 2);
    assert!(lancedb_store::results_under(found.clone(), Some("_p")).is_empty());
    assert_eq!(lancedb_store::results_under(found, None).len(), 2);
}

fn similar() -> lancedb_store::SimilarBatch {
    lancedb_store::SimilarBatch {
        num_rows: 2,
        doc_ids: Some(vec![1, 2]),
        lines: Some(vec![3, 4]),
        cols: Some(vec![0, 1]),
        titles: Some(vec!["a".to_owned(), "b".to_owned()]),
        paths: Some(vec!["/a".to_owned(), "/b".to_owned()]),
        texts: Some(vec!["x".to_owned(), "y".to_owned()]),
        dists: Some(vec![score(0.5), score(0.75)]),
    }
}

#[test]
fn vector_results_of_lancedb() {
    let found = lancedb_store::search_similar(&vec![similar(), similar()]).unwrap();
    assert_eq!(found.len(), 4);
    assert_eq!((found[1].doc_id, found[1].line, found[1].column), (2, 4, 1));
    assert_eq!(found[3].chunk_text, "y");
    assert_eq!(found[2].score, score(0.5));
    assert!(lancedb_store::search_similar(&Vec::new()).unwrap().is_empty());

    let missing = |change: fn(&mut lancedb_store::SimilarBatch)| {
        let mut b = similar();
        change(&mut b);
        lancedb_store::search_similar(&vec![similar(), b]).unwrap_err().message()
    };
    assert_eq!(missing(|b| b.doc_ids = None), "embedding error: missing `doc_id` in search result");
    assert_eq!(missing(|b| b.lines = None), "embedding error: missing `line` in search result");
    assert_eq!(missing(|b| b.cols = None), "embedding error: missing `col` in search result");
    assert_eq!(missing(|b| b.titles = None), "embedding error: missing `doc_title` in search result");
    assert_eq!(missing(|b| b.paths = None), "embedding error: missing `doc_path` in search result");
    assert_eq!(missing(|b| b.texts = None), "embedding error: missing `text` in search result");
    assert_eq!(missing(|b| b.dists = None), "embedding error: missing `_distance` in search result");
}

#[test]
fn pending_chunks_of_lancedb() {
    let keys = lancedb_store::embedded_chunk_keys(&vec![
        lancedb_store::KeyBatch { num_rows: 1, doc_ids: Some(vec![1]), lines: Some(vec![3]) },
        lancedb_store::KeyBatch { num_rows: 1, doc_ids: Some(vec![2]), lines: None },
    ]);
    assert_eq!(keys, vec![(1, 3)]);
    let b = similar();
    let meta = lancedb_store::MetaBatch {
        num_rows: 2,
        doc_ids: b.doc_ids,
        lines: b.lines,
        cols: b.cols,
        texts: b.texts,
        titles: b.titles,
        paths: b.paths,
    };
    let mut broken = meta.clone();
    broken.texts = None;
    let pending = lancedb_store::pending_chunks(&vec![meta, broken], &keys);
    assert_eq!(pending.len(), 1);
    assert_eq!((pending[0].doc_id, pending[0].line, pending[0].text.as_str()), (2, 4, "y"));
    let columns = lancedb_store::insert_embeddings(&pending);
    assert_eq!((columns.doc_ids, columns.lines), (vec![2], vec![4]));
    assert_eq!(columns.titles, vec!["b"]);
    assert_eq!(lancedb_store::document_ids(&vec![Some(vec![1, 2]), None, Some(vec![3])]), vec![1, 2, 3]);
    let none: Vec<TitledChunk> = Vec::new();
    assert!(lancedb_store::insert_embeddings(&none).doc_ids.is_empty());
}

#[test]
fn vectors_beside_sqlite() {
    let batch = lance_vectors::VectorBatch {
        num_rows: 1,
        doc_ids: Some(vec![1]),
        chunk_indexes: Some(vec![6]),
        titles: Some(vec!["t".to_owned()]),
        paths: Some(vec!["/p".to_owned()]),
        texts: Some(vec!["x".to_owned()]),
        dists: Some(vec![score(0.5)]),
    };
    let found = lance_vectors::search_similar(&vec![batch.clone()]).unwrap();
    assert_eq!((found[0].doc_id, found[0].chunk_index), (1, 6));
    let mut broken = batch;
    broken.chunk_indexes = None;
    broken.dists = None;
    assert_eq!(
        lance_vectors::search_similar(&vec![broken]).unwrap_err().message(),
        "embedding error: missing `chunk_index` in search result"
    );
    let chunk = lance_vectors::IndexedChunk {
        doc_id: 4,
        chunk_index: 2,
        text: "x".to_owned(),
        doc_title: "t".to_owned(),
        doc_path: "/p".to_owned(),
    };
    let columns = lance_vectors::insert_embeddings(&vec![chunk]);
    assert_eq!((columns.doc_ids, columns.chunk_indexes), (vec![4], vec![2]));
}

#[test]
fn a_recorded_dimension_is_kept() {
    for dim in [0, 1, 384, u32::MAX] {
        assert_eq!(sqlite_store::ensure_vec_tables(Some(&dim.to_string()), dim), VecTableStep::Keep);
    }
}
