//! An open workspace: which parts of it a configuration calls for.

use crate::ids::Uuid;
use crate::retrieve::config::{opt_text, RetrieveConfig, VectorDb};
use crate::retrieve::embed::{text_or, EmbedderConfig};
use crate::retrieve::sqlite_store::SCHEMA_VERSION;
use crate::retrieve::titled::TitledDocument;
use crate::retrieve::vector_store::VecInfo;
use crate::sync::config::{SyncBackendKind, SyncConfig};
use crate::sync::error::Error;
use crate::sync::git_sync::GitSync;
use crate::paths::FsPath;
use crate::workspace::identity::path_to_doc_id;
use crate::workspace::indexer::{
    doc_id, document_of, paragraph_files_are_stored_as_they_are, FileKind,
};
use vstd::prelude::*;

verus! {

/// Statistics of the database of a workspace.
#[derive(Debug, Clone)]
pub struct DbInfo {
    pub db_path: FsPath,
    pub schema_version: i32,
    pub document_count: u64,
    pub embedding_dim: u32,
    pub vector_count: u64,
    pub pending_count: u64,
}

/// The statistics of a database. What could not be found out counts as zero.
pub fn db_info(db_path: FsPath, document_count: Option<u64>, vec_info: Option<VecInfo>) -> (r: DbInfo)
    ensures
        r.db_path@ == db_path@,
        r.schema_version == SCHEMA_VERSION,
        r.document_count == (match document_count {
            Some(n) => n,
            None => 0,
        }),
        match vec_info {
            Some(v) => r.embedding_dim == v.embedding_dim && r.vector_count == v.vector_count
                && r.pending_count == v.pending_count,
            None => r.embedding_dim == 0 && r.vector_count == 0 && r.pending_count == 0,
        },
{
    let documents: u64 = match document_count {
        Some(n) => n,
        None => 0,
    };
    let vectors = match vec_info {
        Some(v) => v,
        None => VecInfo { embedding_dim: 0, vector_count: 0, pending_count: 0 },
    };
    DbInfo {
        db_path,
        schema_version: SCHEMA_VERSION,
        document_count: documents,
        embedding_dim: vectors.embedding_dim,
        vector_count: vectors.vector_count,
        pending_count: vectors.pending_count,
    }
}

/// The back end for vectors that a configuration calls for.
#[derive(Debug, Clone, Copy, PartialEq, Eq, Structural)]
pub enum VectorBackend {
    /// None.
    Absent,
    /// SQLite, with vectors of the given dimension.
    Sqlite(u32),
    /// LanceDB, with vectors of the given dimension.
    LanceDb(u32),
}

/// The back end for vectors that a configuration calls for: none unless
/// embeddings are enabled and their dimension is given.
pub open spec fn vector_backend_of(config: RetrieveConfig) -> VectorBackend {
    match config.embedding {
        Some(e) => if e.enabled && e.dimension is Some {
            match config.db {
                VectorDb::Disabled => VectorBackend::Absent,
                VectorDb::SqliteVec => VectorBackend::Sqlite(e.dimension->0),
                VectorDb::LanceDb => VectorBackend::LanceDb(e.dimension->0),
            }
        } else {
            VectorBackend::Absent
        },
        None => VectorBackend::Absent,
    }
}

/// The back end for vectors that a configuration calls for.
pub fn load_retrieve_backend(config: &RetrieveConfig) -> (r: VectorBackend)
    ensures
        r == vector_backend_of(*config),
{
    match &config.embedding {
        Some(e) => {
            if !e.enabled {
                return VectorBackend::Absent;
            }
            match e.dimension {
                Some(dim) => match config.db {
                    VectorDb::Disabled => VectorBackend::Absent,
                    VectorDb::SqliteVec => VectorBackend::Sqlite(dim),
                    VectorDb::LanceDb => VectorBackend::LanceDb(dim),
                },
                None => VectorBackend::Absent,
            }
        },
        None => VectorBackend::Absent,
    }
}

/// Embeddings are enabled.
pub open spec fn embeds(config: RetrieveConfig) -> bool {
    config.embedding is Some && config.embedding->0.enabled
}

/// The embedder that a configuration calls for, which keeps its models in the
/// given directory; none unless embeddings are enabled.
pub fn load_embedder(config: &RetrieveConfig, model_cache_dir: FsPath) -> (r: Option<EmbedderConfig>)
    ensures
        if embeds(*config) {
            let e = config.embedding->0;
            &&& r is Some
            &&& r->0.provider@ == e.provider@
            &&& r->0.model@ == e.model@
            &&& opt_text(r->0.api_key_env) == opt_text(e.api_key_env)
            &&& opt_text(r->0.base_url) == opt_text(e.base_url)
            &&& r->0.cache_dir is Some
            &&& r->0.cache_dir->0@ == model_cache_dir@
        } else {
            r is None
        },
{
    match &config.embedding {
        Some(e) => {
            if e.enabled {
                let mut embedder = e.to_embedder_config();
                embedder.cache_dir = Some(model_cache_dir);
                Some(embedder)
            } else {
                None
            }
        },
        None => None,
    }
}

/// The synchronisation that a configuration calls for, where `found` says
/// whether the workspace lies in a git repository. Git that is asked for
/// without a repository is an error; where the choice is left open, git is
/// used if there is one.
pub fn open_configured(root: &FsPath, config: &SyncConfig, device_id: Option<Uuid>, found: bool) -> (r:
    Result<Option<GitSync>, Error>)
    ensures
        ({
            let wants_git = config.backend == SyncBackendKind::Git || (config.backend
                == SyncBackendKind::Auto && found);
            if !wants_git {
                r is Ok && r->Ok_0 is None
            } else if !found {
                r is Err && (r->Err_0 matches Error::NoRepository { path } && path@ == root.text@)
            } else {
                &&& r is Ok
                &&& r->Ok_0 is Some
                &&& r->Ok_0->0.path() == root@
                &&& r->Ok_0->0.remote_spec() == text_or(config.remote, "origin"@)
                &&& r->Ok_0->0.device() == device_id
            }
        }),
{
    let wants_git = match config.backend {
        SyncBackendKind::Git => true,
        SyncBackendKind::Auto => found,
        SyncBackendKind::Disabled => false,
    };
    if !wants_git {
        return Ok(None);
    }
    match GitSync::with_remote(root, config.remote(), found) {
        Ok(git) => match device_id {
            Some(id) => Ok(Some(git.with_device_id(id))),
            None => Ok(Some(git)),
        },
        Err(e) => Err(e),
    }
}

/// The document of a file that was changed: its text as it is.
pub fn on_file_updated(path: &FsPath, title: &str, body: String) -> (r: TitledDocument)
    ensures
        r@ == document_of(path.raw@, path.text@, title@, body@, FileKind::Markdown),
{
    TitledDocument {
        id: path_to_doc_id(&path.raw),
        title: title.to_owned(),
        body,
        path: path.text.clone(),
        chunks: None,
    }
}

/// The document of a file that was deleted.
pub fn on_file_deleted(path: &FsPath) -> (r: i64)
    ensures
        r == doc_id(path.raw@),
{
    path_to_doc_id(&path.raw)
}

/// Why embeddings cannot be made.
#[derive(Debug, Clone, Copy, PartialEq, Eq, Structural)]
pub enum EmbedRefusal {
    /// There is no section about embeddings.
    NoSection,
    /// Embeddings are disabled.
    NotEnabled,
    /// There is no back end for vectors.
    NoVectorDb,
    /// The dimension of the vectors is not given.
    NoDimension,
}

/// Whether embeddings can be made with a configuration, or else the first
/// thing that is missing.
pub fn check_embedding(config: &RetrieveConfig) -> (r: Result<(), EmbedRefusal>)
    ensures
        r == (match config.embedding {
            None => Err::<(), EmbedRefusal>(EmbedRefusal::NoSection),
            Some(e) => if !e.enabled {
                Err(EmbedRefusal::NotEnabled)
            } else if config.db == VectorDb::Disabled {
                Err(EmbedRefusal::NoVectorDb)
            } else if e.dimension is None {
                Err(EmbedRefusal::NoDimension)
            } else {
                Ok(())
            },
        }),
        r is Ok <==> vector_backend_of(*config) != VectorBackend::Absent,
{
    match &config.embedding {
        None => Err(EmbedRefusal::NoSection),
        Some(e) => {
            if !e.enabled {
                Err(EmbedRefusal::NotEnabled)
            } else if config.db == VectorDb::Disabled {
                Err(EmbedRefusal::NoVectorDb)
            } else if e.dimension.is_none() {
                Err(EmbedRefusal::NoDimension)
            } else {
                Ok(())
            }
        },
    }
}

/// Vectors are kept exactly where embeddings are switched on, their dimension
/// is given and a back end is chosen, and then in that back end with that
/// dimension.
pub proof fn vectors_need_a_back_end_and_a_dimension(config: RetrieveConfig, dim: u32)
    ensures
        ({
            let ready = config.embedding is Some && config.embedding->0.enabled
                && config.embedding->0.dimension == Some(dim);
            &&& vector_backend_of(config) == VectorBackend::Sqlite(dim) <==> ready && config.db
                == VectorDb::SqliteVec
            &&& vector_backend_of(config) == VectorBackend::LanceDb(dim) <==> ready && config.db
                == VectorDb::LanceDb
        }),
        config.db == VectorDb::Disabled ==> vector_backend_of(config) == VectorBackend::Absent,
{
}

/// The first thing that is missing for embeddings is the one that is reported.
pub proof fn the_first_missing_setting_is_reported(
    config: RetrieveConfig,
    checked: Result<(), EmbedRefusal>,
)
    requires
        call_ensures(check_embedding, (&config,), checked),
    ensures
        checked == Err::<(), EmbedRefusal>(EmbedRefusal::NoSection) <==> config.embedding is None,
        checked == Err::<(), EmbedRefusal>(EmbedRefusal::NotEnabled) <==> config.embedding is Some
            && !config.embedding->0.enabled,
        checked == Err::<(), EmbedRefusal>(EmbedRefusal::NoVectorDb) <==> config.embedding is Some
            && config.embedding->0.enabled && config.db == VectorDb::Disabled,
        checked == Err::<(), EmbedRefusal>(EmbedRefusal::NoDimension) <==> config.embedding is Some
            && config.embedding->0.enabled && config.db != VectorDb::Disabled
            && config.embedding->0.dimension is None,
{
}

/// An embedder is loaded exactly where embeddings are switched on, as it is
/// configured, with its models in the given directory.
pub proof fn embedders_are_loaded_where_switched_on(
    config: RetrieveConfig,
    models: FsPath,
    loaded: Option<EmbedderConfig>,
)
    requires
        call_ensures(load_embedder, (&config, models), loaded),
    ensures
        loaded is Some <==> config.embedding is Some && config.embedding->0.enabled,
        loaded is Some ==> {
            let e = config.embedding->0;
            &&& loaded->0.provider@ == e.provider@
            &&& loaded->0.model@ == e.model@
            &&& opt_text(loaded->0.api_key_env) == opt_text(e.api_key_env)
            &&& opt_text(loaded->0.base_url) == opt_text(e.base_url)
            &&& loaded->0.cache_dir is Some && loaded->0.cache_dir->0@ == models@
        },
{
}

/// Git is used where it is asked for, and where nothing is asked for and there
/// is a repository; never where it is switched off. Asking for it without a
/// repository is an error. The remote is `origin` unless another is configured.
pub proof fn git_is_used_where_it_can_be(
    root: FsPath,
    config: SyncConfig,
    device_id: Option<Uuid>,
    found: bool,
    opened: Result<Option<GitSync>, Error>,
)
    requires
        call_ensures(open_configured, (&root, &config, device_id, found), opened),
    ensures
        config.backend == SyncBackendKind::Disabled ==> opened is Ok && opened->Ok_0 is None,
        config.backend == SyncBackendKind::Auto && !found ==> opened is Ok && opened->Ok_0 is None,
        config.backend == SyncBackendKind::Git && !found ==> {
            &&& opened is Err
            &&& opened->Err_0 matches Error::NoRepository { path } && path@ == root.text@
        },
        config.backend != SyncBackendKind::Disabled && found ==> {
            &&& opened is Ok
            &&& opened->Ok_0 is Some
            &&& opened->Ok_0->0.path() == root@
            &&& opened->Ok_0->0.device() == device_id
            &&& config.remote is Some ==> opened->Ok_0->0.remote_spec() == config.remote->0@
            &&& config.remote is None ==> opened->Ok_0->0.remote_spec() == "origin"@
        },
{
}

/// A changed file is stored with its text as it is, whatever its kind, and the
/// deletion of a file names the document that storing it makes.
pub proof fn changed_files_are_stored_as_they_are(
    path: FsPath,
    title: &str,
    body: String,
    stored: TitledDocument,
    deleted: i64,
)
    requires
        call_ensures(on_file_updated, (&path, title, body), stored),
        call_ensures(on_file_deleted, (&path,), deleted),
    ensures
        stored.body@ == body@,
        stored.title@ == title@,
        stored.path@ == path.text@,
        stored.chunks is None,
        stored.id == deleted,
{
    paragraph_files_are_stored_as_they_are(
        path.raw@,
        path.text@,
        title@,
        body@,
        FileKind::Markdown,
    );
    assert(stored@.body == stored.body@);
    assert(stored@.title == stored.title@);
    assert(stored@.path == stored.path@);
    assert(stored@.id == stored.id);
    assert(stored@.chunks is None);
}

/// What could not be found out about a database counts as zero.
pub proof fn unknown_statistics_count_as_zero(
    path: FsPath,
    count: Option<u64>,
    vectors: Option<VecInfo>,
    info: DbInfo,
)
    requires
        call_ensures(db_info, (path, count, vectors), info),
    ensures
        info.db_path@ == path@,
        info.schema_version == 4,
        count is Some ==> info.document_count == count->0,
        count is None ==> info.document_count == 0,
        vectors is Some ==> info.embedding_dim == vectors->0.embedding_dim && info.vector_count
            == vectors->0.vector_count && info.pending_count == vectors->0.pending_count,
        vectors is None ==> info.embedding_dim == 0 && info.vector_count == 0 && info.pending_count
            == 0,
{
}

} // verus!
