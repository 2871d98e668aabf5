//! Configuration of indexing and search.

use crate::double::Double;
use crate::retrieve::embed::EmbedderConfig;
use crate::text::same_text;
use vstd::prelude::*;

verus! {

/// Which back end holds vectors.
#[derive(Debug, Clone, Copy, PartialEq, Eq, Structural)]
pub enum VectorDb {
    /// No vector search.
    Disabled,
    /// The sqlite-vec extension, inside the SQLite database.
    SqliteVec,
    /// LanceDB, in a directory of its own.
    LanceDb,
}

impl Default for VectorDb {
    fn default() -> (r: VectorDb)
        ensures
            r == VectorDb::Disabled,
    {
        VectorDb::Disabled
    }
}

impl VectorDb {
    /// The name of the back end.
    pub open spec fn name(self) -> Seq<char> {
        match self {
            VectorDb::Disabled => "none"@,
            VectorDb::SqliteVec => "sqlite_vec"@,
            VectorDb::LanceDb => "lancedb"@,
        }
    }

    /// The name of the back end, as the configuration file has it.
    pub fn as_str(self) -> (r: &'static str)
        ensures
            r@ == self.name(),
    {
        match self {
            VectorDb::Disabled => "none",
            VectorDb::SqliteVec => "sqlite_vec",
            VectorDb::LanceDb => "lancedb",
        }
    }

    /// The back end of the given name.
    pub fn from_name(name: &str) -> (r: Option<VectorDb>)
        ensures
            match r {
                Some(db) => db.name() == name@,
                None => forall|db: VectorDb| #![trigger db.name()] db.name() != name@,
            },
    {
        if same_text(name, "none") {
            Some(VectorDb::Disabled)
        } else if same_text(name, "sqlite_vec") {
            Some(VectorDb::SqliteVec)
        } else if same_text(name, "lancedb") {
            Some(VectorDb::LanceDb)
        } else {
            None
        }
    }
}

/// Different back ends have different names, so that a name that was written
/// reads back as the same back end.
pub proof fn vector_db_names_differ(a: VectorDb, b: VectorDb)
    ensures
        a.name() == b.name() ==> a == b,
{
    reveal_strlit("none");
    reveal_strlit("sqlite_vec");
    reveal_strlit("lancedb");
    assert("none"@.len() == 4 && "sqlite_vec"@.len() == 10 && "lancedb"@.len() == 7);
}

/// How full-text and vector results are merged.
#[derive(Debug, Clone, Copy, PartialEq, Eq, Structural)]
pub struct HybridConfig {
    /// The weight of full-text results, from zero to one.
    pub fts_weight: Double,
    /// The constant that is added to a rank before its reciprocal is taken.
    pub rrf_k: u32,
}

/// The default weight of full-text results: one half.
pub fn default_fts_weight() -> (r: Double)
    ensures
        r.bits == 0x3fe0_0000_0000_0000,
{
    Double { bits: 0x3fe0_0000_0000_0000 }
}

/// The default constant of rank fusion.
pub fn default_rrf_k() -> (r: u32)
    ensures
        r == 60,
{
    60
}

impl Default for HybridConfig {
    fn default() -> (r: HybridConfig)
        ensures
            r.fts_weight.bits == 0x3fe0_0000_0000_0000,
            r.rrf_k == 60,
    {
        HybridConfig { fts_weight: default_fts_weight(), rrf_k: default_rrf_k() }
    }
}

/// Which embedding provider to use, and how.
#[derive(Debug, Clone)]
pub struct EmbeddingConfig {
    pub enabled: bool,
    /// `"openai"`, `"ollama"` or `"fastembed"`.
    pub provider: String,
    pub model: String,
    /// The environment variable that holds the key of an OpenAI account.
    pub api_key_env: Option<String>,
    pub base_url: Option<String>,
    /// The dimension of the vectors of the model.
    pub dimension: Option<u32>,
}

/// The mathematical counterpart of an [`EmbeddingConfig`].
pub struct EmbeddingModel {
    pub enabled: bool,
    pub provider: Seq<char>,
    pub model: Seq<char>,
    pub api_key_env: Option<Seq<char>>,
    pub base_url: Option<Seq<char>>,
    pub dimension: Option<u32>,
}

/// The text of an optional string.
pub open spec fn opt_text(s: Option<String>) -> Option<Seq<char>> {
    match s {
        Some(t) => Some(t@),
        None => None,
    }
}

impl View for EmbeddingConfig {
    type V = EmbeddingModel;

    open spec fn view(&self) -> EmbeddingModel {
        EmbeddingModel {
            enabled: self.enabled,
            provider: self.provider@,
            model: self.model@,
            api_key_env: opt_text(self.api_key_env),
            base_url: opt_text(self.base_url),
            dimension: self.dimension,
        }
    }
}

/// The embedding provider of a configuration that names none.
pub open spec fn default_embedding() -> EmbeddingModel {
    EmbeddingModel {
        enabled: false,
        provider: Seq::empty(),
        model: Seq::empty(),
        api_key_env: None,
        base_url: None,
        dimension: None,
    }
}

impl Default for EmbeddingConfig {
    fn default() -> (r: EmbeddingConfig)
        ensures
            r@ == default_embedding(),
    {
        EmbeddingConfig {
            enabled: false,
            provider: String::new(),
            model: String::new(),
            api_key_env: None,
            base_url: None,
            dimension: None,
        }
    }
}

/// A copy of an optional text.
pub fn copy_text(s: &Option<String>) -> (r: Option<String>)
    ensures
        opt_text(r) == opt_text(*s),
{
    match s {
        Some(t) => Some(t.clone()),
        None => None,
    }
}

impl EmbeddingConfig {
    /// How to reach the provider. Where models are kept is left open.
    pub fn to_embedder_config(&self) -> (r: EmbedderConfig)
        ensures
            r.provider@ == self.provider@,
            r.model@ == self.model@,
            opt_text(r.api_key_env) == opt_text(self.api_key_env),
            opt_text(r.base_url) == opt_text(self.base_url),
            r.cache_dir is None,
    {
        EmbedderConfig {
            provider: self.provider.clone(),
            model: self.model.clone(),
            api_key_env: copy_text(&self.api_key_env),
            base_url: copy_text(&self.base_url),
            cache_dir: None,
        }
    }
}

/// The length of an interval in seconds, from its length in minutes. A missing
/// one and one of no minutes are none.
pub open spec fn interval_seconds(minutes: Option<u32>) -> Option<u64> {
    match minutes {
        Some(m) => if m > 0 {
            Some((m * 60) as u64)
        } else {
            None
        },
        None => None,
    }
}

/// The length of an interval in seconds, from its length in minutes.
pub fn interval_of_minutes(minutes: Option<u32>) -> (r: Option<u64>)
    ensures
        r == interval_seconds(minutes),
{
    match minutes {
        Some(m) => if m > 0 {
            Some(m as u64 * 60)
        } else {
            None
        },
        None => None,
    }
}

/// Configuration of indexing and search.
#[derive(Debug, Clone)]
pub struct RetrieveConfig {
    /// Which back end holds vectors.
    pub db: VectorDb,
    /// The embedding provider. Without one there are no embeddings.
    pub embedding: Option<EmbeddingConfig>,
    pub hybrid: HybridConfig,
    /// How often the index is refreshed. Never, if missing or zero.
    pub sync_interval_minutes: Option<u32>,
}

/// The mathematical counterpart of a [`RetrieveConfig`].
pub struct RetrieveModel {
    pub db: VectorDb,
    pub embedding: Option<EmbeddingModel>,
    pub hybrid: HybridConfig,
    pub sync_interval_minutes: Option<u32>,
}

impl View for RetrieveConfig {
    type V = RetrieveModel;

    open spec fn view(&self) -> RetrieveModel {
        RetrieveModel {
            db: self.db,
            embedding: match self.embedding {
                Some(e) => Some(e@),
                None => None,
            },
            hybrid: self.hybrid,
            sync_interval_minutes: self.sync_interval_minutes,
        }
    }
}

/// The default configuration: no vectors, no embeddings, no refresh.
pub open spec fn default_retrieve() -> RetrieveModel {
    RetrieveModel {
        db: VectorDb::Disabled,
        embedding: None,
        hybrid: HybridConfig { fts_weight: Double { bits: 0x3fe0_0000_0000_0000 }, rrf_k: 60 },
        sync_interval_minutes: None,
    }
}

impl Default for RetrieveConfig {
    fn default() -> (r: RetrieveConfig)
        ensures
            r@ == default_retrieve(),
    {
        RetrieveConfig {
            db: VectorDb::Disabled,
            embedding: None,
            hybrid: HybridConfig { fts_weight: default_fts_weight(), rrf_k: default_rrf_k() },
            sync_interval_minutes: None,
        }
    }
}

impl RetrieveConfig {
    /// How often the index is refreshed, in seconds; nothing if never.
    pub fn sync_interval(&self) -> (r: Option<u64>)
        ensures
            r == interval_seconds(self.sync_interval_minutes),
    {
        interval_of_minutes(self.sync_interval_minutes)
    }
}

/// Intervals are configured in minutes; none at all, and one of no minutes, is
/// never.
pub proof fn minutes_have_sixty_seconds(minutes: u32)
    ensures
        interval_seconds(None) is None,
        interval_seconds(Some(0)) is None,
        minutes > 0 ==> interval_seconds(Some(minutes)) == Some((60 * minutes) as u64),
        minutes > 0 ==> interval_seconds(Some(minutes))->0 == 60 * minutes,
{
}

/// The names of the back ends, as the configuration file has them.
pub proof fn back_ends_by_name(name: &str, db: Option<VectorDb>)
    requires
        call_ensures(VectorDb::from_name, (name,), db),
    ensures
        db == Some(VectorDb::Disabled) <==> name@ == "none"@,
        db == Some(VectorDb::SqliteVec) <==> name@ == "sqlite_vec"@,
        db == Some(VectorDb::LanceDb) <==> name@ == "lancedb"@,
{
    reveal_strlit("none");
    reveal_strlit("sqlite_vec");
    reveal_strlit("lancedb");
    assert("none"@.len() == 4);
    assert("sqlite_vec"@.len() == 10);
    assert("lancedb"@.len() == 7);
    assert(VectorDb::Disabled.name() == "none"@);
    assert(VectorDb::SqliteVec.name() == "sqlite_vec"@);
    assert(VectorDb::LanceDb.name() == "lancedb"@);
}

/// Without configuration nothing is embedded, no vectors are kept, the index is
/// never refreshed, and results of both kinds count alike.
pub proof fn nothing_is_embedded_by_default()
    ensures
        default_retrieve().db == VectorDb::Disabled,
        default_retrieve().embedding is None,
        default_retrieve().sync_interval_minutes is None,
        default_retrieve().hybrid.rrf_k == 60,
        default_retrieve().hybrid.fts_weight.bits == 0x3fe0_0000_0000_0000,
        !default_embedding().enabled,
        default_embedding().dimension is None,
        default_embedding().provider.len() == 0,
        default_embedding().model.len() == 0,
        default_embedding().api_key_env is None,
        default_embedding().base_url is None,
{
}

/// The embedder is reached as it is configured.
pub proof fn embedders_are_reached_as_configured(e: EmbeddingConfig, c: EmbedderConfig)
    requires
        call_ensures(EmbeddingConfig::to_embedder_config, (&e,), c),
    ensures
        c.provider@ == e.provider@,
        c.model@ == e.model@,
        c.api_key_env is Some <==> e.api_key_env is Some,
        c.api_key_env is Some ==> c.api_key_env->0@ == e.api_key_env->0@,
        c.base_url is Some <==> e.base_url is Some,
        c.base_url is Some ==> c.base_url->0@ == e.base_url->0@,
        c.cache_dir is None,
{
}

} // verus!
