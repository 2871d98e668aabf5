//! Configuration of a workspace, and what the environment overrides in it.

use crate::number::{decimal, lemma_decimal_read, parse_u32, read_unsigned};
use crate::retrieve::config::{
    copy_text, default_embedding, default_retrieve, EmbeddingConfig, EmbeddingModel,
    RetrieveConfig, RetrieveModel, VectorDb,
};
use crate::sync::config::SyncConfig;
use crate::text::same_text;
use vstd::prelude::*;

verus! {

/// The environment variables that override a configuration, as far as they are
/// set.
#[derive(Debug, Clone)]
pub struct EnvOverrides {
    /// `SAPPHIRE_WORKSPACE_RETRIEVE_DB`
    pub retrieve_db: Option<String>,
    /// `SAPPHIRE_WORKSPACE_EMBEDDING_ENABLED`
    pub enabled: Option<String>,
    /// `SAPPHIRE_WORKSPACE_EMBEDDING_PROVIDER`
    pub provider: Option<String>,
    /// `SAPPHIRE_WORKSPACE_EMBEDDING_MODEL`
    pub model: Option<String>,
    /// `SAPPHIRE_WORKSPACE_EMBEDDING_API_KEY_ENV`
    pub api_key_env: Option<String>,
    /// `SAPPHIRE_WORKSPACE_EMBEDDING_BASE_URL`
    pub base_url: Option<String>,
    /// `SAPPHIRE_WORKSPACE_EMBEDDING_DIMENSION`
    pub dimension: Option<String>,
}

/// The back end of the given name; nothing for an unknown name.
pub open spec fn named_db(name: Seq<char>) -> Option<VectorDb> {
    if name == VectorDb::Disabled.name() {
        Some(VectorDb::Disabled)
    } else if name == VectorDb::SqliteVec.name() {
        Some(VectorDb::SqliteVec)
    } else if name == VectorDb::LanceDb.name() {
        Some(VectorDb::LanceDb)
    } else {
        None
    }
}

/// The text switches something on.
pub open spec fn is_yes(text: Seq<char>) -> bool {
    text == "1"@ || text == "true"@ || text == "yes"@
}

impl EnvOverrides {
    /// The back end that the environment names. An unknown name counts as
    /// none.
    pub open spec fn db(self) -> Option<VectorDb> {
        match self.retrieve_db {
            Some(name) => named_db(name@),
            None => None,
        }
    }

    /// The dimension that the environment gives. What is no number counts as
    /// none.
    pub open spec fn dim(self) -> Option<u32> {
        match self.dimension {
            Some(text) => match read_unsigned(text@, u32::MAX as nat) {
                Some(n) => Some(n as u32),
                None => None,
            },
            None => None,
        }
    }

    /// The environment overrides anything.
    pub open spec fn any(self) -> bool {
        self.db() is Some || self.enabled is Some || self.provider is Some || self.model is Some
            || self.api_key_env is Some || self.base_url is Some || self.dim() is Some
    }

    /// An embedding provider with what the environment sets in place of what
    /// was there.
    pub open spec fn embedding_over(self, e: EmbeddingModel) -> EmbeddingModel {
        EmbeddingModel {
            enabled: match self.enabled {
                Some(text) => is_yes(text@),
                None => e.enabled,
            },
            provider: match self.provider {
                Some(text) => text@,
                None => e.provider,
            },
            model: match self.model {
                Some(text) => text@,
                None => e.model,
            },
            api_key_env: match self.api_key_env {
                Some(text) => Some(text@),
                None => e.api_key_env,
            },
            base_url: match self.base_url {
                Some(text) => Some(text@),
                None => e.base_url,
            },
            dimension: match self.dim() {
                Some(n) => Some(n),
                None => e.dimension,
            },
        }
    }

    /// A configuration with what the environment sets in place of what was
    /// there. Where it sets anything there is an embedding provider
    /// afterwards, made of defaults where there was none.
    pub open spec fn over(self, c: RetrieveModel) -> RetrieveModel {
        if self.any() {
            RetrieveModel {
                db: match self.db() {
                    Some(db) => db,
                    None => c.db,
                },
                embedding: Some(
                    self.embedding_over(
                        match c.embedding {
                            Some(e) => e,
                            None => default_embedding(),
                        },
                    ),
                ),
                ..c
            }
        } else {
            c
        }
    }

    /// The back end that the environment names.
    fn parse_db(&self) -> (r: Option<VectorDb>)
        ensures
            r == self.db(),
    {
        match &self.retrieve_db {
            Some(name) => {
                if same_text(name, "none") {
                    Some(VectorDb::Disabled)
                } else if same_text(name, "sqlite_vec") {
                    Some(VectorDb::SqliteVec)
                } else if same_text(name, "lancedb") {
                    Some(VectorDb::LanceDb)
                } else {
                    None
                }
            },
            None => None,
        }
    }

    /// The dimension that the environment gives.
    fn parse_dim(&self) -> (r: Option<u32>)
        ensures
            r == self.dim(),
    {
        match &self.dimension {
            Some(text) => parse_u32(text),
            None => None,
        }
    }

    /// Whether the environment overrides anything.
    pub fn overrides_any(&self) -> (r: bool)
        ensures
            r == self.any(),
    {
        self.parse_db().is_some() || self.enabled.is_some() || self.provider.is_some()
            || self.model.is_some() || self.api_key_env.is_some() || self.base_url.is_some()
            || self.parse_dim().is_some()
    }

    /// Lets the environment override a configuration.
    pub fn apply(&self, retrieve: &mut RetrieveConfig)
        ensures
            final(retrieve)@ == self.over(old(retrieve)@),
    {
        if !self.overrides_any() {
            return ;
        }
        let db = self.parse_db();
        let dim = self.parse_dim();
        if let Some(v) = db {
            retrieve.db = v;
        }
        let mut taken: Option<EmbeddingConfig> = None;
        std::mem::swap(&mut taken, &mut retrieve.embedding);
        let start = match taken {
            Some(e) => e,
            None => EmbeddingConfig::default(),
        };
        let EmbeddingConfig { enabled, provider, model, api_key_env, base_url, dimension } = start;
        let after = EmbeddingConfig {
            enabled: match &self.enabled {
                Some(text) => same_text(text, "1") || same_text(text, "true") || same_text(
                    text,
                    "yes",
                ),
                None => enabled,
            },
            provider: match &self.provider {
                Some(text) => text.clone(),
                None => provider,
            },
            model: match &self.model {
                Some(text) => text.clone(),
                None => model,
            },
            api_key_env: match &self.api_key_env {
                Some(text) => Some(text.clone()),
                None => api_key_env,
            },
            base_url: match &self.base_url {
                Some(text) => Some(text.clone()),
                None => base_url,
            },
            dimension: match dim {
                Some(n) => Some(n),
                None => dimension,
            },
        };
        retrieve.embedding = Some(after);
    }
}

/// The environment overrides a configuration once and for all: applied a
/// second time it changes nothing.
pub proof fn overrides_are_idempotent(env: EnvOverrides, c: RetrieveModel)
    ensures
        env.over(env.over(c)) == env.over(c),
{
}

/// The configuration of a workspace.
#[derive(Debug, Clone)]
pub struct WorkspaceConfig {
    pub sync: SyncConfig,
    pub retrieve: RetrieveConfig,
}

/// A copy of an embedding configuration.
fn copy_embedding(e: &EmbeddingConfig) -> (r: EmbeddingConfig)
    ensures
        r@ == e@,
{
    EmbeddingConfig {
        enabled: e.enabled,
        provider: e.provider.clone(),
        model: e.model.clone(),
        api_key_env: copy_text(&e.api_key_env),
        base_url: copy_text(&e.base_url),
        dimension: e.dimension,
    }
}

/// A copy of a retrieval configuration.
pub fn copy_retrieve(c: &RetrieveConfig) -> (r: RetrieveConfig)
    ensures
        r@ == c@,
{
    RetrieveConfig {
        db: c.db,
        embedding: match &c.embedding {
            Some(e) => Some(copy_embedding(e)),
            None => None,
        },
        hybrid: c.hybrid,
        sync_interval_minutes: c.sync_interval_minutes,
    }
}

impl WorkspaceConfig {
    /// The same settings as those of a user.
    pub fn to_user_config(&self) -> (r: UserConfig)
        ensures
            r.retrieve is Some,
            r.retrieve->0@ == self.retrieve@,
    {
        UserConfig { retrieve: Some(copy_retrieve(&self.retrieve)) }
    }
}

/// The configuration of a user, where a workspace has none of its own.
#[derive(Debug, Clone)]
pub struct UserConfig {
    pub retrieve: Option<RetrieveConfig>,
}

impl UserConfig {
    /// Lets the environment override the configuration. Where nothing is
    /// overridden nothing changes; otherwise a missing section is made of
    /// defaults first.
    pub fn apply_env_overrides(&mut self, env: &EnvOverrides)
        ensures
            if env.any() {
                &&& final(self).retrieve is Some
                &&& final(self).retrieve->0@ == env.over(
                    match old(self).retrieve {
                        Some(c) => c@,
                        None => default_retrieve(),
                    },
                )
            } else {
                *final(self) == *old(self)
            },
    {
        if !env.overrides_any() {
            return ;
        }
        let mut taken: Option<RetrieveConfig> = None;
        std::mem::swap(&mut taken, &mut self.retrieve);
        let mut retrieve = match taken {
            Some(c) => c,
            None => RetrieveConfig::default(),
        };
        env.apply(&mut retrieve);
        self.retrieve = Some(retrieve);
    }
}

/// What the environment sets counts, and what it does not set stays as it was
/// configured. Where it sets anything at all, a missing section is taken to
/// hold nothing, with embeddings off.
pub proof fn the_environment_comes_before_the_configuration(
    env: EnvOverrides,
    c: RetrieveModel,
    before: EmbeddingModel,
)
    requires
        env.any(),
        c.embedding is Some ==> before == c.embedding->0,
        c.embedding is None ==> !before.enabled && before.provider.len() == 0
            && before.model.len() == 0 && before.api_key_env is None && before.base_url is None
            && before.dimension is None,
    ensures
        env.over(c).hybrid == c.hybrid,
        env.over(c).sync_interval_minutes == c.sync_interval_minutes,
        env.over(c).embedding is Some,
        ({
            let e = env.over(c).embedding->0;
            &&& env.enabled is Some ==> (e.enabled <==> env.enabled->0@ == "1"@
                || env.enabled->0@ == "true"@ || env.enabled->0@ == "yes"@)
            &&& env.enabled is None ==> e.enabled == before.enabled
            &&& env.provider is Some ==> e.provider == env.provider->0@
            &&& env.provider is None ==> e.provider =~= before.provider
            &&& env.model is Some ==> e.model == env.model->0@
            &&& env.model is None ==> e.model =~= before.model
            &&& env.api_key_env is Some ==> e.api_key_env == Some(env.api_key_env->0@)
            &&& env.api_key_env is None ==> e.api_key_env == before.api_key_env
            &&& env.base_url is Some ==> e.base_url == Some(env.base_url->0@)
            &&& env.base_url is None ==> e.base_url == before.base_url
            &&& env.dimension is None ==> e.dimension == before.dimension
        }),
        env.retrieve_db is None ==> env.over(c).db == c.db,
{
}

/// The back ends and numbers that the environment names, as it writes them. An
/// unknown name, and what is no number, is as if it were not set.
pub proof fn names_and_numbers_in_the_environment(env: EnvOverrides, c: RetrieveModel, dim: u32)
    ensures
        env.retrieve_db is Some && env.retrieve_db->0@ == "none"@ ==> env.over(c).db
            == VectorDb::Disabled,
        env.retrieve_db is Some && env.retrieve_db->0@ == "sqlite_vec"@ ==> env.over(c).db
            == VectorDb::SqliteVec,
        env.retrieve_db is Some && env.retrieve_db->0@ == "lancedb"@ ==> env.over(c).db
            == VectorDb::LanceDb,
        env.retrieve_db is Some && env.retrieve_db->0@ != "none"@ && env.retrieve_db->0@
            != "sqlite_vec"@ && env.retrieve_db->0@ != "lancedb"@ ==> env.over(c).db == c.db,
        env.dimension is Some && env.dimension->0@ == decimal(dim as nat) ==> env.over(
            c,
        ).embedding is Some && env.over(c).embedding->0.dimension == Some(dim),
{
    lemma_decimal_read(dim as nat);
    reveal_strlit("none");
    reveal_strlit("sqlite_vec");
    reveal_strlit("lancedb");
    assert("none"@.len() == 4);
    assert("sqlite_vec"@.len() == 10);
    assert("lancedb"@.len() == 7);
}

/// An environment that sets nothing changes nothing, whether it is empty or
/// holds only unknown names and what is no number.
pub proof fn an_empty_environment_changes_nothing(env: EnvOverrides, c: RetrieveModel)
    requires
        env.enabled is None,
        env.provider is None,
        env.model is None,
        env.api_key_env is None,
        env.base_url is None,
        env.retrieve_db is None || (env.retrieve_db->0@ != "none"@ && env.retrieve_db->0@
            != "sqlite_vec"@ && env.retrieve_db->0@ != "lancedb"@),
        env.dimension is None || env.dimension->0@.len() == 0,
    ensures
        env.over(c) == c,
        !env.any(),
{
}

/// Any one variable that is set overrides something.
pub proof fn every_variable_overrides(env: EnvOverrides)
    ensures
        env.enabled is Some || env.provider is Some || env.model is Some || env.api_key_env is Some
            || env.base_url is Some ==> env.any(),
{
}

/// A user configuration changes exactly where the environment sets something.
pub proof fn user_settings_give_way_to_the_environment(
    config: &mut UserConfig,
    env: &EnvOverrides,
    retrieve: &mut RetrieveConfig,
)
    requires
        call_ensures(UserConfig::apply_env_overrides, (config, env), ()),
        call_ensures(EnvOverrides::apply, (env, retrieve), ()),
    ensures
        !env.any() ==> *final(config) == *old(config),
        env.any() ==> final(config).retrieve is Some,
        env.any() && old(config).retrieve is Some ==> final(config).retrieve->0@ == env.over(
            old(config).retrieve->0@,
        ),
        env.any() && old(config).retrieve is None ==> final(config).retrieve->0@.hybrid.rrf_k == 60,
        final(retrieve)@ == env.over(old(retrieve)@),
{
}

} // verus!
