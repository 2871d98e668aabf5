//! Embedding providers: which one a configuration names, where its requests
//! go, and what its replies say.

use crate::double::Double;
use crate::json::{
    as_double, as_unsigned, double_value, json_elements, json_member, json_of, member,
    unsigned_value, Json,
};
use crate::paths::FsPath;
use crate::retrieve::error::Error;
use crate::text::{has_part, parts_can_be_cut_out, same_text};
use vstd::prelude::*;

verus! {

/// How to reach an embedding provider.
#[derive(Debug, Clone)]
pub struct EmbedderConfig {
    /// `"openai"`, `"ollama"` or `"fastembed"`.
    pub provider: String,
    /// The name of the model, as the provider knows it.
    pub model: String,
    /// The environment variable that holds the key of an OpenAI account.
    pub api_key_env: Option<String>,
    /// The base of the address, where it is not the provider's own.
    pub base_url: Option<String>,
    /// Where models that run locally are kept.
    pub cache_dir: Option<FsPath>,
}

/// A model that runs locally.
#[derive(Debug, Clone, Copy, PartialEq, Eq, Structural)]
pub enum FastEmbedModel {
    AllMiniLML6V2,
    BGESmallENV15,
    BGEBaseENV15,
    BGELargeENV15,
    NomicEmbedTextV1,
    NomicEmbedTextV15,
    MultilingualE5Small,
    MultilingualE5Base,
    MultilingualE5Large,
}

impl FastEmbedModel {
    /// The name of the model.
    pub open spec fn name(self) -> Seq<char> {
        match self {
            FastEmbedModel::AllMiniLML6V2 => "AllMiniLML6V2"@,
            FastEmbedModel::BGESmallENV15 => "BGESmallENV15"@,
            FastEmbedModel::BGEBaseENV15 => "BGEBaseENV15"@,
            FastEmbedModel::BGELargeENV15 => "BGELargeENV15"@,
            FastEmbedModel::NomicEmbedTextV1 => "NomicEmbedTextV1"@,
            FastEmbedModel::NomicEmbedTextV15 => "NomicEmbedTextV15"@,
            FastEmbedModel::MultilingualE5Small => "MultilingualE5Small"@,
            FastEmbedModel::MultilingualE5Base => "MultilingualE5Base"@,
            FastEmbedModel::MultilingualE5Large => "MultilingualE5Large"@,
        }
    }

    /// The model of the given name.
    pub fn from_name(name: &str) -> (r: Result<FastEmbedModel, Error>)
        ensures
            match r {
                Ok(model) => model.name() == name@,
                Err(e) => {
                    &&& forall|model: FastEmbedModel| #![trigger model.name()] model.name() != name@
                    &&& e.is_embed(
                        "unknown fastembed model `"@ + name@
                            + "`; supported: AllMiniLML6V2, BGESmallENV15, BGEBaseENV15, BGELargeENV15, NomicEmbedTextV1, NomicEmbedTextV15, MultilingualE5Small, MultilingualE5Base, MultilingualE5Large"@,
                    )
                },
            },
    {
        if same_text(name, "AllMiniLML6V2") {
            Ok(FastEmbedModel::AllMiniLML6V2)
        } else if same_text(name, "BGESmallENV15") {
            Ok(FastEmbedModel::BGESmallENV15)
        } else if same_text(name, "BGEBaseENV15") {
            Ok(FastEmbedModel::BGEBaseENV15)
        } else if same_text(name, "BGELargeENV15") {
            Ok(FastEmbedModel::BGELargeENV15)
        } else if same_text(name, "NomicEmbedTextV1") {
            Ok(FastEmbedModel::NomicEmbedTextV1)
        } else if same_text(name, "NomicEmbedTextV15") {
            Ok(FastEmbedModel::NomicEmbedTextV15)
        } else if same_text(name, "MultilingualE5Small") {
            Ok(FastEmbedModel::MultilingualE5Small)
        } else if same_text(name, "MultilingualE5Base") {
            Ok(FastEmbedModel::MultilingualE5Base)
        } else if same_text(name, "MultilingualE5Large") {
            Ok(FastEmbedModel::MultilingualE5Large)
        } else {
            let mut text = "unknown fastembed model `".to_owned();
            text.append(name);
            text.append(
                "`; supported: AllMiniLML6V2, BGESmallENV15, BGEBaseENV15, BGELargeENV15, NomicEmbedTextV1, NomicEmbedTextV15, MultilingualE5Small, MultilingualE5Base, MultilingualE5Large",
            );
            Err(Error::Embed(text))
        }
    }
}

/// An embedder that a configuration asks for.
#[derive(Debug, Clone)]
pub enum EmbedderChoice {
    /// Requests to an OpenAI-compatible service, with the key that the named
    /// environment variable holds.
    OpenAi { url: String, api_key_env: String },
    /// Requests to an Ollama service.
    Ollama { url: String },
    /// A model that runs locally.
    FastEmbed { model: FastEmbedModel },
}

/// The text of `value`, or `default` where there is none.
pub open spec fn text_or(value: Option<String>, default: Seq<char>) -> Seq<char> {
    match value {
        Some(s) => s@,
        None => default,
    }
}

fn owned_or(value: &Option<String>, default: &str) -> (r: String)
    ensures
        r@ == text_or(*value, default@),
{
    match value {
        Some(s) => s.clone(),
        None => default.to_owned(),
    }
}

/// Which embedder a configuration asks for. The provider decides; for a local
/// model its name must be known too.
pub fn build_embedder(config: &EmbedderConfig) -> (r: Result<EmbedderChoice, Error>)
    ensures
        if config.provider@ == "openai"@ {
            r matches Ok(EmbedderChoice::OpenAi { url, api_key_env })
                && url@ == text_or(config.base_url, "https://api.openai.com"@) + "/v1/embeddings"@
                && api_key_env@ == text_or(config.api_key_env, "OPENAI_API_KEY"@)
        } else if config.provider@ == "ollama"@ {
            r matches Ok(EmbedderChoice::Ollama { url })
                && url@ == text_or(config.base_url, "http://localhost:11434"@) + "/api/embed"@
        } else if config.provider@ == "fastembed"@ {
            match r {
                Ok(choice) => choice matches EmbedderChoice::FastEmbed { model } && model.name()
                    == config.model@,
                Err(e) => {
                    &&& forall|model: FastEmbedModel| #![trigger model.name()] model.name() != config.model@
                    &&& e.is_embed(
                        "unknown fastembed model `"@ + config.model@
                            + "`; supported: AllMiniLML6V2, BGESmallENV15, BGEBaseENV15, BGELargeENV15, NomicEmbedTextV1, NomicEmbedTextV15, MultilingualE5Small, MultilingualE5Base, MultilingualE5Large"@,
                    )
                },
            }
        } else {
            r is Err && r->Err_0.is_embed(
                "unknown embedding provider `"@ + config.provider@
                    + "`; supported values: openai, ollama, fastembed"@,
            )
        },
{
    if same_text(&config.provider, "openai") {
        let mut url = owned_or(&config.base_url, "https://api.openai.com");
        url.append("/v1/embeddings");
        let api_key_env = owned_or(&config.api_key_env, "OPENAI_API_KEY");
        Ok(EmbedderChoice::OpenAi { url, api_key_env })
    } else if same_text(&config.provider, "ollama") {
        let mut url = owned_or(&config.base_url, "http://localhost:11434");
        url.append("/api/embed");
        Ok(EmbedderChoice::Ollama { url })
    } else if same_text(&config.provider, "fastembed") {
        match FastEmbedModel::from_name(&config.model) {
            Ok(model) => Ok(EmbedderChoice::FastEmbed { model }),
            Err(e) => Err(e),
        }
    } else {
        let mut text = "unknown embedding provider `".to_owned();
        text.append(&config.provider);
        text.append("`; supported values: openai, ollama, fastembed");
        Err(Error::Embed(text))
    }
}

/// The vector that a JSON value holds, or what is wrong with it.
pub open spec fn vector_of(j: Json) -> Result<Seq<Double>, Seq<char>> {
    match j {
        Json::Array(items) => if forall|i: int|
            0 <= i < items.len() ==> double_value(#[trigger] items[i]) is Some {
            Ok(items.map_values(|e: Json| double_value(e)->0))
        } else {
            Err("non-numeric value in embedding vector"@)
        },
        _ => Err("embedding value is not a JSON array"@),
    }
}

/// The member `key` of `j`, or null.
pub open spec fn member_or_null(j: Json, key: Seq<char>) -> Json {
    match member(j, key) {
        Some(v) => v,
        None => Json::Null,
    }
}

/// The vectors of a reply in which each entry names the position that its
/// vector belongs to. A position that no entry names stays empty, an entry for
/// a position that was not asked for is ignored, and of two entries for one
/// position the later one counts. The first faulty entry fails the reply.
pub open spec fn placed_vectors(items: Seq<Json>, expected: nat) -> Result<
    Seq<Seq<Double>>,
    Seq<char>,
>
    decreases items.len(),
{
    if items.len() == 0 {
        Ok(Seq::new(expected, |i: int| Seq::<Double>::empty()))
    } else {
        match placed_vectors(items.drop_last(), expected) {
            Err(e) => Err(e),
            Ok(vectors) => match unsigned_value(member_or_null(items.last(), "index"@)) {
                None => Err("missing `index` in embedding object"@),
                Some(index) => match vector_of(member_or_null(items.last(), "embedding"@)) {
                    Err(e) => Err(e),
                    Ok(v) => Ok(
                        if index < vectors.len() {
                            vectors.update(index as int, v)
                        } else {
                            vectors
                        },
                    ),
                },
            },
        }
    }
}

/// The vectors of an OpenAI reply to a request for `expected` of them.
pub open spec fn openai_vectors(j: Json, expected: nat) -> Result<Seq<Seq<Double>>, Seq<char>> {
    match member(j, "data"@) {
        Some(Json::Array(items)) => placed_vectors(items, expected),
        _ => Err("unexpected OpenAI response: missing `data` array"@),
    }
}

/// The vectors of a list of JSON values; the first faulty one fails the list.
pub open spec fn vectors_of(items: Seq<Json>) -> Result<Seq<Seq<Double>>, Seq<char>>
    decreases items.len(),
{
    if items.len() == 0 {
        Ok(Seq::empty())
    } else {
        match vectors_of(items.drop_last()) {
            Err(e) => Err(e),
            Ok(vectors) => match vector_of(items.last()) {
                Err(e) => Err(e),
                Ok(v) => Ok(vectors.push(v)),
            },
        }
    }
}

/// The vectors of an Ollama reply, in its order.
pub open spec fn ollama_vectors(j: Json) -> Result<Seq<Seq<Double>>, Seq<char>> {
    match member(j, "embeddings"@) {
        Some(Json::Array(items)) => vectors_of(items),
        _ => Err("unexpected Ollama response: missing `embeddings` array"@),
    }
}

/// The components of a list of vectors.
pub open spec fn components(vectors: Seq<Vec<Double>>) -> Seq<Seq<Double>> {
    vectors.map_values(|v: Vec<Double>| v@)
}

fn embed_error<T>(text: &str) -> (r: Result<T, Error>)
    ensures
        r is Err,
        r->Err_0.is_embed(text@),
{
    Err(Error::Embed(text.to_owned()))
}

/// Reads the vector that a JSON value holds.
pub fn parse_float_array(value: &serde_json::Value) -> (r: Result<Vec<Double>, Error>)
    ensures
        match vector_of(json_of(*value)) {
            Ok(v) => r is Ok && r->Ok_0@ == v,
            Err(text) => r is Err && r->Err_0.is_embed(text),
        },
{
    let items = match json_elements(value) {
        Some(items) => items,
        None => return embed_error("embedding value is not a JSON array"),
    };
    let ghost all = items@.map_values(|e: serde_json::Value| json_of(e));
    let mut r: Vec<Double> = Vec::new();
    let mut i: usize = 0;
    while i < items.len()
        invariant
            i <= items@.len(),
            all == items@.map_values(|e: serde_json::Value| json_of(e)),
            json_of(*value) == Json::Array(all),
            r@.len() == i,
            forall|k: int|
                0 <= k < i ==> double_value(#[trigger] all[k]) is Some && r@[k] == double_value(
                    all[k],
                )->0,
        decreases items@.len() - i,
    {
        proof {
            assert(all[i as int] == json_of(items@[i as int]));
        }
        match as_double(&items[i]) {
            Some(x) => {
                r.push(x);
            },
            None => {
                proof {
                    assert(double_value(all[i as int]) is None);
                }
                return embed_error("non-numeric value in embedding vector");
            },
        }
        i += 1;
    }
    proof {
        assert(r@ =~= all.map_values(|e: Json| double_value(e)->0));
    }
    Ok(r)
}

/// Puts a vector in its place; one for a place that there is not is dropped.
pub fn place_vector(results: &mut Vec<Vec<Double>>, index: u64, vector: Vec<Double>)
    ensures
        components(final(results)@) == (if index < old(results)@.len() {
            components(old(results)@).update(index as int, vector@)
        } else {
            components(old(results)@)
        }),
{
    let ghost before = results@;
    if index < results.len() as u64 {
        results[index as usize] = vector;
        proof {
            assert(components(results@) =~= components(before).update(index as int, vector@));
        }
    }
}

/// The error about an environment variable that should hold a key and is not
/// set.
pub fn missing_api_key(api_key_env: &str) -> (r: Error)
    ensures
        r.is_embed("environment variable `"@ + api_key_env@ + "` is not set"@),
{
    let mut text = "environment variable `".to_owned();
    text.append(api_key_env);
    text.append("` is not set");
    Error::Embed(text)
}

/// Reads the reply of an OpenAI-compatible service to a request for `expected`
/// vectors.
pub fn parse_openai_response(response: &serde_json::Value, expected: usize) -> (r: Result<
    Vec<Vec<Double>>,
    Error,
>)
    ensures
        match openai_vectors(json_of(*response), expected as nat) {
            Ok(v) => r is Ok && components(r->Ok_0@) == v,
            Err(text) => r is Err && r->Err_0.is_embed(text),
        },
{
    let data = match json_member(response, "data") {
        Some(v) => match json_elements(v) {
            Some(items) => items,
            None => return embed_error("unexpected OpenAI response: missing `data` array"),
        },
        None => return embed_error("unexpected OpenAI response: missing `data` array"),
    };
    let ghost all = data@.map_values(|e: serde_json::Value| json_of(e));
    let mut results: Vec<Vec<Double>> = Vec::new();
    while results.len() < expected
        invariant
            results@.len() <= expected,
            components(results@) =~= Seq::new(results@.len(), |i: int| Seq::<Double>::empty()),
        decreases expected - results@.len(),
    {
        let ghost before = results@;
        let empty: Vec<Double> = Vec::new();
        results.push(empty);
        proof {
            assert(components(results@) =~= components(before).push(Seq::empty()));
        }
    }
    let mut i: usize = 0;
    proof {
        assert(all.take(0) =~= Seq::empty());
    }
    while i < data.len()
        invariant
            i <= data@.len(),
            all == data@.map_values(|e: serde_json::Value| json_of(e)),
            openai_vectors(json_of(*response), expected as nat) == placed_vectors(
                all,
                expected as nat,
            ),
            placed_vectors(all.take(i as int), expected as nat) == Ok::<_, Seq<char>>(
                components(results@),
            ),
        decreases data@.len() - i,
    {
        let item = &data[i];
        proof {
            assert(all.take(i + 1).drop_last() =~= all.take(i as int));
            assert(all.take(i + 1).last() == json_of(*item));
        }
        let index: u64 = match json_member(item, "index") {
            Some(v) => match as_unsigned(v) {
                Some(n) => n,
                None => {
                    proof {
                        lemma_placed_vectors_fail(all, i + 1, expected as nat);
                    }
                    return embed_error("missing `index` in embedding object");
                },
            },
            None => {
                proof {
                    lemma_placed_vectors_fail(all, i + 1, expected as nat);
                }
                return embed_error("missing `index` in embedding object");
            },
        };
        let vector = match json_member(item, "embedding") {
            Some(v) => match parse_float_array(v) {
                Ok(vector) => vector,
                Err(e) => {
                    proof {
                        lemma_placed_vectors_fail(all, i + 1, expected as nat);
                    }
                    return Err(e);
                },
            },
            None => {
                proof {
                    lemma_placed_vectors_fail(all, i + 1, expected as nat);
                }
                return embed_error("embedding value is not a JSON array");
            },
        };
        place_vector(&mut results, index, vector);
        i += 1;
    }
    proof {
        assert(all.take(i as int) =~= all);
    }
    Ok(results)
}

/// A faulty entry fails the whole reply.
proof fn lemma_placed_vectors_fail(items: Seq<Json>, upto: int, expected: nat)
    requires
        0 <= upto <= items.len(),
        placed_vectors(items.take(upto), expected) is Err,
    ensures
        placed_vectors(items, expected) == placed_vectors(items.take(upto), expected),
    decreases items.len(),
{
    if upto < items.len() {
        assert(items.drop_last().take(upto) =~= items.take(upto));
        lemma_placed_vectors_fail(items.drop_last(), upto, expected);
    } else {
        assert(items.take(upto) =~= items);
    }
}

proof fn lemma_vectors_of_fail(items: Seq<Json>, upto: int)
    requires
        0 <= upto <= items.len(),
        vectors_of(items.take(upto)) is Err,
    ensures
        vectors_of(items) == vectors_of(items.take(upto)),
    decreases items.len(),
{
    if upto < items.len() {
        assert(items.drop_last().take(upto) =~= items.take(upto));
        lemma_vectors_of_fail(items.drop_last(), upto);
    } else {
        assert(items.take(upto) =~= items);
    }
}

/// Reads the reply of an Ollama service.
pub fn parse_ollama_response(response: &serde_json::Value) -> (r: Result<Vec<Vec<Double>>, Error>)
    ensures
        match ollama_vectors(json_of(*response)) {
            Ok(v) => r is Ok && components(r->Ok_0@) == v,
            Err(text) => r is Err && r->Err_0.is_embed(text),
        },
{
    let items = match json_member(response, "embeddings") {
        Some(v) => match json_elements(v) {
            Some(items) => items,
            None => return embed_error("unexpected Ollama response: missing `embeddings` array"),
        },
        None => return embed_error("unexpected Ollama response: missing `embeddings` array"),
    };
    let ghost all = items@.map_values(|e: serde_json::Value| json_of(e));
    let mut results: Vec<Vec<Double>> = Vec::new();
    let mut i: usize = 0;
    proof {
        assert(all.take(0) =~= Seq::empty());
        assert(components(results@) =~= Seq::empty());
    }
    while i < items.len()
        invariant
            i <= items@.len(),
            all == items@.map_values(|e: serde_json::Value| json_of(e)),
            ollama_vectors(json_of(*response)) == vectors_of(all),
            vectors_of(all.take(i as int)) == Ok::<_, Seq<char>>(components(results@)),
        decreases items@.len() - i,
    {
        proof {
            assert(all.take(i + 1).drop_last() =~= all.take(i as int));
            assert(all.take(i + 1).last() == json_of(items@[i as int]));
        }
        match parse_float_array(&items[i]) {
            Ok(vector) => {
                let ghost before = results@;
                results.push(vector);
                proof {
                    assert(components(results@) =~= components(before).push(vector@));
                }
            },
            Err(e) => {
                proof {
                    lemma_vectors_of_fail(all, i + 1);
                }
                return Err(e);
            },
        }
        i += 1;
    }
    proof {
        assert(all.take(i as int) =~= all);
    }
    Ok(results)
}

/// A reply that is accepted holds one vector for each text of the request.
pub proof fn openai_one_vector_per_text(j: Json, expected: nat)
    ensures
        openai_vectors(j, expected) is Ok ==> openai_vectors(j, expected)->Ok_0.len() == expected,
{
    if let Some(Json::Array(items)) = member(j, "data"@) {
        lemma_placed_vectors_len(items, expected);
    }
}

proof fn lemma_placed_vectors_len(items: Seq<Json>, expected: nat)
    ensures
        placed_vectors(items, expected) is Ok ==> placed_vectors(items, expected)->Ok_0.len()
            == expected,
    decreases items.len(),
{
    if items.len() > 0 {
        lemma_placed_vectors_len(items.drop_last(), expected);
    }
}

/// A reply is accepted exactly if every entry names a position and holds a
/// vector of numbers.
pub proof fn replies_need_a_vector_in_every_entry(items: Seq<Json>, expected: nat)
    ensures
        placed_vectors(items, expected) is Ok <==> forall|i: int|
            0 <= i < items.len() ==> unsigned_value(
                member_or_null(#[trigger] items[i], "index"@),
            ) is Some && vector_of(member_or_null(items[i], "embedding"@)) is Ok,
    decreases items.len(),
{
    if items.len() > 0 {
        let rest = items.drop_last();
        let last = items.last();
        replies_need_a_vector_in_every_entry(rest, expected);
        assert(items[items.len() - 1] == last);
        if placed_vectors(items, expected) is Ok {
            assert forall|i: int| 0 <= i < items.len() implies unsigned_value(
                member_or_null(#[trigger] items[i], "index"@),
            ) is Some && vector_of(member_or_null(items[i], "embedding"@)) is Ok by {
                if i < rest.len() {
                    assert(rest[i] == items[i]);
                }
            }
        }
        if forall|i: int|
            0 <= i < items.len() ==> unsigned_value(
                member_or_null(#[trigger] items[i], "index"@),
            ) is Some && vector_of(member_or_null(items[i], "embedding"@)) is Ok {
            assert forall|i: int| 0 <= i < rest.len() implies unsigned_value(
                member_or_null(#[trigger] rest[i], "index"@),
            ) is Some && vector_of(member_or_null(rest[i], "embedding"@)) is Ok by {
                assert(rest[i] == items[i]);
            }
            assert(unsigned_value(member_or_null(items[items.len() - 1], "index"@)) is Some);
        }
    }
}

/// Each vector of a reply stands at the position that its entry names, whatever
/// the order of the entries; of several for one position the last counts, and a
/// position without an entry stays empty.
pub proof fn vectors_stand_where_they_belong(items: Seq<Json>, expected: nat, at: int, k: int)
    requires
        placed_vectors(items, expected) is Ok,
        0 <= at < expected,
        -1 <= k < items.len(),
        k >= 0 ==> unsigned_value(member_or_null(items[k], "index"@)) == Some(at as u64) && at
            <= u64::MAX,
        forall|i: int|
            k < i < items.len() ==> unsigned_value(
                member_or_null(#[trigger] items[i], "index"@),
            )->0 != at,
    ensures
        placed_vectors(items, expected)->Ok_0.len() == expected,
        k >= 0 ==> placed_vectors(items, expected)->Ok_0[at] == vector_of(
            member_or_null(items[k], "embedding"@),
        )->Ok_0,
        k < 0 ==> placed_vectors(items, expected)->Ok_0[at].len() == 0,
    decreases items.len(),
{
    lemma_placed_vectors_len(items, expected);
    if items.len() > 0 {
        let rest = items.drop_last();
        lemma_placed_vectors_len(rest, expected);
        assert(items[items.len() - 1] == items.last());
        if k < rest.len() {
            if k >= 0 {
                assert(rest[k] == items[k]);
            }
            assert forall|i: int| k < i < rest.len() implies unsigned_value(
                member_or_null(#[trigger] rest[i], "index"@),
            )->0 != at by {
                assert(rest[i] == items[i]);
            }
            vectors_stand_where_they_belong(rest, expected, at, k);
        }
    }
}

/// The vectors of an Ollama reply are those of its entries, in their order; it
/// is accepted exactly if each of them is a vector of numbers.
pub proof fn ollama_vectors_keep_their_order(items: Seq<Json>, i: int)
    requires
        0 <= i < items.len(),
    ensures
        vectors_of(items) is Ok ==> vectors_of(items)->Ok_0.len() == items.len() && vector_of(
            items[i],
        ) is Ok && vectors_of(items)->Ok_0[i] == vector_of(items[i])->Ok_0,
        vector_of(items[i]) is Err ==> vectors_of(items) is Err,
    decreases items.len(),
{
    let rest = items.drop_last();
    if i < rest.len() {
        ollama_vectors_keep_their_order(rest, i);
        assert(rest[i] == items[i]);
    }
    lemma_vectors_of_len(rest);
}

proof fn lemma_vectors_of_len(items: Seq<Json>)
    ensures
        vectors_of(items) is Ok ==> vectors_of(items)->Ok_0.len() == items.len(),
    decreases items.len(),
{
    if items.len() > 0 {
        lemma_vectors_of_len(items.drop_last());
    }
}

/// Entries that all hold vectors make a reply that is accepted.
pub proof fn sound_replies_are_accepted(items: Seq<Json>)
    requires
        forall|i: int| 0 <= i < items.len() ==> vector_of(#[trigger] items[i]) is Ok,
    ensures
        vectors_of(items) is Ok,
    decreases items.len(),
{
    if items.len() > 0 {
        let rest = items.drop_last();
        assert forall|i: int| 0 <= i < rest.len() implies vector_of(#[trigger] rest[i]) is Ok by {
            assert(rest[i] == items[i]);
        }
        sound_replies_are_accepted(rest);
        assert(vector_of(items[items.len() - 1]) is Ok);
    }
}

/// A vector is an array of numbers, component by component; nothing else is
/// one.
pub proof fn vectors_are_arrays_of_numbers(items: Seq<Json>, other: Json, i: int)
    requires
        0 <= i < items.len(),
        !(other is Array),
    ensures
        vector_of(other) == Err::<Seq<Double>, Seq<char>>("embedding value is not a JSON array"@),
        vector_of(Json::Array(items)) is Ok ==> {
            let v = vector_of(Json::Array(items))->Ok_0;
            &&& v.len() == items.len()
            &&& double_value(items[i]) == Some(v[i])
        },
        double_value(items[i]) is None ==> vector_of(Json::Array(items)) == Err::<
            Seq<Double>,
            Seq<char>,
        >("non-numeric value in embedding vector"@),
{
}

/// The vectors of a reply stand in its `data`, those of an Ollama reply in its
/// `embeddings`; a reply without them fails.
pub proof fn replies_hold_their_vectors_by_name(j: Json, items: Seq<Json>, expected: nat)
    ensures
        member(j, "data"@) == Some(Json::Array(items)) ==> openai_vectors(j, expected)
            == placed_vectors(items, expected),
        !(member(j, "data"@) matches Some(Json::Array(_))) ==> openai_vectors(j, expected) == Err::<
            Seq<Seq<Double>>,
            Seq<char>,
        >("unexpected OpenAI response: missing `data` array"@),
        member(j, "embeddings"@) == Some(Json::Array(items)) ==> ollama_vectors(j) == vectors_of(
            items,
        ),
        !(member(j, "embeddings"@) matches Some(Json::Array(_))) ==> ollama_vectors(j) == Err::<
            Seq<Seq<Double>>,
            Seq<char>,
        >("unexpected Ollama response: missing `embeddings` array"@),
{
}

/// A vector is put in its place and nowhere else; one for a place that there is
/// not changes nothing.
pub proof fn vectors_are_put_in_their_place(
    results: &mut Vec<Vec<Double>>,
    index: u64,
    vector: Vec<Double>,
    i: int,
)
    requires
        call_ensures(place_vector, (results, index, vector), ()),
        0 <= i < old(results)@.len(),
    ensures
        final(results)@.len() == old(results)@.len(),
        i == index ==> final(results)@[i]@ == vector@,
        i != index ==> final(results)@[i]@ == old(results)@[i]@,
{
    let before = components(old(results)@);
    let after = components(final(results)@);
    assert(after.len() == final(results)@.len());
    assert(before.len() == old(results)@.len());
    assert(before[i] == old(results)@[i]@);
    assert(after[i] == final(results)@[i]@);
}

/// The service that a provider stands for, with the address and the key that
/// are configured, or its own.
pub proof fn providers_are_reached_at_their_address(
    config: EmbedderConfig,
    built: Result<EmbedderChoice, Error>,
)
    requires
        call_ensures(build_embedder, (&config,), built),
    ensures
        config.provider@ == "openai"@ ==> {
            &&& built is Ok
            &&& built->Ok_0 matches EmbedderChoice::OpenAi { url, api_key_env } && {
                &&& config.base_url is Some ==> url@ == config.base_url->0@ + "/v1/embeddings"@
                &&& config.base_url is None ==> url@ == "https://api.openai.com"@
                    + "/v1/embeddings"@
                &&& config.api_key_env is Some ==> api_key_env@ == config.api_key_env->0@
                &&& config.api_key_env is None ==> api_key_env@ == "OPENAI_API_KEY"@
            }
        },
        config.provider@ == "ollama"@ ==> {
            &&& built is Ok
            &&& built->Ok_0 matches EmbedderChoice::Ollama { url } && {
                &&& config.base_url is Some ==> url@ == config.base_url->0@ + "/api/embed"@
                &&& config.base_url is None ==> url@ == "http://localhost:11434"@ + "/api/embed"@
            }
        },
        config.provider@ == "fastembed"@ && built is Ok ==> built->Ok_0 is FastEmbed,
        config.provider@ != "openai"@ && config.provider@ != "ollama"@ && config.provider@
            != "fastembed"@ ==> built is Err,
{
    reveal_strlit("openai");
    reveal_strlit("ollama");
    reveal_strlit("fastembed");
    assert("openai"@[1] == 'p' && "ollama"@[1] == 'l' && "fastembed"@[1] == 'a');
}

/// The error about a missing key names the variable that should hold it.
pub proof fn missing_keys_are_named(name: &str, error: Error)
    requires
        call_ensures(missing_api_key, (name,), error),
    ensures
        error is Embed,
        has_part(error->Embed_0@, name@),
        error->Embed_0@.len() == name@.len() + "environment variable `` is not set"@.len(),
{
    reveal_strlit("environment variable `");
    reveal_strlit("` is not set");
    reveal_strlit("environment variable `` is not set");
    parts_can_be_cut_out("environment variable `"@, name@, "` is not set"@);
}

} // verus!
