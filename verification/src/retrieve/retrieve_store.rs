//! Queries, documents and search results: what every index back end works
//! with.

use crate::order::{views, Ranked};
use crate::double::Double;
use vstd::prelude::*;

verus! {

/// A document to be indexed.
#[derive(Debug, Clone)]
pub struct Document {
    /// Stable identifier, assigned by the caller.
    pub id: i64,
    /// The full text. It is cut into chunks where `chunks` is absent, and is
    /// not stored itself.
    pub body: String,
    /// Absolute path of the file, shown in search results.
    pub path: String,
    /// Chunks that the caller has cut: first line, last line (both counted from
    /// zero and inclusive) and text.
    pub chunks: Option<Vec<(usize, usize, String)>>,
}

/// A chunk of a file that matches a query.
#[derive(Debug, Clone)]
pub struct ChunkHit {
    /// First source line of the chunk.
    pub line_start: usize,
    /// Last source line of the chunk.
    pub line_end: usize,
    /// The text of the chunk.
    pub text: String,
    /// Full-text rank or vector distance of the chunk; lower is better.
    pub score: Double,
}

/// A file that matches a query, with the chunks that do.
#[derive(Debug, Clone)]
pub struct FileSearchResult {
    pub id: i64,
    pub path: String,
    /// The score of the best chunk.
    pub score: Double,
    /// The chunks that match, the best one first.
    pub chunks: Vec<ChunkHit>,
}

/// The mathematical counterpart of a [`ChunkHit`].
pub struct HitModel {
    pub line_start: usize,
    pub line_end: usize,
    pub text: Seq<char>,
    pub score: Double,
}

/// The mathematical counterpart of a [`FileSearchResult`].
pub struct FileModel {
    pub id: i64,
    pub path: Seq<char>,
    pub score: Double,
    pub chunks: Seq<HitModel>,
}

impl View for ChunkHit {
    type V = HitModel;

    open spec fn view(&self) -> HitModel {
        HitModel {
            line_start: self.line_start,
            line_end: self.line_end,
            text: self.text@,
            score: self.score,
        }
    }
}

impl View for FileSearchResult {
    type V = FileModel;

    open spec fn view(&self) -> FileModel {
        FileModel {
            id: self.id,
            path: self.path@,
            score: self.score,
            chunks: views(self.chunks@),
        }
    }
}

/// Hits are ordered by score, the lowest first.
impl Ranked for ChunkHit {
    open spec fn ranked(a: HitModel) -> bool {
        a.score.is_number()
    }

    open spec fn before(a: HitModel, b: HitModel) -> bool {
        a.score.lt(b.score)
    }

    proof fn order_laws(a: HitModel, b: HitModel, c: HitModel) {
    }

    fn is_before(&self, other: &Self) -> (r: bool) {
        self.score.less(other.score)
    }
}

/// Files are ordered by score, the lowest first.
impl Ranked for FileSearchResult {
    open spec fn ranked(a: FileModel) -> bool {
        a.score.is_number()
    }

    open spec fn before(a: FileModel, b: FileModel) -> bool {
        a.score.lt(b.score)
    }

    proof fn order_laws(a: FileModel, b: FileModel, c: FileModel) {
    }

    fn is_before(&self, other: &Self) -> (r: bool) {
        self.score.less(other.score)
    }
}

/// A full-text query.
#[derive(Debug, Clone, Copy)]
pub struct FtsQuery<'a> {
    pub query: &'a str,
    /// The largest number of files in the result.
    pub limit: usize,
    /// Restricts the result to files whose path starts with this.
    pub path_prefix: Option<&'a str>,
}

impl<'a> FtsQuery<'a> {
    /// A query for at most ten files anywhere.
    pub fn new(query: &'a str) -> (r: FtsQuery<'a>)
        ensures
            r == (FtsQuery { query, limit: 10, path_prefix: None }),
    {
        FtsQuery { query, limit: 10, path_prefix: None }
    }

    /// The same query for at most `n` files.
    pub fn limit(self, n: usize) -> (r: FtsQuery<'a>)
        ensures
            r == (FtsQuery { limit: n, ..self }),
    {
        FtsQuery { query: self.query, limit: n, path_prefix: self.path_prefix }
    }

    /// The same query for files whose path starts with `p`.
    pub fn path_prefix(self, p: &'a str) -> (r: FtsQuery<'a>)
        ensures
            r == (FtsQuery { path_prefix: Some(p), ..self }),
    {
        FtsQuery { query: self.query, limit: self.limit, path_prefix: Some(p) }
    }
}

/// A query by similarity, with the embedder for its text.
pub struct VectorQuery<'a, E: ?Sized> {
    pub query: &'a str,
    pub embedder: &'a E,
    /// The largest number of files in the result.
    pub limit: usize,
    /// Restricts the result to files whose path starts with this.
    pub path_prefix: Option<&'a str>,
}

impl<'a, E: ?Sized> VectorQuery<'a, E> {
    /// A query for at most ten files anywhere.
    pub fn new(query: &'a str, embedder: &'a E) -> (r: VectorQuery<'a, E>)
        ensures
            r == (VectorQuery { query, embedder, limit: 10, path_prefix: None }),
    {
        VectorQuery { query, embedder, limit: 10, path_prefix: None }
    }

    /// The same query for at most `n` files.
    pub fn limit(self, n: usize) -> (r: VectorQuery<'a, E>)
        ensures
            r == (VectorQuery { limit: n, ..self }),
    {
        VectorQuery {
            query: self.query,
            embedder: self.embedder,
            limit: n,
            path_prefix: self.path_prefix,
        }
    }

    /// The same query for files whose path starts with `p`.
    pub fn path_prefix(self, p: &'a str) -> (r: VectorQuery<'a, E>)
        ensures
            r == (VectorQuery { path_prefix: Some(p), ..self }),
    {
        VectorQuery {
            query: self.query,
            embedder: self.embedder,
            limit: self.limit,
            path_prefix: Some(p),
        }
    }
}

/// A query both by text and by similarity. Without an embedder it goes by text
/// alone.
pub struct HybridQuery<'a, E: ?Sized> {
    pub query: &'a str,
    pub embedder: Option<&'a E>,
    /// The largest number of files in the result.
    pub limit: usize,
    /// Restricts the result to files whose path starts with this.
    pub path_prefix: Option<&'a str>,
    /// The constant that is added to a rank before its reciprocal is taken.
    pub rrf_k: Double,
    /// The weight of a rank by text.
    pub weight_fts: Double,
    /// The weight of a rank by similarity.
    pub weight_sem: Double,
}

impl<'a, E: ?Sized> HybridQuery<'a, E> {
    /// A query for at most ten files anywhere, without an embedder, with the
    /// constant 60 and equal weights of one.
    pub fn new(query: &'a str) -> (r: HybridQuery<'a, E>)
        ensures
            r == (HybridQuery::<'a, E> {
                query,
                embedder: None,
                limit: 10,
                path_prefix: None,
                rrf_k: Double { bits: 0x404e_0000_0000_0000 },
                weight_fts: Double { bits: 0x3ff0_0000_0000_0000 },
                weight_sem: Double { bits: 0x3ff0_0000_0000_0000 },
            }),
    {
        HybridQuery {
            query,
            embedder: None,
            limit: 10,
            path_prefix: None,
            rrf_k: Double { bits: 0x404e_0000_0000_0000 },
            weight_fts: Double { bits: 0x3ff0_0000_0000_0000 },
            weight_sem: Double { bits: 0x3ff0_0000_0000_0000 },
        }
    }

    /// The same query with an embedder.
    pub fn embedder(self, e: &'a E) -> (r: HybridQuery<'a, E>)
        ensures
            r == (HybridQuery { embedder: Some(e), ..self }),
    {
        let mut r = self;
        r.embedder = Some(e);
        r
    }

    /// The same query for at most `n` files.
    pub fn limit(self, n: usize) -> (r: HybridQuery<'a, E>)
        ensures
            r == (HybridQuery { limit: n, ..self }),
    {
        let mut r = self;
        r.limit = n;
        r
    }

    /// The same query for files whose path starts with `p`.
    pub fn path_prefix(self, p: &'a str) -> (r: HybridQuery<'a, E>)
        ensures
            r == (HybridQuery { path_prefix: Some(p), ..self }),
    {
        let mut r = self;
        r.path_prefix = Some(p);
        r
    }

    /// The same query with another constant.
    pub fn rrf_k(self, k: Double) -> (r: HybridQuery<'a, E>)
        ensures
            r == (HybridQuery { rrf_k: k, ..self }),
    {
        let mut r = self;
        r.rrf_k = k;
        r
    }

    /// The same query with another weight of text.
    pub fn weight_fts(self, w: Double) -> (r: HybridQuery<'a, E>)
        ensures
            r == (HybridQuery { weight_fts: w, ..self }),
    {
        let mut r = self;
        r.weight_fts = w;
        r
    }

    /// The same query with another weight of similarity.
    pub fn weight_sem(self, w: Double) -> (r: HybridQuery<'a, E>)
        ensures
            r == (HybridQuery { weight_sem: w, ..self }),
    {
        let mut r = self;
        r.weight_sem = w;
        r
    }
}

/// A full-text query asks for what was given, and each setting changes itself
/// alone, in whatever order they are made.
pub proof fn full_text_queries_ask_for_what_was_set<'a>(
    text: &'a str,
    n: usize,
    p: &'a str,
    query: FtsQuery<'a>,
    limited: FtsQuery<'a>,
    below: FtsQuery<'a>,
    both: FtsQuery<'a>,
    swapped: FtsQuery<'a>,
)
    requires
        call_ensures(FtsQuery::<'a>::new, (text,), query),
        call_ensures(FtsQuery::<'a>::limit, (query, n), limited),
        call_ensures(FtsQuery::<'a>::path_prefix, (query, p), below),
        call_ensures(FtsQuery::<'a>::path_prefix, (limited, p), both),
        call_ensures(FtsQuery::<'a>::limit, (below, n), swapped),
    ensures
        query.query@ == text@ && query.path_prefix is None && query.limit == 10,
        both.query@ == text@ && both.limit == n && both.path_prefix is Some
            && both.path_prefix->0@ == p@,
        both == swapped,
        limited.path_prefix is None && below.limit == 10,
{
}

} // verus!
