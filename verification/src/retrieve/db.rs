//! The in-memory back end, the choice of back end, and the reduction of chunk
//! results to document results.

use crate::paths::{FsPath, PathModel};
use crate::places::Places;
use crate::order::{all_ranked, sorted, sorted_is_stable, stable_sort, views, Ranked};
use crate::retrieve::sqlite_store::wipe_db_files;
use crate::retrieve::titled::{
    ChunkResultModel, ChunkSearchResult, DocumentModel, ResultModel, SearchResult, TitledDocument,
};
use crate::retrieve::vector_store::VecInfo;
use crate::double::Double;
use crate::seqs::{lemma_filter_had, lemma_filter_removes};
use crate::text::{
    contains, has_part, lowercase, precedes, same_text, texts, to_lowercase,
};
use vstd::prelude::*;
use vstd::seq_lib::group_to_multiset_ensures;
use vstd::utf8::encode_utf8;

verus! {

/// A back end that holds everything in memory and searches by substring,
/// without regard to case.
pub struct InMemoryStore {
    files: Vec<(String, i64)>,
    documents: Vec<TitledDocument>,
    places: Places,
}

/// The files of a list of records.
pub open spec fn file_records(files: Seq<(String, i64)>) -> Seq<(Seq<char>, i64)> {
    files.map_values(|f: (String, i64)| (f.0@, f.1))
}

/// No path occurs twice.
pub open spec fn unique_paths(files: Seq<(Seq<char>, i64)>) -> bool {
    forall|i: int, j: int|
        0 <= i < j < files.len() ==> (#[trigger] files[i]).0 != (#[trigger] files[j]).0
}

/// No document occurs twice.
pub open spec fn unique_ids(documents: Seq<DocumentModel>) -> bool {
    forall|i: int, j: int|
        0 <= i < j < documents.len() ==> (#[trigger] documents[i]).id != (
        #[trigger] documents[j]).id
}

/// `path` has a record.
pub open spec fn has_path(files: Seq<(Seq<char>, i64)>, path: Seq<char>) -> bool {
    exists|i: int| 0 <= i < files.len() && (#[trigger] files[i]).0 == path
}

/// The document `id` is there.
pub open spec fn has_id(documents: Seq<DocumentModel>, id: i64) -> bool {
    exists|i: int| 0 <= i < documents.len() && (#[trigger] documents[i]).id == id
}

/// `files` with the record of `path` replaced, or added at the end.
pub open spec fn with_file(files: Seq<(Seq<char>, i64)>, path: Seq<char>, mtime: i64) -> Seq<
    (Seq<char>, i64),
> {
    if has_path(files, path) {
        files.map_values(
            |f: (Seq<char>, i64)|
                if f.0 == path {
                    (path, mtime)
                } else {
                    f
                },
        )
    } else {
        files.push((path, mtime))
    }
}

/// `documents` with the one of the same identifier replaced by `doc`, or `doc`
/// added at the end.
pub open spec fn with_document(documents: Seq<DocumentModel>, doc: DocumentModel) -> Seq<
    DocumentModel,
> {
    if has_id(documents, doc.id) {
        documents.map_values(
            |d: DocumentModel|
                if d.id == doc.id {
                    doc
                } else {
                    d
                },
        )
    } else {
        documents.push(doc)
    }
}

/// One of two texts holds the query.
pub open spec fn either_holds(title: Seq<char>, body: Seq<char>, query: Seq<char>) -> bool {
    has_part(title, query) || has_part(body, query)
}

/// The title or the body of `doc` holds `query`, without regard to case.
pub open spec fn matches_query(doc: DocumentModel, query: Seq<char>) -> bool {
    either_holds(lowercase(doc.title), lowercase(doc.body), lowercase(query))
}

/// Whether one of two texts holds the query.
pub fn holds_query(title: &str, body: &str, query: &str) -> (r: bool)
    ensures
        r == either_holds(title@, body@, query@),
{
    contains(title, query) || contains(body, query)
}

/// What a search reports of a document.
pub open spec fn found_document(doc: DocumentModel) -> ResultModel {
    ResultModel { id: doc.id, title: doc.title, path: doc.path, score: Double { bits: 0 } }
}

/// What a search reports of all documents that hold `query`.
pub open spec fn all_matching(documents: Seq<DocumentModel>, query: Seq<char>) -> Seq<ResultModel> {
    documents.filter(|d: DocumentModel| matches_query(d, query)).map_values(
        |d: DocumentModel| found_document(d),
    )
}

/// What a search reports of the first `limit` documents that hold `query`.
pub open spec fn matching(documents: Seq<DocumentModel>, query: Seq<char>, limit: nat) -> Seq<
    ResultModel,
> {
    let all = all_matching(documents, query);
    if limit < all.len() {
        all.take(limit as int)
    } else {
        all
    }
}

/// The identifiers of a list of documents.
pub open spec fn ids_of(documents: Seq<DocumentModel>) -> Seq<i64> {
    documents.map_values(|d: DocumentModel| d.id)
}

/// Where each of the documents stands.
fn places_of(documents: &Vec<TitledDocument>) -> (r: Places)
    requires
        unique_ids(views(documents@)),
    ensures
        r.of(ids_of(views(documents@))),
{
    let ghost ids = ids_of(views(documents@));
    let mut r = Places::new();
    let mut i: usize = 0;
    proof {
        assert(ids.take(0) =~= Seq::empty());
    }
    while i < documents.len()
        invariant
            i <= documents@.len(),
            ids == ids_of(views(documents@)),
            unique_ids(views(documents@)),
            r.of(ids.take(i as int)),
        decreases documents@.len() - i,
    {
        let id: i64 = documents[i].id;
        proof {
            let seen = ids.take(i as int);
            assert(ids[i as int] == id);
            if seen.contains(id) {
                let k = choose|k: int| 0 <= k < seen.len() && seen[k] == id;
                assert(views(documents@)[k].id != views(documents@)[i as int].id);
            }
            assert(ids.take(i + 1) =~= seen.push(id));
        }
        r.add(id, i);
        i += 1;
    }
    proof {
        assert(ids.take(i as int) =~= ids);
    }
    r
}

impl InMemoryStore {
    /// The files with their modification times, in the order in which they
    /// were first added.
    pub closed spec fn file_list(&self) -> Seq<(Seq<char>, i64)> {
        file_records(self.files@)
    }

    /// The documents, in the order in which they were first added.
    pub closed spec fn document_list(&self) -> Seq<DocumentModel> {
        views(self.documents@)
    }

    /// It is known where each document stands.
    pub closed spec fn is_placed(&self) -> bool {
        self.places.of(ids_of(self.document_list()))
    }

    /// No path and no document occurs twice.
    pub open spec fn wf(&self) -> bool {
        &&& unique_paths(self.file_list())
        &&& unique_ids(self.document_list())
        &&& self.is_placed()
    }

    /// An empty store.
    pub fn new() -> (r: InMemoryStore)
        ensures
            r.wf(),
            r.file_list() == Seq::<(Seq<char>, i64)>::empty(),
            r.document_list() == Seq::<DocumentModel>::empty(),
    {
        let r = InMemoryStore {
            files: Vec::new(),
            documents: Vec::new(),
            places: Places::new(),
        };
        proof {
            assert(ids_of(r.document_list()) =~= Seq::empty());
            assert(r.file_list() =~= Seq::empty());
            assert(r.document_list() =~= Seq::empty());
        }
        r
    }

    /// The position of the record of `path`, or the number of records.
    fn find_path(&self, path: &str) -> (at: usize)
        ensures
            at <= self.files@.len(),
            at < self.files@.len() ==> self.files@[at as int].0@ == path@,
            forall|i: int| 0 <= i < at ==> (#[trigger] self.files@[i]).0@ != path@,
    {
        let mut at: usize = 0;
        while at < self.files.len() && !same_text(&self.files[at].0, path)
            invariant
                at <= self.files@.len(),
                forall|i: int| 0 <= i < at ==> (#[trigger] self.files@[i]).0@ != path@,
            decreases self.files@.len() - at,
        {
            at += 1;
        }
        at
    }

    /// The position of the document `id`, or the number of documents.
    fn find_id(&self, id: i64) -> (at: usize)
        requires
            self.wf(),
        ensures
            at <= self.documents@.len(),
            at < self.documents@.len() ==> self.documents@[at as int].id == id,
            at == self.documents@.len() ==> !ids_of(self.document_list()).contains(id),
            at == self.documents@.len() ==> forall|i: int|
                0 <= i < at ==> (#[trigger] self.documents@[i]).id != id,
    {
        let ghost ids = ids_of(self.document_list());
        match self.places.find(id) {
            Some(at) => {
                proof {
                    assert(ids[at as int] == self.documents@[at as int].id);
                }
                at
            },
            None => {
                proof {
                    assert forall|i: int| 0 <= i < self.documents@.len() implies (
                    #[trigger] self.documents@[i]).id != id by {
                        assert(ids[i] == self.documents@[i].id);
                        assert(ids.contains(ids[i]));
                    }
                }
                self.documents.len()
            },
        }
    }

    /// All files with their modification times.
    pub fn file_mtimes(&self) -> (r: Vec<(String, i64)>)
        ensures
            file_records(r@) == self.file_list(),
    {
        let mut r: Vec<(String, i64)> = Vec::new();
        let mut i: usize = 0;
        while i < self.files.len()
            invariant
                i <= self.files@.len(),
                file_records(r@) == file_records(self.files@).take(i as int),
            decreases self.files@.len() - i,
        {
            let ghost before = r@;
            let record = (self.files[i].0.clone(), self.files[i].1);
            r.push(record);
            proof {
                assert(file_records(r@) =~= file_records(before).push((record.0@, record.1)));
            }
            i += 1;
        }
        r
    }

    /// Inserts or replaces the record of a file.
    pub fn upsert_file(&mut self, path: &str, mtime: i64)
        requires
            old(self).wf(),
        ensures
            final(self).wf(),
            final(self).file_list() == with_file(old(self).file_list(), path@, mtime),
            final(self).document_list() == old(self).document_list(),
    {
        let ghost before = file_records(self.files@);
        let at = self.find_path(path);
        if at < self.files.len() {
            proof {
                assert(before[at as int].0 == path@);
            }
            self.files[at].1 = mtime;
            proof {
                let after = file_records(self.files@);
                assert(after =~= with_file(before, path@, mtime)) by {
                    assert forall|i: int| 0 <= i < before.len() implies #[trigger] after[i]
                        == with_file(before, path@, mtime)[i] by {
                        if i != at {
                            assert(before[i].0 != before[at as int].0);
                        }
                    }
                }
            }
        } else {
            proof {
                assert forall|i: int| 0 <= i < before.len() implies (#[trigger] before[i]).0 != path@ by {
                    assert(before[i].0 == self.files@[i].0@);
                }
            }
            self.files.push((path.to_owned(), mtime));
            proof {
                assert(file_records(self.files@) =~= before.push((path@, mtime)));
            }
        }
    }

    /// Removes the record of a file.
    pub fn remove_file(&mut self, path: &str)
        requires
            old(self).wf(),
        ensures
            final(self).wf(),
            final(self).file_list() == old(self).file_list().filter(
                |f: (Seq<char>, i64)| f.0 != path@,
            ),
            final(self).document_list() == old(self).document_list(),
    {
        let ghost before = file_records(self.files@);
        let ghost keep = |f: (Seq<char>, i64)| f.0 != path@;
        let at = self.find_path(path);
        if at < self.files.len() {
            proof {
                assert(before[at as int].0 == path@);
                lemma_filter_removes(before, at as int, keep);
            }
            self.files.remove(at);
            proof {
                assert(file_records(self.files@) =~= before.remove(at as int));
            }
        } else {
            proof {
                assert forall|i: int| 0 <= i < before.len() implies keep(#[trigger] before[i]) by {
                    assert(before[i].0 == self.files@[i].0@);
                }
                crate::seqs::lemma_filter_all(before, keep);
            }
        }
    }

    /// The number of files.
    pub fn file_count(&self) -> (r: u64)
        ensures
            r == self.file_list().len(),
    {
        self.files.len() as u64
    }

    /// Inserts or replaces a document.
    pub fn upsert_document(&mut self, doc: &TitledDocument)
        requires
            old(self).wf(),
        ensures
            final(self).wf(),
            final(self).document_list() == with_document(old(self).document_list(), doc@),
            final(self).file_list() == old(self).file_list(),
    {
        let ghost before = views(self.documents@);
        let at = self.find_id(doc.id);
        let copied = doc.copy();
        if at < self.documents.len() {
            proof {
                assert(before[at as int].id == doc.id);
            }
            self.documents[at] = copied;
            proof {
                let after = views(self.documents@);
                assert(ids_of(after) =~= ids_of(before));
                assert(after =~= with_document(before, doc@)) by {
                    assert forall|i: int| 0 <= i < before.len() implies #[trigger] after[i]
                        == with_document(before, doc@)[i] by {
                        if i != at {
                            assert(before[i].id != before[at as int].id);
                        }
                    }
                }
            }
        } else {
            proof {
                assert forall|i: int| 0 <= i < before.len() implies (#[trigger] before[i]).id != doc.id by {
                    assert(before[i].id == self.documents@[i].id);
                }
            }
            self.places.add(doc.id, self.documents.len());
            self.documents.push(copied);
            proof {
                assert(views(self.documents@) =~= before.push(doc@));
                assert(ids_of(views(self.documents@)) =~= ids_of(before).push(doc.id));
            }
        }
    }

    /// Removes a document.
    pub fn remove_document(&mut self, id: i64)
        requires
            old(self).wf(),
        ensures
            final(self).wf(),
            final(self).document_list() == old(self).document_list().filter(
                |d: DocumentModel| d.id != id,
            ),
            final(self).file_list() == old(self).file_list(),
    {
        let ghost before = views(self.documents@);
        let ghost keep = |d: DocumentModel| d.id != id;
        let at = self.find_id(id);
        if at < self.documents.len() {
            proof {
                assert(before[at as int].id == id);
                lemma_filter_removes(before, at as int, keep);
            }
            self.documents.remove(at);
            proof {
                assert(views(self.documents@) =~= before.remove(at as int));
                assert(unique_ids(views(self.documents@)));
            }
            self.places = places_of(&self.documents);
        } else {
            proof {
                assert forall|i: int| 0 <= i < before.len() implies keep(#[trigger] before[i]) by {
                    assert(before[i].id == self.documents@[i].id);
                }
                crate::seqs::lemma_filter_all(before, keep);
            }
        }
    }

    /// The first `limit` documents that hold `query`, ordered by title.
    pub fn search_fts(&self, query: &str, limit: usize) -> (r: Vec<SearchResult>)
        ensures
            views(r@) == sorted::<SearchResult>(
                matching(self.document_list(), query@, limit as nat),
            ),
    {
        let ghost all = views(self.documents@);
        let q = to_lowercase(query);
        let mut found: Vec<SearchResult> = Vec::new();
        let mut i: usize = 0;
        proof {
            reveal(Seq::filter);
            assert(views(found@) =~= matching(all.take(0), query@, limit as nat));
        }
        while i < self.documents.len()
            invariant
                i <= self.documents@.len(),
                all == views(self.documents@),
                q@ == lowercase(query@),
                views(found@) == matching(all.take(i as int), query@, limit as nat),
            decreases self.documents@.len() - i,
        {
            let doc = &self.documents[i];
            proof {
                reveal(Seq::filter);
                assert(all.take(i + 1).drop_last() =~= all.take(i as int));
                assert(all.take(i + 1).last() == doc@);
                let f = |d: DocumentModel| matches_query(d, query@);
                let kept = all.take(i as int).filter(f);
                if f(doc@) {
                    assert(all_matching(all.take(i + 1), query@) =~= all_matching(
                        all.take(i as int),
                        query@,
                    ).push(found_document(doc@)));
                }
            }
            if found.len() < limit && holds_query(
                &to_lowercase(&doc.title),
                &to_lowercase(&doc.body),
                &q,
            ) {
                let ghost before = found@;
                let hit = SearchResult {
                    id: doc.id,
                    title: doc.title.clone(),
                    path: doc.path.clone(),
                    score: Double::zero(),
                };
                found.push(hit);
                proof {
                    assert(hit@ == found_document(doc@));
                    assert(views(found@) =~= views(before).push(hit@));
                }
            }
            i += 1;
        }
        proof {
            assert(all.take(i as int) =~= all);
        }
        stable_sort(found)
    }

    /// The identifiers of all documents.
    pub fn document_ids(&self) -> (r: Vec<i64>)
        ensures
            r@ == ids_of(self.document_list()),
    {
        let mut r: Vec<i64> = Vec::new();
        let mut i: usize = 0;
        while i < self.documents.len()
            invariant
                i <= self.documents@.len(),
                r@ == ids_of(views(self.documents@)).take(i as int),
            decreases self.documents@.len() - i,
        {
            r.push(self.documents[i].id);
            i += 1;
        }
        r
    }

    /// The number of documents.
    pub fn document_count(&self) -> (r: u64)
        ensures
            r == self.document_list().len(),
    {
        self.documents.len() as u64
    }

    /// The store holds no vectors and waits for none.
    pub fn vec_info(&self) -> (r: VecInfo)
        ensures
            r == (VecInfo { embedding_dim: 0, vector_count: 0, pending_count: 0 }),
    {
        VecInfo { embedding_dim: 0, vector_count: 0, pending_count: 0 }
    }
}

/// What was stored last under an identifier is what the store holds under it,
/// and nothing else changes.
pub proof fn upsert_then_lookup(documents: Seq<DocumentModel>, doc: DocumentModel)
    requires
        unique_ids(documents),
    ensures
        unique_ids(with_document(documents, doc)),
        with_document(documents, doc).contains(doc),
        forall|d: DocumentModel|
            d.id != doc.id ==> (#[trigger] with_document(documents, doc).contains(d)
                <==> documents.contains(d)),
{
    let after = with_document(documents, doc);
    if has_id(documents, doc.id) {
        let k = choose|i: int| 0 <= i < documents.len() && (#[trigger] documents[i]).id == doc.id;
        assert(after[k] == doc);
    } else {
        assert(after[after.len() - 1] == doc);
    }
    assert forall|d: DocumentModel| d.id != doc.id implies (#[trigger] after.contains(d)
        <==> documents.contains(d)) by {
        if documents.contains(d) {
            let i = choose|i: int| 0 <= i < documents.len() && documents[i] == d;
            assert(after[i] == d);
        }
        if after.contains(d) {
            let i = choose|i: int| 0 <= i < after.len() && after[i] == d;
            assert(documents[i] == d);
        }
    }
}

/// The documents that `results` belong to, each once, in the order in which
/// they first occur.
pub open spec fn result_ids(results: Seq<ChunkResultModel>) -> Seq<i64>
    decreases results.len(),
{
    if results.len() == 0 {
        Seq::empty()
    } else {
        let rest = result_ids(results.drop_last());
        if rest.contains(results.last().doc_id) {
            rest
        } else {
            rest.push(results.last().doc_id)
        }
    }
}

/// The chunks of the document `id`.
pub open spec fn chunks_of(results: Seq<ChunkResultModel>, id: i64) -> Seq<ChunkResultModel>
    decreases results.len(),
{
    if results.len() == 0 {
        Seq::empty()
    } else if results.last().doc_id == id {
        chunks_of(results.drop_last(), id).push(results.last())
    } else {
        chunks_of(results.drop_last(), id)
    }
}

/// The chunk with the lowest score; the first one of those with equal scores.
pub open spec fn best_chunk(chunks: Seq<ChunkResultModel>) -> ChunkResultModel
    recommends
        chunks.len() > 0,
    decreases chunks.len(),
{
    if chunks.len() <= 1 {
        chunks[0]
    } else {
        let best = best_chunk(chunks.drop_last());
        if chunks.last().score.lt(best.score) {
            chunks.last()
        } else {
            best
        }
    }
}

/// The best chunk of each document.
pub open spec fn best_chunks(results: Seq<ChunkResultModel>) -> Seq<ChunkResultModel> {
    result_ids(results).map_values(|id: i64| best_chunk(chunks_of(results, id)))
}

/// What a search reports of the document of a chunk.
pub open spec fn document_result(chunk: ChunkResultModel) -> ResultModel {
    ResultModel {
        id: chunk.doc_id,
        title: chunk.doc_title,
        path: chunk.doc_path,
        score: chunk.score,
    }
}

/// One result for each document, from its best chunk, the lowest score first,
/// and at most `limit` of them.
pub open spec fn document_results(results: Seq<ChunkResultModel>, limit: nat) -> Seq<ResultModel> {
    let ranked = sorted::<ChunkSearchResult>(best_chunks(results));
    let kept = if limit < ranked.len() {
        ranked.take(limit as int)
    } else {
        ranked
    };
    kept.map_values(|c: ChunkResultModel| document_result(c))
}

/// The chunks of a document belong to it, and its best one is among them and
/// not above any of them.
pub proof fn best_chunk_is_lowest(results: Seq<ChunkResultModel>, id: i64)
    requires
        all_ranked::<ChunkSearchResult>(results),
        chunks_of(results, id).len() > 0,
    ensures
        results.contains(best_chunk(chunks_of(results, id))),
        best_chunk(chunks_of(results, id)).doc_id == id,
        best_chunk(chunks_of(results, id)).score.is_number(),
        forall|i: int|
            0 <= i < results.len() && (#[trigger] results[i]).doc_id == id
                ==> !results[i].score.lt(best_chunk(chunks_of(results, id)).score),
    decreases results.len(),
{
    let rest = results.drop_last();
    assert forall|i: int| 0 <= i < rest.len() implies (#[trigger] rest[i]).score.is_number() by {
        assert(rest[i] == results[i]);
    }
    assert(results[results.len() - 1] == results.last());
    let chunks = chunks_of(results, id);
    if chunks_of(rest, id).len() > 0 {
        best_chunk_is_lowest(rest, id);
        let k = choose|k: int| 0 <= k < rest.len() && rest[k] == best_chunk(chunks_of(rest, id));
        assert(results[k] == rest[k]);
        assert forall|i: int| 0 <= i < results.len() && (#[trigger] results[i]).doc_id == id implies !results[i].score.lt(
            best_chunk(chunks).score,
        ) by {
            if i < rest.len() {
                assert(rest[i] == results[i]);
            }
            if results.last().doc_id == id {
                assert(chunks.drop_last() =~= chunks_of(rest, id));
            }
        }
        if results.last().doc_id == id {
            assert(chunks.drop_last() =~= chunks_of(rest, id));
        }
    } else {
        assert(chunks =~= seq![results.last()]);
        lemma_result_ids(rest);
        assert forall|i: int| 0 <= i < results.len() && (#[trigger] results[i]).doc_id == id implies i
            == results.len() - 1 by {
            if i < rest.len() {
                assert(rest[i] == results[i]);
                assert(result_ids(rest).contains(rest[i].doc_id));
            }
        }
    }
}

/// Each document that occurs is reported, and none twice.
pub proof fn lemma_result_ids(results: Seq<ChunkResultModel>)
    ensures
        result_ids(results).no_duplicates(),
        forall|id: i64| #[trigger]
            result_ids(results).contains(id) <==> chunks_of(results, id).len() > 0,
        forall|i: int|
            0 <= i < results.len() ==> result_ids(results).contains((#[trigger] results[i]).doc_id),
    decreases results.len(),
{
    if results.len() > 0 {
        let rest = results.drop_last();
        let last = results.last().doc_id;
        lemma_result_ids(rest);
        let before = result_ids(rest);
        let after = result_ids(results);
        assert forall|id: i64| #[trigger] after.contains(id) <==> (before.contains(id) || id == last) by {
            if !before.contains(last) {
                if before.contains(id) {
                    let i = choose|i: int| 0 <= i < before.len() && before[i] == id;
                    assert(after[i] == id);
                }
                assert(after[after.len() - 1] == last);
                if after.contains(id) && id != last {
                    let i = choose|i: int| 0 <= i < after.len() && after[i] == id;
                    assert(before[i] == id);
                }
            }
        }
        assert forall|i: int| 0 <= i < results.len() implies after.contains(
            (#[trigger] results[i]).doc_id,
        ) by {
            if i < rest.len() {
                assert(rest[i] == results[i]);
            }
        }
    }
}

/// What one more chunk changes in the best chunks.
proof fn lemma_best_chunks_push(results: Seq<ChunkResultModel>, chunk: ChunkResultModel, at: int)
    requires
        0 <= at <= result_ids(results).len(),
        at < result_ids(results).len() ==> result_ids(results)[at] == chunk.doc_id,
        at == result_ids(results).len() ==> !result_ids(results).contains(chunk.doc_id),
    ensures
        ({
            let more = results.push(chunk);
            if at < result_ids(results).len() {
                best_chunks(more) == best_chunks(results).update(
                    at,
                    if chunk.score.lt(best_chunks(results)[at].score) {
                        chunk
                    } else {
                        best_chunks(results)[at]
                    },
                )
            } else {
                best_chunks(more) == best_chunks(results).push(chunk)
            }
        }),
{
    let more = results.push(chunk);
    let id = chunk.doc_id;
    let ids = result_ids(results);
    assert(more.drop_last() =~= results);
    lemma_result_ids(results);
    if at < ids.len() {
        assert(ids.contains(id));
        assert(chunks_of(more, id).drop_last() =~= chunks_of(results, id));
        assert(best_chunks(more) =~= best_chunks(results).update(
            at,
            best_chunk(chunks_of(more, id)),
        )) by {
            assert forall|i: int| 0 <= i < ids.len() && i != at implies best_chunks(more)[i]
                == best_chunks(results)[i] by {
                assert(ids[i] != ids[at]);
            }
        }
    } else {
        assert(chunks_of(more, id) =~= seq![chunk]);
        assert(best_chunks(more) =~= best_chunks(results).push(best_chunk(chunks_of(more, id)))) by {
            assert forall|i: int| 0 <= i < ids.len() implies best_chunks(more)[i] == best_chunks(
                results,
            )[i] by {
                assert(ids.contains(ids[i]));
            }
        }
    }
}

impl ChunkSearchResult {
    /// A copy of the result.
    pub fn copy(&self) -> (r: ChunkSearchResult)
        ensures
            r@ == self@,
    {
        ChunkSearchResult {
            doc_id: self.doc_id,
            line: self.line,
            column: self.column,
            doc_title: self.doc_title.clone(),
            doc_path: self.doc_path.clone(),
            chunk_text: self.chunk_text.clone(),
            score: self.score,
        }
    }
}

/// Reduces chunk results to one result for each document. Of several chunks of
/// a document the one with the lowest score counts. At most `limit` results
/// are returned, the lowest score first; documents with equal scores keep the
/// order in which they first occur.
pub fn dedup_chunk_results(results: Vec<ChunkSearchResult>, limit: usize) -> (r: Vec<SearchResult>)
    requires
        all_ranked::<ChunkSearchResult>(views(results@)),
    ensures
        views(r@) == document_results(views(results@), limit as nat),
{
    let ghost all = views(results@);
    let mut best: Vec<ChunkSearchResult> = Vec::new();
    let mut places = Places::new();
    let mut i: usize = 0;
    proof {
        assert(views(best@) =~= best_chunks(all.take(0)));
        assert(result_ids(all.take(0)) =~= Seq::empty());
        assert forall|k: int| 0 <= k < results@.len() implies (#[trigger] results@[k]).score.is_number() by {
            assert(all[k].score.is_number());
        }
    }
    while i < results.len()
        invariant
            i <= results@.len(),
            all == views(results@),
            all_ranked::<ChunkSearchResult>(all),
            views(best@) == best_chunks(all.take(i as int)),
            places.of(result_ids(all.take(i as int))),
        decreases results@.len() - i,
    {
        let chunk = &results[i];
        let ghost seen = all.take(i as int);
        let ghost ids = result_ids(seen);
        proof {
            assert(all.take(i + 1) =~= seen.push(chunk@));
            assert(seen.push(chunk@).drop_last() =~= seen);
            assert(best_chunks(seen).len() == ids.len() && views(best@).len() == best@.len());
        }
        let at: usize = match places.find(chunk.doc_id) {
            Some(at) => at,
            None => {
                places.add(chunk.doc_id, best.len());
                best.len()
            },
        };
        let ghost before = best@;
        proof {
            if at < ids.len() {
                assert(ids.contains(chunk.doc_id));
            }
            lemma_best_chunks_push(seen, chunk@, at as int);
        }
        if at < best.len() {
            proof {
                assert(views(best@)[at as int] == best@[at as int]@);
            }
            if chunk.score.less(best[at].score) {
                best[at] = chunk.copy();
            }
            proof {
                assert(views(best@) =~= views(before).update(at as int, best@[at as int]@));
            }
        } else {
            let copied = chunk.copy();
            best.push(copied);
            proof {
                assert(views(best@) =~= views(before).push(chunk@));
            }
        }
        i += 1;
    }
    proof {
        assert(all.take(i as int) =~= all);
        lemma_result_ids(all);
        let ids = result_ids(all);
        assert forall|k: int| 0 <= k < ids.len() implies (#[trigger] views(
            best@,
        )[k]).score.is_number() by {
            assert(ids.contains(ids[k]));
            best_chunk_is_lowest(all, ids[k]);
        }
    }
    let ranked = stable_sort(best);
    let ghost kept = if limit < ranked@.len() {
        views(ranked@).take(limit as int)
    } else {
        views(ranked@)
    };
    let n: usize = if limit < ranked.len() {
        limit
    } else {
        ranked.len()
    };
    let mut r: Vec<SearchResult> = Vec::new();
    let mut j: usize = 0;
    while j < n
        invariant
            j <= n <= ranked@.len(),
            kept == views(ranked@).take(n as int),
            views(r@) == kept.map_values(|c: ChunkResultModel| document_result(c)).take(j as int),
        decreases n - j,
    {
        let chunk = &ranked[j];
        let ghost before = r@;
        let found = SearchResult {
            id: chunk.doc_id,
            title: chunk.doc_title.clone(),
            path: chunk.doc_path.clone(),
            score: chunk.score,
        };
        r.push(found);
        proof {
            assert(kept[j as int] == chunk@);
            assert(views(r@) =~= views(before).push(found@));
        }
        j += 1;
    }
    r
}

/// Which back end a database works with.
#[derive(Debug, Clone, Copy, PartialEq, Eq, Structural)]
pub enum BackendState {
    /// Everything in memory, nothing kept.
    InMemory,
    /// SQLite: full-text search, and vectors where a dimension is given.
    Sqlite(Option<u32>),
    /// LanceDB: full-text search, and vectors of the given dimension.
    LanceDb(u32),
}

impl BackendState {
    /// The back end may still be replaced by one with vectors.
    pub open spec fn lacks_vectors(self) -> bool {
        match self {
            BackendState::InMemory => true,
            BackendState::Sqlite(dim) => dim is None,
            BackendState::LanceDb(_) => false,
        }
    }

    /// Whether an initialisation should replace the back end.
    pub fn needs_init(&self) -> (r: bool)
        ensures
            r == self.lacks_vectors(),
    {
        match self {
            BackendState::InMemory => true,
            BackendState::Sqlite(dim) => dim.is_none(),
            BackendState::LanceDb(_) => false,
        }
    }

    /// The back end after `wanted` was asked for: replaced unless one with
    /// vectors is in place already.
    pub open spec fn replaced_by(self, wanted: BackendState) -> BackendState {
        if self.lacks_vectors() {
            wanted
        } else {
            self
        }
    }

    /// The back end after SQLite with vectors was asked for: replaced unless
    /// one with vectors is in place already.
    pub fn init_sqlite_vec(&self, embedding_dim: u32) -> (r: BackendState)
        ensures
            r == self.replaced_by(BackendState::Sqlite(Some(embedding_dim))),
    {
        if self.needs_init() {
            BackendState::Sqlite(Some(embedding_dim))
        } else {
            *self
        }
    }

    /// The back end after LanceDB was asked for: replaced unless one with
    /// vectors is in place already.
    pub fn init_lancedb(&self, embedding_dim: u32) -> (r: BackendState)
        ensures
            r == self.replaced_by(BackendState::LanceDb(embedding_dim)),
    {
        if self.needs_init() {
            BackendState::LanceDb(embedding_dim)
        } else {
            *self
        }
    }
}

/// A back end is initialised once: after one with vectors was asked for there
/// is one with vectors, and asking for another changes nothing.
pub proof fn first_initialisation_counts(
    state: BackendState,
    first: BackendState,
    second: BackendState,
)
    requires
        !first.lacks_vectors(),
    ensures
        !state.replaced_by(first).lacks_vectors(),
        state.replaced_by(first).replaced_by(second) == state.replaced_by(first),
{
}

/// A retrieval database: where it lies, and the back end that it works with.
#[derive(Debug, Clone)]
pub struct RetrieveDb {
    db_path: FsPath,
    backend: BackendState,
}

impl RetrieveDb {
    /// Where the database lies.
    pub closed spec fn path(&self) -> PathModel {
        self.db_path@
    }

    /// The back end.
    pub closed spec fn state(&self) -> BackendState {
        self.backend
    }

    /// The database at the given path, with full-text search in SQLite.
    pub fn open(db_path: &FsPath) -> (r: RetrieveDb)
        ensures
            r.path() == db_path@,
            r.state() == BackendState::Sqlite(None),
    {
        RetrieveDb { db_path: db_path.copy(), backend: BackendState::Sqlite(None) }
    }

    /// A fresh database at the given path, with the files that have to be
    /// deleted first.
    pub fn rebuild(db_path: &FsPath) -> (r: (Vec<FsPath>, RetrieveDb))
        ensures
            views(r.0@) == seq![db_path@, db_path@.suffixed("-wal"@), db_path@.suffixed("-shm"@)],
            r.1.path() == db_path@,
            r.1.state() == BackendState::Sqlite(None),
    {
        (wipe_db_files(db_path), RetrieveDb::open(db_path))
    }

    /// Where the database lies.
    pub fn db_path(&self) -> (r: &FsPath)
        ensures
            r@ == self.path(),
    {
        &self.db_path
    }

    /// The back end.
    pub fn backend(&self) -> (r: BackendState)
        ensures
            r == self.state(),
    {
        self.backend
    }

    /// Switches to SQLite with vectors, unless a back end with vectors is in
    /// place. The result says whether the back end changed.
    pub fn init_sqlite_vec(&mut self, embedding_dim: u32) -> (changed: bool)
        ensures
            changed == old(self).state().lacks_vectors(),
            final(self).path() == old(self).path(),
            final(self).state() == old(self).state().replaced_by(
                BackendState::Sqlite(Some(embedding_dim)),
            ),
    {
        let changed = self.backend.needs_init();
        self.backend = self.backend.init_sqlite_vec(embedding_dim);
        changed
    }

    /// Switches to LanceDB, unless a back end with vectors is in place. The
    /// result says whether the back end changed.
    pub fn init_lancedb(&mut self, embedding_dim: u32) -> (changed: bool)
        ensures
            changed == old(self).state().lacks_vectors(),
            final(self).path() == old(self).path(),
            final(self).state() == old(self).state().replaced_by(
                BackendState::LanceDb(embedding_dim),
            ),
    {
        let changed = self.backend.needs_init();
        self.backend = self.backend.init_lancedb(embedding_dim);
        changed
    }

    /// Reduces chunk results to one result for each document; see
    /// [`dedup_chunk_results`].
    pub fn dedup_chunk_results(results: Vec<ChunkSearchResult>, limit: usize) -> (r: Vec<
        SearchResult,
    >)
        requires
            all_ranked::<ChunkSearchResult>(views(results@)),
        ensures
            views(r@) == document_results(views(results@), limit as nat),
    {
        dedup_chunk_results(results, limit)
    }
}

/// A search in memory reports documents whose title or body holds the query,
/// without regard to case, and no others: all of them, or the first ones up to
/// the limit; each once, with its title and path, ordered by title.
pub proof fn searches_in_memory_find_what_holds_the_query(
    store: InMemoryStore,
    query: &str,
    limit: usize,
    found: Vec<SearchResult>,
)
    requires
        call_ensures(InMemoryStore::search_fts, (&store, query, limit), found),
    ensures
        ({
            let r = views(found@);
            let all = store.document_list().filter(
                |d: DocumentModel|
                    has_part(lowercase(d.title), lowercase(query@)) || has_part(
                        lowercase(d.body),
                        lowercase(query@),
                    ),
            );
            &&& r.len() == (if limit < all.len() {
                limit as nat
            } else {
                all.len()
            })
            &&& r.to_multiset() == all.take(r.len() as int).map_values(
                |d: DocumentModel|
                    ResultModel {
                        id: d.id,
                        title: d.title,
                        path: d.path,
                        score: Double { bits: 0 },
                    },
            ).to_multiset()
            &&& forall|i: int, j: int|
                0 <= i < j < r.len() ==> !precedes((#[trigger] r[j]).title, (#[trigger] r[i]).title)
        }),
{
    let documents = store.document_list();
    let f = |d: DocumentModel| matches_query(d, query@);
    let g = |d: DocumentModel|
        has_part(lowercase(d.title), lowercase(query@)) || has_part(
            lowercase(d.body),
            lowercase(query@),
        );
    assert forall|d: DocumentModel| #[trigger] f(d) == g(d) by {}
    assert(f =~= g);
    let report = |d: DocumentModel|
        ResultModel { id: d.id, title: d.title, path: d.path, score: Double { bits: 0 } };
    let all = documents.filter(g);
    let kept = matching(documents, query@, limit as nat);
    assert(all_matching(documents, query@) =~= all.map_values(report));
    assert(kept =~= all.take(kept.len() as int).map_values(report));
    sorted_is_stable::<SearchResult>(kept);
    let r = views(found@);
    assert forall|i: int, j: int| 0 <= i < j < r.len() implies !precedes(
        (#[trigger] r[j]).title,
        (#[trigger] r[i]).title,
    ) by {
        assert(!SearchResult::before(r[j], r[i]));
    }
}

/// A file has one record, with the modification time that was recorded last;
/// recording one leaves those of all other files as they are, in their places.
pub proof fn files_have_one_record(
    files: Seq<(Seq<char>, i64)>,
    path: Seq<char>,
    mtime: i64,
    i: int,
)
    requires
        unique_paths(files),
        0 <= i < files.len(),
    ensures
        ({
            let after = with_file(files, path, mtime);
            &&& unique_paths(after)
            &&& after.contains((path, mtime))
            &&& files[i].0 != path ==> after[i] == files[i]
            &&& files[i].0 == path ==> after[i] == (path, mtime) && after.len() == files.len()
            &&& (forall|k: int| 0 <= k < files.len() ==> (#[trigger] files[k]).0 != path)
                ==> after == files.push((path, mtime))
        }),
{
    let after = with_file(files, path, mtime);
    if has_path(files, path) {
        let k = choose|k: int| 0 <= k < files.len() && (#[trigger] files[k]).0 == path;
        assert(after[k] == (path, mtime));
        assert forall|a: int, b: int| 0 <= a < b < after.len() implies (#[trigger] after[a]).0 != (
        #[trigger] after[b]).0 by {
            assert(after[a].0 == files[a].0);
            assert(after[b].0 == files[b].0);
        }
    } else {
        assert(after[files.len() as int] == (path, mtime));
        assert(files[i].0 != path);
        assert forall|a: int, b: int| 0 <= a < b < after.len() implies (#[trigger] after[a]).0 != (
        #[trigger] after[b]).0 by {
            assert(after[a] == files[a]);
            if b < files.len() {
                assert(after[b] == files[b]);
            }
        }
    }
}

/// A document that is stored again takes the place of the one before; a new
/// one is put at the end.
pub proof fn documents_keep_their_place(
    documents: Seq<DocumentModel>,
    doc: DocumentModel,
    i: int,
)
    requires
        0 <= i < documents.len(),
    ensures
        ({
            let after = with_document(documents, doc);
            &&& documents[i].id != doc.id ==> after[i] == documents[i]
            &&& documents[i].id == doc.id ==> after[i] == doc && after.len() == documents.len()
            &&& (forall|k: int| 0 <= k < documents.len() ==> (#[trigger] documents[k]).id != doc.id)
                ==> after == documents.push(doc)
        }),
{
}

/// Storing a document a second time changes nothing.
pub proof fn storing_a_document_twice(documents: Seq<DocumentModel>, doc: DocumentModel)
    ensures
        with_document(with_document(documents, doc), doc) == with_document(documents, doc),
{
    let once = with_document(documents, doc);
    assert(has_id(once, doc.id)) by {
        if has_id(documents, doc.id) {
            let k = choose|k: int| 0 <= k < documents.len() && (#[trigger] documents[k]).id == doc.id;
            assert(once[k].id == doc.id);
        } else {
            assert(once[documents.len() as int].id == doc.id);
        }
    }
    assert(with_document(once, doc) =~= once) by {
        assert forall|k: int| 0 <= k < once.len() implies #[trigger] once[k] == with_document(
            once,
            doc,
        )[k] by {
            if has_id(documents, doc.id) {
            } else if k < documents.len() {
                assert(documents[k].id != doc.id);
            }
        }
    }
}

/// All documents that a search has found, in the order of the result.
spec fn all_ranked_chunks(results: Seq<ChunkResultModel>) -> Seq<ChunkResultModel> {
    sorted::<ChunkSearchResult>(best_chunks(results))
}

proof fn lemma_best_ranked(results: Seq<ChunkResultModel>)
    requires
        all_ranked::<ChunkSearchResult>(results),
    ensures
        all_ranked::<ChunkSearchResult>(best_chunks(results)),
{
    lemma_result_ids(results);
    let best = best_chunks(results);
    assert forall|i: int| 0 <= i < best.len() implies ChunkSearchResult::ranked(
        #[trigger] best[i],
    ) by {
        let id = result_ids(results)[i];
        assert(result_ids(results).contains(id));
        best_chunk_is_lowest(results, id);
    }
}

/// A document is reported once, from one of its chunks, and no other chunk of
/// it has a lower score.
pub proof fn documents_are_reported_by_their_best_chunk(
    results: Seq<ChunkResultModel>,
    limit: nat,
    i: int,
)
    requires
        all_ranked::<ChunkSearchResult>(results),
        0 <= i < document_results(results, limit).len(),
    ensures
        ({
            let r = document_results(results, limit);
            &&& r.len() <= limit
            &&& exists|k: int|
                0 <= k < results.len() && r[i].id == (#[trigger] results[k]).doc_id && r[i].title
                    == results[k].doc_title && r[i].path == results[k].doc_path && r[i].score
                    == results[k].score
            &&& forall|k: int|
                0 <= k < results.len() && (#[trigger] results[k]).doc_id == r[i].id
                    ==> !results[k].score.lt(r[i].score)
            &&& forall|j: int|
                i < j < r.len() ==> (#[trigger] r[j]).id != r[i].id && !r[j].score.lt(r[i].score)
        }),
{
    broadcast use group_to_multiset_ensures;

    let r = document_results(results, limit);
    let all = all_ranked_chunks(results);
    let best = best_chunks(results);
    let ids = result_ids(results);
    lemma_best_ranked(results);
    lemma_result_ids(results);
    sorted_is_stable::<ChunkSearchResult>(best);
    assert(r[i] == document_result(all[i]));
    let a = lemma_ranked_chunk(results, i);
    assert(ids.contains(ids[a]));
    best_chunk_is_lowest(results, ids[a]);
    let c = all[i];
    assert(results.contains(c));
    let k = choose|k: int| 0 <= k < results.len() && results[k] == c;
    assert(results[k].doc_id == r[i].id);
    assert forall|j: int| i < j < r.len() implies (#[trigger] r[j]).id != r[i].id && !r[j].score.lt(
        r[i].score,
    ) by {
        assert(r[j] == document_result(all[j]));
        let b = lemma_ranked_chunk(results, j);
        assert(ids.contains(ids[b]));
        best_chunk_is_lowest(results, ids[b]);
        assert(!ChunkSearchResult::before(all[j], all[i]));
        assert(best.no_duplicates()) by {
            assert forall|x: int, y: int| 0 <= x < y < best.len() implies best[x] != best[y] by {
                assert(ids.contains(ids[x]) && ids.contains(ids[y]));
                best_chunk_is_lowest(results, ids[x]);
                best_chunk_is_lowest(results, ids[y]);
            }
        }
        best.lemma_multiset_has_no_duplicates();
        all.lemma_multiset_has_no_duplicates_conv();
        assert(all[i] != all[j]);
        assert(a != b);
    }
}

proof fn lemma_ranked_chunk(results: Seq<ChunkResultModel>, i: int) -> (a: int)
    requires
        all_ranked::<ChunkSearchResult>(results),
        0 <= i < all_ranked_chunks(results).len(),
    ensures
        0 <= a < result_ids(results).len(),
        all_ranked_chunks(results)[i] == best_chunk(chunks_of(results, result_ids(results)[a])),
        best_chunks(results)[a] == all_ranked_chunks(results)[i],
{
    broadcast use group_to_multiset_ensures;

    let all = all_ranked_chunks(results);
    let best = best_chunks(results);
    lemma_best_ranked(results);
    sorted_is_stable::<ChunkSearchResult>(best);
    assert(all.contains(all[i]));
    assert(all.to_multiset().count(all[i]) > 0);
    assert(best.contains(all[i]));
    choose|a: int| 0 <= a < best.len() && best[a] == all[i]
}

/// Every document that a chunk was found of is reported, unless the limit is
/// reached; what is left out then is no better than anything that is reported.
pub proof fn best_documents_are_reported(results: Seq<ChunkResultModel>, limit: nat, k: int)
    requires
        all_ranked::<ChunkSearchResult>(results),
        0 <= k < results.len(),
    ensures
        ({
            let r = document_results(results, limit);
            ||| exists|i: int| 0 <= i < r.len() && (#[trigger] r[i]).id == results[k].doc_id
            ||| r.len() == limit && forall|i: int|
                0 <= i < r.len() ==> !results[k].score.lt((#[trigger] r[i]).score)
        }),
{
    broadcast use group_to_multiset_ensures;

    let r = document_results(results, limit);
    let all = all_ranked_chunks(results);
    let best = best_chunks(results);
    let ids = result_ids(results);
    let id = results[k].doc_id;
    lemma_best_ranked(results);
    lemma_result_ids(results);
    sorted_is_stable::<ChunkSearchResult>(best);
    assert(ids.contains(id));
    let a = choose|a: int| 0 <= a < ids.len() && ids[a] == id;
    best_chunk_is_lowest(results, id);
    assert(best.contains(best[a]));
    assert(best.to_multiset().count(best[a]) > 0);
    assert(all.contains(best[a]));
    let at = choose|at: int| 0 <= at < all.len() && all[at] == best[a];
    if at < r.len() {
        assert(r[at] == document_result(all[at]));
        assert(r[at].id == id);
    } else {
        assert forall|i: int| 0 <= i < r.len() implies !results[k].score.lt(
            (#[trigger] r[i]).score,
        ) by {
            assert(r[i] == document_result(all[i]));
            assert(!ChunkSearchResult::before(all[at], all[i]));
            let c = lemma_ranked_chunk(results, i);
            assert(ids.contains(ids[c]));
            best_chunk_is_lowest(results, ids[c]);
            assert(ChunkSearchResult::ranked(results[k]));
        }
    }
}

/// A back end without vectors gives way to the one that is asked for, and one
/// with vectors to none.
pub proof fn back_ends_with_vectors_stay(state: BackendState, wanted: BackendState)
    ensures
        state == BackendState::InMemory ==> state.replaced_by(wanted) == wanted,
        state == BackendState::Sqlite(None) ==> state.replaced_by(wanted) == wanted,
        state matches BackendState::Sqlite(Some(_)) ==> state.replaced_by(wanted) == state,
        state matches BackendState::LanceDb(_) ==> state.replaced_by(wanted) == state,
{
}

/// A database is opened for full-text search in SQLite; one that is rebuilt is
/// first deleted with its log and its shared memory.
pub proof fn databases_begin_without_vectors(
    path: FsPath,
    opened: RetrieveDb,
    rebuilt: (Vec<FsPath>, RetrieveDb),
)
    requires
        call_ensures(RetrieveDb::open, (&path,), opened),
        call_ensures(RetrieveDb::rebuild, (&path,), rebuilt),
    ensures
        opened.path() == path@,
        opened.state() == BackendState::Sqlite(None),
        rebuilt.1.path() == path@,
        rebuilt.1.state() == BackendState::Sqlite(None),
        rebuilt.0@.len() == 3,
        rebuilt.0@[0]@ == path@,
        rebuilt.0@[1].text@ == path.text@ + "-wal"@,
        rebuilt.0@[1].raw@ == path.raw@ + encode_utf8("-wal"@),
        rebuilt.0@[2].text@ == path.text@ + "-shm"@,
        rebuilt.0@[2].raw@ == path.raw@ + encode_utf8("-shm"@),
{
    let files = views(rebuilt.0@);
    assert(files.len() == rebuilt.0@.len());
    assert(files[0] == rebuilt.0@[0]@);
    assert(files[1] == rebuilt.0@[1]@);
    assert(files[2] == rebuilt.0@[2]@);
}

/// What was stored can be looked up, and what was removed cannot; nothing else
/// changes.
pub proof fn stores_hold_what_was_stored(
    stored: &mut InMemoryStore,
    doc: &TitledDocument,
    removed: &mut InMemoryStore,
    id: i64,
    other: DocumentModel,
)
    requires
        call_ensures(InMemoryStore::upsert_document, (stored, doc), ()),
        call_ensures(InMemoryStore::remove_document, (removed, id), ()),
        unique_ids(old(stored).document_list()),
    ensures
        final(stored).document_list().contains(doc@),
        other.id != doc.id ==> (final(stored).document_list().contains(other)
            <==> old(stored).document_list().contains(other)),
        final(stored).file_list() == old(stored).file_list(),
        !has_id(final(removed).document_list(), id),
        other.id != id ==> (final(removed).document_list().contains(other)
            <==> old(removed).document_list().contains(other)),
        final(removed).file_list() == old(removed).file_list(),
{
    upsert_then_lookup(old(stored).document_list(), doc@);
    assert(doc@.id == doc.id);
    let before = old(removed).document_list();
    let f = |d: DocumentModel| d.id != id;
    let after = before.filter(f);
    if has_id(after, id) {
        let k = choose|k: int| 0 <= k < after.len() && (#[trigger] after[k]).id == id;
        let i = lemma_filter_had(before, f, k);
    }
    if other.id != id {
        if after.contains(other) {
            let k = choose|k: int| 0 <= k < after.len() && after[k] == other;
            let i = lemma_filter_had(before, f, k);
            assert(before[i] == other);
        }
        if before.contains(other) {
            let i = choose|i: int| 0 <= i < before.len() && before[i] == other;
            before.lemma_filter_contains(f, i);
        }
    }
}

/// The records of files follow the last report of each file.
pub proof fn records_follow_the_last_report(
    stored: &mut InMemoryStore,
    path: &str,
    mtime: i64,
    removed: &mut InMemoryStore,
    gone: &str,
)
    requires
        call_ensures(InMemoryStore::upsert_file, (stored, path, mtime), ()),
        call_ensures(InMemoryStore::remove_file, (removed, gone), ()),
    ensures
        final(stored).file_list().contains((path@, mtime)),
        final(stored).document_list() == old(stored).document_list(),
        !has_path(final(removed).file_list(), gone@),
        final(removed).file_list() == old(removed).file_list().filter(
            |f: (Seq<char>, i64)| f.0 != gone@,
        ),
        final(removed).document_list() == old(removed).document_list(),
{
    let files = old(stored).file_list();
    let after = with_file(files, path@, mtime);
    if has_path(files, path@) {
        let k = choose|k: int| 0 <= k < files.len() && (#[trigger] files[k]).0 == path@;
        assert(after[k] == (path@, mtime));
    } else {
        assert(after[files.len() as int] == (path@, mtime));
    }
    let f = |f: (Seq<char>, i64)| f.0 != gone@;
    let before = old(removed).file_list();
    if has_path(before.filter(f), gone@) {
        let k = choose|k: int|
            0 <= k < before.filter(f).len() && (#[trigger] before.filter(f)[k]).0 == gone@;
        let i = lemma_filter_had(before, f, k);
    }
}

/// A database changes to a back end with vectors once.
pub proof fn databases_change_their_back_end_once(
    sqlite: &mut RetrieveDb,
    lance: &mut RetrieveDb,
    dim: u32,
    to_sqlite: bool,
    to_lance: bool,
)
    requires
        call_ensures(RetrieveDb::init_sqlite_vec, (sqlite, dim), to_sqlite),
        call_ensures(RetrieveDb::init_lancedb, (lance, dim), to_lance),
    ensures
        to_sqlite <==> old(sqlite).state() == BackendState::InMemory || old(sqlite).state()
            == BackendState::Sqlite(None),
        to_sqlite ==> final(sqlite).state() == BackendState::Sqlite(Some(dim)),
        !to_sqlite ==> final(sqlite).state() == old(sqlite).state(),
        to_lance <==> old(lance).state() == BackendState::InMemory || old(lance).state()
            == BackendState::Sqlite(None),
        to_lance ==> final(lance).state() == BackendState::LanceDb(dim),
        !to_lance ==> final(lance).state() == old(lance).state(),
        final(sqlite).path() == old(sqlite).path(),
        final(lance).path() == old(lance).path(),
{
}

} // verus!
