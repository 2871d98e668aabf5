//! A LanceDB table that holds vectors alone, beside a SQLite index. Chunks are
//! numbered within their document.

use crate::double::Double;
use crate::number::{signed_decimal, signed_text};
use crate::order::views;
use crate::paths::FsPath;
use crate::retrieve::error::Error;
use crate::retrieve::lancedb_store::{missing_column, missing_text};
use vstd::prelude::*;

verus! {

/// The version of the table, part of the name of its directory.
pub const LANCEDB_SCHEMA_VERSION: i32 = 1;

/// The name of the directory of the table.
pub open spec fn vectors_dir_name() -> Seq<char> {
    "lancedb_v"@ + signed_decimal(LANCEDB_SCHEMA_VERSION as int)
}

/// The directory of the table below `root`.
pub fn versioned_dir(root: &FsPath) -> (r: FsPath)
    ensures
        r@ == root@.below(vectors_dir_name()),
{
    let mut name = "lancedb_v".to_owned();
    name.append(&signed_text(LANCEDB_SCHEMA_VERSION as i64));
    root.join(&name)
}

/// A chunk near to a query.
#[derive(Debug, Clone)]
pub struct IndexedResult {
    pub doc_id: i64,
    /// The number of the chunk within its document.
    pub chunk_index: usize,
    pub doc_title: String,
    pub doc_path: String,
    pub chunk_text: String,
    /// Distance to the query; lower is better.
    pub score: Double,
}

/// The mathematical counterpart of an [`IndexedResult`].
pub struct IndexedModel {
    pub doc_id: i64,
    pub chunk_index: usize,
    pub doc_title: Seq<char>,
    pub doc_path: Seq<char>,
    pub chunk_text: Seq<char>,
    pub score: Double,
}

impl View for IndexedResult {
    type V = IndexedModel;

    open spec fn view(&self) -> IndexedModel {
        IndexedModel {
            doc_id: self.doc_id,
            chunk_index: self.chunk_index,
            doc_title: self.doc_title@,
            doc_path: self.doc_path@,
            chunk_text: self.chunk_text@,
            score: self.score,
        }
    }
}

/// A batch of chunks near to a query, as far as its columns are there.
#[derive(Debug, Clone)]
pub struct VectorBatch {
    pub num_rows: usize,
    pub doc_ids: Option<Vec<i64>>,
    pub chunk_indexes: Option<Vec<i32>>,
    pub titles: Option<Vec<String>>,
    pub paths: Option<Vec<String>>,
    pub texts: Option<Vec<String>>,
    pub dists: Option<Vec<Double>>,
}

impl VectorBatch {
    /// Every column that is there has one value for each row.
    pub open spec fn wf(self) -> bool {
        &&& self.doc_ids is Some ==> self.doc_ids->0@.len() == self.num_rows
        &&& self.chunk_indexes is Some ==> self.chunk_indexes->0@.len() == self.num_rows
        &&& self.titles is Some ==> self.titles->0@.len() == self.num_rows
        &&& self.paths is Some ==> self.paths->0@.len() == self.num_rows
        &&& self.texts is Some ==> self.texts->0@.len() == self.num_rows
        &&& self.dists is Some ==> self.dists->0@.len() == self.num_rows
    }

    /// The first column that is missing.
    pub open spec fn missing(self) -> Option<Seq<char>> {
        if self.doc_ids is None {
            Some("doc_id"@)
        } else if self.chunk_indexes is None {
            Some("chunk_index"@)
        } else if self.titles is None {
            Some("doc_title"@)
        } else if self.paths is None {
            Some("doc_path"@)
        } else if self.texts is None {
            Some("text"@)
        } else if self.dists is None {
            Some("_distance"@)
        } else {
            None
        }
    }

    /// The chunks of a batch that has all columns.
    pub open spec fn rows(self) -> Seq<IndexedModel> {
        Seq::new(
            self.num_rows as nat,
            |i: int|
                IndexedModel {
                    doc_id: self.doc_ids->0@[i],
                    chunk_index: self.chunk_indexes->0@[i] as usize,
                    doc_title: self.titles->0@[i]@,
                    doc_path: self.paths->0@[i]@,
                    chunk_text: self.texts->0@[i]@,
                    score: self.dists->0@[i],
                },
        )
    }

    /// The chunks of the batch, or the error about the first missing column.
    fn results(&self) -> (r: Result<Vec<IndexedResult>, Error>)
        requires
            self.wf(),
        ensures
            match self.missing() {
                None => r is Ok && views(r->Ok_0@) == self.rows(),
                Some(column) => r is Err && r->Err_0.is_embed(missing_text(column)),
            },
    {
        let doc_ids = match &self.doc_ids {
            Some(c) => c,
            None => return missing_column("doc_id"),
        };
        let chunk_indexes = match &self.chunk_indexes {
            Some(c) => c,
            None => return missing_column("chunk_index"),
        };
        let titles = match &self.titles {
            Some(c) => c,
            None => return missing_column("doc_title"),
        };
        let paths = match &self.paths {
            Some(c) => c,
            None => return missing_column("doc_path"),
        };
        let chunk_texts = match &self.texts {
            Some(c) => c,
            None => return missing_column("text"),
        };
        let dists = match &self.dists {
            Some(c) => c,
            None => return missing_column("_distance"),
        };
        let mut r: Vec<IndexedResult> = Vec::new();
        let mut i: usize = 0;
        while i < self.num_rows
            invariant
                i <= self.num_rows,
                self.wf(),
                self.doc_ids == Some(*doc_ids),
                self.chunk_indexes == Some(*chunk_indexes),
                self.titles == Some(*titles),
                self.paths == Some(*paths),
                self.texts == Some(*chunk_texts),
                self.dists == Some(*dists),
                views(r@) == self.rows().take(i as int),
            decreases self.num_rows - i,
        {
            let found = IndexedResult {
                doc_id: doc_ids[i],
                chunk_index: chunk_indexes[i] as usize,
                doc_title: titles[i].clone(),
                doc_path: paths[i].clone(),
                chunk_text: chunk_texts[i].clone(),
                score: dists[i],
            };
            let ghost before = r@;
            r.push(found);
            proof {
                assert(found@ == self.rows()[i as int]);
                assert(views(r@) =~= views(before).push(found@));
            }
            i += 1;
        }
        proof {
            assert(self.rows().take(i as int) =~= self.rows());
        }
        Ok(r)
    }
}

/// The chunks of all batches, one batch after the other, or the column that is
/// missing in the first faulty one.
pub open spec fn vector_rows(batches: Seq<VectorBatch>) -> Result<Seq<IndexedModel>, Seq<char>>
    decreases batches.len(),
{
    if batches.len() == 0 {
        Ok(Seq::empty())
    } else {
        match vector_rows(batches.drop_last()) {
            Err(column) => Err(column),
            Ok(rows) => match batches.last().missing() {
                Some(column) => Err(column),
                None => Ok(rows + batches.last().rows()),
            },
        }
    }
}

proof fn lemma_vector_rows_fail(batches: Seq<VectorBatch>, upto: int)
    requires
        0 <= upto <= batches.len(),
        vector_rows(batches.take(upto)) is Err,
    ensures
        vector_rows(batches) == vector_rows(batches.take(upto)),
    decreases batches.len(),
{
    if upto < batches.len() {
        assert(batches.drop_last().take(upto) =~= batches.take(upto));
        lemma_vector_rows_fail(batches.drop_last(), upto);
    } else {
        assert(batches.take(upto) =~= batches);
    }
}

/// The result of a vector search from the batches that it gave. A batch in
/// which a column is missing fails the search.
pub fn search_similar(batches: &Vec<VectorBatch>) -> (r: Result<Vec<IndexedResult>, Error>)
    requires
        forall|i: int| 0 <= i < batches@.len() ==> (#[trigger] batches@[i]).wf(),
    ensures
        match vector_rows(batches@) {
            Ok(rows) => r is Ok && views(r->Ok_0@) == rows,
            Err(column) => r is Err && r->Err_0.is_embed(missing_text(column)),
        },
{
    let mut r: Vec<IndexedResult> = Vec::new();
    let mut b: usize = 0;
    proof {
        assert(batches@.take(0) =~= Seq::empty());
        assert(views(r@) =~= Seq::empty());
    }
    while b < batches.len()
        invariant
            b <= batches@.len(),
            forall|i: int| 0 <= i < batches@.len() ==> (#[trigger] batches@[i]).wf(),
            vector_rows(batches@.take(b as int)) == Ok::<_, Seq<char>>(views(r@)),
        decreases batches@.len() - b,
    {
        let batch = &batches[b];
        proof {
            assert(batch.wf());
            assert(batches@.take(b + 1).drop_last() =~= batches@.take(b as int));
            assert(batches@.take(b + 1).last() == *batch);
        }
        match batch.results() {
            Ok(found) => {
                let ghost before = r@;
                let mut found = found;
                let ghost added = found@;
                r.append(&mut found);
                proof {
                    assert(views(r@) =~= views(before) + views(added));
                }
            },
            Err(e) => {
                proof {
                    lemma_vector_rows_fail(batches@, b + 1);
                }
                return Err(e);
            },
        }
        b += 1;
    }
    proof {
        assert(batches@.take(b as int) =~= batches@);
    }
    Ok(r)
}

/// A piece of text of a document, ready to be embedded.
#[derive(Debug, Clone)]
pub struct IndexedChunk {
    pub doc_id: i64,
    /// The number of the chunk within its document.
    pub chunk_index: usize,
    pub text: String,
    pub doc_title: String,
    pub doc_path: String,
}

/// The columns of some chunks.
#[derive(Debug, Clone)]
pub struct IndexedColumns {
    pub doc_ids: Vec<i64>,
    pub chunk_indexes: Vec<i32>,
    pub titles: Vec<String>,
    pub paths: Vec<String>,
    pub texts: Vec<String>,
}

impl IndexedColumns {
    /// All columns have `n` rows.
    pub open spec fn has_rows(self, n: nat) -> bool {
        &&& self.doc_ids@.len() == n
        &&& self.chunk_indexes@.len() == n
        &&& self.titles@.len() == n
        &&& self.paths@.len() == n
        &&& self.texts@.len() == n
    }

    /// The row `i` holds the chunk `c`.
    pub open spec fn row_holds(self, i: int, c: IndexedChunk) -> bool {
        &&& self.doc_ids@[i] == c.doc_id
        &&& self.chunk_indexes@[i] == c.chunk_index as i32
        &&& self.titles@[i]@ == c.doc_title@
        &&& self.paths@[i]@ == c.doc_path@
        &&& self.texts@[i]@ == c.text@
    }
}

/// The rows to be stored beside the vectors of some chunks: one for each chunk,
/// in their order.
pub fn insert_embeddings(chunks: &Vec<IndexedChunk>) -> (r: IndexedColumns)
    ensures
        r.has_rows(chunks@.len()),
        forall|i: int| 0 <= i < chunks@.len() ==> #[trigger] r.row_holds(i, chunks@[i]),
{
    let mut r = IndexedColumns {
        doc_ids: Vec::new(),
        chunk_indexes: Vec::new(),
        titles: Vec::new(),
        paths: Vec::new(),
        texts: Vec::new(),
    };
    let mut i: usize = 0;
    while i < chunks.len()
        invariant
            i <= chunks@.len(),
            r.has_rows(i as nat),
            forall|k: int| 0 <= k < i ==> #[trigger] r.row_holds(k, chunks@[k]),
        decreases chunks@.len() - i,
    {
        let c = &chunks[i];
        let ghost before = r;
        r.doc_ids.push(c.doc_id);
        r.chunk_indexes.push(c.chunk_index as i32);
        r.titles.push(c.doc_title.clone());
        r.paths.push(c.doc_path.clone());
        r.texts.push(c.text.clone());
        proof {
            assert forall|k: int| 0 <= k < i + 1 implies #[trigger] r.row_holds(k, chunks@[k]) by {
                if k < i {
                    assert(before.row_holds(k, chunks@[k]));
                }
            }
        }
        i += 1;
    }
    r
}

/// A vector search succeeds exactly if no batch lacks a column; the error names
/// the first column that is missing in the first faulty batch. What is found is
/// read one batch after the other.
pub proof fn vector_searches_need_all_columns(batches: Seq<VectorBatch>, at: int)
    requires
        0 <= at <= batches.len(),
        forall|i: int| 0 <= i < at ==> (#[trigger] batches[i]).missing() is None,
        at < batches.len() ==> batches[at].missing() is Some,
    ensures
        vector_rows(batches) is Ok <==> at == batches.len(),
        at < batches.len() ==> vector_rows(batches) == Err::<Seq<IndexedModel>, Seq<char>>(
            batches[at].missing()->0,
        ),
        at == batches.len() && at > 0 ==> vector_rows(batches)->Ok_0 == vector_rows(
            batches.drop_last(),
        )->Ok_0 + batches.last().rows(),
        at == batches.len() && at == 0 ==> vector_rows(batches)->Ok_0.len() == 0,
    decreases batches.len(),
{
    if batches.len() > 0 {
        let rest = batches.drop_last();
        let last = batches[batches.len() - 1];
        assert forall|i: int| 0 <= i < at && i < rest.len() implies (
        #[trigger] rest[i]).missing() is None by {
            assert(rest[i] == batches[i]);
        }
        if at < rest.len() {
            assert(rest[at] == batches[at]);
            vector_searches_need_all_columns(rest, at);
        } else {
            vector_searches_need_all_columns(rest, rest.len() as int);
            if at == batches.len() {
                assert(last.missing() is None);
            }
        }
    }
}

/// A batch is complete exactly if all its columns are there, and says of each
/// row then what they hold.
pub proof fn rows_of_indexed_chunks(batch: VectorBatch, i: int)
    requires
        0 <= i < batch.num_rows,
    ensures
        batch.missing() is None <==> batch.doc_ids is Some && batch.chunk_indexes is Some
            && batch.titles is Some && batch.paths is Some && batch.texts is Some
            && batch.dists is Some,
        batch.missing() is None ==> {
            let rows = batch.rows();
            &&& rows.len() == batch.num_rows
            &&& rows[i].doc_id == batch.doc_ids->0@[i]
            &&& rows[i].chunk_index == batch.chunk_indexes->0@[i] as usize
            &&& rows[i].doc_title == batch.titles->0@[i]@
            &&& rows[i].doc_path == batch.paths->0@[i]@
            &&& rows[i].chunk_text == batch.texts->0@[i]@
            &&& rows[i].score == batch.dists->0@[i]
        },
{
}

/// What is stored beside a vector is the chunk that it belongs to.
pub proof fn vectors_are_stored_with_their_chunks(
    chunks: Vec<IndexedChunk>,
    columns: IndexedColumns,
    i: int,
)
    requires
        call_ensures(insert_embeddings, (&chunks,), columns),
        0 <= i < chunks@.len(),
    ensures
        columns.doc_ids@.len() == chunks@.len(),
        columns.doc_ids@[i] == chunks@[i].doc_id,
        columns.chunk_indexes@[i] == chunks@[i].chunk_index as i32,
        columns.titles@[i]@ == chunks@[i].doc_title@,
        columns.paths@[i]@ == chunks@[i].doc_path@,
        columns.texts@[i]@ == chunks@[i].text@,
{
    assert(columns.row_holds(i, chunks@[i]));
}

} // verus!
