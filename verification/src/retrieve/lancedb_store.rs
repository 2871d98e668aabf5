//! The decisions of the LanceDB back end: where its tables lie, the filters of
//! its queries, the rows that it writes and what it reads back.
//!
//! LanceDB hands out batches of columns. A batch is held here as one list for
//! each column that it has.

use crate::double::Double;
use crate::number::{lemma_signed_read, read_signed, signed_decimal, signed_text};
use crate::order::views;
use crate::paths::FsPath;
use crate::retrieve::error::Error;
use crate::retrieve::grouping::{ChunkRow, RowModel};
use crate::retrieve::patterns::{like_is_literal, like_matches, liked, prefix_like};
use crate::retrieve::retrieve_store::HitModel;
use crate::retrieve::sqlite_store::contains_key;
use crate::retrieve::titled::{
    self, copy_chunks, cut_chunks, titled_chunks, ChunkResultModel, ChunkSearchResult, ResultModel,
    SearchResult, TitledChunk, TitledChunkModel, TitledDocument,
};
use crate::retrieve::vector_store::VecInfo;
use crate::seqs::lemma_filter_all;
use crate::text::{
    chars_of, has_part, has_prefix, parts_can_be_cut_out, same_text, starts_with, texts,
};
use vstd::prelude::*;

verus! {

/// The version of the tables, part of the name of their directory.
pub const SCHEMA_VERSION: i32 = 3;

/// The name of the directory of the tables.
pub open spec fn dir_name() -> Seq<char> {
    "lancedb_v"@ + signed_decimal(SCHEMA_VERSION as int)
}

/// The directory of the tables below a cache directory.
pub fn data_dir(root: &FsPath) -> (r: FsPath)
    ensures
        r@ == root@.below(dir_name()),
{
    let mut name = "lancedb_v".to_owned();
    name.append(&signed_text(SCHEMA_VERSION as i64));
    root.join(&name)
}

/// `s` with every single quote doubled.
pub open spec fn quoted(s: Seq<char>) -> Seq<char>
    decreases s.len(),
{
    if s.len() == 0 {
        s
    } else if s.last() == '\'' {
        quoted(s.drop_last()) + seq!['\'', '\'']
    } else {
        quoted(s.drop_last()).push(s.last())
    }
}

/// `s` with every pair of single quotes read as one, from the left; nothing if
/// a single quote stands alone.
pub open spec fn unquoted(s: Seq<char>) -> Option<Seq<char>>
    decreases s.len(),
{
    if s.len() == 0 {
        Some(s)
    } else if s[0] == '\'' {
        if s.len() >= 2 && s[1] == '\'' {
            match unquoted(s.skip(2)) {
                Some(rest) => Some(seq!['\''] + rest),
                None => None,
            }
        } else {
            None
        }
    } else {
        match unquoted(s.skip(1)) {
            Some(rest) => Some(seq![s[0]] + rest),
            None => None,
        }
    }
}

proof fn lemma_unquoted_concat(a: Seq<char>, b: Seq<char>)
    requires
        unquoted(a) is Some,
        unquoted(b) is Some,
    ensures
        unquoted(a + b) == Some(unquoted(a)->0 + unquoted(b)->0),
    decreases a.len(),
{
    if a.len() == 0 {
        assert(a + b =~= b);
        assert(unquoted(a)->0 + unquoted(b)->0 =~= unquoted(b)->0);
    } else if a[0] == '\'' {
        lemma_unquoted_concat(a.skip(2), b);
        assert((a + b).skip(2) =~= a.skip(2) + b);
        assert(unquoted(a + b)->0 =~= unquoted(a)->0 + unquoted(b)->0);
    } else {
        lemma_unquoted_concat(a.skip(1), b);
        assert((a + b).skip(1) =~= a.skip(1) + b);
        assert(unquoted(a + b)->0 =~= unquoted(a)->0 + unquoted(b)->0);
    }
}

/// Between single quotes an escaped text stands for the text itself: no quote
/// in it ends the literal.
pub proof fn quoted_reads_back(s: Seq<char>)
    ensures
        unquoted(quoted(s)) == Some(s),
    decreases s.len(),
{
    if s.len() > 0 {
        quoted_reads_back(s.drop_last());
        assert(s =~= s.drop_last() + seq![s.last()]);
        if s.last() == '\'' {
            let q = seq!['\'', '\''];
            assert(unquoted(q) == Some(seq!['\''])) by {
                reveal_with_fuel(unquoted, 3);
                assert(q.skip(2) =~= Seq::empty());
                assert(seq!['\''] + Seq::<char>::empty() =~= seq!['\'']);
            }
            lemma_unquoted_concat(quoted(s.drop_last()), q);
        } else {
            let q = seq![s.last()];
            assert(unquoted(q) == Some(q)) by {
                reveal_with_fuel(unquoted, 3);
                assert(q.skip(1) =~= Seq::empty());
                assert(q + Seq::<char>::empty() =~= q);
            }
            lemma_unquoted_concat(quoted(s.drop_last()), q);
            assert(quoted(s) =~= quoted(s.drop_last()) + q);
        }
    }
}

/// Doubles every single quote, so that the text can stand between single
/// quotes in a filter.
pub fn escape_sql_string(s: &str) -> (r: String)
    ensures
        r@ == quoted(s@),
{
    let cs = chars_of(s);
    let mut r = String::new();
    let mut i: usize = 0;
    proof {
        assert(cs@.take(0) =~= Seq::<char>::empty());
    }
    while i < cs.len()
        invariant
            i <= cs@.len(),
            r@ == quoted(cs@.take(i as int)),
        decreases cs@.len() - i,
    {
        let ghost before = r@;
        let c = cs[i];
        proof {
            assert(cs@.take(i + 1).drop_last() =~= cs@.take(i as int));
            assert(cs@.take(i + 1).last() == c);
        }
        if c == '\'' {
            r.push('\'');
        }
        r.push(c);
        proof {
            if c == '\'' {
                assert(r@ =~= before + seq!['\'', '\'']);
            }
        }
        i += 1;
    }
    proof {
        assert(cs@.take(i as int) =~= cs@);
    }
    r
}

/// The filter for values of `column` that start with `prefix`. The backslash is
/// named as the escape character where the pattern needs one.
pub fn prefix_filter(column: &str, prefix: &str) -> (r: String)
    ensures
        r@ == column@ + " LIKE '"@ + quoted(liked(prefix@) + seq!['%']) + (if liked(prefix@)
            == prefix@ {
            "'"@
        } else {
            "' ESCAPE '\\'"@
        }),
{
    let pattern = prefix_like(prefix);
    let mut r = column.to_owned();
    r.append(" LIKE '");
    r.append(&escape_sql_string(&pattern));
    let mut plain = prefix.to_owned();
    plain.push('%');
    proof {
        assert(plain@ =~= prefix@ + seq!['%']);
        if plain@ == pattern@ {
            assert(liked(prefix@) =~= plain@.drop_last());
            assert(prefix@ =~= plain@.drop_last());
        }
    }
    if same_text(&plain, &pattern) {
        r.append("'");
    } else {
        r.append("' ESCAPE '\\'");
    }
    r
}

/// The filter for a prefix is literal: between its quotes stands a pattern that
/// matches exactly the values that start with the prefix.
pub proof fn prefix_filter_is_literal(prefix: Seq<char>, value: Seq<char>)
    ensures
        ({
            let pattern = unquoted(quoted(liked(prefix) + seq!['%']));
            pattern is Some && (like_matches(pattern->0, value) <==> has_prefix(value, prefix))
        }),
{
    quoted_reads_back(liked(prefix) + seq!['%']);
    like_is_literal(prefix, value);
}

/// The filter for values of `column` that equal `text`.
pub fn text_filter(column: &str, text: &str) -> (r: String)
    ensures
        r@ == column@ + " = '"@ + quoted(text@) + "'"@,
{
    let mut r = column.to_owned();
    r.append(" = '");
    r.append(&escape_sql_string(text));
    r.append("'");
    r
}

/// The filter for values of `column` that equal `id`.
pub fn id_filter(column: &str, id: i64) -> (r: String)
    ensures
        r@ == column@ + " = "@ + signed_decimal(id as int),
{
    let mut r = column.to_owned();
    r.append(" = ");
    r.append(&signed_text(id));
    r
}

/// The columns of the chunks of a document.
#[derive(Debug, Clone)]
pub struct ChunkColumns {
    pub doc_ids: Vec<i64>,
    pub lines: Vec<i32>,
    pub cols: Vec<i32>,
    pub texts: Vec<String>,
    pub titles: Vec<String>,
    pub paths: Vec<String>,
}

/// The chunks that the back end stores of `doc`: those that the caller has
/// cut, or else its paragraphs under the title, numbered from zero.
pub open spec fn lance_chunks(doc: TitledDocument) -> Seq<(usize, usize, Seq<char>)> {
    match doc.chunks {
        Some(chunks) => cut_chunks(chunks@),
        None => {
            let parts = titled_chunks(doc.title@, doc.body@);
            Seq::new(parts.len(), |i: int| (i as usize, 0usize, parts[i]))
        },
    }
}

/// The chunks that the back end stores of `doc`.
fn document_chunks(doc: &TitledDocument) -> (r: Vec<(usize, usize, String)>)
    ensures
        cut_chunks(r@) == lance_chunks(*doc),
{
    match &doc.chunks {
        Some(chunks) => copy_chunks(chunks),
        None => {
            let parts = titled::chunk_document(&doc.title, &doc.body);
            let mut r: Vec<(usize, usize, String)> = Vec::new();
            let mut i: usize = 0;
            while i < parts.len()
                invariant
                    i <= parts@.len(),
                    cut_chunks(r@) =~= Seq::new(
                        i as nat,
                        |k: int| (k as usize, 0usize, texts(parts@)[k]),
                    ),
                decreases parts@.len() - i,
            {
                let ghost before = r@;
                let cut = (i, 0usize, parts[i].clone());
                r.push(cut);
                proof {
                    assert(cut_chunks(r@) =~= cut_chunks(before).push((cut.0, cut.1, cut.2@)));
                }
                i += 1;
            }
            proof {
                assert(cut_chunks(r@) =~= lance_chunks(*doc));
            }
            r
        },
    }
}

impl ChunkColumns {
    /// The rows.
    pub open spec fn rows(self) -> Seq<LanceRow> {
        Seq::new(
            self.doc_ids@.len(),
            |i: int|
                LanceRow {
                    doc_id: self.doc_ids@[i],
                    line: self.lines@[i],
                    col: self.cols@[i],
                    text: self.texts@[i]@,
                    title: self.titles@[i]@,
                    path: self.paths@[i]@,
                },
        )
    }

    /// All columns have `n` rows.
    pub open spec fn has_rows(self, n: nat) -> bool {
        &&& self.doc_ids@.len() == n
        &&& self.lines@.len() == n
        &&& self.cols@.len() == n
        &&& self.texts@.len() == n
        &&& self.titles@.len() == n
        &&& self.paths@.len() == n
    }

    /// The row `i` holds the chunk `c` of `doc`.
    pub open spec fn row_is(
        self,
        i: int,
        doc: TitledDocument,
        c: (usize, usize, Seq<char>),
    ) -> bool {
        &&& self.doc_ids@[i] == doc.id
        &&& self.lines@[i] == c.0 as i32
        &&& self.cols@[i] == c.1 as i32
        &&& self.texts@[i]@ == c.2
        &&& self.titles@[i]@ == doc.title@
        &&& self.paths@[i]@ == doc.path@
    }
}

/// A row of the table of chunks.
pub struct LanceRow {
    pub doc_id: i64,
    pub line: i32,
    pub col: i32,
    pub text: Seq<char>,
    pub title: Seq<char>,
    pub path: Seq<char>,
}

/// A row of the table of documents.
pub struct LanceDocument {
    pub title: Seq<char>,
    pub body: Seq<char>,
    pub path: Seq<char>,
}

/// What the tables hold: the documents, the chunks, and for each vector the
/// document and the line of its chunk.
pub struct LanceTables {
    pub documents: Map<i64, LanceDocument>,
    pub chunks: Seq<LanceRow>,
    pub vectors: Seq<(i64, i32)>,
}

/// A change of the tables.
#[derive(Debug, Clone)]
pub enum LanceStep {
    /// Store the row of a document, in place of the one with its identifier.
    MergeDocument { id: i64, title: String, body: String, path: String },
    /// Delete the row of a document.
    DeleteDocument { id: i64 },
    /// Delete the chunks of a document.
    DeleteChunks { doc_id: i64 },
    /// Delete the vectors of a document.
    DeleteVectors { doc_id: i64 },
    /// Add chunks.
    AddChunks(ChunkColumns),
}

/// The mathematical counterpart of a [`LanceStep`].
pub enum StepModel {
    MergeDocument(i64, LanceDocument),
    DeleteDocument(i64),
    DeleteChunks(i64),
    DeleteVectors(i64),
    AddChunks(Seq<LanceRow>),
}

impl View for LanceStep {
    type V = StepModel;

    open spec fn view(&self) -> StepModel {
        match self {
            LanceStep::MergeDocument { id, title, body, path } => StepModel::MergeDocument(
                *id,
                LanceDocument { title: title@, body: body@, path: path@ },
            ),
            LanceStep::DeleteDocument { id } => StepModel::DeleteDocument(*id),
            LanceStep::DeleteChunks { doc_id } => StepModel::DeleteChunks(*doc_id),
            LanceStep::DeleteVectors { doc_id } => StepModel::DeleteVectors(*doc_id),
            LanceStep::AddChunks(columns) => StepModel::AddChunks(columns.rows()),
        }
    }
}

/// The row of a chunk `c` of `doc`.
pub open spec fn lance_row(doc: TitledDocument, c: (usize, usize, Seq<char>)) -> LanceRow {
    LanceRow {
        doc_id: doc.id,
        line: c.0 as i32,
        col: c.1 as i32,
        text: c.2,
        title: doc.title@,
        path: doc.path@,
    }
}

/// The rows of the chunks of `doc`.
pub open spec fn lance_rows(doc: TitledDocument) -> Seq<LanceRow> {
    lance_chunks(doc).map_values(|c: (usize, usize, Seq<char>)| lance_row(doc, c))
}

/// What a step makes of the tables.
pub open spec fn lance_applied(t: LanceTables, step: StepModel) -> LanceTables {
    match step {
        StepModel::MergeDocument(id, row) => LanceTables {
            documents: t.documents.insert(id, row),
            ..t
        },
        StepModel::DeleteDocument(id) => LanceTables { documents: t.documents.remove(id), ..t },
        StepModel::DeleteChunks(id) => LanceTables {
            chunks: t.chunks.filter(|row: LanceRow| row.doc_id != id),
            ..t
        },
        StepModel::DeleteVectors(id) => LanceTables {
            vectors: t.vectors.filter(|v: (i64, i32)| v.0 != id),
            ..t
        },
        StepModel::AddChunks(rows) => LanceTables { chunks: t.chunks + rows, ..t },
    }
}

/// What the steps, one after the other, make of the tables.
pub open spec fn lance_all_applied(t: LanceTables, steps: Seq<StepModel>) -> LanceTables
    decreases steps.len(),
{
    if steps.len() == 0 {
        t
    } else {
        lance_applied(lance_all_applied(t, steps.drop_last()), steps.last())
    }
}

/// The steps that store `doc`: its row is stored, its earlier chunks and their
/// vectors go, its chunks are added, if it has any.
pub open spec fn upsert_steps(doc: TitledDocument) -> Seq<StepModel> {
    let cleared = seq![
        StepModel::MergeDocument(
            doc.id,
            LanceDocument { title: doc.title@, body: doc.body@, path: doc.path@ },
        ),
        StepModel::DeleteChunks(doc.id),
        StepModel::DeleteVectors(doc.id),
    ];
    if lance_rows(doc).len() == 0 {
        cleared
    } else {
        cleared.push(StepModel::AddChunks(lance_rows(doc)))
    }
}

/// The steps that remove the document `id` with its chunks and their vectors.
pub open spec fn removal_steps(id: i64) -> Seq<StepModel> {
    seq![
        StepModel::DeleteDocument(id),
        StepModel::DeleteChunks(id),
        StepModel::DeleteVectors(id),
    ]
}

/// Storing a document replaces what was stored for it: afterwards the tables
/// hold its row, exactly its present chunks, none of its earlier vectors, and
/// all that belongs to other documents as it was.
pub proof fn lance_upsert_replaces(t: LanceTables, doc: TitledDocument)
    ensures
        ({
            let u = lance_all_applied(t, upsert_steps(doc));
            &&& u.documents == t.documents.insert(
                doc.id,
                LanceDocument { title: doc.title@, body: doc.body@, path: doc.path@ },
            )
            &&& u.chunks == t.chunks.filter(|row: LanceRow| row.doc_id != doc.id) + lance_rows(doc)
            &&& u.vectors == t.vectors.filter(|v: (i64, i32)| v.0 != doc.id)
        }),
{
    let steps = upsert_steps(doc);
    let row = LanceDocument { title: doc.title@, body: doc.body@, path: doc.path@ };
    let first = seq![StepModel::MergeDocument(doc.id, row)];
    let second = first.push(StepModel::DeleteChunks(doc.id));
    let third = second.push(StepModel::DeleteVectors(doc.id));
    reveal_with_fuel(lance_all_applied, 5);
    assert(first.drop_last() =~= Seq::empty());
    assert(second.drop_last() =~= first);
    assert(third.drop_last() =~= second);
    if lance_rows(doc).len() == 0 {
        assert(steps =~= third);
        assert(t.chunks.filter(|row: LanceRow| row.doc_id != doc.id) + lance_rows(doc)
            =~= t.chunks.filter(|row: LanceRow| row.doc_id != doc.id));
    } else {
        assert(steps.drop_last() =~= third);
    }
}

/// Removing a document leaves nothing of it, and all that belongs to other
/// documents as it was.
pub proof fn lance_removal_leaves_nothing(t: LanceTables, id: i64)
    ensures
        ({
            let u = lance_all_applied(t, removal_steps(id));
            &&& u.documents == t.documents.remove(id)
            &&& u.chunks == t.chunks.filter(|row: LanceRow| row.doc_id != id)
            &&& u.vectors == t.vectors.filter(|v: (i64, i32)| v.0 != id)
        }),
{
    let steps = removal_steps(id);
    let first = seq![StepModel::DeleteDocument(id)];
    let second = first.push(StepModel::DeleteChunks(id));
    reveal_with_fuel(lance_all_applied, 4);
    assert(first.drop_last() =~= Seq::empty());
    assert(second.drop_last() =~= first);
    assert(steps.drop_last() =~= second);
}

/// The steps that store a document; see [`upsert_steps`].
pub fn upsert_document(doc: &TitledDocument) -> (r: Vec<LanceStep>)
    ensures
        views(r@) == upsert_steps(*doc),
        forall|i: int|
            0 <= i < r@.len() ==> ((#[trigger] r@[i]) matches LanceStep::AddChunks(columns)
                ==> columns.has_rows(lance_chunks(*doc).len())),
{
    let columns = chunk_columns(doc);
    let ghost rows = lance_rows(*doc);
    proof {
        assert(columns.rows() =~= rows) by {
            assert forall|i: int| 0 <= i < rows.len() implies columns.rows()[i] == rows[i] by {
                assert(columns.row_is(i, *doc, lance_chunks(*doc)[i]));
            }
        }
    }
    let mut r: Vec<LanceStep> = Vec::new();
    r.push(
        LanceStep::MergeDocument {
            id: doc.id,
            title: doc.title.clone(),
            body: doc.body.clone(),
            path: doc.path.clone(),
        },
    );
    r.push(LanceStep::DeleteChunks { doc_id: doc.id });
    r.push(LanceStep::DeleteVectors { doc_id: doc.id });
    if columns.doc_ids.len() > 0 {
        r.push(LanceStep::AddChunks(columns));
    }
    proof {
        assert(views(r@) =~= upsert_steps(*doc));
    }
    r
}

/// The steps that remove a document; see [`removal_steps`].
pub fn remove_document(id: i64) -> (r: Vec<LanceStep>)
    ensures
        views(r@) == removal_steps(id),
{
    let r = vec![
        LanceStep::DeleteDocument { id },
        LanceStep::DeleteChunks { doc_id: id },
        LanceStep::DeleteVectors { doc_id: id },
    ];
    proof {
        assert(views(r@) =~= removal_steps(id));
    }
    r
}

/// The rows of the chunks of a document, by columns.
fn chunk_columns(doc: &TitledDocument) -> (r: ChunkColumns)
    ensures
        r.has_rows(lance_chunks(*doc).len()),
        forall|i: int|
            0 <= i < lance_chunks(*doc).len() ==> #[trigger] r.row_is(i, *doc, lance_chunks(*doc)[i]),
{
    let chunks = document_chunks(doc);
    let ghost all = lance_chunks(*doc);
    let mut r = ChunkColumns {
        doc_ids: Vec::new(),
        lines: Vec::new(),
        cols: Vec::new(),
        texts: Vec::new(),
        titles: Vec::new(),
        paths: Vec::new(),
    };
    let mut i: usize = 0;
    while i < chunks.len()
        invariant
            i <= chunks@.len(),
            cut_chunks(chunks@) == all,
            r.has_rows(i as nat),
            forall|k: int| 0 <= k < i ==> #[trigger] r.row_is(k, *doc, all[k]),
        decreases chunks@.len() - i,
    {
        proof {
            assert(all[i as int] == (
                chunks@[i as int].0,
                chunks@[i as int].1,
                chunks@[i as int].2@,
            ));
        }
        let ghost before = r;
        r.doc_ids.push(doc.id);
        r.lines.push(chunks[i].0 as i32);
        r.cols.push(chunks[i].1 as i32);
        r.texts.push(chunks[i].2.clone());
        r.titles.push(doc.title.clone());
        r.paths.push(doc.path.clone());
        proof {
            assert forall|k: int| 0 <= k < i + 1 implies #[trigger] r.row_is(k, *doc, all[k]) by {
                if k < i {
                    assert(before.row_is(k, *doc, all[k]));
                }
            }
        }
        i += 1;
    }
    r
}

/// A batch of documents that match a full-text query, as far as its columns
/// are there.
#[derive(Debug, Clone)]
pub struct FtsBatch {
    pub num_rows: usize,
    pub ids: Option<Vec<i64>>,
    pub titles: Option<Vec<String>>,
    pub paths: Option<Vec<String>>,
    pub scores: Option<Vec<Double>>,
}

impl FtsBatch {
    /// Every column that is there has one value for each row.
    pub open spec fn wf(self) -> bool {
        &&& self.ids is Some ==> self.ids->0@.len() == self.num_rows
        &&& self.titles is Some ==> self.titles->0@.len() == self.num_rows
        &&& self.paths is Some ==> self.paths->0@.len() == self.num_rows
        &&& self.scores is Some ==> self.scores->0@.len() == self.num_rows
    }

    /// The documents of the batch; none where a column other than the scores
    /// is missing.
    pub open spec fn rows(self) -> Seq<ResultModel> {
        if self.ids is Some && self.titles is Some && self.paths is Some {
            Seq::new(
                self.num_rows as nat,
                |i: int|
                    ResultModel {
                        id: self.ids->0@[i],
                        title: self.titles->0@[i]@,
                        path: self.paths->0@[i]@,
                        score: match self.scores {
                            Some(s) => s@[i],
                            None => Double { bits: 0 },
                        },
                    },
            )
        } else {
            Seq::empty()
        }
    }
}

/// The documents of all batches, one batch after the other.
pub open spec fn fts_rows(batches: Seq<FtsBatch>) -> Seq<ResultModel>
    decreases batches.len(),
{
    if batches.len() == 0 {
        Seq::empty()
    } else {
        fts_rows(batches.drop_last()) + batches.last().rows()
    }
}

/// The result of a full-text search from the batches that it gave.
pub fn search_fts(batches: &Vec<FtsBatch>) -> (r: Vec<SearchResult>)
    requires
        forall|i: int| 0 <= i < batches@.len() ==> (#[trigger] batches@[i]).wf(),
    ensures
        views(r@) == fts_rows(batches@),
{
    let mut r: Vec<SearchResult> = Vec::new();
    let mut b: usize = 0;
    proof {
        assert(views(r@) =~= fts_rows(batches@.take(0)));
    }
    while b < batches.len()
        invariant
            b <= batches@.len(),
            forall|i: int| 0 <= i < batches@.len() ==> (#[trigger] batches@[i]).wf(),
            views(r@) == fts_rows(batches@.take(b as int)),
        decreases batches@.len() - b,
    {
        let batch = &batches[b];
        let ghost start = views(r@);
        proof {
            assert(batch.wf());
            assert(batches@.take(b + 1).drop_last() =~= batches@.take(b as int));
            assert(batches@.take(b + 1).last() == *batch);
        }
        if let (Some(ids), Some(titles), Some(paths)) = (&batch.ids, &batch.titles, &batch.paths) {
            let mut i: usize = 0;
            proof {
                assert(start + batch.rows().take(0) =~= start);
            }
            while i < batch.num_rows
                invariant
                    i <= batch.num_rows,
                    batch.wf(),
                    batch.ids == Some(*ids),
                    batch.titles == Some(*titles),
                    batch.paths == Some(*paths),
                    views(r@) == start + batch.rows().take(i as int),
                decreases batch.num_rows - i,
            {
                let score = match &batch.scores {
                    Some(s) => s[i],
                    None => Double::zero(),
                };
                let found = SearchResult {
                    id: ids[i],
                    title: titles[i].clone(),
                    path: paths[i].clone(),
                    score,
                };
                let ghost before = r@;
                r.push(found);
                proof {
                    assert(found@ == batch.rows()[i as int]);
                    assert(views(r@) =~= views(before).push(found@));
                    assert(views(r@) =~= start + batch.rows().take(i + 1));
                }
                i += 1;
            }
            proof {
                assert(batch.rows().take(i as int) =~= batch.rows());
            }
        } else {
            proof {
                assert(start + batch.rows() =~= start);
            }
        }
        b += 1;
    }
    proof {
        assert(batches@.take(b as int) =~= batches@);
    }
    r
}

/// A batch of chunks near to a query, as far as its columns are there.
#[derive(Debug, Clone)]
pub struct SimilarBatch {
    pub num_rows: usize,
    pub doc_ids: Option<Vec<i64>>,
    pub lines: Option<Vec<i32>>,
    pub cols: Option<Vec<i32>>,
    pub titles: Option<Vec<String>>,
    pub paths: Option<Vec<String>>,
    pub texts: Option<Vec<String>>,
    pub dists: Option<Vec<Double>>,
}

impl SimilarBatch {
    /// Every column that is there has one value for each row.
    pub open spec fn wf(self) -> bool {
        &&& self.doc_ids is Some ==> self.doc_ids->0@.len() == self.num_rows
        &&& self.lines is Some ==> self.lines->0@.len() == self.num_rows
        &&& self.cols is Some ==> self.cols->0@.len() == self.num_rows
        &&& self.titles is Some ==> self.titles->0@.len() == self.num_rows
        &&& self.paths is Some ==> self.paths->0@.len() == self.num_rows
        &&& self.texts is Some ==> self.texts->0@.len() == self.num_rows
        &&& self.dists is Some ==> self.dists->0@.len() == self.num_rows
    }

    /// The first column that is missing.
    pub open spec fn missing(self) -> Option<Seq<char>> {
        if self.doc_ids is None {
            Some("doc_id"@)
        } else if self.lines is None {
            Some("line"@)
        } else if self.cols is None {
            Some("col"@)
        } else if self.titles is None {
            Some("doc_title"@)
        } else if self.paths is None {
            Some("doc_path"@)
        } else if self.texts is None {
            Some("text"@)
        } else if self.dists is None {
            Some("_distance"@)
        } else {
            None
        }
    }

    /// The chunks of a batch that has all columns.
    pub open spec fn rows(self) -> Seq<ChunkResultModel> {
        Seq::new(
            self.num_rows as nat,
            |i: int|
                ChunkResultModel {
                    doc_id: self.doc_ids->0@[i],
                    line: self.lines->0@[i] as usize,
                    column: self.cols->0@[i] as usize,
                    doc_title: self.titles->0@[i]@,
                    doc_path: self.paths->0@[i]@,
                    chunk_text: self.texts->0@[i]@,
                    score: self.dists->0@[i],
                },
        )
    }
}

/// The text of the error about a missing column.
pub open spec fn missing_text(column: Seq<char>) -> Seq<char> {
    "missing `"@ + column + "` in search result"@
}

/// The chunks of all batches, one batch after the other, or the column that is
/// missing in the first faulty one.
pub open spec fn similar_rows(batches: Seq<SimilarBatch>) -> Result<Seq<ChunkResultModel>, Seq<char>>
    decreases batches.len(),
{
    if batches.len() == 0 {
        Ok(Seq::empty())
    } else {
        match similar_rows(batches.drop_last()) {
            Err(column) => Err(column),
            Ok(rows) => match batches.last().missing() {
                Some(column) => Err(column),
                None => Ok(rows + batches.last().rows()),
            },
        }
    }
}

proof fn lemma_similar_rows_fail(batches: Seq<SimilarBatch>, upto: int)
    requires
        0 <= upto <= batches.len(),
        similar_rows(batches.take(upto)) is Err,
    ensures
        similar_rows(batches) == similar_rows(batches.take(upto)),
    decreases batches.len(),
{
    if upto < batches.len() {
        assert(batches.drop_last().take(upto) =~= batches.take(upto));
        lemma_similar_rows_fail(batches.drop_last(), upto);
    } else {
        assert(batches.take(upto) =~= batches);
    }
}

/// The error about a missing column.
pub fn missing_column<T>(column: &str) -> (r: Result<T, Error>)
    ensures
        r is Err,
        r->Err_0.is_embed(missing_text(column@)),
{
    let mut text = "missing `".to_owned();
    text.append(column);
    text.append("` in search result");
    Err(Error::Embed(text))
}

impl SimilarBatch {
    /// The chunks of the batch, or the error about the first missing column.
    fn results(&self) -> (r: Result<Vec<ChunkSearchResult>, Error>)
        requires
            self.wf(),
        ensures
            match self.missing() {
                None => r is Ok && views(r->Ok_0@) == self.rows(),
                Some(column) => r is Err && r->Err_0.is_embed(missing_text(column)),
            },
    {
        let doc_ids = match &self.doc_ids {
            Some(c) => c,
            None => return missing_column("doc_id"),
        };
        let lines = match &self.lines {
            Some(c) => c,
            None => return missing_column("line"),
        };
        let cols = match &self.cols {
            Some(c) => c,
            None => return missing_column("col"),
        };
        let titles = match &self.titles {
            Some(c) => c,
            None => return missing_column("doc_title"),
        };
        let paths = match &self.paths {
            Some(c) => c,
            None => return missing_column("doc_path"),
        };
        let chunk_texts = match &self.texts {
            Some(c) => c,
            None => return missing_column("text"),
        };
        let dists = match &self.dists {
            Some(c) => c,
            None => return missing_column("_distance"),
        };
        let mut r: Vec<ChunkSearchResult> = Vec::new();
        let mut i: usize = 0;
        while i < self.num_rows
            invariant
                i <= self.num_rows,
                self.wf(),
                self.doc_ids == Some(*doc_ids),
                self.lines == Some(*lines),
                self.cols == Some(*cols),
                self.titles == Some(*titles),
                self.paths == Some(*paths),
                self.texts == Some(*chunk_texts),
                self.dists == Some(*dists),
                views(r@) == self.rows().take(i as int),
            decreases self.num_rows - i,
        {
            let found = ChunkSearchResult {
                doc_id: doc_ids[i],
                line: lines[i] as usize,
                column: cols[i] as usize,
                doc_title: titles[i].clone(),
                doc_path: paths[i].clone(),
                chunk_text: chunk_texts[i].clone(),
                score: dists[i],
            };
            let ghost before = r@;
            r.push(found);
            proof {
                assert(found@ == self.rows()[i as int]);
                assert(views(r@) =~= views(before).push(found@));
            }
            i += 1;
        }
        proof {
            assert(self.rows().take(i as int) =~= self.rows());
        }
        Ok(r)
    }
}

/// The result of a vector search from the batches that it gave. A batch in
/// which a column is missing fails the search.
pub fn search_similar(batches: &Vec<SimilarBatch>) -> (r: Result<Vec<ChunkSearchResult>, Error>)
    requires
        forall|i: int| 0 <= i < batches@.len() ==> (#[trigger] batches@[i]).wf(),
    ensures
        match similar_rows(batches@) {
            Ok(rows) => r is Ok && views(r->Ok_0@) == rows,
            Err(column) => r is Err && r->Err_0.is_embed(missing_text(column)),
        },
{
    let mut r: Vec<ChunkSearchResult> = Vec::new();
    let mut b: usize = 0;
    proof {
        assert(batches@.take(0) =~= Seq::empty());
        assert(views(r@) =~= Seq::empty());
    }
    while b < batches.len()
        invariant
            b <= batches@.len(),
            forall|i: int| 0 <= i < batches@.len() ==> (#[trigger] batches@[i]).wf(),
            similar_rows(batches@.take(b as int)) == Ok::<_, Seq<char>>(views(r@)),
        decreases batches@.len() - b,
    {
        let batch = &batches[b];
        proof {
            assert(batch.wf());
            assert(batches@.take(b + 1).drop_last() =~= batches@.take(b as int));
            assert(batches@.take(b + 1).last() == *batch);
        }
        match batch.results() {
            Ok(found) => {
                let ghost before = r@;
                let mut found = found;
                let ghost added = found@;
                r.append(&mut found);
                proof {
                    assert(views(r@) =~= views(before) + views(added));
                }
            },
            Err(e) => {
                proof {
                    lemma_similar_rows_fail(batches@, b + 1);
                }
                return Err(e);
            },
        }
        b += 1;
    }
    proof {
        assert(batches@.take(b as int) =~= batches@);
    }
    Ok(r)
}

/// A batch of keys of chunks that have a vector, as far as its columns are
/// there.
#[derive(Debug, Clone)]
pub struct KeyBatch {
    pub num_rows: usize,
    pub doc_ids: Option<Vec<i64>>,
    pub lines: Option<Vec<i32>>,
}

impl KeyBatch {
    /// Every column that is there has one value for each row.
    pub open spec fn wf(self) -> bool {
        &&& self.doc_ids is Some ==> self.doc_ids->0@.len() == self.num_rows
        &&& self.lines is Some ==> self.lines->0@.len() == self.num_rows
    }

    /// The keys of the batch; none where a column is missing.
    pub open spec fn keys(self) -> Seq<(i64, usize)> {
        if self.doc_ids is Some && self.lines is Some {
            Seq::new(
                self.num_rows as nat,
                |i: int| (self.doc_ids->0@[i], self.lines->0@[i] as usize),
            )
        } else {
            Seq::empty()
        }
    }
}

/// The keys of all batches.
pub open spec fn batch_keys(batches: Seq<KeyBatch>) -> Seq<(i64, usize)>
    decreases batches.len(),
{
    if batches.len() == 0 {
        Seq::empty()
    } else {
        batch_keys(batches.drop_last()) + batches.last().keys()
    }
}

/// The keys of the chunks that have a vector.
pub fn embedded_chunk_keys(batches: &Vec<KeyBatch>) -> (r: Vec<(i64, usize)>)
    requires
        forall|i: int| 0 <= i < batches@.len() ==> (#[trigger] batches@[i]).wf(),
    ensures
        r@ == batch_keys(batches@),
{
    let mut r: Vec<(i64, usize)> = Vec::new();
    let mut b: usize = 0;
    while b < batches.len()
        invariant
            b <= batches@.len(),
            forall|i: int| 0 <= i < batches@.len() ==> (#[trigger] batches@[i]).wf(),
            r@ == batch_keys(batches@.take(b as int)),
        decreases batches@.len() - b,
    {
        let batch = &batches[b];
        let ghost start = r@;
        proof {
            assert(batch.wf());
            assert(batches@.take(b + 1).drop_last() =~= batches@.take(b as int));
            assert(batches@.take(b + 1).last() == *batch);
        }
        if let (Some(doc_ids), Some(lines)) = (&batch.doc_ids, &batch.lines) {
            let mut i: usize = 0;
            proof {
                assert(start + batch.keys().take(0) =~= start);
            }
            while i < batch.num_rows
                invariant
                    i <= batch.num_rows,
                    batch.wf(),
                    batch.doc_ids == Some(*doc_ids),
                    batch.lines == Some(*lines),
                    r@ == start + batch.keys().take(i as int),
                decreases batch.num_rows - i,
            {
                r.push((doc_ids[i], lines[i] as usize));
                proof {
                    assert(r@ =~= start + batch.keys().take(i + 1));
                }
                i += 1;
            }
            proof {
                assert(batch.keys().take(i as int) =~= batch.keys());
            }
        } else {
            proof {
                assert(start + batch.keys() =~= start);
            }
        }
        b += 1;
    }
    proof {
        assert(batches@.take(b as int) =~= batches@);
    }
    r
}

/// A batch of stored chunks, as far as its columns are there.
#[derive(Debug, Clone)]
pub struct MetaBatch {
    pub num_rows: usize,
    pub doc_ids: Option<Vec<i64>>,
    pub lines: Option<Vec<i32>>,
    pub cols: Option<Vec<i32>>,
    pub texts: Option<Vec<String>>,
    pub titles: Option<Vec<String>>,
    pub paths: Option<Vec<String>>,
}

impl MetaBatch {
    /// Every column that is there has one value for each row.
    pub open spec fn wf(self) -> bool {
        &&& self.doc_ids is Some ==> self.doc_ids->0@.len() == self.num_rows
        &&& self.lines is Some ==> self.lines->0@.len() == self.num_rows
        &&& self.cols is Some ==> self.cols->0@.len() == self.num_rows
        &&& self.texts is Some ==> self.texts->0@.len() == self.num_rows
        &&& self.titles is Some ==> self.titles->0@.len() == self.num_rows
        &&& self.paths is Some ==> self.paths->0@.len() == self.num_rows
    }

    /// The chunks of the batch; none where a column is missing.
    pub open spec fn rows(self) -> Seq<TitledChunkModel> {
        if self.doc_ids is Some && self.lines is Some && self.cols is Some && self.texts is Some
            && self.titles is Some && self.paths is Some {
            Seq::new(
                self.num_rows as nat,
                |i: int|
                    TitledChunkModel {
                        doc_id: self.doc_ids->0@[i],
                        line: self.lines->0@[i] as usize,
                        column: self.cols->0@[i] as usize,
                        text: self.texts->0@[i]@,
                        doc_title: self.titles->0@[i]@,
                        doc_path: self.paths->0@[i]@,
                    },
            )
        } else {
            Seq::empty()
        }
    }
}

/// The chunks of all batches.
pub open spec fn meta_rows(batches: Seq<MetaBatch>) -> Seq<TitledChunkModel>
    decreases batches.len(),
{
    if batches.len() == 0 {
        Seq::empty()
    } else {
        meta_rows(batches.drop_last()) + batches.last().rows()
    }
}

/// The chunk has no vector yet.
pub open spec fn is_pending(embedded: Seq<(i64, usize)>) -> spec_fn(TitledChunkModel) -> bool {
    |c: TitledChunkModel| !embedded.contains((c.doc_id, c.line))
}

/// The stored chunks that have no vector yet, in their order.
pub fn pending_chunks(batches: &Vec<MetaBatch>, embedded: &Vec<(i64, usize)>) -> (r: Vec<TitledChunk>)
    requires
        forall|i: int| 0 <= i < batches@.len() ==> (#[trigger] batches@[i]).wf(),
    ensures
        views(r@) == meta_rows(batches@).filter(is_pending(embedded@)),
{
    let ghost pending = is_pending(embedded@);
    let mut r: Vec<TitledChunk> = Vec::new();
    let mut b: usize = 0;
    proof {
        reveal(Seq::filter);
        assert(views(r@) =~= meta_rows(batches@.take(0)).filter(pending));
    }
    while b < batches.len()
        invariant
            b <= batches@.len(),
            forall|i: int| 0 <= i < batches@.len() ==> (#[trigger] batches@[i]).wf(),
            pending == is_pending(embedded@),
            views(r@) == meta_rows(batches@.take(b as int)).filter(pending),
        decreases batches@.len() - b,
    {
        let batch = &batches[b];
        let ghost start = views(r@);
        let ghost rows = batch.rows();
        proof {
            reveal(Seq::filter);
            assert(batch.wf());
            assert(batches@.take(b + 1).drop_last() =~= batches@.take(b as int));
            assert(batches@.take(b + 1).last() == *batch);
            Seq::filter_distributes_over_add(meta_rows(batches@.take(b as int)), rows, pending);
            assert(rows.take(0).filter(pending) =~= Seq::empty());
            assert(start + rows.take(0).filter(pending) =~= start);
        }
        if let (Some(doc_ids), Some(lines), Some(cols)) = (
            &batch.doc_ids,
            &batch.lines,
            &batch.cols,
        ) {
            if let (Some(chunk_texts), Some(titles), Some(paths)) = (
                &batch.texts,
                &batch.titles,
                &batch.paths,
            ) {
                let mut i: usize = 0;
                while i < batch.num_rows
                    invariant
                        i <= batch.num_rows,
                        batch.wf(),
                        rows == batch.rows(),
                        pending == is_pending(embedded@),
                        batch.doc_ids == Some(*doc_ids),
                        batch.lines == Some(*lines),
                        batch.cols == Some(*cols),
                        batch.texts == Some(*chunk_texts),
                        batch.titles == Some(*titles),
                        batch.paths == Some(*paths),
                        views(r@) == start + rows.take(i as int).filter(pending),
                    decreases batch.num_rows - i,
                {
                    let doc_id: i64 = doc_ids[i];
                    let line: usize = lines[i] as usize;
                    proof {
                        reveal(Seq::filter);
                        assert(rows.take(i + 1).drop_last() =~= rows.take(i as int));
                        assert(rows.take(i + 1).last() == rows[i as int]);
                    }
                    if !contains_key(embedded, doc_id, line) {
                        let chunk = TitledChunk {
                            doc_id,
                            line,
                            column: cols[i] as usize,
                            text: chunk_texts[i].clone(),
                            doc_title: titles[i].clone(),
                            doc_path: paths[i].clone(),
                        };
                        let ghost before = r@;
                        r.push(chunk);
                        proof {
                            assert(chunk@ == rows[i as int]);
                            assert(views(r@) =~= views(before).push(chunk@));
                            assert(views(r@) =~= start + rows.take(i + 1).filter(pending));
                        }
                    }
                    i += 1;
                }
                proof {
                    assert(rows.take(i as int) =~= rows);
                }
            } else {
                proof {
                    assert(rows =~= rows.take(0));
                }
            }
        } else {
            proof {
                assert(rows =~= rows.take(0));
            }
        }
        b += 1;
    }
    proof {
        assert(batches@.take(b as int) =~= batches@);
    }
    r
}

/// Statistics of the index, from the number of chunks and of vectors.
pub fn vec_info(dim: u32, chunk_count: u64, vector_count: u64) -> (r: VecInfo)
    ensures
        r.embedding_dim == dim,
        r.vector_count == vector_count,
        r.pending_count == (if chunk_count > vector_count {
            chunk_count - vector_count
        } else {
            0
        }),
{
    VecInfo {
        embedding_dim: dim,
        vector_count,
        pending_count: if chunk_count > vector_count {
            chunk_count - vector_count
        } else {
            0
        },
    }
}

impl ChunkColumns {
    /// The row `i` holds the chunk `c`.
    pub open spec fn row_holds(self, i: int, c: TitledChunkModel) -> bool {
        &&& self.doc_ids@[i] == c.doc_id
        &&& self.lines@[i] == c.line as i32
        &&& self.cols@[i] == c.column as i32
        &&& self.texts@[i]@ == c.text
        &&& self.titles@[i]@ == c.doc_title
        &&& self.paths@[i]@ == c.doc_path
    }
}

/// The rows to be stored beside the vectors of some chunks: one for each chunk,
/// in their order.
pub fn insert_embeddings(chunks: &Vec<TitledChunk>) -> (r: ChunkColumns)
    ensures
        r.has_rows(chunks@.len()),
        forall|i: int| 0 <= i < chunks@.len() ==> #[trigger] r.row_holds(i, chunks@[i]@),
{
    let mut r = ChunkColumns {
        doc_ids: Vec::new(),
        lines: Vec::new(),
        cols: Vec::new(),
        texts: Vec::new(),
        titles: Vec::new(),
        paths: Vec::new(),
    };
    let mut i: usize = 0;
    while i < chunks.len()
        invariant
            i <= chunks@.len(),
            r.has_rows(i as nat),
            forall|k: int| 0 <= k < i ==> #[trigger] r.row_holds(k, chunks@[k]@),
        decreases chunks@.len() - i,
    {
        let c = &chunks[i];
        let ghost before = r;
        r.doc_ids.push(c.doc_id);
        r.lines.push(c.line as i32);
        r.cols.push(c.column as i32);
        r.texts.push(c.text.clone());
        r.titles.push(c.doc_title.clone());
        r.paths.push(c.doc_path.clone());
        proof {
            assert forall|k: int| 0 <= k < i + 1 implies #[trigger] r.row_holds(k, chunks@[k]@) by {
                if k < i {
                    assert(before.row_holds(k, chunks@[k]@));
                }
            }
        }
        i += 1;
    }
    r
}

/// The identifiers of all batches, in their order; a batch without the column
/// has none.
pub open spec fn all_ids(batches: Seq<Option<Vec<i64>>>) -> Seq<i64>
    decreases batches.len(),
{
    if batches.len() == 0 {
        Seq::empty()
    } else {
        let before = all_ids(batches.drop_last());
        match batches.last() {
            Some(ids) => before + ids@,
            None => before,
        }
    }
}

/// The identifiers of all documents, from the batches that hold them.
pub fn document_ids(batches: &Vec<Option<Vec<i64>>>) -> (r: Vec<i64>)
    ensures
        r@ == all_ids(batches@),
{
    let mut r: Vec<i64> = Vec::new();
    let mut b: usize = 0;
    while b < batches.len()
        invariant
            b <= batches@.len(),
            r@ == all_ids(batches@.take(b as int)),
        decreases batches@.len() - b,
    {
        proof {
            assert(batches@.take(b + 1).drop_last() =~= batches@.take(b as int));
            assert(batches@.take(b + 1).last() == batches@[b as int]);
        }
        if let Some(ids) = &batches[b] {
            r.extend_from_slice(ids.as_slice());
            proof {
                assert(r@ =~= all_ids(batches@.take(b as int)) + ids@);
            }
        }
        b += 1;
    }
    proof {
        assert(batches@.take(b as int) =~= batches@);
    }
    r
}

/// A chunk that a vector search found, as a row of the result. The column of a
/// chunk that the caller has cut holds the last line of the chunk; where it
/// holds none, the chunk ends on its first line.
pub open spec fn found_row(c: ChunkResultModel) -> RowModel {
    RowModel {
        doc_id: c.doc_id,
        path: c.doc_path,
        hit: HitModel {
            line_start: c.line,
            line_end: if c.column < c.line {
                c.line
            } else {
                c.column
            },
            text: c.chunk_text,
            score: c.score,
        },
    }
}

/// The chunks that a vector search found, as rows of the result.
pub fn found_rows(results: Vec<ChunkSearchResult>) -> (r: Vec<ChunkRow>)
    ensures
        views(r@) == views(results@).map_values(|c: ChunkResultModel| found_row(c)),
{
    let ghost wanted = views(results@).map_values(|c: ChunkResultModel| found_row(c));
    let mut r: Vec<ChunkRow> = Vec::new();
    let mut i: usize = 0;
    while i < results.len()
        invariant
            i <= results@.len(),
            wanted == views(results@).map_values(|c: ChunkResultModel| found_row(c)),
            views(r@) == wanted.take(i as int),
        decreases results@.len() - i,
    {
        let c = &results[i];
        let line_end: usize = if c.column < c.line {
            c.line
        } else {
            c.column
        };
        let ghost before = r@;
        let row = ChunkRow {
            doc_id: c.doc_id,
            path: c.doc_path.clone(),
            line_start: c.line,
            line_end,
            text: c.chunk_text.clone(),
            score: c.score,
        };
        r.push(row);
        proof {
            assert(wanted[i as int] == found_row(c@));
            assert(views(r@) =~= views(before).push(row@));
        }
        i += 1;
    }
    proof {
        assert(wanted.take(i as int) =~= wanted);
    }
    r
}

/// The documents whose path starts with the prefix, where there is one, in
/// their order.
pub fn results_under(results: Vec<SearchResult>, prefix: Option<&str>) -> (r: Vec<SearchResult>)
    ensures
        views(r@) == views(results@).filter(
            |d: ResultModel| prefix is None || has_prefix(d.path, prefix->0@),
        ),
{
    let ghost all = views(results@);
    let ghost given = results@;
    let ghost keep = |d: ResultModel| prefix is None || has_prefix(d.path, prefix->0@);
    let mut r: Vec<SearchResult> = Vec::new();
    proof {
        reveal(Seq::filter);
        assert(views(r@) =~= all.take(0).filter(keep));
    }
    for result in it: results
        invariant
            it.seq() == given,
            all == views(given),
            keep == (|d: ResultModel| prefix is None || has_prefix(d.path, prefix->0@)),
            views(r@) == all.take(it.index() as int).filter(keep),
    {
        proof {
            reveal(Seq::filter);
            let k = it.index() as int;
            assert(all.take(k + 1).drop_last() =~= all.take(k));
            assert(all.take(k + 1).last() == result@);
        }
        let wanted = match prefix {
            None => true,
            Some(p) => starts_with(&result.path, p),
        };
        if wanted {
            let ghost before = r@;
            let ghost model = result@;
            r.push(result);
            proof {
                assert(views(r@) =~= views(before).push(model));
            }
        }
    }
    proof {
        assert(all.take(all.len() as int) =~= all);
    }
    r
}

/// The chunks that are stored of a document: those that the caller has cut, as
/// they are, or else each paragraph under the title and its number.
pub proof fn documents_are_stored_by_chunk(doc: TitledDocument, i: int)
    requires
        0 <= i < lance_rows(doc).len(),
    ensures
        ({
            let row = lance_rows(doc)[i];
            &&& row.doc_id == doc.id
            &&& row.title == doc.title@
            &&& row.path == doc.path@
            &&& doc.chunks is Some ==> {
                &&& lance_rows(doc).len() == doc.chunks->0@.len()
                &&& row.line == doc.chunks->0@[i].0 as i32
                &&& row.col == doc.chunks->0@[i].1 as i32
                &&& row.text == doc.chunks->0@[i].2@
            }
            &&& doc.chunks is None ==> {
                &&& lance_rows(doc).len() == titled_chunks(doc.title@, doc.body@).len()
                &&& i <= i32::MAX ==> row.line == i
                &&& row.col == 0
                &&& row.text == titled_chunks(doc.title@, doc.body@)[i]
            }
        }),
{
}

/// A chunk waits for a vector exactly if no vector is recorded under both its
/// own document and its own line; vectors of other documents, or on other
/// lines, make no difference. The chunks that wait keep their order.
pub proof fn only_vectors_of_the_chunk_count(
    batches: Vec<MetaBatch>,
    embedded: Vec<(i64, usize)>,
    pending: Vec<TitledChunk>,
)
    requires
        call_ensures(pending_chunks, (&batches, &embedded), pending),
    ensures
        views(pending@) == meta_rows(batches@).filter(
            |c: TitledChunkModel|
                forall|k: int|
                    0 <= k < embedded@.len() ==> (#[trigger] embedded@[k]).0 != c.doc_id
                        || embedded@[k].1 != c.line,
        ),
{
    let f = is_pending(embedded@);
    let g = |c: TitledChunkModel|
        forall|k: int|
            0 <= k < embedded@.len() ==> (#[trigger] embedded@[k]).0 != c.doc_id || embedded@[k].1
                != c.line;
    assert forall|c: TitledChunkModel| #[trigger] f(c) == g(c) by {
        let key = (c.doc_id, c.line);
        if !g(c) {
            let k = choose|k: int|
                0 <= k < embedded@.len() && (#[trigger] embedded@[k]).0 == c.doc_id
                    && embedded@[k].1 == c.line;
            assert(embedded@[k] == key);
            assert(embedded@.contains(key));
        }
        if embedded@.contains(key) {
            let k = choose|k: int| 0 <= k < embedded@.len() && embedded@[k] == key;
            assert(embedded@[k].0 == c.doc_id);
        }
    }
    assert(f =~= g);
}

/// What batches hold is read one batch after the other.
pub proof fn batches_are_read_in_order(
    fts: Seq<FtsBatch>,
    more_fts: Seq<FtsBatch>,
    metas: Seq<MetaBatch>,
    more_metas: Seq<MetaBatch>,
    keys: Seq<KeyBatch>,
    more_keys: Seq<KeyBatch>,
    ids: Seq<Option<Vec<i64>>>,
    more_ids: Seq<Option<Vec<i64>>>,
)
    ensures
        fts_rows(fts + more_fts) == fts_rows(fts) + fts_rows(more_fts),
        meta_rows(metas + more_metas) == meta_rows(metas) + meta_rows(more_metas),
        batch_keys(keys + more_keys) == batch_keys(keys) + batch_keys(more_keys),
        all_ids(ids + more_ids) == all_ids(ids) + all_ids(more_ids),
    decreases more_fts.len() + more_metas.len() + more_keys.len() + more_ids.len(),
{
    if more_fts.len() > 0 {
        let rest = more_fts.drop_last();
        assert((fts + more_fts).drop_last() =~= fts + rest);
        batches_are_read_in_order(fts, rest, metas, more_metas, keys, more_keys, ids, more_ids);
        assert(fts_rows(fts + more_fts) =~= fts_rows(fts) + fts_rows(more_fts));
    } else {
        assert(fts + more_fts =~= fts);
        assert(fts_rows(fts + more_fts) =~= fts_rows(fts) + fts_rows(more_fts));
    }
    if more_metas.len() > 0 {
        let rest = more_metas.drop_last();
        assert((metas + more_metas).drop_last() =~= metas + rest);
        batches_are_read_in_order(fts, more_fts, metas, rest, keys, more_keys, ids, more_ids);
        assert(meta_rows(metas + more_metas) =~= meta_rows(metas) + meta_rows(more_metas));
    } else {
        assert(metas + more_metas =~= metas);
        assert(meta_rows(metas + more_metas) =~= meta_rows(metas) + meta_rows(more_metas));
    }
    if more_keys.len() > 0 {
        let rest = more_keys.drop_last();
        assert((keys + more_keys).drop_last() =~= keys + rest);
        batches_are_read_in_order(fts, more_fts, metas, more_metas, keys, rest, ids, more_ids);
        assert(batch_keys(keys + more_keys) =~= batch_keys(keys) + batch_keys(more_keys));
    } else {
        assert(keys + more_keys =~= keys);
        assert(batch_keys(keys + more_keys) =~= batch_keys(keys) + batch_keys(more_keys));
    }
    if more_ids.len() > 0 {
        let rest = more_ids.drop_last();
        assert((ids + more_ids).drop_last() =~= ids + rest);
        batches_are_read_in_order(fts, more_fts, metas, more_metas, keys, more_keys, ids, rest);
        assert(all_ids(ids + more_ids) =~= all_ids(ids) + all_ids(more_ids));
    } else {
        assert(ids + more_ids =~= ids);
        assert(all_ids(ids + more_ids) =~= all_ids(ids) + all_ids(more_ids));
    }
}

/// A batch of documents gives one result for each row, with what its columns
/// say there; without scores they count as zero, and without any other column
/// there are no results.
pub proof fn rows_of_documents(batch: FtsBatch, i: int)
    requires
        0 <= i < batch.num_rows,
    ensures
        ({
            let complete = batch.ids is Some && batch.titles is Some && batch.paths is Some;
            let rows = fts_rows(seq![batch]);
            &&& !complete ==> rows.len() == 0
            &&& complete ==> {
                &&& rows.len() == batch.num_rows
                &&& rows[i].id == batch.ids->0@[i]
                &&& rows[i].title == batch.titles->0@[i]@
                &&& rows[i].path == batch.paths->0@[i]@
                &&& batch.scores is Some ==> rows[i].score == batch.scores->0@[i]
                &&& batch.scores is None ==> rows[i].score.bits == 0
            }
        }),
{
    reveal_with_fuel(fts_rows, 2);
    assert(seq![batch].drop_last() =~= Seq::empty());
    assert(fts_rows(seq![batch]) =~= batch.rows());
}

/// A batch of stored chunks gives one chunk for each row, with what its columns
/// say there, and none if a column is missing; so does a batch of keys.
pub proof fn rows_of_chunks(batch: MetaBatch, keys: KeyBatch, i: int)
    requires
        0 <= i < batch.num_rows,
        i < keys.num_rows,
    ensures
        ({
            let complete = batch.doc_ids is Some && batch.lines is Some && batch.cols is Some
                && batch.texts is Some && batch.titles is Some && batch.paths is Some;
            let rows = meta_rows(seq![batch]);
            &&& !complete ==> rows.len() == 0
            &&& complete ==> {
                &&& rows.len() == batch.num_rows
                &&& rows[i].doc_id == batch.doc_ids->0@[i]
                &&& rows[i].line == batch.lines->0@[i] as usize
                &&& rows[i].column == batch.cols->0@[i] as usize
                &&& rows[i].text == batch.texts->0@[i]@
                &&& rows[i].doc_title == batch.titles->0@[i]@
                &&& rows[i].doc_path == batch.paths->0@[i]@
            }
        }),
        ({
            let rows = batch_keys(seq![keys]);
            &&& keys.doc_ids is None || keys.lines is None ==> rows.len() == 0
            &&& keys.doc_ids is Some && keys.lines is Some ==> rows.len() == keys.num_rows
                && rows[i] == (keys.doc_ids->0@[i], keys.lines->0@[i] as usize)
        }),
{
    reveal_with_fuel(meta_rows, 2);
    reveal_with_fuel(batch_keys, 2);
    assert(seq![batch].drop_last() =~= Seq::empty());
    assert(seq![keys].drop_last() =~= Seq::empty());
    assert(meta_rows(seq![batch]) =~= batch.rows());
    assert(batch_keys(seq![keys]) =~= keys.keys());
}

/// A vector search succeeds exactly if no batch lacks a column; the error names
/// the first column that is missing in the first faulty batch. What is found is
/// read one batch after the other.
pub proof fn vector_searches_need_every_column(batches: Seq<SimilarBatch>, at: int)
    requires
        0 <= at <= batches.len(),
        forall|i: int| 0 <= i < at ==> (#[trigger] batches[i]).missing() is None,
        at < batches.len() ==> batches[at].missing() is Some,
    ensures
        similar_rows(batches) is Ok <==> at == batches.len(),
        at < batches.len() ==> similar_rows(batches) == Err::<Seq<ChunkResultModel>, Seq<char>>(
            batches[at].missing()->0,
        ),
        at == batches.len() && at > 0 ==> similar_rows(batches)->Ok_0 == similar_rows(
            batches.drop_last(),
        )->Ok_0 + batches.last().rows(),
        at == batches.len() && at == 0 ==> similar_rows(batches)->Ok_0.len() == 0,
    decreases batches.len(),
{
    if batches.len() > 0 {
        let rest = batches.drop_last();
        let last = batches[batches.len() - 1];
        assert forall|i: int| 0 <= i < at && i < rest.len() implies (
        #[trigger] rest[i]).missing() is None by {
            assert(rest[i] == batches[i]);
        }
        if at < rest.len() {
            assert(rest[at] == batches[at]);
            vector_searches_need_every_column(rest, at);
        } else {
            vector_searches_need_every_column(rest, rest.len() as int);
            if at == batches.len() {
                assert(last.missing() is None);
            }
        }
    }
}

/// The column that a batch of found chunks lacks, in the order in which they
/// are looked for, and what a complete one says of each row.
pub proof fn rows_of_found_chunks(batch: SimilarBatch, i: int)
    requires
        0 <= i < batch.num_rows,
    ensures
        batch.doc_ids is None ==> batch.missing() == Some("doc_id"@),
        batch.missing() is None <==> batch.doc_ids is Some && batch.lines is Some
            && batch.cols is Some && batch.titles is Some && batch.paths is Some
            && batch.texts is Some && batch.dists is Some,
        batch.missing() is None ==> {
            let rows = batch.rows();
            &&& rows.len() == batch.num_rows
            &&& rows[i].doc_id == batch.doc_ids->0@[i]
            &&& rows[i].line == batch.lines->0@[i] as usize
            &&& rows[i].column == batch.cols->0@[i] as usize
            &&& rows[i].doc_title == batch.titles->0@[i]@
            &&& rows[i].doc_path == batch.paths->0@[i]@
            &&& rows[i].chunk_text == batch.texts->0@[i]@
            &&& rows[i].score == batch.dists->0@[i]
        },
{
}

/// A found chunk keeps its document, its path, its text and its score; it ends
/// where its column says, but not before it begins.
pub proof fn found_chunks_keep_what_they_say(c: ChunkResultModel)
    ensures
        found_row(c).doc_id == c.doc_id,
        found_row(c).path == c.doc_path,
        found_row(c).hit.text == c.chunk_text,
        found_row(c).hit.score == c.score,
        found_row(c).hit.line_start == c.line,
        found_row(c).hit.line_start <= found_row(c).hit.line_end,
        c.column >= c.line ==> found_row(c).hit.line_end == c.column,
        c.column < c.line ==> found_row(c).hit.line_end == c.line,
{
}

/// With a prefix only the documents whose path starts with it are left, in
/// their order; without one all are.
pub proof fn results_lie_under_the_prefix(
    results: Vec<SearchResult>,
    prefix: &str,
    under: Vec<SearchResult>,
    all: Vec<SearchResult>,
)
    requires
        call_ensures(results_under, (results, Some(prefix)), under),
        call_ensures(results_under, (results, None), all),
    ensures
        views(under@) == views(results@).filter(
            |d: ResultModel| prefix@.is_prefix_of(d.path),
        ),
        views(all@) == views(results@),
{
    let f = |d: ResultModel| Some(prefix) is None || has_prefix(d.path, prefix@);
    let g = |d: ResultModel| prefix@.is_prefix_of(d.path);
    assert forall|d: ResultModel| #[trigger] f(d) == g(d) by {
        if has_prefix(d.path, prefix@) {
            assert(d.path.take(prefix@.len() as int) =~= prefix@);
        }
    }
    assert(f =~= g);
    assert(views(under@) =~= views(results@).filter(f));
    lemma_filter_all(
        views(results@),
        |d: ResultModel| None::<&str> is None || has_prefix(d.path, None::<&str>->0@),
    );
}

/// Filters name their value between quotes, in a form that reads back as the
/// value itself.
pub proof fn filters_read_back(
    column: &str,
    text: &str,
    by_text: String,
    id: i64,
    by_id: String,
)
    requires
        call_ensures(text_filter, (column, text), by_text),
        call_ensures(id_filter, (column, id), by_id),
    ensures
        exists|literal: Seq<char>|
            by_text@ == column@ + " = '"@ + literal + "'"@ && #[trigger] unquoted(literal) == Some(
                text@,
            ),
        exists|digits: Seq<char>|
            by_id@ == column@ + " = "@ + digits && #[trigger] read_signed(digits, i64::MAX as nat)
                == Some(id as int),
{
    quoted_reads_back(text@);
    assert(unquoted(quoted(text@)) == Some(text@));
    lemma_signed_read(id as int, i64::MAX as nat);
    assert(read_signed(signed_decimal(id as int), i64::MAX as nat) == Some(id as int));
}

/// What waits for a vector is what has none.
pub proof fn statistics_of_vectors(dim: u32, chunks: u64, vectors: u64, info: VecInfo)
    requires
        call_ensures(vec_info, (dim, chunks, vectors), info),
    ensures
        info.embedding_dim == dim,
        info.vector_count == vectors,
        vectors <= chunks ==> info.pending_count + vectors == chunks,
        vectors > chunks ==> info.pending_count == 0,
{
}

/// The tables lie in a directory of their own below the cache directory, which
/// is named after their version.
pub proof fn tables_lie_in_a_directory_of_their_version(root: &FsPath, dir: FsPath)
    requires
        call_ensures(data_dir, (root,), dir),
    ensures
        dir@ == root@.below("lancedb_v3"@),
{
    reveal_strlit("lancedb_v");
    reveal_strlit("lancedb_v3");
    assert(signed_decimal(3) =~= seq!['3']);
    assert(dir_name() =~= "lancedb_v3"@);
}

/// The rows that stand beside vectors are one for each chunk, in the order of
/// the chunks, and hold what the chunk says.
pub proof fn vectors_stand_beside_their_chunks(
    chunks: &Vec<TitledChunk>,
    columns: ChunkColumns,
    i: int,
)
    requires
        call_ensures(insert_embeddings, (chunks,), columns),
        0 <= i < chunks@.len(),
    ensures
        columns.rows().len() == chunks@.len(),
        columns.doc_ids@.len() == columns.lines@.len() == columns.cols@.len(),
        columns.texts@.len() == columns.titles@.len() == columns.paths@.len() == chunks@.len(),
        columns.rows()[i].doc_id == chunks@[i]@.doc_id,
        columns.rows()[i].line == chunks@[i]@.line as i32,
        columns.rows()[i].col == chunks@[i]@.column as i32,
        columns.rows()[i].text == chunks@[i]@.text,
        columns.rows()[i].title == chunks@[i]@.doc_title,
        columns.rows()[i].path == chunks@[i]@.doc_path,
        columns.texts@[i]@ == chunks@[i]@.text,
        columns.doc_ids@[i] == chunks@[i]@.doc_id,
{
    assert(columns.row_holds(i, chunks@[i]@));
}

/// The error about a missing column names it.
pub proof fn missing_columns_are_named(column: &str, found: Result<u64, Error>)
    requires
        call_ensures(missing_column::<u64>, (column,), found),
    ensures
        found is Err && found->Err_0 is Embed,
        has_part(found->Err_0->Embed_0@, column@),
        found->Err_0->Embed_0@.len() == column@.len() + "missing `` in search result"@.len(),
{
    reveal_strlit("missing `");
    reveal_strlit("` in search result");
    reveal_strlit("missing `` in search result");
    parts_can_be_cut_out("missing `"@, column@, "` in search result"@);
}

} // verus!
