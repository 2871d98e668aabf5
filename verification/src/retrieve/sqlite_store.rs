//! The decisions of the SQLite back end: how a document's chunks replace the
//! stored ones, what to do with a database of another version, and what a
//! query asks for.
//!
//! The database holds a table of chunks, a full-text index over their text,
//! and optionally a table of vectors. A chunk of a document is identified by
//! its first line.

use crate::paths::{FsPath, PathModel};
use crate::number::{
    decimal, lemma_decimal_read, parse_u32, push_decimal, read_unsigned, signed_decimal,
};
use crate::order::views;
use crate::retrieve::chunker::{self, chunk_texts, paragraph_chunks};
use crate::retrieve::error::Error;
use crate::retrieve::grouping::{
    group_under_prefix, rows_under, scores_are_numbers, search_result, ChunkRow,
};
use crate::retrieve::retrieve_store::{Document, FileSearchResult};
use crate::retrieve::titled::{copy_chunks, cut_chunks};
use crate::retrieve::vector_store::{Chunk, VecInfo};
use crate::seqs::lemma_filter_had;
use crate::text::{has_prefix, has_suffix, same_text, texts};
use vstd::prelude::*;

verus! {

/// The chunks that the back end stores of `doc`: those that the caller has
/// cut, or else the paragraphs of the body, numbered from zero.
pub open spec fn stored_chunks(doc: Document) -> Seq<(usize, usize, Seq<char>)> {
    match doc.chunks {
        Some(chunks) => cut_chunks(chunks@),
        None => {
            let paragraphs = chunk_texts(paragraph_chunks(doc.body@, 0));
            Seq::new(paragraphs.len(), |i: int| (i as usize, i as usize, paragraphs[i]))
        },
    }
}

/// The chunks that the back end stores of `doc`.
pub fn document_chunks(doc: &Document) -> (r: Vec<(usize, usize, String)>)
    ensures
        cut_chunks(r@) == stored_chunks(*doc),
{
    match &doc.chunks {
        Some(chunks) => copy_chunks(chunks),
        None => {
            let paragraphs = chunker::chunk_document(&doc.body);
            let mut r: Vec<(usize, usize, String)> = Vec::new();
            let mut i: usize = 0;
            while i < paragraphs.len()
                invariant
                    i <= paragraphs@.len(),
                    cut_chunks(r@) =~= Seq::new(
                        i as nat,
                        |k: int| (k as usize, k as usize, texts(paragraphs@)[k]),
                    ),
                decreases paragraphs@.len() - i,
            {
                let ghost before = r@;
                let cut = (i, i, paragraphs[i].clone());
                r.push(cut);
                proof {
                    assert(cut_chunks(r@) =~= cut_chunks(before).push((cut.0, cut.1, cut.2@)));
                }
                i += 1;
            }
            proof {
                assert(cut_chunks(r@) =~= stored_chunks(*doc));
            }
            r
        },
    }
}

/// A chunk as the database holds it.
#[derive(Debug, Clone)]
pub struct StoredChunk {
    pub line_start: i64,
    pub text: String,
}

/// One statement on the tables of a document. A row is named by its first
/// line.
#[derive(Debug, Clone)]
pub enum ChunkOp {
    /// Removes the vector of a chunk, if it has one.
    DropVector { line_start: i64 },
    /// Takes the given text of a chunk out of the full-text index.
    FtsDelete { line_start: i64, text: String },
    /// Puts the given text of a chunk into the full-text index.
    FtsInsert { line_start: i64, text: String },
    /// Removes a chunk.
    DeleteRow { line_start: i64 },
    /// Inserts a chunk or replaces its last line and text.
    WriteRow { line_start: i64, line_end: i64, text: String },
}

/// The mathematical counterpart of a [`ChunkOp`].
pub enum Op {
    DropVector(i64),
    FtsDelete(i64, Seq<char>),
    FtsInsert(i64, Seq<char>),
    DeleteRow(i64),
    WriteRow(i64, i64, Seq<char>),
}

impl View for ChunkOp {
    type V = Op;

    open spec fn view(&self) -> Op {
        match self {
            ChunkOp::DropVector { line_start } => Op::DropVector(*line_start),
            ChunkOp::FtsDelete { line_start, text } => Op::FtsDelete(*line_start, text@),
            ChunkOp::FtsInsert { line_start, text } => Op::FtsInsert(*line_start, text@),
            ChunkOp::DeleteRow { line_start } => Op::DeleteRow(*line_start),
            ChunkOp::WriteRow { line_start, line_end, text } => Op::WriteRow(
                *line_start,
                *line_end,
                text@,
            ),
        }
    }
}

/// The statements of a plan.
pub open spec fn ops(plan: Seq<ChunkOp>) -> Seq<Op> {
    plan.map_values(|op: ChunkOp| op@)
}

/// The tables of one document: the chunks, the full-text index and the
/// vectors, each by the first line of the chunk. The index is sound as long as
/// nothing is put in twice and nothing is taken out that is not in it.
pub struct Tables {
    pub rows: Map<i64, (i64, Seq<char>)>,
    pub fts: Map<i64, Seq<char>>,
    pub vectors: Set<i64>,
    pub fts_sound: bool,
}

/// What a statement does to the tables.
pub open spec fn applied(t: Tables, op: Op) -> Tables {
    match op {
        Op::DropVector(k) => Tables { vectors: t.vectors.remove(k), ..t },
        Op::FtsDelete(k, text) => Tables {
            fts: t.fts.remove(k),
            fts_sound: t.fts_sound && t.fts.contains_key(k) && t.fts[k] == text,
            ..t
        },
        Op::FtsInsert(k, text) => Tables {
            fts: t.fts.insert(k, text),
            fts_sound: t.fts_sound && !t.fts.contains_key(k),
            ..t
        },
        Op::DeleteRow(k) => Tables { rows: t.rows.remove(k), ..t },
        Op::WriteRow(k, end, text) => Tables { rows: t.rows.insert(k, (end, text)), ..t },
    }
}

/// What a list of statements does to the tables.
pub open spec fn all_applied(t: Tables, list: Seq<Op>) -> Tables
    decreases list.len(),
{
    if list.len() == 0 {
        t
    } else {
        applied(all_applied(t, list.drop_last()), list.last())
    }
}

/// The index holds exactly the text of each chunk, and only chunks have
/// vectors.
pub open spec fn consistent(t: Tables) -> bool {
    &&& t.fts_sound
    &&& t.fts.dom() == t.rows.dom()
    &&& forall|k: i64| #[trigger] t.rows.contains_key(k) ==> t.fts[k] == t.rows[k].1
    &&& t.vectors.subset_of(t.rows.dom())
}

/// `stored` lists the rows of `t`, each once.
pub open spec fn lists_rows(stored: Seq<(i64, Seq<char>)>, t: Tables) -> bool {
    &&& forall|i: int, j: int|
        0 <= i < j < stored.len() ==> (#[trigger] stored[i]).0 != (#[trigger] stored[j]).0
    &&& forall|i: int|
        0 <= i < stored.len() ==> t.rows.contains_key((#[trigger] stored[i]).0)
            && t.rows[stored[i].0].1 == stored[i].1
    &&& forall|k: i64| #[trigger]
        t.rows.contains_key(k) ==> exists|i: int| 0 <= i < stored.len() && #[trigger] stored[i].0 == k
}

/// The stored chunks, as the contracts speak of them.
pub open spec fn stored_rows(stored: Seq<StoredChunk>) -> Seq<(i64, Seq<char>)> {
    stored.map_values(|s: StoredChunk| (s.line_start, s.text@))
}

/// The name of the row of a chunk that begins on the line `start`.
pub open spec fn key_of(start: usize) -> i64 {
    start as i64
}

/// A chunk with the row `key` is among `chunks`.
pub open spec fn is_live(chunks: Seq<(usize, usize, Seq<char>)>, key: i64) -> bool {
    exists|i: int| 0 <= i < chunks.len() && key_of((#[trigger] chunks[i]).0) == key
}

/// The statements that remove a stored chunk.
pub open spec fn removal(row: (i64, Seq<char>), has_vec: bool) -> Seq<Op> {
    if has_vec {
        seq![Op::DropVector(row.0), Op::FtsDelete(row.0, row.1), Op::DeleteRow(row.0)]
    } else {
        seq![Op::FtsDelete(row.0, row.1), Op::DeleteRow(row.0)]
    }
}

/// The statements that remove the stored chunks that `chunks` do not replace.
pub open spec fn removals(
    stored: Seq<(i64, Seq<char>)>,
    chunks: Seq<(usize, usize, Seq<char>)>,
    has_vec: bool,
) -> Seq<Op>
    decreases stored.len(),
{
    if stored.len() == 0 {
        Seq::empty()
    } else {
        let rest = removals(stored.drop_last(), chunks, has_vec);
        if is_live(chunks, stored.last().0) {
            rest
        } else {
            rest + removal(stored.last(), has_vec)
        }
    }
}

/// The text that the row `key` holds after `chunks` were written: that of the
/// last of them with this row, else the stored one.
pub open spec fn text_before(
    stored: Seq<(i64, Seq<char>)>,
    chunks: Seq<(usize, usize, Seq<char>)>,
    key: i64,
) -> Option<Seq<char>>
    decreases chunks.len(),
{
    if chunks.len() == 0 {
        stored_text(stored, key)
    } else if key_of(chunks.last().0) == key {
        Some(chunks.last().2)
    } else {
        text_before(stored, chunks.drop_last(), key)
    }
}

/// The stored text of the row `key`.
pub open spec fn stored_text(stored: Seq<(i64, Seq<char>)>, key: i64) -> Option<Seq<char>>
    decreases stored.len(),
{
    if stored.len() == 0 {
        None
    } else if stored.last().0 == key {
        Some(stored.last().1)
    } else {
        stored_text(stored.drop_last(), key)
    }
}

/// The statements that write a chunk whose row holds `before`. The index and
/// the vector are touched only where the text changes.
pub open spec fn writing(
    before: Option<Seq<char>>,
    chunk: (usize, usize, Seq<char>),
    has_vec: bool,
) -> Seq<Op> {
    let key = key_of(chunk.0);
    let write = Op::WriteRow(key, chunk.1 as i64, chunk.2);
    match before {
        Some(text) => if text == chunk.2 {
            seq![write]
        } else if has_vec {
            seq![
                write,
                Op::FtsDelete(key, text),
                Op::FtsInsert(key, chunk.2),
                Op::DropVector(key),
            ]
        } else {
            seq![write, Op::FtsDelete(key, text), Op::FtsInsert(key, chunk.2)]
        },
        None => seq![write, Op::FtsInsert(key, chunk.2)],
    }
}

/// The statements that write `chunks` one after the other.
pub open spec fn writings(
    stored: Seq<(i64, Seq<char>)>,
    chunks: Seq<(usize, usize, Seq<char>)>,
    has_vec: bool,
) -> Seq<Op>
    decreases chunks.len(),
{
    if chunks.len() == 0 {
        Seq::empty()
    } else {
        let earlier = chunks.drop_last();
        writings(stored, earlier, has_vec) + writing(
            text_before(stored, earlier, key_of(chunks.last().0)),
            chunks.last(),
            has_vec,
        )
    }
}

/// The plan that replaces the stored chunks of a document by `chunks`.
pub open spec fn upsert_plan(
    stored: Seq<(i64, Seq<char>)>,
    chunks: Seq<(usize, usize, Seq<char>)>,
    has_vec: bool,
) -> Seq<Op> {
    removals(stored, chunks, has_vec) + writings(stored, chunks, has_vec)
}

/// The rows that `chunks` stand for; of several with one row the last one.
pub open spec fn chunk_rows(chunks: Seq<(usize, usize, Seq<char>)>) -> Map<i64, (i64, Seq<char>)>
    decreases chunks.len(),
{
    if chunks.len() == 0 {
        Map::empty()
    } else {
        chunk_rows(chunks.drop_last()).insert(
            key_of(chunks.last().0),
            (chunks.last().1 as i64, chunks.last().2),
        )
    }
}

proof fn lemma_all_applied_concat(t: Tables, a: Seq<Op>, b: Seq<Op>)
    ensures
        all_applied(t, a + b) == all_applied(all_applied(t, a), b),
    decreases b.len(),
{
    if b.len() == 0 {
        assert(a + b =~= a);
    } else {
        lemma_all_applied_concat(t, a, b.drop_last());
        assert((a + b).drop_last() =~= a + b.drop_last());
    }
}

/// Whether a chunk with the row `key` is among `chunks`.
fn live(chunks: &Vec<(usize, usize, String)>, key: i64) -> (r: bool)
    ensures
        r == is_live(cut_chunks(chunks@), key),
{
    let mut i: usize = 0;
    while i < chunks.len()
        invariant
            i <= chunks@.len(),
            forall|k: int| 0 <= k < i ==> key_of((#[trigger] cut_chunks(chunks@)[k]).0) != key,
        decreases chunks@.len() - i,
    {
        if chunks[i].0 as i64 == key {
            proof {
                assert(key_of(cut_chunks(chunks@)[i as int].0) == key);
            }
            return true;
        }
        i += 1;
    }
    false
}

/// The text that the row of `chunks[upto]` holds after the chunks before it
/// were written.
fn previous_text<'a>(
    stored: &'a Vec<StoredChunk>,
    chunks: &'a Vec<(usize, usize, String)>,
    upto: usize,
) -> (r: Option<&'a String>)
    requires
        upto < chunks@.len(),
    ensures
        ({
            let found = text_before(
                stored_rows(stored@),
                cut_chunks(chunks@).take(upto as int),
                key_of(chunks@[upto as int].0),
            );
            match r {
                Some(t) => found == Some(t@),
                None => found is None,
            }
        }),
{
    let key: i64 = chunks[upto].0 as i64;
    let ghost all = cut_chunks(chunks@);
    let ghost rows = stored_rows(stored@);
    let ghost wanted = text_before(rows, all.take(upto as int), key);
    let mut i: usize = upto;
    while i > 0
        invariant
            i <= upto < chunks@.len(),
            all == cut_chunks(chunks@),
            rows == stored_rows(stored@),
            key == key_of(chunks@[upto as int].0),
            wanted == text_before(rows, all.take(upto as int), key),
            wanted == text_before(rows, all.take(i as int), key),
        decreases i,
    {
        proof {
            assert(all.take(i as int).drop_last() =~= all.take(i - 1));
            assert(all.take(i as int).last() == all[i - 1]);
        }
        if chunks[i - 1].0 as i64 == key {
            return Some(&chunks[i - 1].2);
        }
        i -= 1;
    }
    let mut j: usize = stored.len();
    proof {
        assert(all.take(0) =~= Seq::empty());
        assert(rows.take(j as int) =~= rows);
    }
    while j > 0
        invariant
            j <= stored@.len(),
            upto < chunks@.len(),
            rows == stored_rows(stored@),
            key == key_of(chunks@[upto as int].0),
            wanted == text_before(rows, cut_chunks(chunks@).take(upto as int), key),
            wanted == stored_text(rows, key),
            stored_text(rows, key) == stored_text(rows.take(j as int), key),
        decreases j,
    {
        proof {
            assert(rows.take(j as int).drop_last() =~= rows.take(j - 1));
            assert(rows.take(j as int).last() == rows[j - 1]);
        }
        if stored[j - 1].line_start == key {
            return Some(&stored[j - 1].text);
        }
        j -= 1;
    }
    None
}

/// Appends a statement to a plan.
fn push_op(plan: &mut Vec<ChunkOp>, op: ChunkOp)
    ensures
        ops(final(plan)@) == ops(old(plan)@).push(op@),
{
    plan.push(op);
    proof {
        assert(ops(plan@) =~= ops(old(plan)@).push(op@));
    }
}

/// Plans how `chunks` replace the stored chunks of a document. Stored chunks
/// whose first line none of `chunks` has are removed from all tables. Each of
/// `chunks` is written; the full-text index is brought up to date and the
/// vector dropped only where the text is new or has changed.
pub fn upsert_chunks(
    stored: &Vec<StoredChunk>,
    chunks: &Vec<(usize, usize, String)>,
    has_vec: bool,
) -> (plan: Vec<ChunkOp>)
    ensures
        ops(plan@) == upsert_plan(stored_rows(stored@), cut_chunks(chunks@), has_vec),
{
    let ghost rows = stored_rows(stored@);
    let ghost all = cut_chunks(chunks@);
    let mut plan: Vec<ChunkOp> = Vec::new();
    let mut i: usize = 0;
    proof {
        assert(rows.take(0) =~= Seq::empty());
        assert(ops(plan@) =~= removals(rows.take(0), all, has_vec));
    }
    while i < stored.len()
        invariant
            i <= stored@.len(),
            rows == stored_rows(stored@),
            all == cut_chunks(chunks@),
            ops(plan@) == removals(rows.take(i as int), all, has_vec),
        decreases stored@.len() - i,
    {
        let row = &stored[i];
        proof {
            assert(rows.take(i + 1).drop_last() =~= rows.take(i as int));
            assert(rows.take(i + 1).last() == rows[i as int]);
        }
        if !live(chunks, row.line_start) {
            let ghost before = ops(plan@);
            if has_vec {
                push_op(&mut plan, ChunkOp::DropVector { line_start: row.line_start });
            }
            push_op(
                &mut plan,
                ChunkOp::FtsDelete { line_start: row.line_start, text: row.text.clone() },
            );
            push_op(&mut plan, ChunkOp::DeleteRow { line_start: row.line_start });
            proof {
                assert(ops(plan@) =~= before + removal(rows[i as int], has_vec));
            }
        }
        i += 1;
    }
    let ghost first = ops(plan@);
    let mut j: usize = 0;
    proof {
        assert(rows.take(i as int) =~= rows);
        assert(all.take(0) =~= Seq::empty());
        assert(ops(plan@) =~= first + writings(rows, all.take(0), has_vec));
    }
    while j < chunks.len()
        invariant
            j <= chunks@.len(),
            rows == stored_rows(stored@),
            all == cut_chunks(chunks@),
            ops(plan@) == first + writings(rows, all.take(j as int), has_vec),
        decreases chunks@.len() - j,
    {
        let key: i64 = chunks[j].0 as i64;
        let line_end: i64 = chunks[j].1 as i64;
        let text = &chunks[j].2;
        let ghost before = ops(plan@);
        let ghost earlier = all.take(j as int);
        proof {
            assert(all.take(j + 1).drop_last() =~= earlier);
            assert(all.take(j + 1).last() == all[j as int]);
        }
        push_op(&mut plan, ChunkOp::WriteRow { line_start: key, line_end, text: text.clone() });
        match previous_text(stored, chunks, j) {
            Some(old_text) => {
                if !same_text(old_text, text) {
                    push_op(
                        &mut plan,
                        ChunkOp::FtsDelete { line_start: key, text: old_text.clone() },
                    );
                    push_op(&mut plan, ChunkOp::FtsInsert { line_start: key, text: text.clone() });
                    if has_vec {
                        push_op(&mut plan, ChunkOp::DropVector { line_start: key });
                    }
                }
            },
            None => {
                push_op(&mut plan, ChunkOp::FtsInsert { line_start: key, text: text.clone() });
            },
        }
        proof {
            let step = writing(text_before(rows, earlier, key), all[j as int], has_vec);
            assert(ops(plan@) =~= before + step);
            assert(first + writings(rows, earlier, has_vec) + step =~= first + (writings(
                rows,
                earlier,
                has_vec,
            ) + step));
        }
        j += 1;
    }
    proof {
        assert(all.take(j as int) =~= all);
    }
    plan
}

/// `key` is among the stored rows.
pub open spec fn is_stored(stored: Seq<(i64, Seq<char>)>, key: i64) -> bool {
    exists|i: int| 0 <= i < stored.len() && (#[trigger] stored[i]).0 == key
}

/// `stored` are rows of `t`, each once.
spec fn some_rows(stored: Seq<(i64, Seq<char>)>, t: Tables) -> bool {
    &&& forall|i: int, j: int|
        0 <= i < j < stored.len() ==> (#[trigger] stored[i]).0 != (#[trigger] stored[j]).0
    &&& forall|i: int|
        0 <= i < stored.len() ==> t.rows.contains_key((#[trigger] stored[i]).0)
            && t.rows[stored[i].0].1 == stored[i].1
}

/// What the removals leave: the rows that are not stale, as they were.
proof fn lemma_removals(
    t: Tables,
    stored: Seq<(i64, Seq<char>)>,
    chunks: Seq<(usize, usize, Seq<char>)>,
    has_vec: bool,
)
    requires
        consistent(t),
        some_rows(stored, t),
        !has_vec ==> t.vectors == Set::<i64>::empty(),
    ensures
        ({
            let u = all_applied(t, removals(stored, chunks, has_vec));
            &&& consistent(u)
            &&& forall|k: i64| #[trigger]
                u.rows.contains_key(k) <==> t.rows.contains_key(k) && (is_live(chunks, k)
                    || !is_stored(stored, k))
            &&& forall|k: i64| #[trigger] u.rows.contains_key(k) ==> u.rows[k] == t.rows[k]
            &&& forall|k: i64| #[trigger]
                u.vectors.contains(k) <==> t.vectors.contains(k) && u.rows.contains_key(k)
        }),
    decreases stored.len(),
{
    if stored.len() > 0 {
        let rest = stored.drop_last();
        assert(some_rows(rest, t)) by {
            assert forall|i: int| 0 <= i < rest.len() implies t.rows.contains_key(
                (#[trigger] rest[i]).0,
            ) && t.rows[rest[i].0].1 == rest[i].1 by {
                assert(rest[i] == stored[i]);
            }
            assert forall|i: int, j: int| 0 <= i < j < rest.len() implies (#[trigger] rest[i]).0 != (
            #[trigger] rest[j]).0 by {
                assert(rest[i] == stored[i] && rest[j] == stored[j]);
            }
        }
        lemma_removals(t, rest, chunks, has_vec);
        let earlier = removals(rest, chunks, has_vec);
        let u = all_applied(t, earlier);
        let row = stored.last();
        assert(stored[stored.len() - 1] == row);
        assert forall|k: i64| #[trigger] is_stored(stored, k) <==> is_stored(rest, k) || k == row.0 by {
            if is_stored(rest, k) {
                let i = choose|i: int| 0 <= i < rest.len() && (#[trigger] rest[i]).0 == k;
                assert(stored[i].0 == k);
            }
            if is_stored(stored, k) && k != row.0 {
                let i = choose|i: int| 0 <= i < stored.len() && (#[trigger] stored[i]).0 == k;
                assert(rest[i].0 == k);
            }
        }
        if !is_live(chunks, row.0) {
            let ops = removal(row, has_vec);
            lemma_all_applied_concat(t, earlier, ops);
            assert(!is_stored(rest, row.0)) by {
                if is_stored(rest, row.0) {
                    let i = choose|i: int| 0 <= i < rest.len() && (#[trigger] rest[i]).0 == row.0;
                    assert(stored[i].0 == row.0);
                }
            }
            assert(u.rows.contains_key(row.0));
            let v = all_applied(u, ops);
            assert(v == Tables {
                rows: u.rows.remove(row.0),
                fts: u.fts.remove(row.0),
                vectors: if has_vec {
                    u.vectors.remove(row.0)
                } else {
                    u.vectors
                },
                fts_sound: true,
            }) by {
                reveal_with_fuel(all_applied, 4);
                if has_vec {
                    assert(ops.drop_last() =~= seq![
                        Op::DropVector(row.0),
                        Op::FtsDelete(row.0, row.1),
                    ]);
                    assert(ops.drop_last().drop_last() =~= seq![Op::DropVector(row.0)]);
                    assert(ops.drop_last().drop_last().drop_last() =~= Seq::empty());
                } else {
                    assert(ops.drop_last() =~= seq![Op::FtsDelete(row.0, row.1)]);
                    assert(ops.drop_last().drop_last() =~= Seq::empty());
                }
            }
            assert(v.fts.dom() =~= v.rows.dom());
        }
    }
}

/// No two of `chunks` share a row.
pub open spec fn distinct_rows(chunks: Seq<(usize, usize, Seq<char>)>) -> bool {
    forall|i: int, j: int|
        0 <= i < j < chunks.len() ==> key_of((#[trigger] chunks[i]).0) != key_of(
            (#[trigger] chunks[j]).0,
        )
}

/// The rows are those of the chunks.
pub proof fn lemma_chunk_rows(chunks: Seq<(usize, usize, Seq<char>)>)
    ensures
        forall|k: i64| #[trigger] chunk_rows(chunks).contains_key(k) <==> is_live(chunks, k),
    decreases chunks.len(),
{
    if chunks.len() > 0 {
        let rest = chunks.drop_last();
        lemma_chunk_rows(rest);
        assert(chunks[chunks.len() - 1] == chunks.last());
        assert forall|k: i64| #[trigger] chunk_rows(chunks).contains_key(k) <==> is_live(chunks, k) by {
            if is_live(rest, k) {
                let i = choose|i: int| 0 <= i < rest.len() && key_of((#[trigger] rest[i]).0) == k;
                assert(key_of(chunks[i].0) == k);
            }
            if is_live(chunks, k) && k != key_of(chunks.last().0) {
                let i = choose|i: int| 0 <= i < chunks.len() && key_of((#[trigger] chunks[i]).0) == k;
                assert(key_of(rest[i].0) == k);
            }
            assert(chunk_rows(rest).contains_key(k) <==> is_live(rest, k));
        }
    }
}

/// Where no two chunks share a row, each row holds its chunk.
pub proof fn lemma_chunk_row(chunks: Seq<(usize, usize, Seq<char>)>, i: int)
    requires
        distinct_rows(chunks),
        0 <= i < chunks.len(),
    ensures
        chunk_rows(chunks)[key_of(chunks[i].0)] == (chunks[i].1 as i64, chunks[i].2),
    decreases chunks.len(),
{
    if i < chunks.len() - 1 {
        let rest = chunks.drop_last();
        assert forall|a: int, b: int| 0 <= a < b < rest.len() implies key_of(
            (#[trigger] rest[a]).0,
        ) != key_of((#[trigger] rest[b]).0) by {
            assert(rest[a] == chunks[a] && rest[b] == chunks[b]);
        }
        lemma_chunk_row(rest, i);
        assert(key_of(chunks[i].0) != key_of(chunks[chunks.len() - 1].0));
    }
}

/// What the writing of one chunk does.
proof fn lemma_writing(
    v: Tables,
    before: Option<Seq<char>>,
    chunk: (usize, usize, Seq<char>),
    has_vec: bool,
)
    requires
        v.fts_sound,
        match before {
            Some(text) => v.fts.contains_key(key_of(chunk.0)) && v.fts[key_of(chunk.0)] == text,
            None => !v.fts.contains_key(key_of(chunk.0)),
        },
    ensures
        ({
            let w = all_applied(v, writing(before, chunk, has_vec));
            let key = key_of(chunk.0);
            &&& w.rows == v.rows.insert(key, (chunk.1 as i64, chunk.2))
            &&& w.fts == v.fts.insert(key, chunk.2)
            &&& w.fts_sound
            &&& w.vectors == (if has_vec && before is Some && before->0 != chunk.2 {
                v.vectors.remove(key)
            } else {
                v.vectors
            })
        }),
{
    let ops = writing(before, chunk, has_vec);
    let key = key_of(chunk.0);
    let write = Op::WriteRow(key, chunk.1 as i64, chunk.2);
    let w = all_applied(v, ops);
    reveal_with_fuel(all_applied, 5);
    if before == Some(chunk.2) {
        assert(ops.drop_last() =~= Seq::empty());
        assert(v.fts =~= v.fts.insert(key, chunk.2));
    } else if before is Some {
        let del = Op::FtsDelete(key, before->0);
        let ins = Op::FtsInsert(key, chunk.2);
        if has_vec {
            assert(ops.drop_last() =~= seq![write, del, ins]);
            assert(ops.drop_last().drop_last() =~= seq![write, del]);
            assert(ops.drop_last().drop_last().drop_last() =~= seq![write]);
            assert(ops.drop_last().drop_last().drop_last().drop_last() =~= Seq::empty());
        } else {
            assert(ops.drop_last() =~= seq![write, del]);
            assert(ops.drop_last().drop_last() =~= seq![write]);
            assert(ops.drop_last().drop_last().drop_last() =~= Seq::empty());
        }
        assert(v.fts.remove(key).insert(key, chunk.2) =~= v.fts.insert(key, chunk.2));
    } else {
        assert(ops.drop_last() =~= seq![write]);
        assert(ops.drop_last().drop_last() =~= Seq::empty());
    }
}

/// What the writings leave: the chunks written, over the rows that were there.
proof fn lemma_writings(
    u: Tables,
    stored: Seq<(i64, Seq<char>)>,
    chunks: Seq<(usize, usize, Seq<char>)>,
    live: Set<i64>,
    has_vec: bool,
)
    requires
        consistent(u),
        !has_vec ==> u.vectors == Set::<i64>::empty(),
        forall|i: int| 0 <= i < chunks.len() ==> live.contains(key_of((#[trigger] chunks[i]).0)),
        forall|k: i64| #[trigger]
            live.contains(k) ==> stored_text(stored, k) == (if u.rows.contains_key(k) {
                Some(u.rows[k].1)
            } else {
                None
            }),
    ensures
        ({
            let v = all_applied(u, writings(stored, chunks, has_vec));
            let new_rows = chunk_rows(chunks);
            &&& consistent(v)
            &&& v.rows == u.rows.union_prefer_right(new_rows)
            &&& forall|k: i64| #[trigger]
                live.contains(k) ==> text_before(stored, chunks, k) == (if v.rows.contains_key(k) {
                    Some(v.rows[k].1)
                } else {
                    None
                })
            &&& forall|k: i64| #[trigger]
                v.vectors.contains(k) ==> u.vectors.contains(k) && v.rows[k].1 == u.rows[k].1
            &&& distinct_rows(chunks) ==> forall|k: i64| #[trigger]
                u.vectors.contains(k) && (new_rows.contains_key(k) ==> new_rows[k].1 == u.rows[k].1)
                    ==> v.vectors.contains(k)
        }),
    decreases chunks.len(),
{
    if chunks.len() == 0 {
        assert(u.rows.union_prefer_right(chunk_rows(chunks)) =~= u.rows);
    } else {
        let rest = chunks.drop_last();
        let chunk = chunks.last();
        let key = key_of(chunk.0);
        assert(chunks[chunks.len() - 1] == chunk);
        assert forall|i: int| 0 <= i < rest.len() implies live.contains(
            key_of((#[trigger] rest[i]).0),
        ) by {
            assert(rest[i] == chunks[i]);
        }
        lemma_writings(u, stored, rest, live, has_vec);
        let v = all_applied(u, writings(stored, rest, has_vec));
        let before = text_before(stored, rest, key);
        let ops = writing(before, chunk, has_vec);
        lemma_all_applied_concat(u, writings(stored, rest, has_vec), ops);
        let w = all_applied(v, ops);
        let value = (chunk.1 as i64, chunk.2);
        assert(live.contains(key));
        lemma_writing(v, before, chunk, has_vec);
        assert(w.fts.dom() =~= w.rows.dom());
        assert(w.rows =~= u.rows.union_prefer_right(chunk_rows(chunks)));
        assert(consistent(w));
        if distinct_rows(chunks) {
            assert forall|i: int, j: int| 0 <= i < j < rest.len() implies key_of(
                (#[trigger] rest[i]).0,
            ) != key_of((#[trigger] rest[j]).0) by {
                assert(rest[i] == chunks[i] && rest[j] == chunks[j]);
            }
            lemma_chunk_rows(rest);
            assert(!chunk_rows(rest).contains_key(key)) by {
                if is_live(rest, key) {
                    let i = choose|i: int| 0 <= i < rest.len() && key_of((#[trigger] rest[i]).0) == key;
                    assert(key_of(chunks[i].0) == key);
                }
            }
            let new_rows = chunk_rows(chunks);
            assert forall|k: i64| #[trigger]
                u.vectors.contains(k) && (new_rows.contains_key(k) ==> new_rows[k].1 == u.rows[k].1) implies w.vectors.contains(
            k) by {
                if k == key {
                    assert(u.rows.contains_key(k));
                    assert(v.rows[k] == u.rows[k]);
                } else {
                    assert(chunk_rows(rest).contains_key(k) ==> new_rows[k] == chunk_rows(rest)[k]);
                }
            }
        }
    }
}

/// The plan does what it is for. Afterwards the database holds exactly the
/// given chunks, the full-text index holds exactly their text, and a chunk has
/// a vector only if it had one before and its text is the same. A chunk whose
/// text is the same keeps its vector, as long as no two chunks begin on one
/// line.
pub proof fn upsert_replaces_chunks(
    t: Tables,
    stored: Seq<(i64, Seq<char>)>,
    chunks: Seq<(usize, usize, Seq<char>)>,
    has_vec: bool,
)
    requires
        consistent(t),
        lists_rows(stored, t),
        !has_vec ==> t.vectors == Set::<i64>::empty(),
    ensures
        ({
            let u = all_applied(t, upsert_plan(stored, chunks, has_vec));
            &&& consistent(u)
            &&& u.rows == chunk_rows(chunks)
            &&& forall|k: i64| #[trigger]
                u.vectors.contains(k) ==> t.vectors.contains(k) && t.rows[k].1 == u.rows[k].1
            &&& distinct_rows(chunks) ==> forall|k: i64| #[trigger]
                t.vectors.contains(k) && u.rows.contains_key(k) && u.rows[k].1 == t.rows[k].1
                    ==> u.vectors.contains(k)
        }),
{
    lemma_removals(t, stored, chunks, has_vec);
    let u = all_applied(t, removals(stored, chunks, has_vec));
    lemma_all_applied_concat(
        t,
        removals(stored, chunks, has_vec),
        writings(stored, chunks, has_vec),
    );
    let live = Set::new(|k: i64| is_live(chunks, k));
    assert forall|k: i64| #[trigger] live.contains(k) implies stored_text(stored, k) == (
    if u.rows.contains_key(k) {
        Some(u.rows[k].1)
    } else {
        None
    }) by {
        lemma_stored_text(stored, t, k);
    }
    assert forall|i: int| 0 <= i < chunks.len() implies live.contains(
        key_of((#[trigger] chunks[i]).0),
    ) by {
        assert(is_live(chunks, key_of(chunks[i].0)));
    }
    if !has_vec {
        assert(u.vectors =~= Set::<i64>::empty());
    }
    lemma_writings(u, stored, chunks, live, has_vec);
    lemma_chunk_rows(chunks);
    let w = all_applied(t, upsert_plan(stored, chunks, has_vec));
    assert(u.rows.union_prefer_right(chunk_rows(chunks)) =~= chunk_rows(chunks)) by {
        assert forall|k: i64| #[trigger] u.rows.contains_key(k) implies chunk_rows(chunks).contains_key(
            k,
        ) by {
            assert(t.rows.contains_key(k));
            let i = choose|i: int| 0 <= i < stored.len() && #[trigger] stored[i].0 == k;
            assert(is_stored(stored, k));
        }
    }
    if distinct_rows(chunks) {
        assert forall|k: i64| #[trigger]
            t.vectors.contains(k) && w.rows.contains_key(k) && w.rows[k].1 == t.rows[k].1 implies w.vectors.contains(
        k) by {
            assert(t.rows.contains_key(k));
            assert(is_live(chunks, k));
            assert(u.rows.contains_key(k));
            assert(u.vectors.contains(k));
        }
    }
}

proof fn lemma_stored_text(stored: Seq<(i64, Seq<char>)>, t: Tables, k: i64)
    requires
        some_rows(stored, t),
    ensures
        is_stored(stored, k) ==> stored_text(stored, k) == Some(t.rows[k].1),
        !is_stored(stored, k) ==> stored_text(stored, k) is None,
    decreases stored.len(),
{
    if stored.len() > 0 {
        let rest = stored.drop_last();
        assert(stored[stored.len() - 1] == stored.last());
        assert(some_rows(rest, t)) by {
            assert forall|i: int| 0 <= i < rest.len() implies t.rows.contains_key(
                (#[trigger] rest[i]).0,
            ) && t.rows[rest[i].0].1 == rest[i].1 by {
                assert(rest[i] == stored[i]);
            }
            assert forall|i: int, j: int| 0 <= i < j < rest.len() implies (#[trigger] rest[i]).0 != (
            #[trigger] rest[j]).0 by {
                assert(rest[i] == stored[i] && rest[j] == stored[j]);
            }
        }
        lemma_stored_text(rest, t, k);
        if is_stored(rest, k) {
            let i = choose|i: int| 0 <= i < rest.len() && (#[trigger] rest[i]).0 == k;
            assert(stored[i].0 == k);
        }
        if is_stored(stored, k) && k != stored.last().0 {
            let i = choose|i: int| 0 <= i < stored.len() && (#[trigger] stored[i]).0 == k;
            assert(rest[i].0 == k);
        }
    }
}

/// Plans the removal of a document: its chunks leave all tables.
pub fn remove_document(stored: &Vec<StoredChunk>, has_vec: bool) -> (plan: Vec<ChunkOp>)
    ensures
        ops(plan@) == upsert_plan(stored_rows(stored@), Seq::empty(), has_vec),
{
    let none: Vec<(usize, usize, String)> = Vec::new();
    proof {
        assert(cut_chunks(none@) =~= Seq::empty());
    }
    upsert_chunks(stored, &none, has_vec)
}

/// After the removal of a document nothing of it is left.
pub proof fn removal_leaves_nothing(t: Tables, stored: Seq<(i64, Seq<char>)>, has_vec: bool)
    requires
        consistent(t),
        lists_rows(stored, t),
        !has_vec ==> t.vectors == Set::<i64>::empty(),
    ensures
        ({
            let u = all_applied(t, upsert_plan(stored, Seq::empty(), has_vec));
            &&& u.rows == Map::<i64, (i64, Seq<char>)>::empty()
            &&& u.fts == Map::<i64, Seq<char>>::empty()
            &&& u.vectors == Set::<i64>::empty()
            &&& u.fts_sound
        }),
{
    upsert_replaces_chunks(t, stored, Seq::empty(), has_vec);
    let u = all_applied(t, upsert_plan(stored, Seq::empty(), has_vec));
    assert(u.fts =~= Map::empty());
    assert(u.vectors =~= Set::empty());
}

/// The version of the tables, kept in the database.
pub const SCHEMA_VERSION: i32 = 4;

/// The name of a database file, which holds the version of its tables.
pub open spec fn db_file_name() -> Seq<char> {
    "retrieve_v"@ + signed_decimal(SCHEMA_VERSION as int) + ".db"@
}

/// A SQLite index: where it lies, and the dimension of its vectors where it
/// has any.
#[derive(Debug, Clone)]
pub struct SqliteStore {
    db_path: FsPath,
    dim: Option<u32>,
}

impl SqliteStore {
    /// Where the database lies.
    pub closed spec fn path(&self) -> PathModel {
        self.db_path@
    }

    /// The dimension of the vectors.
    pub closed spec fn vector_dim(&self) -> Option<u32> {
        self.dim
    }

    /// An index for full-text search alone.
    pub fn new_fts_only(db_path: FsPath) -> (r: SqliteStore)
        ensures
            r.path() == db_path@,
            r.vector_dim() is None,
    {
        SqliteStore { db_path, dim: None }
    }

    /// An index for full-text search and vectors.
    pub fn new_with_vec(db_path: FsPath, embedding_dim: u32) -> (r: SqliteStore)
        ensures
            r.path() == db_path@,
            r.vector_dim() == Some(embedding_dim),
    {
        SqliteStore { db_path, dim: Some(embedding_dim) }
    }

    /// Where the database lies.
    pub fn db_path(&self) -> (r: &FsPath)
        ensures
            r@ == self.path(),
    {
        &self.db_path
    }

    /// The dimension of the vectors.
    pub fn dim(&self) -> (r: Option<u32>)
        ensures
            r == self.vector_dim(),
    {
        self.dim
    }

    /// Statistics of the index, from the number of chunks and of vectors. An
    /// index without vectors has none and waits for none.
    pub fn vec_info(&self, chunk_count: u64, vector_count: u64) -> (r: VecInfo)
        ensures
            r == (match self.vector_dim() {
                None => VecInfo { embedding_dim: 0, vector_count: 0, pending_count: 0 },
                Some(dim) => VecInfo {
                    embedding_dim: dim,
                    vector_count,
                    pending_count: if chunk_count > vector_count {
                        (chunk_count - vector_count) as u64
                    } else {
                        0
                    },
                },
            }),
    {
        match self.dim {
            None => VecInfo { embedding_dim: 0, vector_count: 0, pending_count: 0 },
            Some(dim) => VecInfo {
                embedding_dim: dim,
                vector_count,
                pending_count: if chunk_count > vector_count {
                    chunk_count - vector_count
                } else {
                    0
                },
            },
        }
    }
}

/// What to do with a database once its version is known.
#[derive(Debug, Clone, Copy, PartialEq, Eq, Structural)]
pub enum SchemaStep {
    /// It is new: create the tables and set the version.
    Create,
    /// It has the tables already.
    Use,
}

/// The tables of a database of this version are older than the present ones.
/// The version 0 is that of a database without tables.
pub open spec fn is_outdated(db_version: i32) -> bool {
    db_version != 0 && db_version < SCHEMA_VERSION
}

/// What to do with an open database of this version; nothing if it has to be
/// refused.
pub open spec fn step_for(db_version: i32) -> Option<SchemaStep> {
    if db_version == 0 {
        Some(SchemaStep::Create)
    } else if db_version == SCHEMA_VERSION {
        Some(SchemaStep::Use)
    } else {
        None
    }
}

/// Whatever the version of a database was: after an outdated one was wiped,
/// which leaves the version 0, the present tables are used where they are
/// there and created where they are not, and only a database of a later
/// version is refused.
pub proof fn only_later_versions_are_refused(db_version: i32)
    ensures
        ({
            let step = step_for(
                if is_outdated(db_version) {
                    0
                } else {
                    db_version
                },
            );
            &&& step is None <==> db_version > SCHEMA_VERSION
            &&& step == Some(SchemaStep::Use) <==> db_version == SCHEMA_VERSION
            &&& step == Some(SchemaStep::Create) <==> db_version < SCHEMA_VERSION
        }),
{
}

/// Whether a database of the given version has to be wiped before it is
/// opened: its tables are older than the present ones.
pub fn needs_wipe(db_version: i32) -> (r: bool)
    ensures
        r == is_outdated(db_version),
{
    db_version != 0 && db_version < SCHEMA_VERSION
}

/// What to do with an open database of the given version.
pub fn schema_step(db_version: i32) -> (r: Result<SchemaStep, Error>)
    ensures
        match step_for(db_version) {
            Some(step) => r == Ok::<SchemaStep, Error>(step),
            None => r == Err::<SchemaStep, Error>(
                (Error::SchemaTooNew { db_version, app_version: SCHEMA_VERSION }),
            ),
        },
{
    if db_version == 0 {
        Ok(SchemaStep::Create)
    } else if db_version == SCHEMA_VERSION {
        Ok(SchemaStep::Use)
    } else {
        Err(Error::SchemaTooNew { db_version, app_version: SCHEMA_VERSION })
    }
}

/// The files that make up a database: itself, its log and its shared memory.
pub fn wipe_db_files(db_path: &FsPath) -> (r: Vec<FsPath>)
    ensures
        views(r@) == seq![db_path@, db_path@.suffixed("-wal"@), db_path@.suffixed("-shm"@)],
{
    let r = vec![db_path.copy(), db_path.with_suffix("-wal"), db_path.with_suffix("-shm")];
    proof {
        assert(views(r@) =~= seq![
            db_path@,
            db_path@.suffixed("-wal"@),
            db_path@.suffixed("-shm"@),
        ]);
    }
    r
}

/// What to do with the table of vectors.
#[derive(Debug, Clone, Copy, PartialEq, Eq, Structural)]
pub enum VecTableStep {
    /// No dimension is recorded: create the table and record the dimension.
    Create,
    /// The recorded dimension is the one asked for: create the table if it is
    /// missing.
    Keep,
    /// The recorded dimension is another one: drop the table, create it anew
    /// and record the dimension. All vectors are lost.
    Recreate { old_dim: u32 },
}

/// What to do with the table of vectors, from the recorded dimension. A record
/// that is no number counts as none.
pub fn ensure_vec_tables(recorded: Option<&str>, dim: u32) -> (r: VecTableStep)
    ensures
        r == (match recorded {
            None => VecTableStep::Create,
            Some(text) => match read_unsigned(text@, u32::MAX as nat) {
                None => VecTableStep::Create,
                Some(n) => if n == dim {
                    VecTableStep::Keep
                } else {
                    VecTableStep::Recreate { old_dim: n as u32 }
                },
            },
        }),
{
    match recorded {
        None => VecTableStep::Create,
        Some(text) => match parse_u32(text) {
            None => VecTableStep::Create,
            Some(n) => if n == dim {
                VecTableStep::Keep
            } else {
                VecTableStep::Recreate { old_dim: n }
            },
        },
    }
}

/// A dimension that was recorded is read back: a database whose vectors have
/// the dimension that is asked for keeps them.
pub proof fn recorded_dim_is_kept(dim: u32)
    ensures
        read_unsigned(decimal(dim as nat), u32::MAX as nat) == Some(dim as nat),
{
    lemma_decimal_read(dim as nat);
}

/// The statement that creates the table of vectors of the given dimension.
pub fn create_vec_table_sql(dim: u32, if_not_exists: bool) -> (r: String)
    ensures
        r@ == (if if_not_exists {
            "CREATE VIRTUAL TABLE IF NOT EXISTS "@
        } else {
            "CREATE VIRTUAL TABLE "@
        }) + "chunk_vectors USING vec0(chunk_id INTEGER PRIMARY KEY, embedding FLOAT["@ + decimal(
            dim as nat,
        ) + "])"@,
{
    let mut r = if if_not_exists {
        "CREATE VIRTUAL TABLE IF NOT EXISTS ".to_owned()
    } else {
        "CREATE VIRTUAL TABLE ".to_owned()
    };
    r.append("chunk_vectors USING vec0(chunk_id INTEGER PRIMARY KEY, embedding FLOAT[");
    push_decimal(&mut r, dim as u64);
    r.append("])");
    r
}

/// How many chunks to ask for where `limit` files are wanted, so that grouping
/// and filtering leave enough.
pub fn over_fetch(limit: usize) -> (r: i64)
    requires
        limit * 5 <= usize::MAX,
    ensures
        r == (limit * 5) as i64,
{
    (limit * 5) as i64
}

/// The result of a full-text search that found `rows`: those under the prefix,
/// grouped by file.
pub fn search_fts(rows: Vec<ChunkRow>, prefix: Option<&str>, limit: usize) -> (r: Vec<
    FileSearchResult,
>)
    requires
        scores_are_numbers(views(rows@)),
    ensures
        views(r@) == search_result(rows_under(views(rows@), prefix), limit as nat),
{
    group_under_prefix(rows, prefix, limit)
}

/// The result of a vector search that found `rows`: those under the prefix,
/// grouped by file.
pub fn search_similar(rows: Vec<ChunkRow>, prefix: Option<&str>, limit: usize) -> (r: Vec<
    FileSearchResult,
>)
    requires
        scores_are_numbers(views(rows@)),
    ensures
        views(r@) == search_result(rows_under(views(rows@), prefix), limit as nat),
{
    group_under_prefix(rows, prefix, limit)
}

/// The chunk that a document identifier and a first line name has a vector.
pub open spec fn has_vector(embedded: Seq<(i64, usize)>, chunk: Chunk) -> bool {
    embedded.contains((chunk.doc_id, chunk.line_start))
}

/// Whether a key is in a list.
pub fn contains_key(keys: &Vec<(i64, usize)>, doc_id: i64, line: usize) -> (r: bool)
    ensures
        r == keys@.contains((doc_id, line)),
{
    let mut i: usize = 0;
    while i < keys.len()
        invariant
            i <= keys@.len(),
            forall|k: int| 0 <= k < i ==> #[trigger] keys@[k] != (doc_id, line),
        decreases keys@.len() - i,
    {
        if keys[i].0 == doc_id && keys[i].1 == line {
            proof {
                assert(keys@[i as int] == (doc_id, line));
            }
            return true;
        }
        i += 1;
    }
    false
}

/// The chunks that wait for a vector, in their order.
pub fn collect_pending_chunks(chunks: Vec<Chunk>, embedded: &Vec<(i64, usize)>) -> (r: Vec<Chunk>)
    ensures
        r@ == chunks@.filter(|c: Chunk| !has_vector(embedded@, c)),
{
    let ghost all = chunks@;
    let ghost keep = |c: Chunk| !has_vector(embedded@, c);
    let mut r: Vec<Chunk> = Vec::new();
    proof {
        reveal(Seq::filter);
        assert(r@ =~= all.take(0).filter(keep));
    }
    for chunk in it: chunks
        invariant
            it.seq() == all,
            keep == (|c: Chunk| !has_vector(embedded@, c)),
            r@ == all.take(it.index() as int).filter(keep),
    {
        proof {
            reveal(Seq::filter);
            let k = it.index() as int;
            assert(all.take(k + 1).drop_last() =~= all.take(k));
            assert(all.take(k + 1).last() == chunk);
        }
        if !contains_key(embedded, chunk.doc_id, chunk.line_start) {
            r.push(chunk);
        }
    }
    proof {
        assert(all.take(all.len() as int) =~= all);
    }
    r
}

/// Chunks that the caller has cut are stored as they are; else the paragraphs
/// of the body are, each under its number.
pub proof fn chunks_of_the_caller_are_stored(doc: Document)
    ensures
        doc.chunks is Some ==> stored_chunks(doc) == doc.chunks->0@.map_values(
            |c: (usize, usize, String)| (c.0, c.1, c.2@),
        ),
        doc.chunks is None ==> {
            let paragraphs = paragraph_chunks(doc.body@, 0);
            &&& stored_chunks(doc).len() == paragraphs.len()
            &&& forall|i: int|
                0 <= i < paragraphs.len() <= usize::MAX ==> (#[trigger] stored_chunks(doc)[i]).0
                    == i && stored_chunks(doc)[i].1 == i && stored_chunks(doc)[i].2
                    == paragraphs[i].text
        },
{
    if let Some(chunks) = doc.chunks {
        assert(stored_chunks(doc) =~= chunks@.map_values(
            |c: (usize, usize, String)| (c.0, c.1, c.2@),
        ));
    }
}

/// After a document was stored, its rows are the given chunks and no others,
/// each under its first line with its last line and its text, and the full-text
/// index finds each of them by that text.
pub proof fn stored_chunks_can_be_found(
    t: Tables,
    stored: Seq<(i64, Seq<char>)>,
    chunks: Seq<(usize, usize, Seq<char>)>,
    has_vec: bool,
)
    requires
        consistent(t),
        lists_rows(stored, t),
        !has_vec ==> t.vectors == Set::<i64>::empty(),
        forall|i: int, j: int|
            0 <= i < j < chunks.len() ==> (#[trigger] chunks[i]).0 as i64 != (
            #[trigger] chunks[j]).0 as i64,
    ensures
        ({
            let u = all_applied(t, upsert_plan(stored, chunks, has_vec));
            &&& forall|i: int|
                0 <= i < chunks.len() ==> {
                    let c = #[trigger] chunks[i];
                    let k = c.0 as i64;
                    &&& u.rows.contains_key(k) && u.rows[k] == (c.1 as i64, c.2)
                    &&& u.fts.contains_key(k) && u.fts[k] == c.2
                }
            &&& forall|k: i64|
                #![trigger u.rows.contains_key(k)]
                #![trigger u.fts.contains_key(k)]
                u.rows.contains_key(k) || u.fts.contains_key(k) ==> exists|i: int|
                    0 <= i < chunks.len() && (#[trigger] chunks[i]).0 as i64 == k
            &&& u.fts_sound
        }),
{
    upsert_replaces_chunks(t, stored, chunks, has_vec);
    lemma_chunk_rows(chunks);
    let u = all_applied(t, upsert_plan(stored, chunks, has_vec));
    assert(distinct_rows(chunks));
    assert forall|i: int| 0 <= i < chunks.len() implies {
        let c = #[trigger] chunks[i];
        let k = c.0 as i64;
        &&& u.rows.contains_key(k) && u.rows[k] == (c.1 as i64, c.2)
        &&& u.fts.contains_key(k) && u.fts[k] == c.2
    } by {
        lemma_chunk_row(chunks, i);
        assert(is_live(chunks, key_of(chunks[i].0)));
        assert(u.rows.contains_key(key_of(chunks[i].0)));
        assert(u.fts.dom().contains(key_of(chunks[i].0)));
    }
    assert forall|k: i64|
        #![trigger u.rows.contains_key(k)]
        #![trigger u.fts.contains_key(k)]
        u.rows.contains_key(k) || u.fts.contains_key(k) implies exists|i: int|
        0 <= i < chunks.len() && (#[trigger] chunks[i]).0 as i64 == k by {
        assert(u.fts.dom().contains(k) == u.rows.dom().contains(k));
        assert(is_live(chunks, k));
        let i = choose|i: int| 0 <= i < chunks.len() && key_of((#[trigger] chunks[i]).0) == k;
        assert(chunks[i].0 as i64 == k);
    }
}

/// A chunk keeps its vector over the storing of its document exactly if its
/// text stays the same.
pub proof fn vectors_go_with_their_text(
    t: Tables,
    stored: Seq<(i64, Seq<char>)>,
    chunks: Seq<(usize, usize, Seq<char>)>,
    i: int,
)
    requires
        consistent(t),
        lists_rows(stored, t),
        forall|i: int, j: int|
            0 <= i < j < chunks.len() ==> (#[trigger] chunks[i]).0 as i64 != (
            #[trigger] chunks[j]).0 as i64,
        0 <= i < chunks.len(),
    ensures
        ({
            let u = all_applied(t, upsert_plan(stored, chunks, true));
            let k = chunks[i].0 as i64;
            u.vectors.contains(k) <==> t.vectors.contains(k) && t.rows.contains_key(k) && t.rows[k].1
                == chunks[i].2
        }),
{
    upsert_replaces_chunks(t, stored, chunks, true);
    stored_chunks_can_be_found(t, stored, chunks, true);
    assert(distinct_rows(chunks));
    let u = all_applied(t, upsert_plan(stored, chunks, true));
    let k = chunks[i].0 as i64;
    assert(u.rows.contains_key(k));
}

/// Storing the chunks that are stored already changes nothing.
pub proof fn storing_twice_changes_nothing(
    t: Tables,
    stored: Seq<(i64, Seq<char>)>,
    chunks: Seq<(usize, usize, Seq<char>)>,
    has_vec: bool,
)
    requires
        consistent(t),
        lists_rows(stored, t),
        !has_vec ==> t.vectors == Set::<i64>::empty(),
        t.rows == chunk_rows(chunks),
        distinct_rows(chunks),
    ensures
        all_applied(t, upsert_plan(stored, chunks, has_vec)) == t,
{
    upsert_replaces_chunks(t, stored, chunks, has_vec);
    let u = all_applied(t, upsert_plan(stored, chunks, has_vec));
    assert(u.fts =~= t.fts) by {
        assert forall|k: i64| #[trigger] u.fts.contains_key(k) implies u.fts[k] == t.fts[k] by {
            assert(u.rows.contains_key(k));
            assert(t.rows.contains_key(k));
        }
    }
    assert(u.vectors =~= t.vectors) by {
        assert forall|k: i64| u.vectors.contains(k) <==> #[trigger] t.vectors.contains(k) by {
            if t.vectors.contains(k) {
                assert(t.rows.contains_key(k));
            }
        }
    }
}

/// Each statement touches one row of one table.
pub proof fn statements_touch_one_row(t: Tables, op: Op, k: i64)
    ensures
        ({
            let u = applied(t, op);
            let row = match op {
                Op::DropVector(k) => k,
                Op::FtsDelete(k, _) => k,
                Op::FtsInsert(k, _) => k,
                Op::DeleteRow(k) => k,
                Op::WriteRow(k, _, _) => k,
            };
            &&& k != row ==> (u.rows.contains_key(k) == t.rows.contains_key(k)) && u.rows[k]
                == t.rows[k] && (u.fts.contains_key(k) == t.fts.contains_key(k)) && u.fts[k]
                == t.fts[k] && (u.vectors.contains(k) == t.vectors.contains(k))
            &&& !(op is WriteRow || op is DeleteRow) ==> u.rows == t.rows
            &&& !(op is FtsInsert || op is FtsDelete) ==> u.fts == t.fts && u.fts_sound
                == t.fts_sound
            &&& !(op is DropVector) ==> u.vectors == t.vectors
            &&& op is DropVector ==> !u.vectors.contains(row)
            &&& op is DeleteRow ==> !u.rows.contains_key(row)
            &&& op is FtsDelete ==> !u.fts.contains_key(row)
            &&& op matches Op::FtsInsert(_, text) ==> u.fts.contains_key(row) && u.fts[row] == text
            &&& op matches Op::WriteRow(_, end, text) ==> u.rows.contains_key(row) && u.rows[row]
                == (end, text)
            &&& u.fts_sound ==> t.fts_sound
        }),
{
}

/// A chunk waits for a vector exactly if no vector is recorded under both its
/// own document and its own first line; vectors of other documents, or on other
/// lines, make no difference. The chunks that wait keep their order.
pub proof fn only_own_vectors_count(
    chunks: Vec<Chunk>,
    embedded: Vec<(i64, usize)>,
    pending: Vec<Chunk>,
)
    requires
        call_ensures(collect_pending_chunks, (chunks, &embedded), pending),
    ensures
        forall|c: Chunk| #[trigger]
            pending@.contains(c) <==> chunks@.contains(c) && !(exists|k: int|
                0 <= k < embedded@.len() && (#[trigger] embedded@[k]).0 == c.doc_id && embedded@[k].1
                    == c.line_start),
        pending@ == chunks@.filter(
            |c: Chunk|
                forall|k: int|
                    0 <= k < embedded@.len() ==> (#[trigger] embedded@[k]).0 != c.doc_id
                        || embedded@[k].1 != c.line_start,
        ),
{
    let f = |c: Chunk| !has_vector(embedded@, c);
    let g = |c: Chunk|
        forall|k: int|
            0 <= k < embedded@.len() ==> (#[trigger] embedded@[k]).0 != c.doc_id || embedded@[k].1
                != c.line_start;
    assert forall|c: Chunk| #[trigger] f(c) == g(c) by {
        let key = (c.doc_id, c.line_start);
        if !g(c) {
            let k = choose|k: int|
                0 <= k < embedded@.len() && (#[trigger] embedded@[k]).0 == c.doc_id
                    && embedded@[k].1 == c.line_start;
            assert(embedded@[k] == key);
            assert(embedded@.contains(key));
        }
        if embedded@.contains(key) {
            let k = choose|k: int| 0 <= k < embedded@.len() && embedded@[k] == key;
            assert(embedded@[k].0 == c.doc_id);
        }
    }
    assert(f =~= g);
    chunks@.filter_lemma(f);
    assert forall|c: Chunk| #[trigger] pending@.contains(c) <==> chunks@.contains(c) && !(exists|
        k: int,
    |
        0 <= k < embedded@.len() && (#[trigger] embedded@[k]).0 == c.doc_id && embedded@[k].1
            == c.line_start) by {
        if pending@.contains(c) {
            let i = choose|i: int| 0 <= i < pending@.len() && pending@[i] == c;
            let k = lemma_filter_had(chunks@, f, i);
            assert(g(c));
        }
        if chunks@.contains(c) && g(c) {
            let i = choose|i: int| 0 <= i < chunks@.len() && chunks@[i] == c;
            chunks@.lemma_filter_contains(f, i);
        }
    }
}

/// Once all chunks that wait have their vectors, none waits any more.
pub proof fn nothing_waits_after_embedding(
    chunks: Vec<Chunk>,
    embedded: Vec<(i64, usize)>,
    pending: Vec<Chunk>,
    embedded_then: Vec<(i64, usize)>,
    pending_then: Vec<Chunk>,
)
    requires
        call_ensures(collect_pending_chunks, (chunks, &embedded), pending),
        call_ensures(collect_pending_chunks, (chunks, &embedded_then), pending_then),
        embedded_then@ == embedded@ + pending@.map_values(|c: Chunk| (c.doc_id, c.line_start)),
    ensures
        pending_then@.len() == 0,
{
    only_own_vectors_count(chunks, embedded, pending);
    only_own_vectors_count(chunks, embedded_then, pending_then);
    if pending_then@.len() > 0 {
        let c = pending_then@[0];
        assert(pending_then@.contains(c));
        let done = pending@.map_values(|c: Chunk| (c.doc_id, c.line_start));
        if pending@.contains(c) {
            let i = choose|i: int| 0 <= i < pending@.len() && pending@[i] == c;
            assert(embedded_then@[embedded@.len() + i] == done[i]);
            assert(false);
        } else {
            let k = choose|k: int|
                0 <= k < embedded@.len() && (#[trigger] embedded@[k]).0 == c.doc_id
                    && embedded@[k].1 == c.line_start;
            assert(embedded_then@[k] == embedded@[k]);
            assert(false);
        }
    }
}

/// Five times as many chunks are asked for as files are wanted.
pub proof fn searches_ask_for_more_chunks_than_files(limit: usize, asked: i64)
    requires
        call_ensures(over_fetch, (limit,), asked),
        limit * 5 <= i64::MAX,
    ensures
        asked == 5 * limit,
        asked >= limit,
{
}

/// Vectors whose dimension was recorded are kept where that dimension is asked
/// for again, and given up for any other one. Without a record the table is
/// created.
pub proof fn vectors_are_kept_for_their_dimension(
    recorded: &str,
    old_dim: u32,
    dim: u32,
    step: VecTableStep,
    first_step: VecTableStep,
)
    requires
        recorded@ == decimal(old_dim as nat),
        call_ensures(ensure_vec_tables, (Some(recorded), dim), step),
        call_ensures(ensure_vec_tables, (None, dim), first_step),
    ensures
        old_dim == dim ==> step == VecTableStep::Keep,
        old_dim != dim ==> step == (VecTableStep::Recreate { old_dim }),
        first_step == VecTableStep::Create,
{
    lemma_decimal_read(old_dim as nat);
}

/// A full-text search and a vector search treat what they found alike.
pub proof fn searches_group_alike(
    rows: Vec<ChunkRow>,
    prefix: Option<&str>,
    limit: usize,
    by_text: Vec<FileSearchResult>,
    by_meaning: Vec<FileSearchResult>,
)
    requires
        call_ensures(search_fts, (rows, prefix, limit), by_text),
        call_ensures(search_similar, (rows, prefix, limit), by_meaning),
    ensures
        views(by_text@) == views(by_meaning@),
        views(by_text@) == search_result(rows_under(views(rows@), prefix), limit as nat),
{
}

/// A database is removed with the two files that SQLite keeps beside it, whose
/// names begin with its own; nothing else is removed.
pub proof fn databases_are_removed_whole(path: &FsPath, files: Vec<FsPath>)
    requires
        call_ensures(wipe_db_files, (path,), files),
    ensures
        files@.len() == 3,
        files@[0]@ == path@,
        files@[1]@.text == path@.text + "-wal"@ && files@[2]@.text == path@.text + "-shm"@,
        forall|i: int|
            0 <= i < 3 ==> (#[trigger] files@[i]@).raw.take(path@.raw.len() as int) == path@.raw,
{
    let all = views(files@);
    assert(all.len() == files@.len());
    assert(all[0] == files@[0]@ && all[1] == files@[1]@ && all[2] == files@[2]@);
    assert forall|i: int| 0 <= i < 3 implies (#[trigger] files@[i]@).raw.take(
        path@.raw.len() as int,
    ) == path@.raw by {
        assert(files@[i]@.raw.take(path@.raw.len() as int) =~= path@.raw);
    }
}

/// The statement that creates the table of vectors gives their dimension, and
/// spares an existing table exactly if it is asked to; else it says the same.
pub proof fn vector_tables_have_their_dimension(dim: u32, kept: String, made: String)
    requires
        call_ensures(create_vec_table_sql, (dim, true), kept),
        call_ensures(create_vec_table_sql, (dim, false), made),
    ensures
        has_suffix(made@, "embedding FLOAT["@ + decimal(dim as nat) + "])"@),
        has_prefix(made@, "CREATE VIRTUAL TABLE chunk_vectors "@),
        has_prefix(kept@, "CREATE VIRTUAL TABLE IF NOT EXISTS chunk_vectors "@),
        kept@.skip("CREATE VIRTUAL TABLE IF NOT EXISTS "@.len() as int) == made@.skip(
            "CREATE VIRTUAL TABLE "@.len() as int,
        ),
{
    reveal_strlit("CREATE VIRTUAL TABLE IF NOT EXISTS ");
    reveal_strlit("CREATE VIRTUAL TABLE ");
    reveal_strlit("CREATE VIRTUAL TABLE chunk_vectors ");
    reveal_strlit("CREATE VIRTUAL TABLE IF NOT EXISTS chunk_vectors ");
    reveal_strlit("chunk_vectors USING vec0(chunk_id INTEGER PRIMARY KEY, embedding FLOAT[");
    reveal_strlit("embedding FLOAT[");
    reveal_strlit("])");
    let end = "embedding FLOAT["@ + decimal(dim as nat) + "])"@;
    assert(made@.subrange(made@.len() - end.len(), made@.len() as int) =~= end);
    assert(made@.subrange(0, 35) =~= "CREATE VIRTUAL TABLE chunk_vectors "@);
    assert(kept@.subrange(0, 49) =~= "CREATE VIRTUAL TABLE IF NOT EXISTS chunk_vectors "@);
    assert(kept@.skip(35) =~= made@.skip(21));
}

/// Without vectors an index counts none; with vectors it counts them, and
/// together with those that wait they are as many as the chunks, unless there
/// are more vectors than chunks.
pub proof fn vectors_and_waiting_chunks_make_all(
    plain: SqliteStore,
    with_vectors: SqliteStore,
    path: FsPath,
    dim: u32,
    chunks: u64,
    vectors: u64,
    none: VecInfo,
    counted: VecInfo,
)
    requires
        call_ensures(SqliteStore::new_fts_only, (path,), plain),
        call_ensures(SqliteStore::new_with_vec, (path, dim), with_vectors),
        call_ensures(SqliteStore::vec_info, (&plain, chunks, vectors), none),
        call_ensures(SqliteStore::vec_info, (&with_vectors, chunks, vectors), counted),
    ensures
        none.embedding_dim == 0 && none.vector_count == 0 && none.pending_count == 0,
        counted.embedding_dim == dim && counted.vector_count == vectors,
        vectors <= chunks ==> counted.vector_count + counted.pending_count == chunks,
        vectors > chunks ==> counted.pending_count == 0,
{
}

} // verus!
