//! Grouping of the chunks that match a query by the file that they belong to.

use crate::order::{all_ranked, sorted, sorted_is_stable, stable_sort, views};
use crate::retrieve::retrieve_store::{ChunkHit, FileModel, FileSearchResult, HitModel};
use crate::double::Double;
use crate::places::Places;
use crate::seqs::{lemma_filter_had_order, lemma_filter_keeps_order};
use crate::text::{has_prefix, starts_with};
use vstd::prelude::*;
use vstd::seq_lib::group_to_multiset_ensures;

verus! {

/// A chunk that matches a query, with the document that it belongs to.
#[derive(Debug, Clone)]
pub struct ChunkRow {
    pub doc_id: i64,
    pub path: String,
    pub line_start: usize,
    pub line_end: usize,
    pub text: String,
    pub score: Double,
}

/// The mathematical counterpart of a [`ChunkRow`].
pub struct RowModel {
    pub doc_id: i64,
    pub path: Seq<char>,
    pub hit: HitModel,
}

impl View for ChunkRow {
    type V = RowModel;

    open spec fn view(&self) -> RowModel {
        RowModel {
            doc_id: self.doc_id,
            path: self.path@,
            hit: HitModel {
                line_start: self.line_start,
                line_end: self.line_end,
                text: self.text@,
                score: self.score,
            },
        }
    }
}

/// The documents that `rows` belong to, each once, in the order in which they
/// first occur.
pub open spec fn file_ids(rows: Seq<RowModel>) -> Seq<i64>
    decreases rows.len(),
{
    if rows.len() == 0 {
        Seq::empty()
    } else {
        let rest = file_ids(rows.drop_last());
        if rest.contains(rows.last().doc_id) {
            rest
        } else {
            rest.push(rows.last().doc_id)
        }
    }
}

/// The hits of the document `id`, in the order of `rows`.
pub open spec fn hits_of(rows: Seq<RowModel>, id: i64) -> Seq<HitModel>
    decreases rows.len(),
{
    if rows.len() == 0 {
        Seq::empty()
    } else if rows.last().doc_id == id {
        hits_of(rows.drop_last(), id).push(rows.last().hit)
    } else {
        hits_of(rows.drop_last(), id)
    }
}

/// The path in the first row of the document `id`.
pub open spec fn path_of(rows: Seq<RowModel>, id: i64) -> Seq<char>
    decreases rows.len(),
{
    if rows.len() == 0 {
        Seq::empty()
    } else if rows.last().doc_id == id && hits_of(rows.drop_last(), id).len() == 0 {
        rows.last().path
    } else {
        path_of(rows.drop_last(), id)
    }
}

/// The lowest of the scores of `hits`; the first one of those that are equal.
pub open spec fn best_score(hits: Seq<HitModel>) -> Double
    recommends
        hits.len() > 0,
    decreases hits.len(),
{
    if hits.len() <= 1 {
        hits[0].score
    } else {
        let best = best_score(hits.drop_last());
        if hits.last().score.lt(best) {
            hits.last().score
        } else {
            best
        }
    }
}

/// The document `id` with its hits in the order of `rows`.
pub open spec fn group_of(rows: Seq<RowModel>, id: i64) -> FileModel {
    let hits = hits_of(rows, id);
    FileModel { id, path: path_of(rows, id), score: best_score(hits), chunks: hits }
}

/// All documents of `rows`, each with its hits.
pub open spec fn groups(rows: Seq<RowModel>) -> Seq<FileModel> {
    file_ids(rows).map_values(|id: i64| group_of(rows, id))
}

/// A file with its hits in the order of their scores.
pub open spec fn with_sorted_hits(file: FileModel) -> FileModel {
    FileModel { chunks: sorted::<ChunkHit>(file.chunks), ..file }
}

/// The result of a search that found `rows`: the files, the best one first,
/// each with its hits, the best one first, and at most `limit` of them.
pub open spec fn search_result(rows: Seq<RowModel>, limit: nat) -> Seq<FileModel> {
    let files = sorted::<FileSearchResult>(
        groups(rows).map_values(|f: FileModel| with_sorted_hits(f)),
    );
    if limit < files.len() {
        files.take(limit as int)
    } else {
        files
    }
}

/// All scores are numbers.
pub open spec fn scores_are_numbers(rows: Seq<RowModel>) -> bool {
    forall|i: int| 0 <= i < rows.len() ==> (#[trigger] rows[i]).hit.score.is_number()
}

/// The lowest score is among the scores, and none is lower.
pub proof fn best_score_is_lowest(hits: Seq<HitModel>)
    requires
        hits.len() > 0,
        forall|i: int| 0 <= i < hits.len() ==> (#[trigger] hits[i]).score.is_number(),
    ensures
        best_score(hits).is_number(),
        exists|i: int| 0 <= i < hits.len() && best_score(hits) == #[trigger] hits[i].score,
        forall|i: int| 0 <= i < hits.len() ==> !(#[trigger] hits[i]).score.lt(best_score(hits)),
    decreases hits.len(),
{
    if hits.len() == 1 {
        assert(best_score(hits) == hits[0].score);
    } else {
        let rest = hits.drop_last();
        assert forall|i: int| 0 <= i < rest.len() implies (#[trigger] rest[i]).score.is_number() by {
            assert(rest[i] == hits[i]);
        }
        best_score_is_lowest(rest);
        let k = choose|i: int| 0 <= i < rest.len() && best_score(rest) == #[trigger] rest[i].score;
        assert(hits[k] == rest[k]);
        assert(hits[hits.len() - 1] == hits.last());
        assert forall|i: int| 0 <= i < hits.len() implies !(#[trigger] hits[i]).score.lt(
            best_score(hits),
        ) by {
            if i < rest.len() {
                assert(rest[i] == hits[i]);
            }
        }
    }
}

/// The document `id` occurs in `rows`.
pub open spec fn occurs(rows: Seq<RowModel>, id: i64) -> bool {
    exists|i: int| 0 <= i < rows.len() && (#[trigger] rows[i]).doc_id == id
}

/// A search reports each document that occurs in the rows, and no document
/// twice.
pub proof fn each_file_once(rows: Seq<RowModel>)
    ensures
        file_ids(rows).no_duplicates(),
        forall|id: i64| #[trigger] file_ids(rows).contains(id) <==> occurs(rows, id),
        forall|id: i64| #[trigger] file_ids(rows).contains(id) <==> hits_of(rows, id).len() > 0,
    decreases rows.len(),
{
    if rows.len() > 0 {
        let rest = rows.drop_last();
        each_file_once(rest);
        let last = rows.last().doc_id;
        let ids = file_ids(rows);
        assert forall|id: i64| #[trigger] ids.contains(id) <==> (file_ids(rest).contains(id) || id
            == last) by {
            if !file_ids(rest).contains(last) {
                assert(ids == file_ids(rest).push(last));
                if file_ids(rest).contains(id) {
                    let i = choose|i: int| 0 <= i < file_ids(rest).len() && file_ids(rest)[i] == id;
                    assert(ids[i] == id);
                }
                assert(ids[ids.len() - 1] == last);
                if ids.contains(id) && id != last {
                    let i = choose|i: int| 0 <= i < ids.len() && ids[i] == id;
                    assert(file_ids(rest)[i] == id);
                }
            }
        }
        assert forall|id: i64| occurs(rows, id) <==> (#[trigger] occurs(rest, id) || id == last) by {
            if occurs(rest, id) {
                let i = choose|i: int| 0 <= i < rest.len() && (#[trigger] rest[i]).doc_id == id;
                assert(rows[i].doc_id == id);
            }
            assert(rows[rows.len() - 1].doc_id == last);
            if occurs(rows, id) && id != last {
                let i = choose|i: int| 0 <= i < rows.len() && (#[trigger] rows[i]).doc_id == id;
                assert(rest[i].doc_id == id);
            }
        }
        assert forall|id: i64| #[trigger] ids.contains(id) implies occurs(rows, id) by {
            assert(occurs(rest, id) || id == last);
        }
        assert forall|id: i64| occurs(rows, id) implies #[trigger] ids.contains(id) by {
            assert(occurs(rest, id) || id == last);
        }
    }
}

/// What one more row changes in the groups.
proof fn lemma_groups_push(rows: Seq<RowModel>, row: RowModel, at: int)
    requires
        0 <= at <= file_ids(rows).len(),
        at < file_ids(rows).len() ==> file_ids(rows)[at] == row.doc_id,
        at == file_ids(rows).len() ==> !file_ids(rows).contains(row.doc_id),
    ensures
        ({
            let more = rows.push(row);
            let id = row.doc_id;
            if at < file_ids(rows).len() {
                let old_group = groups(rows)[at];
                &&& groups(more) == groups(rows).update(
                    at,
                    FileModel {
                        chunks: old_group.chunks.push(row.hit),
                        score: if row.hit.score.lt(old_group.score) {
                            row.hit.score
                        } else {
                            old_group.score
                        },
                        ..old_group
                    },
                )
            } else {
                groups(more) == groups(rows).push(
                    FileModel { id, path: row.path, score: row.hit.score, chunks: seq![row.hit] },
                )
            }
        }),
{
    let more = rows.push(row);
    let id = row.doc_id;
    let ids = file_ids(rows);
    assert(more.drop_last() =~= rows);
    each_file_once(rows);
    assert forall|other: i64| other != id implies #[trigger] group_of(more, other) == group_of(
        rows,
        other,
    ) by {}
    if at < ids.len() {
        assert(ids.contains(id));
        assert(hits_of(rows, id).len() > 0);
        let hits = hits_of(more, id);
        assert(hits.drop_last() =~= hits_of(rows, id));
        assert(groups(rows)[at] == group_of(rows, id));
        assert(groups(more) =~= groups(rows).update(at, group_of(more, id))) by {
            assert forall|i: int| 0 <= i < ids.len() && i != at implies groups(more)[i] == groups(
                rows,
            )[i] by {
                assert(ids[i] != ids[at]);
            }
        }
    } else {
        assert(hits_of(rows, id).len() == 0);
        assert(hits_of(more, id) =~= seq![row.hit]);
        assert(file_ids(more) == ids.push(id));
        assert(groups(more) =~= groups(rows).push(group_of(more, id))) by {
            assert forall|i: int| 0 <= i < ids.len() implies groups(more)[i] == groups(rows)[i] by {
                assert(ids.contains(ids[i]));
            }
        }
    }
}

/// Collects the rows of each document.
fn collect_files(rows: &Vec<ChunkRow>) -> (files: Vec<FileSearchResult>)
    ensures
        views(files@) == groups(views(rows@)),
{
    let ghost all = views(rows@);
    let mut files: Vec<FileSearchResult> = Vec::new();
    let mut places = Places::new();
    let mut i: usize = 0;
    proof {
        assert(views(files@) =~= groups(all.take(0)));
        assert(file_ids(all.take(0)) =~= Seq::empty());
    }
    while i < rows.len()
        invariant
            i <= rows@.len(),
            all == views(rows@),
            views(files@) == groups(all.take(i as int)),
            places.of(file_ids(all.take(i as int))),
        decreases rows@.len() - i,
    {
        let row = &rows[i];
        let hit = ChunkHit {
            line_start: row.line_start,
            line_end: row.line_end,
            text: row.text.clone(),
            score: row.score,
        };
        let ghost before = files@;
        let ghost seen = all.take(i as int);
        let ghost ids = file_ids(seen);
        proof {
            assert(all.take(i + 1) =~= seen.push(row@));
            assert(seen.push(row@).drop_last() =~= seen);
            assert(groups(seen).len() == ids.len() && views(files@).len() == files@.len());
        }
        let at: usize = match places.find(row.doc_id) {
            Some(at) => at,
            None => {
                places.add(row.doc_id, files.len());
                files.len()
            },
        };
        proof {
            if at < ids.len() {
                assert(ids.contains(row.doc_id));
            }
            lemma_groups_push(seen, row@, at as int);
        }
        if at < files.len() {
            proof {
                assert(groups(seen)[at as int] == before[at as int]@);
            }
            let best = if row.score.less(files[at].score) {
                row.score
            } else {
                files[at].score
            };
            let ghost old_chunks = files@[at as int].chunks@;
            files[at].score = best;
            files[at].chunks.push(hit);
            proof {
                let file = files@[at as int];
                assert(views(file.chunks@) =~= views(old_chunks).push(hit@));
                assert(views(files@) =~= views(before).update(at as int, file@));
            }
        } else {
            let file = FileSearchResult {
                id: row.doc_id,
                path: row.path.clone(),
                score: row.score,
                chunks: vec![hit],
            };
            files.push(file);
            proof {
                assert(views(file.chunks@) =~= seq![hit@]);
                assert(views(files@) =~= views(before).push(file@));
            }
        }
        i += 1;
    }
    proof {
        assert(all.take(i as int) =~= all);
    }
    files
}

proof fn lemma_hits_are_numbers(rows: Seq<RowModel>, id: i64)
    requires
        scores_are_numbers(rows),
    ensures
        all_ranked::<ChunkHit>(hits_of(rows, id)),
    decreases rows.len(),
{
    if rows.len() > 0 {
        let rest = rows.drop_last();
        assert forall|i: int| 0 <= i < rest.len() implies (#[trigger] rest[i]).hit.score.is_number() by {
            assert(rest[i] == rows[i]);
        }
        lemma_hits_are_numbers(rest, id);
        assert(rows[rows.len() - 1].hit.score.is_number());
    }
}

/// Groups the chunks that match a query by their document: one result for each
/// document, the one with the lowest score first, each with its chunks, the
/// lowest score first. Documents and chunks with equal scores keep the order
/// in which they first occur. At most `limit` results are returned.
pub fn group_by_file(rows: Vec<ChunkRow>, limit: usize) -> (r: Vec<FileSearchResult>)
    requires
        scores_are_numbers(views(rows@)),
    ensures
        views(r@) == search_result(views(rows@), limit as nat),
{
    let ghost all = views(rows@);
    let ghost found = groups(all);
    let ghost wanted = found.map_values(|f: FileModel| with_sorted_hits(f));
    proof {
        each_file_once(all);
        assert forall|i: int| 0 <= i < found.len() implies {
            &&& all_ranked::<ChunkHit>((#[trigger] found[i]).chunks)
            &&& found[i].score.is_number()
        } by {
            let id = file_ids(all)[i];
            assert(file_ids(all).contains(id));
            assert(found[i] == group_of(all, id));
            lemma_hits_are_numbers(all, id);
            best_score_is_lowest(hits_of(all, id));
        }
    }
    let mut files = collect_files(&rows);
    let mut i: usize = 0;
    proof {
        assert(views(files@) =~= wanted.take(0) + found.skip(0));
    }
    while i < files.len()
        invariant
            i <= files@.len() == found.len(),
            wanted == found.map_values(|f: FileModel| with_sorted_hits(f)),
            views(files@) == wanted.take(i as int) + found.skip(i as int),
            forall|k: int|
                0 <= k < found.len() ==> all_ranked::<ChunkHit>((#[trigger] found[k]).chunks),
        decreases files@.len() - i,
    {
        let ghost before = files@;
        let mut chunks: Vec<ChunkHit> = Vec::new();
        proof {
            assert(views(before)[i as int] == before[i as int]@);
            assert(before[i as int]@ == found[i as int]);
        }
        std::mem::swap(&mut chunks, &mut files[i].chunks);
        files[i].chunks = stable_sort(chunks);
        proof {
            assert(files@[i as int]@ == wanted[i as int]);
            assert(views(files@) =~= views(before).update(i as int, wanted[i as int]));
            assert(views(files@) =~= wanted.take(i + 1) + found.skip(i + 1));
        }
        i += 1;
    }
    proof {
        assert(views(files@) =~= wanted);
        assert forall|k: int| 0 <= k < wanted.len() implies (#[trigger] wanted[k]).score.is_number() by {
            assert(found[k].score.is_number());
        }
        sorted_is_stable::<FileSearchResult>(wanted);
    }
    let mut r = stable_sort(files);
    let ghost whole = r@;
    if limit < r.len() {
        r.truncate(limit);
        proof {
            assert(views(r@) =~= views(whole).take(limit as int));
        }
    }
    r
}

/// The path of the row starts with the prefix, where there is one.
pub open spec fn under_prefix(row: RowModel, prefix: Option<&str>) -> bool {
    prefix is None || has_prefix(row.path, prefix->0@)
}

/// The rows under the prefix, in their order.
pub open spec fn rows_under(rows: Seq<RowModel>, prefix: Option<&str>) -> Seq<RowModel> {
    rows.filter(|row: RowModel| under_prefix(row, prefix))
}

/// Groups the rows whose path starts with the prefix by file; see
/// [`group_by_file`].
pub fn group_under_prefix(rows: Vec<ChunkRow>, prefix: Option<&str>, limit: usize) -> (r: Vec<
    FileSearchResult,
>)
    requires
        scores_are_numbers(views(rows@)),
    ensures
        views(r@) == search_result(rows_under(views(rows@), prefix), limit as nat),
{
    let ghost all = views(rows@);
    let ghost keep = |row: RowModel| under_prefix(row, prefix);
    let mut kept: Vec<ChunkRow> = Vec::new();
    let mut i: usize = 0;
    proof {
        reveal(Seq::filter);
        assert(views(kept@) =~= all.take(0).filter(keep));
    }
    while i < rows.len()
        invariant
            i <= rows@.len(),
            all == views(rows@),
            scores_are_numbers(all),
            keep == (|row: RowModel| under_prefix(row, prefix)),
            views(kept@) == all.take(i as int).filter(keep),
            scores_are_numbers(views(kept@)),
        decreases rows@.len() - i,
    {
        let row = &rows[i];
        proof {
            reveal(Seq::filter);
            assert(all.take(i + 1).drop_last() =~= all.take(i as int));
            assert(all.take(i + 1).last() == row@);
            assert(all[i as int].hit.score.is_number());
        }
        let wanted = match prefix {
            None => true,
            Some(p) => starts_with(&row.path, p),
        };
        if wanted {
            let ghost before = kept@;
            let copied = ChunkRow {
                doc_id: row.doc_id,
                path: row.path.clone(),
                line_start: row.line_start,
                line_end: row.line_end,
                text: row.text.clone(),
                score: row.score,
            };
            kept.push(copied);
            proof {
                assert(views(kept@) =~= views(before).push(row@));
            }
        }
        i += 1;
    }
    proof {
        assert(all.take(i as int) =~= all);
    }
    group_by_file(kept, limit)
}

/// A document that occurs has the path of one of its rows.
proof fn lemma_path_of(rows: Seq<RowModel>, id: i64)
    requires
        hits_of(rows, id).len() > 0,
    ensures
        exists|i: int| 0 <= i < rows.len() && path_of(rows, id) == (#[trigger] rows[i]).path,
    decreases rows.len(),
{
    let rest = rows.drop_last();
    if rows.last().doc_id == id && hits_of(rest, id).len() == 0 {
        assert(path_of(rows, id) == rows[rows.len() - 1].path);
    } else {
        lemma_path_of(rest, id);
        let i = choose|i: int| 0 <= i < rest.len() && path_of(rest, id) == (#[trigger] rest[i]).path;
        assert(rows[i] == rest[i]);
    }
}

/// The rows under a prefix are rows whose path starts with it.
proof fn lemma_rows_under(rows: Seq<RowModel>, prefix: Option<&str>)
    requires
        scores_are_numbers(rows),
    ensures
        scores_are_numbers(rows_under(rows, prefix)),
        forall|i: int|
            0 <= i < rows_under(rows, prefix).len() ==> under_prefix(
                #[trigger] rows_under(rows, prefix)[i],
                prefix,
            ),
    decreases rows.len(),
{
    reveal(Seq::filter);
    if rows.len() > 0 {
        let rest = rows.drop_last();
        assert forall|i: int| 0 <= i < rest.len() implies (#[trigger] rest[i]).hit.score.is_number() by {
            assert(rest[i] == rows[i]);
        }
        lemma_rows_under(rest, prefix);
        assert(rows[rows.len() - 1].hit.score.is_number());
    }
}

/// What every search promises: at most `limit` files, no file twice, the best
/// one first, and every path starts with the prefix, taken literally.
pub proof fn results_lie_under_prefix(rows: Seq<RowModel>, prefix: Option<&str>, limit: nat)
    requires
        scores_are_numbers(rows),
    ensures
        ({
            let r = search_result(rows_under(rows, prefix), limit);
            &&& r.len() <= limit
            &&& forall|i: int, j: int|
                0 <= i < j < r.len() ==> (#[trigger] r[i]).id != (#[trigger] r[j]).id
                    && !r[j].score.lt(r[i].score)
            &&& forall|i: int|
                0 <= i < r.len() ==> prefix is None || has_prefix((#[trigger] r[i]).path, prefix->0@)
        }),
{
    broadcast use group_to_multiset_ensures;

    let kept = rows_under(rows, prefix);
    let ids = file_ids(kept);
    let found = groups(kept).map_values(|f: FileModel| with_sorted_hits(f));
    let all = sorted::<FileSearchResult>(found);
    let r = search_result(kept, limit);
    lemma_rows_under(rows, prefix);
    each_file_once(kept);
    assert forall|i: int| 0 <= i < found.len() implies {
        &&& (#[trigger] found[i]).score.is_number()
        &&& found[i].id == ids[i]
        &&& prefix is None || has_prefix(found[i].path, prefix->0@)
    } by {
        assert(ids.contains(ids[i]));
        assert(groups(kept)[i] == group_of(kept, ids[i]));
        lemma_hits_are_numbers(kept, ids[i]);
        best_score_is_lowest(hits_of(kept, ids[i]));
        lemma_path_of(kept, ids[i]);
        let k = choose|k: int|
            0 <= k < kept.len() && path_of(kept, ids[i]) == (#[trigger] kept[k]).path;
        assert(under_prefix(kept[k], prefix));
    }
    sorted_is_stable::<FileSearchResult>(found);
    assert(found.no_duplicates()) by {
        assert forall|i: int, j: int| 0 <= i < j < found.len() implies found[i] != found[j] by {
            assert(found[i].id == ids[i] && found[j].id == ids[j]);
        }
    }
    found.lemma_multiset_has_no_duplicates();
    all.lemma_multiset_has_no_duplicates_conv();
    assert forall|i: int| 0 <= i < all.len() implies found.contains(#[trigger] all[i]) by {
        assert(all.contains(all[i]));
        assert(all.to_multiset().count(all[i]) > 0);
    }
    assert forall|i: int, j: int| 0 <= i < j < r.len() implies (#[trigger] r[i]).id != (
    #[trigger] r[j]).id && !r[j].score.lt(r[i].score) by {
        assert(r[i] == all[i] && r[j] == all[j]);
        assert(all[i] != all[j]);
        assert(found.contains(all[i]) && found.contains(all[j]));
        let a = choose|a: int| 0 <= a < found.len() && found[a] == all[i];
        let b = choose|b: int| 0 <= b < found.len() && found[b] == all[j];
        assert(ids[a] != ids[b]);
    }
    assert forall|i: int| 0 <= i < r.len() implies prefix is None || has_prefix(
        (#[trigger] r[i]).path,
        prefix->0@,
    ) by {
        assert(r[i] == all[i]);
        assert(found.contains(all[i]));
        let a = choose|a: int| 0 <= a < found.len() && found[a] == all[i];
        assert(found[a].score.is_number());
    }
}

/// The hits of the rows of the document `id`, in the order of `rows`.
spec fn hits_in(rows: Seq<RowModel>, id: i64) -> Seq<HitModel> {
    rows.filter(|row: RowModel| row.doc_id == id).map_values(|row: RowModel| row.hit)
}

proof fn lemma_hits_in(rows: Seq<RowModel>, id: i64)
    ensures
        hits_of(rows, id) == hits_in(rows, id),
    decreases rows.len(),
{
    reveal(Seq::filter);
    if rows.len() > 0 {
        lemma_hits_in(rows.drop_last(), id);
        assert(hits_of(rows, id) =~= hits_in(rows, id));
    } else {
        assert(hits_of(rows, id) =~= hits_in(rows, id));
    }
}

/// The first row of a document names its path.
proof fn lemma_first_path(rows: Seq<RowModel>, id: i64, k: int)
    requires
        0 <= k < rows.len(),
        rows[k].doc_id == id,
        forall|m: int| 0 <= m < k ==> (#[trigger] rows[m]).doc_id != id,
    ensures
        path_of(rows, id) == rows[k].path,
    decreases rows.len(),
{
    let rest = rows.drop_last();
    each_file_once(rest);
    if k == rows.len() - 1 {
        assert(!occurs(rest, id)) by {
            if occurs(rest, id) {
                let m = choose|m: int| 0 <= m < rest.len() && (#[trigger] rest[m]).doc_id == id;
                assert(rows[m].doc_id == id);
            }
        }
        assert(!file_ids(rest).contains(id));
    } else {
        assert(rest[k] == rows[k]);
        assert(occurs(rest, id));
        assert(file_ids(rest).contains(id));
        assert forall|m: int| 0 <= m < k implies (#[trigger] rest[m]).doc_id != id by {
            assert(rows[m] == rest[m]);
        }
        lemma_first_path(rest, id, k);
    }
}

/// The documents come in the order in which they first occur.
proof fn lemma_ids_in_order(rows: Seq<RowModel>, a: int, b: int, k: int)
    requires
        0 <= a < b < file_ids(rows).len(),
        0 <= k < rows.len(),
        rows[k].doc_id == file_ids(rows)[b],
    ensures
        exists|m: int| 0 <= m < k && (#[trigger] rows[m]).doc_id == file_ids(rows)[a],
    decreases rows.len(),
{
    let rest = rows.drop_last();
    let ids = file_ids(rest);
    each_file_once(rest);
    each_file_once(rows);
    if b < ids.len() && k < rest.len() {
        assert(rest[k] == rows[k]);
        lemma_ids_in_order(rest, a, b, k);
        let m = choose|m: int| 0 <= m < k && (#[trigger] rest[m]).doc_id == ids[a];
        assert(rows[m] == rest[m]);
    } else {
        // The row is the last one, or the document is new with the last row.
        if b == ids.len() && k < rest.len() {
            assert(rest[k] == rows[k]);
            assert(occurs(rest, rows[k].doc_id));
            assert(ids.contains(rows[k].doc_id));
            assert(false);
        }
        assert(ids[a] == file_ids(rows)[a]);
        assert(ids.contains(ids[a]));
        assert(occurs(rest, ids[a]));
        let m = choose|m: int| 0 <= m < rest.len() && (#[trigger] rest[m]).doc_id == ids[a];
        assert(rows[m] == rest[m]);
    }
}

/// All files that a search has found, in the order of the result.
spec fn all_found(rows: Seq<RowModel>) -> Seq<FileModel> {
    sorted::<FileSearchResult>(groups(rows).map_values(|f: FileModel| with_sorted_hits(f)))
}

/// Each file of the result is the group of one document, with its hits sorted.
proof fn lemma_found(rows: Seq<RowModel>, i: int) -> (a: int)
    requires
        scores_are_numbers(rows),
        0 <= i < all_found(rows).len(),
    ensures
        all_found(rows).len() == file_ids(rows).len(),
        0 <= a < file_ids(rows).len(),
        all_found(rows)[i] == with_sorted_hits(group_of(rows, file_ids(rows)[a])),
{
    broadcast use group_to_multiset_ensures;

    let found = groups(rows).map_values(|f: FileModel| with_sorted_hits(f));
    let all = all_found(rows);
    lemma_found_ranked(rows);
    sorted_is_stable::<FileSearchResult>(found);
    assert(all.contains(all[i]));
    assert(all.to_multiset().count(all[i]) > 0);
    assert(found.contains(all[i]));
    let a = choose|a: int| 0 <= a < found.len() && found[a] == all[i];
    assert(groups(rows)[a] == group_of(rows, file_ids(rows)[a]));
    a
}

/// Every document is in the result.
proof fn lemma_all_found(rows: Seq<RowModel>, a: int) -> (i: int)
    requires
        scores_are_numbers(rows),
        0 <= a < file_ids(rows).len(),
    ensures
        0 <= i < all_found(rows).len(),
        all_found(rows)[i] == with_sorted_hits(group_of(rows, file_ids(rows)[a])),
{
    broadcast use group_to_multiset_ensures;

    let found = groups(rows).map_values(|f: FileModel| with_sorted_hits(f));
    let all = all_found(rows);
    lemma_found_ranked(rows);
    sorted_is_stable::<FileSearchResult>(found);
    assert(groups(rows)[a] == group_of(rows, file_ids(rows)[a]));
    assert(found.contains(found[a]));
    assert(found.to_multiset().count(found[a]) > 0);
    assert(all.contains(found[a]));
    choose|i: int| 0 <= i < all.len() && all[i] == found[a]
}

proof fn lemma_found_ranked(rows: Seq<RowModel>)
    requires
        scores_are_numbers(rows),
    ensures
        all_ranked::<FileSearchResult>(
            groups(rows).map_values(|f: FileModel| with_sorted_hits(f)),
        ),
{
    let found = groups(rows).map_values(|f: FileModel| with_sorted_hits(f));
    each_file_once(rows);
    assert forall|i: int| 0 <= i < found.len() implies (#[trigger] found[i]).score.is_number() by {
        let id = file_ids(rows)[i];
        assert(file_ids(rows).contains(id));
        assert(groups(rows)[i] == group_of(rows, id));
        lemma_hits_are_numbers(rows, id);
        best_score_is_lowest(hits_of(rows, id));
    }
}

/// Every file that a search reports carries all hits of its document and no
/// other, none of them twice unless it was found twice: the best one first,
/// and those with equal scores in the order in which they were found. Its score
/// is that of its best hit, its path the one that its first row names.
pub proof fn files_carry_all_their_hits(rows: Seq<RowModel>, limit: nat, i: int)
    requires
        scores_are_numbers(rows),
        0 <= i < search_result(rows, limit).len(),
    ensures
        ({
            let file = search_result(rows, limit)[i];
            let hits = rows.filter(|row: RowModel| row.doc_id == file.id).map_values(
                |row: RowModel| row.hit,
            );
            &&& hits.len() > 0
            &&& file.chunks.len() == hits.len()
            &&& file.chunks.to_multiset() == hits.to_multiset()
            &&& forall|a: int, b: int|
                0 <= a < b < file.chunks.len() ==> !(#[trigger] file.chunks[b]).score.lt(
                    (#[trigger] file.chunks[a]).score,
                )
            &&& forall|s: Double| #[trigger]
                s.is_number() ==> file.chunks.filter(
                    |h: HitModel| !s.lt(h.score) && !h.score.lt(s),
                ) == hits.filter(|h: HitModel| !s.lt(h.score) && !h.score.lt(s))
            &&& exists|a: int| 0 <= a < hits.len() && file.score == (#[trigger] hits[a]).score
            &&& forall|a: int|
                0 <= a < hits.len() ==> !(#[trigger] hits[a]).score.lt(file.score)
            &&& forall|k: int|
                0 <= k < rows.len() && (#[trigger] rows[k]).doc_id == file.id && (forall|m: int|
                    0 <= m < k ==> (#[trigger] rows[m]).doc_id != file.id) ==> file.path
                    == rows[k].path
        }),
{
    let file = search_result(rows, limit)[i];
    assert(file == all_found(rows)[i]);
    let at = lemma_found(rows, i);
    let id = file_ids(rows)[at];
    let hits = hits_of(rows, id);
    assert(file.id == id);
    lemma_hits_in(rows, id);
    assert(hits =~= rows.filter(|row: RowModel| row.doc_id == file.id).map_values(
        |row: RowModel| row.hit,
    ));
    each_file_once(rows);
    assert(file_ids(rows).contains(id));
    lemma_hits_are_numbers(rows, id);
    best_score_is_lowest(hits);
    sorted_is_stable::<ChunkHit>(hits);
    assert forall|s: Double| #[trigger] s.is_number() implies file.chunks.filter(
        |h: HitModel| !s.lt(h.score) && !h.score.lt(s),
    ) == hits.filter(|h: HitModel| !s.lt(h.score) && !h.score.lt(s)) by {
        let x = HitModel { line_start: 0, line_end: 0, text: Seq::empty(), score: s };
        assert(<ChunkHit as crate::order::Ranked>::ranked(x));
        assert(crate::order::tied_with::<ChunkHit>(x) =~= (|h: HitModel|
            !s.lt(h.score) && !h.score.lt(s)));
    }
    assert forall|a: int, b: int| 0 <= a < b < file.chunks.len() implies !(
    #[trigger] file.chunks[b]).score.lt((#[trigger] file.chunks[a]).score) by {
        assert(!<ChunkHit as crate::order::Ranked>::before(file.chunks[b], file.chunks[a]));
    }
    assert forall|k: int|
        0 <= k < rows.len() && (#[trigger] rows[k]).doc_id == file.id && (forall|m: int|
            0 <= m < k ==> (#[trigger] rows[m]).doc_id != file.id) implies file.path
        == rows[k].path by {
        lemma_first_path(rows, id, k);
    }
}

/// A search reports every document that occurs in the rows, once, unless the
/// limit is reached; and what it leaves out then is no better than anything
/// that it reports.
pub proof fn best_files_are_reported(rows: Seq<RowModel>, limit: nat, k: int)
    requires
        scores_are_numbers(rows),
        0 <= k < rows.len(),
    ensures
        ({
            let r = search_result(rows, limit);
            ||| exists|i: int| 0 <= i < r.len() && (#[trigger] r[i]).id == rows[k].doc_id
            ||| r.len() == limit && forall|i: int|
                0 <= i < r.len() ==> !rows[k].hit.score.lt((#[trigger] r[i]).score)
        }),
{
    let r = search_result(rows, limit);
    let all = all_found(rows);
    let id = rows[k].doc_id;
    each_file_once(rows);
    assert(occurs(rows, id));
    assert(file_ids(rows).contains(id));
    let a = choose|a: int| 0 <= a < file_ids(rows).len() && file_ids(rows)[a] == id;
    let at = lemma_all_found(rows, a);
    if at < r.len() {
        assert(r[at].id == id);
    } else {
        lemma_found_ranked(rows);
        sorted_is_stable::<FileSearchResult>(
            groups(rows).map_values(|f: FileModel| with_sorted_hits(f)),
        );
        let hits = hits_of(rows, id);
        lemma_hits_in(rows, id);
        lemma_hits_are_numbers(rows, id);
        best_score_is_lowest(hits);
        let keep = |row: RowModel| row.doc_id == id;
        rows.lemma_filter_contains(keep, k);
        let b = choose|b: int| 0 <= b < rows.filter(keep).len() && rows.filter(keep)[b] == rows[k];
        assert(hits[b] == rows[k].hit);
        assert forall|i: int| 0 <= i < r.len() implies !rows[k].hit.score.lt(
            (#[trigger] r[i]).score,
        ) by {
            assert(r[i] == all[i]);
            assert(!<FileSearchResult as crate::order::Ranked>::before(all[at], all[i]));
            let c = lemma_found(rows, i);
            assert(!hits[b].score.lt(all[at].score));
        }
    }
}

/// Files with equal scores come in the order in which they first occur.
pub proof fn tied_files_keep_their_order(rows: Seq<RowModel>, limit: nat, i: int, j: int, k: int)
    requires
        scores_are_numbers(rows),
        0 <= i < j < search_result(rows, limit).len(),
        !search_result(rows, limit)[i].score.lt(search_result(rows, limit)[j].score),
        0 <= k < rows.len(),
        rows[k].doc_id == search_result(rows, limit)[j].id,
    ensures
        exists|m: int|
            0 <= m < k && (#[trigger] rows[m]).doc_id == search_result(rows, limit)[i].id,
{
    let r = search_result(rows, limit);
    let all = all_found(rows);
    let found = groups(rows).map_values(|f: FileModel| with_sorted_hits(f));
    let ids = file_ids(rows);
    assert(r[i] == all[i] && r[j] == all[j]);
    lemma_found_ranked(rows);
    sorted_is_stable::<FileSearchResult>(found);
    assert(!<FileSearchResult as crate::order::Ranked>::before(all[j], all[i]));
    let x = all[i];
    assert(<FileSearchResult as crate::order::Ranked>::ranked(x));
    let f = crate::order::tied_with::<FileSearchResult>(x);
    assert(f(all[i]) && f(all[j]));
    let (p, q) = lemma_filter_keeps_order(all, f, i, j);
    assert(all.filter(f) == found.filter(f));
    let (a, b) = lemma_filter_had_order(found, f, p, q);
    assert(groups(rows)[a] == group_of(rows, ids[a]));
    assert(groups(rows)[b] == group_of(rows, ids[b]));
    assert(found[a] == all[i] && found[b] == all[j]);
    lemma_ids_in_order(rows, a, b, k);
}

/// A larger limit only adds files at the end.
pub proof fn larger_limits_append(rows: Seq<RowModel>, limit: nat, larger: nat)
    requires
        limit <= larger,
    ensures
        search_result(rows, limit).is_prefix_of(search_result(rows, larger)),
        search_result(rows, limit).len() <= limit,
        search_result(rows, limit).len() < limit ==> search_result(rows, limit) == search_result(
            rows,
            larger,
        ),
{
    assert(search_result(rows, limit) =~= search_result(rows, larger).take(
        search_result(rows, limit).len() as int,
    ));
}

/// A prefix keeps exactly the rows whose path starts with it, in their order.
pub proof fn prefixes_keep_rows_in_order(rows: Seq<RowModel>, prefix: Option<&str>)
    ensures
        prefix is None ==> rows_under(rows, prefix) == rows,
        prefix is Some ==> rows_under(rows, prefix) == rows.filter(
            |row: RowModel| prefix->0@.is_prefix_of(row.path),
        ),
{
    if prefix is None {
        crate::seqs::lemma_filter_all(rows, |row: RowModel| under_prefix(row, prefix));
    } else {
        let f = |row: RowModel| under_prefix(row, prefix);
        let g = |row: RowModel| prefix->0@.is_prefix_of(row.path);
        assert forall|row: RowModel| #[trigger] f(row) == g(row) by {
            let p = prefix->0@;
            if has_prefix(row.path, p) {
                assert(row.path.take(p.len() as int) =~= p);
            }
        }
        assert(f =~= g);
    }
}

/// What a search returns is at most `limit` files, and each of them carries
/// every hit of its document, however many there are.
pub proof fn grouping_loses_no_hit(
    rows: Vec<ChunkRow>,
    limit: usize,
    files: Vec<FileSearchResult>,
    i: int,
)
    requires
        call_ensures(group_by_file, (rows, limit), files),
        scores_are_numbers(views(rows@)),
        0 <= i < files@.len(),
    ensures
        files@.len() <= limit,
        ({
            let hits = views(rows@).filter(|row: RowModel| row.doc_id == files@[i]@.id).map_values(
                |row: RowModel| row.hit,
            );
            &&& files@[i]@.chunks.len() == hits.len()
            &&& files@[i]@.chunks.to_multiset() == hits.to_multiset()
        }),
{
    assert(views(files@).len() == files@.len());
    assert(views(files@)[i] == files@[i]@);
    files_carry_all_their_hits(views(rows@), limit as nat, i);
}

} // verus!
