//! Indexing of a workspace: which files are indexed, as what documents, and
//! what a run over all files adds to the index and removes from it.

use crate::paths::FsPath;
use crate::json::{json_read, Json};
use crate::retrieve::chunker::{
    chunk_texts, lemma_log_chunks, log_append_keeps_chunks, log_chunk_is_its_line, log_chunks,
    log_line_has_chunk, log_line_text, logs_are_read_line_by_line, message_text, models, or_title,
    paragraph_chunks, starts_ascend, ChunkModel, Chunker, JsonlChunker,
};
use crate::retrieve::json_chunker::{
    elements_stay_separate, one_per_line, value_chunks, JsonChunker,
};
use crate::retrieve::retrieve_store::Document;
use crate::retrieve::sqlite_store::{
    all_applied, chunk_rows, consistent, distinct_rows, is_live, key_of, lemma_chunk_row,
    lemma_chunk_rows, lists_rows, stored_chunks, upsert_plan, upsert_replaces_chunks, Tables,
};
use crate::retrieve::titled::{cut_chunks, under_title, DocumentModel, TitledDocument};
use crate::text::{
    all_ascii, ascii_lowercase, is_blank, join, joined, lowercase, same_text, split_lines, starts_with, texts,
    to_lowercase,
};
use crate::workspace::identity::{fnv1a, path_to_doc_id};
use std::collections::HashSet;
use vstd::prelude::*;
use vstd::std_specs::hash::group_hash_axioms;

verus! {

/// How a file is indexed.
#[derive(Debug, Clone, Copy, PartialEq, Eq, Structural)]
pub enum FileKind {
    /// By paragraphs.
    Markdown,
    /// By the elements of a JSON array.
    Json,
    /// By lines that hold JSON.
    Jsonl,
    /// Not at all.
    Other,
}

/// How a file with the given extension in lower case is indexed.
pub open spec fn kind_of_lower(ext: Seq<char>) -> FileKind {
    if ext == "md"@ || ext == "markdown"@ || ext == "txt"@ || ext == "rst"@ || ext == "org"@ {
        FileKind::Markdown
    } else if ext == "json"@ {
        FileKind::Json
    } else if ext == "jsonl"@ {
        FileKind::Jsonl
    } else {
        FileKind::Other
    }
}

/// How a file with the given extension is indexed, whatever the case of its
/// letters.
pub open spec fn kind_of(ext: Seq<char>) -> FileKind {
    kind_of_lower(lowercase(ext))
}

/// How a file with the given extension in lower case is indexed.
pub fn lower_kind(ext: &str) -> (r: FileKind)
    ensures
        r == kind_of_lower(ext@),
{
    if same_text(ext, "md") || same_text(ext, "markdown") || same_text(ext, "txt") || same_text(
        ext,
        "rst",
    ) || same_text(ext, "org") {
        FileKind::Markdown
    } else if same_text(ext, "json") {
        FileKind::Json
    } else if same_text(ext, "jsonl") {
        FileKind::Jsonl
    } else {
        FileKind::Other
    }
}

/// How a file with the given extension is indexed. A file without extension is
/// not.
pub fn file_kind(ext: Option<&str>) -> (r: FileKind)
    ensures
        r == kind_of(
            match ext {
                Some(e) => e@,
                None => Seq::empty(),
            },
        ),
        ext is Some && all_ascii(ext->0@) ==> r == kind_of_lower(
            ext->0@.map_values(|c: char| ascii_lowercase(c)),
        ),
        ext is None ==> r == FileKind::Other,
{
    proof {
        if ext is None {
            reveal_strlit("md");
            reveal_strlit("markdown");
            reveal_strlit("txt");
            reveal_strlit("rst");
            reveal_strlit("org");
            reveal_strlit("json");
            reveal_strlit("jsonl");
            let empty = Seq::<char>::empty();
            assert(empty.map_values(|c: char| ascii_lowercase(c)) =~= empty);
            assert(empty.len() == 0 && "md"@.len() == 2 && "markdown"@.len() == 8 && "txt"@.len()
                == 3 && "rst"@.len() == 3 && "org"@.len() == 3 && "json"@.len() == 4
                && "jsonl"@.len() == 5);
        }
    }
    let lower = match ext {
        Some(e) => to_lowercase(e),
        None => {
            let empty = String::new();
            to_lowercase(&empty)
        },
    };
    lower_kind(&lower)
}

/// Whether a walk over the files goes into an entry: into everything but
/// hidden directories.
pub fn walk_into(name: &str, is_dir: bool) -> (r: bool)
    ensures
        r == !(is_dir && name@.len() > 0 && name@[0] == '.'),
{
    proof {
        reveal_strlit(".");
        if name@.len() > 0 {
            assert(name@.subrange(0, 1) =~= seq![name@[0]]);
            assert("."@ =~= seq!['.']);
            assert(seq![name@[0]][0] == name@[0]);
            assert(seq!['.'][0] == '.');
        }
    }
    !(is_dir && starts_with(name, "."))
}

/// The identifier of the document at a path, given by its bytes.
pub open spec fn doc_id(raw: Seq<u8>) -> i64 {
    fnv1a(raw) as i64
}

/// The chunks of a file that holds JSON: of a log one for each line, of any
/// other file one for each element.
pub open spec fn message_chunks(title: Seq<char>, content: Seq<char>, kind: FileKind) -> Seq<
    ChunkModel,
> {
    if kind == FileKind::Jsonl {
        or_title(log_chunks(split_lines(content)), title)
    } else {
        one_per_line(or_title(value_chunks(content), title))
    }
}

/// The document of a file: its text as it is for a file that is indexed by
/// paragraphs; for one that holds JSON the text of its messages, with each
/// message under the title and on its lines.
pub open spec fn document_of(
    raw: Seq<u8>,
    path: Seq<char>,
    title: Seq<char>,
    content: Seq<char>,
    kind: FileKind,
) -> DocumentModel {
    if kind == FileKind::Json || kind == FileKind::Jsonl {
        let chunks = message_chunks(title, content, kind);
        DocumentModel {
            id: doc_id(raw),
            title,
            body: joined(chunk_texts(chunks), "\n\n"@),
            path,
            chunks: Some(
                chunks.map_values(
                    |c: ChunkModel|
                        (c.line_start as usize, c.line_end as usize, under_title(title, c.text)),
                ),
            ),
        }
    } else {
        DocumentModel { id: doc_id(raw), title, body: content, path, chunks: None }
    }
}

/// Makes the document of a file.
pub fn make_document(path: &FsPath, title: &str, content: String, kind: FileKind) -> (r:
    TitledDocument)
    ensures
        r@ == document_of(path.raw@, path.text@, title@, content@, kind),
{
    let id = path_to_doc_id(&path.raw);
    if kind == FileKind::Json || kind == FileKind::Jsonl {
        let chunks = if kind == FileKind::Jsonl {
            JsonlChunker.chunk(title, &content)
        } else {
            JsonChunker.chunk(title, &content)
        };
        let ghost all = message_chunks(title@, content@, kind);
        let ghost pairs = all.map_values(
            |c: ChunkModel|
                (c.line_start as usize, c.line_end as usize, under_title(title@, c.text)),
        );
        let mut bodies: Vec<String> = Vec::new();
        let mut cut: Vec<(usize, usize, String)> = Vec::new();
        let mut i: usize = 0;
        while i < chunks.len()
            invariant
                i <= chunks@.len(),
                models(chunks@) == all,
                pairs == all.map_values(
                    |c: ChunkModel|
                        (c.line_start as usize, c.line_end as usize, under_title(title@, c.text)),
                ),
                texts(bodies@) == chunk_texts(all).take(i as int),
                cut_chunks(cut@) == pairs.take(i as int),
            decreases chunks@.len() - i,
        {
            let c = &chunks[i];
            let ghost before_bodies = bodies@;
            let ghost before_cut = cut@;
            let under = if title.is_empty() {
                c.text.clone()
            } else {
                let mut under = title.to_owned();
                under.append("\n\n");
                under.append(&c.text);
                under
            };
            bodies.push(c.text.clone());
            let piece = (c.line_start, c.line_end, under);
            cut.push(piece);
            proof {
                assert(all[i as int] == c@);
                assert(texts(bodies@) =~= texts(before_bodies).push(c.text@));
                assert(cut_chunks(cut@) =~= cut_chunks(before_cut).push(
                    (piece.0, piece.1, piece.2@),
                ));
            }
            i += 1;
        }
        proof {
            assert(texts(bodies@) =~= chunk_texts(all));
            assert(cut_chunks(cut@) =~= pairs);
        }
        TitledDocument {
            id,
            title: title.to_owned(),
            body: join(&bodies, "\n\n"),
            path: path.text.clone(),
            chunks: Some(cut),
        }
    } else {
        TitledDocument {
            id,
            title: title.to_owned(),
            body: content,
            path: path.text.clone(),
            chunks: None,
        }
    }
}

/// A file that a walk has come upon.
#[derive(Debug, Clone)]
pub struct FileEntry {
    pub path: FsPath,
    /// The name of the file, the title of its document.
    pub title: String,
    pub extension: Option<String>,
    /// When the file was last changed, in seconds.
    pub mtime: i64,
    /// When the file had last been changed when it was indexed, if it was.
    pub known_mtime: Option<i64>,
}

/// The mathematical counterpart of a [`FileEntry`], with what the file holds;
/// nothing where it cannot be read as text.
pub struct EntryModel {
    /// The path in bytes.
    pub raw: Seq<u8>,
    pub path: Seq<char>,
    pub title: Seq<char>,
    pub kind: FileKind,
    pub mtime: i64,
    pub known_mtime: Option<i64>,
    pub content: Option<Seq<char>>,
}

/// The entry that a file with the given content makes.
pub open spec fn entry_model(e: FileEntry, content: Option<Seq<char>>) -> EntryModel {
    EntryModel {
        raw: e.path.raw@,
        path: e.path.text@,
        title: e.title@,
        kind: kind_of(
            match e.extension {
                Some(ext) => ext@,
                None => Seq::empty(),
            },
        ),
        mtime: e.mtime,
        known_mtime: e.known_mtime,
        content,
    }
}

impl EntryModel {
    /// The file is indexed at all.
    pub open spec fn indexable(self) -> bool {
        self.kind != FileKind::Other
    }

    /// The file was indexed since it was last changed.
    pub open spec fn unchanged(self) -> bool {
        self.known_mtime == Some(self.mtime)
    }

    /// The run has to read the file.
    pub open spec fn wanted(self, incremental: bool) -> bool {
        self.indexable() && !(incremental && self.unchanged())
    }

    /// The run brings the document of the file up to date.
    pub open spec fn upserts(self, incremental: bool) -> bool {
        self.wanted(incremental) && self.content is Some
    }

    /// The run takes the file as present. An incremental run takes every
    /// indexable file as present, a full run those that it can read.
    pub open spec fn present(self, incremental: bool) -> bool {
        if incremental {
            self.indexable()
        } else {
            self.upserts(false)
        }
    }

    /// The document of the file.
    pub open spec fn document(self) -> DocumentModel {
        document_of(self.raw, self.path, self.title, self.content->0, self.kind)
    }

    /// The identifier of the document of the file.
    pub open spec fn id(self) -> i64 {
        doc_id(self.raw)
    }
}

/// A run over the files of a workspace. It is told of each file, says which
/// ones to read, makes their documents, and in the end says which documents
/// have no file any more.
#[derive(Debug)]
pub struct SyncRun {
    incremental: bool,
    existing: Vec<i64>,
    current: Vec<i64>,
    present: HashSet<i64>,
    upserted: usize,
}

/// What is left to do after a run.
#[derive(Debug, Clone)]
pub struct SyncSummary {
    /// Rebuild the full-text index before the removals.
    pub rebuild_before: bool,
    /// The documents to be removed.
    pub removals: Vec<i64>,
    /// Rebuild the full-text index after the removals.
    pub rebuild_after: bool,
    /// The number of documents that were brought up to date.
    pub upserted: usize,
    /// The number of documents to be removed.
    pub removed: usize,
}

/// A document to be stored.
#[derive(Debug, Clone)]
pub struct Upsert {
    pub document: TitledDocument,
    /// The modification time to be recorded for the file, in an incremental
    /// run.
    pub record_mtime: Option<i64>,
}

/// The identifiers of `existing` that are not in `current`, each once.
pub open spec fn left_over(existing: Seq<i64>, current: Seq<i64>) -> Seq<i64>
    decreases existing.len(),
{
    if existing.len() == 0 {
        Seq::empty()
    } else {
        let rest = left_over(existing.drop_last(), current);
        let id = existing.last();
        if current.contains(id) || rest.contains(id) {
            rest
        } else {
            rest.push(id)
        }
    }
}

impl SyncRun {
    /// The run compares modification times and skips files that have not
    /// changed.
    pub closed spec fn is_incremental(&self) -> bool {
        self.incremental
    }

    /// The documents that the index held at the start.
    pub closed spec fn existing_ids(&self) -> Seq<i64> {
        self.existing@
    }

    /// The documents of the files that are present so far.
    pub closed spec fn current_ids(&self) -> Seq<i64> {
        self.current@
    }

    /// The number of documents that were brought up to date so far.
    pub closed spec fn upsert_count(&self) -> nat {
        self.upserted as nat
    }

    /// No more documents were brought up to date than files are present, and it
    /// is known which documents these have.
    pub closed spec fn wf(&self) -> bool {
        &&& self.upserted <= self.current.len()
        &&& forall|id: i64| #[trigger] self.present@.contains(id) <==> self.current@.contains(id)
    }

    /// Takes the document `id` as that of a file that is present.
    fn note(&mut self, id: i64)
        requires
            old(self).wf(),
        ensures
            final(self).wf(),
            final(self).is_incremental() == old(self).is_incremental(),
            final(self).existing_ids() == old(self).existing_ids(),
            final(self).current_ids() == old(self).current_ids().push(id),
            final(self).upserted == old(self).upserted,
            final(self).upserted < final(self).current@.len(),
    {
        broadcast use group_hash_axioms;

        let ghost before = self.current@;
        self.current.push(id);
        self.present.insert(id);
        proof {
            let after = self.current@;
            assert(after[before.len() as int] == id);
            assert forall|k: i64| #[trigger] self.present@.contains(k) <==> after.contains(k) by {
                if before.contains(k) {
                    let i = choose|i: int| 0 <= i < before.len() && before[i] == k;
                    assert(after[i] == k);
                }
                if after.contains(k) && k != id {
                    let i = choose|i: int| 0 <= i < after.len() && after[i] == k;
                    assert(before[i] == k);
                }
            }
        }
    }

    /// A run that indexes every file.
    pub fn full(existing: Vec<i64>) -> (r: SyncRun)
        ensures
            r.wf(),
            !r.is_incremental(),
            r.existing_ids() == existing@,
            r.current_ids() == Seq::<i64>::empty(),
            r.upsert_count() == 0,
    {
        SyncRun {
            incremental: false,
            existing,
            current: Vec::new(),
            present: HashSet::new(),
            upserted: 0,
        }
    }

    /// A run that indexes the files that have changed.
    pub fn incremental(existing: Vec<i64>) -> (r: SyncRun)
        ensures
            r.wf(),
            r.is_incremental(),
            r.existing_ids() == existing@,
            r.current_ids() == Seq::<i64>::empty(),
            r.upsert_count() == 0,
    {
        SyncRun {
            incremental: true,
            existing,
            current: Vec::new(),
            present: HashSet::new(),
            upserted: 0,
        }
    }

    /// Whether a file has to be read before it is visited.
    pub fn wants(&self, entry: &FileEntry) -> (r: bool)
        ensures
            r == entry_model(*entry, None).wanted(self.is_incremental()),
    {
        let ext = match &entry.extension {
            Some(e) => Some(e.as_str()),
            None => None,
        };
        let indexable = file_kind(ext) != FileKind::Other;
        let unchanged = match entry.known_mtime {
            Some(t) => t == entry.mtime,
            None => false,
        };
        indexable && !(self.incremental && unchanged)
    }

    /// Takes note of a file and of what it holds, where it was to be read and
    /// could be read. Gives the document to be stored, if there is one.
    pub fn visit(&mut self, entry: &FileEntry, content: Option<String>) -> (r: Option<Upsert>)
        requires
            old(self).wf(),
        ensures
            final(self).wf(),
            final(self).is_incremental() == old(self).is_incremental(),
            final(self).existing_ids() == old(self).existing_ids(),
            ({
                let e = entry_model(
                    *entry,
                    match content {
                        Some(s) => Some(s@),
                        None => None,
                    },
                );
                let inc = old(self).is_incremental();
                &&& final(self).current_ids() == (if e.present(inc) {
                    old(self).current_ids().push(e.id())
                } else {
                    old(self).current_ids()
                })
                &&& if e.upserts(inc) {
                    &&& r is Some
                    &&& r->0.document@ == e.document()
                    &&& r->0.record_mtime == (if inc {
                        Some(e.mtime)
                    } else {
                        None
                    })
                    &&& final(self).upsert_count() == old(self).upsert_count() + 1
                } else {
                    &&& r is None
                    &&& final(self).upsert_count() == old(self).upsert_count()
                }
            }),
    {
        let ext = match &entry.extension {
            Some(e) => Some(e.as_str()),
            None => None,
        };
        let kind = file_kind(ext);
        if kind == FileKind::Other {
            return None;
        }
        let id = path_to_doc_id(&entry.path.raw);
        let wanted = self.wants(entry);
        match content {
            Some(text) => {
                if wanted {
                    self.note(id);
                    self.upserted += 1;
                    let document = make_document(&entry.path, &entry.title, text, kind);
                    let record_mtime = if self.incremental {
                        Some(entry.mtime)
                    } else {
                        None
                    };
                    return Some(Upsert { document, record_mtime });
                }
            },
            None => {},
        }
        if self.incremental {
            self.note(id);
        }
        None
    }

    /// Ends the run: the documents that are left over are to be removed. The
    /// full-text index is rebuilt after a full run and where something
    /// changed.
    pub fn finish(self) -> (r: SyncSummary)
        requires
            self.wf(),
        ensures
            r.upserted == self.upsert_count(),
            r.removals@ == left_over(self.existing_ids(), self.current_ids()),
            r.removed == r.removals@.len(),
            r.rebuild_before == (!self.is_incremental() || self.upsert_count() > 0),
            r.rebuild_after == (r.removals@.len() > 0),
    {
        broadcast use group_hash_axioms;

        let mut removals: Vec<i64> = Vec::new();
        let mut removed_ids: HashSet<i64> = HashSet::new();
        let mut i: usize = 0;
        while i < self.existing.len()
            invariant
                i <= self.existing@.len(),
                self.wf(),
                removals@ == left_over(self.existing@.take(i as int), self.current@),
                forall|id: i64| #[trigger]
                    removed_ids@.contains(id) <==> removals@.contains(id),
            decreases self.existing@.len() - i,
        {
            let id: i64 = self.existing[i];
            proof {
                assert(self.existing@.take(i + 1).drop_last() =~= self.existing@.take(i as int));
                assert(self.existing@.take(i + 1).last() == id);
            }
            if !self.present.contains(&id) && !removed_ids.contains(&id) {
                let ghost before = removals@;
                removals.push(id);
                removed_ids.insert(id);
                proof {
                    let after = removals@;
                    assert(after[before.len() as int] == id);
                    assert forall|k: i64| #[trigger] removed_ids@.contains(k) <==> after.contains(k) by {
                        if before.contains(k) {
                            let j = choose|j: int| 0 <= j < before.len() && before[j] == k;
                            assert(after[j] == k);
                        }
                        if after.contains(k) && k != id {
                            let j = choose|j: int| 0 <= j < after.len() && after[j] == k;
                            assert(before[j] == k);
                        }
                    }
                }
            }
            i += 1;
        }
        proof {
            assert(self.existing@.take(i as int) =~= self.existing@);
        }
        let removed: usize = removals.len();
        SyncSummary {
            rebuild_before: !self.incremental || self.upserted > 0,
            removals,
            rebuild_after: removed > 0,
            upserted: self.upserted,
            removed,
        }
    }
}

/// The index after the files of `entries` were visited.
pub open spec fn visited(
    index: Map<i64, DocumentModel>,
    entries: Seq<EntryModel>,
    incremental: bool,
) -> Map<i64, DocumentModel>
    decreases entries.len(),
{
    if entries.len() == 0 {
        index
    } else {
        let before = visited(index, entries.drop_last(), incremental);
        let e = entries.last();
        if e.upserts(incremental) {
            before.insert(e.id(), e.document())
        } else {
            before
        }
    }
}

/// The documents of the files that are present.
pub open spec fn present_ids(entries: Seq<EntryModel>, incremental: bool) -> Seq<i64>
    decreases entries.len(),
{
    if entries.len() == 0 {
        Seq::empty()
    } else {
        let before = present_ids(entries.drop_last(), incremental);
        if entries.last().present(incremental) {
            before.push(entries.last().id())
        } else {
            before
        }
    }
}

/// The index after a whole run over `entries`: the files were visited, then
/// the documents that are left over removed.
pub open spec fn synced(
    index: Map<i64, DocumentModel>,
    entries: Seq<EntryModel>,
    incremental: bool,
) -> Map<i64, DocumentModel> {
    let current = present_ids(entries, incremental);
    visited(index, entries, incremental).remove_keys(
        Set::new(|id: i64| index.contains_key(id) && !current.contains(id)),
    )
}

/// What is left over, as a set.
pub proof fn left_over_is_difference(existing: Seq<i64>, current: Seq<i64>, id: i64)
    ensures
        left_over(existing, current).contains(id) <==> existing.contains(id) && !current.contains(id),
        left_over(existing, current).no_duplicates(),
    decreases existing.len(),
{
    if existing.len() > 0 {
        let rest = existing.drop_last();
        left_over_is_difference(rest, current, id);
        left_over_is_difference(rest, current, existing.last());
        let before = left_over(rest, current);
        let after = left_over(existing, current);
        assert(existing[existing.len() - 1] == existing.last());
        if rest.contains(id) {
            let i = choose|i: int| 0 <= i < rest.len() && rest[i] == id;
            assert(existing[i] == id);
        }
        if existing.contains(id) && id != existing.last() {
            let i = choose|i: int| 0 <= i < existing.len() && existing[i] == id;
            assert(rest[i] == id);
        }
        if after.len() > before.len() {
            assert(after[after.len() - 1] == existing.last());
            if before.contains(id) {
                let i = choose|i: int| 0 <= i < before.len() && before[i] == id;
                assert(after[i] == id);
            }
            if after.contains(id) && id != existing.last() {
                let i = choose|i: int| 0 <= i < after.len() && after[i] == id;
                assert(before[i] == id);
            }
        }
    }
}

/// The run brings the document `id` up to date from a file of `entries`.
pub open spec fn some_upsert(entries: Seq<EntryModel>, id: i64, incremental: bool) -> bool {
    exists|i: int|
        0 <= i < entries.len() && (#[trigger] entries[i]).upserts(incremental) && entries[i].id() == id
}

proof fn lemma_visited(
    index: Map<i64, DocumentModel>,
    entries: Seq<EntryModel>,
    incremental: bool,
    id: i64,
)
    ensures
        visited(index, entries, incremental).contains_key(id) <==> index.contains_key(id)
            || some_upsert(entries, id, incremental),
        !some_upsert(entries, id, incremental) ==> visited(index, entries, incremental)[id]
            == index[id],
        some_upsert(entries, id, incremental) ==> exists|i: int|
            0 <= i < entries.len() && (#[trigger] entries[i]).upserts(incremental)
                && entries[i].id() == id && visited(index, entries, incremental)[id]
                == entries[i].document(),
    decreases entries.len(),
{
    if entries.len() > 0 {
        let rest = entries.drop_last();
        lemma_visited(index, rest, incremental, id);
        let last = entries.len() - 1;
        assert(entries[last] == entries.last());
        if some_upsert(rest, id, incremental) {
            let i = choose|i: int|
                0 <= i < rest.len() && (#[trigger] rest[i]).upserts(incremental) && rest[i].id()
                    == id && visited(index, rest, incremental)[id] == rest[i].document();
            assert(entries[i] == rest[i]);
        }
        if some_upsert(entries, id, incremental) && !(entries.last().upserts(incremental)
            && entries.last().id() == id) {
            let i = choose|i: int|
                0 <= i < entries.len() && (#[trigger] entries[i]).upserts(incremental)
                    && entries[i].id() == id;
            assert(rest[i] == entries[i]);
        }
        if entries.last().upserts(incremental) && entries.last().id() == id {
            assert(entries[last].upserts(incremental));
        }
    }
}

proof fn lemma_present(entries: Seq<EntryModel>, incremental: bool, id: i64)
    ensures
        present_ids(entries, incremental).contains(id) <==> exists|i: int|
            0 <= i < entries.len() && (#[trigger] entries[i]).present(incremental)
                && entries[i].id() == id,
    decreases entries.len(),
{
    if entries.len() > 0 {
        let rest = entries.drop_last();
        lemma_present(rest, incremental, id);
        let last = entries.len() - 1;
        assert(entries[last] == entries.last());
        let before = present_ids(rest, incremental);
        let after = present_ids(entries, incremental);
        if before.contains(id) {
            let i = choose|i: int|
                0 <= i < rest.len() && (#[trigger] rest[i]).present(incremental) && rest[i].id()
                    == id;
            assert(entries[i] == rest[i]);
            let k = choose|k: int| 0 <= k < before.len() && before[k] == id;
            assert(after[k] == id);
        }
        if entries.last().present(incremental) {
            assert(after[after.len() - 1] == entries.last().id());
        }
        if after.contains(id) && !before.contains(id) {
            let k = choose|k: int| 0 <= k < after.len() && after[k] == id;
            if k < before.len() {
                assert(before[k] == id);
            }
            assert(entries[last].present(incremental));
        }
        if exists|i: int|
            0 <= i < entries.len() && (#[trigger] entries[i]).present(incremental)
                && entries[i].id() == id {
            let i = choose|i: int|
                0 <= i < entries.len() && (#[trigger] entries[i]).present(incremental)
                    && entries[i].id() == id;
            if i < rest.len() {
                assert(rest[i] == entries[i]);
            }
        }
    }
}

/// After a full run the index holds a document exactly for the files that are
/// indexed and could be read, each document being the one of such a file.
/// Nothing of the index before is left.
pub proof fn full_run_mirrors_files(
    index: Map<i64, DocumentModel>,
    entries: Seq<EntryModel>,
    id: i64,
)
    ensures
        ({
            let after = synced(index, entries, false);
            &&& after.contains_key(id) <==> some_upsert(entries, id, false)
            &&& after.contains_key(id) ==> exists|i: int|
                0 <= i < entries.len() && (#[trigger] entries[i]).upserts(false)
                    && entries[i].id() == id && after[id] == entries[i].document()
        }),
{
    lemma_visited(index, entries, false, id);
    lemma_present(entries, false, id);
}

/// After an incremental run the index holds a document for a file that is
/// indexed exactly if the file was read in this run or had one before; what
/// was not read in this run is as it was; documents without a file are gone.
pub proof fn incremental_run_mirrors_files(
    index: Map<i64, DocumentModel>,
    entries: Seq<EntryModel>,
    id: i64,
)
    ensures
        ({
            let after = synced(index, entries, true);
            let present = exists|i: int|
                0 <= i < entries.len() && (#[trigger] entries[i]).indexable() && entries[i].id()
                    == id;
            &&& after.contains_key(id) <==> present && (index.contains_key(id) || some_upsert(
                entries,
                id,
                true,
            ))
            &&& after.contains_key(id) && !some_upsert(entries, id, true) ==> after[id]
                == index[id]
            &&& some_upsert(entries, id, true) ==> exists|i: int|
                0 <= i < entries.len() && (#[trigger] entries[i]).upserts(true)
                    && entries[i].id() == id && after[id] == entries[i].document()
        }),
{
    lemma_visited(index, entries, true, id);
    lemma_present(entries, true, id);
    if some_upsert(entries, id, true) {
        let i = choose|i: int|
            0 <= i < entries.len() && (#[trigger] entries[i]).upserts(true) && entries[i].id()
                == id;
        assert(entries[i].indexable());
        assert(entries[i].present(true));
    }
    if present_ids(entries, true).contains(id) {
        let i = choose|i: int|
            0 <= i < entries.len() && (#[trigger] entries[i]).present(true) && entries[i].id()
                == id;
        assert(entries[i].indexable());
    }
    if exists|i: int|
        0 <= i < entries.len() && (#[trigger] entries[i]).indexable() && entries[i].id() == id {
        let i = choose|i: int|
            0 <= i < entries.len() && (#[trigger] entries[i]).indexable() && entries[i].id() == id;
        assert(entries[i].present(true));
    }
}

/// An incremental run over files that have not changed since they were indexed
/// does nothing: no document is stored, and none is removed as long as every
/// document has its file.
pub proof fn unchanged_files_change_nothing(
    index: Map<i64, DocumentModel>,
    entries: Seq<EntryModel>,
)
    requires
        forall|i: int|
            0 <= i < entries.len() ==> !(#[trigger] entries[i]).indexable()
                || entries[i].unchanged(),
        forall|id: i64| #[trigger]
            index.contains_key(id) ==> exists|i: int|
                0 <= i < entries.len() && (#[trigger] entries[i]).indexable() && entries[i].id()
                    == id,
    ensures
        synced(index, entries, true) == index,
{
    let after = synced(index, entries, true);
    assert forall|id: i64| !some_upsert(entries, id, true) by {}
    assert forall|id: i64| #[trigger] after.contains_key(id) <==> index.contains_key(id) by {
        incremental_run_mirrors_files(index, entries, id);
    }
    assert forall|id: i64| #[trigger] after.contains_key(id) implies after[id] == index[id] by {
        incremental_run_mirrors_files(index, entries, id);
    }
    assert(after =~= index);
}

/// Appending to a log costs nothing for what is there: when the document of a
/// log that was appended to is stored, every chunk that had a vector keeps it.
/// This holds as soon as the log has a chunk of its own.
pub proof fn appending_keeps_vectors(
    before: Seq<char>,
    after: Seq<char>,
    raw: Seq<u8>,
    path: Seq<char>,
    title: Seq<char>,
    t: Tables,
    stored: Seq<(i64, Seq<char>)>,
)
    requires
        before.is_prefix_of(after),
        before.len() == 0 || before.last() == '\n' || before.len() == after.len()
            || after[before.len() as int] == '\n',
        log_chunks(split_lines(before)).len() > 0,
        split_lines(after).len() <= usize::MAX,
        split_lines(after).len() <= i64::MAX,
        consistent(t),
        t.rows == chunk_rows(document_of(raw, path, title, before, FileKind::Jsonl).chunks->0),
        lists_rows(stored, t),
    ensures
        ({
            let chunks = document_of(raw, path, title, after, FileKind::Jsonl).chunks->0;
            let u = all_applied(t, upsert_plan(stored, chunks, true));
            &&& consistent(u)
            &&& u.rows == chunk_rows(chunks)
            &&& u.vectors == t.vectors
        }),
{
    let old_chunks = document_of(raw, path, title, before, FileKind::Jsonl).chunks->0;
    let chunks = document_of(raw, path, title, after, FileKind::Jsonl).chunks->0;
    let lines = log_chunks(split_lines(after));
    log_append_keeps_chunks(before, after, title);
    lemma_log_chunks(split_lines(after));
    assert(lines.len() > 0);
    assert forall|i: int| 0 <= i < old_chunks.len() implies #[trigger] old_chunks[i] == chunks[i] by {
        assert(log_chunks(split_lines(before))[i] == lines[i]);
    }
    assert forall|i: int, j: int| 0 <= i < j < chunks.len() implies key_of(
        (#[trigger] chunks[i]).0,
    ) != key_of((#[trigger] chunks[j]).0) by {
        assert(lines[i].line_end < lines[j].line_start);
        assert(lines[i].line_start == lines[i].line_end);
        assert(lines[j].line_start < split_lines(after).len());
    }
    upsert_replaces_chunks(t, stored, chunks, true);
    lemma_chunk_rows(old_chunks);
    lemma_chunk_rows(chunks);
    let u = all_applied(t, upsert_plan(stored, chunks, true));
    assert forall|k: i64| #[trigger] t.vectors.contains(k) implies u.vectors.contains(k) by {
        assert(t.rows.contains_key(k));
        let i = choose|i: int|
            0 <= i < old_chunks.len() && key_of((#[trigger] old_chunks[i]).0) == k;
        assert(distinct_rows(old_chunks)) by {
            assert forall|a: int, b: int| 0 <= a < b < old_chunks.len() implies key_of(
                (#[trigger] old_chunks[a]).0,
            ) != key_of((#[trigger] old_chunks[b]).0) by {
                assert(key_of(chunks[a].0) != key_of(chunks[b].0));
            }
        }
        lemma_chunk_row(old_chunks, i);
        lemma_chunk_row(chunks, i);
        assert(is_live(chunks, k)) by {
            assert(key_of(chunks[i].0) == k);
        }
    }
    assert(u.vectors =~= t.vectors);
}

/// A file that is indexed by paragraphs is stored with its content as it is,
/// under its title and path, and its chunks are left to the back end.
pub proof fn paragraph_files_are_stored_as_they_are(
    raw: Seq<u8>,
    path: Seq<char>,
    title: Seq<char>,
    content: Seq<char>,
    kind: FileKind,
)
    requires
        kind != FileKind::Json,
        kind != FileKind::Jsonl,
    ensures
        ({
            let d = document_of(raw, path, title, content, kind);
            &&& d.body == content
            &&& d.title == title
            &&& d.path == path
            &&& d.id == fnv1a(raw) as i64
            &&& d.chunks is None
        }),
{
}

/// The chunks that are stored of such a file are its paragraphs, in their
/// order and numbered from zero.
pub proof fn paragraph_files_are_cut_into_paragraphs(
    raw: Seq<u8>,
    path: Seq<char>,
    title: Seq<char>,
    content: Seq<char>,
    stored: Document,
)
    requires
        stored.body@ == document_of(raw, path, title, content, FileKind::Markdown).body,
        stored.chunks is None,
        paragraph_chunks(content, 0).len() <= usize::MAX,
    ensures
        ({
            let chunks = stored_chunks(stored);
            &&& chunks.len() == paragraph_chunks(content, 0).len()
            &&& forall|i: int|
                0 <= i < chunks.len() ==> (#[trigger] chunks[i]).0 == i && chunks[i].1 == i
                    && chunks[i].2 == paragraph_chunks(content, 0)[i].text
        }),
{
}

/// A file that holds JSON is stored with the texts of its messages: in its body
/// with blank lines between them, and each on its own lines, under the title,
/// as a chunk.
pub proof fn message_files_are_stored_by_message(
    raw: Seq<u8>,
    path: Seq<char>,
    title: Seq<char>,
    content: Seq<char>,
    kind: FileKind,
)
    requires
        kind == FileKind::Json || kind == FileKind::Jsonl,
    ensures
        ({
            let d = document_of(raw, path, title, content, kind);
            let messages = message_chunks(title, content, kind);
            &&& d.id == fnv1a(raw) as i64
            &&& d.title == title
            &&& d.path == path
            &&& d.body == joined(messages.map_values(|c: ChunkModel| c.text), "\n\n"@)
            &&& d.chunks is Some
            &&& d.chunks->0.len() == messages.len()
            &&& forall|i: int|
                0 <= i < messages.len() ==> {
                    let c = #[trigger] d.chunks->0[i];
                    &&& c.0 == messages[i].line_start as usize
                    &&& c.1 == messages[i].line_end as usize
                    &&& title.len() > 0 ==> c.2 == title + "\n\n"@ + messages[i].text
                    &&& title.len() == 0 ==> c.2 == messages[i].text
                }
        }),
{
    let messages = message_chunks(title, content, kind);
    assert(chunk_texts(messages) =~= messages.map_values(|c: ChunkModel| c.text));
}

/// A log is stored by its lines: its body is the messages of the lines that are
/// not blank, and each of these lines has its chunk under its number.
pub proof fn logs_are_stored_by_line(
    raw: Seq<u8>,
    path: Seq<char>,
    title: Seq<char>,
    content: Seq<char>,
    k: int,
)
    requires
        0 <= k < split_lines(content).len() <= usize::MAX,
        !is_blank(split_lines(content)[k]),
    ensures
        ({
            let d = document_of(raw, path, title, content, FileKind::Jsonl);
            let lines = split_lines(content);
            &&& d.body == joined(
                lines.filter(|l: Seq<char>| !is_blank(l)).map_values(
                    |l: Seq<char>| log_line_text(l),
                ),
                "\n\n"@,
            )
            &&& d.chunks is Some
            &&& exists|i: int|
                0 <= i < d.chunks->0.len() && (#[trigger] d.chunks->0[i]).0 == k
                    && d.chunks->0[i].1 == k && d.chunks->0[i].2 == under_title(
                    title,
                    log_line_text(lines[k]),
                )
        }),
{
    let d = document_of(raw, path, title, content, FileKind::Jsonl);
    let lines = split_lines(content);
    let chunks = log_chunks(lines);
    logs_are_read_line_by_line(lines);
    log_line_has_chunk(lines, k);
    let i = choose|i: int| 0 <= i < chunks.len() && #[trigger] chunks[i].line_start == k;
    log_chunk_is_its_line(lines, i);
    assert(d.chunks->0[i].0 == k);
}

/// A JSON file that is no log is stored by its elements where it is an array
/// whose elements each begin on a line of their own: each element with its
/// message.
pub proof fn arrays_are_stored_by_element(
    raw: Seq<u8>,
    path: Seq<char>,
    title: Seq<char>,
    content: Seq<char>,
    elements: Seq<Json>,
)
    requires
        json_read(content) == Some(Json::Array(elements)),
        elements.len() > 0,
        starts_ascend(value_chunks(content)),
    ensures
        ({
            let d = document_of(raw, path, title, content, FileKind::Json);
            &&& d.chunks is Some
            &&& d.chunks->0.len() == elements.len()
            &&& d.body == joined(elements.map_values(|j: Json| message_text(j)), "\n\n"@)
            &&& forall|i: int|
                0 <= i < elements.len() ==> (#[trigger] d.chunks->0[i]).2 == under_title(
                    title,
                    message_text(elements[i]),
                )
        }),
{
    let chunks = value_chunks(content);
    elements_stay_separate(chunks);
    assert(chunks.len() == elements.len());
    assert(chunk_texts(chunks) =~= elements.map_values(|j: Json| message_text(j)));
}

/// Which files a run reads and which it takes as present. It reads those of a
/// kind that is indexed, an incremental run only if they have changed since
/// they were indexed. A full run takes a file as gone that it cannot read, an
/// incremental one does not.
pub proof fn runs_read_what_has_changed(e: EntryModel)
    ensures
        e.wanted(false) <==> e.kind != FileKind::Other,
        e.wanted(true) <==> e.kind != FileKind::Other && e.known_mtime != Some(e.mtime),
        e.upserts(false) <==> e.kind != FileKind::Other && e.content is Some,
        e.upserts(true) <==> e.kind != FileKind::Other && e.known_mtime != Some(e.mtime)
            && e.content is Some,
        e.present(false) <==> e.kind != FileKind::Other && e.content is Some,
        e.present(true) <==> e.kind != FileKind::Other,
        e.id() == fnv1a(e.raw) as i64,
        e.content is Some ==> e.document() == document_of(
            e.raw,
            e.path,
            e.title,
            e.content->0,
            e.kind,
        ),
{
}

/// The last file of `entries` that the run reads for the document `id`.
spec fn last_upsert(entries: Seq<EntryModel>, id: i64, incremental: bool, i: int) -> bool {
    &&& 0 <= i < entries.len()
    &&& entries[i].upserts(incremental)
    &&& entries[i].id() == id
    &&& forall|k: int|
        i < k < entries.len() ==> !((#[trigger] entries[k]).upserts(incremental)
            && entries[k].id() == id)
}

proof fn lemma_last_upsert(
    index: Map<i64, DocumentModel>,
    entries: Seq<EntryModel>,
    incremental: bool,
    i: int,
)
    requires
        last_upsert(entries, entries[i].id(), incremental, i),
    ensures
        visited(index, entries, incremental).contains_key(entries[i].id()),
        visited(index, entries, incremental)[entries[i].id()] == entries[i].document(),
    decreases entries.len(),
{
    let rest = entries.drop_last();
    let id = entries[i].id();
    if i < rest.len() {
        assert(rest[i] == entries[i]);
        assert forall|k: int| i < k < rest.len() implies !((#[trigger] rest[k]).upserts(incremental)
            && rest[k].id() == id) by {
            assert(rest[k] == entries[k]);
        }
        lemma_last_upsert(index, rest, incremental, i);
        let last = entries[entries.len() - 1];
        assert(!(last.upserts(incremental) && last.id() == id));
    }
}

/// After a run over files none of which share an identifier, every file that
/// was to be read and could be read is in the index as its document. A full run
/// reads every file of a kind that is indexed, an incremental one those whose
/// modification time is not the recorded one.
pub proof fn files_are_in_the_index_after_a_run(
    index: Map<i64, DocumentModel>,
    entries: Seq<EntryModel>,
    incremental: bool,
    i: int,
)
    requires
        0 <= i < entries.len(),
        entries[i].kind != FileKind::Other,
        entries[i].content is Some,
        !incremental || entries[i].known_mtime != Some(entries[i].mtime),
        forall|k: int|
            0 <= k < entries.len() && k != i ==> fnv1a((#[trigger] entries[k]).raw) as i64
                != fnv1a(entries[i].raw) as i64,
    ensures
        ({
            let id = fnv1a(entries[i].raw) as i64;
            let after = synced(index, entries, incremental);
            &&& after.contains_key(id)
            &&& after[id] == document_of(
                entries[i].raw,
                entries[i].path,
                entries[i].title,
                entries[i].content->0,
                entries[i].kind,
            )
        }),
{
    let id = entries[i].id();
    assert(last_upsert(entries, id, incremental, i));
    lemma_last_upsert(index, entries, incremental, i);
    lemma_present(entries, incremental, id);
    assert(entries[i].present(incremental));
}

/// Nothing else is in the index after a run: of what is there, each document
/// belongs to a file of a kind that is indexed. After a full run that file
/// could be read and the document is its own; after an incremental one the
/// document is its own or the one that was there before.
pub proof fn nothing_but_files_is_in_the_index(
    index: Map<i64, DocumentModel>,
    entries: Seq<EntryModel>,
    incremental: bool,
    id: i64,
)
    requires
        synced(index, entries, incremental).contains_key(id),
    ensures
        exists|i: int|
            {
                let e = #[trigger] entries[i];
                &&& 0 <= i < entries.len()
                &&& e.kind != FileKind::Other
                &&& fnv1a(e.raw) as i64 == id
                &&& !incremental ==> e.content is Some
                &&& {
                    ||| e.content is Some && synced(index, entries, incremental)[id] == document_of(
                        e.raw,
                        e.path,
                        e.title,
                        e.content->0,
                        e.kind,
                    )
                    ||| incremental && index.contains_key(id) && synced(index, entries, true)[id]
                        == index[id]
                }
            },
{
    if incremental {
        incremental_run_mirrors_files(index, entries, id);
        if some_upsert(entries, id, true) {
            let i = choose|i: int|
                0 <= i < entries.len() && (#[trigger] entries[i]).upserts(true) && entries[i].id()
                    == id && synced(index, entries, true)[id] == entries[i].document();
            assert(entries[i].kind != FileKind::Other);
        } else {
            let i = choose|i: int|
                0 <= i < entries.len() && (#[trigger] entries[i]).indexable() && entries[i].id()
                    == id;
            assert(entries[i].kind != FileKind::Other);
        }
    } else {
        full_run_mirrors_files(index, entries, id);
        let i = choose|i: int|
            0 <= i < entries.len() && (#[trigger] entries[i]).upserts(false) && entries[i].id()
                == id && synced(index, entries, false)[id] == entries[i].document();
        assert(entries[i].kind != FileKind::Other);
    }
}

/// An incremental run leaves the document of a file that has not changed, or
/// cannot be read, as it was.
pub proof fn unchanged_files_keep_their_documents(
    index: Map<i64, DocumentModel>,
    entries: Seq<EntryModel>,
    i: int,
)
    requires
        0 <= i < entries.len(),
        entries[i].kind != FileKind::Other,
        entries[i].known_mtime == Some(entries[i].mtime) || entries[i].content is None,
        index.contains_key(fnv1a(entries[i].raw) as i64),
        forall|k: int|
            0 <= k < entries.len() && k != i ==> fnv1a((#[trigger] entries[k]).raw) as i64
                != fnv1a(entries[i].raw) as i64,
    ensures
        ({
            let id = fnv1a(entries[i].raw) as i64;
            let after = synced(index, entries, true);
            after.contains_key(id) && after[id] == index[id]
        }),
{
    let id = entries[i].id();
    incremental_run_mirrors_files(index, entries, id);
    assert(entries[i].indexable());
    if some_upsert(entries, id, true) {
        let k = choose|k: int|
            0 <= k < entries.len() && (#[trigger] entries[k]).upserts(true) && entries[k].id()
                == id;
        assert(k == i);
    }
}

/// What is left over keeps its order.
pub proof fn left_over_keeps_order(existing: Seq<i64>, current: Seq<i64>)
    requires
        existing.no_duplicates(),
    ensures
        left_over(existing, current) == existing.filter(|id: i64| !current.contains(id)),
    decreases existing.len(),
{
    reveal(Seq::filter);
    if existing.len() > 0 {
        let rest = existing.drop_last();
        let id = existing.last();
        assert(rest.no_duplicates());
        left_over_keeps_order(rest, current);
        left_over_is_difference(rest, current, id);
        if rest.contains(id) {
            let k = choose|k: int| 0 <= k < rest.len() && rest[k] == id;
            assert(existing[k] == existing[existing.len() - 1]);
        }
    }
}

/// The kinds of files by their extension in lower case. No other file is
/// indexed.
pub proof fn extensions_decide_the_kind(ext: Seq<char>)
    ensures
        kind_of_lower(ext) == FileKind::Markdown <==> seq![
            "md"@,
            "markdown"@,
            "txt"@,
            "rst"@,
            "org"@,
        ].contains(ext),
        kind_of_lower(ext) == FileKind::Json <==> ext == "json"@,
        kind_of_lower(ext) == FileKind::Jsonl <==> ext == "jsonl"@,
        kind_of(ext) == kind_of_lower(lowercase(ext)),
{
    reveal_strlit("md");
    reveal_strlit("markdown");
    reveal_strlit("txt");
    reveal_strlit("rst");
    reveal_strlit("org");
    reveal_strlit("json");
    reveal_strlit("jsonl");
    let names = seq!["md"@, "markdown"@, "txt"@, "rst"@, "org"@];
    assert(names[0] == "md"@ && names[1] == "markdown"@ && names[2] == "txt"@ && names[3] == "rst"@
        && names[4] == "org"@);
    assert("json"@.len() == 4 && "jsonl"@.len() == 5);
    assert("txt"@[0] == 't' && "rst"@[0] == 'r' && "org"@[0] == 'o');
}

/// A visit to a file gives a document to be stored exactly if the file is of a
/// kind that is indexed, could be read and, in an incremental run, has changed
/// since it was indexed; the document is that of the file, and an incremental
/// run records the modification time. The file counts as present if it is of
/// such a kind and, in a full run, could be read.
pub proof fn visits_store_what_has_changed(
    run: &mut SyncRun,
    entry: &FileEntry,
    content: Option<String>,
    r: Option<Upsert>,
)
    requires
        call_ensures(SyncRun::visit, (run, entry, content), r),
    ensures
        ({
            let ext = match entry.extension {
                Some(ext) => ext@,
                None => Seq::empty(),
            };
            let kind = kind_of_lower(lowercase(ext));
            let incremental = old(run).is_incremental();
            let indexed = kind != FileKind::Other;
            let read = indexed && content is Some && (!incremental || entry.known_mtime != Some(
                entry.mtime,
            ));
            let present = indexed && (incremental || content is Some);
            &&& r is Some <==> read
            &&& r is Some ==> {
                let d = r->0.document;
                &&& d.id == fnv1a(entry.path.raw@) as i64
                &&& d.title@ == entry.title@
                &&& d.path@ == entry.path.text@
                &&& kind == FileKind::Markdown ==> d.body@ == content->0@ && d.chunks is None
                &&& d@ == document_of(
                    entry.path.raw@,
                    entry.path.text@,
                    entry.title@,
                    content->0@,
                    kind,
                )
                &&& incremental ==> r->0.record_mtime == Some(entry.mtime)
                &&& !incremental ==> r->0.record_mtime is None
            }
            &&& final(run).upsert_count() == old(run).upsert_count() + (if read {
                1int
            } else {
                0
            })
            &&& present ==> final(run).current_ids() == old(run).current_ids().push(
                fnv1a(entry.path.raw@) as i64,
            )
            &&& !present ==> final(run).current_ids() == old(run).current_ids()
            &&& final(run).is_incremental() == incremental
            &&& final(run).existing_ids() == old(run).existing_ids()
        }),
{
    if let Some(up) = r {
        assert(up.document@.id == up.document.id);
        assert(up.document@.title == up.document.title@);
        assert(up.document@.path == up.document.path@);
        assert(up.document@.body == up.document.body@);
        assert(up.document@.chunks is None <==> up.document.chunks is None);
    }
}

/// A file is to be read exactly if it is of a kind that is indexed and, in an
/// incremental run, has changed since it was indexed.
pub proof fn wanted_files_have_changed(run: SyncRun, entry: FileEntry, wanted: bool)
    requires
        call_ensures(SyncRun::wants, (&run, &entry), wanted),
    ensures
        ({
            let ext = match entry.extension {
                Some(ext) => ext@,
                None => Seq::empty(),
            };
            wanted <==> kind_of_lower(lowercase(ext)) != FileKind::Other && (!run.is_incremental()
                || entry.known_mtime != Some(entry.mtime))
        }),
{
}

/// At the end of a run those documents are removed that were in the index and
/// have no file that is present, and no others; the full-text index is built
/// anew after a full run and wherever something was stored or removed.
pub proof fn runs_remove_what_has_no_file(run: SyncRun, end: SyncSummary)
    requires
        call_ensures(SyncRun::finish, (run,), end),
    ensures
        forall|id: i64| #[trigger]
            end.removals@.contains(id) <==> run.existing_ids().contains(id)
                && !run.current_ids().contains(id),
        end.removals@.no_duplicates(),
        run.existing_ids().no_duplicates() ==> end.removals@ == run.existing_ids().filter(
            |id: i64| !run.current_ids().contains(id),
        ),
        end.removed == end.removals@.len(),
        end.upserted == run.upsert_count(),
        end.rebuild_before <==> !run.is_incremental() || end.upserted > 0,
        end.rebuild_after <==> end.removed > 0,
{
    assert forall|id: i64| #[trigger] end.removals@.contains(id) <==> run.existing_ids().contains(
        id,
    ) && !run.current_ids().contains(id) by {
        left_over_is_difference(run.existing_ids(), run.current_ids(), id);
    }
    left_over_is_difference(run.existing_ids(), run.current_ids(), 0);
    if run.existing_ids().no_duplicates() {
        left_over_keeps_order(run.existing_ids(), run.current_ids());
    }
}

/// Both kinds of runs begin with the documents of the index, with no file
/// visited.
pub proof fn runs_begin_with_the_index(existing: Vec<i64>, full: SyncRun, incremental: SyncRun)
    requires
        call_ensures(SyncRun::full, (existing,), full),
        call_ensures(SyncRun::incremental, (existing,), incremental),
    ensures
        !full.is_incremental(),
        incremental.is_incremental(),
        full.existing_ids() == existing@,
        incremental.existing_ids() == existing@,
        full.current_ids().len() == 0,
        incremental.current_ids().len() == 0,
        full.upsert_count() == 0,
        incremental.upsert_count() == 0,
{
}

/// A walk goes into everything but directories whose name starts with a full
/// stop.
pub proof fn hidden_directories_are_left_out(name: &str, is_dir: bool, goes: bool)
    requires
        call_ensures(walk_into, (name, is_dir), goes),
    ensures
        !is_dir ==> goes,
        is_dir ==> (goes <==> !seq!['.'].is_prefix_of(name@)),
{
    if name@.len() > 0 {
        assert(name@.take(1) =~= seq![name@[0]]);
        if name@[0] == '.' {
            assert(seq!['.'] =~= name@.subrange(0, 1));
        }
        if seq!['.'].is_prefix_of(name@) {
            assert(name@.subrange(0, 1)[0] == '.');
        }
    }
}

/// The document that is made of a file by paragraphs holds the content of the
/// file, every line break included.
pub proof fn documents_hold_the_content(
    path: &FsPath,
    title: &str,
    content: String,
    kind: FileKind,
    doc: TitledDocument,
)
    requires
        call_ensures(make_document, (path, title, content, kind), doc),
    ensures
        doc@.title == title@,
        doc@.path == path.text@,
        doc@.id == fnv1a(path.raw@) as i64,
        kind != FileKind::Json && kind != FileKind::Jsonl ==> doc@.body == content@ && doc@.chunks
            is None,
        kind == FileKind::Json || kind == FileKind::Jsonl ==> doc@.chunks is Some,
{
}

} // verus!
