//! Documents that carry a title, as the in-memory and the LanceDB back end
//! hold them, and what a search finds of them.

use crate::order::Ranked;
use crate::retrieve::chunker::{self, chunk_texts, paragraph_chunks};
use crate::double::Double;
use crate::text::{lemma_precedes, precedes, text_before, texts};
use vstd::prelude::*;

verus! {

/// A document with a title.
#[derive(Debug, Clone)]
pub struct TitledDocument {
    /// Stable identifier, assigned by the caller.
    pub id: i64,
    pub title: String,
    pub body: String,
    /// Absolute path of the file.
    pub path: String,
    /// Chunks that the caller has cut: line, column and text.
    pub chunks: Option<Vec<(usize, usize, String)>>,
}

/// The mathematical counterpart of a [`TitledDocument`].
pub struct DocumentModel {
    pub id: i64,
    pub title: Seq<char>,
    pub body: Seq<char>,
    pub path: Seq<char>,
    pub chunks: Option<Seq<(usize, usize, Seq<char>)>>,
}

/// The mathematical counterpart of a list of chunks.
pub open spec fn cut_chunks(chunks: Seq<(usize, usize, String)>) -> Seq<(usize, usize, Seq<char>)> {
    chunks.map_values(|c: (usize, usize, String)| (c.0, c.1, c.2@))
}

impl View for TitledDocument {
    type V = DocumentModel;

    open spec fn view(&self) -> DocumentModel {
        DocumentModel {
            id: self.id,
            title: self.title@,
            body: self.body@,
            path: self.path@,
            chunks: match self.chunks {
                Some(c) => Some(cut_chunks(c@)),
                None => None,
            },
        }
    }
}

/// A copy of a list of chunks.
pub fn copy_chunks(chunks: &Vec<(usize, usize, String)>) -> (r: Vec<(usize, usize, String)>)
    ensures
        cut_chunks(r@) == cut_chunks(chunks@),
{
    let mut r: Vec<(usize, usize, String)> = Vec::new();
    let mut i: usize = 0;
    while i < chunks.len()
        invariant
            i <= chunks@.len(),
            cut_chunks(r@) == cut_chunks(chunks@).take(i as int),
        decreases chunks@.len() - i,
    {
        let ghost before = r@;
        let copied = (chunks[i].0, chunks[i].1, chunks[i].2.clone());
        r.push(copied);
        proof {
            assert(cut_chunks(r@) =~= cut_chunks(before).push((copied.0, copied.1, copied.2@)));
        }
        i += 1;
    }
    r
}

impl TitledDocument {
    /// A copy of the document.
    pub fn copy(&self) -> (r: TitledDocument)
        ensures
            r@ == self@,
    {
        TitledDocument {
            id: self.id,
            title: self.title.clone(),
            body: self.body.clone(),
            path: self.path.clone(),
            chunks: match &self.chunks {
                Some(c) => Some(copy_chunks(c)),
                None => None,
            },
        }
    }
}

/// A document that matches a query.
#[derive(Debug, Clone)]
pub struct SearchResult {
    pub id: i64,
    pub title: String,
    pub path: String,
    pub score: Double,
}

/// The mathematical counterpart of a [`SearchResult`].
pub struct ResultModel {
    pub id: i64,
    pub title: Seq<char>,
    pub path: Seq<char>,
    pub score: Double,
}

impl View for SearchResult {
    type V = ResultModel;

    open spec fn view(&self) -> ResultModel {
        ResultModel { id: self.id, title: self.title@, path: self.path@, score: self.score }
    }
}

/// Documents are ordered by title.
impl Ranked for SearchResult {
    open spec fn ranked(a: ResultModel) -> bool {
        true
    }

    open spec fn before(a: ResultModel, b: ResultModel) -> bool {
        precedes(a.title, b.title)
    }

    proof fn order_laws(a: ResultModel, b: ResultModel, c: ResultModel) {
        lemma_precedes(a.title, b.title, c.title);
    }

    fn is_before(&self, other: &Self) -> (r: bool) {
        text_before(&self.title, &other.title)
    }
}

/// A chunk that is near to a query.
#[derive(Debug, Clone)]
pub struct ChunkSearchResult {
    pub doc_id: i64,
    pub line: usize,
    pub column: usize,
    pub doc_title: String,
    pub doc_path: String,
    pub chunk_text: String,
    /// Distance to the query; lower is better.
    pub score: Double,
}

/// The mathematical counterpart of a [`ChunkSearchResult`].
pub struct ChunkResultModel {
    pub doc_id: i64,
    pub line: usize,
    pub column: usize,
    pub doc_title: Seq<char>,
    pub doc_path: Seq<char>,
    pub chunk_text: Seq<char>,
    pub score: Double,
}

impl View for ChunkSearchResult {
    type V = ChunkResultModel;

    open spec fn view(&self) -> ChunkResultModel {
        ChunkResultModel {
            doc_id: self.doc_id,
            line: self.line,
            column: self.column,
            doc_title: self.doc_title@,
            doc_path: self.doc_path@,
            chunk_text: self.chunk_text@,
            score: self.score,
        }
    }
}

/// Chunks are ordered by score, the lowest first.
impl Ranked for ChunkSearchResult {
    open spec fn ranked(a: ChunkResultModel) -> bool {
        a.score.is_number()
    }

    open spec fn before(a: ChunkResultModel, b: ChunkResultModel) -> bool {
        a.score.lt(b.score)
    }

    proof fn order_laws(a: ChunkResultModel, b: ChunkResultModel, c: ChunkResultModel) {
    }

    fn is_before(&self, other: &Self) -> (r: bool) {
        self.score.less(other.score)
    }
}

/// A piece of text of a titled document, ready to be embedded.
#[derive(Debug, Clone)]
pub struct TitledChunk {
    pub doc_id: i64,
    pub line: usize,
    pub column: usize,
    pub text: String,
    pub doc_title: String,
    pub doc_path: String,
}

/// The mathematical counterpart of a [`TitledChunk`].
pub struct TitledChunkModel {
    pub doc_id: i64,
    pub line: usize,
    pub column: usize,
    pub text: Seq<char>,
    pub doc_title: Seq<char>,
    pub doc_path: Seq<char>,
}

impl View for TitledChunk {
    type V = TitledChunkModel;

    open spec fn view(&self) -> TitledChunkModel {
        TitledChunkModel {
            doc_id: self.doc_id,
            line: self.line,
            column: self.column,
            text: self.text@,
            doc_title: self.doc_title@,
            doc_path: self.doc_path@,
        }
    }
}

/// A paragraph under its title: the two with a blank line between them, or the
/// paragraph alone where the title is empty.
pub open spec fn under_title(title: Seq<char>, paragraph: Seq<char>) -> Seq<char> {
    if title.len() == 0 {
        paragraph
    } else {
        title + "\n\n"@ + paragraph
    }
}

/// The chunks of a titled document: each paragraph of `body` under the title,
/// or the title alone where there is no paragraph.
pub open spec fn titled_chunks(title: Seq<char>, body: Seq<char>) -> Seq<Seq<char>> {
    let paragraphs = chunk_texts(paragraph_chunks(body, 0));
    if paragraphs.len() == 0 {
        seq![title]
    } else {
        paragraphs.map_values(|p: Seq<char>| under_title(title, p))
    }
}

/// Splits a titled document into embeddable chunks: one for each paragraph,
/// each with the title before it. A document without paragraphs is its title.
pub fn chunk_document(title: &str, body: &str) -> (r: Vec<String>)
    ensures
        texts(r@) == titled_chunks(title@, body@),
        r@.len() >= 1,
{
    let paragraphs = chunker::chunk_document(body);
    if paragraphs.len() == 0 {
        let r = vec![title.to_owned()];
        proof {
            assert(texts(r@) =~= seq![title@]);
        }
        return r;
    }
    let mut r: Vec<String> = Vec::new();
    let mut i: usize = 0;
    while i < paragraphs.len()
        invariant
            i <= paragraphs@.len(),
            r@.len() == i,
            forall|k: int|
                0 <= k < i ==> #[trigger] r@[k]@ == under_title(title@, paragraphs@[k]@),
        decreases paragraphs@.len() - i,
    {
        if title.is_empty() {
            r.push(paragraphs[i].clone());
        } else {
            let mut chunk = title.to_owned();
            chunk.append("\n\n");
            chunk.append(&paragraphs[i]);
            r.push(chunk);
        }
        i += 1;
    }
    proof {
        assert(texts(paragraphs@) == chunk_texts(paragraph_chunks(body@, 0)));
        assert(texts(r@) =~= titled_chunks(title@, body@)) by {
            assert forall|k: int| 0 <= k < r@.len() implies #[trigger] texts(r@)[k] == titled_chunks(
                title@,
                body@,
            )[k] by {
                assert(texts(paragraphs@)[k] == paragraphs@[k]@);
            }
        }
    }
    r
}

/// Every paragraph of a titled document is one chunk, under the title where
/// there is one; a document without paragraphs is its title.
pub proof fn paragraphs_stand_under_the_title(title: Seq<char>, body: Seq<char>)
    ensures
        ({
            let paragraphs = paragraph_chunks(body, 0);
            let chunks = titled_chunks(title, body);
            &&& paragraphs.len() == 0 ==> chunks == seq![title]
            &&& paragraphs.len() > 0 ==> chunks.len() == paragraphs.len() && forall|i: int|
                0 <= i < chunks.len() ==> {
                    &&& title.len() > 0 ==> #[trigger] chunks[i] == title + "\n\n"@
                        + paragraphs[i].text
                    &&& title.len() == 0 ==> chunks[i] == paragraphs[i].text
                }
        }),
{
    assert(chunk_texts(paragraph_chunks(body, 0)).len() == paragraph_chunks(body, 0).len());
}

} // verus!
