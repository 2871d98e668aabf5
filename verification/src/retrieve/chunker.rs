//! Text chunkers.
//!
//! A [`Chunker`] splits the content of one file into indexable pieces, each
//! with the range of source lines that it occupies. Line numbers start at
//! zero and both ends of a range belong to it.

use crate::json::{
    json_entries, json_member, json_of, json_printed, json_read, json_str, member, print_json,
    read_json, Json,
};
use crate::seqs::{lemma_filter_all, lemma_filter_none};
use crate::text::{
    bare, chars_of, is_blank, is_space, join, joined, lemma_bare, lemma_lines_appended,
    lemma_normalised, lemma_normalised_empty, lemma_solid_bounds, lemma_solid_from, lemma_solid_to,
    lemma_squeezed, lemma_trimmed_empty, lines, normalise, normalised, single_spaced, solid_from,
    solid_to, split_lines, squeeze, squeezed, squeezing_shortens_runs_only, string_of, texts, trim,
    trim_range, trimmed,
};
use vstd::prelude::*;

verus! {

/// A piece of text taken from a file, with the source lines that it occupies.
#[derive(Debug, Clone)]
pub struct TextChunk {
    /// First source line of the chunk.
    pub line_start: usize,
    /// Last source line of the chunk; the first one again for a chunk of one
    /// line.
    pub line_end: usize,
    /// The text, in which no two line breaks follow each other: a blank line
    /// separates chunks in storage.
    pub text: String,
}

/// The mathematical counterpart of a [`TextChunk`].
pub struct ChunkModel {
    pub line_start: nat,
    pub line_end: nat,
    pub text: Seq<char>,
}

impl View for TextChunk {
    type V = ChunkModel;

    open spec fn view(&self) -> ChunkModel {
        ChunkModel {
            line_start: self.line_start as nat,
            line_end: self.line_end as nat,
            text: self.text@,
        }
    }
}

/// The models of a list of chunks.
pub open spec fn models(chunks: Seq<TextChunk>) -> Seq<ChunkModel> {
    chunks.map_values(|c: TextChunk| c@)
}

/// What every chunker promises of the chunks of one file: there is at least
/// one, they come in source order and no two begin on the same line, none ends
/// before it begins, and none holds a blank line.
pub open spec fn chunks_ok(chunks: Seq<ChunkModel>) -> bool {
    &&& chunks.len() >= 1
    &&& starts_ascend(chunks)
    &&& forall|i: int|
        0 <= i < chunks.len() ==> {
            &&& #[trigger] chunks[i].line_start <= chunks[i].line_end
            &&& single_spaced(chunks[i].text)
        }
}

/// Each chunk begins on a later line than the one before it.
pub open spec fn starts_ascend(chunks: Seq<ChunkModel>) -> bool {
    forall|i: int, j: int|
        0 <= i < j < chunks.len() ==> #[trigger] chunks[i].line_start
            < #[trigger] chunks[j].line_start
}

/// Each chunk begins on a later line than the one before it ends on.
pub open spec fn in_source_order(chunks: Seq<ChunkModel>) -> bool {
    forall|i: int, j: int|
        0 <= i < j < chunks.len() ==> #[trigger] chunks[i].line_end < #[trigger] chunks[j].line_start
}

/// Splits the content of one file into chunks. Implementations decide on the
/// granularity.
pub trait Chunker: Send + Sync {
    /// Splits `content` into chunks. `title` is the title of the document,
    /// usually the name of the file.
    fn chunk(&self, title: &str, content: &str) -> (r: Vec<TextChunk>)
        ensures
            chunks_ok(models(r@)),
    ;
}

/// The number of line breaks in `s` at `lo..hi`.
pub open spec fn line_breaks(s: Seq<char>, lo: int, hi: int) -> nat
    decreases hi - lo,
{
    if lo >= hi {
        0
    } else if s[hi - 1] == '\n' {
        line_breaks(s, lo, hi - 1) + 1
    } else {
        line_breaks(s, lo, hi - 1)
    }
}

/// The line of the character at `pos`: the number of line breaks before it.
pub open spec fn line_of(s: Seq<char>, pos: int) -> nat {
    line_breaks(s, 0, pos)
}

/// Where the paragraph from `pos` on ends: the next pair of line breaks, or
/// the end of `s`.
pub open spec fn paragraph_end(s: Seq<char>, pos: int) -> int
    decreases s.len() - pos,
{
    if pos + 1 >= s.len() {
        s.len() as int
    } else if s[pos] == '\n' && s[pos + 1] == '\n' {
        pos
    } else {
        paragraph_end(s, pos + 1)
    }
}

/// The chunk of the paragraph at `lo..hi`, or none if it is blank: the text
/// from the first to the last character that is not white space, with the
/// lines of these two.
pub open spec fn paragraph_chunk(s: Seq<char>, lo: int, hi: int) -> Seq<ChunkModel> {
    let from = solid_from(s, lo, hi);
    let to = solid_to(s, from, hi);
    if from < to {
        seq![
            ChunkModel {
                line_start: line_of(s, from),
                line_end: line_of(s, to - 1),
                text: s.subrange(from, to),
            },
        ]
    } else {
        Seq::empty()
    }
}

/// The chunks of the paragraphs of `s` from `pos` on.
pub open spec fn paragraph_chunks(s: Seq<char>, pos: int) -> Seq<ChunkModel>
    decreases s.len() - pos,
    when pos <= s.len()
{
    let end = paragraph_end(s, pos);
    proof {
        lemma_paragraph_end(s, pos);
    }
    if end >= s.len() {
        paragraph_chunk(s, pos, end)
    } else {
        paragraph_chunk(s, pos, end) + paragraph_chunks(s, end + 2)
    }
}

/// The one chunk of a file that holds no text: its title, on the first line.
pub open spec fn title_chunk(title: Seq<char>) -> Seq<ChunkModel> {
    seq![ChunkModel { line_start: 0, line_end: 0, text: squeezed(title) }]
}

/// `chunks`, or the title where there is none.
pub open spec fn or_title(chunks: Seq<ChunkModel>, title: Seq<char>) -> Seq<ChunkModel> {
    if chunks.len() == 0 {
        title_chunk(title)
    } else {
        chunks
    }
}

/// What [`paragraph_end`] finds: a pair of line breaks with none before it.
pub proof fn lemma_paragraph_end(s: Seq<char>, pos: int)
    requires
        pos <= s.len(),
    ensures
        pos <= paragraph_end(s, pos) <= s.len(),
        paragraph_end(s, pos) < s.len() ==> {
            &&& paragraph_end(s, pos) + 2 <= s.len()
            &&& s[paragraph_end(s, pos)] == '\n'
            &&& s[paragraph_end(s, pos) + 1] == '\n'
        },
        forall|i: int, j: int|
            pos <= i && j == i + 1 && j < paragraph_end(s, pos) ==> !(#[trigger] s[i] == '\n'
                && #[trigger] s[j] == '\n'),
    decreases s.len() - pos,
{
    if pos + 1 < s.len() && !(s[pos] == '\n' && s[pos + 1] == '\n') {
        lemma_paragraph_end(s, pos + 1);
    }
}

pub(crate) proof fn lemma_line_breaks_split(s: Seq<char>, lo: int, mid: int, hi: int)
    requires
        lo <= mid <= hi,
    ensures
        line_breaks(s, lo, hi) == line_breaks(s, lo, mid) + line_breaks(s, mid, hi),
        line_breaks(s, mid, hi) <= hi - mid,
    decreases hi - mid,
{
    if mid < hi {
        lemma_line_breaks_split(s, lo, mid, hi - 1);
    }
}

/// The number of line breaks in `cs` at `lo..hi`.
pub(crate) fn count_newlines(cs: &Vec<char>, lo: usize, hi: usize) -> (r: usize)
    requires
        lo <= hi <= cs@.len(),
    ensures
        r == line_breaks(cs@, lo as int, hi as int),
        r <= hi - lo,
{
    let mut n: usize = 0;
    let mut i: usize = lo;
    while i < hi
        invariant
            lo <= i <= hi <= cs@.len(),
            n == line_breaks(cs@, lo as int, i as int),
            n <= i - lo,
        decreases hi - i,
    {
        if cs[i] == '\n' {
            n += 1;
        }
        i += 1;
    }
    n
}

/// Appends the chunk of the paragraph at `lo..hi`, unless it is blank.
/// `abs_line` is the line of its first character.
fn push_para_chunk(chunks: &mut Vec<TextChunk>, cs: &Vec<char>, lo: usize, hi: usize, abs_line: usize)
    requires
        lo <= hi <= cs@.len(),
        abs_line == line_of(cs@, lo as int),
    ensures
        models(final(chunks)@) == models(old(chunks)@) + paragraph_chunk(cs@, lo as int, hi as int),
{
    let (from, to) = trim_range(cs, lo, hi);
    if from < to {
        proof {
            lemma_line_breaks_split(cs@, 0, lo as int, from as int);
            lemma_line_breaks_split(cs@, 0, from as int, to as int);
            lemma_line_breaks_split(cs@, 0, 0, to as int);
            lemma_solid_to(cs@, from as int, hi as int);
            assert(is_space('\n'));
            assert(line_of(cs@, to - 1) == line_of(cs@, to as int));
        }
        let line_start: usize = abs_line + count_newlines(cs, lo, from);
        let line_end: usize = line_start + count_newlines(cs, from, to);
        let chunk = TextChunk { line_start, line_end, text: string_of(cs, from, to) };
        let ghost before = chunks@;
        chunks.push(chunk);
        proof {
            assert(models(chunks@) =~= models(before) + seq![chunk@]);
        }
    } else {
        proof {
            assert(models(chunks@) + Seq::<ChunkModel>::empty() =~= models(chunks@));
        }
    }
}

/// The chunks of the paragraphs of `cs`.
fn paragraphs(cs: &Vec<char>) -> (chunks: Vec<TextChunk>)
    ensures
        models(chunks@) == paragraph_chunks(cs@, 0),
{
    let mut chunks: Vec<TextChunk> = Vec::new();
    let mut pos: usize = 0;
    let mut abs_line: usize = 0;
    proof {
        assert(models(chunks@) + paragraph_chunks(cs@, 0) =~= paragraph_chunks(cs@, 0));
    }
    loop
        invariant
            pos <= cs@.len(),
            abs_line == line_of(cs@, pos as int),
            models(chunks@) + paragraph_chunks(cs@, pos as int) == paragraph_chunks(cs@, 0),
        decreases cs@.len() - pos,
    {
        let mut end: usize = pos;
        while end < cs.len() && !(cs[end] == '\n' && end + 1 < cs.len() && cs[end + 1] == '\n')
            invariant
                pos <= end <= cs@.len(),
                paragraph_end(cs@, pos as int) == paragraph_end(cs@, end as int),
            decreases cs@.len() - end,
        {
            end += 1;
        }
        let ghost before = models(chunks@);
        push_para_chunk(&mut chunks, cs, pos, end, abs_line);
        if end == cs.len() {
            return chunks;
        }
        proof {
            lemma_line_breaks_split(cs@, 0, pos as int, end as int);
            lemma_line_breaks_split(cs@, 0, 0, end as int);
            assert(line_of(cs@, end + 2) == line_of(cs@, end as int) + 2) by {
                reveal_with_fuel(line_breaks, 3);
            }
            assert(before + (paragraph_chunk(cs@, pos as int, end as int) + paragraph_chunks(
                cs@,
                end + 2,
            )) =~= models(chunks@) + paragraph_chunks(cs@, end + 2));
        }
        abs_line = abs_line + count_newlines(cs, pos, end) + 2;
        pos = end + 2;
    }
}

/// The chunks of paragraphs keep what every chunker promises, but that there
/// is at least one, and none begins before the line of `pos`. Beyond that their
/// ranges of lines do not overlap: each ends before the next one begins.
pub proof fn paragraphs_do_not_overlap(s: Seq<char>, pos: int)
    requires
        0 <= pos <= s.len(),
    ensures
        in_source_order(paragraph_chunks(s, pos)),
        forall|i: int|
            0 <= i < paragraph_chunks(s, pos).len() ==> {
                let c = #[trigger] paragraph_chunks(s, pos)[i];
                &&& line_of(s, pos) <= c.line_start <= c.line_end
                &&& single_spaced(c.text)
            },
    decreases s.len() - pos,
{
    let end = paragraph_end(s, pos);
    lemma_paragraph_end(s, pos);
    let from = solid_from(s, pos, end);
    let to = solid_to(s, from, end);
    lemma_solid_from(s, pos, end);
    lemma_solid_to(s, from, end);
    let head = paragraph_chunk(s, pos, end);
    if from < to {
        lemma_line_breaks_split(s, 0, pos, from);
        lemma_line_breaks_split(s, 0, from, to - 1);
        lemma_line_breaks_split(s, 0, to - 1, end);
        let text = s.subrange(from, to);
        assert forall|i: int, j: int| 0 <= i && j == i + 1 && j < text.len() implies !(#[trigger] text[i]
            == '\n' && #[trigger] text[j] == '\n') by {
            assert(text[i] == s[from + i] && text[j] == s[from + j]);
        }
        assert(head[0].text == text);
    }
    if end < s.len() {
        paragraphs_do_not_overlap(s, end + 2);
        lemma_line_breaks_split(s, 0, pos, end);
        assert(line_of(s, end + 2) == line_of(s, end) + 2) by {
            reveal_with_fuel(line_breaks, 3);
        }
        let tail = paragraph_chunks(s, end + 2);
        let all = paragraph_chunks(s, pos);
        assert(all == head + tail);
        assert forall|i: int| 0 <= i < all.len() implies {
            let c = #[trigger] all[i];
            &&& line_of(s, pos) <= c.line_start <= c.line_end
            &&& single_spaced(c.text)
        } by {
            if i >= head.len() {
                assert(all[i] == tail[i - head.len()]);
            }
        }
        assert forall|i: int, j: int| 0 <= i < j < all.len() implies #[trigger] all[i].line_end
            < #[trigger] all[j].line_start by {
            assert(all[j] == tail[j - head.len()]);
            if i >= head.len() {
                assert(all[i] == tail[i - head.len()]);
            }
        }
    }
}

/// The title stands in where a file has no chunks of its own.
fn chunks_or_title(chunks: Vec<TextChunk>, title: &str) -> (r: Vec<TextChunk>)
    requires
        starts_ascend(models(chunks@)),
        forall|i: int|
            0 <= i < chunks@.len() ==> {
                &&& #[trigger] models(chunks@)[i].line_start <= models(chunks@)[i].line_end
                &&& single_spaced(models(chunks@)[i].text)
            },
    ensures
        models(r@) == or_title(models(chunks@), title@),
        chunks_ok(models(r@)),
{
    if chunks.len() == 0 {
        let chunk = TextChunk { line_start: 0, line_end: 0, text: squeeze(title) };
        let r = vec![chunk];
        proof {
            lemma_squeezed(title@);
            assert(models(r@) =~= title_chunk(title@));
        }
        r
    } else {
        chunks
    }
}

/// Chunker for Markdown and plain text: one chunk for each paragraph, where
/// blank lines separate paragraphs.
pub struct MarkdownChunker;

impl Chunker for MarkdownChunker {
    fn chunk(&self, title: &str, content: &str) -> (r: Vec<TextChunk>)
        ensures
            models(r@) == or_title(paragraph_chunks(content@, 0), title@),
    {
        let cs = chars_of(content);
        let chunks = paragraphs(&cs);
        proof {
            paragraphs_do_not_overlap(content@, 0);
        }
        chunks_or_title(chunks, title)
    }
}

/// The text of the member `key`, where that is a string.
pub open spec fn text_member(j: Json, key: Seq<char>) -> Option<Seq<char>> {
    match member(j, key) {
        Some(Json::Text(t)) => Some(t),
        _ => None,
    }
}

/// The text of the first of the members `keys` that is a string.
pub open spec fn first_text(j: Json, keys: Seq<Seq<char>>) -> Option<Seq<char>>
    decreases keys.len(),
{
    if keys.len() == 0 {
        None
    } else {
        match text_member(j, keys[0]) {
            Some(t) => Some(t),
            None => first_text(j, keys.drop_first()),
        }
    }
}

/// The names under which a message may hold its content, the first one first.
pub open spec fn content_keys() -> Seq<Seq<char>> {
    seq!["mes"@, "content"@, "message"@, "text"@]
}

/// The names under which a message may hold its speaker, the first one first.
pub open spec fn role_keys() -> Seq<Seq<char>> {
    seq!["name"@, "role"@, "speaker"@, "author"@]
}

/// `key: text` for each entry that is a string.
pub open spec fn text_fields(entries: Seq<(Seq<char>, Json)>) -> Seq<Seq<char>>
    decreases entries.len(),
{
    if entries.len() == 0 {
        Seq::empty()
    } else {
        let rest = text_fields(entries.drop_last());
        match entries.last().1 {
            Json::Text(t) => rest.push(entries.last().0 + ": "@ + t),
            _ => rest,
        }
    }
}

/// The readable text of a message: `speaker: content`, or the content alone
/// where the speaker is missing or empty. Without content it is all the string
/// members, one on a line; without any of those there is none.
pub open spec fn composed(
    role: Option<Seq<char>>,
    content: Option<Seq<char>>,
    fields: Seq<Seq<char>>,
) -> Option<Seq<char>> {
    match content {
        Some(content) => if role is Some && role->0.len() > 0 {
            Some(normalised(role->0 + ": "@ + content))
        } else {
            Some(normalised(content))
        },
        None => if joined(fields, "\n"@).len() == 0 {
            None
        } else {
            Some(normalised(joined(fields, "\n"@)))
        },
    }
}

/// The text of a JSON value: of an object the message that it holds; of any
/// other value, and of an object without a message, the value as JSON.
pub open spec fn message_text(j: Json) -> Seq<char> {
    let message = match j {
        Json::Object(entries) => composed(
            first_text(j, role_keys()),
            first_text(j, content_keys()),
            text_fields(entries),
        ),
        _ => None,
    };
    match message {
        Some(text) => text,
        None => normalised(json_printed(j)),
    }
}

/// Composes the readable text of a message; see [`composed`].
pub fn compose_message(role: Option<&str>, content: Option<&str>, fields: &Vec<String>) -> (r: Option<
    String,
>)
    ensures
        ({
            let text = composed(
                match role {
                    Some(t) => Some(t@),
                    None => None,
                },
                match content {
                    Some(t) => Some(t@),
                    None => None,
                },
                texts(fields@),
            );
            match r {
                Some(t) => text == Some(t@),
                None => text is None,
            }
        }),
{
    match content {
        Some(content) => {
            if let Some(r) = role {
                if !r.is_empty() {
                    let mut line = r.to_owned();
                    line.append(": ");
                    line.append(content);
                    return Some(normalise(&line));
                }
            }
            Some(normalise(content))
        },
        None => {
            let all = join(fields, "\n");
            if all.as_str().is_empty() {
                None
            } else {
                Some(normalise(&all))
            }
        },
    }
}

/// The text of one line of a log: the message that it holds, or the line
/// itself where it is not JSON or its message is empty. Carriage returns at the
/// end do not count.
pub open spec fn log_line_text(line: Seq<char>) -> Seq<char> {
    match json_read(bare(line)) {
        Some(j) => if message_text(j).len() > 0 {
            message_text(j)
        } else {
            normalised(line)
        },
        None => normalised(line),
    }
}

/// The chunks of the lines of a log: one for each line that is not blank, under
/// the number of that line.
pub open spec fn log_chunks(lines: Seq<Seq<char>>) -> Seq<ChunkModel>
    decreases lines.len(),
{
    if lines.len() == 0 {
        Seq::empty()
    } else {
        let rest = log_chunks(lines.drop_last());
        if is_blank(lines.last()) {
            rest
        } else {
            let line = (lines.len() - 1) as nat;
            rest.push(
                ChunkModel { line_start: line, line_end: line, text: log_line_text(lines.last()) },
            )
        }
    }
}

/// The text of the member `key`, where that is a string.
fn text_of_member<'a>(value: &'a serde_json::Value, key: &str) -> (r: Option<&'a str>)
    ensures
        match r {
            Some(t) => text_member(json_of(*value), key@) == Some(t@),
            None => text_member(json_of(*value), key@) is None,
        },
{
    match json_member(value, key) {
        Some(v) => json_str(v),
        None => None,
    }
}

/// The text of the first of four members that is a string.
fn first_text_of<'a>(value: &'a serde_json::Value, k0: &str, k1: &str, k2: &str, k3: &str) -> (r:
    Option<&'a str>)
    ensures
        match r {
            Some(t) => first_text(json_of(*value), seq![k0@, k1@, k2@, k3@]) == Some(t@),
            None => first_text(json_of(*value), seq![k0@, k1@, k2@, k3@]) is None,
        },
{
    proof {
        let keys = seq![k0@, k1@, k2@, k3@];
        assert(keys.drop_first() =~= seq![k1@, k2@, k3@]);
        assert(keys.drop_first().drop_first() =~= seq![k2@, k3@]);
        assert(keys.drop_first().drop_first().drop_first() =~= seq![k3@]);
        reveal_with_fuel(first_text, 5);
    }
    match text_of_member(value, k0) {
        Some(t) => Some(t),
        None => match text_of_member(value, k1) {
            Some(t) => Some(t),
            None => match text_of_member(value, k2) {
                Some(t) => Some(t),
                None => text_of_member(value, k3),
            },
        },
    }
}

/// `key: text` for each member of an object that is a string.
fn string_fields(entries: &Vec<(&String, &serde_json::Value)>) -> (r: Vec<String>)
    ensures
        texts(r@) == text_fields(
            entries@.map_values(|e: (&String, &serde_json::Value)| (e.0@, json_of(*e.1))),
        ),
{
    let ghost all = entries@.map_values(|e: (&String, &serde_json::Value)| (e.0@, json_of(*e.1)));
    let mut r: Vec<String> = Vec::new();
    let mut i: usize = 0;
    while i < entries.len()
        invariant
            i <= entries@.len(),
            all == entries@.map_values(|e: (&String, &serde_json::Value)| (e.0@, json_of(*e.1))),
            texts(r@) == text_fields(all.take(i as int)),
        decreases entries@.len() - i,
    {
        proof {
            assert(all.take(i + 1).drop_last() =~= all.take(i as int));
        }
        let (key, value) = entries[i];
        if let Some(t) = json_str(value) {
            let mut field = key.clone();
            field.append(": ");
            field.append(t);
            let ghost before = r@;
            r.push(field);
            proof {
                assert(texts(r@) =~= texts(before).push(field@));
            }
        }
        i += 1;
    }
    proof {
        assert(all.take(i as int) =~= all);
    }
    r
}

/// The text of a JSON value; see [`message_text`].
pub fn extract_message_text(value: &serde_json::Value) -> (r: String)
    ensures
        r@ == message_text(json_of(*value)),
{
    if let Some(entries) = json_entries(value) {
        let role = first_text_of(value, "name", "role", "speaker", "author");
        let content = first_text_of(value, "mes", "content", "message", "text");
        let fields = string_fields(&entries);
        if let Some(text) = compose_message(role, content, &fields) {
            return text;
        }
    }
    normalise(&print_json(value))
}

/// The chunks of a log keep what every chunker promises, but that there is at
/// least one; each lies on one line of the log.
pub proof fn lemma_log_chunks(lines: Seq<Seq<char>>)
    ensures
        in_source_order(log_chunks(lines)),
        forall|i: int|
            0 <= i < log_chunks(lines).len() ==> {
                let c = #[trigger] log_chunks(lines)[i];
                &&& c.line_start == c.line_end < lines.len()
                &&& single_spaced(c.text)
            },
    decreases lines.len(),
{
    if lines.len() > 0 {
        lemma_log_chunks(lines.drop_last());
        let line = lines.last();
        lemma_normalised(line);
        if let Some(j) = json_read(bare(line)) {
            lemma_message_text(j);
        }
    }
}

/// No two line breaks follow each other in the text of a message.
pub(crate) proof fn lemma_message_text(j: Json)
    ensures
        single_spaced(message_text(j)),
{
    lemma_normalised(json_printed(j));
    if let Json::Object(entries) = j {
        lemma_normalised(joined(text_fields(entries), "\n"@));
        if let Some(content) = first_text(j, content_keys()) {
            lemma_normalised(content);
            if let Some(role) = first_text(j, role_keys()) {
                lemma_normalised(role + ": "@ + content);
            }
        }
    }
}

/// The text of one line of a log; see [`log_line_text`].
fn line_text(line: &str) -> (r: String)
    ensures
        r@ == log_line_text(line@),
{
    if let Some(value) = read_json(line) {
        let text = extract_message_text(&value);
        if !text.as_str().is_empty() {
            return text;
        }
    }
    normalise(line)
}

/// Chunker for logs of one JSON value on a line: one chunk for each line that
/// is not blank. A line that is not JSON is kept as it is, so that a partial
/// write does not break indexing.
pub struct JsonlChunker;

impl Chunker for JsonlChunker {
    fn chunk(&self, title: &str, content: &str) -> (r: Vec<TextChunk>)
        ensures
            models(r@) == or_title(log_chunks(split_lines(content@)), title@),
    {
        let chunks = log_lines(content);
        proof {
            lemma_log_chunks(split_lines(content@));
        }
        chunks_or_title(chunks, title)
    }
}

/// The chunks of the lines of a log.
pub(crate) fn log_lines(content: &str) -> (chunks: Vec<TextChunk>)
    ensures
        models(chunks@) == log_chunks(split_lines(content@)),
{
    let all = lines(content);
    let ghost all_texts = texts(all@);
    let mut chunks: Vec<TextChunk> = Vec::new();
    let mut i: usize = 0;
    while i < all.len()
        invariant
            i <= all@.len(),
            all_texts == texts(all@),
            models(chunks@) == log_chunks(all_texts.take(i as int)),
        decreases all@.len() - i,
    {
        let line = &all[i];
        proof {
            let upto = all_texts.take(i + 1);
            assert(upto.drop_last() =~= all_texts.take(i as int));
            assert(upto.last() == line@);
            lemma_trimmed_empty(line@);
        }
        if !trim(line).as_str().is_empty() {
            let ghost before = chunks@;
            let chunk = TextChunk { line_start: i, line_end: i, text: line_text(line) };
            chunks.push(chunk);
            proof {
                assert(models(chunks@) =~= models(before).push(chunk@));
            }
        }
        i += 1;
    }
    proof {
        assert(all_texts.take(i as int) =~= all_texts);
    }
    chunks
}

/// The texts of a list of chunks.
pub open spec fn chunk_texts(chunks: Seq<ChunkModel>) -> Seq<Seq<char>> {
    chunks.map_values(|c: ChunkModel| c.text)
}

/// The paragraphs of `body`, trimmed, without the blank ones. Storage uses
/// this where a document brings no chunks of its own.
pub fn chunk_document(body: &str) -> (r: Vec<String>)
    ensures
        texts(r@) == chunk_texts(paragraph_chunks(body@, 0)),
{
    let cs = chars_of(body);
    let chunks = paragraphs(&cs);
    let mut r: Vec<String> = Vec::new();
    let mut i: usize = 0;
    while i < chunks.len()
        invariant
            i <= chunks@.len(),
            texts(r@) == chunk_texts(models(chunks@)).take(i as int),
        decreases chunks@.len() - i,
    {
        let ghost before = r@;
        r.push(chunks[i].text.clone());
        proof {
            assert(texts(r@) =~= texts(before).push(chunks@[i as int].text@));
        }
        i += 1;
    }
    r
}

/// Lines that differ in carriage returns at their end alone make the same
/// chunks.
proof fn lemma_log_chunks_prefix(a: Seq<Seq<char>>, b: Seq<Seq<char>>)
    requires
        a.len() <= b.len(),
        forall|i: int| 0 <= i < a.len() ==> bare(#[trigger] a[i]) == bare(b[i]),
    ensures
        log_chunks(a).is_prefix_of(log_chunks(b)),
        a.len() == b.len() ==> log_chunks(a) == log_chunks(b),
    decreases b.len(),
{
    if a.len() < b.len() {
        let shorter = b.drop_last();
        assert forall|i: int| 0 <= i < a.len() implies bare(#[trigger] a[i]) == bare(shorter[i]) by {
            assert(shorter[i] == b[i]);
        }
        lemma_log_chunks_prefix(a, shorter);
        let x = log_chunks(a);
        let y = log_chunks(shorter);
        let z = log_chunks(b);
        assert(z.subrange(0, x.len() as int) =~= y.subrange(0, x.len() as int));
    } else if a.len() > 0 {
        let c = a.drop_last();
        let d = b.drop_last();
        assert forall|i: int| 0 <= i < c.len() implies bare(#[trigger] c[i]) == bare(d[i]) by {
            assert(c[i] == a[i] && d[i] == b[i]);
        }
        lemma_log_chunks_prefix(c, d);
        assert(bare(a[a.len() - 1]) == bare(b[b.len() - 1]));
        lemma_bare(a.last());
        lemma_bare(b.last());
    }
}

/// Appending to a log leaves its chunks as they are: whatever begins a new
/// line after `before` keeps the lines and the text of every chunk of
/// `before`, so that none of them has to be embedded again. As long as a log
/// has no chunk of its own, the title stands in for one.
pub proof fn log_append_keeps_chunks(before: Seq<char>, after: Seq<char>, title: Seq<char>)
    requires
        before.is_prefix_of(after),
        before.len() == 0 || before.last() == '\n' || before.len() == after.len()
            || after[before.len() as int] == '\n',
    ensures
        log_chunks(split_lines(before)).is_prefix_of(log_chunks(split_lines(after))),
        log_chunks(split_lines(before)).len() > 0 ==> or_title(
            log_chunks(split_lines(before)),
            title,
        ).is_prefix_of(or_title(log_chunks(split_lines(after)), title)),
{
    lemma_lines_appended(before, after, 0);
    lemma_log_chunks_prefix(split_lines(before), split_lines(after));
}

/// Every chunk of a log lies on the one line that its text was taken from.
pub proof fn log_chunk_is_its_line(lines: Seq<Seq<char>>, i: int)
    requires
        0 <= i < log_chunks(lines).len(),
    ensures
        ({
            let c = log_chunks(lines)[i];
            &&& c.line_start == c.line_end < lines.len()
            &&& !is_blank(lines[c.line_start as int])
            &&& c.text == log_line_text(lines[c.line_start as int])
        }),
    decreases lines.len(),
{
    let shorter = lines.drop_last();
    if i < log_chunks(shorter).len() {
        log_chunk_is_its_line(shorter, i);
        assert(log_chunks(lines)[i] == log_chunks(shorter)[i]);
    }
}

/// Every line of a log that is not blank has its chunk, and that chunk holds
/// text.
pub proof fn log_line_has_chunk(lines: Seq<Seq<char>>, k: int)
    requires
        0 <= k < lines.len(),
        !is_blank(lines[k]),
    ensures
        exists|i: int|
            0 <= i < log_chunks(lines).len() && #[trigger] log_chunks(lines)[i].line_start == k,
        log_line_text(lines[k]).len() > 0,
    decreases lines.len(),
{
    let shorter = lines.drop_last();
    lemma_normalised_empty(lines[k]);
    if k < lines.len() - 1 {
        log_line_has_chunk(shorter, k);
        let i = choose|i: int|
            0 <= i < log_chunks(shorter).len() && #[trigger] log_chunks(shorter)[i].line_start == k;
        assert(log_chunks(lines)[i].line_start == k);
    } else {
        let i = log_chunks(lines).len() - 1;
        assert(log_chunks(lines)[i].line_start == k);
    }
}

/// The chunk of a paragraph is a stretch of the source: its text stands there
/// from the line on which it begins to the line on which it ends, and starts
/// and ends with something else than white space.
pub proof fn paragraph_chunk_is_source(s: Seq<char>, pos: int, i: int)
    requires
        0 <= pos <= s.len(),
        0 <= i < paragraph_chunks(s, pos).len(),
    ensures
        exists|from: int, to: int|
            #![trigger s.subrange(from, to)]
            {
                let c = paragraph_chunks(s, pos)[i];
                &&& pos <= from < to <= s.len()
                &&& c.text == s.subrange(from, to)
                &&& c.line_start == line_of(s, from)
                &&& c.line_end == line_of(s, to - 1)
                &&& !is_space(s[from])
                &&& !is_space(s[to - 1])
            },
    decreases s.len() - pos,
{
    let end = paragraph_end(s, pos);
    lemma_paragraph_end(s, pos);
    let from = solid_from(s, pos, end);
    let to = solid_to(s, from, end);
    lemma_solid_from(s, pos, end);
    lemma_solid_to(s, from, end);
    let head = paragraph_chunk(s, pos, end);
    if i < head.len() {
        assert(paragraph_chunks(s, pos)[i] == head[i]);
        assert(head[i].text == s.subrange(from, to));
    } else {
        paragraph_chunk_is_source(s, end + 2, i - head.len());
        assert(paragraph_chunks(s, pos)[i] == paragraph_chunks(s, end + 2)[i - head.len()]);
    }
}

/// No text is lost: the line of every character that is not white space lies
/// in the range of a chunk.
pub proof fn paragraph_chunks_cover(s: Seq<char>, pos: int, p: int)
    requires
        0 <= pos <= p < s.len(),
        !is_space(s[p]),
    ensures
        exists|i: int|
            0 <= i < paragraph_chunks(s, pos).len() && #[trigger] paragraph_chunks(s, pos)[i].line_start
                <= line_of(s, p) <= paragraph_chunks(s, pos)[i].line_end,
    decreases s.len() - pos,
{
    let end = paragraph_end(s, pos);
    lemma_paragraph_end(s, pos);
    let from = solid_from(s, pos, end);
    let to = solid_to(s, from, end);
    lemma_solid_from(s, pos, end);
    lemma_solid_to(s, from, end);
    let head = paragraph_chunk(s, pos, end);
    let all = paragraph_chunks(s, pos);
    if p < end {
        assert(from <= p < to);
        lemma_line_breaks_split(s, 0, from, p);
        lemma_line_breaks_split(s, 0, p, to - 1);
        assert(all[0] == head[0]);
        assert(all[0].line_start <= line_of(s, p) <= all[0].line_end);
    } else {
        assert(is_space('\n'));
        let tail = paragraph_chunks(s, end + 2);
        paragraph_chunks_cover(s, end + 2, p);
        let i = choose|i: int|
            0 <= i < tail.len() && #[trigger] tail[i].line_start <= line_of(s, p)
                <= tail[i].line_end;
        assert(all[head.len() + i] == tail[i]);
    }
}

/// The text can stand as a paragraph: it is not empty, holds no blank line, and
/// starts and ends with something else than white space.
pub open spec fn stands_alone(t: Seq<char>) -> bool {
    &&& t.len() > 0
    &&& single_spaced(t)
    &&& !is_space(t[0])
    &&& !is_space(t.last())
}

/// The paragraph from `pos` on ends at `end`, if that is the first pair of line
/// breaks, or there is none and it is the end of `s`.
proof fn lemma_paragraph_end_unique(s: Seq<char>, pos: int, end: int)
    requires
        0 <= pos <= end <= s.len(),
        end == s.len() || (end + 1 < s.len() && s[end] == '\n' && s[end + 1] == '\n'),
        forall|i: int, j: int|
            pos <= i < end && j == i + 1 && j < s.len() ==> !(#[trigger] s[i] == '\n'
                && #[trigger] s[j] == '\n'),
    ensures
        paragraph_end(s, pos) == end,
    decreases end - pos,
{
    if pos < end && pos + 1 < s.len() {
        lemma_paragraph_end_unique(s, pos + 1, end);
    }
}

/// What is joined starts with the first part.
proof fn lemma_joined_first(ts: Seq<Seq<char>>, sep: Seq<char>)
    requires
        ts.len() >= 2,
    ensures
        joined(ts, sep) == ts[0] + sep + joined(ts.drop_first(), sep),
    decreases ts.len(),
{
    let front = ts.drop_last();
    let rest = ts.drop_first();
    assert(rest.last() == ts.last());
    if ts.len() == 2 {
        assert(joined(front, sep) == ts[0]);
        assert(joined(rest, sep) == ts[1]);
    } else {
        lemma_joined_first(front, sep);
        assert(front.drop_first() =~= rest.drop_last());
        assert(joined(ts, sep) =~= ts[0] + sep + joined(rest, sep));
    }
}

proof fn lemma_rejoined(s: Seq<char>, pos: int, ts: Seq<Seq<char>>)
    requires
        0 <= pos <= s.len(),
        s.skip(pos) == joined(ts, "\n\n"@),
        forall|i: int| 0 <= i < ts.len() ==> stands_alone(#[trigger] ts[i]),
    ensures
        chunk_texts(paragraph_chunks(s, pos)) == ts,
    decreases ts.len(),
{
    reveal_strlit("\n\n");
    let sep = "\n\n"@;
    let n = s.len() as int;
    let rest_text = s.skip(pos);
    assert(forall|i: int| pos <= i < n ==> #[trigger] s[i] == rest_text[i - pos]);
    assert(is_space('\n'));
    if ts.len() == 0 {
        assert(rest_text.len() == 0);
        assert(pos == n);
        lemma_paragraph_end_unique(s, pos, n);
        assert(chunk_texts(paragraph_chunks(s, pos)) =~= ts);
    } else {
        let t = ts[0];
        let end: int = pos + t.len();
        assert(stands_alone(t));
        if ts.len() > 1 {
            lemma_joined_first(ts, sep);
            assert(rest_text == t + sep + joined(ts.drop_first(), sep));
            assert(rest_text[t.len() as int] == sep[0] && rest_text[t.len() as int + 1] == sep[1]);
            assert(s[end] == '\n' && s[end + 1] == '\n');
        }
        assert forall|i: int| 0 <= i < t.len() implies #[trigger] t[i] == s[pos + i] by {
            assert(rest_text[i] == t[i]);
        }
        assert forall|i: int, j: int| pos <= i < end && j == i + 1 && j < s.len() implies !(
        #[trigger] s[i] == '\n' && #[trigger] s[j] == '\n') by {
            assert(t[i - pos] == s[i]);
            if j < end {
                assert(t[j - pos] == s[j]);
            }
        }
        lemma_paragraph_end_unique(s, pos, end);
        assert(s[pos] == t[0]);
        assert(t[t.len() - 1] == s[end - 1]);
        assert(solid_from(s, pos, end) == pos);
        assert(solid_to(s, pos, end) == end);
        assert(s.subrange(pos, end) =~= t);
        let head = paragraph_chunk(s, pos, end);
        assert(chunk_texts(head) =~= seq![t]);
        if ts.len() > 1 {
            let rest = ts.drop_first();
            assert forall|i: int| 0 <= i < rest.len() implies stands_alone(#[trigger] rest[i]) by {
                assert(rest[i] == ts[i + 1]);
            }
            assert(s.skip(end + 2) =~= joined(rest, sep)) by {
                let m = t.len() as int + 2;
                assert(s.skip(end + 2) =~= rest_text.skip(m));
                assert((t + sep + joined(rest, sep)).skip(m) =~= joined(rest, sep));
            }
            lemma_rejoined(s, end + 2, rest);
            let tail = paragraph_chunks(s, end + 2);
            assert(paragraph_chunks(s, pos) == head + tail);
            assert(chunk_texts(head + tail) =~= chunk_texts(head) + chunk_texts(tail));
            assert(seq![t] + rest =~= ts);
        } else {
            assert(seq![t] =~= ts);
        }
    }
}

/// Texts that can stand as paragraphs come back when they are joined by blank
/// lines and cut again.
pub proof fn joined_texts_come_back(ts: Seq<Seq<char>>)
    requires
        forall|i: int| 0 <= i < ts.len() ==> stands_alone(#[trigger] ts[i]),
    ensures
        chunk_texts(paragraph_chunks(joined(ts, "\n\n"@), 0)) == ts,
{
    let s = joined(ts, "\n\n"@);
    assert(s.skip(0) =~= s);
    lemma_rejoined(s, 0, ts);
}

/// The texts of the paragraphs of `s`, joined by blank lines and cut again, are
/// the same texts.
pub proof fn chunks_come_back(s: Seq<char>)
    ensures
        ({
            let ts = chunk_texts(paragraph_chunks(s, 0));
            chunk_texts(paragraph_chunks(joined(ts, "\n\n"@), 0)) == ts
        }),
{
    let chunks = paragraph_chunks(s, 0);
    let ts = chunk_texts(chunks);
    paragraphs_do_not_overlap(s, 0);
    assert forall|i: int| 0 <= i < ts.len() implies stands_alone(#[trigger] ts[i]) by {
        paragraph_chunk_is_source(s, 0, i);
        assert(single_spaced(chunks[i].text));
        let (from, to) = choose|from: int, to: int|
            #![trigger s.subrange(from, to)]
            {
                let c = paragraph_chunks(s, 0)[i];
                &&& 0 <= from < to <= s.len()
                &&& c.text == s.subrange(from, to)
                &&& c.line_start == line_of(s, from)
                &&& c.line_end == line_of(s, to - 1)
                &&& !is_space(s[from])
                &&& !is_space(s[to - 1])
            };
        assert(ts[i] == s.subrange(from, to));
        assert(ts[i][0] == s[from]);
        assert(ts[i].last() == s[to - 1]);
    }
    joined_texts_come_back(ts);
}

/// The texts of the chunks of a file, joined by blank lines and chunked again
/// under the same title, are the same texts. A file without text gives its
/// title, which must have no white space at its ends then, or hold nothing else.
pub proof fn text_chunks_come_back(content: Seq<char>, title: Seq<char>)
    requires
        paragraph_chunks(content, 0).len() > 0 || stands_alone(squeezed(title))
            || paragraph_chunks(squeezed(title), 0).len() == 0,
    ensures
        ({
            let ts = chunk_texts(or_title(paragraph_chunks(content, 0), title));
            chunk_texts(or_title(paragraph_chunks(joined(ts, "\n\n"@), 0), title)) == ts
        }),
{
    let chunks = paragraph_chunks(content, 0);
    let ts = chunk_texts(or_title(chunks, title));
    if chunks.len() > 0 {
        chunks_come_back(content);
        let again = paragraph_chunks(joined(ts, "\n\n"@), 0);
        assert(chunk_texts(again).len() == again.len());
    } else {
        assert(ts =~= seq![squeezed(title)]);
        assert(joined(ts, "\n\n"@) == squeezed(title));
        if stands_alone(squeezed(title)) {
            joined_texts_come_back(ts);
            let again = paragraph_chunks(squeezed(title), 0);
            assert(chunk_texts(again).len() == again.len());
        }
    }
}

/// A character lies on the line whose number is the number of line breaks
/// before it.
pub proof fn lines_are_counted_by_line_breaks(s: Seq<char>, pos: int)
    requires
        0 <= pos <= s.len(),
    ensures
        line_of(s, pos) == s.take(pos).filter(|c: char| c == '\n').len(),
    decreases pos,
{
    reveal(Seq::filter);
    if pos > 0 {
        lines_are_counted_by_line_breaks(s, pos - 1);
        assert(s.take(pos).drop_last() =~= s.take(pos - 1));
        assert(s.take(pos).last() == s[pos - 1]);
    } else {
        assert(s.take(pos) =~= Seq::empty());
    }
}

/// What is left of the paragraph at `lo..hi`.
proof fn lemma_piece(s: Seq<char>, lo: int, hi: int)
    requires
        0 <= lo <= hi <= s.len(),
    ensures
        ({
            let t = s.subrange(lo, hi);
            chunk_texts(paragraph_chunk(s, lo, hi)) == if is_blank(t) {
                Seq::empty()
            } else {
                seq![trimmed(t)]
            }
        }),
{
    let t = s.subrange(lo, hi);
    let from = solid_from(s, lo, hi);
    let to = solid_to(s, from, hi);
    lemma_solid_from(s, lo, hi);
    lemma_solid_to(s, from, hi);
    assert forall|i: int| 0 <= i < t.len() implies #[trigger] t[i] == s[lo + i] by {}
    if from < to {
        assert(t[from - lo] == s[from]);
        assert(t[to - 1 - lo] == s[to - 1]);
        assert(!is_blank(t));
        assert forall|i: int| 0 <= i < from - lo implies is_space(#[trigger] t[i]) by {
            assert(t[i] == s[lo + i]);
        }
        assert forall|i: int| to - lo <= i < t.len() implies is_space(#[trigger] t[i]) by {
            assert(t[i] == s[lo + i]);
        }
        lemma_solid_bounds(t, 0, from - lo, to - lo, hi - lo);
        assert(trimmed(t) =~= s.subrange(from, to));
        assert(chunk_texts(paragraph_chunk(s, lo, hi)) =~= seq![trimmed(t)]);
    } else {
        assert forall|i: int| 0 <= i < t.len() implies is_space(#[trigger] t[i]) by {
            assert(t[i] == s[lo + i]);
            if lo + i >= from {
                assert(is_space(s[lo + i]));
            }
        }
        assert(chunk_texts(paragraph_chunk(s, lo, hi)) =~= Seq::empty());
    }
}

/// The pieces that hold text, trimmed.
pub open spec fn solid_pieces(pieces: Seq<Seq<char>>) -> Seq<Seq<char>> {
    pieces.filter(|p: Seq<char>| !is_blank(p)).map_values(|p: Seq<char>| trimmed(p))
}

proof fn lemma_pieces(s: Seq<char>, pos: int, ps: Seq<Seq<char>>)
    requires
        0 <= pos <= s.len(),
        ps.len() > 0,
        s.skip(pos) == joined(ps, "\n\n"@),
        forall|i: int| 0 <= i < ps.len() ==> single_spaced(#[trigger] ps[i]),
        forall|i: int|
            0 <= i < ps.len() - 1 ==> (#[trigger] ps[i]).len() == 0 || ps[i].last() != '\n',
    ensures
        chunk_texts(paragraph_chunks(s, pos)) == solid_pieces(ps),
    decreases ps.len(),
{
    reveal_strlit("\n\n");
    let sep = "\n\n"@;
    let n = s.len() as int;
    let tail_text = s.skip(pos);
    assert(tail_text.len() == n - pos);
    assert(forall|i: int| pos <= i < n ==> #[trigger] s[i] == tail_text[i - pos]);
    let t = ps[0];
    let end: int = pos + t.len();
    let rest = ps.drop_first();
    if ps.len() > 1 {
        lemma_joined_first(ps, sep);
        assert(tail_text == t + sep + joined(rest, sep));
        assert(tail_text[t.len() as int] == sep[0] && tail_text[t.len() as int + 1] == sep[1]);
        assert(s[end] == '\n' && s[end + 1] == '\n');
    } else {
        assert(tail_text == t);
    }
    assert forall|i: int| 0 <= i < t.len() implies #[trigger] t[i] == s[pos + i] by {
        assert(tail_text[i] == t[i]);
    }
    assert forall|i: int, j: int| pos <= i < end && j == i + 1 && j < s.len() implies !(
    #[trigger] s[i] == '\n' && #[trigger] s[j] == '\n') by {
        assert(t[i - pos] == s[i]);
        if j < end {
            assert(t[j - pos] == s[j]);
            assert(single_spaced(ps[0]));
        } else {
            assert(ps.len() > 1);
            assert(ps[0].len() == 0 || ps[0].last() != '\n');
        }
    }
    lemma_paragraph_end_unique(s, pos, end);
    assert(s.subrange(pos, end) =~= t);
    lemma_piece(s, pos, end);
    let head = paragraph_chunk(s, pos, end);
    let f = |p: Seq<char>| !is_blank(p);
    if is_blank(t) {
        lemma_filter_none(seq![t], f);
    } else {
        lemma_filter_all(seq![t], f);
    }
    assert(solid_pieces(seq![t]) =~= chunk_texts(head));
    assert(ps =~= seq![t] + rest);
    Seq::filter_distributes_over_add(seq![t], rest, f);
    assert(solid_pieces(ps) =~= solid_pieces(seq![t]) + solid_pieces(rest));
    if ps.len() > 1 {
        assert forall|i: int| 0 <= i < rest.len() implies single_spaced(#[trigger] rest[i]) by {
            assert(rest[i] == ps[i + 1]);
        }
        assert forall|i: int| 0 <= i < rest.len() - 1 implies (#[trigger] rest[i]).len() == 0
            || rest[i].last() != '\n' by {
            assert(rest[i] == ps[i + 1]);
        }
        assert(s.skip(end + 2) =~= joined(rest, sep)) by {
            let m = t.len() as int + 2;
            assert(s.skip(end + 2) =~= tail_text.skip(m));
            assert((t + sep + joined(rest, sep)).skip(m) =~= joined(rest, sep));
        }
        lemma_pieces(s, end + 2, rest);
        let tail = paragraph_chunks(s, end + 2);
        assert(paragraph_chunks(s, pos) == head + tail);
        assert(chunk_texts(head + tail) =~= chunk_texts(head) + chunk_texts(tail));
    } else {
        assert(solid_pieces(rest) =~= Seq::empty());
        assert(chunk_texts(paragraph_chunks(s, pos)) =~= solid_pieces(ps));
    }
}

/// A blank line, and nothing else, separates paragraphs: whatever pieces a text
/// is joined from by blank lines, its chunks are the pieces that hold more than
/// white space, trimmed, in their order. The pieces hold no blank line
/// themselves, and none but the last one ends in the middle of a blank line.
pub proof fn blank_lines_separate_paragraphs(pieces: Seq<Seq<char>>)
    requires
        pieces.len() > 0,
        forall|i: int| 0 <= i < pieces.len() ==> single_spaced(#[trigger] pieces[i]),
        forall|i: int|
            0 <= i < pieces.len() - 1 ==> (#[trigger] pieces[i]).len() == 0 || pieces[i].last()
                != '\n',
    ensures
        chunk_texts(paragraph_chunks(joined(pieces, "\n\n"@), 0)) == pieces.filter(
            |p: Seq<char>| !is_blank(p),
        ).map_values(|p: Seq<char>| trimmed(p)),
{
    let s = joined(pieces, "\n\n"@);
    assert(s.skip(0) =~= s);
    lemma_pieces(s, 0, pieces);
}

/// A file that holds text has no chunk but its own; one that holds none is
/// found by its title, on the first line.
pub proof fn titles_stand_in_for_missing_text(chunks: Seq<ChunkModel>, title: Seq<char>)
    ensures
        chunks.len() > 0 ==> or_title(chunks, title) == chunks,
        chunks.len() == 0 ==> {
            let r = or_title(chunks, title);
            &&& r.len() == 1
            &&& r[0].line_start == 0 && r[0].line_end == 0
            &&& single_spaced(title) ==> r[0].text == title
            &&& normalised(r[0].text) == normalised(title)
        },
{
    squeezing_shortens_runs_only(title, Seq::empty());
    lemma_squeezed(title);
    squeezing_shortens_runs_only(squeezed(title), Seq::empty());
}

/// The member `key` of `j` is no string, or there is none.
pub open spec fn lacks_text(j: Json, key: Seq<char>) -> bool {
    !(member(j, key) matches Some(Json::Text(_)))
}

/// `text` is what the first of four members holds that is a string.
pub open spec fn first_of_four(
    j: Json,
    k0: Seq<char>,
    k1: Seq<char>,
    k2: Seq<char>,
    k3: Seq<char>,
    text: Seq<char>,
) -> bool {
    ||| member(j, k0) == Some(Json::Text(text))
    ||| lacks_text(j, k0) && member(j, k1) == Some(Json::Text(text))
    ||| lacks_text(j, k0) && lacks_text(j, k1) && member(j, k2) == Some(Json::Text(text))
    ||| lacks_text(j, k0) && lacks_text(j, k1) && lacks_text(j, k2) && member(j, k3) == Some(
        Json::Text(text),
    )
}

proof fn lemma_first_text(
    j: Json,
    k0: Seq<char>,
    k1: Seq<char>,
    k2: Seq<char>,
    k3: Seq<char>,
)
    ensures
        forall|text: Seq<char>| #[trigger]
            first_of_four(j, k0, k1, k2, k3, text) ==> first_text(j, seq![k0, k1, k2, k3]) == Some(
                text,
            ),
        lacks_text(j, k0) && lacks_text(j, k1) && lacks_text(j, k2) && lacks_text(j, k3)
            ==> first_text(j, seq![k0, k1, k2, k3]) is None,
{
    reveal_with_fuel(first_text, 5);
    let keys = seq![k0, k1, k2, k3];
    assert(keys.drop_first() =~= seq![k1, k2, k3]);
    assert(seq![k1, k2, k3].drop_first() =~= seq![k2, k3]);
    assert(seq![k2, k3].drop_first() =~= seq![k3]);
    assert(seq![k3].drop_first() =~= Seq::empty());
}

/// The text of a message is `speaker: content`. The content is the first of
/// `mes`, `content`, `message` and `text` that is a string, the speaker the
/// first of `name`, `role`, `speaker` and `author`; an empty speaker is none.
pub proof fn messages_name_their_speaker(j: Json, speaker: Seq<char>, content: Seq<char>)
    requires
        j is Object,
        first_of_four(j, "mes"@, "content"@, "message"@, "text"@, content),
        first_of_four(j, "name"@, "role"@, "speaker"@, "author"@, speaker),
    ensures
        speaker.len() > 0 ==> message_text(j) == normalised(speaker + ": "@ + content),
        speaker.len() == 0 ==> message_text(j) == normalised(content),
{
    lemma_first_text(j, "mes"@, "content"@, "message"@, "text"@);
    lemma_first_text(j, "name"@, "role"@, "speaker"@, "author"@);
}

/// A message without a speaker is its content.
pub proof fn messages_without_speaker(j: Json, content: Seq<char>)
    requires
        j is Object,
        first_of_four(j, "mes"@, "content"@, "message"@, "text"@, content),
        lacks_text(j, "name"@),
        lacks_text(j, "role"@),
        lacks_text(j, "speaker"@),
        lacks_text(j, "author"@),
    ensures
        message_text(j) == normalised(content),
{
    lemma_first_text(j, "mes"@, "content"@, "message"@, "text"@);
    lemma_first_text(j, "name"@, "role"@, "speaker"@, "author"@);
}

/// The entries of an object that are strings, each as `key: text`.
proof fn lemma_text_fields(entries: Seq<(Seq<char>, Json)>)
    ensures
        text_fields(entries) == entries.filter(|e: (Seq<char>, Json)| e.1 is Text).map_values(
            |e: (Seq<char>, Json)| e.0 + ": "@ + e.1->Text_0,
        ),
    decreases entries.len(),
{
    reveal(Seq::filter);
    let f = |e: (Seq<char>, Json)| e.1 is Text;
    let g = |e: (Seq<char>, Json)| e.0 + ": "@ + e.1->Text_0;
    if entries.len() > 0 {
        let rest = entries.drop_last();
        lemma_text_fields(rest);
        assert(entries.filter(f).map_values(g) =~= text_fields(entries));
    } else {
        assert(entries.filter(f).map_values(g) =~= text_fields(entries));
    }
}

/// An object without content is all its strings, each as `key: text` on a line
/// of its own, in the order of the object; one without strings, like any value
/// that is no object, is its JSON.
pub proof fn objects_without_content_are_their_strings(j: Json)
    ensures
        !(j is Object) ==> message_text(j) == normalised(json_printed(j)),
        j is Object && lacks_text(j, "mes"@) && lacks_text(j, "content"@) && lacks_text(
            j,
            "message"@,
        ) && lacks_text(j, "text"@) ==> {
            let strings = j->Object_0.filter(|e: (Seq<char>, Json)| e.1 is Text);
            message_text(j) == normalised(
                if strings.len() == 0 {
                    json_printed(j)
                } else {
                    joined(
                        strings.map_values(
                            |e: (Seq<char>, Json)| e.0 + ": "@ + e.1->Text_0,
                        ),
                        "\n"@,
                    )
                },
            )
        },
{
    lemma_first_text(j, "mes"@, "content"@, "message"@, "text"@);
    if let Json::Object(entries) = j {
        lemma_text_fields(entries);
        let strings = entries.filter(|e: (Seq<char>, Json)| e.1 is Text);
        let fields = strings.map_values(|e: (Seq<char>, Json)| e.0 + ": "@ + e.1->Text_0);
        reveal_strlit(": ");
        if strings.len() == 0 {
            assert(fields.len() == 0);
        } else {
            assert(fields.last().len() > 0);
            assert(joined(fields, "\n"@).len() > 0);
        }
    }
}

/// The text of a line of a log is its message; a line that is no JSON, or whose
/// message is empty, is kept as it is, without the white space around it.
pub proof fn log_lines_give_their_message(line: Seq<char>, j: Json)
    ensures
        json_read(bare(line)) is None ==> log_line_text(line) == normalised(line),
        json_read(bare(line)) == Some(j) && message_text(j).len() > 0 ==> log_line_text(line)
            == message_text(j),
        json_read(bare(line)) == Some(j) && message_text(j).len() == 0 ==> log_line_text(line)
            == normalised(line),
{
}

/// The texts of a log are those of its lines that are not blank, in their
/// order.
pub proof fn logs_are_read_line_by_line(lines: Seq<Seq<char>>)
    ensures
        chunk_texts(log_chunks(lines)) == lines.filter(|l: Seq<char>| !is_blank(l)).map_values(
            |l: Seq<char>| log_line_text(l),
        ),
    decreases lines.len(),
{
    reveal(Seq::filter);
    let f = |l: Seq<char>| !is_blank(l);
    let g = |l: Seq<char>| log_line_text(l);
    if lines.len() > 0 {
        let rest = lines.drop_last();
        let last = lines.last();
        logs_are_read_line_by_line(rest);
        let texts_before = rest.filter(f).map_values(g);
        if is_blank(last) {
            assert(!f(last));
            assert(lines.filter(f) == rest.filter(f));
        } else {
            assert(f(last));
            assert(lines.filter(f).map_values(g) =~= texts_before.push(g(last)));
            assert(chunk_texts(log_chunks(lines)) =~= texts_before.push(g(last)));
        }
    } else {
        assert(chunk_texts(log_chunks(lines)) =~= lines.filter(f).map_values(g));
    }
}

/// A message is read as `speaker: content`, under whichever of their names the
/// two are given.
pub proof fn messages_are_read_under_any_name(
    value: serde_json::Value,
    text: String,
    speaker: Seq<char>,
    content: Seq<char>,
)
    requires
        call_ensures(extract_message_text, (&value,), text),
        json_of(value) is Object,
        first_of_four(json_of(value), "mes"@, "content"@, "message"@, "text"@, content),
        first_of_four(json_of(value), "name"@, "role"@, "speaker"@, "author"@, speaker),
    ensures
        speaker.len() > 0 ==> text@ == normalised(speaker + ": "@ + content),
        speaker.len() == 0 ==> text@ == normalised(content),
{
    messages_name_their_speaker(json_of(value), speaker, content);
}

} // verus!
