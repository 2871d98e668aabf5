//! The chunker for JSON files: one chunk for each element of an array, with
//! the source lines that the element occupies.

use crate::json::{json_elements, json_of, json_read, read_json, Json};
use crate::retrieve::chunker::{
    count_newlines, extract_message_text, lemma_line_breaks_split, lemma_log_chunks,
    lemma_message_text, line_of, log_chunks, log_lines, message_text, models, or_title,
    starts_ascend, ChunkModel, Chunker, TextChunk,
};
use crate::text::{
    chars_of, is_blank, is_space, joined, joining_in_two_steps, lemma_normalised,
    lemma_solid_bounds, lemma_solid_from, lemma_solid_to, lemma_squeezed, normalise, normalised,
    single_spaced, solid_from, solid_to, split_lines, squeeze, trim_range, trimmed,
};
use vstd::prelude::*;

verus! {

/// Where a reader of JSON text stands: how many arrays and objects are open,
/// and whether it is inside of a string, and there behind a backslash.
#[derive(Debug, Clone, Copy, PartialEq, Eq, Structural)]
pub struct Reader {
    pub depth: usize,
    pub quoted: bool,
    pub escaped: bool,
}

/// The reader after one more character.
pub open spec fn read_on(r: Reader, c: char) -> Reader {
    if r.quoted {
        if r.escaped {
            Reader { escaped: false, ..r }
        } else if c == '\\' {
            Reader { escaped: true, ..r }
        } else if c == '"' {
            Reader { quoted: false, ..r }
        } else {
            r
        }
    } else if c == '"' {
        Reader { quoted: true, ..r }
    } else if (c == '[' || c == '{') && r.depth < usize::MAX {
        Reader { depth: (r.depth + 1) as usize, ..r }
    } else if (c == ']' || c == '}') && r.depth > 0 {
        Reader { depth: (r.depth - 1) as usize, ..r }
    } else {
        r
    }
}

/// The reader before the first character.
pub open spec fn at_start() -> Reader {
    Reader { depth: 0, quoted: false, escaped: false }
}

/// The character opens the outermost array.
pub open spec fn opens(r: Reader, c: char) -> bool {
    !r.quoted && r.depth == 0 && c == '['
}

/// The character ends an element of the outermost array.
pub open spec fn ends_element(r: Reader, c: char) -> bool {
    !r.quoted && r.depth == 1 && (c == ',' || c == ']')
}

/// What is not white space in `s` at `lo..hi`, from its first to behind its
/// last character, if there is anything.
pub open spec fn stretch(s: Seq<char>, lo: int, hi: int) -> Seq<(int, int)> {
    let from = solid_from(s, lo, hi);
    let to = solid_to(s, from, hi);
    if from < to {
        seq![(from, to)]
    } else {
        Seq::empty()
    }
}

/// Where the elements of the outermost array stand, as far as they end at
/// `pos` or later: each from its first to behind its last character. The
/// reader stands at `pos`, and the element there begins at `from` or later.
pub open spec fn stretches_from(s: Seq<char>, pos: int, r: Reader, from: int) -> Seq<(int, int)>
    decreases s.len() - pos,
{
    if pos >= s.len() {
        Seq::empty()
    } else {
        let c = s[pos];
        let next = read_on(r, c);
        if opens(r, c) {
            stretches_from(s, pos + 1, next, pos + 1)
        } else if ends_element(r, c) {
            stretch(s, from, pos) + stretches_from(s, pos + 1, next, pos + 1)
        } else {
            stretches_from(s, pos + 1, next, from)
        }
    }
}

/// Where the elements of an array stand in its text.
pub open spec fn stretches(s: Seq<char>) -> Seq<(int, int)> {
    stretches_from(s, 0, at_start(), 0)
}

/// The lines of the first and the last character of a stretch of `s`.
pub open spec fn lines_of(s: Seq<char>, at: (int, int)) -> (nat, nat) {
    (line_of(s, at.0), line_of(s, at.1 - 1))
}

/// The lines of the element `i` of an array in its text. The text of an array
/// has a stretch for each element; the end of the text stands in for a missing
/// one.
pub open spec fn element_lines(s: Seq<char>, i: int) -> (nat, nat) {
    if 0 <= i < stretches(s).len() {
        lines_of(s, stretches(s)[i])
    } else {
        (line_of(s, s.len() as int), line_of(s, s.len() as int))
    }
}

/// The chunks of the elements of an array: each with the message of its
/// element, on the lines of the element.
pub open spec fn element_chunks(s: Seq<char>, elements: Seq<Json>) -> Seq<ChunkModel> {
    Seq::new(
        elements.len(),
        |i: int|
            ChunkModel {
                line_start: element_lines(s, i).0,
                line_end: element_lines(s, i).1,
                text: message_text(elements[i]),
            },
    )
}

/// The chunk of a text that is one JSON value and no array.
pub open spec fn value_chunk(s: Seq<char>, j: Json) -> Seq<ChunkModel> {
    stretch(s, 0, s.len() as int).map_values(
        |at: (int, int)|
            ChunkModel {
                line_start: lines_of(s, at).0,
                line_end: lines_of(s, at).1,
                text: message_text(j),
            },
    )
}

/// The chunks of a JSON file: of an array one for each element, of any other
/// value the one of its message. A text that is not JSON is taken as a log.
pub open spec fn value_chunks(s: Seq<char>) -> Seq<ChunkModel> {
    match json_read(s) {
        Some(Json::Array(elements)) => element_chunks(s, elements),
        Some(j) => value_chunk(s, j),
        None => log_chunks(split_lines(s)),
    }
}

/// `chunks` with those that begin on the same line made one: storage knows a
/// chunk of a file by the line on which it begins.
pub open spec fn one_per_line(chunks: Seq<ChunkModel>) -> Seq<ChunkModel>
    decreases chunks.len(),
{
    if chunks.len() == 0 {
        Seq::empty()
    } else {
        let rest = one_per_line(chunks.drop_last());
        let c = chunks.last();
        if rest.len() > 0 && rest.last().line_start == c.line_start {
            rest.drop_last().push(
                ChunkModel { text: normalised(rest.last().text + "\n"@ + c.text), ..c },
            )
        } else {
            rest.push(c)
        }
    }
}

/// Moves the reader on by one character.
fn advance(r: Reader, c: char) -> (n: Reader)
    ensures
        n == read_on(r, c),
{
    if r.quoted {
        if r.escaped {
            Reader { depth: r.depth, quoted: true, escaped: false }
        } else if c == '\\' {
            Reader { depth: r.depth, quoted: true, escaped: true }
        } else if c == '"' {
            Reader { depth: r.depth, quoted: false, escaped: false }
        } else {
            r
        }
    } else if c == '"' {
        Reader { depth: r.depth, quoted: true, escaped: r.escaped }
    } else if (c == '[' || c == '{') && r.depth < usize::MAX {
        Reader { depth: r.depth + 1, quoted: false, escaped: r.escaped }
    } else if (c == ']' || c == '}') && r.depth > 0 {
        Reader { depth: r.depth - 1, quoted: false, escaped: r.escaped }
    } else {
        r
    }
}

/// The lines of a list of stretches.
pub open spec fn all_lines(s: Seq<char>, at: Seq<(int, int)>) -> Seq<(nat, nat)> {
    at.map_values(|a: (int, int)| lines_of(s, a))
}

/// The lines in a list, as numbers without bound.
pub open spec fn line_pairs(v: Seq<(usize, usize)>) -> Seq<(nat, nat)> {
    v.map_values(|l: (usize, usize)| (l.0 as nat, l.1 as nat))
}

/// Appends the lines of what stands in `cs` at `lo..hi`, if anything does.
/// `line` is the line of `lo`.
fn push_lines(found: &mut Vec<(usize, usize)>, cs: &Vec<char>, lo: usize, hi: usize, line: usize)
    requires
        lo <= hi <= cs@.len(),
        line == line_of(cs@, lo as int),
    ensures
        line_pairs(final(found)@) == line_pairs(old(found)@) + all_lines(
            cs@,
            stretch(cs@, lo as int, hi as int),
        ),
{
    let (from, to) = trim_range(cs, lo, hi);
    let ghost at = stretch(cs@, lo as int, hi as int);
    let ghost before = found@;
    if from < to {
        proof {
            lemma_line_breaks_split(cs@, 0, lo as int, from as int);
            lemma_line_breaks_split(cs@, 0, from as int, to - 1);
            lemma_line_breaks_split(cs@, 0, 0, to - 1);
        }
        let first: usize = line + count_newlines(cs, lo, from);
        let last: usize = first + count_newlines(cs, from, to - 1);
        found.push((first, last));
        proof {
            assert(line_pairs(found@) =~= line_pairs(before) + all_lines(cs@, at));
        }
    } else {
        proof {
            assert(line_pairs(found@) =~= line_pairs(before) + all_lines(cs@, at));
        }
    }
}

/// The lines of the elements of an array in its text; see [`stretches`].
fn lines_of_elements(cs: &Vec<char>) -> (r: Vec<(usize, usize)>)
    ensures
        line_pairs(r@) == all_lines(cs@, stretches(cs@)),
{
    let ghost s = cs@;
    let mut r: Vec<(usize, usize)> = Vec::new();
    let mut reader = Reader { depth: 0, quoted: false, escaped: false };
    let mut pos: usize = 0;
    let mut from: usize = 0;
    let mut from_line: usize = 0;
    let mut line: usize = 0;
    proof {
        assert(line_pairs(r@) + all_lines(s, stretches(s)) =~= all_lines(s, stretches(s)));
    }
    while pos < cs.len()
        invariant
            s == cs@,
            from <= pos <= cs@.len(),
            from_line == line_of(s, from as int),
            line == line_of(s, pos as int),
            line <= pos,
            line_pairs(r@) + all_lines(s, stretches_from(s, pos as int, reader, from as int))
                == all_lines(s, stretches(s)),
        decreases cs@.len() - pos,
    {
        let c = cs[pos];
        let ghost before = line_pairs(r@);
        let ghost rest = stretches_from(s, pos as int, reader, from as int);
        if c == '\n' {
            line += 1;
        }
        let next = advance(reader, c);
        if !reader.quoted && reader.depth == 0 && c == '[' {
            from = pos + 1;
            from_line = line;
        } else if !reader.quoted && reader.depth == 1 && (c == ',' || c == ']') {
            push_lines(&mut r, cs, from, pos, from_line);
            proof {
                let here = stretch(s, from as int, pos as int);
                let tail = stretches_from(s, pos + 1, next, pos + 1);
                assert(rest == here + tail);
                assert(all_lines(s, rest) =~= all_lines(s, here) + all_lines(s, tail));
                assert(before + (all_lines(s, here) + all_lines(s, tail)) =~= line_pairs(r@)
                    + all_lines(s, tail));
            }
            from = pos + 1;
            from_line = line;
        }
        reader = next;
        pos += 1;
    }
    proof {
        let none = stretches_from(s, pos as int, reader, from as int);
        assert(line_pairs(r@) + all_lines(s, none) =~= line_pairs(r@));
    }
    r
}

/// The chunks of the elements of an array with the text `cs`.
fn chunks_of_elements(cs: &Vec<char>, elements: &Vec<serde_json::Value>) -> (r: Vec<TextChunk>)
    ensures
        models(r@) == element_chunks(
            cs@,
            elements@.map_values(|e: serde_json::Value| json_of(e)),
        ),
{
    let ghost all = elements@.map_values(|e: serde_json::Value| json_of(e));
    let ghost wanted = element_chunks(cs@, all);
    let places = lines_of_elements(cs);
    let end: usize = count_newlines(cs, 0, cs.len());
    let mut r: Vec<TextChunk> = Vec::new();
    let mut i: usize = 0;
    while i < elements.len()
        invariant
            i <= elements@.len(),
            all == elements@.map_values(|e: serde_json::Value| json_of(e)),
            wanted == element_chunks(cs@, all),
            line_pairs(places@) == all_lines(cs@, stretches(cs@)),
            end == line_of(cs@, cs@.len() as int),
            models(r@) == wanted.take(i as int),
        decreases elements@.len() - i,
    {
        proof {
            assert(places@.len() == line_pairs(places@).len() == stretches(cs@).len());
        }
        let (line_start, line_end) = if i < places.len() {
            proof {
                assert(line_pairs(places@)[i as int] == lines_of(cs@, stretches(cs@)[i as int]));
            }
            places[i]
        } else {
            (end, end)
        };
        let ghost before = r@;
        let chunk = TextChunk { line_start, line_end, text: extract_message_text(&elements[i]) };
        r.push(chunk);
        proof {
            assert(wanted[i as int] == chunk@);
            assert(models(r@) =~= models(before).push(chunk@));
        }
        i += 1;
    }
    proof {
        assert(wanted.take(i as int) =~= wanted);
    }
    r
}

/// The chunk of a text that is one JSON value and no array.
fn chunk_of_value(cs: &Vec<char>, value: &serde_json::Value) -> (r: Vec<TextChunk>)
    ensures
        models(r@) == value_chunk(cs@, json_of(*value)),
{
    let mut found: Vec<(usize, usize)> = Vec::new();
    push_lines(&mut found, cs, 0, cs.len(), 0);
    let ghost at = stretch(cs@, 0, cs@.len() as int);
    proof {
        assert(line_pairs(found@) =~= all_lines(cs@, at));
        assert(found@.len() == line_pairs(found@).len());
    }
    let mut r: Vec<TextChunk> = Vec::new();
    if found.len() > 0 {
        proof {
            assert(line_pairs(found@)[0] == lines_of(cs@, at[0]));
        }
        let (line_start, line_end) = found[0];
        r.push(TextChunk { line_start, line_end, text: extract_message_text(value) });
    }
    proof {
        assert(models(r@) =~= value_chunk(cs@, json_of(*value)));
    }
    r
}

/// The chunks of a JSON file; its title where it has none. Of an array each
/// element is a chunk of its own, with the message of the element and the lines
/// that it occupies; several may begin on one line.
pub fn json_chunks(title: &str, content: &str) -> (r: Vec<TextChunk>)
    ensures
        models(r@) == or_title(value_chunks(content@), title@),
        json_read(content@) matches Some(Json::Array(elements)) ==> models(r@) == or_title(
            element_chunks(content@, elements),
            title@,
        ),
{
    let chunks = match read_json(content) {
        Some(value) => {
            let cs = chars_of(content);
            match json_elements(&value) {
                Some(elements) => chunks_of_elements(&cs, elements),
                None => chunk_of_value(&cs, &value),
            }
        },
        None => log_lines(content),
    };
    if chunks.len() == 0 {
        let r = vec![TextChunk { line_start: 0, line_end: 0, text: squeeze(title) }];
        proof {
            assert(models(r@) =~= or_title(models(chunks@), title@));
        }
        r
    } else {
        chunks
    }
}

/// No character lies on an earlier line than one before it.
proof fn lemma_line_order(s: Seq<char>, a: int, b: int)
    requires
        0 <= a <= b,
    ensures
        line_of(s, a) <= line_of(s, b),
{
    lemma_line_breaks_split(s, 0, a, b);
}

/// The stretches lie within `from..len`, in order, without overlap.
spec fn apart(at: Seq<(int, int)>, from: int, len: int) -> bool {
    &&& forall|i: int| 0 <= i < at.len() ==> from <= (#[trigger] at[i]).0 < at[i].1 <= len
    &&& forall|i: int, j: int|
        0 <= i < j < at.len() ==> (#[trigger] at[i]).1 <= (#[trigger] at[j]).0
}

/// The stretches of elements come in order and do not overlap.
proof fn lemma_stretches(s: Seq<char>, pos: int, r: Reader, from: int)
    requires
        0 <= from <= pos <= s.len(),
    ensures
        apart(stretches_from(s, pos, r, from), from, s.len() as int),
    decreases s.len() - pos,
{
    let all = stretches_from(s, pos, r, from);
    let n = s.len() as int;
    if pos < s.len() {
        let c = s[pos];
        let next = read_on(r, c);
        if opens(r, c) {
            lemma_stretches(s, pos + 1, next, pos + 1);
            assert(all == stretches_from(s, pos + 1, next, pos + 1));
        } else if ends_element(r, c) {
            lemma_stretches(s, pos + 1, next, pos + 1);
            lemma_solid_from(s, from, pos);
            let start = solid_from(s, from, pos);
            lemma_solid_to(s, start, pos);
            let head = stretch(s, from, pos);
            let tail = stretches_from(s, pos + 1, next, pos + 1);
            assert(all == head + tail);
            assert forall|i: int| 0 <= i < all.len() implies from <= (#[trigger] all[i]).0
                < all[i].1 <= n by {
                if i >= head.len() {
                    assert(all[i] == tail[i - head.len()]);
                } else {
                    assert(all[i] == head[i]);
                }
            }
            assert forall|i: int, j: int| 0 <= i < j < all.len() implies (#[trigger] all[i]).1 <= (
            #[trigger] all[j]).0 by {
                assert(all[j] == tail[j - head.len()]);
                if i >= head.len() {
                    assert(all[i] == tail[i - head.len()]);
                } else {
                    assert(all[i] == head[i]);
                }
            }
        } else {
            lemma_stretches(s, pos + 1, next, from);
            assert(all == stretches_from(s, pos + 1, next, from));
        }
    }
}

/// The chunks come in source order, though several may begin on one line; none
/// ends before it begins, and none holds a blank line.
pub open spec fn in_line_order(chunks: Seq<ChunkModel>) -> bool {
    &&& forall|i: int, j: int|
        0 <= i < j < chunks.len() ==> #[trigger] chunks[i].line_start
            <= #[trigger] chunks[j].line_start
    &&& forall|i: int|
        0 <= i < chunks.len() ==> {
            &&& #[trigger] chunks[i].line_start <= chunks[i].line_end
            &&& single_spaced(chunks[i].text)
        }
}

/// The elements of an array are found in source order.
pub proof fn elements_in_line_order(s: Seq<char>, elements: Seq<Json>)
    ensures
        in_line_order(element_chunks(s, elements)),
{
    let at = stretches(s);
    let n = s.len() as int;
    let chunks = element_chunks(s, elements);
    lemma_stretches(s, 0, at_start(), 0);
    assert forall|i: int| 0 <= i < chunks.len() implies {
        &&& #[trigger] chunks[i].line_start <= chunks[i].line_end
        &&& single_spaced(chunks[i].text)
    } by {
        lemma_message_text(elements[i]);
        if i < at.len() {
            assert(0 <= at[i].0 < at[i].1 <= n);
            lemma_line_order(s, at[i].0, at[i].1 - 1);
        }
    }
    assert forall|i: int, j: int| 0 <= i < j < chunks.len() implies #[trigger] chunks[i].line_start
        <= #[trigger] chunks[j].line_start by {
        if i < at.len() {
            assert(0 <= at[i].0 < at[i].1 <= n);
            if j < at.len() {
                assert(at[i].1 <= at[j].0);
                lemma_line_order(s, at[i].0, at[j].0);
            } else {
                lemma_line_order(s, at[i].0, n);
            }
        }
    }
}

proof fn lemma_value_chunks(s: Seq<char>, title: Seq<char>)
    ensures
        in_line_order(value_chunks(s)),
        in_line_order(or_title(value_chunks(s), title)),
{
    lemma_squeezed(title);
    match json_read(s) {
        Some(Json::Array(elements)) => elements_in_line_order(s, elements),
        Some(j) => {
            let n = s.len() as int;
            lemma_message_text(j);
            lemma_solid_from(s, 0, n);
            let from = solid_from(s, 0, n);
            lemma_solid_to(s, from, n);
            let to = solid_to(s, from, n);
            if from < to {
                lemma_line_order(s, from, to - 1);
            }
        },
        None => {
            let lines = split_lines(s);
            let chunks = log_chunks(lines);
            lemma_log_chunks(lines);
            assert forall|i: int, j: int| 0 <= i < j < chunks.len() implies #[trigger] chunks[i].line_start
                <= #[trigger] chunks[j].line_start by {
                assert(chunks[i].line_end < chunks[j].line_start);
                assert(chunks[i].line_start == chunks[i].line_end);
            }
        },
    }
}

/// With one chunk for each line, no two chunks begin on the same line.
proof fn lemma_one_per_line(chunks: Seq<ChunkModel>)
    requires
        in_line_order(chunks),
    ensures
        starts_ascend(one_per_line(chunks)),
        chunks.len() > 0 ==> one_per_line(chunks).len() > 0 && one_per_line(
            chunks,
        ).last().line_start == chunks.last().line_start,
        forall|i: int|
            0 <= i < one_per_line(chunks).len() ==> {
                &&& #[trigger] one_per_line(chunks)[i].line_start <= one_per_line(chunks)[i].line_end
                &&& single_spaced(one_per_line(chunks)[i].text)
            },
    decreases chunks.len(),
{
    if chunks.len() > 0 {
        let shorter = chunks.drop_last();
        assert(in_line_order(shorter)) by {
            assert forall|i: int, j: int| 0 <= i < j < shorter.len() implies #[trigger] shorter[i].line_start
                <= #[trigger] shorter[j].line_start by {
                assert(chunks[i].line_start <= chunks[j].line_start);
            }
            assert forall|i: int| 0 <= i < shorter.len() implies {
                &&& #[trigger] shorter[i].line_start <= shorter[i].line_end
                &&& single_spaced(shorter[i].text)
            } by {
                assert(chunks[i].line_start <= chunks[i].line_end);
            }
        }
        lemma_one_per_line(shorter);
        let rest = one_per_line(shorter);
        let all = one_per_line(chunks);
        let c = chunks.last();
        assert(chunks[chunks.len() - 1].line_start <= c.line_end);
        if rest.len() > 0 {
            lemma_normalised(rest.last().text + "\n"@ + c.text);
            assert(shorter.len() > 0);
            assert(chunks[shorter.len() - 1].line_start <= chunks[chunks.len() - 1].line_start);
            assert forall|i: int, j: int| 0 <= i < j < all.len() implies #[trigger] all[i].line_start
                < #[trigger] all[j].line_start by {
                assert(i < rest.len());
                if j < rest.len() {
                    assert(rest[i].line_start < rest[j].line_start);
                } else {
                    assert(i == rest.len() - 1 || rest[i].line_start < rest[rest.len() - 1].line_start);
                }
            }
        }
    }
}

/// Elements that each begin on a line of their own each have a chunk of their
/// own.
pub proof fn elements_stay_separate(chunks: Seq<ChunkModel>)
    requires
        starts_ascend(chunks),
    ensures
        one_per_line(chunks) == chunks,
    decreases chunks.len(),
{
    if chunks.len() > 0 {
        let shorter = chunks.drop_last();
        assert forall|i: int, j: int| 0 <= i < j < shorter.len() implies #[trigger] shorter[i].line_start
            < #[trigger] shorter[j].line_start by {
            assert(chunks[i].line_start < chunks[j].line_start);
        }
        elements_stay_separate(shorter);
        if shorter.len() > 0 {
            assert(chunks[shorter.len() - 1].line_start < chunks[chunks.len() - 1].line_start);
        }
        assert(one_per_line(chunks) =~= chunks);
    }
}

/// Every element has a chunk that begins on the line on which it begins.
pub proof fn element_has_chunk(chunks: Seq<ChunkModel>, k: int)
    requires
        0 <= k < chunks.len(),
    ensures
        exists|i: int|
            0 <= i < one_per_line(chunks).len() && #[trigger] one_per_line(chunks)[i].line_start
                == chunks[k].line_start,
    decreases chunks.len(),
{
    let shorter = chunks.drop_last();
    let rest = one_per_line(shorter);
    let all = one_per_line(chunks);
    if k < shorter.len() {
        element_has_chunk(shorter, k);
        let i = choose|i: int|
            0 <= i < rest.len() && #[trigger] rest[i].line_start == shorter[k].line_start;
        assert(all[i].line_start == chunks[k].line_start);
    } else {
        assert(all[all.len() - 1].line_start == chunks[k].line_start);
    }
}

/// Makes the chunks that begin on the same line one.
fn by_line(chunks: Vec<TextChunk>) -> (r: Vec<TextChunk>)
    ensures
        models(r@) == one_per_line(models(chunks@)),
{
    let ghost all = models(chunks@);
    let mut r: Vec<TextChunk> = Vec::new();
    let mut i: usize = 0;
    proof {
        assert(models(r@) =~= one_per_line(all.take(0)));
    }
    while i < chunks.len()
        invariant
            i <= chunks@.len(),
            all == models(chunks@),
            models(r@) == one_per_line(all.take(i as int)),
        decreases chunks@.len() - i,
    {
        let c = &chunks[i];
        let ghost before = r@;
        proof {
            assert(all.take(i + 1).drop_last() =~= all.take(i as int));
            assert(all.take(i + 1).last() == c@);
            assert(models(before).len() == before.len());
            if before.len() > 0 {
                assert(models(before).last() == before.last()@);
            }
        }
        let n: usize = r.len();
        let joins = n > 0 && r[n - 1].line_start == c.line_start;
        let text = if joins {
            let mut text = r[n - 1].text.clone();
            text.append("\n");
            text.append(&c.text);
            r.pop();
            normalise(&text)
        } else {
            c.text.clone()
        };
        let chunk = TextChunk { line_start: c.line_start, line_end: c.line_end, text };
        let ghost kept = r@;
        r.push(chunk);
        proof {
            assert(models(r@) =~= models(kept).push(chunk@));
            if joins {
                assert(models(kept) =~= models(before).drop_last());
            }
        }
        i += 1;
    }
    proof {
        assert(all.take(i as int) =~= all);
    }
    r
}

/// Chunker for JSON files: one chunk for each element of an array, but that
/// elements that begin on the same line share one.
pub struct JsonChunker;

impl Chunker for JsonChunker {
    fn chunk(&self, title: &str, content: &str) -> (r: Vec<TextChunk>)
        ensures
            models(r@) == one_per_line(or_title(value_chunks(content@), title@)),
    {
        let r = by_line(json_chunks(title, content));
        proof {
            let all = or_title(value_chunks(content@), title@);
            lemma_value_chunks(content@, title@);
            lemma_one_per_line(all);
        }
        r
    }
}

/// The reader after all characters of `text`.
pub open spec fn read_all(r: Reader, text: Seq<char>) -> Reader
    decreases text.len(),
{
    if text.len() == 0 {
        r
    } else {
        read_on(read_all(r, text.drop_last()), text.last())
    }
}

/// Outside of strings brackets and braces open and close one level each, a
/// quotation mark begins a string, and nothing else counts.
pub proof fn brackets_count_outside_of_strings(r: Reader, c: char)
    requires
        !r.quoted,
        0 < r.depth < usize::MAX,
    ensures
        read_on(r, c).quoted <==> c == '"',
        c == '[' || c == '{' ==> read_on(r, c).depth == r.depth + 1,
        c == ']' || c == '}' ==> read_on(r, c).depth == r.depth - 1,
        c != '[' && c != '{' && c != ']' && c != '}' ==> read_on(r, c).depth == r.depth,
        read_on(r, c).escaped == r.escaped,
{
}

/// A string is read over, whatever brackets and commas it holds: up to the next
/// quotation mark that does not stand behind a backslash.
pub proof fn strings_are_read_over(r: Reader, text: Seq<char>, c: char)
    requires
        !r.quoted,
        !r.escaped,
        forall|i: int| 0 <= i < text.len() ==> #[trigger] text[i] != '"' && text[i] != '\\',
    ensures
        read_all(r, seq!['"'] + text) == (Reader { quoted: true, ..r }),
        read_all(r, seq!['"'] + text + seq!['"']) == r,
        read_all(Reader { quoted: true, ..r }, seq!['\\', c]) == (Reader { quoted: true, ..r }),
    decreases text.len(),
{
    let s = seq!['"'] + text;
    reveal_with_fuel(read_all, 3);
    if text.len() == 0 {
        assert(s.drop_last() =~= Seq::empty());
        assert(s.last() == '"');
    } else {
        let less = text.drop_last();
        assert forall|i: int| 0 <= i < less.len() implies #[trigger] less[i] != '"' && less[i]
            != '\\' by {
            assert(less[i] == text[i]);
        }
        strings_are_read_over(r, less, c);
        assert(s.drop_last() =~= seq!['"'] + less);
        assert(s.last() == text[text.len() - 1]);
    }
    let closed = s + seq!['"'];
    assert(closed.drop_last() =~= s);
    assert(closed.last() == '"');
    let escape = seq!['\\', c];
    assert(escape.drop_last() =~= seq!['\\']);
    assert(seq!['\\'].drop_last() =~= Seq::empty());
}

/// The reader inside of the outermost array.
pub open spec fn inside() -> Reader {
    Reader { depth: 1, quoted: false, escaped: false }
}

/// The text can stand as an element of an array: it is not blank, what it opens
/// it closes, and no comma or bracket in it belongs to the array itself.
pub open spec fn is_element(p: Seq<char>) -> bool {
    &&& !is_blank(p)
    &&& read_all(inside(), p) == inside()
    &&& forall|i: int|
        0 <= i < p.len() ==> {
            let r = read_all(inside(), #[trigger] p.take(i));
            r.depth >= 1 && !(!r.quoted && r.depth == 1 && (p[i] == ',' || p[i] == ']'))
        }
}

/// Where the part `i` begins in what the parts are joined to by commas.
pub open spec fn part_start(parts: Seq<Seq<char>>, i: int) -> int
    decreases i,
{
    if i <= 0 {
        0
    } else {
        part_start(parts, i - 1) + parts[i - 1].len() + 1
    }
}

proof fn lemma_read_past(s: Seq<char>, pos: int, r: Reader, from: int, n: int)
    requires
        0 <= pos,
        0 <= n,
        pos + n <= s.len(),
        forall|i: int|
            0 <= i < n ==> {
                let at = read_all(r, #[trigger] s.subrange(pos, pos + i));
                !opens(at, s[pos + i]) && !ends_element(at, s[pos + i])
            },
    ensures
        stretches_from(s, pos, r, from) == stretches_from(
            s,
            pos + n,
            read_all(r, s.subrange(pos, pos + n)),
            from,
        ),
    decreases n,
{
    if n == 0 {
        assert(s.subrange(pos, pos) =~= Seq::empty());
    } else {
        lemma_read_past(s, pos, r, from, n - 1);
        let before = s.subrange(pos, pos + n - 1);
        assert(!opens(read_all(r, before), s[pos + n - 1]));
        let here = s.subrange(pos, pos + n);
        assert(here.drop_last() =~= before);
        assert(here.last() == s[pos + n - 1]);
    }
}

/// The stretch of what is not blank holds it, trimmed.
proof fn lemma_stretch(s: Seq<char>, lo: int, hi: int)
    requires
        0 <= lo <= hi <= s.len(),
        !is_blank(s.subrange(lo, hi)),
    ensures
        stretch(s, lo, hi).len() == 1,
        ({
            let (from, to) = stretch(s, lo, hi)[0];
            lo <= from < to <= hi && s.subrange(from, to) == trimmed(s.subrange(lo, hi))
        }),
{
    let t = s.subrange(lo, hi);
    let from = solid_from(s, lo, hi);
    let to = solid_to(s, from, hi);
    lemma_solid_from(s, lo, hi);
    lemma_solid_to(s, from, hi);
    if from >= to {
        assert forall|i: int| 0 <= i < t.len() implies is_space(#[trigger] t[i]) by {
            assert(t[i] == s[lo + i]);
        }
    }
    assert(t[from - lo] == s[from]);
    assert(t[to - 1 - lo] == s[to - 1]);
    assert forall|i: int| 0 <= i < from - lo implies is_space(#[trigger] t[i]) by {
        assert(t[i] == s[lo + i]);
    }
    assert forall|i: int| to - lo <= i < t.len() implies is_space(#[trigger] t[i]) by {
        assert(t[i] == s[lo + i]);
    }
    lemma_solid_bounds(t, 0, from - lo, to - lo, hi - lo);
    assert(trimmed(t) =~= s.subrange(from, to));
}

proof fn lemma_part_start_shift(parts: Seq<Seq<char>>, i: int)
    requires
        1 <= i <= parts.len(),
    ensures
        part_start(parts, i) == parts[0].len() + 1 + part_start(parts.drop_first(), i - 1),
    decreases i,
{
    if i > 1 {
        lemma_part_start_shift(parts, i - 1);
        assert(parts.drop_first()[i - 2] == parts[i - 1]);
    } else {
        assert(part_start(parts, 0) == 0);
    }
}

proof fn lemma_elements(s: Seq<char>, pos: int, parts: Seq<Seq<char>>)
    requires
        0 <= pos <= s.len(),
        parts.len() > 0,
        s.skip(pos) == joined(parts, seq![',']) + seq![']'],
        forall|i: int| 0 <= i < parts.len() ==> is_element(#[trigger] parts[i]),
    ensures
        ({
            let r = stretches_from(s, pos, inside(), pos);
            &&& r.len() == parts.len()
            &&& forall|i: int|
                0 <= i < parts.len() ==> {
                    let (from, to) = #[trigger] r[i];
                    let start = pos + part_start(parts, i);
                    &&& start <= from < to <= start + parts[i].len()
                    &&& s.subrange(from, to) == trimmed(parts[i])
                }
        }),
    decreases parts.len(),
{
    let tail_text = s.skip(pos);
    let p = parts[0];
    let n = p.len() as int;
    let rest = parts.drop_first();
    assert(is_element(p));
    assert(tail_text.len() == s.len() - pos);
    assert(forall|i: int| pos <= i < s.len() ==> #[trigger] s[i] == tail_text[i - pos]);
    if parts.len() > 1 {
        joining_in_two_steps(seq![p], rest, seq![',']);
        assert(seq![p] + rest =~= parts);
        assert(tail_text == p + seq![','] + joined(rest, seq![',']) + seq![']']);
        assert(tail_text[n] == ',');
    } else {
        assert(tail_text == p + seq![']']);
        assert(tail_text[n] == ']');
    }
    assert(s.subrange(pos, pos + n) =~= p) by {
        assert forall|i: int| 0 <= i < n implies s[pos + i] == p[i] by {
            assert(tail_text[i] == p[i]);
        }
    }
    assert forall|i: int| 0 <= i < n implies {
        let at = read_all(inside(), #[trigger] s.subrange(pos, pos + i));
        !opens(at, s[pos + i]) && !ends_element(at, s[pos + i])
    } by {
        assert(s.subrange(pos, pos + i) =~= p.take(i));
        assert(tail_text[i] == p[i]);
        assert(s[pos + i] == p[i]);
    }
    lemma_read_past(s, pos, inside(), pos, n);
    let end = pos + n;
    assert(s[end] == tail_text[n]);
    lemma_stretch(s, pos, end);
    let here = stretch(s, pos, end);
    let next = read_on(inside(), s[end]);
    let all = stretches_from(s, pos, inside(), pos);
    let later = stretches_from(s, end + 1, next, end + 1);
    assert(all == here + later);
    if parts.len() > 1 {
        assert(next == inside());
        assert forall|i: int| 0 <= i < rest.len() implies is_element(#[trigger] rest[i]) by {
            assert(rest[i] == parts[i + 1]);
        }
        assert(s.skip(end + 1) =~= joined(rest, seq![',']) + seq![']']) by {
            let whole = p + seq![','] + joined(rest, seq![',']) + seq![']'];
            assert(s.skip(end + 1) =~= tail_text.skip(n + 1));
            assert(whole.skip(n + 1) =~= joined(rest, seq![',']) + seq![']']);
        }
        lemma_elements(s, end + 1, rest);
        assert forall|i: int| 0 <= i < parts.len() implies {
            let (from, to) = #[trigger] all[i];
            let start = pos + part_start(parts, i);
            &&& start <= from < to <= start + parts[i].len()
            &&& s.subrange(from, to) == trimmed(parts[i])
        } by {
            if i > 0 {
                assert(all[i] == later[i - 1]);
                lemma_part_start_shift(parts, i);
                assert(rest[i - 1] == parts[i]);
            } else {
                assert(all[0] == here[0]);
                assert(part_start(parts, 0) == 0);
            }
        }
    } else {
        assert(tail_text.len() == n + 1);
        assert(later =~= Seq::empty());
        assert(all[0] == here[0]);
        assert(part_start(parts, 0) == 0);
    }
}

/// The elements of an array are found where they stand: between the brackets,
/// with a comma between each two of them, each without the white space around
/// it. Commas and brackets in strings and inside of elements do not count.
pub proof fn elements_are_found_where_they_stand(parts: Seq<Seq<char>>, i: int)
    requires
        parts.len() > 0,
        forall|i: int| 0 <= i < parts.len() ==> is_element(#[trigger] parts[i]),
        0 <= i < parts.len(),
    ensures
        ({
            let s = seq!['['] + joined(parts, seq![',']) + seq![']'];
            let start = 1 + part_start(parts, i);
            &&& stretches(s).len() == parts.len()
            &&& start <= stretches(s)[i].0 < stretches(s)[i].1 <= start + parts[i].len()
            &&& s.subrange(stretches(s)[i].0, stretches(s)[i].1) == trimmed(parts[i])
        }),
{
    let s = seq!['['] + joined(parts, seq![',']) + seq![']'];
    assert(s[0] == '[');
    assert(s.skip(1) =~= joined(parts, seq![',']) + seq![']']);
    assert(read_on(at_start(), '[') == inside());
    lemma_elements(s, 1, parts);
    let r = stretches_from(s, 1, inside(), 1);
    assert(stretches(s) == r);
    let (from, to) = r[i];
}

/// The chunk of an element has its message, and lies on the lines on which the
/// element begins and ends.
pub proof fn elements_lie_on_their_lines(s: Seq<char>, elements: Seq<Json>, i: int)
    requires
        0 <= i < elements.len(),
    ensures
        ({
            let c = element_chunks(s, elements)[i];
            &&& element_chunks(s, elements).len() == elements.len()
            &&& c.text == message_text(elements[i])
            &&& i < stretches(s).len() ==> c.line_start == line_of(s, stretches(s)[i].0)
                && c.line_end == line_of(s, stretches(s)[i].1 - 1)
        }),
{
}

/// A JSON file is read by its elements if it is an array, as one message if it
/// is another value, and line by line if it is no JSON at all.
pub proof fn json_files_are_read_as_what_they_are(s: Seq<char>, elements: Seq<Json>, j: Json)
    ensures
        json_read(s) == Some(Json::Array(elements)) ==> value_chunks(s) == element_chunks(
            s,
            elements,
        ),
        json_read(s) is None ==> value_chunks(s) == log_chunks(split_lines(s)),
        json_read(s) == Some(j) && !(j is Array) && !is_blank(s) ==> {
            &&& value_chunks(s).len() == 1
            &&& value_chunks(s)[0].text == message_text(j)
            &&& exists|from: int, to: int|
                0 <= from < to <= s.len() && #[trigger] s.subrange(from, to) == trimmed(s)
                    && value_chunks(s)[0].line_start == line_of(s, from)
                    && value_chunks(s)[0].line_end == line_of(s, to - 1)
        },
{
    if json_read(s) == Some(j) && !(j is Array) && !is_blank(s) {
        assert(s.subrange(0, s.len() as int) =~= s);
        lemma_stretch(s, 0, s.len() as int);
        let (from, to) = stretch(s, 0, s.len() as int)[0];
        assert(s.subrange(from, to) == trimmed(s));
    }
}

/// Elements that begin on the same line share a chunk, which holds the texts of
/// all of them, one on a line, and ends where the last one ends; an element
/// that begins on a line of its own begins a chunk.
pub proof fn elements_on_one_line_share_a_chunk(chunks: Seq<ChunkModel>, c: ChunkModel)
    ensures
        ({
            let before = one_per_line(chunks);
            let after = one_per_line(chunks.push(c));
            if before.len() > 0 && before.last().line_start == c.line_start {
                &&& after.len() == before.len()
                &&& after.drop_last() == before.drop_last()
                &&& after.last().line_start == c.line_start
                &&& after.last().line_end == c.line_end
                &&& after.last().text == normalised(before.last().text + "\n"@ + c.text)
            } else {
                after == before.push(c)
            }
        }),
        one_per_line(Seq::empty()).len() == 0,
{
    assert(chunks.push(c).drop_last() =~= chunks);
    let before = one_per_line(chunks);
    let after = one_per_line(chunks.push(c));
    if before.len() > 0 && before.last().line_start == c.line_start {
        assert(after.drop_last() =~= before.drop_last());
    }
}

} // verus!
