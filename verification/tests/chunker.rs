//! Chunkers for text and logs.

use sapphire_workspace::retrieve::chunker::{
    chunk_document, compose_message, extract_message_text, Chunker, JsonlChunker, MarkdownChunker,
    TextChunk,
};
use sapphire_workspace::retrieve::json_chunker::{json_chunks, JsonChunker};
use sapphire_workspace::retrieve::titled;

#[test]
fn two_paragraphs() {
    let chunks = chunk_document("First.\n\nSecond.");
    assert_eq!(chunks.len(), 2);
    assert_eq!(chunks[0], "First.");
    assert_eq!(chunks[1], "Second.");
}

#[test]
fn empty_body_returns_empty() {
    let chunks = chunk_document("");
    assert!(chunks.is_empty());
}

#[test]
fn blank_only_body_returns_empty() {
    let chunks = chunk_document("   \n\n   ");
    assert!(chunks.is_empty());
}

#[test]
fn single_paragraph() {
    let chunks = chunk_document("Only body.");
    assert_eq!(chunks, vec!["Only body."]);
}

#[test]
fn markdown_line_range_single_line() {
    let c = MarkdownChunker;
    let chunks = c.chunk("Title", "First.\n\nSecond.");
    assert_eq!(chunks.len(), 2);
    assert_eq!(chunks[0].line_start, 0);
    assert_eq!(chunks[0].line_end, 0);
    assert_eq!(chunks[0].text, "First.");
    assert_eq!(chunks[1].line_start, 2);
    assert_eq!(chunks[1].line_end, 2);
    assert_eq!(chunks[1].text, "Second.");
}

#[test]
fn markdown_multiline_paragraph() {
    let c = MarkdownChunker;
    // "A\nB\nC" is a single paragraph spanning lines 0-2.
    let chunks = c.chunk("T", "A\nB\nC\n\nD");
    assert_eq!(chunks.len(), 2);
    assert_eq!(chunks[0].line_start, 0);
    assert_eq!(chunks[0].line_end, 2);
    assert_eq!(chunks[0].text, "A\nB\nC");
    assert_eq!(chunks[1].line_start, 4);
    assert_eq!(chunks[1].line_end, 4);
}

#[test]
fn markdown_leading_blank_lines() {
    let c = MarkdownChunker;
    let chunks = c.chunk("T", "\n\nActual paragraph.");
    assert_eq!(chunks.len(), 1);
    assert_eq!(chunks[0].line_start, 2);
    assert_eq!(chunks[0].line_end, 2);
}

#[test]
fn markdown_empty_body_returns_title() {
    let c = MarkdownChunker;
    let chunks = c.chunk("Title", "");
    assert_eq!(chunks.len(), 1);
    assert_eq!(chunks[0].line_start, 0);
    assert_eq!(chunks[0].line_end, 0);
    assert_eq!(chunks[0].text, "Title");
}

#[test]
fn markdown_runs_of_blank_lines() {
    // Five line breaks: an odd one is left over as white space.
    let chunks = MarkdownChunker.chunk("T", "A\n\n\n\n\nB  \n C \n\n \t \n\n");
    assert_eq!(chunks.len(), 2);
    assert_eq!((chunks[0].line_start, chunks[0].line_end), (0, 0));
    assert_eq!((chunks[1].line_start, chunks[1].line_end), (5, 6));
    assert_eq!(chunks[1].text, "B  \n C");
}

#[test]
fn markdown_title_is_single_spaced() {
    let chunks = MarkdownChunker.chunk("a\n\n\nb", " \n ");
    assert_eq!(chunks.len(), 1);
    assert_eq!(chunks[0].text, "a\nb");
}

#[test]
fn markdown_lines_of_unicode_text() {
    let chunks = MarkdownChunker.chunk("T", "\u{3000}日本語\n二行目\n\nß");
    assert_eq!(chunks.len(), 2);
    assert_eq!(chunks[0].text, "日本語\n二行目");
    assert_eq!((chunks[0].line_start, chunks[0].line_end), (0, 1));
    assert_eq!((chunks[1].line_start, chunks[1].line_end), (3, 3));
}

#[test]
fn jsonl_line_ranges() {
    let c = JsonlChunker;
    let jsonl = "{\"name\":\"User\",\"is_user\":true,\"mes\":\"Hello there\"}\n{\"name\":\"Aria\",\"is_user\":false,\"mes\":\"Hi! How can I help?\"}";
    let chunks = c.chunk("chat.jsonl", jsonl);
    assert_eq!(chunks.len(), 2);
    assert_eq!(chunks[0].line_start, 0);
    assert_eq!(chunks[0].line_end, 0);
    assert_eq!(chunks[1].line_start, 1);
    assert_eq!(chunks[1].line_end, 1);
    assert!(chunks[0].text.contains("Hello there"));
    assert!(chunks[1].text.contains("Hi! How can I help?"));
}

#[test]
fn jsonl_single_line() {
    let c = JsonlChunker;
    let jsonl = "{\"role\":\"user\",\"content\":\"Just one message\"}";
    let chunks = c.chunk("single.jsonl", jsonl);
    assert_eq!(chunks.len(), 1);
    assert_eq!(chunks[0].line_start, 0);
    assert_eq!(chunks[0].line_end, 0);
    assert!(chunks[0].text.contains("Just one message"));
}

#[test]
fn jsonl_skips_blank_lines_preserves_indices() {
    // Blank lines must not produce chunks, but surviving chunks retain
    // their absolute line index so cache identity is preserved across
    // unrelated edits.
    let c = JsonlChunker;
    let jsonl = "{\"content\":\"first\"}\n\n{\"content\":\"third\"}";
    let chunks = c.chunk("log.jsonl", jsonl);
    assert_eq!(chunks.len(), 2);
    assert_eq!(chunks[0].line_start, 0);
    assert_eq!(chunks[1].line_start, 2);
}

#[test]
fn jsonl_unparseable_line_falls_back_to_raw() {
    let c = JsonlChunker;
    // Second line is mid-write garbage: keep it as raw text instead of
    // dropping it entirely.
    let jsonl = "{\"content\":\"ok\"}\n{not json";
    let chunks = c.chunk("log.jsonl", jsonl);
    assert_eq!(chunks.len(), 2);
    assert_eq!(chunks[0].line_start, 0);
    assert_eq!(chunks[1].line_start, 1);
    assert!(chunks[1].text.contains("not json"));
}

#[test]
fn jsonl_append_preserves_existing_line_starts() {
    // Append-stability is the whole reason this chunker exists: appending
    // a new line must not change the (line_start, text) tuple of any
    // existing chunk, so the storage layer's chunk-level diff treats the
    // old chunks as unchanged and skips re-embedding.
    let c = JsonlChunker;
    let before = "{\"content\":\"a\"}\n{\"content\":\"b\"}";
    let after = "{\"content\":\"a\"}\n{\"content\":\"b\"}\n{\"content\":\"c\"}";
    let before_chunks = c.chunk("log.jsonl", before);
    let after_chunks = c.chunk("log.jsonl", after);
    assert_eq!(before_chunks.len(), 2);
    assert_eq!(after_chunks.len(), 3);
    for (b, a) in before_chunks.iter().zip(after_chunks.iter()) {
        assert_eq!(b.line_start, a.line_start);
        assert_eq!(b.text, a.text);
    }
}

#[test]
fn jsonl_empty_body_returns_title() {
    let c = JsonlChunker;
    let chunks = c.chunk("empty.jsonl", "");
    assert_eq!(chunks.len(), 1);
    assert_eq!(chunks[0].text, "empty.jsonl");
}

#[test]
fn jsonl_text_has_no_double_newline() {
    let c = JsonlChunker;
    let jsonl = "{\"role\":\"user\",\"content\":\"Line one\\n\\nLine two\"}\n{\"role\":\"assistant\",\"content\":\"OK\"}";
    let chunks = c.chunk("chat.jsonl", jsonl);
    for ch in &chunks {
        assert!(!ch.text.contains("\n\n"));
    }
}

#[test]
fn jsonl_text_is_exact() {
    let jsonl = "{\"role\":\"user\",\"content\":\" a\\n\\n\\n\\nb \"}\r\n[1, 2.5, \"x\"]\n\"plain\"\n  \n{\"mes\":\"m\",\"name\":\"\"}\n{\"n\":1}\n{\"b\":\"2\",\"a\":\"1\"}\n{\"content\":\"\"}";
    let chunks = JsonlChunker.chunk("log", jsonl);
    let found: Vec<(usize, &str)> = chunks.iter().map(|c| (c.line_start, c.text.as_str())).collect();
    assert_eq!(
        found,
        vec![
            (0, "user:  a\nb"),
            (1, "[1,2.5,\"x\"]"),
            (2, "\"plain\""),
            (4, "m"),
            (5, "{\"n\":1}"),
            (6, "a: 1\nb: 2"),
            (7, "{\"content\":\"\"}"),
        ]
    );
}

#[test]
fn jsonl_every_line_has_its_chunk() {
    let chunks = JsonlChunker.chunk("log", "{\"content\":\"\"}\r\n\n not json\n{\"mes\":\" \"}");
    let found: Vec<(usize, &str)> = chunks.iter().map(|c| (c.line_start, c.text.as_str())).collect();
    assert_eq!(
        found,
        vec![(0, "{\"content\":\"\"}"), (2, "not json"), (3, "{\"mes\":\" \"}")]
    );
}

fn lines_and_texts(chunks: &[TextChunk]) -> Vec<(usize, usize, &str)> {
    chunks.iter().map(|c| (c.line_start, c.line_end, c.text.as_str())).collect()
}

#[test]
fn json_elements_are_chunks() {
    let pretty = "[\n  {\n    \"role\": \"user\",\n    \"content\": \"a, ] b\"\n  },\n  {\"content\": \"say \\\"hi\\\", [x\"}, 7,\n  [1,\n   2]\n]\n";
    let chunks = json_chunks("f.json", pretty);
    assert_eq!(
        lines_and_texts(&chunks),
        vec![
            (1, 4, "user: a, ] b"),
            (5, 5, "say \"hi\", [x"),
            (5, 5, "7"),
            (6, 7, "[1,2]"),
        ]
    );
    // Elements that begin on one line share a chunk.
    let chunks = JsonChunker.chunk("f.json", pretty);
    assert_eq!(
        lines_and_texts(&chunks),
        vec![(1, 4, "user: a, ] b"), (5, 5, "say \"hi\", [x\n7"), (6, 7, "[1,2]")]
    );
}

#[test]
fn json_elements_that_follow_on_the_closing_line() {
    let text = "[{\n\"text\":\"a\"\n}, {\n\"text\":\"b\"\n}]";
    assert_eq!(
        lines_and_texts(&JsonChunker.chunk("t", text)),
        vec![(0, 2, "a"), (2, 4, "b")]
    );
    assert_eq!(lines_and_texts(&json_chunks("t", text)), vec![(0, 2, "a"), (2, 4, "b")]);
}

#[test]
fn json_files_that_hold_no_array() {
    assert_eq!(
        lines_and_texts(&JsonChunker.chunk("t", "\n{\n \"text\": \"a\"\n}\n")),
        vec![(1, 3, "a")]
    );
    assert_eq!(lines_and_texts(&JsonChunker.chunk("t", "[]")), vec![(0, 0, "t")]);
    assert_eq!(lines_and_texts(&json_chunks("t", " [ ] ")), vec![(0, 0, "t")]);
    // What is not one JSON value is taken as a log.
    assert_eq!(
        lines_and_texts(&JsonChunker.chunk("t", "{\"text\":\"a\"}\n\n{\"text\":")),
        vec![(0, 0, "a"), (2, 2, "{\"text\":")]
    );
    assert_eq!(lines_and_texts(&JsonChunker.chunk("t", "")), vec![(0, 0, "t")]);
}

#[test]
fn message_text_of_values() {
    let v: serde_json::Value =
        serde_json::from_str("{\"text\":\"t\",\"message\":7,\"author\":\"me\",\"speaker\":null}").unwrap();
    assert_eq!(extract_message_text(&v), "me: t");
    let v: serde_json::Value = serde_json::from_str("{}").unwrap();
    assert_eq!(extract_message_text(&v), "{}");
    let v: serde_json::Value = serde_json::from_str("null").unwrap();
    assert_eq!(extract_message_text(&v), "null");
}

#[test]
fn composing_messages() {
    let none: Vec<String> = Vec::new();
    assert_eq!(compose_message(Some("a"), Some("b"), &none), Some("a: b".to_owned()));
    assert_eq!(compose_message(Some(""), Some("b"), &none), Some("b".to_owned()));
    assert_eq!(compose_message(None, Some("b\n\nc"), &none), Some("b\nc".to_owned()));
    assert_eq!(compose_message(Some("a"), None, &none), None);
    let fields = vec!["k: v".to_owned(), "l: w".to_owned()];
    assert_eq!(compose_message(None, None, &fields), Some("k: v\nl: w".to_owned()));
}

#[test]
fn chunker_two_paragraphs() {
    let chunks = titled::chunk_document("Title", "First.\n\nSecond.");
    assert_eq!(chunks.len(), 2);
    assert_eq!(chunks[0], "Title\n\nFirst.");
    assert_eq!(chunks[1], "Title\n\nSecond.");
}

#[test]
fn empty_body_returns_title() {
    let chunks = titled::chunk_document("Title", "");
    assert_eq!(chunks, vec!["Title"]);
}

#[test]
fn blank_only_body_returns_title() {
    let chunks = titled::chunk_document("Title", "   \n\n   ");
    assert_eq!(chunks, vec!["Title"]);
}

#[test]
fn filters_empty_paragraphs() {
    let chunks = titled::chunk_document("T", "Para 1.\n\n\n\nPara 2.");
    assert_eq!(chunks.len(), 2);
}

#[test]
fn empty_title() {
    let chunks = titled::chunk_document("", "Only body.");
    assert_eq!(chunks, vec!["Only body."]);
}

#[test]
fn jsonl_append_after_a_carriage_return() {
    for before in ["x\r", "{\"content\":\"a\"}\r", "{\"content\":\"a\"}\r\r", "[1]\n\"b\"\r"] {
        let old = JsonlChunker.chunk("log", before);
        let after = format!("{before}\n{{\"content\":\"new\"}}");
        let new = JsonlChunker.chunk("log", &after);
        assert_eq!(new.len(), old.len() + 1);
        for (o, n) in old.iter().zip(new.iter()) {
            assert_eq!((o.line_start, o.line_end, &o.text), (n.line_start, n.line_end, &n.text));
        }
    }
}

#[test]
fn jsonl_title_gives_way_to_the_first_chunk() {
    assert_eq!(JsonlChunker.chunk("log", "\n \n")[0].text, "log");
    let chunks = JsonlChunker.chunk("log", "\n \n{\"text\":\"a\"}");
    assert_eq!(chunks.len(), 1);
    assert_eq!((chunks[0].line_start, chunks[0].text.as_str()), (2, "a"));
}

#[test]
fn joined_chunks_come_back() {
    for body in ["", "  ", "A", "A\n\nB", " A \n\n\n\n\tB\nb\n\n \n\nC\n", "\n\n\nA\n \n\nB"] {
        let chunks = chunk_document(body);
        assert_eq!(chunk_document(&chunks.join("\n\n")), chunks);
    }
    let texts = |content: &str, title: &str| -> Vec<String> {
        MarkdownChunker.chunk(title, content).into_iter().map(|c| c.text).collect()
    };
    for title in ["T", "T\n\nU", " "] {
        let chunks = texts("\n\n", title);
        assert_eq!(texts(&chunks.join("\n\n"), title), chunks);
    }
    // A title with white space at its ends is trimmed when it is read as text.
    assert_eq!(texts("", " T"), vec![" T"]);
    assert_eq!(texts(" T", " T"), vec!["T"]);
}
