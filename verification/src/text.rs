//! Text primitives: white space, trimming, lines, paragraphs, joining.
//!
//! A string is modelled by its sequence of characters. The functions work on
//! a `Vec<char>` with positions into it, so that one pass over a file can
//! speak about absolute positions.

use vstd::prelude::*;

verus! {

/// `String::push` appends the given character to the end of the string.
pub assume_specification[ String::push ](s: &mut String, c: char)
    ensures
        final(s)@ == old(s)@.push(c),
;

/// The characters with the Unicode `White_Space` property.
pub open spec fn is_space(c: char) -> bool {
    ||| '\u{9}' <= c <= '\u{d}'
    ||| c == ' '
    ||| c == '\u{85}'
    ||| c == '\u{a0}'
    ||| c == '\u{1680}'
    ||| '\u{2000}' <= c <= '\u{200a}'
    ||| c == '\u{2028}'
    ||| c == '\u{2029}'
    ||| c == '\u{202f}'
    ||| c == '\u{205f}'
    ||| c == '\u{3000}'
}

/// Whether `c` has the Unicode `White_Space` property.
pub fn is_whitespace(c: char) -> (r: bool)
    ensures
        r == is_space(c),
{
    ('\u{9}' <= c && c <= '\u{d}') || c == ' ' || c == '\u{85}' || c == '\u{a0}' || c == '\u{1680}'
        || ('\u{2000}' <= c && c <= '\u{200a}') || c == '\u{2028}' || c == '\u{2029}'
        || c == '\u{202f}' || c == '\u{205f}' || c == '\u{3000}'
}

/// The characters of `s`.
pub fn chars_of(s: &str) -> (r: Vec<char>)
    ensures
        r@ == s@,
{
    let mut r: Vec<char> = Vec::new();
    for c in it: s.chars()
        invariant
            it.seq() == s@,
            r@ == s@.take(it.index() as int),
    {
        r.push(c);
    }
    r
}

/// The string made of the characters of `cs` at the positions `lo..hi`.
pub fn string_of(cs: &Vec<char>, lo: usize, hi: usize) -> (r: String)
    requires
        lo <= hi <= cs@.len(),
    ensures
        r@ == cs@.subrange(lo as int, hi as int),
{
    let mut r = String::new();
    let mut i: usize = lo;
    while i < hi
        invariant
            lo <= i <= hi <= cs@.len(),
            r@ == cs@.subrange(lo as int, i as int),
        decreases hi - i,
    {
        r.push(cs[i]);
        i += 1;
    }
    r
}

/// The first position in `lo..hi` that does not hold white space, or `hi`.
pub open spec fn solid_from(s: Seq<char>, lo: int, hi: int) -> int
    decreases hi - lo,
{
    if lo >= hi {
        hi
    } else if is_space(s[lo]) {
        solid_from(s, lo + 1, hi)
    } else {
        lo
    }
}

/// The position after the last one in `lo..hi` that does not hold white
/// space, or `lo`.
pub open spec fn solid_to(s: Seq<char>, lo: int, hi: int) -> int
    decreases hi - lo,
{
    if lo >= hi {
        lo
    } else if is_space(s[hi - 1]) {
        solid_to(s, lo, hi - 1)
    } else {
        hi
    }
}

/// `s` without the white space at both ends.
pub open spec fn trimmed(s: Seq<char>) -> Seq<char> {
    let from = solid_from(s, 0, s.len() as int);
    s.subrange(from, solid_to(s, from, s.len() as int))
}

/// `s` holds white space only.
pub open spec fn is_blank(s: Seq<char>) -> bool {
    forall|i: int| 0 <= i < s.len() ==> is_space(#[trigger] s[i])
}

/// What [`solid_from`] finds: white space before, none at the position found.
pub proof fn lemma_solid_from(s: Seq<char>, lo: int, hi: int)
    requires
        lo <= hi,
    ensures
        lo <= solid_from(s, lo, hi) <= hi,
        forall|i: int| lo <= i < solid_from(s, lo, hi) ==> is_space(#[trigger] s[i]),
        solid_from(s, lo, hi) < hi ==> !is_space(s[solid_from(s, lo, hi)]),
    decreases hi - lo,
{
    if lo < hi && is_space(s[lo]) {
        lemma_solid_from(s, lo + 1, hi);
    }
}

/// What [`solid_to`] finds: white space after, none just before the position
/// found.
pub proof fn lemma_solid_to(s: Seq<char>, lo: int, hi: int)
    requires
        lo <= hi,
    ensures
        lo <= solid_to(s, lo, hi) <= hi,
        forall|i: int| solid_to(s, lo, hi) <= i < hi ==> is_space(#[trigger] s[i]),
        lo < solid_to(s, lo, hi) ==> !is_space(s[solid_to(s, lo, hi) - 1]),
    decreases hi - lo,
{
    if lo < hi && is_space(s[hi - 1]) {
        lemma_solid_to(s, lo, hi - 1);
    }
}

/// A text is blank exactly when nothing is left of it after trimming.
pub proof fn lemma_trimmed_empty(s: Seq<char>)
    ensures
        trimmed(s).len() == 0 <==> is_blank(s),
{
    let n = s.len() as int;
    lemma_solid_from(s, 0, n);
    let from = solid_from(s, 0, n);
    lemma_solid_to(s, from, n);
    if from < n {
        assert(!is_space(s[from]));
        if solid_to(s, from, n) <= from {
            assert(is_space(s[from]));
        }
    }
}

/// The part of `cs` at `lo..hi` without white space at both ends, as a pair
/// of positions.
pub fn trim_range(cs: &Vec<char>, lo: usize, hi: usize) -> (r: (usize, usize))
    requires
        lo <= hi <= cs@.len(),
    ensures
        r.0 == solid_from(cs@, lo as int, hi as int),
        r.1 == solid_to(cs@, r.0 as int, hi as int),
        lo <= r.0 <= r.1 <= hi,
{
    let mut from: usize = lo;
    while from < hi && is_whitespace(cs[from])
        invariant
            lo <= from <= hi <= cs@.len(),
            solid_from(cs@, lo as int, hi as int) == solid_from(cs@, from as int, hi as int),
        decreases hi - from,
    {
        from += 1;
    }
    let mut to: usize = hi;
    while from < to && is_whitespace(cs[to - 1])
        invariant
            lo <= from <= to <= hi <= cs@.len(),
            solid_to(cs@, from as int, hi as int) == solid_to(cs@, from as int, to as int),
        decreases to - from,
    {
        to -= 1;
    }
    (from, to)
}

/// `s` without the white space at both ends.
pub fn trim(s: &str) -> (r: String)
    ensures
        r@ == trimmed(s@),
{
    let cs = chars_of(s);
    let (from, to) = trim_range(&cs, 0, cs.len());
    string_of(&cs, from, to)
}

/// `s` with every run of line breaks shortened to one.
pub open spec fn squeezed(s: Seq<char>) -> Seq<char>
    decreases s.len(),
{
    if s.len() == 0 {
        s
    } else if s.len() >= 2 && s.last() == '\n' && s[s.len() - 2] == '\n' {
        squeezed(s.drop_last())
    } else {
        squeezed(s.drop_last()).push(s.last())
    }
}

/// No two line breaks follow each other in `s`.
pub open spec fn single_spaced(s: Seq<char>) -> bool {
    forall|i: int, j: int|
        0 <= i && j == i + 1 && j < s.len() ==> !(#[trigger] s[i] == '\n' && #[trigger] s[j] == '\n')
}

/// Squeezing leaves no two line breaks in a row, and keeps the last
/// character.
pub proof fn lemma_squeezed(s: Seq<char>)
    ensures
        single_spaced(squeezed(s)),
        s.len() > 0 ==> squeezed(s).len() > 0 && squeezed(s).last() == s.last(),
    decreases s.len(),
{
    if s.len() > 0 {
        lemma_squeezed(s.drop_last());
        if s.len() >= 2 {
            assert(s.drop_last().last() == s[s.len() - 2]);
        }
    }
}

/// `s` with every run of line breaks shortened to one.
pub fn squeeze(s: &str) -> (r: String)
    ensures
        r@ == squeezed(s@),
{
    let cs = chars_of(s);
    let mut r = String::new();
    let mut i: usize = 0;
    proof {
        assert(cs@.take(0) =~= Seq::<char>::empty());
    }
    while i < cs.len()
        invariant
            i <= cs@.len(),
            r@ == squeezed(cs@.take(i as int)),
        decreases cs@.len() - i,
    {
        proof {
            assert(cs@.take(i + 1).drop_last() =~= cs@.take(i as int));
        }
        if !(i >= 1 && cs[i] == '\n' && cs[i - 1] == '\n') {
            r.push(cs[i]);
        }
        i += 1;
    }
    proof {
        assert(cs@.take(i as int) =~= cs@);
    }
    r
}

/// The texts that the strings of `v` hold.
pub open spec fn texts(v: Seq<String>) -> Seq<Seq<char>> {
    v.map_values(|t: String| t@)
}

/// Where the line that `pos` lies on ends: the next line break, or the end of
/// `s`.
pub open spec fn line_end(s: Seq<char>, pos: int) -> int
    decreases s.len() - pos,
{
    if pos >= s.len() {
        s.len() as int
    } else if s[pos] == '\n' {
        pos
    } else {
        line_end(s, pos + 1)
    }
}

/// The line at `pos..end` without its line break, which is `"\n"` or
/// `"\r\n"`. A carriage return at the very end of `s` is text.
pub open spec fn line_text(s: Seq<char>, pos: int, end: int) -> Seq<char> {
    if end < s.len() && pos < end && s[end - 1] == '\r' {
        s.subrange(pos, end - 1)
    } else {
        s.subrange(pos, end)
    }
}

/// The lines of `s` from the position `pos` on, which starts a line.
pub open spec fn lines_from(s: Seq<char>, pos: int) -> Seq<Seq<char>>
    decreases s.len() + 1 - pos,
{
    if pos >= s.len() {
        Seq::empty()
    } else {
        let end = line_end(s, pos);
        proof {
            lemma_line_end(s, pos);
        }
        seq![line_text(s, pos, end)] + lines_from(s, end + 1)
    }
}

/// The lines of `s`, each without its line break. The empty rest after a
/// final line break is no line.
pub open spec fn split_lines(s: Seq<char>) -> Seq<Seq<char>> {
    lines_from(s, 0)
}

/// What [`line_end`] finds: the first line break from `pos` on.
pub proof fn lemma_line_end(s: Seq<char>, pos: int)
    requires
        pos <= s.len(),
    ensures
        pos <= line_end(s, pos) <= s.len(),
        forall|i: int| pos <= i < line_end(s, pos) ==> #[trigger] s[i] != '\n',
        line_end(s, pos) < s.len() ==> s[line_end(s, pos)] == '\n',
    decreases s.len() - pos,
{
    if pos < s.len() && s[pos] != '\n' {
        lemma_line_end(s, pos + 1);
    }
}

/// The end of a line is the only line break with none before it.
pub proof fn lemma_line_end_unique(s: Seq<char>, pos: int, end: int)
    requires
        0 <= pos <= end <= s.len(),
        forall|i: int| pos <= i < end ==> #[trigger] s[i] != '\n',
        end < s.len() ==> s[end] == '\n',
    ensures
        line_end(s, pos) == end,
{
    lemma_line_end(s, pos);
    let found = line_end(s, pos);
    if found < end {
        assert(s[found] != '\n');
    } else if end < found {
        assert(s[end] != '\n');
    }
}

/// `s` without the carriage returns at its end.
pub open spec fn bare(s: Seq<char>) -> Seq<char>
    decreases s.len(),
{
    if s.len() > 0 && s.last() == '\r' {
        bare(s.drop_last())
    } else {
        s
    }
}

/// Text that begins a new line after `before` leaves the lines of `before` as
/// they are, but for a carriage return at the very end of `before`, which
/// becomes part of the line break.
pub proof fn lemma_lines_appended(before: Seq<char>, after: Seq<char>, pos: int)
    requires
        0 <= pos,
        before.is_prefix_of(after),
        before.len() == 0 || before.last() == '\n' || before.len() == after.len()
            || after[before.len() as int] == '\n',
    ensures
        lines_from(before, pos).len() <= lines_from(after, pos).len(),
        forall|i: int|
            0 <= i < lines_from(before, pos).len() ==> bare(#[trigger] lines_from(before, pos)[i])
                == bare(lines_from(after, pos)[i]),
    decreases before.len() + 1 - pos,
{
    if before.len() == after.len() {
        assert(before =~= after);
    } else if pos < before.len() {
        let end = line_end(before, pos);
        lemma_line_end(before, pos);
        assert(forall|i: int| 0 <= i < before.len() ==> before[i] == after[i]);
        if end == before.len() && before.last() == '\n' {
            assert(before[before.len() - 1] != '\n');
        }
        assert forall|i: int| pos <= i < end implies #[trigger] after[i] != '\n' by {
            assert(before[i] != '\n');
        }
        lemma_line_end_unique(after, pos, end);
        let l = line_text(before, pos, end);
        let m = line_text(after, pos, end);
        if end == before.len() && before.last() == '\r' {
            assert(l.last() == '\r');
            assert(l.drop_last() =~= m);
        } else {
            assert(l =~= m);
        }
        lemma_lines_appended(before, after, end + 1);
        let x = lines_from(before, end + 1);
        let y = lines_from(after, end + 1);
        assert(lines_from(before, pos) == seq![l] + x);
        assert(lines_from(after, pos) == seq![m] + y);
        assert forall|i: int| 0 <= i < (seq![l] + x).len() implies bare(
            #[trigger] (seq![l] + x)[i],
        ) == bare((seq![m] + y)[i]) by {
            if i > 0 {
                assert((seq![l] + x)[i] == x[i - 1]);
                assert((seq![m] + y)[i] == y[i - 1]);
            }
        }
    }
}

/// The lines of `s`, each without its line break.
pub fn lines(s: &str) -> (r: Vec<String>)
    ensures
        texts(r@) == split_lines(s@),
{
    let cs = chars_of(s);
    let mut r: Vec<String> = Vec::new();
    let mut pos: usize = 0;
    proof {
        assert(texts(r@) + lines_from(cs@, 0) =~= lines_from(cs@, 0));
    }
    while pos < cs.len()
        invariant
            pos <= cs@.len(),
            cs@ == s@,
            texts(r@) + lines_from(cs@, pos as int) == lines_from(cs@, 0),
        decreases cs@.len() - pos,
    {
        let mut end: usize = pos;
        while end < cs.len() && cs[end] != '\n'
            invariant
                pos <= end <= cs@.len(),
                line_end(cs@, pos as int) == line_end(cs@, end as int),
            decreases cs@.len() - end,
        {
            end += 1;
        }
        let stop: usize = if end < cs.len() && pos < end && cs[end - 1] == '\r' {
            end - 1
        } else {
            end
        };
        let ghost before = r@;
        r.push(string_of(&cs, pos, stop));
        proof {
            let l = line_text(cs@, pos as int, end as int);
            assert(texts(r@) =~= texts(before) + seq![l]);
            assert(lines_from(cs@, pos as int) == seq![l] + lines_from(cs@, end + 1));
            assert(texts(before) + (seq![l] + lines_from(cs@, end + 1)) =~= texts(r@) + lines_from(
                cs@,
                end + 1,
            ));
        }
        if end == cs.len() {
            proof {
                assert(lines_from(cs@, end + 1) =~= Seq::empty());
                assert(texts(r@) + lines_from(cs@, end + 1) =~= texts(r@));
            }
            return r;
        }
        pos = end + 1;
    }
    proof {
        assert(texts(r@) + lines_from(cs@, pos as int) =~= texts(r@));
    }
    r
}

/// `s` with every run of line breaks shortened to one, then trimmed.
pub open spec fn normalised(s: Seq<char>) -> Seq<char> {
    trimmed(squeezed(s))
}

/// No two line breaks follow each other in a normalised text.
pub proof fn lemma_normalised(s: Seq<char>)
    ensures
        single_spaced(normalised(s)),
{
    let q = squeezed(s);
    let n = q.len() as int;
    lemma_squeezed(s);
    lemma_solid_from(q, 0, n);
    let from = solid_from(q, 0, n);
    lemma_solid_to(q, from, n);
    let t = normalised(s);
    assert forall|i: int, j: int| 0 <= i && j == i + 1 && j < t.len() implies !(#[trigger] t[i] == '\n'
        && #[trigger] t[j] == '\n') by {
        assert(t[i] == q[from + i] && t[j] == q[from + j]);
    }
}

/// A text is blank exactly when nothing is left of it after normalising.
pub proof fn lemma_normalised_empty(s: Seq<char>)
    ensures
        normalised(s).len() == 0 <==> is_blank(s),
{
    lemma_squeezed_blank(s);
    lemma_trimmed_empty(squeezed(s));
}

/// Squeezing does not make a text blank.
proof fn lemma_squeezed_blank(s: Seq<char>)
    ensures
        is_blank(squeezed(s)) == is_blank(s),
    decreases s.len(),
{
    if s.len() > 0 {
        let rest = s.drop_last();
        let q = squeezed(s);
        lemma_squeezed_blank(rest);
        assert(is_space('\n'));
        assert(is_blank(s) == (is_blank(rest) && is_space(s.last()))) by {
            assert(s[s.len() - 1] == s.last());
            if is_blank(s) {
                assert forall|i: int| 0 <= i < rest.len() implies is_space(#[trigger] rest[i]) by {
                    assert(rest[i] == s[i]);
                }
            }
            if is_blank(rest) && is_space(s.last()) {
                assert forall|i: int| 0 <= i < s.len() implies is_space(#[trigger] s[i]) by {
                    if i < rest.len() {
                        assert(rest[i] == s[i]);
                    }
                }
            }
        }
        if q.len() > squeezed(rest).len() {
            let p = squeezed(rest);
            assert(q[q.len() - 1] == s.last());
            if is_blank(q) {
                assert forall|i: int| 0 <= i < p.len() implies is_space(#[trigger] p[i]) by {
                    assert(p[i] == q[i]);
                }
            }
            if is_blank(p) && is_space(s.last()) {
                assert forall|i: int| 0 <= i < q.len() implies is_space(#[trigger] q[i]) by {
                    if i < p.len() {
                        assert(p[i] == q[i]);
                    }
                }
            }
        }
    }
}

/// White space at the end of a text is lost in trimming.
proof fn lemma_trimmed_pushed(s: Seq<char>, c: char)
    requires
        is_space(c),
    ensures
        trimmed(s.push(c)) == trimmed(s),
{
    let n = s.len() as int;
    let t = s.push(c);
    lemma_solid_from(s, 0, n);
    lemma_solid_from(t, 0, n + 1);
    let from = solid_from(s, 0, n);
    let other = solid_from(t, 0, n + 1);
    if from < n {
        if other < from {
            assert(is_space(s[other]));
            assert(!is_space(t[other]));
        } else if from < other {
            assert(is_space(t[from]));
        }
        lemma_solid_to(s, from, n);
        lemma_solid_to(t, from, n + 1);
        let to = solid_to(s, from, n);
        let end = solid_to(t, from, n + 1);
        if end < to {
            assert(is_space(t[to - 1]));
            assert(!is_space(s[to - 1]));
        } else if to < end {
            assert(!is_space(t[end - 1]));
            if end - 1 < n {
                assert(is_space(s[end - 1]));
            }
        }
    } else {
        assert(is_blank(s));
        assert(is_blank(t)) by {
            assert forall|i: int| 0 <= i < t.len() implies is_space(#[trigger] t[i]) by {
                if i < n {
                    assert(is_space(s[i]));
                }
            }
        }
        lemma_trimmed_empty(s);
        lemma_trimmed_empty(t);
    }
    assert(trimmed(t) =~= trimmed(s));
}

/// Carriage returns at the end of a text are lost when it is normalised, and
/// do not make it less blank.
pub proof fn lemma_bare(s: Seq<char>)
    ensures
        normalised(bare(s)) == normalised(s),
        is_blank(bare(s)) == is_blank(s),
    decreases s.len(),
{
    if s.len() > 0 && s.last() == '\r' {
        let rest = s.drop_last();
        lemma_bare(rest);
        assert(s =~= rest.push('\r'));
        lemma_trimmed_pushed(squeezed(rest), '\r');
        lemma_trimmed_pushed(rest, '\r');
        lemma_trimmed_empty(rest);
        lemma_trimmed_empty(s);
    }
}

/// Shortens every run of line breaks to one and trims the result, so that a
/// blank line can separate such texts.
pub fn normalise(s: &str) -> (r: String)
    ensures
        r@ == normalised(s@),
{
    let squeezed_text = squeeze(s);
    trim(&squeezed_text)
}

/// `parts` one after the other, with `sep` between them.
pub open spec fn joined(parts: Seq<Seq<char>>, sep: Seq<char>) -> Seq<char>
    decreases parts.len(),
{
    if parts.len() == 0 {
        Seq::empty()
    } else if parts.len() == 1 {
        parts[0]
    } else {
        joined(parts.drop_last(), sep) + sep + parts.last()
    }
}

/// Joins `parts` with `sep` between them.
pub fn join(parts: &Vec<String>, sep: &str) -> (r: String)
    ensures
        r@ == joined(texts(parts@), sep@),
{
    let mut r = String::new();
    let mut i: usize = 0;
    while i < parts.len()
        invariant
            i <= parts@.len(),
            r@ == joined(texts(parts@).take(i as int), sep@),
        decreases parts@.len() - i,
    {
        proof {
            let t = texts(parts@).take(i + 1);
            assert(t.drop_last() =~= texts(parts@).take(i as int));
            assert(t.last() == parts@[i as int]@);
        }
        if i > 0 {
            r.append(sep);
        }
        r.append(&parts[i]);
        proof {
            if i == 0 {
                assert(r@ =~= parts@[0]@);
            }
        }
        i += 1;
    }
    proof {
        assert(texts(parts@).take(i as int) =~= texts(parts@));
    }
    r
}

/// `str`'s `==`: whether two texts are the same, character by character.
pub assume_specification[ <str as PartialEq<str>>::eq ](a: &str, b: &str) -> (r: bool)
    ensures
        r == (a@ == b@),
;

/// Whether `a` and `b` hold the same text.
pub fn same_text(a: &str, b: &str) -> (r: bool)
    ensures
        r == (a@ == b@),
{
    *a == *b
}

/// What `str::to_lowercase` makes of a text.
pub uninterp spec fn lowercase(s: Seq<char>) -> Seq<char>;

/// The lower-case form of an ASCII letter; any other character itself.
pub open spec fn ascii_lowercase(c: char) -> char {
    if 'A' <= c <= 'Z' {
        (c as int + 32) as char
    } else {
        c
    }
}

/// All characters of `s` are ASCII.
pub open spec fn all_ascii(s: Seq<char>) -> bool {
    forall|i: int| 0 <= i < s.len() ==> #[trigger] s[i] < '\u{80}'
}

/// `str::to_lowercase`: the lower-case form of a text, which depends on the
/// text alone. On ASCII text it replaces the letters `A` to `Z` one by one.
#[verifier::external_body]
pub(crate) fn to_lowercase(s: &str) -> (r: String)
    ensures
        r@ == lowercase(s@),
        all_ascii(s@) ==> r@ == s@.map_values(|c: char| ascii_lowercase(c)),
{
    s.to_lowercase()
}

/// `part` stands in `s` at the position `at`.
pub open spec fn part_at(s: Seq<char>, part: Seq<char>, at: int) -> bool {
    0 <= at && at + part.len() <= s.len() && s.subrange(at, at + part.len()) == part
}

/// `part` stands somewhere in `s`.
pub open spec fn has_part(s: Seq<char>, part: Seq<char>) -> bool {
    exists|at: int| #[trigger] part_at(s, part, at)
}

/// `s` starts with `prefix`.
pub open spec fn has_prefix(s: Seq<char>, prefix: Seq<char>) -> bool {
    part_at(s, prefix, 0)
}

/// `s` ends with `suffix`.
pub open spec fn has_suffix(s: Seq<char>, suffix: Seq<char>) -> bool {
    part_at(s, suffix, s.len() - suffix.len())
}

/// Whether `part` stands in `cs` at the position `at`.
fn is_part_at(cs: &Vec<char>, part: &Vec<char>, at: usize) -> (r: bool)
    requires
        at + part@.len() <= cs@.len(),
    ensures
        r == part_at(cs@, part@, at as int),
{
    let n: usize = cs.len();
    let mut i: usize = 0;
    while i < part.len()
        invariant
            i <= part@.len(),
            at + part@.len() <= n == cs@.len(),
            forall|k: int| 0 <= k < i ==> cs@[at + k] == #[trigger] part@[k],
        decreases part@.len() - i,
    {
        if cs[at + i] != part[i] {
            proof {
                let cut = cs@.subrange(at as int, at + part@.len());
                assert(cut[i as int] != part@[i as int]);
            }
            return false;
        }
        i += 1;
    }
    proof {
        assert(cs@.subrange(at as int, at + part@.len()) =~= part@);
    }
    true
}

/// Whether `part` stands somewhere in `s`.
pub fn contains(s: &str, part: &str) -> (r: bool)
    ensures
        r == has_part(s@, part@),
{
    let cs = chars_of(s);
    let ps = chars_of(part);
    if ps.len() > cs.len() {
        return false;
    }
    let mut at: usize = 0;
    while at <= cs.len() - ps.len()
        invariant
            ps@.len() <= cs@.len(),
            at <= cs@.len() - ps@.len() + 1,
            cs@ == s@,
            ps@ == part@,
            forall|k: int| 0 <= k < at ==> !part_at(s@, part@, k),
        decreases cs@.len() - ps@.len() + 1 - at,
    {
        if is_part_at(&cs, &ps, at) {
            return true;
        }
        if at == cs.len() - ps.len() {
            return false;
        }
        at += 1;
    }
    false
}

/// Whether `s` starts with `prefix`.
pub fn starts_with(s: &str, prefix: &str) -> (r: bool)
    ensures
        r == has_prefix(s@, prefix@),
{
    let cs = chars_of(s);
    let ps = chars_of(prefix);
    ps.len() <= cs.len() && is_part_at(&cs, &ps, 0)
}

/// Whether `s` ends with `suffix`.
pub fn ends_with(s: &str, suffix: &str) -> (r: bool)
    ensures
        r == has_suffix(s@, suffix@),
{
    let cs = chars_of(s);
    let ps = chars_of(suffix);
    ps.len() <= cs.len() && is_part_at(&cs, &ps, cs.len() - ps.len())
}

/// `a` comes before `b` in the order of their characters.
pub open spec fn precedes(a: Seq<char>, b: Seq<char>) -> bool
    decreases a.len(),
{
    if b.len() == 0 {
        false
    } else if a.len() == 0 {
        true
    } else if a[0] == b[0] {
        precedes(a.drop_first(), b.drop_first())
    } else {
        a[0] < b[0]
    }
}

/// The order of texts is an order: of two different texts exactly one comes
/// first.
pub proof fn lemma_precedes(a: Seq<char>, b: Seq<char>, c: Seq<char>)
    ensures
        precedes(a, b) ==> !precedes(b, a),
        !precedes(a, b) && !precedes(b, c) ==> !precedes(a, c),
        !precedes(a, b) && !precedes(b, a) ==> a == b,
    decreases a.len(), b.len(), c.len(),
{
    if a.len() > 0 && b.len() > 0 && c.len() > 0 {
        lemma_precedes(a.drop_first(), b.drop_first(), c.drop_first());
        if a[0] == b[0] && a.drop_first() == b.drop_first() {
            assert(a =~= seq![a[0]] + a.drop_first());
            assert(b =~= seq![b[0]] + b.drop_first());
        }
    } else if a.len() > 0 && b.len() > 0 {
        lemma_precedes(a.drop_first(), b.drop_first(), c);
        if a[0] == b[0] && a.drop_first() == b.drop_first() {
            assert(a =~= seq![a[0]] + a.drop_first());
            assert(b =~= seq![b[0]] + b.drop_first());
        }
    } else if a.len() == 0 && b.len() == 0 {
        assert(a =~= b);
    }
}

/// Whether `a` comes before `b` in the order of their characters.
pub fn text_before(a: &str, b: &str) -> (r: bool)
    ensures
        r == precedes(a@, b@),
{
    let x = chars_of(a);
    let y = chars_of(b);
    let mut i: usize = 0;
    proof {
        assert(x@.skip(0) =~= x@);
        assert(y@.skip(0) =~= y@);
    }
    while i < x.len() && i < y.len() && x[i] == y[i]
        invariant
            i <= x@.len(),
            i <= y@.len(),
            precedes(x@, y@) == precedes(x@.skip(i as int), y@.skip(i as int)),
        decreases x@.len() - i,
    {
        proof {
            assert(x@.skip(i as int).drop_first() =~= x@.skip(i + 1));
            assert(y@.skip(i as int).drop_first() =~= y@.skip(i + 1));
        }
        i += 1;
    }
    if i >= y.len() {
        false
    } else if i >= x.len() {
        true
    } else {
        x[i] < y[i]
    }
}

pub(crate) proof fn lemma_solid_bounds(s: Seq<char>, lo: int, from: int, to: int, hi: int)
    requires
        0 <= lo <= from <= to <= hi <= s.len(),
        forall|i: int| lo <= i < from ==> is_space(#[trigger] s[i]),
        forall|i: int| to <= i < hi ==> is_space(#[trigger] s[i]),
        from < to ==> !is_space(s[from]) && !is_space(s[to - 1]),
    ensures
        from < to ==> solid_from(s, lo, hi) == from && solid_to(s, from, hi) == to,
        from == to ==> solid_from(s, lo, hi) == hi,
{
    lemma_solid_from(s, lo, hi);
    let a = solid_from(s, lo, hi);
    if from < to {
        if a < from {
            assert(is_space(s[a]));
        } else if a > from {
            assert(is_space(s[from]));
        }
        lemma_solid_to(s, from, hi);
        let b = solid_to(s, from, hi);
        if b < to {
            assert(is_space(s[to - 1]));
        } else if b > to {
            assert(is_space(s[b - 1]));
        }
    } else if a < hi {
        assert(is_space(s[a]));
    }
}

/// Trimming takes away the white space around a text and nothing else.
pub proof fn trimming_takes_white_space_only(before: Seq<char>, core: Seq<char>, after: Seq<char>)
    requires
        is_blank(before),
        is_blank(after),
        core.len() > 0 ==> !is_space(core[0]) && !is_space(core.last()),
    ensures
        trimmed(before + core + after) == core,
{
    let s = before + core + after;
    let from = before.len() as int;
    let to: int = from + core.len();
    let n = s.len() as int;
    assert forall|i: int| 0 <= i < from implies is_space(#[trigger] s[i]) by {
        assert(s[i] == before[i]);
    }
    assert forall|i: int| to <= i < n implies is_space(#[trigger] s[i]) by {
        assert(s[i] == after[i - to]);
    }
    if from < to {
        assert(s[from] == core[0] && s[to - 1] == core.last());
    }
    lemma_solid_bounds(s, 0, from, to, n);
    assert(trimmed(s) =~= core);
}

/// A text without two line breaks in a row is left as it is, and a pair of
/// line breaks counts as one, wherever it stands.
pub proof fn squeezing_shortens_runs_only(before: Seq<char>, after: Seq<char>)
    ensures
        single_spaced(before) ==> squeezed(before) == before,
        squeezed(before + seq!['\n', '\n'] + after) == squeezed(before + seq!['\n'] + after),
    decreases before.len() + after.len(),
{
    if single_spaced(before) && before.len() > 0 {
        let rest = before.drop_last();
        assert forall|i: int, j: int| 0 <= i && j == i + 1 && j < rest.len() implies !(
        #[trigger] rest[i] == '\n' && #[trigger] rest[j] == '\n') by {
            assert(rest[i] == before[i] && rest[j] == before[j]);
        }
        squeezing_shortens_runs_only(rest, Seq::empty());
        if before.len() >= 2 {
            assert(!(before[before.len() - 2] == '\n' && before[before.len() - 1] == '\n'));
        }
        assert(squeezed(before) =~= before);
    }
    let two = before + seq!['\n', '\n'] + after;
    let one = before + seq!['\n'] + after;
    if after.len() == 0 {
        assert(two.drop_last() =~= one);
        assert(two.last() == '\n' && two[two.len() - 2] == '\n');
    } else {
        let less = after.drop_last();
        squeezing_shortens_runs_only(before, less);
        assert(two.drop_last() =~= before + seq!['\n', '\n'] + less);
        assert(one.drop_last() =~= before + seq!['\n'] + less);
        assert(two.last() == after.last() && one.last() == after.last());
        assert(two[two.len() - 2] == one[one.len() - 2]) by {
            if after.len() >= 2 {
                assert(two[two.len() - 2] == after[after.len() - 2]);
                assert(one[one.len() - 2] == after[after.len() - 2]);
            }
        }
    }
}

/// Lines do not depend on what stands before them.
proof fn lemma_lines_shifted(s: Seq<char>, pos: int)
    requires
        0 <= pos <= s.len(),
    ensures
        lines_from(s, pos) == split_lines(s.skip(pos)),
    decreases s.len() - pos,
{
    let t = s.skip(pos);
    assert(t.skip(0) =~= t);
    lemma_lines_alike(s, pos, t, 0);
}

proof fn lemma_lines_alike(s: Seq<char>, pos: int, t: Seq<char>, at: int)
    requires
        0 <= pos <= s.len(),
        0 <= at <= t.len(),
        s.skip(pos) == t.skip(at),
    ensures
        lines_from(s, pos) == lines_from(t, at),
    decreases s.len() - pos,
{
    let tail = s.skip(pos);
    assert(tail.len() == s.len() - pos);
    assert(t.skip(at).len() == t.len() - at);
    if pos < s.len() {
        let end = line_end(s, pos);
        lemma_line_end(s, pos);
        let d = at - pos;
        assert forall|i: int| pos <= i < s.len() implies #[trigger] s[i] == t[i + d] by {
            assert(tail[i - pos] == s[i]);
            assert(t.skip(at)[i - pos] == t[i + d]);
        }
        assert forall|i: int| at <= i < end + d implies #[trigger] t[i] != '\n' by {
            assert(s[i - d] == t[i]);
        }
        lemma_line_end_unique(t, at, end + d);
        if pos < end {
            assert(s[end - 1] == t[end - 1 + d]);
        }
        assert(line_text(s, pos, end) =~= line_text(t, at, end + d));
        if end < s.len() {
            assert(s.skip(end + 1) =~= t.skip(end + 1 + d));
            lemma_lines_alike(s, end + 1, t, end + 1 + d);
        } else {
            assert(lines_from(s, end + 1) =~= Seq::empty());
            assert(lines_from(t, end + 1 + d) =~= Seq::empty());
        }
        assert(lines_from(t, at) == seq![line_text(t, at, end + d)] + lines_from(t, end + d + 1));
    }
}

/// A line and its line break, which is `"\n"` or `"\r\n"`, come before the
/// lines of the rest. A carriage return before the line break belongs to it.
pub proof fn lines_end_with_line_breaks(line: Seq<char>, rest: Seq<char>)
    requires
        forall|i: int| 0 <= i < line.len() ==> #[trigger] line[i] != '\n',
    ensures
        split_lines(line + seq!['\r', '\n'] + rest) == seq![line] + split_lines(rest),
        line.len() == 0 || line.last() != '\r' ==> split_lines(line + seq!['\n'] + rest) == seq![
            line,
        ] + split_lines(rest),
        line.len() > 0 ==> split_lines(line) == seq![line],
        split_lines(Seq::<char>::empty()) == Seq::<Seq<char>>::empty(),
{
    let n = line.len() as int;
    let crlf = line + seq!['\r', '\n'] + rest;
    assert forall|i: int| 0 <= i < n + 1 implies #[trigger] crlf[i] != '\n' by {
        if i < n {
            assert(crlf[i] == line[i]);
        }
    }
    assert(crlf[n] == '\r' && crlf[n + 1] == '\n');
    lemma_line_end_unique(crlf, 0, n + 1);
    assert(line_text(crlf, 0, n + 1) =~= line);
    lemma_lines_shifted(crlf, n + 2);
    assert(crlf.skip(n + 2) =~= rest);
    if n == 0 || line.last() != '\r' {
        let lf = line + seq!['\n'] + rest;
        assert forall|i: int| 0 <= i < n implies #[trigger] lf[i] != '\n' by {
            assert(lf[i] == line[i]);
        }
        assert(lf[n] == '\n');
        lemma_line_end_unique(lf, 0, n);
        if n > 0 {
            assert(lf[n - 1] == line.last());
        }
        assert(line_text(lf, 0, n) =~= line);
        lemma_lines_shifted(lf, n + 1);
        assert(lf.skip(n + 1) =~= rest);
    }
    if n > 0 {
        lemma_line_end_unique(line, 0, n);
        assert(line_text(line, 0, n) =~= line);
        assert(lines_from(line, n + 1) =~= Seq::empty());
        assert(split_lines(line) =~= seq![line]);
    }
}

/// Joining one part gives the part, and parts can be joined in two steps.
pub proof fn joining_in_two_steps(a: Seq<Seq<char>>, b: Seq<Seq<char>>, sep: Seq<char>)
    requires
        a.len() > 0,
    ensures
        joined(Seq::<Seq<char>>::empty(), sep).len() == 0,
        a.len() == 1 ==> joined(a, sep) == a[0],
        b.len() > 0 ==> joined(a + b, sep) == joined(a, sep) + sep + joined(b, sep),
    decreases b.len(),
{
    if b.len() > 0 {
        let all = a + b;
        assert(all.drop_last() =~= a + b.drop_last());
        assert(all.last() == b.last());
        if b.len() == 1 {
            assert(a + b.drop_last() =~= a);
        } else {
            joining_in_two_steps(a, b.drop_last(), sep);
            assert(joined(all, sep) =~= joined(a, sep) + sep + joined(b, sep));
        }
    }
}

/// Of two texts the one comes first that has the smaller character at the first
/// place where they differ, or that ends there.
pub proof fn the_first_difference_decides(a: Seq<char>, b: Seq<char>, k: int)
    requires
        0 <= k <= a.len(),
        k <= b.len(),
        a.take(k) == b.take(k),
        k == a.len() || k == b.len() || a[k] != b[k],
    ensures
        precedes(a, b) <==> k < b.len() && (k == a.len() || a[k] < b[k]),
    decreases k,
{
    if k > 0 {
        assert(a[0] == a.take(k)[0] && b[0] == b.take(k)[0]);
        assert(a.drop_first().take(k - 1) =~= a.take(k).drop_first());
        assert(b.drop_first().take(k - 1) =~= b.take(k).drop_first());
        the_first_difference_decides(a.drop_first(), b.drop_first(), k - 1);
    }
}

/// A text stands in another exactly where it can be cut out of it.
pub proof fn parts_can_be_cut_out(before: Seq<char>, part: Seq<char>, after: Seq<char>)
    ensures
        has_part(before + part + after, part),
        has_prefix(part + after, part),
        has_suffix(before + part, part),
        has_prefix(part, before) ==> part == before + part.skip(before.len() as int),
        has_suffix(part, after) ==> part == part.take(part.len() - after.len()) + after,
{
    let s = before + part + after;
    assert(s.subrange(before.len() as int, (before.len() + part.len()) as int) =~= part);
    assert(part_at(s, part, before.len() as int));
    assert((part + after).subrange(0, part.len() as int) =~= part);
    assert((before + part).subrange(before.len() as int, (before + part).len() as int) =~= part);
    if has_prefix(part, before) {
        assert(part =~= before + part.skip(before.len() as int));
    }
    if has_suffix(part, after) {
        assert(part =~= part.take(part.len() - after.len()) + after);
    }
}

/// Only carriage returns at the end are taken away, and all of them.
pub proof fn bare_texts_end_without_carriage_returns(s: Seq<char>)
    ensures
        bare(s).is_prefix_of(s),
        bare(s).len() > 0 ==> bare(s).last() != '\r',
        forall|i: int| bare(s).len() <= i < s.len() ==> #[trigger] s[i] == '\r',
    decreases s.len(),
{
    if s.len() > 0 && s.last() == '\r' {
        let rest = s.drop_last();
        bare_texts_end_without_carriage_returns(rest);
        assert(bare(s) =~= s.take(bare(s).len() as int));
        assert forall|i: int| bare(s).len() <= i < s.len() implies #[trigger] s[i] == '\r' by {
            if i < rest.len() {
                assert(rest[i] == s[i]);
            }
        }
    } else {
        assert(bare(s) =~= s.take(s.len() as int));
    }
}

} // verus!
