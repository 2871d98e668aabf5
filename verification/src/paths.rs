//! File paths, in bytes and as text, with `/` between their parts.

use crate::text::chars_of;
use vstd::prelude::*;
use vstd::utf8::encode_utf8;

verus! {

/// A path: its bytes as the file system has them, by which what lies there is
/// identified, and the path as text, in which what is no text in the bytes is
/// replaced.
#[derive(Debug, Clone)]
pub struct FsPath {
    pub raw: Vec<u8>,
    pub text: String,
}

/// The mathematical counterpart of an [`FsPath`].
pub struct PathModel {
    pub raw: Seq<u8>,
    pub text: Seq<char>,
}

impl View for FsPath {
    type V = PathModel;

    open spec fn view(&self) -> PathModel {
        PathModel { raw: self.raw@, text: self.text@ }
    }
}

impl PathModel {
    /// The path `name` below this one.
    pub open spec fn below(self, name: Seq<char>) -> PathModel {
        PathModel {
            raw: raw_below(self.raw, encode_utf8(name)),
            text: below(self.text, name),
        }
    }

    /// This path with `suffix` behind its last part.
    pub open spec fn suffixed(self, suffix: Seq<char>) -> PathModel {
        PathModel { raw: self.raw + encode_utf8(suffix), text: self.text + suffix }
    }
}

/// The path `name` below `base`, in bytes. An absolute `name` replaces `base`.
pub open spec fn raw_below(base: Seq<u8>, name: Seq<u8>) -> Seq<u8> {
    if base.len() == 0 || (name.len() > 0 && name[0] == SLASH) {
        name
    } else if base.last() == SLASH {
        base + name
    } else {
        base.push(SLASH) + name
    }
}

/// The byte that separates the parts of a path.
pub const SLASH: u8 = 47;

/// The byte of a full stop.
pub const DOT: u8 = 46;

/// Appends bytes.
fn push_all(out: &mut Vec<u8>, bytes: &[u8])
    ensures
        final(out)@ == old(out)@ + bytes@,
{
    let ghost before = out@;
    let mut i: usize = 0;
    while i < bytes.len()
        invariant
            i <= bytes@.len(),
            out@ == before + bytes@.take(i as int),
        decreases bytes@.len() - i,
    {
        out.push(bytes[i]);
        proof {
            assert(bytes@.take(i + 1) =~= bytes@.take(i as int).push(bytes@[i as int]));
            assert(out@ =~= before + bytes@.take(i + 1));
        }
        i += 1;
    }
    proof {
        assert(bytes@.take(i as int) =~= bytes@);
    }
}

/// A copy of bytes.
pub fn copy_bytes(bytes: &[u8]) -> (r: Vec<u8>)
    ensures
        r@ == bytes@,
{
    let mut r: Vec<u8> = Vec::new();
    push_all(&mut r, bytes);
    proof {
        assert(r@ =~= bytes@);
    }
    r
}

impl FsPath {
    /// The path that a text writes.
    pub fn from_text(text: &str) -> (r: FsPath)
        ensures
            r.raw@ == encode_utf8(text@),
            r.text@ == text@,
    {
        FsPath { raw: copy_bytes(text.as_bytes()), text: text.to_owned() }
    }

    /// A copy of the path.
    pub fn copy(&self) -> (r: FsPath)
        ensures
            r@ == self@,
    {
        FsPath { raw: copy_bytes(&self.raw), text: self.text.clone() }
    }

    /// The path `name` below this one.
    pub fn join(&self, name: &str) -> (r: FsPath)
        ensures
            r@ == self@.below(name@),
    {
        let bytes = name.as_bytes();
        let raw = if self.raw.len() == 0 || (bytes.len() > 0 && bytes[0] == SLASH) {
            copy_bytes(bytes)
        } else {
            let mut raw = copy_bytes(&self.raw);
            if self.raw[self.raw.len() - 1] != SLASH {
                raw.push(SLASH);
            }
            push_all(&mut raw, bytes);
            raw
        };
        FsPath { raw, text: join(&self.text, name) }
    }

    /// This path with `suffix` behind its last part.
    pub fn with_suffix(&self, suffix: &str) -> (r: FsPath)
        ensures
            r@ == self@.suffixed(suffix@),
    {
        let mut raw = copy_bytes(&self.raw);
        push_all(&mut raw, suffix.as_bytes());
        let mut text = self.text.clone();
        text.append(suffix);
        FsPath { raw, text }
    }
}

/// The drive and the path on it, where `path` names them in the long form that
/// Windows has, else `path`.
pub open spec fn without_long_form(path: Seq<char>) -> Seq<char> {
    if path.len() > 5 && path.subrange(0, 4) == seq!['\\', '\\', '?', '\\'] && path[5] == ':' {
        path.skip(4)
    } else {
        path
    }
}

/// `path` with `/` between its components, where the system separates them by
/// a backslash too.
pub open spec fn slashed(path: Seq<char>, backslash: bool) -> Seq<char> {
    if backslash {
        without_long_form(path).map_values(
            |c: char|
                if c == '\\' {
                    '/'
                } else {
                    c
                },
        )
    } else {
        path
    }
}

/// Writes a path with `/` between its components, as all paths are written
/// here. `backslash` says whether the system separates components by a
/// backslash too.
pub fn with_slashes(path: &str, backslash: bool) -> (r: String)
    ensures
        r@ == slashed(path@, backslash),
{
    if !backslash {
        return path.to_owned();
    }
    let cs = chars_of(path);
    let from: usize = if cs.len() > 5 && cs[0] == '\\' && cs[1] == '\\' && cs[2] == '?' && cs[3] == '\\'
        && cs[5] == ':' {
        4
    } else {
        0
    };
    proof {
        if cs@.len() > 5 {
            let head = cs@.subrange(0, 4);
            if from == 4 {
                assert(head =~= seq!['\\', '\\', '?', '\\']);
            } else if head == seq!['\\', '\\', '?', '\\'] {
                assert(head[0] == cs@[0] && head[1] == cs@[1] && head[2] == cs@[2] && head[3]
                    == cs@[3]);
            }
        }
    }
    let ghost rest = without_long_form(path@);
    let ghost wanted = slashed(path@, true);
    let mut r = String::new();
    let mut i: usize = from;
    while i < cs.len()
        invariant
            from <= i <= cs@.len(),
            rest == cs@.skip(from as int),
            wanted == rest.map_values(
                |c: char|
                    if c == '\\' {
                        '/'
                    } else {
                        c
                    },
            ),
            r@ == wanted.take(i - from),
        decreases cs@.len() - i,
    {
        let c = if cs[i] == '\\' {
            '/'
        } else {
            cs[i]
        };
        proof {
            assert(rest[i - from] == cs@[i as int]);
            assert(wanted.take(i + 1 - from) =~= wanted.take(i - from).push(c));
        }
        r.push(c);
        i += 1;
    }
    proof {
        assert(wanted.take(i - from) =~= wanted);
    }
    r
}

/// Written with slashes a path holds no backslash that separates components.
pub proof fn slashes_only(path: Seq<char>, i: int)
    requires
        0 <= i < slashed(path, true).len(),
    ensures
        slashed(path, true)[i] != '\\',
{
}

/// The path `name` below `base`. An absolute `name` replaces `base`.
pub open spec fn below(base: Seq<char>, name: Seq<char>) -> Seq<char> {
    if base.len() == 0 || (name.len() > 0 && name[0] == '/') {
        name
    } else if base.last() == '/' {
        base + name
    } else {
        base.push('/') + name
    }
}

/// The last character of a text, if there is one.
fn last_char(s: &str) -> (r: Option<char>)
    ensures
        match r {
            Some(c) => s@.len() > 0 && s@.last() == c,
            None => s@.len() == 0,
        },
{
    let n = s.unicode_len();
    if n == 0 {
        None
    } else {
        Some(s.get_char(n - 1))
    }
}

/// The path `name` below `base`.
pub fn join(base: &str, name: &str) -> (r: String)
    ensures
        r@ == below(base@, name@),
{
    if base.is_empty() || (!name.is_empty() && name.get_char(0) == '/') {
        return name.to_owned();
    }
    let mut r = base.to_owned();
    if let Some(c) = last_char(base) {
        if c != '/' {
            r.push('/');
        }
    }
    r.append(name);
    r
}

/// Where the part of a path that `pos` lies in ends: the next `/`, or the end.
pub open spec fn part_end(s: Seq<u8>, pos: int) -> int
    decreases s.len() - pos,
{
    if pos >= s.len() {
        s.len() as int
    } else if s[pos] == SLASH {
        pos
    } else {
        part_end(s, pos + 1)
    }
}

/// The part at `pos..end` counts: it is not empty, and it is not `.` unless
/// the path starts with it.
pub open spec fn counts(s: Seq<u8>, pos: int, end: int) -> bool {
    pos < end && !(pos > 0 && end == pos + 1 && s[pos] == DOT)
}

/// The parts of a path from the position `pos` on.
pub open spec fn parts_from(s: Seq<u8>, pos: int) -> Seq<Seq<u8>>
    decreases s.len() + 1 - pos,
{
    if pos > s.len() {
        Seq::empty()
    } else {
        let end = part_end(s, pos);
        proof {
            lemma_part_end(s, pos);
        }
        if counts(s, pos, end) {
            seq![s.subrange(pos, end)] + parts_from(s, end + 1)
        } else {
            parts_from(s, end + 1)
        }
    }
}

/// The parts of a path. Repeated separators and `.` in the middle do not
/// count.
pub open spec fn parts(s: Seq<u8>) -> Seq<Seq<u8>> {
    parts_from(s, 0)
}

/// The path starts at the root.
pub open spec fn is_absolute(s: Seq<u8>) -> bool {
    s.len() > 0 && s[0] == SLASH
}

/// What [`part_end`] finds: the first separator from `pos` on.
pub proof fn lemma_part_end(s: Seq<u8>, pos: int)
    requires
        pos <= s.len(),
    ensures
        pos <= part_end(s, pos) <= s.len(),
        forall|i: int| pos <= i < part_end(s, pos) ==> #[trigger] s[i] != SLASH,
        part_end(s, pos) < s.len() ==> s[part_end(s, pos)] == SLASH,
    decreases s.len() - pos,
{
    if pos < s.len() && s[pos] != SLASH {
        lemma_part_end(s, pos + 1);
    }
}

/// The parts of `path` after those of `base`; nothing where `path` does not lie
/// below `base`.
pub open spec fn parts_below(path: Seq<u8>, base: Seq<u8>) -> Option<Seq<Seq<u8>>> {
    if is_absolute(path) == is_absolute(base) && parts(base).is_prefix_of(parts(path)) {
        Some(parts(path).skip(parts(base).len() as int))
    } else {
        None
    }
}

/// The bytes of each of a list of parts.
pub open spec fn raws(v: Seq<Vec<u8>>) -> Seq<Seq<u8>> {
    v.map_values(|part: Vec<u8>| part@)
}

/// The bytes of `cs` at `lo..hi`.
fn stretch(cs: &[u8], lo: usize, hi: usize) -> (r: Vec<u8>)
    requires
        lo <= hi <= cs@.len(),
    ensures
        r@ == cs@.subrange(lo as int, hi as int),
{
    let mut r: Vec<u8> = Vec::new();
    let mut i: usize = lo;
    while i < hi
        invariant
            lo <= i <= hi <= cs@.len(),
            r@ == cs@.subrange(lo as int, i as int),
        decreases hi - i,
    {
        r.push(cs[i]);
        proof {
            assert(cs@.subrange(lo as int, i + 1) =~= cs@.subrange(lo as int, i as int).push(
                cs@[i as int],
            ));
        }
        i += 1;
    }
    r
}

/// The parts of a path.
pub fn split(cs: &[u8]) -> (r: Vec<Vec<u8>>)
    ensures
        raws(r@) == parts(cs@),
{
    let mut r: Vec<Vec<u8>> = Vec::new();
    let mut pos: usize = 0;
    proof {
        assert(raws(r@) + parts_from(cs@, 0) =~= parts_from(cs@, 0));
    }
    loop
        invariant
            pos <= cs@.len(),
            raws(r@) + parts_from(cs@, pos as int) == parts_from(cs@, 0),
        decreases cs@.len() - pos,
    {
        let mut end: usize = pos;
        while end < cs.len() && cs[end] != SLASH
            invariant
                pos <= end <= cs@.len(),
                part_end(cs@, pos as int) == part_end(cs@, end as int),
            decreases cs@.len() - end,
        {
            end += 1;
        }
        if pos < end && !(pos > 0 && end == pos + 1 && cs[pos] == DOT) {
            let ghost before = r@;
            let part = stretch(cs, pos, end);
            r.push(part);
            proof {
                assert(raws(r@) =~= raws(before).push(part@));
                assert(raws(before) + (seq![part@] + parts_from(cs@, end + 1)) =~= raws(r@)
                    + parts_from(cs@, end + 1));
            }
        }
        if end == cs.len() {
            proof {
                assert(raws(r@) + parts_from(cs@, end + 1) =~= raws(r@));
            }
            return r;
        }
        pos = end + 1;
    }
}

/// Whether the path starts at the root.
pub fn absolute(path: &[u8]) -> (r: bool)
    ensures
        r == is_absolute(path@),
{
    path.len() > 0 && path[0] == SLASH
}

/// The parts with single separators between them.
pub open spec fn joined_parts(parts: Seq<Seq<u8>>) -> Seq<u8>
    decreases parts.len(),
{
    if parts.len() == 0 {
        Seq::empty()
    } else if parts.len() == 1 {
        parts[0]
    } else {
        joined_parts(parts.drop_last()).push(SLASH) + parts.last()
    }
}

/// Whether two lists of bytes are the same.
fn same_bytes(a: &[u8], b: &[u8]) -> (r: bool)
    ensures
        r == (a@ == b@),
{
    if a.len() != b.len() {
        return false;
    }
    let mut i: usize = 0;
    while i < a.len()
        invariant
            i <= a@.len() == b@.len(),
            forall|k: int| 0 <= k < i ==> a@[k] == b@[k],
        decreases a@.len() - i,
    {
        if a[i] != b[i] {
            return false;
        }
        i += 1;
    }
    proof {
        assert(a@ =~= b@);
    }
    true
}

/// The path from `base` to `path`, with single separators; nothing where
/// `path` does not lie below `base`.
pub fn strip_prefix(path: &[u8], base: &[u8]) -> (r: Option<Vec<u8>>)
    ensures
        match r {
            Some(rest) => parts_below(path@, base@) is Some && rest@ == joined_parts(
                parts_below(path@, base@)->0,
            ),
            None => parts_below(path@, base@) is None,
        },
{
    if absolute(path) != absolute(base) {
        return None;
    }
    let all = split(path);
    let head = split(base);
    if head.len() > all.len() {
        return None;
    }
    let mut i: usize = 0;
    while i < head.len()
        invariant
            i <= head@.len() <= all@.len(),
            raws(all@) == parts(path@),
            raws(head@) == parts(base@),
            forall|k: int| 0 <= k < i ==> #[trigger] raws(head@)[k] == raws(all@)[k],
        decreases head@.len() - i,
    {
        if !same_bytes(&head[i], &all[i]) {
            proof {
                assert(parts(base@)[i as int] == head@[i as int]@);
                assert(parts(path@)[i as int] == all@[i as int]@);
                if parts(base@).is_prefix_of(parts(path@)) {
                    assert(parts(path@).subrange(0, parts(base@).len() as int)[i as int] == parts(
                        path@,
                    )[i as int]);
                }
            }
            return None;
        }
        i += 1;
    }
    proof {
        assert(parts(base@) =~= parts(path@).subrange(0, parts(base@).len() as int));
    }
    let ghost rest = parts(path@).skip(head@.len() as int);
    let mut r: Vec<u8> = Vec::new();
    let mut j: usize = head.len();
    proof {
        assert(rest.take(0) =~= Seq::empty());
    }
    while j < all.len()
        invariant
            head@.len() <= j <= all@.len(),
            raws(all@) == parts(path@),
            rest == parts(path@).skip(head@.len() as int),
            r@ == joined_parts(rest.take(j - head@.len())),
        decreases all@.len() - j,
    {
        let ghost before = r@;
        let ghost k = j - head@.len();
        proof {
            let t = rest.take(k + 1);
            assert(t.drop_last() =~= rest.take(k));
            assert(t.last() == all@[j as int]@) by {
                assert(raws(all@)[j as int] == all@[j as int]@);
            }
        }
        if j > head.len() {
            r.push(SLASH);
        }
        push_all(&mut r, &all[j]);
        proof {
            if k == 0 {
                assert(r@ =~= all@[j as int]@);
            }
        }
        j += 1;
    }
    proof {
        assert(rest.take(j - head@.len()) =~= rest);
    }
    Some(r)
}

/// The parts after a separator do not depend on what stands before it.
proof fn lemma_parts_after(a: Seq<u8>, b: Seq<u8>, pos: int)
    requires
        0 < pos <= b.len() + 1,
    ensures
        parts_from(a.push(SLASH) + b, a.len() + 1 + pos) == parts_from(b, pos),
    decreases b.len() + 1 - pos,
{
    let s = a.push(SLASH) + b;
    let off = a.len() + 1;
    if pos <= b.len() {
        lemma_part_end(b, pos);
        let end = part_end(b, pos);
        lemma_part_end_shift(a, b, pos);
        lemma_parts_after(a, b, end + 1);
        assert(s.subrange(off + pos, off + end) =~= b.subrange(pos, end));
    }
}

proof fn lemma_part_end_shift(a: Seq<u8>, b: Seq<u8>, pos: int)
    requires
        0 <= pos <= b.len(),
    ensures
        part_end(a.push(SLASH) + b, a.len() + 1 + pos) == a.len() + 1 + part_end(b, pos),
    decreases b.len() - pos,
{
    if pos < b.len() && b[pos] != SLASH {
        lemma_part_end_shift(a, b, pos + 1);
    }
}

/// The path starts with a name, and that is not `.`.
pub open spec fn starts_with_a_name(path: Seq<u8>) -> bool {
    &&& path.len() > 0
    &&& path[0] != SLASH
    &&& path[0] == DOT ==> path.len() > 1 && path[1] != SLASH
}

/// The parts of a path are those before a separator and those after it.
proof fn lemma_parts_concat(a: Seq<u8>, b: Seq<u8>, pos: int)
    requires
        0 <= pos <= a.len(),
        starts_with_a_name(b),
    ensures
        parts_from(a.push(SLASH) + b, pos) == parts_from(a, pos) + parts(b),
    decreases a.len() + 1 - pos,
{
    let s = a.push(SLASH) + b;
    lemma_part_end(a, pos);
    let end = part_end(a, pos);
    lemma_part_end_prefix(a, b, pos);
    assert(s.subrange(pos, end) =~= a.subrange(pos, end));
    let tail = if end < a.len() {
        lemma_parts_concat(a, b, end + 1);
        parts_from(a, end + 1) + parts(b)
    } else {
        let off: int = a.len() as int + 1;
        lemma_part_end(b, 0);
        let stop = part_end(b, 0);
        lemma_part_end_shift(a, b, 0);
        lemma_parts_after(a, b, stop + 1);
        assert(s.subrange(off, off + stop) =~= b.subrange(0, stop));
        assert(s[off] == b[0]);
        if b[0] == DOT {
            assert(part_end(b, 0) == part_end(b, 1) == part_end(b, 2));
            lemma_part_end(b, 2);
        }
        assert(parts_from(s, off) == parts(b));
        assert(parts_from(a, end + 1) + parts(b) =~= parts(b));
        parts(b)
    };
    if counts(a, pos, end) {
        assert(seq![a.subrange(pos, end)] + tail =~= parts_from(a, pos) + parts(b));
    } else {
        assert(tail =~= parts_from(a, pos) + parts(b));
    }
}

proof fn lemma_part_end_prefix(a: Seq<u8>, b: Seq<u8>, pos: int)
    requires
        0 <= pos <= a.len(),
    ensures
        part_end(a.push(SLASH) + b, pos) == part_end(a, pos),
    decreases a.len() - pos,
{
    if pos < a.len() && a[pos] != SLASH {
        lemma_part_end_prefix(a, b, pos + 1);
    }
}

/// A name that was put below a directory is what is left when the directory is
/// taken off again.
pub proof fn strip_undoes_join(base: Seq<u8>, name: Seq<u8>)
    requires
        base.len() > 0,
        starts_with_a_name(name),
    ensures
        parts_below(raw_below(base, name), base) == Some(parts(name)),
{
    let path = raw_below(base, name);
    if base.last() == SLASH {
        let a = base.drop_last();
        assert(path =~= a.push(SLASH) + name);
        lemma_parts_concat(a, name, 0);
        lemma_trailing_separator(a, 0);
        assert(base =~= a.push(SLASH));
        assert(parts(base) == parts(a));
    } else {
        lemma_parts_concat(base, name, 0);
    }
    assert(path[0] == base[0]);
    assert(parts(path) == parts(base) + parts(name));
    assert(parts(base) =~= parts(path).subrange(0, parts(base).len() as int));
    assert(parts(path).skip(parts(base).len() as int) =~= parts(name));
}

proof fn lemma_trailing_separator(a: Seq<u8>, pos: int)
    requires
        0 <= pos <= a.len(),
    ensures
        parts_from(a.push(SLASH), pos) == parts_from(a, pos),
    decreases a.len() + 1 - pos,
{
    let s = a.push(SLASH);
    lemma_part_end(a, pos);
    let end = part_end(a, pos);
    assert(s =~= a.push(SLASH) + Seq::<u8>::empty());
    lemma_part_end_prefix(a, Seq::empty(), pos);
    assert(s.subrange(pos, end) =~= a.subrange(pos, end));
    if end < a.len() {
        lemma_trailing_separator(a, end + 1);
    } else {
        let n = a.len() as int;
        assert(part_end(s, n + 1) == n + 1);
        assert(parts_from(s, n + 1) =~= Seq::empty()) by {
            assert(parts_from(s, n + 2) =~= Seq::empty());
        }
        assert(parts_from(a, end + 1) =~= Seq::empty());
    }
}

/// The bytes are the name of a file or a directory: not empty, without a
/// separator, and not `.`.
pub open spec fn is_name(part: Seq<u8>) -> bool {
    &&& part.len() > 0
    &&& part != seq![DOT]
    &&& forall|i: int| 0 <= i < part.len() ==> #[trigger] part[i] != SLASH
}

proof fn lemma_one_part(part: Seq<u8>)
    requires
        is_name(part),
    ensures
        parts(part) == seq![part],
{
    let n = part.len() as int;
    lemma_part_end(part, 0);
    if part_end(part, 0) < n {
        assert(part[part_end(part, 0)] == SLASH);
    }
    assert(part.subrange(0, n) =~= part);
    assert(parts_from(part, n + 1) =~= Seq::empty());
    assert(parts(part) =~= seq![part]);
}

proof fn lemma_joined_starts(names: Seq<Seq<u8>>)
    requires
        names.len() > 0,
        forall|i: int| 0 <= i < names.len() ==> is_name(#[trigger] names[i]),
    ensures
        starts_with_a_name(joined_parts(names)),
    decreases names.len(),
{
    let first = names[0];
    assert(is_name(first));
    if first[0] == DOT && first.len() == 1 {
        assert(first =~= seq![DOT]);
    }
    if first.len() > 1 {
        assert(first[1] != SLASH);
    }
    if names.len() > 1 {
        let front = names.drop_last();
        assert forall|i: int| 0 <= i < front.len() implies is_name(#[trigger] front[i]) by {
            assert(front[i] == names[i]);
        }
        lemma_joined_starts(front);
        let s = joined_parts(names);
        let t = joined_parts(front);
        assert(s[0] == t[0]);
        if t[0] == DOT {
            assert(s[1] == t[1]);
        }
    }
}

/// A path is made of the names that it was joined from, whether it starts at
/// the root or not.
pub proof fn paths_are_made_of_names(names: Seq<Seq<u8>>)
    requires
        forall|i: int| 0 <= i < names.len() ==> is_name(#[trigger] names[i]),
    ensures
        parts(joined_parts(names)) == names,
        parts(seq![SLASH] + joined_parts(names)) == names,
        parts((seq![SLASH] + joined_parts(names)).push(SLASH)) == names,
        is_absolute(seq![SLASH] + joined_parts(names)),
    decreases names.len(),
{
    let s = joined_parts(names);
    let root = Seq::<u8>::empty();
    if names.len() == 0 {
        assert(part_end(s, 0) == 0);
        assert(parts_from(s, 1) =~= Seq::empty());
        assert(parts(s) =~= names);
        let r = seq![SLASH] + s;
        assert(r =~= root.push(SLASH));
        lemma_trailing_separator(root, 0);
        lemma_trailing_separator(r, 0);
        assert(parts(r) =~= names);
    } else {
        let front = names.drop_last();
        let last = names.last();
        assert forall|i: int| 0 <= i < front.len() implies is_name(#[trigger] front[i]) by {
            assert(front[i] == names[i]);
        }
        assert(is_name(names[names.len() - 1]));
        lemma_one_part(last);
        if names.len() == 1 {
            assert(names =~= seq![last]);
        } else {
            paths_are_made_of_names(front);
            lemma_joined_starts(seq![last]);
            lemma_parts_concat(joined_parts(front), last, 0);
            assert(front + seq![last] =~= names);
        }
        lemma_joined_starts(names);
        lemma_parts_concat(root, s, 0);
        assert(parts_from(root, 0) =~= Seq::empty()) by {
            assert(part_end(root, 0) == 0);
            assert(parts_from(root, 1) =~= Seq::empty());
        }
        assert(root.push(SLASH) + s =~= seq![SLASH] + s);
        assert(Seq::<Seq<u8>>::empty() + names =~= names);
        lemma_trailing_separator(seq![SLASH] + s, 0);
    }
}

/// A path lies below a directory exactly if its names start with those of the
/// directory; the rest of its names is then the path from the directory. A
/// separator at the end of the directory makes no difference.
pub proof fn paths_lie_below_their_directories(dir: Seq<Seq<u8>>, names: Seq<Seq<u8>>)
    requires
        forall|i: int| 0 <= i < dir.len() ==> is_name(#[trigger] dir[i]),
        forall|i: int| 0 <= i < names.len() ==> is_name(#[trigger] names[i]),
    ensures
        ({
            let base = seq![SLASH] + joined_parts(dir);
            let path = seq![SLASH] + joined_parts(names);
            &&& parts_below(path, base) == parts_below(path, base.push(SLASH))
            &&& parts_below(path, base) is Some <==> dir.is_prefix_of(names)
            &&& dir.is_prefix_of(names) ==> parts_below(path, base) == Some(
                names.skip(dir.len() as int),
            )
            &&& parts_below(joined_parts(names), base) is None || names.len() == 0
        }),
{
    paths_are_made_of_names(dir);
    paths_are_made_of_names(names);
    let base = seq![SLASH] + joined_parts(dir);
    assert(is_absolute(base.push(SLASH)));
    if names.len() > 0 {
        lemma_joined_starts(names);
        assert(!is_absolute(joined_parts(names)));
    }
}

/// A name put below a directory follows it after a separator, of which there is
/// only one; a path that starts at the root stays as it is.
pub proof fn names_follow_their_directory(base: Seq<char>, name: Seq<char>)
    requires
        base.len() > 0,
    ensures
        name.len() > 0 && name[0] == '/' ==> below(base, name) == name,
        name.len() == 0 || name[0] != '/' ==> {
            &&& base.last() != '/' ==> below(base, name) == base + seq!['/'] + name
            &&& base.last() == '/' ==> below(base, name) == base + name
        },
        below(Seq::empty(), name) == name,
{
    assert(base.push('/') + name =~= base + seq!['/'] + name);
}

/// The bytes and the text of a path grow alike.
pub proof fn bytes_and_text_grow_alike(path: PathModel, name: Seq<char>)
    requires
        path.raw.len() > 0,
        path.text.len() > 0,
        path.raw.last() != SLASH,
        path.text.last() != '/',
        encode_utf8(name).len() > 0 ==> encode_utf8(name)[0] != SLASH,
        name.len() > 0 ==> name[0] != '/',
    ensures
        path.below(name).raw == path.raw + seq![SLASH] + encode_utf8(name),
        path.below(name).text == path.text + seq!['/'] + name,
        path.suffixed(name).raw == path.raw + encode_utf8(name),
        path.suffixed(name).text == path.text + name,
{
    assert(path.raw.push(SLASH) + encode_utf8(name) =~= path.raw + seq![SLASH] + encode_utf8(name));
    assert(path.text.push('/') + name =~= path.text + seq!['/'] + name);
}

/// Only separators are rewritten, and only where the system has the other one;
/// what stands before a drive in the long form of Windows is left out.
pub proof fn only_separators_are_rewritten(path: Seq<char>, drive: Seq<char>)
    ensures
        slashed(path, false) == path,
        drive.len() > 1 && drive[1] == ':' ==> slashed(
            seq!['\\', '\\', '?', '\\'] + drive,
            true,
        ) == slashed(drive, true),
        path.len() <= 5 || path[5] != ':' ==> {
            &&& slashed(path, true).len() == path.len()
            &&& forall|i: int|
                0 <= i < path.len() ==> #[trigger] slashed(path, true)[i] == if path[i] == '\\' {
                    '/'
                } else {
                    path[i]
                }
        },
{
    if drive.len() > 1 && drive[1] == ':' {
        let long = seq!['\\', '\\', '?', '\\'] + drive;
        assert(long.subrange(0, 4) =~= seq!['\\', '\\', '?', '\\']);
        assert(long[5] == ':');
        assert(long.skip(4) =~= drive);
        if drive.len() > 5 && drive.subrange(0, 4) == seq!['\\', '\\', '?', '\\'] {
            assert(drive.subrange(0, 4)[1] == '\\');
            assert(drive[1] == '\\');
        }
    }
}

} // verus!
