//! Patterns that match every path with a given prefix, as databases write them.

use crate::text::{chars_of, has_prefix};
use vstd::prelude::*;

verus! {

/// A `GLOB` pattern of SQLite matches the whole of `s`: `*` stands for any
/// characters, `?` for any one, a character between square brackets for itself.
/// Brackets round more than one character are left out of account.
pub open spec fn glob_matches(p: Seq<char>, s: Seq<char>) -> bool
    decreases p.len(),
{
    if p.len() == 0 {
        s.len() == 0
    } else if p[0] == '*' {
        exists|k: int| 0 <= k <= s.len() && glob_matches(p.skip(1), #[trigger] s.skip(k))
    } else if p[0] == '?' {
        s.len() > 0 && glob_matches(p.skip(1), s.skip(1))
    } else if p[0] == '[' && p.len() >= 3 && p[2] == ']' {
        s.len() > 0 && s[0] == p[1] && glob_matches(p.skip(3), s.skip(1))
    } else {
        s.len() > 0 && s[0] == p[0] && glob_matches(p.skip(1), s.skip(1))
    }
}

/// How a `GLOB` pattern writes the character `c`.
pub open spec fn glob_char(c: char) -> Seq<char> {
    if c == '*' || c == '?' || c == '[' {
        seq!['[', c, ']']
    } else {
        seq![c]
    }
}

/// How a `GLOB` pattern writes the text `s`.
pub open spec fn globbed(s: Seq<char>) -> Seq<char>
    decreases s.len(),
{
    if s.len() == 0 {
        s
    } else {
        globbed(s.drop_last()) + glob_char(s.last())
    }
}

/// A `LIKE` pattern whose escape character is the backslash matches the whole
/// of `s`: `%` stands for any characters, `_` for any one, a character behind a
/// backslash for itself.
pub open spec fn like_matches(p: Seq<char>, s: Seq<char>) -> bool
    decreases p.len(),
{
    if p.len() == 0 {
        s.len() == 0
    } else if p[0] == '%' {
        exists|k: int| 0 <= k <= s.len() && like_matches(p.skip(1), #[trigger] s.skip(k))
    } else if p[0] == '_' {
        s.len() > 0 && like_matches(p.skip(1), s.skip(1))
    } else if p[0] == '\\' && p.len() >= 2 {
        s.len() > 0 && s[0] == p[1] && like_matches(p.skip(2), s.skip(1))
    } else {
        s.len() > 0 && s[0] == p[0] && like_matches(p.skip(1), s.skip(1))
    }
}

/// How a `LIKE` pattern writes the character `c`.
pub open spec fn like_char(c: char) -> Seq<char> {
    if c == '%' || c == '_' || c == '\\' {
        seq!['\\', c]
    } else {
        seq![c]
    }
}

/// How a `LIKE` pattern writes the text `s`.
pub open spec fn liked(s: Seq<char>) -> Seq<char>
    decreases s.len(),
{
    if s.len() == 0 {
        s
    } else {
        liked(s.drop_last()) + like_char(s.last())
    }
}

proof fn lemma_globbed_first(s: Seq<char>)
    requires
        s.len() > 0,
    ensures
        globbed(s) == glob_char(s[0]) + globbed(s.drop_first()),
    decreases s.len(),
{
    if s.len() == 1 {
        assert(s.drop_last() =~= Seq::empty());
        assert(s.drop_first() =~= Seq::empty());
        assert(globbed(s) =~= glob_char(s[0]) + globbed(s.drop_first()));
    } else {
        let front = s.drop_last();
        lemma_globbed_first(front);
        assert(front.drop_first() =~= s.drop_first().drop_last());
        assert(globbed(s) =~= glob_char(s[0]) + globbed(s.drop_first()));
    }
}

proof fn lemma_liked_first(s: Seq<char>)
    requires
        s.len() > 0,
    ensures
        liked(s) == like_char(s[0]) + liked(s.drop_first()),
    decreases s.len(),
{
    if s.len() == 1 {
        assert(s.drop_last() =~= Seq::empty());
        assert(s.drop_first() =~= Seq::empty());
        assert(liked(s) =~= like_char(s[0]) + liked(s.drop_first()));
    } else {
        let front = s.drop_last();
        lemma_liked_first(front);
        assert(front.drop_first() =~= s.drop_first().drop_last());
        assert(liked(s) =~= like_char(s[0]) + liked(s.drop_first()));
    }
}

/// A text starts with a prefix if its first character is that of the prefix and
/// the rest starts with the rest of it.
proof fn lemma_prefix_first(s: Seq<char>, prefix: Seq<char>)
    requires
        prefix.len() > 0,
    ensures
        has_prefix(s, prefix) <==> s.len() > 0 && s[0] == prefix[0] && has_prefix(
            s.skip(1),
            prefix.skip(1),
        ),
{
    let n = prefix.len() as int;
    let t = s.skip(1);
    let rest = prefix.skip(1);
    if has_prefix(s, prefix) {
        assert(s.subrange(0, n)[0] == s[0]);
        assert(t.subrange(0, n - 1) =~= s.subrange(0, n).skip(1));
    }
    if s.len() > 0 && s[0] == prefix[0] && has_prefix(t, rest) {
        assert forall|i: int| 0 <= i < n implies s[i] == prefix[i] by {
            if i > 0 {
                assert(t.subrange(0, n - 1)[i - 1] == s[i]);
                assert(rest[i - 1] == prefix[i]);
            }
        }
        assert(s.subrange(0, n) =~= prefix);
    }
}

/// The `GLOB` pattern of a prefix matches exactly the texts that start with it,
/// whatever characters it holds.
pub proof fn glob_is_literal(prefix: Seq<char>, s: Seq<char>)
    ensures
        glob_matches(globbed(prefix) + seq!['*'], s) <==> has_prefix(s, prefix),
    decreases prefix.len(),
{
    let p = globbed(prefix) + seq!['*'];
    if prefix.len() == 0 {
        let n = s.len() as int;
        assert(s.subrange(0, 0) =~= prefix);
        assert(p[0] == '*');
        assert(p.skip(1) =~= Seq::empty());
        assert(s.skip(n).len() == 0);
        assert(glob_matches(p.skip(1), s.skip(n)));
    } else {
        let c = prefix[0];
        let w = glob_char(c);
        let rest = globbed(prefix.skip(1)) + seq!['*'];
        lemma_globbed_first(prefix);
        assert(prefix.drop_first() =~= prefix.skip(1));
        glob_is_literal(prefix.skip(1), s.skip(1));
        lemma_prefix_first(s, prefix);
        assert(p =~= w + rest);
        assert(p.skip(w.len() as int) =~= rest);
        assert forall|i: int| 0 <= i < w.len() implies p[i] == w[i] by {}
        assert(glob_matches(p, s) <==> s.len() > 0 && s[0] == c && glob_matches(rest, s.skip(1)));
    }
}

/// The `LIKE` pattern of a prefix matches exactly the texts that start with it,
/// whatever characters it holds.
pub proof fn like_is_literal(prefix: Seq<char>, s: Seq<char>)
    ensures
        like_matches(liked(prefix) + seq!['%'], s) <==> has_prefix(s, prefix),
    decreases prefix.len(),
{
    let p = liked(prefix) + seq!['%'];
    if prefix.len() == 0 {
        let n = s.len() as int;
        assert(s.subrange(0, 0) =~= prefix);
        assert(p[0] == '%');
        assert(p.skip(1) =~= Seq::empty());
        assert(s.skip(n).len() == 0);
        assert(like_matches(p.skip(1), s.skip(n)));
    } else {
        let c = prefix[0];
        let w = like_char(c);
        let rest = liked(prefix.skip(1)) + seq!['%'];
        lemma_liked_first(prefix);
        assert(prefix.drop_first() =~= prefix.skip(1));
        like_is_literal(prefix.skip(1), s.skip(1));
        lemma_prefix_first(s, prefix);
        assert(p =~= w + rest);
        assert(p.skip(w.len() as int) =~= rest);
        assert forall|i: int| 0 <= i < w.len() implies p[i] == w[i] by {}
        assert(like_matches(p, s) <==> s.len() > 0 && s[0] == c && like_matches(rest, s.skip(1)));
    }
}

/// The `GLOB` pattern that matches every path with the given prefix.
pub fn prefix_glob(prefix: &str) -> (r: String)
    ensures
        r@ == globbed(prefix@) + seq!['*'],
        forall|path: Seq<char>| #[trigger]
            has_prefix(path, prefix@) <==> glob_matches(r@, path),
{
    let cs = chars_of(prefix);
    let mut r = String::new();
    let mut i: usize = 0;
    proof {
        assert(cs@.take(0) =~= Seq::<char>::empty());
    }
    while i < cs.len()
        invariant
            i <= cs@.len(),
            r@ == globbed(cs@.take(i as int)),
        decreases cs@.len() - i,
    {
        let ghost before = r@;
        let c = cs[i];
        proof {
            assert(cs@.take(i + 1).drop_last() =~= cs@.take(i as int));
            assert(cs@.take(i + 1).last() == c);
        }
        if c == '*' || c == '?' || c == '[' {
            r.push('[');
            r.push(c);
            r.push(']');
        } else {
            r.push(c);
        }
        proof {
            assert(r@ =~= before + glob_char(c));
        }
        i += 1;
    }
    let ghost body = r@;
    r.push('*');
    proof {
        assert(cs@.take(i as int) =~= cs@);
        assert(r@ =~= body + seq!['*']);
        assert forall|path: Seq<char>| #[trigger]
            has_prefix(path, prefix@) <==> glob_matches(r@, path) by {
            glob_is_literal(prefix@, path);
        }
    }
    r
}

/// The `LIKE` pattern that matches every path with the given prefix, with the
/// backslash as escape character.
pub fn prefix_like(prefix: &str) -> (r: String)
    ensures
        r@ == liked(prefix@) + seq!['%'],
        forall|path: Seq<char>| #[trigger]
            has_prefix(path, prefix@) <==> like_matches(r@, path),
{
    let cs = chars_of(prefix);
    let mut r = String::new();
    let mut i: usize = 0;
    proof {
        assert(cs@.take(0) =~= Seq::<char>::empty());
    }
    while i < cs.len()
        invariant
            i <= cs@.len(),
            r@ == liked(cs@.take(i as int)),
        decreases cs@.len() - i,
    {
        let ghost before = r@;
        let c = cs[i];
        proof {
            assert(cs@.take(i + 1).drop_last() =~= cs@.take(i as int));
            assert(cs@.take(i + 1).last() == c);
        }
        if c == '%' || c == '_' || c == '\\' {
            r.push('\\');
        }
        r.push(c);
        proof {
            assert(r@ =~= before + like_char(c));
        }
        i += 1;
    }
    let ghost body = r@;
    r.push('%');
    proof {
        assert(cs@.take(i as int) =~= cs@);
        assert(r@ =~= body + seq!['%']);
        assert forall|path: Seq<char>| #[trigger]
            has_prefix(path, prefix@) <==> like_matches(r@, path) by {
            like_is_literal(prefix@, path);
        }
    }
    r
}

} // verus!
