//! Fuzzy matching of a pattern against the author and title of a song.

use vstd::prelude::*;

use crate::model::SongInfo;
use crate::text::{lowercase, to_lowercase};
use vstd::string::StringExecFns;

verus! {

broadcast use vstd::string::group_string_axioms;

/// `f` places each character of `p` at a position of `t` holding the same
/// character, the positions strictly increasing.
pub open spec fn is_embedding(f: Seq<int>, p: Seq<char>, t: Seq<char>) -> bool {
    &&& f.len() == p.len()
    &&& forall|i: int| 0 <= i < f.len() ==> 0 <= #[trigger] f[i] < t.len() && t[f[i]] == p[i]
    &&& forall|i: int, j: int| 0 <= i < j < f.len() ==> #[trigger] f[i] < #[trigger] f[j]
}

/// `p` is a subsequence of `t`: its characters appear in `t` in order, not
/// necessarily contiguously.
pub open spec fn is_subsequence_of(p: Seq<char>, t: Seq<char>) -> bool {
    exists|f: Seq<int>| is_embedding(f, p, t)
}

/// Matching from the left: each character of `p` takes the first character
/// of `t` that equals it.
closed spec fn leftmost_match(p: Seq<char>, t: Seq<char>) -> bool
    decreases t.len(),
{
    if p.len() == 0 {
        true
    } else if t.len() == 0 {
        false
    } else if t[0] == p[0] {
        leftmost_match(p.drop_first(), t.drop_first())
    } else {
        leftmost_match(p, t.drop_first())
    }
}

spec fn shift(f: Seq<int>, d: int) -> Seq<int> {
    f.map_values(|x: int| x + d)
}

proof fn lemma_leftmost_gives_embedding(p: Seq<char>, t: Seq<char>)
    requires
        leftmost_match(p, t),
    ensures
        is_subsequence_of(p, t),
    decreases t.len(),
{
    if p.len() == 0 {
        let f = Seq::<int>::empty();
        assert(is_embedding(f, p, t));
    } else if t[0] == p[0] {
        lemma_leftmost_gives_embedding(p.drop_first(), t.drop_first());
        let g = choose|g: Seq<int>| is_embedding(g, p.drop_first(), t.drop_first());
        let f = seq![0int] + shift(g, 1);
        assert forall|i: int| 0 <= i < f.len() implies 0 <= #[trigger] f[i] < t.len() && t[f[i]]
            == p[i] by {
            if i > 0 {
                assert(f[i] == g[i - 1] + 1);
            }
        }
        assert forall|i: int, j: int| 0 <= i < j < f.len() implies #[trigger] f[i]
            < #[trigger] f[j] by {
            if i > 0 {
                assert(f[i] == g[i - 1] + 1);
                assert(f[j] == g[j - 1] + 1);
            } else {
                assert(f[j] == g[j - 1] + 1);
            }
        }
        assert(is_embedding(f, p, t));
    } else {
        lemma_leftmost_gives_embedding(p, t.drop_first());
        let g = choose|g: Seq<int>| is_embedding(g, p, t.drop_first());
        let f = shift(g, 1);
        assert forall|i: int| 0 <= i < f.len() implies 0 <= #[trigger] f[i] < t.len() && t[f[i]]
            == p[i] by {
            assert(f[i] == g[i] + 1);
        }
        assert forall|i: int, j: int| 0 <= i < j < f.len() implies #[trigger] f[i]
            < #[trigger] f[j] by {
            assert(f[i] == g[i] + 1);
            assert(f[j] == g[j] + 1);
        }
        assert(is_embedding(f, p, t));
    }
}

proof fn lemma_embedding_gives_leftmost(f: Seq<int>, p: Seq<char>, t: Seq<char>)
    requires
        is_embedding(f, p, t),
    ensures
        leftmost_match(p, t),
    decreases t.len(),
{
    if p.len() == 0 {
    } else {
        assert(0 <= f[0] < t.len());
        if t[0] == p[0] {
            let g = shift(f.drop_first(), -1);
            assert forall|i: int| 0 <= i < g.len() implies 0 <= #[trigger] g[i] < t.drop_first().len()
                && t.drop_first()[g[i]] == p.drop_first()[i] by {
                assert(f[0] < f[i + 1]);
                assert(g[i] == f[i + 1] - 1);
            }
            assert forall|i: int, j: int| 0 <= i < j < g.len() implies #[trigger] g[i]
                < #[trigger] g[j] by {
                assert(f[i + 1] < f[j + 1]);
                assert(g[i] == f[i + 1] - 1);
                assert(g[j] == f[j + 1] - 1);
            }
            assert(is_embedding(g, p.drop_first(), t.drop_first()));
            lemma_embedding_gives_leftmost(g, p.drop_first(), t.drop_first());
        } else {
            assert(f[0] != 0);
            let g = shift(f, -1);
            assert forall|i: int| 0 <= i < g.len() implies 0 <= #[trigger] g[i] < t.drop_first().len()
                && t.drop_first()[g[i]] == p[i] by {
                if i > 0 {
                    assert(f[0] < f[i]);
                }
                assert(g[i] == f[i] - 1);
            }
            assert forall|i: int, j: int| 0 <= i < j < g.len() implies #[trigger] g[i]
                < #[trigger] g[j] by {
                assert(f[i] < f[j]);
                assert(g[i] == f[i] - 1);
                assert(g[j] == f[j] - 1);
            }
            assert(is_embedding(g, p, t.drop_first()));
            lemma_embedding_gives_leftmost(g, p, t.drop_first());
        }
    }
}

proof fn lemma_leftmost_iff_subsequence(p: Seq<char>, t: Seq<char>)
    ensures
        leftmost_match(p, t) == is_subsequence_of(p, t),
{
    if leftmost_match(p, t) {
        lemma_leftmost_gives_embedding(p, t);
    }
    if is_subsequence_of(p, t) {
        let f = choose|f: Seq<int>| is_embedding(f, p, t);
        lemma_embedding_gives_leftmost(f, p, t);
    }
}

/// The characters of a string, in order.
pub fn chars_of(s: &str) -> (v: Vec<char>)
    ensures
        v@ == s@,
{
    let mut v: Vec<char> = Vec::new();
    for c in iter: s.chars()
        invariant
            iter.seq() == s@,
            v@ == s@.take(iter.index()),
    {
        let ghost k = iter.index();
        v.push(c);
        assert(v@ =~= s@.take(k + 1));
    }
    assert(s@.take(s@.len() as int) =~= s@);
    v
}

/// Checks if pattern is a subsequence of text (fuzzy match).
/// Each character in pattern must appear in text in order, but not necessarily contiguously.
pub fn fuzzy_match(text: &str, pattern: &str) -> (r: bool)
    ensures
        r == is_subsequence_of(pattern@, text@),
{
    let p = chars_of(pattern);
    let mut j: usize = 0;
    assert(p@.skip(0) =~= p@);
    assert(text@.skip(0) =~= text@);
    for c in iter: text.chars()
        invariant
            iter.seq() == text@,
            p@ == pattern@,
            j <= p.len(),
            leftmost_match(pattern@, text@) == leftmost_match(
                p@.skip(j as int),
                text@.skip(iter.index()),
            ),
    {
        let ghost k = iter.index();
        assert(text@.skip(k).drop_first() =~= text@.skip(k + 1));
        assert(text@.skip(k)[0] == c);
        if j < p.len() && c == p[j] {
            assert(p@.skip(j as int).drop_first() =~= p@.skip(j + 1));
            j = j + 1;
        }
    }
    assert(text@.skip(text@.len() as int) =~= Seq::<char>::empty());
    proof {
        lemma_leftmost_iff_subsequence(pattern@, text@);
    }
    j == p.len()
}

/// The text a pattern is matched against: `{author} {title}`.
pub open spec fn search_text(info: SongInfo) -> Seq<char> {
    info.author@ + " "@ + info.title@
}

/// Whether the song is kept by the pattern: the lowercase pattern is a
/// subsequence of the lowercase `{author} {title}`.
pub fn song_matches_pattern(info: &SongInfo, pattern: &str) -> (r: bool)
    ensures
        r == is_subsequence_of(lowercase(pattern@), lowercase(search_text(*info))),
{
    let mut search = info.author.clone();
    search.append(" ");
    search.append(info.title.as_str());
    let search_lower = to_lowercase(search.as_str());
    let pattern_lower = to_lowercase(pattern);
    fuzzy_match(search_lower.as_str(), pattern_lower.as_str())
}

/// The empty pattern matches every text.
pub proof fn lemma_empty_pattern_matches(t: Seq<char>)
    ensures
        is_subsequence_of(Seq::empty(), t),
{
    assert(is_embedding(Seq::<int>::empty(), Seq::empty(), t));
}

/// A text matches itself, and every text it is part of: a pattern that
/// matches a text still matches it with more text around it.
pub proof fn lemma_match_survives_more_text(p: Seq<char>, t: Seq<char>, before: Seq<char>, after: Seq<char>)
    ensures
        is_subsequence_of(t, t),
        is_subsequence_of(p, t) ==> is_subsequence_of(p, before + t + after),
{
    let id = Seq::new(t.len(), |i: int| i);
    assert(is_embedding(id, t, t));
    if is_subsequence_of(p, t) {
        let f = choose|f: Seq<int>| is_embedding(f, p, t);
        let g = shift(f, before.len() as int);
        let u = before + t + after;
        assert forall|i: int| 0 <= i < g.len() implies 0 <= #[trigger] g[i] < u.len() && u[g[i]] == p[i] by {
            assert(0 <= f[i] < t.len() && t[f[i]] == p[i]);
            assert(u[before.len() + f[i]] == t[f[i]]);
        }
        assert forall|i: int, j: int| 0 <= i < j < g.len() implies #[trigger] g[i] < #[trigger] g[j] by {
            assert(f[i] < f[j]);
        }
        assert(is_embedding(g, p, u));
    }
}

} // verus!
