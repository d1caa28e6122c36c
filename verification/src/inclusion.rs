//! The inclusion directives of LilyPond sources, followed from file to file.

use vstd::prelude::*;

use crate::paths::{join, parent, path_join, path_parent, string_of_range};
use crate::pattern::chars_of;
use crate::plan::string_views;
use crate::text::{is_whitespace, white_space};

verus! {

broadcast use vstd::string::group_string_axioms;


/// `pat` occurs in `s` at position `i`.
pub open spec fn occurs_at(s: Seq<char>, pat: Seq<char>, i: int) -> bool {
    0 <= i && i + pat.len() <= s.len() && s.subrange(i, i + pat.len()) == pat
}

/// `i` is the first position where `pat` occurs in `s`.
pub open spec fn is_first_occurrence(s: Seq<char>, pat: Seq<char>, i: int) -> bool {
    occurs_at(s, pat, i) && forall|j: int| 0 <= j < i ==> !occurs_at(s, pat, j)
}

/// The first position where `pat` occurs in `s`, if it does.
pub open spec fn find(s: Seq<char>, pat: Seq<char>) -> Option<int> {
    if exists|i: int| occurs_at(s, pat, i) {
        Some(choose|i: int| is_first_occurrence(s, pat, i))
    } else {
        None
    }
}

/// The first position where `pat` occurs at or after `from`.
fn find_from(s: &Vec<char>, pat: &Vec<char>, from: usize) -> (r: Option<usize>)
    requires
        pat@.len() > 0,
        from <= s@.len(),
        forall|j: int| 0 <= j < from ==> !occurs_at(s@, pat@, j),
    ensures
        match r {
            Some(i) => find(s@, pat@) == Some(i as int) && is_first_occurrence(s@, pat@, i as int),
            None => find(s@, pat@) is None,
        },
{
    let mut i: usize = from;
    assert(s@.len() == s.len());
    while i < s.len()
        invariant
            pat@.len() > 0,
            s@.len() == s.len(),
            from <= i <= s@.len(),
            forall|j: int| 0 <= j < i ==> !occurs_at(s@, pat@, j),
        decreases s@.len() - i,
    {
        if pat.len() <= s.len() - i {
            let mut k: usize = 0;
            let mut ok = true;
            while k < pat.len()
                invariant
                    k <= pat@.len(),
                    s@.len() == s.len(),
                    i + pat@.len() <= s@.len(),
                    ok == forall|m: int| 0 <= m < k ==> s@[i + m] == pat@[m],
                decreases pat@.len() - k,
            {
                if s[i + k] != pat[k] {
                    ok = false;
                }
                k = k + 1;
            }
            if ok {
                assert(s@.subrange(i as int, i + pat@.len()) =~= pat@);
                assert(is_first_occurrence(s@, pat@, i as int));
                let ghost c = choose|c: int| is_first_occurrence(s@, pat@, c);
                assert(c == i) by {
                    if c < i {
                    }
                    if c > i {
                    }
                }
                return Some(i);
            } else {
                assert(!occurs_at(s@, pat@, i as int)) by {
                    let m = choose|m: int| 0 <= m < pat@.len() && s@[i + m] != pat@[m];
                    if occurs_at(s@, pat@, i as int) {
                        assert(s@.subrange(i as int, i + pat@.len())[m] == s@[i + m]);
                    }
                }
            }
        }
        i = i + 1;
    }
    proof {
        assert forall|j: int| !occurs_at(s@, pat@, j) by {
            if 0 <= j < s@.len() {
            }
        }
    }
    None
}


/// The characters `lo..hi` of `v`, as a vector.
fn sub_vec(v: &Vec<char>, lo: usize, hi: usize) -> (r: Vec<char>)
    requires
        lo <= hi <= v@.len(),
    ensures
        r@ == v@.subrange(lo as int, hi as int),
{
    let mut r: Vec<char> = Vec::new();
    let mut j: usize = lo;
    while j < hi
        invariant
            lo <= j <= hi <= v@.len(),
            r@ == v@.subrange(lo as int, j as int),
        decreases hi - j,
    {
        r.push(v[j]);
        assert(r@ =~= v@.subrange(lo as int, j + 1));
        j = j + 1;
    }
    r
}

/// The directive that pulls a file into a LilyPond source: a backslash and
/// the word of that directive.
pub open spec fn directive() -> Seq<char> {
    seq!['\\', 'i', 'n', 'c', 'l', 'u', 'd', 'e']
}

fn directive_chars() -> (r: Vec<char>)
    ensures
        r@ == directive(),
{
    let mut r: Vec<char> = Vec::new();
    r.push('\\');
    r.push('i');
    r.push('n');
    r.push('c');
    r.push('l');
    r.push('u');
    r.push('d');
    r.push('e');
    assert(r@ =~= directive());
    r
}

/// The first character of the line that is not white space is `%`: the line
/// is a comment.
pub open spec fn is_comment(line: Seq<char>) -> bool {
    exists|i: int|
        0 <= i < line.len() && line[i] == '%' && !white_space(line[i]) && forall|j: int|
            0 <= j < i ==> white_space(#[trigger] line[j])
}

/// The file a line pulls in: the text between the first two double quotes
/// that follow the first directive of the line. A comment line pulls in nothing.
pub open spec fn target_of_line(line: Seq<char>) -> Option<Seq<char>> {
    if is_comment(line) {
        None
    } else {
        match find(line, directive()) {
            None => None,
            Some(p) => {
                let rest = line.skip(p + 8);
                match find(rest, seq!['"']) {
                    None => None,
                    Some(q1) => {
                        let after = rest.skip(q1 + 1);
                        match find(after, seq!['"']) {
                            None => None,
                            Some(q2) => Some(after.take(q2)),
                        }
                    },
                }
            },
        }
    }
}

/// Where a pattern occurs, it occurs first somewhere.
proof fn lemma_first_occurrence_exists(s: Seq<char>, pat: Seq<char>, i: int)
    requires
        occurs_at(s, pat, i),
    ensures
        exists|k: int| is_first_occurrence(s, pat, k),
    decreases i,
{
    if exists|j: int| 0 <= j < i && occurs_at(s, pat, j) {
        let j = choose|j: int| 0 <= j < i && occurs_at(s, pat, j);
        lemma_first_occurrence_exists(s, pat, j);
    } else {
        assert(is_first_occurrence(s, pat, i));
    }
}

/// `find` gives the first occurrence, and there is only one.
proof fn lemma_find_is_first(s: Seq<char>, pat: Seq<char>)
    ensures
        find(s, pat) matches Some(p) ==> is_first_occurrence(s, pat, p),
        forall|k: int| #[trigger] is_first_occurrence(s, pat, k) ==> find(s, pat) == Some(k),
{
    if exists|i: int| occurs_at(s, pat, i) {
        let i = choose|i: int| occurs_at(s, pat, i);
        lemma_first_occurrence_exists(s, pat, i);
        let p = choose|k: int| is_first_occurrence(s, pat, k);
        assert forall|k: int| #[trigger] is_first_occurrence(s, pat, k) implies find(s, pat) == Some(k) by {
            if k < p {
                assert(occurs_at(s, pat, k));
            }
            if k > p {
                assert(occurs_at(s, pat, p));
            }
        }
    }
}

/// Text added after a line keeps the first occurrence of a pattern in it.
proof fn lemma_find_with_suffix(s: Seq<char>, t: Seq<char>, pat: Seq<char>)
    requires
        find(s, pat) is Some,
    ensures
        find(s + t, pat) == find(s, pat),
{
    lemma_find_is_first(s, pat);
    let p = find(s, pat)->0;
    let u = s + t;
    assert(u.subrange(p, p + pat.len()) =~= s.subrange(p, p + pat.len()));
    assert forall|j: int| 0 <= j < p implies !occurs_at(u, pat, j) by {
        if occurs_at(u, pat, j) {
            assert(u.subrange(j, j + pat.len()) =~= s.subrange(j, j + pat.len()));
            assert(occurs_at(s, pat, j));
        }
    }
    assert(is_first_occurrence(u, pat, p));
    lemma_find_is_first(u, pat);
}

/// A line is a comment only by its first character that is not white space:
/// whatever follows a line that pulls a file in, a trailing `% ...` comment
/// among it, the line still pulls in the same file.
pub proof fn lemma_trailing_text_keeps_target(line: Seq<char>, suffix: Seq<char>)
    requires
        target_of_line(line) is Some,
    ensures
        target_of_line(line + suffix) == target_of_line(line),
{
    let d = directive();
    let q = seq!['"'];
    let u = line + suffix;
    let p = find(line, d)->0;
    lemma_find_is_first(line, d);
    assert(line[p] == '\\') by {
        assert(line.subrange(p, p + 8)[0] == d[0]);
    }
    assert(!is_comment(u)) by {
        if is_comment(u) {
            let i = choose|i: int|
                0 <= i < u.len() && u[i] == '%' && !white_space(u[i]) && forall|j: int| 0 <= j < i ==> white_space(#[trigger] u[j]);
            if i < line.len() {
                assert(u[i] == line[i]);
                assert forall|j: int| 0 <= j < i implies white_space(#[trigger] line[j]) by {
                    assert(u[j] == line[j]);
                }
                assert(is_comment(line));
            } else {
                assert(white_space(u[p]));
                assert(u[p] == line[p]);
            }
        }
    }
    lemma_find_with_suffix(line, suffix, d);
    let rest = line.skip(p + 8);
    assert(u.skip(p + 8) =~= rest + suffix);
    lemma_find_with_suffix(rest, suffix, q);
    lemma_find_is_first(rest, q);
    let q1 = find(rest, q)->0;
    let after = rest.skip(q1 + 1);
    assert((rest + suffix).skip(q1 + 1) =~= after + suffix);
    lemma_find_with_suffix(after, suffix, q);
    lemma_find_is_first(after, q);
    let q2 = find(after, q)->0;
    assert((after + suffix).take(q2) =~= after.take(q2));
}

/// A line whose first character that is not white space is `%` pulls in nothing.
pub proof fn lemma_comment_lines_pull_in_nothing(line: Seq<char>, i: int)
    requires
        0 <= i < line.len(),
        line[i] == '%',
        forall|j: int| 0 <= j < i ==> white_space(#[trigger] line[j]),
    ensures
        target_of_line(line) is None,
{
    assert(!white_space(line[i]));
    assert(is_comment(line));
}

/// A line `\include <text> "<name>" ...` pulls in `<name>`: the text between
/// the first two quotes after the directive, whatever comes between the
/// directive and the first quote and whatever follows the second.
pub proof fn lemma_include_names_the_quoted_file(between: Seq<char>, name: Seq<char>, rest: Seq<char>)
    requires
        forall|i: int| 0 <= i < between.len() ==> between[i] != '"',
        forall|i: int| 0 <= i < name.len() ==> name[i] != '"',
    ensures
        target_of_line(directive() + between + seq!['"'] + name + seq!['"'] + rest) == Some(name),
{
    let d = directive();
    let q = seq!['"'];
    let line = d + between + q + name + q + rest;
    assert(line.subrange(0, 8) =~= d);
    assert(is_first_occurrence(line, d, 0));
    lemma_find_is_first(line, d);
    assert(!is_comment(line)) by {
        if is_comment(line) {
            let i = choose|i: int|
                0 <= i < line.len() && line[i] == '%' && !white_space(line[i]) && forall|j: int| 0 <= j < i ==> white_space(#[trigger] line[j]);
            assert(line[0] == '\\');
            if i > 0 {
                assert(white_space(line[0]));
            }
        }
    }
    let r1 = line.skip(8);
    assert(r1 =~= between + q + name + q + rest);
    let b = between.len() as int;
    assert(r1.subrange(b, b + 1) =~= q);
    assert forall|j: int| 0 <= j < b implies !occurs_at(r1, q, j) by {
        if occurs_at(r1, q, j) {
            assert(r1.subrange(j, j + 1)[0] == r1[j]);
            assert(r1[j] == between[j]);
        }
    }
    assert(is_first_occurrence(r1, q, b));
    lemma_find_is_first(r1, q);
    let after = r1.skip(b + 1);
    assert(after =~= name + q + rest);
    let m = name.len() as int;
    assert(after.subrange(m, m + 1) =~= q);
    assert forall|j: int| 0 <= j < m implies !occurs_at(after, q, j) by {
        if occurs_at(after, q, j) {
            assert(after.subrange(j, j + 1)[0] == after[j]);
            assert(after[j] == name[j]);
        }
    }
    assert(is_first_occurrence(after, q, m));
    lemma_find_is_first(after, q);
    assert(after.take(m) =~= name);
}

/// The first quote of `v`, if it has one.
fn find_quote(v: &Vec<char>) -> (r: Option<usize>)
    ensures
        match r {
            Some(i) => find(v@, seq!['"']) == Some(i as int) && is_first_occurrence(v@, seq!['"'], i as int),
            None => find(v@, seq!['"']) is None,
        },
{
    let mut q: Vec<char> = Vec::new();
    q.push('"');
    assert(q@ =~= seq!['"']);
    find_from(v, &q, 0)
}

/// Whether the line is a comment.
fn line_is_comment(line: &Vec<char>) -> (r: bool)
    ensures
        r == is_comment(line@),
{
    let mut i: usize = 0;
    while i < line.len() && is_whitespace(line[i])
        invariant
            i <= line@.len(),
            forall|j: int| 0 <= j < i ==> white_space(#[trigger] line@[j]),
        decreases line@.len() - i,
    {
        i = i + 1;
    }
    if i < line.len() && line[i] == '%' {
        assert(line@[i as int] == '%' && !white_space(line@[i as int]) && forall|j: int| 0 <= j < i ==> white_space(#[trigger] line@[j]));
        true
    } else {
        proof {
            if is_comment(line@) {
                let k = choose|k: int| 0 <= k < line@.len() && line@[k] == '%' && !white_space(line@[k]) && forall|j: int| 0 <= j < k ==> white_space(#[trigger] line@[j]);
                if k < i {
                    assert(white_space(line@[k]));
                    assert(line@[k] == '%');
                    assert(!white_space(line@[i as int]) || i == line@.len());
                }
                if k > i {
                    assert(white_space(line@[i as int]));
                }
            }
        }
        false
    }
}

/// The file a line pulls in, if any.
pub fn target_of(line: &Vec<char>) -> (r: Option<String>)
    ensures
        match r {
            Some(t) => target_of_line(line@) == Some(t@),
            None => target_of_line(line@) is None,
        },
{
    if line_is_comment(line) {
        return None;
    }
    let d = directive_chars();
    let p = match find_from(line, &d, 0) {
        Some(p) => p,
        None => {
            return None;
        },
    };
    assert(d@.len() == 8);
    assert(line@.len() == line.len());
    let rest = sub_vec(line, p + 8, line.len());
    assert(rest@ =~= line@.skip(p + 8));
    let q1 = match find_quote(&rest) {
        Some(q) => q,
        None => {
            return None;
        },
    };
    let after = sub_vec(&rest, q1 + 1, rest.len());
    assert(after@ =~= rest@.skip(q1 + 1));
    let q2 = match find_quote(&after) {
        Some(q) => q,
        None => {
            return None;
        },
    };
    let t = string_of_range(&after, 0, q2);
    assert(t@ =~= after@.take(q2 as int));
    Some(t)
}

/// The files that the lines of `content` pull in, in order. Lines end at `\n`.
pub open spec fn targets_of(content: Seq<char>) -> Seq<Seq<char>>
    decreases content.len(),
{
    match find(content, seq!['\n']) {
        None => match target_of_line(content) {
            Some(t) => seq![t],
            None => Seq::empty(),
        },
        Some(i) => {
            if 0 <= i < content.len() {
                let head = match target_of_line(content.take(i)) {
                    Some(t) => seq![t],
                    None => Seq::empty(),
                };
                head + targets_of(content.skip(i + 1))
            } else {
                Seq::empty()
            }
        },
    }
}

/// The files that the lines of a source pull in, in order.
pub fn targets_in(content: &str) -> (r: Vec<String>)
    ensures
        string_views(r@) == targets_of(content@),
{
    let c = chars_of(content);
    let mut nl: Vec<char> = Vec::new();
    nl.push('\n');
    assert(nl@ =~= seq!['\n']);
    let mut r: Vec<String> = Vec::new();
    let mut pos: usize = 0;
    let mut done = false;
    assert(c@.skip(0) =~= c@);
    while !done
        invariant
            c@ == content@,
            nl@ == seq!['\n'],
            pos <= c@.len(),
            !done ==> targets_of(content@) == string_views(r@) + targets_of(c@.skip(pos as int)),
            done ==> targets_of(content@) == string_views(r@),
        decreases c@.len() - pos, if done { 0int } else { 1int },
    {
        let tail = sub_vec(&c, pos, c.len());
        assert(tail@ =~= c@.skip(pos as int));
        match find_from(&tail, &nl, 0) {
            None => {
                let t = target_of(&tail);
                match t {
                    Some(x) => {
                        r.push(x);
                    },
                    None => {},
                }
                assert(string_views(r@) =~= targets_of(content@));
                done = true;
            },
            Some(i) => {
                let line = sub_vec(&tail, 0, i);
                assert(line@ =~= tail@.take(i as int));
                let t = target_of(&line);
                match t {
                    Some(x) => {
                        r.push(x);
                    },
                    None => {},
                }
                assert(tail@.skip(i + 1) =~= c@.skip(pos + i + 1));
                assert(targets_of(content@) =~= string_views(r@) + targets_of(c@.skip(pos + i + 1)));
                pos = pos + i + 1;
            },
        }
    }
    r
}


/// `extra` added to `list` in order, each only when it is not there yet.
pub open spec fn add_absent(list: Seq<Seq<char>>, extra: Seq<Seq<char>>) -> Seq<Seq<char>>
    decreases extra.len(),
{
    if extra.len() == 0 {
        list
    } else {
        let before = add_absent(list, extra.drop_last());
        if before.contains(extra.last()) {
            before
        } else {
            before.push(extra.last())
        }
    }
}

/// Adding absent items keeps a list free of duplicates.
pub proof fn lemma_add_absent_distinct(list: Seq<Seq<char>>, extra: Seq<Seq<char>>)
    requires
        list.no_duplicates(),
    ensures
        add_absent(list, extra).no_duplicates(),
    decreases extra.len(),
{
    if extra.len() > 0 {
        lemma_add_absent_distinct(list, extra.drop_last());
        let before = add_absent(list, extra.drop_last());
        if !before.contains(extra.last()) {
            let after = before.push(extra.last());
            assert forall|a: int, b: int| 0 <= a < b < after.len() implies after[a] != after[b] by {
                if b == after.len() - 1 {
                    assert(before[a] == after[a]);
                }
            }
        }
    }
}

/// The paths a source at `cur` pulls in: each target below the directory of `cur`.
pub open spec fn targets_below(cur: Seq<char>, targets: Seq<Seq<char>>) -> Seq<Seq<char>> {
    targets.map_values(|t: Seq<char>| join(parent(cur), t))
}

/// The walk through the sources that the top-level LilyPond files pull in,
/// following each pulled-in file in turn.
pub struct InclusionScan {
    /// The files pulled in so far, each once, in the order first found.
    pub found: Vec<String>,
    /// The files already visited.
    pub seen: Vec<String>,
    /// The files still to visit; the last one is visited first.
    pub queue: Vec<String>,
    /// The top-level files the walk started at.
    pub roots: Ghost<Seq<Seq<char>>>,
    /// For each source fed so far, the files it pulls in.
    pub fed: Ghost<Seq<Seq<Seq<char>>>>,
}

/// `t` is pulled in by one of the sources fed.
pub open spec fn is_fed_target(fed: Seq<Seq<Seq<char>>>, t: Seq<char>) -> bool {
    exists|i: int, j: int| 0 <= i < fed.len() && 0 <= j < fed[i].len() && #[trigger] fed[i][j] == t
}

/// `t` is visited or still to visit.
pub open spec fn in_walk(seen: Seq<Seq<char>>, queue: Seq<Seq<char>>, t: Seq<char>) -> bool {
    seen.contains(t) || queue.contains(t)
}

/// Adding absent items gives the items of either list.
proof fn lemma_add_absent_contains(list: Seq<Seq<char>>, extra: Seq<Seq<char>>, t: Seq<char>)
    ensures
        add_absent(list, extra).contains(t) <==> list.contains(t) || extra.contains(t),
    decreases extra.len(),
{
    if extra.len() > 0 {
        lemma_add_absent_contains(list, extra.drop_last(), t);
        let before = add_absent(list, extra.drop_last());
        if extra.drop_last().contains(t) {
            let k = choose|k: int| 0 <= k < extra.drop_last().len() && extra.drop_last()[k] == t;
            assert(extra[k] == t);
        }
        if extra.contains(t) && !extra.drop_last().contains(t) {
            let k = choose|k: int| 0 <= k < extra.len() && extra[k] == t;
            if k < extra.len() - 1 {
                assert(extra.drop_last()[k] == t);
            }
        }
        if !before.contains(extra.last()) {
            if before.push(extra.last()).contains(t) {
                let k = choose|k: int| 0 <= k < before.push(extra.last()).len() && before.push(extra.last())[k] == t;
                if k < before.len() {
                    assert(before[k] == t);
                }
            }
            if before.contains(t) {
                let k = choose|k: int| 0 <= k < before.len() && before[k] == t;
                assert(before.push(extra.last())[k] == t);
            }
            assert(before.push(extra.last())[before.len() as int] == extra.last());
        }
    }
}

impl InclusionScan {
    /// What the walk keeps true: the found files are exactly the files the
    /// fed sources pull in; each of these and each top-level file is visited
    /// or still to visit; and nothing else is visited or to visit.
    pub open spec fn walk_inv(&self) -> bool {
        let sv = string_views(self.seen@);
        let qv = string_views(self.queue@);
        &&& forall|t: Seq<char>| #[trigger] string_views(self.found@).contains(t) <==> is_fed_target(self.fed@, t)
        &&& forall|i: int, j: int|
            0 <= i < self.fed@.len() && 0 <= j < self.fed@[i].len() ==> in_walk(sv, qv, #[trigger] self.fed@[i][j])
        &&& forall|k: int| 0 <= k < self.roots@.len() ==> in_walk(sv, qv, #[trigger] self.roots@[k])
        &&& forall|t: Seq<char>| #[trigger] in_walk(sv, qv, t) ==> self.roots@.contains(t) || is_fed_target(self.fed@, t)
    }

    /// The found files hold no file twice.
    pub open spec fn wf(&self) -> bool {
        string_views(self.found@).no_duplicates()
    }

    /// Starts the walk at the top-level files.
    pub fn new(roots: &Vec<String>) -> (r: Self)
        ensures
            r.wf(),
            r.walk_inv(),
            r.roots@ == string_views(roots@),
            r.fed@.len() == 0,
            r.found@.len() == 0,
            r.seen@.len() == 0,
            string_views(r.queue@) == string_views(roots@),
    {
        let mut queue: Vec<String> = Vec::new();
        for i in 0..roots.len()
            invariant
                string_views(queue@) == string_views(roots@).take(i as int),
        {
            let ghost before = queue@;
            let x = roots[i].clone();
            assert(x@ == roots@[i as int]@);
            queue.push(x);
            assert(queue@ == before.push(x));
            assert(string_views(queue@) =~= string_views(before).push(x@));
            assert(string_views(roots@).take(i + 1) =~= string_views(roots@).take(i as int).push(roots@[i as int]@));
        }
        assert(string_views(roots@).take(roots@.len() as int) =~= string_views(roots@));
        let r = InclusionScan {
            found: Vec::new(),
            seen: Vec::new(),
            queue,
            roots: Ghost(string_views(roots@)),
            fed: Ghost(Seq::empty()),
        };
        assert(string_views(r.found@) =~= Seq::<Seq<char>>::empty());
        assert forall|k: int| 0 <= k < r.roots@.len() implies in_walk(string_views(r.seen@), string_views(r.queue@), #[trigger] r.roots@[k]) by {
            assert(string_views(r.queue@)[k] == r.roots@[k]);
        }
        r
    }

    /// Takes the next file to visit off the queue, passing over the files
    /// already visited, and marks it visited. `None` once the queue is empty.
    pub fn next_unseen(&mut self) -> (r: Option<String>)
        requires
            old(self).wf(),
            old(self).walk_inv(),
        ensures
            final(self).wf(),
            final(self).walk_inv(),
            final(self).found == old(self).found,
            final(self).roots == old(self).roots,
            final(self).fed == old(self).fed,
            r is None ==> forall|t: Seq<char>|
                #[trigger] string_views(final(self).seen@).contains(t) <==> final(self).roots@.contains(t)
                    || is_fed_target(final(self).fed@, t),
            match r {
                Some(cur) => exists|k: int|
                    0 <= k < old(self).queue@.len() && (#[trigger] old(self).queue@[k])@ == cur@
                        && !string_views(old(self).seen@).contains(cur@) && (forall|j: int|
                        k < j < old(self).queue@.len() ==> string_views(old(self).seen@).contains(
                            #[trigger] old(self).queue@[j]@,
                        )) && string_views(final(self).queue@) == string_views(old(self).queue@).take(k)
                        && string_views(final(self).seen@) == string_views(old(self).seen@).push(cur@),
                None => (forall|j: int|
                    0 <= j < old(self).queue@.len() ==> string_views(old(self).seen@).contains(
                        #[trigger] old(self).queue@[j]@,
                    )) && final(self).queue@.len() == 0 && final(self).seen == old(self).seen,
            },
    {
        let ghost q0 = string_views(self.queue@);
        while self.queue.len() > 0
            invariant
                self.wf(),
                old(self).walk_inv(),
                self.found == old(self).found,
                self.seen == old(self).seen,
                self.roots == old(self).roots,
                self.fed == old(self).fed,
                self.queue@.len() <= old(self).queue@.len(),
                string_views(self.queue@) == string_views(old(self).queue@).take(self.queue@.len() as int),
                forall|j: int|
                    self.queue@.len() <= j < old(self).queue@.len() ==> string_views(old(self).seen@).contains(
                        #[trigger] old(self).queue@[j]@,
                    ),
            decreases self.queue@.len(),
        {
            let ghost n = self.queue@.len() - 1;
            let cur = self.queue.pop().unwrap();
            assert(string_views(old(self).queue@).take(n + 1)[n] == cur@);
            assert(old(self).queue@[n]@ == cur@);
            assert(string_views(self.queue@) =~= string_views(old(self).queue@).take(n));
            if !crate::sources::contains_str(&self.seen, cur.as_str()) {
                self.seen.push(cur.clone());
                assert(string_views(self.seen@) =~= string_views(old(self).seen@).push(cur@));
                proof {
                    lemma_same_walk(
                        string_views(old(self).seen@),
                        string_views(old(self).queue@),
                        string_views(self.seen@),
                        string_views(self.queue@),
                        n,
                        true,
                    );
                }
                return Some(cur);
            }
        }
        proof {
            lemma_same_walk(
                string_views(old(self).seen@),
                string_views(old(self).queue@),
                string_views(self.seen@),
                string_views(self.queue@),
                0,
                false,
            );
            assert forall|t: Seq<char>| #[trigger] string_views(self.seen@).contains(t) <==> self.roots@.contains(t)
                || is_fed_target(self.fed@, t) by {
                assert(!string_views(self.queue@).contains(t));
                assert(in_walk(string_views(self.seen@), string_views(self.queue@), t) == string_views(self.seen@).contains(t));
                if self.roots@.contains(t) {
                    let k = choose|k: int| 0 <= k < self.roots@.len() && self.roots@[k] == t;
                    assert(in_walk(string_views(self.seen@), string_views(self.queue@), self.roots@[k]));
                }
                if is_fed_target(self.fed@, t) {
                    let (i, j) = choose|i: int, j: int| 0 <= i < self.fed@.len() && 0 <= j < self.fed@[i].len() && #[trigger] self.fed@[i][j] == t;
                    assert(in_walk(string_views(self.seen@), string_views(self.queue@), self.fed@[i][j]));
                }
            }
        }
        None
    }

    /// Records the files that the visited source `cur`, holding `content`,
    /// pulls in: each is queued, and found when it was not found before.
    pub fn feed(&mut self, cur: &str, content: &str)
        requires
            old(self).wf(),
            old(self).walk_inv(),
        ensures
            final(self).wf(),
            final(self).walk_inv(),
            final(self).roots == old(self).roots,
            final(self).fed@ == old(self).fed@.push(targets_below(cur@, targets_of(content@))),
            final(self).seen == old(self).seen,
            string_views(final(self).queue@) == string_views(old(self).queue@) + targets_below(cur@, targets_of(content@)),
            string_views(final(self).found@) == add_absent(string_views(old(self).found@), targets_below(cur@, targets_of(content@))),
    {
        let targets = targets_in(content);
        let dir = path_parent(cur);
        let ghost tb = targets_below(cur@, targets_of(content@));
        for i in 0..targets.len()
            invariant
                string_views(targets@) == targets_of(content@),
                tb == targets_below(cur@, targets_of(content@)),
                dir@ == parent(cur@),
                self.seen == old(self).seen,
                self.roots == old(self).roots,
                self.fed == old(self).fed,
                string_views(old(self).found@).no_duplicates(),
                string_views(self.queue@) == string_views(old(self).queue@) + tb.take(i as int),
                string_views(self.found@) == add_absent(string_views(old(self).found@), tb.take(i as int)),
                self.wf(),
        {
            let target = path_join(dir.as_str(), targets[i].as_str());
            assert(target@ == tb[i as int]);
            assert(tb.take(i + 1).drop_last() =~= tb.take(i as int));
            let ghost before = string_views(self.found@);
            if !crate::sources::contains_str(&self.found, target.as_str()) {
                self.found.push(target.clone());
                assert(string_views(self.found@) =~= before.push(target@));
            }
            proof {
                lemma_add_absent_distinct(string_views(old(self).found@), tb.take(i + 1));
            }
            let ghost qb = self.queue@;
            let ghost tv = target@;
            self.queue.push(target);
            assert(self.queue@ == qb.push(self.queue@.last()));
            assert(string_views(self.queue@) =~= string_views(qb).push(tv));
            assert(string_views(self.queue@) =~= string_views(old(self).queue@) + tb.take(i + 1));
        }
        assert(tb.take(targets@.len() as int) =~= tb);
        self.fed = Ghost(self.fed@.push(tb));
        proof {
            let fo = old(self).fed@;
            let fnew = self.fed@;
            let sv = string_views(self.seen@);
            let qo = string_views(old(self).queue@);
            let qv = string_views(self.queue@);
            assert(qv == qo + tb);
            assert forall|t: Seq<char>| in_walk(sv, qo, t) implies in_walk(sv, qv, t) by {
                if qo.contains(t) {
                    let k = choose|k: int| 0 <= k < qo.len() && qo[k] == t;
                    assert(qv[k] == t);
                }
            }
            assert forall|t: Seq<char>| is_fed_target(fo, t) implies is_fed_target(fnew, t) by {
                let (i, j) = choose|i: int, j: int| 0 <= i < fo.len() && 0 <= j < fo[i].len() && #[trigger] fo[i][j] == t;
                assert(fnew[i][j] == t);
            }
            assert forall|t: Seq<char>| #[trigger] string_views(self.found@).contains(t) <==> is_fed_target(fnew, t) by {
                lemma_add_absent_contains(string_views(old(self).found@), tb, t);
                if tb.contains(t) {
                    let j = choose|j: int| 0 <= j < tb.len() && tb[j] == t;
                    assert(fnew[fo.len() as int][j] == t);
                }
                if is_fed_target(fnew, t) {
                    let (i, j) = choose|i: int, j: int| 0 <= i < fnew.len() && 0 <= j < fnew[i].len() && #[trigger] fnew[i][j] == t;
                    if i < fo.len() {
                        assert(fo[i][j] == t);
                        assert(string_views(old(self).found@).contains(t));
                    } else {
                        assert(tb[j] == t);
                    }
                }
            }
            assert forall|i: int, j: int| 0 <= i < fnew.len() && 0 <= j < fnew[i].len() implies in_walk(sv, qv, #[trigger] fnew[i][j]) by {
                if i < fo.len() {
                    assert(fnew[i][j] == fo[i][j]);
                    assert(in_walk(sv, qo, fo[i][j]));
                } else {
                    assert(qv[qo.len() + j] == tb[j]);
                }
            }
            assert forall|k: int| 0 <= k < self.roots@.len() implies in_walk(sv, qv, #[trigger] self.roots@[k]) by {
                assert(in_walk(sv, qo, self.roots@[k]));
            }
            assert forall|t: Seq<char>| #[trigger] in_walk(sv, qv, t) implies self.roots@.contains(t) || is_fed_target(fnew, t) by {
                if qv.contains(t) && !qo.contains(t) && !sv.contains(t) {
                    let k = choose|k: int| 0 <= k < qv.len() && qv[k] == t;
                    if k < qo.len() {
                        assert(qo[k] == t);
                    } else {
                        assert(fnew[fo.len() as int][k - qo.len()] == t);
                    }
                } else {
                    assert(in_walk(sv, qo, t));
                }
            }
        }
    }
}

/// Taking files off the queue keeps the walk: what was visited or to visit
/// still is, and nothing is added. Either the file at position `n` is newly
/// visited and the queue is cut before it, or the queue is emptied of files
/// all visited before.
proof fn lemma_same_walk(
    seen: Seq<Seq<char>>,
    queue: Seq<Seq<char>>,
    seen2: Seq<Seq<char>>,
    queue2: Seq<Seq<char>>,
    n: int,
    took: bool,
)
    requires
        took ==> 0 <= n < queue.len() && queue2 == queue.take(n) && seen2 == seen.push(queue[n]) && forall|j: int|
            n < j < queue.len() ==> seen.contains(#[trigger] queue[j]),
        !took ==> queue2.len() == 0 && seen2 == seen && forall|j: int| 0 <= j < queue.len() ==> seen.contains(#[trigger] queue[j]),
    ensures
        forall|t: Seq<char>| #[trigger] in_walk(seen2, queue2, t) == in_walk(seen, queue, t),
{
    assert forall|t: Seq<char>| #[trigger] in_walk(seen2, queue2, t) == in_walk(seen, queue, t) by {
        if queue.contains(t) {
            let k = choose|k: int| 0 <= k < queue.len() && queue[k] == t;
            if took {
                if k < n {
                    assert(queue2[k] == t);
                } else if k == n {
                    assert(seen2[seen.len() as int] == t);
                } else {
                    assert(seen.contains(queue[k]));
                }
            } else {
                assert(seen.contains(queue[k]));
            }
        }
        if seen.contains(t) && took {
            let k = choose|k: int| 0 <= k < seen.len() && seen[k] == t;
            assert(seen2[k] == t);
        }
        if took && seen2.contains(t) {
            let k = choose|k: int| 0 <= k < seen2.len() && seen2[k] == t;
            if k < seen.len() {
                assert(seen[k] == t);
            } else {
                assert(queue[n] == t);
            }
        }
        if took && queue2.contains(t) {
            let k = choose|k: int| 0 <= k < queue2.len() && queue2[k] == t;
            assert(queue[k] == t);
        }
        if !took && queue2.contains(t) {
            let k = choose|k: int| 0 <= k < queue2.len() && queue2[k] == t;
        }
    }
}

} // verus!
