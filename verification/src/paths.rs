//! Paths as strings with `/` between components, read and compared as
//! `std::path::Path` reads and compares them.

use vstd::prelude::*;

use crate::pattern::chars_of;
use vstd::string::StringExecFns;

verus! {

broadcast use vstd::string::group_string_axioms;

/// `i` is the last position of `c` in `s`.
pub open spec fn is_last_pos(s: Seq<char>, c: char, i: int) -> bool {
    0 <= i < s.len() && s[i] == c && forall|j: int| i < j < s.len() ==> s[j] != c
}

/// Position of the last `c` of `s`, if it has one.
pub open spec fn last_pos(s: Seq<char>, c: char) -> Option<int> {
    if exists|i: int| 0 <= i < s.len() && s[i] == c {
        Some(choose|i: int| is_last_pos(s, c, i))
    } else {
        None
    }
}

/// The position `last_pos` gives is the last position of the character.
pub proof fn lemma_last_pos(s: Seq<char>, c: char)
    ensures
        last_pos(s, c) matches Some(i) ==> is_last_pos(s, c, i),
        last_pos(s, c) is None ==> forall|j: int| 0 <= j < s.len() ==> s[j] != c,
{
    if exists|i: int| 0 <= i < s.len() && s[i] == c {
        let w = choose|i: int| 0 <= i < s.len() && s[i] == c;
        let k = last_index_from(s, c, w);
        assert(is_last_pos(s, c, k));
    }
}

/// The last position of `c` at or after `w`, where `s[w] == c`.
proof fn last_index_from(s: Seq<char>, c: char, w: int) -> (k: int)
    requires
        0 <= w < s.len(),
        s[w] == c,
    ensures
        is_last_pos(s, c, k),
    decreases s.len() - w,
{
    if exists|j: int| w < j < s.len() && s[j] == c {
        let j = choose|j: int| w < j < s.len() && s[j] == c;
        last_index_from(s, c, j)
    } else {
        w
    }
}

/// The last position of `c` in `v`.
pub fn last_position_of(v: &Vec<char>, c: char) -> (r: Option<usize>)
    ensures
        match r {
            Some(i) => last_pos(v@, c) == Some(i as int) && is_last_pos(v@, c, i as int),
            None => last_pos(v@, c) is None,
        },
{
    let mut k: usize = v.len();
    while k > 0
        invariant
            k <= v@.len(),
            forall|j: int| k <= j < v@.len() ==> v@[j] != c,
        decreases k,
    {
        if v[k - 1] == c {
            let ghost i = k - 1;
            assert(is_last_pos(v@, c, i));
            let ghost chosen = choose|i: int| is_last_pos(v@, c, i);
            assert(chosen == i) by {
                if chosen < i {
                    assert(v@[i] != c);
                }
                if chosen > i {
                    assert(v@[chosen] != c);
                }
            }
            return Some(k - 1);
        }
        k = k - 1;
    }
    None
}

/// The characters `lo..hi` of `v`.
pub fn string_of_range(v: &Vec<char>, lo: usize, hi: usize) -> (r: String)
    requires
        lo <= hi <= v@.len(),
    ensures
        r@ == v@.subrange(lo as int, hi as int),
{
    let mut r = String::new();
    let mut j: usize = lo;
    while j < hi
        invariant
            lo <= j <= hi <= v@.len(),
            r@ == v@.subrange(lo as int, j as int),
        decreases hi - j,
    {
        crate::text::push_char(&mut r, v[j]);
        assert(r@ =~= v@.subrange(lo as int, j + 1));
        j = j + 1;
    }
    r
}

/// The path is absolute: it starts with `/`.
pub open spec fn is_absolute(p: Seq<char>) -> bool {
    p.len() > 0 && p[0] == '/'
}

/// The path starts with a `.` component: `.` alone, or `./` before the rest,
/// in a path that is not absolute.
pub open spec fn leads_with_dot(p: Seq<char>) -> bool {
    !is_absolute(p) && p.len() >= 1 && p[0] == '.' && (p.len() == 1 || p[1] == '/')
}

/// A field between separators that names a component: not empty and not `.`.
pub open spec fn is_component(f: Seq<char>) -> bool {
    f.len() > 0 && f != seq!['.']
}

/// The components found so far, and the field being read, after the
/// characters of `p`.
pub open spec fn scan_components(p: Seq<char>) -> (Seq<Seq<char>>, Seq<char>)
    decreases p.len(),
{
    if p.len() == 0 {
        (Seq::empty(), Seq::empty())
    } else {
        let (done, cur) = scan_components(p.drop_last());
        if p.last() == '/' {
            (if is_component(cur) { done.push(cur) } else { done }, Seq::empty())
        } else {
            (done, cur.push(p.last()))
        }
    }
}

/// The components of a path, as `std::path::Path` reads them: the fields
/// between `/` that are neither empty nor `.`, after a leading `.` when the
/// path starts with one. The root of an absolute path is not among them.
pub open spec fn components(p: Seq<char>) -> Seq<Seq<char>> {
    let (done, cur) = scan_components(p);
    let parts = if is_component(cur) { done.push(cur) } else { done };
    if leads_with_dot(p) { seq![seq!['.']] + parts } else { parts }
}

/// Components written with one `/` between them.
pub open spec fn joined(c: Seq<Seq<char>>) -> Seq<char>
    decreases c.len(),
{
    if c.len() == 0 {
        Seq::empty()
    } else if c.len() == 1 {
        c[0]
    } else {
        joined(c.drop_last()) + seq!['/'] + c.last()
    }
}

/// A path written from its root and components.
pub open spec fn path_of(absolute: bool, c: Seq<Seq<char>>) -> Seq<char> {
    (if absolute { seq!['/'] } else { Seq::empty() }) + joined(c)
}

/// The path in its plain form: `/` for the root, then the components with one
/// `/` between them. Two paths are equal as `std::path::Path` compares them
/// exactly when their plain forms are equal.
pub open spec fn plain(p: Seq<char>) -> Seq<char> {
    path_of(is_absolute(p), components(p))
}

/// `rel` below `base`, in plain form: an absolute `rel` replaces `base`, an
/// empty `base` gives `rel`, and a `/` stands between them otherwise.
#[verifier::opaque]
pub open spec fn join(base: Seq<char>, rel: Seq<char>) -> Seq<char> {
    if is_absolute(rel) || base.len() == 0 {
        plain(rel)
    } else {
        plain(base + seq!['/'] + rel)
    }
}

/// The path without its last component, in plain form; the empty path for a
/// path without components.
#[verifier::opaque]
pub open spec fn parent(p: Seq<char>) -> Seq<char> {
    let c = components(p);
    if c.len() == 0 {
        Seq::empty()
    } else {
        path_of(is_absolute(p), c.drop_last())
    }
}

/// The components of a path.
fn path_components(p: &Vec<char>) -> (r: Vec<String>)
    ensures
        crate::plan::string_views(r@) == components(p@),
{
    let mut done: Vec<String> = Vec::new();
    let mut cur = String::new();
    assert(p@.take(0) =~= Seq::<char>::empty());
    for i in 0..p.len()
        invariant
            (crate::plan::string_views(done@), cur@) == scan_components(p@.take(i as int)),
    {
        assert(p@.take(i + 1).drop_last() =~= p@.take(i as int));
        assert(p@.take(i + 1).last() == p@[i as int]);
        if p[i] == '/' {
            let keep = cur.as_str().is_empty() == false && !crate::text::str_eq(cur.as_str(), ".");
            proof {
                reveal_strlit(".");
                assert(".".view() =~= seq!['.']);
            }
            if keep {
                let ghost before = done@;
                done.push(cur);
                assert(crate::plan::string_views(done@) =~= crate::plan::string_views(before).push(done@[done@.len() - 1]@));
            }
            cur = String::new();
        } else {
            crate::text::push_char(&mut cur, p[i]);
        }
    }
    assert(p@.take(p@.len() as int) =~= p@);
    let keep = cur.as_str().is_empty() == false && !crate::text::str_eq(cur.as_str(), ".");
    proof {
        reveal_strlit(".");
        assert(".".view() =~= seq!['.']);
    }
    if keep {
        let ghost before = done@;
        done.push(cur);
        assert(crate::plan::string_views(done@) =~= crate::plan::string_views(before).push(done@[done@.len() - 1]@));
    }
    let lead = p.len() >= 1 && p[0] == '.' && (p.len() == 1 || p[1] == '/');
    if lead {
        let mut r: Vec<String> = Vec::new();
        r.push(String::from_str("."));
        proof {
            reveal_strlit(".");
        }
        for k in 0..done.len()
            invariant
                crate::plan::string_views(r@) == seq![seq!['.']] + crate::plan::string_views(done@).take(k as int),
        {
            let ghost before = r@;
            r.push(done[k].clone());
            assert(crate::plan::string_views(done@).take(k + 1) =~= crate::plan::string_views(done@).take(k as int).push(done@[k as int]@));
            assert(crate::plan::string_views(r@) =~= crate::plan::string_views(before).push(r@[r@.len() - 1]@));
        }
        assert(crate::plan::string_views(done@).take(done@.len() as int) =~= crate::plan::string_views(done@));
        r
    } else {
        done
    }
}

/// A path written from its root and its first `n` components.
fn write_path(absolute: bool, c: &Vec<String>, n: usize) -> (r: String)
    requires
        n <= c@.len(),
    ensures
        r@ == path_of(absolute, crate::plan::string_views(c@).take(n as int)),
{
    let mut r = String::new();
    if absolute {
        crate::text::push_char(&mut r, '/');
    }
    let ghost pre = r@;
    let ghost cv = crate::plan::string_views(c@);
    assert(cv.take(0) =~= Seq::<Seq<char>>::empty());
    for k in 0..n
        invariant
            n <= c@.len(),
            cv == crate::plan::string_views(c@),
            r@ == pre + joined(cv.take(k as int)),
    {
        assert(cv.take(k + 1).drop_last() =~= cv.take(k as int));
        assert(cv.take(k + 1).last() == c@[k as int]@);
        if k > 0 {
            crate::text::push_char(&mut r, '/');
        } else {
            assert(cv.take(1)[0] == c@[0]@);
        }
        r.append(c[k].as_str());
        assert(r@ =~= pre + joined(cv.take(k + 1)));
    }
    assert(pre == (if absolute { seq!['/'] } else { Seq::<char>::empty() }));
    r
}

/// The plain form of a path.
pub fn path_plain(p: &str) -> (r: String)
    ensures
        r@ == plain(p@),
{
    let v = chars_of(p);
    let c = path_components(&v);
    assert(crate::plan::string_views(c@).take(c@.len() as int) =~= crate::plan::string_views(c@));
    write_path(v.len() > 0 && v[0] == '/', &c, c.len())
}

/// Joins `rel` below `base`.
pub fn path_join(base: &str, rel: &str) -> (r: String)
    ensures
        r@ == join(base@, rel@),
{
    reveal(join);
    let b = chars_of(base);
    let rv = chars_of(rel);
    if (rv.len() > 0 && rv[0] == '/') || b.len() == 0 {
        path_plain(rel)
    } else {
        let mut raw = String::from_str(base);
        crate::text::push_char(&mut raw, '/');
        raw.append(rel);
        assert(raw@ =~= base@ + seq!['/'] + rel@);
        path_plain(raw.as_str())
    }
}

/// The directory holding `p`.
pub fn path_parent(p: &str) -> (r: String)
    ensures
        r@ == parent(p@),
{
    reveal(parent);
    let v = chars_of(p);
    let c = path_components(&v);
    if c.len() == 0 {
        String::new()
    } else {
        let r = write_path(v.len() > 0 && v[0] == '/', &c, c.len() - 1);
        assert(crate::plan::string_views(c@).take(c@.len() - 1) =~= crate::plan::string_views(c@).drop_last());
        r
    }
}

/// A component that names a file: neither `.` nor `..`.
pub open spec fn names_file(c: Seq<char>) -> bool {
    c != seq!['.'] && c != seq!['.', '.']
}

/// The file name of `p`, as `Path::file_name` gives it: its last component,
/// unless there is none or it is `..`.
pub open spec fn file_name(p: Seq<char>) -> Option<Seq<char>> {
    let c = components(p);
    if c.len() > 0 && names_file(c.last()) {
        Some(c.last())
    } else {
        None
    }
}

/// A file name split at its last `.` into stem and extension; a name whose
/// only `.` starts it has no extension.
pub open spec fn split_name(n: Seq<char>) -> (Seq<char>, Option<Seq<char>>) {
    match last_pos(n, '.') {
        Some(i) => if i > 0 {
            (n.take(i), Some(n.skip(i + 1)))
        } else {
            (n, None)
        },
        None => (n, None),
    }
}

/// The extension of `p`, as `Path::extension` gives it.
pub open spec fn extension(p: Seq<char>) -> Option<Seq<char>> {
    match file_name(p) {
        Some(n) => split_name(n).1,
        None => None,
    }
}

/// The stem of `p`, as `Path::file_stem` gives it.
pub open spec fn file_stem(p: Seq<char>) -> Option<Seq<char>> {
    match file_name(p) {
        Some(n) => Some(split_name(n).0),
        None => None,
    }
}

/// `p` with its extension set to `e`, as `Path::with_extension` gives it, in
/// plain form: the file name becomes the stem, then `.` and `e` unless `e` is
/// empty; a path without a file name stays as it is.
pub open spec fn with_extension(p: Seq<char>, e: Seq<char>) -> Seq<char> {
    match file_stem(p) {
        None => plain(p),
        Some(st) => path_of(
            is_absolute(p),
            components(p).drop_last().push(if e.len() == 0 { st } else { st + seq!['.'] + e }),
        ),
    }
}

/// Whether a component names a file.
fn component_names_file(c: &String) -> (r: bool)
    ensures
        r == names_file(c@),
{
    proof {
        reveal_strlit(".");
        reveal_strlit("..");
        assert(".".view() =~= seq!['.']);
        assert("..".view() =~= seq!['.', '.']);
    }
    !crate::text::str_eq(c.as_str(), ".") && !crate::text::str_eq(c.as_str(), "..")
}

/// The file name of a path.
pub fn path_file_name(p: &str) -> (r: Option<String>)
    ensures
        match r {
            Some(n) => file_name(p@) == Some(n@),
            None => file_name(p@) is None,
        },
{
    let v = chars_of(p);
    let c = path_components(&v);
    if c.len() > 0 && component_names_file(&c[c.len() - 1]) {
        let n = c[c.len() - 1].clone();
        assert(crate::plan::string_views(c@).last() == c@[c@.len() - 1]@);
        Some(n)
    } else {
        None
    }
}

/// Splits a file name at its last `.`.
fn split_file_name(n: &String) -> (r: (String, Option<String>))
    ensures
        (r.0@, match r.1 {
            Some(x) => Some(x@),
            None => None,
        }) == split_name(n@),
{
    let v = chars_of(n.as_str());
    match last_position_of(&v, '.') {
        Some(i) => if i > 0 {
            assert(i < v@.len() && v@.len() == v.len());
            (string_of_range(&v, 0, i), Some(string_of_range(&v, i + 1, v.len())))
        } else {
            (n.clone(), None)
        },
        None => (n.clone(), None),
    }
}

/// The extension of a path, if it has one.
pub fn path_extension(p: &str) -> (r: Option<String>)
    ensures
        match r {
            Some(x) => extension(p@) == Some(x@),
            None => extension(p@) is None,
        },
{
    match path_file_name(p) {
        Some(n) => split_file_name(&n).1,
        None => None,
    }
}

/// The stem of a path, if it has a file name.
pub fn path_file_stem(p: &str) -> (r: Option<String>)
    ensures
        match r {
            Some(x) => file_stem(p@) == Some(x@),
            None => file_stem(p@) is None,
        },
{
    match path_file_name(p) {
        Some(n) => Some(split_file_name(&n).0),
        None => None,
    }
}

/// The path with its extension set to `e`.
pub fn path_with_extension(p: &str, e: &str) -> (r: String)
    ensures
        r@ == with_extension(p@, e@),
{
    match path_file_stem(p) {
        None => path_plain(p),
        Some(st) => {
            let v = chars_of(p);
            let mut c = path_components(&v);
            let ghost cv = crate::plan::string_views(c@);
            assert(cv == components(p@) && cv.len() > 0);
            let ghost stv = st@;
            let mut last = st;
            if !e.is_empty() {
                crate::text::push_char(&mut last, '.');
                last.append(e);
                assert(last@ =~= stv + seq!['.'] + e@);
            } else {
                assert(e@.len() == 0);
            }
            let _ = c.pop();
            let ghost lv = last@;
            c.push(last);
            assert(crate::plan::string_views(c@) =~= cv.drop_last().push(lv));
            assert(crate::plan::string_views(c@).take(c@.len() as int) =~= crate::plan::string_views(c@));
            assert((v.len() > 0 && v[0] == '/') == is_absolute(p@));
            write_path(v.len() > 0 && v[0] == '/', &c, c.len())
        },
    }
}

} // verus!
