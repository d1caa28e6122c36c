//! The LilyPond sources of a song: names declared in `song.yml`, files
//! reached through inclusion directives, and audio renders.

use vstd::prelude::*;

use crate::paths::{extension, join, path_extension, path_join};
use crate::pattern::chars_of;
use crate::plan::string_views;
use crate::text::concat;
use vstd::string::StringExecFns;

verus! {

broadcast use vstd::string::group_string_axioms;

/// `s` ends with `suffix`.
pub open spec fn ends_with(s: Seq<char>, suffix: Seq<char>) -> bool {
    suffix.len() <= s.len() && s.skip(s.len() - suffix.len()) == suffix
}

/// Whether `s` ends with `suffix`.
pub fn str_ends_with(s: &str, suffix: &str) -> (r: bool)
    ensures
        r == ends_with(s@, suffix@),
{
    let a = chars_of(s);
    let b = chars_of(suffix);
    if b.len() > a.len() {
        return false;
    }
    let off = a.len() - b.len();
    let mut i: usize = 0;
    while i < b.len()
        invariant
            a@ == s@,
            b@ == suffix@,
            off == a@.len() - b@.len(),
            b@.len() <= a@.len(),
            i <= b@.len(),
            forall|j: int| 0 <= j < i ==> a@[off + j] == b@[j],
        decreases b@.len() - i,
    {
        assert(off + i < a@.len());
        assert(a@.len() == a.len());
        if a[off + i] != b[i] {
            assert(s@.skip(off as int)[i as int] != suffix@[i as int]);
            return false;
        }
        i = i + 1;
    }
    assert(s@.skip(off as int) =~= suffix@);
    true
}

/// The first `n` characters of `s`.
fn prefix_of(s: &str, n: usize) -> (r: String)
    requires
        n <= s@.len(),
    ensures
        r@ == s@.take(n as int),
{
    let a = chars_of(s);
    let mut r = String::new();
    for i in 0..n
        invariant
            a@ == s@,
            n <= s@.len(),
            r@ == s@.take(i as int),
    {
        crate::text::push_char(&mut r, a[i]);
        assert(r@ =~= s@.take(i + 1));
    }
    r
}

/// The file name of a LilyPond source declared in `song.yml`: the name as
/// given when it ends in `.ly`, with `.ly` added otherwise.
pub open spec fn declared_ly_name_of(declared: Seq<char>) -> Seq<char> {
    if ends_with(declared, ".ly"@) {
        declared
    } else {
        declared + ".ly"@
    }
}

/// The file name of a declared LilyPond source.
pub fn declared_ly_name(declared: &str) -> (r: String)
    ensures
        r@ == declared_ly_name_of(declared@),
{
    if str_ends_with(declared, ".ly") {
        String::from_str(declared)
    } else {
        concat(declared, ".ly")
    }
}

/// Where each declared LilyPond source would be, below the song directory.
pub fn declared_ly_paths(dir: &str, declared: &Vec<String>) -> (r: Vec<String>)
    ensures
        r@.len() == declared@.len(),
        forall|i: int| 0 <= i < r@.len() ==> (#[trigger] r@[i])@ == join(dir@, declared_ly_name_of(declared@[i]@)),
{
    let mut r: Vec<String> = Vec::new();
    for i in 0..declared.len()
        invariant
            r@.len() == i,
            forall|j: int| 0 <= j < i ==> (#[trigger] r@[j])@ == join(dir@, declared_ly_name_of(declared@[j]@)),
    {
        let name = declared_ly_name(declared[i].as_str());
        r.push(path_join(dir, name.as_str()));
    }
    r
}

/// `extra` added to `list` in order, each only where it exists and is not
/// there yet.
pub open spec fn merged_of(list: Seq<Seq<char>>, extra: Seq<Seq<char>>, exists: Seq<bool>) -> Seq<Seq<char>>
    decreases extra.len(),
{
    if extra.len() == 0 {
        list
    } else {
        let before = merged_of(list, extra.drop_last(), exists.take(extra.len() - 1));
        let e = extra.last();
        if exists[extra.len() - 1] && !before.contains(e) {
            before.push(e)
        } else {
            before
        }
    }
}

/// Whether `v` holds a string with the characters of `s`.
pub fn contains_str(v: &Vec<String>, s: &str) -> (r: bool)
    ensures
        r == string_views(v@).contains(s@),
{
    for i in 0..v.len()
        invariant
            forall|j: int| 0 <= j < i ==> v@[j]@ != s@,
    {
        if crate::text::str_eq(v[i].as_str(), s) {
            assert(string_views(v@)[i as int] == s@);
            return true;
        }
    }
    proof {
        if string_views(v@).contains(s@) {
            let j = choose|j: int| 0 <= j < string_views(v@).len() && string_views(v@)[j] == s@;
            assert(v@[j]@ == s@);
        }
    }
    false
}

/// The top-level LilyPond files of a song: those its tex sources name, then
/// the declared sources that exist and are not among them yet. A declared
/// source that does not exist is skipped.
pub fn merge_declared_ly(ly_files: Vec<String>, declared: &Vec<String>, exists: &Vec<bool>) -> (r: Vec<String>)
    requires
        exists@.len() == declared@.len(),
    ensures
        string_views(r@) == merged_of(string_views(ly_files@), string_views(declared@), exists@),
{
    let ghost base = string_views(ly_files@);
    let mut r = ly_files;
    for i in 0..declared.len()
        invariant
            exists@.len() == declared@.len(),
            string_views(r@) == merged_of(base, string_views(declared@).take(i as int), exists@.take(i as int)),
    {
        let ghost d = string_views(declared@);
        assert(d.take(i + 1).drop_last() =~= d.take(i as int));
        assert(exists@.take(i + 1).take(i as int) =~= exists@.take(i as int));
        assert(d.take(i + 1).last() == declared@[i as int]@);
        if exists[i] && !contains_str(&r, declared[i].as_str()) {
            r.push(declared[i].clone());
            assert(string_views(r@) =~= merged_of(base, d.take(i + 1), exists@.take(i + 1)));
        }
    }
    assert(string_views(declared@).take(declared@.len() as int) =~= string_views(declared@));
    assert(exists@.take(declared@.len() as int) =~= exists@);
    r
}


/// A declared source that does not exist adds nothing: the merge is the same
/// without it.
pub proof fn lemma_missing_source_merges_nothing(list: Seq<Seq<char>>, extra: Seq<Seq<char>>, exists: Seq<bool>, k: int)
    requires
        exists.len() == extra.len(),
        0 <= k < extra.len(),
        !exists[k],
    ensures
        merged_of(list, extra, exists) == merged_of(list, extra.remove(k), exists.remove(k)),
    decreases extra.len(),
{
    let n = extra.len() - 1;
    if k == n {
        assert(extra.remove(k) =~= extra.drop_last());
        assert(exists.remove(k) =~= exists.take(n));
    } else {
        let e2 = extra.remove(k);
        let x2 = exists.remove(k);
        assert(exists.take(n).len() == extra.drop_last().len());
        lemma_missing_source_merges_nothing(list, extra.drop_last(), exists.take(n), k);
        assert(e2.drop_last() =~= extra.drop_last().remove(k));
        assert(x2.take(e2.len() - 1) =~= exists.take(n).remove(k));
        assert(e2.last() == extra.last());
        assert(x2[e2.len() - 1] == exists[n]);
    }
}

/// The paths of the declared LilyPond sources of a song below `dir`.
pub open spec fn declared_paths_of(dir: Seq<char>, declared: Seq<Seq<char>>) -> Seq<Seq<char>> {
    declared.map_values(|d: Seq<char>| join(dir, declared_ly_name_of(d)))
}

/// The top-level LilyPond files of a song in `dir`: those its TeX sources
/// name, then each declared source that exists and is not there yet.
pub open spec fn ly_files_of(dir: Seq<char>, toplevel: Seq<Seq<char>>, declared: Seq<Seq<char>>, exists: Seq<bool>) -> Seq<Seq<char>> {
    merged_of(toplevel, declared_paths_of(dir, declared), exists)
}

/// Removing from `files.lilypond` a declared source that does not exist
/// leaves the top-level LilyPond files of the song as they were, and so the
/// whole graph the song expands into: the source is skipped, never an error.
pub proof fn lemma_missing_declared_source_changes_nothing(
    dir: Seq<char>,
    toplevel: Seq<Seq<char>>,
    declared: Seq<Seq<char>>,
    exists: Seq<bool>,
    k: int,
)
    requires
        exists.len() == declared.len(),
        0 <= k < declared.len(),
        !exists[k],
    ensures
        ly_files_of(dir, toplevel, declared, exists) == ly_files_of(dir, toplevel, declared.remove(k), exists.remove(k)),
{
    lemma_missing_source_merges_nothing(toplevel, declared_paths_of(dir, declared), exists, k);
    assert(declared_paths_of(dir, declared).remove(k) =~= declared_paths_of(dir, declared.remove(k)));
}

/// The top-level LilyPond files of a song, where `exists[i]` tells whether
/// the `i`-th source declared under `files.lilypond` exists.
pub fn song_ly_files(dir: &str, toplevel: Vec<String>, declared: &Vec<String>, exists: &Vec<bool>) -> (r: Vec<String>)
    requires
        exists@.len() == declared@.len(),
    ensures
        string_views(r@) == ly_files_of(dir@, string_views(toplevel@), string_views(declared@), exists@),
{
    let paths = declared_ly_paths(dir, declared);
    assert(string_views(paths@) =~= declared_paths_of(dir@, string_views(declared@)));
    merge_declared_ly(toplevel, &paths, exists)
}

/// Whether the path has the extension `ly`.
pub fn has_ly_extension(p: &str) -> (r: bool)
    ensures
        r == (extension(p@) == Some("ly"@)),
{
    match path_extension(p) {
        Some(x) => crate::text::str_eq(x.as_str(), "ly"),
        None => false,
    }
}

/// The `.ly` files reached through inclusion directives from the top-level files, split
/// in two: those to mount into the sandbox (they exist in the sources) and
/// those to hang dependency edges on (they exist in the sources or, being
/// generated, in the sandbox). Top-level files and other files are left out,
/// and each file is kept once, in the order of first appearance.
pub open spec fn included_of(inputs: Seq<Seq<char>>, ly_files: Seq<Seq<char>>, in_source: Seq<bool>, in_sandbox: Seq<bool>) -> (Seq<Seq<char>>, Seq<Seq<char>>)
    decreases inputs.len(),
{
    if inputs.len() == 0 {
        (Seq::empty(), Seq::empty())
    } else {
        let k = inputs.len() - 1;
        let before = included_of(inputs.drop_last(), ly_files, in_source.take(k), in_sandbox.take(k));
        let p = inputs[k];
        if extension(p) != Some("ly"@) || ly_files.contains(p) {
            before
        } else {
            let mount = if in_source[k] && !before.0.contains(p) { before.0.push(p) } else { before.0 };
            let dep = if (in_source[k] || in_sandbox[k]) && !before.1.contains(p) { before.1.push(p) } else { before.1 };
            (mount, dep)
        }
    }
}

/// Splits the included `.ly` files into those to mount and those to depend on.
pub fn classify_included(
    inputs: &Vec<String>,
    ly_files: &Vec<String>,
    in_source: &Vec<bool>,
    in_sandbox: &Vec<bool>,
) -> (r: (Vec<String>, Vec<String>))
    requires
        in_source@.len() == inputs@.len(),
        in_sandbox@.len() == inputs@.len(),
    ensures
        (string_views(r.0@), string_views(r.1@)) == included_of(
            string_views(inputs@),
            string_views(ly_files@),
            in_source@,
            in_sandbox@,
        ),
{
    let ghost iv = string_views(inputs@);
    let ghost lv = string_views(ly_files@);
    let mut mount: Vec<String> = Vec::new();
    let mut dep: Vec<String> = Vec::new();
    for k in 0..inputs.len()
        invariant
            iv == string_views(inputs@),
            lv == string_views(ly_files@),
            in_source@.len() == inputs@.len(),
            in_sandbox@.len() == inputs@.len(),
            (string_views(mount@), string_views(dep@)) == included_of(
                iv.take(k as int),
                lv,
                in_source@.take(k as int),
                in_sandbox@.take(k as int),
            ),
    {
        assert(iv.take(k + 1).drop_last() =~= iv.take(k as int));
        assert(in_source@.take(k + 1).take(k as int) =~= in_source@.take(k as int));
        assert(in_sandbox@.take(k + 1).take(k as int) =~= in_sandbox@.take(k as int));
        assert(iv.take(k + 1)[k as int] == inputs@[k as int]@);
        let p = inputs[k].as_str();
        if !has_ly_extension(p) || contains_str(ly_files, p) {
        } else {
            if in_source[k] && !contains_str(&mount, p) {
                mount.push(inputs[k].clone());
            }
            if (in_source[k] || in_sandbox[k]) && !contains_str(&dep, p) {
                dep.push(inputs[k].clone());
            }
        }
        assert((string_views(mount@), string_views(dep@)) =~= included_of(
            iv.take(k + 1),
            lv,
            in_source@.take(k + 1),
            in_sandbox@.take(k + 1),
        ));
    }
    assert(iv.take(inputs@.len() as int) =~= iv);
    assert(in_source@.take(inputs@.len() as int) =~= in_source@);
    assert(in_sandbox@.take(inputs@.len() as int) =~= in_sandbox@);
    (mount, dep)
}

/// The stem of an audio render declared in `song.yml`: the name without its
/// `.mp3` suffix, or the name as given.
pub open spec fn render_stem_of(declared: Seq<char>) -> Seq<char> {
    if ends_with(declared, ".mp3"@) {
        declared.take(declared.len() - 4)
    } else {
        declared
    }
}

/// The stem of a declared audio render.
pub fn render_stem(declared: &str) -> (r: String)
    ensures
        r@ == render_stem_of(declared@),
{
    if str_ends_with(declared, ".mp3") {
        proof {
            reveal_strlit(".mp3");
        }
        let n = chars_of(declared).len();
        prefix_of(declared, n - 4)
    } else {
        String::from_str(declared)
    }
}

/// Where the LilyPond source of each declared render would be:
/// `{dir}/{stem}.ly`.
pub fn render_ly_paths(dir: &str, declared: &Vec<String>) -> (r: Vec<String>)
    ensures
        r@.len() == declared@.len(),
        forall|i: int| 0 <= i < r@.len() ==> (#[trigger] r@[i])@ == join(dir@, render_stem_of(declared@[i]@) + ".ly"@),
{
    let mut r: Vec<String> = Vec::new();
    for i in 0..declared.len()
        invariant
            r@.len() == i,
            forall|j: int| 0 <= j < i ==> (#[trigger] r@[j])@ == join(dir@, render_stem_of(declared@[j]@) + ".ly"@),
    {
        let stem = render_stem(declared[i].as_str());
        let name = concat(stem.as_str(), ".ly");
        r.push(path_join(dir, name.as_str()));
    }
    r
}

/// An audio render of a song: its LilyPond source, the MIDI file LilyPond
/// writes, the mp3 synthesised from it, and whether the source already has a
/// node of its own.
#[derive(Debug, Clone, PartialEq)]
pub struct RenderTarget {
    /// `{dir}/{stem}.ly`.
    pub ly: String,
    /// `{dir}/{stem}.midi`.
    pub midi: String,
    /// `{dir}/{stem}.mp3`.
    pub mp3: String,
    /// The source is one of the top-level LilyPond files of the song.
    pub already_mounted: bool,
}

/// The render of declared name `d`, below `dir`.
pub open spec fn is_render_of(t: RenderTarget, dir: Seq<char>, d: Seq<char>, ly_files: Seq<Seq<char>>) -> bool {
    &&& t.ly@ == join(dir, render_stem_of(d) + ".ly"@)
    &&& t.midi@ == join(dir, render_stem_of(d) + ".midi"@)
    &&& t.mp3@ == join(dir, render_stem_of(d) + ".mp3"@)
    &&& t.already_mounted == ly_files.contains(t.ly@)
}

/// The declared renders whose source exists, in order.
pub open spec fn existing_renders(declared: Seq<Seq<char>>, exists: Seq<bool>) -> Seq<Seq<char>>
    decreases declared.len(),
{
    if declared.len() == 0 {
        Seq::empty()
    } else {
        let k = declared.len() - 1;
        let before = existing_renders(declared.drop_last(), exists.take(k));
        if exists[k] { before.push(declared[k]) } else { before }
    }
}

/// The audio renders declared under `files.mp3`, each synthesised from the
/// `.ly` of the same stem. A render whose source does not exist is skipped.
pub fn render_targets(dir: &str, declared: &Vec<String>, exists: &Vec<bool>, ly_files: &Vec<String>) -> (r: Vec<RenderTarget>)
    requires
        exists@.len() == declared@.len(),
    ensures
        r@.len() == existing_renders(string_views(declared@), exists@).len(),
        forall|i: int| 0 <= i < r@.len() ==> is_render_of(
            #[trigger] r@[i],
            dir@,
            existing_renders(string_views(declared@), exists@)[i],
            string_views(ly_files@),
        ),
{
    let ghost dv = string_views(declared@);
    let mut r: Vec<RenderTarget> = Vec::new();
    for k in 0..declared.len()
        invariant
            dv == string_views(declared@),
            exists@.len() == declared@.len(),
            r@.len() == existing_renders(dv.take(k as int), exists@.take(k as int)).len(),
            forall|i: int| 0 <= i < r@.len() ==> is_render_of(
                #[trigger] r@[i],
                dir@,
                existing_renders(dv.take(k as int), exists@.take(k as int))[i],
                string_views(ly_files@),
            ),
    {
        assert(dv.take(k + 1).drop_last() =~= dv.take(k as int));
        assert(exists@.take(k + 1).take(k as int) =~= exists@.take(k as int));
        assert(dv.take(k + 1)[k as int] == declared@[k as int]@);
        let ghost before = existing_renders(dv.take(k as int), exists@.take(k as int));
        if exists[k] {
            let stem = render_stem(declared[k].as_str());
            let ly_name = concat(stem.as_str(), ".ly");
            let midi_name = concat(stem.as_str(), ".midi");
            let mp3_name = concat(stem.as_str(), ".mp3");
            let ly = path_join(dir, ly_name.as_str());
            let already_mounted = contains_str(ly_files, ly.as_str());
            let t = RenderTarget {
                ly,
                midi: path_join(dir, midi_name.as_str()),
                mp3: path_join(dir, mp3_name.as_str()),
                already_mounted,
            };
            r.push(t);
            assert(existing_renders(dv.take(k + 1), exists@.take(k + 1)) == before.push(dv[k as int]));
            assert forall|i: int| 0 <= i < r@.len() implies is_render_of(
                #[trigger] r@[i],
                dir@,
                existing_renders(dv.take(k + 1), exists@.take(k + 1))[i],
                string_views(ly_files@),
            ) by {
                if i < r@.len() - 1 {
                    assert(r@[i] == r@.drop_last()[i]);
                }
            }
        } else {
            assert(existing_renders(dv.take(k + 1), exists@.take(k + 1)) == before);
        }
    }
    assert(dv.take(declared@.len() as int) =~= dv);
    assert(exists@.take(declared@.len() as int) =~= exists@);
    r
}


/// The path has the extension `ly`.
pub open spec fn is_ly(p: Seq<char>) -> bool {
    extension(p) == Some("ly"@)
}

/// The LilyPond files (`.ly`) among the files that the PDF of a song reads,
/// in order.
pub fn get_lilypond_files(inputs: &Vec<String>) -> (r: Vec<String>)
    ensures
        string_views(r@) == string_views(inputs@).filter(|p: Seq<char>| is_ly(p)),
{
    let ghost iv = string_views(inputs@);
    let mut r: Vec<String> = Vec::new();
    for i in 0..inputs.len()
        invariant
            iv == string_views(inputs@),
            string_views(r@) == iv.take(i as int).filter(|p: Seq<char>| is_ly(p)),
    {
        reveal_with_fuel(Seq::<_>::filter, 1);
        assert(iv.take(i + 1).drop_last() =~= iv.take(i as int));
        assert(iv.take(i + 1).last() == inputs@[i as int]@);
        if has_ly_extension(inputs[i].as_str()) {
            r.push(inputs[i].clone());
            assert(string_views(r@) =~= iv.take(i + 1).filter(|p: Seq<char>| is_ly(p)));
        } else {
            assert(string_views(r@) =~= iv.take(i + 1).filter(|p: Seq<char>| is_ly(p)));
        }
    }
    assert(iv.take(inputs@.len() as int) =~= iv);
    r
}

} // verus!
