//! The `song.yml` node: where its sources are looked up, and what its
//! expansion decides about sections, colors and lyrics.

use vstd::prelude::*;

use crate::model::{ChordsSection, RefSection, SectionItem, Song, StructureItem};
use crate::paths::{join, path_join};
use crate::clicks::{find_entry, has_entry, is_last_entry, lemma_last_entry_unique, BarMap};
use crate::text::{concat, decimal, decimal_of, str_eq};
use vstd::string::StringExecFns;

verus! {

broadcast use vstd::string::group_string_axioms;

/// Root node for `song.yml` that expands into the build graph of the song.
#[derive(Debug, Clone, PartialEq)]
pub struct SongYml {
    /// Path to the `song.yml` file relative to srcdir.
    pub path: String,
    /// Parsed song data.
    pub song: Song,
    /// Directories containing drum pattern library files.
    pub drum_patterns_dirs: Vec<String>,
    /// Root directory where source files live. Empty when unset, in which case
    /// declared source files are looked up in the sandbox instead.
    pub srcdir: String,
}

impl SongYml {
    /// Creates a new `SongYml` node with the given path and song data.
    pub fn new(path: String, song: Song) -> (r: Self)
        ensures
            r.path == path,
            r.song == song,
            r.drum_patterns_dirs@.len() == 0,
            r.srcdir@.len() == 0,
    {
        Self { path, song, drum_patterns_dirs: Vec::new(), srcdir: String::new() }
    }

    /// Sets the drum pattern library directories (builder pattern).
    pub fn with_drum_patterns_dirs(self, dirs: Vec<String>) -> (r: Self)
        ensures
            r.path == self.path,
            r.song == self.song,
            r.drum_patterns_dirs == dirs,
            r.srcdir == self.srcdir,
    {
        Self { drum_patterns_dirs: dirs, ..self }
    }

    /// Sets the source directory (builder pattern).
    pub fn with_srcdir(self, srcdir: &str) -> (r: Self)
        ensures
            r.path == self.path,
            r.song == self.song,
            r.drum_patterns_dirs == self.drum_patterns_dirs,
            r.srcdir@ == srcdir@,
    {
        Self { srcdir: String::from_str(srcdir), ..self }
    }

    /// Where a source file declared by the song is looked up: below srcdir
    /// when it is known, below the sandbox otherwise (the source has not been
    /// mounted yet the first time a newly declared file is seen).
    pub fn source_path(&self, sandbox: &str, rel: &str) -> (r: String)
        ensures
            r@ == join(if self.srcdir@.len() == 0 { sandbox@ } else { self.srcdir@ }, rel@),
    {
        if self.srcdir.as_str().is_empty() {
            path_join(sandbox, rel)
        } else {
            path_join(self.srcdir.as_str(), rel)
        }
    }
}

/// The color a chords section lends to the refs that link to it: its own
/// color, or the empty color when it has none.
pub open spec fn lent_color(c: ChordsSection) -> Seq<char> {
    match c.color {
        Some(col) => col@,
        None => Seq::empty(),
    }
}

/// The color that a ref to `link` inherits: that of the last chords section
/// with id `link`, if there is one.
pub open spec fn linked_color(structure: Seq<StructureItem>, link: Seq<char>) -> Option<Seq<char>>
    decreases structure.len(),
{
    if structure.len() == 0 {
        None
    } else {
        let last = structure.last();
        if last.item is Chords && last.id@ == link {
            Some(lent_color(last.item->Chords_0))
        } else {
            linked_color(structure.drop_last(), link)
        }
    }
}

/// The item is a ref whose link names no chords section of `structure`.
pub open spec fn is_dangling_ref(structure: Seq<StructureItem>, item: StructureItem) -> bool {
    item.item is Ref && linked_color(structure, item.item->Ref_0.link@) is None
}

/// The message of a ref whose link names no chords section.
pub open spec fn dangling_ref_message(id: Seq<char>, link: Seq<char>) -> Seq<char> {
    "Ref '"@ + id + "' links to '"@ + link + "' but no Chords item with that id exists"@
}

/// `new` is `old` with the color of each ref filled in from the chords
/// section it links to, where the ref has no color of its own.
pub open spec fn refs_colored(structure: Seq<StructureItem>, old: StructureItem, new: StructureItem) -> bool {
    &&& new.id == old.id
    &&& match old.item {
        SectionItem::Ref(r) => new.item is Ref && {
            let n = new.item->Ref_0;
            &&& n.title == r.title
            &&& n.section_type == r.section_type
            &&& n.section_body == r.section_body
            &&& n.link == r.link
            &&& n.color is Some
            &&& n.color->0@ == match r.color {
                Some(c) => c@,
                None => linked_color(structure, r.link@)->0,
            }
        },
        _ => new.item == old.item,
    }
}

/// The color the last chords section with id `link` lends, if there is one.
fn find_linked_color(structure: &Vec<StructureItem>, link: &String) -> (r: Option<String>)
    ensures
        match r {
            Some(c) => linked_color(structure@, link@) == Some(c@),
            None => linked_color(structure@, link@) is None,
        },
{
    let mut k: usize = structure.len();
    assert(structure@.take(k as int) =~= structure@);
    while k > 0
        invariant
            k <= structure.len(),
            linked_color(structure@, link@) == linked_color(structure@.take(k as int), link@),
        decreases k,
    {
        assert(structure@.take(k as int).drop_last() =~= structure@.take(k - 1));
        assert(structure@.take(k as int).last() == structure@[k - 1]);
        if structure[k - 1].id == *link {
            if let SectionItem::Chords(c) = &structure[k - 1].item {
                return match &c.color {
                    Some(col) => Some(col.clone()),
                    None => Some(String::new()),
                };
            }
        }
        k = k - 1;
    }
    None
}

/// The item needs a color from the settings and they could not give one.
pub open spec fn color_failed(item: StructureItem, c: Result<String, String>) -> bool {
    item.item is Chords && c is Err
}

/// `new` is `old` with the color the settings gave: a chords section takes
/// it in place of its own, every other item stays as it is.
pub open spec fn section_colored(old: StructureItem, c: Result<String, String>, new: StructureItem) -> bool {
    &&& new.id == old.id
    &&& match old.item {
        SectionItem::Chords(ch) => new.item is Chords && {
            let n = new.item->Chords_0;
            &&& n.title == ch.title
            &&& n.section_type == ch.section_type
            &&& n.section_body == ch.section_body
            &&& n.rows == ch.rows
            &&& n.drum_sequence == ch.drum_sequence
            &&& c matches Ok(col) && n.color matches Some(x) && x@ == col@
        },
        _ => new.item == old.item,
    }
}

/// Gives every chords section the color that the settings resolved for it.
/// `colors[i]` is what the settings gave for item `i` (its section type and
/// its own color); it is read for chords sections only, and the first of
/// them that failed fails the song with that message.
pub fn apply_section_colors(structure: Vec<StructureItem>, colors: Vec<Result<String, String>>) -> (r: Result<Vec<StructureItem>, String>)
    requires
        colors@.len() == structure@.len(),
    ensures
        r is Ok <==> forall|i: int| 0 <= i < structure@.len() ==> !color_failed(#[trigger] structure@[i], colors@[i]),
        r matches Ok(s) ==> s@.len() == structure@.len() && forall|i: int|
            0 <= i < s@.len() ==> section_colored(#[trigger] structure@[i], colors@[i], s@[i]),
        r matches Err(e) ==> exists|i: int|
            0 <= i < structure@.len() && color_failed(#[trigger] structure@[i], colors@[i])
                && colors@[i]->Err_0@ == e@ && forall|j: int|
                0 <= j < i ==> !color_failed(#[trigger] structure@[j], colors@[j]),
{
    let ghost orig = structure@;
    let ghost cols = colors@;
    for i in 0..structure.len()
        invariant
            orig == structure@,
            cols == colors@,
            cols.len() == orig.len(),
            forall|j: int| 0 <= j < i ==> !color_failed(#[trigger] orig[j], cols[j]),
    {
        if let SectionItem::Chords(_) = &structure[i].item {
            if let Err(m) = &colors[i] {
                assert(color_failed(orig[i as int], cols[i as int]));
                return Err(m.clone());
            }
        }
    }
    let mut items = structure;
    let mut cs = colors;
    let mut rev: Vec<StructureItem> = Vec::new();
    while items.len() > 0
        invariant
            items@.len() + rev@.len() == orig.len(),
            cs@.len() == items@.len(),
            cols.len() == orig.len(),
            forall|j: int| 0 <= j < items@.len() ==> items@[j] == orig[j] && cs@[j] == cols[j],
            forall|j: int| 0 <= j < orig.len() ==> !color_failed(#[trigger] orig[j], cols[j]),
            forall|j: int| 0 <= j < rev@.len() ==> section_colored(orig[orig.len() - 1 - j], cols[orig.len() - 1 - j], #[trigger] rev@[j]),
        decreases items@.len(),
    {
        let ghost n = items@.len() - 1;
        let it = items.pop().unwrap();
        let c = cs.pop().unwrap();
        assert(it == orig[n] && c == cols[n]);
        assert(!color_failed(orig[n], cols[n]));
        let StructureItem { id, item } = it;
        let new_item = match item {
            SectionItem::Chords(ch) => {
                let ChordsSection { title, section_type, section_body, color, rows, drum_sequence } = ch;
                let color = match c {
                    Ok(x) => Some(x),
                    Err(_) => color,
                };
                SectionItem::Chords(ChordsSection { title, section_type, section_body, color, rows, drum_sequence })
            },
            other => other,
        };
        rev.push(StructureItem { id, item: new_item });
        assert(section_colored(orig[orig.len() - 1 - (rev@.len() - 1)], cols[orig.len() - 1 - (rev@.len() - 1)], rev@[rev@.len() - 1]));
    }
    let mut out: Vec<StructureItem> = Vec::new();
    while rev.len() > 0
        invariant
            out@.len() + rev@.len() == orig.len(),
            cols.len() == orig.len(),
            forall|j: int| 0 <= j < rev@.len() ==> section_colored(orig[orig.len() - 1 - j], cols[orig.len() - 1 - j], #[trigger] rev@[j]),
            forall|j: int| 0 <= j < out@.len() ==> section_colored(orig[j], cols[j], #[trigger] out@[j]),
        decreases rev@.len(),
    {
        let ghost n = rev@.len() - 1;
        let it = rev.pop().unwrap();
        assert(section_colored(orig[orig.len() - 1 - n], cols[orig.len() - 1 - n], it));
        out.push(it);
        assert(section_colored(orig[out@.len() - 1], cols[out@.len() - 1], out@[out@.len() - 1]));
    }
    Ok(out)
}

/// The color a ref to `link` inherits once the settings colored the chords
/// sections: that of the last chords section with id `link`, if there is one.
pub open spec fn settings_link_color(structure: Seq<StructureItem>, colors: Seq<Result<String, String>>, link: Seq<char>) -> Option<Seq<char>>
    decreases structure.len(),
{
    if structure.len() == 0 {
        None
    } else {
        let last = structure.last();
        if last.item is Chords && last.id@ == link {
            Some(colors[structure.len() - 1]->Ok_0@)
        } else {
            settings_link_color(structure.drop_last(), colors.take(structure.len() - 1), link)
        }
    }
}

/// Coloring the chords sections keeps every link where it was, and a ref
/// then inherits the color the settings gave.
pub proof fn lemma_coloring_keeps_links(
    orig: Seq<StructureItem>,
    colors: Seq<Result<String, String>>,
    colored: Seq<StructureItem>,
    link: Seq<char>,
)
    requires
        colors.len() == orig.len(),
        colored.len() == orig.len(),
        forall|i: int| 0 <= i < orig.len() ==> section_colored(#[trigger] orig[i], colors[i], colored[i]),
        forall|i: int| 0 <= i < orig.len() ==> !color_failed(#[trigger] orig[i], colors[i]),
    ensures
        linked_color(colored, link) == settings_link_color(orig, colors, link),
        linked_color(colored, link) is None <==> linked_color(orig, link) is None,
    decreases orig.len(),
{
    if orig.len() > 0 {
        let n = orig.len() - 1;
        assert(section_colored(orig[n], colors[n], colored[n]));
        assert(!color_failed(orig[n], colors[n]));
        lemma_coloring_keeps_links(orig.drop_last(), colors.take(n), colored.drop_last(), link);
    }
}

/// Validates the refs of a structure and fills in the colors they lack from
/// the chords sections they link to. The first ref whose link names no
/// chords section fails with its message.
pub fn resolve_ref_colors(structure: Vec<StructureItem>) -> (r: Result<Vec<StructureItem>, String>)
    ensures
        r is Ok <==> forall|i: int| 0 <= i < structure@.len() ==> !is_dangling_ref(structure@, #[trigger] structure@[i]),
        r matches Ok(s) ==> s@.len() == structure@.len() && forall|i: int|
            0 <= i < s@.len() ==> refs_colored(structure@, #[trigger] structure@[i], s@[i]),
        r matches Err(e) ==> exists|i: int|
            0 <= i < structure@.len() && is_dangling_ref(structure@, #[trigger] structure@[i]) && e@
                == dangling_ref_message(structure@[i].id@, structure@[i].item->Ref_0.link@) && forall|j: int|
                0 <= j < i ==> !is_dangling_ref(structure@, #[trigger] structure@[j]),
{
    let ghost orig = structure@;
    let mut colors: Vec<Option<String>> = Vec::new();
    for i in 0..structure.len()
        invariant
            orig == structure@,
            colors@.len() == i,
            forall|j: int| 0 <= j < i ==> !is_dangling_ref(orig, #[trigger] orig[j]),
            forall|j: int| 0 <= j < i ==> (#[trigger] orig[j]).item is Ref ==> colors@[j] is Some
                && linked_color(orig, orig[j].item->Ref_0.link@) == Some(colors@[j]->0@),
    {
        if let SectionItem::Ref(r) = &structure[i].item {
            match find_linked_color(&structure, &r.link) {
                Some(c) => {
                    colors.push(Some(c));
                },
                None => {
                    let mut e = concat("Ref '", structure[i].id.as_str());
                    e.append("' links to '");
                    e.append(r.link.as_str());
                    e.append("' but no Chords item with that id exists");
                    assert(is_dangling_ref(orig, orig[i as int]));
                    return Err(e);
                },
            }
        } else {
            colors.push(None);
        }
    }
    let ghost cols = colors@;
    let mut items = structure;
    let mut rev: Vec<StructureItem> = Vec::new();
    while items.len() > 0
        invariant
            items@.len() + rev@.len() == orig.len(),
            colors@.len() == items@.len(),
            cols.len() == orig.len(),
            forall|j: int| 0 <= j < items@.len() ==> items@[j] == orig[j] && colors@[j] == cols[j],
            forall|j: int| 0 <= j < orig.len() ==> (#[trigger] orig[j]).item is Ref ==> cols[j] is Some
                && linked_color(orig, orig[j].item->Ref_0.link@) == Some(cols[j]->0@),
            forall|j: int| 0 <= j < rev@.len() ==> refs_colored(orig, orig[orig.len() - 1 - j], #[trigger] rev@[j]),
        decreases items@.len(),
    {
        let ghost n = items@.len() - 1;
        let it = items.pop().unwrap();
        let c = colors.pop().unwrap();
        assert(it == orig[n] && c == cols[n]);
        let StructureItem { id, item } = it;
        let new_item = match item {
            SectionItem::Ref(r) => {
                let RefSection { title, section_type, section_body, color, link } = r;
                let color = match color {
                    Some(x) => Some(x),
                    None => c,
                };
                SectionItem::Ref(RefSection { title, section_type, section_body, color, link })
            },
            other => other,
        };
        rev.push(StructureItem { id, item: new_item });
        assert(refs_colored(orig, orig[orig.len() - 1 - (rev@.len() - 1)], rev@[rev@.len() - 1]));
    }
    let mut out: Vec<StructureItem> = Vec::new();
    while rev.len() > 0
        invariant
            out@.len() + rev@.len() == orig.len(),
            forall|j: int| 0 <= j < rev@.len() ==> refs_colored(orig, orig[orig.len() - 1 - j], #[trigger] rev@[j]),
            forall|j: int| 0 <= j < out@.len() ==> refs_colored(orig, orig[j], #[trigger] out@[j]),
        decreases rev@.len(),
    {
        let ghost n = rev@.len() - 1;
        let it = rev.pop().unwrap();
        assert(refs_colored(orig, orig[orig.len() - 1 - n], it));
        out.push(it);
        assert(refs_colored(orig, orig[out@.len() - 1], out@[out@.len() - 1]));
    }
    Ok(out)
}


/// The default background color of a section type.
pub open spec fn default_color_of(section_type: Seq<char>) -> Seq<char> {
    if section_type == "intro"@ {
        "yellow!20"@
    } else if section_type == "couplet"@ {
        "green!20"@
    } else if section_type == "coupletb"@ {
        "green!10"@
    } else if section_type == "refrain"@ {
        "blue!20"@
    } else if section_type == "pont"@ {
        "orange!20"@
    } else if section_type == "outro"@ {
        "red!20"@
    } else {
        "gray!20"@
    }
}

/// The default background color of a section type, for `sections.tex`.
pub fn default_section_color(section_type: &str) -> (r: &'static str)
    ensures
        r@ == default_color_of(section_type@),
{
    if str_eq(section_type, "intro") {
        "yellow!20"
    } else if str_eq(section_type, "couplet") {
        "green!20"
    } else if str_eq(section_type, "coupletb") {
        "green!10"
    } else if str_eq(section_type, "refrain") {
        "blue!20"
    } else if str_eq(section_type, "pont") {
        "orange!20"
    } else if str_eq(section_type, "outro") {
        "red!20"
    } else {
        "gray!20"
    }
}

/// The section type an item declares: that of a chords section, or the
/// override of a ref when it has one.
pub open spec fn declared_type(item: StructureItem) -> Option<Seq<char>> {
    match item.item {
        SectionItem::Chords(c) => Some(c.section_type@),
        SectionItem::Ref(r) => match r.section_type {
            Some(t) => Some(t@),
            None => None,
        },
        _ => None,
    }
}

/// The section types the structure declares.
pub open spec fn section_types_of(structure: Seq<StructureItem>) -> Set<Seq<char>> {
    Set::new(
        |t: Seq<char>|
            exists|i: int| 0 <= i < structure.len() && declared_type(#[trigger] structure[i]) == Some(t),
    )
}

/// The section types of a list of (type, color) pairs.
pub open spec fn type_ids(r: Seq<(String, &'static str)>) -> Seq<Seq<char>> {
    r.map_values(|p: (String, &'static str)| p.0@)
}

/// The section types of the structure, each once, with its default color.
pub fn sections_of(structure: &Vec<StructureItem>) -> (r: Vec<(String, &'static str)>)
    ensures
        type_ids(r@).to_set() == section_types_of(structure@),
        type_ids(r@).no_duplicates(),
        forall|i: int| 0 <= i < r@.len() ==> (#[trigger] r@[i]).1@ == default_color_of(r@[i].0@),
{
    let mut r: Vec<(String, &'static str)> = Vec::new();
    for i in 0..structure.len()
        invariant
            forall|t: Seq<char>| #[trigger] type_ids(r@).contains(t)
                <==> exists|k: int| 0 <= k < i && declared_type(#[trigger] structure@[k]) == Some(t),
            type_ids(r@).no_duplicates(),
            forall|x: int| 0 <= x < r@.len() ==> (#[trigger] r@[x]).1@ == default_color_of(r@[x].0@),
    {
        let ghost ids = type_ids(r@);
        let t: Option<&String> = match &structure[i].item {
            SectionItem::Chords(c) => Some(&c.section_type),
            SectionItem::Ref(rf) => match &rf.section_type {
                Some(st) => Some(st),
                None => None,
            },
            _ => None,
        };
        match t {
            Some(t) => {
                let mut seen = false;
                let mut x: usize = 0;
                while x < r.len()
                    invariant
                        x <= r@.len(),
                        ids == type_ids(r@),
                        seen == exists|y: int| 0 <= y < x && ids[y] == t@,
                    decreases r@.len() - x,
                {
                    assert(ids[x as int] == r@[x as int].0@);
                    if str_eq(r[x].0.as_str(), t.as_str()) {
                        seen = true;
                    }
                    proof {
                        if exists|y: int| 0 <= y < x + 1 && ids[y] == t@ {
                            let y = choose|y: int| 0 <= y < x + 1 && ids[y] == t@;
                            if y < x {
                                assert(exists|y: int| 0 <= y < x && ids[y] == t@);
                            }
                        }
                    }
                    x = x + 1;
                }
                if !seen {
                    let color = default_section_color(t.as_str());
                    r.push((t.clone(), color));
                    proof {
                        let nids = type_ids(r@);
                        assert(nids =~= ids.push(t@));
                        assert forall|a: int, b: int| 0 <= a < b < nids.len() implies nids[a] != nids[b] by {
                            if b == nids.len() - 1 {
                                assert(nids[a] == ids[a]);
                            }
                        }
                        assert forall|u: Seq<char>| #[trigger] nids.contains(u) <==> exists|k: int|
                            0 <= k < i + 1 && declared_type(#[trigger] structure@[k]) == Some(u) by {
                            crate::world::lemma_push_contains(ids, t@, u);
                            if u == t@ {
                                assert(declared_type(structure@[i as int]) == Some(u));
                            }
                            if exists|k: int| 0 <= k < i + 1 && declared_type(#[trigger] structure@[k]) == Some(u) {
                                let k = choose|k: int| 0 <= k < i + 1 && declared_type(#[trigger] structure@[k]) == Some(u);
                                if k < i {
                                    assert(ids.contains(u));
                                }
                            }
                        }
                    }
                } else {
                    proof {
                        assert forall|u: Seq<char>| #[trigger] ids.contains(u) <==> exists|k: int|
                            0 <= k < i + 1 && declared_type(#[trigger] structure@[k]) == Some(u) by {
                            if u == t@ {
                                let y = choose|y: int| 0 <= y < x && ids[y] == t@;
                                assert(ids.contains(u));
                            }
                            if exists|k: int| 0 <= k < i + 1 && declared_type(#[trigger] structure@[k]) == Some(u) {
                                let k = choose|k: int| 0 <= k < i + 1 && declared_type(#[trigger] structure@[k]) == Some(u);
                                if k < i {
                                    assert(ids.contains(u));
                                } else {
                                    let y = choose|y: int| 0 <= y < x && ids[y] == t@;
                                    assert(ids[y] == u);
                                }
                            }
                        }
                    }
                }
            },
            None => {
                proof {
                    let ids = type_ids(r@);
                    assert forall|u: Seq<char>| #[trigger] ids.contains(u) <==> exists|k: int|
                        0 <= k < i + 1 && declared_type(#[trigger] structure@[k]) == Some(u) by {
                        if exists|k: int| 0 <= k < i + 1 && declared_type(#[trigger] structure@[k]) == Some(u) {
                            let k = choose|k: int| 0 <= k < i + 1 && declared_type(#[trigger] structure@[k]) == Some(u);
                            assert(k != i);
                        }
                    }
                }
            },
        }
    }
    proof {
        let ids = type_ids(r@);
        assert(ids.to_set() =~= section_types_of(structure@));
    }
    r
}


/// The first and last bar of the section `id`: the first bar of its first
/// row and the bar before the one that follows it, or bar 1 for both when
/// the bar map does not know the section (the first bar is 1 too when the
/// section has no rows).
pub open spec fn bar_range(m: Seq<(String, Vec<i32>, i32)>, id: Seq<char>) -> (int, int) {
    if !has_entry(m, id) {
        (1, 1)
    } else {
        let i = choose|i: int| is_last_entry(m, id, i);
        (if m[i].1@.len() == 0 { 1 } else { m[i].1@[0] as int }, m[i].2 - 1)
    }
}

/// Every section of the bar map is followed by a bar that has a predecessor.
pub open spec fn ends_have_predecessor(m: Seq<(String, Vec<i32>, i32)>) -> bool {
    forall|i: int| 0 <= i < m.len() ==> (#[trigger] m[i]).2 > i32::MIN
}

/// The first and last bar of a section.
pub fn bar_range_of(bar_map: &BarMap, id: &String) -> (r: (i32, i32))
    requires
        ends_have_predecessor(bar_map@),
    ensures
        (r.0 as int, r.1 as int) == bar_range(bar_map@, id@),
{
    match find_entry(bar_map, id) {
        None => (1, 1),
        Some(i) => {
            proof {
                lemma_last_entry_unique(bar_map@, id@, i as int);
            }
            let first = if bar_map[i].1.len() == 0 { 1 } else { bar_map[i].1[0] };
            (first, bar_map[i].2 - 1)
        },
    }
}

/// The lyrics block of one section: its color, its title, its first and last
/// bar, and the lyrics file it inputs.
pub open spec fn lyrics_block(color: Seq<char>, title: Seq<char>, first: int, last: int, id: Seq<char>) -> Seq<char> {
    "\\basecouplet{"@ + color + "}{ \\hfill "@ + title
        + " \\hfill \\llap{\\fontsize{12pt}{12pt}\\selectfont ("@ + decimal(first) + " $\\rightarrow$ "@
        + decimal(last) + ")} }{\\input{"@ + id + "}}\n\n"@
}

/// The color of a section in the lyrics, white when it has none.
pub open spec fn color_or_white(c: Option<String>) -> Seq<char> {
    match c {
        Some(col) => col@,
        None => "white"@,
    }
}

/// The lyrics blocks of the chords and ref sections of the structure, in order.
pub open spec fn lyrics_inputs_of(structure: Seq<StructureItem>, m: Seq<(String, Vec<i32>, i32)>) -> Seq<char>
    decreases structure.len(),
{
    if structure.len() == 0 {
        Seq::empty()
    } else {
        let rest = lyrics_inputs_of(structure.drop_last(), m);
        let last = structure.last();
        let range = bar_range(m, last.id@);
        match last.item {
            SectionItem::Chords(c) => rest + lyrics_block(color_or_white(c.color), c.title@, range.0, range.1, last.id@),
            SectionItem::Ref(r) => rest + lyrics_block(color_or_white(r.color), r.title@, range.0, range.1, last.id@),
            _ => rest,
        }
    }
}

fn push_lyrics_block(out: &mut String, color: &str, title: &str, first: i32, last: i32, id: &str)
    ensures
        final(out)@ == old(out)@ + lyrics_block(color@, title@, first as int, last as int, id@),
{
    out.append("\\basecouplet{");
    out.append(color);
    out.append("}{ \\hfill ");
    out.append(title);
    out.append(" \\hfill \\llap{\\fontsize{12pt}{12pt}\\selectfont (");
    let f = decimal_of(first);
    out.append(f.as_str());
    out.append(" $\\rightarrow$ ");
    let l = decimal_of(last);
    out.append(l.as_str());
    out.append(")} }{\\input{");
    out.append(id);
    out.append("}}\n\n");
    assert(final(out)@ =~= old(out)@ + lyrics_block(color@, title@, first as int, last as int, id@));
}

/// The lyrics inputs shared by the one- and two-column lyrics documents: one
/// block per chords or ref section, in order.
pub fn lyrics_inputs(structure: &Vec<StructureItem>, bar_map: &BarMap) -> (r: String)
    requires
        ends_have_predecessor(bar_map@),
    ensures
        r@ == lyrics_inputs_of(structure@, bar_map@),
{
    let mut out = String::new();
    for i in 0..structure.len()
        invariant
            ends_have_predecessor(bar_map@),
            out@ == lyrics_inputs_of(structure@.take(i as int), bar_map@),
    {
        assert(structure@.take(i + 1).drop_last() =~= structure@.take(i as int));
        let item = &structure[i];
        match &item.item {
            SectionItem::Chords(c) => {
                let color: &str = match &c.color {
                    Some(col) => col.as_str(),
                    None => "white",
                };
                let range = bar_range_of(bar_map, &item.id);
                push_lyrics_block(&mut out, color, c.title.as_str(), range.0, range.1, item.id.as_str());
            },
            SectionItem::Ref(rf) => {
                let color: &str = match &rf.color {
                    Some(col) => col.as_str(),
                    None => "white",
                };
                let range = bar_range_of(bar_map, &item.id);
                push_lyrics_block(&mut out, color, rf.title.as_str(), range.0, range.1, item.id.as_str());
            },
            _ => {},
        }
    }
    assert(structure@.take(structure@.len() as int) =~= structure@);
    out
}

} // verus!
