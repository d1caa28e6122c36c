//! The build plan of a world: which songs are built, which paths each song
//! brings into the graph, and how a book finds its songs.

use vstd::prelude::*;

use crate::model::{
    song_stem, Book, BookItem, SectionItem, Song, SongInfo, StructureItem, World, WorldItem,
};
use crate::paths::{join, parent, path_join, path_parent};
use crate::pattern::{is_subsequence_of, search_text, song_matches_pattern};
use crate::text::{concat, lowercase};

verus! {

broadcast use vstd::string::group_string_axioms;

/// The directory under the songs sandbox that books are built in.
pub const BOOKS_DIR: &'static str = "books";

/// The paths a song brings into the build graph.
#[derive(Debug, Clone, PartialEq)]
pub struct SongPlan {
    /// The directory of the song, relative to the songs directory.
    pub dir: String,
    /// `body.tex`, the main content of the song.
    pub body_tex: String,
    /// `add.tikz`, the extra drawings of the chord chart.
    pub add_tikz: String,
    /// `clicks-def.yml` and `clicks.yml`, when the song has clicks.
    pub clicks: Option<(String, String)>,
    /// The lyrics file of each chords and ref section, in order.
    pub lyrics_sources: Vec<String>,
    /// `main.pdf`, the song PDF.
    pub pdf: String,
    /// The normalized stem `{author}--@--{title}` of the song.
    pub stem: String,
    /// Where the song PDF is delivered.
    pub pdf_delivery: String,
    /// The lyrics PDFs (one and two columns), each with where it is delivered.
    pub lyrics_pdfs: Vec<(String, String)>,
    /// The edges between these paths, each from a file to one built from it.
    pub edges: Vec<(String, String)>,
}

/// The lyrics file of each chords and ref section of `structure`, in order:
/// `{dir}/lyrics/{id}.tex`.
pub open spec fn lyrics_sources_of(dir: Seq<char>, structure: Seq<StructureItem>) -> Seq<
    Seq<char>,
>
    decreases structure.len(),
{
    if structure.len() == 0 {
        Seq::empty()
    } else {
        let rest = lyrics_sources_of(dir, structure.drop_last());
        let last = structure.last();
        if last.item is Chords || last.item is Ref {
            rest.push(join(join(dir, "lyrics"@), last.id@ + ".tex"@))
        } else {
            rest
        }
    }
}

/// The views of a list of strings.
pub open spec fn string_views(v: Seq<String>) -> Seq<Seq<char>> {
    v.map_values(|s: String| s@)
}

/// The lyrics files of the chords and ref sections of a song.
fn lyrics_sources(dir: &str, structure: &Vec<StructureItem>) -> (r: Vec<String>)
    ensures
        string_views(r@) == lyrics_sources_of(dir@, structure@),
{
    let lyrics_dir = path_join(dir, "lyrics");
    let mut r: Vec<String> = Vec::new();
    for i in 0..structure.len()
        invariant
            lyrics_dir@ == join(dir@, "lyrics"@),
            string_views(r@) == lyrics_sources_of(dir@, structure@.take(i as int)),
    {
        assert(structure@.take(i + 1).drop_last() =~= structure@.take(i as int));
        let item = &structure[i];
        match &item.item {
            SectionItem::Chords(_) | SectionItem::Ref(_) => {
                let name = concat(item.id.as_str(), ".tex");
                let p = path_join(lyrics_dir.as_str(), name.as_str());
                r.push(p);
                assert(string_views(r@) =~= lyrics_sources_of(dir@, structure@.take(i + 1)));
            },
            _ => {
                assert(string_views(r@) =~= lyrics_sources_of(dir@, structure@.take(i + 1)));
            },
        }
    }
    assert(structure@.take(structure@.len() as int) =~= structure@);
    r
}

/// Pairs of strings as plain values.
pub open spec fn pair_views(v: Seq<(String, String)>) -> Seq<(Seq<char>, Seq<char>)> {
    v.map_values(|e: (String, String)| (e.0@, e.1@))
}

/// The edges of a song in the world graph: the click definition and
/// `song.yml` before the click track (a section anchor moves when the
/// sections change), `song.yml` before the song PDF and the lyrics PDFs, and
/// each PDF before its delivered copy.
pub open spec fn song_edges(rel_path: Seq<char>, p: SongPlan) -> Seq<(Seq<char>, Seq<char>)> {
    (match p.clicks {
        Some(c) => seq![(c.0@, c.1@), (rel_path, c.1@)],
        None => Seq::empty(),
    }) + seq![
        (rel_path, p.pdf@),
        (p.pdf@, p.pdf_delivery@),
        (rel_path, p.lyrics_pdfs@[0].0@),
        (p.lyrics_pdfs@[0].0@, p.lyrics_pdfs@[0].1@),
        (rel_path, p.lyrics_pdfs@[1].0@),
        (p.lyrics_pdfs@[1].0@, p.lyrics_pdfs@[1].1@),
    ]
}

/// `r` is the plan of the song `song` read from `rel_path`: every path the
/// build gives it, below the directory of `rel_path`.
pub open spec fn is_song_plan(rel_path: Seq<char>, song: Song, r: SongPlan) -> bool {
    &&& r.dir@ == parent(rel_path)
    &&& r.body_tex@ == join(parent(rel_path), "body.tex"@)
    &&& r.add_tikz@ == join(parent(rel_path), "add.tikz"@)
    &&& r.clicks is Some <==> song.files.has_clicks
    &&& r.clicks matches Some(c) ==> c.0@ == join(parent(rel_path), "clicks-def.yml"@) && c.1@ == join(parent(rel_path), "clicks.yml"@)
    &&& string_views(r.lyrics_sources@) == lyrics_sources_of(parent(rel_path), song.structure@)
    &&& r.pdf@ == join(parent(rel_path), "main.pdf"@)
    &&& r.stem@ == song_stem(song.info.author@, song.info.title@)
    &&& r.pdf_delivery@ == join("../pdf"@, r.stem@ + ".pdf"@)
    &&& r.lyrics_pdfs@.len() == 2
    &&& r.lyrics_pdfs@[0].0@ == join(join(parent(rel_path), "lyrics"@), "main-1col.pdf"@)
    &&& r.lyrics_pdfs@[0].1@ == join("../pdf-lyrics-1-column"@, r.stem@ + "-lyrics.pdf"@)
    &&& r.lyrics_pdfs@[1].0@ == join(join(parent(rel_path), "lyrics"@), "main-2col.pdf"@)
    &&& r.lyrics_pdfs@[1].1@ == join("../pdf-lyrics-2-column"@, r.stem@ + "-lyrics.pdf"@)
    &&& pair_views(r.edges@) == song_edges(rel_path, r)
}

/// The plan of the song `song` read from `rel_path`.
pub fn song_plan(rel_path: &str, song: &Song) -> (r: SongPlan)
    ensures
        is_song_plan(rel_path@, *song, r),
{
    let dir = path_parent(rel_path);
    let body_tex = path_join(dir.as_str(), "body.tex");
    let add_tikz = path_join(dir.as_str(), "add.tikz");
    let clicks = if song.files.has_clicks {
        Some((path_join(dir.as_str(), "clicks-def.yml"), path_join(dir.as_str(), "clicks.yml")))
    } else {
        None
    };
    let lyrics_sources = lyrics_sources(dir.as_str(), &song.structure);
    let pdf = path_join(dir.as_str(), "main.pdf");
    let stem = song.info.file_stem_of_song();
    let pdf_name = concat(stem.as_str(), ".pdf");
    let pdf_delivery = path_join("../pdf", pdf_name.as_str());
    let lyrics_dir = path_join(dir.as_str(), "lyrics");
    let lyrics_name = concat(stem.as_str(), "-lyrics.pdf");
    let mut lyrics_pdfs: Vec<(String, String)> = Vec::new();
    lyrics_pdfs.push(
        (
            path_join(lyrics_dir.as_str(), "main-1col.pdf"),
            path_join("../pdf-lyrics-1-column", lyrics_name.as_str()),
        ),
    );
    lyrics_pdfs.push(
        (
            path_join(lyrics_dir.as_str(), "main-2col.pdf"),
            path_join("../pdf-lyrics-2-column", lyrics_name.as_str()),
        ),
    );
    let mut edges: Vec<(String, String)> = Vec::new();
    match &clicks {
        Some((def, yml)) => {
            edges.push((def.clone(), yml.clone()));
            edges.push((String::from_str(rel_path), yml.clone()));
        },
        None => {},
    }
    edges.push((String::from_str(rel_path), pdf.clone()));
    edges.push((pdf.clone(), pdf_delivery.clone()));
    edges.push((String::from_str(rel_path), lyrics_pdfs[0].0.clone()));
    edges.push((lyrics_pdfs[0].0.clone(), lyrics_pdfs[0].1.clone()));
    edges.push((String::from_str(rel_path), lyrics_pdfs[1].0.clone()));
    edges.push((lyrics_pdfs[1].0.clone(), lyrics_pdfs[1].1.clone()));
    let r = SongPlan {
        dir,
        body_tex,
        add_tikz,
        clicks,
        lyrics_sources,
        pdf,
        stem,
        pdf_delivery,
        lyrics_pdfs,
        edges,
    };
    assert(pair_views(r.edges@) =~= song_edges(rel_path@, r));
    r
}


/// The first item of the world, songs before books, that could not be read
/// or parsed: its path and its message.
pub fn first_world_error(world: &World) -> (r: Option<(String, String)>)
    ensures
        r is None <==> (forall|i: int| 0 <= i < world.items@.len() ==> (#[trigger] world.items@[i]).1 is Song)
            && (forall|i: int| 0 <= i < world.books@.len() ==> (#[trigger] world.books@[i]).1 is Book),
        r matches Some(e) ==> {
            ||| exists|i: int|
                0 <= i < world.items@.len() && (#[trigger] world.items@[i]).1 is Error
                    && e.0@ == world.items@[i].0@ && e.1@ == world.items@[i].1->Error_0@ && forall|j: int| 0 <= j < i ==> (#[trigger] world.items@[j]).1 is Song
            ||| (forall|j: int| 0 <= j < world.items@.len() ==> (#[trigger] world.items@[j]).1 is Song) && exists|i: int|
                0 <= i < world.books@.len() && (#[trigger] world.books@[i]).1 is Error
                    && e.0@ == world.books@[i].0@ && e.1@ == world.books@[i].1->Error_0@ && forall|j: int| 0 <= j < i ==> (#[trigger] world.books@[j]).1 is Book
        },
{
    for i in 0..world.items.len()
        invariant
            forall|j: int| 0 <= j < i ==> (#[trigger] world.items@[j]).1 is Song,
    {
        if let WorldItem::Error(msg) = &world.items[i].1 {
            let r = (world.items[i].0.clone(), msg.clone());
            assert(world.items@[i as int].1 is Error && r.0@ == world.items@[i as int].0@ && r.1@ == world.items@[i as int].1->Error_0@);
            return Some(r);
        }
    }
    for i in 0..world.books.len()
        invariant
            forall|j: int| 0 <= j < world.items@.len() ==> (#[trigger] world.items@[j]).1 is Song,
            forall|j: int| 0 <= j < i ==> (#[trigger] world.books@[j]).1 is Book,
    {
        if let BookItem::Error(msg) = &world.books[i].1 {
            let r = (world.books[i].0.clone(), msg.clone());
            assert(world.books@[i as int].1 is Error && r.0@ == world.books@[i as int].0@ && r.1@ == world.books@[i as int].1->Error_0@);
            return Some(r);
        }
    }
    None
}

/// Whether the song is built: every song when no pattern is given, the songs
/// the pattern matches otherwise.
pub fn song_is_selected(info: &SongInfo, pattern: Option<&str>) -> (r: bool)
    ensures
        r == match pattern {
            None => true,
            Some(p) => is_subsequence_of(lowercase(p@), lowercase(search_text(*info))),
        },
{
    match pattern {
        None => true,
        Some(p) => song_matches_pattern(info, p),
    }
}

/// The stems of the songs of the world, in order.
pub open spec fn song_stems_of(items: Seq<(String, WorldItem)>) -> Seq<Seq<char>>
    decreases items.len(),
{
    if items.len() == 0 {
        Seq::empty()
    } else {
        let rest = song_stems_of(items.drop_last());
        match items.last().1 {
            WorldItem::Song(song) => rest.push(song_stem(song.info.author@, song.info.title@)),
            WorldItem::Error(_) => rest,
        }
    }
}

/// The stem of every song of the world, whether or not the pattern keeps it,
/// so that a book can tell a song left out of the build from one that does not exist.
pub fn known_song_stems(world: &World) -> (r: Vec<String>)
    ensures
        string_views(r@) == song_stems_of(world.items@),
{
    let mut r: Vec<String> = Vec::new();
    for i in 0..world.items.len()
        invariant
            string_views(r@) == song_stems_of(world.items@.take(i as int)),
    {
        assert(world.items@.take(i + 1).drop_last() =~= world.items@.take(i as int));
        match &world.items[i].1 {
            WorldItem::Song(song) => {
                r.push(song.info.file_stem_of_song());
                assert(string_views(r@) =~= song_stems_of(world.items@.take(i + 1)));
            },
            WorldItem::Error(_) => {
                assert(string_views(r@) =~= song_stems_of(world.items@.take(i + 1)));
            },
        }
    }
    assert(world.items@.take(world.items@.len() as int) =~= world.items@);
    r
}

/// How a book stands against the songs of the build.
#[derive(Debug, Clone, PartialEq)]
pub enum BookResolution {
    /// Every song of the book is built: for each, in the order of the book,
    /// its position in the list of built songs.
    Ready(Vec<usize>),
    /// The song of this stem exists but is not built, so the book is skipped.
    FilteredOut(String),
    /// No song of this stem exists: the build fails.
    Unknown(String),
}

/// `i` is the last position of `s` in `v`.
pub open spec fn is_last_position(v: Seq<Seq<char>>, s: Seq<char>, i: int) -> bool {
    &&& 0 <= i < v.len()
    &&& v[i] == s
    &&& forall|j: int| i < j < v.len() ==> v[j] != s
}

/// The last position of `stem` in `built`, if it is there.
fn last_position(built: &Vec<String>, stem: &String) -> (r: Option<usize>)
    ensures
        r matches Some(i) ==> is_last_position(string_views(built@), stem@, i as int),
        r is None ==> !string_views(built@).contains(stem@),
{
    let mut k: usize = built.len();
    while k > 0
        invariant
            k <= built.len(),
            forall|j: int| k <= j < built@.len() ==> built@[j]@ != stem@,
        decreases k,
    {
        if built[k - 1] == *stem {
            return Some(k - 1);
        }
        k = k - 1;
    }
    proof {
        if string_views(built@).contains(stem@) {
            let j = choose|j: int| 0 <= j < string_views(built@).len() && string_views(built@)[j] == stem@;
            assert(built@[j]@ == stem@);
        }
    }
    None
}

/// Whether `stem` is in `v`.
fn contains_string(v: &Vec<String>, stem: &String) -> (r: bool)
    ensures
        r == string_views(v@).contains(stem@),
{
    for i in 0..v.len()
        invariant
            forall|j: int| 0 <= j < i ==> v@[j]@ != stem@,
    {
        if v[i] == *stem {
            assert(string_views(v@)[i as int] == stem@);
            return true;
        }
    }
    proof {
        if string_views(v@).contains(stem@) {
            let j = choose|j: int| 0 <= j < string_views(v@).len() && string_views(v@)[j] == stem@;
            assert(v@[j]@ == stem@);
        }
    }
    false
}

/// Resolves the songs of a book against the stems of the songs that made it
/// into the build (`built`, where a stem given twice counts by its last
/// place) and the stems of all songs of the world (`known`). The first song
/// of the book that is not built decides: the book is skipped when the song
/// exists, and the build fails when it does not.
pub fn resolve_book(book: &Book, built: &Vec<String>, known: &Vec<String>) -> (r: BookResolution)
    ensures
        r matches BookResolution::Ready(ix) ==> ix@.len() == book.songs@.len() && forall|k: int|
            0 <= k < ix@.len() ==> is_last_position(
                string_views(built@),
                book.songs@[k]@,
                #[trigger] ix@[k] as int,
            ),
        r is Ready <==> forall|k: int|
            0 <= k < book.songs@.len() ==> string_views(built@).contains(#[trigger] book.songs@[k]@),
        r matches BookResolution::FilteredOut(s) ==> exists|k: int|
            0 <= k < book.songs@.len() && s@ == (#[trigger] book.songs@[k])@ && !string_views(built@).contains(s@)
                && string_views(known@).contains(s@) && forall|j: int|
                0 <= j < k ==> string_views(built@).contains(#[trigger] book.songs@[j]@),
        r matches BookResolution::Unknown(s) ==> exists|k: int|
            0 <= k < book.songs@.len() && s@ == (#[trigger] book.songs@[k])@ && !string_views(built@).contains(s@)
                && !string_views(known@).contains(s@) && forall|j: int|
                0 <= j < k ==> string_views(built@).contains(#[trigger] book.songs@[j]@),
{
    let mut ix: Vec<usize> = Vec::new();
    for k in 0..book.songs.len()
        invariant
            ix@.len() == k,
            forall|j: int| 0 <= j < k ==> is_last_position(
                string_views(built@),
                book.songs@[j]@,
                #[trigger] ix@[j] as int,
            ),
    {
        match last_position(built, &book.songs[k]) {
            Some(i) => {
                ix.push(i);
            },
            None => {
                proof {
                    assert forall|j: int| 0 <= j < k implies string_views(built@).contains(
                        #[trigger] book.songs@[j]@,
                    ) by {
                        assert(is_last_position(string_views(built@), book.songs@[j]@, ix@[j] as int));
                    }
                }
                if contains_string(known, &book.songs[k]) {
                    return BookResolution::FilteredOut(book.songs[k].clone());
                } else {
                    return BookResolution::Unknown(book.songs[k].clone());
                }
            },
        }
    }
    proof {
        assert forall|j: int| 0 <= j < book.songs@.len() implies string_views(built@).contains(
            #[trigger] book.songs@[j]@,
        ) by {
            assert(is_last_position(string_views(built@), book.songs@[j]@, ix@[j] as int));
        }
    }
    BookResolution::Ready(ix)
}

/// The path of a book in the songs sandbox: `books/{file_name}`.
pub fn book_rel_path(file_name: &str) -> (r: String)
    ensures
        r@ == join("books"@, file_name@),
{
    path_join(BOOKS_DIR, file_name)
}

/// A world with books needs the directory they are read from.
pub fn books_need_srcdir(world: &World, books_srcdir_given: bool) -> (r: bool)
    ensures
        r == (!books_srcdir_given && world.books@.len() > 0),
{
    !books_srcdir_given && world.books.len() > 0
}

/// The song of this world item is built under the pattern.
pub open spec fn item_selected(item: WorldItem, pattern: Option<&str>) -> bool {
    match item {
        WorldItem::Song(song) => match pattern {
            None => true,
            Some(p) => is_subsequence_of(lowercase(p@), lowercase(search_text(song.info))),
        },
        WorldItem::Error(_) => false,
    }
}

/// The positions of the songs of the world that are built under the
/// pattern, in order.
pub fn selected_songs(world: &World, pattern: Option<&str>) -> (r: Vec<usize>)
    ensures
        forall|k: int, l: int| 0 <= k < l < r@.len() ==> r@[k] < r@[l],
        forall|k: int| 0 <= k < r@.len() ==> (#[trigger] r@[k]) < world.items@.len() && item_selected(
            world.items@[r@[k] as int].1,
            pattern,
        ),
        forall|i: int|
            0 <= i < world.items@.len() && item_selected(#[trigger] world.items@[i].1, pattern) ==> r@.contains(
                i as usize,
            ),
{
    let mut r: Vec<usize> = Vec::new();
    for i in 0..world.items.len()
        invariant
            forall|k: int, l: int| 0 <= k < l < r@.len() ==> r@[k] < r@[l],
            forall|k: int| 0 <= k < r@.len() ==> (#[trigger] r@[k]) < i && item_selected(
                world.items@[r@[k] as int].1,
                pattern,
            ),
            forall|j: int| 0 <= j < i && item_selected(#[trigger] world.items@[j].1, pattern) ==> r@.contains(
                j as usize,
            ),
    {
        let keep = match &world.items[i].1 {
            WorldItem::Song(song) => song_is_selected(&song.info, pattern),
            WorldItem::Error(_) => false,
        };
        if keep {
            let ghost before = r@;
            r.push(i);
            assert forall|j: int| 0 <= j < i + 1 && item_selected(#[trigger] world.items@[j].1, pattern) implies r@.contains(
                j as usize,
            ) by {
                if j < i {
                    let k = choose|k: int| 0 <= k < before.len() && before[k] == j as usize;
                    assert(r@[k] == j as usize);
                } else {
                    assert(r@[r@.len() - 1] == i);
                }
            }
        } else {
            assert(!item_selected(world.items@[i as int].1, pattern));
        }
    }
    r
}

/// The first item of the world that could not be read or parsed, songs
/// before books, as `{path}: {message}`.
pub open spec fn world_error_of(world: World) -> Option<Seq<char>> {
    match item_error_of(world.items@) {
        Some(e) => Some(e),
        None => book_error_of(world.books@),
    }
}

/// The first song item that is an error, as `{path}: {message}`.
pub open spec fn item_error_of(items: Seq<(String, WorldItem)>) -> Option<Seq<char>>
    decreases items.len(),
{
    if items.len() == 0 {
        None
    } else {
        match item_error_of(items.drop_last()) {
            Some(e) => Some(e),
            None => match items.last().1 {
                WorldItem::Error(m) => Some(items.last().0@ + ": "@ + m@),
                WorldItem::Song(_) => None,
            },
        }
    }
}

/// The first book item that is an error, as `{path}: {message}`.
pub open spec fn book_error_of(books: Seq<(String, BookItem)>) -> Option<Seq<char>>
    decreases books.len(),
{
    if books.len() == 0 {
        None
    } else {
        match book_error_of(books.drop_last()) {
            Some(e) => Some(e),
            None => match books.last().1 {
                BookItem::Error(m) => Some(books.last().0@ + ": "@ + m@),
                BookItem::Book(_) => None,
            },
        }
    }
}

/// The positions of the songs of `items` built under the pattern, in order.
pub open spec fn selected_of(items: Seq<(String, WorldItem)>, pattern: Option<&str>) -> Seq<int>
    decreases items.len(),
{
    if items.len() == 0 {
        Seq::empty()
    } else {
        let rest = selected_of(items.drop_last(), pattern);
        if item_selected(items.last().1, pattern) {
            rest.push(items.len() - 1)
        } else {
            rest
        }
    }
}

/// The stems of the built songs, in the order they are built.
pub open spec fn built_stems_of(items: Seq<(String, WorldItem)>, sel: Seq<int>) -> Seq<Seq<char>> {
    sel.map_values(|i: int| song_stem(items[i].1->Song_0.info.author@, items[i].1->Song_0.info.title@))
}

/// The last position of `s` in `v`, or -1.
pub open spec fn last_index(v: Seq<Seq<char>>, s: Seq<char>) -> int
    decreases v.len(),
{
    if v.len() == 0 {
        -1
    } else if v.last() == s {
        v.len() - 1
    } else {
        last_index(v.drop_last(), s)
    }
}

/// How the songs of a book stand against the built songs: the position of
/// each in the build, or the first that is not built, with whether it is a
/// song of the world at all.
pub open spec fn book_resolution_of(songs: Seq<Seq<char>>, built: Seq<Seq<char>>, known: Seq<Seq<char>>) -> Result<
    Seq<int>,
    (bool, Seq<char>),
>
    decreases songs.len(),
{
    if songs.len() == 0 {
        Ok(Seq::empty())
    } else {
        match book_resolution_of(songs.drop_last(), built, known) {
            Err(e) => Err(e),
            Ok(ix) => {
                let s = songs.last();
                if built.contains(s) {
                    Ok(ix.push(last_index(built, s)))
                } else {
                    Err((known.contains(s), s))
                }
            },
        }
    }
}

/// The message of a book that lists a song the world does not have.
pub open spec fn unknown_song_message(rel_path: Seq<char>, stem: Seq<char>) -> Seq<char> {
    rel_path + ": no song named '"@ + stem + "'"@
}

/// The books that are built, in order, each with its path in the songs
/// sandbox and the build position of each of its songs. A book with a song
/// that the pattern left out is skipped; a book with a song that does not
/// exist fails the build.
pub open spec fn books_plan_of(books: Seq<(String, BookItem)>, built: Seq<Seq<char>>, known: Seq<Seq<char>>) -> Result<
    Seq<(Seq<char>, Seq<int>)>,
    Seq<char>,
>
    decreases books.len(),
{
    if books.len() == 0 {
        Ok(Seq::empty())
    } else {
        match books_plan_of(books.drop_last(), built, known) {
            Err(e) => Err(e),
            Ok(v) => match books.last().1 {
                BookItem::Book(b) => {
                    let rel = join("books"@, books.last().0@);
                    match book_resolution_of(string_views(b.songs@), built, known) {
                        Ok(ix) => Ok(v.push((rel, ix))),
                        Err((true, _)) => Ok(v),
                        Err((false, s)) => Err(unknown_song_message(rel, s)),
                    }
                },
                BookItem::Error(_) => Ok(v),
            },
        }
    }
}

/// The message of a world with books but no directory to read them from.
pub open spec fn no_books_dir_message() -> Seq<char> {
    "the world has books but no books source directory was given"@
}

/// The plan of a whole build: the positions of the songs built, and the
/// books built; or why the build fails.
pub open spec fn world_plan_of(
    world: World,
    pattern: Option<&str>,
    books_srcdir_given: bool,
    click_errors: Seq<Option<String>>,
) -> Result<(Seq<int>, Seq<(Seq<char>, Seq<int>)>), Seq<char>> {
    match world_error_of(world) {
        Some(e) => Err(e),
        None => match click_error_of(world.items@, pattern, click_errors) {
            Some(e) => Err(e),
            None => if !books_srcdir_given && world.books@.len() > 0 {
                Err(no_books_dir_message())
            } else {
                let sel = selected_of(world.items@, pattern);
                match books_plan_of(world.books@, built_stems_of(world.items@, sel), song_stems_of(world.items@)) {
                    Ok(b) => Ok((sel, b)),
                    Err(e) => Err(e),
                }
            },
        },
    }
}

/// The first song built whose click definition did not load: `errors[i]` is
/// what loading the click definition of item `i` gave, read only for a song
/// that is built and has clicks.
pub open spec fn click_error_of(items: Seq<(String, WorldItem)>, pattern: Option<&str>, errors: Seq<Option<String>>) -> Option<Seq<char>>
    decreases items.len(),
{
    if items.len() == 0 {
        None
    } else {
        match click_error_of(items.drop_last(), pattern, errors) {
            Some(e) => Some(e),
            None => {
                let k = items.len() - 1;
                if item_selected(items[k].1, pattern) && items[k].1->Song_0.files.has_clicks && errors[k] is Some {
                    Some(errors[k]->0@)
                } else {
                    None
                }
            },
        }
    }
}

/// A click definition that failed to load among the first songs fails the build.
proof fn lemma_click_error_prefix(items: Seq<(String, WorldItem)>, pattern: Option<&str>, errors: Seq<Option<String>>, k: int)
    requires
        0 <= k <= items.len(),
        click_error_of(items.take(k), pattern, errors) is Some,
    ensures
        click_error_of(items, pattern, errors) == click_error_of(items.take(k), pattern, errors),
    decreases items.len(),
{
    if k == items.len() {
        assert(items.take(k) =~= items);
    } else {
        assert(items.drop_last().take(k) =~= items.take(k));
        lemma_click_error_prefix(items.drop_last(), pattern, errors, k);
    }
}

/// A book that the pattern filters out is skipped: the books built are the
/// same without it.
pub proof fn lemma_filtered_book_is_skipped(
    books: Seq<(String, BookItem)>,
    built: Seq<Seq<char>>,
    known: Seq<Seq<char>>,
    k: int,
)
    requires
        0 <= k < books.len(),
        books[k].1 is Book,
        book_resolution_of(string_views(books[k].1->Book_0.songs@), built, known) matches Err((true, _)),
    ensures
        books_plan_of(books, built, known) == books_plan_of(books.remove(k), built, known),
    decreases books.len(),
{
    if k == books.len() - 1 {
        assert(books.remove(k) =~= books.drop_last());
    } else {
        lemma_filtered_book_is_skipped(books.drop_last(), built, known, k);
        assert(books.remove(k).drop_last() =~= books.drop_last().remove(k));
        assert(books.remove(k).last() == books.last());
    }
}

/// Removing a book that parsed leaves the first error of the books as it was.
proof fn lemma_book_error_without_book(books: Seq<(String, BookItem)>, k: int)
    requires
        0 <= k < books.len(),
        books[k].1 is Book,
    ensures
        book_error_of(books) == book_error_of(books.remove(k)),
    decreases books.len(),
{
    if k == books.len() - 1 {
        assert(books.remove(k) =~= books.drop_last());
    } else {
        lemma_book_error_without_book(books.drop_last(), k);
        assert(books.remove(k).drop_last() =~= books.drop_last().remove(k));
        assert(books.remove(k).last() == books.last());
    }
}

/// A build with a book whose songs the pattern partly filters out is the
/// build without that book: the book is neither built nor fails the build.
pub proof fn lemma_filtered_book_leaves_build_unchanged(
    world: World,
    pattern: Option<&str>,
    k: int,
    without: World,
    click_errors: Seq<Option<String>>,
)
    requires
        0 <= k < world.books@.len(),
        world.books@[k].1 is Book,
        without.items == world.items,
        without.books@ == world.books@.remove(k),
        book_resolution_of(
            string_views(world.books@[k].1->Book_0.songs@),
            built_stems_of(world.items@, selected_of(world.items@, pattern)),
            song_stems_of(world.items@),
        ) matches Err((true, _)),
    ensures
        world_plan_of(world, pattern, true, click_errors) == world_plan_of(without, pattern, true, click_errors),
{
    lemma_book_error_without_book(world.books@, k);
    lemma_filtered_book_is_skipped(
        world.books@,
        built_stems_of(world.items@, selected_of(world.items@, pattern)),
        song_stems_of(world.items@),
        k,
    );
}

/// The last position of a string, as `last_index` counts it.
proof fn lemma_last_index(v: Seq<Seq<char>>, s: Seq<char>, i: int)
    requires
        is_last_position(v, s, i),
    ensures
        last_index(v, s) == i,
    decreases v.len(),
{
    if i < v.len() - 1 {
        lemma_last_index(v.drop_last(), s, i);
    }
}

/// The first item error of the world, as `{path}: {message}`.
fn world_error(world: &World) -> (r: Option<String>)
    ensures
        match r {
            Some(e) => world_error_of(*world) == Some(e@),
            None => world_error_of(*world) is None,
        },
{
    let ghost items = world.items@;
    for i in 0..world.items.len()
        invariant
            items == world.items@,
            item_error_of(items.take(i as int)) is None,
    {
        assert(items.take(i + 1).drop_last() =~= items.take(i as int));
        if let WorldItem::Error(m) = &world.items[i].1 {
            let mut e = concat(world.items[i].0.as_str(), ": ");
            e.append(m.as_str());
            assert(item_error_of(items.take(i + 1)) == Some(e@));
            proof {
                lemma_item_error_prefix(items, i + 1);
            }
            return Some(e);
        }
    }
    assert(items.take(items.len() as int) =~= items);
    let ghost books = world.books@;
    for i in 0..world.books.len()
        invariant
            books == world.books@,
            item_error_of(world.items@) is None,
            book_error_of(books.take(i as int)) is None,
    {
        assert(books.take(i + 1).drop_last() =~= books.take(i as int));
        if let BookItem::Error(m) = &world.books[i].1 {
            let mut e = concat(world.books[i].0.as_str(), ": ");
            e.append(m.as_str());
            assert(book_error_of(books.take(i + 1)) == Some(e@));
            proof {
                lemma_book_error_prefix(books, i + 1);
            }
            return Some(e);
        }
    }
    assert(books.take(books.len() as int) =~= books);
    None
}

/// An error among the first items is the first error of all.
proof fn lemma_item_error_prefix(items: Seq<(String, WorldItem)>, k: int)
    requires
        0 <= k <= items.len(),
        item_error_of(items.take(k)) is Some,
    ensures
        item_error_of(items) == item_error_of(items.take(k)),
    decreases items.len(),
{
    if k == items.len() {
        assert(items.take(k) =~= items);
    } else {
        assert(items.drop_last().take(k) =~= items.take(k));
        lemma_item_error_prefix(items.drop_last(), k);
    }
}

/// An error among the first books is the first error of all.
proof fn lemma_book_error_prefix(books: Seq<(String, BookItem)>, k: int)
    requires
        0 <= k <= books.len(),
        book_error_of(books.take(k)) is Some,
    ensures
        book_error_of(books) == book_error_of(books.take(k)),
    decreases books.len(),
{
    if k == books.len() {
        assert(books.take(k) =~= books);
    } else {
        assert(books.drop_last().take(k) =~= books.take(k));
        lemma_book_error_prefix(books.drop_last(), k);
    }
}

/// A song left out among the first songs of a book decides for the book.
proof fn lemma_resolution_prefix(songs: Seq<Seq<char>>, built: Seq<Seq<char>>, known: Seq<Seq<char>>, k: int)
    requires
        0 <= k <= songs.len(),
        book_resolution_of(songs.take(k), built, known) is Err,
    ensures
        book_resolution_of(songs, built, known) == book_resolution_of(songs.take(k), built, known),
    decreases songs.len(),
{
    if k == songs.len() {
        assert(songs.take(k) =~= songs);
    } else {
        assert(songs.drop_last().take(k) =~= songs.take(k));
        lemma_resolution_prefix(songs.drop_last(), built, known, k);
    }
}

/// The build positions of the songs of a book, or the first song that is
/// not built, with whether the world has it.
fn book_songs_plan(songs: &Vec<String>, built: &Vec<String>, known: &Vec<String>) -> (r: Result<Vec<usize>, (bool, String)>)
    ensures
        match r {
            Ok(ix) => book_resolution_of(string_views(songs@), string_views(built@), string_views(known@))
                == Ok::<Seq<int>, (bool, Seq<char>)>(ix@.map_values(|x: usize| x as int)),
            Err((f, s)) => book_resolution_of(string_views(songs@), string_views(built@), string_views(known@))
                == Err::<Seq<int>, (bool, Seq<char>)>((f, s@)),
        },
{
    let ghost sv = string_views(songs@);
    let ghost bv = string_views(built@);
    let ghost kv = string_views(known@);
    let mut ix: Vec<usize> = Vec::new();
    assert(sv.take(0) =~= Seq::<Seq<char>>::empty());
    assert(ix@.map_values(|x: usize| x as int) =~= Seq::<int>::empty());
    for k in 0..songs.len()
        invariant
            sv == string_views(songs@),
            bv == string_views(built@),
            kv == string_views(known@),
            book_resolution_of(sv.take(k as int), bv, kv) == Ok::<Seq<int>, (bool, Seq<char>)>(ix@.map_values(|x: usize| x as int)),
    {
        assert(sv.take(k + 1).drop_last() =~= sv.take(k as int));
        assert(sv.take(k + 1).last() == songs@[k as int]@);
        match last_position(built, &songs[k]) {
            Some(i) => {
                proof {
                    lemma_last_index(bv, songs@[k as int]@, i as int);
                }
                let ghost before = ix@;
                ix.push(i);
                assert(ix@.map_values(|x: usize| x as int) =~= before.map_values(|x: usize| x as int).push(i as int));
            },
            None => {
                let f = contains_string(known, &songs[k]);
                let s = songs[k].clone();
                proof {
                    lemma_resolution_prefix(sv, bv, kv, k + 1);
                }
                return Err((f, s));
            },
        }
    }
    assert(sv.take(songs@.len() as int) =~= sv);
    Ok(ix)
}

/// A book that is built: its path in the songs sandbox and the build
/// position of each of its songs.
#[derive(Debug, Clone, PartialEq)]
pub struct BookPlan {
    /// `books/{file name}`.
    pub rel_path: String,
    /// For each song of the book, in order, its position among the songs built.
    pub songs: Vec<usize>,
}

/// The plan of a whole build.
#[derive(Debug, Clone, PartialEq)]
pub struct WorldPlan {
    /// The positions in the world of the songs built, in order.
    pub songs: Vec<usize>,
    /// The plan of each song built, in the same order.
    pub song_plans: Vec<SongPlan>,
    /// The books built, in order.
    pub books: Vec<BookPlan>,
}

/// The books of a plan as plain values.
pub open spec fn book_plan_views(v: Seq<BookPlan>) -> Seq<(Seq<char>, Seq<int>)> {
    v.map_values(|b: BookPlan| (b.rel_path@, b.songs@.map_values(|x: usize| x as int)))
}

/// Plans the build of a world: fails on the first item that could not be
/// read or parsed, on books without a directory to read them from, and on
/// a book that lists a song the world does not have; otherwise plans every
/// song the pattern keeps and every book whose songs are all built, skipping
/// a book with a song the pattern left out.
pub fn plan_world(
    world: &World,
    pattern: Option<&str>,
    books_srcdir_given: bool,
    click_errors: &Vec<Option<String>>,
) -> (r: Result<WorldPlan, String>)
    requires
        click_errors@.len() == world.items@.len(),
    ensures
        match r {
            Err(e) => world_plan_of(*world, pattern, books_srcdir_given, click_errors@) == Err::<(Seq<int>, Seq<(Seq<char>, Seq<int>)>), Seq<char>>(e@),
            Ok(p) => world_plan_of(*world, pattern, books_srcdir_given, click_errors@) == Ok::<(Seq<int>, Seq<(Seq<char>, Seq<int>)>), Seq<char>>(
                (p.songs@.map_values(|x: usize| x as int), book_plan_views(p.books@)),
            ),
        },
        r matches Ok(p) ==> p.song_plans@.len() == p.songs@.len() && forall|k: int|
            0 <= k < p.songs@.len() ==> (#[trigger] p.songs@[k]) < world.items@.len() && world.items@[p.songs@[k] as int].1 is Song
                && is_song_plan(
                world.items@[p.songs@[k] as int].0@,
                *world.items@[p.songs@[k] as int].1->Song_0,
                p.song_plans@[k],
            ),
{
    match world_error(world) {
        Some(e) => {
            return Err(e);
        },
        None => {},
    }
    let ghost items = world.items@;
    let mut songs: Vec<usize> = Vec::new();
    let mut song_plans: Vec<SongPlan> = Vec::new();
    let mut built: Vec<String> = Vec::new();
    for i in 0..world.items.len()
        invariant
            items == world.items@,
            world_error_of(*world) is None,
            click_errors@.len() == items.len(),
            click_error_of(items.take(i as int), pattern, click_errors@) is None,
            songs@.map_values(|x: usize| x as int) == selected_of(items.take(i as int), pattern),
            song_plans@.len() == songs@.len(),
            forall|k: int| 0 <= k < songs@.len() ==> (#[trigger] songs@[k]) < i && items[songs@[k] as int].1 is Song
                && is_song_plan(items[songs@[k] as int].0@, *items[songs@[k] as int].1->Song_0, song_plans@[k]),
            string_views(built@) == built_stems_of(items, songs@.map_values(|x: usize| x as int)),
    {
        assert(items.take(i + 1).drop_last() =~= items.take(i as int));
        assert(items.take(i + 1).last() == items[i as int]);
        if let WorldItem::Song(song) = &world.items[i].1 {
            if song_is_selected(&song.info, pattern) {
                if song.files.has_clicks {
                    if let Some(e) = &click_errors[i] {
                        assert(click_error_of(items.take(i + 1), pattern, click_errors@) == Some(e@));
                        proof {
                            lemma_click_error_prefix(items, pattern, click_errors@, i + 1);
                        }
                        return Err(e.clone());
                    }
                }
                let plan = song_plan(world.items[i].0.as_str(), song);
                let ghost sb = songs@;
                let ghost bb = built@;
                built.push(plan.stem.clone());
                songs.push(i);
                song_plans.push(plan);
                assert(songs@.map_values(|x: usize| x as int) =~= sb.map_values(|x: usize| x as int).push(i as int));
                assert(string_views(built@) =~= string_views(bb).push(song_plans@[songs@.len() - 1].stem@));
                assert(string_views(built@) =~= built_stems_of(items, songs@.map_values(|x: usize| x as int)));
            }
        }
    }
    assert(items.take(items.len() as int) =~= items);
    if !books_srcdir_given && world.books.len() > 0 {
        let e = String::from_str("the world has books but no books source directory was given");
        proof {
            reveal_strlit("the world has books but no books source directory was given");
        }
        return Err(e);
    }
    let known = known_song_stems(world);
    let ghost bv = string_views(built@);
    let ghost kv = string_views(known@);
    let ghost all = world.books@;
    let mut books: Vec<BookPlan> = Vec::new();
    assert(all.take(0) =~= Seq::<(String, BookItem)>::empty());
    assert(book_plan_views(books@) =~= Seq::<(Seq<char>, Seq<int>)>::empty());
    for i in 0..world.books.len()
        invariant
            all == world.books@,
            world_error_of(*world) is None,
            click_error_of(world.items@, pattern, click_errors@) is None,
            books_srcdir_given || world.books@.len() == 0,
            bv == built_stems_of(world.items@, selected_of(world.items@, pattern)),
            kv == song_stems_of(world.items@),
            songs@.map_values(|x: usize| x as int) == selected_of(world.items@, pattern),
            bv == string_views(built@),
            kv == string_views(known@),
            books_plan_of(all.take(i as int), bv, kv) == Ok::<Seq<(Seq<char>, Seq<int>)>, Seq<char>>(book_plan_views(books@)),
    {
        assert(all.take(i + 1).drop_last() =~= all.take(i as int));
        assert(all.take(i + 1).last() == all[i as int]);
        if let BookItem::Book(book) = &world.books[i].1 {
            let rel = book_rel_path(world.books[i].0.as_str());
            match book_songs_plan(&book.songs, &built, &known) {
                Ok(ix) => {
                    let ghost bb = books@;
                    books.push(BookPlan { rel_path: rel, songs: ix });
                    assert(book_plan_views(books@) =~= book_plan_views(bb).push((books@[books@.len() - 1].rel_path@, books@[books@.len() - 1].songs@.map_values(|x: usize| x as int))));
                },
                Err((true, _)) => {},
                Err((false, s)) => {
                    let mut e = concat(rel.as_str(), ": no song named '");
                    e.append(s.as_str());
                    e.append("'");
                    proof {
                        assert(books_plan_of(all.take(i + 1), bv, kv) == Err::<Seq<(Seq<char>, Seq<int>)>, Seq<char>>(
                            unknown_song_message(rel@, s@),
                        ));
                        assert(e@ =~= unknown_song_message(rel@, s@));
                        lemma_books_plan_prefix(all, bv, kv, i + 1);
                    }
                    return Err(e);
                },
            }
        }
    }
    assert(all.take(all.len() as int) =~= all);
    Ok(WorldPlan { songs, song_plans, books })
}

/// A failing book among the first books fails the whole plan.
proof fn lemma_books_plan_prefix(books: Seq<(String, BookItem)>, built: Seq<Seq<char>>, known: Seq<Seq<char>>, k: int)
    requires
        0 <= k <= books.len(),
        books_plan_of(books.take(k), built, known) is Err,
    ensures
        books_plan_of(books, built, known) == books_plan_of(books.take(k), built, known),
    decreases books.len(),
{
    if k == books.len() {
        assert(books.take(k) =~= books);
    } else {
        assert(books.drop_last().take(k) =~= books.take(k));
        lemma_books_plan_prefix(books.drop_last(), built, known, k);
    }
}

/// Each lyrics PDF of a song is delivered into its own column's directory:
/// the one-column PDF `lyrics/main-1col.pdf` into `pdf-lyrics-1-column`, the
/// two-column `lyrics/main-2col.pdf` into `pdf-lyrics-2-column`, each by an
/// edge of the plan from the PDF to its delivered copy; and the song PDF
/// `main.pdf` likewise into `pdf`.
pub proof fn lemma_lyrics_pdfs_go_to_their_columns(rel_path: Seq<char>, song: Song, r: SongPlan)
    requires
        is_song_plan(rel_path, song, r),
    ensures
        pair_views(r.edges@).contains(
            (
                join(join(parent(rel_path), "lyrics"@), "main-1col.pdf"@),
                join("../pdf-lyrics-1-column"@, song_stem(song.info.author@, song.info.title@) + "-lyrics.pdf"@),
            ),
        ),
        pair_views(r.edges@).contains(
            (
                join(join(parent(rel_path), "lyrics"@), "main-2col.pdf"@),
                join("../pdf-lyrics-2-column"@, song_stem(song.info.author@, song.info.title@) + "-lyrics.pdf"@),
            ),
        ),
        pair_views(r.edges@).contains(
            (
                join(parent(rel_path), "main.pdf"@),
                join("../pdf"@, song_stem(song.info.author@, song.info.title@) + ".pdf"@),
            ),
        ),
{
    let e = pair_views(r.edges@);
    let c: Seq<(Seq<char>, Seq<char>)> = match r.clicks {
        Some(x) => seq![(x.0@, x.1@), (rel_path, x.1@)],
        None => Seq::empty(),
    };
    let n = c.len() as int;
    assert(e[n + 1] == (r.pdf@, r.pdf_delivery@));
    assert(e[n + 3] == (r.lyrics_pdfs@[0].0@, r.lyrics_pdfs@[0].1@));
    assert(e[n + 5] == (r.lyrics_pdfs@[1].0@, r.lyrics_pdfs@[1].1@));
}

} // verus!
