//! Data model of songs, books and the world that gathers them.

use vstd::prelude::*;

use crate::text::{keeps_case, lowercase, push_char, to_lowercase};
use vstd::string::StringExecFns;

verus! {

/// A complete song definition, as read from `song.yml`.
#[derive(Debug, Clone, PartialEq)]
pub struct Song {
    /// Source files (LilyPond, TeX, audio) associated with this song.
    pub files: SongFiles,
    /// Title, author, tempo, and time signature.
    pub info: SongInfo,
    /// Optional metadata such as date and content digest.
    pub meta: SongMeta,
    /// Ordered list of sections that make up the song structure.
    pub structure: Vec<StructureItem>,
}

/// Source file references for a song.
#[derive(Debug, Clone, PartialEq)]
pub struct SongFiles {
    /// LilyPond notation files (`.ly`).
    pub lilypond: Vec<String>,
    /// LaTeX source files (`.tex`).
    pub tex: Vec<String>,
    /// Audio renders (`.mp3`), synthesised from the matching `.ly`.
    pub mp3: Vec<String>,
    /// Whether this song has a click track (`clicks.mp3`).
    pub has_clicks: bool,
    /// Whether this song has a song recording (`song.mp3`).
    pub has_mp3: bool,
}

/// Core song metadata: title, author, tempo, and time signature.
#[derive(Debug, Clone, PartialEq)]
pub struct SongInfo {
    /// Song title.
    pub title: String,
    /// Song author or band name.
    pub author: String,
    /// Tempo in beats per minute.
    pub tempo: u16,
    /// Time signature (e.g. `"4/4"`), if specified.
    pub time_signature: Option<String>,
    /// Free-form tags for categorizing the song.
    pub tags: Vec<String>,
    /// Identifier of the song on an external music service, if known.
    pub external_id: Option<ExternalId>,
}

/// The identifier of a song on an external music service.
#[derive(Debug, Clone, PartialEq, Eq)]
pub enum ExternalId {
    /// A Deezer track id.
    Deezer(String),
    /// A YouTube video id.
    Youtube(String),
}

/// Optional metadata for a song (date, content digest).
#[derive(Debug, Clone, PartialEq, Default)]
pub struct SongMeta {
    /// Date the song was added or last modified.
    pub date: Option<String>,
    /// Digest of the song content for change detection.
    pub digest: Option<String>,
}

/// A named section in the song structure.
#[derive(Debug, Clone, PartialEq)]
pub struct StructureItem {
    /// Unique identifier for this section (e.g. `"intro"`, `"couplet1"`).
    pub id: String,
    /// The section content.
    pub item: SectionItem,
}

/// The different kinds of sections that can appear in a song structure.
#[derive(Debug, Clone, PartialEq)]
pub enum SectionItem {
    /// A section with chord rows.
    Chords(ChordsSection),
    /// A reference to another section (shares its chord content).
    Ref(RefSection),
    /// A horizontal rule with a given width percentage.
    HRule(u32),
    /// A column break in multi-column layouts.
    NewColumn,
}

/// A section containing chord rows and optional drum patterns.
#[derive(Debug, Clone, PartialEq)]
pub struct ChordsSection {
    /// Display title for this section.
    pub title: String,
    /// Section type (e.g. `"intro"`, `"couplet"`, `"refrain"`).
    pub section_type: String,
    /// Optional body text displayed below the section header.
    pub section_body: Option<String>,
    /// Background color name (X11 color).
    pub color: Option<String>,
    /// Chord rows, each in `"A|Bm|C#|x2"` format.
    pub rows: Vec<String>,
    /// Optional drum pattern sequence.
    pub drum_sequence: Option<DrumSequence>,
}

/// A single item in a drum sequence: a pattern name repeated N times.
#[derive(Debug, Clone, PartialEq)]
pub struct DrumSequenceItem {
    /// Number of consecutive bars using this pattern.
    pub repeat: u32,
    /// Name of the drum pattern (must exist in a library directory).
    pub pattern: String,
}

/// A sequence of drum pattern items for a section.
pub type DrumSequence = Vec<DrumSequenceItem>;

/// A section that references another section's chord content.
#[derive(Debug, Clone, PartialEq)]
pub struct RefSection {
    /// Display title for this reference section.
    pub title: String,
    /// Optional override of the section type.
    pub section_type: Option<String>,
    /// Optional body text.
    pub section_body: Option<String>,
    /// Background color name (X11 color).
    pub color: Option<String>,
    /// Id of the [`ChordsSection`] this references.
    pub link: String,
}

/// A book: a named, ordered selection of songs.
#[derive(Debug, Clone, PartialEq)]
pub struct Book {
    /// Book name, used for the delivered file name (`book-<name>.pdf`).
    pub name: String,
    /// Free-form tags for categorizing the book.
    pub tags: Vec<String>,
    /// Songs in the book, in the order they are collated, each given by its
    /// normalized stem (`{author}--@--{title}`).
    pub songs: Vec<String>,
}

/// An item in the world's book list: either a parsed book or an error.
#[derive(Debug, Clone, PartialEq)]
pub enum BookItem {
    /// A successfully parsed book.
    Book(Box<Book>),
    /// An error message from reading or parsing a book file.
    Error(String),
}

/// An item in the world: either a parsed song or an error.
#[derive(Debug, Clone, PartialEq)]
pub enum WorldItem {
    /// A successfully parsed song.
    Song(Box<Song>),
    /// An error message from reading or parsing a song file.
    Error(String),
}

/// The world: song paths with their parse results, and the books that
/// collate them. Paths are relative, with `/` between components.
#[derive(Debug, Clone, PartialEq)]
pub struct World {
    /// List of (relative path, world item) pairs.
    pub items: Vec<(String, WorldItem)>,
    /// List of (file name, book item) pairs, one per book yaml file.
    pub books: Vec<(String, BookItem)>,
}

/// The ASCII letter or digit `c` stands for itself in a file name.
pub open spec fn is_name_char(c: char) -> bool {
    ('a' <= c && c <= 'z') || ('0' <= c && c <= '9')
}

/// What one lowercase character becomes in a file name: letters and digits
/// stay, accented Latin letters fold to their ASCII base, anything else is `_`.
pub open spec fn fold_char(c: char) -> Seq<char> {
    if is_name_char(c) {
        seq![c]
    } else if c == '\u{e0}' || c == '\u{e1}' || c == '\u{e2}' || c == '\u{e3}' || c == '\u{e4}'
        || c == '\u{e5}' {
        seq!['a']
    } else if c == '\u{e7}' {
        seq!['c']
    } else if c == '\u{e8}' || c == '\u{e9}' || c == '\u{ea}' || c == '\u{eb}' {
        seq!['e']
    } else if c == '\u{ec}' || c == '\u{ed}' || c == '\u{ee}' || c == '\u{ef}' {
        seq!['i']
    } else if c == '\u{f1}' {
        seq!['n']
    } else if c == '\u{f2}' || c == '\u{f3}' || c == '\u{f4}' || c == '\u{f5}' || c == '\u{f6}'
        || c == '\u{f8}' {
        seq!['o']
    } else if c == '\u{f9}' || c == '\u{fa}' || c == '\u{fb}' || c == '\u{fc}' {
        seq!['u']
    } else if c == '\u{fd}' || c == '\u{ff}' {
        seq!['y']
    } else if c == '\u{f0}' {
        seq!['d']
    } else if c == '\u{e6}' {
        seq!['a', 'e']
    } else if c == '\u{153}' {
        seq!['o', 'e']
    } else if c == '\u{df}' {
        seq!['s', 's']
    } else if c == '\u{fe}' {
        seq!['t', 'h']
    } else {
        seq!['_']
    }
}

/// The characters folded one by one, in order.
pub open spec fn fold_chars(s: Seq<char>) -> Seq<char>
    decreases s.len(),
{
    if s.len() == 0 {
        Seq::empty()
    } else {
        fold_chars(s.drop_last()) + fold_char(s.last())
    }
}

/// The file-name form of a name: its lowercase form, folded character by character.
pub open spec fn normalized(s: Seq<char>) -> Seq<char> {
    fold_chars(lowercase(s))
}

/// Every character of `s` can stand in a file name: `a-z`, `0-9` or `_`.
pub open spec fn is_file_name_chars(s: Seq<char>) -> bool {
    forall|i: int| 0 <= i < s.len() ==> is_name_char(#[trigger] s[i]) || s[i] == '_'
}

/// Appends the folded form of one character.
fn push_folded(out: &mut String, c: char)
    ensures
        final(out)@ == old(out)@ + fold_char(c),
{
    if ('a' <= c && c <= 'z') || ('0' <= c && c <= '9') {
        push_char(out, c);
    } else if c == '\u{e0}' || c == '\u{e1}' || c == '\u{e2}' || c == '\u{e3}' || c == '\u{e4}'
        || c == '\u{e5}' {
        push_char(out, 'a');
    } else if c == '\u{e7}' {
        push_char(out, 'c');
    } else if c == '\u{e8}' || c == '\u{e9}' || c == '\u{ea}' || c == '\u{eb}' {
        push_char(out, 'e');
    } else if c == '\u{ec}' || c == '\u{ed}' || c == '\u{ee}' || c == '\u{ef}' {
        push_char(out, 'i');
    } else if c == '\u{f1}' {
        push_char(out, 'n');
    } else if c == '\u{f2}' || c == '\u{f3}' || c == '\u{f4}' || c == '\u{f5}' || c == '\u{f6}'
        || c == '\u{f8}' {
        push_char(out, 'o');
    } else if c == '\u{f9}' || c == '\u{fa}' || c == '\u{fb}' || c == '\u{fc}' {
        push_char(out, 'u');
    } else if c == '\u{fd}' || c == '\u{ff}' {
        push_char(out, 'y');
    } else if c == '\u{f0}' {
        push_char(out, 'd');
    } else if c == '\u{e6}' {
        push_char(out, 'a');
        push_char(out, 'e');
    } else if c == '\u{153}' {
        push_char(out, 'o');
        push_char(out, 'e');
    } else if c == '\u{df}' {
        push_char(out, 's');
        push_char(out, 's');
    } else if c == '\u{fe}' {
        push_char(out, 't');
        push_char(out, 'h');
    } else {
        push_char(out, '_');
    }
    assert(final(out)@ =~= old(out)@ + fold_char(c));
}

/// Folds a lowercase name into a file name: letters and digits stay,
/// accented Latin letters fold to their ASCII base, anything else is `_`.
pub fn fold_name(lower: &str) -> (r: String)
    ensures
        r@ == fold_chars(lower@),
{
    let mut out = String::new();
    for c in iter: lower.chars()
        invariant
            iter.seq() == lower@,
            out@ == fold_chars(lower@.take(iter.index())),
    {
        let ghost k = iter.index();
        push_folded(&mut out, c);
        assert(lower@.take(k + 1).drop_last() =~= lower@.take(k));
    }
    assert(lower@.take(lower@.len() as int) =~= lower@);
    out
}

/// Normalizes a name for use in a file name.
/// - Capitals are replaced with lowercase
/// - Accented Latin letters fold to their ASCII base
/// - All remaining characters which are not a-z0-9 are replaced with '_'
pub fn normalize_name(s: &str) -> (r: String)
    ensures
        r@ == normalized(s@),
        is_file_name_chars(r@),
        is_file_name_chars(s@) ==> r@ == s@,
{
    let lower = to_lowercase(s);
    proof {
        if is_file_name_chars(s@) {
            assert forall|i: int| 0 <= i < s@.len() implies keeps_case(#[trigger] s@[i]) by {
                assert(is_name_char(s@[i]) || s@[i] == '_');
            }
            lemma_fold_chars_keeps_file_name(s@);
        }
        lemma_normalized_is_file_name(s@);
    }
    fold_name(lower.as_str())
}


/// Folding keeps every character within `a-z`, `0-9` and `_`.
proof fn lemma_fold_chars_file_name(s: Seq<char>)
    ensures
        is_file_name_chars(fold_chars(s)),
    decreases s.len(),
{
    if s.len() > 0 {
        lemma_fold_chars_file_name(s.drop_last());
        let a = fold_chars(s.drop_last());
        let b = fold_char(s.last());
        assert forall|i: int| 0 <= i < (a + b).len() implies is_name_char(#[trigger] (a + b)[i])
            || (a + b)[i] == '_' by {
            if i < a.len() {
                assert((a + b)[i] == a[i]);
            } else {
                assert((a + b)[i] == b[i - a.len()]);
            }
        }
    }
}

/// Folding leaves a string of `a-z`, `0-9` and `_` as it is.
proof fn lemma_fold_chars_keeps_file_name(s: Seq<char>)
    requires
        is_file_name_chars(s),
    ensures
        fold_chars(s) == s,
    decreases s.len(),
{
    if s.len() > 0 {
        assert(is_file_name_chars(s.drop_last())) by {
            assert forall|i: int| 0 <= i < s.drop_last().len() implies is_name_char(#[trigger] s.drop_last()[i])
                || s.drop_last()[i] == '_' by {
                assert(s.drop_last()[i] == s[i]);
            }
        }
        lemma_fold_chars_keeps_file_name(s.drop_last());
        assert(is_name_char(s[s.len() - 1]) || s[s.len() - 1] == '_');
        assert(s.drop_last() + seq![s.last()] =~= s);
    }
}

/// A normalized name holds only `a-z`, `0-9` and `_`, whatever it was made from.
pub proof fn lemma_normalized_is_file_name(s: Seq<char>)
    ensures
        is_file_name_chars(normalized(s)),
{
    lemma_fold_chars_file_name(lowercase(s));
}

/// The file stem of a song: `{author}--@--{title}`, both parts normalized.
pub open spec fn song_stem(author: Seq<char>, title: Seq<char>) -> Seq<char> {
    normalized(author) + "--@--"@ + normalized(title)
}

/// The file stem of a book: `book-{name}`, the name normalized.
pub open spec fn book_stem(name: Seq<char>) -> Seq<char> {
    "book-"@ + normalized(name)
}

impl SongInfo {
    /// Returns a normalized file stem based on author and title.
    /// Format: `{author}--@--{title}`, each part normalized by [`normalize_name`].
    pub fn file_stem_of_song(&self) -> (r: String)
        ensures
            r@ == song_stem(self.author@, self.title@),
    {
        let author = normalize_name(self.author.as_str());
        let title = normalize_name(self.title.as_str());
        let mut r = author;
        r.append("--@--");
        r.append(title.as_str());
        r
    }
}

impl Book {
    /// Returns the normalized file stem of the book: `book-{name}`.
    pub fn file_stem_of_book(&self) -> (r: String)
        ensures
            r@ == book_stem(self.name@),
    {
        let mut r = String::from_str("book-");
        let name = normalize_name(self.name.as_str());
        r.append(name.as_str());
        r
    }
}

/// The beat of a click when `clicks-def.yml` does not give one.
pub fn default_beat_in_bar_number() -> (b: u32)
    ensures
        b == 1,
{
    1
}

/// The ASCII base letter of an accented lowercase Latin letter: `à`-`å` are
/// `a`, `ç` is `c`, `è`-`ë` are `e`, `ì`-`ï` are `i`, `ñ` is `n`, `ò`-`ö` and
/// `ø` are `o`, `ù`-`ü` are `u`, `ý` and `ÿ` are `y`, `ð` is `d`.
pub open spec fn latin_base(c: char) -> Option<char> {
    if '\u{e0}' <= c && c <= '\u{e5}' {
        Some('a')
    } else if c == '\u{e7}' {
        Some('c')
    } else if '\u{e8}' <= c && c <= '\u{eb}' {
        Some('e')
    } else if '\u{ec}' <= c && c <= '\u{ef}' {
        Some('i')
    } else if c == '\u{f1}' {
        Some('n')
    } else if ('\u{f2}' <= c && c <= '\u{f6}') || c == '\u{f8}' {
        Some('o')
    } else if '\u{f9}' <= c && c <= '\u{fc}' {
        Some('u')
    } else if c == '\u{fd}' || c == '\u{ff}' {
        Some('y')
    } else if c == '\u{f0}' {
        Some('d')
    } else {
        None
    }
}

/// A character of a lowercase name as it stands in a file name: its ASCII
/// base when it is an accented Latin letter, itself otherwise.
pub open spec fn base_or_self(c: char) -> char {
    match latin_base(c) {
        Some(b) => b,
        None => c,
    }
}

/// Folding turns each accented lowercase Latin letter into its ASCII base
/// letter, one character for one: `é` is `e`, `ø` is `o`, `ñ` is `n`.
pub proof fn lemma_accents_fold_to_their_base(c: char)
    ensures
        latin_base(c) matches Some(b) ==> fold_char(c) == seq![b],
{
}

/// A lowercase name of letters, digits and accented Latin letters folds
/// character by character to their ASCII bases, keeping its length: "fête"
/// becomes "fete", "marlène" becomes "marlene".
pub proof fn lemma_accented_names_fold_letter_by_letter(s: Seq<char>)
    requires
        forall|i: int| 0 <= i < s.len() ==> is_name_char(#[trigger] s[i]) || latin_base(s[i]) is Some,
    ensures
        fold_chars(s) == s.map_values(|c: char| base_or_self(c)),
    decreases s.len(),
{
    if s.len() > 0 {
        lemma_accented_names_fold_letter_by_letter(s.drop_last());
        let c = s.last();
        assert(is_name_char(s[s.len() - 1]) || latin_base(s[s.len() - 1]) is Some);
        lemma_accents_fold_to_their_base(c);
        if is_name_char(c) {
            assert(latin_base(c) is None);
        }
        assert(fold_char(c) == seq![base_or_self(c)]);
        assert(s.map_values(|c: char| base_or_self(c)) =~= s.drop_last().map_values(|c: char| base_or_self(c)) + seq![base_or_self(c)]);
    }
}

/// The ligatures and the letters that spell two Latin letters fold to those
/// two: `æ` to `ae`, `œ` to `oe`, `ß` to `ss`, `þ` to `th`; letters and
/// digits stay; any other character that is no accented Latin letter becomes
/// `_`.
pub proof fn lemma_other_characters_fold(c: char)
    ensures
        c == '\u{e6}' ==> fold_char(c) == seq!['a', 'e'],
        c == '\u{153}' ==> fold_char(c) == seq!['o', 'e'],
        c == '\u{df}' ==> fold_char(c) == seq!['s', 's'],
        c == '\u{fe}' ==> fold_char(c) == seq!['t', 'h'],
        ('a' <= c && c <= 'z') || ('0' <= c && c <= '9') ==> fold_char(c) == seq![c],
        !(('a' <= c && c <= 'z') || ('0' <= c && c <= '9')) && latin_base(c) is None && c != '\u{e6}'
            && c != '\u{153}' && c != '\u{df}' && c != '\u{fe}' ==> fold_char(c) == seq!['_'],
{
}

} // verus!
