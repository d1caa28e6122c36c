//! Queries over the world of songs.

use vstd::prelude::*;

use crate::model::{Book, BookItem, Song, World, WorldItem};
use crate::text::concat;
use vstd::string::StringExecFns;

verus! {

/// Strings ordered lexicographically by the code points of their characters,
/// the order of `String`.
pub open spec fn str_le(a: Seq<char>, b: Seq<char>) -> bool
    decreases a.len(),
{
    if a.len() == 0 {
        true
    } else if b.len() == 0 {
        false
    } else if a[0] != b[0] {
        a[0] < b[0]
    } else {
        str_le(a.drop_first(), b.drop_first())
    }
}

/// Two strings that are each below the other are equal.
pub proof fn lemma_str_le_antisymmetric(a: Seq<char>, b: Seq<char>)
    requires
        str_le(a, b),
        str_le(b, a),
    ensures
        a == b,
    decreases a.len(),
{
    if a.len() > 0 && b.len() > 0 {
        lemma_str_le_antisymmetric(a.drop_first(), b.drop_first());
        assert(a =~= seq![a[0]] + a.drop_first());
        assert(b =~= seq![b[0]] + b.drop_first());
    }
}

/// The views of a list of strings.
pub open spec fn views(v: Seq<String>) -> Seq<Seq<char>> {
    v.map_values(|s: String| s@)
}

/// Each string is below every string after it.
pub open spec fn is_sorted(s: Seq<Seq<char>>) -> bool {
    forall|i: int, j: int| 0 <= i < j < s.len() ==> str_le(#[trigger] s[i], #[trigger] s[j])
}

/// Calls `<[String]>::sort`: the same strings, reordered into ascending
/// order. `String` orders by bytes, which orders the characters by code point.
#[verifier::external_body]
fn sort_strings(v: &mut Vec<String>)
    ensures
        views(final(v)@).to_multiset() == views(old(v)@).to_multiset(),
        is_sorted(views(final(v)@)),
{
    v.sort()
}

/// Every tag of every song of the world.
pub open spec fn tags_of(items: Seq<(String, WorldItem)>) -> Set<Seq<char>> {
    Set::new(
        |t: Seq<char>|
            exists|i: int, j: int|
                0 <= i < items.len() && (#[trigger] items[i]).1 is Song && 0 <= j
                    < items[i].1->Song_0.info.tags.len() && t
                    == (#[trigger] items[i].1->Song_0.info.tags[j])@,
    )
}

/// Returns a sorted, deduplicated list of all tags found across all songs in the world.
pub fn tags_of_world(world: &World) -> (r: Vec<String>)
    ensures
        views(r@).to_set() == tags_of(world.items@),
        views(r@).no_duplicates(),
        is_sorted(views(r@)),
{
    let ghost items = world.items@;
    let mut tags: Vec<String> = Vec::new();
    for i in 0..world.items.len()
        invariant
            items == world.items@,
            forall|t: Seq<char>| #[trigger]
                views(tags@).contains(t) <==> exists|k: int, j: int|
                    0 <= k < i && (#[trigger] items[k]).1 is Song && 0 <= j
                        < items[k].1->Song_0.info.tags.len() && t
                        == (#[trigger] items[k].1->Song_0.info.tags[j])@,
    {
        match &world.items[i].1 {
            WorldItem::Song(song) => {
                let song_tags = &song.info.tags;
                let ghost before = tags@;
                for j in 0..song_tags.len()
                    invariant
                        items == world.items@,
                        items[i as int].1 is Song,
                        song_tags == &items[i as int].1->Song_0.info.tags,
                        forall|t: Seq<char>| #[trigger]
                            views(tags@).contains(t) <==> (views(before).contains(t) || exists|
                                jj: int,
                            | 0 <= jj < j && t == (#[trigger] song_tags[jj])@),
                {
                    let ghost prev = tags@;
                    tags.push(song_tags[j].clone());
                    assert forall|t: Seq<char>| #[trigger]
                        views(tags@).contains(t) <==> (views(prev).contains(t) || t
                            == song_tags[j as int]@) by {
                        if views(tags@).contains(t) {
                            let x = choose|x: int| 0 <= x < views(tags@).len() && views(tags@)[x] == t;
                            if x < prev.len() {
                                assert(views(prev)[x] == t);
                            }
                        }
                        if views(prev).contains(t) {
                            let x = choose|x: int| 0 <= x < views(prev).len() && views(prev)[x] == t;
                            assert(views(tags@)[x] == t);
                        }
                        if t == song_tags[j as int]@ {
                            assert(views(tags@)[prev.len() as int] == t);
                        }
                    }
                }
                assert forall|t: Seq<char>| #[trigger]
                    views(tags@).contains(t) <==> exists|k: int, j: int|
                        0 <= k < i + 1 && (#[trigger] items[k]).1 is Song && 0 <= j
                            < items[k].1->Song_0.info.tags.len() && t
                            == (#[trigger] items[k].1->Song_0.info.tags[j])@ by {
                    if views(tags@).contains(t) && !views(before).contains(t) {
                        let jj = choose|jj: int| 0 <= jj < song_tags.len() && t == (#[trigger] song_tags[jj])@;
                        assert(items[i as int].1->Song_0.info.tags[jj] == song_tags[jj]);
                    }
                }
            },
            WorldItem::Error(_) => {
                assert forall|t: Seq<char>| #[trigger]
                    views(tags@).contains(t) <==> exists|k: int, j: int|
                        0 <= k < i + 1 && (#[trigger] items[k]).1 is Song && 0 <= j
                            < items[k].1->Song_0.info.tags.len() && t
                            == (#[trigger] items[k].1->Song_0.info.tags[j])@ by {
                    if exists|k: int, j: int|
                        0 <= k < i + 1 && (#[trigger] items[k]).1 is Song && 0 <= j
                            < items[k].1->Song_0.info.tags.len() && t
                            == (#[trigger] items[k].1->Song_0.info.tags[j])@ {
                        let (k, j) = choose|k: int, j: int|
                            0 <= k < i + 1 && (#[trigger] items[k]).1 is Song && 0 <= j
                                < items[k].1->Song_0.info.tags.len() && t
                                == (#[trigger] items[k].1->Song_0.info.tags[j])@;
                        assert(k != i);
                    }
                }
            },
        }
    }
    let ghost collected = views(tags@);
    sort_strings(&mut tags);
    proof {
        assert forall|t: Seq<char>| views(tags@).contains(t) <==> collected.contains(t) by {
            assert(views(tags@).to_multiset().count(t) == collected.to_multiset().count(t));
            vstd::seq_lib::to_multiset_contains(views(tags@), t);
            vstd::seq_lib::to_multiset_contains(collected, t);
        }
    }
    let r = dedup_sorted(&tags);
    proof {
        assert forall|t: Seq<char>| views(r@).to_set().contains(t) <==> tags_of(
            world.items@,
        ).contains(t) by {
            assert(views(r@).contains(t) <==> views(tags@).contains(t));
            assert(views(tags@).contains(t) <==> collected.contains(t));
        }
        assert(views(r@).to_set() =~= tags_of(world.items@));
    }
    r
}

/// Pushing onto a sequence adds exactly the pushed element to what it contains.
pub proof fn lemma_push_contains<A>(s: Seq<A>, a: A, t: A)
    ensures
        s.push(a).contains(t) <==> (s.contains(t) || t == a),
{
    if s.push(a).contains(t) {
        let x = choose|x: int| 0 <= x < s.push(a).len() && s.push(a)[x] == t;
        if x < s.len() {
            assert(s[x] == t);
        }
    }
    if s.contains(t) {
        let x = choose|x: int| 0 <= x < s.len() && s[x] == t;
        assert(s.push(a)[x] == t);
    }
    if t == a {
        assert(s.push(a)[s.len() as int] == t);
    }
}

/// Keeps the first of each run of equal strings of a sorted list: every
/// string once, in order.
fn dedup_sorted(v: &Vec<String>) -> (r: Vec<String>)
    requires
        is_sorted(views(v@)),
    ensures
        forall|t: Seq<char>| views(r@).contains(t) <==> views(v@).contains(t),
        views(r@).no_duplicates(),
        is_sorted(views(r@)),
{
    let ghost vi = views(v@);
    let mut r: Vec<String> = Vec::new();
    for i in 0..v.len()
        invariant
            vi == views(v@),
            is_sorted(vi),
            forall|t: Seq<char>| #[trigger]
                views(r@).contains(t) <==> vi.take(i as int).contains(t),
            views(r@).no_duplicates(),
            is_sorted(views(r@)),
            i > 0 ==> r@.len() > 0 && r@.last()@ == vi[i - 1],
    {
        assert(vi.take(i + 1) =~= vi.take(i as int).push(vi[i as int]));
        let ghost prev = r@;
        if r.len() > 0 && r[r.len() - 1] == v[i] {
            assert forall|t: Seq<char>| #[trigger]
                views(r@).contains(t) <==> vi.take(i + 1).contains(t) by {
                lemma_push_contains(vi.take(i as int), vi[i as int], t);
                if t == vi[i as int] {
                    assert(views(r@)[r@.len() - 1] == t);
                }
            }
        } else {
            r.push(v[i].clone());
            proof {
                assert(views(r@) =~= views(prev).push(vi[i as int]));
                assert forall|x: int| 0 <= x < prev.len() implies str_le(
                    #[trigger] views(prev)[x],
                    vi[i as int],
                ) && views(prev)[x] != vi[i as int] by {
                    assert(views(prev).contains(views(prev)[x]));
                    let a = vi.take(i as int);
                    assert(a.contains(views(prev)[x]));
                    let k = choose|k: int| 0 <= k < a.len() && a[k] == views(prev)[x];
                    assert(vi[k] == views(prev)[x]);
                    assert(str_le(vi[k], vi[i as int]));
                    if views(prev)[x] == vi[i as int] {
                        if k < i - 1 {
                            assert(str_le(vi[k], vi[i - 1]));
                        }
                        assert(str_le(vi[i - 1], vi[i as int]));
                        lemma_str_le_antisymmetric(vi[k], vi[i - 1]);
                        assert(prev.last()@ == vi[i - 1]);
                        assert(views(prev)[prev.len() - 1] == prev.last()@);
                    }
                }
                assert forall|x: int, y: int| 0 <= x < y < views(r@).len() implies #[trigger] views(r@)[x]
                    != #[trigger] views(r@)[y] by {
                    if y < prev.len() {
                        assert(views(r@)[x] == views(prev)[x]);
                        assert(views(r@)[y] == views(prev)[y]);
                    } else {
                        assert(views(r@)[x] == views(prev)[x]);
                    }
                }
                assert forall|x: int, y: int| 0 <= x < y < views(r@).len() implies str_le(
                    #[trigger] views(r@)[x],
                    #[trigger] views(r@)[y],
                ) by {
                    if y < prev.len() {
                        assert(views(r@)[x] == views(prev)[x]);
                        assert(views(r@)[y] == views(prev)[y]);
                    } else {
                        assert(views(r@)[x] == views(prev)[x]);
                    }
                }
                assert forall|t: Seq<char>| #[trigger]
                    views(r@).contains(t) <==> vi.take(i + 1).contains(t) by {
                    lemma_push_contains(vi.take(i as int), vi[i as int], t);
                    lemma_push_contains(views(prev), vi[i as int], t);
                }
            }
        }
    }
    assert(vi.take(v@.len() as int) =~= vi);
    r
}


/// What came of reading and parsing one yaml file.
#[derive(Debug, Clone, PartialEq)]
pub enum ReadOutcome<T> {
    /// The file was read and parsed.
    Parsed(T),
    /// The file was read, but did not parse: the parser's message.
    ParseFailed(String),
    /// The file could not be read: the reader's message.
    ReadFailed(String),
}

/// The message of a file that did not parse.
pub open spec fn parse_failure(path: Seq<char>, e: Seq<char>) -> Seq<char> {
    "Failed to parse "@ + path + ": "@ + e
}

/// The message of a file that could not be read.
pub open spec fn read_failure(path: Seq<char>, e: Seq<char>) -> Seq<char> {
    "Failed to read "@ + path + ": "@ + e
}

fn failure(prefix: &str, path: &str, e: &str) -> (r: String)
    ensures
        r@ == prefix@ + path@ + ": "@ + e@,
{
    let mut r = concat(prefix, path);
    r.append(": ");
    r.append(e);
    r
}

/// The world item of the song file at `path` (as displayed): the song when
/// it parsed, otherwise an error that names the file and what went wrong.
pub fn song_item_of(path: &str, outcome: ReadOutcome<Song>) -> (r: WorldItem)
    ensures
        match outcome {
            ReadOutcome::Parsed(song) => r matches WorldItem::Song(b) && *b == song,
            ReadOutcome::ParseFailed(e) => r matches WorldItem::Error(m) && m@ == parse_failure(path@, e@),
            ReadOutcome::ReadFailed(e) => r matches WorldItem::Error(m) && m@ == read_failure(path@, e@),
        },
{
    match outcome {
        ReadOutcome::Parsed(song) => WorldItem::Song(Box::new(song)),
        ReadOutcome::ParseFailed(e) => WorldItem::Error(failure("Failed to parse ", path, e.as_str())),
        ReadOutcome::ReadFailed(e) => WorldItem::Error(failure("Failed to read ", path, e.as_str())),
    }
}

/// The book item of the book file at `path` (as displayed): the book when it
/// parsed, otherwise an error that names the file and what went wrong.
pub fn book_item_of(path: &str, outcome: ReadOutcome<Book>) -> (r: BookItem)
    ensures
        match outcome {
            ReadOutcome::Parsed(book) => r matches BookItem::Book(b) && *b == book,
            ReadOutcome::ParseFailed(e) => r matches BookItem::Error(m) && m@ == parse_failure(path@, e@),
            ReadOutcome::ReadFailed(e) => r matches BookItem::Error(m) && m@ == read_failure(path@, e@),
        },
{
    match outcome {
        ReadOutcome::Parsed(book) => BookItem::Book(Box::new(book)),
        ReadOutcome::ParseFailed(e) => BookItem::Error(failure("Failed to parse ", path, e.as_str())),
        ReadOutcome::ReadFailed(e) => BookItem::Error(failure("Failed to read ", path, e.as_str())),
    }
}

/// Every song of `a` has a song in `b` with the same tags.
pub open spec fn songs_tags_within(a: Seq<(String, WorldItem)>, b: Seq<(String, WorldItem)>) -> bool {
    forall|i: int|
        0 <= i < a.len() && (#[trigger] a[i]).1 is Song ==> exists|j: int|
            0 <= j < b.len() && (#[trigger] b[j]).1 is Song && b[j].1->Song_0.info.tags == a[i].1->Song_0.info.tags
}

/// Two sorted lists without duplicates that hold the same strings are equal.
pub proof fn lemma_sorted_lists_of_one_set(r1: Seq<Seq<char>>, r2: Seq<Seq<char>>)
    requires
        is_sorted(r1),
        is_sorted(r2),
        r1.no_duplicates(),
        r2.no_duplicates(),
        r1.to_set() == r2.to_set(),
    ensures
        r1 == r2,
    decreases r1.len(),
{
    if r1.len() == 0 {
        if r2.len() > 0 {
            assert(r2.to_set().contains(r2[0]));
            assert(r1.to_set().contains(r2[0]));
        }
        assert(r1 =~= r2);
    } else {
        assert(r1.to_set().contains(r1[0]));
        assert(r2.to_set().contains(r1[0]));
        let j = choose|j: int| 0 <= j < r2.len() && r2[j] == r1[0];
        assert(r2.to_set().contains(r2[0]));
        assert(r1.to_set().contains(r2[0]));
        let i = choose|i: int| 0 <= i < r1.len() && r1[i] == r2[0];
        if j > 0 {
            assert(str_le(r2[0], r2[j]));
        }
        if i > 0 {
            assert(str_le(r1[0], r1[i]));
        }
        if j > 0 && i > 0 {
            lemma_str_le_antisymmetric(r1[0], r2[0]);
        }
        assert(r1[0] == r2[0]);
        let a = r1[0];
        let t1 = r1.drop_first();
        let t2 = r2.drop_first();
        assert forall|x: Seq<char>| t1.to_set().contains(x) <==> t2.to_set().contains(x) by {
            if t1.to_set().contains(x) {
                let k = choose|k: int| 0 <= k < t1.len() && t1[k] == x;
                assert(r1[k + 1] == x);
                assert(x != a);
                assert(r1.to_set().contains(x));
                let m = choose|m: int| 0 <= m < r2.len() && r2[m] == x;
                assert(m != 0);
                assert(t2[m - 1] == x);
            }
            if t2.to_set().contains(x) {
                let k = choose|k: int| 0 <= k < t2.len() && t2[k] == x;
                assert(r2[k + 1] == x);
                assert(x != a);
                assert(r2.to_set().contains(x));
                let m = choose|m: int| 0 <= m < r1.len() && r1[m] == x;
                assert(m != 0);
                assert(t1[m - 1] == x);
            }
        }
        assert(t1.to_set() =~= t2.to_set());
        assert forall|p: int, q: int| 0 <= p < q < t1.len() implies str_le(#[trigger] t1[p], #[trigger] t1[q]) by {
            assert(str_le(r1[p + 1], r1[q + 1]));
        }
        assert forall|p: int, q: int| 0 <= p < q < t2.len() implies str_le(#[trigger] t2[p], #[trigger] t2[q]) by {
            assert(str_le(r2[p + 1], r2[q + 1]));
        }
        assert forall|p: int, q: int| 0 <= p < t1.len() && 0 <= q < t1.len() && p != q implies t1[p] != t1[q] by {
            assert(r1[p + 1] != r1[q + 1]);
        }
        assert forall|p: int, q: int| 0 <= p < t2.len() && 0 <= q < t2.len() && p != q implies t2[p] != t2[q] by {
            assert(r2[p + 1] != r2[q + 1]);
        }
        lemma_sorted_lists_of_one_set(t1, t2);
        assert(r1 =~= seq![a] + t1);
        assert(r2 =~= seq![a] + t2);
    }
}

/// Worlds whose songs carry the same tags, in any order and whatever their
/// error items, have the same tags.
proof fn lemma_tags_of_same_songs(a: Seq<(String, WorldItem)>, b: Seq<(String, WorldItem)>)
    requires
        songs_tags_within(a, b),
        songs_tags_within(b, a),
    ensures
        tags_of(a) == tags_of(b),
{
    assert forall|t: Seq<char>| tags_of(a).contains(t) implies tags_of(b).contains(t) by {
        let (i, j) = choose|i: int, j: int|
            0 <= i < a.len() && (#[trigger] a[i]).1 is Song && 0 <= j < a[i].1->Song_0.info.tags.len() && t
                == (#[trigger] a[i].1->Song_0.info.tags[j])@;
        let m = choose|m: int| 0 <= m < b.len() && (#[trigger] b[m]).1 is Song && b[m].1->Song_0.info.tags == a[i].1->Song_0.info.tags;
        assert(t == b[m].1->Song_0.info.tags[j]@);
    }
    assert forall|t: Seq<char>| tags_of(b).contains(t) implies tags_of(a).contains(t) by {
        let (i, j) = choose|i: int, j: int|
            0 <= i < b.len() && (#[trigger] b[i]).1 is Song && 0 <= j < b[i].1->Song_0.info.tags.len() && t
                == (#[trigger] b[i].1->Song_0.info.tags[j])@;
        let m = choose|m: int| 0 <= m < a.len() && (#[trigger] a[m]).1 is Song && a[m].1->Song_0.info.tags == b[i].1->Song_0.info.tags;
        assert(t == a[m].1->Song_0.info.tags[j]@);
    }
    assert(tags_of(a) =~= tags_of(b));
}

/// The tags of a world do not depend on the order of its songs, on its error
/// items or on its books: two worlds whose songs carry the same tags get the
/// same list of tags from `tags_of_world` (`r1` and `r2` being what it gives).
pub proof fn lemma_tags_of_worlds_with_same_songs(
    w1: World,
    w2: World,
    r1: Seq<Seq<char>>,
    r2: Seq<Seq<char>>,
)
    requires
        songs_tags_within(w1.items@, w2.items@),
        songs_tags_within(w2.items@, w1.items@),
        r1.to_set() == tags_of(w1.items@) && r1.no_duplicates() && is_sorted(r1),
        r2.to_set() == tags_of(w2.items@) && r2.no_duplicates() && is_sorted(r2),
    ensures
        r1 == r2,
{
    lemma_tags_of_same_songs(w1.items@, w2.items@);
    lemma_sorted_lists_of_one_set(r1, r2);
}

/// Adding a song to a world adds its tags: the tags of the larger world are
/// those of the smaller and those of the song.
pub proof fn lemma_tags_of_added_song(items: Seq<(String, WorldItem)>, path: String, song: Song)
    ensures
        tags_of(items.push((path, WorldItem::Song(Box::new(song))))) == tags_of(items).union(
            views(song.info.tags@).to_set(),
        ),
{
    let big = items.push((path, WorldItem::Song(Box::new(song))));
    let n = items.len() as int;
    assert forall|t: Seq<char>| tags_of(big).contains(t) <==> tags_of(items).contains(t) || views(song.info.tags@).to_set().contains(t) by {
        if tags_of(big).contains(t) {
            let (i, j) = choose|i: int, j: int|
                0 <= i < big.len() && (#[trigger] big[i]).1 is Song && 0 <= j < big[i].1->Song_0.info.tags.len() && t
                    == (#[trigger] big[i].1->Song_0.info.tags[j])@;
            if i < n {
                assert(items[i] == big[i]);
            } else {
                assert(views(song.info.tags@)[j] == t);
            }
        }
        if tags_of(items).contains(t) {
            let (i, j) = choose|i: int, j: int|
                0 <= i < items.len() && (#[trigger] items[i]).1 is Song && 0 <= j < items[i].1->Song_0.info.tags.len() && t
                    == (#[trigger] items[i].1->Song_0.info.tags[j])@;
            assert(big[i] == items[i]);
        }
        if views(song.info.tags@).to_set().contains(t) {
            let j = choose|j: int| 0 <= j < views(song.info.tags@).len() && views(song.info.tags@)[j] == t;
            assert(big[n].1->Song_0.info.tags[j]@ == t);
        }
    }
    assert(tags_of(big) =~= tags_of(items).union(views(song.info.tags@).to_set()));
}

} // verus!
