use band_songbook::model::{
    Book, BookItem, Song, SongFiles, SongInfo, SongMeta, World, WorldItem,
};
use band_songbook::world::{book_item_of, song_item_of, tags_of_world, ReadOutcome};

fn song(author: &str, title: &str, tags: &[&str]) -> Song {
    Song {
        files: SongFiles {
            lilypond: vec![],
            tex: vec![],
            mp3: vec![],
            has_clicks: false,
            has_mp3: false,
        },
        info: SongInfo {
            title: title.to_string(),
            author: author.to_string(),
            tempo: 120,
            time_signature: None,
            tags: tags.iter().map(|t| t.to_string()).collect(),
            external_id: None,
        },
        meta: SongMeta::default(),
        structure: vec![],
    }
}

#[test]
fn tags_are_sorted_and_deduplicated_across_songs() {
    let world = World {
        items: vec![
            ("a/song.yml".to_string(), WorldItem::Song(Box::new(song("A", "One", &["rock", "live", "rock"])))),
            ("b/song.yml".to_string(), WorldItem::Error("broken".to_string())),
            ("c/song.yml".to_string(), WorldItem::Song(Box::new(song("C", "Two", &["acoustic", "live"])))),
        ],
        books: vec![],
    };
    assert_eq!(tags_of_world(&world), vec!["acoustic", "live", "rock"]);
}

#[test]
fn tags_order_by_code_point() {
    let world = World {
        items: vec![(
            "a/song.yml".to_string(),
            WorldItem::Song(Box::new(song("A", "One", &["b", "B", "\u{e9}t\u{e9}", "a", "ab"]))),
        )],
        books: vec![],
    };
    assert_eq!(tags_of_world(&world), vec!["B", "a", "ab", "b", "\u{e9}t\u{e9}"]);
}

#[test]
fn tags_of_empty_world_are_empty() {
    let world = World { items: vec![], books: vec![] };
    assert!(tags_of_world(&world).is_empty());
}

#[test]
fn song_item_reports_parse_and_read_failures() {
    match song_item_of("x/song.yml", ReadOutcome::ParseFailed("bad yaml".to_string())) {
        WorldItem::Error(m) => assert_eq!(m, "Failed to parse x/song.yml: bad yaml"),
        WorldItem::Song(_) => panic!("expected an error"),
    }
    match song_item_of("x/song.yml", ReadOutcome::ReadFailed("no such file".to_string())) {
        WorldItem::Error(m) => assert_eq!(m, "Failed to read x/song.yml: no such file"),
        WorldItem::Song(_) => panic!("expected an error"),
    }
    let s = song("A", "B", &[]);
    match song_item_of("x/song.yml", ReadOutcome::Parsed(s.clone())) {
        WorldItem::Song(b) => assert_eq!(*b, s),
        WorldItem::Error(m) => panic!("unexpected error {m}"),
    }
}

#[test]
fn book_item_reports_failures_and_keeps_books() {
    match book_item_of("b.yml", ReadOutcome::ParseFailed("oops".to_string())) {
        BookItem::Error(m) => assert_eq!(m, "Failed to parse b.yml: oops"),
        BookItem::Book(_) => panic!("expected an error"),
    }
    match book_item_of("b.yml", ReadOutcome::ReadFailed("gone".to_string())) {
        BookItem::Error(m) => assert_eq!(m, "Failed to read b.yml: gone"),
        BookItem::Book(_) => panic!("expected an error"),
    }
    let b = Book { name: "N".to_string(), tags: vec![], songs: vec!["a--@--b".to_string()] };
    match book_item_of("b.yml", ReadOutcome::Parsed(b.clone())) {
        BookItem::Book(x) => assert_eq!(*x, b),
        BookItem::Error(m) => panic!("unexpected error {m}"),
    }
}

#[test]
fn tags_ignore_order_errors_and_books_and_grow_with_songs() {
    let a = ("a/song.yml".to_string(), WorldItem::Song(Box::new(song("A", "One", &["rock", "live"]))));
    let b = ("b/song.yml".to_string(), WorldItem::Song(Box::new(song("B", "Two", &["folk"]))));
    let w1 = World { items: vec![a.clone(), b.clone()], books: vec![] };
    let w2 = World {
        items: vec![b.clone(), ("x/song.yml".to_string(), WorldItem::Error("bad".to_string())), a.clone()],
        books: vec![("k.yml".to_string(), BookItem::Error("bad".to_string()))],
    };
    assert_eq!(tags_of_world(&w1), tags_of_world(&w2));
    let c = ("c/song.yml".to_string(), WorldItem::Song(Box::new(song("C", "Three", &["jazz", "rock"]))));
    let w3 = World { items: vec![a, b, c], books: vec![] };
    assert_eq!(tags_of_world(&w3), vec!["folk", "jazz", "live", "rock"]);
}
