use band_songbook::model::{
    Book, BookItem, ChordsSection, RefSection, SectionItem, Song, SongFiles, SongInfo, SongMeta,
    StructureItem, World, WorldItem,
};
use band_songbook::plan::{
    book_rel_path, books_need_srcdir, first_world_error, known_song_stems, resolve_book,
    song_is_selected, song_plan, BookResolution,
};

fn chords(id: &str) -> StructureItem {
    StructureItem {
        id: id.to_string(),
        item: SectionItem::Chords(ChordsSection {
            title: id.to_string(),
            section_type: "couplet".to_string(),
            section_body: None,
            color: None,
            rows: vec!["Am|G".to_string()],
            drum_sequence: None,
        }),
    }
}

fn song(author: &str, title: &str, has_clicks: bool, structure: Vec<StructureItem>) -> Song {
    Song {
        files: SongFiles { lilypond: vec![], tex: vec![], mp3: vec![], has_clicks, has_mp3: has_clicks },
        info: SongInfo {
            title: title.to_string(),
            author: author.to_string(),
            tempo: 96,
            time_signature: None,
            tags: vec![],
            external_id: None,
        },
        meta: SongMeta::default(),
        structure,
    }
}

#[test]
fn song_plan_lists_sources_and_deliveries() {
    let structure = vec![
        chords("intro"),
        StructureItem { id: "rule".to_string(), item: SectionItem::HRule(50) },
        StructureItem {
            id: "refrain2".to_string(),
            item: SectionItem::Ref(RefSection {
                title: "Refrain".to_string(),
                section_type: None,
                section_body: None,
                color: None,
                link: "intro".to_string(),
            }),
        },
        StructureItem { id: "col".to_string(), item: SectionItem::NewColumn },
    ];
    let s = song("P.J. Harvey", "Dress", false, structure);
    let p = song_plan("PJHarvey/Dress/song.yml", &s);
    assert_eq!(p.dir, "PJHarvey/Dress");
    assert_eq!(p.body_tex, "PJHarvey/Dress/body.tex");
    assert_eq!(p.add_tikz, "PJHarvey/Dress/add.tikz");
    assert_eq!(p.clicks, None);
    assert_eq!(
        p.lyrics_sources,
        vec!["PJHarvey/Dress/lyrics/intro.tex", "PJHarvey/Dress/lyrics/refrain2.tex"]
    );
    assert_eq!(p.pdf, "PJHarvey/Dress/main.pdf");
    assert_eq!(p.stem, "p_j__harvey--@--dress");
    assert_eq!(p.pdf_delivery, "../pdf/p_j__harvey--@--dress.pdf");
    assert_eq!(
        p.lyrics_pdfs,
        vec![
            (
                "PJHarvey/Dress/lyrics/main-1col.pdf".to_string(),
                "../pdf-lyrics-1-column/p_j__harvey--@--dress-lyrics.pdf".to_string()
            ),
            (
                "PJHarvey/Dress/lyrics/main-2col.pdf".to_string(),
                "../pdf-lyrics-2-column/p_j__harvey--@--dress-lyrics.pdf".to_string()
            ),
        ]
    );
    assert_eq!(p.edges.len(), 6);
}

#[test]
fn song_with_clicks_depends_on_its_definition_and_song_yml() {
    let s = song("Test Artist", "Click Song", true, vec![]);
    let p = song_plan("TestArtist/ClickSong/song.yml", &s);
    assert_eq!(
        p.clicks,
        Some((
            "TestArtist/ClickSong/clicks-def.yml".to_string(),
            "TestArtist/ClickSong/clicks.yml".to_string()
        ))
    );
    assert_eq!(
        p.edges[0],
        ("TestArtist/ClickSong/clicks-def.yml".to_string(), "TestArtist/ClickSong/clicks.yml".to_string())
    );
    assert_eq!(
        p.edges[1],
        ("TestArtist/ClickSong/song.yml".to_string(), "TestArtist/ClickSong/clicks.yml".to_string())
    );
}

#[test]
fn song_at_top_level_has_empty_dir() {
    let s = song("A", "B", false, vec![]);
    let p = song_plan("song.yml", &s);
    assert_eq!(p.dir, "");
    assert_eq!(p.pdf, "main.pdf");
}

#[test]
fn first_error_prefers_songs_then_books() {
    let good = WorldItem::Song(Box::new(song("A", "B", false, vec![])));
    let world = World {
        items: vec![
            ("a/song.yml".to_string(), good.clone()),
            ("b/song.yml".to_string(), WorldItem::Error("bad".to_string())),
            ("c/song.yml".to_string(), WorldItem::Error("worse".to_string())),
        ],
        books: vec![("x.yml".to_string(), BookItem::Error("book".to_string()))],
    };
    assert_eq!(first_world_error(&world), Some(("b/song.yml".to_string(), "bad".to_string())));
    let world = World {
        items: vec![("a/song.yml".to_string(), good.clone())],
        books: vec![("x.yml".to_string(), BookItem::Error("book".to_string()))],
    };
    assert_eq!(first_world_error(&world), Some(("x.yml".to_string(), "book".to_string())));
    let world = World { items: vec![("a/song.yml".to_string(), good)], books: vec![] };
    assert_eq!(first_world_error(&world), None);
}

#[test]
fn selection_without_pattern_keeps_every_song() {
    let s = song("P.J. Harvey", "Dress", false, vec![]);
    assert!(song_is_selected(&s.info, None));
    assert!(!song_is_selected(&s.info, Some("madkvex")));
    assert!(song_is_selected(&s.info, Some("dress")));
}

fn book(songs: &[&str]) -> Book {
    Book { name: "Rock Set".to_string(), tags: vec![], songs: songs.iter().map(|s| s.to_string()).collect() }
}

#[test]
fn book_of_built_songs_is_ready() {
    let built = vec!["a--@--x".to_string(), "b--@--y".to_string(), "a--@--x".to_string()];
    let known = built.clone();
    let r = resolve_book(&book(&["b--@--y", "a--@--x"]), &built, &known);
    assert_eq!(r, BookResolution::Ready(vec![1, 2]));
}

#[test]
fn book_with_filtered_song_is_skipped() {
    let built = vec!["a--@--x".to_string()];
    let known = vec!["a--@--x".to_string(), "b--@--y".to_string()];
    let r = resolve_book(&book(&["a--@--x", "b--@--y", "nobody--@--nothing"]), &built, &known);
    assert_eq!(r, BookResolution::FilteredOut("b--@--y".to_string()));
}

#[test]
fn book_with_unknown_song_fails() {
    let built: Vec<String> = vec![];
    let known: Vec<String> = vec![];
    let r = resolve_book(&book(&["nobody--@--nothing"]), &built, &known);
    assert_eq!(r, BookResolution::Unknown("nobody--@--nothing".to_string()));
}

#[test]
fn empty_book_is_ready() {
    let r = resolve_book(&book(&[]), &vec![], &vec![]);
    assert_eq!(r, BookResolution::Ready(vec![]));
}

#[test]
fn known_stems_skip_errors() {
    let world = World {
        items: vec![
            ("a/song.yml".to_string(), WorldItem::Song(Box::new(song("Mademoiselle K", "Ca me vexe", false, vec![])))),
            ("b/song.yml".to_string(), WorldItem::Error("bad".to_string())),
            ("c/song.yml".to_string(), WorldItem::Song(Box::new(song("P.J. Harvey", "Dress", false, vec![])))),
        ],
        books: vec![],
    };
    assert_eq!(
        known_song_stems(&world),
        vec!["mademoiselle_k--@--ca_me_vexe", "p_j__harvey--@--dress"]
    );
}

#[test]
fn books_live_under_books_dir() {
    assert_eq!(book_rel_path("test-book.yml"), "books/test-book.yml");
}

#[test]
fn books_need_a_source_directory() {
    let world = World {
        items: vec![],
        books: vec![("x.yml".to_string(), BookItem::Book(Box::new(book(&[]))))],
    };
    assert!(books_need_srcdir(&world, false));
    assert!(!books_need_srcdir(&world, true));
    let world = World { items: vec![], books: vec![] };
    assert!(!books_need_srcdir(&world, false));
}

#[test]
fn selected_songs_follow_the_pattern_in_order() {
    let world = World {
        items: vec![
            ("a/song.yml".to_string(), WorldItem::Song(Box::new(song("Mademoiselle K", "Ca me vexe", false, vec![])))),
            ("b/song.yml".to_string(), WorldItem::Error("broken".to_string())),
            ("c/song.yml".to_string(), WorldItem::Song(Box::new(song("P.J. Harvey", "Dress", false, vec![])))),
        ],
        books: vec![],
    };
    assert_eq!(band_songbook::plan::selected_songs(&world, Some("madkvex")), vec![0]);
    assert_eq!(band_songbook::plan::selected_songs(&world, Some("HARVEY")), vec![2]);
    assert_eq!(band_songbook::plan::selected_songs(&world, None), vec![0, 2]);
    assert!(band_songbook::plan::selected_songs(&world, Some("zzz")).is_empty());
}

fn world_of(songs: Vec<Song>, books: Vec<(&str, BookItem)>) -> World {
    World {
        items: songs
            .into_iter()
            .enumerate()
            .map(|(i, s)| (format!("s{i}/song.yml"), WorldItem::Song(Box::new(s))))
            .collect(),
        books: books.into_iter().map(|(f, b)| (f.to_string(), b)).collect(),
    }
}

#[test]
fn plan_world_builds_selected_songs_and_ready_books() {
    let world = world_of(
        vec![song("Mademoiselle K", "Ca me vexe", false, vec![]), song("P.J. Harvey", "Dress", false, vec![])],
        vec![
            ("both.yml", BookItem::Book(Box::new(book(&["mademoiselle_k--@--ca_me_vexe", "p_j__harvey--@--dress"])))),
            ("vexe.yml", BookItem::Book(Box::new(book(&["mademoiselle_k--@--ca_me_vexe"])))),
        ],
    );
    let plan = band_songbook::plan::plan_world(&world, Some("madkvex"), true, &vec![None, None]).unwrap();
    assert_eq!(plan.songs, vec![0]);
    assert_eq!(plan.song_plans.len(), 1);
    assert_eq!(plan.song_plans[0].pdf, "s0/main.pdf");
    assert_eq!(
        plan.books,
        vec![band_songbook::plan::BookPlan { rel_path: "books/vexe.yml".to_string(), songs: vec![0] }]
    );
    let without = world_of(
        vec![song("Mademoiselle K", "Ca me vexe", false, vec![]), song("P.J. Harvey", "Dress", false, vec![])],
        vec![("vexe.yml", BookItem::Book(Box::new(book(&["mademoiselle_k--@--ca_me_vexe"]))))],
    );
    assert_eq!(band_songbook::plan::plan_world(&without, Some("madkvex"), true, &vec![None, None]), Ok(plan));
}

#[test]
fn plan_world_failures() {
    let w = world_of(vec![song("A", "B", false, vec![])], vec![("x.yml", BookItem::Book(Box::new(book(&["nobody--@--nothing"]))))]);
    assert_eq!(
        band_songbook::plan::plan_world(&w, None, true, &vec![None]),
        Err("books/x.yml: no song named 'nobody--@--nothing'".to_string())
    );
    assert_eq!(
        band_songbook::plan::plan_world(&w, None, false, &vec![None]),
        Err("the world has books but no books source directory was given".to_string())
    );
    let mut broken = world_of(vec![song("A", "B", false, vec![])], vec![]);
    broken.items.push(("bad/song.yml".to_string(), WorldItem::Error("boom".to_string())));
    assert_eq!(band_songbook::plan::plan_world(&broken, None, false, &vec![None, None]), Err("bad/song.yml: boom".to_string()));
    let empty = world_of(vec![], vec![]);
    assert_eq!(
        band_songbook::plan::plan_world(&empty, None, false, &vec![]).unwrap().songs,
        Vec::<usize>::new()
    );
}

#[test]
fn plan_world_fails_on_a_click_definition_that_did_not_load() {
    let w = world_of(
        vec![song("A", "One", true, vec![]), song("B", "Two", true, vec![]), song("C", "Three", false, vec![])],
        vec![("x.yml", BookItem::Book(Box::new(book(&["nobody--@--nothing"]))))],
    );
    let errs = vec![None, Some("bad clicks-def".to_string()), Some("ignored".to_string())];
    assert_eq!(band_songbook::plan::plan_world(&w, None, false, &errs), Err("bad clicks-def".to_string()));
    assert_eq!(
        band_songbook::plan::plan_world(&w, Some("one"), false, &errs),
        Err("the world has books but no books source directory was given".to_string())
    );
    let p = band_songbook::plan::plan_world(&w, Some("three"), true, &errs);
    assert_eq!(p, Err("books/x.yml: no song named 'nobody--@--nothing'".to_string()));
}
