use band_songbook::model::{
    default_beat_in_bar_number, normalize_name, Book, SongInfo,
};

fn stem(author: &str, title: &str) -> String {
    SongInfo {
        title: title.to_string(),
        author: author.to_string(),
        tempo: 120,
        time_signature: None,
        tags: vec![],
        external_id: None,
    }
    .file_stem_of_song()
}

#[test]
fn test_file_stem_folds_accents_to_ascii() {
    assert_eq!(stem("Noir D\u{e9}sir", "Marl\u{e8}ne"), "noir_desir--@--marlene");
    assert_eq!(
        stem("Axel Bauer", "Eteins La Lumi\u{e8}re"),
        "axel_bauer--@--eteins_la_lumiere"
    );
    assert_eq!(stem("Mot\u{f6}rhead", "\u{c7}a Ira"), "motorhead--@--ca_ira");
}

#[test]
fn test_file_stem_keeps_ascii_behaviour() {
    assert_eq!(
        stem("Oasis", "Rock 'N Roll Star"),
        "oasis--@--rock__n_roll_star"
    );
    assert_eq!(stem("Maroon5", "This Love"), "maroon5--@--this_love");
}

#[test]
fn normalize_name_folds_ligatures_to_two_letters() {
    assert_eq!(normalize_name("\u{c6}sop \u{152}uvre Stra\u{df}e \u{de}orn"), "aesop_oeuvre_strasse_thorn");
}

#[test]
fn normalize_name_keeps_only_file_name_chars() {
    let n = normalize_name("A/B\\C: d\u{e9}j\u{e0} vu? 100%!");
    assert_eq!(n, "a_b_c__deja_vu__100__");
    assert!(n.chars().all(|c| c.is_ascii_lowercase() || c.is_ascii_digit() || c == '_'));
}

#[test]
fn normalize_name_of_empty_is_empty() {
    assert_eq!(normalize_name(""), "");
}

#[test]
fn book_stem_is_prefixed_and_normalized() {
    let book = Book {
        name: "Test Book".to_string(),
        tags: vec!["test".to_string(), "rock".to_string()],
        songs: vec![],
    };
    assert_eq!(book.file_stem_of_book(), "book-test_book");
}

#[test]
fn default_beat_is_the_first() {
    assert_eq!(default_beat_in_bar_number(), 1);
}

#[test]
fn normalizing_twice_is_normalizing_once() {
    for s in ["Noir D\u{e9}sir", "Rock 'N Roll Star", "\u{c6}sop", "already_fine_42", ""] {
        let once = normalize_name(s);
        assert_eq!(normalize_name(&once), once);
    }
}
