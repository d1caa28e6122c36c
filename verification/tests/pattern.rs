use band_songbook::model::SongInfo;
use band_songbook::pattern::{chars_of, fuzzy_match, song_matches_pattern};

fn info(author: &str, title: &str) -> SongInfo {
    SongInfo {
        title: title.to_string(),
        author: author.to_string(),
        tempo: 100,
        time_signature: None,
        tags: vec![],
        external_id: None,
    }
}

#[test]
fn fuzzy_match_finds_scattered_subsequence() {
    assert!(fuzzy_match("mademoiselle k ca me vexe", "madkvex"));
    assert!(fuzzy_match("abc", "ac"));
    assert!(fuzzy_match("abc", ""));
    assert!(fuzzy_match("", ""));
}

#[test]
fn fuzzy_match_rejects_out_of_order_or_missing() {
    assert!(!fuzzy_match("abc", "ca"));
    assert!(!fuzzy_match("abc", "abcd"));
    assert!(!fuzzy_match("", "a"));
    assert!(!fuzzy_match("aab", "abb"));
}

#[test]
fn pattern_matches_author_then_title_ignoring_case() {
    let vexe = info("Mademoiselle K", "Ca me vexe");
    let dress = info("P.J. Harvey", "Dress");
    assert!(song_matches_pattern(&vexe, "madkvex"));
    assert!(!song_matches_pattern(&dress, "madkvex"));
    assert!(song_matches_pattern(&dress, "PJDRESS"));
    assert!(song_matches_pattern(&dress, "harvey dress"));
    assert!(!song_matches_pattern(&dress, "dress harvey"));
}

#[test]
fn chars_of_keeps_every_character() {
    assert_eq!(chars_of("\u{e9}a b"), vec!['\u{e9}', 'a', ' ', 'b']);
}

#[test]
fn empty_pattern_and_wider_text_still_match() {
    assert!(band_songbook::pattern::fuzzy_match("", ""));
    assert!(band_songbook::pattern::fuzzy_match("anything", ""));
    assert!(band_songbook::pattern::fuzzy_match("dress", "dress"));
    assert!(band_songbook::pattern::fuzzy_match("pj harvey dress live", "dress"));
    assert!(!band_songbook::pattern::fuzzy_match("", "a"));
}
