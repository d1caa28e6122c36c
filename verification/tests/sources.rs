use band_songbook::sources::{
    classify_included, contains_str, declared_ly_name, declared_ly_paths, get_lilypond_files,
    has_ly_extension, merge_declared_ly, render_ly_paths, render_stem, render_targets,
    str_ends_with, RenderTarget,
};

fn strings(v: &[&str]) -> Vec<String> {
    v.iter().map(|s| s.to_string()).collect()
}

#[test]
fn ends_with_compares_the_tail() {
    assert!(str_ends_with("song.mp3", ".mp3"));
    assert!(!str_ends_with("mp3", ".mp3"));
    assert!(str_ends_with("abc", ""));
    assert!(!str_ends_with("song.mp4", ".mp3"));
}

#[test]
fn declared_ly_name_adds_the_extension_once() {
    assert_eq!(declared_ly_name("intro"), "intro.ly");
    assert_eq!(declared_ly_name("intro.ly"), "intro.ly");
}

#[test]
fn declared_ly_paths_are_below_the_song() {
    let paths = declared_ly_paths("A/B", &strings(&["intro", "outro.ly"]));
    assert_eq!(paths, vec!["A/B/intro.ly", "A/B/outro.ly"]);
}

#[test]
fn contains_str_finds_equal_strings_only() {
    let v = strings(&["a.ly", "b.ly"]);
    assert!(contains_str(&v, "b.ly"));
    assert!(!contains_str(&v, "b"));
    assert!(!contains_str(&vec![], "a.ly"));
}

#[test]
fn merge_keeps_existing_new_files_once() {
    let merged = merge_declared_ly(
        strings(&["s/interlude.ly"]),
        &strings(&["s/intro.ly", "s/interlude.ly", "s/missing.ly", "s/intro.ly"]),
        &vec![true, true, false, true],
    );
    assert_eq!(merged, vec!["s/interlude.ly", "s/intro.ly"]);
}

#[test]
fn has_ly_extension_reads_the_file_name() {
    assert!(has_ly_extension("a/b/macros.ly"));
    assert!(!has_ly_extension("a/b/main.tex"));
    assert!(!has_ly_extension("a.ly/b"));
    assert!(!has_ly_extension("a/.ly"));
}

#[test]
fn get_lilypond_files_keeps_the_ly_inputs_in_order() {
    let inputs = strings(&["s/body.tex", "s/interlude.ly", "s/song.tikz", "s/macros.ly"]);
    assert_eq!(get_lilypond_files(&inputs), vec!["s/interlude.ly", "s/macros.ly"]);
    let odd = strings(&["x.ly/", "s/defs.ily", "s/a.lytex"]);
    assert_eq!(get_lilypond_files(&odd), vec!["x.ly/"]);
}

#[test]
fn classify_included_splits_mount_and_dependency() {
    let inputs = strings(&["s/main.tex", "s/defs.ly", "s/score.ly", "s/macros.ly", "s/defs.ly", "s/gone.ly"]);
    let ly_files = strings(&["s/score.ly"]);
    let in_source = vec![true, true, true, false, true, false];
    let in_sandbox = vec![true, true, true, true, true, false];
    let (mount, dep) = classify_included(&inputs, &ly_files, &in_source, &in_sandbox);
    assert_eq!(mount, vec!["s/defs.ly"]);
    assert_eq!(dep, vec!["s/defs.ly", "s/macros.ly"]);
}

#[test]
fn render_stem_strips_the_mp3_suffix() {
    assert_eq!(render_stem("drums.mp3"), "drums");
    assert_eq!(render_stem("drums"), "drums");
    assert_eq!(render_ly_paths("s", &strings(&["drums.mp3", "bass"])), vec!["s/drums.ly", "s/bass.ly"]);
}

#[test]
fn render_targets_skip_missing_sources() {
    let targets = render_targets(
        "A/B",
        &strings(&["drums.mp3", "gone.mp3", "bass"]),
        &vec![true, false, true],
        &strings(&["A/B/bass.ly"]),
    );
    assert_eq!(
        targets,
        vec![
            RenderTarget {
                ly: "A/B/drums.ly".to_string(),
                midi: "A/B/drums.midi".to_string(),
                mp3: "A/B/drums.mp3".to_string(),
                already_mounted: false,
            },
            RenderTarget {
                ly: "A/B/bass.ly".to_string(),
                midi: "A/B/bass.midi".to_string(),
                mp3: "A/B/bass.mp3".to_string(),
                already_mounted: true,
            },
        ]
    );
}

#[test]
fn missing_declared_source_changes_nothing() {
    let with = band_songbook::sources::song_ly_files(
        "s",
        strings(&["s/interlude.ly"]),
        &strings(&["intro", "gone", "interlude"]),
        &vec![true, false, true],
    );
    let without = band_songbook::sources::song_ly_files(
        "s",
        strings(&["s/interlude.ly"]),
        &strings(&["intro", "interlude"]),
        &vec![true, true],
    );
    assert_eq!(with, vec!["s/interlude.ly", "s/intro.ly"]);
    assert_eq!(with, without);
}
