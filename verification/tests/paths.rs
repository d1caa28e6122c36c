use band_songbook::paths::{
    last_position_of, path_extension, path_file_stem, path_join, path_parent,
    path_with_extension, string_of_range,
};

#[test]
fn join_puts_one_slash_between() {
    assert_eq!(path_join("a/b", "c.ly"), "a/b/c.ly");
    assert_eq!(path_join("a/b/", "c.ly"), "a/b/c.ly");
    assert_eq!(path_join("", "c.ly"), "c.ly");
}

#[test]
fn parent_is_what_precedes_the_last_slash() {
    assert_eq!(path_parent("PJHarvey/Dress/song.yml"), "PJHarvey/Dress");
    assert_eq!(path_parent("song.yml"), "");
    assert_eq!(path_parent(""), "");
}

#[test]
fn extension_and_stem_of_the_file_name() {
    assert_eq!(path_extension("a/interlude.ly"), Some("ly".to_string()));
    assert_eq!(path_extension("a.b/c"), None);
    assert_eq!(path_extension("a/.hidden"), None);
    assert_eq!(path_extension("a/x.tar.gz"), Some("gz".to_string()));
    assert_eq!(path_file_stem("a/interlude.ly"), Some("interlude".to_string()));
    assert_eq!(path_file_stem("a/x.tar.gz"), Some("x.tar".to_string()));
    assert_eq!(path_file_stem("a/.hidden"), Some(".hidden".to_string()));
    assert_eq!(path_file_stem("a/README"), Some("README".to_string()));
}

#[test]
fn with_extension_replaces_or_adds() {
    assert_eq!(path_with_extension("s/interlude.ly", "lytex"), "s/interlude.lytex");
    assert_eq!(path_with_extension("s/interlude.ly", "pdf"), "s/interlude.pdf");
    assert_eq!(path_with_extension("s/README", "txt"), "s/README.txt");
}

#[test]
fn last_position_and_ranges_of_chars() {
    let v: Vec<char> = "a/b/c".chars().collect();
    assert_eq!(last_position_of(&v, '/'), Some(3));
    assert_eq!(last_position_of(&v, 'x'), None);
    assert_eq!(string_of_range(&v, 2, 5), "b/c");
}

#[test]
fn paths_read_as_std_reads_them() {
    assert_eq!(path_join("a", "/abs/x.ly"), "/abs/x.ly");
    assert_eq!(path_join("a", "./x.ly"), "a/x.ly");
    assert_eq!(path_join("a//b/", "c/./d"), "a/b/c/d");
    assert_eq!(path_join("a", "../x.ly"), "a/../x.ly");
    assert_eq!(path_parent("/x"), "/");
    assert_eq!(path_parent("/"), "");
    assert_eq!(path_parent("a/"), "");
    assert_eq!(path_parent("./a"), ".");
    assert_eq!(path_parent("a/.."), "a");
    assert_eq!(band_songbook::paths::path_plain("./x.ly"), "./x.ly");
    assert_eq!(band_songbook::paths::path_plain("a/./b//c/"), "a/b/c");
    assert_eq!(band_songbook::paths::path_plain("."), ".");
    assert_eq!(band_songbook::paths::path_plain("/"), "/");
}

#[test]
fn file_names_ignore_a_trailing_slash() {
    assert_eq!(path_extension("x.ly/"), Some("ly".to_string()));
    assert_eq!(path_file_stem("a/x.ly//"), Some("x".to_string()));
    assert_eq!(path_with_extension("s/x.ly/", "lytex"), "s/x.lytex");
    assert_eq!(path_with_extension("s/x.ly", ""), "s/x");
    assert_eq!(path_file_stem("a/.."), None);
    assert_eq!(path_extension("."), None);
    assert_eq!(path_with_extension("a/..", "pdf"), "a/..");
    assert_eq!(path_extension("a/foo."), Some(String::new()));
    assert_eq!(band_songbook::paths::path_file_name("/"), None);
}
