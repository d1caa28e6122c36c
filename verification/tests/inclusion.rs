use band_songbook::inclusion::{target_of, targets_in, InclusionScan};

fn line(s: &str) -> Vec<char> {
    s.chars().collect()
}

fn strings(v: &[&str]) -> Vec<String> {
    v.iter().map(|s| s.to_string()).collect()
}

#[test]
fn target_is_between_the_first_two_quotes() {
    assert_eq!(target_of(&line("\\include \"defs.ly\"")), Some("defs.ly".to_string()));
    assert_eq!(target_of(&line("  x \\include \"a.ly\" \"b.ly\"")), Some("a.ly".to_string()));
}

#[test]
fn comment_lines_pull_in_nothing() {
    assert_eq!(target_of(&line("% \\include \"defs.ly\"")), None);
    assert_eq!(target_of(&line("   \t% \\include \"defs.ly\"")), None);
}

#[test]
fn lines_without_a_full_directive_pull_in_nothing() {
    assert_eq!(target_of(&line("\\include defs.ly")), None);
    assert_eq!(target_of(&line("\\include \"defs.ly")), None);
    assert_eq!(target_of(&line("\"defs.ly\"")), None);
    assert_eq!(target_of(&line("")), None);
}

#[test]
fn targets_in_follow_the_lines() {
    let content = "\\version \"2.24\"\n\\include \"macros.ly\"\n% \\include \"old.ly\"\n\\include \"parts/drums.ly\"\n";
    assert_eq!(targets_in(content), vec!["macros.ly", "parts/drums.ly"]);
    assert_eq!(targets_in("\\include \"last.ly\""), vec!["last.ly"]);
    assert!(targets_in("").is_empty());
}

#[test]
fn scan_follows_pulled_in_files_once() {
    let mut scan = InclusionScan::new(&strings(&["s/score.ly"]));
    let first = scan.next_unseen();
    assert_eq!(first, Some("s/score.ly".to_string()));
    scan.feed("s/score.ly", "\\include \"defs.ly\"\n\\include \"parts/drums.ly\"\n\\include \"defs.ly\"\n");
    assert_eq!(scan.found, vec!["s/defs.ly", "s/parts/drums.ly"]);
    assert_eq!(scan.queue, vec!["s/defs.ly", "s/parts/drums.ly", "s/defs.ly"]);

    assert_eq!(scan.next_unseen(), Some("s/defs.ly".to_string()));
    scan.feed("s/defs.ly", "");
    assert_eq!(scan.next_unseen(), Some("s/parts/drums.ly".to_string()));
    scan.feed("s/parts/drums.ly", "\\include \"../defs.ly\"\n");
    assert_eq!(scan.found, vec!["s/defs.ly", "s/parts/drums.ly", "s/parts/../defs.ly"]);
    assert_eq!(scan.next_unseen(), Some("s/parts/../defs.ly".to_string()));
    assert_eq!(scan.next_unseen(), None);
    assert!(scan.queue.is_empty());
}

#[test]
fn scan_visits_the_last_queued_file_first() {
    let mut scan = InclusionScan::new(&strings(&["a.ly", "b.ly", "a.ly"]));
    assert_eq!(scan.next_unseen(), Some("a.ly".to_string()));
    assert_eq!(scan.next_unseen(), Some("b.ly".to_string()));
    assert_eq!(scan.next_unseen(), None);
    assert_eq!(scan.seen, vec!["a.ly", "b.ly"]);
}
