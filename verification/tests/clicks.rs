use band_songbook::model::{ChordsSection, SectionItem, StructureItem};
use band_songbook::numbering::bar_map_of_structure;
use band_songbook::clicks::{
    absolute_beat, interpolation_steps, resolve_bar_number, resolve_bar_numbers,
    tick_index_of_bar, BarMap, ClickAnchor, ClickYml, BEATS_PER_BAR,
};

fn by_bar(n: u32) -> ClickAnchor {
    ClickAnchor { bar_number: Some(n), section_id: None }
}

fn by_section(id: &str) -> ClickAnchor {
    ClickAnchor { bar_number: None, section_id: Some(id.to_string()) }
}

fn chords(id: &str, title: &str, section_type: &str, row: &str) -> StructureItem {
    StructureItem {
        id: id.to_string(),
        item: SectionItem::Chords(ChordsSection {
            title: title.to_string(),
            section_type: section_type.to_string(),
            section_body: None,
            color: None,
            rows: vec![row.to_string()],
            drum_sequence: None,
        }),
    }
}

/// intro: 2 bars (Am|G), couplet1: 4 bars (C|G|Am|F), starting at bar 3.
fn intro_couplet_map() -> BarMap {
    let structure = vec![
        chords("intro", "Intro", "intro", "Am|G"),
        chords("couplet1", "Couplet 1", "couplet", "C|G|Am|F"),
    ];
    bar_map_of_structure(&structure).unwrap()
}

/// The click times of a definition, one per beat from the first click to
/// the last, interpolated linearly between each pair of clicks.
fn interpolate(clicks: &[(u32, u32, f64)]) -> Vec<f64> {
    let positions: Vec<(u32, u32)> = clicks.iter().map(|c| (c.0, c.1)).collect();
    let mut times: Vec<f64> = interpolation_steps(&positions)
        .iter()
        .map(|&(k, i, n)| {
            let from = clicks[k].2;
            let to = clicks[k + 1].2;
            from + (to - from) * (i as f64) / (n as f64)
        })
        .collect();
    if let Some(last) = clicks.last() {
        times.push(last.2);
    }
    times
}

#[test]
fn test_resolve_bar_number() {
    let bars = resolve_bar_numbers(&vec![by_bar(3)], None).unwrap();
    assert_eq!(bars[0], 3);
    assert_eq!(bars.len(), 1);
}

#[test]
fn test_resolve_section_id() {
    let map = intro_couplet_map();
    let bars = resolve_bar_numbers(&vec![by_section("intro"), by_section("couplet1")], Some(&map))
        .unwrap();
    assert_eq!(bars[0], 1); // intro starts at bar 1
    assert_eq!(bars[1], 3); // couplet1 starts at bar 3
}

#[test]
fn test_resolve_section_id_not_found() {
    let map = bar_map_of_structure(&vec![]).unwrap();
    let result = resolve_bar_numbers(&vec![by_section("nonexistent")], Some(&map));
    assert!(result.is_err());
    assert!(result.unwrap_err().contains("nonexistent"));
}

#[test]
fn resolve_section_without_structure_fails() {
    assert_eq!(
        resolve_bar_number(&by_section("intro"), None),
        Err("section_id 'intro' used but no song structure available".to_string())
    );
}

#[test]
fn resolve_section_not_found_message() {
    let map = intro_couplet_map();
    assert_eq!(
        resolve_bar_number(&by_section("outro"), Some(&map)),
        Err("section_id 'outro' not found in song structure".to_string())
    );
}

#[test]
fn resolve_section_without_bars_fails() {
    let map: BarMap = vec![("empty".to_string(), vec![], 1)];
    assert_eq!(
        resolve_bar_number(&by_section("empty"), Some(&map)),
        Err("section 'empty' has no bars".to_string())
    );
}

#[test]
fn resolve_neither_bar_nor_section_fails() {
    let anchor = ClickAnchor { bar_number: None, section_id: None };
    assert_eq!(
        resolve_bar_number(&anchor, None),
        Err("click entry has neither bar_number nor section_id".to_string())
    );
}

#[test]
fn resolve_both_bar_and_section_fails() {
    let anchor = ClickAnchor { bar_number: Some(2), section_id: Some("intro".to_string()) };
    assert_eq!(
        resolve_bar_number(&anchor, Some(&intro_couplet_map())),
        Err("click entry has both bar_number and section_id 'intro'".to_string())
    );
}

#[test]
fn resolve_uses_the_last_entry_of_a_section() {
    let map: BarMap = vec![
        ("verse".to_string(), vec![1, 3], 5),
        ("verse".to_string(), vec![9], 11),
    ];
    assert_eq!(resolve_bar_number(&by_section("verse"), Some(&map)), Ok(9));
}

#[test]
fn resolve_fails_on_the_first_bad_click() {
    let map = intro_couplet_map();
    let anchors = vec![by_bar(1), by_section("bridge"), by_section("solo")];
    assert_eq!(
        resolve_bar_numbers(&anchors, Some(&map)),
        Err("section_id 'bridge' not found in song structure".to_string())
    );
}

#[test]
fn resolve_of_no_clicks_is_empty() {
    assert_eq!(resolve_bar_numbers(&vec![], None), Ok(vec![]));
}

#[test]
fn test_interpolate_two_points() {
    // bar 1 beat 1 (abs=1) at 10s, bar 3 beat 3 (abs=11) at 20s: 10 intervals of 1s
    let result = interpolate(&[(1, 1, 10.0), (3, 3, 20.0)]);
    assert_eq!(result.len(), 11);
    assert!((result[0] - 10.0).abs() < 1e-9);
    assert!((result[2] - 12.0).abs() < 1e-9);
    assert!((result[10] - 20.0).abs() < 1e-9);
}

#[test]
fn test_interpolate_three_points() {
    // bar1:beat1 (abs=1) at 0s, bar1:beat3 (abs=3) at 1s, bar2:beat1 (abs=5) at 3s
    let result = interpolate(&[(1, 1, 0.0), (1, 3, 1.0), (2, 1, 3.0)]);
    assert_eq!(result.len(), 5);
    assert!((result[0] - 0.0).abs() < 1e-9);
    assert!((result[1] - 0.5).abs() < 1e-9);
    assert!((result[2] - 1.0).abs() < 1e-9);
    assert!((result[3] - 2.0).abs() < 1e-9);
    assert!((result[4] - 3.0).abs() < 1e-9);
}

#[test]
fn test_interpolate_empty() {
    assert!(interpolate(&[]).is_empty());
}

#[test]
fn test_interpolate_single() {
    let result = interpolate(&[(1, 1, 0.0)]);
    assert_eq!(result.len(), 1);
    assert!((result[0] - 0.0).abs() < 1e-9);
}

#[test]
fn interpolation_steps_name_each_beat() {
    let steps = interpolation_steps(&vec![(1, 1), (1, 3), (2, 1)]);
    assert_eq!(steps, vec![(0, 0, 2), (0, 1, 2), (1, 0, 2), (1, 1, 2)]);
}

#[test]
fn interpolation_steps_skip_equal_beats() {
    let steps = interpolation_steps(&vec![(2, 1), (2, 1), (2, 2)]);
    assert_eq!(steps, vec![(1, 0, 1)]);
}

#[test]
fn absolute_beat_counts_four_to_a_bar() {
    assert_eq!(absolute_beat(1, 1), 1);
    assert_eq!(absolute_beat(3, 3), 11);
    assert_eq!(BEATS_PER_BAR, 4);
}

#[test]
fn test_time_of_bar_with_clicks() {
    // 8 ticks = 2 bars of 4 ticks each
    let clicks: Vec<f64> = vec![0.0, 0.428, 0.857, 1.285, 1.714, 2.142, 2.571, 3.0];
    assert!((clicks[tick_index_of_bar(1)] - 0.0).abs() < 1e-9);
    assert!((clicks[tick_index_of_bar(2)] - 1.714).abs() < 1e-9);
}

#[test]
fn click_yml_keeps_its_path() {
    let node = ClickYml::new("artist/song/clicks.yml".to_string());
    assert_eq!(node.path, "artist/song/clicks.yml");
}

#[test]
fn beats_in_order_check() {
    assert!(band_songbook::clicks::beats_are_in_order(&vec![(1, 1), (1, 3), (2, 1)]));
    assert!(band_songbook::clicks::beats_are_in_order(&vec![(2, 1), (2, 1)]));
    assert!(!band_songbook::clicks::beats_are_in_order(&vec![(2, 1), (1, 4)]));
    assert!(!band_songbook::clicks::beats_are_in_order(&vec![(0, 1)]));
    assert!(!band_songbook::clicks::beats_are_in_order(&vec![(1073741825, 1)]));
    assert!(band_songbook::clicks::beats_are_in_order(&vec![]));
}

#[test]
fn section_anchors_need_the_song() {
    assert!(!band_songbook::clicks::needs_song_structure(&vec![by_bar(1), by_bar(2)]));
    assert!(band_songbook::clicks::needs_song_structure(&vec![by_bar(1), by_section("intro")]));
    assert!(!band_songbook::clicks::needs_song_structure(&vec![]));
}

#[test]
fn section_anchor_resolves_where_the_previous_section_ends() {
    let structure = vec![
        chords("intro", "Intro", "intro", "Am|G|x2"),
        chords("verse", "Verse", "couplet", "C|G|Am|F"),
    ];
    let map = bar_map_of_structure(&structure).unwrap();
    assert_eq!(map[0].2, 5);
    assert_eq!(resolve_bar_number(&by_section("verse"), Some(&map)), Ok(5));
}
