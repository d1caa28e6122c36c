use band_songbook::clicks::BarMap;
use band_songbook::model::{
    ChordsSection, RefSection, SectionItem, Song, SongFiles, SongInfo, SongMeta, StructureItem,
};
use band_songbook::songyml::{
    bar_range_of, default_section_color, lyrics_inputs, resolve_ref_colors, sections_of, SongYml,
};

fn song() -> Song {
    Song {
        files: SongFiles { lilypond: vec![], tex: vec![], mp3: vec![], has_clicks: false, has_mp3: false },
        info: SongInfo {
            title: "Dress".to_string(),
            author: "P.J. Harvey".to_string(),
            tempo: 96,
            time_signature: None,
            tags: vec![],
            external_id: None,
        },
        meta: SongMeta::default(),
        structure: vec![],
    }
}

fn chords(id: &str, title: &str, section_type: &str, color: Option<&str>) -> StructureItem {
    StructureItem {
        id: id.to_string(),
        item: SectionItem::Chords(ChordsSection {
            title: title.to_string(),
            section_type: section_type.to_string(),
            section_body: None,
            color: color.map(|c| c.to_string()),
            rows: vec!["Am|G".to_string()],
            drum_sequence: None,
        }),
    }
}

fn reference(id: &str, link: &str, section_type: Option<&str>, color: Option<&str>) -> StructureItem {
    StructureItem {
        id: id.to_string(),
        item: SectionItem::Ref(RefSection {
            title: format!("{id} title"),
            section_type: section_type.map(|t| t.to_string()),
            section_body: None,
            color: color.map(|c| c.to_string()),
            link: link.to_string(),
        }),
    }
}

#[test]
fn builders_set_their_field_only() {
    let node = SongYml::new("PJHarvey/Dress/song.yml".to_string(), song());
    assert!(node.drum_patterns_dirs.is_empty());
    assert_eq!(node.srcdir, "");
    let node = node
        .with_drum_patterns_dirs(vec!["drums".to_string()])
        .with_srcdir("/src/songs");
    assert_eq!(node.path, "PJHarvey/Dress/song.yml");
    assert_eq!(node.drum_patterns_dirs, vec!["drums"]);
    assert_eq!(node.srcdir, "/src/songs");
    assert_eq!(node.song.info.title, "Dress");
}

#[test]
fn sources_are_looked_up_in_srcdir_or_the_sandbox() {
    let node = SongYml::new("A/B/song.yml".to_string(), song());
    assert_eq!(node.source_path("/tmp/sandbox", "A/B/intro.ly"), "/tmp/sandbox/A/B/intro.ly");
    let node = node.with_srcdir("/src");
    assert_eq!(node.source_path("/tmp/sandbox", "A/B/intro.ly"), "/src/A/B/intro.ly");
}

#[test]
fn refs_inherit_the_color_of_their_chords() {
    let structure = vec![
        chords("intro", "Intro", "intro", Some("yellow!20")),
        chords("verse", "Verse", "couplet", None),
        reference("intro2", "intro", None, None),
        reference("verse2", "verse", None, None),
        reference("intro3", "intro", None, Some("red")),
    ];
    let out = resolve_ref_colors(structure.clone()).unwrap();
    assert_eq!(out.len(), 5);
    assert_eq!(out[0], structure[0]);
    assert_eq!(out[1], structure[1]);
    let color = |i: usize| match &out[i].item {
        SectionItem::Ref(r) => r.color.clone(),
        _ => None,
    };
    assert_eq!(color(2), Some("yellow!20".to_string()));
    assert_eq!(color(3), Some(String::new()));
    assert_eq!(color(4), Some("red".to_string()));
}

#[test]
fn dangling_ref_fails_with_its_message() {
    let structure = vec![
        chords("intro", "Intro", "intro", None),
        reference("solo", "bridge", None, None),
        reference("outro", "nowhere", None, None),
    ];
    assert_eq!(
        resolve_ref_colors(structure),
        Err("Ref 'solo' links to 'bridge' but no Chords item with that id exists".to_string())
    );
}

#[test]
fn ref_to_a_ref_dangles() {
    let structure = vec![
        chords("intro", "Intro", "intro", None),
        reference("a", "intro", None, None),
        reference("b", "a", None, None),
    ];
    assert!(resolve_ref_colors(structure).is_err());
}

#[test]
fn default_colors_of_section_types() {
    assert_eq!(default_section_color("intro"), "yellow!20");
    assert_eq!(default_section_color("couplet"), "green!20");
    assert_eq!(default_section_color("coupletb"), "green!10");
    assert_eq!(default_section_color("refrain"), "blue!20");
    assert_eq!(default_section_color("pont"), "orange!20");
    assert_eq!(default_section_color("outro"), "red!20");
    assert_eq!(default_section_color("solo"), "gray!20");
}

#[test]
fn sections_hold_each_declared_type_once() {
    let structure = vec![
        chords("intro", "Intro", "intro", None),
        chords("v1", "Verse", "couplet", None),
        reference("v2", "v1", None, None),
        reference("r", "v1", Some("refrain"), None),
        chords("v3", "Verse", "couplet", None),
        StructureItem { id: "rule".to_string(), item: SectionItem::HRule(50) },
    ];
    let mut sections = sections_of(&structure);
    sections.sort();
    assert_eq!(
        sections,
        vec![
            ("couplet".to_string(), "green!20"),
            ("intro".to_string(), "yellow!20"),
            ("refrain".to_string(), "blue!20"),
        ]
    );
}

#[test]
fn bar_range_of_known_and_unknown_sections() {
    let map: BarMap = vec![
        ("intro".to_string(), vec![1], 3),
        ("couplet1".to_string(), vec![3, 5], 7),
        ("empty".to_string(), vec![], 7),
    ];
    assert_eq!(bar_range_of(&map, &"intro".to_string()), (1, 2));
    assert_eq!(bar_range_of(&map, &"couplet1".to_string()), (3, 6));
    assert_eq!(bar_range_of(&map, &"empty".to_string()), (1, 6));
    assert_eq!(bar_range_of(&map, &"solo".to_string()), (1, 1));
}

#[test]
fn lyrics_inputs_have_one_block_per_section() {
    let structure = vec![
        chords("intro", "Intro", "intro", Some("yellow!20")),
        StructureItem { id: "col".to_string(), item: SectionItem::NewColumn },
        reference("intro2", "intro", None, None),
    ];
    let map: BarMap = vec![("intro".to_string(), vec![1], 3), ("intro2".to_string(), vec![3], 5)];
    let expected = String::from(
        "\\basecouplet{yellow!20}{ \\hfill Intro \\hfill \\llap{\\fontsize{12pt}{12pt}\\selectfont (1 $\\rightarrow$ 2)} }{\\input{intro}}\n\n",
    ) + "\\basecouplet{white}{ \\hfill intro2 title \\hfill \\llap{\\fontsize{12pt}{12pt}\\selectfont (3 $\\rightarrow$ 4)} }{\\input{intro2}}\n\n";
    assert_eq!(lyrics_inputs(&structure, &map), expected);
}

#[test]
fn lyrics_inputs_of_negative_and_large_bars() {
    let structure = vec![chords("x", "X", "intro", None)];
    let map: BarMap = vec![("x".to_string(), vec![-12], 1000)];
    assert_eq!(
        lyrics_inputs(&structure, &map),
        "\\basecouplet{white}{ \\hfill X \\hfill \\llap{\\fontsize{12pt}{12pt}\\selectfont (-12 $\\rightarrow$ 999)} }{\\input{x}}\n\n"
    );
}

#[test]
fn settings_colors_go_to_chords_sections_only() {
    let structure = vec![
        chords("intro", "Intro", "intro", Some("red")),
        reference("intro2", "intro", None, None),
        StructureItem { id: "rule".to_string(), item: SectionItem::HRule(50) },
    ];
    let colors = vec![Ok("yellow!20".to_string()), Err("unused".to_string()), Err("unused".to_string())];
    let out = band_songbook::songyml::apply_section_colors(structure.clone(), colors).unwrap();
    match &out[0].item {
        SectionItem::Chords(c) => assert_eq!(c.color, Some("yellow!20".to_string())),
        _ => panic!("Expected Chords"),
    }
    assert_eq!(out[1], structure[1]);
    assert_eq!(out[2], structure[2]);
}

#[test]
fn first_settings_color_failure_fails() {
    let structure = vec![chords("a", "A", "intro", None), chords("b", "B", "weird", None)];
    let colors = vec![Ok("x".to_string()), Err("unknown color for weird".to_string())];
    assert_eq!(
        band_songbook::songyml::apply_section_colors(structure, colors),
        Err("unknown color for weird".to_string())
    );
}
