use band_songbook::expand::{GraphNode, NodeKind};
use band_songbook::model::{Song, SongFiles, SongInfo, SongMeta};
use band_songbook::songyml::SongYml;
use band_songbook::sources::RenderTarget;

fn song(has_clicks: bool, has_mp3: bool) -> Song {
    Song {
        files: SongFiles { lilypond: vec![], tex: vec![], mp3: vec![], has_clicks, has_mp3 },
        info: SongInfo {
            title: "Song".to_string(),
            author: "Artist".to_string(),
            tempo: 120,
            time_signature: None,
            tags: vec![],
            external_id: None,
        },
        meta: SongMeta::default(),
        structure: vec![],
    }
}

fn n(kind: NodeKind, path: &str) -> GraphNode {
    GraphNode { kind, path: path.to_string(), tag: String::new() }
}

fn c(path: &str, tag: &str) -> GraphNode {
    GraphNode { kind: NodeKind::CopyFile, path: path.to_string(), tag: tag.to_string() }
}

fn strings(v: &[&str]) -> Vec<String> {
    v.iter().map(|s| s.to_string()).collect()
}

#[test]
fn bare_song_has_the_generated_files_and_strudel() {
    let node = SongYml::new("A/B/song.yml".to_string(), song(false, false));
    let plan = node.expand_plan(&vec![], &vec![], &vec![], &vec![]).unwrap();
    assert_eq!(
        plan.nodes,
        vec![
            n(NodeKind::TexFile, "A/B/main.tex"),
            n(NodeKind::SongTikz, "A/B/song.tikz"),
            n(NodeKind::TexFile, "A/B/preamble.tex"),
            n(NodeKind::TexFile, "A/B/tikzlibraryspline.code.tex"),
            n(NodeKind::TexFile, "A/B/sections.tex"),
            n(NodeKind::TexFile, "A/B/chords.tex"),
            n(NodeKind::TexFile, "A/B/data.tex"),
            n(NodeKind::LilypondFile, "A/B/macros.ly"),
            n(NodeKind::TexFile, "A/B/lyrics/main-1col.tex"),
            n(NodeKind::TexFile, "A/B/lyrics/main-2col.tex"),
            n(NodeKind::PdfFile, "A/B/lyrics/main-1col.pdf"),
            n(NodeKind::PdfFile, "A/B/lyrics/main-2col.pdf"),
            n(NodeKind::StrudelFile, "A/B/strudel.html"),
            c("../tempo/artist--@--song.html", "strudel"),
        ]
    );
    assert_eq!(
        plan.edges,
        vec![
            (n(NodeKind::TexFile, "A/B/main.tex"), n(NodeKind::PdfFile, "A/B/main.pdf")),
            (n(NodeKind::TexFile, "A/B/lyrics/main-1col.tex"), n(NodeKind::PdfFile, "A/B/lyrics/main-1col.pdf")),
            (n(NodeKind::TexFile, "A/B/lyrics/main-2col.tex"), n(NodeKind::PdfFile, "A/B/lyrics/main-2col.pdf")),
            (n(NodeKind::SongYml, "A/B/song.yml"), n(NodeKind::StrudelFile, "A/B/strudel.html")),
            (n(NodeKind::StrudelFile, "A/B/strudel.html"), c("../tempo/artist--@--song.html", "strudel")),
        ]
    );
}

#[test]
fn full_song_chains_scores_renders_clicks_and_recording() {
    let node = SongYml::new("A/B/song.yml".to_string(), song(true, true));
    let render = RenderTarget {
        ly: "A/B/drums.ly".to_string(),
        midi: "A/B/drums.midi".to_string(),
        mp3: "A/B/drums.mp3".to_string(),
        already_mounted: false,
    };
    let plan = node
        .expand_plan(
            &strings(&["A/B/interlude.ly"]),
            &strings(&["A/B/defs.ly"]),
            &strings(&["A/B/defs.ly"]),
            &vec![render],
        )
        .unwrap();
    assert_eq!(plan.nodes.len(), 28);
    assert_eq!(plan.nodes[12], n(NodeKind::LilypondFile, "A/B/defs.ly"));
    assert_eq!(plan.nodes[13], n(NodeKind::LilypondFile, "A/B/interlude.ly"));
    assert_eq!(plan.nodes[14], n(NodeKind::LyTexFile, "A/B/interlude.lytex"));
    assert_eq!(plan.nodes[15], n(NodeKind::TexOfLilypond, "A/B/interlude.output/interlude.tex"));
    assert_eq!(plan.nodes[16], n(NodeKind::PdfOfLilypond, "A/B/interlude.pdf"));
    assert_eq!(plan.nodes[17], c("../pdf-snippets/artist--@--song-interlude.pdf", "pdfsnippet"));
    assert_eq!(plan.nodes[18], n(NodeKind::LilypondFile, "A/B/drums.ly"));
    assert_eq!(plan.nodes[19], n(NodeKind::MidiOfLilypond, "A/B/drums.midi"));
    assert_eq!(plan.nodes[20], n(NodeKind::Mp3Render, "A/B/drums.mp3"));
    assert_eq!(plan.nodes[21], c("../mp3-renders/artist--@--song-drums.mp3", "mp3render"));
    assert_eq!(plan.nodes[24], n(NodeKind::ClickYml, "A/B/clicks.yml"));
    assert_eq!(plan.nodes[25], c("../clicks/artist--@--song-clicks.yml", "clicks.yml"));
    assert_eq!(plan.nodes[26], n(NodeKind::Mp3, "A/B/song.mp3"));
    assert_eq!(plan.nodes[27], c("../mp3/artist--@--song.mp3", "mp3"));

    assert_eq!(plan.edges.len(), 19);
    assert_eq!(
        plan.edges[3],
        (n(NodeKind::LilypondFile, "A/B/defs.ly"), n(NodeKind::LyTexFile, "A/B/interlude.lytex"))
    );
    assert_eq!(
        plan.edges[8],
        (n(NodeKind::TexOfLilypond, "A/B/interlude.output/interlude.tex"), n(NodeKind::PdfFile, "A/B/main.pdf"))
    );
    assert_eq!(
        plan.edges[12],
        (n(NodeKind::LilypondFile, "A/B/defs.ly"), n(NodeKind::MidiOfLilypond, "A/B/drums.midi"))
    );
    assert_eq!(
        plan.edges[17],
        (n(NodeKind::ClickYml, "A/B/clicks.yml"), c("../clicks/artist--@--song-clicks.yml", "clicks.yml"))
    );
    assert_eq!(
        plan.edges[18],
        (n(NodeKind::Mp3, "A/B/song.mp3"), c("../mp3/artist--@--song.mp3", "mp3"))
    );
}

#[test]
fn mounted_render_source_gets_no_second_node() {
    let node = SongYml::new("A/B/song.yml".to_string(), song(false, false));
    let render = RenderTarget {
        ly: "A/B/interlude.ly".to_string(),
        midi: "A/B/interlude.midi".to_string(),
        mp3: "A/B/interlude.mp3".to_string(),
        already_mounted: true,
    };
    let plan = node
        .expand_plan(&strings(&["A/B/interlude.ly"]), &vec![], &vec![], &vec![render])
        .unwrap();
    let sources = plan
        .nodes
        .iter()
        .filter(|x| x.kind == NodeKind::LilypondFile && x.path == "A/B/interlude.ly")
        .count();
    assert_eq!(sources, 1);
    assert_eq!(plan.nodes.len(), 12 + 3 + 2 + 3 + 2);
}

#[test]
fn clicks_without_recording_fail() {
    let node = SongYml::new("A/B/song.yml".to_string(), song(true, false));
    assert_eq!(
        node.expand_plan(&vec![], &vec![], &vec![], &vec![]),
        Err("A/B/song.yml: has_clicks is true but has_mp3 is false \u{2014} song.mp3 is required for click overlay".to_string())
    );
}

fn chords_item(id: &str, row: &str) -> band_songbook::model::StructureItem {
    band_songbook::model::StructureItem {
        id: id.to_string(),
        item: band_songbook::model::SectionItem::Chords(band_songbook::model::ChordsSection {
            title: id.to_string(),
            section_type: "couplet".to_string(),
            section_body: None,
            color: None,
            rows: vec![row.to_string()],
            drum_sequence: None,
        }),
    }
}

fn ref_item(id: &str, link: &str) -> band_songbook::model::StructureItem {
    band_songbook::model::StructureItem {
        id: id.to_string(),
        item: band_songbook::model::SectionItem::Ref(band_songbook::model::RefSection {
            title: id.to_string(),
            section_type: None,
            section_body: None,
            color: None,
            link: link.to_string(),
        }),
    }
}

#[test]
fn expand_song_colors_refs_from_the_settings() {
    let mut s = song(false, false);
    s.structure = vec![chords_item("verse", "Am|G"), ref_item("verse2", "verse")];
    let node = SongYml::new("A/B/song.yml".to_string(), s);
    let x = node
        .expand_song(
            vec![Ok("green!20".to_string()), Err("unused".to_string())],
            &strings(&["A/B/interlude.ly"]),
            &strings(&["A/B/defs.ly"]),
            &vec![true],
            &vec![true],
            &vec![],
        )
        .unwrap();
    match &x.structure[1].item {
        band_songbook::model::SectionItem::Ref(r) => assert_eq!(r.color, Some("green!20".to_string())),
        _ => panic!("Expected Ref"),
    }
    assert_eq!(x.sections, vec![("couplet".to_string(), "green!20")]);
    assert_eq!(x.bar_map, vec![("verse".to_string(), vec![1], 3), ("verse2".to_string(), vec![3], 5)]);
    assert!(x.lyrics_inputs.starts_with("\\basecouplet{green!20}"));
    assert_eq!(x.mount, vec!["A/B/defs.ly"]);
    assert_eq!(x.dep, vec!["A/B/defs.ly"]);
    assert_eq!(x.plan.nodes.len(), 12 + 1 + 3 + 2 + 2);
}

#[test]
fn expand_song_errors_come_in_order() {
    let mut s = song(true, false);
    s.structure = vec![chords_item("verse", "Am"), ref_item("solo", "nowhere")];
    let node = SongYml::new("A/B/song.yml".to_string(), s.clone());
    assert_eq!(
        node.expand_song(vec![Err("no color".to_string()), Ok(String::new())], &vec![], &vec![], &vec![], &vec![], &vec![]),
        Err("no color".to_string())
    );
    let node = SongYml::new("A/B/song.yml".to_string(), s.clone());
    assert_eq!(
        node.expand_song(vec![Ok("c".to_string()), Ok(String::new())], &vec![], &vec![], &vec![], &vec![], &vec![]),
        Err("Ref 'solo' links to 'nowhere' but no Chords item with that id exists".to_string())
    );
    s.structure.pop();
    let node = SongYml::new("A/B/song.yml".to_string(), s);
    assert!(node
        .expand_song(vec![Ok("c".to_string())], &vec![], &vec![], &vec![], &vec![], &vec![])
        .unwrap_err()
        .contains("has_clicks is true but has_mp3 is false"));
}
