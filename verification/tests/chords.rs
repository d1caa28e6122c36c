use band_songbook::chords::{parse, Accidental, Alteration, BarItem, ParseError, Repeat, Rest};
use band_songbook::model::{ChordsSection, RefSection, SectionItem, StructureItem};
use band_songbook::numbering::bar_map_of_structure;

#[test]
fn test_parse_chords() {
    let input = "Em | Em|C7|G|Am Bm7|HRest|Csm7|Edim|Bsus4|Cssus2|x2";
    let result = parse(input).unwrap();
    assert_eq!(result.bars.len(), 10);
    assert_eq!(result.repeat, Repeat { n: 2 });

    // First bar: Em (E minor)
    assert_eq!(result.bars[0].items.len(), 1);
    if let BarItem::Chord(chord) = &result.bars[0].items[0] {
        assert_eq!(chord.name, "E");
        assert!(chord.minor);
        assert_eq!(chord.alteration, Alteration::Triad);
    } else {
        panic!("Expected Chord");
    }

    // Second bar: Em (E minor)
    assert_eq!(result.bars[1].items.len(), 1);
    if let BarItem::Chord(chord) = &result.bars[1].items[0] {
        assert_eq!(chord.name, "E");
        assert!(chord.minor);
    } else {
        panic!("Expected Chord");
    }

    // Third bar: C7 (C seventh)
    assert_eq!(result.bars[2].items.len(), 1);
    if let BarItem::Chord(chord) = &result.bars[2].items[0] {
        assert_eq!(chord.name, "C");
        assert!(!chord.minor);
        assert_eq!(chord.alteration, Alteration::Seven);
    } else {
        panic!("Expected Chord");
    }

    // Fourth bar: G (G major)
    assert_eq!(result.bars[3].items.len(), 1);
    if let BarItem::Chord(chord) = &result.bars[3].items[0] {
        assert_eq!(chord.name, "G");
        assert!(!chord.minor);
        assert_eq!(chord.alteration, Alteration::Triad);
    } else {
        panic!("Expected Chord");
    }

    // Fifth bar: Am Bm7 (two chords)
    assert_eq!(result.bars[4].items.len(), 2);
    // Am (A minor)
    if let BarItem::Chord(chord) = &result.bars[4].items[0] {
        assert_eq!(chord.name, "A");
        assert!(chord.minor);
        assert_eq!(chord.alteration, Alteration::Triad);
    } else {
        panic!("Expected Chord");
    }
    // Bm7 (B minor seventh)
    if let BarItem::Chord(chord) = &result.bars[4].items[1] {
        assert_eq!(chord.name, "B");
        assert!(chord.minor);
        assert_eq!(chord.alteration, Alteration::Seven);
    } else {
        panic!("Expected Chord");
    }

    // Sixth bar: HRest
    assert_eq!(result.bars[5].items.len(), 1);
    assert_eq!(result.bars[5].items[0], BarItem::Rest(Rest { duration: 1 }));

    // Seventh bar: Csm7 (C sharp minor seventh)
    assert_eq!(result.bars[6].items.len(), 1);
    if let BarItem::Chord(chord) = &result.bars[6].items[0] {
        assert_eq!(chord.name, "C");
        assert_eq!(chord.accidental, Accidental::Sharp);
        assert!(chord.minor);
        assert_eq!(chord.alteration, Alteration::Seven);
    } else {
        panic!("Expected Chord");
    }

    // Eighth bar: Edim (E diminished)
    assert_eq!(result.bars[7].items.len(), 1);
    if let BarItem::Chord(chord) = &result.bars[7].items[0] {
        assert_eq!(chord.name, "E");
        assert!(!chord.minor);
        assert_eq!(chord.alteration, Alteration::Dim);
    } else {
        panic!("Expected Chord");
    }

    // Ninth bar: Bsus4 (B sus4)
    assert_eq!(result.bars[8].items.len(), 1);
    if let BarItem::Chord(chord) = &result.bars[8].items[0] {
        assert_eq!(chord.name, "B");
        assert!(!chord.minor);
        assert_eq!(chord.alteration, Alteration::Sus4);
    } else {
        panic!("Expected Chord");
    }

    // Tenth bar: Cssus2 (C sharp sus2)
    assert_eq!(result.bars[9].items.len(), 1);
    if let BarItem::Chord(chord) = &result.bars[9].items[0] {
        assert_eq!(chord.name, "C");
        assert_eq!(chord.accidental, Accidental::Sharp);
        assert!(!chord.minor);
        assert_eq!(chord.alteration, Alteration::Sus2);
    } else {
        panic!("Expected Chord");
    }
}

#[test]
fn test_parse_invalid_chord() {
    let invalid_inputs = ["X", "Am+", "Ax"];
    for input in invalid_inputs {
        let result = parse(input);
        assert!(result.is_err(), "Expected error for input: {input}");
        assert_eq!(
            result.unwrap_err(),
            ParseError::InvalidChord(input.to_string())
        );
    }
}


#[test]
fn parse_flats_sharps_and_plain_rows() {
    let row = parse("Bb|F#m7|Dsus2").unwrap();
    assert_eq!(row.repeat, Repeat { n: 1 });
    assert_eq!(row.bars.len(), 3);
    match &row.bars[0].items[0] {
        BarItem::Chord(c) => {
            assert_eq!(c.name, "B");
            assert_eq!(c.accidental, Accidental::Flat);
            assert_eq!(c.alteration, Alteration::Triad);
        }
        _ => panic!("Expected Chord"),
    }
    match &row.bars[1].items[0] {
        BarItem::Chord(c) => {
            assert_eq!(c.name, "F");
            assert_eq!(c.accidental, Accidental::Sharp);
            assert!(c.minor);
            assert_eq!(c.alteration, Alteration::Seven);
        }
        _ => panic!("Expected Chord"),
    }
    match &row.bars[2].items[0] {
        BarItem::Chord(c) => {
            assert_eq!(c.accidental, Accidental::Natural);
            assert_eq!(c.alteration, Alteration::Sus2);
        }
        _ => panic!("Expected Chord"),
    }
}

#[test]
fn parse_reports_the_first_bad_word_and_empty_bars() {
    assert_eq!(parse("Am|G H|Cx"), Err(ParseError::InvalidChord("H".to_string())));
    assert_eq!(parse("Am||G"), Err(ParseError::InvalidChord(String::new())));
    assert_eq!(parse(""), Err(ParseError::InvalidChord(String::new())));
}

#[test]
fn repeat_is_only_a_lone_last_field() {
    assert_eq!(parse("A|x3").unwrap().repeat, Repeat { n: 3 });
    assert_eq!(parse("A| x12 ").unwrap().repeat, Repeat { n: 12 });
    assert_eq!(parse("x2|A"), Err(ParseError::InvalidChord("x2".to_string())));
    assert_eq!(parse("A|x"), Err(ParseError::InvalidChord("x".to_string())));
    assert_eq!(parse("A|x99999999999"), Err(ParseError::InvalidChord("x99999999999".to_string())));
    assert_eq!(parse("A|HRest").unwrap().bars[1].items[0], BarItem::Rest(Rest { duration: 1 }));
}

fn chords(id: &str, rows: &[&str]) -> StructureItem {
    StructureItem {
        id: id.to_string(),
        item: SectionItem::Chords(ChordsSection {
            title: id.to_string(),
            section_type: "couplet".to_string(),
            section_body: None,
            color: None,
            rows: rows.iter().map(|r| r.to_string()).collect(),
            drum_sequence: None,
        }),
    }
}

fn reference(id: &str, link: &str) -> StructureItem {
    StructureItem {
        id: id.to_string(),
        item: SectionItem::Ref(RefSection {
            title: id.to_string(),
            section_type: None,
            section_body: None,
            color: None,
            link: link.to_string(),
        }),
    }
}

#[test]
fn bars_are_numbered_section_after_section() {
    let structure = vec![
        chords("intro", &["Am|G"]),
        chords("couplet1", &["C|G|Am|F"]),
        StructureItem { id: "rule".to_string(), item: SectionItem::HRule(50) },
        chords("refrain", &["F|G|x2", "Am", "oops+"]),
        reference("couplet2", "couplet1"),
        reference("lost", "nowhere"),
    ];
    let map = bar_map_of_structure(&structure).unwrap();
    assert_eq!(
        map,
        vec![
            ("intro".to_string(), vec![1], 3),
            ("couplet1".to_string(), vec![3], 7),
            ("refrain".to_string(), vec![7, 11, 12], 12),
            ("couplet2".to_string(), vec![12], 16),
            ("lost".to_string(), vec![], 16),
        ]
    );
}

#[test]
fn bar_numbers_beyond_i32_are_refused() {
    let structure = vec![chords("long", &["A|x2147483647"])];
    assert_eq!(bar_map_of_structure(&structure), None);
    let structure = vec![chords("long", &["A|x2147483646"])];
    assert_eq!(bar_map_of_structure(&structure), Some(vec![("long".to_string(), vec![1], 2147483647)]));
}
