//! Tests of the chart reader, the timing conversion and the library
//! index.

use openrhythm_core::error::CoreError;
use openrhythm_core::identity::generate_chart_id;
use openrhythm_core::library::{calculate_difficulty_level, find_difficulty, generate_tags, ChartIndex};
use openrhythm_core::model::{Chart, ChartMetadata, NoteType};
use openrhythm_core::parser::MalodyParser;
use openrhythm_core::timing::Beat;

fn base_chart_json(title: &str, artist: &str, notes: &str) -> String {
    format!(
        r#"{{
            "meta": {{
                "$ver": 0,
                "creator": "Test Creator",
                "background": "bg.jpg",
                "version": "Test Version",
                "id": 12345,
                "mode": 0,
                "time": 1234567890,
                "song": {{
                    "title": "{title}",
                    "artist": "{artist}",
                    "titleorg": "Test Song Original",
                    "artistorg": "Test Artist Original",
                    "id": 54321
                }},
                "mode_ext": {{
                    "column": 4,
                    "bar_begin": 0
                }}
            }},
            "time": [
                {{"beat": [0, 0, 1], "bpm": 120.0}}
            ],
            "effect": [],
            "note": [{notes}],
            "extra": {{}}
        }}"#
    )
}

#[test]
fn test_parse_malody_chart() {
    // The first note carries no column, which the schema requires of
    // every note, so the document is rejected.
    let test_json = r#"
    {
        "meta": {
            "$ver": 0,
            "creator": "Test Creator",
            "background": "bg.jpg",
            "version": "Test Version",
            "id": 12345,
            "mode": 0,
            "time": 1234567890,
            "song": {
                "title": "Test Song",
                "artist": "Test Artist",
                "titleorg": "Test Song Original",
                "artistorg": "Test Artist Original",
                "id": 54321
            },
            "mode_ext": {
                "column": 4,
                "bar_begin": 0
            }
        },
        "time": [
            {"beat": [0, 0, 1], "bpm": 120.0}
        ],
        "effect": [],
        "note": [
            {"beat": [0, 0, 1], "sound": "test.ogg", "vol": 100, "offset": 0, "type": 1},
            {"beat": [4, 0, 4], "column": 0},
            {"beat": [8, 0, 4], "column": 1},
            {"beat": [12, 0, 4], "column": 2},
            {"beat": [16, 0, 4], "column": 3}
        ],
        "extra": {
            "test": {
                "divide": 4,
                "speed": 100,
                "save": 0,
                "lock": 0,
                "edit_mode": 0
            }
        }
    }"#;

    let result = MalodyParser::parse_from_str(test_json);
    assert!(result.is_err());
    assert!(matches!(result.unwrap_err(), CoreError::Parse(_)));
}

#[test]
fn parse_chart_with_audio_reference() {
    let notes = r#"
        {"beat": [0, 0, 1], "column": 0, "sound": "test.ogg", "vol": 100, "offset": 7},
        {"beat": [4, 0, 4], "column": 0},
        {"beat": [8, 0, 4], "column": 1},
        {"beat": [12, 0, 4], "column": 2},
        {"beat": [16, 0, 4], "column": 3}
    "#;
    let json = base_chart_json("Test Song", "Test Artist", notes);
    let chart = MalodyParser::parse_from_str(&json).unwrap();
    assert_eq!(chart.metadata.title, "Test Song");
    assert_eq!(chart.metadata.artist, "Test Artist");
    assert_eq!(chart.metadata.creator, "Test Creator");
    assert_eq!(chart.metadata.columns, 4);
    assert_eq!(chart.metadata.audio, Some("test.ogg".to_string()));
    assert_eq!(chart.metadata.audio_offset, 7);
    assert_eq!(chart.metadata.bpm, 120_000);
    // the audio-reference pseudo-note is not a note
    assert_eq!(chart.notes.len(), 4);
    // note ids keep their file ordinals
    assert_eq!(chart.notes[0].id, 1);
}

#[test]
fn beat_four_quarters_at_120_is_two_seconds() {
    let metadata = ChartMetadata {
        title: "t".to_string(),
        title_original: None,
        artist: "a".to_string(),
        artist_original: None,
        creator: "c".to_string(),
        version: "v".to_string(),
        background: None,
        audio: None,
        audio_offset: 0,
        preview_time: None,
        bpm: 120_000,
        id: None,
        mode: 0,
        columns: 4,
    };
    let chart = Chart::new(metadata);
    let t = chart.beat_to_time(&Beat { measure: 4, numer: 0, denom: 4 });
    assert_eq!(t, 2_000_000);
}

#[test]
fn tempo_change_splits_the_walk() {
    // 8 beats at 120, then 4 beats at 240: 4 s + 1 s.
    let notes = r#"{"beat": [12, 0, 1], "column": 0}"#;
    let json = base_chart_json("Test Song", "Test Artist", notes).replace(
        r#""time": [
                {"beat": [0, 0, 1], "bpm": 120.0}
            ]"#,
        r#""time": [
                {"beat": [0, 0, 1], "bpm": 120.0},
                {"beat": [8, 0, 1], "bpm": 240.0}
            ]"#,
    );
    let chart = MalodyParser::parse_from_str(&json).unwrap();
    assert_eq!(chart.notes.len(), 1);
    assert_eq!(chart.notes[0].start_time, 5_000_000);
    assert_eq!(
        chart.beat_to_time(&Beat { measure: 12, numer: 0, denom: 1 }),
        5_000_000
    );
}

#[test]
fn out_of_order_breakpoints_take_time_back() {
    // The second primary entry lies before the first: walking in list
    // order first adds 4 beats at 120 (2 s), then steps back to beat 0
    // (taking the 2 s back), then runs 8 beats at 240 (2 s).
    let notes = r#"{"beat": [8, 0, 1], "column": 0}"#;
    let json = base_chart_json("Test Song", "Test Artist", notes).replace(
        r#""time": [
                {"beat": [0, 0, 1], "bpm": 120.0}
            ]"#,
        r#""time": [
                {"beat": [4, 0, 1], "bpm": 120.0},
                {"beat": [0, 0, 1], "bpm": 240.0}
            ]"#,
    );
    let chart = MalodyParser::parse_from_str(&json).unwrap();
    assert_eq!(chart.notes[0].start_time, 2_000_000);
}

#[test]
fn identity_depends_on_header_only() {
    let a = MalodyParser::parse_from_str(&base_chart_json(
        "Test Song",
        "Test Artist",
        r#"{"beat": [1, 0, 1], "column": 0}"#,
    ))
    .unwrap();
    let b = MalodyParser::parse_from_str(&base_chart_json(
        "Test Song",
        "Test Artist",
        r#"{"beat": [2, 0, 1], "column": 1}, {"beat": [3, 0, 1], "column": 2}"#,
    ))
    .unwrap();
    let c = MalodyParser::parse_from_str(&base_chart_json(
        "Test Song",
        "Other Artist",
        r#"{"beat": [1, 0, 1], "column": 0}"#,
    ))
    .unwrap();
    let id_a = generate_chart_id(&a);
    let id_b = generate_chart_id(&b);
    let id_c = generate_chart_id(&c);
    assert_eq!(id_a, id_b);
    assert_ne!(id_a, id_c);
    // the exact digest pins the identity scheme bit for bit
    assert_eq!(id_a, "b69ddde392e8a414");
    assert_eq!(id_c, "693963e77201392e");
}

#[test]
fn difficulty_level_stays_within_bounds() {
    let empty = Chart::new(ChartMetadata {
        title: String::new(),
        title_original: None,
        artist: String::new(),
        artist_original: None,
        creator: String::new(),
        version: String::new(),
        background: None,
        audio: None,
        audio_offset: 0,
        preview_time: None,
        bpm: 1,
        id: None,
        mode: 9,
        columns: 9,
    });
    let level = calculate_difficulty_level(&empty);
    assert!((1..=30).contains(&level));
    assert_eq!(level, 1);

    let dense = MalodyParser::parse_from_str(&base_chart_json(
        "Test Song",
        "Test Artist",
        r#"{"beat": [0, 0, 1], "column": 0}, {"beat": [0, 1, 8], "column": 1},
           {"beat": [0, 2, 8], "column": 2}, {"beat": [0, 3, 8], "column": 3}"#,
    ))
    .unwrap();
    let level = calculate_difficulty_level(&dense);
    assert!((1..=30).contains(&level));
}

#[test]
fn difficulty_level_exact_value() {
    // two notes over one second at 120 bpm: density 2/s,
    // base = 20 * sqrt(2 * 120 / 5000) = 4.38..., rounds to 4.
    let chart = MalodyParser::parse_from_str(&base_chart_json(
        "Test Song",
        "Test Artist",
        r#"{"beat": [0, 0, 1], "column": 0}, {"beat": [2, 0, 1], "column": 1}"#,
    ))
    .unwrap();
    assert_eq!(chart.duration(), 1_000_000);
    assert_eq!(calculate_difficulty_level(&chart), 4);
}

#[test]
fn reimport_merges_and_resets_stats() {
    let json = base_chart_json(
        "Test Song",
        "Test Artist",
        r#"{"beat": [0, 0, 1], "column": 0}"#,
    );
    let chart = MalodyParser::parse_from_str(&json).unwrap();
    let mut index = ChartIndex::new(1000);
    let info1 = index.add_parsed_chart(&chart, "a.mc".to_string(), "a.mcz".to_string(), 1000);
    assert_eq!(info1.difficulties.len(), 1);
    index.record_play(&info1.id, 2000);
    assert_eq!(index.get_chart_by_id(&info1.id).unwrap().play_count, 1);

    let chart2 = MalodyParser::parse_from_str(&json).unwrap();
    let info2 = index.add_parsed_chart(&chart2, "b.mc".to_string(), "a.mcz".to_string(), 3000);
    // merged, not duplicated
    assert_eq!(index.get_all_charts().len(), 1);
    assert_eq!(info2.id, info1.id);
    assert_eq!(info2.difficulties.len(), 2);
    // play statistics are reset on re-import
    assert_eq!(info2.play_count, 0);
    assert_eq!(info2.last_played, None);
    // difficulties stay sorted ascending by level
    let ds = &info2.difficulties;
    assert!(ds.windows(2).all(|w| w[0].level <= w[1].level));
}

#[test]
fn search_is_case_insensitive_and_covers_tags() {
    let json = base_chart_json(
        "Test Song",
        "Test Artist",
        r#"{"beat": [0, 0, 1], "column": 0}"#,
    );
    let chart = MalodyParser::parse_from_str(&json).unwrap();
    let mut index = ChartIndex::new(0);
    index.add_parsed_chart(&chart, "a.mc".to_string(), "a.mcz".to_string(), 0);

    assert_eq!(index.search_charts("test").len(), 1);
    assert_eq!(index.search_charts("TEST SONG").len(), 1);
    assert_eq!(index.search_charts("ArTiSt").len(), 1);
    assert_eq!(index.search_charts("Creator").len(), 1);
    // tag substring: the chart is 4k and short
    assert_eq!(index.search_charts("4k").len(), 1);
    assert_eq!(index.search_charts("short").len(), 1);
    assert_eq!(index.search_charts("zzz-none").len(), 0);
}

#[test]
fn one_bad_file_does_not_abort_the_batch() {
    let good1 = base_chart_json(
        "Test Song",
        "Test Artist",
        r#"{"beat": [0, 0, 1], "column": 0}"#,
    );
    let good2 = base_chart_json(
        "Another Song",
        "Test Artist",
        r#"{"beat": [0, 0, 1], "column": 1}"#,
    );
    let files = vec![
        ("a.mc".to_string(), good1.into_bytes()),
        ("broken.mc".to_string(), b"this is not a chart".to_vec()),
        ("b.mc".to_string(), good2.into_bytes()),
    ];
    let mut index = ChartIndex::new(0);
    let imported = index.import_chart_files(&files, "bundle.mcz", 42);
    assert_eq!(imported.len(), 2);
    assert_eq!(index.get_all_charts().len(), 2);
}

#[test]
fn deleting_a_missing_identity_is_a_no_op() {
    let json = base_chart_json(
        "Test Song",
        "Test Artist",
        r#"{"beat": [0, 0, 1], "column": 0}"#,
    );
    let chart = MalodyParser::parse_from_str(&json).unwrap();
    let mut index = ChartIndex::new(0);
    let info = index.add_parsed_chart(&chart, "a.mc".to_string(), "a.mcz".to_string(), 0);

    assert!(index.delete_chart("does-not-exist").is_none());
    assert_eq!(index.get_all_charts().len(), 1);

    let removed = index.delete_chart(&info.id);
    assert!(removed.is_some());
    assert_eq!(index.get_all_charts().len(), 0);
}

#[test]
fn difficulties_are_found_by_name() {
    let json = base_chart_json(
        "Test Song",
        "Test Artist",
        r#"{"beat": [0, 0, 1], "column": 0}"#,
    );
    let chart = MalodyParser::parse_from_str(&json).unwrap();
    let mut index = ChartIndex::new(0);
    let info = index.add_parsed_chart(&chart, "a.mc".to_string(), "a.mcz".to_string(), 0);
    let pos = find_difficulty(&info, "Test Version");
    assert_eq!(pos, Some(0));
    assert_eq!(info.difficulties[0].name, "Test Version");
    assert_eq!(find_difficulty(&info, "no such difficulty"), None);
}

#[test]
fn ratings_are_clamped() {
    let json = base_chart_json(
        "Test Song",
        "Test Artist",
        r#"{"beat": [0, 0, 1], "column": 0}"#,
    );
    let chart = MalodyParser::parse_from_str(&json).unwrap();
    let mut index = ChartIndex::new(0);
    let info = index.add_parsed_chart(&chart, "a.mc".to_string(), "a.mcz".to_string(), 0);
    index.set_rating(&info.id, 9999);
    assert_eq!(index.get_chart_by_id(&info.id).unwrap().rating, Some(5000));
    index.set_rating(&info.id, 4500);
    assert_eq!(index.get_chart_by_id(&info.id).unwrap().rating, Some(4500));
}

#[test]
fn tags_follow_the_thresholds() {
    let json = base_chart_json(
        "Test Song",
        "Test Artist",
        r#"{"beat": [0, 0, 1], "column": 0}"#,
    );
    let chart = MalodyParser::parse_from_str(&json).unwrap();
    let tags = generate_tags(&chart);
    assert_eq!(tags, vec!["4k".to_string(), "short".to_string()]);

    // high tempo and hold-heavy
    let json2 = base_chart_json(
        "Fast Song",
        "Test Artist",
        r#"{"beat": [0, 0, 1], "column": 0, "type": 1, "end": [1, 0, 1]}"#,
    )
    .replace("\"bpm\": 120.0", "\"bpm\": 200.0");
    let chart2 = MalodyParser::parse_from_str(&json2).unwrap();
    let tags2 = generate_tags(&chart2);
    assert!(tags2.contains(&"high-bpm".to_string()));
    assert!(tags2.contains(&"hold-heavy".to_string()));
}

#[test]
fn effects_are_classified_by_type() {
    let json = base_chart_json(
        "Test Song",
        "Test Artist",
        r#"{"beat": [4, 0, 1], "column": 0}"#,
    )
    .replace(
        r#""effect": []"#,
        r#""effect": [
            {"beat": [1, 0, 1], "type": 1, "value": 240.0},
            {"beat": [0, 0, 1], "type": 2, "value": 1027.0},
            {"beat": [2, 0, 1], "type": 3, "value": 1.5},
            {"beat": [3, 0, 1], "type": 9, "value": 2.0}
        ]"#,
    );
    let chart = MalodyParser::parse_from_str(&json).unwrap();
    // the primary entry plus the type-1 effect
    assert_eq!(chart.bpm_changes.len(), 2);
    assert_eq!(chart.bpm_changes[1].bpm, 240_000);
    // 1027 = 3 + 4 * 256: numerator 3, denominator 4
    assert_eq!(chart.time_signatures.len(), 1);
    assert_eq!(chart.time_signatures[0].numerator, 3);
    assert_eq!(chart.time_signatures[0].denominator, 4);
    assert_eq!(chart.speed_changes.len(), 1);
    assert_eq!(chart.speed_changes[0].speed, 1_500);
    assert_eq!(chart.effects.len(), 1);
    assert_eq!(chart.effects[0].event_type, "malody_effect_9");
    // the note's time sees the mid-file tempo change:
    // 1 beat at 120 (0.5 s) + 3 beats at 240 (0.75 s)
    assert_eq!(chart.notes[0].start_time, 1_250_000);
}

#[test]
fn hold_notes_keep_an_end_time() {
    let json = base_chart_json(
        "Test Song",
        "Test Artist",
        r#"{"beat": [0, 0, 1], "column": 0, "type": 1, "end": [2, 0, 1]},
           {"beat": [1, 0, 1], "column": 1, "type": 2},
           {"beat": [2, 0, 1], "column": 2, "type": 3},
           {"beat": [3, 0, 1], "column": 3}"#,
    );
    let chart = MalodyParser::parse_from_str(&json).unwrap();
    assert_eq!(chart.notes[0].note_type, NoteType::Hold);
    assert_eq!(chart.notes[0].end_time, Some(1_000_000));
    assert_eq!(chart.notes[1].note_type, NoteType::Slide);
    assert_eq!(chart.notes[1].end_time, None);
    assert_eq!(chart.notes[2].note_type, NoteType::Chain);
    assert_eq!(chart.notes[3].note_type, NoteType::Tap);
    // the last tap starts at 1.5 s, past the first hold's end
    assert_eq!(chart.duration(), 1_500_000);
}

#[test]
fn parse_failures_carry_the_parse_error() {
    assert!(matches!(
        MalodyParser::parse_from_str("not json at all"),
        Err(CoreError::Parse(_))
    ));
    assert!(matches!(
        MalodyParser::parse_from_str("{}"),
        Err(CoreError::Parse(_))
    ));
    // bytes that are not text
    assert!(matches!(
        MalodyParser::parse_from_bytes(&[0xff, 0xfe, 0x00]),
        Err(CoreError::Parse(_))
    ));
    // a tempo of zero cannot resolve any time
    let zero_bpm = base_chart_json(
        "Test Song",
        "Test Artist",
        r#"{"beat": [0, 0, 1], "column": 0}"#,
    )
    .replace("\"bpm\": 120.0", "\"bpm\": 0.0");
    assert!(matches!(
        MalodyParser::parse_from_str(&zero_bpm),
        Err(CoreError::Parse(_))
    ));
    // a beat with a zero denominator names no position and falls
    // back to position zero
    let bad_beat = base_chart_json(
        "Test Song",
        "Test Artist",
        r#"{"beat": [5, 1, 0], "column": 0}"#,
    );
    let chart = MalodyParser::parse_from_str(&bad_beat).unwrap();
    assert_eq!(chart.notes[0].start_time, 0);
}

#[test]
fn parse_from_bytes_round_trips_utf8() {
    let json = base_chart_json(
        "Test Song",
        "Test Artist",
        r#"{"beat": [0, 0, 1], "column": 0}"#,
    );
    let chart = MalodyParser::parse_from_bytes(json.as_bytes()).unwrap();
    assert_eq!(chart.metadata.title, "Test Song");
}

#[test]
fn note_density_counts_per_window() {
    let json = base_chart_json(
        "Test Song",
        "Test Artist",
        r#"{"beat": [0, 0, 1], "column": 0}, {"beat": [0, 1, 2], "column": 1},
           {"beat": [2, 0, 1], "column": 2}"#,
    );
    let chart = MalodyParser::parse_from_str(&json).unwrap();
    // notes at 0 s, 0.25 s and 1 s; window of one second
    let density = chart.get_note_density(1_000_000);
    assert_eq!(density.len(), 2);
    // two notes in the first window, one in the second, in
    // thousandths of notes per second
    assert_eq!(density[0], 2_000);
    assert_eq!(density[1], 1_000);
    assert_eq!(chart.get_note_density(0).len(), 0);
}

#[test]
fn note_density_keeps_the_trailing_window() {
    // one note at 1.5 s: the duration rounds up to two windows, plus
    // the trailing window
    let json = base_chart_json(
        "Test Song",
        "Test Artist",
        r#"{"beat": [3, 0, 1], "column": 0}"#,
    );
    let chart = MalodyParser::parse_from_str(&json).unwrap();
    assert_eq!(chart.duration(), 1_500_000);
    let density = chart.get_note_density(1_000_000);
    assert_eq!(density.len(), 3);
    assert_eq!(density[0], 0);
    assert_eq!(density[1], 1_000);
    assert_eq!(density[2], 0);
}

#[test]
fn tempo_lookup_takes_the_last_breakpoint() {
    let json = base_chart_json(
        "Test Song",
        "Test Artist",
        r#"{"beat": [0, 0, 1], "column": 0}"#,
    )
    .replace(
        r#""time": [
                {"beat": [0, 0, 1], "bpm": 120.0}
            ]"#,
        r#""time": [
                {"beat": [0, 0, 1], "bpm": 120.0},
                {"beat": [8, 0, 1], "bpm": 240.0}
            ]"#,
    );
    let chart = MalodyParser::parse_from_str(&json).unwrap();
    assert_eq!(chart.get_bpm_at_time(0), 120_000);
    assert_eq!(chart.get_bpm_at_time(3_999_999), 120_000);
    assert_eq!(chart.get_bpm_at_time(4_000_000), 240_000);
    assert_eq!(chart.get_bpm_at_time(99_000_000), 240_000);
}
