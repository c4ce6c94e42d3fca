//! Tests of the supporting modules: keyboard state, the resource
//! cache, loader helpers and configuration defaults.

use openrhythm_core::cache::{CacheStats, ResourceCache, ResourceData, ResourceError, ResourceInfo, ResourceType};
use openrhythm_core::config::{DebugConfig, PathConfig, WindowConfig};
use openrhythm_core::events::KeyCode;
use openrhythm_core::keyboard::{KeyMapping, KeyboardState};
use openrhythm_core::loader::{ChartLoader, ChartResourceType};
use openrhythm_core::mod_system::Registry;
use openrhythm_core::parser::MalodyParser;

#[test]
fn keyboard_tracks_edges_and_held_keys() {
    let mut ks = KeyboardState::new();
    assert!(!ks.is_key_down(KeyCode::A));

    ks.key_down(KeyCode::A);
    assert!(ks.is_key_down(KeyCode::A));
    assert!(ks.is_key_pressed(KeyCode::A));
    assert!(!ks.is_key_released(KeyCode::A));

    // holding does not count as a second press
    ks.update();
    ks.key_down(KeyCode::A);
    assert!(ks.is_key_down(KeyCode::A));
    assert!(!ks.is_key_pressed(KeyCode::A));

    ks.key_up(KeyCode::A);
    assert!(!ks.is_key_down(KeyCode::A));
    assert!(ks.is_key_released(KeyCode::A));

    ks.set_key_state(KeyCode::B, true);
    assert!(ks.is_key_down(KeyCode::B));
    ks.set_key_state(KeyCode::B, false);
    assert!(!ks.is_key_down(KeyCode::B));

    ks.reset();
    assert!(!ks.is_key_released(KeyCode::A));
}

#[test]
fn key_mapping_reads_groups() {
    let mut ks = KeyboardState::new();
    let m = KeyMapping::for_4k();
    assert!(!m.is_left_down(&ks));
    ks.key_down(KeyCode::F);
    assert!(m.is_left_down(&ks));
    assert!(m.is_left_pressed(&ks));
    assert!(!m.is_right_down(&ks));
    ks.key_down(KeyCode::J);
    assert!(m.is_right_down(&ks));
    assert!(m.is_right_pressed(&ks));

    let d = KeyMapping::default();
    assert_eq!(d.left, vec![KeyCode::Left, KeyCode::A]);
    assert_eq!(d.pause, vec![KeyCode::Escape, KeyCode::P]);
}

#[test]
fn cache_inserts_looks_up_and_refuses_duplicates() {
    let mut cache = ResourceCache::new(1024);
    let info = ResourceInfo {
        path: "a.ogg".to_string(),
        size: 3,
        last_modified: 0,
        resource_type: ResourceType::Audio,
    };
    assert!(!cache.contains("a.ogg"));
    cache
        .insert("a.ogg".to_string(), ResourceData::Bytes(vec![1, 2, 3]), info.clone())
        .unwrap();
    assert!(cache.contains("a.ogg"));
    assert!(matches!(cache.get("a.ogg"), Some(ResourceData::Bytes(_))));
    assert!(cache.info("a.ogg").is_some());

    let again = cache.insert("a.ogg".to_string(), ResourceData::Bytes(vec![9]), info);
    assert!(matches!(again, Err(ResourceError::AlreadyLoaded(_))));

    let stats: CacheStats = cache.stats();
    assert_eq!(stats.total_resources, 1);
    assert_eq!(stats.total_size, 3);
    assert_eq!(stats.max_size, 1024);

    let removed = cache.remove("a.ogg");
    assert!(removed.is_some());
    assert!(!cache.contains("a.ogg"));
    assert!(cache.remove("a.ogg").is_none());

    cache
        .insert(
            "b.txt".to_string(),
            ResourceData::Text("hi".to_string()),
            ResourceInfo {
                path: "b.txt".to_string(),
                size: 2,
                last_modified: 0,
                resource_type: ResourceType::Text,
            },
        )
        .unwrap();
    cache.clear();
    assert_eq!(cache.stats().total_resources, 0);
}

#[test]
fn cache_evicts_the_least_recently_inserted_entry() {
    let mut cache = ResourceCache::new(4);
    let info = |p: &str| ResourceInfo {
        path: p.to_string(),
        size: 3,
        last_modified: 0,
        resource_type: ResourceType::Binary,
    };
    cache
        .insert("a".to_string(), ResourceData::Bytes(vec![1, 2, 3]), info("a"))
        .unwrap();
    cache
        .insert("b".to_string(), ResourceData::Bytes(vec![4, 5, 6]), info("b"))
        .unwrap();
    // the second insert passed the 4-byte bound, so the first entry left
    assert!(!cache.contains("a"));
    assert!(cache.contains("b"));
    assert_eq!(cache.stats().total_resources, 1);
    assert_eq!(cache.stats().total_size, 3);
}

#[test]
fn loader_detects_chart_files_and_lists_resources() {
    let loader = ChartLoader::new();
    assert!(loader.is_chart_file("song.mc"));
    assert!(loader.is_chart_file("some/dir/other.mc"));
    assert!(!loader.is_chart_file("song.mcz"));
    assert!(!loader.is_chart_file("mc"));
    assert!(!loader.is_chart_file("song.json"));

    let json = r#"{
        "meta": {
            "creator": "c", "version": "v", "mode": 0,
            "song": {"title": "t", "artist": "a"}
        },
        "time": [{"beat": [0, 0, 1], "bpm": 120.0}],
        "effect": [],
        "note": [
            {"beat": [0, 0, 1], "column": 0, "sound": "track.ogg"},
            {"beat": [1, 0, 1], "column": 1, "sound": "clap.wav"}
        ]
    }"#;
    let chart = MalodyParser::parse_from_str(json).unwrap();
    let resources = loader.extract_chart_resources(&chart).unwrap();
    // the audio reference plus the one per-note sound file
    assert_eq!(resources.len(), 2);
    assert_eq!(resources[0].path, "track.ogg");
    assert_eq!(resources[0].resource_type, ChartResourceType::Audio);
    assert_eq!(resources[1].path, "clap.wav");
    assert_eq!(resources[1].resource_type, ChartResourceType::SoundEffect);
}

#[test]
fn config_defaults_match_the_conventions() {
    let w = WindowConfig::default();
    assert_eq!(w.width, 1280);
    assert_eq!(w.height, 720);
    assert!(!w.fullscreen);
    assert!(w.vsync);
    assert_eq!(w.fps_limit, 0);

    let p = PathConfig::default();
    assert_eq!(p.mods_dir, "mods");
    assert_eq!(p.logs_dir, "logs");

    let d = DebugConfig::default();
    assert!(!d.show_fps);
    assert_eq!(d.log_level, "info");
}

#[test]
fn registry_starts_empty() {
    let _r = Registry::new();
}

#[test]
fn unicode_titles_survive_parsing() {
    let json = "{
        \"meta\": {
            \"creator\": \"制作\", \"version\": \"難\", \"mode\": 0,
            \"song\": {\"title\": \"テスト曲\", \"artist\": \"歌手\"}
        },
        \"time\": [{\"beat\": [0, 0, 1], \"bpm\": 180.0}],
        \"effect\": [],
        \"note\": [{\"beat\": [0, 0, 1], \"column\": 0}]
    }";
    let chart = MalodyParser::parse_from_str(json).unwrap();
    assert_eq!(chart.metadata.title, "テスト曲");
    assert_eq!(chart.metadata.artist, "歌手");
    assert_eq!(chart.metadata.creator, "制作");
    assert_eq!(chart.metadata.bpm, 180_000);
    let chart2 = MalodyParser::parse_from_bytes(json.as_bytes()).unwrap();
    assert_eq!(chart2.metadata.title, "テスト曲");
}

#[test]
fn unicode_escapes_are_decoded() {
    // the title is escaped BMP characters; the artist starts with an
    // escaped surrogate pair naming one supplementary character
    let json = r#"{
        "meta": {
            "creator": "c", "version": "v", "mode": 0,
            "song": {"title": "\u30c6\u30b9\u30c8", "artist": "\ud83c\udfb5 song"}
        },
        "time": [{"beat": [0, 0, 1], "bpm": 120.0}],
        "effect": [],
        "note": [{"beat": [0, 0, 1], "column": 0}]
    }"#;
    let chart = MalodyParser::parse_from_str(json).unwrap();
    assert_eq!(chart.metadata.title, "テスト");
    assert_eq!(chart.metadata.artist, "\u{1F3B5} song");

    // a lone surrogate names no character
    let bad = json.replace(r"\ud83c\udfb5 song", r"\ud83c alone");
    assert!(MalodyParser::parse_from_str(&bad).is_err());
}

#[test]
fn string_escapes_are_decoded() {
    let json = r#"{
        "meta": {
            "creator": "a\"b", "version": "line\nbreak", "mode": 0,
            "song": {"title": "tab\there", "artist": "back\\slash"}
        },
        "time": [{"beat": [0, 0, 1], "bpm": 120.0}],
        "effect": [],
        "note": [{"beat": [0, 0, 1], "column": 0}]
    }"#;
    let chart = MalodyParser::parse_from_str(json).unwrap();
    assert_eq!(chart.metadata.creator, "a\"b");
    assert_eq!(chart.metadata.version, "line\nbreak");
    assert_eq!(chart.metadata.title, "tab\there");
    assert_eq!(chart.metadata.artist, "back\\slash");
}
