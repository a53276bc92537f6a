use photo_dash::config::Config;
use photo_dash::json::{parse_config, serialize_config};
use photo_dash::photos::{external_album_photos, name_has_image_ext, photo_refs_of_names, scan_photo_refs};
use photo_dash::store::{persist_and_reload, set_serialized_pair, set_then_get, ConfigStore};

fn sample_config() -> Config {
    Config {
        home_assistant_url: String::from("http://example.local:8123"),
        photos_folder: String::from("/var/photos"),
        idle_timeout_seconds: 300,
    }
}

fn assert_config_eq(a: &Config, b: &Config) {
    assert_eq!(a.home_assistant_url, b.home_assistant_url);
    assert_eq!(a.photos_folder, b.photos_folder);
    assert_eq!(a.idle_timeout_seconds, b.idle_timeout_seconds);
}

#[test]
fn set_then_get_returns_the_stored_value() {
    let mut store = ConfigStore::new(photo_dash::config::default_config());
    let got = set_then_get(&mut store, sample_config());
    assert_config_eq(&got, &sample_config());
}

#[test]
fn get_returns_a_snapshot() {
    let store = ConfigStore::new(sample_config());
    let first = store.get();
    let second = store.get();
    assert_config_eq(&first, &sample_config());
    assert_config_eq(&second, &sample_config());
}

#[test]
fn set_echoes_the_new_value() {
    let mut store = ConfigStore::new(photo_dash::config::default_config());
    let echo = store.set(sample_config());
    assert_config_eq(&echo, &sample_config());
    assert_config_eq(&store.get(), &sample_config());
}

#[test]
fn serialized_writes_leave_the_later_value_whole() {
    let mut store = ConfigStore::new(photo_dash::config::default_config());
    let other = Config {
        home_assistant_url: String::from("http://other:1"),
        photos_folder: String::from("elsewhere"),
        idle_timeout_seconds: 9,
    };
    set_serialized_pair(&mut store, other, sample_config());
    assert_config_eq(&store.get(), &sample_config());
}

#[test]
fn serializer_emits_the_exact_document() {
    let text = serialize_config(&photo_dash::config::default_config());
    let expected = "{\"home_assistant_url\":\"http://homeassistant.local:8123\",\"photos_folder\":\"./photos\",\"idle_timeout_seconds\":60}";
    assert_eq!(text, expected);
}

#[test]
fn serialize_then_parse_round_trips() {
    let config = sample_config();
    let text = serialize_config(&config);
    let back = parse_config(&text).expect("writer output must parse");
    assert_config_eq(&back, &config);
}

#[test]
fn round_trip_keeps_quotes_and_backslashes() {
    let config = Config {
        home_assistant_url: String::from("http://h/with \"quotes\" and \\slash"),
        photos_folder: String::from("C:\\photos\\summer"),
        idle_timeout_seconds: 1,
    };
    let text = serialize_config(&config);
    let back = parse_config(&text).expect("escaped document must parse");
    assert_config_eq(&back, &config);
}

#[test]
fn round_trip_keeps_timeout_bounds() {
    for timeout in [0u32, 1, 59, 4_294_967_295] {
        let mut config = sample_config();
        config.idle_timeout_seconds = timeout;
        let back = parse_config(&serialize_config(&config)).expect("document must parse");
        assert_eq!(back.idle_timeout_seconds, timeout);
    }
}

#[test]
fn load_or_default_on_missing_storage_returns_default() {
    let config = ConfigStore::load_or_default(None);
    assert_eq!(config.home_assistant_url, "http://homeassistant.local:8123");
    assert_eq!(config.photos_folder, "./photos");
    assert_eq!(config.idle_timeout_seconds, 60);
}

#[test]
fn load_or_default_on_corrupt_storage_returns_default() {
    for corrupt in [
        "",
        "not json at all",
        "{",
        "{}",
        "{\"home_assistant_url\":\"x\"}",
        "{\"home_assistant_url\":\"x\",\"photos_folder\":\"y\",\"idle_timeout_seconds\":}",
        "{\"home_assistant_url\":\"x\",\"photos_folder\":\"y\",\"idle_timeout_seconds\":-5}",
        "{\"home_assistant_url\":\"x\",\"photos_folder\":\"y\",\"idle_timeout_seconds\":4294967296}",
        "{\"home_assistant_url\":\"\\u0041\",\"photos_folder\":\"y\",\"idle_timeout_seconds\":1}",
        "{\"home_assistant_url\":\"x\",\"photos_folder\":\"y\",\"idle_timeout_seconds\":1} extra",
    ] {
        let config = ConfigStore::load_or_default(Some(corrupt));
        assert_eq!(config.home_assistant_url, "http://homeassistant.local:8123");
        assert_eq!(config.photos_folder, "./photos");
        assert_eq!(config.idle_timeout_seconds, 60);
    }
}

#[test]
fn load_or_default_on_valid_storage_returns_the_stored_value() {
    let text = "{\"home_assistant_url\":\"http://a\",\"photos_folder\":\"p\",\"idle_timeout_seconds\":7}";
    let config = ConfigStore::load_or_default(Some(text));
    assert_eq!(config.home_assistant_url, "http://a");
    assert_eq!(config.photos_folder, "p");
    assert_eq!(config.idle_timeout_seconds, 7);
}

#[test]
fn load_or_default_accepts_pretty_printed_documents() {
    let text = "{\n  \"home_assistant_url\": \"http://a\",\n  \"photos_folder\": \"p\",\n  \"idle_timeout_seconds\": 42\n}\n";
    let config = ConfigStore::load_or_default(Some(text));
    assert_eq!(config.home_assistant_url, "http://a");
    assert_eq!(config.photos_folder, "p");
    assert_eq!(config.idle_timeout_seconds, 42);
}

#[test]
fn load_or_default_accepts_members_in_any_order() {
    let text = "{\"idle_timeout_seconds\":5,\"photos_folder\":\"p\",\"home_assistant_url\":\"http://a\"}";
    let config = ConfigStore::load_or_default(Some(text));
    assert_eq!(config.home_assistant_url, "http://a");
    assert_eq!(config.photos_folder, "p");
    assert_eq!(config.idle_timeout_seconds, 5);
}

#[test]
fn load_or_default_rejects_duplicate_and_unknown_members() {
    for corrupt in [
        "{\"home_assistant_url\":\"a\",\"home_assistant_url\":\"b\",\"idle_timeout_seconds\":1}",
        "{\"home_assistant_url\":\"a\",\"photos_folder\":\"p\",\"other_field\":1}",
    ] {
        let config = ConfigStore::load_or_default(Some(corrupt));
        assert_eq!(config.home_assistant_url, "http://homeassistant.local:8123");
        assert_eq!(config.photos_folder, "./photos");
        assert_eq!(config.idle_timeout_seconds, 60);
    }
}

#[test]
fn reader_accepts_serde_json_pretty_output() {
    let config = sample_config();
    let text = serialize_config(&config);
    let value: serde_json::Value = serde_json::from_str(&text).expect("serde_json must accept it");
    let pretty = serde_json::to_string_pretty(&value).expect("pretty printing must work");
    let back = parse_config(&pretty).expect("pretty document must parse");
    assert_config_eq(&back, &config);
}

#[test]
fn load_or_default_decodes_common_escapes() {
    let text = "{\"home_assistant_url\":\"a\\tb\\nc\\/d\",\"photos_folder\":\"p\",\"idle_timeout_seconds\":3}";
    let config = ConfigStore::load_or_default(Some(text));
    assert_eq!(config.home_assistant_url, "a\tb\nc/d");
}

#[test]
fn persisted_payload_round_trips_through_the_store() {
    let mut store = ConfigStore::new(photo_dash::config::default_config());
    store.set(sample_config());
    let payload = store.persist_payload();
    let reloaded = ConfigStore::load_or_default(Some(&payload));
    assert_config_eq(&reloaded, &sample_config());
}

#[test]
fn persist_and_reload_recovers_the_current_value() {
    let store = ConfigStore::new(sample_config());
    let reloaded = persist_and_reload(&store);
    assert_config_eq(&reloaded, &sample_config());
}

#[test]
fn directory_scan_filters_by_extension() {
    let names = vec![
        String::from("a.jpg"),
        String::from("b.txt"),
        String::from("C.PNG"),
    ];
    let refs = photo_refs_of_names(&names);
    assert_eq!(refs, vec![String::from("/photos/a.jpg"), String::from("/photos/C.PNG")]);
}

#[test]
fn directory_scan_keeps_listing_order_and_all_formats() {
    let names = vec![
        String::from("one.jpeg"),
        String::from("two.gif"),
        String::from("three.webp"),
        String::from("four.PnG"),
        String::from("five.doc"),
    ];
    let refs = photo_refs_of_names(&names);
    assert_eq!(
        refs,
        vec![
            String::from("/photos/one.jpeg"),
            String::from("/photos/two.gif"),
            String::from("/photos/three.webp"),
            String::from("/photos/four.PnG"),
        ]
    );
}

#[test]
fn extension_edge_cases() {
    assert!(name_has_image_ext("photo.JPG"));
    assert!(name_has_image_ext("archive.tar.jpg"));
    assert!(!name_has_image_ext(".jpg"));
    assert!(!name_has_image_ext("jpg"));
    assert!(!name_has_image_ext("photo."));
    assert!(!name_has_image_ext("photo.jpgx"));
    assert!(!name_has_image_ext(""));
}

#[test]
fn directory_scan_on_missing_directory_yields_empty_list() {
    let refs = scan_photo_refs(None);
    assert!(refs.is_empty());
}

#[test]
fn directory_scan_on_present_listing_yields_filtered_refs() {
    let names = vec![String::from("a.jpg")];
    let refs = scan_photo_refs(Some(&names));
    assert_eq!(refs, vec![String::from("/photos/a.jpg")]);
}

#[test]
fn external_list_strategy_succeeds_on_empty_and_nonempty_lists() {
    let empty: Vec<String> = Vec::new();
    let refs = external_album_photos(&empty);
    assert_eq!(refs, vec![String::from("/photos/placeholder.jpg")]);

    let albums = vec![String::from("album-1"), String::from("album-2")];
    let refs = external_album_photos(&albums);
    assert_eq!(refs, vec![String::from("/photos/placeholder.jpg")]);
}

#[test]
fn writer_output_is_real_json() {
    let config = Config {
        home_assistant_url: String::from("http://h/\"q\"\\"),
        photos_folder: String::from("./photos"),
        idle_timeout_seconds: 17,
    };
    let text = serialize_config(&config);
    let value: serde_json::Value = serde_json::from_str(&text).expect("serde_json must accept it");
    assert_eq!(
        value.get("home_assistant_url").and_then(|v| v.as_str()),
        Some("http://h/\"q\"\\")
    );
    assert_eq!(value.get("photos_folder").and_then(|v| v.as_str()), Some("./photos"));
    assert_eq!(value.get("idle_timeout_seconds").and_then(|v| v.as_u64()), Some(17));
}
