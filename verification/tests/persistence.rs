use popup_core::codec::{decode_config, encode_config, load_or_default};
use popup_core::config::AppConfig;

fn cfg(a: u8, b: u8, c: u8, d: u8) -> AppConfig {
    AppConfig {
        popup_chance_min: a,
        popup_chance_max: b,
        popup_opacity_min: c,
        popup_opacity_max: d,
    }
}

#[test]
fn encode_default_is_canonical_json() {
    let text = encode_config(&AppConfig::new());
    assert_eq!(
        text,
        "{\"popup_chance_min\":10,\"popup_chance_max\":100,\"popup_opacity_min\":50,\"popup_opacity_max\":100}"
    );
}

#[test]
fn round_trip_default() {
    let c = AppConfig::new();
    assert_eq!(decode_config(&encode_config(&c)), Some(c));
}

#[test]
fn round_trip_edge_configs() {
    let cases = [
        cfg(0, 0, 0, 0),
        cfg(100, 100, 100, 100),
        cfg(0, 100, 0, 100),
        cfg(7, 7, 93, 93),
        cfg(1, 2, 3, 4),
        cfg(9, 10, 99, 100),
    ];
    for c in cases {
        let text = encode_config(&c);
        assert_eq!(decode_config(&text), Some(c), "failed on {:?}", text);
    }
}

#[test]
fn decode_rejects_damaged_text() {
    let bad = [
        "",
        "{}",
        "not json at all",
        "{\"popup_chance_min\":10}",
        "{\"popup_chance_min\":10,\"popup_chance_max\":100,\"popup_opacity_min\":50,\"popup_opacity_max\":100",
        "{\"popup_chance_min\":10,\"popup_chance_max\":100,\"popup_opacity_min\":50,\"popup_opacity_max\":100}}",
        "{ \"popup_chance_min\": 10, \"popup_chance_max\": 100, \"popup_opacity_min\": 50, \"popup_opacity_max\": 100 }",
        "{\"popup_chance_max\":100,\"popup_chance_min\":10,\"popup_opacity_min\":50,\"popup_opacity_max\":100}",
        "{\"popup_chance_min\":007,\"popup_chance_max\":100,\"popup_opacity_min\":50,\"popup_opacity_max\":100}",
        "{\"popup_chance_min\":-1,\"popup_chance_max\":100,\"popup_opacity_min\":50,\"popup_opacity_max\":100}",
        "{\"popup_chance_min\":1000,\"popup_chance_max\":100,\"popup_opacity_min\":50,\"popup_opacity_max\":100}",
    ];
    for text in bad {
        assert_eq!(decode_config(text), None, "accepted {:?}", text);
    }
}

#[test]
fn decode_rejects_out_of_range_or_unordered_bounds() {
    // fields over 100
    assert_eq!(
        decode_config("{\"popup_chance_min\":10,\"popup_chance_max\":200,\"popup_opacity_min\":50,\"popup_opacity_max\":100}"),
        None
    );
    // min above max
    assert_eq!(
        decode_config("{\"popup_chance_min\":50,\"popup_chance_max\":10,\"popup_opacity_min\":50,\"popup_opacity_max\":100}"),
        None
    );
    assert_eq!(
        decode_config("{\"popup_chance_min\":10,\"popup_chance_max\":100,\"popup_opacity_min\":90,\"popup_opacity_max\":80}"),
        None
    );
}

#[test]
fn load_falls_back_to_defaults() {
    assert_eq!(load_or_default(None), AppConfig::new());
    assert_eq!(load_or_default(Some("garbage")), AppConfig::new());
    assert_eq!(load_or_default(Some("")), AppConfig::new());
    let c = cfg(5, 25, 40, 60);
    let text = encode_config(&c);
    assert_eq!(load_or_default(Some(&text)), c);
}

#[test]
fn encoded_record_is_valid_json_for_serde() {
    let c = cfg(0, 37, 50, 100);
    let text = encode_config(&c);
    let value: serde_json::Value = serde_json::from_str(&text).unwrap();
    assert_eq!(value["popup_chance_min"].as_u64(), Some(0));
    assert_eq!(value["popup_chance_max"].as_u64(), Some(37));
    assert_eq!(value["popup_opacity_min"].as_u64(), Some(50));
    assert_eq!(value["popup_opacity_max"].as_u64(), Some(100));
    assert_eq!(value.as_object().unwrap().len(), 4);
}
