use vast_player::{find_tempo, is_tempo_key, JsonMember, JsonValue};

fn member(key: &str, value: JsonValue) -> JsonMember {
    JsonMember { key: key.to_string(), value }
}

#[test]
fn tempo_keys_in_any_ascii_case() {
    for key in ["tempo", "TEMPO", "TBPM", "bpm", "Beats_Per_Minute"] {
        assert!(is_tempo_key(key), "{key}");
    }
    for key in ["tempos", "bp", "beats per minute", "title"] {
        assert!(!is_tempo_key(key), "{key}");
    }
}

#[test]
fn finds_nested_tempo() {
    let doc = JsonValue::Object(vec![
        member("streams", JsonValue::Array(vec![JsonValue::Object(vec![member(
            "tags",
            JsonValue::Object(vec![member("title", JsonValue::Scalar(None)), member("TBPM", JsonValue::Scalar(Some(128)))]),
        )])])),
    ]);
    assert_eq!(find_tempo(&doc), Some(128));
}

#[test]
fn key_at_this_level_wins_over_nested_values() {
    let doc = JsonValue::Object(vec![
        member("a", JsonValue::Object(vec![member("bpm", JsonValue::Scalar(Some(1)))])),
        member("tempo", JsonValue::Scalar(Some(2))),
    ]);
    assert_eq!(find_tempo(&doc), Some(2));
}

#[test]
fn unreadable_tempo_key_is_passed_over() {
    let doc = JsonValue::Object(vec![
        member("bpm", JsonValue::Scalar(None)),
        member("x", JsonValue::Array(vec![JsonValue::Scalar(Some(5)), JsonValue::Object(vec![member("tempo", JsonValue::Scalar(Some(99)))])])),
    ]);
    assert_eq!(find_tempo(&doc), Some(99));
}

#[test]
fn no_tempo_anywhere() {
    assert_eq!(find_tempo(&JsonValue::Scalar(Some(120))), None);
    assert_eq!(find_tempo(&JsonValue::Array(vec![])), None);
    let doc = JsonValue::Object(vec![member("title", JsonValue::Scalar(None))]);
    assert_eq!(find_tempo(&doc), None);
}

#[test]
fn tempo_key_without_reading_finds_nothing() {
    let doc = JsonValue::Object(vec![member("bpm", JsonValue::Array(vec![JsonValue::Scalar(Some(120))]))]);
    assert_eq!(find_tempo(&doc), None);
}
