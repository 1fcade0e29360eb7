use gigaleverage::config::{AppConfig, AppState};
use gigaleverage::config_text::{parse_document, render_document};

#[test]
fn round_trip_plain() {
    let state = AppState::from_saved(None);
    let mut state = state;
    state.update_api_key(String::from("my-secret-key-123"));
    let doc = state.save_text();
    let loaded = AppState::from_saved(Some(&doc));
    assert_eq!(loaded.get_api_key(), "my-secret-key-123");
}

#[test]
fn round_trip_empty() {
    let cfg = AppConfig { api_key: String::new() };
    let doc = cfg.to_document();
    let back = AppConfig::from_document(&doc);
    assert_eq!(back.api_key, "");
}

#[test]
fn round_trip_non_ascii() {
    let cfg = AppConfig { api_key: String::from("café ☃ 密钥 🔑") };
    let doc = cfg.to_document();
    let back = AppConfig::from_document(&doc);
    assert_eq!(back.api_key, "café ☃ 密钥 🔑");
}

#[test]
fn round_trip_characters_that_need_escapes() {
    let key = "a\"b\\c\nd\te\rf\u{1}g\u{1f}h";
    let cfg = AppConfig { api_key: String::from(key) };
    let doc = cfg.to_document();
    let back = AppConfig::from_document(&doc);
    assert_eq!(back.api_key, key);
}

#[test]
fn document_shape_is_the_pretty_object() {
    let cfg = AppConfig { api_key: String::from("abc") };
    assert_eq!(cfg.to_document(), "{\n  \"api_key\": \"abc\"\n}");
}

#[test]
fn default_fallback_on_corruption() {
    let back = AppConfig::from_document("this is not a settings document {");
    assert_eq!(back.api_key, "");
}

#[test]
fn fallback_on_wrong_field() {
    let back = AppConfig::from_document("{\n  \"other\": \"x\"\n}");
    assert_eq!(back.api_key, "");
}

#[test]
fn fallback_on_unterminated_value() {
    let back = AppConfig::from_document("{\n  \"api_key\": \"never closed");
    assert_eq!(back.api_key, "");
}

#[test]
fn fallback_on_trailing_garbage() {
    let back = AppConfig::from_document("{\n  \"api_key\": \"x\"\n} trailing");
    assert_eq!(back.api_key, "");
}

#[test]
fn load_without_a_saved_file_gives_default() {
    let state = AppState::from_saved(None);
    assert_eq!(state.get_api_key(), "");
}

#[test]
fn parser_reads_short_and_unicode_escapes() {
    let doc = "{\n  \"api_key\": \"a\\n\\\"b\\u0041\\u000c\"\n}";
    let parsed = parse_document(doc);
    assert_eq!(parsed.as_deref(), Some("a\n\"bA\u{c}"));
}

#[test]
fn parser_rejects_escapes_outside_the_written_set() {
    // only \u00WW is recognized, so a larger code point does not parse
    assert!(parse_document("{\n  \"api_key\": \"\\u0141\"\n}").is_none());
    assert!(parse_document("{\n  \"api_key\": \"\\q\"\n}").is_none());
}

#[test]
fn renderer_escapes_rather_than_copying() {
    // the document for a quote-bearing key must not contain the raw key
    let doc = render_document("a\"b");
    assert_eq!(doc, "{\n  \"api_key\": \"a\\\"b\"\n}");
    let doc2 = render_document("\u{1f}");
    assert_eq!(doc2, "{\n  \"api_key\": \"\\u001f\"\n}");
}

#[test]
fn update_api_key_changes_the_saved_document() {
    let mut state = AppState::from_saved(None);
    state.update_api_key(String::from("k1"));
    assert_eq!(state.save_text(), "{\n  \"api_key\": \"k1\"\n}");
    state.update_api_key(String::from("k2"));
    assert_eq!(state.save_text(), "{\n  \"api_key\": \"k2\"\n}");
    assert_eq!(state.get_api_key(), "k2");
}
