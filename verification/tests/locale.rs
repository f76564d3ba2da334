use client_core::LanguagePack;
use client_core::Script;
use client_core::TranslationEngine;
use client_core::TranslationPair;
use client_core::detect_script;
use client_core::format_date_indian;
use client_core::format_phone_indian;
use client_core::format_time_12h;
use client_core::supported_scripts;
use client_core::transliterate_to_devanagari;

fn pair(k: &str, v: &str) -> TranslationPair {
    TranslationPair { key: k.to_string(), value: v.to_string() }
}

fn create_test_engine() -> TranslationEngine {
    let mut engine = TranslationEngine::new("en", "en");
    let en = LanguagePack {
        code: "en".to_string(),
        name: "English".to_string(),
        native_name: "English".to_string(),
        rtl: false,
        translations: vec![
            pair("greeting", "Hello, {{name}}!"),
            pair("items.one", "{{count}} item"),
            pair("items.other", "{{count}} items"),
            pair("items.zero", "No items"),
            pair("welcome", "Welcome"),
        ],
    };
    let hi = LanguagePack {
        code: "hi".to_string(),
        name: "Hindi".to_string(),
        native_name: "\u{939}\u{93F}\u{928}\u{94D}\u{926}\u{940}".to_string(),
        rtl: false,
        translations: vec![
            pair("greeting", "\u{928}\u{92E}\u{938}\u{94D}\u{924}\u{947}, {{name}}!"),
            pair("welcome", "\u{938}\u{94D}\u{935}\u{93E}\u{917}\u{924}"),
        ],
    };
    engine.load_language(en);
    engine.load_language(hi);
    engine
}

#[test]
fn test_basic_translation() {
    let engine = create_test_engine();
    assert_eq!(engine.translate("welcome", None), "Welcome");
}

#[test]
fn test_translation_with_params() {
    let engine = create_test_engine();
    let params = vec![pair("name", "Rajeev")];
    assert_eq!(engine.translate("greeting", Some(&params)), "Hello, Rajeev!");
}

#[test]
fn test_language_switch() {
    let mut engine = create_test_engine();
    engine.set_language("hi");
    assert_eq!(engine.get_language(), "hi");

    let result = engine.translate("welcome", None);
    assert_ne!(result, "Welcome");
}

#[test]
fn test_fallback_to_english() {
    let mut engine = create_test_engine();
    engine.set_language("hi");

    let params = vec![pair("count", "1")];
    let result = engine.translate("items.one", Some(&params));
    assert_eq!(result, "1 item");
}

#[test]
fn test_missing_key_returns_key() {
    let engine = create_test_engine();
    assert_eq!(engine.translate("nonexistent.key", None), "nonexistent.key");
}

#[test]
fn test_pluralization() {
    let engine = create_test_engine();
    assert_eq!(engine.translate_plural("items", 0, None), "No items");
    assert_eq!(engine.translate_plural("items", 1, None), "1 item");
    assert_eq!(engine.translate_plural("items", 5, None), "5 items");
}

#[test]
fn test_available_languages() {
    let engine = create_test_engine();
    let langs = engine.available_languages();
    assert!(langs.contains(&"en".to_string()));
    assert!(langs.contains(&"hi".to_string()));
}

#[test]
fn test_set_invalid_language() {
    let mut engine = create_test_engine();
    assert!(!engine.set_language("xyz"));
    assert_eq!(engine.get_language(), "en");
}

#[test]
fn test_date_format() {
    assert_eq!(format_date_indian(2026, 2, 7), "07/02/2026");
    assert_eq!(format_date_indian(2026, 12, 25), "25/12/2026");
}

#[test]
fn test_time_format() {
    assert_eq!(format_time_12h(0, 0), "12:00 AM");
    assert_eq!(format_time_12h(13, 30), "1:30 PM");
    assert_eq!(format_time_12h(12, 0), "12:00 PM");
    assert_eq!(format_time_12h(9, 5), "9:05 AM");
}

#[test]
fn test_phone_format() {
    assert_eq!(format_phone_indian("9876543210"), "+91 98765 43210");
    assert_eq!(format_phone_indian("09876543210"), "+91 98765 43210");
    assert_eq!(format_phone_indian("919876543210"), "+91 98765 43210");
}

#[test]
fn test_script_detection_and_transliteration() {
    assert_eq!(detect_script("Hello"), Script::Latin);
    assert_eq!(
        detect_script("\u{928}\u{92E}\u{938}\u{94D}\u{924}\u{947}"),
        Script::Devanagari
    );
    let result = transliterate_to_devanagari("namaste");
    assert_ne!(result, "namaste");
}

#[test]
fn test_detect_devanagari() {
    assert_eq!(detect_script("\u{928}\u{92E}\u{938}\u{94D}\u{924}\u{947}"), Script::Devanagari);
}

#[test]
fn test_detect_bengali() {
    assert_eq!(detect_script("\u{9AC}\u{9BE}\u{982}\u{9B2}\u{9BE}"), Script::Bengali);
}

#[test]
fn test_detect_tamil() {
    assert_eq!(detect_script("\u{BA4}\u{BAE}\u{BBF}\u{BB4}\u{BCD}"), Script::Tamil);
}

#[test]
fn test_detect_latin() {
    assert_eq!(detect_script("Hello World"), Script::Latin);
}

#[test]
fn test_transliterate_word() {
    let result = transliterate_to_devanagari("namaste");
    assert!(!result.is_empty());
    assert_ne!(result, "namaste");
}

#[test]
fn test_script_from_str() {
    assert_eq!(Script::from_str("hi"), Some(Script::Devanagari));
    assert_eq!(Script::from_str("tamil"), Some(Script::Tamil));
    assert_eq!(Script::from_str("en"), Some(Script::Latin));
    assert_eq!(Script::from_str("xyz"), None);
}

#[test]
fn test_supported_scripts_count() {
    assert_eq!(supported_scripts().len(), 10);
}
