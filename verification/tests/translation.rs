use pos_backend::cache::TranslationCache;
use pos_backend::keywords::{begin_keywords, finish_keywords, keyword_phrases, keywords_text, KeywordsStep};
use pos_backend::json_text::escape_json_string;
use pos_backend::menu::{plan_menu_translation, record_menu_translations, translated_menu_item, MenuItem};
use pos_backend::translate::{source_language_code, translated_text, translation_query, TranslateError};

#[test]
fn cache_gives_back_what_was_written() {
    let mut cache = TranslationCache::new();
    assert_eq!(cache.get("de"), None);
    cache.insert("de".to_string(), "eins".to_string());
    cache.insert("fr".to_string(), "un".to_string());
    assert_eq!(cache.get("de"), Some("eins".to_string()));
    cache.insert("de".to_string(), "zwei".to_string());
    assert_eq!(cache.get("de"), Some("zwei".to_string()));
    assert_eq!(cache.get("fr"), Some("un".to_string()));
}

#[test]
fn translation_query_names_text_languages_and_key() {
    let query = translation_query("Pay", "en", "de", "SECRET");
    let expected: Vec<(String, String)> = vec![
        ("q".to_string(), "Pay".to_string()),
        ("source".to_string(), "en".to_string()),
        ("target".to_string(), "de".to_string()),
        ("key".to_string(), "SECRET".to_string()),
    ];
    assert_eq!(query, expected);
    assert_eq!(source_language_code(), "en");
}

#[test]
fn translated_text_is_read_from_the_answer() {
    let body = r#"{"data": {"translations": [{"translatedText": "Bezahlen", "detectedSourceLanguage": "en"}]}}"#;
    assert!(matches!(translated_text(body), Ok(ref t) if t == "Bezahlen"));
    let empty = r#"{"data": {"translations": []}}"#;
    assert!(matches!(translated_text(empty), Err(TranslateError::NoTranslation)));
    let not_text = r#"{"data": {"translations": [{"translatedText": 3}]}}"#;
    assert!(matches!(translated_text(not_text), Err(TranslateError::NoTranslation)));
    assert!(matches!(translated_text("<html>quota</html>"), Err(TranslateError::NotJson)));
    let keyed = r#"{"data": {"translations": {"0": {"translatedText": "Bezahlen"}}}}"#;
    assert!(matches!(translated_text(keyed), Err(TranslateError::NoTranslation)));
}

#[test]
fn keyword_phrases_are_the_eight_english_keywords() {
    assert_eq!(
        keyword_phrases(),
        vec!["All", "Your Order", "Pay", "Clear All", "Tax", "Removed", "Order Created", "Order Cleared"]
    );
}

fn german() -> Vec<String> {
    ["Alle", "Ihre Bestellung", "Bezahlen", "Alles löschen", "Steuer", "Entfernt", "Bestellung erstellt", "Bestellung gelöscht"]
        .iter()
        .map(|s| s.to_string())
        .collect()
}

#[test]
fn keywords_text_fills_the_template() {
    let t: Vec<String> = (0..8).map(|i| format!("t{}", i)).collect();
    let expected = "{\n            \"all\": \"t0\",\n            \"order\": \"t1\",\n            \"pay\": \"t2\",\n            \"clear\": \"t3\",\n            \"tax\": \"t4\",\n            \"removed\": \"t5\",\n            \"created\": \"t6\",\n            \"cleared\": \"t7\"\n    }";
    assert_eq!(keywords_text(&t), expected);
}

#[test]
fn keywords_are_built_compact_and_then_served_from_the_cache() {
    let mut cache = TranslationCache::new();
    match begin_keywords(&cache, "de") {
        KeywordsStep::Translate(phrases) => assert_eq!(phrases.len(), 8),
        KeywordsStep::Cached(_) => panic!("nothing is cached yet"),
    }
    let served = match finish_keywords(&mut cache, "de".to_string(), &german()) {
        Ok(text) => text,
        Err(_) => panic!("the translations make a JSON document"),
    };
    let expected = "{\"all\":\"Alle\",\"clear\":\"Alles löschen\",\"cleared\":\"Bestellung gelöscht\",\"created\":\"Bestellung erstellt\",\"order\":\"Ihre Bestellung\",\"pay\":\"Bezahlen\",\"removed\":\"Entfernt\",\"tax\":\"Steuer\"}";
    assert_eq!(served, expected);
    match begin_keywords(&cache, "de") {
        KeywordsStep::Cached(text) => assert_eq!(text, expected),
        KeywordsStep::Translate(_) => panic!("the keywords are cached"),
    }
}

#[test]
fn escaping_writes_quotes_backslashes_and_control_characters() {
    assert_eq!(escape_json_string("plain text"), "plain text");
    assert_eq!(escape_json_string("a\"b\\c"), "a\\\"b\\\\c");
    assert_eq!(escape_json_string("l1\nl2\r\t\u{8}\u{c}"), "l1\\nl2\\r\\t\\b\\f");
    assert_eq!(escape_json_string("\u{1}\u{1f}é"), "\\u0001\\u001fé");
    assert_eq!(escape_json_string(""), "");
}

#[test]
fn keywords_with_quotes_and_backslashes_stay_the_eight_translations() {
    let mut cache = TranslationCache::new();
    let mut t = german();
    t[0] = "Alle \"x\"".to_string();
    t[4] = "Steuer\\MwSt".to_string();
    t[7] = "Zeile\nzwei".to_string();
    let served = match finish_keywords(&mut cache, "de".to_string(), &t) {
        Ok(text) => text,
        Err(_) => panic!("escaped translations always make a JSON document"),
    };
    let parsed: serde_json::Value = serde_json::from_str(&served).unwrap();
    let object = parsed.as_object().unwrap();
    assert_eq!(object.len(), 8);
    let keys = ["all", "order", "pay", "clear", "tax", "removed", "created", "cleared"];
    for (k, expected) in keys.iter().zip(t.iter()) {
        assert_eq!(object[*k].as_str().unwrap(), expected.as_str());
    }
    assert_eq!(cache.get("de"), Some(served));
}

fn item(id: i32, name: &str) -> MenuItem {
    MenuItem {
        id: Some(id),
        name: name.to_string(),
        category: "Burgers".to_string(),
        ingredients_inventory_id: vec![1, 2],
        price_bits: 7.25f32.to_bits(),
        description: "A burger".to_string(),
    }
}

#[test]
fn translated_item_keeps_id_ingredients_and_price() {
    let original = item(3, "Cheeseburger");
    let translated = translated_menu_item(&original, "Käseburger".to_string(), "Burger".to_string(), "Ein Burger".to_string());
    assert_eq!(translated.id, Some(3));
    assert_eq!(translated.name, "Käseburger");
    assert_eq!(translated.category, "Burger");
    assert_eq!(translated.description, "Ein Burger");
    assert_eq!(translated.ingredients_inventory_id, vec![1, 2]);
    assert_eq!(f32::from_bits(translated.price_bits), 7.25);
    let copy = original.clone();
    assert_eq!(copy.name, "Cheeseburger");
    assert_eq!(copy.ingredients_inventory_id, vec![1, 2]);
    assert_eq!(copy.price_bits, original.price_bits);
}

#[test]
fn english_menu_is_served_as_stored() {
    let cache = TranslationCache::new();
    assert!(plan_menu_translation(&cache, "en", &vec!["{}".to_string()]).is_none());
}

#[test]
fn translated_menu_is_served_from_the_cache_once_recorded() {
    let mut cache = TranslationCache::new();
    cache.insert("de{\"b\":2}".to_string(), "{\"b\":\"zwei\"}".to_string());
    let items = vec!["{\"a\":1}".to_string(), "{\"b\":2}".to_string(), "{\"c\":3}".to_string()];
    let plan = match plan_menu_translation(&cache, "de", &items) {
        Some(p) => p,
        None => panic!("German is translated"),
    };
    assert_eq!(plan.cached, vec!["{\"b\":\"zwei\"}".to_string()]);
    assert_eq!(plan.pending.len(), 2);
    assert_eq!(plan.pending[0].index, 0);
    assert_eq!(plan.pending[0].key, "de{\"a\":1}");
    assert_eq!(plan.pending[1].index, 2);
    assert_eq!(plan.pending[1].key, "de{\"c\":3}");
    let translations: Vec<String> = plan.pending.iter().map(|p| format!("translated {}", p.index)).collect();
    record_menu_translations(&mut cache, plan.pending, translations);
    let again = match plan_menu_translation(&cache, "de", &items) {
        Some(p) => p,
        None => panic!("German is translated"),
    };
    assert!(again.pending.is_empty());
    assert_eq!(
        again.cached,
        vec!["translated 0".to_string(), "{\"b\":\"zwei\"}".to_string(), "translated 2".to_string()]
    );
}
