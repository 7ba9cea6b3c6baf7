use std::collections::HashMap;
use std::time::Duration;

use lci_codegraph::embed::EmbedConfig;

fn lookup(vars: &[(&str, &str)]) -> impl Fn(&str) -> Option<String> {
    let map: HashMap<String, String> = vars
        .iter()
        .map(|(k, v)| (k.to_string(), v.to_string()))
        .collect();
    move |key: &str| map.get(key).cloned()
}

#[test]
fn from_lookup_is_none_when_base_url_is_unset() {
    assert!(EmbedConfig::from_lookup(lookup(&[])).is_none());
}

#[test]
fn from_lookup_is_none_when_base_url_is_blank() {
    assert!(EmbedConfig::from_lookup(lookup(&[("OPENAI_BASE_URL", "   ")])).is_none());
}

#[test]
fn from_lookup_applies_defaults_when_only_base_url_is_set() {
    let config =
        EmbedConfig::from_lookup(lookup(&[("OPENAI_BASE_URL", "https://api.openai.com/v1")]))
            .unwrap();
    assert_eq!(config.base_url, "https://api.openai.com/v1");
    assert!(config.api_key.is_none());
    assert_eq!(config.model, "text-embedding-3-small");
    assert!(config.dimensions.is_none());
    assert_eq!(config.timeout, Duration::from_secs(30));
    assert_eq!(config.max_retries, 3);
    assert_eq!(config.max_input_chars, 8000);
    assert_eq!(config.max_context_refs, 8);
}

#[test]
fn from_lookup_reads_every_documented_var() {
    let config = EmbedConfig::from_lookup(lookup(&[
        ("OPENAI_BASE_URL", "https://gw.internal/v1"),
        ("OPENAI_API_KEY", "abc123"),
        ("OPENAI_EMBEDDING_MODEL", "custom-model"),
        ("OPENAI_EMBEDDING_DIMENSIONS", "512"),
        ("OPENAI_EMBEDDING_TIMEOUT_SECS", "45"),
        ("OPENAI_EMBEDDING_MAX_RETRIES", "5"),
        ("OPENAI_EMBEDDING_MAX_INPUT_CHARS", "1234"),
    ]))
    .unwrap();
    assert_eq!(config.base_url, "https://gw.internal/v1");
    assert_eq!(config.api_key.as_deref(), Some("abc123"));
    assert_eq!(config.model, "custom-model");
    assert_eq!(config.dimensions, Some(512));
    assert_eq!(config.timeout, Duration::from_secs(45));
    assert_eq!(config.max_retries, 5);
    assert_eq!(config.max_input_chars, 1234);
}

#[test]
fn from_lookup_treats_blank_api_key_as_unset() {
    let config = EmbedConfig::from_lookup(lookup(&[
        ("OPENAI_BASE_URL", "https://x"),
        ("OPENAI_API_KEY", "   "),
    ]))
    .unwrap();
    assert!(config.api_key.is_none());
}

#[test]
fn from_lookup_unparseable_dimensions_is_none_not_an_error() {
    let config = EmbedConfig::from_lookup(lookup(&[
        ("OPENAI_BASE_URL", "https://x"),
        ("OPENAI_EMBEDDING_DIMENSIONS", "not-a-number"),
    ]))
    .unwrap();
    assert!(config.dimensions.is_none());
}

#[test]
fn from_lookup_zero_or_unparseable_timeout_falls_back_to_default() {
    let zero = EmbedConfig::from_lookup(lookup(&[
        ("OPENAI_BASE_URL", "https://x"),
        ("OPENAI_EMBEDDING_TIMEOUT_SECS", "0"),
    ]))
    .unwrap();
    assert_eq!(zero.timeout, Duration::from_secs(30));

    let garbage = EmbedConfig::from_lookup(lookup(&[
        ("OPENAI_BASE_URL", "https://x"),
        ("OPENAI_EMBEDDING_TIMEOUT_SECS", "soon"),
    ]))
    .unwrap();
    assert_eq!(garbage.timeout, Duration::from_secs(30));
}

#[test]
fn from_lookup_zero_max_retries_is_legal() {
    let config = EmbedConfig::from_lookup(lookup(&[
        ("OPENAI_BASE_URL", "https://x"),
        ("OPENAI_EMBEDDING_MAX_RETRIES", "0"),
    ]))
    .unwrap();
    assert_eq!(config.max_retries, 0);
}

#[test]
fn from_lookup_zero_max_input_chars_falls_back_to_default() {
    let config = EmbedConfig::from_lookup(lookup(&[
        ("OPENAI_BASE_URL", "https://x"),
        ("OPENAI_EMBEDDING_MAX_INPUT_CHARS", "0"),
    ]))
    .unwrap();
    assert_eq!(config.max_input_chars, 8000);
}

#[test]
fn debug_output_never_contains_the_api_key() {
    let config = EmbedConfig::builder()
        .base_url("https://x")
        .api_key("super-secret-token".to_string())
        .build();
    let rendered = config.debug_string();
    assert!(!rendered.contains("super-secret-token"));
    assert!(rendered.contains("<redacted>"));
}

#[test]
fn debug_output_shows_none_when_no_api_key_is_set() {
    let config = EmbedConfig::builder().base_url("https://x").build();
    let rendered = config.debug_string();
    assert!(rendered.contains("api_key: None"));
}

// ── further cases ──────────────────────────────────────────────────────────────────────────────

#[test]
fn debug_output_is_the_struct_debug_layout() {
    let config = EmbedConfig::builder()
        .base_url("https://x")
        .api_key("k".to_string())
        .dimensions(256)
        .build();
    assert_eq!(
        config.debug_string(),
        "EmbedConfig { base_url: \"https://x\", api_key: Some(\"<redacted>\"), model: \
         \"text-embedding-3-small\", dimensions: Some(256), timeout: 30s, max_retries: 3, \
         max_input_chars: 8000, max_context_refs: 8 }"
    );
}

#[test]
fn debug_output_is_the_same_for_two_different_keys() {
    let a = EmbedConfig::builder().base_url("https://x").api_key("one".to_string()).build();
    let b = EmbedConfig::builder().base_url("https://x").api_key("two".to_string()).build();
    assert_eq!(a.debug_string(), b.debug_string());
}

#[test]
fn from_lookup_trims_values_and_accepts_a_plus_sign() {
    let config = EmbedConfig::from_lookup(lookup(&[
        ("OPENAI_BASE_URL", "  https://x  "),
        ("OPENAI_EMBEDDING_MODEL", " m "),
        ("OPENAI_EMBEDDING_DIMENSIONS", " +64 "),
        ("OPENAI_EMBEDDING_MAX_RETRIES", "\t7\n"),
    ]))
    .unwrap();
    assert_eq!(config.base_url, "https://x");
    assert_eq!(config.model, "m");
    assert_eq!(config.dimensions, Some(64));
    assert_eq!(config.max_retries, 7);
}

#[test]
fn from_lookup_out_of_range_numbers_fall_back() {
    let config = EmbedConfig::from_lookup(lookup(&[
        ("OPENAI_BASE_URL", "https://x"),
        ("OPENAI_EMBEDDING_DIMENSIONS", "4294967296"),
        ("OPENAI_EMBEDDING_MAX_RETRIES", "-1"),
        ("OPENAI_EMBEDDING_MAX_INPUT_CHARS", "99999999999999999999999"),
    ]))
    .unwrap();
    assert!(config.dimensions.is_none());
    assert_eq!(config.max_retries, 3);
    assert_eq!(config.max_input_chars, 8000);
}

#[test]
fn builder_setters_override_defaults() {
    let config = EmbedConfig::builder()
        .base_url("u")
        .model("m2".to_string())
        .timeout(Duration::from_secs(5))
        .max_retries(1)
        .max_input_chars(10)
        .max_context_refs(2)
        .build();
    assert_eq!(config.model, "m2");
    assert_eq!(config.timeout, Duration::from_secs(5));
    assert_eq!(config.max_retries, 1);
    assert_eq!(config.max_input_chars, 10);
    assert_eq!(config.max_context_refs, 2);
}
