//! Tests of the generation engine's parameter handling, the bit-pattern
//! predicates that stand in for float comparisons, the token-fragment
//! substitution, and the cache policy.

use llamattf::cache::TranslationCache;
use llamattf::engine::{
    append_substituted, f64_at_least_one, f64_nonpositive, ModelConditionalGeneration,
    F32_ONE_BITS,
};
use llamattf::orchestrator::{
    build_gen_params, DEFAULT_REPEAT_PENALTY_BITS, DEFAULT_TOP_P_BITS,
};

#[test]
fn bit_patterns_match_the_float_constants() {
    assert_eq!((1.1f32).to_bits(), DEFAULT_REPEAT_PENALTY_BITS);
    assert_eq!((1.0f64).to_bits(), DEFAULT_TOP_P_BITS);
    assert_eq!((1.0f32).to_bits(), F32_ONE_BITS);
    assert_eq!((0.0f64).to_bits(), 0u64);
}

#[test]
fn nonpositive_predicate_agrees_with_float_comparison() {
    for v in [
        0.0f64,
        -0.0,
        0.5,
        1.0,
        -1.0,
        -3.5e300,
        1e-300,
        -1e-300,
        f64::INFINITY,
        f64::NEG_INFINITY,
        f64::NAN,
        -f64::NAN,
        f64::MIN,
        f64::MAX,
    ] {
        assert_eq!(f64_nonpositive(v.to_bits()), v <= 0.0, "value {}", v);
    }
}

#[test]
fn at_least_one_predicate_agrees_with_float_comparison() {
    for v in [
        0.0f64,
        -0.0,
        0.5,
        0.999999,
        1.0,
        1.0000001,
        2.0,
        -1.0,
        f64::INFINITY,
        f64::NEG_INFINITY,
        f64::NAN,
        -f64::NAN,
        f64::MIN,
        f64::MAX,
    ] {
        assert_eq!(f64_at_least_one(v.to_bits()), v >= 1.0, "value {}", v);
    }
}

#[test]
fn default_generation_parameters() {
    let params = build_gen_params("translate English to German:Hi.".to_string());
    assert_eq!(params.prompt, "translate English to German:Hi.".to_string());
    assert_eq!(params.temperature_bits, 0);
    assert_eq!(params.seed, 0);
    assert_eq!(params.top_p_bits, (1.0f64).to_bits());
    assert_eq!(params.repeat_penalty_bits, (1.1f32).to_bits());
    assert_eq!(params.repeat_last_n, 1);
    assert_eq!(params.max_length, Some(512));
}

#[test]
fn fragment_substitution_replaces_both_markers() {
    let mut out = String::new();
    append_substituted(&mut out, "\u{2581}Hallo<0x0A>Welt");
    assert_eq!(out, " Hallo\nWelt".to_string());
    // appending keeps what is already there
    append_substituted(&mut out, "\u{2581}!");
    assert_eq!(out, " Hallo\nWelt !".to_string());
    // a partial marker is kept verbatim
    let mut partial = String::new();
    append_substituted(&mut partial, "<0x0A");
    assert_eq!(partial, "<0x0A".to_string());
    // markers replace left to right without overlap
    let mut double = String::new();
    append_substituted(&mut double, "a<0x0A><0x0A>b");
    assert_eq!(double, "a\n\nb".to_string());
}

#[test]
fn cache_hit_returns_stored_translation() {
    let mut cache = TranslationCache::new();
    assert!(cache.lookup("Hello.").is_none());
    let first = cache.settle_miss("Hello.", Some("Hallo.".to_string()));
    assert_eq!(first, "Hallo.".to_string());
    // the identical sentence is now a hit with the same text
    assert_eq!(cache.lookup("Hello."), Some("Hallo.".to_string()));
    assert_eq!(cache.lookup("Hello."), Some("Hallo.".to_string()));
    assert!(cache.lookup("World!").is_none());
}

#[test]
fn failed_generation_is_not_cached_and_falls_back() {
    let mut cache = TranslationCache::new();
    let out = cache.settle_miss("Hello.", None);
    assert_eq!(out, "Hello.".to_string());
    // the failure was not stored, so the sentence can be retried later
    assert!(cache.lookup("Hello.").is_none());
    let retried = cache.settle_miss("Hello.", Some("Hallo.".to_string()));
    assert_eq!(retried, "Hallo.".to_string());
    assert_eq!(cache.lookup("Hello."), Some("Hallo.".to_string()));
}

#[test]
fn load_rejects_non_encoder_decoder_config() {
    // a well-formed gguf image with no tensors and no metadata
    let mut gguf: Vec<u8> = Vec::new();
    gguf.extend_from_slice(b"GGUF");
    gguf.extend_from_slice(&3u32.to_le_bytes());
    gguf.extend_from_slice(&0u64.to_le_bytes());
    gguf.extend_from_slice(&0u64.to_le_bytes());
    let flag_false = ModelConditionalGeneration::load(
        gguf.clone(),
        b"{}".to_vec(),
        b"{\"is_encoder_decoder\": false}".to_vec(),
    );
    assert_eq!(
        flag_false.err(),
        Some("configuration does not describe an encoder-decoder model".to_string())
    );
    let flag_absent = ModelConditionalGeneration::load(gguf, b"{}".to_vec(), b"{}".to_vec());
    assert_eq!(
        flag_absent.err(),
        Some("configuration does not describe an encoder-decoder model".to_string())
    );
}

#[test]
fn load_rejects_malformed_weights() {
    let outcome = ModelConditionalGeneration::load(
        vec![0u8; 16],
        b"{}".to_vec(),
        b"{}".to_vec(),
    );
    assert!(outcome.is_err());
}
