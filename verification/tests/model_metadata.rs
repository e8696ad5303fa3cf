use haven_core::chat::{AdvancedModelSettings, Model, ProviderCredential, Settings};
use haven_core::model_metadata::{
    asks_provider, begin_resolution, cached_metadata, finish_resolution, get_provider_id,
    metadata_of_listing, normalize_model_id, resolve_context_length_with_metadata,
    resolve_explicit_context_length, CachedModelMetadata, ContextLengthSource, ModelCacheKey,
    ModelInfo, ModelMetadataCache, ResolutionStep,
};

fn advanced(context_length: Option<u32>) -> AdvancedModelSettings {
    AdvancedModelSettings {
        context_length,
        max_output_tokens: None,
        sd_steps: None,
        sd_cfg_scale: None,
        sd_denoising_strength: None,
        sd_seed: None,
        sd_size: None,
        sd_negative_prompt: None,
        sd_extra_prompt: None,
        sd_base_loras: None,
    }
}

fn model(context_length: Option<u32>) -> Model {
    Model {
        id: "Model-A".to_string(),
        name: "A".to_string(),
        provider_id: "p".to_string(),
        advanced_model_settings: Some(advanced(context_length)),
    }
}

fn cred(provider_id: &str) -> ProviderCredential {
    ProviderCredential { id: "c".to_string(), provider_id: provider_id.to_string(), base_url: None }
}

fn entry(context_length: Option<u32>, fetched_at: u64) -> CachedModelMetadata {
    CachedModelMetadata {
        model_id: "m".to_string(),
        provider_id: "p".to_string(),
        base_url: "u".to_string(),
        context_length,
        display_name: None,
        description: None,
        fetched_at,
    }
}

fn info(id: &str, context_length: Option<u64>) -> ModelInfo {
    ModelInfo {
        id: id.to_string(),
        display_name: Some("shown".to_string()),
        description: None,
        context_length,
    }
}

#[test]
fn keys_are_normalized() {
    let key = ModelCacheKey::new("P", "https://h.example/", " GPT-Ä ");
    assert_eq!(key.provider_id, "P");
    assert_eq!(key.base_url, "https://h.example");
    assert_eq!(key.model_id, "gpt-ä");
    assert_eq!(normalize_model_id("  X "), "x");
    assert_eq!(ModelCacheKey::new("p", "https://h:1/v1", "m").base_url, "https://h:1");
    assert_eq!(ModelCacheKey::new("p", "plain/path", "m").base_url, "plain/path");
}

#[test]
fn entries_expire() {
    let mut cache = ModelMetadataCache::with_ttl(10);
    cache.insert(ModelCacheKey::new("p", "u", "m"), entry(Some(5), 100));
    let key = ModelCacheKey::new("p", "u", "M");
    assert!(cache.get(&key, 109).is_some());
    assert!(cache.get(&key, 110).is_none());
    cache.insert(ModelCacheKey::new("p", "u", "m"), entry(Some(6), 105));
    assert_eq!(cache.get(&key, 112).unwrap().context_length, Some(6));
    cache.insert(ModelCacheKey::new("p", "u", "other"), entry(None, 200));
    cache.cleanup_expired(150);
    assert!(cache.get(&key, 106).is_none());
    let other = ModelCacheKey::new("p", "u", "other");
    assert!(cache.get(&other, 150).is_some());
    assert!(cached_metadata(&cache, &other, 150).is_none());
    cache.clear();
    assert!(cache.get(&other, 150).is_none());
    let mut hour = ModelMetadataCache::new();
    hour.insert(ModelCacheKey::new("p", "u", "m"), entry(Some(5), 0));
    assert!(hour.get(&key, 3599).is_some());
    assert!(hour.get(&key, 3600).is_none());
    assert!(cached_metadata(&hour, &key, 1).is_some());
}

#[test]
fn metadata_is_taken_from_a_listing() {
    let models = vec![info("model-b", Some(1)), info(" MODEL-a ", Some(4096))];
    let found = metadata_of_listing(&models, &model(None), "u", 9).unwrap();
    assert_eq!(found.model_id, "Model-A");
    assert_eq!(found.context_length, Some(4096));
    assert_eq!(found.display_name.as_deref(), Some("shown"));
    assert_eq!(found.fetched_at, 9);
    assert!(metadata_of_listing(&vec![info("x", None)], &model(None), "u", 9).is_none());
}

#[test]
fn windows_are_resolved_in_their_order() {
    let settings = |n| Settings { advanced_model_settings: advanced(n) };
    let resolve = |m: &Model, s: &Settings, d: Option<&CachedModelMetadata>| {
        let r = resolve_context_length_with_metadata(m, &cred("p"), s, d);
        (r.context_length, r.source)
    };
    let told = entry(Some(3000), 0);
    let empty = entry(Some(0), 0);
    assert_eq!(
        resolve(&model(Some(100)), &settings(Some(200)), Some(&told)),
        (100, ContextLengthSource::ExplicitUserConfig)
    );
    assert_eq!(
        resolve(&model(Some(0)), &settings(Some(200)), Some(&told)),
        (200, ContextLengthSource::ExplicitUserConfig)
    );
    assert_eq!(
        resolve(&model(None), &settings(None), Some(&told)),
        (3000, ContextLengthSource::ProviderMetadata)
    );
    assert_eq!(
        resolve(&model(None), &settings(Some(0)), Some(&empty)),
        (8192, ContextLengthSource::Fallback)
    );
    assert_eq!(resolve_explicit_context_length(&model(None), &cred("p"), &settings(None)), None);
}

#[test]
fn local_models_are_not_asked_for() {
    assert!(!asks_provider(&cred("LlamaCpp")));
    assert!(asks_provider(&cred("openai")));
    assert_eq!(get_provider_id(&cred("x")), "x");
}

#[test]
fn a_provider_is_asked_once() {
    let settings = Settings { advanced_model_settings: advanced(None) };
    let mut cache = ModelMetadataCache::with_ttl(10);
    let begin = |cache: &ModelMetadataCache, m: &Model, provider: &str, now: u64| {
        begin_resolution(cache, m, &cred(provider), &settings, "https://h", now)
    };
    let known = |step: ResolutionStep| match step {
        ResolutionStep::Resolved(r) => (r.context_length, r.source),
        ResolutionStep::Ask(key) => panic!("{:?}", key),
    };
    assert_eq!(
        known(begin(&cache, &model(Some(7)), "p", 5)),
        (7, ContextLengthSource::ExplicitUserConfig)
    );
    assert_eq!(
        known(begin(&cache, &model(None), "llamacpp", 5)),
        (8192, ContextLengthSource::Fallback)
    );
    let ask = |cache: &ModelMetadataCache, now: u64| match begin(cache, &model(None), "p", now) {
        ResolutionStep::Ask(key) => key,
        other => panic!("{:?}", other),
    };
    let key = ask(&cache, 5);
    assert_eq!(key.model_id, "model-a");
    let m = model(None);
    let models = vec![info("model-a", Some(4096))];
    let finish = |cache: &mut ModelMetadataCache, key, list: Option<&Vec<ModelInfo>>| {
        let r = finish_resolution(cache, key, list, &m, &cred("p"), &settings, "https://h", 5);
        (r.context_length, r.source)
    };
    assert_eq!(finish(&mut cache, key, None), (8192, ContextLengthSource::Fallback));
    let key = ask(&cache, 5);
    assert_eq!(
        finish(&mut cache, key, Some(&models)),
        (4096, ContextLengthSource::ProviderMetadata)
    );
    assert_eq!(
        known(begin(&cache, &model(None), "p", 14)),
        (4096, ContextLengthSource::ProviderMetadata)
    );
    ask(&cache, 15);
}

#[test]
fn equal_models_have_equal_keys() {
    let key = ModelCacheKey::new("openai", "https://api.openai.com:443/v1/", "  GPT-4o ");
    assert_eq!(key.base_url, "https://api.openai.com:443");
    assert_eq!(key.model_id, "gpt-4o");
    for (url, model) in [("https://h.example/v1", "Llama-3"), ("plain", "m x"), ("", "")] {
        let plain = ModelCacheKey::new("p", url, model);
        let other = ModelCacheKey::new(
            "p",
            &format!("{}//", url),
            &format!(" \t{}\u{2003}", model.to_ascii_uppercase()),
        );
        assert_eq!(other.provider_id, plain.provider_id);
        assert_eq!(other.base_url, plain.base_url);
        assert_eq!(other.model_id, plain.model_id);
    }
}
