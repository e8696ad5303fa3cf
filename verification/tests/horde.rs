use haven_core::fraction::{fraction, ORDER_ONE, ORDER_ZERO};
use haven_core::image_generator::aihorde_models::{
    model_list_key, model_list_url, model_names, sort_models, AIHordeModel,
};
use haven_core::image_generator::provider_adapter::aihorde::{
    models_of_reply, parse_models, AIHordeAdapter,
};
use haven_core::image_generator::provider_adapter::{
    ImageProviderAdapter, ImageRequestPayload, ImageResponseFormat,
};
use haven_core::image_generator::types::{
    ImageCharacterContext, ImageGenerationRequest, ImageSceneCharacter, ImageSceneContext,
};
use haven_core::json::{parse, Json};
use haven_core::text_map::TextMap;

fn base_request() -> ImageGenerationRequest {
    ImageGenerationRequest {
        prompt: "anime character".to_string(),
        model: "Test Model".to_string(),
        provider_id: "aihorde".to_string(),
        credential_id: "horde".to_string(),
        advanced_model_settings: None,
        input_images: None,
        mask_image: None,
        loras: None,
        character_context: None,
        character_reference_image: None,
        character_reference_images: Vec::new(),
        scene_context: None,
        output_modalities: None,
        size: Some("512x512".to_string()),
        quality: None,
        style: None,
        n: Some(1),
        session_id: None,
        character_id: None,
        character_name: None,
        usage_source: None,
    }
}

fn json(text: &str) -> Json {
    parse(text).unwrap()
}

fn body_of(request: &ImageGenerationRequest) -> Json {
    match AIHordeAdapter.payload(request).unwrap() {
        ImageRequestPayload::Json(body) => body,
        _ => panic!("Expected JSON payload"),
    }
}

#[test]
fn empty_api_key_is_replaced_by_anonymous_key() {
    assert_eq!(AIHordeAdapter::clean_api_key(""), None);
    assert_eq!(AIHordeAdapter::clean_api_key("   "), None);
    assert_eq!(AIHordeAdapter::clean_api_key(" abc "), Some("abc".to_string()));
    assert_eq!(AIHordeAdapter::effective_api_key(""), AIHordeAdapter::ANONYMOUS_API_KEY);
}

#[test]
fn model_endpoint_is_correct() {
    assert_eq!(
        AIHordeAdapter::models_endpoint("https://aihorde.net/api"),
        "https://aihorde.net/api/v2/status/models"
    );
    assert_eq!(
        AIHordeAdapter::models_endpoint("https://aihorde.net/api/"),
        "https://aihorde.net/api/v2/status/models"
    );
}

#[test]
fn reference_urls_are_valid() {
    assert!(AIHordeAdapter::is_valid_reference_image("https://example.com/image.png"));
    assert!(AIHordeAdapter::is_valid_reference_image("http://example.com/image.jpg"));
}

#[test]
fn data_images_are_valid() {
    assert!(AIHordeAdapter::is_valid_reference_image("data:image/png;base64,iVBOR..."));
}

#[test]
fn base64_images_are_valid() {
    assert!(AIHordeAdapter::is_valid_reference_image("iVBORw0KGgoAAAANSUhEUg"));
    assert!(AIHordeAdapter::is_valid_reference_image("/9j/4AAQSkZJRgABAQ"));
    assert!(AIHordeAdapter::is_valid_reference_image("UklGR"));
}

#[test]
fn invalid_reference_is_rejected() {
    assert!(!AIHordeAdapter::is_valid_reference_image(""));
    assert!(!AIHordeAdapter::is_valid_reference_image("not-an-image"));
}

#[test]
fn dimensions_are_rounded_to_64() {
    assert_eq!(AIHordeAdapter::horde_dimension(512), 512);
    assert_eq!(AIHordeAdapter::horde_dimension(513), 512);
    assert_eq!(AIHordeAdapter::horde_dimension(544), 576);
    assert_eq!(AIHordeAdapter::horde_dimension(1024), 1024);
}

#[test]
fn async_job_is_parsed() {
    let result = AIHordeAdapter.parse_response(&json(r#"{"id": "123456"}"#)).unwrap();
    assert_eq!(result.len(), 1);
    assert_eq!(result[0].url.as_deref(), Some("aihorde://123456"));
}

#[test]
fn horde_error_is_returned() {
    let result = AIHordeAdapter.parse_response(&json(r#"{"message": "Invalid prompt"}"#));
    assert!(result.is_err());
    assert!(result.unwrap_err().contains("Invalid prompt"));
}

#[test]
fn horde_rc_error_is_returned() {
    let result = AIHordeAdapter.parse_response(&json(r#"{"rc": "Request cannot be satisfied"}"#));
    assert!(result.is_err());
    assert!(result.unwrap_err().contains("Request cannot be satisfied"));
}

#[test]
fn missing_generation_id_is_error() {
    let result = AIHordeAdapter.parse_response(&json(r#"{"done": false}"#));
    assert!(result.is_err());
    assert_eq!(
        result.unwrap_err(),
        "AI Horde did not return a generation ID. Response: {\"done\":false}"
    );
}

#[test]
fn selected_model_is_taken_from_request() {
    let body = body_of(&base_request());
    assert_eq!(body.get("models").unwrap().at(0).unwrap().as_str(), Some("Test Model"));
}

#[test]
fn empty_model_does_not_add_models_array() {
    let mut request = base_request();
    request.model = String::new();
    let body = body_of(&request);
    assert!(body.get("models").is_none());
}

#[test]
fn anonymous_headers_are_created() {
    let headers = AIHordeAdapter.headers("", None);
    assert_eq!(
        headers.get("apikey").map(String::as_str),
        Some(AIHordeAdapter::ANONYMOUS_API_KEY)
    );
    assert_eq!(headers.get("Content-Type").map(String::as_str), Some("application/json"));
}

#[test]
fn custom_horde_key_is_preserved() {
    let headers = AIHordeAdapter.headers(" my-horde-key ", None);
    assert_eq!(headers.get("apikey").map(String::as_str), Some("my-horde-key"));
}

#[test]
fn img2img_adds_source_processing() {
    let mut request = base_request();
    request.input_images = Some(vec!["https://example.com/ref.png".to_string()]);
    let body = body_of(&request);
    assert_eq!(body.get_str("source_image"), Some("https://example.com/ref.png"));
    assert_eq!(body.get_str("source_processing"), Some("img2img"));
}

#[test]
fn character_reference_image_is_used() {
    let mut request = base_request();
    request.character_reference_image = Some("https://example.com/character.png".to_string());
    let body = body_of(&request);
    assert_eq!(body.get_str("source_image"), Some("https://example.com/character.png"));
    assert_eq!(body.get_str("source_processing"), Some("img2img"));
    assert!(body.get("params").unwrap().get("denoising_strength").is_some());
}

#[test]
fn character_context_reference_image_is_used() {
    let mut request = base_request();
    request.character_context = Some(ImageCharacterContext {
        name: Some("Alice".to_string()),
        description: Some("Anime girl".to_string()),
        appearance: Some("Long black hair".to_string()),
        personality: Some("Shy".to_string()),
        reference_image: Some("https://example.com/alice.png".to_string()),
        reference_images: Vec::new(),
    });
    let body = body_of(&request);
    assert_eq!(body.get_str("source_image"), Some("https://example.com/alice.png"));
}

#[test]
fn scene_character_context_is_added_to_prompt() {
    let mut request = base_request();
    request.scene_context = Some(ImageSceneContext {
        description: Some("A dark forest".to_string()),
        visual_prompt: None,
        negative_prompt: None,
        characters: vec![ImageSceneCharacter {
            character_id: Some("alice".to_string()),
            character: ImageCharacterContext {
                name: Some("Alice".to_string()),
                description: Some("A mysterious anime girl".to_string()),
                appearance: Some("Long black hair".to_string()),
                personality: Some("Quiet and shy".to_string()),
                reference_image: None,
                reference_images: Vec::new(),
            },
            scene_role: Some("Main heroine".to_string()),
            action: Some("Standing in the forest".to_string()),
        }],
        environment: None,
        lighting: None,
        composition: None,
        pose: None,
        outfit: None,
        visual_style: None,
    });
    let body = body_of(&request);
    let prompt = body.get_str("prompt").unwrap();
    assert!(prompt.contains("Alice"));
    assert!(prompt.contains("Long black hair"));
    assert!(prompt.contains("Standing in the forest"));
}

#[test]
fn inpainting_requires_reference_image() {
    let mut request = base_request();
    request.mask_image = Some("https://example.com/mask.png".to_string());
    assert!(AIHordeAdapter.payload(&request).is_err());
}

#[test]
fn inpainting_uses_mask() {
    let mut request = base_request();
    request.character_reference_image = Some("https://example.com/source.png".to_string());
    request.mask_image = Some("https://example.com/mask.png".to_string());
    let body = body_of(&request);
    assert_eq!(body.get_str("source_image"), Some("https://example.com/source.png"));
    assert_eq!(body.get_str("source_mask"), Some("https://example.com/mask.png"));
    assert_eq!(body.get_str("source_processing"), Some("inpainting"));
}

#[test]
fn sorts_online_first_by_count_then_alphabetical() {
    let model = |name: &str, count: u32, eta: Option<u32>| AIHordeModel {
        name: name.to_string(),
        count,
        queued: if count > 0 {
            fraction(ORDER_ONE, 1, "1.0", "1")
        } else {
            fraction(ORDER_ZERO, 0, "0.0", "0")
        },
        eta,
    };
    let models =
        vec![model("Zebra", 0, None), model("Rev Animated", 5, Some(20)), model("Aardvark", 0, None)];
    let models = sort_models(&models);
    assert_eq!(models[0].name, "Rev Animated");
    assert_eq!(models[1].name, "Aardvark");
    assert_eq!(models[2].name, "Zebra");
    assert_eq!(model_names(&models), vec!["Rev Animated", "Aardvark", "Zebra"]);
}

#[test]
fn the_model_list_is_asked_for_images() {
    assert_eq!(model_list_url(), "https://aihorde.net/api/v2/status/models?type=image");
    assert_eq!(model_list_key(Some(" k ")), Some("k"));
    assert_eq!(model_list_key(Some("  ")), None);
    assert_eq!(model_list_key(None), None);
}

#[test]
fn an_empty_prompt_and_a_bad_mask_are_refused() {
    let mut request = base_request();
    request.prompt = "  ".to_string();
    assert_eq!(
        AIHordeAdapter.payload(&request).unwrap_err(),
        "AI Horde requires a non-empty visual prompt."
    );
    request.prompt = "x".to_string();
    request.input_images = Some(vec!["https://a/b.png".to_string()]);
    request.mask_image = Some("no".to_string());
    assert_eq!(
        AIHordeAdapter.payload(&request).unwrap_err(),
        "The supplied AI Horde mask is not a supported URL or image-data value."
    );
}

#[test]
fn a_job_has_its_parameters() {
    let mut request = base_request();
    request.size = Some("600x700".to_string());
    request.n = Some(50);
    let body = body_of(&request);
    let params = body.get("params").unwrap();
    assert_eq!(params.get_u64("width"), Some(576));
    assert_eq!(params.get_u64("height"), Some(704));
    assert_eq!(params.get_u64("n"), Some(20));
    assert_eq!(body.get_bool("shared"), Some(false));
}

#[test]
fn models_are_listed_by_name() {
    let models = parse_models(r#"[{"name":" beta ","count":2},{"count":1},{"name":"Alpha"}]"#).unwrap();
    let names: Vec<&str> = models.iter().map(|m| m.display_name()).collect();
    assert_eq!(names, vec!["Alpha", "beta"]);
    assert!(models[1].is_available());
    assert!(!models[0].is_available());
    let nested = parse_models(r#"{"models":[{"name":"x","performance":1.5}]}"#).unwrap();
    assert_eq!(nested.len(), 1);
    assert!(nested[0].performance.is_some());
    assert!(nested[0].raw.is_some());
    assert!(parse_models("{}").unwrap().is_empty());
    assert!(parse_models("5").unwrap_err().starts_with("Failed to parse AI Horde models: "));
    assert!(parse_models("nonsense").unwrap_err().starts_with("Failed to parse AI Horde models: "));
    assert_eq!(
        models_of_reply(Err("why".to_string()), false).unwrap_err(),
        "Failed to parse AI Horde models: why"
    );
}

#[test]
fn a_list_that_is_given_twice_is_refused() {
    let refusal = "Failed to parse AI Horde models: data did not match any variant of untagged enum AIHordeModelsResponse";
    for text in [
        r#"{"models":[],"models":[{"name":"x"}]}"#,
        r#" { "a" : "\\" , "models" : [ 1 ] , "mod\u0065ls"
            : [ ] } "#,
        r#"{"models":5,"models":[]}"#,
    ] {
        assert_eq!(parse_models(text).unwrap_err(), refusal, "{}", text);
    }
    for text in [
        r#"{"a":1,"a":2,"models":[{"name":"x","models":1}]}"#,
        r#"{"models":[{"name":"x","models":1,"models":2}],"b":"models"}"#,
        r#"{"a":"\"models\":","models":[{"name":"x"}],"b":{"models":[]}}"#,
        r#"[{"name":"x","models":1,"models":2}]"#,
    ] {
        let models = parse_models(text).unwrap();
        assert_eq!(models.len(), 1, "{}", text);
        assert_eq!(models[0].name, "x");
    }
    let reply = r#"{"models":[{"name":"x"}]}"#;
    assert_eq!(models_of_reply(parse(reply), false).unwrap().len(), 1);
    assert_eq!(models_of_reply(parse(reply), true).unwrap_err(), refusal);
    assert_eq!(models_of_reply(parse(r#"[{"name":"x"}]"#), true).unwrap().len(), 1);
}

#[test]
fn horde_settings_do_not_matter() {
    let request = base_request();
    let config = json(r#"{"endpointPath":"/x"}"#);
    assert_eq!(
        AIHordeAdapter.endpoint_with_config("https://h/api/", &request, Some(&config)),
        "https://h/api/v2/generate/async"
    );
    let mut extra = TextMap::new();
    extra.insert("apikey", "mine");
    let headers = AIHordeAdapter.headers_with_config("other", None, Some(&extra), Some(&config));
    assert_eq!(headers.get("apikey").map(String::as_str), Some("mine"));
    assert_eq!(AIHordeAdapter.response_format_with_config(Some(&config)), ImageResponseFormat::Json);
    assert_eq!(AIHordeAdapter.timeout(None), 120);
    assert!(!AIHordeAdapter.requires_api_key());
    assert!(!AIHordeAdapter.supports_stream());
    assert!(!AIHordeAdapter.supports_model_discovery());
    assert!(AIHordeAdapter.required_auth_headers().is_empty());
}
