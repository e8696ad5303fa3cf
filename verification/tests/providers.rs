use haven_core::image_generator::commands::{
    choose_api_key, comfyui_image_source, conclude_connection_test, conclude_saving,
    connection_adapter, gemini_image_endpoint, generated_image, generation_response,
    generation_route, history_record, image_generation_usage, image_source, judge_first_reply,
    judge_second_reply, model_discovery, model_names, models_error, next_reply_step, plan_request,
    read_reply, record_image_generation_usage, second_try_url, sends_header, ConnectionTry,
    GenerationRoute, ModelDiscovery, ProbeReply, ProviderReply, ReplyStep, SavedImage,
    UsageFinishReason, UsageSummary,
};
use haven_core::image_generator::provider_adapter::aihorde::AIHordeAdapter;
use haven_core::image_generator::provider_adapter::generic_http::GenericHttpAdapter;
use haven_core::image_generator::provider_adapter::gradio::GradioAdapter;
use haven_core::image_generator::provider_adapter::{
    available_providers, get_adapter, normalize_provider_id, parse_size_dimensions, AdapterKind,
    ImageResponseData, ImageResponseFormat,
};
use haven_core::image_generator::types::{
    ImageCharacterContext, ImageGenerationRequest, ImageGenerationResponse,
};
use haven_core::json::{parse, Json};

fn request(provider_id: &str) -> ImageGenerationRequest {
    ImageGenerationRequest {
        prompt: "a cat".to_string(),
        model: "m".to_string(),
        provider_id: provider_id.to_string(),
        credential_id: "c".to_string(),
        advanced_model_settings: None,
        input_images: None,
        mask_image: None,
        loras: None,
        character_context: None,
        character_reference_image: None,
        character_reference_images: Vec::new(),
        scene_context: None,
        output_modalities: None,
        size: None,
        quality: None,
        style: None,
        n: None,
        session_id: None,
        character_id: None,
        character_name: None,
        usage_source: None,
    }
}

fn json(text: &str) -> Json {
    parse(text).unwrap()
}

fn data(url: Option<&str>, b64: Option<&str>, text: Option<&str>) -> ImageResponseData {
    ImageResponseData {
        url: url.map(str::to_string),
        b64_json: b64.map(str::to_string),
        text: text.map(str::to_string),
    }
}

fn saved(id: &str) -> SavedImage {
    SavedImage {
        asset_id: id.to_string(),
        file_path: "/tmp/x".to_string(),
        mime_type: "image/png".to_string(),
        width: Some(1),
        height: None,
    }
}

#[test]
fn parses_valid_size() {
    assert_eq!(parse_size_dimensions(Some("768x512"), 512, 512), (768, 512));
}

#[test]
fn invalid_size_uses_default() {
    assert_eq!(parse_size_dimensions(Some("invalid"), 512, 512), (512, 512));
}

#[test]
fn zero_size_uses_default() {
    assert_eq!(parse_size_dimensions(Some("0x512"), 512, 512), (512, 512));
}

#[test]
fn normalizes_ai_horde_alias() {
    assert_eq!(normalize_provider_id("ai-horde"), "aihorde");
    assert_eq!(normalize_provider_id("AI_HORDE"), "aihorde");
    assert_eq!(normalize_provider_id("aihorde"), "aihorde");
}

#[test]
fn normalizes_gemini_alias() {
    assert_eq!(normalize_provider_id("google-gemini"), "gemini");
}

#[test]
fn aihorde_adapter_is_registered() {
    let adapter = get_adapter("aihorde");
    assert!(adapter.is_ok());
}

#[test]
fn aihorde_alias_is_registered() {
    let adapter = get_adapter("ai-horde");
    assert!(adapter.is_ok());
}

#[test]
fn unknown_provider_returns_error() {
    let result = get_adapter("does-not-exist");
    assert!(result.is_err());
    assert_eq!(result.unwrap_err(), "Image provider 'does-not-exist' is not supported");
}

#[test]
fn provider_list_contains_ai_horde() {
    let providers = available_providers();
    assert!(providers.iter().any(|provider| { provider.id == "aihorde" }));
}

#[test]
fn every_listed_provider_has_an_adapter() {
    for provider in available_providers() {
        assert!(get_adapter(provider.id).is_ok(), "{}", provider.id);
        assert_eq!(normalize_provider_id(provider.id), provider.id);
    }
    assert_eq!(get_adapter(" HF-Space "), Ok(AdapterKind::Gradio));
    assert_eq!(get_adapter("docker"), Ok(AdapterKind::GenericHttp));
}

#[test]
fn sizes_at_the_edge() {
    assert_eq!(parse_size_dimensions(Some(" 64 x 32 "), 1, 2), (64, 32));
    assert_eq!(parse_size_dimensions(Some("64x"), 1, 2), (1, 2));
    assert_eq!(parse_size_dimensions(Some("4294967296x1"), 1, 2), (1, 2));
    assert_eq!(parse_size_dimensions(Some("4294967295x1"), 1, 2), (4294967295, 1));
    assert_eq!(parse_size_dimensions(None, 1, 2), (1, 2));
}

#[test]
fn providers_have_their_routes() {
    assert_eq!(generation_route("sdcpp"), Ok(GenerationRoute::Sdcpp));
    assert_eq!(generation_route("comfyui"), Ok(GenerationRoute::ComfyUi));
    assert_eq!(
        generation_route("openai"),
        Ok(GenerationRoute::Adapter(AdapterKind::OpenAI))
    );
    assert!(generation_route("nobody").is_err());
}

#[test]
fn keys_are_asked_for_where_they_are_required() {
    assert_eq!(choose_api_key(true, &Some("k".to_string()), "p"), Ok("k".to_string()));
    assert_eq!(choose_api_key(false, &None, "p"), Ok(String::new()));
    assert_eq!(
        choose_api_key(true, &None, "p"),
        Err("API key not found for provider 'p'".to_string())
    );
}

#[test]
fn gemini_addresses_lose_their_version() {
    let expected = "https://g/v1beta/models/m:generateContent?key=k";
    assert_eq!(gemini_image_endpoint("https://g/", "m", "k"), expected);
    assert_eq!(gemini_image_endpoint("https://g/v1beta/", "m", "k"), expected);
    assert_eq!(gemini_image_endpoint("https://g/v1", "m", "k"), expected);
}

#[test]
fn a_request_is_planned_through_its_adapter() {
    let config = json(r#"{"endpointPath":"/go","responseFormat":"image","timeoutSeconds":20}"#);
    let plan = plan_request(
        &GenericHttpAdapter,
        &request("generic_http"),
        "https://h",
        "k",
        None,
        None,
        Some(&config),
    )
    .unwrap();
    assert_eq!(plan.url, "https://h/go");
    assert_eq!(plan.timeout_seconds, 20);
    assert_eq!(plan.response_format, ImageResponseFormat::Binary);
    assert_eq!(plan.headers.get("Authorization").map(String::as_str), Some("Bearer k"));
    let gemini = plan_request(
        &GenericHttpAdapter,
        &request("gemini"),
        "https://g",
        "k",
        None,
        None,
        None,
    )
    .unwrap();
    assert_eq!(gemini.url, "https://g/v1beta/models/m:generateContent?key=k");
    let mut empty = request("aihorde");
    empty.prompt = String::new();
    let refused = plan_request(&AIHordeAdapter, &empty, "https://h", "", None, None, None);
    assert_eq!(refused.unwrap_err(), "AI Horde requires a non-empty visual prompt.");
}

#[test]
fn a_form_sets_its_own_content_type() {
    assert!(!sends_header("Content-TYPE", true));
    assert!(sends_header("Content-Type", false));
    assert!(sends_header("Accept", true));
}

#[test]
fn replies_are_followed_up() {
    let horde = ProviderReply::Body(json(r#"{"id":" 9 "}"#));
    match read_reply(&AIHordeAdapter, "aihorde", horde, None).unwrap() {
        ReplyStep::FollowHordeJob(id) => assert_eq!(id, "9"),
        other => panic!("{:?}", other),
    }
    let config = json(r#"{"endpoint":"draw"}"#);
    let queued = ProviderReply::Body(json(r#"{"event_id":"e"}"#));
    match read_reply(&GradioAdapter, "hf", queued, Some(&config)).unwrap() {
        ReplyStep::FollowGradioEvent { endpoint_name, event_id } => {
            assert_eq!(endpoint_name, "draw");
            assert_eq!(event_id, "e");
        }
        other => panic!("{:?}", other),
    }
    let direct = ProviderReply::Body(json(r#"{"url":"https://a/b.png"}"#));
    match read_reply(&GenericHttpAdapter, "generic_http", direct, None).unwrap() {
        ReplyStep::Save(images) => assert_eq!(images.len(), 1),
        other => panic!("{:?}", other),
    }
    let bytes = ProviderReply::Image(vec![1, 2]);
    match read_reply(&GenericHttpAdapter, "generic_http", bytes, None).unwrap() {
        ReplyStep::SaveBytes(b) => assert_eq!(b, vec![1, 2]),
        other => panic!("{:?}", other),
    }
}

#[test]
fn bad_replies_are_refused() {
    let none = ProviderReply::Image(vec![]);
    assert_eq!(
        read_reply(&GenericHttpAdapter, "generic_http", none, None).unwrap_err(),
        "Provider returned an empty image response"
    );
    let refused =
        ProviderReply::Refused { status: "500 Internal".to_string(), body: "oops".to_string() };
    assert_eq!(
        read_reply(&GenericHttpAdapter, "generic_http", refused, None).unwrap_err(),
        "API error 500 Internal: oops"
    );
    assert_eq!(
        next_reply_step("ai-horde", vec![data(Some("https://a"), None, None)], None).unwrap_err(),
        "AI Horde did not return a valid generation ID."
    );
}

#[test]
fn images_are_saved_from_their_link_or_their_data() {
    assert_eq!(image_source(&data(Some("u"), Some("b"), None)), Ok("u"));
    assert_eq!(image_source(&data(None, Some("b"), None)), Ok("b"));
    assert_eq!(
        image_source(&data(None, None, Some(&format!("  {}", "x".repeat(200))))),
        Err(format!(
            "No image URL or data in response. Provider returned text instead: {}",
            "x".repeat(160)
        ))
    );
    assert_eq!(
        image_source(&data(None, None, Some(" "))),
        Err("No image URL or data in response.".to_string())
    );
    assert_eq!(comfyui_image_source(&data(None, Some("b"), None)), Ok("b"));
    assert_eq!(
        comfyui_image_source(&data(None, None, Some("t"))),
        Err("No image data in ComfyUI response.".to_string())
    );
}

#[test]
fn a_response_needs_an_image() {
    let image = generated_image(saved("a"), Some("u".to_string()), None);
    assert_eq!(image.asset_id, "a");
    let response = conclude_saving(vec![image], &request("p")).unwrap();
    assert_eq!(response.model, "m");
    assert_eq!(response.provider_id, "p");
    assert_eq!(response.images[0].url.as_deref(), Some("u"));
    assert_eq!(
        conclude_saving(vec![], &request("p")).unwrap_err(),
        "Image provider returned no images."
    );
}

#[test]
fn generations_are_recorded() {
    let record = history_record(&request("p"), "asset", 5);
    assert_eq!(record.id, "asset");
    assert_eq!(record.prompt, "a cat");
    assert_eq!(record.status, "complete");
    let mut req = request("p");
    req.character_context = Some(ImageCharacterContext {
        name: None,
        description: None,
        appearance: None,
        personality: None,
        reference_image: None,
        reference_images: Vec::new(),
    });
    req.input_images = Some(vec!["i".to_string()]);
    req.usage_source = Some("scene".to_string());
    req.character_name = Some("  ".to_string());
    let usage = image_generation_usage("id".to_string(), 7, &req, "label", None, true, None, 2);
    assert_eq!(usage.character_name, "Image Generation");
    assert_eq!(usage.session_id, "image_generation");
    assert_eq!(usage.finish_reason, UsageFinishReason::Stop);
    let noted = |key: &str| usage.metadata.get(key).map(String::as_str);
    assert_eq!(noted("input_image_count"), Some("1"));
    assert_eq!(noted("output_image_count"), Some("2"));
    assert_eq!(noted("character_context"), Some("true"));
    assert_eq!(noted("scene_context"), None);
    assert_eq!(noted("usage_source"), Some("scene"));
    assert_eq!(noted("model_configuration"), Some("models_setting"));
    let failed =
        image_generation_usage("id".to_string(), 7, &req, "l", None, false, Some("e".to_string()), 0);
    assert_eq!(failed.finish_reason, UsageFinishReason::Error);
    assert_eq!(failed.error_message.as_deref(), Some("e"));
}

#[test]
fn the_outcome_decides_what_is_recorded() {
    let req = request("aihorde");
    let record = |outcome: &Result<ImageGenerationResponse, String>| {
        let summary = UsageSummary {
            prompt_tokens: Some(3),
            completion_tokens: None,
            total_tokens: None,
            reasoning_tokens: None,
            image_tokens: None,
            audio_tokens: None,
            web_search_requests: None,
            api_cost: None,
        };
        record_image_generation_usage(7, &req, "label", Some(summary), outcome)
    };
    let saved = SavedImage {
        asset_id: "a".to_string(),
        file_path: "f".to_string(),
        mime_type: "m".to_string(),
        width: None,
        height: None,
    };
    let done = record(&Ok(generation_response(vec![generated_image(saved, None, None)], &req)));
    assert!(done.success);
    assert_eq!(done.finish_reason, UsageFinishReason::Stop);
    assert_eq!(done.summary.unwrap().prompt_tokens, Some(3));
    assert_eq!(done.error_message, None);
    assert_eq!(done.metadata.get("output_image_count").map(String::as_str), Some("1"));
    let failed = record(&Err("no".to_string()));
    assert!(!failed.success);
    assert_eq!(failed.finish_reason, UsageFinishReason::Error);
    assert!(failed.summary.is_none());
    assert_eq!(failed.error_message.as_deref(), Some("no"));
    assert_eq!(failed.metadata.get("output_image_count").map(String::as_str), Some("0"));
    assert_eq!((failed.id.len(), failed.timestamp), (36, 7));
    assert_eq!(failed.provider_label, "label");
}

#[test]
fn connections_are_tried() {
    let judge = |status: u16| {
        judge_first_reply(
            "p",
            "https://h",
            ProbeReply::Answered {
                status,
                status_text: format!("{} X", status),
                body: "y".repeat(300),
            },
        )
    };
    for status in [200, 204, 299, 401, 404, 405] {
        assert_eq!(
            judge(status),
            Ok(format!("Connection successful (p https://h is reachable, status {} X)", status))
        );
    }
    for status in [199, 300, 403, 500] {
        assert_eq!(judge(status), Err(format!("{} X: {}", status, "y".repeat(200))));
    }
    assert_eq!(
        judge_first_reply("p", "https://h", ProbeReply::Unsent("no route".to_string())),
        Err("GET failed: no route".to_string())
    );
    assert_eq!(connection_adapter("hf"), Ok(AdapterKind::Gradio));
    assert_eq!(
        connection_adapter("SdCpp"),
        Err("Unknown provider 'SdCpp': Image provider 'sdcpp' is not supported".to_string())
    );
    assert_eq!(second_try_url("gradio", "https://h/"), Some("https://h/config".to_string()));
    assert_eq!(second_try_url("openai", "https://h/"), None);
    assert_eq!(
        judge_second_reply("https://h/config", 200, "200 OK"),
        Some("Gradio Space reachable at https://h/config (status 200 OK)".to_string())
    );
    assert_eq!(judge_second_reply("https://h/config", 404, "404"), None);
    assert_eq!(
        conclude_connection_test(ConnectionTry::Connected("ok".to_string()), 5, "u"),
        Ok("ok".to_string())
    );
    assert_eq!(
        conclude_connection_test(ConnectionTry::Refused("no".to_string()), 5, "u"),
        Err("Connection test failed: no".to_string())
    );
    assert_eq!(
        conclude_connection_test(ConnectionTry::TimedOut, 5, "u"),
        Err("Connection timed out after 5s to u".to_string())
    );
}

#[test]
fn models_are_discovered() {
    assert!(matches!(model_discovery("AI-Horde", "https://h", None), Ok(ModelDiscovery::Horde)));
    let place = |config: Option<&Json>| match model_discovery("generic", "https://h/", config) {
        Ok(ModelDiscovery::Endpoint(url)) => url,
        other => panic!("{:?}", other),
    };
    assert_eq!(place(None), "https://h/models");
    assert_eq!(place(Some(&json(r#"{"modelsEndpoint":"/v1/models"}"#))), "https://h/v1/models");
    assert_eq!(place(Some(&json(r#"{"models_endpoint":"https://x/y"}"#))), "https://x/y");
    assert_eq!(
        model_discovery("openai", "https://h", None).unwrap_err(),
        "Model discovery not supported for provider 'openai'. Enter model name manually (e.g. DreamShaper_8, Flux, SDXL)."
    );
    assert!(model_discovery("gradio", "https://h", None).is_err());
    assert_eq!(models_error("404", "gone"), "Models endpoint returned 404: gone");
    let list = json(r#"{"data":[{"id":" a "},{"name":"b"},"c",{"id":""},5]}"#);
    assert_eq!(model_names(&list).unwrap(), vec!["a", "b", "c"]);
    assert_eq!(
        model_names(&json("[]")).unwrap_err(),
        "Models response contained no model IDs"
    );
    assert_eq!(
        model_names(&json("{}")).unwrap_err(),
        "Models response did not contain a list (expected {\"data\": [...]})"
    );
}
