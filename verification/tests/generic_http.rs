use haven_core::chat::AdvancedModelSettings;
use haven_core::fraction::fraction;
use haven_core::image_generator::provider_adapter::generic_http::{
    collect_images_from_value, effective_api_key, env_api_key_names, extract_by_path,
    payload_of_template, GenericHttpAdapter,
};
use haven_core::image_generator::provider_adapter::{
    ImageProviderAdapter, ImageRequestPayload, ImageResponseFormat,
};
use haven_core::image_generator::types::ImageGenerationRequest;
use haven_core::json::{parse, print, Json};
use haven_core::text_map::TextMap;

fn base_request(prompt: &str, model: &str) -> ImageGenerationRequest {
    ImageGenerationRequest {
        prompt: prompt.to_string(),
        model: model.to_string(),
        provider_id: "generic_http".to_string(),
        credential_id: "test-cred".to_string(),
        advanced_model_settings: None,
        input_images: None,
        mask_image: None,
        loras: None,
        character_context: None,
        character_reference_image: None,
        character_reference_images: Vec::new(),
        scene_context: None,
        output_modalities: None,
        size: Some("512x512".to_string()),
        quality: None,
        style: None,
        n: Some(1),
        session_id: None,
        character_id: None,
        character_name: None,
        usage_source: None,
    }
}

fn json(text: &str) -> Json {
    parse(text).unwrap()
}

fn body(payload: ImageRequestPayload) -> Json {
    match payload {
        ImageRequestPayload::Json(v) => v,
        _ => panic!("expected json"),
    }
}

#[test]
fn generic_json_request_contains_prompt_and_size() {
    let req = base_request("a cat", "DreamShaper_8");
    let val = body(GenericHttpAdapter.payload(&req).unwrap());
    assert_eq!(val.get_str("prompt"), Some("a cat"));
    assert_eq!(val.get_str("model"), Some("DreamShaper_8"));
    assert_eq!(val.get_u64("width"), Some(512));
    assert_eq!(val.get_u64("height"), Some(512));
}

#[test]
fn generic_handles_template() {
    let req = base_request("hello", "Flux");
    let config =
        json(r#"{"requestTemplate": "{\"inputs\": \"{{prompt}}\", \"model\": \"{{model}}\"}"}"#);
    let val = body(GenericHttpAdapter.payload_with_config(&req, Some(&config)).unwrap());
    assert_eq!(val.get_str("inputs"), Some("hello"));
    assert_eq!(val.get_str("model"), Some("Flux"));
}

#[test]
fn generic_parses_base64_response() {
    let resp = json(
        r#"{"image": "iVBORw0KGgoAAAANSUhEUgAAAAEAAAABCAQAAAC1HAwCAAAAC0lEQVR42mP8/x8AAwMCAO+ip1sAAAAASUVORK5CYII="}"#,
    );
    let images = GenericHttpAdapter.parse_response(&resp).unwrap();
    assert_eq!(images.len(), 1);
    assert!(images[0].b64_json.is_some());
    assert!(images[0].url.is_none());
}

#[test]
fn generic_parses_url_response() {
    let resp = json(r#"{"url": "https://example.com/image.png"}"#);
    let images = GenericHttpAdapter.parse_response(&resp).unwrap();
    assert_eq!(images.len(), 1);
    assert_eq!(images[0].url.as_deref(), Some("https://example.com/image.png"));
}

#[test]
fn generic_parses_array_of_images() {
    let resp = json(r#"{"images": ["base64_1", "base64_2"]}"#);
    let images = GenericHttpAdapter.parse_response(&resp).unwrap();
    assert_eq!(images.len(), 2);
}

#[test]
fn generic_uses_custom_response_field() {
    let resp = json(r#"{"output": {"my_image": "base64_custom"}}"#);
    let config = json(r#"{"responseImageField": "output.my_image"}"#);
    let images = GenericHttpAdapter.parse_response_with_config(&resp, Some(&config)).unwrap();
    assert_eq!(images.len(), 1);
    assert_eq!(images[0].b64_json.as_deref(), Some("base64_custom"));
}

#[test]
fn binary_response_format_respected() {
    let config = json(r#"{"responseFormat": "binary"}"#);
    assert_eq!(
        GenericHttpAdapter.response_format_with_config(Some(&config)),
        ImageResponseFormat::Binary
    );
    assert_eq!(GenericHttpAdapter.response_format(), ImageResponseFormat::Json);
}

#[test]
fn authentication_bearer() {
    let config = json(r#"{"authType": "bearer"}"#);
    let headers = GenericHttpAdapter.headers_with_config("my-token", None, None, Some(&config));
    assert_eq!(headers.get("Authorization").map(|s| s.as_str()), Some("Bearer my-token"));
}

#[test]
fn authentication_api_key() {
    let config = json(r#"{"authType": "apiKey", "authHeaderName": "x-api-key"}"#);
    let headers = GenericHttpAdapter.headers_with_config("secret123", None, None, Some(&config));
    assert_eq!(headers.get("x-api-key").map(|s| s.as_str()), Some("secret123"));
}

#[test]
fn authentication_none_no_header() {
    let config = json(r#"{"authType": "none"}"#);
    let headers =
        GenericHttpAdapter.headers_with_config("should-not-appear", None, None, Some(&config));
    assert!(!headers.contains_key("Authorization"));
    assert!(!headers.contains_key("x-api-key"));
}

#[test]
fn timeout_config_respected() {
    let config = json(r#"{"timeoutSeconds": 30}"#);
    assert_eq!(GenericHttpAdapter.timeout(Some(&config)), 30);
    assert_eq!(GenericHttpAdapter.timeout(None), 120);
}

#[test]
fn http_error_handled_as_invalid_response() {
    let resp = json(r#"{"error": "invalid prompt"}"#);
    let err = GenericHttpAdapter.parse_response(&resp).unwrap_err();
    assert!(err.contains("Provider error") || err.contains("invalid"));
}

#[test]
fn invalid_response_no_image_field_errors() {
    let resp = json(r#"{"status": "ok", "message": "no image here"}"#);
    let err = GenericHttpAdapter.parse_response(&resp).unwrap_err();
    assert!(err.contains("did not contain any image data"));
}

#[test]
fn model_switching_reflected_in_payload() {
    let p1 = body(GenericHttpAdapter.payload(&base_request("cat", "DreamShaper_8")).unwrap());
    let p2 = body(GenericHttpAdapter.payload(&base_request("cat", "Flux")).unwrap());
    assert_eq!(p1.get_str("model"), Some("DreamShaper_8"));
    assert_eq!(p2.get_str("model"), Some("Flux"));
}

#[test]
fn endpoint_building_respects_base_url() {
    let req = base_request("test", "model");
    assert_eq!(
        GenericHttpAdapter.endpoint("https://example.com/api/generate", &req),
        "https://example.com/api/generate"
    );
    assert_eq!(
        GenericHttpAdapter.endpoint_with_config(
            "https://example.com",
            &req,
            Some(&json(r#"{"endpointPath": "/generate"}"#))
        ),
        "https://example.com/generate"
    );
}

#[test]
fn a_path_that_is_there_is_not_added_again() {
    let req = base_request("test", "model");
    let config = json(r#"{"endpointPath": "generate"}"#);
    assert_eq!(
        GenericHttpAdapter.endpoint_with_config("https://e.com/generate/", &req, Some(&config)),
        "https://e.com/generate"
    );
    assert_eq!(
        GenericHttpAdapter.endpoint_with_config("https://e.com/", &req, Some(&config)),
        "https://e.com/generate"
    );
    assert_eq!(GenericHttpAdapter.endpoint_with_config("", &req, Some(&config)), "");
}

#[test]
fn the_default_body_has_every_parameter() {
    let mut req = base_request("p", "m");
    req.advanced_model_settings = Some(AdvancedModelSettings {
        context_length: None,
        max_output_tokens: None,
        sd_steps: Some(30),
        sd_cfg_scale: Some(fraction(0x4016_0000_0000_0000, 5, "5.5", "5.5")),
        sd_denoising_strength: None,
        sd_seed: Some(42),
        sd_size: None,
        sd_negative_prompt: Some("ugly".to_string()),
        sd_extra_prompt: None,
        sd_base_loras: None,
    });
    req.input_images = Some(vec!["i1".to_string()]);
    req.mask_image = Some("mask".to_string());
    let val = body(GenericHttpAdapter.payload(&req).unwrap());
    assert_eq!(
        print(&val),
        concat_lines(&[
            r#"{"prompt":"p","negative_prompt":"ugly","model":"m","width":512,"height":512,"steps":30,"#,
            r#""cfg_scale":5.5,"cfgScale":5.5,"guidance_scale":5.5,"seed":42,"n":1,"num_images":1,"#,
            r#""batch_size":1,"images":["i1"],"init_images":["i1"],"image":"i1","init_image":"i1","#,
            r#""mask":"mask","mask_image":"mask","inputs":"p","#,
            r#""parameters":{"width":512,"height":512,"steps":30,"cfg_scale":5.5}}"#,
        ])
    );
}

fn concat_lines(lines: &[&str]) -> String {
    lines.concat()
}

#[test]
fn a_template_is_filled_in_and_escaped() {
    let mut req = base_request("say \"hi\"\n\\", "m");
    req.input_images = Some(vec!["a".to_string(), "b".to_string()]);
    let config = json(
        r#"{"request_template": "{\"p\": \"{{prompt}}\", \"w\": {{width}}, \"c\": {{cfg}}, \"s\": {{seed}}, \"n\": {{n}}, \"l\": {{images}}, \"i\": \"{{image}}\"}"}"#,
    );
    let val = body(GenericHttpAdapter.payload_with_config(&req, Some(&config)).unwrap());
    assert_eq!(
        print(&val),
        r#"{"c":7,"i":"a","l":["a","b"],"n":1,"p":"say \"hi\"\n\\","s":-1,"w":512}"#
    );
}

#[test]
fn a_template_that_is_no_json_is_refused() {
    let req = base_request("p", "m");
    let config = json(r#"{"requestTemplate": "{{{prompt}}"}"#);
    let err = GenericHttpAdapter.payload_with_config(&req, Some(&config)).unwrap_err();
    assert!(err.starts_with("Failed to parse requestTemplate as JSON after rendering: "));
    assert!(err.ends_with("(rendered: {p)"));
    assert_eq!(
        payload_of_template(Err("why".to_string()), "t").unwrap_err(),
        "Failed to parse requestTemplate as JSON after rendering: why (rendered: t)"
    );
    assert_eq!(print(&payload_of_template(Ok(json("[1]")), "t").unwrap()), "[1]");
}

#[test]
fn a_key_goes_where_the_settings_say() {
    let send = |config: &str, key: &str| {
        GenericHttpAdapter.headers_with_config(key, None, None, Some(&json(config)))
    };
    let custom = send(r#"{"authType":"custom","customHeaders":{"X":"1"},"authHeaderName":"Y"}"#, "k");
    assert_eq!(custom.get("X").map(String::as_str), Some("1"));
    assert_eq!(custom.get("Y").map(String::as_str), Some("k"));
    let header = send(r#"{"authType":"header"}"#, "k");
    assert_eq!(header.get("Authorization").map(String::as_str), Some("Bearer k"));
    let given = send(r#"{"authType":"header"}"#, "bearer k");
    assert_eq!(given.get("Authorization").map(String::as_str), Some("bearer k"));
    let unknown = send(r#"{"authType":"else"}"#, "k");
    assert_eq!(unknown.get("Authorization").map(String::as_str), Some("Bearer k"));
    let without = send(r#"{"authType":"bearer"}"#, "");
    assert!(!without.contains_key("Authorization"));
    let listed = send(r#"{"headers":{"Accept":"image/png","N":1}}"#, "");
    assert_eq!(listed.get("Accept").map(String::as_str), Some("image/png"));
    assert!(!listed.contains_key("N"));
}

#[test]
fn header_fields_of_the_caller_win() {
    let mut extra = TextMap::new();
    extra.insert("Authorization", "mine");
    let config = json(r#"{"authType":"bearer","headers":{"Authorization":"theirs"}}"#);
    let headers =
        GenericHttpAdapter.headers_with_config("k", None, Some(&extra), Some(&config));
    assert_eq!(headers.get("Authorization").map(String::as_str), Some("mine"));
    let plain = GenericHttpAdapter.headers("k", Some(&extra));
    assert_eq!(plain.get("Authorization").map(String::as_str), Some("mine"));
    assert_eq!(plain.entries().len(), 2);
}

#[test]
fn a_key_is_taken_from_the_first_place_that_has_one() {
    let config = json(r#"{"apiKey":"settings"}"#);
    assert_eq!(effective_api_key(" own ", Some("env"), Some(&config)), "own");
    assert_eq!(effective_api_key(" ", Some("env"), Some(&config)), "env");
    assert_eq!(effective_api_key("", None, Some(&config)), "settings");
    assert_eq!(effective_api_key("", None, None), "");
    assert!(env_api_key_names().contains(&"HF_API_KEY"));
}

#[test]
fn a_path_leads_into_a_reply() {
    let reply = json(r#"{"data":[{"b64":"x"},{"b64":"y"}]}"#);
    assert_eq!(extract_by_path(&reply, "data[1].b64").unwrap().as_str(), Some("y"));
    assert_eq!(extract_by_path(&reply, "data.0.b64").unwrap().as_str(), Some("x"));
    assert!(extract_by_path(&reply, "data[7]").is_none());
    assert!(extract_by_path(&reply, "nothing").is_none());
}

#[test]
fn images_are_found_in_nested_replies() {
    let reply = json(r#"{"data":[{"url":"https://a/1.png"},{"b64_json":"AAAA"}]}"#);
    let mut images = Vec::new();
    collect_images_from_value(&reply, &mut images);
    assert_eq!(images.len(), 2);
    assert_eq!(images[0].url.as_deref(), Some("https://a/1.png"));
    assert_eq!(images[1].b64_json.as_deref(), Some("AAAA"));
}

#[test]
fn time_limits_stay_in_their_bounds() {
    let limit = |text: &str| GenericHttpAdapter.timeout(Some(&json(text)));
    assert_eq!(limit(r#"{"timeout_seconds": 45}"#), 45);
    assert_eq!(limit(r#"{"timeout": 50}"#), 50);
    assert_eq!(limit(r#"{"timeoutSeconds": 0}"#), 5);
    assert_eq!(limit(r#"{"timeoutSeconds": 999999999}"#), 600);
    assert_eq!(limit("{}"), 120);
}

#[test]
fn generic_payload_holds_the_prompt() {
    let req = base_request("test", "DreamShaper_8");
    let val = body(GenericHttpAdapter.payload(&req).unwrap());
    assert_eq!(val.get_str("prompt"), Some("test"));
}

#[test]
fn short_texts_are_no_images() {
    for text in [
        r#"{"image": "busy"}"#,
        r#"{"images": "busy"}"#,
        r#"{"generated_images": ["x"]}"#,
        r#"{"status": "ok"}"#,
    ] {
        assert!(GenericHttpAdapter.parse_response(&json(text)).is_err(), "{}", text);
    }
}

#[test]
fn a_configured_field_goes_before_all_others() {
    let config = json(r#"{"responseImageField": "out"}"#);
    let resp = json(r#"{"out": "https://example.com/b.png", "url": "https://example.com/a.png", "error": "e"}"#);
    let images = GenericHttpAdapter.parse_response_with_config(&resp, Some(&config)).unwrap();
    assert_eq!(images.len(), 1);
    assert_eq!(images[0].url.as_deref(), Some("https://example.com/b.png"));
}

#[test]
fn a_short_text_in_the_configured_field_goes_last() {
    let config = json(r#"{"responseImageField": "image"}"#);
    let refused = json(r#"{"image": "none", "error": "quota"}"#);
    assert_eq!(
        GenericHttpAdapter.parse_response_with_config(&refused, Some(&config)).unwrap_err(),
        "Provider error: quota"
    );
    let linked = json(r#"{"image": "none", "url": "https://example.com/a.png"}"#);
    let images = GenericHttpAdapter.parse_response_with_config(&linked, Some(&config)).unwrap();
    assert_eq!(images.len(), 1);
    assert_eq!(images[0].url.as_deref(), Some("https://example.com/a.png"));
    let alone = json(r#"{"image": "short", "images": ["x", "y"]}"#);
    let images = GenericHttpAdapter.parse_response_with_config(&alone, Some(&config)).unwrap();
    assert_eq!(images.len(), 1);
    assert_eq!(images[0].b64_json.as_deref(), Some("short"));
}

#[test]
fn an_escaped_prompt_is_read_back() {
    let config = json(r#"{"requestTemplate": "{\"p\": \"{{prompt}}\"}"}"#);
    for prompt in ["", "a\\nb", "say \"hi\"\r\n\tC:\\new \u{e9}\u{1f600}", "\\\"\\\\"] {
        let req = base_request(prompt, "m");
        let val = body(GenericHttpAdapter.payload_with_config(&req, Some(&config)).unwrap());
        assert_eq!(val.get_str("p"), Some(prompt));
    }
}
