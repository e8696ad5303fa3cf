use haven_core::image_generator::provider_adapter::config::env_api_key;
use haven_core::image_generator::provider_adapter::gradio::{
    data_of_template, effective_api_key, env_api_key_names, follow_up_key, GradioAdapter,
};
use haven_core::image_generator::provider_adapter::{
    ImageProviderAdapter, ImageRequestPayload, ImageResponseFormat,
};
use haven_core::image_generator::types::ImageGenerationRequest;
use haven_core::json::{parse, print, Json};

fn base_request(prompt: &str, model: &str) -> ImageGenerationRequest {
    ImageGenerationRequest {
        prompt: prompt.to_string(),
        model: model.to_string(),
        provider_id: "gradio".to_string(),
        credential_id: "test".to_string(),
        advanced_model_settings: None,
        input_images: None,
        mask_image: None,
        loras: None,
        character_context: None,
        character_reference_image: None,
        character_reference_images: Vec::new(),
        scene_context: None,
        output_modalities: None,
        size: Some("512x512".to_string()),
        quality: None,
        style: None,
        n: Some(1),
        session_id: None,
        character_id: None,
        character_name: None,
        usage_source: None,
    }
}

fn json(text: &str) -> Json {
    parse(text).unwrap()
}

fn body(payload: ImageRequestPayload) -> Json {
    match payload {
        ImageRequestPayload::Json(v) => v,
        _ => panic!("expected json"),
    }
}

#[test]
fn gradio_endpoint_defaults_to_queue() {
    let req = base_request("test", "DreamShaper_8");
    let url = GradioAdapter.endpoint("https://user-space.hf.space", &req);
    assert_eq!(url, "https://user-space.hf.space/gradio_api/call/predict");
}

#[test]
fn gradio_endpoint_custom() {
    let req = base_request("test", "DreamShaper_8");
    let config = json(r#"{"gradioEndpoint": "generate"}"#);
    let url = GradioAdapter.endpoint_with_config("https://example.com", &req, Some(&config));
    assert_eq!(url, "https://example.com/gradio_api/call/generate");
}

#[test]
fn gradio_endpoint_no_queue() {
    let req = base_request("test", "m");
    let config = json(r#"{"gradioUseQueue": false}"#);
    let url = GradioAdapter.endpoint_with_config("https://example.com", &req, Some(&config));
    assert_eq!(url, "https://example.com/api/predict");
}

#[test]
fn gradio_payload_contains_prompt() {
    let req = base_request("a cat", "DreamShaper_8");
    let val = body(GradioAdapter.payload(&req).unwrap());
    let data = val.get_array("data").unwrap();
    assert_eq!(data[0].as_str().unwrap(), "a cat");
}

#[test]
fn gradio_parses_base64_response() {
    let resp = json(r#"{"data": ["iVBORw0KGgoAAAANSUhEUgAAAAEAAAAB"]}"#);
    let images = GradioAdapter.parse_response(&resp).unwrap();
    assert_eq!(images.len(), 1);
    assert!(images[0].b64_json.is_some());
}

#[test]
fn gradio_parses_url_response() {
    let resp = json(r#"{"data": ["https://example.com/image.png"]}"#);
    let images = GradioAdapter.parse_response(&resp).unwrap();
    assert_eq!(images.len(), 1);
    assert_eq!(images[0].url.as_deref(), Some("https://example.com/image.png"));
}

#[test]
fn gradio_handles_queued_event_id() {
    let resp = json(r#"{"event_id": "abc123"}"#);
    let images = GradioAdapter.parse_response(&resp).unwrap();
    assert_eq!(images.len(), 1);
    assert_eq!(images[0].url.as_deref(), Some("gradio://abc123"));
}

#[test]
fn gradio_handles_docker_style_response() {
    let resp = json(r#"{"image": "base64_docker"}"#);
    let images = GradioAdapter.parse_response(&resp).unwrap();
    assert_eq!(images.len(), 1);
}

#[test]
fn hosting_agnostic_localhost_and_hf() {
    let req = base_request("test", "Flux");
    let localhost = GradioAdapter.endpoint("http://localhost:7860", &req);
    let lan = GradioAdapter.endpoint("http://192.168.1.10:7860", &req);
    let hf = GradioAdapter.endpoint("https://user-dreamshaper.hf.space", &req);
    assert!(localhost.contains("localhost"));
    assert!(lan.contains("192.168.1.10"));
    assert!(hf.contains("hf.space"));
    let payload_str = match GradioAdapter.payload(&req).unwrap() {
        ImageRequestPayload::Json(v) => print(&v),
        ImageRequestPayload::Multipart(_) => String::new(),
    };
    assert_eq!(payload_str.contains("test"), true);
}

#[test]
fn model_switching_reflected() {
    let req1 = base_request("cat", "DreamShaper_8");
    let req2 = base_request("cat", "Flux");
    assert!(GradioAdapter.payload(&req1).is_ok());
    assert!(GradioAdapter.payload(&req2).is_ok());
    let config = json(r#"{"gradioDataTemplate": "[\"{{prompt}}\", \"{{model}}\"]"}"#);
    let v1 = body(GradioAdapter.payload_with_config(&req1, Some(&config)).unwrap());
    let v2 = body(GradioAdapter.payload_with_config(&req2, Some(&config)).unwrap());
    assert!(v1.get_array("data").unwrap()[1].as_str().unwrap().contains("DreamShaper"));
    assert!(v2.get_array("data").unwrap()[1].as_str().unwrap().contains("Flux"));
}

#[test]
fn authentication_via_env() {
    let names = env_api_key_names();
    assert!(names.contains(&"HF_API_KEY"));
    let values: Vec<Option<String>> = names
        .iter()
        .map(|name| {
            if *name == "HF_API_KEY" {
                Some("test_hf_token".to_string())
            } else {
                None
            }
        })
        .collect();
    let headers = GradioAdapter.headers_with_config("", env_api_key(&values), None, None);
    assert!(headers.get("Authorization").is_some());
    assert_eq!(headers.get("Authorization").map(String::as_str), Some("Bearer test_hf_token"));
}

#[test]
fn invalid_response_errors() {
    let resp = json(r#"{"status": "ok"}"#);
    let err = GradioAdapter.parse_response(&resp).unwrap_err();
    assert!(err.contains("did not contain image data"));
}

#[test]
fn a_gradio_error_is_returned() {
    let resp = json(r#"{"error": " out of memory "}"#);
    assert_eq!(
        GradioAdapter.parse_response(&resp).unwrap_err(),
        "Gradio error: out of memory"
    );
}

#[test]
fn a_queued_reply_is_recognized() {
    let queued = json(r#"{"event_id": " 7 "}"#);
    assert!(GradioAdapter::is_gradio_response_queued(&queued));
    assert_eq!(GradioAdapter::extract_event_id(&queued), Some("7".to_string()));
    let done = json(r#"{"event_id": " "}"#);
    assert!(!GradioAdapter::is_gradio_response_queued(&done));
    assert_eq!(GradioAdapter::extract_event_id(&done), None);
}

#[test]
fn a_data_template_that_is_no_list_is_passed_over() {
    assert!(data_of_template(Err("why".to_string())).is_none());
    assert_eq!(data_of_template(Ok(json("[1, 2]"))).unwrap().len(), 2);
}

#[test]
fn keys_of_the_environment_come_second() {
    assert_eq!(effective_api_key(" own ", Some("env")), "own");
    assert_eq!(effective_api_key("", Some("env")), "env");
    assert_eq!(effective_api_key("", None), "");
    let blank = vec![None, Some("  ".to_string()), Some(" k ".to_string())];
    assert_eq!(env_api_key(&blank), Some("k"));
}

#[test]
fn gradio_settings_are_respected() {
    let config = json(r#"{"responseFormat": "BINARY", "timeoutSeconds": 33}"#);
    assert_eq!(
        GradioAdapter.response_format_with_config(Some(&config)),
        ImageResponseFormat::Binary
    );
    assert_eq!(GradioAdapter.response_format(), ImageResponseFormat::Json);
    assert_eq!(GradioAdapter.timeout(Some(&config)), 33);
    assert!(!GradioAdapter.requires_api_key());
}

#[test]
fn no_authentication_sends_no_key() {
    let none = json(r#"{"authType": "none"}"#);
    let headers = GradioAdapter.headers_with_config("key", None, None, Some(&none));
    assert!(!headers.contains_key("Authorization"));
    assert_eq!(follow_up_key("key", Some(&none)), "");
    let bearer = json(r#"{"authType": "bearer"}"#);
    for config in [None, Some(&bearer)] {
        let headers = GradioAdapter.headers_with_config("key", None, None, config);
        assert_eq!(headers.get("Authorization").map(String::as_str), Some("Bearer key"));
        assert_eq!(follow_up_key("key", config), "key");
    }
}
