use haven_core::chat::{Model, ProviderCredential, RequestSettings};
use haven_core::context_window::{CountSource, TokenCounts};
use haven_core::executor::{
    clamp_request_body, conclude_generation, final_output_budget, finalize_request,
    prepare_generation, provider_error_message, reads_as_event_stream, reply_has_content,
    ConversationExecutionFailure, GenerationReply, FALLBACK_CONTEXT_LENGTH,
};
use haven_core::json::{parse, print, Json};

fn json(text: &str) -> Json {
    parse(text).unwrap()
}

fn settings(max_tokens: u32, context_length: Option<u32>, reasoning: Option<u32>) -> RequestSettings {
    RequestSettings { max_tokens, context_length, reasoning_budget: reasoning }
}

fn model() -> Model {
    Model {
        id: "m".to_string(),
        name: "m".to_string(),
        provider_id: "openai".to_string(),
        advanced_model_settings: None,
    }
}

fn cred() -> ProviderCredential {
    ProviderCredential { id: "c".to_string(), provider_id: "openai".to_string(), base_url: None }
}

fn reply(text: Option<&str>) -> GenerationReply<u32> {
    GenerationReply {
        status: 200,
        ok: true,
        error_message: None,
        usage: Some(5),
        aborted: false,
        text: text.map(str::to_string),
        reasoning: None,
        gemini_content: None,
        image_data_urls: Vec::new(),
        blocked: false,
    }
}

fn failure(reply: GenerationReply<u32>) -> (String, Option<u32>) {
    let f = conclude_generation(reply, "k".to_string()).unwrap_err();
    (f.message, f.usage)
}

#[test]
fn an_earlier_budget_is_applied() {
    let messages = vec![json(r#"{"role":"user","content":"x"}"#)];
    let counts = TokenCounts { source: CountSource::Tokenizer, counts: vec![2] };
    let mut rs = settings(4096, Some(8192), None);
    let result =
        prepare_generation::<u32>(&messages, &counts, &mut rs, Some(100), &model(), &cred())
            .unwrap();
    assert_eq!(rs.max_tokens, 100);
    assert_eq!(result.final_output_tokens, 100);
    let mut tiny = settings(50, Some(20), None);
    let huge = TokenCounts { source: CountSource::Tokenizer, counts: vec![500] };
    let failed = prepare_generation::<u32>(&messages, &huge, &mut tiny, None, &model(), &cred());
    let failed = failed.unwrap_err();
    assert!(failed.message.contains("exceeds"));
    assert!(failed.usage.is_none());
}

#[test]
fn the_last_budget_is_cut_to_the_window() {
    let s = settings(0, Some(8192), None);
    assert_eq!(final_output_budget(1000, 4096, &s), 4096);
    assert_eq!(final_output_budget(5000, 4096, &s), 8192 - 5000 - 409);
    assert_eq!(final_output_budget(8190, 4096, &s), 16);
    assert_eq!(final_output_budget(8190, 9, &s), 9);
    let thinking = settings(0, Some(8192), Some(1000));
    assert_eq!(final_output_budget(5000, 4096, &thinking), 8192 - 5000 - 409 - 1000);
    let unknown = settings(0, None, None);
    assert_eq!(FALLBACK_CONTEXT_LENGTH, 8192);
    assert_eq!(final_output_budget(5000, 4096, &unknown), 8192 - 5000 - 409);
}

#[test]
fn a_body_names_the_budget_that_it_named() {
    let body = json(r#"{"max_tokens":9,"n":1,"options":{"num_predict":9,"x":2}}"#);
    assert_eq!(
        print(&clamp_request_body(body, 5)),
        r#"{"max_tokens":5,"n":1,"options":{"num_predict":5,"x":2}}"#
    );
    let other = json(r#"{"maxTokens":9,"options":{}}"#);
    assert_eq!(print(&clamp_request_body(other, 5)), r#"{"maxTokens":5,"options":{}}"#);
    assert_eq!(print(&clamp_request_body(json("[1]"), 5)), "[1]");
}

#[test]
fn a_request_is_finalized() {
    let s = settings(0, Some(8192), None);
    let (n, body) = finalize_request(json(r#"{"max_output_tokens":4096}"#), 5000, 4096, &s);
    assert_eq!(n, 2783);
    assert_eq!(print(&body), r#"{"max_output_tokens":2783}"#);
    let (n, body) = finalize_request(json(r#"{"max_tokens":7}"#), 10, 7, &s);
    assert_eq!(n, 7);
    assert_eq!(print(&body), r#"{"max_tokens":7}"#);
}

#[test]
fn error_statuses_have_their_message() {
    assert_eq!(provider_error_message(500, &None), "Provider returned status 500");
    let found = Some("Provider returned status 500".to_string());
    assert_eq!(provider_error_message(500, &found), "Provider returned status 500");
    assert_eq!(provider_error_message(429, &Some("slow".to_string())), "slow (status 429)");
}

#[test]
fn replies_with_content() {
    assert!(reply_has_content(&Some("x".to_string()), &vec![]));
    assert!(reply_has_content(&None, &vec!["i".to_string()]));
    assert!(!reply_has_content(&Some(" \n".to_string()), &vec![]));
    assert!(reads_as_event_stream(&json(r#""data: {}""#)));
    assert!(!reads_as_event_stream(&json(r#"{"data":1}"#)));
}

#[test]
fn a_generation_succeeds() {
    let out = conclude_generation(reply(Some("hi")), "k".to_string()).unwrap();
    assert_eq!(out.text, "hi");
    assert_eq!(out.usage, Some(5));
    assert_eq!(out.api_key, "k");
    let mut pictures = reply(None);
    pictures.image_data_urls = vec!["data:x".to_string()];
    let out = conclude_generation(pictures, "k".to_string()).unwrap();
    assert_eq!(out.text, "");
    assert_eq!(out.generated_image_data_urls, vec!["data:x"]);
}

#[test]
fn a_generation_fails_in_each_way() {
    let mut refused = reply(Some("x"));
    refused.ok = false;
    refused.status = 503;
    assert_eq!(failure(refused), ("Provider returned status 503".to_string(), Some(5)));
    let mut aborted = reply(Some("x"));
    aborted.aborted = true;
    assert_eq!(failure(aborted), ("Request aborted by user".to_string(), None));
    assert_eq!(failure(reply(Some(" "))), ("Empty response from provider".to_string(), None));
    let mut reasoned = reply(None);
    reasoned.reasoning = Some("hm".to_string());
    assert!(failure(reasoned).0.starts_with("Model completed reasoning but generated no response"));
    let mut blocked = reply(Some("x"));
    blocked.blocked = true;
    assert_eq!(
        failure(blocked).0,
        "Response blocked by Pure Mode. Try rephrasing your message."
    );
    let plain = ConversationExecutionFailure::<u32>::new("why");
    assert_eq!(plain.message, "why");
    assert!(plain.usage.is_none());
}
