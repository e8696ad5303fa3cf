use haven_core::chat::{
    AdvancedModelSettings, Model, ProviderCredential, RequestSettings, Settings,
};
use haven_core::context_window::{
    context_safety_margin, debug_info_for_enforcement, effective_context_limit,
    enforce_context_window, enforce_context_window_for_chat, estimate_tokens_for_messages,
    estimate_tokens_for_text, extract_text_from_content, message_text_for_counting, Assembly,
    ContextEnforcementResult, CountSource, TokenCounts,
};
use haven_core::json::{copy, copy_all, parse, print, Json};
use haven_core::model_metadata::resolve_context_length_with_metadata;

fn advanced(context_length: Option<u32>, max_output: Option<u32>) -> AdvancedModelSettings {
    AdvancedModelSettings {
        context_length,
        max_output_tokens: max_output,
        sd_steps: None,
        sd_cfg_scale: None,
        sd_denoising_strength: None,
        sd_seed: None,
        sd_size: None,
        sd_negative_prompt: None,
        sd_extra_prompt: None,
        sd_base_loras: None,
    }
}

fn test_model(id: &str, context_length: Option<u32>, max_output: Option<u32>) -> Model {
    Model {
        id: id.to_string(),
        name: id.to_string(),
        provider_id: "openai".to_string(),
        advanced_model_settings: Some(advanced(context_length, max_output)),
    }
}

fn cred() -> ProviderCredential {
    ProviderCredential { id: "c1".to_string(), provider_id: "openai".to_string(), base_url: None }
}

/// The settings of a request to a model: its window, or the fallback, and its output budget.
fn settings_for(model: &Model) -> RequestSettings {
    let settings = Settings { advanced_model_settings: advanced(None, None) };
    let window = resolve_context_length_with_metadata(model, &cred(), &settings, None);
    let max_tokens = model
        .advanced_model_settings
        .as_ref()
        .and_then(|s| s.max_output_tokens)
        .unwrap_or(4096);
    RequestSettings {
        max_tokens,
        context_length: Some(window.context_length),
        reasoning_budget: None,
    }
}

fn msg(role: &str, content: &str) -> Json {
    Json::Object(vec![
        ("role".to_string(), Json::Text(role.to_string())),
        ("content".to_string(), Json::Text(content.to_string())),
    ])
}

/// A tokenizer that takes so many tenths of a token for a word.
fn count(messages: &Vec<Json>, tenths: u32) -> TokenCounts {
    let counts = messages
        .iter()
        .map(|m| message_text_for_counting(m).split_whitespace().count() as u32 * tenths / 10)
        .collect();
    TokenCounts { source: CountSource::Tokenizer, counts }
}

fn enforce(
    messages: &Vec<Json>,
    tenths: u32,
    rs: &RequestSettings,
    model: &Model,
) -> Result<ContextEnforcementResult, String> {
    enforce_context_window(messages, &count(messages, tenths), rs, model, &cred(), None)
}

/// The prompt before a chat, then the chat: once for every number of messages left out of it.
fn assemblies(system: &Json, chat: &Vec<Json>, pinned: usize, tenths: u32) -> Vec<Assembly> {
    let removable = chat.len().saturating_sub(pinned + 1);
    (0..removable + 1)
        .map(|n| {
            let mut messages = vec![copy(system)];
            for (i, m) in chat.iter().enumerate() {
                if i < pinned || i >= pinned + n {
                    messages.push(copy(m));
                }
            }
            let counts = count(&messages, tenths);
            Assembly { messages, counts }
        })
        .collect()
}

fn content(m: &Json) -> &str {
    m.get("content").unwrap().as_str().unwrap()
}

fn role(m: &Json) -> &str {
    m.get("role").unwrap().as_str().unwrap()
}

fn printed(list: &Vec<Json>) -> Vec<String> {
    list.iter().map(print).collect()
}

#[test]
fn estimate_tokens_nonzero_for_content() {
    let msgs = vec![msg("system", "You are a helpful assistant."), msg("user", "Hello world")];
    let tokens = estimate_tokens_for_messages(&count(&msgs, 10));
    assert!(tokens > 0);
    assert!(tokens < 1000);
    assert_eq!(tokens, 6 + 3 + 2 * 4 + 2);
}

#[test]
fn comfortably_below_limit_nothing_removed() {
    let model = test_model("gpt-test", Some(4096), Some(512));
    let rs = settings_for(&model);
    let messages = vec![
        msg("system", "system prompt"),
        msg("user", "hi"),
        msg("assistant", "hello"),
        msg("user", "how are you?"),
    ];
    let result = enforce(&messages, 10, &rs, &model).unwrap();
    assert_eq!(result.removed_count, 0);
    assert_eq!(result.final_output_tokens, rs.max_tokens);
    assert_eq!(result.messages.len(), messages.len());
}

#[test]
fn slightly_above_limit_removes_oldest() {
    let model = test_model("gpt-test", Some(50), Some(20));
    let rs = settings_for(&model);
    let messages = vec![
        msg("system", "system prompt with some context about character"),
        msg("user", "oldest message that should be removed"),
        msg("assistant", "old response"),
        msg("user", "middle message"),
        msg("assistant", "middle response"),
        msg("user", "current user message that must be preserved"),
    ];
    let result = enforce(&messages, 10, &rs, &model).unwrap();
    assert!(result.removed_count >= 1);
    let last = result.messages.last().unwrap();
    assert_eq!(content(last), "current user message that must be preserved");
    let first = result.messages.first().unwrap();
    assert_eq!(role(first), "system");
}

#[test]
fn very_long_conversation_removes_enough() {
    let model = test_model("gpt-test", Some(80), Some(20));
    let rs = settings_for(&model);
    let mut messages = vec![msg("system", "system prompt")];
    for i in 0..20 {
        messages.push(msg("user", &format!("user message number {}", i)));
        messages.push(msg("assistant", &format!("assistant reply number {}", i)));
    }
    messages.push(msg("user", "final current message"));
    let result = enforce(&messages, 10, &rs, &model).unwrap();
    let input = result.input_tokens;
    assert!(input + result.final_output_tokens <= 80);
    assert!(result.removed_count > 10);
    assert_eq!(content(result.messages.last().unwrap()), "final current message");
}

#[test]
fn current_user_message_never_truncated() {
    let model = test_model("gpt-test", Some(40), Some(10));
    let rs = settings_for(&model);
    let long_current = "a".repeat(200);
    let messages = vec![
        msg("system", "system prompt"),
        msg("user", "old history 1"),
        msg("assistant", "old response 1"),
        msg("user", &long_current),
    ];
    let result = enforce(&messages, 10, &rs, &model).unwrap();
    assert_eq!(content(result.messages.last().unwrap()), long_current);
}

#[test]
fn system_prompt_preserved() {
    let model = test_model("gpt-test", Some(60), Some(10));
    let rs = settings_for(&model);
    let system_content = "You are Sarah, a character with detailed definition that must stay";
    let messages = vec![
        msg("system", system_content),
        msg("user", "history 1"),
        msg("assistant", "reply 1"),
        msg("user", "history 2"),
        msg("assistant", "reply 2"),
        msg("user", "current"),
    ];
    let result = enforce(&messages, 10, &rs, &model).unwrap();
    let preserved = result.messages.iter().find(|m| role(m) == "system").unwrap();
    assert_eq!(content(preserved), system_content);
}

#[test]
fn requested_output_reduced_when_necessary() {
    let model = test_model("gpt-test", Some(100), Some(80));
    let rs = settings_for(&model);
    let large_prompt = "word ".repeat(50);
    let messages = vec![msg("system", &large_prompt), msg("user", "current small message")];
    let result = enforce(&messages, 10, &rs, &model).unwrap();
    assert!(result.final_output_tokens < rs.max_tokens);
    assert!(result.input_tokens + result.final_output_tokens <= 100);
}

#[test]
fn prompt_too_large_error() {
    let model = test_model("gpt-test", Some(30), Some(10));
    let rs = settings_for(&model);
    let huge_system = "word ".repeat(100);
    let messages = vec![msg("system", &huge_system), msg("user", "current")];
    let err = enforce(&messages, 10, &rs, &model).unwrap_err();
    assert!(err.to_lowercase().contains("exceeds") || err.to_lowercase().contains("too large"));
}

#[test]
fn different_model_context_lengths_respected() {
    let model_small = test_model("small", Some(50), Some(10));
    let model_large = test_model("large", Some(500), Some(10));
    let messages = vec![
        msg("system", "system"),
        msg("user", "history 1"),
        msg("assistant", "reply 1"),
        msg("user", "history 2"),
        msg("assistant", "reply 2"),
        msg("user", "current"),
    ];
    let res_small = enforce(&messages, 10, &settings_for(&model_small), &model_small).unwrap();
    let res_large = enforce(&messages, 10, &settings_for(&model_large), &model_large).unwrap();
    assert!(res_large.removed_count <= res_small.removed_count);
    assert!(res_small.input_tokens + res_small.final_output_tokens <= 50);
    assert!(res_large.input_tokens + res_large.final_output_tokens <= 500);
}

#[test]
fn respects_reasoning_budget() {
    let model = test_model("reasoning-model", Some(100), Some(40));
    let mut rs = settings_for(&model);
    rs.reasoning_budget = Some(30);
    let messages = vec![msg("system", &("prompt ".repeat(20))), msg("user", "current")];
    let result = enforce(&messages, 10, &rs, &model).unwrap();
    let total =
        result.input_tokens + result.final_output_tokens + result.reasoning_budget.unwrap_or(0);
    assert!(total <= 100);
}

#[test]
fn stored_conversation_unchanged_after_trimming() {
    let model = test_model("gpt-test", Some(60), Some(20));
    let rs = settings_for(&model);
    let messages = vec![
        msg("system", "system prompt"),
        msg("user", "history 1"),
        msg("assistant", "reply 1"),
        msg("user", "history 2"),
        msg("assistant", "reply 2"),
        msg("user", "history 3"),
        msg("assistant", "reply 3"),
        msg("user", "current"),
    ];
    let original_len = messages.len();
    let original = printed(&messages);
    let result = enforce(&messages, 10, &rs, &model).unwrap();
    assert_eq!(messages.len(), original_len);
    assert_eq!(printed(&messages), original);
    assert!(result.messages.len() <= original_len);
    assert_eq!(content(result.messages.last().unwrap()), content(messages.last().unwrap()));
}

#[test]
fn existing_providers_continue_working() {
    let providers = vec![
        "openai",
        "anthropic",
        "openrouter",
        "google",
        "mistral",
        "groq",
        "ollama",
        "llamacpp",
    ];
    let mut messages = vec![msg("system", "system prompt")];
    for i in 0..5 {
        messages.push(msg("user", &format!("user msg {}", i)));
        messages.push(msg("assistant", &format!("assistant reply {}", i)));
    }
    messages.push(msg("user", "current"));
    for provider in providers {
        let mut model = test_model("provider-test", Some(80), Some(20));
        model.provider_id = provider.to_string();
        let mut credential = cred();
        credential.provider_id = provider.to_string();
        let rs = settings_for(&model);
        let counts = count(&messages, 10);
        let result = enforce_context_window(&messages, &counts, &rs, &model, &credential, None);
        assert!(result.is_ok(), "provider {} should not fail: {:?}", provider, result.err());
        let res = result.unwrap();
        assert!(
            res.input_tokens + res.final_output_tokens <= 80,
            "provider {} exceeded limit",
            provider
        );
    }
}

#[test]
fn enforce_for_chat_preserves_pinned_and_current() {
    let model = test_model("gpt-test", Some(80), Some(20));
    let rs = settings_for(&model);
    let system = msg("system", "You are a helpful character");
    let pinned_chat =
        vec![msg("user", "pinned important history"), msg("assistant", "pinned reply")];
    let recent_chat = vec![
        msg("user", "old history 1"),
        msg("assistant", "old reply 1"),
        msg("user", "old history 2"),
        msg("assistant", "old reply 2"),
        msg("user", "current final"),
    ];
    let mut chat_messages = copy_all(&pinned_chat);
    chat_messages.extend(copy_all(&recent_chat));
    let pinned_count = pinned_chat.len();
    let prompts = assemblies(&system, &chat_messages, pinned_count, 10);
    let (trimmed_chat, ctx_res) = enforce_context_window_for_chat(
        &chat_messages,
        &prompts,
        &rs,
        &model,
        &cred(),
        pinned_count,
        None,
    )
    .unwrap();
    assert!(trimmed_chat.len() >= pinned_count + 1);
    for i in 0..pinned_count {
        assert_eq!(
            print(&trimmed_chat[i]),
            print(&pinned_chat[i]),
            "pinned message {} should be preserved",
            i
        );
    }
    assert_eq!(print(trimmed_chat.last().unwrap()), print(recent_chat.last().unwrap()));
    assert!(ctx_res.removed_count <= recent_chat.len() - 1);
}

#[test]
fn enforce_for_chat_output_clamped_and_tiny_prompt_error() {
    let model = test_model("tiny", Some(25), Some(20));
    let rs = settings_for(&model);
    let huge_system = msg("system", &"word ".repeat(30));
    let chat = vec![msg("user", "current")];
    let prompts = assemblies(&huge_system, &chat, 0, 10);
    let err = enforce_context_window_for_chat(&chat, &prompts, &rs, &model, &cred(), 0, None)
        .unwrap_err();
    assert!(err.contains("exceeds") || err.contains("too large"));
}

#[test]
fn missing_context_length_uses_fallback_8192() {
    let model = test_model("no-limit", None, Some(4096));
    let rs = settings_for(&model);
    assert_eq!(rs.context_length, Some(8192));
    let large = "word ".repeat(2500);
    let messages = vec![msg("system", &large), msg("user", "current")];
    let res = enforce(&messages, 28, &rs, &model).unwrap();
    assert!(res.input_tokens + res.final_output_tokens <= 8192);
    assert!(res.final_output_tokens < 4096 || res.removed_count > 0);
}

#[test]
fn zero_context_length_uses_fallback() {
    let model = test_model("zero-limit", Some(0), Some(512));
    let rs = settings_for(&model);
    assert_eq!(rs.context_length, Some(8192));
    let large = "word ".repeat(2000);
    let messages = vec![msg("system", &large), msg("user", "hi")];
    let res = enforce(&messages, 28, &rs, &model).unwrap();
    assert_eq!(res.context_limit, 8192);
}

#[test]
fn explicit_large_context_respected() {
    let model = test_model("large", Some(32768), Some(4096));
    let rs = settings_for(&model);
    assert_eq!(rs.context_length, Some(32768));
    let messages = vec![msg("system", "small prompt"), msg("user", "hi")];
    let res = enforce(&messages, 28, &rs, &model).unwrap();
    assert_eq!(res.context_limit, 32768);
    assert_eq!(res.removed_count, 0);
}

#[test]
fn first_enforcement_reduced_preserved_in_second() {
    let model = test_model("gpt-test", Some(8192), Some(4096));
    let rs = settings_for(&model);
    let large_prompt = "word ".repeat(2000);
    let messages = vec![msg("system", &large_prompt), msg("user", "current")];
    let first = enforce(&messages, 28, &rs, &model).unwrap();
    assert!(first.final_output_tokens < 4096);
    let mut rs2 = settings_for(&model);
    rs2.max_tokens = first.final_output_tokens;
    let second = enforce(&first.messages, 28, &rs2, &model).unwrap();
    assert!(second.input_tokens + second.final_output_tokens <= 8192);
    let would_exceed = first.input_tokens + 4096 > 8192;
    assert!(would_exceed);
}

#[test]
fn regenerate_path_preserves_clamped_budget() {
    let model = test_model("regen", Some(8192), Some(4096));
    let rs = settings_for(&model);
    let sys = msg("system", &"word ".repeat(2000));
    let chat = vec![
        msg("user", "old history 1"),
        msg("assistant", "old reply 1"),
        msg("user", "current"),
    ];
    let prompts = assemblies(&sys, &chat, 0, 28);
    let (trimmed, res) =
        enforce_context_window_for_chat(&chat, &prompts, &rs, &model, &cred(), 0, None).unwrap();
    let clamped = res.final_output_tokens;
    assert!(clamped < 4096);
    assert!(enforce(&trimmed, 28, &rs, &model).is_ok());
    let mut rs_clamped = settings_for(&model);
    rs_clamped.max_tokens = clamped;
    let with_clamped = enforce(&trimmed, 28, &rs_clamped, &model).unwrap();
    assert!(with_clamped.input_tokens + with_clamped.final_output_tokens <= 8192);
}

#[test]
fn continuation_path_same_as_regenerate() {
    let model = test_model("cont", None, Some(4096));
    let rs = settings_for(&model);
    assert_eq!(rs.context_length, Some(8192));
    let large = "word ".repeat(2500);
    let msgs = vec![msg("system", &large), msg("user", "current")];
    let res = enforce(&msgs, 28, &rs, &model).unwrap();
    assert!(res.final_output_tokens < 4096);
}

#[test]
fn prompt_alone_exceeds_returns_friendly_error() {
    let model = test_model("tiny", Some(1000), Some(512));
    let rs = settings_for(&model);
    let huge = "word ".repeat(5000);
    let msgs = vec![msg("system", &huge), msg("user", "hi")];
    let err = enforce(&msgs, 28, &rs, &model).unwrap_err();
    assert!(err.contains("exceeds") || err.contains("Prompt configuration"));
}

#[test]
fn text_parts_are_joined_by_lines() {
    let parts = parse(
        r#"[{"type":"text","text":"a"},{"type":"image_url","text":"x"},{"type":"text","text":"b"}]"#,
    )
    .unwrap();
    assert_eq!(extract_text_from_content(&parts), "a\nb");
    assert_eq!(extract_text_from_content(&Json::Null), "");
    let message = parse(r#"{"content":"hi"}"#).unwrap();
    assert_eq!(message_text_for_counting(&message), "unknown: hi");
    assert_eq!(message_text_for_counting(&Json::Null), "unknown: ");
}

#[test]
fn token_sums_are_exact() {
    let none = TokenCounts { source: CountSource::Tokenizer, counts: vec![] };
    assert_eq!(estimate_tokens_for_messages(&none), 0);
    let told = TokenCounts { source: CountSource::Tokenizer, counts: vec![3, 0] };
    assert_eq!(estimate_tokens_for_messages(&told), 3 + 8 + 2);
    let guessed = TokenCounts { source: CountSource::LengthEstimate, counts: vec![3, 0] };
    assert_eq!(estimate_tokens_for_messages(&guessed), 4 + 8);
    assert_eq!(estimate_tokens_for_text(0), 1);
    assert_eq!(estimate_tokens_for_text(9), 9);
}

#[test]
fn margins_are_exact() {
    assert_eq!(context_safety_margin(8192), 409);
    assert_eq!(context_safety_margin(4096), 256);
    assert_eq!(context_safety_margin(257), 256);
    assert_eq!(context_safety_margin(256), 12);
    assert_eq!(context_safety_margin(100), 5);
    assert_eq!(context_safety_margin(0), 0);
}

#[test]
fn no_window_means_no_trimming() {
    let model = test_model("free", None, None);
    let rs = RequestSettings { max_tokens: 7, context_length: None, reasoning_budget: None };
    assert_eq!(effective_context_limit(&rs, &model, &cred()), None);
    let messages = vec![msg("user", "a"), msg("user", "b")];
    let result = enforce(&messages, 10, &rs, &model).unwrap();
    assert_eq!(result.context_limit, 0);
    assert_eq!(result.final_output_tokens, 7);
    assert_eq!(result.messages.len(), 2);
}

#[test]
fn every_refusal_has_its_message() {
    let model = test_model("m", Some(100), Some(50));
    let counts = |n: u32| TokenCounts { source: CountSource::Tokenizer, counts: vec![n] };
    let messages = vec![msg("user", "x")];
    let mut rs = settings_for(&model);
    let large = enforce_context_window(&messages, &counts(89), &rs, &model, &cred(), None);
    assert!(large.unwrap_err().starts_with(
        "Prompt configuration alone requires ~95 tokens, which exceeds the model's context limit of 100 tokens."
    ));
    let tight = enforce_context_window(&messages, &counts(80), &rs, &model, &cred(), None);
    assert!(tight
        .unwrap_err()
        .starts_with("Prompt requires ~86 tokens, leaving only 9 tokens for generation (limit 100)."));
    rs.reasoning_budget = Some(60);
    let thinking = enforce_context_window(&messages, &counts(40), &rs, &model, &cred(), None);
    assert_eq!(
        thinking.unwrap_err(),
        "Prompt requires ~46 tokens, leaving 49 tokens, but reasoning budget alone requires 60 tokens (limit 100). Reduce prompt size or lower reasoning budget. (model: m)"
    );
}

#[test]
fn developer_messages_and_other_roles_stay() {
    let model = test_model("m", Some(60), Some(30));
    let rs = settings_for(&model);
    let messages = vec![
        msg("developer", "d"),
        msg("tool", "t"),
        msg("assistant", "one two three four five six seven"),
        msg("user", "current"),
    ];
    let result = enforce(&messages, 10, &rs, &model).unwrap();
    let roles: Vec<&str> = result.messages.iter().map(role).collect();
    assert_eq!(roles, vec!["developer", "tool", "user"]);
    assert_eq!(result.removed_count, 1);
}

#[test]
fn a_second_pass_changes_nothing() {
    let model = test_model("m", Some(50), Some(20));
    let rs = settings_for(&model);
    let messages = vec![
        msg("system", "s"),
        msg("user", "one two three four"),
        msg("assistant", "five six seven eight"),
        msg("user", "nine"),
    ];
    let first = enforce(&messages, 10, &rs, &model).unwrap();
    let second = enforce(&first.messages, 10, &rs, &model).unwrap();
    assert_eq!(second.removed_count, 0);
    assert_eq!(printed(&second.messages), printed(&first.messages));
    assert_eq!(second.final_output_tokens, first.final_output_tokens);
}

#[test]
fn figures_of_an_enforcement() {
    let model = test_model("m", Some(100), Some(80));
    let mut rs = settings_for(&model);
    rs.reasoning_budget = Some(10);
    let messages = vec![msg("user", "x")];
    let result = enforce(&messages, 10, &rs, &model).unwrap();
    let info = debug_info_for_enforcement(&model, &cred(), &result);
    assert_eq!(info.model_id, "m");
    assert_eq!(info.provider_id, "openai");
    assert_eq!(info.final_input_tokens, 8);
    assert_eq!(info.available_output, 92);
    assert_eq!(info.final_output_tokens, 77);
    assert_eq!(info.final_total_estimate, 95);
    assert_eq!(info.requested_max_tokens, 80);
}

#[test]
fn a_larger_window_removes_no_more() {
    let messages: Vec<Json> = (0..9)
        .map(|i| msg(if i % 2 == 0 { "user" } else { "assistant" }, "one two three four five"))
        .collect();
    let removed: Vec<usize> = [30u32, 40, 50, 60, 80, 200]
        .iter()
        .map(|window| {
            let model = test_model("m", Some(*window), Some(5));
            enforce(&messages, 10, &settings_for(&model), &model).unwrap().removed_count
        })
        .collect();
    assert!(removed[0] > 0);
    assert_eq!(removed[5], 0);
    assert!(removed.windows(2).all(|pair| pair[1] <= pair[0]), "{:?}", removed);
}
