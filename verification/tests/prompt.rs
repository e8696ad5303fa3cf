use haven_core::chat::AdvancedModelSettings;
use haven_core::fraction::{fraction, Fraction, ORDER_ONE};
use haven_core::image_generator::jobs::{extract_ai_horde_job_id, is_ai_horde_provider};
use haven_core::image_generator::prompt::{
    active_lora_keywords, compose_scene_image_prompt, merged_lora_keywords, prepare_request,
    promote_character_reference_images, scene_negative_prompt,
};
use haven_core::image_generator::types::{
    ImageCharacterContext, ImageGenerationRequest, ImageLora, ImageSceneContext,
};

fn character(name: Option<&str>) -> ImageCharacterContext {
    ImageCharacterContext {
        name: name.map(str::to_string),
        description: None,
        appearance: None,
        personality: None,
        reference_image: None,
        reference_images: Vec::new(),
    }
}

fn scene() -> ImageSceneContext {
    ImageSceneContext {
        description: None,
        visual_prompt: None,
        negative_prompt: None,
        characters: Vec::new(),
        environment: None,
        lighting: None,
        composition: None,
        pose: None,
        outfit: None,
        visual_style: None,
    }
}

fn request(prompt: &str) -> ImageGenerationRequest {
    ImageGenerationRequest {
        prompt: prompt.to_string(),
        model: "test-model".to_string(),
        provider_id: "aihorde".to_string(),
        credential_id: "horde-credential".to_string(),
        advanced_model_settings: None,
        input_images: None,
        mask_image: None,
        loras: None,
        character_context: None,
        character_reference_image: None,
        character_reference_images: Vec::new(),
        scene_context: None,
        output_modalities: None,
        size: None,
        quality: None,
        style: None,
        n: Some(1),
        session_id: None,
        character_id: None,
        character_name: None,
        usage_source: None,
    }
}

fn advanced() -> AdvancedModelSettings {
    AdvancedModelSettings {
        context_length: None,
        max_output_tokens: None,
        sd_steps: None,
        sd_cfg_scale: None,
        sd_denoising_strength: None,
        sd_seed: None,
        sd_size: None,
        sd_negative_prompt: None,
        sd_extra_prompt: None,
        sd_base_loras: None,
    }
}

fn one() -> Fraction {
    fraction(ORDER_ONE, 1, "1.0", "1")
}

fn lora(path: &str, keywords: Vec<&str>) -> ImageLora {
    ImageLora {
        path: path.to_string(),
        multiplier: one(),
        is_high_noise: false,
        keywords: keywords.into_iter().map(str::to_string).collect(),
    }
}

#[test]
fn scene_writer_visual_prompt_is_used() {
    let mut request = request("anime illustration");
    request.character_context = Some(ImageCharacterContext {
        appearance: Some("long black hair, red eyes".to_string()),
        personality: Some("shy and introverted".to_string()),
        ..character(Some("Maya"))
    });
    request.scene_context = Some(ImageSceneContext {
        description: Some("Maya is sitting beside a window.".to_string()),
        visual_prompt: Some("cinematic anime scene, warm evening light".to_string()),
        ..scene()
    });
    request.size = Some("1024x1024".to_string());
    request.usage_source = Some("scene".to_string());
    let prompt = compose_scene_image_prompt(&request, None, &vec![]);
    assert!(prompt.contains("Maya"));
    assert!(prompt.contains("long black hair, red eyes"));
    assert!(prompt.contains("shy and introverted"));
    assert!(prompt.contains("cinematic anime scene"));
}

#[test]
fn character_reference_is_promoted_to_input_images() {
    let mut request = request("scene");
    request.character_context = Some(ImageCharacterContext {
        reference_image: Some("data:image/png;base64,abc".to_string()),
        reference_images: vec!["data:image/png;base64,def".to_string()],
        ..character(Some("Maya"))
    });
    promote_character_reference_images(&mut request);
    let images = request.input_images.unwrap();
    assert_eq!(images.len(), 2);
    assert_eq!(images[0], "data:image/png;base64,abc");
    assert_eq!(images[1], "data:image/png;base64,def");
}

#[test]
fn duplicate_reference_images_are_removed() {
    let mut request = request("scene");
    request.input_images = Some(vec!["image.png".to_string()]);
    request.character_context = Some(ImageCharacterContext {
        reference_image: Some("image.png".to_string()),
        ..character(None)
    });
    promote_character_reference_images(&mut request);
    assert_eq!(request.input_images.unwrap().len(), 1);
}

#[test]
fn lora_keywords_are_not_duplicated() {
    let keywords = vec!["ArsMovieStill".to_string(), "cinematic still".to_string()];
    let request = request("a portrait");
    let prompt = compose_scene_image_prompt(&request, Some("high detail"), &keywords);
    assert_eq!(prompt, "high detail, ArsMovieStill, cinematic still, a portrait");
}

#[test]
fn request_lora_keywords_override_model_level_keywords() {
    let base = vec![ImageLora {
        path: "style.safetensors".to_string(),
        multiplier: fraction(0x3fe9_9999_9999_999a, 0, "0.8", "0.8"),
        is_high_noise: false,
        keywords: vec!["old trigger".to_string()],
    }];
    let request = vec![ImageLora {
        path: "style.safetensors".to_string(),
        multiplier: one(),
        is_high_noise: false,
        keywords: vec!["new trigger".to_string()],
    }];
    assert_eq!(merged_lora_keywords(Some(&base), Some(&request)), vec!["new trigger"]);
}

#[test]
fn ai_horde_job_id_is_extracted() {
    assert_eq!(extract_ai_horde_job_id("aihorde://123456"), Some("123456".to_string()));
}

#[test]
fn invalid_ai_horde_url_is_rejected() {
    assert_eq!(extract_ai_horde_job_id("https://example.com/image.png"), None);
}

#[test]
fn ai_horde_provider_aliases_are_supported() {
    assert!(is_ai_horde_provider("aihorde"));
    assert!(is_ai_horde_provider("ai-horde"));
    assert!(!is_ai_horde_provider("openai"));
}

#[test]
fn ai_horde_model_is_independent_of_provider() {
    let mut request = request("anime scene");
    request.model = "Some-Horde-Model".to_string();
    request.credential_id = "my-horde-key".to_string();
    request.size = Some("1024x1024".to_string());
    request.usage_source = Some("scene".to_string());
    assert_eq!(request.provider_id, "aihorde");
    assert_eq!(request.model, "Some-Horde-Model");
    assert_eq!(request.credential_id, "my-horde-key");
}

#[test]
fn keywords_are_taken_once_whatever_their_case() {
    let loras = vec![lora("a", vec!["ÄPFEL", " style "]), lora("b", vec!["äpfel", "", "STYLE", "new"])];
    assert_eq!(merged_lora_keywords(None, Some(&loras)), vec!["ÄPFEL", "style", "new"]);
    assert!(merged_lora_keywords(None, None).is_empty());
}

#[test]
fn keywords_that_the_prompt_has_are_left_out() {
    let keywords = vec!["Portrait".to_string(), "film".to_string()];
    assert_eq!(compose_scene_image_prompt(&request("a portrait"), None, &keywords), "film, a portrait");
    assert_eq!(compose_scene_image_prompt(&request("  "), None, &vec![]), "");
}

#[test]
fn a_prepared_request_has_its_prompt_and_its_images() {
    let mut request = request("a portrait");
    request.advanced_model_settings = Some(AdvancedModelSettings {
        sd_extra_prompt: Some("best".to_string()),
        sd_base_loras: Some(vec![lora("a", vec!["one"])]),
        ..advanced()
    });
    request.loras = Some(vec![lora("a", vec!["two"])]);
    request.character_reference_image = Some("x.png".to_string());
    assert_eq!(active_lora_keywords(&request), vec!["two"]);
    prepare_request(&mut request);
    assert_eq!(request.prompt, "best, two, a portrait");
    assert_eq!(request.input_images, Some(vec!["x.png".to_string()]));
}

#[test]
fn the_scene_has_its_negative_prompt() {
    let mut request = request("x");
    assert_eq!(scene_negative_prompt(&request), None);
    request.scene_context =
        Some(ImageSceneContext { negative_prompt: Some(" blur ".to_string()), ..scene() });
    assert_eq!(scene_negative_prompt(&request), Some("blur".to_string()));
    assert_eq!(request.negative_prompt(), Some("blur"));
}

#[test]
fn reference_images_of_a_request_in_their_order() {
    let mut request = request("x");
    request.character_reference_image = Some(" a ".to_string());
    request.character_context = Some(ImageCharacterContext {
        reference_image: Some("b".to_string()),
        reference_images: vec!["a".to_string(), "c".to_string()],
        ..character(None)
    });
    request.character_reference_images = vec!["d".to_string(), "".to_string()];
    request.input_images = Some(vec!["b".to_string(), "e".to_string()]);
    let mut all = request.all_reference_images();
    assert_eq!(request.primary_reference_image(), Some("a"));
    assert_eq!(all[0], "a");
    all.sort();
    assert_eq!(all, vec!["a", "b", "c", "d", "e"]);
}

#[test]
fn a_character_context_is_empty_without_content() {
    assert!(character(Some("  ")).is_empty());
    assert!(!character(Some("Maya")).is_empty());
    let mut context = character(None);
    context.reference_images = vec![" ".to_string(), "y".to_string()];
    assert_eq!(context.all_reference_images(), vec!["y"]);
    assert!(!context.is_empty());
}

#[test]
fn a_scene_is_recognized() {
    let mut request = request("prompt");
    assert!(!request.is_scene_generation());
    assert_eq!(request.effective_prompt(), "prompt");
    request.scene_context =
        Some(ImageSceneContext { visual_prompt: Some(" drawn ".to_string()), ..scene() });
    assert!(request.is_scene_generation());
    assert_eq!(request.effective_prompt(), "drawn");
}
