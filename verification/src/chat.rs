//! Models, credentials and settings of a chat.
use vstd::prelude::*;

use crate::fraction::Fraction;
use crate::image_generator::types::ImageLora;

verus! {

/// The settings of a model that a user can override.
#[derive(Debug)]
pub struct AdvancedModelSettings {
    pub context_length: Option<u32>,
    pub max_output_tokens: Option<u32>,
    pub sd_steps: Option<u32>,
    pub sd_cfg_scale: Option<Fraction>,
    pub sd_denoising_strength: Option<Fraction>,
    pub sd_seed: Option<i64>,
    pub sd_size: Option<String>,
    pub sd_negative_prompt: Option<String>,
    pub sd_extra_prompt: Option<String>,
    pub sd_base_loras: Option<Vec<ImageLora>>,
}

#[derive(Debug)]
pub struct Model {
    pub id: String,
    pub name: String,
    pub provider_id: String,
    pub advanced_model_settings: Option<AdvancedModelSettings>,
}

#[derive(Debug)]
pub struct ProviderCredential {
    pub id: String,
    pub provider_id: String,
    pub base_url: Option<String>,
}

/// The settings of the application as a whole.
#[derive(Debug)]
pub struct Settings {
    pub advanced_model_settings: AdvancedModelSettings,
}

/// What one request asks of a model: the output budget, the context window and the tokens set
/// aside for reasoning.
#[derive(Debug)]
pub struct RequestSettings {
    pub max_tokens: u32,
    pub context_length: Option<u32>,
    pub reasoning_budget: Option<u32>,
}

} // verus!
