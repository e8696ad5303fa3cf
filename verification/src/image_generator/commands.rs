//! The decisions of the image commands: how a provider is asked, what is made of its reply, and
//! what is recorded of it.
use vstd::prelude::*;

use super::jobs::{
    extract_ai_horde_job_id, extract_gradio_event_id, is_ai_horde_provider, is_gradio_provider,
    law_job_link_leads_back, number_behind,
};
use crate::stamp::{is_uuid, new_id};
use crate::text::{
    decimal, decimal_u64, first_chars, first_chars_str, is_blank, is_link, is_link_text,
    lemma_trim_trimmed, lower_ascii, opt_present, opt_str_view, opt_view, present, present_opt,
    present_str, same, same_ignoring_case, strip_suffix, strip_suffix_str, trim, trim_end_of,
    trim_end_of_str, trim_start_of, trim_start_of_str, views, views_push,
};
use super::provider_adapter::{
    get_adapter, image_views, lemma_canonical_names, lemma_plain_name, normalize_provider_id,
    provider_name, registered, AdapterKind, ImageDataModel, ImageProviderAdapter,
    ImageRequestPayload, ImageResponseData, ImageResponseFormat, PayloadModel,
};
use super::types::{GeneratedImage, ImageGenerationRequest, ImageGenerationResponse};
use crate::fraction::Fraction;
use crate::json::{json_views, opt_json, Json, JsonModel};
use crate::text_map::TextMap;

verus! {

// ---------------------------------------------------------------------------
// Asking a provider
// ---------------------------------------------------------------------------

/// Who draws the images of a request.
#[derive(Clone, Copy, PartialEq, Eq, Debug, Structural)]
pub enum GenerationRoute {
    /// The local diffusion runtime.
    Sdcpp,
    /// A ComfyUI server.
    ComfyUi,
    /// A provider with an adapter.
    Adapter(AdapterKind),
}

pub open spec fn route_of(provider_id: Seq<char>) -> Option<GenerationRoute> {
    if provider_id == "sdcpp"@ {
        Some(GenerationRoute::Sdcpp)
    } else if provider_id == "comfyui"@ {
        Some(GenerationRoute::ComfyUi)
    } else {
        match registered(provider_name(provider_id)) {
            Some(kind) => Some(GenerationRoute::Adapter(kind)),
            None => None,
        }
    }
}

/// Finds out who draws the images for a provider.
pub fn generation_route(provider_id: &str) -> (r: Result<GenerationRoute, String>)
    ensures
        match r {
            Ok(route) => route_of(provider_id@) == Some(route),
            Err(e) => route_of(provider_id@) is None && e@ == "Image provider '"@ + provider_name(
                provider_id@,
            ) + "' is not supported"@,
        },
{
    if same(provider_id, "sdcpp") {
        return Ok(GenerationRoute::Sdcpp);
    }
    if same(provider_id, "comfyui") {
        return Ok(GenerationRoute::ComfyUi);
    }
    match get_adapter(provider_id) {
        Ok(kind) => Ok(GenerationRoute::Adapter(kind)),
        Err(e) => Err(e),
    }
}

/// The key for a provider: what is stored, or nothing where none is stored and none is required.
pub fn choose_api_key(required: bool, stored: &Option<String>, provider_id: &str) -> (r: Result<
    String,
    String,
>)
    ensures
        match r {
            Ok(key) => key@ == (match *stored {
                Some(s) => s@,
                None => Seq::empty(),
            }) && (stored is Some || !required),
            Err(e) => stored is None && required && e@ == "API key not found for provider '"@
                + provider_id@ + "'"@,
        },
{
    match stored {
        Some(s) => Ok(s.clone()),
        None => if required {
            let mut message = "API key not found for provider '".to_string();
            message.append(provider_id);
            message.append("'");
            Err(message)
        } else {
            Ok(String::new())
        },
    }
}

/// The endpoint of a Gemini model: behind the base address, whichever version it names.
pub open spec fn gemini_endpoint(base_url: Seq<char>, model: Seq<char>, api_key: Seq<char>) -> Seq<
    char,
> {
    let trimmed = trim_end_of(base_url, '/');
    let base = match strip_suffix(trimmed, "/v1beta"@) {
        Some(s) => s,
        None => match strip_suffix(trimmed, "/v1"@) {
            Some(s) => s,
            None => trimmed,
        },
    };
    base + "/v1beta/models/"@ + model + ":generateContent?key="@ + api_key
}

pub fn gemini_image_endpoint(base_url: &str, model: &str, api_key: &str) -> (r: String)
    ensures
        r@ == gemini_endpoint(base_url@, model@, api_key@),
{
    let trimmed = trim_end_of_str(base_url, '/');
    let base = match strip_suffix_str(trimmed, "/v1beta") {
        Some(s) => s,
        None => match strip_suffix_str(trimmed, "/v1") {
            Some(s) => s,
            None => trimmed,
        },
    };
    let mut url = base.to_string();
    url.append("/v1beta/models/");
    url.append(model);
    url.append(":generateContent?key=");
    url.append(api_key);
    url
}

/// A request as it goes out to a provider.
#[derive(Debug)]
pub struct RequestPlan {
    pub url: String,
    pub headers: TextMap,
    pub payload: ImageRequestPayload,
    pub timeout_seconds: u64,
    pub response_format: ImageResponseFormat,
}

/// Plans the request to a provider through its adapter. The model is that of the request, never
/// one of the provider.
pub fn plan_request<A: ImageProviderAdapter>(
    adapter: &A,
    request: &ImageGenerationRequest,
    base_url: &str,
    api_key: &str,
    env_key: Option<&str>,
    extra: Option<&TextMap>,
    config: Option<&Json>,
) -> (r: Result<RequestPlan, String>)
    requires
        adapter.can_ask(*request),
    ensures
        match r {
            Ok(plan) => {
                &&& plan.url@ == (if request.provider_id@ == "gemini"@ {
                    gemini_endpoint(base_url@, request.model@, api_key@)
                } else {
                    adapter.configured_endpoint(base_url@, opt_json(config))
                })
                &&& plan.headers@ == adapter.configured_headers(
                    api_key@,
                    opt_str_view(env_key),
                    extra,
                    opt_json(config),
                )
                &&& adapter.configured_body(*request, opt_json(config)) == Ok::<
                    PayloadModel,
                    Seq<char>,
                >(plan.payload@)
                &&& call_ensures(A::timeout, (adapter, config), plan.timeout_seconds)
                &&& call_ensures(
                    A::response_format_with_config,
                    (adapter, config),
                    plan.response_format,
                )
            },
            Err(e) => adapter.configured_body(*request, opt_json(config)) == Err::<
                PayloadModel,
                Seq<char>,
            >(e@),
        },
{
    let url = if same(request.provider_id.as_str(), "gemini") {
        gemini_image_endpoint(base_url, request.model.as_str(), api_key)
    } else {
        adapter.endpoint_with_config(base_url, request, config)
    };
    let headers = adapter.headers_with_config(api_key, env_key, extra, config);
    match adapter.payload_with_config(request, config) {
        Ok(payload) => {
            let timeout_seconds: u64 = adapter.timeout(config);
            let response_format = adapter.response_format_with_config(config);
            Ok(RequestPlan { url, headers, payload, timeout_seconds, response_format })
        },
        Err(e) => Err(e),
    }
}

/// Whether a header field is sent: a form sets its own content type.
pub fn sends_header(name: &str, is_multipart: bool) -> (r: bool)
    ensures
        r == !(is_multipart && lower_ascii(name@) == lower_ascii("content-type"@)),
{
    !(is_multipart && same_ignoring_case(name, "content-type"))
}

/// The message for a reply with an error status.
pub fn api_error(status: &str, body: &str) -> (r: String)
    ensures
        r@ == "API error "@ + status@ + ": "@ + body@,
{
    let mut message = "API error ".to_string();
    message.append(status);
    message.append(": ");
    message.append(body);
    message
}

// ---------------------------------------------------------------------------
// The reply
// ---------------------------------------------------------------------------

/// What a reply is followed by: its images are saved, or a job is followed up first. A reply that
/// is one image is saved as it is.
#[derive(Debug)]
pub enum ReplyStep {
    SaveBytes(Vec<u8>),
    Save(Vec<ImageResponseData>),
    FollowHordeJob(String),
    FollowGradioEvent { endpoint_name: String, event_id: String },
}

pub enum ReplyStepModel {
    SaveBytes(Seq<u8>),
    Save(Seq<ImageDataModel>),
    FollowHordeJob(Seq<char>),
    FollowGradioEvent { endpoint_name: Seq<char>, event_id: Seq<char> },
}

impl View for ReplyStep {
    type V = ReplyStepModel;

    open spec fn view(&self) -> ReplyStepModel {
        match self {
            ReplyStep::SaveBytes(bytes) => ReplyStepModel::SaveBytes(bytes@),
            ReplyStep::Save(images) => ReplyStepModel::Save(image_views(images@)),
            ReplyStep::FollowHordeJob(id) => ReplyStepModel::FollowHordeJob(id@),
            ReplyStep::FollowGradioEvent { endpoint_name, event_id } => {
                ReplyStepModel::FollowGradioEvent {
                    endpoint_name: endpoint_name@,
                    event_id: event_id@,
                }
            },
        }
    }
}

/// The number behind a prefix in the first link of a list that has one.
pub open spec fn first_number_behind(images: Seq<ImageDataModel>, prefix: Seq<char>) -> Option<
    Seq<char>,
>
    decreases images.len(),
{
    if images.len() == 0 {
        None
    } else {
        let here = match images[0].url {
            Some(url) => number_behind(url, prefix),
            None => None,
        };
        match here {
            Some(id) => Some(id),
            None => first_number_behind(images.drop_first(), prefix),
        }
    }
}

/// The function of a Gradio interface whose event is followed up.
pub open spec fn followed_endpoint(config: Option<JsonModel>) -> Seq<char> {
    match config {
        Some(c) => match c.get_str("gradioEndpoint"@) {
            Some(s) => s,
            None => match c.get_str("endpoint"@) {
                Some(s) => s,
                None => "predict"@,
            },
        },
        None => "predict"@,
    }
}

pub open spec fn is_horde(provider_id: Seq<char>) -> bool {
    provider_id == "aihorde"@ || provider_id == "ai-horde"@
}

/// What the images of a reply are followed by. AI Horde always answers with a job.
pub open spec fn reply_step(
    provider_id: Seq<char>,
    images: Seq<ImageDataModel>,
    config: Option<JsonModel>,
) -> Result<ReplyStepModel, Seq<char>> {
    if is_horde(provider_id) {
        match first_number_behind(images, "aihorde://"@) {
            Some(id) => Ok(ReplyStepModel::FollowHordeJob(id)),
            None => Err("AI Horde did not return a valid generation ID."@),
        }
    } else if provider_name(provider_id) == "gradio"@ {
        match first_number_behind(images, "gradio://"@) {
            Some(id) => Ok(
                ReplyStepModel::FollowGradioEvent {
                    endpoint_name: followed_endpoint(config),
                    event_id: id,
                },
            ),
            None => Ok(ReplyStepModel::Save(images)),
        }
    } else {
        Ok(ReplyStepModel::Save(images))
    }
}

pub open spec fn step_view(r: Result<ReplyStep, String>) -> Result<ReplyStepModel, Seq<char>> {
    match r {
        Ok(step) => Ok(step@),
        Err(e) => Err(e@),
    }
}

fn find_horde_job(images: &Vec<ImageResponseData>) -> (r: Option<String>)
    ensures
        opt_view(r) == first_number_behind(image_views(images@), "aihorde://"@),
{
    let ghost all = image_views(images@);
    assert(all.skip(0) =~= all);
    for i in 0..images.len()
        invariant
            all == image_views(images@),
            first_number_behind(all, "aihorde://"@) == first_number_behind(
                all.skip(i as int),
                "aihorde://"@,
            ),
    {
        assert(all.skip(i as int)[0] == images@[i as int]@);
        assert(all.skip(i as int).drop_first() =~= all.skip(i + 1));
        if let Some(url) = &images[i].url {
            if let Some(id) = extract_ai_horde_job_id(url.as_str()) {
                return Some(id);
            }
        }
    }
    None
}

fn find_gradio_event(images: &Vec<ImageResponseData>) -> (r: Option<String>)
    ensures
        opt_view(r) == first_number_behind(image_views(images@), "gradio://"@),
{
    let ghost all = image_views(images@);
    assert(all.skip(0) =~= all);
    for i in 0..images.len()
        invariant
            all == image_views(images@),
            first_number_behind(all, "gradio://"@) == first_number_behind(
                all.skip(i as int),
                "gradio://"@,
            ),
    {
        assert(all.skip(i as int)[0] == images@[i as int]@);
        assert(all.skip(i as int).drop_first() =~= all.skip(i + 1));
        if let Some(url) = &images[i].url {
            if let Some(id) = extract_gradio_event_id(url.as_str()) {
                return Some(id);
            }
        }
    }
    None
}

/// Decides how to go on with the images of a reply.
pub fn next_reply_step(
    provider_id: &str,
    images: Vec<ImageResponseData>,
    config: Option<&Json>,
) -> (r: Result<ReplyStep, String>)
    ensures
        step_view(r) == reply_step(provider_id@, image_views(images@), opt_json(config)),
{
    if is_ai_horde_provider(provider_id) {
        return match find_horde_job(&images) {
            Some(id) => Ok(ReplyStep::FollowHordeJob(id)),
            None => Err("AI Horde did not return a valid generation ID.".to_string()),
        };
    }
    if is_gradio_provider(provider_id) {
        if let Some(event_id) = find_gradio_event(&images) {
            let name = match config {
                Some(c) => match c.get_str("gradioEndpoint") {
                    Some(s) => s,
                    None => match c.get_str("endpoint") {
                        Some(s) => s,
                        None => "predict",
                    },
                },
                None => "predict",
            };
            return Ok(ReplyStep::FollowGradioEvent { endpoint_name: name.to_string(), event_id });
        }
    }
    Ok(ReplyStep::Save(images))
}

/// The reply of a provider: refused with a status, one image, or JSON.
#[derive(Debug)]
pub enum ProviderReply {
    Refused { status: String, body: String },
    Image(Vec<u8>),
    Body(Json),
}

/// What a reply is followed by.
pub open spec fn step_of_reply<A: ImageProviderAdapter>(
    adapter: &A,
    provider_id: Seq<char>,
    reply: ProviderReply,
    config: Option<JsonModel>,
) -> Result<ReplyStepModel, Seq<char>> {
    match reply {
        ProviderReply::Refused { status, body } => Err(
            "API error "@ + status@ + ": "@ + body@,
        ),
        ProviderReply::Image(bytes) => if bytes@.len() == 0 {
            Err("Provider returned an empty image response"@)
        } else {
            Ok(ReplyStepModel::SaveBytes(bytes@))
        },
        ProviderReply::Body(response) => match adapter.configured_images_in(response@, config) {
            Ok(images) => reply_step(provider_id, images, config),
            Err(e) => Err(e),
        },
    }
}

/// Decides how to go on with the reply of a provider.
pub fn read_reply<A: ImageProviderAdapter>(
    adapter: &A,
    provider_id: &str,
    reply: ProviderReply,
    config: Option<&Json>,
) -> (r: Result<ReplyStep, String>)
    ensures
        step_view(r) == step_of_reply(adapter, provider_id@, reply, opt_json(config)),
{
    match reply {
        ProviderReply::Refused { status, body } => Err(api_error(status.as_str(), body.as_str())),
        ProviderReply::Image(bytes) => if bytes.len() == 0 {
            Err("Provider returned an empty image response".to_string())
        } else {
            Ok(ReplyStep::SaveBytes(bytes))
        },
        ProviderReply::Body(response) => match adapter.parse_response_with_config(
            &response,
            config,
        ) {
            Ok(images) => next_reply_step(provider_id, images, config),
            Err(e) => Err(e),
        },
    }
}

// ---------------------------------------------------------------------------
// Saving images
// ---------------------------------------------------------------------------

/// What an image is saved from: its link, or else its data.
pub open spec fn source_of(d: ImageDataModel) -> Option<Seq<char>> {
    match d.url {
        Some(url) => Some(url),
        None => d.b64_json,
    }
}

/// The message for an image with neither a link nor data: it shows the beginning of the text that
/// came instead.
pub open spec fn no_source_message(d: ImageDataModel) -> Seq<char> {
    "No image URL or data in response."@ + match opt_present(d.text) {
        Some(text) => " Provider returned text instead: "@ + first_chars(text, 160),
        None => Seq::empty(),
    }
}

/// Finds what an image of a provider is saved from.
pub fn image_source(data: &ImageResponseData) -> (r: Result<&str, String>)
    ensures
        match r {
            Ok(s) => source_of(data@) == Some(s@),
            Err(e) => source_of(data@) is None && e@ == no_source_message(data@),
        },
{
    if let Some(url) = &data.url {
        return Ok(url.as_str());
    }
    if let Some(b64) = &data.b64_json {
        return Ok(b64.as_str());
    }
    let mut message = "No image URL or data in response.".to_string();
    match present_opt(&data.text) {
        Some(text) => {
            let mut detail = " Provider returned text instead: ".to_string();
            detail.append(first_chars_str(text, 160));
            message.append(detail.as_str());
        },
        None => {
            assert(message@ + Seq::<char>::empty() =~= message@);
        },
    }
    Err(message)
}

/// Finds what an image of a ComfyUI server is saved from.
pub fn comfyui_image_source(data: &ImageResponseData) -> (r: Result<&str, String>)
    ensures
        match r {
            Ok(s) => source_of(data@) == Some(s@),
            Err(e) => source_of(data@) is None && e@ == "No image data in ComfyUI response."@,
        },
{
    if let Some(url) = &data.url {
        return Ok(url.as_str());
    }
    if let Some(b64) = &data.b64_json {
        return Ok(b64.as_str());
    }
    Err("No image data in ComfyUI response.".to_string())
}

/// An image as it was stored.
#[derive(Debug)]
pub struct SavedImage {
    pub asset_id: String,
    pub file_path: String,
    pub mime_type: String,
    pub width: Option<u32>,
    pub height: Option<u32>,
}

/// The image that was generated, out of what was stored and what the provider said of it.
pub fn generated_image(saved: SavedImage, url: Option<String>, text: Option<String>) -> (r:
    GeneratedImage)
    ensures
        r == (GeneratedImage {
            asset_id: saved.asset_id,
            file_path: saved.file_path,
            mime_type: saved.mime_type,
            url,
            width: saved.width,
            height: saved.height,
            text,
        }),
{
    GeneratedImage {
        asset_id: saved.asset_id,
        file_path: saved.file_path,
        mime_type: saved.mime_type,
        url,
        width: saved.width,
        height: saved.height,
        text,
    }
}

/// The response to a request whose images are stored.
pub fn generation_response(images: Vec<GeneratedImage>, request: &ImageGenerationRequest) -> (r:
    ImageGenerationResponse)
    ensures
        r.images == images,
        r.model@ == request.model@,
        r.provider_id@ == request.provider_id@,
{
    ImageGenerationResponse {
        images,
        model: request.model.clone(),
        provider_id: request.provider_id.clone(),
    }
}

/// The response to a request whose images are stored; without an image there is none.
pub fn conclude_saving(images: Vec<GeneratedImage>, request: &ImageGenerationRequest) -> (r: Result<
    ImageGenerationResponse,
    String,
>)
    ensures
        match r {
            Ok(response) => {
                &&& images@.len() > 0
                &&& response.images == images
                &&& response.model@ == request.model@
                &&& response.provider_id@ == request.provider_id@
            },
            Err(e) => images@.len() == 0 && e@ == "Image provider returned no images."@,
        },
{
    if images.len() == 0 {
        return Err("Image provider returned no images.".to_string());
    }
    Ok(generation_response(images, request))
}

/// What the history keeps of a generation.
#[derive(Debug)]
pub struct GenerationRecord {
    pub id: String,
    pub created_at: u64,
    pub provider_id: String,
    pub model_id: String,
    pub model_name: String,
    pub prompt: String,
    pub negative_prompt: Option<String>,
    pub params_json: String,
    pub status: String,
    pub images_json: String,
}

/// Records a generation under the number of its image, with the whole prompt.
pub fn history_record(request: &ImageGenerationRequest, asset_id: &str, created_at: u64) -> (r:
    GenerationRecord)
    ensures
        r.id@ == asset_id@,
        r.created_at == created_at,
        r.provider_id@ == request.provider_id@,
        r.model_id@ == request.model@,
        r.model_name@ == request.model@,
        r.prompt@ == request.prompt@,
        opt_view(r.negative_prompt) == (match request.advanced_model_settings {
            Some(s) => opt_view(s.sd_negative_prompt),
            None => None,
        }),
        r.params_json@ == "{}"@,
        r.status@ == "complete"@,
        r.images_json@ == "[]"@,
{
    let negative_prompt: Option<String> = match &request.advanced_model_settings {
        Some(s) => match &s.sd_negative_prompt {
            Some(t) => Some(t.clone()),
            None => None,
        },
        None => None,
    };
    GenerationRecord {
        id: asset_id.to_string(),
        created_at,
        provider_id: request.provider_id.clone(),
        model_id: request.model.clone(),
        model_name: request.model.clone(),
        prompt: request.prompt.clone(),
        negative_prompt,
        params_json: "{}".to_string(),
        status: "complete".to_string(),
        images_json: "[]".to_string(),
    }
}

// ---------------------------------------------------------------------------
// Usage
// ---------------------------------------------------------------------------

/// What a provider tells of the tokens that it used.
#[derive(Debug)]
pub struct UsageSummary {
    pub prompt_tokens: Option<u64>,
    pub completion_tokens: Option<u64>,
    pub total_tokens: Option<u64>,
    pub reasoning_tokens: Option<u64>,
    pub image_tokens: Option<u64>,
    pub audio_tokens: Option<u64>,
    pub web_search_requests: Option<u64>,
    pub api_cost: Option<Fraction>,
}

/// How a generation ended.
#[derive(Clone, Copy, PartialEq, Eq, Debug, Structural)]
pub enum UsageFinishReason {
    Stop,
    Error,
}

/// What is recorded of an image generation.
#[derive(Debug)]
pub struct RequestUsage {
    pub id: String,
    pub timestamp: u64,
    pub session_id: String,
    pub character_id: String,
    pub character_name: String,
    pub model_id: String,
    pub model_name: String,
    pub provider_id: String,
    pub provider_label: String,
    pub finish_reason: UsageFinishReason,
    pub summary: Option<UsageSummary>,
    pub success: bool,
    pub error_message: Option<String>,
    pub metadata: TextMap,
}

pub open spec fn flagged(
    metadata: Map<Seq<char>, Seq<char>>,
    key: Seq<char>,
    set: bool,
) -> Map<Seq<char>, Seq<char>> {
    if set {
        metadata.insert(key, "true"@)
    } else {
        metadata
    }
}

/// The details of a generation: how many images went in and came out, where the request came
/// from, and what context it had. The model is always noted as one of the model settings.
pub open spec fn usage_metadata(request: ImageGenerationRequest, image_count: nat) -> Map<
    Seq<char>,
    Seq<char>,
> {
    let counts = Map::empty().insert("image_generation"@, "true"@).insert(
        "input_image_count"@,
        decimal(request.input_views().len()),
    ).insert("output_image_count"@, decimal(image_count)).insert(
        "model_configuration"@,
        "models_setting"@,
    );
    let sourced = match request.usage_source {
        Some(source) => counts.insert("usage_source"@, source@),
        None => counts,
    };
    let character = flagged(sourced, "character_context"@, request.character_context is Some);
    let scene = flagged(character, "scene_context"@, request.scene_context is Some);
    flagged(
        scene,
        "character_reference"@,
        request.character_reference_image is Some || request.character_reference_images@.len() > 0,
    )
}

pub open spec fn text_or(s: Option<Seq<char>>, default_text: Seq<char>) -> Seq<char> {
    match s {
        Some(t) => t,
        None => default_text,
    }
}

/// The name under which a generation is recorded: that of the character, unless it is blank.
pub open spec fn recorded_name(request: ImageGenerationRequest) -> Seq<char> {
    match request.character_name {
        Some(name) => if trim(name@).len() > 0 {
            name@
        } else {
            "Image Generation"@
        },
        None => "Image Generation"@,
    }
}

fn copy_or(s: &Option<String>, default_text: &str) -> (r: String)
    ensures
        r@ == text_or(opt_view(*s), default_text@),
{
    match s {
        Some(t) => t.clone(),
        None => default_text.to_string(),
    }
}

/// Whether a record says who asked for a generation, and of what.
pub open spec fn says_who(
    r: RequestUsage,
    id: String,
    timestamp: u64,
    request: ImageGenerationRequest,
    provider_label: Seq<char>,
) -> bool {
    &&& r.id == id
    &&& r.timestamp == timestamp
    &&& r.session_id@ == text_or(opt_view(request.session_id), "image_generation"@)
    &&& r.character_id@ == text_or(opt_view(request.character_id), "image_generation"@)
    &&& r.character_name@ == recorded_name(request)
    &&& r.model_id@ == request.model@
    &&& r.model_name@ == request.model@
    &&& r.provider_id@ == request.provider_id@
    &&& r.provider_label@ == provider_label
}

/// Draws up the record of an image generation. The number of the record and the time are the
/// caller's.
pub fn image_generation_usage(
    id: String,
    timestamp: u64,
    request: &ImageGenerationRequest,
    provider_label: &str,
    summary: Option<UsageSummary>,
    success: bool,
    error_message: Option<String>,
    image_count: usize,
) -> (r: RequestUsage)
    ensures
        says_who(r, id, timestamp, *request, provider_label@),
        r.finish_reason == (if success {
            UsageFinishReason::Stop
        } else {
            UsageFinishReason::Error
        }),
        r.summary == summary,
        r.success == success,
        r.error_message == error_message,
        r.metadata@ == usage_metadata(*request, image_count as nat),
{
    let inputs: usize = match &request.input_images {
        Some(images) => images.len(),
        None => 0,
    };
    assert(inputs == request.input_views().len()) by {
        if let Some(images) = request.input_images {
            assert(views(images@).len() == images@.len());
        }
    }
    let mut metadata = TextMap::new();
    metadata.insert("image_generation", "true");
    metadata.insert("input_image_count", decimal_u64(inputs as u64).as_str());
    metadata.insert("output_image_count", decimal_u64(image_count as u64).as_str());
    metadata.insert("model_configuration", "models_setting");
    if let Some(source) = &request.usage_source {
        metadata.insert("usage_source", source.as_str());
    }
    if request.character_context.is_some() {
        metadata.insert("character_context", "true");
    }
    if request.scene_context.is_some() {
        metadata.insert("scene_context", "true");
    }
    if request.character_reference_image.is_some() || request.character_reference_images.len() > 0 {
        metadata.insert("character_reference", "true");
    }
    let character_name = match &request.character_name {
        Some(name) => if is_blank(name.as_str()) {
            "Image Generation".to_string()
        } else {
            name.clone()
        },
        None => "Image Generation".to_string(),
    };
    RequestUsage {
        id,
        timestamp,
        session_id: copy_or(&request.session_id, "image_generation"),
        character_id: copy_or(&request.character_id, "image_generation"),
        character_name,
        model_id: request.model.clone(),
        model_name: request.model.clone(),
        provider_id: request.provider_id.clone(),
        provider_label: provider_label.to_string(),
        finish_reason: if success {
            UsageFinishReason::Stop
        } else {
            UsageFinishReason::Error
        },
        summary,
        success,
        error_message,
        metadata,
    }
}

/// Whether a record says how a generation ended. What the provider reported counts only where it
/// succeeded.
pub open spec fn says_how(
    r: RequestUsage,
    request: ImageGenerationRequest,
    summary: Option<UsageSummary>,
    outcome: Result<ImageGenerationResponse, String>,
) -> bool {
    match outcome {
        Ok(response) => {
            &&& r.success
            &&& r.finish_reason == UsageFinishReason::Stop
            &&& r.summary == summary
            &&& r.error_message is None
            &&& r.metadata@ == usage_metadata(request, response.images@.len())
        },
        Err(e) => {
            &&& !r.success
            &&& r.finish_reason == UsageFinishReason::Error
            &&& r.summary is None
            &&& opt_view(r.error_message) == Some(e@)
            &&& r.metadata@ == usage_metadata(request, 0)
        },
    }
}

/// Draws up the record of an image generation out of how it ended, under a fresh id.
pub fn record_image_generation_usage(
    timestamp: u64,
    request: &ImageGenerationRequest,
    provider_label: &str,
    summary: Option<UsageSummary>,
    outcome: &Result<ImageGenerationResponse, String>,
) -> (r: RequestUsage)
    ensures
        is_uuid(r.id@),
        says_who(r, r.id, timestamp, *request, provider_label@),
        says_how(r, *request, summary, *outcome),
{
    match outcome {
        Ok(response) => image_generation_usage(
            new_id(),
            timestamp,
            request,
            provider_label,
            summary,
            true,
            None,
            response.images.len(),
        ),
        Err(e) => image_generation_usage(
            new_id(),
            timestamp,
            request,
            provider_label,
            None,
            false,
            Some(e.clone()),
            0,
        ),
    }
}

// ---------------------------------------------------------------------------
// Trying a connection
// ---------------------------------------------------------------------------

/// The adapter of a provider whose connection is tried.
pub fn connection_adapter(provider_id: &str) -> (r: Result<AdapterKind, String>)
    ensures
        match r {
            Ok(kind) => registered(provider_name(provider_id@)) == Some(kind),
            Err(e) => registered(provider_name(provider_id@)) is None && e@
                == "Unknown provider '"@ + provider_id@ + "': Image provider '"@ + provider_name(
                provider_id@,
            ) + "' is not supported"@,
        },
{
    match get_adapter(provider_id) {
        Ok(kind) => Ok(kind),
        Err(e) => {
            let mut message = "Unknown provider '".to_string();
            message.append(provider_id);
            message.append("': ");
            let ghost head = message@;
            message.append(e.as_str());
            proof {
                let tail = "Image provider '"@ + provider_name(provider_id@)
                    + "' is not supported"@;
                lemma_quoted_message(provider_id@, provider_name(provider_id@));
                assert(message@ == head + tail);
            }
            Err(message)
        },
    }
}

/// A message inside a message reads as one.
proof fn lemma_quoted_message(provider_id: Seq<char>, name: Seq<char>)
    ensures
        "Unknown provider '"@ + provider_id + "': "@ + ("Image provider '"@ + name
            + "' is not supported"@) == "Unknown provider '"@ + provider_id
            + "': Image provider '"@ + name + "' is not supported"@,
{
    reveal_strlit("': ");
    reveal_strlit("Image provider '");
    reveal_strlit("': Image provider '");
    assert("': "@ + "Image provider '"@ =~= "': Image provider '"@);
    assert("Unknown provider '"@ + provider_id + "': "@ + ("Image provider '"@ + name
        + "' is not supported"@) =~= "Unknown provider '"@ + provider_id + ("': "@
        + "Image provider '"@) + name + "' is not supported"@);
}

/// Whether a status shows that someone answers: also where there is nothing at the address, or the
/// caller has no access to it.
pub open spec fn answers(status: u16) -> bool {
    200 <= status <= 299 || status == 404 || status == 401 || status == 405
}

/// What came of asking an address: a reply, or the reason why there is none.
#[derive(Debug)]
pub enum ProbeReply {
    Answered { status: u16, status_text: String, body: String },
    Unsent(String),
}

/// What the reply from the base address shows: a connection, or what speaks against one.
pub open spec fn first_judgement(
    provider_id: Seq<char>,
    base_url: Seq<char>,
    reply: ProbeReply,
) -> Result<Seq<char>, Seq<char>> {
    match reply {
        ProbeReply::Answered { status, status_text, body } => if answers(status) {
            Ok(
                "Connection successful ("@ + provider_id + " "@ + base_url
                    + " is reachable, status "@ + status_text@ + ")"@,
            )
        } else {
            Err(status_text@ + ": "@ + first_chars(body@, 200))
        },
        ProbeReply::Unsent(e) => Err("GET failed: "@ + e@),
    }
}

pub open spec fn message_view(r: Result<String, String>) -> Result<Seq<char>, Seq<char>> {
    match r {
        Ok(s) => Ok(s@),
        Err(e) => Err(e@),
    }
}

/// Judges the reply from the base address of a provider.
pub fn judge_first_reply(provider_id: &str, base_url: &str, reply: ProbeReply) -> (r: Result<
    String,
    String,
>)
    ensures
        message_view(r) == first_judgement(provider_id@, base_url@, reply),
{
    match reply {
        ProbeReply::Answered { status, status_text, body } => {
            if (200 <= status && status <= 299) || status == 404 || status == 401 || status == 405 {
                let mut message = "Connection successful (".to_string();
                message.append(provider_id);
                message.append(" ");
                message.append(base_url);
                message.append(" is reachable, status ");
                message.append(status_text.as_str());
                message.append(")");
                Ok(message)
            } else {
                let mut message = status_text;
                message.append(": ");
                message.append(first_chars_str(body.as_str(), 200));
                Err(message)
            }
        },
        ProbeReply::Unsent(e) => {
            let mut message = "GET failed: ".to_string();
            message.append(e.as_str());
            Err(message)
        },
    }
}

/// Where a Gradio interface tells of its configuration.
pub open spec fn gradio_config_url(base_url: Seq<char>) -> Seq<char> {
    trim_end_of(base_url, '/') + "/config"@
}

/// The second address that is tried for a provider, where there is one.
pub fn second_try_url(provider_id: &str, base_url: &str) -> (r: Option<String>)
    ensures
        opt_view(r) == (if provider_name(provider_id@) == "gradio"@ {
            Some(gradio_config_url(base_url@))
        } else {
            None
        }),
{
    if same(normalize_provider_id(provider_id).as_str(), "gradio") {
        let mut url = trim_end_of_str(base_url, '/').to_string();
        url.append("/config");
        Some(url)
    } else {
        None
    }
}

/// Judges the reply from the second address: what the user is told where it shows a connection.
pub fn judge_second_reply(config_url: &str, status: u16, status_text: &str) -> (r: Option<String>)
    ensures
        opt_view(r) == (if 200 <= status <= 299 {
            Some(
                "Gradio Space reachable at "@ + config_url@ + " (status "@ + status_text@ + ")"@,
            )
        } else {
            None
        }),
{
    if 200 <= status && status <= 299 {
        let mut message = "Gradio Space reachable at ".to_string();
        message.append(config_url);
        message.append(" (status ");
        message.append(status_text);
        message.append(")");
        Some(message)
    } else {
        None
    }
}

/// How a try ended: with a connection, without one, or not in time.
#[derive(Debug)]
pub enum ConnectionTry {
    Connected(String),
    Refused(String),
    TimedOut,
}

/// What the user is told of a try.
pub fn conclude_connection_test(outcome: ConnectionTry, timeout_seconds: u64, base_url: &str) -> (r:
    Result<String, String>)
    ensures
        match outcome {
            ConnectionTry::Connected(m) => r == Ok::<String, String>(m),
            ConnectionTry::Refused(e) => r matches Err(m) && m@ == "Connection test failed: "@ + e@,
            ConnectionTry::TimedOut => r matches Err(m) && m@ == "Connection timed out after "@
                + decimal(timeout_seconds as nat) + "s to "@ + base_url@,
        },
{
    match outcome {
        ConnectionTry::Connected(m) => Ok(m),
        ConnectionTry::Refused(e) => {
            let mut message = "Connection test failed: ".to_string();
            message.append(e.as_str());
            Err(message)
        },
        ConnectionTry::TimedOut => {
            let mut message = "Connection timed out after ".to_string();
            message.append(decimal_u64(timeout_seconds).as_str());
            message.append("s to ");
            message.append(base_url);
            Err(message)
        },
    }
}

// ---------------------------------------------------------------------------
// Finding models
// ---------------------------------------------------------------------------

/// Where the models of a provider are listed.
#[derive(Debug)]
pub enum ModelDiscovery {
    /// By AI Horde.
    Horde,
    /// At an address.
    Endpoint(String),
}

pub open spec fn models_setting(config: Option<JsonModel>) -> Seq<char> {
    match config {
        Some(c) => match c.get_str("modelsEndpoint"@) {
            Some(s) => s,
            None => match c.get_str("models_endpoint"@) {
                Some(s) => s,
                None => "/models"@,
            },
        },
        None => "/models"@,
    }
}

/// The address of the list of models: a link of the settings, or a path behind the base address.
pub open spec fn models_url(base_url: Seq<char>, config: Option<JsonModel>) -> Seq<char> {
    let endpoint = models_setting(config);
    if is_link(endpoint) {
        endpoint
    } else {
        trim_end_of(base_url, '/') + "/"@ + trim_start_of(endpoint, '/')
    }
}

pub open spec fn no_discovery_message(provider_id: Seq<char>) -> Seq<char> {
    "Model discovery not supported for provider '"@ + provider_id
        + "'. Enter model name manually (e.g. DreamShaper_8, Flux, SDXL)."@
}

/// Finds out where the models of a provider are listed. Most providers, Gradio interfaces among
/// them, list none.
pub fn model_discovery(provider_id: &str, base_url: &str, config: Option<&Json>) -> (r: Result<
    ModelDiscovery,
    String,
>)
    ensures
        ({
            let name = provider_name(provider_id@);
            if name == "aihorde"@ {
                r == Ok::<ModelDiscovery, String>(ModelDiscovery::Horde)
            } else if name == "generic_http"@ {
                r matches Ok(ModelDiscovery::Endpoint(url)) && url@ == models_url(
                    base_url@,
                    opt_json(config),
                )
            } else {
                r matches Err(e) && e@ == no_discovery_message(provider_id@)
            }
        }),
{
    let name = normalize_provider_id(provider_id);
    if same(name.as_str(), "aihorde") {
        return Ok(ModelDiscovery::Horde);
    }
    if same(name.as_str(), "generic_http") {
        let endpoint = match config {
            Some(c) => match c.get_str("modelsEndpoint") {
                Some(s) => s,
                None => match c.get_str("models_endpoint") {
                    Some(s) => s,
                    None => "/models",
                },
            },
            None => "/models",
        };
        if is_link_text(endpoint) {
            return Ok(ModelDiscovery::Endpoint(endpoint.to_string()));
        }
        let mut url = trim_end_of_str(base_url, '/').to_string();
        url.append("/");
        url.append(trim_start_of_str(endpoint, '/'));
        return Ok(ModelDiscovery::Endpoint(url));
    }
    let mut message = "Model discovery not supported for provider '".to_string();
    message.append(provider_id);
    message.append("'. Enter model name manually (e.g. DreamShaper_8, Flux, SDXL).");
    Err(message)
}

/// The message for a list of models that comes with an error status.
pub fn models_error(status: &str, body: &str) -> (r: String)
    ensures
        r@ == "Models endpoint returned "@ + status@ + ": "@ + first_chars(body@, 300),
{
    let mut message = "Models endpoint returned ".to_string();
    message.append(status);
    message.append(": ");
    message.append(first_chars_str(body, 300));
    message
}

/// The name that an entry of a list of models gives: its `id`, its `name`, or the entry itself.
pub open spec fn entry_name(entry: JsonModel) -> Option<Seq<char>> {
    match entry.get_str("id"@) {
        Some(s) => present(s),
        None => match entry.get_str("name"@) {
            Some(s) => present(s),
            None => opt_present(entry.as_str()),
        },
    }
}

pub open spec fn entry_names(entries: Seq<JsonModel>) -> Seq<Seq<char>>
    decreases entries.len(),
{
    if entries.len() == 0 {
        Seq::empty()
    } else {
        let before = entry_names(entries.drop_last());
        match entry_name(entries.last()) {
            Some(s) => before.push(s),
            None => before,
        }
    }
}

/// The entries of a list of models: its `data`, its `models`, or the list itself.
pub open spec fn model_entries(list: JsonModel) -> Option<Seq<JsonModel>> {
    match list.get_array("data"@) {
        Some(entries) => Some(entries),
        None => match list.get_array("models"@) {
            Some(entries) => Some(entries),
            None => match list {
                JsonModel::Array(entries) => Some(entries),
                _ => None,
            },
        },
    }
}

fn read_entry(entry: &Json) -> (r: Option<&str>)
    ensures
        opt_str_view(r) == entry_name(entry@),
{
    match entry.get_str("id") {
        Some(s) => present_str(s),
        None => match entry.get_str("name") {
            Some(s) => present_str(s),
            None => match entry.as_str() {
                Some(s) => present_str(s),
                None => None,
            },
        },
    }
}

/// Reads the names of the models out of a list.
pub fn model_names(list: &Json) -> (r: Result<Vec<String>, String>)
    ensures
        match r {
            Ok(names) => names@.len() > 0 && model_entries(list@) is Some && views(names@)
                == entry_names(model_entries(list@)->0),
            Err(e) => match model_entries(list@) {
                Some(entries) => entry_names(entries).len() == 0 && e@
                    == "Models response contained no model IDs"@,
                None => e@
                    == "Models response did not contain a list (expected {\"data\": [...]})"@,
            },
        },
{
    let found = match list.get_array("data") {
        Some(entries) => Some(entries),
        None => match list.get_array("models") {
            Some(entries) => Some(entries),
            None => list.as_array(),
        },
    };
    match found {
        Some(entries) => {
            let ghost all = json_views(entries@);
            let mut out: Vec<String> = Vec::new();
            assert(views(out@) =~= Seq::empty());
            for i in 0..entries.len()
                invariant
                    all == json_views(entries@),
                    views(out@) == entry_names(all.take(i as int)),
            {
                broadcast use views_push;

                assert(all.take(i + 1).drop_last() =~= all.take(i as int));
                assert(all.take(i + 1).last() == entries@[i as int]@);
                if let Some(name) = read_entry(&entries[i]) {
                    out.push(name.to_string());
                }
            }
            assert(all.take(all.len() as int) =~= all);
            assert(views(out@).len() == out@.len());
            if out.len() == 0 {
                return Err("Models response contained no model IDs".to_string());
            }
            Ok(out)
        },
        None => Err(
            "Models response did not contain a list (expected {\"data\": [...]})".to_string(),
        ),
    }
}

// ---------------------------------------------------------------------------
// Laws
// ---------------------------------------------------------------------------

/// A job that AI Horde accepted is followed up under the number that it was given, and nothing
/// else ever is: a reply of AI Horde is never saved as an image.
pub proof fn law_horde_reply_is_followed(
    provider_id: Seq<char>,
    response: JsonModel,
    config: Option<JsonModel>,
)
    requires
        is_horde(provider_id),
    ensures
        crate::image_generator::provider_adapter::aihorde::reply_images(response) matches Ok(images)
            ==> reply_step(provider_id, images, config) == Ok::<ReplyStepModel, Seq<char>>(
            ReplyStepModel::FollowHordeJob(trim(response.get_str("id"@)->0)),
        ),
{
    if let Some(id) = crate::image_generator::provider_adapter::aihorde::job_id(response) {
        law_job_link_leads_back(id);
    }
}

/// A call that a Gradio interface queued is followed up under the event that it was given.
pub proof fn law_queued_call_is_followed(
    provider_id: Seq<char>,
    response: JsonModel,
    config: Option<JsonModel>,
)
    requires
        provider_name(provider_id) == "gradio"@,
        crate::image_generator::provider_adapter::gradio::event_id(response) is Some,
    ensures
        ({
            let id = crate::image_generator::provider_adapter::gradio::event_id(response)->0;
            let images =
                crate::image_generator::provider_adapter::gradio::reply_images(response)->Ok_0;
            reply_step(provider_id, images, config) == Ok::<ReplyStepModel, Seq<char>>(
                ReplyStepModel::FollowGradioEvent {
                    endpoint_name: followed_endpoint(config),
                    event_id: id,
                },
            )
        }),
{
    let id = crate::image_generator::provider_adapter::gradio::event_id(response)->0;
    law_job_link_leads_back(id);
    lemma_trim_trimmed(response.get_str("event_id"@)->0);
    reveal_strlit("aihorde");
    reveal_strlit("ai-horde");
    reveal_strlit("gradio");
    assert("aihorde"@.len() == 7 && "gradio"@.len() == 6);
    if is_horde(provider_id) {
        lemma_plain_name(provider_id);
        lemma_canonical_names();
    }
}

/// The first link with a number counts, wherever it stands among the images of a reply.
pub proof fn law_first_numbered_link_counts(
    before: Seq<ImageDataModel>,
    image: ImageDataModel,
    behind: Seq<ImageDataModel>,
    prefix: Seq<char>,
    url: Seq<char>,
)
    requires
        first_number_behind(before, prefix) is None,
        image.url == Some(url),
        number_behind(url, prefix) is Some,
    ensures
        first_number_behind(before + seq![image] + behind, prefix) == number_behind(url, prefix),
    decreases before.len(),
{
    let all = before + seq![image] + behind;
    if before.len() > 0 {
        assert(all[0] == before[0]);
        assert(all.drop_first() =~= before.drop_first() + seq![image] + behind);
        law_first_numbered_link_counts(before.drop_first(), image, behind, prefix, url);
    } else {
        assert(all[0] == image);
    }
}

/// The images of a provider that runs no jobs are saved as they came, and so are those of a Gradio
/// interface that queued nothing. AI Horde fails without a job.
pub proof fn law_images_are_saved(
    provider_id: Seq<char>,
    images: Seq<ImageDataModel>,
    config: Option<JsonModel>,
)
    ensures
        provider_id != "aihorde"@ && provider_id != "ai-horde"@ && (provider_name(provider_id)
            != "gradio"@ || first_number_behind(images, "gradio://"@) is None) ==> reply_step(
            provider_id,
            images,
            config,
        ) == Ok::<ReplyStepModel, Seq<char>>(ReplyStepModel::Save(images)),
        (provider_id == "aihorde"@ || provider_id == "ai-horde"@) && first_number_behind(
            images,
            "aihorde://"@,
        ) is None ==> reply_step(provider_id, images, config) is Err,
{
}

/// The event of a Gradio interface is followed up at the function that the settings name, by the
/// newer word before the older.
pub proof fn law_followed_function(config: JsonModel, s: Seq<char>)
    ensures
        config.get_str("gradioEndpoint"@) == Some(s) ==> followed_endpoint(Some(config)) == s,
        config.get_str("gradioEndpoint"@) is None && config.get_str("endpoint"@) == Some(s)
            ==> followed_endpoint(Some(config)) == s,
        config.get_str("gradioEndpoint"@) is None && config.get_str("endpoint"@) is None
            ==> followed_endpoint(Some(config)) == "predict"@,
        followed_endpoint(None) == "predict"@,
{
}

/// A refused request tells the status and what came with it. One image is saved byte for byte,
/// unless it is empty. What the adapter finds no image in fails for the adapter's reason.
pub proof fn law_reply_of_a_provider<A: ImageProviderAdapter>(
    adapter: &A,
    provider_id: Seq<char>,
    reply: ProviderReply,
    config: Option<JsonModel>,
)
    ensures
        match reply {
            ProviderReply::Refused { status, body } => step_of_reply(
                adapter,
                provider_id,
                reply,
                config,
            ) matches Err(e) && e == "API error "@ + status@ + ": "@ + body@,
            ProviderReply::Image(bytes) => if bytes@.len() > 0 {
                step_of_reply(adapter, provider_id, reply, config) == Ok::<
                    ReplyStepModel,
                    Seq<char>,
                >(ReplyStepModel::SaveBytes(bytes@))
            } else {
                step_of_reply(adapter, provider_id, reply, config) is Err
            },
            ProviderReply::Body(response) => match adapter.configured_images_in(
                response@,
                config,
            ) {
                Ok(images) => step_of_reply(adapter, provider_id, reply, config) == reply_step(
                    provider_id,
                    images,
                    config,
                ),
                Err(e) => step_of_reply(adapter, provider_id, reply, config) == Err::<
                    ReplyStepModel,
                    Seq<char>,
                >(e),
            },
        },
{
}

/// An image is saved from its link, or from its data where it has no link. Only an image with
/// neither cannot be saved; the text that came instead is told, cut off behind 160 characters.
pub proof fn law_what_an_image_is_saved_from(d: ImageDataModel, s: Seq<char>)
    ensures
        d.url == Some(s) ==> source_of(d) == Some(s),
        d.url is None && d.b64_json == Some(s) ==> source_of(d) == Some(s),
        source_of(d) is None <==> d.url is None && d.b64_json is None,
        d.text == Some(s) && 0 < trim(s).len() <= 160 ==> no_source_message(d)
            == "No image URL or data in response."@ + (" Provider returned text instead: "@ + trim(
            s,
        )),
        d.text == Some(s) && trim(s).len() > 160 ==> no_source_message(d)
            == "No image URL or data in response."@ + (" Provider returned text instead: "@ + trim(
            s,
        ).take(160)),
        d.text is None ==> no_source_message(d) == "No image URL or data in response."@,
{
    assert("No image URL or data in response."@ + Seq::<char>::empty()
        =~= "No image URL or data in response."@);
    if trim(s).len() <= 160 {
        assert(first_chars(trim(s), 160) =~= trim(s));
    }
}

/// A Gemini model is asked under one address, whether the base address names a version or not and
/// whether it ends in a slash.
pub proof fn law_gemini_address(base: Seq<char>, model: Seq<char>, api_key: Seq<char>)
    requires
        base.len() > 0,
        base.last() != '/',
        strip_suffix(base, "/v1beta"@) is None,
        strip_suffix(base, "/v1"@) is None,
    ensures
        ({
            let address = base + "/v1beta/models/"@ + model + ":generateContent?key="@ + api_key;
            &&& gemini_endpoint(base, model, api_key) == address
            &&& gemini_endpoint(base + seq!['/'], model, api_key) == address
            &&& gemini_endpoint(base + "/v1"@, model, api_key) == address
            &&& gemini_endpoint(base + "/v1beta"@, model, api_key) == address
            &&& gemini_endpoint(base + "/v1beta"@ + seq!['/'], model, api_key) == address
        }),
{
    reveal_strlit("/v1beta");
    reveal_strlit("/v1");
    reveal_with_fuel(trim_end_of, 2);
    let one = base + "/v1"@;
    let beta = base + "/v1beta"@;
    assert((base + seq!['/']).drop_last() =~= base);
    assert((beta + seq!['/']).drop_last() =~= beta);
    assert(one.last() == '1');
    assert(beta.last() == 'a');
    assert(one.skip(one.len() - 3) =~= "/v1"@);
    assert(one.take(one.len() - 3) =~= base);
    assert(beta.skip(beta.len() - 7) =~= "/v1beta"@);
    assert(beta.take(beta.len() - 7) =~= base);
    assert("/v1beta"@.last() == 'a');
    if one.len() >= 7 {
        assert(one.skip(one.len() - 7).last() == '1');
    }
}

/// What is recorded of a generation: that it was one, how many images went in and came out, and
/// where the request came from. It is marked which context the request had, and nothing else is
/// recorded.
pub proof fn law_recorded_details(request: ImageGenerationRequest, images: nat, key: Seq<char>)
    ensures
        ({
            let details = usage_metadata(request, images);
            let references = request.character_reference_image is Some
                || request.character_reference_images@.len() > 0;
            let inputs: nat = match request.input_images {
                Some(v) => v@.len(),
                None => 0,
            };
            &&& details.dom().contains("image_generation"@) && details["image_generation"@]
                == "true"@
            &&& details.dom().contains("input_image_count"@) && details["input_image_count"@]
                == decimal(inputs)
            &&& details.dom().contains("output_image_count"@) && details["output_image_count"@]
                == decimal(images)
            &&& details.dom().contains("model_configuration"@) && details["model_configuration"@]
                == "models_setting"@
            &&& match request.usage_source {
                Some(source) => details.dom().contains("usage_source"@) && details["usage_source"@]
                    == source@,
                None => !details.dom().contains("usage_source"@),
            }
            &&& details.dom().contains("character_context"@) <==> request.character_context is Some
            &&& details.dom().contains("scene_context"@) <==> request.scene_context is Some
            &&& details.dom().contains("character_reference"@) <==> references
            &&& request.character_context is Some ==> details["character_context"@] == "true"@
            &&& request.scene_context is Some ==> details["scene_context"@] == "true"@
            &&& references ==> details["character_reference"@] == "true"@
            &&& details.dom().contains(key) ==> {
                ||| key == "image_generation"@
                ||| key == "input_image_count"@
                ||| key == "output_image_count"@
                ||| key == "model_configuration"@
                ||| key == "usage_source"@
                ||| key == "character_context"@
                ||| key == "scene_context"@
                ||| key == "character_reference"@
            }
        }),
{
    reveal_strlit("image_generation");
    reveal_strlit("input_image_count");
    reveal_strlit("output_image_count");
    reveal_strlit("model_configuration");
    reveal_strlit("usage_source");
    reveal_strlit("character_context");
    reveal_strlit("scene_context");
    reveal_strlit("character_reference");
    assert("image_generation"@.len() != "input_image_count"@.len());
    assert("image_generation"@.len() != "output_image_count"@.len());
    assert("image_generation"@.len() != "model_configuration"@.len());
    assert("image_generation"@.len() != "usage_source"@.len());
    assert("image_generation"@.len() != "character_context"@.len());
    assert("image_generation"@.len() != "scene_context"@.len());
    assert("image_generation"@.len() != "character_reference"@.len());
    assert("input_image_count"@.len() != "output_image_count"@.len());
    assert("input_image_count"@.len() != "model_configuration"@.len());
    assert("input_image_count"@.len() != "usage_source"@.len());
    assert("input_image_count"@[0] != "character_context"@[0]);
    assert("input_image_count"@.len() != "scene_context"@.len());
    assert("input_image_count"@.len() != "character_reference"@.len());
    assert("output_image_count"@.len() != "model_configuration"@.len());
    assert("output_image_count"@.len() != "usage_source"@.len());
    assert("output_image_count"@.len() != "character_context"@.len());
    assert("output_image_count"@.len() != "scene_context"@.len());
    assert("output_image_count"@.len() != "character_reference"@.len());
    assert("model_configuration"@.len() != "usage_source"@.len());
    assert("model_configuration"@.len() != "character_context"@.len());
    assert("model_configuration"@.len() != "scene_context"@.len());
    assert("model_configuration"@[0] != "character_reference"@[0]);
    assert("usage_source"@.len() != "character_context"@.len());
    assert("usage_source"@.len() != "scene_context"@.len());
    assert("usage_source"@.len() != "character_reference"@.len());
    assert("character_context"@.len() != "scene_context"@.len());
    assert("character_context"@.len() != "character_reference"@.len());
    assert("scene_context"@.len() != "character_reference"@.len());
    if let Some(v) = request.input_images {
        assert(views(v@).len() == v@.len());
    }
}

/// A generation is recorded for the session and the character that the request names, under the
/// name of the character unless that is blank; else for image generation as such.
pub proof fn law_recorded_under_a_name(request: ImageGenerationRequest, s: Seq<char>)
    ensures
        text_or(Some(s), "image_generation"@) == s,
        text_or(None, "image_generation"@) == "image_generation"@,
        match request.character_name {
            Some(name) => trim(name@).len() > 0 ==> recorded_name(request) == name@,
            None => recorded_name(request) == "Image Generation"@,
        },
        request.character_name matches Some(name) ==> trim(name@).len() == 0 ==> recorded_name(
            request,
        ) == "Image Generation"@,
{
}

/// A server answers where it replies with success, and also where it says that there is nothing
/// there, that the caller may not look, or not in this way. Any other reply, or none, is told with
/// its reason.
pub proof fn law_reachable_server(provider_id: Seq<char>, base_url: Seq<char>, reply: ProbeReply)
    ensures
        match reply {
            ProbeReply::Answered { status, status_text, body } => if 200 <= status < 300 || status
                == 401 || status == 404 || status == 405 {
                first_judgement(provider_id, base_url, reply) matches Ok(m) && m
                    == "Connection successful ("@ + provider_id + " "@ + base_url
                    + " is reachable, status "@ + status_text@ + ")"@
            } else {
                first_judgement(provider_id, base_url, reply) matches Err(e)
                    && status_text@.is_prefix_of(e) && (body@.len() <= 200 ==> e == status_text@
                    + ": "@ + body@)
            },
            ProbeReply::Unsent(reason) => first_judgement(provider_id, base_url, reply) matches Err(
                e,
            ) && e == "GET failed: "@ + reason@,
        },
{
    if let ProbeReply::Answered { status, status_text, body } = reply {
        if body@.len() <= 200 {
            assert(first_chars(body@, 200) =~= body@);
        }
    }
}

/// The list of models is fetched from the link that the settings name, or from the path that they
/// name behind the base address; one slash stands between the two however they are written. It is
/// the path `/models` where they name none.
pub proof fn law_address_of_the_models(
    base_url: Seq<char>,
    config: JsonModel,
    set: Seq<char>,
    path: Seq<char>,
)
    requires
        config.get_str("modelsEndpoint"@) == Some(set) || config.get_str("modelsEndpoint"@) is None
            && config.get_str("models_endpoint"@) == Some(set),
    ensures
        is_link(set) ==> models_url(base_url, Some(config)) == set,
        !is_link(set) && path.len() > 0 && path[0] != '/' && (set == path || set == seq!['/']
            + path) && (base_url.len() == 0 || base_url.last() != '/') ==> models_url(
            base_url,
            Some(config),
        ) == base_url + "/"@ + path && models_url(base_url + seq!['/'], Some(config)) == base_url
            + "/"@ + path,
        base_url.len() == 0 || base_url.last() != '/' ==> models_url(base_url, None) == base_url
            + "/models"@,
{
    reveal_with_fuel(trim_end_of, 2);
    reveal_with_fuel(trim_start_of, 2);
    assert((base_url + seq!['/']).drop_last() =~= base_url);
    assert((seq!['/'] + path).drop_first() =~= path);
    reveal_strlit("/models");
    reveal_strlit("http://");
    reveal_strlit("https://");
    reveal_strlit("/");
    let usual = "/models"@;
    assert(usual.take(7)[0] != "http://"@[0]);
    assert(!is_link(usual));
    assert(usual.drop_first()[0] == 'm');
    assert(base_url + "/"@ + usual.drop_first() =~= base_url + usual);
}

/// The names of the models are those of the entries of the list, in their order. An entry goes by
/// its `id` before its `name`, or is a name itself.
pub proof fn law_names_of_the_models(
    a: Seq<JsonModel>,
    b: Seq<JsonModel>,
    entry: JsonModel,
    s: Seq<char>,
    list: JsonModel,
)
    ensures
        entry_names(a + b) == entry_names(a) + entry_names(b),
        entry.get_str("id"@) == Some(s) || entry.get_str("id"@) is None && entry.get_str("name"@)
            == Some(s) || entry == JsonModel::Text(s) ==> entry_names(seq![entry]) == (if trim(
            s,
        ).len() > 0 {
            seq![trim(s)]
        } else {
            Seq::empty()
        }),
        list.get_array("data"@) == Some(a) ==> model_entries(list) == Some(a),
        list.get_array("data"@) is None && list.get_array("models"@) == Some(a) ==> model_entries(
            list,
        ) == Some(a),
        model_entries(JsonModel::Array(a)) == Some(a),
    decreases b.len(),
{
    reveal_with_fuel(entry_names, 2);
    assert(seq![entry].drop_last() =~= Seq::empty());
    if b.len() == 0 {
        assert(a + b =~= a);
        assert(entry_names(a) + entry_names(b) =~= entry_names(a));
    } else {
        law_names_of_the_models(a, b.drop_last(), entry, s, list);
        assert((a + b).drop_last() =~= a + b.drop_last());
        assert((a + b).last() == b.last());
        assert(entry_names(a + b) =~= entry_names(a) + entry_names(b));
    }
}

/// The local runtime and a ComfyUI server draw for themselves; every other provider draws through
/// the adapter that is registered for it.
pub proof fn law_who_draws(provider_id: Seq<char>)
    ensures
        provider_id == "sdcpp"@ ==> route_of(provider_id) == Some(GenerationRoute::Sdcpp),
        provider_id == "comfyui"@ ==> route_of(provider_id) == Some(GenerationRoute::ComfyUi),
        provider_id != "sdcpp"@ && provider_id != "comfyui"@ ==> match registered(
            provider_name(provider_id),
        ) {
            Some(kind) => route_of(provider_id) == Some(GenerationRoute::Adapter(kind)),
            None => route_of(provider_id) is None,
        },
{
    reveal_strlit("sdcpp");
    reveal_strlit("comfyui");
    assert("sdcpp"@.len() == 5 && "comfyui"@.len() == 7);
}

} // verus!
