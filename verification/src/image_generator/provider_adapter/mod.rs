//! Image providers and what they have in common.
pub mod aihorde;
pub mod config;
pub mod generic_http;
pub mod gradio;
pub mod parameters;

use vstd::prelude::*;

use self::config::{bounded_timeout, clamp_timeout, config_number, first_number};
use super::types::ImageGenerationRequest;
use crate::text_map::TextMap;
use crate::json::{opt_json, Json, JsonModel};
use crate::text::{
    bounded_value, decimal, is_digit, is_trimmed, is_white, law_decimal, lemma_place_from,
    lemma_trim_trimmed, lower_ascii, lower_ascii_str, lower_char, opt_str_view, opt_view, parse_u32,
    place_of, same, split_once, split_once_str, strs, trim, trim_str,
};

verus! {

// ---------------------------------------------------------------------------
// Requests and replies
// ---------------------------------------------------------------------------

/// One field of a form.
#[derive(Debug)]
pub struct FormField {
    pub name: String,
    pub file_name: Option<String>,
    pub mime: Option<String>,
    pub bytes: Vec<u8>,
}

/// The body of a request to a provider: JSON for most, a form for some.
#[derive(Debug)]
pub enum ImageRequestPayload {
    Json(Json),
    Multipart(Vec<FormField>),
}

pub enum PayloadModel {
    Json(JsonModel),
    Multipart(Seq<FormField>),
}

impl View for ImageRequestPayload {
    type V = PayloadModel;

    open spec fn view(&self) -> PayloadModel {
        match self {
            ImageRequestPayload::Json(j) => PayloadModel::Json(j@),
            ImageRequestPayload::Multipart(fields) => PayloadModel::Multipart(fields@),
        }
    }
}

pub open spec fn payload_view(r: Result<ImageRequestPayload, String>) -> Result<
    PayloadModel,
    Seq<char>,
> {
    match r {
        Ok(p) => Ok(p@),
        Err(e) => Err(e@),
    }
}

/// Whether a provider replies with JSON or with the bytes of an image.
#[derive(Clone, Copy, PartialEq, Eq, Debug, Structural)]
pub enum ImageResponseFormat {
    Json,
    Binary,
}

/// One image of a reply: where it can be fetched, or its data, or a text beside it.
#[derive(Debug)]
pub struct ImageResponseData {
    pub url: Option<String>,
    pub b64_json: Option<String>,
    pub text: Option<String>,
}

pub struct ImageDataModel {
    pub url: Option<Seq<char>>,
    pub b64_json: Option<Seq<char>>,
    pub text: Option<Seq<char>>,
}

impl View for ImageResponseData {
    type V = ImageDataModel;

    open spec fn view(&self) -> ImageDataModel {
        ImageDataModel {
            url: opt_view(self.url),
            b64_json: opt_view(self.b64_json),
            text: opt_view(self.text),
        }
    }
}

pub open spec fn image_views(images: Seq<ImageResponseData>) -> Seq<ImageDataModel> {
    images.map_values(|d: ImageResponseData| d@)
}

pub broadcast proof fn image_views_push(images: Seq<ImageResponseData>, d: ImageResponseData)
    ensures
        #[trigger] image_views(images.push(d)) == image_views(images).push(d@),
{
    assert(image_views(images.push(d)) =~= image_views(images).push(d@));
}

pub open spec fn images_view(r: Result<Vec<ImageResponseData>, String>) -> Result<
    Seq<ImageDataModel>,
    Seq<char>,
> {
    match r {
        Ok(images) => Ok(image_views(images@)),
        Err(e) => Err(e@),
    }
}

pub open spec fn url_data(url: Seq<char>) -> ImageDataModel {
    ImageDataModel { url: Some(url), b64_json: None, text: None }
}

pub open spec fn b64_data(data: Seq<char>) -> ImageDataModel {
    ImageDataModel { url: None, b64_json: Some(data), text: None }
}

/// The image that can be fetched from `url`.
pub fn image_at(url: &str) -> (r: ImageResponseData)
    ensures
        r@ == url_data(url@),
{
    ImageResponseData { url: Some(url.to_string()), b64_json: None, text: None }
}

/// The image with the given data.
pub fn image_of_data(data: &str) -> (r: ImageResponseData)
    ensures
        r@ == b64_data(data@),
{
    ImageResponseData { url: None, b64_json: Some(data.to_string()), text: None }
}

// ---------------------------------------------------------------------------
// The interface of a provider
// ---------------------------------------------------------------------------

/// What every image provider offers: an endpoint, header fields, a request body, and a way to
/// read its replies. A provider whose jobs run on answers with a link of its own, such as
/// `aihorde://` and the number of the job, which is followed up by polling.
///
/// Each function that depends on the provider's settings stands beside one that does not. A
/// provider without settings lets the first hand on to the second.
pub trait ImageProviderAdapter {
    spec fn endpoint_text(&self, base_url: Seq<char>) -> Seq<char>;

    spec fn configured_endpoint(&self, base_url: Seq<char>, config: Option<JsonModel>) -> Seq<char>;

    spec fn header_fields(&self, api_key: Seq<char>, extra: Option<&TextMap>) -> Map<
        Seq<char>,
        Seq<char>,
    >;

    spec fn configured_headers(
        &self,
        api_key: Seq<char>,
        env_key: Option<Seq<char>>,
        extra: Option<&TextMap>,
        config: Option<JsonModel>,
    ) -> Map<Seq<char>, Seq<char>>;

    /// Whether the sizes of a request can be worked with.
    spec fn can_ask(&self, request: ImageGenerationRequest) -> bool;

    spec fn body(&self, request: ImageGenerationRequest) -> Result<PayloadModel, Seq<char>>;

    spec fn configured_body(
        &self,
        request: ImageGenerationRequest,
        config: Option<JsonModel>,
    ) -> Result<PayloadModel, Seq<char>>;

    spec fn images_in(&self, response: JsonModel) -> Result<Seq<ImageDataModel>, Seq<char>>;

    spec fn configured_images_in(
        &self,
        response: JsonModel,
        config: Option<JsonModel>,
    ) -> Result<Seq<ImageDataModel>, Seq<char>>;

    fn endpoint(&self, base_url: &str, request: &ImageGenerationRequest) -> (r: String)
        ensures
            r@ == self.endpoint_text(base_url@),
    ;

    fn endpoint_with_config(
        &self,
        base_url: &str,
        request: &ImageGenerationRequest,
        config: Option<&Json>,
    ) -> (r: String)
        ensures
            r@ == self.configured_endpoint(base_url@, opt_json(config)),
    ;

    fn headers(&self, api_key: &str, extra: Option<&TextMap>) -> (r: TextMap)
        ensures
            r@ == self.header_fields(api_key@, extra),
    ;

    /// `env_key` is the key that the environment holds for the provider, where there is one.
    fn headers_with_config(
        &self,
        api_key: &str,
        env_key: Option<&str>,
        extra: Option<&TextMap>,
        config: Option<&Json>,
    ) -> (r: TextMap)
        ensures
            r@ == self.configured_headers(
                api_key@,
                opt_str_view(env_key),
                extra,
                opt_json(config),
            ),
    ;

    fn payload(&self, request: &ImageGenerationRequest) -> (r: Result<ImageRequestPayload, String>)
        requires
            self.can_ask(*request),
        ensures
            payload_view(r) == self.body(*request),
    ;

    fn payload_with_config(
        &self,
        request: &ImageGenerationRequest,
        config: Option<&Json>,
    ) -> (r: Result<ImageRequestPayload, String>)
        requires
            self.can_ask(*request),
        ensures
            payload_view(r) == self.configured_body(*request, opt_json(config)),
    ;

    fn parse_response(&self, response: &Json) -> (r: Result<Vec<ImageResponseData>, String>)
        ensures
            images_view(r) == self.images_in(response@),
    ;

    fn parse_response_with_config(&self, response: &Json, config: Option<&Json>) -> (r: Result<
        Vec<ImageResponseData>,
        String,
    >)
        ensures
            images_view(r) == self.configured_images_in(response@, opt_json(config)),
    ;

    /// The header fields by which a provider knows who is asking.
    fn required_auth_headers(&self) -> (r: Vec<&'static str>);

    fn requires_api_key(&self) -> (r: bool)
        default_ensures
            exists|names: Vec<&'static str>|
                call_ensures(Self::required_auth_headers, (self,), names) && r == (names@.len()
                    > 0),
    {
        self.required_auth_headers().len() > 0
    }

    fn response_format(&self) -> (r: ImageResponseFormat)
        default_ensures
            r == ImageResponseFormat::Json,
    {
        ImageResponseFormat::Json
    }

    fn response_format_with_config(&self, config: Option<&Json>) -> (r: ImageResponseFormat)
        default_ensures
            call_ensures(Self::response_format, (self,), r),
    {
        self.response_format()
    }

    /// The time limit of a generation, in seconds.
    fn timeout(&self, config: Option<&Json>) -> (r: u64)
        default_ensures
            r == bounded_timeout(
                first_number(opt_json(config), seq!["timeoutSeconds"@, "timeout_seconds"@]),
            ),
    {
        let keys = vec!["timeoutSeconds", "timeout_seconds"];
        assert(strs(keys@) =~= seq!["timeoutSeconds"@, "timeout_seconds"@]);
        clamp_timeout(config_number(config, &keys))
    }

    fn supports_stream(&self) -> (r: bool)
        default_ensures
            !r,
    {
        false
    }

    fn supports_model_discovery(&self) -> (r: bool)
        default_ensures
            !r,
    {
        false
    }
}

// ---------------------------------------------------------------------------
// Sizes
// ---------------------------------------------------------------------------

/// A side of an image, when the text is a number of pixels and not 0.
pub open spec fn side(s: Seq<char>) -> Option<nat> {
    match bounded_value(trim(s), u32::MAX as int) {
        Some(n) => if n > 0 {
            Some(n)
        } else {
            None
        },
        None => None,
    }
}

/// The width and the height that a text such as `512x768` names.
pub open spec fn size_of_text(s: Seq<char>) -> Option<(nat, nat)> {
    match split_once(trim(s), 'x') {
        Some((w, h)) => match (side(w), side(h)) {
            (Some(w), Some(h)) => Some((w, h)),
            _ => None,
        },
        None => None,
    }
}

pub open spec fn size_or(size: Option<Seq<char>>, width: u32, height: u32) -> (nat, nat) {
    let read = match size {
        Some(s) => size_of_text(s),
        None => None,
    };
    match read {
        Some(v) => v,
        None => (width as nat, height as nat),
    }
}

fn parse_side(s: &str) -> (r: Option<u32>)
    ensures
        match r {
            Some(n) => side(s@) == Some(n as nat),
            None => side(s@) is None,
        },
{
    match parse_u32(trim_str(s)) {
        Some(n) => if n > 0 {
            Some(n)
        } else {
            None
        },
        None => None,
    }
}

/// Reads a size such as `512x768`; anything else gives the defaults.
pub fn parse_size_dimensions(size: Option<&str>, default_width: u32, default_height: u32) -> (r: (
    u32,
    u32,
))
    ensures
        (r.0 as nat, r.1 as nat) == size_or(opt_str_view(size), default_width, default_height),
{
    if let Some(s) = size {
        if let Some((w, h)) = split_once_str(trim_str(s), 'x') {
            if let (Some(width), Some(height)) = (parse_side(w), parse_side(h)) {
                return (width, height);
            }
        }
    }
    (default_width, default_height)
}

// ---------------------------------------------------------------------------
// Provider names
// ---------------------------------------------------------------------------

pub open spec fn is_generic_alias(s: Seq<char>) -> bool {
    ||| s == "generic"@
    ||| s == "generic-http"@
    ||| s == "generic_http"@
    ||| s == "http"@
    ||| s == "https"@
    ||| s == "custom-http"@
    ||| s == "custom_http"@
    ||| s == "docker"@
    ||| s == "docker-space"@
    ||| s == "hf-docker"@
}

pub open spec fn is_gradio_alias(s: Seq<char>) -> bool {
    ||| s == "gradio"@
    ||| s == "huggingface"@
    ||| s == "hugging_face"@
    ||| s == "hf"@
    ||| s == "hf-space"@
    ||| s == "huggingface-space"@
    ||| s == "hugging_face_space"@
    ||| s == "gradio-space"@
}

/// The name that a provider goes by, given one of its names in lower case.
pub open spec fn canonical(s: Seq<char>) -> Seq<char> {
    if s == "ai-horde"@ || s == "ai_horde"@ {
        "aihorde"@
    } else if s == "google-gemini"@ || s == "google_gemini"@ {
        "gemini"@
    } else if s == "gemini-agent-platform"@ {
        "gemini-agent-platform-express"@
    } else if s == "automatic-1111"@ || s == "automatic_1111"@ {
        "automatic1111"@
    } else if is_generic_alias(s) {
        "generic_http"@
    } else if is_gradio_alias(s) {
        "gradio"@
    } else {
        s
    }
}

/// The name that a provider goes by.
pub open spec fn provider_name(s: Seq<char>) -> Seq<char> {
    canonical(lower_ascii(trim(s)))
}

fn generic_alias(s: &str) -> (r: bool)
    ensures
        r == is_generic_alias(s@),
{
    same(s, "generic") || same(s, "generic-http") || same(s, "generic_http") || same(s, "http")
        || same(s, "https") || same(s, "custom-http") || same(s, "custom_http") || same(
        s,
        "docker",
    ) || same(s, "docker-space") || same(s, "hf-docker")
}

fn gradio_alias(s: &str) -> (r: bool)
    ensures
        r == is_gradio_alias(s@),
{
    same(s, "gradio") || same(s, "huggingface") || same(s, "hugging_face") || same(s, "hf") || same(
        s,
        "hf-space",
    ) || same(s, "huggingface-space") || same(s, "hugging_face_space") || same(s, "gradio-space")
}

/// Maps the names under which a provider has been known to the one that it goes by.
pub fn normalize_provider_id(provider_id: &str) -> (r: String)
    ensures
        r@ == provider_name(provider_id@),
{
    let id = lower_ascii_str(trim_str(provider_id));
    let s = id.as_str();
    if same(s, "ai-horde") || same(s, "ai_horde") {
        "aihorde".to_string()
    } else if same(s, "google-gemini") || same(s, "google_gemini") {
        "gemini".to_string()
    } else if same(s, "gemini-agent-platform") {
        "gemini-agent-platform-express".to_string()
    } else if same(s, "automatic-1111") || same(s, "automatic_1111") {
        "automatic1111".to_string()
    } else if generic_alias(s) {
        "generic_http".to_string()
    } else if gradio_alias(s) {
        "gradio".to_string()
    } else {
        id
    }
}

/// The adapters of the providers.
#[derive(Clone, Copy, PartialEq, Eq, Debug, Structural)]
pub enum AdapterKind {
    AIHorde,
    Automatic1111,
    Diffusers,
    OpenAI,
    OpenRouter,
    Pollinations,
    GoogleGemini,
    GeminiAgentPlatformExpress,
    Stability,
    XAI,
    NanoGPT,
    LiteRouter,
    GenericHttp,
    Gradio,
}

/// The adapter that is registered under a provider's name.
pub open spec fn registered(s: Seq<char>) -> Option<AdapterKind> {
    if s == "aihorde"@ {
        Some(AdapterKind::AIHorde)
    } else if s == "automatic1111"@ {
        Some(AdapterKind::Automatic1111)
    } else if s == "diffusers"@ {
        Some(AdapterKind::Diffusers)
    } else if s == "openai"@ || s == "custom"@ || s == "lettuce-host"@ {
        Some(AdapterKind::OpenAI)
    } else if s == "openrouter"@ {
        Some(AdapterKind::OpenRouter)
    } else if s == "pollinations"@ {
        Some(AdapterKind::Pollinations)
    } else if s == "gemini"@ {
        Some(AdapterKind::GoogleGemini)
    } else if s == "gemini-agent-platform-express"@ {
        Some(AdapterKind::GeminiAgentPlatformExpress)
    } else if s == "stability"@ {
        Some(AdapterKind::Stability)
    } else if s == "xai"@ {
        Some(AdapterKind::XAI)
    } else if s == "nanogpt"@ {
        Some(AdapterKind::NanoGPT)
    } else if s == "literouter"@ {
        Some(AdapterKind::LiteRouter)
    } else if s == "generic_http"@ {
        Some(AdapterKind::GenericHttp)
    } else if s == "gradio"@ {
        Some(AdapterKind::Gradio)
    } else {
        None
    }
}

/// The adapter for a provider, under any of its names.
pub fn get_adapter(provider_id: &str) -> (r: Result<AdapterKind, String>)
    ensures
        match r {
            Ok(kind) => registered(provider_name(provider_id@)) == Some(kind),
            Err(e) => registered(provider_name(provider_id@)) is None && e@
                == "Image provider '"@ + provider_name(provider_id@) + "' is not supported"@,
        },
{
    let id = normalize_provider_id(provider_id);
    let s = id.as_str();
    if same(s, "aihorde") {
        Ok(AdapterKind::AIHorde)
    } else if same(s, "automatic1111") {
        Ok(AdapterKind::Automatic1111)
    } else if same(s, "diffusers") {
        Ok(AdapterKind::Diffusers)
    } else if same(s, "openai") || same(s, "custom") || same(s, "lettuce-host") {
        Ok(AdapterKind::OpenAI)
    } else if same(s, "openrouter") {
        Ok(AdapterKind::OpenRouter)
    } else if same(s, "pollinations") {
        Ok(AdapterKind::Pollinations)
    } else if same(s, "gemini") {
        Ok(AdapterKind::GoogleGemini)
    } else if same(s, "gemini-agent-platform-express") {
        Ok(AdapterKind::GeminiAgentPlatformExpress)
    } else if same(s, "stability") {
        Ok(AdapterKind::Stability)
    } else if same(s, "xai") {
        Ok(AdapterKind::XAI)
    } else if same(s, "nanogpt") {
        Ok(AdapterKind::NanoGPT)
    } else if same(s, "literouter") {
        Ok(AdapterKind::LiteRouter)
    } else if same(s, "generic_http") {
        Ok(AdapterKind::GenericHttp)
    } else if same(s, "gradio") {
        Ok(AdapterKind::Gradio)
    } else {
        let mut message = "Image provider '".to_string();
        message.append(s);
        message.append("' is not supported");
        Err(message)
    }
}

// ---------------------------------------------------------------------------
// The list of providers
// ---------------------------------------------------------------------------

/// What the choice of a provider shows of it.
#[derive(Debug)]
pub struct ImageProviderInfo {
    pub id: &'static str,
    pub name: &'static str,
    pub supports_reference_images: bool,
    pub supports_async: bool,
}

pub struct ProviderModel {
    pub id: Seq<char>,
    pub name: Seq<char>,
    pub supports_reference_images: bool,
    pub supports_async: bool,
}

impl View for ImageProviderInfo {
    type V = ProviderModel;

    open spec fn view(&self) -> ProviderModel {
        ProviderModel {
            id: self.id@,
            name: self.name@,
            supports_reference_images: self.supports_reference_images,
            supports_async: self.supports_async,
        }
    }
}

pub open spec fn listed(id: Seq<char>, name: Seq<char>, images: bool, jobs: bool) -> ProviderModel {
    ProviderModel { id, name, supports_reference_images: images, supports_async: jobs }
}

/// The providers that can be chosen: which of them take reference images, and which run jobs that
/// have to be polled.
pub open spec fn provider_list() -> Seq<ProviderModel> {
    seq![
        listed("aihorde"@, "AI Horde"@, true, true),
        listed("automatic1111"@, "Automatic1111"@, true, false),
        listed("diffusers"@, "Diffusers"@, true, false),
        listed("openai"@, "OpenAI"@, true, false),
        listed("openrouter"@, "OpenRouter"@, false, false),
        listed("pollinations"@, "Pollinations"@, false, false),
        listed("gemini"@, "Google Gemini"@, true, false),
        listed("stability"@, "Stability AI"@, true, false),
        listed("xai"@, "xAI"@, false, false),
        listed("nanogpt"@, "NanoGPT"@, false, false),
        listed("literouter"@, "LiteRouter"@, false, false),
        listed("custom"@, "Custom / Lettuce Host"@, true, false),
        listed("generic_http"@, "Generic HTTP"@, true, false),
        listed("gradio"@, "Gradio / Hugging Face"@, true, true),
    ]
}

fn provider(id: &'static str, name: &'static str, images: bool, jobs: bool) -> (r:
    ImageProviderInfo)
    ensures
        r@ == listed(id@, name@, images, jobs),
{
    ImageProviderInfo { id, name, supports_reference_images: images, supports_async: jobs }
}

/// The providers that can be chosen.
pub fn available_providers() -> (r: Vec<ImageProviderInfo>)
    ensures
        r@.map_values(|p: ImageProviderInfo| p@) == provider_list(),
{
    let list = vec![
        provider("aihorde", "AI Horde", true, true),
        provider("automatic1111", "Automatic1111", true, false),
        provider("diffusers", "Diffusers", true, false),
        provider("openai", "OpenAI", true, false),
        provider("openrouter", "OpenRouter", false, false),
        provider("pollinations", "Pollinations", false, false),
        provider("gemini", "Google Gemini", true, false),
        provider("stability", "Stability AI", true, false),
        provider("xai", "xAI", false, false),
        provider("nanogpt", "NanoGPT", false, false),
        provider("literouter", "LiteRouter", false, false),
        provider("custom", "Custom / Lettuce Host", true, false),
        provider("generic_http", "Generic HTTP", true, false),
        provider("gradio", "Gradio / Hugging Face", true, true),
    ];
    assert(list@.map_values(|p: ImageProviderInfo| p@) =~= provider_list());
    list
}

// ---------------------------------------------------------------------------
// Laws
// ---------------------------------------------------------------------------

/// A name that a provider goes by stays the same when it is normalized again.
pub proof fn law_provider_name_is_stable(s: Seq<char>)
    ensures
        provider_name(provider_name(s)) == provider_name(s),
{
    let t = trim(s);
    let low = lower_ascii(t);
    let name = provider_name(s);
    lemma_trim_trimmed(s);
    assert(low.len() == t.len());
    assert(is_trimmed(low)) by {
        if t.len() > 0 {
            assert(low[0] == lower_char(t[0]));
            assert(low.last() == lower_char(t.last()));
        }
    }
    assert(lower_ascii(low) =~= low);
    lemma_trim_trimmed(low);
    reveal_strlit("aihorde");
    reveal_strlit("gemini");
    reveal_strlit("gemini-agent-platform-express");
    reveal_strlit("automatic1111");
    reveal_strlit("generic_http");
    reveal_strlit("gradio");
    if name != low {
        assert(is_trimmed(name));
        lemma_trim_trimmed(name);
        assert(lower_ascii(name) =~= name);
        lemma_canonical_names();
    }
}

/// The names that providers go by are not aliases of others.
pub proof fn lemma_canonical_names()
    ensures
        canonical("aihorde"@) == "aihorde"@,
        canonical("gemini"@) == "gemini"@,
        canonical("gemini-agent-platform-express"@) == "gemini-agent-platform-express"@,
        canonical("automatic1111"@) == "automatic1111"@,
        canonical("generic_http"@) == "generic_http"@,
        canonical("gradio"@) == "gradio"@,
{
    reveal_strlit("ai-horde");
    reveal_strlit("ai_horde");
    reveal_strlit("aihorde");
    reveal_strlit("google-gemini");
    reveal_strlit("google_gemini");
    reveal_strlit("gemini");
    reveal_strlit("gemini-agent-platform");
    reveal_strlit("gemini-agent-platform-express");
    reveal_strlit("automatic-1111");
    reveal_strlit("automatic_1111");
    reveal_strlit("automatic1111");
    reveal_strlit("generic");
    reveal_strlit("generic-http");
    reveal_strlit("generic_http");
    reveal_strlit("http");
    reveal_strlit("https");
    reveal_strlit("custom-http");
    reveal_strlit("custom_http");
    reveal_strlit("docker");
    reveal_strlit("docker-space");
    reveal_strlit("hf-docker");
    reveal_strlit("gradio");
    reveal_strlit("huggingface");
    reveal_strlit("hugging_face");
    reveal_strlit("hf");
    reveal_strlit("hf-space");
    reveal_strlit("huggingface-space");
    reveal_strlit("hugging_face_space");
    reveal_strlit("gradio-space");
    assert("aihorde"@[0] != "generic"@[0]);
    assert("gemini"@[0] != "docker"@[0]);
    assert("gemini"@[1] != "gradio"@[1]);
    assert("automatic1111"@[0] != "google-gemini"@[0]);
    assert("automatic1111"@[0] != "google_gemini"@[0]);
    assert("generic_http"@[7] != "generic-http"@[7]);
    assert("generic_http"@[0] != "docker-space"@[0]);
    assert("generic_http"@[0] != "hugging_face"@[0]);
    assert("generic_http"@[1] != "gradio-space"@[1]);
    assert("gradio"@[0] != "docker"@[0]);
}

/// A name in small letters without white space is only looked up.
pub proof fn lemma_plain_name(s: Seq<char>)
    requires
        s.len() > 0,
        forall|i: int| 0 <= i < s.len() ==> lower_char(#[trigger] s[i]) == s[i] && !is_white(s[i]),
    ensures
        provider_name(s) == canonical(s),
{
    lemma_trim_trimmed(s);
    assert(lower_ascii(s) =~= s);
}

/// Every provider that can be chosen has an adapter.
pub proof fn law_listed_providers_are_registered(i: int)
    requires
        0 <= i < provider_list().len(),
    ensures
        registered(provider_name(provider_list()[i].id)) is Some,
{
    reveal_strlit("aihorde");
    reveal_strlit("automatic1111");
    reveal_strlit("diffusers");
    reveal_strlit("openai");
    reveal_strlit("openrouter");
    reveal_strlit("pollinations");
    reveal_strlit("gemini");
    reveal_strlit("stability");
    reveal_strlit("xai");
    reveal_strlit("nanogpt");
    reveal_strlit("literouter");
    reveal_strlit("custom");
    reveal_strlit("generic_http");
    reveal_strlit("gradio");
    lemma_plain_name(provider_list()[i].id);
}

/// A size in print is read back: the width, an `x` and the height. Without a size, or with a text that
/// is none, the usual size is taken.
pub proof fn law_size_is_read_back(width: nat, height: nat, usual_width: u32, usual_height: u32)
    requires
        0 < width <= u32::MAX,
        0 < height <= u32::MAX,
    ensures
        size_or(Some(decimal(width) + seq!['x'] + decimal(height)), usual_width, usual_height) == (
            width,
            height,
        ),
        size_or(Some(decimal(width)), usual_width, usual_height) == (
            usual_width as nat,
            usual_height as nat,
        ),
        size_or(None, usual_width, usual_height) == (usual_width as nat, usual_height as nat),
{
    let w = decimal(width);
    let h = decimal(height);
    let s = w + seq!['x'] + h;
    law_decimal(width);
    law_decimal(height);
    assert(is_digit(w[0]));
    assert(is_digit(h[h.len() - 1]));
    assert(s[0] == w[0]);
    assert(s.last() == h.last());
    assert(trim(s) == s);
    lemma_place_from(s, 'x', 0);
    lemma_place_from(w, 'x', 0);
    assert(s[w.len() as int] == 'x');
    assert forall|i: int| 0 <= i < w.len() implies s[i] != 'x' by {
        assert(is_digit(w[i]));
        assert(s[i] == w[i]);
    }
    assert forall|i: int| 0 <= i < w.len() implies w[i] != 'x' by {
        assert(is_digit(w[i]));
    }
    assert(place_of(s, 'x') == Some(w.len() as int));
    assert(s.take(w.len() as int) =~= w);
    assert(s.skip(w.len() as int + 1) =~= h);
    if let Some(k) = place_of(w, 'x') {
        assert(w[k] == 'x');
    }
}

/// Whether a text is a name, but for the case of its letters and the white space about it.
pub open spec fn goes_by(s: Seq<char>, name: Seq<char>) -> bool {
    lower_ascii(trim(s)) == name
}

/// Each adapter answers to its own names and to no others, whatever the case of their letters and
/// the white space about them.
pub proof fn law_names_of_the_adapters(s: Seq<char>)
    ensures
        registered(provider_name(s)) == Some(AdapterKind::AIHorde) <==> {
            ||| goes_by(s, "aihorde"@)
            ||| goes_by(s, "ai-horde"@)
            ||| goes_by(s, "ai_horde"@)
        },
        registered(provider_name(s)) == Some(AdapterKind::Automatic1111) <==> {
            ||| goes_by(s, "automatic1111"@)
            ||| goes_by(s, "automatic-1111"@)
            ||| goes_by(s, "automatic_1111"@)
        },
        registered(provider_name(s)) == Some(AdapterKind::Diffusers) <==> goes_by(s, "diffusers"@),
        registered(provider_name(s)) == Some(AdapterKind::OpenAI) <==> {
            ||| goes_by(s, "openai"@)
            ||| goes_by(s, "custom"@)
            ||| goes_by(s, "lettuce-host"@)
        },
        registered(provider_name(s)) == Some(AdapterKind::OpenRouter) <==> goes_by(s, "openrouter"@),
        registered(provider_name(s)) == Some(AdapterKind::Pollinations) <==> goes_by(s, "pollinations"@),
        registered(provider_name(s)) == Some(AdapterKind::GoogleGemini) <==> {
            ||| goes_by(s, "gemini"@)
            ||| goes_by(s, "google-gemini"@)
            ||| goes_by(s, "google_gemini"@)
        },
        registered(provider_name(s)) == Some(AdapterKind::GeminiAgentPlatformExpress) <==> {
            ||| goes_by(s, "gemini-agent-platform"@)
            ||| goes_by(s, "gemini-agent-platform-express"@)
        },
        registered(provider_name(s)) == Some(AdapterKind::Stability) <==> goes_by(s, "stability"@),
        registered(provider_name(s)) == Some(AdapterKind::XAI) <==> goes_by(s, "xai"@),
        registered(provider_name(s)) == Some(AdapterKind::NanoGPT) <==> goes_by(s, "nanogpt"@),
        registered(provider_name(s)) == Some(AdapterKind::LiteRouter) <==> goes_by(s, "literouter"@),
        registered(provider_name(s)) == Some(AdapterKind::GenericHttp) <==> {
            ||| goes_by(s, "generic"@)
            ||| goes_by(s, "generic-http"@)
            ||| goes_by(s, "generic_http"@)
            ||| goes_by(s, "http"@)
            ||| goes_by(s, "https"@)
            ||| goes_by(s, "custom-http"@)
            ||| goes_by(s, "custom_http"@)
            ||| goes_by(s, "docker"@)
            ||| goes_by(s, "docker-space"@)
            ||| goes_by(s, "hf-docker"@)
        },
        registered(provider_name(s)) == Some(AdapterKind::Gradio) <==> {
            ||| goes_by(s, "gradio"@)
            ||| goes_by(s, "huggingface"@)
            ||| goes_by(s, "hugging_face"@)
            ||| goes_by(s, "hf"@)
            ||| goes_by(s, "hf-space"@)
            ||| goes_by(s, "huggingface-space"@)
            ||| goes_by(s, "hugging_face_space"@)
            ||| goes_by(s, "gradio-space"@)
        },
{
    reveal_strlit("aihorde");
    reveal_strlit("ai-horde");
    reveal_strlit("ai_horde");
    reveal_strlit("automatic1111");
    reveal_strlit("automatic-1111");
    reveal_strlit("automatic_1111");
    reveal_strlit("diffusers");
    reveal_strlit("openai");
    reveal_strlit("custom");
    reveal_strlit("lettuce-host");
    reveal_strlit("openrouter");
    reveal_strlit("pollinations");
    reveal_strlit("gemini");
    reveal_strlit("google-gemini");
    reveal_strlit("google_gemini");
    reveal_strlit("gemini-agent-platform");
    reveal_strlit("gemini-agent-platform-express");
    reveal_strlit("stability");
    reveal_strlit("xai");
    reveal_strlit("nanogpt");
    reveal_strlit("literouter");
    reveal_strlit("generic");
    reveal_strlit("generic-http");
    reveal_strlit("generic_http");
    reveal_strlit("http");
    reveal_strlit("https");
    reveal_strlit("custom-http");
    reveal_strlit("custom_http");
    reveal_strlit("docker");
    reveal_strlit("docker-space");
    reveal_strlit("hf-docker");
    reveal_strlit("gradio");
    reveal_strlit("huggingface");
    reveal_strlit("hugging_face");
    reveal_strlit("hf");
    reveal_strlit("hf-space");
    reveal_strlit("huggingface-space");
    reveal_strlit("hugging_face_space");
    reveal_strlit("gradio-space");
    assert("aihorde"@.len() == 7);
    assert("ai-horde"@.len() == 8);
    assert("ai_horde"@.len() == 8);
    assert("automatic1111"@.len() == 13);
    assert("automatic-1111"@.len() == 14);
    assert("automatic_1111"@.len() == 14);
    assert("diffusers"@.len() == 9);
    assert("openai"@.len() == 6);
    assert("custom"@.len() == 6);
    assert("lettuce-host"@.len() == 12);
    assert("openrouter"@.len() == 10);
    assert("pollinations"@.len() == 12);
    assert("gemini"@.len() == 6);
    assert("google-gemini"@.len() == 13);
    assert("google_gemini"@.len() == 13);
    assert("gemini-agent-platform"@.len() == 21);
    assert("gemini-agent-platform-express"@.len() == 29);
    assert("stability"@.len() == 9);
    assert("xai"@.len() == 3);
    assert("nanogpt"@.len() == 7);
    assert("literouter"@.len() == 10);
    assert("generic"@.len() == 7);
    assert("generic-http"@.len() == 12);
    assert("generic_http"@.len() == 12);
    assert("http"@.len() == 4);
    assert("https"@.len() == 5);
    assert("custom-http"@.len() == 11);
    assert("custom_http"@.len() == 11);
    assert("docker"@.len() == 6);
    assert("docker-space"@.len() == 12);
    assert("hf-docker"@.len() == 9);
    assert("gradio"@.len() == 6);
    assert("huggingface"@.len() == 11);
    assert("hugging_face"@.len() == 12);
    assert("hf"@.len() == 2);
    assert("hf-space"@.len() == 8);
    assert("huggingface-space"@.len() == 17);
    assert("hugging_face_space"@.len() == 18);
    assert("gradio-space"@.len() == 12);
    assert("aihorde"@[0] != "nanogpt"@[0]);
    assert("aihorde"@[0] != "generic"@[0]);
    assert("ai-horde"@[2] != "ai_horde"@[2]);
    assert("ai-horde"@[0] != "hf-space"@[0]);
    assert("ai_horde"@[0] != "hf-space"@[0]);
    assert("automatic1111"@[0] != "google-gemini"@[0]);
    assert("automatic1111"@[0] != "google_gemini"@[0]);
    assert("automatic-1111"@[9] != "automatic_1111"@[9]);
    assert("diffusers"@[0] != "stability"@[0]);
    assert("diffusers"@[0] != "hf-docker"@[0]);
    assert("openai"@[0] != "custom"@[0]);
    assert("openai"@[0] != "gemini"@[0]);
    assert("openai"@[0] != "docker"@[0]);
    assert("openai"@[0] != "gradio"@[0]);
    assert("custom"@[0] != "gemini"@[0]);
    assert("custom"@[0] != "docker"@[0]);
    assert("custom"@[0] != "gradio"@[0]);
    assert("lettuce-host"@[0] != "pollinations"@[0]);
    assert("lettuce-host"@[0] != "generic-http"@[0]);
    assert("lettuce-host"@[0] != "generic_http"@[0]);
    assert("lettuce-host"@[0] != "docker-space"@[0]);
    assert("lettuce-host"@[0] != "hugging_face"@[0]);
    assert("lettuce-host"@[0] != "gradio-space"@[0]);
    assert("openrouter"@[0] != "literouter"@[0]);
    assert("pollinations"@[0] != "generic-http"@[0]);
    assert("pollinations"@[0] != "generic_http"@[0]);
    assert("pollinations"@[0] != "docker-space"@[0]);
    assert("pollinations"@[0] != "hugging_face"@[0]);
    assert("pollinations"@[0] != "gradio-space"@[0]);
    assert("gemini"@[0] != "docker"@[0]);
    assert("gemini"@[1] != "gradio"@[1]);
    assert("google-gemini"@[6] != "google_gemini"@[6]);
    assert("stability"@[0] != "hf-docker"@[0]);
    assert("nanogpt"@[0] != "generic"@[0]);
    assert("generic-http"@[7] != "generic_http"@[7]);
    assert("generic-http"@[0] != "docker-space"@[0]);
    assert("generic-http"@[0] != "hugging_face"@[0]);
    assert("generic-http"@[1] != "gradio-space"@[1]);
    assert("generic_http"@[0] != "docker-space"@[0]);
    assert("generic_http"@[0] != "hugging_face"@[0]);
    assert("generic_http"@[1] != "gradio-space"@[1]);
    assert("custom-http"@[6] != "custom_http"@[6]);
    assert("custom-http"@[0] != "huggingface"@[0]);
    assert("custom_http"@[0] != "huggingface"@[0]);
    assert("docker"@[0] != "gradio"@[0]);
    assert("docker-space"@[0] != "hugging_face"@[0]);
    assert("docker-space"@[0] != "gradio-space"@[0]);
    assert("hugging_face"@[0] != "gradio-space"@[0]);
}

/// Of the providers that can be chosen just those run jobs whose replies are followed up. Each
/// takes reference images whose requests can hold them.
pub proof fn law_what_listed_providers_can_do(i: int)
    requires
        0 <= i < provider_list().len(),
    ensures
        ({
            let p = provider_list()[i];
            let kind = registered(provider_name(p.id));
            &&& p.supports_async <==> kind == Some(AdapterKind::AIHorde) || kind == Some(
                AdapterKind::Gradio,
            )
            &&& !p.supports_reference_images <==> kind == Some(AdapterKind::OpenRouter) || kind
                == Some(AdapterKind::Pollinations) || kind == Some(AdapterKind::XAI) || kind
                == Some(AdapterKind::NanoGPT) || kind == Some(AdapterKind::LiteRouter)
        }),
{
    let id = provider_list()[i].id;
    reveal_strlit("aihorde");
    reveal_strlit("automatic1111");
    reveal_strlit("diffusers");
    reveal_strlit("openai");
    reveal_strlit("openrouter");
    reveal_strlit("pollinations");
    reveal_strlit("gemini");
    reveal_strlit("stability");
    reveal_strlit("xai");
    reveal_strlit("nanogpt");
    reveal_strlit("literouter");
    reveal_strlit("custom");
    reveal_strlit("generic_http");
    reveal_strlit("gradio");
    law_names_of_the_adapters(id);
    assert(lower_ascii(trim(id)) == id) by {
        lemma_trim_trimmed(id);
        assert(lower_ascii(id) =~= id);
    }
    assert("aihorde"@[0] != "nanogpt"@[0]);
    assert("diffusers"@[0] != "stability"@[0]);
    assert("openai"@[0] != "custom"@[0]);
    assert("openai"@[0] != "gemini"@[0]);
    assert("openai"@[0] != "gradio"@[0]);
    assert("custom"@[0] != "gemini"@[0]);
    assert("custom"@[0] != "gradio"@[0]);
    assert("openrouter"@[0] != "literouter"@[0]);
    assert("pollinations"@[0] != "generic_http"@[0]);
    assert("gemini"@[1] != "gradio"@[1]);
}

} // verus!
