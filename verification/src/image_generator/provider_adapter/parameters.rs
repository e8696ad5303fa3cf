//! The parameters that an image request sets or leaves to the defaults.
use vstd::prelude::*;

use super::{parse_size_dimensions, size_or};
use crate::fraction::{copy_fraction, fraction, Fraction, FractionModel};
use crate::image_generator::types::{either, ImageGenerationRequest};
use crate::chat::AdvancedModelSettings;
use crate::text::{opt_present, opt_view, present_opt, trim};

verus! {

pub open spec fn request_size(request: ImageGenerationRequest) -> (nat, nat) {
    let of_model = match request.advanced_model_settings {
        Some(s) => opt_view(s.sd_size),
        None => None,
    };
    size_or(either(opt_view(request.size), of_model), 512, 512)
}

pub open spec fn request_steps(request: ImageGenerationRequest) -> u32 {
    match request.advanced_model_settings {
        Some(s) => match s.sd_steps {
            Some(n) => n,
            None => 25,
        },
        None => 25,
    }
}

/// The guidance scale 7.
pub open spec fn seven() -> FractionModel {
    FractionModel {
        order: 0x401c_0000_0000_0000,
        whole: 7,
        json: "7.0"@,
        display: "7"@,
    }
}

pub open spec fn request_cfg(request: ImageGenerationRequest) -> FractionModel {
    match request.advanced_model_settings {
        Some(s) => match s.sd_cfg_scale {
            Some(x) => x@,
            None => seven(),
        },
        None => seven(),
    }
}

pub open spec fn request_seed(request: ImageGenerationRequest) -> i64 {
    match request.advanced_model_settings {
        Some(s) => match s.sd_seed {
            Some(n) => n,
            None => -1i64,
        },
        None => -1i64,
    }
}

/// The negative prompt: that of the model's settings, else that of the scene, else nothing.
pub open spec fn request_negative(request: ImageGenerationRequest) -> Seq<char> {
    let of_model = match request.advanced_model_settings {
        Some(s) => opt_present(opt_view(s.sd_negative_prompt)),
        None => None,
    };
    match either(of_model, request.scene_negative_prompt()) {
        Some(s) => s,
        None => Seq::empty(),
    }
}

pub open spec fn request_count(request: ImageGenerationRequest) -> u32 {
    match request.n {
        Some(n) => n,
        None => 1,
    }
}

pub fn get_size(request: &ImageGenerationRequest) -> (r: (u32, u32))
    ensures
        (r.0 as nat, r.1 as nat) == request_size(*request),
{
    let size: Option<&str> = match &request.size {
        Some(s) => Some(s.as_str()),
        None => match &request.advanced_model_settings {
            Some(settings) => match &settings.sd_size {
                Some(s) => Some(s.as_str()),
                None => None,
            },
            None => None,
        },
    };
    parse_size_dimensions(size, 512, 512)
}

pub fn get_steps(request: &ImageGenerationRequest) -> (r: u32)
    ensures
        r == request_steps(*request),
{
    match &request.advanced_model_settings {
        Some(s) => match s.sd_steps {
            Some(n) => n,
            None => 25,
        },
        None => 25,
    }
}

pub fn default_cfg() -> (r: Fraction)
    ensures
        r@ == seven(),
{
    fraction(0x401c_0000_0000_0000, 7, "7.0", "7")
}

pub fn get_cfg(request: &ImageGenerationRequest) -> (r: Fraction)
    ensures
        r@ == request_cfg(*request),
{
    match &request.advanced_model_settings {
        Some(s) => match &s.sd_cfg_scale {
            Some(x) => copy_fraction(x),
            None => default_cfg(),
        },
        None => default_cfg(),
    }
}

pub fn get_seed(request: &ImageGenerationRequest) -> (r: i64)
    ensures
        r == request_seed(*request),
{
    match &request.advanced_model_settings {
        Some(s) => match s.sd_seed {
            Some(n) => n,
            None => -1,
        },
        None => -1,
    }
}

pub fn get_negative_prompt(request: &ImageGenerationRequest) -> (r: String)
    ensures
        r@ == request_negative(*request),
{
    if let Some(s) = &request.advanced_model_settings {
        if let Some(t) = present_opt(&s.sd_negative_prompt) {
            return t.to_string();
        }
    }
    match request.negative_prompt() {
        Some(t) => t.to_string(),
        None => String::new(),
    }
}

pub fn get_count(request: &ImageGenerationRequest) -> (r: u32)
    ensures
        r == request_count(*request),
{
    match request.n {
        Some(n) => n,
        None => 1,
    }
}

/// What a request sets counts; else what the settings of its model set; else the usual value. What is
/// to be avoided is taken from the settings of the model, or else from the scene.
pub proof fn law_parameters(request: ImageGenerationRequest, s: AdvancedModelSettings)
    ensures
        request.size matches Some(t) ==> request_size(request) == size_or(Some(t@), 512, 512),
        request.size is None && request.advanced_model_settings == Some(s) ==> (s.sd_size matches Some(
            t,
        ) ==> request_size(request) == size_or(Some(t@), 512, 512)),
        request.size is None && request.advanced_model_settings is None ==> request_size(request) == (
            512nat,
            512nat,
        ),
        request.advanced_model_settings is None ==> {
            &&& request_steps(request) == 25
            &&& request_seed(request) == -1
            &&& request_cfg(request).json == "7.0"@
        },
        request.advanced_model_settings == Some(s) ==> {
            &&& s.sd_steps matches Some(n) ==> request_steps(request) == n
            &&& s.sd_steps is None ==> request_steps(request) == 25
            &&& s.sd_seed matches Some(n) ==> request_seed(request) == n
            &&& s.sd_seed is None ==> request_seed(request) == -1
            &&& s.sd_cfg_scale matches Some(x) ==> request_cfg(request) == x@
            &&& s.sd_cfg_scale is None ==> request_cfg(request).json == "7.0"@
            &&& s.sd_negative_prompt matches Some(t) ==> trim(t@).len() > 0 ==> request_negative(
                request,
            ) == trim(t@)
        },
        request.advanced_model_settings is None ==> (request.scene_context matches Some(scene) ==> (
        scene.negative_prompt matches Some(t) ==> trim(t@).len() > 0 ==> request_negative(request)
            == trim(t@))),
        request.advanced_model_settings is None && request.scene_context is None ==> request_negative(
            request,
        ).len() == 0,
        request.n matches Some(n) ==> request_count(request) == n,
        request.n is None ==> request_count(request) == 1,
{
}

} // verus!
