//! Gradio interfaces, among them the Spaces of Hugging Face.
use vstd::prelude::*;

use super::config::{
    bounded_timeout, clamp_timeout, config_number, config_str, config_string, first_number,
    first_setting, insert_bearer, insert_extra, insert_texts, setting, setting_members, with_texts,
};
use super::parameters::{
    get_cfg, get_count, get_seed, get_size, get_steps, request_cfg, request_count, request_seed,
    request_size, request_steps,
};
use super::{
    b64_data, image_at, image_of_data, image_views, image_views_push, images_view, url_data,
    ImageDataModel, ImageProviderAdapter, ImageRequestPayload, ImageResponseData,
    ImageResponseFormat, PayloadModel,
};
use crate::fraction::{fraction_json, fraction_value};
use crate::text_map::{overridden, TextMap};
use crate::image_generator::types::{either, ImageGenerationRequest};
use crate::json::{
    get_member, group_json_views, int_model, json_parse, json_text, json_views, lemma_first_member,
    lemma_member_at, member, member_views, number, opt_json, parse, parsed_view, place_of_member,
    print, push_member, signed, text, unsigned, Json, JsonModel,
};
use crate::text::{
    beginning, byte_len, byte_len_str, contains, contains_str, cut_off, decimal, decimal_i64,
    decimal_int, decimal_u64, each_char, is_link, is_link_text, law_replace, lemma_replace_char,
    lemma_replace_nothing, lemma_replace_other, lower_ascii, lower_ascii_str, opt_present,
    opt_str_view, opt_view, present, present_str, replace, replace_str, same, spelling, starts_with,
    starts_with_str, strs, trim, trim_end_of, trim_end_of_str, trim_of, trim_of_str, trim_str,
};

verus! {

/// An adapter for Gradio interfaces, wherever they are hosted. The settings of the provider name
/// the function to call (`gradioEndpoint`, `gradioFnIndex`), whether it is called through the
/// queue (`gradioUseQueue`), and what it is called with (`gradioDataTemplate`,
/// `gradioInputsMapping`).
#[derive(Debug)]
pub struct GradioAdapter;

// ---------------------------------------------------------------------------
// Settings
// ---------------------------------------------------------------------------

pub open spec fn endpoint_keys() -> Seq<Seq<char>> {
    seq!["gradioEndpoint"@, "endpoint"@, "apiEndpoint"@]
}

pub open spec fn function_name(config: Option<JsonModel>) -> Seq<char> {
    trim_of(
        match first_setting(config, endpoint_keys()) {
            Some(s) => s,
            None => "predict"@,
        },
        '/',
    )
}

pub open spec fn function_index(config: Option<JsonModel>) -> u32 {
    match first_number(config, seq!["gradioFnIndex"@, "fnIndex"@]) {
        Some(n) => n as u32,
        None => 0,
    }
}

pub open spec fn flag(config: Option<JsonModel>, key: Seq<char>) -> Option<bool> {
    match config {
        Some(c) => c.get_bool(key),
        None => None,
    }
}

pub open spec fn is_queued(config: Option<JsonModel>) -> bool {
    match either(flag(config, "gradioUseQueue"@), flag(config, "useQueue"@)) {
        Some(b) => b,
        None => true,
    }
}

impl GradioAdapter {
    fn gradio_endpoint_name(config: Option<&Json>) -> (r: String)
        ensures
            r@ == function_name(opt_json(config)),
    {
        let keys = vec!["gradioEndpoint", "endpoint", "apiEndpoint"];
        assert(strs(keys@) =~= endpoint_keys());
        let name = match config_string(config, &keys) {
            Some(s) => s,
            None => "predict",
        };
        trim_of_str(name, '/').to_string()
    }

    fn gradio_fn_index(config: Option<&Json>) -> (r: u32)
        ensures
            r == function_index(opt_json(config)),
    {
        let keys = vec!["gradioFnIndex", "fnIndex"];
        assert(strs(keys@) =~= seq!["gradioFnIndex"@, "fnIndex"@]);
        match config_number(config, &keys) {
            Some(n) => n as u32,
            None => 0,
        }
    }

    fn use_queue(config: Option<&Json>) -> (r: bool)
        ensures
            r == is_queued(opt_json(config)),
    {
        match config {
            Some(c) => match c.get_bool("gradioUseQueue") {
                Some(b) => b,
                None => match c.get_bool("useQueue") {
                    Some(b) => b,
                    None => true,
                },
            },
            None => true,
        }
    }
}

// ---------------------------------------------------------------------------
// Inputs
// ---------------------------------------------------------------------------

pub open spec fn quotes_escaped(s: Seq<char>) -> Seq<char> {
    replace(s, "\""@, "\\\""@)
}

/// A template of the inputs with its placeholders filled in, one after the other.
pub open spec fn rendered_inputs(template: Seq<char>, request: ImageGenerationRequest) -> Seq<
    char,
> {
    let size = request_size(request);
    let a = replace(template, "{{prompt}}"@, quotes_escaped(request.prompt@));
    let b = replace(a, "{{model}}"@, quotes_escaped(request.model@));
    let c = replace(b, "{{width}}"@, decimal(size.0));
    let d = replace(c, "{{height}}"@, decimal(size.1));
    let e = replace(d, "{{steps}}"@, decimal(request_steps(request) as nat));
    let f = replace(e, "{{cfg_scale}}"@, request_cfg(request).display);
    replace(f, "{{seed}}"@, decimal_int(request_seed(request) as int))
}

/// The inputs that a rendered template reads as: the items of an array, or any other value alone.
pub open spec fn inputs_of_template(read: Result<JsonModel, Seq<char>>) -> Option<Seq<JsonModel>> {
    match read {
        Ok(JsonModel::Array(items)) => Some(items),
        Ok(v) => Some(seq![v]),
        Err(_) => None,
    }
}

/// The input for one field of the mapping.
pub open spec fn input_value(field: Seq<char>, request: ImageGenerationRequest) -> JsonModel {
    let negative = match request.advanced_model_settings {
        Some(s) => match s.sd_negative_prompt {
            Some(t) => t@,
            None => Seq::empty(),
        },
        None => Seq::empty(),
    };
    if field == "prompt"@ {
        JsonModel::Text(request.prompt@)
    } else if field == "negative_prompt"@ {
        JsonModel::Text(negative)
    } else if field == "model"@ {
        JsonModel::Text(request.model@)
    } else if field == "width"@ {
        number(request_size(request).0)
    } else if field == "height"@ {
        number(request_size(request).1)
    } else if field == "steps"@ {
        number(request_steps(request) as nat)
    } else if field == "cfg_scale"@ {
        fraction_value(request_cfg(request))
    } else if field == "seed"@ {
        int_model(request_seed(request) as int)
    } else if field == "n"@ {
        number(request_count(request) as nat)
    } else {
        JsonModel::Null
    }
}

/// The inputs that a mapping asks for, one for each of its texts.
pub open spec fn mapped_inputs(mapping: Seq<JsonModel>, request: ImageGenerationRequest) -> Seq<
    JsonModel,
>
    decreases mapping.len(),
{
    if mapping.len() == 0 {
        Seq::empty()
    } else {
        let before = mapped_inputs(mapping.drop_last(), request);
        match mapping.last() {
            JsonModel::Text(field) => before.push(input_value(field, request)),
            _ => before,
        }
    }
}

/// The inputs of a call: those of the template where one is set and reads as JSON, else those of
/// the mapping, else the prompt alone.
pub open spec fn inputs(request: ImageGenerationRequest, config: Option<JsonModel>) -> Seq<
    JsonModel,
> {
    let of_template = match setting(config, "gradioDataTemplate"@) {
        Some(template) => inputs_of_template(json_parse(rendered_inputs(template, request))),
        None => None,
    };
    match of_template {
        Some(items) => items,
        None => {
            let mapping = match config {
                Some(c) => c.get_array("gradioInputsMapping"@),
                None => None,
            };
            match mapping {
                Some(fields) => mapped_inputs(fields, request),
                None => seq![JsonModel::Text(request.prompt@)],
            }
        },
    }
}

fn render_inputs(template: &str, request: &ImageGenerationRequest) -> (r: String)
    ensures
        r@ == rendered_inputs(template@, *request),
{
    proof {
        reveal_strlit("\"");
        reveal_strlit("{{prompt}}");
        reveal_strlit("{{model}}");
        reveal_strlit("{{width}}");
        reveal_strlit("{{height}}");
        reveal_strlit("{{steps}}");
        reveal_strlit("{{cfg_scale}}");
        reveal_strlit("{{seed}}");
    }
    let (width, height) = get_size(request);
    let cfg = get_cfg(request);
    let prompt = replace_str(request.prompt.as_str(), "\"", "\\\"");
    let model = replace_str(request.model.as_str(), "\"", "\\\"");
    let a = replace_str(template, "{{prompt}}", prompt.as_str());
    let b = replace_str(a.as_str(), "{{model}}", model.as_str());
    let c = replace_str(b.as_str(), "{{width}}", decimal_u64(width as u64).as_str());
    let d = replace_str(c.as_str(), "{{height}}", decimal_u64(height as u64).as_str());
    let e = replace_str(d.as_str(), "{{steps}}", decimal_u64(get_steps(request) as u64).as_str());
    let f = replace_str(e.as_str(), "{{cfg_scale}}", cfg.display.as_str());
    replace_str(f.as_str(), "{{seed}}", decimal_i64(get_seed(request)).as_str())
}

/// Takes the JSON of a rendered template for the inputs of a call.
pub fn data_of_template(read: Result<Json, String>) -> (r: Option<Vec<Json>>)
    ensures
        match r {
            Some(items) => inputs_of_template(parsed_view(read)) == Some(json_views(items@)),
            None => inputs_of_template(parsed_view(read)) is None,
        },
{
    broadcast use group_json_views;

    match read {
        Ok(Json::Array(items)) => Some(items),
        Ok(v) => {
            let mut items: Vec<Json> = Vec::new();
            items.push(v);
            assert(json_views(items@) =~= seq![v@]);
            Some(items)
        },
        Err(_) => None,
    }
}

fn mapped_value(field: &str, request: &ImageGenerationRequest) -> (r: Json)
    ensures
        r@ == input_value(field@, *request),
{
    if same(field, "prompt") {
        text(request.prompt.as_str())
    } else if same(field, "negative_prompt") {
        let mut negative = String::new();
        if let Some(s) = &request.advanced_model_settings {
            if let Some(t) = &s.sd_negative_prompt {
                negative = t.clone();
            }
        }
        Json::Text(negative)
    } else if same(field, "model") {
        text(request.model.as_str())
    } else if same(field, "width") {
        unsigned(get_size(request).0 as u64)
    } else if same(field, "height") {
        unsigned(get_size(request).1 as u64)
    } else if same(field, "steps") {
        unsigned(get_steps(request) as u64)
    } else if same(field, "cfg_scale") {
        fraction_json(&get_cfg(request))
    } else if same(field, "seed") {
        signed(get_seed(request))
    } else if same(field, "n") {
        unsigned(get_count(request) as u64)
    } else {
        Json::Null
    }
}

fn mapped_data(mapping: &Vec<Json>, request: &ImageGenerationRequest) -> (r: Vec<Json>)
    ensures
        json_views(r@) == mapped_inputs(json_views(mapping@), *request),
{
    let ghost all = json_views(mapping@);
    let mut out: Vec<Json> = Vec::new();
    assert(json_views(out@) =~= Seq::empty());
    for i in 0..mapping.len()
        invariant
            all == json_views(mapping@),
            json_views(out@) == mapped_inputs(all.take(i as int), *request),
    {
        broadcast use group_json_views;

        assert(all.take(i + 1).drop_last() =~= all.take(i as int));
        assert(all.take(i + 1).last() == mapping@[i as int]@);
        if let Some(field) = mapping[i].as_str() {
            out.push(mapped_value(field, request));
        }
    }
    assert(all.take(all.len() as int) =~= all);
    out
}

impl GradioAdapter {
    fn build_gradio_data(request: &ImageGenerationRequest, config: Option<&Json>) -> (r: Vec<Json>)
        ensures
            json_views(r@) == inputs(*request, opt_json(config)),
    {
        if let Some(template) = config_str(config, "gradioDataTemplate") {
            let filled = render_inputs(template, request);
            if let Some(items) = data_of_template(parse(filled.as_str())) {
                return items;
            }
        }
        let mapping = match config {
            Some(c) => c.get_array("gradioInputsMapping"),
            None => None,
        };
        match mapping {
            Some(fields) => mapped_data(fields, request),
            None => {
                let mut items: Vec<Json> = Vec::new();
                items.push(text(request.prompt.as_str()));
                assert(json_views(items@) =~= seq![JsonModel::Text(request.prompt@)]);
                items
            },
        }
    }
}

/// The body of a call.
pub open spec fn call_body(request: ImageGenerationRequest, config: Option<JsonModel>) -> JsonModel {
    let call = seq![
        ("data"@, JsonModel::Array(inputs(request, config))),
        ("fn_index"@, number(function_index(config) as nat)),
    ];
    JsonModel::Object(
        if is_queued(config) {
            call.push(("session_hash"@, JsonModel::Text("haven_session"@)))
        } else {
            call
        },
    )
}

// ---------------------------------------------------------------------------
// Replies
// ---------------------------------------------------------------------------

/// The number of the event under which a queued call goes on.
pub open spec fn event_id(response: JsonModel) -> Option<Seq<char>> {
    opt_present(response.get_str("event_id"@))
}

/// Whether a text looks like an image by itself: a link, a data address, or a long word.
pub open spec fn looks_like_image(t: Seq<char>) -> bool {
    is_link(t) || starts_with(t, "data:"@) || (byte_len(t) > 20 && !contains(t, " "@))
}

/// The images found so far and that of a text; `any` tells whether every text is taken for one.
pub open spec fn with_text(out: Seq<ImageDataModel>, s: Seq<char>, any: bool) -> Seq<ImageDataModel> {
    let t = trim(s);
    if t.len() == 0 || !(any || looks_like_image(t)) {
        out
    } else if is_link(t) {
        out.push(url_data(t))
    } else {
        out.push(b64_data(t))
    }
}

/// The images found so far and those of a value. An object with a `url` is that image; one with a
/// `path` is the image there, where the path is a link; of others the `data` is searched, and
/// their other members too while nothing has been found.
pub open spec fn with_images(out: Seq<ImageDataModel>, v: JsonModel, any: bool) -> Seq<
    ImageDataModel,
>
    decreases v, 0nat,
{
    match v {
        JsonModel::Text(s) => with_text(out, s, any),
        JsonModel::Array(items) => with_items(out, items, any),
        JsonModel::Object(members) => match v.get_str("url"@) {
            Some(url) => out.push(url_data(url)),
            None => match v.get_str("path"@) {
                Some(path) => if starts_with(path, "http"@) {
                    out.push(url_data(path))
                } else {
                    out
                },
                None => with_object(out, members, any),
            },
        },
        _ => out,
    }
}

pub open spec fn with_object(
    out: Seq<ImageDataModel>,
    members: Seq<(Seq<char>, JsonModel)>,
    any: bool,
) -> Seq<ImageDataModel>
    decreases members, 1nat,
{
    match member(members, "data"@) {
        Some(data) => {
            proof {
                lemma_member_at(members, "data"@);
            }
            let found = with_images(out, data, any);
            if found.len() > 0 {
                found
            } else {
                with_members(found, members, any)
            }
        },
        None => with_members(out, members, any),
    }
}

pub open spec fn with_items(out: Seq<ImageDataModel>, items: Seq<JsonModel>, any: bool) -> Seq<
    ImageDataModel,
>
    decreases items, 0nat,
{
    if items.len() == 0 {
        out
    } else {
        with_images(with_items(out, items.drop_last(), any), items.last(), any)
    }
}

pub open spec fn with_members(
    out: Seq<ImageDataModel>,
    members: Seq<(Seq<char>, JsonModel)>,
    any: bool,
) -> Seq<ImageDataModel>
    decreases members, 0nat,
{
    if members.len() == 0 {
        out
    } else {
        with_images(with_members(out, members.drop_last(), any), members.last().1, any)
    }
}

/// The members of a reply that are looked into first, in this order.
pub open spec fn direct_keys() -> Seq<Seq<char>> {
    seq![
        "image"@,
        "images"@,
        "b64_json"@,
        "base64"@,
        "url"@,
        "urls"@,
        "output"@,
        "result"@,
        "data"@,
        "generated_image"@,
    ]
}

pub open spec fn first_direct(
    members: Seq<(Seq<char>, JsonModel)>,
    keys: Seq<Seq<char>>,
) -> Seq<ImageDataModel>
    decreases keys.len(),
{
    if keys.len() == 0 {
        Seq::empty()
    } else {
        let here = match member(members, keys[0]) {
            Some(v) => with_images(Seq::empty(), v, true),
            None => Seq::empty(),
        };
        if here.len() > 0 {
            here
        } else {
            first_direct(members, keys.drop_first())
        }
    }
}

/// The images of a reply that is not in the usual form: those of the first of the usual members
/// that has any, else whatever looks like an image in any member.
pub open spec fn direct_images(response: JsonModel) -> Seq<ImageDataModel> {
    match response {
        JsonModel::Object(members) => {
            let first = first_direct(members, direct_keys());
            if first.len() > 0 {
                first
            } else {
                with_members(Seq::empty(), members, false)
            }
        },
        _ => with_images(Seq::empty(), response, true),
    }
}

/// A reply in print, cut off after 800 bytes.
pub open spec fn shown(response: JsonModel) -> Seq<char> {
    let s = json_text(response);
    if byte_len(s) > 800 {
        beginning(s, 800, 0) + "... (truncated)"@
    } else {
        s
    }
}

/// The images of a reply: for a queued call a link to its event; else, unless the reply names an
/// error, the images of its `data`, or those found elsewhere in it.
pub open spec fn reply_images(response: JsonModel) -> Result<Seq<ImageDataModel>, Seq<char>> {
    match event_id(response) {
        Some(id) => Ok(seq![url_data("gradio://"@ + id)]),
        None => match opt_present(response.get_str("error"@)) {
            Some(e) => Err("Gradio error: "@ + e),
            None => {
                let data = match response.get("data"@) {
                    Some(v) => with_images(Seq::empty(), v, true),
                    None => Seq::empty(),
                };
                if data.len() > 0 {
                    Ok(data)
                } else if direct_images(response).len() > 0 {
                    Ok(direct_images(response))
                } else {
                    Err(
                        "Gradio response did not contain image data. Response: "@ + shown(
                            response,
                        ),
                    )
                }
            },
        },
    }
}

impl GradioAdapter {
    /// Whether a reply says that the call has been queued.
    pub fn is_gradio_response_queued(response: &Json) -> (r: bool)
        ensures
            r == (event_id(response@) is Some),
    {
        match response.get_str("event_id") {
            Some(s) => present_str(s).is_some(),
            None => false,
        }
    }

    /// The number of the event under which a queued call goes on.
    pub fn extract_event_id(response: &Json) -> (r: Option<String>)
        ensures
            opt_view(r) == event_id(response@),
    {
        match response.get_str("event_id") {
            Some(s) => match present_str(s) {
                Some(id) => Some(id.to_string()),
                None => None,
            },
            None => None,
        }
    }

    fn push_text(s: &str, any: bool, out: &mut Vec<ImageResponseData>)
        ensures
            image_views(final(out)@) == with_text(image_views(old(out)@), s@, any),
    {
        broadcast use image_views_push;

        let t = trim_str(s);
        if t.is_empty() {
            return;
        }
        if is_link_text(t) {
            out.push(image_at(t));
        } else if any || starts_with_str(t, "data:") || (byte_len_str(t) > 20 && !contains_str(
            t,
            " ",
        )) {
            out.push(image_of_data(t));
        }
    }

    fn collect_object(members: &Vec<(String, Json)>, any: bool, out: &mut Vec<ImageResponseData>)
        ensures
            image_views(final(out)@) == with_object(
                image_views(old(out)@),
                member_views(members@),
                any,
            ),
        decreases members, 1nat,
    {
        if let Some(i) = place_of_member(members, "data") {
            assert(decreases_to!(members => members@));
            assert(decreases_to!(members@ => members@[i as int]));
            assert(decreases_to!(members@[i as int] => members@[i as int].1));
            Self::collect_gradio_data(&members[i].1, any, out);
            if out.len() > 0 {
                return;
            }
        }
        Self::collect_members(members, any, out);
    }

    fn collect_members(members: &Vec<(String, Json)>, any: bool, out: &mut Vec<ImageResponseData>)
        ensures
            image_views(final(out)@) == with_members(
                image_views(old(out)@),
                member_views(members@),
                any,
            ),
        decreases members, 0nat,
    {
        let ghost before = image_views(out@);
        let ghost all = member_views(members@);
        for i in 0..members.len()
            invariant
                all == member_views(members@),
                image_views(out@) == with_members(before, all.take(i as int), any),
        {
            assert(decreases_to!(members => members@));
            assert(decreases_to!(members@ => members@[i as int]));
            assert(decreases_to!(members@[i as int] => members@[i as int].1));
            assert(all.take(i + 1).drop_last() =~= all.take(i as int));
            Self::collect_gradio_data(&members[i].1, any, out);
        }
        assert(all.take(all.len() as int) =~= all);
    }

    fn collect_gradio_data(value: &Json, any: bool, out: &mut Vec<ImageResponseData>)
        ensures
            image_views(final(out)@) == with_images(image_views(old(out)@), value@, any),
        decreases value, 0nat,
    {
        broadcast use {group_json_views, image_views_push};

        match value {
            Json::Text(s) => Self::push_text(s.as_str(), any, out),
            Json::Array(items) => {
                let ghost before = image_views(out@);
                let ghost all = json_views(items@);
                for i in 0..items.len()
                    invariant
                        *value == Json::Array(*items),
                        all == json_views(items@),
                        image_views(out@) == with_items(before, all.take(i as int), any),
                {
                    assert(decreases_to!(value => value->Array_0));
                    assert(decreases_to!(items => items@));
                    assert(decreases_to!(items@ => items@[i as int]));
                    assert(all.take(i + 1).drop_last() =~= all.take(i as int));
                    Self::collect_gradio_data(&items[i], any, out);
                }
                assert(all.take(all.len() as int) =~= all);
            },
            Json::Object(members) => {
                if let Some(url) = value.get_str("url") {
                    out.push(image_at(url));
                    return;
                }
                if let Some(path) = value.get_str("path") {
                    if starts_with_str(path, "http") {
                        out.push(image_at(path));
                    }
                    return;
                }
                assert(decreases_to!(value => value->Object_0));
                Self::collect_object(members, any, out);
            },
            _ => {},
        }
    }

    fn collect_generic(value: &Json) -> (r: Vec<ImageResponseData>)
        ensures
            image_views(r@) == direct_images(value@),
    {
        broadcast use group_json_views;

        let mut out: Vec<ImageResponseData> = Vec::new();
        assert(image_views(out@) =~= Seq::empty());
        match value {
            Json::Object(members) => {
                let keys = vec![
                    "image",
                    "images",
                    "b64_json",
                    "base64",
                    "url",
                    "urls",
                    "output",
                    "result",
                    "data",
                    "generated_image",
                ];
                let ghost all = direct_keys();
                let ghost pairs = member_views(members@);
                assert(strs(keys@) =~= all);
                assert(all.skip(0) =~= all);
                for i in 0..keys.len()
                    invariant
                        value@ == JsonModel::Object(pairs),
                        pairs == member_views(members@),
                        strs(keys@) == all,
                        all == direct_keys(),
                        out@.len() == 0,
                        first_direct(pairs, all) == first_direct(pairs, all.skip(i as int)),
                {
                    assert(strs(keys@)[i as int] == keys@[i as int]@);
                    assert(all.skip(i as int)[0] == keys@[i as int]@);
                    assert(all.skip(i as int).drop_first() =~= all.skip(i + 1));
                    assert(image_views(out@) =~= Seq::empty());
                    if let Some(v) = get_member(members, keys[i]) {
                        Self::collect_gradio_data(v, true, &mut out);
                        if out.len() > 0 {
                            return out;
                        }
                    }
                }
                assert(image_views(out@) =~= Seq::empty());
                Self::collect_members(members, false, &mut out);
            },
            _ => Self::collect_gradio_data(value, true, &mut out),
        }
        out
    }
}

fn truncate(response: &Json) -> (r: String)
    ensures
        r@ == shown(response@),
{
    let s = print(response);
    if byte_len_str(s.as_str()) > 800 {
        let mut out = cut_off(s.as_str(), 800);
        out.append("... (truncated)");
        out
    } else {
        s
    }
}

fn parse_images(response: &Json) -> (r: Result<Vec<ImageResponseData>, String>)
    ensures
        images_view(r) == reply_images(response@),
{
    broadcast use image_views_push;

    let mut out: Vec<ImageResponseData> = Vec::new();
    assert(image_views(out@) =~= Seq::empty());
    if let Some(id) = GradioAdapter::extract_event_id(response) {
        let mut link = "gradio://".to_string();
        link.append(id.as_str());
        out.push(image_at(link.as_str()));
        assert(image_views(out@) =~= seq![url_data("gradio://"@ + id@)]);
        return Ok(out);
    }
    if let Some(s) = response.get_str("error") {
        if let Some(e) = present_str(s) {
            let mut message = "Gradio error: ".to_string();
            message.append(e);
            return Err(message);
        }
    }
    if let Some(data) = response.get("data") {
        GradioAdapter::collect_gradio_data(data, true, &mut out);
        if out.len() > 0 {
            return Ok(out);
        }
    }
    let found = GradioAdapter::collect_generic(response);
    if found.len() > 0 {
        return Ok(found);
    }
    let mut message = "Gradio response did not contain image data. Response: ".to_string();
    message.append(truncate(response).as_str());
    Err(message)
}

// ---------------------------------------------------------------------------
// Header fields
// ---------------------------------------------------------------------------

/// The environment variables that may hold a key, in the order in which they are asked.
pub open spec fn key_variables() -> Seq<Seq<char>> {
    seq!["IMAGE_API_KEY"@, "HF_API_KEY"@, "HF_TOKEN"@, "HUGGINGFACE_API_KEY"@]
}

pub fn env_api_key_names() -> (r: Vec<&'static str>)
    ensures
        strs(r@) == key_variables(),
{
    let names = vec!["IMAGE_API_KEY", "HF_API_KEY", "HF_TOKEN", "HUGGINGFACE_API_KEY"];
    assert(strs(names@) =~= key_variables());
    names
}

/// The key that a call goes by: the user's, else that of the environment.
pub open spec fn key_in_use(api_key: Seq<char>, env_key: Option<Seq<char>>) -> Seq<char> {
    match either(present(api_key), env_key) {
        Some(s) => s,
        None => Seq::empty(),
    }
}

pub fn effective_api_key(api_key: &str, env_key: Option<&str>) -> (r: String)
    ensures
        r@ == key_in_use(api_key@, opt_str_view(env_key)),
{
    match present_str(api_key) {
        Some(s) => s.to_string(),
        None => match env_key {
            Some(s) => s.to_string(),
            None => String::new(),
        },
    }
}

pub open spec fn plain_fields(extra: Option<&TextMap>) -> Map<Seq<char>, Seq<char>> {
    overridden(
        Map::empty().insert("Content-Type"@, "application/json"@).insert(
            "Accept"@,
            "application/json"@,
        ),
        extra,
    )
}

/// Whether the settings name a kind of authentication.
pub open spec fn has_auth_type(config: Option<JsonModel>, kind: Seq<char>) -> bool {
    match setting(config, "authType"@) {
        Some(s) => lower_ascii(s) == kind,
        None => false,
    }
}

fn is_auth_type(config: Option<&Json>, kind: &str) -> (r: bool)
    ensures
        r == has_auth_type(opt_json(config), kind@),
{
    match config_str(config, "authType") {
        Some(s) => same(lower_ascii_str(s).as_str(), kind),
        None => false,
    }
}

/// The header fields of a call: the fields of the settings where `authType` is `custom`, none
/// further where it is `none`, else the key as a bearer token.
pub open spec fn call_fields(
    key: Seq<char>,
    extra: Option<&TextMap>,
    config: Option<JsonModel>,
) -> Map<Seq<char>, Seq<char>> {
    if has_auth_type(config, "custom"@) {
        with_texts(plain_fields(extra), setting_members(config, "customHeaders"@))
    } else if key.len() > 0 && !has_auth_type(config, "none"@) {
        plain_fields(extra).insert("Authorization"@, "Bearer "@ + key)
    } else {
        plain_fields(extra)
    }
}

/// The key with which a queued call is followed up: none where `authType` is `none`.
pub fn follow_up_key<'a>(api_key: &'a str, config: Option<&Json>) -> (r: &'a str)
    ensures
        r@ == (if has_auth_type(opt_json(config), "none"@) {
            Seq::empty()
        } else {
            api_key@
        }),
{
    if is_auth_type(config, "none") {
        proof {
            reveal_strlit("");
            assert(""@ =~= Seq::<char>::empty());
        }
        ""
    } else {
        api_key
    }
}

// ---------------------------------------------------------------------------
// The adapter
// ---------------------------------------------------------------------------

/// Where a call goes: to the queue of the function, or to the plain prediction endpoint.
pub open spec fn endpoint_of(base_url: Seq<char>, config: Option<JsonModel>) -> Seq<char> {
    let base = trim_end_of(base_url, '/');
    if is_queued(config) {
        base + "/gradio_api/call/"@ + function_name(config)
    } else {
        base + "/api/predict"@
    }
}

fn build_endpoint(base_url: &str, config: Option<&Json>) -> (r: String)
    ensures
        r@ == endpoint_of(base_url@, opt_json(config)),
{
    let mut out = trim_end_of_str(base_url, '/').to_string();
    if GradioAdapter::use_queue(config) {
        out.append("/gradio_api/call/");
        out.append(GradioAdapter::gradio_endpoint_name(config).as_str());
    } else {
        out.append("/api/predict");
    }
    out
}

fn build_payload(request: &ImageGenerationRequest, config: Option<&Json>) -> (r: Json)
    ensures
        r@ == call_body(*request, opt_json(config)),
{
    broadcast use group_json_views;

    let mut members: Vec<(String, Json)> = Vec::new();
    push_member(
        &mut members,
        "data",
        Json::Array(GradioAdapter::build_gradio_data(request, config)),
    );
    push_member(&mut members, "fn_index", unsigned(GradioAdapter::gradio_fn_index(config) as u64));
    if GradioAdapter::use_queue(config) {
        push_member(&mut members, "session_hash", text("haven_session"));
    }
    assert(member_views(members@) =~= call_body(*request, opt_json(config))->Object_0);
    Json::Object(members)
}

impl ImageProviderAdapter for GradioAdapter {
    open spec fn endpoint_text(&self, base_url: Seq<char>) -> Seq<char> {
        endpoint_of(base_url, None)
    }

    open spec fn configured_endpoint(&self, base_url: Seq<char>, config: Option<JsonModel>) -> Seq<
        char,
    > {
        endpoint_of(base_url, config)
    }

    open spec fn header_fields(&self, api_key: Seq<char>, extra: Option<&TextMap>) -> Map<
        Seq<char>,
        Seq<char>,
    > {
        plain_fields(extra)
    }

    open spec fn configured_headers(
        &self,
        api_key: Seq<char>,
        env_key: Option<Seq<char>>,
        extra: Option<&TextMap>,
        config: Option<JsonModel>,
    ) -> Map<Seq<char>, Seq<char>> {
        call_fields(key_in_use(api_key, env_key), extra, config)
    }

    open spec fn can_ask(&self, request: ImageGenerationRequest) -> bool {
        true
    }

    open spec fn body(&self, request: ImageGenerationRequest) -> Result<PayloadModel, Seq<char>> {
        Ok(PayloadModel::Json(call_body(request, None)))
    }

    open spec fn configured_body(
        &self,
        request: ImageGenerationRequest,
        config: Option<JsonModel>,
    ) -> Result<PayloadModel, Seq<char>> {
        Ok(PayloadModel::Json(call_body(request, config)))
    }

    open spec fn images_in(&self, response: JsonModel) -> Result<Seq<ImageDataModel>, Seq<char>> {
        reply_images(response)
    }

    open spec fn configured_images_in(
        &self,
        response: JsonModel,
        config: Option<JsonModel>,
    ) -> Result<Seq<ImageDataModel>, Seq<char>> {
        reply_images(response)
    }

    fn endpoint(&self, base_url: &str, _request: &ImageGenerationRequest) -> (r: String) {
        build_endpoint(base_url, None)
    }

    fn endpoint_with_config(
        &self,
        base_url: &str,
        _request: &ImageGenerationRequest,
        config: Option<&Json>,
    ) -> (r: String) {
        build_endpoint(base_url, config)
    }

    fn required_auth_headers(&self) -> (r: Vec<&'static str>)
        ensures
            r@.len() == 0,
    {
        Vec::new()
    }

    fn headers(&self, _api_key: &str, extra: Option<&TextMap>) -> (r: TextMap) {
        let mut headers = TextMap::new();
        headers.insert("Content-Type", "application/json");
        headers.insert("Accept", "application/json");
        insert_extra(&mut headers, extra);
        headers
    }

    fn headers_with_config(
        &self,
        api_key: &str,
        env_key: Option<&str>,
        extra: Option<&TextMap>,
        config: Option<&Json>,
    ) -> (r: TextMap) {
        let mut headers = self.headers(api_key, extra);
        let key = effective_api_key(api_key, env_key);
        if is_auth_type(config, "custom") {
            insert_texts(&mut headers, config, "customHeaders");
        } else if !key.as_str().is_empty() && !is_auth_type(config, "none") {
            insert_bearer(&mut headers, "Authorization", key.as_str());
        }
        headers
    }

    fn payload(&self, request: &ImageGenerationRequest) -> (r: Result<
        ImageRequestPayload,
        String,
    >) {
        Ok(ImageRequestPayload::Json(build_payload(request, None)))
    }

    fn payload_with_config(&self, request: &ImageGenerationRequest, config: Option<&Json>) -> (r:
        Result<ImageRequestPayload, String>) {
        Ok(ImageRequestPayload::Json(build_payload(request, config)))
    }

    fn parse_response(&self, response: &Json) -> (r: Result<Vec<ImageResponseData>, String>) {
        parse_images(response)
    }

    fn parse_response_with_config(&self, response: &Json, _config: Option<&Json>) -> (r: Result<
        Vec<ImageResponseData>,
        String,
    >) {
        parse_images(response)
    }

    fn response_format(&self) -> (r: ImageResponseFormat)
        ensures
            r == ImageResponseFormat::Json,
    {
        ImageResponseFormat::Json
    }

    fn response_format_with_config(&self, config: Option<&Json>) -> (r: ImageResponseFormat)
        ensures
            r == (match setting(opt_json(config), "responseFormat"@) {
                Some(s) => if lower_ascii(s) == "binary"@ {
                    ImageResponseFormat::Binary
                } else {
                    ImageResponseFormat::Json
                },
                None => ImageResponseFormat::Json,
            }),
    {
        if let Some(s) = config_str(config, "responseFormat") {
            if same(lower_ascii_str(s).as_str(), "binary") {
                return ImageResponseFormat::Binary;
            }
        }
        ImageResponseFormat::Json
    }

    fn timeout(&self, config: Option<&Json>) -> (r: u64)
        ensures
            r == bounded_timeout(
                first_number(opt_json(config), seq!["timeoutSeconds"@, "timeout_seconds"@]),
            ),
    {
        let keys = vec!["timeoutSeconds", "timeout_seconds"];
        assert(strs(keys@) =~= seq!["timeoutSeconds"@, "timeout_seconds"@]);
        clamp_timeout(config_number(config, &keys))
    }
}

/// Where the settings say that no key is wanted, none is sent: the header fields are the same
/// whatever the key.
pub proof fn law_no_key_without_auth(
    key: Seq<char>,
    other: Seq<char>,
    extra: Option<&TextMap>,
    config: Option<JsonModel>,
)
    requires
        has_auth_type(config, "none"@),
    ensures
        call_fields(key, extra, config) == call_fields(other, extra, config),
{
    reveal_strlit("none");
    reveal_strlit("custom");
    assert("none"@.len() != "custom"@.len());
}

/// A reply that is accepted has an image or a link to a job.
pub proof fn law_reply_has_images(response: JsonModel)
    ensures
        reply_images(response) matches Ok(images) ==> images.len() > 0,
{
}

// ---------------------------------------------------------------------------
// What a call says and a reply holds
// ---------------------------------------------------------------------------

/// A text without braces has nothing to be filled in.
proof fn lemma_rendered_from(s: Seq<char>, request: ImageGenerationRequest)
    requires
        !s.contains('{'),
    ensures
        replace(s, "{{prompt}}"@, quotes_escaped(request.prompt@)) == s,
        replace(s, "{{model}}"@, quotes_escaped(request.model@)) == s,
        replace(s, "{{width}}"@, decimal(request_size(request).0)) == s,
        replace(s, "{{height}}"@, decimal(request_size(request).1)) == s,
        replace(s, "{{steps}}"@, decimal(request_steps(request) as nat)) == s,
        replace(s, "{{cfg_scale}}"@, request_cfg(request).display) == s,
        replace(s, "{{seed}}"@, decimal_int(request_seed(request) as int)) == s,
{
    reveal_strlit("{{prompt}}");
    reveal_strlit("{{model}}");
    reveal_strlit("{{width}}");
    reveal_strlit("{{height}}");
    reveal_strlit("{{steps}}");
    reveal_strlit("{{cfg_scale}}");
    reveal_strlit("{{seed}}");
    lemma_replace_nothing(s, "{{prompt}}"@, quotes_escaped(request.prompt@));
    lemma_replace_nothing(s, "{{model}}"@, quotes_escaped(request.model@));
    lemma_replace_nothing(s, "{{width}}"@, decimal(request_size(request).0));
    lemma_replace_nothing(s, "{{height}}"@, decimal(request_size(request).1));
    lemma_replace_nothing(s, "{{steps}}"@, decimal(request_steps(request) as nat));
    lemma_replace_nothing(s, "{{cfg_scale}}"@, request_cfg(request).display);
    lemma_replace_nothing(s, "{{seed}}"@, decimal_int(request_seed(request) as int));
}

proof fn lemma_three_without(a: Seq<char>, v: Seq<char>, b: Seq<char>)
    requires
        !a.contains('{'),
        !v.contains('{'),
        !b.contains('{'),
    ensures
        !(a + v + b).contains('{'),
{
    let s = a + v + b;
    if s.contains('{') {
        let i = choose|i: int| 0 <= i < s.len() && s[i] == '{';
        if i < a.len() {
            assert(a[i] == '{');
        } else if i < a.len() + v.len() {
            assert(v[i - a.len()] == '{');
        } else {
            assert(b[i - a.len() - v.len()] == '{');
        }
    }
}

proof fn lemma_fills_prompt(a: Seq<char>, b: Seq<char>, request: ImageGenerationRequest)
    requires
        !a.contains('{'),
        !b.contains('{'),
        !quotes_escaped(request.prompt@).contains('{'),
    ensures
        rendered_inputs(a + "{{prompt}}"@ + b, request) == a + quotes_escaped(request.prompt@) + b,
{
    reveal_strlit("{{prompt}}");
    law_replace(a, "{{prompt}}"@, b, quotes_escaped(request.prompt@));
    lemma_three_without(a, quotes_escaped(request.prompt@), b);
    lemma_rendered_from(a + quotes_escaped(request.prompt@) + b, request);
}

proof fn lemma_fills_model(a: Seq<char>, b: Seq<char>, request: ImageGenerationRequest)
    requires
        !a.contains('{'),
        !b.contains('{'),
        !quotes_escaped(request.model@).contains('{'),
    ensures
        rendered_inputs(a + "{{model}}"@ + b, request) == a + quotes_escaped(request.model@) + b,
{
    reveal_strlit("{{prompt}}");
    reveal_strlit("{{model}}");
    assert forall|j: int| 2 <= j < "{{model}}"@.len() implies #[trigger] "{{model}}"@[j] != '{' by {}
    assert("{{model}}"@[2] == 'm' && "{{prompt}}"@[2] == 'p');
    lemma_replace_other(a, "{{model}}"@, b, "{{prompt}}"@, quotes_escaped(request.prompt@), 3);
    law_replace(a, "{{model}}"@, b, quotes_escaped(request.model@));
    lemma_three_without(a, quotes_escaped(request.model@), b);
    lemma_rendered_from(a + quotes_escaped(request.model@) + b, request);
}

proof fn lemma_fills_width(a: Seq<char>, b: Seq<char>, request: ImageGenerationRequest)
    requires
        !a.contains('{'),
        !b.contains('{'),
        !decimal(request_size(request).0).contains('{'),
    ensures
        rendered_inputs(a + "{{width}}"@ + b, request) == a + decimal(request_size(request).0) + b,
{
    reveal_strlit("{{prompt}}");
    reveal_strlit("{{model}}");
    reveal_strlit("{{width}}");
    assert forall|j: int| 2 <= j < "{{width}}"@.len() implies #[trigger] "{{width}}"@[j] != '{' by {}
    assert("{{width}}"@[2] == 'w' && "{{prompt}}"@[2] == 'p');
    lemma_replace_other(a, "{{width}}"@, b, "{{prompt}}"@, quotes_escaped(request.prompt@), 3);
    assert("{{width}}"@[2] == 'w' && "{{model}}"@[2] == 'm');
    lemma_replace_other(a, "{{width}}"@, b, "{{model}}"@, quotes_escaped(request.model@), 3);
    law_replace(a, "{{width}}"@, b, decimal(request_size(request).0));
    lemma_three_without(a, decimal(request_size(request).0), b);
    lemma_rendered_from(a + decimal(request_size(request).0) + b, request);
}

proof fn lemma_fills_height(a: Seq<char>, b: Seq<char>, request: ImageGenerationRequest)
    requires
        !a.contains('{'),
        !b.contains('{'),
        !decimal(request_size(request).1).contains('{'),
    ensures
        rendered_inputs(a + "{{height}}"@ + b, request) == a + decimal(request_size(request).1) + b,
{
    reveal_strlit("{{prompt}}");
    reveal_strlit("{{model}}");
    reveal_strlit("{{width}}");
    reveal_strlit("{{height}}");
    assert forall|j: int| 2 <= j < "{{height}}"@.len() implies #[trigger] "{{height}}"@[j] != '{' by {}
    assert("{{height}}"@[2] == 'h' && "{{prompt}}"@[2] == 'p');
    lemma_replace_other(a, "{{height}}"@, b, "{{prompt}}"@, quotes_escaped(request.prompt@), 3);
    assert("{{height}}"@[2] == 'h' && "{{model}}"@[2] == 'm');
    lemma_replace_other(a, "{{height}}"@, b, "{{model}}"@, quotes_escaped(request.model@), 3);
    assert("{{height}}"@[2] == 'h' && "{{width}}"@[2] == 'w');
    lemma_replace_other(a, "{{height}}"@, b, "{{width}}"@, decimal(request_size(request).0), 3);
    law_replace(a, "{{height}}"@, b, decimal(request_size(request).1));
    lemma_three_without(a, decimal(request_size(request).1), b);
    lemma_rendered_from(a + decimal(request_size(request).1) + b, request);
}

proof fn lemma_fills_steps(a: Seq<char>, b: Seq<char>, request: ImageGenerationRequest)
    requires
        !a.contains('{'),
        !b.contains('{'),
        !decimal(request_steps(request) as nat).contains('{'),
    ensures
        rendered_inputs(a + "{{steps}}"@ + b, request) == a + decimal(request_steps(request) as nat) + b,
{
    reveal_strlit("{{prompt}}");
    reveal_strlit("{{model}}");
    reveal_strlit("{{width}}");
    reveal_strlit("{{height}}");
    reveal_strlit("{{steps}}");
    assert forall|j: int| 2 <= j < "{{steps}}"@.len() implies #[trigger] "{{steps}}"@[j] != '{' by {}
    assert("{{steps}}"@[2] == 's' && "{{prompt}}"@[2] == 'p');
    lemma_replace_other(a, "{{steps}}"@, b, "{{prompt}}"@, quotes_escaped(request.prompt@), 3);
    assert("{{steps}}"@[2] == 's' && "{{model}}"@[2] == 'm');
    lemma_replace_other(a, "{{steps}}"@, b, "{{model}}"@, quotes_escaped(request.model@), 3);
    assert("{{steps}}"@[2] == 's' && "{{width}}"@[2] == 'w');
    lemma_replace_other(a, "{{steps}}"@, b, "{{width}}"@, decimal(request_size(request).0), 3);
    assert("{{steps}}"@[2] == 's' && "{{height}}"@[2] == 'h');
    lemma_replace_other(a, "{{steps}}"@, b, "{{height}}"@, decimal(request_size(request).1), 3);
    law_replace(a, "{{steps}}"@, b, decimal(request_steps(request) as nat));
    lemma_three_without(a, decimal(request_steps(request) as nat), b);
    lemma_rendered_from(a + decimal(request_steps(request) as nat) + b, request);
}

proof fn lemma_fills_cfg_scale(a: Seq<char>, b: Seq<char>, request: ImageGenerationRequest)
    requires
        !a.contains('{'),
        !b.contains('{'),
        !request_cfg(request).display.contains('{'),
    ensures
        rendered_inputs(a + "{{cfg_scale}}"@ + b, request) == a + request_cfg(request).display + b,
{
    reveal_strlit("{{prompt}}");
    reveal_strlit("{{model}}");
    reveal_strlit("{{width}}");
    reveal_strlit("{{height}}");
    reveal_strlit("{{steps}}");
    reveal_strlit("{{cfg_scale}}");
    assert forall|j: int| 2 <= j < "{{cfg_scale}}"@.len() implies #[trigger] "{{cfg_scale}}"@[j] != '{' by {}
    assert("{{cfg_scale}}"@[2] == 'c' && "{{prompt}}"@[2] == 'p');
    lemma_replace_other(a, "{{cfg_scale}}"@, b, "{{prompt}}"@, quotes_escaped(request.prompt@), 3);
    assert("{{cfg_scale}}"@[2] == 'c' && "{{model}}"@[2] == 'm');
    lemma_replace_other(a, "{{cfg_scale}}"@, b, "{{model}}"@, quotes_escaped(request.model@), 3);
    assert("{{cfg_scale}}"@[2] == 'c' && "{{width}}"@[2] == 'w');
    lemma_replace_other(a, "{{cfg_scale}}"@, b, "{{width}}"@, decimal(request_size(request).0), 3);
    assert("{{cfg_scale}}"@[2] == 'c' && "{{height}}"@[2] == 'h');
    lemma_replace_other(a, "{{cfg_scale}}"@, b, "{{height}}"@, decimal(request_size(request).1), 3);
    assert("{{cfg_scale}}"@[2] == 'c' && "{{steps}}"@[2] == 's');
    lemma_replace_other(a, "{{cfg_scale}}"@, b, "{{steps}}"@, decimal(request_steps(request) as nat), 3);
    law_replace(a, "{{cfg_scale}}"@, b, request_cfg(request).display);
    lemma_three_without(a, request_cfg(request).display, b);
    lemma_rendered_from(a + request_cfg(request).display + b, request);
}

proof fn lemma_fills_seed(a: Seq<char>, b: Seq<char>, request: ImageGenerationRequest)
    requires
        !a.contains('{'),
        !b.contains('{'),
        !decimal_int(request_seed(request) as int).contains('{'),
    ensures
        rendered_inputs(a + "{{seed}}"@ + b, request) == a + decimal_int(request_seed(request) as int) + b,
{
    reveal_strlit("{{prompt}}");
    reveal_strlit("{{model}}");
    reveal_strlit("{{width}}");
    reveal_strlit("{{height}}");
    reveal_strlit("{{steps}}");
    reveal_strlit("{{cfg_scale}}");
    reveal_strlit("{{seed}}");
    assert forall|j: int| 2 <= j < "{{seed}}"@.len() implies #[trigger] "{{seed}}"@[j] != '{' by {}
    assert("{{seed}}"@[2] == 's' && "{{prompt}}"@[2] == 'p');
    lemma_replace_other(a, "{{seed}}"@, b, "{{prompt}}"@, quotes_escaped(request.prompt@), 3);
    assert("{{seed}}"@[2] == 's' && "{{model}}"@[2] == 'm');
    lemma_replace_other(a, "{{seed}}"@, b, "{{model}}"@, quotes_escaped(request.model@), 3);
    assert("{{seed}}"@[2] == 's' && "{{width}}"@[2] == 'w');
    lemma_replace_other(a, "{{seed}}"@, b, "{{width}}"@, decimal(request_size(request).0), 3);
    assert("{{seed}}"@[2] == 's' && "{{height}}"@[2] == 'h');
    lemma_replace_other(a, "{{seed}}"@, b, "{{height}}"@, decimal(request_size(request).1), 3);
    assert("{{seed}}"@[3] == 'e' && "{{steps}}"@[3] == 't');
    lemma_replace_other(a, "{{seed}}"@, b, "{{steps}}"@, decimal(request_steps(request) as nat), 3);
    assert("{{seed}}"@[2] == 's' && "{{cfg_scale}}"@[2] == 'c');
    lemma_replace_other(a, "{{seed}}"@, b, "{{cfg_scale}}"@, request_cfg(request).display, 3);
    law_replace(a, "{{seed}}"@, b, decimal_int(request_seed(request) as int));
    lemma_three_without(a, decimal_int(request_seed(request) as int), b);
    lemma_rendered_from(a + decimal_int(request_seed(request) as int) + b, request);
}

/// Each mark of a template gives way to what the request says of it, and the text around it stays. (A
/// value that itself holds a brace may be taken for a mark, and is left out.) Quotation marks in the
/// prompt and in the name of the model are escaped.
pub proof fn law_inputs_are_filled_in(a: Seq<char>, b: Seq<char>, request: ImageGenerationRequest)
    requires
        !a.contains('{'),
        !b.contains('{'),
    ensures
        rendered_inputs(a, request) == a,
        !request.prompt@.contains('"') ==> quotes_escaped(request.prompt@) == request.prompt@,
        quotes_escaped(a) == each_char(a, spelling('"', seq!['\\', '"'])),
        !quotes_escaped(request.prompt@).contains('{') ==> rendered_inputs(a + "{{prompt}}"@ + b, request) == a + quotes_escaped(request.prompt@) + b,
        !quotes_escaped(request.model@).contains('{') ==> rendered_inputs(a + "{{model}}"@ + b, request) == a + quotes_escaped(request.model@) + b,
        !decimal(request_size(request).0).contains('{') ==> rendered_inputs(a + "{{width}}"@ + b, request) == a + decimal(request_size(request).0) + b,
        !decimal(request_size(request).1).contains('{') ==> rendered_inputs(a + "{{height}}"@ + b, request) == a + decimal(request_size(request).1) + b,
        !decimal(request_steps(request) as nat).contains('{') ==> rendered_inputs(a + "{{steps}}"@ + b, request) == a + decimal(request_steps(request) as nat) + b,
        !request_cfg(request).display.contains('{') ==> rendered_inputs(a + "{{cfg_scale}}"@ + b, request) == a + request_cfg(request).display + b,
        !decimal_int(request_seed(request) as int).contains('{') ==> rendered_inputs(a + "{{seed}}"@ + b, request) == a + decimal_int(request_seed(request) as int) + b,
{
    reveal_strlit("\"");
    reveal_strlit("\\\"");
    assert("\""@ =~= seq!['"']);
    assert("\\\""@ =~= seq!['\\', '"']);
    lemma_replace_char(a, '"', seq!['\\', '"']);
    if !request.prompt@.contains('"') {
        lemma_replace_nothing(request.prompt@, "\""@, "\\\""@);
    }
    lemma_rendered_from(a, request);
    if !quotes_escaped(request.prompt@).contains('{') {
        lemma_fills_prompt(a, b, request);
    }
    if !quotes_escaped(request.model@).contains('{') {
        lemma_fills_model(a, b, request);
    }
    if !decimal(request_size(request).0).contains('{') {
        lemma_fills_width(a, b, request);
    }
    if !decimal(request_size(request).1).contains('{') {
        lemma_fills_height(a, b, request);
    }
    if !decimal(request_steps(request) as nat).contains('{') {
        lemma_fills_steps(a, b, request);
    }
    if !request_cfg(request).display.contains('{') {
        lemma_fills_cfg_scale(a, b, request);
    }
    if !decimal_int(request_seed(request) as int).contains('{') {
        lemma_fills_seed(a, b, request);
    }
}

/// A call hands over the inputs, the number of the function and, where it is queued, the name of the
/// session.
pub proof fn law_call_body(request: ImageGenerationRequest, config: Option<JsonModel>)
    ensures
        call_body(request, config).get_array("data"@) == Some(inputs(request, config)),
        call_body(request, config).get_u64("fn_index"@) == Some(function_index(config) as u64),
        is_queued(config) ==> call_body(request, config).get_str("session_hash"@) == Some(
            "haven_session"@,
        ),
{
    let members = call_body(request, config)->Object_0;
    reveal_strlit("data");
    reveal_strlit("fn_index");
    reveal_strlit("session_hash");
    lemma_first_member(members, 0);
    assert forall|j: int| 0 <= j < 1 implies (#[trigger] members[j]).0 != members[1].0 by {
        assert(members[1].0.len() == 8);
    }
    lemma_first_member(members, 1);
    if is_queued(config) {
        assert forall|j: int| 0 <= j < 2 implies (#[trigger] members[j]).0 != members[2].0 by {
            assert(members[2].0.len() == 12);
        }
        lemma_first_member(members, 2);
    }
}

/// A call is queued unless the settings say otherwise, goes to the function that they name or else to
/// `predict`, and has the prompt as its only input where they ask for nothing else.
pub proof fn law_call_without_settings(base_url: Seq<char>, request: ImageGenerationRequest)
    ensures
        is_queued(None),
        endpoint_of(base_url, None) == trim_end_of(base_url, '/') + "/gradio_api/call/"@ + "predict"@,
        function_index(None) == 0,
        inputs(request, None) == seq![JsonModel::Text(request.prompt@)],
{
    reveal_with_fuel(first_setting, 4);
    reveal_with_fuel(first_number, 3);
    reveal_strlit("predict");
    assert("predict"@[0] == 'p');
    assert("predict"@.last() == 't');
}

/// The settings decide whether a call is queued, which function it goes to and by which number.
pub proof fn law_call_settings(base_url: Seq<char>, c: JsonModel)
    ensures
        c.get_bool("gradioUseQueue"@) matches Some(b) ==> is_queued(Some(c)) == b,
        c.get_bool("gradioUseQueue"@) == Some(false) ==> endpoint_of(base_url, Some(c))
            == trim_end_of(base_url, '/') + "/api/predict"@,
        c.get_bool("gradioUseQueue"@) == Some(true) ==> (c.get_str("gradioEndpoint"@) matches Some(s)
            ==> trim(s).len() > 0 ==> endpoint_of(base_url, Some(c)) == trim_end_of(base_url, '/')
            + "/gradio_api/call/"@ + trim_of(trim(s), '/')),
        c.get_u64("gradioFnIndex"@) matches Some(n) ==> n <= u32::MAX ==> function_index(Some(c)) == n,
{
    reveal_with_fuel(first_setting, 4);
    reveal_with_fuel(first_number, 3);
}

/// A mapping asks for its inputs one by one, each by its name.
pub proof fn law_mapped_inputs(
    a: Seq<JsonModel>,
    b: Seq<JsonModel>,
    field: Seq<char>,
    request: ImageGenerationRequest,
)
    ensures
        mapped_inputs(a + b, request) == mapped_inputs(a, request) + mapped_inputs(b, request),
        mapped_inputs(Seq::empty(), request).len() == 0,
        mapped_inputs(seq![JsonModel::Text(field)], request).len() == 1,
        field == "prompt"@ ==> mapped_inputs(seq![JsonModel::Text(field)], request)[0] == JsonModel::Text(request.prompt@),
        field == "model"@ ==> mapped_inputs(seq![JsonModel::Text(field)], request)[0] == JsonModel::Text(request.model@),
        field == "width"@ ==> mapped_inputs(seq![JsonModel::Text(field)], request)[0] == number(request_size(request).0),
        field == "height"@ ==> mapped_inputs(seq![JsonModel::Text(field)], request)[0] == number(request_size(request).1),
        field == "steps"@ ==> mapped_inputs(seq![JsonModel::Text(field)], request)[0] == number(request_steps(request) as nat),
        field == "cfg_scale"@ ==> mapped_inputs(seq![JsonModel::Text(field)], request)[0] == fraction_value(request_cfg(request)),
        field == "seed"@ ==> mapped_inputs(seq![JsonModel::Text(field)], request)[0] == int_model(request_seed(request) as int),
        field == "n"@ ==> mapped_inputs(seq![JsonModel::Text(field)], request)[0] == number(request_count(request) as nat),
        field == "negative_prompt"@ ==> match request.advanced_model_settings {
            Some(s) => match s.sd_negative_prompt {
                Some(t) => mapped_inputs(seq![JsonModel::Text(field)], request)[0]
                    == JsonModel::Text(t@),
                None => mapped_inputs(seq![JsonModel::Text(field)], request)[0] matches JsonModel::Text(
                    t,
                ) && t.len() == 0,
            },
            None => mapped_inputs(seq![JsonModel::Text(field)], request)[0] matches JsonModel::Text(
                t,
            ) && t.len() == 0,
        },
    decreases b.len(),
{
    reveal_with_fuel(mapped_inputs, 2);
    let one = seq![JsonModel::Text(field)];
    assert(one.drop_last() =~= Seq::empty());
    reveal_strlit("prompt");
    reveal_strlit("negative_prompt");
    reveal_strlit("model");
    reveal_strlit("width");
    reveal_strlit("height");
    reveal_strlit("steps");
    reveal_strlit("cfg_scale");
    reveal_strlit("seed");
    reveal_strlit("n");
    assert("prompt"@.len() == 6);
    assert("negative_prompt"@.len() == 15);
    assert("model"@.len() == 5);
    assert("width"@.len() == 5);
    assert("height"@.len() == 6);
    assert("steps"@.len() == 5);
    assert("cfg_scale"@.len() == 9);
    assert("seed"@.len() == 4);
    assert("n"@.len() == 1);
    assert("width"@[0] == 'w' && "model"@[0] == 'm');
    assert("height"@[0] == 'h' && "prompt"@[0] == 'p');
    assert("steps"@[0] == 's' && "model"@[0] == 'm');
    assert("steps"@[0] == 's' && "width"@[0] == 'w');
    if b.len() == 0 {
        assert(a + b =~= a);
        assert(mapped_inputs(a, request) + mapped_inputs(b, request) =~= mapped_inputs(a, request));
    } else {
        law_mapped_inputs(a, b.drop_last(), field, request);
        assert((a + b).drop_last() =~= a + b.drop_last());
        assert((a + b).last() == b.last());
        assert(mapped_inputs(a + b, request) =~= mapped_inputs(a, request) + mapped_inputs(
            b,
            request,
        ));
    }
}

/// A template that reads as JSON goes before a mapping, and a mapping before the prompt alone.
pub proof fn law_inputs(request: ImageGenerationRequest, c: JsonModel)
    ensures
        c.get_str("gradioDataTemplate"@) matches Some(t) ==> trim(t).len() > 0 ==> (json_parse(
            rendered_inputs(trim(t), request),
        ) matches Ok(v) ==> inputs(request, Some(c)) == (match v {
            JsonModel::Array(items) => items,
            _ => seq![v],
        })),
        c.get("gradioDataTemplate"@) is None ==> (c.get_array("gradioInputsMapping"@) matches Some(
            fields,
        ) ==> inputs(request, Some(c)) == mapped_inputs(fields, request)),
        c.get("gradioDataTemplate"@) is None && c.get("gradioInputsMapping"@) is None ==> inputs(
            request,
            Some(c),
        ) == seq![JsonModel::Text(request.prompt@)],
{
}

/// A queued call is followed up under its event; an error is told; else the images of the `data` of a
/// reply count.
pub proof fn law_reply(response: JsonModel)
    ensures
        response.get_str("event_id"@) matches Some(id) ==> trim(id).len() > 0 ==> (reply_images(
            response,
        ) matches Ok(images) && images.len() == 1 && images[0].url == Some(
            "gradio://"@ + trim(id),
        )),
        response.get("event_id"@) is None ==> (response.get_str("error"@) matches Some(e)
            ==> trim(e).len() > 0 ==> reply_images(response) == Err::<
            Seq<ImageDataModel>,
            Seq<char>,
        >("Gradio error: "@ + trim(e))),
        response.get("event_id"@) is None && response.get("error"@) is None ==> (response.get(
            "data"@,
        ) matches Some(v) ==> with_images(Seq::empty(), v, true).len() > 0 ==> reply_images(
            response,
        ) == Ok::<Seq<ImageDataModel>, Seq<char>>(with_images(Seq::empty(), v, true))),
{
}

/// In the data of a reply every text that is not blank is an image: a link as a link, anything else as
/// data. An object with a `url` is the image there. The images of a list follow one another.
pub proof fn law_data_images(
    out: Seq<ImageDataModel>,
    s: Seq<char>,
    a: Seq<JsonModel>,
    b: Seq<JsonModel>,
    o: JsonModel,
)
    ensures
        trim(s).len() == 0 ==> with_images(out, JsonModel::Text(s), true) == out,
        starts_with(trim(s), "http://"@) || starts_with(trim(s), "https://"@) ==> with_images(
            out,
            JsonModel::Text(s),
            true,
        ) == out.push(ImageDataModel { url: Some(trim(s)), b64_json: None, text: None }),
        trim(s).len() > 0 && !starts_with(trim(s), "http://"@) && !starts_with(trim(s), "https://"@)
            ==> with_images(out, JsonModel::Text(s), true) == out.push(
            ImageDataModel { url: None, b64_json: Some(trim(s)), text: None },
        ),
        with_images(out, JsonModel::Array(a + b), true) == with_images(
            with_images(out, JsonModel::Array(a), true),
            JsonModel::Array(b),
            true,
        ),
        with_images(out, JsonModel::Array(seq![o]), true) == with_images(out, o, true),
        o.get_str("url"@) matches Some(u) ==> with_images(out, o, true) == out.push(
            ImageDataModel { url: Some(u), b64_json: None, text: None },
        ),
        o is Number || o is Bool || o is Null ==> with_images(out, o, true) == out,
{
    reveal_strlit("http://");
    reveal_strlit("https://");
    lemma_with_items(out, a, b);
    let one = seq![o];
    assert(one.drop_last() =~= Seq::empty());
    assert(with_items(out, Seq::empty(), true) == out);
    assert(with_items(out, one, true) == with_images(
        with_items(out, one.drop_last(), true),
        one.last(),
        true,
    ));
    assert(with_images(out, JsonModel::Array(one), true) == with_items(out, one, true));
}

proof fn lemma_with_items(out: Seq<ImageDataModel>, a: Seq<JsonModel>, b: Seq<JsonModel>)
    ensures
        with_items(out, a + b, true) == with_items(with_items(out, a, true), b, true),
    decreases b.len(),
{
    if b.len() == 0 {
        assert(a + b =~= a);
    } else {
        lemma_with_items(out, a, b.drop_last());
        assert((a + b).drop_last() =~= a + b.drop_last());
        assert((a + b).last() == b.last());
    }
}

/// A key is sent as a bearer token unless the settings ask for none or for fields of their own; the
/// user's key goes before that of the environment.
pub proof fn law_key_is_sent(
    api_key: Seq<char>,
    env_key: Option<Seq<char>>,
    key: Seq<char>,
    config: Option<JsonModel>,
)
    ensures
        trim(api_key).len() > 0 ==> key_in_use(api_key, env_key) == trim(api_key),
        trim(api_key).len() == 0 ==> (env_key matches Some(k) ==> key_in_use(api_key, env_key) == k),
        trim(api_key).len() == 0 && env_key is None ==> key_in_use(api_key, env_key).len() == 0,
        key.len() > 0 && (config is None || (config matches Some(c) && (c.get("authType"@) is None
            || c.get_str("authType"@) == Some("bearer"@)))) ==> {
            let fields = call_fields(key, None, config);
            fields.dom().contains("Authorization"@) && fields["Authorization"@] == "Bearer "@ + key
        },
        key.len() == 0 && config is None ==> !call_fields(key, None, config).dom().contains(
            "Authorization"@,
        ),
{
    reveal_strlit("bearer");
    reveal_strlit("custom");
    reveal_strlit("none");
    reveal_strlit("Content-Type");
    reveal_strlit("Accept");
    reveal_strlit("Authorization");
    assert("Content-Type"@.len() == 12 && "Accept"@.len() == 6 && "Authorization"@.len() == 13);
    assert(trim("bearer"@) == "bearer"@);
    assert(lower_ascii("bearer"@) =~= "bearer"@);
    assert("bearer"@[0] == 'b' && "custom"@[0] == 'c' && "none"@.len() == 4 && "bearer"@.len() == 6);
}

/// The settings of a call may stand under other words, where the usual ones are missing.
pub proof fn law_other_words(base_url: Seq<char>, c: JsonModel, s: Seq<char>, n: u64)
    ensures
        c.get("gradioUseQueue"@) is None ==> (c.get_bool("useQueue"@) matches Some(b) ==> is_queued(
            Some(c),
        ) == b),
        c.get("gradioUseQueue"@) is None && c.get("useQueue"@) is None ==> is_queued(Some(c)),
        c.get("gradioFnIndex"@) is None && c.get_u64("fnIndex"@) == Some(n) && n <= u32::MAX
            ==> function_index(Some(c)) == n,
        is_queued(Some(c)) && trim(s).len() > 0 && c.get("gradioEndpoint"@) is None && c.get_str(
            "endpoint"@,
        ) == Some(s) ==> endpoint_of(base_url, Some(c)) == trim_end_of(base_url, '/')
            + "/gradio_api/call/"@ + trim_of(trim(s), '/'),
        is_queued(Some(c)) && trim(s).len() > 0 && c.get("gradioEndpoint"@) is None && c.get(
            "endpoint"@,
        ) is None && c.get_str("apiEndpoint"@) == Some(s) ==> endpoint_of(base_url, Some(c))
            == trim_end_of(base_url, '/') + "/gradio_api/call/"@ + trim_of(trim(s), '/'),
        key_variables() == seq!["IMAGE_API_KEY"@].push("HF_API_KEY"@).push("HF_TOKEN"@).push(
            "HUGGINGFACE_API_KEY"@,
        ),
{
    reveal_with_fuel(first_setting, 4);
    reveal_with_fuel(first_number, 3);
    assert(key_variables() =~= seq!["IMAGE_API_KEY"@].push("HF_API_KEY"@).push("HF_TOKEN"@).push(
        "HUGGINGFACE_API_KEY"@,
    ));
}

proof fn lemma_first_direct(members: Seq<(Seq<char>, JsonModel)>, keys: Seq<Seq<char>>, i: int)
    requires
        0 <= i < keys.len(),
        forall|j: int|
            0 <= j < i ==> (member(members, #[trigger] keys[j]) matches Some(v) ==> with_images(
                Seq::empty(),
                v,
                true,
            ).len() == 0),
        member(members, keys[i]) matches Some(v) && with_images(Seq::empty(), v, true).len() > 0,
    ensures
        first_direct(members, keys) == with_images(
            Seq::empty(),
            member(members, keys[i])->0,
            true,
        ),
    decreases keys.len(),
{
    if i > 0 {
        let rest = keys.drop_first();
        assert forall|j: int| 0 <= j < i - 1 implies (member(members, #[trigger] rest[j])
            matches Some(v) ==> with_images(Seq::empty(), v, true).len() == 0) by {
            assert(rest[j] == keys[j + 1]);
        }
        assert(member(members, keys[0]) matches Some(v) ==> with_images(
            Seq::empty(),
            v,
            true,
        ).len() == 0);
        lemma_first_direct(members, rest, i - 1);
    }
}

/// Of a reply without `data` the first of the usual members that holds images counts, in this order.
pub proof fn law_direct_members(members: Seq<(Seq<char>, JsonModel)>, i: int)
    requires
        member(members, "event_id"@) is None,
        member(members, "error"@) is None,
        member(members, "data"@) is None,
        0 <= i < 10,
        ({
            let keys = seq!["image"@, "images"@, "b64_json"@, "base64"@, "url"@, "urls"@, "output"@, "result"@, "data"@, "generated_image"@];
            &&& forall|j: int|
                0 <= j < i ==> (member(members, #[trigger] keys[j]) matches Some(v) ==> with_images(
                    Seq::empty(),
                    v,
                    true,
                ).len() == 0)
            &&& member(members, keys[i]) matches Some(v) && with_images(
                Seq::empty(),
                v,
                true,
            ).len() > 0
        }),
    ensures
        ({
            let keys = seq!["image"@, "images"@, "b64_json"@, "base64"@, "url"@, "urls"@, "output"@, "result"@, "data"@, "generated_image"@];
            reply_images(JsonModel::Object(members)) == Ok::<Seq<ImageDataModel>, Seq<char>>(
                with_images(Seq::empty(), member(members, keys[i])->0, true),
            )
        }),
{
    let keys = seq!["image"@, "images"@, "b64_json"@, "base64"@, "url"@, "urls"@, "output"@, "result"@, "data"@, "generated_image"@];
    assert(direct_keys() =~= keys);
    lemma_first_direct(members, direct_keys(), i);
}

/// A reply in print is shown whole up to 800 bytes, and its beginning where it is longer.
pub proof fn law_reply_in_print(response: JsonModel)
    ensures
        byte_len(json_text(response)) <= 800 ==> shown(response) == json_text(response),
        byte_len(json_text(response)) > 800 ==> shown(response) == beginning(
            json_text(response),
            800,
            0,
        ) + "... (truncated)"@,
{
}

/// A text anywhere in a reply is taken for an image only where it looks like one: a link, a data
/// address, or more than twenty bytes without a space.
pub proof fn law_looks_like_an_image(s: Seq<char>)
    ensures
        ({
            let found = with_images(Seq::empty(), JsonModel::Text(s), false);
            let t = trim(s);
            &&& t.len() > 0 && (starts_with(t, "http://"@) || starts_with(t, "https://"@))
                ==> found == seq![(ImageDataModel { url: Some(t), b64_json: None, text: None })]
            &&& t.len() > 0 && !starts_with(t, "http://"@) && !starts_with(t, "https://"@) && (
            starts_with(t, "data:"@) || byte_len(t) > 20 && !contains(t, " "@)) ==> found == seq![
                (ImageDataModel { url: None, b64_json: Some(t), text: None }),
            ]
            &&& t.len() == 0 || !starts_with(t, "http://"@) && !starts_with(t, "https://"@)
                && !starts_with(t, "data:"@) && (byte_len(t) <= 20 || contains(t, " "@))
                ==> found.len() == 0
        }),
{
}

} // verus!
