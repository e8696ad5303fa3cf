//! Any image endpoint that speaks HTTP, described by the provider's settings.
use vstd::prelude::*;

use super::config::{
    bounded_timeout, clamp_timeout, config_number, config_str, config_string, first_number,
    first_setting, insert_bearer, insert_extra, insert_texts, setting, setting_members, with_texts,
};
use super::parameters::{
    get_cfg, get_count, get_negative_prompt, get_seed, get_size, get_steps, request_cfg,
    request_count, request_negative, request_seed, request_size, request_steps,
};
use super::{
    b64_data, image_at, image_of_data, image_views, image_views_push, images_view, url_data,
    ImageDataModel, ImageProviderAdapter, ImageRequestPayload, ImageResponseData,
    ImageResponseFormat, PayloadModel,
};
use crate::fraction::{fraction_json, fraction_value, Fraction};
use crate::text_map::{overridden, TextMap};
use crate::image_generator::types::{either, ImageGenerationRequest};
use crate::json::{
    get_member, group_json_views, int_model, json_chars, json_parse, json_quote, json_text,
    json_views, lemma_member_at, member, member_views, number, opt_json, parse, parsed_view,
    place_of_member, print, push_member, signed, text, text_array, texts, unsigned, Json, JsonModel,
};
use crate::text::{
    beginning, bounded_value, byte_len, byte_len_str, contains, contains_str, cut_off, decimal,
    decimal_i64, decimal_int, decimal_u64, each_char, is_digit, is_link, is_link_text, join,
    join_strs, law_decimal, law_replace, law_split, lemma_each_char_same, lemma_each_char_twice,
    lemma_no_split, lemma_place_from, lemma_replace_char, lemma_replace_nothing,
    lemma_replace_other, lemma_trim_trimmed, lower_ascii, lower_ascii_str, opt_present,
    opt_str_view, opt_view, parse_usize, place_of, place_of_char, present, present_opt, present_str,
    replace, replace_str, same, same_ignoring_case, spelling, split, split_str, starts_with,
    starts_with_str, strs, trim, trim_end_of, trim_end_of_str, trim_str, views, views_push,
};

verus! {

/// An adapter for image endpoints that this program knows nothing of. The settings of the
/// provider tell where the endpoint is (`endpointPath`), how it is asked (`requestTemplate`,
/// `authType`, `authHeaderName`, `customHeaders`, `headers`) and how it answers
/// (`responseImageField`, `responseFormat`, `timeoutSeconds`).
#[derive(Debug)]
pub struct GenericHttpAdapter;

// ---------------------------------------------------------------------------
// Endpoint
// ---------------------------------------------------------------------------

pub open spec fn path_keys() -> Seq<Seq<char>> {
    seq!["endpointPath"@, "endpoint_path"@, "apiEndpoint"@, "path"@]
}

pub open spec fn absolute_path(path: Seq<char>) -> Seq<char> {
    if starts_with(path, "/"@) {
        path
    } else {
        "/"@ + path
    }
}

/// The base address without slashes at its end, and the configured path behind it unless the
/// address holds the path already.
pub open spec fn endpoint_of(base_url: Seq<char>, config: Option<JsonModel>) -> Seq<char> {
    let base = trim_end_of(base_url, '/');
    match first_setting(config, path_keys()) {
        Some(path) => if base.len() == 0 || contains(base, absolute_path(path)) {
            base
        } else {
            base + absolute_path(path)
        },
        None => base,
    }
}

fn build_endpoint(base_url: &str, config: Option<&Json>) -> (r: String)
    ensures
        r@ == endpoint_of(base_url@, opt_json(config)),
{
    let base = trim_end_of_str(base_url, '/');
    let mut out = base.to_string();
    if base.is_empty() {
        return out;
    }
    let keys = vec!["endpointPath", "endpoint_path", "apiEndpoint", "path"];
    assert(strs(keys@) =~= path_keys());
    if let Some(path) = config_string(config, &keys) {
        let mut absolute = String::new();
        if !starts_with_str(path, "/") {
            absolute.append("/");
            assert(absolute@ =~= "/"@);
        }
        absolute.append(path);
        assert(absolute@ =~= absolute_path(path@));
        if !contains_str(base, absolute.as_str()) {
            out.append(absolute.as_str());
        }
    }
    out
}

// ---------------------------------------------------------------------------
// Request body
// ---------------------------------------------------------------------------

/// A backslash, a quotation mark, a line end or a tab as JSON escapes it; any other character as
/// it is.
pub open spec fn escape(c: char) -> Seq<char> {
    if c == '\\' || c == '"' {
        seq!['\\', c]
    } else if c == '\n' {
        seq!['\\', 'n']
    } else if c == '\r' {
        seq!['\\', 'r']
    } else if c == '\t' {
        seq!['\\', 't']
    } else {
        seq![c]
    }
}

pub open spec fn escapes() -> spec_fn(char) -> Seq<char> {
    |c: char| escape(c)
}

/// A text with what JSON reserves escaped: backslashes, quotation marks, line ends and tabs.
pub open spec fn escaped(s: Seq<char>) -> Seq<char> {
    each_char(s, escapes())
}

/// The first `n` of the escapes: of backslashes, quotation marks, line feeds, carriage returns
/// and tabs, in that order.
spec fn first_escapes(n: int) -> spec_fn(char) -> Seq<char> {
    |c: char|
        if c == '\\' || (c == '"' && n >= 2) || (c == '\n' && n >= 3) || (c == '\r' && n >= 4) || (
        c == '\t' && n >= 5) {
            escape(c)
        } else {
            seq![c]
        }
}

/// One more kind of character is escaped in a text whose backslashes are.
proof fn lemma_next_escape(s: Seq<char>, n: int, c: char)
    requires
        1 <= n <= 4,
        c == seq!['"', '\n', '\r', '\t'][n - 1],
    ensures
        replace(each_char(s, first_escapes(n)), seq![c], escape(c)) == each_char(
            s,
            first_escapes(n + 1),
        ),
{
    let f = first_escapes(n);
    let g = spelling(c, escape(c));
    let h = first_escapes(n + 1);
    assert forall|x: char| each_char(#[trigger] f(x), g) == h(x) by {
        reveal_with_fuel(each_char, 3);
        assert(each_char(f(x), g) =~= h(x));
    }
    lemma_replace_char(each_char(s, f), c, escape(c));
    lemma_each_char_twice(s, f, g, h);
}

fn escape_json_string(s: &str) -> (r: String)
    ensures
        r@ == escaped(s@),
{
    proof {
        reveal_strlit("\\");
        reveal_strlit("\\\\");
        reveal_strlit("\"");
        reveal_strlit("\\\"");
        reveal_strlit("\n");
        reveal_strlit("\\n");
        reveal_strlit("\r");
        reveal_strlit("\\r");
        reveal_strlit("\t");
        reveal_strlit("\\t");
        assert("\\"@ =~= seq!['\\']);
        assert("\\\\"@ =~= escape('\\'));
        assert("\""@ =~= seq!['"']);
        assert("\\\""@ =~= escape('"'));
        assert("\n"@ =~= seq!['\n']);
        assert("\\n"@ =~= escape('\n'));
        assert("\r"@ =~= seq!['\r']);
        assert("\\r"@ =~= escape('\r'));
        assert("\t"@ =~= seq!['\t']);
        assert("\\t"@ =~= escape('\t'));
        lemma_replace_char(s@, '\\', escape('\\'));
        lemma_each_char_same(s@, spelling('\\', escape('\\')), first_escapes(1));
        lemma_next_escape(s@, 1, '"');
        lemma_next_escape(s@, 2, '\n');
        lemma_next_escape(s@, 3, '\r');
        lemma_next_escape(s@, 4, '\t');
        lemma_each_char_same(s@, first_escapes(5), escapes());
    }
    let a = replace_str(s, "\\", "\\\\");
    let b = replace_str(a.as_str(), "\"", "\\\"");
    let c = replace_str(b.as_str(), "\n", "\\n");
    let d = replace_str(c.as_str(), "\r", "\\r");
    replace_str(d.as_str(), "\t", "\\t")
}

/// Two texts that are escaped alike are the same text.
pub proof fn law_escape_is_injective(a: Seq<char>, b: Seq<char>)
    requires
        escaped(a) == escaped(b),
    ensures
        a == b,
    decreases a.len(),
{
    if a.len() == 0 {
        if b.len() > 0 {
            assert(escaped(b) == escape(b[0]) + escaped(b.drop_first()));
            assert(escaped(b).len() > 0);
        }
        assert(a =~= b);
    } else if b.len() == 0 {
        assert(escaped(a) == escape(a[0]) + escaped(a.drop_first()));
        assert(escaped(a).len() > 0);
    } else {
        let rest_a = escaped(a.drop_first());
        let rest_b = escaped(b.drop_first());
        let first_a = escape(a[0]);
        let first_b = escape(b[0]);
        assert(escaped(a) == first_a + rest_a);
        assert(escaped(b) == first_b + rest_b);
        assert(escaped(a)[0] == first_a[0]);
        assert(escaped(b)[0] == first_b[0]);
        if first_a.len() == 2 {
            assert(escaped(a)[1] == first_a[1]);
            assert(escaped(b)[1] == first_b[1]);
        }
        assert(a[0] == b[0]);
        assert(escaped(a).skip(first_a.len() as int) =~= rest_a);
        assert(escaped(b).skip(first_b.len() as int) =~= rest_b);
        law_escape_is_injective(a.drop_first(), b.drop_first());
        assert(a =~= seq![a[0]] + a.drop_first());
        assert(b =~= seq![b[0]] + b.drop_first());
    }
}

/// An escaped text between quotation marks is the JSON string of the text, so that it is read back
/// as that text. The text holds no control character but line ends and tabs: the others are not
/// escaped.
pub proof fn law_escaped_text_is_a_json_string(s: Seq<char>)
    requires
        forall|i: int|
            0 <= i < s.len() ==> (#[trigger] s[i]) as int >= 32 || s[i] == '\n' || s[i] == '\r'
                || s[i] == '\t',
    ensures
        seq!['"'] + escaped(s) + seq!['"'] == json_quote(s),
{
    assert forall|i: int| 0 <= i < s.len() implies escapes()(#[trigger] s[i]) == json_chars()(
        s[i],
    ) by {
        assert(s[i] as int >= 32 || s[i] == '\n' || s[i] == '\r' || s[i] == '\t');
    }
    lemma_each_char_same(s, escapes(), json_chars());
}

/// The input images as a JSON array.
pub open spec fn images_json(request: ImageGenerationRequest) -> Seq<char> {
    match request.input_images {
        Some(images) => json_text(text_array(views(images@))),
        None => "[]"@,
    }
}

pub open spec fn first_input(request: ImageGenerationRequest) -> Seq<char> {
    if request.input_views().len() > 0 {
        request.input_views()[0]
    } else {
        Seq::empty()
    }
}

/// A template with its placeholders filled in, one after the other.
pub open spec fn rendered(template: Seq<char>, request: ImageGenerationRequest) -> Seq<char> {
    let size = request_size(request);
    let cfg = request_cfg(request).display;
    let a = replace(template, "{{prompt}}"@, escaped(request.prompt@));
    let b = replace(a, "{{negative_prompt}}"@, escaped(request_negative(request)));
    let c = replace(b, "{{model}}"@, escaped(request.model@));
    let d = replace(c, "{{width}}"@, decimal(size.0));
    let e = replace(d, "{{height}}"@, decimal(size.1));
    let f = replace(e, "{{steps}}"@, decimal(request_steps(request) as nat));
    let g = replace(f, "{{cfg_scale}}"@, cfg);
    let h = replace(g, "{{cfg}}"@, cfg);
    let i = replace(h, "{{seed}}"@, decimal_int(request_seed(request) as int));
    let j = replace(i, "{{n}}"@, decimal(request_count(request) as nat));
    let k = replace(j, "{{images}}"@, images_json(request));
    replace(k, "{{image}}"@, escaped(first_input(request)))
}

fn render_template(template: &str, request: &ImageGenerationRequest) -> (r: String)
    ensures
        r@ == rendered(template@, *request),
{
    proof {
        reveal_strlit("{{prompt}}");
        reveal_strlit("{{negative_prompt}}");
        reveal_strlit("{{model}}");
        reveal_strlit("{{width}}");
        reveal_strlit("{{height}}");
        reveal_strlit("{{steps}}");
        reveal_strlit("{{cfg_scale}}");
        reveal_strlit("{{cfg}}");
        reveal_strlit("{{seed}}");
        reveal_strlit("{{n}}");
        reveal_strlit("{{images}}");
        reveal_strlit("{{image}}");
    }
    let (width, height) = get_size(request);
    let cfg = get_cfg(request);
    let negative = get_negative_prompt(request);
    let images = match &request.input_images {
        Some(list) => print(&texts(list)),
        None => "[]".to_string(),
    };
    let first: String = match &request.input_images {
        Some(list) => if list.len() > 0 {
            escape_json_string(list[0].as_str())
        } else {
            escape_json_string("")
        },
        None => escape_json_string(""),
    };
    proof {
        reveal_strlit("");
        assert(""@ =~= Seq::<char>::empty());
    }
    let a = replace_str(
        template,
        "{{prompt}}",
        escape_json_string(request.prompt.as_str()).as_str(),
    );
    let b = replace_str(
        a.as_str(),
        "{{negative_prompt}}",
        escape_json_string(negative.as_str()).as_str(),
    );
    let c = replace_str(
        b.as_str(),
        "{{model}}",
        escape_json_string(request.model.as_str()).as_str(),
    );
    let d = replace_str(c.as_str(), "{{width}}", decimal_u64(width as u64).as_str());
    let e = replace_str(d.as_str(), "{{height}}", decimal_u64(height as u64).as_str());
    let f = replace_str(e.as_str(), "{{steps}}", decimal_u64(get_steps(request) as u64).as_str());
    let g = replace_str(f.as_str(), "{{cfg_scale}}", cfg.display.as_str());
    let h = replace_str(g.as_str(), "{{cfg}}", cfg.display.as_str());
    let i = replace_str(h.as_str(), "{{seed}}", decimal_i64(get_seed(request)).as_str());
    let j = replace_str(i.as_str(), "{{n}}", decimal_u64(get_count(request) as u64).as_str());
    let k = replace_str(j.as_str(), "{{images}}", images.as_str());
    replace_str(k.as_str(), "{{image}}", first.as_str())
}

pub open spec fn optional_members(
    present: bool,
    members: Seq<(Seq<char>, JsonModel)>,
) -> Seq<(Seq<char>, JsonModel)> {
    if present {
        members
    } else {
        Seq::empty()
    }
}

/// The members that the input images give a request body.
pub open spec fn image_members(request: ImageGenerationRequest) -> Seq<(Seq<char>, JsonModel)> {
    let images = request.input_views();
    optional_members(
        images.len() > 0,
        seq![
            ("images"@, text_array(images)),
            ("init_images"@, text_array(images)),
            ("image"@, JsonModel::Text(images[0])),
            ("init_image"@, JsonModel::Text(images[0])),
        ],
    )
}

pub open spec fn mask_members(request: ImageGenerationRequest) -> Seq<(Seq<char>, JsonModel)> {
    match opt_present(opt_view(request.mask_image)) {
        Some(mask) => seq![
            ("mask"@, JsonModel::Text(mask)),
            ("mask_image"@, JsonModel::Text(mask)),
        ],
        None => Seq::empty(),
    }
}

/// The request body where no template is set. It names each parameter under all the names by
/// which endpoints are known to ask for it.
pub open spec fn default_body(request: ImageGenerationRequest) -> JsonModel {
    let size = request_size(request);
    let steps = number(request_steps(request) as nat);
    let cfg = fraction_value(request_cfg(request));
    let count = number(request_count(request) as nat);
    let negative = request_negative(request);
    JsonModel::Object(
        seq![("prompt"@, JsonModel::Text(request.prompt@))] + optional_members(
            negative.len() > 0,
            seq![("negative_prompt"@, JsonModel::Text(negative))],
        ) + seq![
            ("model"@, JsonModel::Text(request.model@)),
            ("width"@, number(size.0)),
            ("height"@, number(size.1)),
            ("steps"@, steps),
            ("cfg_scale"@, cfg),
            ("cfgScale"@, cfg),
            ("guidance_scale"@, cfg),
        ] + optional_members(
            request_seed(request) != -1,
            seq![("seed"@, int_model(request_seed(request) as int))],
        ) + seq![("n"@, count), ("num_images"@, count), ("batch_size"@, count)]
            + image_members(request) + mask_members(request) + seq![
            ("inputs"@, JsonModel::Text(request.prompt@)),
            (
                "parameters"@,
                JsonModel::Object(
                    seq![
                        ("width"@, number(size.0)),
                        ("height"@, number(size.1)),
                        ("steps"@, steps),
                        ("cfg_scale"@, cfg),
                    ],
                ),
            ),
        ],
    )
}

fn push_image_members(members: &mut Vec<(String, Json)>, request: &ImageGenerationRequest)
    ensures
        member_views(final(members)@) == member_views(old(members)@) + image_members(*request),
{
    let ghost before = member_views(members@);
    if let Some(images) = &request.input_images {
        if images.len() > 0 {
            push_member(members, "images", texts(images));
            push_member(members, "init_images", texts(images));
            push_member(members, "image", text(images[0].as_str()));
            push_member(members, "init_image", text(images[0].as_str()));
        }
    }
    assert(member_views(members@) =~= before + image_members(*request));
}

fn push_mask_members(members: &mut Vec<(String, Json)>, request: &ImageGenerationRequest)
    ensures
        member_views(final(members)@) == member_views(old(members)@) + mask_members(*request),
{
    let ghost before = member_views(members@);
    if let Some(mask) = present_opt(&request.mask_image) {
        push_member(members, "mask", text(mask));
        push_member(members, "mask_image", text(mask));
    }
    assert(member_views(members@) =~= before + mask_members(*request));
}

fn parameter_members(width: u32, height: u32, steps: u32, cfg: &Fraction) -> (r: Json)
    ensures
        r@ == JsonModel::Object(
            seq![
                ("width"@, number(width as nat)),
                ("height"@, number(height as nat)),
                ("steps"@, number(steps as nat)),
                ("cfg_scale"@, fraction_value(cfg@)),
            ],
        ),
{
    broadcast use group_json_views;

    let mut members: Vec<(String, Json)> = Vec::new();
    push_member(&mut members, "width", unsigned(width as u64));
    push_member(&mut members, "height", unsigned(height as u64));
    push_member(&mut members, "steps", unsigned(steps as u64));
    push_member(&mut members, "cfg_scale", fraction_json(cfg));
    assert(member_views(members@) =~= seq![
        ("width"@, number(width as nat)),
        ("height"@, number(height as nat)),
        ("steps"@, number(steps as nat)),
        ("cfg_scale"@, fraction_value(cfg@)),
    ]);
    Json::Object(members)
}

fn build_default_payload(request: &ImageGenerationRequest) -> (r: Json)
    ensures
        r@ == default_body(*request),
{
    broadcast use group_json_views;

    let (width, height) = get_size(request);
    let steps: u32 = get_steps(request);
    let cfg = get_cfg(request);
    let seed: i64 = get_seed(request);
    let negative = get_negative_prompt(request);
    let count: u32 = get_count(request);
    let mut members: Vec<(String, Json)> = Vec::new();
    push_member(&mut members, "prompt", text(request.prompt.as_str()));
    if !negative.as_str().is_empty() {
        push_member(&mut members, "negative_prompt", text(negative.as_str()));
    }
    push_member(&mut members, "model", text(request.model.as_str()));
    push_member(&mut members, "width", unsigned(width as u64));
    push_member(&mut members, "height", unsigned(height as u64));
    push_member(&mut members, "steps", unsigned(steps as u64));
    push_member(&mut members, "cfg_scale", fraction_json(&cfg));
    push_member(&mut members, "cfgScale", fraction_json(&cfg));
    push_member(&mut members, "guidance_scale", fraction_json(&cfg));
    if seed != -1 {
        push_member(&mut members, "seed", signed(seed));
    }
    push_member(&mut members, "n", unsigned(count as u64));
    push_member(&mut members, "num_images", unsigned(count as u64));
    push_member(&mut members, "batch_size", unsigned(count as u64));
    push_image_members(&mut members, request);
    push_mask_members(&mut members, request);
    push_member(&mut members, "inputs", text(request.prompt.as_str()));
    push_member(&mut members, "parameters", parameter_members(width, height, steps, &cfg));
    assert(member_views(members@) =~= default_body(*request)->Object_0);
    Json::Object(members)
}

/// The configured request body: the rendered template where one is set, else the default one.
pub open spec fn request_body(
    request: ImageGenerationRequest,
    config: Option<JsonModel>,
) -> Result<JsonModel, Seq<char>> {
    match either(setting(config, "requestTemplate"@), setting(config, "request_template"@)) {
        Some(template) => body_of_template(
            json_parse(rendered(template, request)),
            rendered(template, request),
        ),
        None => Ok(default_body(request)),
    }
}

/// The request body that comes of a rendered template, given what the template reads as.
pub open spec fn body_of_template(
    read: Result<JsonModel, Seq<char>>,
    template: Seq<char>,
) -> Result<JsonModel, Seq<char>> {
    match read {
        Ok(v) => Ok(v),
        Err(e) => Err(
            "Failed to parse requestTemplate as JSON after rendering: "@ + e + " (rendered: "@
                + template + ")"@,
        ),
    }
}

/// Takes the JSON of a rendered template for a request body.
pub fn payload_of_template(read: Result<Json, String>, rendered: &str) -> (r: Result<Json, String>)
    ensures
        parsed_view(r) == body_of_template(parsed_view(read), rendered@),
{
    match read {
        Ok(v) => Ok(v),
        Err(e) => {
            let mut message =
                "Failed to parse requestTemplate as JSON after rendering: ".to_string();
            message.append(e.as_str());
            message.append(" (rendered: ");
            message.append(rendered);
            message.append(")");
            Err(message)
        },
    }
}

fn build_payload(request: &ImageGenerationRequest, config: Option<&Json>) -> (r: Result<
    Json,
    String,
>)
    ensures
        parsed_view(r) == request_body(*request, opt_json(config)),
{
    let template = match config_str(config, "requestTemplate") {
        Some(s) => Some(s),
        None => config_str(config, "request_template"),
    };
    match template {
        Some(t) => {
            let filled = render_template(t, request);
            payload_of_template(parse(filled.as_str()), filled.as_str())
        },
        None => Ok(build_default_payload(request)),
    }
}

// ---------------------------------------------------------------------------
// Finding a value by its path
// ---------------------------------------------------------------------------

/// Follows indices such as `[0][1]`.
pub open spec fn follow_indices(v: JsonModel, rest: Seq<char>) -> Option<JsonModel>
    decreases rest.len(),
{
    if rest.len() == 0 {
        Some(v)
    } else if rest[0] != '[' {
        None
    } else {
        match place_of(rest, ']') {
            Some(end) if 0 < end < rest.len() => match bounded_value(
                rest.subrange(1, end),
                usize::MAX as int,
            ) {
                Some(i) => match v.at(i as int) {
                    Some(item) => follow_indices(item, rest.skip(end + 1)),
                    None => None,
                },
                None => None,
            },
            _ => None,
        }
    }
}

/// Follows one segment of a path: a name, a number, or a name with indices behind it.
pub open spec fn follow_segment(v: JsonModel, segment: Seq<char>) -> Option<JsonModel> {
    let s = trim(segment);
    if s.len() == 0 {
        Some(v)
    } else {
        match place_of(s, '[') {
            Some(bracket) => {
                let base = if bracket == 0 {
                    Some(v)
                } else {
                    v.get(s.take(bracket))
                };
                match base {
                    Some(b) => follow_indices(b, s.skip(bracket)),
                    None => None,
                }
            },
            None => match bounded_value(s, usize::MAX as int) {
                Some(i) => v.at(i as int),
                None => v.get(s),
            },
        }
    }
}

pub open spec fn follow_segments(v: JsonModel, segments: Seq<Seq<char>>) -> Option<JsonModel>
    decreases segments.len(),
{
    if segments.len() == 0 {
        Some(v)
    } else {
        match follow_segment(v, segments[0]) {
            Some(next) => follow_segments(next, segments.drop_first()),
            None => None,
        }
    }
}

/// The value at a path such as `data[0].image`.
pub open spec fn value_at(v: JsonModel, path: Seq<char>) -> Option<JsonModel> {
    if trim(path).len() == 0 {
        None
    } else {
        follow_segments(v, split(trim(path), '.'))
    }
}

fn indices_from<'a>(value: &'a Json, rest: &str) -> (r: Option<&'a Json>)
    ensures
        opt_json(r) == follow_indices(value@, rest@),
{
    let mut current = value;
    let mut left = rest;
    loop
        invariant
            follow_indices(value@, rest@) == follow_indices(current@, left@),
        decreases left@.len(),
    {
        if left.is_empty() {
            return Some(current);
        }
        let n: usize = left.unicode_len();
        if left.get_char(0) != '[' {
            return None;
        }
        let end: usize = match place_of_char(left, ']') {
            Some(i) => i,
            None => {
                return None;
            },
        };
        if end == 0 {
            return None;
        }
        let digits = left.substring_char(1, end);
        let index: usize = match parse_usize(digits) {
            Some(i) => i,
            None => {
                return None;
            },
        };
        match current.at(index) {
            Some(item) => {
                current = item;
            },
            None => {
                return None;
            },
        }
        let next = left.substring_char(end + 1, n);
        assert(next@ =~= left@.skip(end + 1));
        left = next;
    }
}

fn segment_from<'a>(value: &'a Json, segment: &str) -> (r: Option<&'a Json>)
    ensures
        opt_json(r) == follow_segment(value@, segment@),
{
    let s = trim_str(segment);
    if s.is_empty() {
        return Some(value);
    }
    match place_of_char(s, '[') {
        Some(bracket) => {
            let n: usize = s.unicode_len();
            let rest = s.substring_char(bracket, n);
            assert(rest@ =~= s@.skip(bracket as int));
            if bracket == 0 {
                return indices_from(value, rest);
            }
            let key = s.substring_char(0, bracket);
            assert(key@ =~= s@.take(bracket as int));
            match value.get(key) {
                Some(base) => indices_from(base, rest),
                None => None,
            }
        },
        None => match parse_usize(s) {
            Some(i) => value.at(i),
            None => value.get(s),
        },
    }
}

/// Finds the value at a path such as `data[0].image`.
pub fn extract_by_path<'a>(value: &'a Json, path: &str) -> (r: Option<&'a Json>)
    ensures
        opt_json(r) == value_at(value@, path@),
{
    let trimmed = trim_str(path);
    if trimmed.is_empty() {
        return None;
    }
    let segments = split_str(trimmed, '.');
    let ghost all = views(segments@);
    let mut current = value;
    assert(all.skip(0) =~= all);
    for i in 0..segments.len()
        invariant
            all == views(segments@),
            value_at(value@, path@) == follow_segments(current@, all.skip(i as int)),
    {
        assert(all.skip(i as int)[0] == segments@[i as int]@);
        assert(all.skip(i as int).drop_first() =~= all.skip(i + 1));
        match segment_from(current, segments[i].as_str()) {
            Some(next) => {
                current = next;
            },
            None => {
                return None;
            },
        }
    }
    Some(current)
}

// ---------------------------------------------------------------------------
// Finding images in a reply
// ---------------------------------------------------------------------------

/// The image that a text stands for: a link, a data address, or else image data, which is taken
/// for such when it is longer than `min` bytes.
pub open spec fn image_of_text(s: Seq<char>, min: int) -> Option<ImageDataModel> {
    let t = trim(s);
    if t.len() == 0 {
        None
    } else if is_link(t) {
        Some(url_data(t))
    } else if starts_with(t, "data:"@) || byte_len(t) > min {
        Some(b64_data(t))
    } else {
        None
    }
}

pub open spec fn one_or_none(image: Option<ImageDataModel>) -> Seq<ImageDataModel> {
    match image {
        Some(d) => seq![d],
        None => Seq::empty(),
    }
}

/// The members that are looked into first, in this order.
pub open spec fn image_keys() -> Seq<Seq<char>> {
    seq![
        "image"@,
        "images"@,
        "b64_json"@,
        "base64"@,
        "data"@,
        "output"@,
        "result"@,
        "url"@,
        "urls"@,
        "generated_image"@,
        "generated_images"@,
    ]
}

/// The image that an object describes by its members `url`, `b64_json`, `base64` and `image`.
pub open spec fn described_image(members: Seq<(Seq<char>, JsonModel)>) -> Option<ImageDataModel> {
    let o = JsonModel::Object(members);
    if o.get("url"@) is None && o.get("b64_json"@) is None && o.get("base64"@) is None {
        None
    } else {
        let data = match either(either(o.get("b64_json"@), o.get("base64"@)), o.get("image"@)) {
            Some(v) => v.as_str(),
            None => None,
        };
        if o.get_str("url"@) is None && data is None {
            None
        } else {
            Some(ImageDataModel { url: o.get_str("url"@), b64_json: data, text: None })
        }
    }
}

/// All the images in a value. Of an object, the first member of `image_keys` that holds any; else
/// the one that it describes; else those of all its members.
pub open spec fn images_of(v: JsonModel) -> Seq<ImageDataModel>
    decreases v, 0nat,
{
    match v {
        JsonModel::Text(s) => one_or_none(image_of_text(s, 20)),
        JsonModel::Array(items) => images_of_items(items),
        JsonModel::Object(members) => {
            let first = images_of_first(members, image_keys());
            if first.len() > 0 {
                first
            } else {
                match described_image(members) {
                    Some(d) => seq![d],
                    None => images_of_members(members),
                }
            }
        },
        _ => Seq::empty(),
    }
}

pub open spec fn images_of_items(items: Seq<JsonModel>) -> Seq<ImageDataModel>
    decreases items, 0nat,
{
    if items.len() == 0 {
        Seq::empty()
    } else {
        images_of_items(items.drop_last()) + images_of(items.last())
    }
}

pub open spec fn images_of_members(members: Seq<(Seq<char>, JsonModel)>) -> Seq<ImageDataModel>
    decreases members, 0nat,
{
    if members.len() == 0 {
        Seq::empty()
    } else {
        images_of_members(members.drop_last()) + images_of(members.last().1)
    }
}

/// The images of the first member of a list that holds any.
pub open spec fn images_of_first(
    members: Seq<(Seq<char>, JsonModel)>,
    keys: Seq<Seq<char>>,
) -> Seq<ImageDataModel>
    decreases members, keys.len(),
{
    if keys.len() == 0 {
        Seq::empty()
    } else {
        let here = match member(members, keys[0]) {
            Some(v) => {
                proof {
                    lemma_member_at(members, keys[0]);
                }
                images_of(v)
            },
            None => Seq::empty(),
        };
        if here.len() > 0 {
            here
        } else {
            images_of_first(members, keys.drop_first())
        }
    }
}

fn push_text_image(s: &str, min: usize, out: &mut Vec<ImageResponseData>)
    ensures
        image_views(final(out)@) == image_views(old(out)@) + one_or_none(
            image_of_text(s@, min as int),
        ),
{
    broadcast use image_views_push;

    let ghost before = image_views(out@);
    let t = trim_str(s);
    if !t.is_empty() {
        if is_link_text(t) {
            out.push(image_at(t));
        } else if starts_with_str(t, "data:") || byte_len_str(t) > min {
            out.push(image_of_data(t));
        }
    }
    assert(image_views(out@) =~= before + one_or_none(image_of_text(s@, min as int)));
}

fn find_described_image(members: &Vec<(String, Json)>) -> (r: Option<ImageResponseData>)
    ensures
        match r {
            Some(d) => described_image(member_views(members@)) == Some(d@),
            None => described_image(member_views(members@)) is None,
        },
{
    let url = get_member(members, "url");
    let b64 = get_member(members, "b64_json");
    let base64 = get_member(members, "base64");
    if url.is_none() && b64.is_none() && base64.is_none() {
        return None;
    }
    let held = match b64 {
        Some(v) => Some(v),
        None => match base64 {
            Some(v) => Some(v),
            None => get_member(members, "image"),
        },
    };
    let link: Option<String> = match url {
        Some(v) => match v.as_str() {
            Some(s) => Some(s.to_string()),
            None => None,
        },
        None => None,
    };
    let data: Option<String> = match held {
        Some(v) => match v.as_str() {
            Some(s) => Some(s.to_string()),
            None => None,
        },
        None => None,
    };
    if link.is_none() && data.is_none() {
        None
    } else {
        Some(ImageResponseData { url: link, b64_json: data, text: None })
    }
}

fn image_key_list() -> (r: Vec<&'static str>)
    ensures
        strs(r@) == image_keys(),
{
    let keys = vec![
        "image",
        "images",
        "b64_json",
        "base64",
        "data",
        "output",
        "result",
        "url",
        "urls",
        "generated_image",
        "generated_images",
    ];
    assert(strs(keys@) =~= image_keys());
    keys
}

/// Appends the images of the first member of a list that holds any.
fn collect_first(
    members: &Vec<(String, Json)>,
    keys: &Vec<&str>,
    out: &mut Vec<ImageResponseData>,
) -> (r: bool)
    ensures
        image_views(final(out)@) == image_views(old(out)@) + images_of_first(
            member_views(members@),
            strs(keys@),
        ),
        r == (images_of_first(member_views(members@), strs(keys@)).len() > 0),
    decreases members, keys@.len(),
{
    let ghost before = image_views(out@);
    let ghost all = strs(keys@);
    let ghost pairs = member_views(members@);
    assert(all.skip(0) =~= all);
    for i in 0..keys.len()
        invariant
            all == strs(keys@),
            pairs == member_views(members@),
            image_views(out@) == before,
            before == image_views(old(out)@),
            images_of_first(pairs, all) == images_of_first(pairs, all.skip(i as int)),
    {
        assert(all.skip(i as int)[0] == keys@[i as int]@);
        assert(all.skip(i as int).drop_first() =~= all.skip(i + 1));
        if let Some(place) = place_of_member(members, keys[i]) {
            let count: usize = out.len();
            assert(decreases_to!(members => members@));
            assert(decreases_to!(members@ => members@[place as int]));
            assert(decreases_to!(members@[place as int] => members@[place as int].1));
            collect_images_from_value(&members[place].1, out);
            let ghost found = images_of(pairs[place as int].1);
            assert(image_views(out@).len() == before.len() + found.len());
            if out.len() > count {
                return true;
            }
            assert(before + found =~= before);
        }
    }
    assert(before + Seq::<ImageDataModel>::empty() =~= before);
    false
}

/// Appends all the images in a value.
pub fn collect_images_from_value(value: &Json, out: &mut Vec<ImageResponseData>)
    ensures
        image_views(final(out)@) == image_views(old(out)@) + images_of(value@),
    decreases value, 0nat,
{
    broadcast use {group_json_views, image_views_push};

    let ghost before = image_views(out@);
    match value {
        Json::Text(s) => push_text_image(s.as_str(), 20, out),
        Json::Array(items) => {
            let ghost all = json_views(items@);
            assert(before + images_of_items(all.take(0)) =~= before);
            for i in 0..items.len()
                invariant
                    *value == Json::Array(*items),
                    all == json_views(items@),
                    image_views(out@) == before + images_of_items(all.take(i as int)),
            {
                assert(decreases_to!(value => value->Array_0));
                assert(decreases_to!(items => items@));
                assert(decreases_to!(items@ => items@[i as int]));
                let ghost sofar = images_of_items(all.take(i as int));
                assert(all.take(i + 1).drop_last() =~= all.take(i as int));
                collect_images_from_value(&items[i], out);
                assert(image_views(out@) =~= before + (sofar + images_of(items@[i as int]@)));
            }
            assert(all.take(all.len() as int) =~= all);
        },
        Json::Object(members) => {
            let ghost pairs = member_views(members@);
            let keys = image_key_list();
            assert(decreases_to!(value => value->Object_0));
            if collect_first(members, &keys, out) {
                return;
            }
            assert(before + images_of_first(pairs, image_keys()) =~= before);
            if let Some(d) = find_described_image(members) {
                out.push(d);
                assert(image_views(out@) =~= before + seq![d@]);
                return;
            }
            assert(before + images_of_members(pairs.take(0)) =~= before);
            for i in 0..members.len()
                invariant
                    *value == Json::Object(*members),
                    pairs == member_views(members@),
                    image_views(out@) == before + images_of_members(pairs.take(i as int)),
            {
                assert(decreases_to!(value => value->Object_0));
                assert(decreases_to!(members => members@));
                assert(decreases_to!(members@ => members@[i as int]));
                assert(decreases_to!(members@[i as int] => members@[i as int].1));
                let ghost sofar = images_of_members(pairs.take(i as int));
                assert(pairs.take(i + 1).drop_last() =~= pairs.take(i as int));
                collect_images_from_value(&members[i].1, out);
                assert(image_views(out@) =~= before + (sofar + images_of(members@[i as int].1@)));
            }
            assert(pairs.take(pairs.len() as int) =~= pairs);
        },
        _ => {
            assert(before + Seq::<ImageDataModel>::empty() =~= before);
        },
    }
}

/// The images in a value that is known to hold images: any text that is not blank counts, alone
/// or in an array.
pub open spec fn loose_images(v: JsonModel) -> Seq<ImageDataModel>
    decreases v, 0nat,
{
    match v {
        JsonModel::Text(s) => one_or_none(image_of_text(s, 0)),
        JsonModel::Array(items) => loose_images_of_items(items),
        _ => Seq::empty(),
    }
}

pub open spec fn loose_images_of_items(items: Seq<JsonModel>) -> Seq<ImageDataModel>
    decreases items, 0nat,
{
    if items.len() == 0 {
        Seq::empty()
    } else {
        loose_images_of_items(items.drop_last()) + loose_images(items.last())
    }
}

fn collect_loose_images(value: &Json, out: &mut Vec<ImageResponseData>)
    ensures
        image_views(final(out)@) == image_views(old(out)@) + loose_images(value@),
    decreases value,
{
    broadcast use group_json_views;

    let ghost before = image_views(out@);
    match value {
        Json::Text(s) => push_text_image(s.as_str(), 0, out),
        Json::Array(items) => {
            let ghost all = json_views(items@);
            assert(before + loose_images_of_items(all.take(0)) =~= before);
            for i in 0..items.len()
                invariant
                    *value == Json::Array(*items),
                    all == json_views(items@),
                    image_views(out@) == before + loose_images_of_items(all.take(i as int)),
            {
                assert(decreases_to!(value => value->Array_0));
                assert(decreases_to!(items => items@));
                assert(decreases_to!(items@ => items@[i as int]));
                let ghost sofar = loose_images_of_items(all.take(i as int));
                assert(all.take(i + 1).drop_last() =~= all.take(i as int));
                collect_loose_images(&items[i], out);
                assert(image_views(out@) =~= before + (sofar + loose_images(items@[i as int]@)));
            }
            assert(all.take(all.len() as int) =~= all);
        },
        _ => {
            assert(before + Seq::<ImageDataModel>::empty() =~= before);
        },
    }
}

// ---------------------------------------------------------------------------
// Reading a reply
// ---------------------------------------------------------------------------

pub open spec fn field_keys() -> Seq<Seq<char>> {
    seq!["responseImageField"@, "responseField"@, "imageField"@, "outputField"@]
}

/// The members of a reply that are looked into, in this order.
pub open spec fn reply_keys() -> Seq<Seq<char>> {
    seq![
        "images"@,
        "image"@,
        "b64_json"@,
        "base64"@,
        "data"@,
        "output"@,
        "result"@,
        "url"@,
        "urls"@,
        "generated_images"@,
        "artifacts"@,
    ]
}

pub open spec fn members_of(v: JsonModel) -> Seq<(Seq<char>, JsonModel)> {
    match v {
        JsonModel::Object(members) => members,
        _ => Seq::empty(),
    }
}

pub open spec fn images_of_optional(v: Option<JsonModel>) -> Seq<ImageDataModel> {
    match v {
        Some(v) => images_of(v),
        None => Seq::empty(),
    }
}

pub open spec fn loose_images_of_optional(v: Option<JsonModel>) -> Seq<ImageDataModel> {
    match v {
        Some(v) => loose_images(v),
        None => Seq::empty(),
    }
}

pub open spec fn first_found(
    a: Seq<ImageDataModel>,
    b: Seq<ImageDataModel>,
) -> Seq<ImageDataModel> {
    if a.len() > 0 {
        a
    } else {
        b
    }
}

/// The images under the configured field: at that path, or else under that name.
pub open spec fn configured_images(response: JsonModel, field: Option<Seq<char>>) -> Seq<
    ImageDataModel,
> {
    match field {
        Some(f) => first_found(
            images_of_optional(value_at(response, f)),
            images_of_optional(response.get(f)),
        ),
        None => Seq::empty(),
    }
}

/// Any text under the configured field, which is said to hold images.
pub open spec fn configured_texts(response: JsonModel, field: Option<Seq<char>>) -> Seq<
    ImageDataModel,
> {
    match field {
        Some(f) => first_found(
            loose_images_of_optional(value_at(response, f)),
            loose_images_of_optional(response.get(f)),
        ),
        None => Seq::empty(),
    }
}

/// The texts of the list under `images`.
pub open spec fn listed_images(response: JsonModel) -> Seq<ImageDataModel> {
    match response.get_array("images"@) {
        Some(items) => loose_images_of_items(items),
        None => Seq::empty(),
    }
}

/// A reply in print, cut off after 800 bytes.
pub open spec fn shown(response: JsonModel) -> Seq<char> {
    let s = json_text(response);
    if byte_len(s) > 800 {
        beginning(s, 800, 0) + "... (truncated, "@ + decimal(byte_len(s)) + " chars)"@
    } else {
        s
    }
}

pub open spec fn key_list(response: JsonModel) -> Seq<char> {
    match response {
        JsonModel::Object(members) => join(
            members.map_values(|m: (Seq<char>, JsonModel)| m.0),
            ", "@,
        ),
        _ => "non-object"@,
    }
}

pub open spec fn no_image_message(response: JsonModel) -> Seq<char> {
    "Generic response did not contain any image data (response keys: "@ + key_list(response)
        + "). Provide responseImageField in provider config if the image is under a custom field. Full response: "@
        + shown(response)
}

/// The images of a reply: those of the configured field; else the reply itself where it is a
/// text; else, unless the reply names an error, those of the usual members, or of the whole
/// reply. Where nothing looks like an image, any text of the configured field counts, or else of
/// the list under `images`.
pub open spec fn reply_images(response: JsonModel, config: Option<JsonModel>) -> Result<
    Seq<ImageDataModel>,
    Seq<char>,
> {
    let field = first_setting(config, field_keys());
    let configured = configured_images(response, field);
    if configured.len() > 0 {
        Ok(configured)
    } else if response is Text && images_of(response).len() > 0 {
        Ok(images_of(response))
    } else {
        match opt_present(response.get_str("error"@)) {
            Some(e) => Err("Provider error: "@ + e),
            None => {
                let found = first_found(
                    images_of_first(members_of(response), reply_keys()),
                    first_found(
                        images_of(response),
                        first_found(configured_texts(response, field), listed_images(response)),
                    ),
                );
                if found.len() > 0 {
                    Ok(found)
                } else {
                    Err(no_image_message(response))
                }
            },
        }
    }
}

fn truncate_response(response: &Json) -> (r: String)
    ensures
        r@ == shown(response@),
{
    let s = print(response);
    let n: usize = byte_len_str(s.as_str());
    if n > 800 {
        let mut out = cut_off(s.as_str(), 800);
        out.append("... (truncated, ");
        out.append(decimal_u64(n as u64).as_str());
        out.append(" chars)");
        out
    } else {
        s
    }
}

fn response_keys(response: &Json) -> (r: String)
    ensures
        r@ == key_list(response@),
{
    match response.as_object() {
        Some(members) => {
            let mut names: Vec<String> = Vec::new();
            let ghost all = member_views(members@).map_values(|m: (Seq<char>, JsonModel)| m.0);
            for i in 0..members.len()
                invariant
                    all == member_views(members@).map_values(|m: (Seq<char>, JsonModel)| m.0),
                    views(names@) == all.take(i as int),
            {
                broadcast use views_push;

                names.push(members[i].0.clone());
                assert(all[i as int] == members@[i as int].0@);
                assert(all.take(i + 1) =~= all.take(i as int).push(all[i as int]));
            }
            assert(all.take(all.len() as int) =~= all);
            join_strs(&names, ", ")
        },
        None => "non-object".to_string(),
    }
}

fn collect_configured(response: &Json, field: &str, out: &mut Vec<ImageResponseData>)
    requires
        old(out)@.len() == 0,
    ensures
        image_views(final(out)@) == configured_images(response@, Some(field@)),
{
    assert(image_views(out@) =~= Seq::empty());
    if let Some(v) = extract_by_path(response, field) {
        collect_images_from_value(v, out);
        assert(image_views(out@) =~= images_of(v@));
    }
    if out.len() == 0 {
        assert(image_views(out@) =~= Seq::empty());
        if let Some(v) = response.get(field) {
            collect_images_from_value(v, out);
            assert(image_views(out@) =~= images_of(v@));
        }
    }
}

fn collect_configured_texts(response: &Json, field: &str, out: &mut Vec<ImageResponseData>)
    requires
        old(out)@.len() == 0,
    ensures
        image_views(final(out)@) == configured_texts(response@, Some(field@)),
{
    assert(image_views(out@) =~= Seq::empty());
    if let Some(v) = extract_by_path(response, field) {
        collect_loose_images(v, out);
        assert(image_views(out@) =~= loose_images(v@));
    }
    if out.len() == 0 {
        assert(image_views(out@) =~= Seq::empty());
        if let Some(v) = response.get(field) {
            collect_loose_images(v, out);
            assert(image_views(out@) =~= loose_images(v@));
        }
    }
}

fn collect_listed(response: &Json, out: &mut Vec<ImageResponseData>)
    requires
        old(out)@.len() == 0,
    ensures
        image_views(final(out)@) == listed_images(response@),
{
    broadcast use group_json_views;

    assert(image_views(out@) =~= Seq::empty());
    if let Some(v) = response.get("images") {
        if v.as_array().is_some() {
            collect_loose_images(v, out);
            assert(image_views(out@) =~= loose_images(v@));
        }
    }
}

fn parse_images(response: &Json, config: Option<&Json>) -> (r: Result<
    Vec<ImageResponseData>,
    String,
>)
    ensures
        images_view(r) == reply_images(response@, opt_json(config)),
{
    let keys = vec!["responseImageField", "responseField", "imageField", "outputField"];
    assert(strs(keys@) =~= field_keys());
    let field = config_string(config, &keys);
    let mut out: Vec<ImageResponseData> = Vec::new();
    if let Some(f) = field {
        collect_configured(response, f, &mut out);
        if out.len() > 0 {
            return Ok(out);
        }
    }
    assert(image_views(out@) =~= Seq::empty());
    if let Json::Text(_) = response {
        collect_images_from_value(response, &mut out);
        assert(image_views(out@) =~= images_of(response@));
        if out.len() > 0 {
            return Ok(out);
        }
    }
    if let Some(s) = response.get_str("error") {
        if let Some(e) = present_str(s) {
            let mut message = "Provider error: ".to_string();
            message.append(e);
            return Err(message);
        }
    }
    assert(image_views(out@) =~= Seq::empty());
    if let Some(members) = response.as_object() {
        let keys = vec![
            "images",
            "image",
            "b64_json",
            "base64",
            "data",
            "output",
            "result",
            "url",
            "urls",
            "generated_images",
            "artifacts",
        ];
        assert(strs(keys@) =~= reply_keys());
        if collect_first(members, &keys, &mut out) {
            assert(image_views(out@) =~= images_of_first(members_of(response@), reply_keys()));
            return Ok(out);
        }
    } else {
        proof {
            lemma_images_of_no_members(reply_keys());
        }
    }
    assert(image_views(out@) =~= Seq::empty());
    collect_images_from_value(response, &mut out);
    assert(image_views(out@) =~= images_of(response@));
    if out.len() == 0 {
        if let Some(f) = field {
            collect_configured_texts(response, f, &mut out);
        }
    }
    if out.len() == 0 {
        assert(image_views(out@) =~= Seq::empty());
        collect_listed(response, &mut out);
    }
    if out.len() > 0 {
        return Ok(out);
    }
    let mut message =
        "Generic response did not contain any image data (response keys: ".to_string();
    message.append(response_keys(response).as_str());
    message.append(
        "). Provide responseImageField in provider config if the image is under a custom field. Full response: ",
    );
    message.append(truncate_response(response).as_str());
    Err(message)
}

proof fn lemma_images_of_no_members(keys: Seq<Seq<char>>)
    ensures
        images_of_first(Seq::empty(), keys) == Seq::<ImageDataModel>::empty(),
    decreases keys.len(),
{
    if keys.len() > 0 {
        lemma_images_of_no_members(keys.drop_first());
    }
}

// ---------------------------------------------------------------------------
// Header fields
// ---------------------------------------------------------------------------

/// The environment variables that may hold a key, in the order in which they are asked.
pub open spec fn key_variables() -> Seq<Seq<char>> {
    seq![
        "IMAGE_API_KEY"@,
        "GENERIC_IMAGE_API_KEY"@,
        "HF_API_KEY"@,
        "HF_TOKEN"@,
        "HUGGINGFACE_API_KEY"@,
    ]
}

pub fn env_api_key_names() -> (r: Vec<&'static str>)
    ensures
        strs(r@) == key_variables(),
{
    let names = vec![
        "IMAGE_API_KEY",
        "GENERIC_IMAGE_API_KEY",
        "HF_API_KEY",
        "HF_TOKEN",
        "HUGGINGFACE_API_KEY",
    ];
    assert(strs(names@) =~= key_variables());
    names
}

/// The key that a request goes by: the user's, else that of the environment, else that of the
/// provider's settings.
pub open spec fn key_in_use(
    api_key: Seq<char>,
    env_key: Option<Seq<char>>,
    config: Option<JsonModel>,
) -> Seq<char> {
    match either(
        present(api_key),
        either(env_key, first_setting(config, seq!["apiKey"@, "api_key"@])),
    ) {
        Some(s) => s,
        None => Seq::empty(),
    }
}

pub fn effective_api_key(api_key: &str, env_key: Option<&str>, config: Option<&Json>) -> (r: String)
    ensures
        r@ == key_in_use(api_key@, opt_str_view(env_key), opt_json(config)),
{
    if let Some(s) = present_str(api_key) {
        return s.to_string();
    }
    if let Some(s) = env_key {
        return s.to_string();
    }
    let keys = vec!["apiKey", "api_key"];
    assert(strs(keys@) =~= seq!["apiKey"@, "api_key"@]);
    match config_string(config, &keys) {
        Some(s) => s.to_string(),
        None => String::new(),
    }
}

pub open spec fn auth_type(config: Option<JsonModel>) -> Seq<char> {
    match either(setting(config, "authType"@), setting(config, "auth_type"@)) {
        Some(s) => lower_ascii(s),
        None => "none"@,
    }
}

pub open spec fn is_bearer(t: Seq<char>) -> bool {
    t == "bearer"@ || t == "bearer_token"@ || t == "token"@
}

pub open spec fn is_api_key(t: Seq<char>) -> bool {
    t == "apikey"@ || t == "api_key"@ || t == "api-key"@ || t == "x-api-key"@
}

pub open spec fn is_custom(t: Seq<char>) -> bool {
    t == "custom"@ || t == "custom_header"@
}

pub open spec fn named_header(
    config: Option<JsonModel>,
    keys: Seq<Seq<char>>,
    default_name: Seq<char>,
) -> Seq<char> {
    match first_setting(config, keys) {
        Some(s) => s,
        None => default_name,
    }
}

/// The fields with the key in the place where the provider's `authType` wants it.
pub open spec fn with_auth(
    fields: Map<Seq<char>, Seq<char>>,
    key: Seq<char>,
    config: Option<JsonModel>,
) -> Map<Seq<char>, Seq<char>> {
    let t = auth_type(config);
    let bearer = "Bearer "@ + key;
    if is_bearer(t) {
        if key.len() > 0 {
            fields.insert("Authorization"@, bearer)
        } else {
            fields
        }
    } else if is_api_key(t) {
        if key.len() > 0 {
            fields.insert(
                named_header(
                    config,
                    seq!["authHeaderName"@, "auth_header_name"@, "apiKeyHeader"@],
                    "x-api-key"@,
                ),
                key,
            )
        } else {
            fields
        }
    } else if is_custom(t) {
        let custom = with_texts(fields, setting_members(config, "customHeaders"@));
        match first_setting(config, seq!["authHeaderName"@, "customHeaderName"@]) {
            Some(name) => if key.len() > 0 && !custom.dom().contains(name) {
                custom.insert(name, key)
            } else {
                custom
            },
            None => custom,
        }
    } else if t == "header"@ {
        let name = named_header(
            config,
            seq!["authHeaderName"@, "headerName"@],
            "Authorization"@,
        );
        if key.len() == 0 {
            fields
        } else if lower_ascii(name) == lower_ascii("authorization"@) && !starts_with(
            lower_ascii(key),
            "bearer "@,
        ) {
            fields.insert(name, bearer)
        } else {
            fields.insert(name, key)
        }
    } else {
        let refused = match setting(config, "authType"@) {
            Some(s) => lower_ascii(s) == lower_ascii("none"@),
            None => false,
        };
        if key.len() > 0 && !refused {
            fields.insert("Authorization"@, bearer)
        } else {
            fields
        }
    }
}

pub open spec fn plain_fields() -> Map<Seq<char>, Seq<char>> {
    Map::empty().insert("Content-Type"@, "application/json"@)
}

/// The header fields of a configured request: what is sent and accepted, the key, the fields of
/// the settings, and the fields of the caller over all of these.
pub open spec fn request_fields(
    key: Seq<char>,
    extra: Option<&TextMap>,
    config: Option<JsonModel>,
) -> Map<Seq<char>, Seq<char>> {
    let base = plain_fields().insert("Accept"@, "application/json"@);
    overridden(
        with_texts(with_auth(base, key, config), setting_members(config, "headers"@)),
        extra,
    )
}

fn insert_auth(headers: &mut TextMap, key: &str, config: Option<&Json>)
    ensures
        final(headers)@ == with_auth(old(headers)@, key@, opt_json(config)),
{
    let asked = match config_str(config, "authType") {
        Some(s) => Some(s),
        None => config_str(config, "auth_type"),
    };
    let kind = match asked {
        Some(s) => lower_ascii_str(s),
        None => "none".to_string(),
    };
    let t = kind.as_str();
    if same(t, "bearer") || same(t, "bearer_token") || same(t, "token") {
        if !key.is_empty() {
            insert_bearer(headers, "Authorization", key);
        }
    } else if same(t, "apikey") || same(t, "api_key") || same(t, "api-key") || same(
        t,
        "x-api-key",
    ) {
        let keys = vec!["authHeaderName", "auth_header_name", "apiKeyHeader"];
        assert(strs(keys@) =~= seq!["authHeaderName"@, "auth_header_name"@, "apiKeyHeader"@]);
        let name = match config_string(config, &keys) {
            Some(s) => s,
            None => "x-api-key",
        };
        if !key.is_empty() {
            headers.insert(name, key);
        }
    } else if same(t, "custom") || same(t, "custom_header") {
        insert_texts(headers, config, "customHeaders");
        let keys = vec!["authHeaderName", "customHeaderName"];
        assert(strs(keys@) =~= seq!["authHeaderName"@, "customHeaderName"@]);
        if let Some(name) = config_string(config, &keys) {
            if !key.is_empty() && !headers.contains_key(name) {
                headers.insert(name, key);
            }
        }
    } else if same(t, "header") {
        let keys = vec!["authHeaderName", "headerName"];
        assert(strs(keys@) =~= seq!["authHeaderName"@, "headerName"@]);
        let name = match config_string(config, &keys) {
            Some(s) => s,
            None => "Authorization",
        };
        if !key.is_empty() {
            if same_ignoring_case(name, "authorization") && !starts_with_str(
                lower_ascii_str(key).as_str(),
                "bearer ",
            ) {
                insert_bearer(headers, name, key);
            } else {
                headers.insert(name, key);
            }
        }
    } else {
        let refused = match config_str(config, "authType") {
            Some(s) => same_ignoring_case(s, "none"),
            None => false,
        };
        if !key.is_empty() && !refused {
            insert_bearer(headers, "Authorization", key);
        }
    }
}

// ---------------------------------------------------------------------------
// The adapter
// ---------------------------------------------------------------------------

pub open spec fn json_payload(r: Result<JsonModel, Seq<char>>) -> Result<PayloadModel, Seq<char>> {
    match r {
        Ok(j) => Ok(PayloadModel::Json(j)),
        Err(e) => Err(e),
    }
}

/// Whether a setting asks for the bytes of an image.
pub open spec fn asks_for_bytes(config: Option<JsonModel>) -> bool {
    match either(setting(config, "responseFormat"@), setting(config, "response_format"@)) {
        Some(s) => lower_ascii(s) == "binary"@ || lower_ascii(s) == "image"@ || lower_ascii(s)
            == "bytes"@,
        None => false,
    }
}

impl ImageProviderAdapter for GenericHttpAdapter {
    open spec fn endpoint_text(&self, base_url: Seq<char>) -> Seq<char> {
        endpoint_of(base_url, None)
    }

    open spec fn configured_endpoint(&self, base_url: Seq<char>, config: Option<JsonModel>) -> Seq<
        char,
    > {
        endpoint_of(base_url, config)
    }

    open spec fn header_fields(&self, api_key: Seq<char>, extra: Option<&TextMap>) -> Map<
        Seq<char>,
        Seq<char>,
    > {
        overridden(plain_fields(), extra)
    }

    open spec fn configured_headers(
        &self,
        api_key: Seq<char>,
        env_key: Option<Seq<char>>,
        extra: Option<&TextMap>,
        config: Option<JsonModel>,
    ) -> Map<Seq<char>, Seq<char>> {
        request_fields(key_in_use(api_key, env_key, config), extra, config)
    }

    open spec fn can_ask(&self, request: ImageGenerationRequest) -> bool {
        true
    }

    open spec fn body(&self, request: ImageGenerationRequest) -> Result<PayloadModel, Seq<char>> {
        Ok(PayloadModel::Json(default_body(request)))
    }

    open spec fn configured_body(
        &self,
        request: ImageGenerationRequest,
        config: Option<JsonModel>,
    ) -> Result<PayloadModel, Seq<char>> {
        json_payload(request_body(request, config))
    }

    open spec fn images_in(&self, response: JsonModel) -> Result<Seq<ImageDataModel>, Seq<char>> {
        reply_images(response, None)
    }

    open spec fn configured_images_in(
        &self,
        response: JsonModel,
        config: Option<JsonModel>,
    ) -> Result<Seq<ImageDataModel>, Seq<char>> {
        reply_images(response, config)
    }

    fn endpoint(&self, base_url: &str, _request: &ImageGenerationRequest) -> (r: String) {
        build_endpoint(base_url, None)
    }

    fn endpoint_with_config(
        &self,
        base_url: &str,
        _request: &ImageGenerationRequest,
        config: Option<&Json>,
    ) -> (r: String) {
        build_endpoint(base_url, config)
    }

    fn required_auth_headers(&self) -> (r: Vec<&'static str>)
        ensures
            r@.len() == 0,
    {
        Vec::new()
    }

    fn requires_api_key(&self) -> (r: bool)
        ensures
            !r,
    {
        false
    }

    fn headers(&self, _api_key: &str, extra: Option<&TextMap>) -> (r: TextMap) {
        let mut headers = TextMap::new();
        headers.insert("Content-Type", "application/json");
        insert_extra(&mut headers, extra);
        headers
    }

    fn headers_with_config(
        &self,
        api_key: &str,
        env_key: Option<&str>,
        extra: Option<&TextMap>,
        config: Option<&Json>,
    ) -> (r: TextMap) {
        let key = effective_api_key(api_key, env_key, config);
        let mut headers = TextMap::new();
        headers.insert("Content-Type", "application/json");
        headers.insert("Accept", "application/json");
        insert_auth(&mut headers, key.as_str(), config);
        insert_texts(&mut headers, config, "headers");
        insert_extra(&mut headers, extra);
        headers
    }

    fn payload(&self, request: &ImageGenerationRequest) -> (r: Result<
        ImageRequestPayload,
        String,
    >) {
        Ok(ImageRequestPayload::Json(build_default_payload(request)))
    }

    fn payload_with_config(&self, request: &ImageGenerationRequest, config: Option<&Json>) -> (r:
        Result<ImageRequestPayload, String>) {
        match build_payload(request, config) {
            Ok(j) => Ok(ImageRequestPayload::Json(j)),
            Err(e) => Err(e),
        }
    }

    fn parse_response(&self, response: &Json) -> (r: Result<Vec<ImageResponseData>, String>) {
        parse_images(response, None)
    }

    fn parse_response_with_config(&self, response: &Json, config: Option<&Json>) -> (r: Result<
        Vec<ImageResponseData>,
        String,
    >) {
        parse_images(response, config)
    }

    fn response_format(&self) -> (r: ImageResponseFormat)
        ensures
            r == ImageResponseFormat::Json,
    {
        ImageResponseFormat::Json
    }

    fn response_format_with_config(&self, config: Option<&Json>) -> (r: ImageResponseFormat)
        ensures
            r == (if asks_for_bytes(opt_json(config)) {
                ImageResponseFormat::Binary
            } else {
                ImageResponseFormat::Json
            }),
    {
        let asked = match config_str(config, "responseFormat") {
            Some(s) => Some(s),
            None => config_str(config, "response_format"),
        };
        if let Some(s) = asked {
            let format = lower_ascii_str(s);
            let t = format.as_str();
            if same(t, "binary") || same(t, "image") || same(t, "bytes") {
                return ImageResponseFormat::Binary;
            }
        }
        ImageResponseFormat::Json
    }

    fn timeout(&self, config: Option<&Json>) -> (r: u64)
        ensures
            r == bounded_timeout(
                first_number(
                    opt_json(config),
                    seq!["timeoutSeconds"@, "timeout_seconds"@, "timeout"@],
                ),
            ),
    {
        let keys = vec!["timeoutSeconds", "timeout_seconds", "timeout"];
        assert(strs(keys@) =~= seq!["timeoutSeconds"@, "timeout_seconds"@, "timeout"@]);
        clamp_timeout(config_number(config, &keys))
    }
}

// ---------------------------------------------------------------------------
// Laws
// ---------------------------------------------------------------------------

/// A header field that the caller sets is sent as the caller sets it.
pub proof fn law_caller_fields_win(
    key: Seq<char>,
    extra: &TextMap,
    config: Option<JsonModel>,
    name: Seq<char>,
)
    requires
        extra@.dom().contains(name),
    ensures
        request_fields(key, Some(extra), config).dom().contains(name),
        request_fields(key, Some(extra), config)[name] == extra@[name],
{
}

/// Where the settings say that no key is wanted, none is sent: the header fields are the same
/// whatever the key.
pub proof fn law_no_key_without_auth(
    key: Seq<char>,
    other: Seq<char>,
    extra: Option<&TextMap>,
    config: Option<JsonModel>,
)
    requires
        setting(config, "authType"@) is Some,
        lower_ascii(setting(config, "authType"@)->0) == "none"@,
    ensures
        request_fields(key, extra, config) == request_fields(other, extra, config),
{
    reveal_strlit("none");
    reveal_strlit("bearer");
    reveal_strlit("bearer_token");
    reveal_strlit("token");
    reveal_strlit("apikey");
    reveal_strlit("api_key");
    reveal_strlit("api-key");
    reveal_strlit("x-api-key");
    reveal_strlit("custom");
    reveal_strlit("custom_header");
    reveal_strlit("header");
    assert("none"@.len() == 4);
    assert(lower_ascii("none"@) =~= "none"@);
}

/// The request body names the prompt and the model of the request, so that a change of either
/// shows in it.
pub proof fn law_body_names_prompt_and_model(request: ImageGenerationRequest)
    ensures
        default_body(request).get("prompt"@) == Some(JsonModel::Text(request.prompt@)),
        default_body(request).get("model"@) == Some(JsonModel::Text(request.model@)),
{
    reveal_strlit("prompt");
    reveal_strlit("negative_prompt");
    reveal_strlit("model");
    reveal_with_fuel(member, 4);
    let members = default_body(request)->Object_0;
    assert(members[0] == ("prompt"@, JsonModel::Text(request.prompt@)));
    assert("prompt"@.len() == 6 && "negative_prompt"@.len() == 15 && "model"@.len() == 5);
    let rest = members.drop_first();
    if request_negative(request).len() > 0 {
        assert(members[1].0 == "negative_prompt"@);
        assert(members[2] == ("model"@, JsonModel::Text(request.model@)));
        assert(rest.drop_first()[0] == members[2]);
    } else {
        assert(members[1] == ("model"@, JsonModel::Text(request.model@)));
    }
    assert(rest[0] == members[1]);
}

/// A reply that is accepted has an image.
pub proof fn law_reply_has_images(response: JsonModel, config: Option<JsonModel>)
    ensures
        reply_images(response, config) matches Ok(images) ==> images.len() > 0,
{
}

// ---------------------------------------------------------------------------
// What a request says and a reply holds
// ---------------------------------------------------------------------------

proof fn lemma_holds_part(
    a: Seq<(Seq<char>, JsonModel)>,
    b: Seq<(Seq<char>, JsonModel)>,
    m: (Seq<char>, JsonModel),
)
    ensures
        a.contains(m) || b.contains(m) ==> (a + b).contains(m),
{
    if a.contains(m) {
        let i = choose|i: int| 0 <= i < a.len() && a[i] == m;
        assert((a + b)[i] == m);
    } else if b.contains(m) {
        let i = choose|i: int| 0 <= i < b.len() && b[i] == m;
        assert((a + b)[a.len() + i] == m);
    }
}

/// The request body tells the endpoint every parameter that the request sets: prompt, model, size,
/// steps, guidance scale and the number of images in any case; what is to be avoided, the seed, the
/// input images and the mask where there are any.
pub proof fn law_body_says_it_all(request: ImageGenerationRequest, m: (Seq<char>, JsonModel))
    requires
        ({
            let size = request_size(request);
            ||| m == ("prompt"@, JsonModel::Text(request.prompt@))
            ||| m == ("inputs"@, JsonModel::Text(request.prompt@))
            ||| m == ("model"@, JsonModel::Text(request.model@))
            ||| m == ("width"@, number(size.0))
            ||| m == ("height"@, number(size.1))
            ||| m == ("steps"@, number(request_steps(request) as nat))
            ||| m == ("cfg_scale"@, fraction_value(request_cfg(request)))
            ||| m == ("guidance_scale"@, fraction_value(request_cfg(request)))
            ||| m == ("n"@, number(request_count(request) as nat))
            ||| m == ("num_images"@, number(request_count(request) as nat))
            ||| request_negative(request).len() > 0 && m == (
                "negative_prompt"@,
                JsonModel::Text(request_negative(request)),
            )
            ||| request_seed(request) != -1 && m == (
                "seed"@,
                int_model(request_seed(request) as int),
            )
            ||| request.input_images matches Some(images) && images@.len() > 0 && (m == (
                "images"@,
                text_array(views(images@)),
            ) || m == ("image"@, JsonModel::Text(images@[0]@)))
            ||| request.mask_image matches Some(mask) && trim(mask@).len() > 0 && m == (
                "mask"@,
                JsonModel::Text(trim(mask@)),
            )
        }),
    ensures
        default_body(request) matches JsonModel::Object(members) && members.contains(m),
{
    let size = request_size(request);
    let steps = number(request_steps(request) as nat);
    let cfg = fraction_value(request_cfg(request));
    let count = number(request_count(request) as nat);
    let negative = request_negative(request);
    let a = seq![("prompt"@, JsonModel::Text(request.prompt@))];
    let b = optional_members(
        negative.len() > 0,
        seq![("negative_prompt"@, JsonModel::Text(negative))],
    );
    let c = seq![
        ("model"@, JsonModel::Text(request.model@)),
        ("width"@, number(size.0)),
        ("height"@, number(size.1)),
        ("steps"@, steps),
        ("cfg_scale"@, cfg),
        ("cfgScale"@, cfg),
        ("guidance_scale"@, cfg),
    ];
    let d = optional_members(
        request_seed(request) != -1,
        seq![("seed"@, int_model(request_seed(request) as int))],
    );
    let e = seq![("n"@, count), ("num_images"@, count), ("batch_size"@, count)];
    let f = image_members(request);
    let g = mask_members(request);
    let members = default_body(request)->Object_0;
    let h = members.skip((a + b + c + d + e + f + g).len() as int);
    assert(members =~= a + b + c + d + e + f + g + h);
    lemma_holds_part(a, b, m);
    lemma_holds_part(a + b, c, m);
    lemma_holds_part(a + b + c, d, m);
    lemma_holds_part(a + b + c + d, e, m);
    lemma_holds_part(a + b + c + d + e, f, m);
    lemma_holds_part(a + b + c + d + e + f, g, m);
    lemma_holds_part(a + b + c + d + e + f + g, h, m);
    assert(a[0] == a[0]);
    assert(h[0] == ("inputs"@, JsonModel::Text(request.prompt@)));
    assert(a.contains(a[0]));
    assert(c.contains(c[0]) && c.contains(c[1]) && c.contains(c[2]) && c.contains(c[3])
        && c.contains(c[4]) && c.contains(c[6]));
    assert(e.contains(e[0]) && e.contains(e[1]));
    assert(h.contains(h[0]));
    if negative.len() > 0 {
        assert(b.contains(b[0]));
    }
    if request_seed(request) != -1 {
        assert(d.contains(d[0]));
    }
    if f.len() > 0 {
        assert(f.contains(f[0]) && f.contains(f[2]));
    }
    if g.len() > 0 {
        assert(g.contains(g[0]));
    }
}

/// A request body is the default one unless a template is set.
pub proof fn law_template_decides(request: ImageGenerationRequest, config: Option<JsonModel>)
    ensures
        config is None ==> request_body(request, config) == Ok::<JsonModel, Seq<char>>(
            default_body(request),
        ),
        config matches Some(c) ==> (c.get("requestTemplate"@) is None && c.get(
            "request_template"@,
        ) is None ==> request_body(request, config) == Ok::<JsonModel, Seq<char>>(
            default_body(request),
        )),
        config matches Some(c) ==> (c.get_str("requestTemplate"@) matches Some(t) ==> trim(t).len()
            > 0 ==> match json_parse(rendered(trim(t), request)) {
            Ok(v) => request_body(request, config) == Ok::<JsonModel, Seq<char>>(v),
            Err(_) => request_body(request, config) is Err,
        }),
{
}

/// An endpoint is the base address without slashes at its end, and behind it the path that is set,
/// with a slash before it, unless the address holds it already.
pub proof fn law_endpoint(base_url: Seq<char>, c: JsonModel)
    ensures
        endpoint_of(base_url, None) == trim_end_of(base_url, '/'),
        c.get_str("endpointPath"@) matches Some(p) ==> {
            let path = if starts_with(trim(p), "/"@) {
                trim(p)
            } else {
                "/"@ + trim(p)
            };
            let base = trim_end_of(base_url, '/');
            trim(p).len() > 0 && base.len() > 0 ==> endpoint_of(base_url, Some(c)) == (if contains(
                base,
                path,
            ) {
                base
            } else {
                base + path
            })
        },
{
    reveal_with_fuel(first_setting, 5);
}

/// A text is an image where it is a link, a data address, or longer than twenty bytes; white space
/// around it does not count. A link is kept as one, anything else as data.
pub proof fn law_text_image(s: Seq<char>)
    ensures
        ({
            let t = trim(s);
            let images = images_of(JsonModel::Text(s));
            &&& starts_with(t, "http://"@) || starts_with(t, "https://"@) ==> images.len() == 1
                && images[0] == (ImageDataModel { url: Some(t), b64_json: None, text: None })
            &&& !(starts_with(t, "http://"@) || starts_with(t, "https://"@)) && t.len() > 0 && (
            starts_with(t, "data:"@) || byte_len(t) > 20) ==> images.len() == 1 && images[0] == (
            ImageDataModel { url: None, b64_json: Some(t), text: None })
            &&& !(starts_with(t, "http://"@) || starts_with(t, "https://"@)) && !starts_with(
                t,
                "data:"@,
            ) && byte_len(t) <= 20 ==> images.len() == 0
        }),
{
    reveal_strlit("http://");
    reveal_strlit("https://");
}

/// The images of a list are those of its items, one after the other; numbers, flags and nothing hold
/// none.
pub proof fn law_list_images(a: Seq<JsonModel>, b: Seq<JsonModel>, v: JsonModel)
    ensures
        images_of(JsonModel::Array(a + b)) == images_of(JsonModel::Array(a)) + images_of(
            JsonModel::Array(b),
        ),
        images_of(JsonModel::Array(seq![v])) == images_of(v),
        images_of(JsonModel::Null).len() == 0,
        v is Number || v is Bool ==> images_of(v).len() == 0,
{
    lemma_items_add(a, b);
    reveal_with_fuel(images_of_items, 2);
    assert(seq![v].drop_last() =~= Seq::empty());
    assert(images_of_items(seq![v]) =~= images_of(v));
}

proof fn lemma_items_add(a: Seq<JsonModel>, b: Seq<JsonModel>)
    ensures
        images_of_items(a + b) == images_of_items(a) + images_of_items(b),
    decreases b.len(),
{
    if b.len() == 0 {
        assert(a + b =~= a);
        assert(images_of_items(a) + images_of_items(b) =~= images_of_items(a));
    } else {
        lemma_items_add(a, b.drop_last());
        assert((a + b).drop_last() =~= a + b.drop_last());
        assert((a + b).last() == b.last());
        assert(images_of_items(a + b) =~= images_of_items(a) + images_of_items(b));
    }
}

proof fn lemma_first_images(members: Seq<(Seq<char>, JsonModel)>, keys: Seq<Seq<char>>, i: int)
    requires
        0 <= i < keys.len(),
        forall|j: int|
            0 <= j < i ==> (member(members, #[trigger] keys[j]) matches Some(v) ==> images_of(v).len()
                == 0),
        member(members, keys[i]) matches Some(v) && images_of(v).len() > 0,
    ensures
        images_of_first(members, keys) == images_of(member(members, keys[i])->0),
    decreases keys.len(),
{
    if i > 0 {
        let rest = keys.drop_first();
        assert forall|j: int| 0 <= j < i - 1 implies (member(members, #[trigger] rest[j]) matches Some(
            v,
        ) ==> images_of(v).len() == 0) by {
            assert(rest[j] == keys[j + 1]);
        }
        assert(member(members, keys[0]) matches Some(v) ==> images_of(v).len() == 0);
        lemma_first_images(members, rest, i - 1);
    }
}

/// Of an object the first of the usual members that holds images counts, in this order.
pub proof fn law_object_images(members: Seq<(Seq<char>, JsonModel)>, i: int)
    requires
        0 <= i < 11,
        ({
            let keys = seq!["image"@, "images"@, "b64_json"@, "base64"@, "data"@, "output"@, "result"@, "url"@, "urls"@, "generated_image"@, "generated_images"@];
            &&& forall|j: int|
                0 <= j < i ==> (member(members, #[trigger] keys[j]) matches Some(v) ==> images_of(
                    v,
                ).len() == 0)
            &&& member(members, keys[i]) matches Some(v) && images_of(v).len() > 0
        }),
    ensures
        ({
            let keys = seq!["image"@, "images"@, "b64_json"@, "base64"@, "data"@, "output"@, "result"@, "url"@, "urls"@, "generated_image"@, "generated_images"@];
            images_of(JsonModel::Object(members)) == images_of(member(members, keys[i])->0)
        }),
{
    lemma_first_images(members, image_keys(), i);
}

/// What a reply holds under the configured path counts first, even where the reply names an error.
pub proof fn law_configured_field_counts(response: JsonModel, c: JsonModel, path: Seq<char>)
    requires
        c.get_str("responseImageField"@) == Some(path),
        trim(path).len() > 0,
        value_at(response, trim(path)) matches Some(v) && images_of(v).len() > 0,
    ensures
        reply_images(response, Some(c)) == Ok::<Seq<ImageDataModel>, Seq<char>>(
            images_of(value_at(response, trim(path))->0),
        ),
{
    reveal_with_fuel(first_setting, 5);
}

/// A reply that names an error is refused with that error, unless the configured field holds an image.
pub proof fn law_named_error_is_told(response: JsonModel, error: Seq<char>)
    requires
        response.get_str("error"@) == Some(error),
        trim(error).len() > 0,
    ensures
        reply_images(response, None) == Err::<Seq<ImageDataModel>, Seq<char>>(
            "Provider error: "@ + trim(error),
        ),
{
    reveal_with_fuel(first_setting, 5);
}

/// Of a reply without an error the first of the usual members that holds images counts, in this order.
pub proof fn law_reply_members(members: Seq<(Seq<char>, JsonModel)>, i: int)
    requires
        member(members, "error"@) is None,
        0 <= i < 11,
        ({
            let keys = seq!["images"@, "image"@, "b64_json"@, "base64"@, "data"@, "output"@, "result"@, "url"@, "urls"@, "generated_images"@, "artifacts"@];
            &&& forall|j: int|
                0 <= j < i ==> (member(members, #[trigger] keys[j]) matches Some(v) ==> images_of(
                    v,
                ).len() == 0)
            &&& member(members, keys[i]) matches Some(v) && images_of(v).len() > 0
        }),
    ensures
        ({
            let keys = seq!["images"@, "image"@, "b64_json"@, "base64"@, "data"@, "output"@, "result"@, "url"@, "urls"@, "generated_images"@, "artifacts"@];
            reply_images(JsonModel::Object(members), None) == Ok::<Seq<ImageDataModel>, Seq<char>>(
                images_of(member(members, keys[i])->0),
            )
        }),
{
    reveal_with_fuel(first_setting, 5);
    lemma_first_images(members, reply_keys(), i);
}

/// A value is found by a name, by a name in an object under a name, and by a place in a list under a
/// name.
pub proof fn law_value_at(v: JsonModel, a: Seq<char>, b: Seq<char>, i: nat)
    requires
        is_plain_name(a),
        is_plain_name(b),
        i <= usize::MAX,
    ensures
        value_at(v, a) == v.get(a),
        value_at(v, a + seq!['.'] + b) == (match v.get(a) {
            Some(inner) => inner.get(b),
            None => None,
        }),
        value_at(v, a + seq!['['] + decimal(i) + seq![']']) == (match v.get(a) {
            Some(list) => list.at(i as int),
            None => None,
        }),
{
    lemma_plain_segment(v, a);
    lemma_no_split(a, '.');
    reveal_with_fuel(follow_segments, 3);
    assert(seq![a].drop_first() =~= Seq::empty());
    let dotted = a + seq!['.'] + b;
    law_split(a, '.', b);
    lemma_no_split(b, '.');
    assert(trim(dotted) == dotted) by {
        assert(dotted[0] == a[0]);
        assert(dotted.last() == b.last());
        lemma_trim_trimmed(a);
        lemma_trim_trimmed(b);
    }
    assert(seq![a, b].drop_first() =~= seq![b]);
    assert(seq![b].drop_first() =~= Seq::empty());
    if let Some(inner) = v.get(a) {
        lemma_plain_segment(inner, b);
    }
    lemma_indexed_segment(v, a, i);
}

/// A name that stands for itself in a path: it says something, has no white space around it, is no
/// number and holds neither a dot nor a bracket.
pub open spec fn is_plain_name(s: Seq<char>) -> bool {
    &&& s.len() > 0
    &&& trim(s) == s
    &&& bounded_value(s, usize::MAX as int) is None
    &&& !s.contains('.')
    &&& !s.contains('[')
    &&& !s.contains(']')
}

proof fn lemma_plain_segment(v: JsonModel, s: Seq<char>)
    requires
        is_plain_name(s),
    ensures
        follow_segment(v, s) == v.get(s),
{
    lemma_place_from(s, '[', 0);
    if let Some(k) = place_of(s, '[') {
        assert(s[k] == '[');
    }
}

proof fn lemma_indexed_segment(v: JsonModel, a: Seq<char>, i: nat)
    requires
        is_plain_name(a),
        i <= usize::MAX,
    ensures
        value_at(v, a + seq!['['] + decimal(i) + seq![']']) == (match v.get(a) {
            Some(list) => list.at(i as int),
            None => None,
        }),
{
    let digits = decimal(i);
    let rest = seq!['['] + digits + seq![']'];
    let s = a + seq!['['] + digits + seq![']'];
    law_decimal(i);
    lemma_trim_trimmed(a);
    assert(s[0] == a[0]);
    assert(s.last() == ']');
    assert(trim(s) == s);
    assert(!s.contains('.')) by {
        if s.contains('.') {
            let k = choose|k: int| 0 <= k < s.len() && s[k] == '.';
            if k < a.len() {
                assert(a[k] == '.');
            } else if a.len() < k < s.len() - 1 {
                assert(digits[k - a.len() - 1] == '.');
                assert(is_digit(digits[k - a.len() - 1]));
            }
        }
    }
    lemma_no_split(s, '.');
    lemma_place_from(s, '[', 0);
    assert(s[a.len() as int] == '[');
    assert(place_of(s, '[') == Some(a.len() as int)) by {
        let k = place_of(s, '[')->0;
        if k < a.len() {
            assert(a[k] == '[');
        }
    }
    assert(s.take(a.len() as int) =~= a);
    assert(s.skip(a.len() as int) =~= rest);
    lemma_place_from(rest, ']', 0);
    let end = digits.len() + 1;
    assert(rest[end as int] == ']');
    assert(place_of(rest, ']') == Some(end as int)) by {
        let k = place_of(rest, ']')->0;
        if 0 < k < end {
            assert(is_digit(digits[k - 1]));
            assert(rest[k] == digits[k - 1]);
        }
    }
    assert(rest.subrange(1, end as int) =~= digits);
    assert(rest.skip(end as int + 1) =~= Seq::empty());
    reveal_with_fuel(follow_indices, 2);
    reveal_with_fuel(follow_segments, 2);
    assert(seq![s].drop_first() =~= Seq::empty());
}

/// The key of a request is the user's, or else that of the environment, or else that of the settings.
pub proof fn law_key_in_use(api_key: Seq<char>, env_key: Option<Seq<char>>, c: JsonModel)
    ensures
        trim(api_key).len() > 0 ==> key_in_use(api_key, env_key, Some(c)) == trim(api_key),
        trim(api_key).len() == 0 ==> (env_key matches Some(k) ==> key_in_use(
            api_key,
            env_key,
            Some(c),
        ) == k),
        trim(api_key).len() == 0 && env_key is None ==> (c.get_str("apiKey"@) matches Some(k)
            ==> trim(k).len() > 0 ==> key_in_use(api_key, env_key, Some(c)) == trim(k)),
        trim(api_key).len() == 0 && env_key is None ==> key_in_use(api_key, env_key, None).len()
            == 0,
{
    reveal_with_fuel(first_setting, 3);
}

/// A key is sent where the settings ask for it: as a bearer token, or in the header field that they
/// name; without a key nothing is sent. Where nothing is asked for it goes as a bearer token.
pub proof fn law_key_is_sent(key: Seq<char>, c: JsonModel, kind: Seq<char>)
    requires
        c.get_str("authType"@) == Some(kind),
        c.get("headers"@) is None,
        key.len() > 0,
    ensures
        kind == "bearer"@ ==> {
            let fields = request_fields(key, None, Some(c));
            fields.dom().contains("Authorization"@) && fields["Authorization"@] == "Bearer "@ + key
        },
        kind == "apiKey"@ && c.get("authHeaderName"@) is None && c.get("auth_header_name"@) is None
            && c.get("apiKeyHeader"@) is None ==> {
            let fields = request_fields(key, None, Some(c));
            fields.dom().contains("x-api-key"@) && fields["x-api-key"@] == key
        },
        kind == "apiKey"@ ==> (c.get_str("authHeaderName"@) matches Some(name) ==> trim(name).len()
            > 0 ==> {
            let fields = request_fields(key, None, Some(c));
            fields.dom().contains(trim(name)) && fields[trim(name)] == key
        }),
{
    reveal_strlit("bearer");
    reveal_strlit("bearer_token");
    reveal_strlit("token");
    reveal_strlit("apiKey");
    reveal_strlit("apikey");
    assert(trim("bearer"@) == "bearer"@);
    assert(trim("apiKey"@) == "apiKey"@);
    assert(lower_ascii("bearer"@) =~= "bearer"@);
    assert(lower_ascii("apiKey"@) =~= "apikey"@);
    assert("apikey"@[0] == 'a' && "bearer"@[0] == 'b');
    assert("apikey"@.len() == 6 && "token"@.len() == 5 && "bearer_token"@.len() == 12);
    reveal_with_fuel(first_setting, 4);
}

/// Without settings a key goes as a bearer token, and requests and replies are JSON.
pub proof fn law_key_without_settings(key: Seq<char>)
    ensures
        ({
            let fields = request_fields(key, None, None);
            &&& key.len() > 0 ==> fields.dom().contains("Authorization"@) && fields["Authorization"@]
                == "Bearer "@ + key
            &&& key.len() == 0 ==> !fields.dom().contains("Authorization"@)
            &&& fields.dom().contains("Content-Type"@) && fields["Content-Type"@]
                == "application/json"@
            &&& fields.dom().contains("Accept"@) && fields["Accept"@] == "application/json"@
        }),
{
    reveal_strlit("Content-Type");
    reveal_strlit("Accept");
    reveal_strlit("Authorization");
    reveal_strlit("none");
    reveal_strlit("bearer");
    reveal_strlit("bearer_token");
    reveal_strlit("token");
    reveal_strlit("apikey");
    reveal_strlit("api_key");
    reveal_strlit("api-key");
    reveal_strlit("x-api-key");
    reveal_strlit("custom");
    reveal_strlit("custom_header");
    reveal_strlit("header");
    assert("Content-Type"@.len() == 12 && "Accept"@.len() == 6 && "Authorization"@.len() == 13);
    assert("none"@.len() == 4);
}

/// A text without braces has nothing to be filled in.
proof fn lemma_rendered_from(s: Seq<char>, request: ImageGenerationRequest)
    requires
        !s.contains('{'),
    ensures
        replace(s, "{{prompt}}"@, escaped(request.prompt@)) == s,
        replace(s, "{{negative_prompt}}"@, escaped(request_negative(request))) == s,
        replace(s, "{{model}}"@, escaped(request.model@)) == s,
        replace(s, "{{width}}"@, decimal(request_size(request).0)) == s,
        replace(s, "{{height}}"@, decimal(request_size(request).1)) == s,
        replace(s, "{{steps}}"@, decimal(request_steps(request) as nat)) == s,
        replace(s, "{{cfg_scale}}"@, request_cfg(request).display) == s,
        replace(s, "{{cfg}}"@, request_cfg(request).display) == s,
        replace(s, "{{seed}}"@, decimal_int(request_seed(request) as int)) == s,
        replace(s, "{{n}}"@, decimal(request_count(request) as nat)) == s,
        replace(s, "{{images}}"@, images_json(request)) == s,
        replace(s, "{{image}}"@, escaped(first_input(request))) == s,
{
    reveal_strlit("{{prompt}}");
    reveal_strlit("{{negative_prompt}}");
    reveal_strlit("{{model}}");
    reveal_strlit("{{width}}");
    reveal_strlit("{{height}}");
    reveal_strlit("{{steps}}");
    reveal_strlit("{{cfg_scale}}");
    reveal_strlit("{{cfg}}");
    reveal_strlit("{{seed}}");
    reveal_strlit("{{n}}");
    reveal_strlit("{{images}}");
    reveal_strlit("{{image}}");
    lemma_replace_nothing(s, "{{prompt}}"@, escaped(request.prompt@));
    lemma_replace_nothing(s, "{{negative_prompt}}"@, escaped(request_negative(request)));
    lemma_replace_nothing(s, "{{model}}"@, escaped(request.model@));
    lemma_replace_nothing(s, "{{width}}"@, decimal(request_size(request).0));
    lemma_replace_nothing(s, "{{height}}"@, decimal(request_size(request).1));
    lemma_replace_nothing(s, "{{steps}}"@, decimal(request_steps(request) as nat));
    lemma_replace_nothing(s, "{{cfg_scale}}"@, request_cfg(request).display);
    lemma_replace_nothing(s, "{{cfg}}"@, request_cfg(request).display);
    lemma_replace_nothing(s, "{{seed}}"@, decimal_int(request_seed(request) as int));
    lemma_replace_nothing(s, "{{n}}"@, decimal(request_count(request) as nat));
    lemma_replace_nothing(s, "{{images}}"@, images_json(request));
    lemma_replace_nothing(s, "{{image}}"@, escaped(first_input(request)));
}

proof fn lemma_fills_prompt(a: Seq<char>, b: Seq<char>, request: ImageGenerationRequest)
    requires
        !a.contains('{'),
        !b.contains('{'),
        !escaped(request.prompt@).contains('{'),
    ensures
        rendered(a + "{{prompt}}"@ + b, request) == a + escaped(request.prompt@) + b,
{
    reveal_strlit("{{prompt}}");
    law_replace(a, "{{prompt}}"@, b, escaped(request.prompt@));
    lemma_three_without(a, escaped(request.prompt@), b);
    lemma_rendered_from(a + escaped(request.prompt@) + b, request);
}

proof fn lemma_fills_negative_prompt(a: Seq<char>, b: Seq<char>, request: ImageGenerationRequest)
    requires
        !a.contains('{'),
        !b.contains('{'),
        !escaped(request_negative(request)).contains('{'),
    ensures
        rendered(a + "{{negative_prompt}}"@ + b, request) == a + escaped(request_negative(request)) + b,
{
    reveal_strlit("{{prompt}}");
    reveal_strlit("{{negative_prompt}}");
    assert forall|j: int| 2 <= j < "{{negative_prompt}}"@.len() implies #[trigger] "{{negative_prompt}}"@[j] != '{' by {}
    assert("{{negative_prompt}}"@[2] == 'n' && "{{prompt}}"@[2] == 'p');
    lemma_replace_other(a, "{{negative_prompt}}"@, b, "{{prompt}}"@, escaped(request.prompt@), 3);
    law_replace(a, "{{negative_prompt}}"@, b, escaped(request_negative(request)));
    lemma_three_without(a, escaped(request_negative(request)), b);
    lemma_rendered_from(a + escaped(request_negative(request)) + b, request);
}

proof fn lemma_fills_model(a: Seq<char>, b: Seq<char>, request: ImageGenerationRequest)
    requires
        !a.contains('{'),
        !b.contains('{'),
        !escaped(request.model@).contains('{'),
    ensures
        rendered(a + "{{model}}"@ + b, request) == a + escaped(request.model@) + b,
{
    reveal_strlit("{{prompt}}");
    reveal_strlit("{{negative_prompt}}");
    reveal_strlit("{{model}}");
    assert forall|j: int| 2 <= j < "{{model}}"@.len() implies #[trigger] "{{model}}"@[j] != '{' by {}
    assert("{{model}}"@[2] == 'm' && "{{prompt}}"@[2] == 'p');
    lemma_replace_other(a, "{{model}}"@, b, "{{prompt}}"@, escaped(request.prompt@), 3);
    assert("{{model}}"@[2] == 'm' && "{{negative_prompt}}"@[2] == 'n');
    lemma_replace_other(a, "{{model}}"@, b, "{{negative_prompt}}"@, escaped(request_negative(request)), 3);
    law_replace(a, "{{model}}"@, b, escaped(request.model@));
    lemma_three_without(a, escaped(request.model@), b);
    lemma_rendered_from(a + escaped(request.model@) + b, request);
}

proof fn lemma_fills_width(a: Seq<char>, b: Seq<char>, request: ImageGenerationRequest)
    requires
        !a.contains('{'),
        !b.contains('{'),
        !decimal(request_size(request).0).contains('{'),
    ensures
        rendered(a + "{{width}}"@ + b, request) == a + decimal(request_size(request).0) + b,
{
    reveal_strlit("{{prompt}}");
    reveal_strlit("{{negative_prompt}}");
    reveal_strlit("{{model}}");
    reveal_strlit("{{width}}");
    assert forall|j: int| 2 <= j < "{{width}}"@.len() implies #[trigger] "{{width}}"@[j] != '{' by {}
    assert("{{width}}"@[2] == 'w' && "{{prompt}}"@[2] == 'p');
    lemma_replace_other(a, "{{width}}"@, b, "{{prompt}}"@, escaped(request.prompt@), 3);
    assert("{{width}}"@[2] == 'w' && "{{negative_prompt}}"@[2] == 'n');
    lemma_replace_other(a, "{{width}}"@, b, "{{negative_prompt}}"@, escaped(request_negative(request)), 3);
    assert("{{width}}"@[2] == 'w' && "{{model}}"@[2] == 'm');
    lemma_replace_other(a, "{{width}}"@, b, "{{model}}"@, escaped(request.model@), 3);
    law_replace(a, "{{width}}"@, b, decimal(request_size(request).0));
    lemma_three_without(a, decimal(request_size(request).0), b);
    lemma_rendered_from(a + decimal(request_size(request).0) + b, request);
}

proof fn lemma_fills_height(a: Seq<char>, b: Seq<char>, request: ImageGenerationRequest)
    requires
        !a.contains('{'),
        !b.contains('{'),
        !decimal(request_size(request).1).contains('{'),
    ensures
        rendered(a + "{{height}}"@ + b, request) == a + decimal(request_size(request).1) + b,
{
    reveal_strlit("{{prompt}}");
    reveal_strlit("{{negative_prompt}}");
    reveal_strlit("{{model}}");
    reveal_strlit("{{width}}");
    reveal_strlit("{{height}}");
    assert forall|j: int| 2 <= j < "{{height}}"@.len() implies #[trigger] "{{height}}"@[j] != '{' by {}
    assert("{{height}}"@[2] == 'h' && "{{prompt}}"@[2] == 'p');
    lemma_replace_other(a, "{{height}}"@, b, "{{prompt}}"@, escaped(request.prompt@), 3);
    assert("{{height}}"@[2] == 'h' && "{{negative_prompt}}"@[2] == 'n');
    lemma_replace_other(a, "{{height}}"@, b, "{{negative_prompt}}"@, escaped(request_negative(request)), 3);
    assert("{{height}}"@[2] == 'h' && "{{model}}"@[2] == 'm');
    lemma_replace_other(a, "{{height}}"@, b, "{{model}}"@, escaped(request.model@), 3);
    assert("{{height}}"@[2] == 'h' && "{{width}}"@[2] == 'w');
    lemma_replace_other(a, "{{height}}"@, b, "{{width}}"@, decimal(request_size(request).0), 3);
    law_replace(a, "{{height}}"@, b, decimal(request_size(request).1));
    lemma_three_without(a, decimal(request_size(request).1), b);
    lemma_rendered_from(a + decimal(request_size(request).1) + b, request);
}

proof fn lemma_fills_steps(a: Seq<char>, b: Seq<char>, request: ImageGenerationRequest)
    requires
        !a.contains('{'),
        !b.contains('{'),
        !decimal(request_steps(request) as nat).contains('{'),
    ensures
        rendered(a + "{{steps}}"@ + b, request) == a + decimal(request_steps(request) as nat) + b,
{
    reveal_strlit("{{prompt}}");
    reveal_strlit("{{negative_prompt}}");
    reveal_strlit("{{model}}");
    reveal_strlit("{{width}}");
    reveal_strlit("{{height}}");
    reveal_strlit("{{steps}}");
    assert forall|j: int| 2 <= j < "{{steps}}"@.len() implies #[trigger] "{{steps}}"@[j] != '{' by {}
    assert("{{steps}}"@[2] == 's' && "{{prompt}}"@[2] == 'p');
    lemma_replace_other(a, "{{steps}}"@, b, "{{prompt}}"@, escaped(request.prompt@), 3);
    assert("{{steps}}"@[2] == 's' && "{{negative_prompt}}"@[2] == 'n');
    lemma_replace_other(a, "{{steps}}"@, b, "{{negative_prompt}}"@, escaped(request_negative(request)), 3);
    assert("{{steps}}"@[2] == 's' && "{{model}}"@[2] == 'm');
    lemma_replace_other(a, "{{steps}}"@, b, "{{model}}"@, escaped(request.model@), 3);
    assert("{{steps}}"@[2] == 's' && "{{width}}"@[2] == 'w');
    lemma_replace_other(a, "{{steps}}"@, b, "{{width}}"@, decimal(request_size(request).0), 3);
    assert("{{steps}}"@[2] == 's' && "{{height}}"@[2] == 'h');
    lemma_replace_other(a, "{{steps}}"@, b, "{{height}}"@, decimal(request_size(request).1), 3);
    law_replace(a, "{{steps}}"@, b, decimal(request_steps(request) as nat));
    lemma_three_without(a, decimal(request_steps(request) as nat), b);
    lemma_rendered_from(a + decimal(request_steps(request) as nat) + b, request);
}

proof fn lemma_fills_cfg_scale(a: Seq<char>, b: Seq<char>, request: ImageGenerationRequest)
    requires
        !a.contains('{'),
        !b.contains('{'),
        !request_cfg(request).display.contains('{'),
    ensures
        rendered(a + "{{cfg_scale}}"@ + b, request) == a + request_cfg(request).display + b,
{
    reveal_strlit("{{prompt}}");
    reveal_strlit("{{negative_prompt}}");
    reveal_strlit("{{model}}");
    reveal_strlit("{{width}}");
    reveal_strlit("{{height}}");
    reveal_strlit("{{steps}}");
    reveal_strlit("{{cfg_scale}}");
    assert forall|j: int| 2 <= j < "{{cfg_scale}}"@.len() implies #[trigger] "{{cfg_scale}}"@[j] != '{' by {}
    assert("{{cfg_scale}}"@[2] == 'c' && "{{prompt}}"@[2] == 'p');
    lemma_replace_other(a, "{{cfg_scale}}"@, b, "{{prompt}}"@, escaped(request.prompt@), 3);
    assert("{{cfg_scale}}"@[2] == 'c' && "{{negative_prompt}}"@[2] == 'n');
    lemma_replace_other(a, "{{cfg_scale}}"@, b, "{{negative_prompt}}"@, escaped(request_negative(request)), 3);
    assert("{{cfg_scale}}"@[2] == 'c' && "{{model}}"@[2] == 'm');
    lemma_replace_other(a, "{{cfg_scale}}"@, b, "{{model}}"@, escaped(request.model@), 3);
    assert("{{cfg_scale}}"@[2] == 'c' && "{{width}}"@[2] == 'w');
    lemma_replace_other(a, "{{cfg_scale}}"@, b, "{{width}}"@, decimal(request_size(request).0), 3);
    assert("{{cfg_scale}}"@[2] == 'c' && "{{height}}"@[2] == 'h');
    lemma_replace_other(a, "{{cfg_scale}}"@, b, "{{height}}"@, decimal(request_size(request).1), 3);
    assert("{{cfg_scale}}"@[2] == 'c' && "{{steps}}"@[2] == 's');
    lemma_replace_other(a, "{{cfg_scale}}"@, b, "{{steps}}"@, decimal(request_steps(request) as nat), 3);
    law_replace(a, "{{cfg_scale}}"@, b, request_cfg(request).display);
    lemma_three_without(a, request_cfg(request).display, b);
    lemma_rendered_from(a + request_cfg(request).display + b, request);
}

proof fn lemma_fills_cfg(a: Seq<char>, b: Seq<char>, request: ImageGenerationRequest)
    requires
        !a.contains('{'),
        !b.contains('{'),
        !request_cfg(request).display.contains('{'),
    ensures
        rendered(a + "{{cfg}}"@ + b, request) == a + request_cfg(request).display + b,
{
    reveal_strlit("{{prompt}}");
    reveal_strlit("{{negative_prompt}}");
    reveal_strlit("{{model}}");
    reveal_strlit("{{width}}");
    reveal_strlit("{{height}}");
    reveal_strlit("{{steps}}");
    reveal_strlit("{{cfg_scale}}");
    reveal_strlit("{{cfg}}");
    assert forall|j: int| 2 <= j < "{{cfg}}"@.len() implies #[trigger] "{{cfg}}"@[j] != '{' by {}
    assert("{{cfg}}"@[2] == 'c' && "{{prompt}}"@[2] == 'p');
    lemma_replace_other(a, "{{cfg}}"@, b, "{{prompt}}"@, escaped(request.prompt@), 3);
    assert("{{cfg}}"@[2] == 'c' && "{{negative_prompt}}"@[2] == 'n');
    lemma_replace_other(a, "{{cfg}}"@, b, "{{negative_prompt}}"@, escaped(request_negative(request)), 3);
    assert("{{cfg}}"@[2] == 'c' && "{{model}}"@[2] == 'm');
    lemma_replace_other(a, "{{cfg}}"@, b, "{{model}}"@, escaped(request.model@), 3);
    assert("{{cfg}}"@[2] == 'c' && "{{width}}"@[2] == 'w');
    lemma_replace_other(a, "{{cfg}}"@, b, "{{width}}"@, decimal(request_size(request).0), 3);
    assert("{{cfg}}"@[2] == 'c' && "{{height}}"@[2] == 'h');
    lemma_replace_other(a, "{{cfg}}"@, b, "{{height}}"@, decimal(request_size(request).1), 3);
    assert("{{cfg}}"@[2] == 'c' && "{{steps}}"@[2] == 's');
    lemma_replace_other(a, "{{cfg}}"@, b, "{{steps}}"@, decimal(request_steps(request) as nat), 3);
    assert("{{cfg}}"@[5] == '}' && "{{cfg_scale}}"@[5] == '_');
    lemma_replace_other(a, "{{cfg}}"@, b, "{{cfg_scale}}"@, request_cfg(request).display, 5);
    law_replace(a, "{{cfg}}"@, b, request_cfg(request).display);
    lemma_three_without(a, request_cfg(request).display, b);
    lemma_rendered_from(a + request_cfg(request).display + b, request);
}

proof fn lemma_fills_seed(a: Seq<char>, b: Seq<char>, request: ImageGenerationRequest)
    requires
        !a.contains('{'),
        !b.contains('{'),
        !decimal_int(request_seed(request) as int).contains('{'),
    ensures
        rendered(a + "{{seed}}"@ + b, request) == a + decimal_int(request_seed(request) as int) + b,
{
    reveal_strlit("{{prompt}}");
    reveal_strlit("{{negative_prompt}}");
    reveal_strlit("{{model}}");
    reveal_strlit("{{width}}");
    reveal_strlit("{{height}}");
    reveal_strlit("{{steps}}");
    reveal_strlit("{{cfg_scale}}");
    reveal_strlit("{{cfg}}");
    reveal_strlit("{{seed}}");
    assert forall|j: int| 2 <= j < "{{seed}}"@.len() implies #[trigger] "{{seed}}"@[j] != '{' by {}
    assert("{{seed}}"@[2] == 's' && "{{prompt}}"@[2] == 'p');
    lemma_replace_other(a, "{{seed}}"@, b, "{{prompt}}"@, escaped(request.prompt@), 3);
    assert("{{seed}}"@[2] == 's' && "{{negative_prompt}}"@[2] == 'n');
    lemma_replace_other(a, "{{seed}}"@, b, "{{negative_prompt}}"@, escaped(request_negative(request)), 3);
    assert("{{seed}}"@[2] == 's' && "{{model}}"@[2] == 'm');
    lemma_replace_other(a, "{{seed}}"@, b, "{{model}}"@, escaped(request.model@), 3);
    assert("{{seed}}"@[2] == 's' && "{{width}}"@[2] == 'w');
    lemma_replace_other(a, "{{seed}}"@, b, "{{width}}"@, decimal(request_size(request).0), 3);
    assert("{{seed}}"@[2] == 's' && "{{height}}"@[2] == 'h');
    lemma_replace_other(a, "{{seed}}"@, b, "{{height}}"@, decimal(request_size(request).1), 3);
    assert("{{seed}}"@[3] == 'e' && "{{steps}}"@[3] == 't');
    lemma_replace_other(a, "{{seed}}"@, b, "{{steps}}"@, decimal(request_steps(request) as nat), 3);
    assert("{{seed}}"@[2] == 's' && "{{cfg_scale}}"@[2] == 'c');
    lemma_replace_other(a, "{{seed}}"@, b, "{{cfg_scale}}"@, request_cfg(request).display, 3);
    assert("{{seed}}"@[2] == 's' && "{{cfg}}"@[2] == 'c');
    lemma_replace_other(a, "{{seed}}"@, b, "{{cfg}}"@, request_cfg(request).display, 3);
    law_replace(a, "{{seed}}"@, b, decimal_int(request_seed(request) as int));
    lemma_three_without(a, decimal_int(request_seed(request) as int), b);
    lemma_rendered_from(a + decimal_int(request_seed(request) as int) + b, request);
}

proof fn lemma_fills_n(a: Seq<char>, b: Seq<char>, request: ImageGenerationRequest)
    requires
        !a.contains('{'),
        !b.contains('{'),
        !decimal(request_count(request) as nat).contains('{'),
    ensures
        rendered(a + "{{n}}"@ + b, request) == a + decimal(request_count(request) as nat) + b,
{
    reveal_strlit("{{prompt}}");
    reveal_strlit("{{negative_prompt}}");
    reveal_strlit("{{model}}");
    reveal_strlit("{{width}}");
    reveal_strlit("{{height}}");
    reveal_strlit("{{steps}}");
    reveal_strlit("{{cfg_scale}}");
    reveal_strlit("{{cfg}}");
    reveal_strlit("{{seed}}");
    reveal_strlit("{{n}}");
    assert forall|j: int| 2 <= j < "{{n}}"@.len() implies #[trigger] "{{n}}"@[j] != '{' by {}
    assert("{{n}}"@[2] == 'n' && "{{prompt}}"@[2] == 'p');
    lemma_replace_other(a, "{{n}}"@, b, "{{prompt}}"@, escaped(request.prompt@), 3);
    assert("{{n}}"@[3] == '}' && "{{negative_prompt}}"@[3] == 'e');
    lemma_replace_other(a, "{{n}}"@, b, "{{negative_prompt}}"@, escaped(request_negative(request)), 3);
    assert("{{n}}"@[2] == 'n' && "{{model}}"@[2] == 'm');
    lemma_replace_other(a, "{{n}}"@, b, "{{model}}"@, escaped(request.model@), 3);
    assert("{{n}}"@[2] == 'n' && "{{width}}"@[2] == 'w');
    lemma_replace_other(a, "{{n}}"@, b, "{{width}}"@, decimal(request_size(request).0), 3);
    assert("{{n}}"@[2] == 'n' && "{{height}}"@[2] == 'h');
    lemma_replace_other(a, "{{n}}"@, b, "{{height}}"@, decimal(request_size(request).1), 3);
    assert("{{n}}"@[2] == 'n' && "{{steps}}"@[2] == 's');
    lemma_replace_other(a, "{{n}}"@, b, "{{steps}}"@, decimal(request_steps(request) as nat), 3);
    assert("{{n}}"@[2] == 'n' && "{{cfg_scale}}"@[2] == 'c');
    lemma_replace_other(a, "{{n}}"@, b, "{{cfg_scale}}"@, request_cfg(request).display, 3);
    assert("{{n}}"@[2] == 'n' && "{{cfg}}"@[2] == 'c');
    lemma_replace_other(a, "{{n}}"@, b, "{{cfg}}"@, request_cfg(request).display, 3);
    assert("{{n}}"@[2] == 'n' && "{{seed}}"@[2] == 's');
    lemma_replace_other(a, "{{n}}"@, b, "{{seed}}"@, decimal_int(request_seed(request) as int), 3);
    law_replace(a, "{{n}}"@, b, decimal(request_count(request) as nat));
    lemma_three_without(a, decimal(request_count(request) as nat), b);
    lemma_rendered_from(a + decimal(request_count(request) as nat) + b, request);
}

proof fn lemma_fills_images(a: Seq<char>, b: Seq<char>, request: ImageGenerationRequest)
    requires
        !a.contains('{'),
        !b.contains('{'),
        !images_json(request).contains('{'),
    ensures
        rendered(a + "{{images}}"@ + b, request) == a + images_json(request) + b,
{
    reveal_strlit("{{prompt}}");
    reveal_strlit("{{negative_prompt}}");
    reveal_strlit("{{model}}");
    reveal_strlit("{{width}}");
    reveal_strlit("{{height}}");
    reveal_strlit("{{steps}}");
    reveal_strlit("{{cfg_scale}}");
    reveal_strlit("{{cfg}}");
    reveal_strlit("{{seed}}");
    reveal_strlit("{{n}}");
    reveal_strlit("{{images}}");
    assert forall|j: int| 2 <= j < "{{images}}"@.len() implies #[trigger] "{{images}}"@[j] != '{' by {}
    assert("{{images}}"@[2] == 'i' && "{{prompt}}"@[2] == 'p');
    lemma_replace_other(a, "{{images}}"@, b, "{{prompt}}"@, escaped(request.prompt@), 3);
    assert("{{images}}"@[2] == 'i' && "{{negative_prompt}}"@[2] == 'n');
    lemma_replace_other(a, "{{images}}"@, b, "{{negative_prompt}}"@, escaped(request_negative(request)), 3);
    assert("{{images}}"@[2] == 'i' && "{{model}}"@[2] == 'm');
    lemma_replace_other(a, "{{images}}"@, b, "{{model}}"@, escaped(request.model@), 3);
    assert("{{images}}"@[2] == 'i' && "{{width}}"@[2] == 'w');
    lemma_replace_other(a, "{{images}}"@, b, "{{width}}"@, decimal(request_size(request).0), 3);
    assert("{{images}}"@[2] == 'i' && "{{height}}"@[2] == 'h');
    lemma_replace_other(a, "{{images}}"@, b, "{{height}}"@, decimal(request_size(request).1), 3);
    assert("{{images}}"@[2] == 'i' && "{{steps}}"@[2] == 's');
    lemma_replace_other(a, "{{images}}"@, b, "{{steps}}"@, decimal(request_steps(request) as nat), 3);
    assert("{{images}}"@[2] == 'i' && "{{cfg_scale}}"@[2] == 'c');
    lemma_replace_other(a, "{{images}}"@, b, "{{cfg_scale}}"@, request_cfg(request).display, 3);
    assert("{{images}}"@[2] == 'i' && "{{cfg}}"@[2] == 'c');
    lemma_replace_other(a, "{{images}}"@, b, "{{cfg}}"@, request_cfg(request).display, 3);
    assert("{{images}}"@[2] == 'i' && "{{seed}}"@[2] == 's');
    lemma_replace_other(a, "{{images}}"@, b, "{{seed}}"@, decimal_int(request_seed(request) as int), 3);
    assert("{{images}}"@[2] == 'i' && "{{n}}"@[2] == 'n');
    lemma_replace_other(a, "{{images}}"@, b, "{{n}}"@, decimal(request_count(request) as nat), 3);
    law_replace(a, "{{images}}"@, b, images_json(request));
    lemma_three_without(a, images_json(request), b);
    lemma_rendered_from(a + images_json(request) + b, request);
}

proof fn lemma_fills_image(a: Seq<char>, b: Seq<char>, request: ImageGenerationRequest)
    requires
        !a.contains('{'),
        !b.contains('{'),
        !escaped(first_input(request)).contains('{'),
    ensures
        rendered(a + "{{image}}"@ + b, request) == a + escaped(first_input(request)) + b,
{
    reveal_strlit("{{prompt}}");
    reveal_strlit("{{negative_prompt}}");
    reveal_strlit("{{model}}");
    reveal_strlit("{{width}}");
    reveal_strlit("{{height}}");
    reveal_strlit("{{steps}}");
    reveal_strlit("{{cfg_scale}}");
    reveal_strlit("{{cfg}}");
    reveal_strlit("{{seed}}");
    reveal_strlit("{{n}}");
    reveal_strlit("{{images}}");
    reveal_strlit("{{image}}");
    assert forall|j: int| 2 <= j < "{{image}}"@.len() implies #[trigger] "{{image}}"@[j] != '{' by {}
    assert("{{image}}"@[2] == 'i' && "{{prompt}}"@[2] == 'p');
    lemma_replace_other(a, "{{image}}"@, b, "{{prompt}}"@, escaped(request.prompt@), 3);
    assert("{{image}}"@[2] == 'i' && "{{negative_prompt}}"@[2] == 'n');
    lemma_replace_other(a, "{{image}}"@, b, "{{negative_prompt}}"@, escaped(request_negative(request)), 3);
    assert("{{image}}"@[2] == 'i' && "{{model}}"@[2] == 'm');
    lemma_replace_other(a, "{{image}}"@, b, "{{model}}"@, escaped(request.model@), 3);
    assert("{{image}}"@[2] == 'i' && "{{width}}"@[2] == 'w');
    lemma_replace_other(a, "{{image}}"@, b, "{{width}}"@, decimal(request_size(request).0), 3);
    assert("{{image}}"@[2] == 'i' && "{{height}}"@[2] == 'h');
    lemma_replace_other(a, "{{image}}"@, b, "{{height}}"@, decimal(request_size(request).1), 3);
    assert("{{image}}"@[2] == 'i' && "{{steps}}"@[2] == 's');
    lemma_replace_other(a, "{{image}}"@, b, "{{steps}}"@, decimal(request_steps(request) as nat), 3);
    assert("{{image}}"@[2] == 'i' && "{{cfg_scale}}"@[2] == 'c');
    lemma_replace_other(a, "{{image}}"@, b, "{{cfg_scale}}"@, request_cfg(request).display, 3);
    assert("{{image}}"@[2] == 'i' && "{{cfg}}"@[2] == 'c');
    lemma_replace_other(a, "{{image}}"@, b, "{{cfg}}"@, request_cfg(request).display, 3);
    assert("{{image}}"@[2] == 'i' && "{{seed}}"@[2] == 's');
    lemma_replace_other(a, "{{image}}"@, b, "{{seed}}"@, decimal_int(request_seed(request) as int), 3);
    assert("{{image}}"@[2] == 'i' && "{{n}}"@[2] == 'n');
    lemma_replace_other(a, "{{image}}"@, b, "{{n}}"@, decimal(request_count(request) as nat), 3);
    assert("{{image}}"@[7] == '}' && "{{images}}"@[7] == 's');
    lemma_replace_other(a, "{{image}}"@, b, "{{images}}"@, images_json(request), 7);
    law_replace(a, "{{image}}"@, b, escaped(first_input(request)));
    lemma_three_without(a, escaped(first_input(request)), b);
    lemma_rendered_from(a + escaped(first_input(request)) + b, request);
}

proof fn lemma_three_without(a: Seq<char>, v: Seq<char>, b: Seq<char>)
    requires
        !a.contains('{'),
        !v.contains('{'),
        !b.contains('{'),
    ensures
        !(a + v + b).contains('{'),
{
    let s = a + v + b;
    if s.contains('{') {
        let i = choose|i: int| 0 <= i < s.len() && s[i] == '{';
        if i < a.len() {
            assert(a[i] == '{');
        } else if i < a.len() + v.len() {
            assert(v[i - a.len()] == '{');
        } else {
            assert(b[i - a.len() - v.len()] == '{');
        }
    }
}

/// Each mark of a template gives way to what the request says of it, and the text around it stays. (A
/// value that itself holds a brace may be taken for a mark, and is left out.)
pub proof fn law_template_is_filled_in(
    a: Seq<char>,
    b: Seq<char>,
    request: ImageGenerationRequest,
)
    requires
        !a.contains('{'),
        !b.contains('{'),
    ensures
        rendered(a, request) == a,
        !escaped(request.prompt@).contains('{') ==> rendered(a + "{{prompt}}"@ + b, request) == a + escaped(request.prompt@) + b,
        !escaped(request_negative(request)).contains('{') ==> rendered(a + "{{negative_prompt}}"@ + b, request) == a + escaped(request_negative(request)) + b,
        !escaped(request.model@).contains('{') ==> rendered(a + "{{model}}"@ + b, request) == a + escaped(request.model@) + b,
        !decimal(request_size(request).0).contains('{') ==> rendered(a + "{{width}}"@ + b, request) == a + decimal(request_size(request).0) + b,
        !decimal(request_size(request).1).contains('{') ==> rendered(a + "{{height}}"@ + b, request) == a + decimal(request_size(request).1) + b,
        !decimal(request_steps(request) as nat).contains('{') ==> rendered(a + "{{steps}}"@ + b, request) == a + decimal(request_steps(request) as nat) + b,
        !request_cfg(request).display.contains('{') ==> rendered(a + "{{cfg_scale}}"@ + b, request) == a + request_cfg(request).display + b,
        !request_cfg(request).display.contains('{') ==> rendered(a + "{{cfg}}"@ + b, request) == a + request_cfg(request).display + b,
        !decimal_int(request_seed(request) as int).contains('{') ==> rendered(a + "{{seed}}"@ + b, request) == a + decimal_int(request_seed(request) as int) + b,
        !decimal(request_count(request) as nat).contains('{') ==> rendered(a + "{{n}}"@ + b, request) == a + decimal(request_count(request) as nat) + b,
        !images_json(request).contains('{') ==> rendered(a + "{{images}}"@ + b, request) == a + images_json(request) + b,
        !escaped(first_input(request)).contains('{') ==> rendered(a + "{{image}}"@ + b, request) == a + escaped(first_input(request)) + b,
{
    lemma_rendered_from(a, request);
    if !escaped(request.prompt@).contains('{') {
        lemma_fills_prompt(a, b, request);
    }
    if !escaped(request_negative(request)).contains('{') {
        lemma_fills_negative_prompt(a, b, request);
    }
    if !escaped(request.model@).contains('{') {
        lemma_fills_model(a, b, request);
    }
    if !decimal(request_size(request).0).contains('{') {
        lemma_fills_width(a, b, request);
    }
    if !decimal(request_size(request).1).contains('{') {
        lemma_fills_height(a, b, request);
    }
    if !decimal(request_steps(request) as nat).contains('{') {
        lemma_fills_steps(a, b, request);
    }
    if !request_cfg(request).display.contains('{') {
        lemma_fills_cfg_scale(a, b, request);
    }
    if !request_cfg(request).display.contains('{') {
        lemma_fills_cfg(a, b, request);
    }
    if !decimal_int(request_seed(request) as int).contains('{') {
        lemma_fills_seed(a, b, request);
    }
    if !decimal(request_count(request) as nat).contains('{') {
        lemma_fills_n(a, b, request);
    }
    if !images_json(request).contains('{') {
        lemma_fills_images(a, b, request);
    }
    if !escaped(first_input(request)).contains('{') {
        lemma_fills_image(a, b, request);
    }
}

/// The path of an endpoint may be set under other words, where the usual one is missing.
pub proof fn law_other_words_for_a_path(
    base_url: Seq<char>,
    c: JsonModel,
    s: Seq<char>,
    address: Seq<char>,
)
    requires
        trim(s).len() > 0,
        trim_end_of(base_url, '/').len() > 0,
        ({
            let path = if starts_with(trim(s), "/"@) {
                trim(s)
            } else {
                "/"@ + trim(s)
            };
            let base = trim_end_of(base_url, '/');
            address == (if contains(base, path) {
                base
            } else {
                base + path
            })
        }),
    ensures
        c.get_str("endpointPath"@) == Some(s) ==> endpoint_of(base_url, Some(c)) == address,
        c.get("endpointPath"@) is None && c.get_str("endpoint_path"@) == Some(s) ==> endpoint_of(base_url, Some(c)) == address,
        c.get("endpointPath"@) is None && c.get("endpoint_path"@) is None && c.get_str("apiEndpoint"@) == Some(s) ==> endpoint_of(base_url, Some(c)) == address,
        c.get("endpointPath"@) is None && c.get("endpoint_path"@) is None && c.get("apiEndpoint"@) is None && c.get_str("path"@) == Some(s) ==> endpoint_of(base_url, Some(c)) == address,
{
    reveal_with_fuel(first_setting, 5);
}

/// The field of the images may be set under other words, where the usual one is missing.
pub proof fn law_other_words_for_a_field(response: JsonModel, c: JsonModel, path: Seq<char>)
    requires
        (c.get_str("responseImageField"@) == Some(path)) || (c.get("responseImageField"@) is None && c.get_str("responseField"@) == Some(path)) || (c.get("responseImageField"@) is None && c.get("responseField"@) is None && c.get_str("imageField"@) == Some(path)) || (c.get("responseImageField"@) is None && c.get("responseField"@) is None && c.get("imageField"@) is None && c.get_str("outputField"@) == Some(path)),
        trim(path).len() > 0,
        value_at(response, trim(path)) matches Some(v) && images_of(v).len() > 0,
    ensures
        reply_images(response, Some(c)) == Ok::<Seq<ImageDataModel>, Seq<char>>(
            images_of(value_at(response, trim(path))->0),
        ),
{
    reveal_with_fuel(first_setting, 5);
}

/// The key may stand in the settings under its other spelling, and the environment may hold it in
/// these variables, the first of them first.
pub proof fn law_where_a_key_may_stand(c: JsonModel, s: Seq<char>)
    ensures
        c.get("apiKey"@) is None && c.get_str("api_key"@) == Some(s) && trim(s).len() > 0
            ==> key_in_use(Seq::empty(), None, Some(c)) == trim(s),
        key_variables() == seq!["IMAGE_API_KEY"@].push("GENERIC_IMAGE_API_KEY"@).push(
            "HF_API_KEY"@,
        ).push("HF_TOKEN"@).push("HUGGINGFACE_API_KEY"@),
{
    reveal_with_fuel(first_setting, 3);
    assert(trim(Seq::empty()).len() == 0);
    assert(key_variables() =~= seq!["IMAGE_API_KEY"@].push("GENERIC_IMAGE_API_KEY"@).push(
        "HF_API_KEY"@,
    ).push("HF_TOKEN"@).push("HUGGINGFACE_API_KEY"@));
}

/// Each way of sending a key goes by several names, in small letters or large: as a bearer token, as
/// a key in a field of its own, in a field that the settings name, or not at all.
pub proof fn law_ways_of_sending_a_key(key: Seq<char>, c: JsonModel, said: Seq<char>, kind: Seq<char>)
    requires
        c.get_str("authType"@) == Some(said) || c.get("authType"@) is None && c.get_str(
            "auth_type"@,
        ) == Some(said),
        trim(said).len() > 0,
        kind == lower_ascii(trim(said)),
        c.get("headers"@) is None,
        c.get("customHeaders"@) is None,
        key.len() > 0,
    ensures
        ({
            let fields = request_fields(key, None, Some(c));
            &&& kind == "bearer"@ || kind == "bearer_token"@ || kind == "token"@
                ==> fields.dom().contains("Authorization"@) && fields["Authorization"@]
                == "Bearer "@ + key
            &&& kind == "apikey"@ || kind == "api_key"@ || kind == "api-key"@ || kind
                == "x-api-key"@ ==> {
                &&& c.get("authHeaderName"@) is None && c.get("auth_header_name"@) is None && c.get(
                    "apiKeyHeader"@,
                ) is None ==> fields.dom().contains("x-api-key"@) && fields["x-api-key"@] == key
                &&& c.get_str("authHeaderName"@) matches Some(name) ==> trim(name).len() > 0
                    ==> fields.dom().contains(trim(name)) && fields[trim(name)] == key
                &&& c.get("authHeaderName"@) is None ==> (c.get_str("auth_header_name"@)
                    matches Some(name) ==> trim(name).len() > 0 ==> fields.dom().contains(
                    trim(name),
                ) && fields[trim(name)] == key)
                &&& c.get("authHeaderName"@) is None && c.get("auth_header_name"@) is None ==> (
                c.get_str("apiKeyHeader"@) matches Some(name) ==> trim(name).len() > 0
                    ==> fields.dom().contains(trim(name)) && fields[trim(name)] == key)
            }
            &&& kind == "custom"@ || kind == "custom_header"@ ==> (c.get_str("authHeaderName"@)
                matches Some(name) ==> trim(name).len() > 0 && trim(name) != "Content-Type"@
                && trim(name) != "Accept"@ ==> fields.dom().contains(trim(name)) && fields[trim(
                name,
            )] == key)
            &&& kind == "header"@ ==> {
                &&& c.get("authHeaderName"@) is None && c.get("headerName"@) is None
                    && !starts_with(lower_ascii(key), "bearer "@) ==> fields.dom().contains(
                    "Authorization"@,
                ) && fields["Authorization"@] == "Bearer "@ + key
                &&& c.get("authHeaderName"@) is None && c.get("headerName"@) is None && starts_with(
                    lower_ascii(key),
                    "bearer "@,
                ) ==> fields.dom().contains("Authorization"@) && fields["Authorization"@] == key
                &&& c.get_str("authHeaderName"@) matches Some(name) ==> trim(name).len() > 0
                    && lower_ascii(trim(name)) != "authorization"@ ==> fields.dom().contains(
                    trim(name),
                ) && fields[trim(name)] == key
            }
            &&& kind == "none"@ && c.get("authType"@) is Some ==> !fields.dom().contains(
                "Authorization"@,
            )
        }),
{
    reveal_strlit("bearer");
    reveal_strlit("bearer_token");
    reveal_strlit("token");
    reveal_strlit("apikey");
    reveal_strlit("api_key");
    reveal_strlit("api-key");
    reveal_strlit("x-api-key");
    reveal_strlit("custom");
    reveal_strlit("custom_header");
    reveal_strlit("header");
    reveal_strlit("none");
    assert("bearer"@.len() == 6);
    assert("bearer_token"@.len() == 12);
    assert("token"@.len() == 5);
    assert("apikey"@.len() == 6);
    assert("api_key"@.len() == 7);
    assert("api-key"@.len() == 7);
    assert("x-api-key"@.len() == 9);
    assert("custom"@.len() == 6);
    assert("custom_header"@.len() == 13);
    assert("header"@.len() == 6);
    assert("none"@.len() == 4);
    assert("bearer"@[0] != "apikey"@[0]);
    assert("bearer"@[0] != "custom"@[0]);
    assert("bearer"@[0] != "header"@[0]);
    assert("apikey"@[0] != "custom"@[0]);
    assert("apikey"@[0] != "header"@[0]);
    assert("api_key"@[3] != "api-key"@[3]);
    assert("custom"@[0] != "header"@[0]);
    reveal_strlit("Content-Type");
    reveal_strlit("Accept");
    reveal_strlit("Authorization");
    reveal_strlit("authorization");
    assert("Content-Type"@.len() == 12 && "Accept"@.len() == 6 && "Authorization"@.len() == 13);
    assert(lower_ascii("Authorization"@) =~= "authorization"@);
    assert(lower_ascii("authorization"@) =~= "authorization"@);
    assert(lower_ascii("none"@) =~= "none"@);
    reveal_with_fuel(first_setting, 4);
}

/// A reply in print is shown whole up to 800 bytes, and its beginning where it is longer.
pub proof fn law_reply_in_print(response: JsonModel)
    ensures
        byte_len(json_text(response)) <= 800 ==> shown(response) == json_text(response),
        byte_len(json_text(response)) > 800 ==> shown(response) == beginning(
            json_text(response),
            800,
            0,
        ) + "... (truncated, "@ + decimal(byte_len(json_text(response))) + " chars)"@,
{
}

} // verus!
