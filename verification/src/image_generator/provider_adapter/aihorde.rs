//! AI Horde, where volunteers draw images as jobs.
use vstd::prelude::*;

use super::config::insert_extra;
use crate::text::{
    contains, contains_str, decimal_i64, decimal_int, ends_with, glued, is_link, is_link_text, join,
    join_strs, law_join, lemma_join_glued, lower_case, lower_case_str, none_empty, occurs_at,
    opt_present, opt_str_view, opt_view, present, present_opt, present_str, starts_with,
    starts_with_str, trim, trim_end_of, trim_end_of_str, trim_str, views, views_push,
};
use super::{
    image_at, image_views, images_view, parse_size_dimensions, size_or, url_data, ImageDataModel,
    ImageProviderAdapter, ImageRequestPayload, ImageResponseData, ImageResponseFormat, PayloadModel,
};
use crate::fraction::{
    clamp, clamp_fraction, copy_fraction, fraction, fraction_json, fraction_value, Fraction,
    FractionModel, ORDER_ONE, ORDER_THIRTY, ORDER_ZERO,
};
use crate::text_map::{overridden, TextMap};
use crate::image_generator::types::{
    either, ImageCharacterContext, ImageGenerationRequest, ImageSceneCharacter, ImageSceneContext,
};
use crate::json::{
    copy, copy_number, group_json_views, has_member_twice, json_parse, json_text, json_views,
    lemma_first_member, lemma_member_add, lemma_no_member, member_views, number, parse, parsed_view,
    print, push_member, repeats_member, text, text_array, texts, unsigned, Json, JsonModel, Number,
    NumberModel,
};
use crate::order::{arranged, key_views, order_of, places, stable_order, SortKey, SortKeyModel};

verus! {

// ---------------------------------------------------------------------------
// Models
// ---------------------------------------------------------------------------

/// A model of AI Horde as its status tells of it.
#[derive(Debug)]
pub struct AIHordeModel {
    pub name: String,
    pub count: Option<u64>,
    pub queued: Option<u64>,
    pub jobs: Option<u64>,
    pub performance: Option<Number>,
    pub baseline: Option<String>,
    pub type_: Option<String>,
    pub max_pixels: Option<u64>,
    pub min_bridge_version: Option<String>,
    /// The status as it was received.
    pub raw: Option<Json>,
}

pub struct HordeModelView {
    pub name: Seq<char>,
    pub count: Option<u64>,
    pub queued: Option<u64>,
    pub jobs: Option<u64>,
    pub performance: Option<NumberModel>,
    pub baseline: Option<Seq<char>>,
    pub type_: Option<Seq<char>>,
    pub max_pixels: Option<u64>,
    pub min_bridge_version: Option<Seq<char>>,
    pub raw: Option<JsonModel>,
}

impl View for AIHordeModel {
    type V = HordeModelView;

    open spec fn view(&self) -> HordeModelView {
        HordeModelView {
            name: self.name@,
            count: self.count,
            queued: self.queued,
            jobs: self.jobs,
            performance: match self.performance {
                Some(n) => Some(n@),
                None => None,
            },
            baseline: opt_view(self.baseline),
            type_: opt_view(self.type_),
            max_pixels: self.max_pixels,
            min_bridge_version: opt_view(self.min_bridge_version),
            raw: match self.raw {
                Some(j) => Some(j@),
                None => None,
            },
        }
    }
}

pub open spec fn model_views(models: Seq<AIHordeModel>) -> Seq<HordeModelView> {
    models.map_values(|m: AIHordeModel| m@)
}

impl AIHordeModel {
    pub fn display_name(&self) -> (r: &str)
        ensures
            r@ == self.name@,
    {
        self.name.as_str()
    }

    /// Whether a worker serves the model at present.
    pub fn is_available(&self) -> (r: bool)
        ensures
            r == (self.count matches Some(n) && n > 0),
    {
        match self.count {
            Some(n) => n > 0,
            None => false,
        }
    }
}

pub open spec fn number_member(v: JsonModel, key: Seq<char>) -> Option<NumberModel> {
    match v.get(key) {
        Some(JsonModel::Number(n)) => Some(n),
        _ => None,
    }
}

/// The model that a status describes, when it has a name.
pub open spec fn model_of(v: JsonModel) -> Option<HordeModelView> {
    match opt_present(v.get_str("name"@)) {
        Some(name) => Some(
            HordeModelView {
                name,
                count: v.get_u64("count"@),
                queued: v.get_u64("queued"@),
                jobs: v.get_u64("jobs"@),
                performance: number_member(v, "performance"@),
                baseline: v.get_str("baseline"@),
                type_: v.get_str("type"@),
                max_pixels: v.get_u64("max_pixels"@),
                min_bridge_version: v.get_str("min_bridge_version"@),
                raw: Some(v),
            },
        ),
        None => None,
    }
}

pub open spec fn models_of(values: Seq<JsonModel>) -> Seq<HordeModelView>
    decreases values.len(),
{
    if values.len() == 0 {
        Seq::empty()
    } else {
        let before = models_of(values.drop_last());
        match model_of(values.last()) {
            Some(m) => before.push(m),
            None => before,
        }
    }
}

/// Models are ordered by their names in lower case.
pub open spec fn name_keys(models: Seq<HordeModelView>) -> Seq<SortKeyModel> {
    models.map_values(
        |m: HordeModelView| SortKeyModel { rank: 0, text: lower_case(m.name) },
    )
}

pub open spec fn by_name(models: Seq<HordeModelView>) -> Seq<HordeModelView> {
    arranged(models, order_of(name_keys(models)))
}

/// The status entries of a reply: an array of them, or the `models` of an object.
pub open spec fn status_entries(reply: JsonModel) -> Option<Seq<JsonModel>> {
    match reply {
        JsonModel::Array(values) => Some(values),
        JsonModel::Object(_) => match reply.get("models"@) {
            Some(JsonModel::Array(values)) => Some(values),
            Some(_) => None,
            None => Some(Seq::empty()),
        },
        _ => None,
    }
}

/// The models that a reply lists, given what its text reads as and whether it is an object that
/// has `models` twice, which is refused.
pub open spec fn listed_models(read: Result<JsonModel, Seq<char>>, twice: bool) -> Result<
    Seq<HordeModelView>,
    Seq<char>,
> {
    match read {
        Ok(reply) => match status_entries(reply) {
            Some(values) if reply is Array || !twice => Ok(by_name(models_of(values))),
            _ => Err(
                "Failed to parse AI Horde models: data did not match any variant of untagged enum AIHordeModelsResponse"@,
            ),
        },
        Err(e) => Err("Failed to parse AI Horde models: "@ + e),
    }
}

pub open spec fn models_view(r: Result<Vec<AIHordeModel>, String>) -> Result<
    Seq<HordeModelView>,
    Seq<char>,
> {
    match r {
        Ok(models) => Ok(model_views(models@)),
        Err(e) => Err(e@),
    }
}

fn owned(s: Option<&str>) -> (r: Option<String>)
    ensures
        opt_view(r) == opt_str_view(s),
{
    match s {
        Some(t) => Some(t.to_string()),
        None => None,
    }
}

fn read_model(v: &Json) -> (r: Option<AIHordeModel>)
    ensures
        match r {
            Some(m) => model_of(v@) == Some(m@),
            None => model_of(v@) is None,
        },
{
    let name = match v.get_str("name") {
        Some(s) => match present_str(s) {
            Some(t) => t.to_string(),
            None => {
                return None;
            },
        },
        None => {
            return None;
        },
    };
    let performance: Option<Number> = match v.get("performance") {
        Some(Json::Number(n)) => Some(copy_number(n)),
        _ => None,
    };
    Some(
        AIHordeModel {
            name,
            count: v.get_u64("count"),
            queued: v.get_u64("queued"),
            jobs: v.get_u64("jobs"),
            performance,
            baseline: owned(v.get_str("baseline")),
            type_: owned(v.get_str("type")),
            max_pixels: v.get_u64("max_pixels"),
            min_bridge_version: owned(v.get_str("min_bridge_version")),
            raw: Some(copy(v)),
        },
    )
}

fn read_models(values: &Vec<Json>) -> (r: Vec<AIHordeModel>)
    ensures
        model_views(r@) == models_of(json_views(values@)),
{
    let ghost all = json_views(values@);
    let mut out: Vec<AIHordeModel> = Vec::new();
    assert(model_views(out@) =~= Seq::empty());
    for i in 0..values.len()
        invariant
            all == json_views(values@),
            model_views(out@) == models_of(all.take(i as int)),
    {
        assert(all.take(i + 1).drop_last() =~= all.take(i as int));
        assert(all.take(i + 1).last() == values@[i as int]@);
        let ghost before = out@;
        if let Some(m) = read_model(&values[i]) {
            out.push(m);
            assert(model_views(out@) =~= model_views(before).push(m@));
        }
    }
    assert(all.take(all.len() as int) =~= all);
    out
}

fn copy_optional(s: &Option<String>) -> (r: Option<String>)
    ensures
        opt_view(r) == opt_view(*s),
{
    match s {
        Some(t) => Some(t.clone()),
        None => None,
    }
}

fn copy_model(m: &AIHordeModel) -> (r: AIHordeModel)
    ensures
        r@ == m@,
{
    AIHordeModel {
        name: m.name.clone(),
        count: m.count,
        queued: m.queued,
        jobs: m.jobs,
        performance: match &m.performance {
            Some(n) => Some(copy_number(n)),
            None => None,
        },
        baseline: copy_optional(&m.baseline),
        type_: copy_optional(&m.type_),
        max_pixels: m.max_pixels,
        min_bridge_version: copy_optional(&m.min_bridge_version),
        raw: match &m.raw {
            Some(j) => Some(copy(j)),
            None => None,
        },
    }
}

fn sort_by_name(models: &Vec<AIHordeModel>) -> (r: Vec<AIHordeModel>)
    ensures
        model_views(r@) == by_name(model_views(models@)),
{
    let ghost all = model_views(models@);
    let mut keys: Vec<SortKey> = Vec::new();
    for i in 0..models.len()
        invariant
            all == model_views(models@),
            key_views(keys@) == name_keys(all).take(i as int),
    {
        let ghost before = keys@;
        let key = SortKey { rank: 0, text: lower_case_str(models[i].name.as_str()) };
        keys.push(key);
        assert(key_views(keys@) =~= key_views(before).push(key@));
        assert(name_keys(all).take(i + 1) =~= name_keys(all).take(i as int).push(
            name_keys(all)[i as int],
        ));
    }
    assert(name_keys(all).take(all.len() as int) =~= name_keys(all));
    let order = stable_order(&keys);
    assert(keys@.len() == models@.len()) by {
        assert(key_views(keys@).len() == keys@.len());
    }
    let ghost goal = by_name(all);
    let mut out: Vec<AIHordeModel> = Vec::new();
    for i in 0..order.len()
        invariant
            all == model_views(models@),
            keys@.len() == models@.len(),
            order@.len() == models@.len(),
            forall|k: int| 0 <= k < order@.len() ==> #[trigger] order@[k] < keys@.len(),
            places(order@) == order_of(name_keys(all)),
            goal == by_name(all),
            model_views(out@) == goal.take(i as int),
    {
        let ghost before = out@;
        let m = copy_model(&models[order[i]]);
        out.push(m);
        assert(model_views(out@) =~= model_views(before).push(m@));
        assert(places(order@)[i as int] == order@[i as int]);
        assert(goal[i as int] == all[order@[i as int] as int]);
        assert(goal.take(i + 1) =~= goal.take(i as int).push(goal[i as int]));
    }
    assert(goal.take(goal.len() as int) =~= goal);
    out
}

/// Takes the JSON of a reply for a list of models; `twice` tells whether the text of the reply
/// gives an object `models` twice.
pub fn models_of_reply(read: Result<Json, String>, twice: bool) -> (r: Result<
    Vec<AIHordeModel>,
    String,
>)
    ensures
        models_view(r) == listed_models(parsed_view(read), twice),
{
    broadcast use group_json_views;

    match read {
        Ok(reply) => {
            if let Some(values) = reply.as_array() {
                return Ok(sort_by_name(&read_models(values)));
            }
            if !twice && reply.is_object() {
                match reply.get("models") {
                    Some(v) => {
                        if let Some(values) = v.as_array() {
                            return Ok(sort_by_name(&read_models(values)));
                        }
                    },
                    None => {
                        let none: Vec<Json> = Vec::new();
                        assert(json_views(none@) =~= Seq::empty());
                        return Ok(sort_by_name(&read_models(&none)));
                    },
                }
            }
            Err(
                "Failed to parse AI Horde models: data did not match any variant of untagged enum AIHordeModelsResponse".to_string(),
            )
        },
        Err(e) => {
            let mut message = "Failed to parse AI Horde models: ".to_string();
            message.append(e.as_str());
            Err(message)
        },
    }
}

/// Reads the models out of the body of a reply, in the order of their names.
pub fn parse_models(body: &str) -> (r: Result<Vec<AIHordeModel>, String>)
    ensures
        models_view(r) == listed_models(json_parse(body@), repeats_member(body@, "models"@)),
{
    models_of_reply(parse(body), has_member_twice(body, "models"))
}

// ---------------------------------------------------------------------------
// Reference images
// ---------------------------------------------------------------------------

/// Whether a text is a link to an image, or the data of one by its first characters.
pub open spec fn is_reference(image: Seq<char>) -> bool {
    let t = trim(image);
    ||| is_link(t)
    ||| starts_with(t, "data:image/"@)
    ||| starts_with(t, "iVBOR"@)
    ||| starts_with(t, "/9j/"@)
    ||| starts_with(t, "UklGR"@)
    ||| starts_with(t, "R0lGOD"@)
    ||| starts_with(t, "Qk"@)
}

pub open spec fn usable(image: Option<Seq<char>>) -> Option<Seq<char>> {
    match image {
        Some(s) => if is_reference(s) {
            Some(s)
        } else {
            None
        },
        None => None,
    }
}

pub open spec fn first_usable(images: Seq<Seq<char>>) -> Option<Seq<char>>
    decreases images.len(),
{
    if images.len() == 0 {
        None
    } else if is_reference(images[0]) {
        Some(images[0])
    } else {
        first_usable(images.drop_first())
    }
}

/// The image that a job starts from: the first usable one of the request's own reference image,
/// those of the character, the further references and the input images.
pub open spec fn source_image(request: ImageGenerationRequest) -> Option<Seq<char>> {
    let character = match request.character_context {
        Some(c) => either(
            usable(opt_view(c.reference_image)),
            first_usable(views(c.reference_images@)),
        ),
        None => None,
    };
    either(
        usable(opt_view(request.character_reference_image)),
        either(
            character,
            either(
                first_usable(views(request.character_reference_images@)),
                first_usable(request.input_views()),
            ),
        ),
    )
}

fn find_usable(images: &Vec<String>) -> (r: Option<&str>)
    ensures
        opt_str_view(r) == first_usable(views(images@)),
{
    let ghost all = views(images@);
    assert(all.skip(0) =~= all);
    for i in 0..images.len()
        invariant
            all == views(images@),
            first_usable(all) == first_usable(all.skip(i as int)),
    {
        assert(all.skip(i as int)[0] == images@[i as int]@);
        assert(all.skip(i as int).drop_first() =~= all.skip(i + 1));
        if AIHordeAdapter::is_valid_reference_image(images[i].as_str()) {
            return Some(images[i].as_str());
        }
    }
    None
}

fn usable_image(image: &Option<String>) -> (r: Option<&str>)
    ensures
        opt_str_view(r) == usable(opt_view(*image)),
{
    match image {
        Some(s) => if AIHordeAdapter::is_valid_reference_image(s.as_str()) {
            Some(s.as_str())
        } else {
            None
        },
        None => None,
    }
}

// ---------------------------------------------------------------------------
// The prompt
// ---------------------------------------------------------------------------

/// A labelled part of the prompt, unless the value is blank.
pub open spec fn labelled(label: Seq<char>, value: Option<Seq<char>>) -> Seq<Seq<char>> {
    match opt_present(value) {
        Some(s) => seq![label + ": "@ + s],
        None => Seq::empty(),
    }
}

pub open spec fn character_parts(c: ImageCharacterContext) -> Seq<Seq<char>> {
    labelled("Character name"@, opt_view(c.name)) + labelled(
        "Character description"@,
        opt_view(c.description),
    ) + labelled("Character appearance"@, opt_view(c.appearance)) + labelled(
        "Character personality"@,
        opt_view(c.personality),
    )
}

pub open spec fn scene_character_parts(c: ImageSceneCharacter) -> Seq<Seq<char>> {
    character_parts(c.character) + labelled("Scene role"@, opt_view(c.scene_role)) + labelled(
        "Scene action"@,
        opt_view(c.action),
    )
}

pub open spec fn cast_parts(characters: Seq<ImageSceneCharacter>) -> Seq<Seq<char>>
    decreases characters.len(),
{
    if characters.len() == 0 {
        Seq::empty()
    } else {
        cast_parts(characters.drop_last()) + scene_character_parts(characters.last())
    }
}

/// The visual prompt of a scene, or else its description.
pub open spec fn scene_head(scene: ImageSceneContext) -> Seq<Seq<char>> {
    match scene.visual_prompt {
        Some(s) => match present(s@) {
            Some(t) => seq![t],
            None => Seq::empty(),
        },
        None => labelled("Scene"@, opt_view(scene.description)),
    }
}

pub open spec fn scene_setting(scene: ImageSceneContext) -> Seq<Seq<char>> {
    labelled("Environment"@, opt_view(scene.environment)) + labelled(
        "Lighting"@,
        opt_view(scene.lighting),
    ) + labelled("Composition"@, opt_view(scene.composition))
}

pub open spec fn scene_looks(scene: ImageSceneContext) -> Seq<Seq<char>> {
    labelled("Pose"@, opt_view(scene.pose)) + labelled("Outfit"@, opt_view(scene.outfit))
        + labelled("Visual style"@, opt_view(scene.visual_style))
}

pub open spec fn scene_parts(scene: ImageSceneContext) -> Seq<Seq<char>> {
    scene_head(scene) + scene_setting(scene) + scene_looks(scene) + cast_parts(scene.characters@)
}

/// What is known of the scene and of the character.
pub open spec fn context_parts(request: ImageGenerationRequest) -> Seq<Seq<char>> {
    let scene = match request.scene_context {
        Some(s) => scene_parts(s),
        None => Seq::empty(),
    };
    let character = match request.character_context {
        Some(c) => character_parts(c),
        None => Seq::empty(),
    };
    scene + character
}

pub open spec fn some_part_contains(parts: Seq<Seq<char>>, s: Seq<char>) -> bool {
    exists|i: int| 0 <= i < parts.len() && contains(#[trigger] parts[i], s)
}

pub open spec fn prompt_parts(request: ImageGenerationRequest) -> Seq<Seq<char>> {
    let context = context_parts(request);
    let prompt = trim(request.prompt@);
    let asked = if prompt.len() > 0 && !some_part_contains(context, prompt) {
        context.push(prompt)
    } else {
        context
    };
    match request.scene_negative_prompt() {
        Some(s) => asked.push("### Negative prompt: "@ + s),
        None => asked,
    }
}

/// The prompt of a job: the scene, the character, the request's own prompt unless a part holds it
/// already, and the negative prompt.
pub open spec fn visual_prompt(request: ImageGenerationRequest) -> Seq<char> {
    join(prompt_parts(request), ", "@)
}

fn push_context(parts: &mut Vec<String>, label: &str, value: &Option<String>)
    ensures
        views(final(parts)@) == views(old(parts)@) + labelled(label@, opt_view(*value)),
{
    broadcast use views_push;

    let ghost before = views(parts@);
    if let Some(s) = present_opt(value) {
        let mut part = label.to_string();
        part.append(": ");
        part.append(s);
        parts.push(part);
    }
    assert(views(parts@) =~= before + labelled(label@, opt_view(*value)));
}

fn push_character_context(parts: &mut Vec<String>, character: &ImageCharacterContext)
    ensures
        views(final(parts)@) == views(old(parts)@) + character_parts(*character),
{
    let ghost before = views(parts@);
    push_context(parts, "Character name", &character.name);
    push_context(parts, "Character description", &character.description);
    push_context(parts, "Character appearance", &character.appearance);
    push_context(parts, "Character personality", &character.personality);
    assert(views(parts@) =~= before + character_parts(*character));
}

fn push_scene_character_context(parts: &mut Vec<String>, character: &ImageSceneCharacter)
    ensures
        views(final(parts)@) == views(old(parts)@) + scene_character_parts(*character),
{
    let ghost before = views(parts@);
    push_character_context(parts, &character.character);
    push_context(parts, "Scene role", &character.scene_role);
    push_context(parts, "Scene action", &character.action);
    assert(views(parts@) =~= before + scene_character_parts(*character));
}

fn push_scene_head(parts: &mut Vec<String>, scene: &ImageSceneContext)
    ensures
        views(final(parts)@) == views(old(parts)@) + scene_head(*scene),
{
    broadcast use views_push;

    let ghost before = views(parts@);
    match &scene.visual_prompt {
        Some(s) => {
            if let Some(t) = present_str(s.as_str()) {
                parts.push(t.to_string());
            }
            assert(views(parts@) =~= before + scene_head(*scene));
        },
        None => {
            push_context(parts, "Scene", &scene.description);
        },
    }
}

fn push_scene_setting(parts: &mut Vec<String>, scene: &ImageSceneContext)
    ensures
        views(final(parts)@) == views(old(parts)@) + scene_setting(*scene),
{
    let ghost before = views(parts@);
    push_context(parts, "Environment", &scene.environment);
    push_context(parts, "Lighting", &scene.lighting);
    push_context(parts, "Composition", &scene.composition);
    assert(views(parts@) =~= before + scene_setting(*scene));
}

fn push_scene_looks(parts: &mut Vec<String>, scene: &ImageSceneContext)
    ensures
        views(final(parts)@) == views(old(parts)@) + scene_looks(*scene),
{
    let ghost before = views(parts@);
    push_context(parts, "Pose", &scene.pose);
    push_context(parts, "Outfit", &scene.outfit);
    push_context(parts, "Visual style", &scene.visual_style);
    assert(views(parts@) =~= before + scene_looks(*scene));
}

fn push_cast(parts: &mut Vec<String>, characters: &Vec<ImageSceneCharacter>)
    ensures
        views(final(parts)@) == views(old(parts)@) + cast_parts(characters@),
{
    let ghost before = views(parts@);
    let ghost all = characters@;
    assert(before + cast_parts(all.take(0)) =~= before);
    for i in 0..characters.len()
        invariant
            all == characters@,
            views(parts@) == before + cast_parts(all.take(i as int)),
    {
        assert(all.take(i + 1).drop_last() =~= all.take(i as int));
        let ghost sofar = cast_parts(all.take(i as int));
        push_scene_character_context(parts, &characters[i]);
        assert(views(parts@) =~= before + (sofar + scene_character_parts(all[i as int])));
    }
    assert(all.take(all.len() as int) =~= all);
}

fn push_scene_context(parts: &mut Vec<String>, scene: &ImageSceneContext)
    ensures
        views(final(parts)@) == views(old(parts)@) + scene_parts(*scene),
{
    let ghost before = views(parts@);
    push_scene_head(parts, scene);
    push_scene_setting(parts, scene);
    push_scene_looks(parts, scene);
    push_cast(parts, &scene.characters);
    assert(views(parts@) =~= before + scene_parts(*scene));
}

fn any_part_contains(parts: &Vec<String>, s: &str) -> (r: bool)
    ensures
        r == some_part_contains(views(parts@), s@),
{
    let ghost all = views(parts@);
    for i in 0..parts.len()
        invariant
            all == views(parts@),
            forall|k: int| 0 <= k < i ==> !contains(#[trigger] all[k], s@),
    {
        assert(all[i as int] == parts@[i as int]@);
        if contains_str(parts[i].as_str(), s) {
            return true;
        }
    }
    false
}

// ---------------------------------------------------------------------------
// Parameters
// ---------------------------------------------------------------------------

pub open spec fn between(n: u32, low: u32, high: u32) -> u32 {
    if n < low {
        low
    } else if n > high {
        high
    } else {
        n
    }
}

fn clamp_u32(n: u32, low: u32, high: u32) -> (r: u32)
    requires
        low <= high,
    ensures
        r == between(n, low, high),
{
    if n < low {
        low
    } else if n > high {
        high
    } else {
        n
    }
}

pub open spec fn job_steps(request: ImageGenerationRequest) -> u32 {
    let asked = match request.advanced_model_settings {
        Some(s) => s.sd_steps,
        None => None,
    };
    match asked {
        Some(n) => between(n, 1, 150),
        None => 30,
    }
}

pub open spec fn zero() -> FractionModel {
    FractionModel { order: ORDER_ZERO, whole: 0, json: "0.0"@, display: "0"@ }
}

pub open spec fn one() -> FractionModel {
    FractionModel { order: ORDER_ONE, whole: 1, json: "1.0"@, display: "1"@ }
}

pub open spec fn thirty() -> FractionModel {
    FractionModel { order: ORDER_THIRTY, whole: 30, json: "30.0"@, display: "30"@ }
}

/// The guidance scale: the model's between 1 and 30, else 7.
pub open spec fn job_cfg(request: ImageGenerationRequest) -> FractionModel {
    let default_scale = super::parameters::seven();
    match request.advanced_model_settings {
        Some(s) => match s.sd_cfg_scale {
            Some(x) => clamp(x@, one(), thirty()),
            None => default_scale,
        },
        None => default_scale,
    }
}

/// The seed, where one other than 0 is set.
pub open spec fn job_seed(request: ImageGenerationRequest) -> Option<i64> {
    match request.advanced_model_settings {
        Some(s) => match s.sd_seed {
            Some(n) => if n != 0 {
                Some(n)
            } else {
                None
            },
            None => None,
        },
        None => None,
    }
}

/// The strength 0.55.
pub open spec fn usual_strength() -> FractionModel {
    FractionModel { order: 0x3fe1_9999_9999_999a, whole: 0, json: "0.55"@, display: "0.55"@ }
}

/// How far a job departs from its source image: between 0 and 1.
pub open spec fn job_strength(request: ImageGenerationRequest) -> FractionModel {
    match request.advanced_model_settings {
        Some(s) => match s.sd_denoising_strength {
            Some(x) => clamp(x@, zero(), one()),
            None => usual_strength(),
        },
        None => usual_strength(),
    }
}

/// A side rounded to the nearest multiple of 64; 0 stands for 512.
pub open spec fn rounded(value: nat) -> nat {
    let v: nat = if value > 0 {
        value
    } else {
        512
    };
    (v + 32) / 64 * 64
}

pub open spec fn job_size(request: ImageGenerationRequest) -> (nat, nat) {
    size_or(opt_view(request.size), 512, 512)
}

pub open spec fn job_count(request: ImageGenerationRequest) -> u32 {
    match request.n {
        Some(n) => between(n, 1, 20),
        None => 1,
    }
}

/// The parameters of a job.
pub open spec fn job_params(request: ImageGenerationRequest) -> JsonModel {
    let size = job_size(request);
    let base = seq![
        ("width"@, number(rounded(size.0))),
        ("height"@, number(rounded(size.1))),
        ("steps"@, number(job_steps(request) as nat)),
        ("cfg_scale"@, fraction_value(job_cfg(request))),
        ("n"@, number(job_count(request) as nat)),
    ];
    let seeded = match job_seed(request) {
        Some(n) => base.push(("seed"@, JsonModel::Text(decimal_int(n as int)))),
        None => base,
    };
    JsonModel::Object(
        if source_image(request) is Some {
            seeded.push(("denoising_strength"@, fraction_value(job_strength(request))))
        } else {
            seeded
        },
    )
}

/// The body of a job, or why there is none.
pub open spec fn job_body(request: ImageGenerationRequest) -> Result<JsonModel, Seq<char>> {
    let prompt = visual_prompt(request);
    let source = source_image(request);
    let mask = opt_present(opt_view(request.mask_image));
    if trim(prompt).len() == 0 {
        Err("AI Horde requires a non-empty visual prompt."@)
    } else if mask is Some && source is None {
        Err("AI Horde inpainting requires a source/reference image."@)
    } else if mask is Some && !is_reference(mask->0) {
        Err("The supplied AI Horde mask is not a supported URL or image-data value."@)
    } else {
        let base = seq![
            ("prompt"@, JsonModel::Text(prompt)),
            ("params"@, job_params(request)),
            ("r2"@, JsonModel::Bool(true)),
            ("shared"@, JsonModel::Bool(false)),
            ("replacement_filter"@, JsonModel::Bool(false)),
            ("nsfw"@, JsonModel::Bool(true)),
            ("censor_nsfw"@, JsonModel::Bool(false)),
        ];
        let model = match present(request.model@) {
            Some(m) => seq![("models"@, text_array(seq![m]))],
            None => Seq::empty(),
        };
        let image = match source {
            Some(s) => seq![
                ("source_image"@, JsonModel::Text(s)),
                (
                    "source_processing"@,
                    JsonModel::Text(
                        if mask is Some {
                            "inpainting"@
                        } else {
                            "img2img"@
                        },
                    ),
                ),
            ],
            None => Seq::empty(),
        };
        let masked = match mask {
            Some(s) => seq![("source_mask"@, JsonModel::Text(s))],
            None => Seq::empty(),
        };
        Ok(JsonModel::Object(base + model + image + masked))
    }
}

/// The link to a job: what a reply that accepts one is turned into.
pub open spec fn job_link(id: Seq<char>) -> Seq<char> {
    "aihorde://"@ + id
}

/// The number of a job that a reply names.
pub open spec fn job_id(response: JsonModel) -> Option<Seq<char>> {
    match response.get_str("id"@) {
        Some(id) => if trim(id).len() > 0 {
            Some(id)
        } else {
            None
        },
        None => None,
    }
}

/// What a reply comes to: a link to the job, or the error that it names.
pub open spec fn reply_images(response: JsonModel) -> Result<Seq<ImageDataModel>, Seq<char>> {
    match response.get_str("message"@) {
        Some(m) => Err("AI Horde error: "@ + m),
        None => match response.get_str("error"@) {
            Some(e) => Err("AI Horde error: "@ + e),
            None => match job_id(response) {
                Some(id) => Ok(seq![url_data(job_link(id))]),
                None => match response.get_str("rc"@) {
                    Some(rc) => Err("AI Horde request rejected: "@ + rc),
                    None => Err(
                        "AI Horde did not return a generation ID. Response: "@ + json_text(
                            response,
                        ),
                    ),
                },
            },
        },
    }
}

// ---------------------------------------------------------------------------
// The adapter
// ---------------------------------------------------------------------------

/// The adapter for AI Horde. A key is not needed, but one that the user has is sent.
#[derive(Debug)]
pub struct AIHordeAdapter;

/// The key that a job goes by: the user's, or the anonymous one.
pub open spec fn key_in_use(api_key: Seq<char>) -> Seq<char> {
    match present(api_key) {
        Some(s) => s,
        None => AIHordeAdapter::ANONYMOUS_API_KEY@,
    }
}

impl AIHordeAdapter {
    pub const DEFAULT_BASE_URL: &'static str = "https://aihorde.net/api";

    /// The key of those who have none.
    pub const ANONYMOUS_API_KEY: &'static str = "0000000000";

    pub fn clean_api_key(api_key: &str) -> (r: Option<String>)
        ensures
            opt_view(r) == present(api_key@),
    {
        match present_str(api_key) {
            Some(s) => Some(s.to_string()),
            None => None,
        }
    }

    pub fn effective_api_key(api_key: &str) -> (r: String)
        ensures
            r@ == key_in_use(api_key@),
    {
        match present_str(api_key) {
            Some(s) => s.to_string(),
            None => Self::ANONYMOUS_API_KEY.to_string(),
        }
    }

    /// Where the models are listed.
    pub fn models_endpoint(base_url: &str) -> (r: String)
        ensures
            r@ == trim_end_of(base_url@, '/') + "/v2/status/models"@,
    {
        let mut out = trim_end_of_str(base_url, '/').to_string();
        out.append("/v2/status/models");
        out
    }

    pub fn is_valid_reference_image(image: &str) -> (r: bool)
        ensures
            r == is_reference(image@),
    {
        let t = trim_str(image);
        is_link_text(t) || starts_with_str(t, "data:image/") || starts_with_str(t, "iVBOR")
            || starts_with_str(t, "/9j/") || starts_with_str(t, "UklGR") || starts_with_str(
            t,
            "R0lGOD",
        ) || starts_with_str(t, "Qk")
    }

    fn reference_image(request: &ImageGenerationRequest) -> (r: Option<&str>)
        ensures
            opt_str_view(r) == source_image(*request),
    {
        if let Some(s) = usable_image(&request.character_reference_image) {
            return Some(s);
        }
        if let Some(c) = &request.character_context {
            if let Some(s) = usable_image(&c.reference_image) {
                return Some(s);
            }
            if let Some(s) = find_usable(&c.reference_images) {
                return Some(s);
            }
        }
        if let Some(s) = find_usable(&request.character_reference_images) {
            return Some(s);
        }
        match &request.input_images {
            Some(images) => find_usable(images),
            None => None,
        }
    }

    /// The prompt of a job.
    pub fn build_visual_prompt(request: &ImageGenerationRequest) -> (r: String)
        ensures
            r@ == visual_prompt(*request),
    {
        broadcast use views_push;

        let mut parts: Vec<String> = Vec::new();
        assert(views(parts@) =~= Seq::empty());
        if let Some(scene) = &request.scene_context {
            push_scene_context(&mut parts, scene);
            assert(views(parts@) =~= scene_parts(*scene));
        }
        if let Some(character) = &request.character_context {
            push_character_context(&mut parts, character);
        }
        assert(views(parts@) =~= context_parts(*request));
        if let Some(prompt) = present_str(request.prompt.as_str()) {
            if !any_part_contains(&parts, prompt) {
                parts.push(prompt.to_string());
            }
        }
        if let Some(negative) = request.negative_prompt() {
            let mut part = "### Negative prompt: ".to_string();
            part.append(negative);
            parts.push(part);
        }
        join_strs(&parts, ", ")
    }

    fn steps(request: &ImageGenerationRequest) -> (r: u32)
        ensures
            r == job_steps(*request),
    {
        match &request.advanced_model_settings {
            Some(s) => match s.sd_steps {
                Some(n) => clamp_u32(n, 1, 150),
                None => 30,
            },
            None => 30,
        }
    }

    fn cfg_scale(request: &ImageGenerationRequest) -> (r: Fraction)
        ensures
            r@ == job_cfg(*request),
    {
        if let Some(s) = &request.advanced_model_settings {
            if let Some(x) = &s.sd_cfg_scale {
                return clamp_fraction(
                    copy_fraction(x),
                    fraction(ORDER_ONE, 1, "1.0", "1"),
                    fraction(ORDER_THIRTY, 30, "30.0", "30"),
                );
            }
        }
        super::parameters::default_cfg()
    }

    fn seed(request: &ImageGenerationRequest) -> (r: Option<i64>)
        ensures
            r == job_seed(*request),
    {
        match &request.advanced_model_settings {
            Some(s) => match s.sd_seed {
                Some(n) => if n != 0 {
                    Some(n)
                } else {
                    None
                },
                None => None,
            },
            None => None,
        }
    }

    fn denoising_strength(request: &ImageGenerationRequest) -> (r: Fraction)
        ensures
            r@ == job_strength(*request),
    {
        if let Some(s) = &request.advanced_model_settings {
            if let Some(x) = &s.sd_denoising_strength {
                return clamp_fraction(
                    copy_fraction(x),
                    fraction(ORDER_ZERO, 0, "0.0", "0"),
                    fraction(ORDER_ONE, 1, "1.0", "1"),
                );
            }
        }
        fraction(0x3fe1_9999_9999_999a, 0, "0.55", "0.55")
    }

    /// A side of an image in the steps that the workers draw in.
    pub fn horde_dimension(value: u32) -> (r: u32)
        requires
            value <= u32::MAX - 32,
        ensures
            r == rounded(value as nat),
    {
        let v: u32 = if value > 0 {
            value
        } else {
            512
        };
        (v + 32) / 64 * 64
    }

    fn params(request: &ImageGenerationRequest, with_source: bool) -> (r: Json)
        requires
            job_size(*request).0 <= u32::MAX - 32,
            job_size(*request).1 <= u32::MAX - 32,
            with_source == (source_image(*request) is Some),
        ensures
            r@ == job_params(*request),
    {
        broadcast use group_json_views;

        let size: Option<&str> = match &request.size {
            Some(s) => Some(s.as_str()),
            None => None,
        };
        let (width, height) = parse_size_dimensions(size, 512, 512);
        let count: u32 = match request.n {
            Some(n) => clamp_u32(n, 1, 20),
            None => 1,
        };
        let mut members: Vec<(String, Json)> = Vec::new();
        push_member(&mut members, "width", unsigned(Self::horde_dimension(width) as u64));
        push_member(&mut members, "height", unsigned(Self::horde_dimension(height) as u64));
        push_member(&mut members, "steps", unsigned(Self::steps(request) as u64));
        push_member(&mut members, "cfg_scale", fraction_json(&Self::cfg_scale(request)));
        push_member(&mut members, "n", unsigned(count as u64));
        if let Some(n) = Self::seed(request) {
            push_member(&mut members, "seed", Json::Text(decimal_i64(n)));
        }
        if with_source {
            push_member(
                &mut members,
                "denoising_strength",
                fraction_json(&Self::denoising_strength(request)),
            );
        }
        assert(member_views(members@) =~= job_params(*request)->Object_0);
        Json::Object(members)
    }

    fn job(request: &ImageGenerationRequest) -> (r: Result<Json, String>)
        requires
            job_size(*request).0 <= u32::MAX - 32,
            job_size(*request).1 <= u32::MAX - 32,
        ensures
            parsed_view(r) == job_body(*request),
    {
        broadcast use group_json_views;

        let prompt = Self::build_visual_prompt(request);
        if trim_str(prompt.as_str()).is_empty() {
            return Err("AI Horde requires a non-empty visual prompt.".to_string());
        }
        let source = Self::reference_image(request);
        let mask = present_opt(&request.mask_image);
        if let Some(m) = mask {
            if source.is_none() {
                return Err("AI Horde inpainting requires a source/reference image.".to_string());
            }
            if !Self::is_valid_reference_image(m) {
                return Err(
                    "The supplied AI Horde mask is not a supported URL or image-data value.".to_string(),
                );
            }
        }
        let mut members: Vec<(String, Json)> = Vec::new();
        push_member(&mut members, "prompt", text(prompt.as_str()));
        push_member(&mut members, "params", Self::params(request, source.is_some()));
        push_member(&mut members, "r2", Json::Bool(true));
        push_member(&mut members, "shared", Json::Bool(false));
        push_member(&mut members, "replacement_filter", Json::Bool(false));
        push_member(&mut members, "nsfw", Json::Bool(true));
        push_member(&mut members, "censor_nsfw", Json::Bool(false));
        if let Some(m) = present_str(request.model.as_str()) {
            let mut names: Vec<String> = Vec::new();
            names.push(m.to_string());
            assert(views(names@) =~= seq![m@]);
            push_member(&mut members, "models", texts(&names));
        }
        if let Some(s) = source {
            push_member(&mut members, "source_image", text(s));
            let way = if mask.is_some() {
                "inpainting"
            } else {
                "img2img"
            };
            push_member(&mut members, "source_processing", text(way));
        }
        if let Some(m) = mask {
            push_member(&mut members, "source_mask", text(m));
        }
        assert(member_views(members@) =~= job_body(*request)->Ok_0->Object_0);
        Ok(Json::Object(members))
    }

    fn read_reply(response: &Json) -> (r: Result<Vec<ImageResponseData>, String>)
        ensures
            images_view(r) == reply_images(response@),
    {
        let named = match response.get_str("message") {
            Some(m) => Some(m),
            None => response.get_str("error"),
        };
        if let Some(e) = named {
            let mut message = "AI Horde error: ".to_string();
            message.append(e);
            return Err(message);
        }
        if let Some(id) = response.get_str("id") {
            if !trim_str(id).is_empty() {
                let mut link = "aihorde://".to_string();
                link.append(id);
                let mut out: Vec<ImageResponseData> = Vec::new();
                out.push(image_at(link.as_str()));
                assert(image_views(out@) =~= seq![url_data(job_link(id@))]);
                return Ok(out);
            }
        }
        let message = match response.get_str("rc") {
            Some(rc) => {
                let mut m = "AI Horde request rejected: ".to_string();
                m.append(rc);
                m
            },
            None => {
                let mut m = "AI Horde did not return a generation ID. Response: ".to_string();
                m.append(print(response).as_str());
                m
            },
        };
        Err(message)
    }
}

pub open spec fn json_payload(r: Result<JsonModel, Seq<char>>) -> Result<PayloadModel, Seq<char>> {
    match r {
        Ok(j) => Ok(PayloadModel::Json(j)),
        Err(e) => Err(e),
    }
}

impl ImageProviderAdapter for AIHordeAdapter {
    open spec fn endpoint_text(&self, base_url: Seq<char>) -> Seq<char> {
        trim_end_of(base_url, '/') + "/v2/generate/async"@
    }

    open spec fn configured_endpoint(&self, base_url: Seq<char>, config: Option<JsonModel>) -> Seq<
        char,
    > {
        self.endpoint_text(base_url)
    }

    open spec fn header_fields(&self, api_key: Seq<char>, extra: Option<&TextMap>) -> Map<
        Seq<char>,
        Seq<char>,
    > {
        overridden(
            Map::empty().insert("Content-Type"@, "application/json"@).insert(
                "Accept"@,
                "application/json"@,
            ).insert("apikey"@, key_in_use(api_key)),
            extra,
        )
    }

    open spec fn configured_headers(
        &self,
        api_key: Seq<char>,
        env_key: Option<Seq<char>>,
        extra: Option<&TextMap>,
        config: Option<JsonModel>,
    ) -> Map<Seq<char>, Seq<char>> {
        self.header_fields(api_key, extra)
    }

    open spec fn can_ask(&self, request: ImageGenerationRequest) -> bool {
        job_size(request).0 <= u32::MAX - 32 && job_size(request).1 <= u32::MAX - 32
    }

    open spec fn body(&self, request: ImageGenerationRequest) -> Result<PayloadModel, Seq<char>> {
        json_payload(job_body(request))
    }

    open spec fn configured_body(
        &self,
        request: ImageGenerationRequest,
        config: Option<JsonModel>,
    ) -> Result<PayloadModel, Seq<char>> {
        self.body(request)
    }

    open spec fn images_in(&self, response: JsonModel) -> Result<Seq<ImageDataModel>, Seq<char>> {
        reply_images(response)
    }

    open spec fn configured_images_in(
        &self,
        response: JsonModel,
        config: Option<JsonModel>,
    ) -> Result<Seq<ImageDataModel>, Seq<char>> {
        reply_images(response)
    }

    fn endpoint(&self, base_url: &str, _request: &ImageGenerationRequest) -> (r: String) {
        let mut out = trim_end_of_str(base_url, '/').to_string();
        out.append("/v2/generate/async");
        out
    }

    fn endpoint_with_config(
        &self,
        base_url: &str,
        request: &ImageGenerationRequest,
        _config: Option<&Json>,
    ) -> (r: String) {
        self.endpoint(base_url, request)
    }

    fn required_auth_headers(&self) -> (r: Vec<&'static str>)
        ensures
            r@.len() == 0,
    {
        Vec::new()
    }

    fn requires_api_key(&self) -> (r: bool)
        ensures
            !r,
    {
        false
    }

    fn headers(&self, api_key: &str, extra: Option<&TextMap>) -> (r: TextMap) {
        let mut headers = TextMap::new();
        headers.insert("Content-Type", "application/json");
        headers.insert("Accept", "application/json");
        headers.insert("apikey", Self::effective_api_key(api_key).as_str());
        insert_extra(&mut headers, extra);
        headers
    }

    fn headers_with_config(
        &self,
        api_key: &str,
        _env_key: Option<&str>,
        extra: Option<&TextMap>,
        _config: Option<&Json>,
    ) -> (r: TextMap) {
        self.headers(api_key, extra)
    }

    fn payload(&self, request: &ImageGenerationRequest) -> (r: Result<
        ImageRequestPayload,
        String,
    >) {
        match Self::job(request) {
            Ok(j) => Ok(ImageRequestPayload::Json(j)),
            Err(e) => Err(e),
        }
    }

    fn payload_with_config(&self, request: &ImageGenerationRequest, _config: Option<&Json>) -> (r:
        Result<ImageRequestPayload, String>) {
        self.payload(request)
    }

    fn parse_response(&self, response: &Json) -> (r: Result<Vec<ImageResponseData>, String>) {
        Self::read_reply(response)
    }

    fn parse_response_with_config(&self, response: &Json, _config: Option<&Json>) -> (r: Result<
        Vec<ImageResponseData>,
        String,
    >) {
        Self::read_reply(response)
    }

    fn response_format(&self) -> (r: ImageResponseFormat)
        ensures
            r == ImageResponseFormat::Json,
    {
        ImageResponseFormat::Json
    }

    fn supports_stream(&self) -> (r: bool)
        ensures
            !r,
    {
        false
    }
}

// ---------------------------------------------------------------------------
// Laws
// ---------------------------------------------------------------------------

/// A side that AI Horde draws is a multiple of 64, and no other multiple is nearer to the side
/// that was asked for.
pub proof fn law_rounded_side(value: nat)
    requires
        value > 0,
    ensures
        rounded(value) % 64 == 0,
        -32 <= rounded(value) - value <= 32,
{
}

/// A job starts from a source image exactly where one is usable, and an accepted job never has a
/// mask without one.
pub proof fn law_mask_needs_source(request: ImageGenerationRequest)
    ensures
        job_body(request) is Ok && opt_present(opt_view(request.mask_image)) is Some ==> (
        source_image(request) matches Some(s) && is_reference(s)),
{
    lemma_usable(request);
}

proof fn lemma_usable(request: ImageGenerationRequest)
    ensures
        source_image(request) matches Some(s) ==> is_reference(s),
{
    if let Some(c) = request.character_context {
        lemma_first_usable(views(c.reference_images@));
    }
    lemma_first_usable(views(request.character_reference_images@));
    lemma_first_usable(request.input_views());
}

proof fn lemma_first_usable(images: Seq<Seq<char>>)
    ensures
        first_usable(images) matches Some(s) ==> is_reference(s),
    decreases images.len(),
{
    if images.len() > 0 && !is_reference(images[0]) {
        lemma_first_usable(images.drop_first());
    }
}

/// A job asks for the model of the request and for no other; without one it asks for none.
pub proof fn law_job_asks_for_model(request: ImageGenerationRequest)
    ensures
        job_body(request) matches Ok(body) ==> body.get("models"@) == (match present(
            request.model@,
        ) {
            Some(m) => Some(text_array(seq![m])),
            None => None,
        }),
{
    if let Ok(body) = job_body(request) {
        let members = body->Object_0;
        reveal_strlit("prompt");
        reveal_strlit("params");
        reveal_strlit("r2");
        reveal_strlit("shared");
        reveal_strlit("replacement_filter");
        reveal_strlit("nsfw");
        reveal_strlit("censor_nsfw");
        reveal_strlit("models");
        reveal_strlit("source_image");
        reveal_strlit("source_processing");
        reveal_strlit("source_mask");
        assert("models"@.len() == 6 && "models"@[0] == 'm');
        assert forall|j: int| 0 <= j < 7 implies (#[trigger] members[j]).0 != "models"@ by {
            assert(members[0].0.len() == 6 && members[0].0[0] == 'p');
            assert(members[1].0.len() == 6 && members[1].0[0] == 'p');
            assert(members[2].0.len() == 2);
            assert(members[3].0.len() == 6 && members[3].0[0] == 's');
            assert(members[4].0.len() == 18);
            assert(members[5].0.len() == 4);
            assert(members[6].0.len() == 11);
        }
        if present(request.model@) is Some {
            assert(members[7].0 == "models"@);
            lemma_first_member(members, 7);
        } else {
            assert forall|j: int| 0 <= j < members.len() implies (#[trigger] members[j]).0
                != "models"@ by {
                if j >= 7 {
                    assert(members[j].0[0] == 's');
                }
            }
            lemma_no_member(members, "models"@);
        }
    }
}

/// A reply that is accepted has an image or a link to a job.
pub proof fn law_reply_has_images(response: JsonModel)
    ensures
        reply_images(response) matches Ok(images) ==> images.len() > 0,
{
}

// ---------------------------------------------------------------------------
// What a job asks for
// ---------------------------------------------------------------------------

/// A label with a value, where the value says anything.
pub open spec fn labelled_value(label: Seq<char>, value: Option<String>) -> Seq<char> {
    match value {
        Some(s) => if trim(s@).len() > 0 {
            label + trim(s@)
        } else {
            Seq::empty()
        },
        None => Seq::empty(),
    }
}

pub open spec fn comma(a: Seq<char>, b: Seq<char>) -> Seq<char> {
    glued(a, ", "@, b)
}

/// What a job says of a character.
pub open spec fn text_of_character(c: ImageCharacterContext) -> Seq<char> {
    comma(
        comma(
            comma(
                labelled_value("Character name: "@, c.name),
                labelled_value("Character description: "@, c.description),
            ),
            labelled_value("Character appearance: "@, c.appearance),
        ),
        labelled_value("Character personality: "@, c.personality),
    )
}

/// What a job says of the characters of a scene, one after the other.
pub open spec fn text_of_cast(cast: Seq<ImageSceneCharacter>) -> Seq<char>
    decreases cast.len(),
{
    if cast.len() == 0 {
        Seq::empty()
    } else {
        comma(
            text_of_cast(cast.drop_last()),
            comma(
                comma(
                    text_of_character(cast.last().character),
                    labelled_value("Scene role: "@, cast.last().scene_role),
                ),
                labelled_value("Scene action: "@, cast.last().action),
            ),
        )
    }
}

/// What a job says of how a scene looks.
pub open spec fn text_of_looks(scene: ImageSceneContext) -> Seq<char> {
    comma(
        comma(
            comma(
                labelled_value("Environment: "@, scene.environment),
                labelled_value("Lighting: "@, scene.lighting),
            ),
            labelled_value("Composition: "@, scene.composition),
        ),
        comma(
            comma(
                labelled_value("Pose: "@, scene.pose),
                labelled_value("Outfit: "@, scene.outfit),
            ),
            labelled_value("Visual style: "@, scene.visual_style),
        ),
    )
}

/// What a job says of a scene: its visual prompt, or where it has none its description; then how it
/// looks and who is in it.
pub open spec fn text_of_scene(scene: ImageSceneContext) -> Seq<char> {
    comma(
        comma(
            match scene.visual_prompt {
                Some(s) => trim(s@),
                None => labelled_value("Scene: "@, scene.description),
            },
            text_of_looks(scene),
        ),
        text_of_cast(scene.characters@),
    )
}

proof fn lemma_labelled(label: Seq<char>, whole: Seq<char>, value: Option<String>)
    requires
        whole == label + ": "@,
    ensures
        none_empty(labelled(label, opt_view(value))),
        join(labelled(label, opt_view(value)), ", "@) == labelled_value(whole, value),
{
    if let Some(s) = value {
        law_join(Seq::empty(), Seq::empty(), ", "@, whole + trim(s@));
    }
    law_join(Seq::empty(), Seq::empty(), ", "@, Seq::empty());
    assert(join(Seq::empty(), ", "@) =~= Seq::empty());
}

proof fn lemma_character_parts(c: ImageCharacterContext)
    ensures
        none_empty(character_parts(c)),
        join(character_parts(c), ", "@) == text_of_character(c),
{
    lemma_labels();
    lemma_labelled("Character name"@, "Character name: "@, c.name);
    lemma_labelled("Character description"@, "Character description: "@, c.description);
    lemma_labelled("Character appearance"@, "Character appearance: "@, c.appearance);
    lemma_labelled("Character personality"@, "Character personality: "@, c.personality);
    let n = labelled("Character name"@, opt_view(c.name));
    let d = labelled("Character description"@, opt_view(c.description));
    let a = labelled("Character appearance"@, opt_view(c.appearance));
    let p = labelled("Character personality"@, opt_view(c.personality));
    lemma_join_glued(n, d, ", "@);
    lemma_join_glued(n + d, a, ", "@);
    lemma_join_glued(n + d + a, p, ", "@);
}

/// The labels, each with a colon.
proof fn lemma_labels()
    ensures
        "Character name: "@ == "Character name"@ + ": "@,
        "Character description: "@ == "Character description"@ + ": "@,
        "Character appearance: "@ == "Character appearance"@ + ": "@,
        "Character personality: "@ == "Character personality"@ + ": "@,
        "Scene role: "@ == "Scene role"@ + ": "@,
        "Scene action: "@ == "Scene action"@ + ": "@,
        "Environment: "@ == "Environment"@ + ": "@,
        "Lighting: "@ == "Lighting"@ + ": "@,
        "Composition: "@ == "Composition"@ + ": "@,
        "Pose: "@ == "Pose"@ + ": "@,
        "Outfit: "@ == "Outfit"@ + ": "@,
        "Visual style: "@ == "Visual style"@ + ": "@,
        "Scene: "@ == "Scene"@ + ": "@,
{
    reveal_strlit(": ");
    reveal_strlit("Character name: ");
    reveal_strlit("Character name");
    assert("Character name: "@ =~= "Character name"@ + ": "@);
    reveal_strlit("Character description: ");
    reveal_strlit("Character description");
    assert("Character description: "@ =~= "Character description"@ + ": "@);
    reveal_strlit("Character appearance: ");
    reveal_strlit("Character appearance");
    assert("Character appearance: "@ =~= "Character appearance"@ + ": "@);
    reveal_strlit("Character personality: ");
    reveal_strlit("Character personality");
    assert("Character personality: "@ =~= "Character personality"@ + ": "@);
    reveal_strlit("Scene role: ");
    reveal_strlit("Scene role");
    assert("Scene role: "@ =~= "Scene role"@ + ": "@);
    reveal_strlit("Scene action: ");
    reveal_strlit("Scene action");
    assert("Scene action: "@ =~= "Scene action"@ + ": "@);
    reveal_strlit("Environment: ");
    reveal_strlit("Environment");
    assert("Environment: "@ =~= "Environment"@ + ": "@);
    reveal_strlit("Lighting: ");
    reveal_strlit("Lighting");
    assert("Lighting: "@ =~= "Lighting"@ + ": "@);
    reveal_strlit("Composition: ");
    reveal_strlit("Composition");
    assert("Composition: "@ =~= "Composition"@ + ": "@);
    reveal_strlit("Pose: ");
    reveal_strlit("Pose");
    assert("Pose: "@ =~= "Pose"@ + ": "@);
    reveal_strlit("Outfit: ");
    reveal_strlit("Outfit");
    assert("Outfit: "@ =~= "Outfit"@ + ": "@);
    reveal_strlit("Visual style: ");
    reveal_strlit("Visual style");
    assert("Visual style: "@ =~= "Visual style"@ + ": "@);
    reveal_strlit("Scene: ");
    reveal_strlit("Scene");
    assert("Scene: "@ =~= "Scene"@ + ": "@);
}

proof fn lemma_cast_parts(cast: Seq<ImageSceneCharacter>)
    ensures
        none_empty(cast_parts(cast)),
        join(cast_parts(cast), ", "@) == text_of_cast(cast),
    decreases cast.len(),
{
    law_join(Seq::empty(), Seq::empty(), ", "@, Seq::empty());
    assert(join(Seq::empty(), ", "@) =~= Seq::empty());
    if cast.len() > 0 {
        let c = cast.last();
        lemma_cast_parts(cast.drop_last());
        lemma_character_parts(c.character);
        lemma_labels();
        lemma_labelled("Scene role"@, "Scene role: "@, c.scene_role);
        lemma_labelled("Scene action"@, "Scene action: "@, c.action);
        let role = labelled("Scene role"@, opt_view(c.scene_role));
        let action = labelled("Scene action"@, opt_view(c.action));
        lemma_join_glued(character_parts(c.character), role, ", "@);
        lemma_join_glued(character_parts(c.character) + role, action, ", "@);
        lemma_join_glued(cast_parts(cast.drop_last()), scene_character_parts(c), ", "@);
    }
}

proof fn lemma_looks_parts(scene: ImageSceneContext)
    ensures
        none_empty(scene_setting(scene) + scene_looks(scene)),
        join(scene_setting(scene) + scene_looks(scene), ", "@) == text_of_looks(scene),
{
    lemma_labels();
    lemma_labelled("Environment"@, "Environment: "@, scene.environment);
    lemma_labelled("Lighting"@, "Lighting: "@, scene.lighting);
    lemma_labelled("Composition"@, "Composition: "@, scene.composition);
    lemma_labelled("Pose"@, "Pose: "@, scene.pose);
    lemma_labelled("Outfit"@, "Outfit: "@, scene.outfit);
    lemma_labelled("Visual style"@, "Visual style: "@, scene.visual_style);
    let e = labelled("Environment"@, opt_view(scene.environment));
    let l = labelled("Lighting"@, opt_view(scene.lighting));
    let c = labelled("Composition"@, opt_view(scene.composition));
    let p = labelled("Pose"@, opt_view(scene.pose));
    let o = labelled("Outfit"@, opt_view(scene.outfit));
    let v = labelled("Visual style"@, opt_view(scene.visual_style));
    lemma_join_glued(e, l, ", "@);
    lemma_join_glued(e + l, c, ", "@);
    lemma_join_glued(p, o, ", "@);
    lemma_join_glued(p + o, v, ", "@);
    lemma_join_glued(e + l + c, p + o + v, ", "@);
}

proof fn lemma_scene_parts(scene: ImageSceneContext)
    ensures
        none_empty(scene_parts(scene)),
        join(scene_parts(scene), ", "@) == text_of_scene(scene),
{
    let head = scene_head(scene);
    law_join(Seq::empty(), Seq::empty(), ", "@, Seq::empty());
    assert(join(Seq::empty(), ", "@) =~= Seq::empty());
    match scene.visual_prompt {
        Some(s) => {
            law_join(Seq::empty(), Seq::empty(), ", "@, trim(s@));
            if trim(s@).len() == 0 {
                assert(trim(s@) =~= Seq::empty());
            }
        },
        None => {
            lemma_labels();
            lemma_labelled("Scene"@, "Scene: "@, scene.description);
        },
    }
    lemma_looks_parts(scene);
    lemma_cast_parts(scene.characters@);
    let looks = scene_setting(scene) + scene_looks(scene);
    lemma_join_glued(head, looks, ", "@);
    lemma_join_glued(head + looks, cast_parts(scene.characters@), ", "@);
    assert(scene_parts(scene) =~= head + looks + cast_parts(scene.characters@));
}

/// The prompt of a job says the scene, then the character, then what the request asks for unless
/// that is said already, and last, behind a marker, what is to be avoided.
pub proof fn law_job_prompt(request: ImageGenerationRequest) -> (own: Seq<char>)
    ensures
        own.len() == 0 || own == trim(request.prompt@),
        ({
            let scene = match request.scene_context {
                Some(s) => text_of_scene(s),
                None => Seq::empty(),
            };
            let character = match request.character_context {
                Some(c) => text_of_character(c),
                None => Seq::empty(),
            };
            let context = comma(scene, character);
            let avoided = match request.scene_context {
                Some(s) => labelled_value("### Negative prompt: "@, s.negative_prompt),
                None => Seq::empty(),
            };
            &&& visual_prompt(request) == comma(comma(context, own), avoided)
            &&& own != trim(request.prompt@) ==> contains(context, trim(request.prompt@))
            &&& match request.scene_context {
                Some(s) => s.visual_prompt matches Some(t) ==> (contains(
                    trim(t@),
                    trim(request.prompt@),
                ) ==> own.len() == 0),
                None => true,
            }
        }),
{
    let scene = match request.scene_context {
        Some(s) => scene_parts(s),
        None => Seq::empty(),
    };
    let character = match request.character_context {
        Some(c) => character_parts(c),
        None => Seq::empty(),
    };
    law_join(Seq::empty(), Seq::empty(), ", "@, Seq::empty());
    assert(join(Seq::empty(), ", "@) =~= Seq::empty());
    if let Some(s) = request.scene_context {
        lemma_scene_parts(s);
    }
    if let Some(c) = request.character_context {
        lemma_character_parts(c);
    }
    lemma_join_glued(scene, character, ", "@);
    let context = context_parts(request);
    let prompt = trim(request.prompt@);
    let held = prompt.len() == 0 || some_part_contains(context, prompt);
    let own = if held {
        Seq::empty()
    } else {
        prompt
    };
    let own_part = if held {
        Seq::empty()
    } else {
        seq![prompt]
    };
    law_join(Seq::empty(), Seq::empty(), ", "@, prompt);
    lemma_join_glued(context, own_part, ", "@);
    let avoided = match request.scene_negative_prompt() {
        Some(s) => seq!["### Negative prompt: "@ + s],
        None => Seq::empty(),
    };
    if let Some(s) = request.scene_negative_prompt() {
        law_join(Seq::empty(), Seq::empty(), ", "@, "### Negative prompt: "@ + s);
    }
    lemma_join_glued(context + own_part, avoided, ", "@);
    assert(prompt_parts(request) =~= context + own_part + avoided);
    if prompt.len() == 0 {
        assert(own =~= prompt);
    } else if held {
        let i = choose|i: int| 0 <= i < context.len() && contains(#[trigger] context[i], prompt);
        lemma_joined_holds(context, ", "@, i, prompt);
    }
    if let Some(s) = request.scene_context {
        if let Some(t) = s.visual_prompt {
            if prompt.len() > 0 && contains(trim(t@), prompt) {
                let k = choose|k: int| occurs_at(trim(t@), prompt, k);
                assert(trim(t@).len() > 0);
                assert(context[0] == trim(t@));
            }
        }
    }
    own
}

/// What a part of a joined text holds, the text holds.
proof fn lemma_joined_holds(parts: Seq<Seq<char>>, sep: Seq<char>, i: int, s: Seq<char>)
    requires
        0 <= i < parts.len(),
        contains(parts[i], s),
    ensures
        contains(join(parts, sep), s),
    decreases parts.len(),
{
    if parts.len() > 1 {
        let front = join(parts.drop_last(), sep);
        let whole = join(parts, sep);
        if i < parts.len() - 1 {
            lemma_joined_holds(parts.drop_last(), sep, i, s);
            let k = choose|k: int| occurs_at(front, s, k);
            assert(whole.subrange(k, k + s.len()) =~= front.subrange(k, k + s.len()));
            assert(occurs_at(whole, s, k));
        } else {
            let k = choose|k: int| occurs_at(parts[i], s, k);
            let n = front.len() + sep.len() + k;
            assert(whole.subrange(n, n + s.len()) =~= parts[i].subrange(k, k + s.len()));
            assert(occurs_at(whole, s, n as int));
        }
    }
}

/// Whatever is known of scene and character, the prompt of a job holds what the request asks for.
pub proof fn law_job_holds_own_prompt(request: ImageGenerationRequest)
    ensures
        contains(visual_prompt(request), trim(request.prompt@)),
{
    let own = law_job_prompt(request);
    let prompt = trim(request.prompt@);
    let scene = match request.scene_context {
        Some(s) => text_of_scene(s),
        None => Seq::empty(),
    };
    let character = match request.character_context {
        Some(c) => text_of_character(c),
        None => Seq::empty(),
    };
    let avoided = match request.scene_context {
        Some(s) => labelled_value("### Negative prompt: "@, s.negative_prompt),
        None => Seq::empty(),
    };
    let context = comma(scene, character);
    if own == prompt {
        assert(prompt.subrange(0, prompt.len() as int) =~= prompt);
        assert(occurs_at(own, prompt, 0));
    }
    lemma_glued_holds(context, ", "@, own, prompt);
    lemma_glued_holds(comma(context, own), ", "@, avoided, prompt);
}

/// What one of two texts holds, both together hold.
proof fn lemma_glued_holds(a: Seq<char>, sep: Seq<char>, b: Seq<char>, s: Seq<char>)
    requires
        contains(a, s) || contains(b, s),
    ensures
        contains(glued(a, sep, b), s),
{
    let whole = glued(a, sep, b);
    if contains(a, s) {
        let k = choose|k: int| occurs_at(a, s, k);
        if a.len() == 0 {
            assert(whole.subrange(0, 0) =~= s);
            assert(occurs_at(whole, s, 0));
        } else {
            assert(whole.subrange(k, k + s.len()) =~= a.subrange(k, k + s.len()));
            assert(occurs_at(whole, s, k));
        }
    } else {
        let k = choose|k: int| occurs_at(b, s, k);
        let n: int = if a.len() == 0 {
            k
        } else {
            a.len() + sep.len() + k
        };
        if b.len() == 0 {
            assert(whole.subrange(0, 0) =~= s);
            assert(occurs_at(whole, s, 0));
        } else {
            assert(whole.subrange(n, n + s.len()) =~= b.subrange(k, k + s.len()));
            assert(occurs_at(whole, s, n));
        }
    }
}

/// What a scene is to avoid stands at the very end of the prompt of a job, behind a marker that tells
/// it from what is asked for; without it the prompt is the same but for that.
pub proof fn law_negative_prompt_is_marked(
    request: ImageGenerationRequest,
    plain: ImageGenerationRequest,
    scene: ImageSceneContext,
    negative: String,
)
    requires
        trim(negative@).len() > 0,
        request.scene_context == Some(
            ImageSceneContext { negative_prompt: Some(negative), ..scene },
        ),
        plain == (ImageGenerationRequest {
            scene_context: Some(ImageSceneContext { negative_prompt: None, ..scene }),
            ..request
        }),
    ensures
        ends_with(visual_prompt(request), "### Negative prompt: "@ + trim(negative@)),
        visual_prompt(request) == (if visual_prompt(plain).len() == 0 {
            "### Negative prompt: "@ + trim(negative@)
        } else {
            visual_prompt(plain) + ", "@ + "### Negative prompt: "@ + trim(negative@)
        }),
{
    let marked = "### Negative prompt: "@ + trim(negative@);
    let asked = prompt_parts(plain);
    assert(context_parts(request) =~= context_parts(plain));
    assert(prompt_parts(request) =~= asked + seq![marked]);
    law_join(asked, seq![marked], ", "@, marked);
    let own = law_job_prompt(plain);
    let whole = visual_prompt(request);
    if asked.len() > 0 {
        assert(visual_prompt(plain) + ", "@ + marked =~= visual_prompt(plain) + ", "@
            + "### Negative prompt: "@ + trim(negative@));
    }
    assert(whole.skip(whole.len() - marked.len()) =~= marked);
    lemma_prompt_parts_say(plain);
}

proof fn lemma_prompt_parts_say(request: ImageGenerationRequest)
    requires
        request.scene_negative_prompt() is None,
    ensures
        prompt_parts(request).len() > 0 ==> visual_prompt(request).len() > 0,
{
    let scene = match request.scene_context {
        Some(s) => scene_parts(s),
        None => Seq::empty(),
    };
    let character = match request.character_context {
        Some(c) => character_parts(c),
        None => Seq::empty(),
    };
    if let Some(s) = request.scene_context {
        lemma_scene_parts(s);
    }
    if let Some(c) = request.character_context {
        lemma_character_parts(c);
    }
    lemma_join_glued(scene, character, ", "@);
    let prompt = trim(request.prompt@);
    if prompt_parts(request) != context_parts(request) {
        lemma_join_glued(context_parts(request), seq![prompt], ", "@);
        assert(prompt_parts(request) =~= context_parts(request) + seq![prompt]);
        assert(Seq::<Seq<char>>::empty() + prompt_parts(request) =~= prompt_parts(request));
    }
    lemma_join_glued(Seq::empty(), prompt_parts(request), ", "@);
}

/// The members that every job has.
proof fn lemma_job_members(request: ImageGenerationRequest)
    ensures
        job_body(request) matches Ok(body) ==> {
            let members = body->Object_0;
            &&& body.get("prompt"@) == Some(members[0].1)
            &&& body.get("params"@) == Some(members[1].1)
            &&& body.get("r2"@) == Some(members[2].1)
            &&& body.get("shared"@) == Some(members[3].1)
            &&& body.get("replacement_filter"@) == Some(members[4].1)
            &&& body.get("nsfw"@) == Some(members[5].1)
            &&& body.get("censor_nsfw"@) == Some(members[6].1)
        },
{
    if let Ok(body) = job_body(request) {
        let members = body->Object_0;
        reveal_strlit("prompt");
        reveal_strlit("params");
        reveal_strlit("r2");
        reveal_strlit("shared");
        reveal_strlit("replacement_filter");
        reveal_strlit("nsfw");
        reveal_strlit("censor_nsfw");
        lemma_first_member(members, 0);
        assert forall|j: int| 0 <= j < 1 implies (#[trigger] members[j]).0 != members[1].0 by {
            assert(members[1].0.len() == 6);
            assert(members[0].0[1] == 'r');
            assert(members[1].0[1] == 'a');
        }
        lemma_first_member(members, 1);
        assert forall|j: int| 0 <= j < 2 implies (#[trigger] members[j]).0 != members[2].0 by {
            assert(members[2].0.len() == 2);
        }
        lemma_first_member(members, 2);
        assert forall|j: int| 0 <= j < 3 implies (#[trigger] members[j]).0 != members[3].0 by {
            assert(members[3].0.len() == 6);
            assert(members[0].0[0] == 'p');
            assert(members[3].0[0] == 's');
            assert(members[1].0[0] == 'p');
        }
        lemma_first_member(members, 3);
        assert forall|j: int| 0 <= j < 4 implies (#[trigger] members[j]).0 != members[4].0 by {
            assert(members[4].0.len() == 18);
        }
        lemma_first_member(members, 4);
        assert forall|j: int| 0 <= j < 5 implies (#[trigger] members[j]).0 != members[5].0 by {
            assert(members[5].0.len() == 4);
        }
        lemma_first_member(members, 5);
        assert forall|j: int| 0 <= j < 6 implies (#[trigger] members[j]).0 != members[6].0 by {
            assert(members[6].0.len() == 11);
        }
        lemma_first_member(members, 6);
    }
}

/// The members that only some jobs have.
proof fn lemma_optional_job_members(request: ImageGenerationRequest)
    ensures
        job_body(request) matches Ok(body) ==> {
            &&& body.get_str("source_image"@) == source_image(request)
            &&& body.get("source_image"@) is Some <==> source_image(request) is Some
            &&& body.get_str("source_processing"@) == (if source_image(request) is None {
                None
            } else if opt_present(opt_view(request.mask_image)) is Some {
                Some("inpainting"@)
            } else {
                Some("img2img"@)
            })
            &&& body.get_str("source_mask"@) == opt_present(opt_view(request.mask_image))
        },
{
    if let Ok(body) = job_body(request) {
        let base = body->Object_0.take(7);
        let source = source_image(request);
        let mask = opt_present(opt_view(request.mask_image));
        let model = match present(request.model@) {
            Some(m) => seq![("models"@, text_array(seq![m]))],
            None => Seq::empty(),
        };
        let image = match source {
            Some(s) => seq![
                ("source_image"@, JsonModel::Text(s)),
                (
                    "source_processing"@,
                    JsonModel::Text(
                        if mask is Some {
                            "inpainting"@
                        } else {
                            "img2img"@
                        },
                    ),
                ),
            ],
            None => Seq::empty(),
        };
        let masked = match mask {
            Some(s) => seq![("source_mask"@, JsonModel::Text(s))],
            None => Seq::empty(),
        };
        assert(body->Object_0 =~= base + model + image + masked);
        reveal_strlit("prompt");
        reveal_strlit("params");
        reveal_strlit("r2");
        reveal_strlit("shared");
        reveal_strlit("replacement_filter");
        reveal_strlit("nsfw");
        reveal_strlit("censor_nsfw");
        reveal_strlit("models");
        reveal_strlit("source_image");
        reveal_strlit("source_processing");
        reveal_strlit("source_mask");
        assert forall|j: int| 0 <= j < base.len() implies (#[trigger] base[j]).0 != "source_image"@ by {
            assert("source_image"@.len() == 12);
        }
        lemma_no_member(base, "source_image"@);
        assert forall|j: int| 0 <= j < model.len() implies (#[trigger] model[j]).0 != "source_image"@ by {
            assert("source_image"@.len() == 12);
        }
        lemma_no_member(model, "source_image"@);
        lemma_member_add(base, model, "source_image"@);
        lemma_member_add(base + model, image, "source_image"@);
        lemma_member_add(base + model + image, masked, "source_image"@);
        assert forall|j: int| 0 <= j < base.len() implies (#[trigger] base[j]).0 != "source_processing"@ by {
            assert("source_processing"@.len() == 17);
        }
        lemma_no_member(base, "source_processing"@);
        assert forall|j: int| 0 <= j < model.len() implies (#[trigger] model[j]).0 != "source_processing"@ by {
            assert("source_processing"@.len() == 17);
        }
        lemma_no_member(model, "source_processing"@);
        lemma_member_add(base, model, "source_processing"@);
        lemma_member_add(base + model, image, "source_processing"@);
        lemma_member_add(base + model + image, masked, "source_processing"@);
        assert forall|j: int| 0 <= j < base.len() implies (#[trigger] base[j]).0 != "source_mask"@ by {
            assert("source_mask"@.len() == 11);
            assert(base[6].0[0] == 'c' && "source_mask"@[0] == 's');
        }
        lemma_no_member(base, "source_mask"@);
        assert forall|j: int| 0 <= j < model.len() implies (#[trigger] model[j]).0 != "source_mask"@ by {
            assert("source_mask"@.len() == 11);
        }
        lemma_no_member(model, "source_mask"@);
        lemma_member_add(base, model, "source_mask"@);
        lemma_member_add(base + model, image, "source_mask"@);
        lemma_member_add(base + model + image, masked, "source_mask"@);
        if source is Some {
            lemma_first_member(image, 0);
            assert forall|j: int| 0 <= j < 1 implies (#[trigger] image[j]).0 != image[1].0 by {
                assert(image[0].0.len() == 12);
                assert(image[1].0.len() == 17);
            }
            lemma_first_member(image, 1);
            assert forall|j: int| 0 <= j < image.len() implies (#[trigger] image[j]).0
                != "source_mask"@ by {
                assert(image[0].0.len() == 12);
                assert(image[1].0.len() == 17);
                assert("source_mask"@.len() == 11);
            }
            lemma_no_member(image, "source_mask"@);
        }
        if mask is Some {
            lemma_first_member(masked, 0);
            assert(masked[0].0.len() == 11);
            lemma_no_member(masked, "source_image"@);
            lemma_no_member(masked, "source_processing"@);
        }
    }
}

proof fn lemma_job_params(request: ImageGenerationRequest)
    ensures
        ({
            let params = job_params(request);
            let members = params->Object_0;
            &&& params.get("width"@) == Some(members[0].1)
            &&& params.get("height"@) == Some(members[1].1)
            &&& params.get("steps"@) == Some(members[2].1)
            &&& params.get("cfg_scale"@) == Some(members[3].1)
            &&& params.get("n"@) == Some(members[4].1)
            &&& params.get_str("seed"@) == (match job_seed(request) {
                Some(n) => Some(decimal_int(n as int)),
                None => None,
            })
            &&& params.get("denoising_strength"@) == (if source_image(request) is Some {
                Some(fraction_value(job_strength(request)))
            } else {
                None
            })
        }),
{
    let members = job_params(request)->Object_0;
    let base = members.take(5);
    let seed = match job_seed(request) {
        Some(n) => seq![("seed"@, JsonModel::Text(decimal_int(n as int)))],
        None => Seq::empty(),
    };
    let strength = if source_image(request) is Some {
        seq![("denoising_strength"@, fraction_value(job_strength(request)))]
    } else {
        Seq::empty()
    };
    assert(members =~= base + seed + strength);
    reveal_strlit("width");
    reveal_strlit("height");
    reveal_strlit("steps");
    reveal_strlit("cfg_scale");
    reveal_strlit("n");
    reveal_strlit("seed");
    reveal_strlit("denoising_strength");
    lemma_first_member(members, 0);
    assert forall|j: int| 0 <= j < 1 implies (#[trigger] members[j]).0 != members[1].0 by {
        assert(members[1].0.len() == 6);
    }
    lemma_first_member(members, 1);
    assert forall|j: int| 0 <= j < 2 implies (#[trigger] members[j]).0 != members[2].0 by {
        assert(members[2].0.len() == 5);
        assert(members[0].0[0] == 'w');
        assert(members[2].0[0] == 's');
    }
    lemma_first_member(members, 2);
    assert forall|j: int| 0 <= j < 3 implies (#[trigger] members[j]).0 != members[3].0 by {
        assert(members[3].0.len() == 9);
    }
    lemma_first_member(members, 3);
    assert forall|j: int| 0 <= j < 4 implies (#[trigger] members[j]).0 != members[4].0 by {
        assert(members[4].0.len() == 1);
    }
    lemma_first_member(members, 4);
    assert forall|j: int| 0 <= j < base.len() implies (#[trigger] base[j]).0 != "seed"@ by {
        assert("seed"@.len() == 4);
    }
    lemma_no_member(base, "seed"@);
    assert forall|j: int| 0 <= j < base.len() implies (#[trigger] base[j]).0 != "denoising_strength"@ by {
        assert("denoising_strength"@.len() == 18);
    }
    lemma_no_member(base, "denoising_strength"@);
    lemma_member_add(base, seed, "seed"@);
    lemma_member_add(base + seed, strength, "seed"@);
    lemma_member_add(base, seed, "denoising_strength"@);
    lemma_member_add(base + seed, strength, "denoising_strength"@);
    if job_seed(request) is Some {
        lemma_first_member(seed, 0);
        assert(seed[0].0.len() == 4);
    }
    lemma_no_member(seed, "denoising_strength"@);
    if source_image(request) is Some {
        lemma_first_member(strength, 0);
        assert(strength[0].0.len() == 18);
    }
    lemma_no_member(strength, "seed"@);
}

/// A job has the prompt, starts from the source image where there is one, is drawn over within the
/// mask where there is one, and is neither shared nor censored.
pub proof fn law_job_says_what_is_asked(request: ImageGenerationRequest)
    ensures
        job_body(request) matches Ok(body) ==> {
            &&& body.get_str("prompt"@) == Some(visual_prompt(request))
            &&& trim(visual_prompt(request)).len() > 0
            &&& body.get_bool("r2"@) == Some(true)
            &&& body.get_bool("shared"@) == Some(false)
            &&& body.get_bool("replacement_filter"@) == Some(false)
            &&& body.get_bool("nsfw"@) == Some(true)
            &&& body.get_bool("censor_nsfw"@) == Some(false)
            &&& body.get_str("source_image"@) == source_image(request)
            &&& match request.mask_image {
                Some(m) if trim(m@).len() > 0 => {
                    &&& body.get_str("source_mask"@) == Some(trim(m@))
                    &&& body.get_str("source_processing"@) == Some("inpainting"@)
                    &&& source_image(request) is Some
                },
                _ => {
                    &&& body.get_str("source_mask"@) is None
                    &&& source_image(request) is Some ==> body.get_str("source_processing"@) == Some(
                        "img2img"@,
                    )
                },
            }
        },
        job_body(request) is Err ==> trim(visual_prompt(request)).len() == 0 || (
        request.mask_image matches Some(m) && trim(m@).len() > 0 && (source_image(request) is None
            || !is_reference(trim(m@)))),
{
    lemma_job_members(request);
    lemma_optional_job_members(request);
}

/// The parameters of a job are those that the request sets, brought into the range that AI Horde
/// takes, or the usual ones.
pub proof fn law_job_parameters(request: ImageGenerationRequest)
    requires
        job_size(request).0 <= u32::MAX - 32,
        job_size(request).1 <= u32::MAX - 32,
    ensures
        job_body(request) matches Ok(body) ==> (body.get("params"@) matches Some(params) && {
            &&& params.get_u64("width"@) matches Some(w) && w % 64 == 0 && -32 <= w - job_size(
                request,
            ).0 <= 32
            &&& params.get_u64("height"@) matches Some(h) && h % 64 == 0 && -32 <= h - job_size(
                request,
            ).1 <= 32
            &&& params.get_u64("steps"@) matches Some(k) && 1 <= k <= 150 && match request.advanced_model_settings {
                Some(s) => match s.sd_steps {
                    Some(n) => (1 <= n <= 150 ==> k == n) && (n > 150 ==> k == 150) && (n == 0
                        ==> k == 1),
                    None => k == 30,
                },
                None => k == 30,
            }
            &&& params.get_u64("n"@) matches Some(k) && 1 <= k <= 20 && match request.n {
                Some(n) => (1 <= n <= 20 ==> k == n) && (n > 20 ==> k == 20) && (n == 0 ==> k == 1),
                None => k == 1,
            }
            &&& match request.advanced_model_settings {
                Some(s) => match s.sd_seed {
                    Some(n) if n != 0 => params.get_str("seed"@) == Some(decimal_int(n as int)),
                    _ => params.get_str("seed"@) is None,
                },
                None => params.get_str("seed"@) is None,
            }
            &&& match request.advanced_model_settings {
                Some(s) => match s.sd_cfg_scale {
                    Some(x) => {
                        &&& ORDER_ONE <= x.order <= ORDER_THIRTY ==> params.get("cfg_scale"@)
                            == Some(fraction_value(x@))
                        &&& x.order < ORDER_ONE ==> params.get("cfg_scale"@) == Some(
                            fraction_value(one()),
                        )
                        &&& x.order > ORDER_THIRTY ==> params.get("cfg_scale"@) == Some(
                            fraction_value(thirty()),
                        )
                    },
                    None => params.get("cfg_scale"@) == Some(
                        fraction_value(super::parameters::seven()),
                    ),
                },
                None => params.get("cfg_scale"@) == Some(
                    fraction_value(super::parameters::seven()),
                ),
            }
            &&& source_image(request) is None ==> params.get("denoising_strength"@) is None
            &&& source_image(request) is Some ==> match request.advanced_model_settings {
                Some(s) => match s.sd_denoising_strength {
                    Some(x) => {
                        &&& ORDER_ZERO <= x.order <= ORDER_ONE ==> params.get("denoising_strength"@)
                            == Some(fraction_value(x@))
                        &&& x.order < ORDER_ZERO ==> params.get("denoising_strength"@) == Some(
                            fraction_value(zero()),
                        )
                        &&& x.order > ORDER_ONE ==> params.get("denoising_strength"@) == Some(
                            fraction_value(one()),
                        )
                    },
                    None => params.get("denoising_strength"@) == Some(
                        fraction_value(usual_strength()),
                    ),
                },
                None => params.get("denoising_strength"@) == Some(
                    fraction_value(usual_strength()),
                ),
            }
        }),
{
    lemma_job_members(request);
    lemma_job_params(request);
    lemma_asked_size(request);
    if job_body(request) is Ok {
        law_rounded_side(job_size(request).0);
        law_rounded_side(job_size(request).1);
    }
}

proof fn lemma_asked_size(request: ImageGenerationRequest)
    ensures
        job_size(request).0 > 0,
        job_size(request).1 > 0,
{
}

/// The source image of a job is the first usable image among the request's own reference image, that
/// of its character, the further ones of its character, the further ones of the request and its
/// input images; there is none only where none of them is usable.
pub proof fn law_source_image(request: ImageGenerationRequest)
    ensures
        request.character_reference_image matches Some(s) && is_reference(s@) ==> source_image(
            request,
        ) == Some(request.character_reference_image->0@),
        source_image(request) matches Some(s) ==> is_reference(s),
        source_image(request) is None ==> {
            &&& request.character_reference_image matches Some(s) ==> !is_reference(s@)
            &&& request.character_context matches Some(c) ==> {
                &&& c.reference_image matches Some(s) ==> !is_reference(s@)
                &&& forall|i: int|
                    0 <= i < c.reference_images@.len() ==> !is_reference(
                        (#[trigger] c.reference_images@[i])@,
                    )
            }
            &&& forall|i: int|
                0 <= i < request.character_reference_images@.len() ==> !is_reference(
                    (#[trigger] request.character_reference_images@[i])@,
                )
            &&& request.input_images matches Some(images) ==> forall|i: int|
                0 <= i < images@.len() ==> !is_reference((#[trigger] images@[i])@)
        },
        (request.character_reference_image matches Some(s) ==> !is_reference(s@)) ==> (
        request.character_context matches Some(c) ==> (c.reference_image matches Some(s)
            ==> is_reference(s@) ==> source_image(request) == Some(s@))),
        (request.character_reference_image is None && request.character_context is None
            && request.character_reference_images@.len() == 0) ==> (
        request.input_images matches Some(images) ==> forall|k: int|
            0 <= k < images@.len() && is_reference((#[trigger] images@[k])@) && (forall|j: int|
                0 <= j < k ==> !is_reference((#[trigger] images@[j])@)) ==> source_image(request)
                == Some(images@[k]@)),
{
    lemma_usable(request);
    if let Some(c) = request.character_context {
        lemma_first_usable_at(views(c.reference_images@));
        assert forall|i: int| 0 <= i < c.reference_images@.len() implies views(
            c.reference_images@,
        )[i] == (#[trigger] c.reference_images@[i])@ by {}
    }
    lemma_first_usable_at(views(request.character_reference_images@));
    assert forall|i: int| 0 <= i < request.character_reference_images@.len() implies views(
        request.character_reference_images@,
    )[i] == (#[trigger] request.character_reference_images@[i])@ by {}
    lemma_first_usable_at(request.input_views());
    if let Some(images) = request.input_images {
        assert forall|i: int| 0 <= i < images@.len() implies views(images@)[i]
            == (#[trigger] images@[i])@ by {}
        assert forall|k: int|
            0 <= k < images@.len() && is_reference((#[trigger] images@[k])@) && (forall|j: int|
                0 <= j < k ==> !is_reference((#[trigger] images@[j])@)) implies first_usable(
            views(images@),
        ) == Some(images@[k]@) by {
            assert forall|j: int| 0 <= j < k implies !is_reference(#[trigger] views(images@)[j]) by {
                assert(!is_reference(images@[j]@));
            }
            lemma_first_usable_is(views(images@), k);
        }
    }
}

proof fn lemma_first_usable_at(images: Seq<Seq<char>>)
    ensures
        first_usable(images) is None ==> forall|i: int|
            0 <= i < images.len() ==> !is_reference(#[trigger] images[i]),
    decreases images.len(),
{
    if images.len() > 0 && !is_reference(images[0]) {
        let rest = images.drop_first();
        lemma_first_usable_at(rest);
        if first_usable(images) is None {
            assert forall|i: int| 0 <= i < images.len() implies !is_reference(
                #[trigger] images[i],
            ) by {
                if i > 0 {
                    assert(!is_reference(rest[i - 1]));
                }
            }
        }
    }
}

proof fn lemma_first_usable_is(images: Seq<Seq<char>>, k: int)
    requires
        0 <= k < images.len(),
        is_reference(images[k]),
        forall|j: int| 0 <= j < k ==> !is_reference(#[trigger] images[j]),
    ensures
        first_usable(images) == Some(images[k]),
    decreases images.len(),
{
    if k > 0 {
        let rest = images.drop_first();
        assert(!is_reference(images[0]));
        assert forall|j: int| 0 <= j < k - 1 implies !is_reference(#[trigger] rest[j]) by {
            assert(!is_reference(images[j + 1]));
        }
        lemma_first_usable_is(rest, k - 1);
    }
}

/// The models of a reply are those of its entries that have a name, each with what the entry says
/// of it.
pub proof fn law_status_of_a_model(
    a: Seq<JsonModel>,
    b: Seq<JsonModel>,
    entry: JsonModel,
    name: Seq<char>,
)
    ensures
        models_of(a + b) == models_of(a) + models_of(b),
        entry.get_str("name"@) == Some(name) && trim(name).len() > 0 ==> {
            let models = models_of(seq![entry]);
            &&& models.len() == 1
            &&& models[0].name == trim(name)
            &&& models[0].count == entry.get_u64("count"@)
            &&& models[0].queued == entry.get_u64("queued"@)
            &&& models[0].jobs == entry.get_u64("jobs"@)
            &&& models[0].baseline == entry.get_str("baseline"@)
            &&& models[0].type_ == entry.get_str("type"@)
            &&& models[0].max_pixels == entry.get_u64("max_pixels"@)
            &&& models[0].min_bridge_version == entry.get_str("min_bridge_version"@)
            &&& entry.get("performance"@) matches Some(JsonModel::Number(n))
                ==> models[0].performance == Some(n)
            &&& models[0].raw == Some(entry)
        },
        entry.get_str("name"@) is None || entry.get_str("name"@) == Some(name) && trim(name).len()
            == 0 ==> models_of(seq![entry]).len() == 0,
    decreases b.len(),
{
    reveal_with_fuel(models_of, 2);
    assert(seq![entry].drop_last() =~= Seq::empty());
    if b.len() == 0 {
        assert(a + b =~= a);
        assert(models_of(a) + models_of(b) =~= models_of(a));
    } else {
        law_status_of_a_model(a, b.drop_last(), entry, name);
        assert((a + b).drop_last() =~= a + b.drop_last());
        assert((a + b).last() == b.last());
        assert(models_of(a + b) =~= models_of(a) + models_of(b));
    }
}

/// A reply lists all the models of its entries and no others, by their names in lower case. The
/// entries stand in the reply itself or under its `models`; an object without these lists nothing,
/// and anything else is no list.
pub proof fn law_listed_by_name(
    reply: JsonModel,
    values: Seq<JsonModel>,
    read: Seq<char>,
    twice: bool,
)
    ensures
        reply == JsonModel::Array(values) || reply is Object && reply.get("models"@) == Some(
            JsonModel::Array(values),
        ) && !twice ==> (listed_models(Ok(reply), twice) matches Ok(models) && {
            &&& models.len() == models_of(values).len()
            &&& forall|j: int, k: int|
                0 <= j < k < models.len() ==> !crate::order::text_after(
                    lower_case((#[trigger] models[j]).name),
                    lower_case((#[trigger] models[k]).name),
                )
            &&& forall|k: int|
                0 <= k < models.len() ==> models_of(values).contains(#[trigger] models[k])
            &&& forall|k: int|
                0 <= k < models.len() ==> models.contains(#[trigger] models_of(values)[k])
        }),
        reply is Object && reply.get("models"@) is None && !twice ==> (listed_models(
            Ok(reply),
            twice,
        ) matches Ok(models) && models.len() == 0),
        reply !is Array && reply !is Object ==> listed_models(Ok(reply), twice) is Err,
        reply is Object && twice ==> listed_models(Ok(reply), twice) is Err,
        listed_models(Err(read), twice) is Err,
{
    let all = models_of(values);
    let keys = name_keys(all);
    crate::order::law_order(keys);
    crate::order::law_order(name_keys(models_of(Seq::empty())));
    let at = order_of(keys);
    let models = by_name(all);
    assert forall|j: int, k: int| 0 <= j < k < models.len() implies !crate::order::text_after(
        lower_case((#[trigger] models[j]).name),
        lower_case((#[trigger] models[k]).name),
    ) by {
        assert(!crate::order::key_after(keys[at[j]], keys[at[k]]));
    }
    assert forall|k: int| 0 <= k < models.len() implies all.contains(#[trigger] models[k]) by {
        assert(models[k] == all[at[k]]);
    }
    assert forall|k: int| 0 <= k < models.len() implies models.contains(#[trigger] all[k]) by {
        lemma_every_place(at, k);
        let i = choose|i: int| 0 <= i < at.len() && at[i] == k;
        assert(models[i] == all[k]);
    }
}

proof fn lemma_every_place(at: Seq<int>, k: int)
    requires
        at.no_duplicates(),
        forall|i: int| 0 <= i < at.len() ==> 0 <= #[trigger] at[i] < at.len(),
        0 <= k < at.len(),
    ensures
        at.contains(k),
{
    let all = vstd::set_lib::set_int_range(0, at.len() as int);
    vstd::set_lib::lemma_int_range(0, at.len() as int);
    at.unique_seq_to_set();
    assert forall|x: int| at.to_set().contains(x) implies all.contains(x) by {
        let i = choose|i: int| 0 <= i < at.len() && at[i] == x;
        assert(0 <= at[i] < at.len());
    }
    vstd::set_lib::lemma_subset_equality(at.to_set(), all);
    assert(all.contains(k));
}

/// A reply that names an error, or has no job, fails with what it says of it: its message, its
/// error, its code, or else all of it. A job that has a number is linked to.
pub proof fn law_reply_of_the_horde(response: JsonModel, s: Seq<char>)
    ensures
        response.get_str("message"@) == Some(s) || response.get_str("message"@) is None
            && response.get_str("error"@) == Some(s) ==> reply_images(response) == Err::<
            Seq<ImageDataModel>,
            Seq<char>,
        >("AI Horde error: "@ + s),
        response.get_str("message"@) is None && response.get_str("error"@) is None ==> {
            &&& response.get_str("id"@) == Some(s) && trim(s).len() > 0 ==> (reply_images(response)
                matches Ok(images) && images.len() == 1 && images[0].url == Some(
                "aihorde://"@ + s,
            ))
            &&& response.get_str("id"@) is None && response.get_str("rc"@) == Some(s)
                ==> reply_images(response) == Err::<Seq<ImageDataModel>, Seq<char>>(
                "AI Horde request rejected: "@ + s,
            )
            &&& response.get_str("id"@) is None && response.get_str("rc"@) is None ==> reply_images(
                response,
            ) is Err
        },
{
}

/// The user's key is sent where there is one, and the anonymous key where there is none.
pub proof fn law_key_of_a_job(api_key: Seq<char>)
    ensures
        trim(api_key).len() > 0 ==> key_in_use(api_key) == trim(api_key),
        trim(api_key).len() == 0 ==> key_in_use(api_key) == "0000000000"@,
{
}

/// A job is handed in at one address, whether the base address ends in a slash or not, with the key
/// in use and as JSON, and the user's own fields go along.
pub proof fn law_job_is_handed_in(
    adapter: AIHordeAdapter,
    base_url: Seq<char>,
    api_key: Seq<char>,
    env_key: Option<Seq<char>>,
    config: Option<JsonModel>,
)
    requires
        base_url.len() > 0,
        base_url.last() != '/',
    ensures
        adapter.configured_endpoint(base_url, config) == base_url + "/v2/generate/async"@,
        adapter.configured_endpoint(base_url + seq!['/'], config) == base_url
            + "/v2/generate/async"@,
        ({
            let fields = adapter.configured_headers(api_key, env_key, None, config);
            &&& fields.dom().contains("apikey"@) && fields["apikey"@] == key_in_use(api_key)
            &&& fields.dom().contains("Content-Type"@) && fields["Content-Type"@]
                == "application/json"@
            &&& fields.dom().contains("Accept"@) && fields["Accept"@] == "application/json"@
        }),
{
    reveal_with_fuel(trim_end_of, 2);
    assert((base_url + seq!['/']).drop_last() =~= base_url);
    reveal_strlit("apikey");
    reveal_strlit("Content-Type");
    reveal_strlit("Accept");
    assert("apikey"@[0] != "Accept"@[0]);
    assert("apikey"@.len() == 6 && "Content-Type"@.len() == 12 && "Accept"@.len() == 6);
}

/// What can be a source image: a link, a data address of an image, or the data of an image by the
/// mark that it begins with. White space about it does not count, and other texts are none.
pub proof fn law_marks_of_an_image(s: Seq<char>)
    ensures
        starts_with(trim(s), "http://"@) || starts_with(trim(s), "https://"@) ==> is_reference(s),
        starts_with(trim(s), "data:image/"@) ==> is_reference(s),
        starts_with(trim(s), "iVBOR"@) ==> is_reference(s),
        starts_with(trim(s), "/9j/"@) ==> is_reference(s),
        starts_with(trim(s), "UklGR"@) ==> is_reference(s),
        starts_with(trim(s), "R0lGOD"@) ==> is_reference(s),
        starts_with(trim(s), "Qk"@) ==> is_reference(s),
        is_reference(s) ==> trim(s).len() >= 2 && (trim(s)[0] == 'h' || trim(s)[0] == 'd' || trim(
            s,
        )[0] == 'i' || trim(s)[0] == '/' || trim(s)[0] == 'U' || trim(s)[0] == 'R' || trim(s)[0]
            == 'Q'),
{
    reveal_strlit("http://");
    reveal_strlit("https://");
    reveal_strlit("data:image/");
    reveal_strlit("iVBOR");
    reveal_strlit("/9j/");
    reveal_strlit("UklGR");
    reveal_strlit("R0lGOD");
    reveal_strlit("Qk");
    let t = trim(s);
    assert(starts_with(t, "http://"@) ==> t.take(7)[0] == 'h');
    assert(starts_with(t, "https://"@) ==> t.take(8)[0] == 'h');
    assert(starts_with(t, "data:image/"@) ==> t.take(11)[0] == 'd');
    assert(starts_with(t, "iVBOR"@) ==> t.take(5)[0] == 'i');
    assert(starts_with(t, "/9j/"@) ==> t.take(4)[0] == '/');
    assert(starts_with(t, "UklGR"@) ==> t.take(5)[0] == 'U');
    assert(starts_with(t, "R0lGOD"@) ==> t.take(6)[0] == 'R');
    assert(starts_with(t, "Qk"@) ==> t.take(2)[0] == 'Q');
}

} // verus!
