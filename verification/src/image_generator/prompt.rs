//! The prompt and the reference images of a generation.
use vstd::prelude::*;

use super::types::{
    add_images, add_optional, lemma_images_keep, lemma_optional_keeps, ImageCharacterContext,
    ImageGenerationRequest, ImageLora, ImageSceneContext,
};
use crate::text::{
    contains, contains_str, copy_texts, ends_with, glued, holds, join, join_strs, law_join,
    lemma_join_glued, lower_case, lower_case_str, none_empty, opt_str_view, opt_view, present,
    present_str, same, trim, trim_str, views, views_len, views_push,
};

verus! {

// ---------------------------------------------------------------------------
// Words that call an adaptation
// ---------------------------------------------------------------------------

/// What an adaptation is known by, and the words that call it.
pub struct LoraWords {
    pub path: String,
    pub is_high_noise: bool,
    pub keywords: Vec<String>,
}

pub struct LoraModel {
    pub path: Seq<char>,
    pub is_high_noise: bool,
    pub keywords: Seq<Seq<char>>,
}

impl View for LoraWords {
    type V = LoraModel;

    open spec fn view(&self) -> LoraModel {
        LoraModel {
            path: self.path@,
            is_high_noise: self.is_high_noise,
            keywords: views(self.keywords@),
        }
    }
}

pub open spec fn lora_model(lora: ImageLora) -> LoraModel {
    LoraModel {
        path: lora.path@,
        is_high_noise: lora.is_high_noise,
        keywords: views(lora.keywords@),
    }
}

pub open spec fn lora_models(loras: Seq<ImageLora>) -> Seq<LoraModel> {
    loras.map_values(|l: ImageLora| lora_model(l))
}

pub open spec fn words_views(loras: Seq<LoraWords>) -> Seq<LoraModel> {
    loras.map_values(|l: LoraWords| l@)
}

pub open spec fn optional_loras(loras: Option<&Vec<ImageLora>>) -> Seq<LoraModel> {
    match loras {
        Some(list) => lora_models(list@),
        None => Seq::empty(),
    }
}

pub open spec fn same_lora(a: LoraModel, b: LoraModel) -> bool {
    a.path == b.path && a.is_high_noise == b.is_high_noise
}

/// The list with an adaptation in the place of the one that it overrides, or at the end.
pub open spec fn with_lora(list: Seq<LoraModel>, lora: LoraModel) -> Seq<LoraModel>
    decreases list.len(),
{
    if list.len() == 0 {
        seq![lora]
    } else if same_lora(list[0], lora) {
        list.update(0, lora)
    } else {
        seq![list[0]] + with_lora(list.drop_first(), lora)
    }
}

pub open spec fn with_loras(list: Seq<LoraModel>, loras: Seq<LoraModel>) -> Seq<LoraModel>
    decreases loras.len(),
{
    if loras.len() == 0 {
        list
    } else {
        with_lora(with_loras(list, loras.drop_last()), loras.last())
    }
}

pub open spec fn lowered(list: Seq<Seq<char>>) -> Seq<Seq<char>> {
    list.map_values(|s: Seq<char>| lower_case(s))
}

/// The list with one more word, unless the word is blank or there already but for its case.
pub open spec fn add_keyword(list: Seq<Seq<char>>, keyword: Seq<char>) -> Seq<Seq<char>> {
    match present(keyword) {
        Some(s) => if lowered(list).contains(lower_case(s)) {
            list
        } else {
            list.push(s)
        },
        None => list,
    }
}

pub open spec fn add_keywords(list: Seq<Seq<char>>, keywords: Seq<Seq<char>>) -> Seq<Seq<char>>
    decreases keywords.len(),
{
    if keywords.len() == 0 {
        list
    } else {
        add_keyword(add_keywords(list, keywords.drop_last()), keywords.last())
    }
}

pub open spec fn keywords_of(loras: Seq<LoraModel>) -> Seq<Seq<char>>
    decreases loras.len(),
{
    if loras.len() == 0 {
        Seq::empty()
    } else {
        add_keywords(keywords_of(loras.drop_last()), loras.last().keywords)
    }
}

proof fn lemma_with_lora_at(list: Seq<LoraModel>, lora: LoraModel, i: int)
    requires
        0 <= i <= list.len(),
        forall|j: int| 0 <= j < i ==> !same_lora(#[trigger] list[j], lora),
        i < list.len() ==> same_lora(list[i], lora),
    ensures
        with_lora(list, lora) == (if i < list.len() {
            list.update(i, lora)
        } else {
            list.push(lora)
        }),
    decreases list.len(),
{
    if list.len() == 0 {
        assert(list.push(lora) =~= seq![lora]);
    } else if i > 0 {
        let rest = list.drop_first();
        assert forall|j: int| 0 <= j < i - 1 implies !same_lora(#[trigger] rest[j], lora) by {
            assert(rest[j] == list[j + 1]);
        }
        lemma_with_lora_at(rest, lora, i - 1);
        if i < list.len() {
            assert(seq![list[0]] + rest.update(i - 1, lora) =~= list.update(i, lora));
        } else {
            assert(seq![list[0]] + rest.push(lora) =~= list.push(lora));
        }
    }
}

fn words_of(lora: &ImageLora) -> (r: LoraWords)
    ensures
        r@ == lora_model(*lora),
{
    LoraWords {
        path: lora.path.clone(),
        is_high_noise: lora.is_high_noise,
        keywords: copy_texts(&lora.keywords),
    }
}

fn override_lora(list: &mut Vec<LoraWords>, lora: &ImageLora)
    ensures
        words_views(final(list)@) == with_lora(words_views(old(list)@), lora_model(*lora)),
{
    let ghost before = list@;
    let ghost all = words_views(before);
    let ghost model = lora_model(*lora);
    let mut i: usize = 0;
    while i < list.len() && !(same(list[i].path.as_str(), lora.path.as_str())
        && list[i].is_high_noise == lora.is_high_noise)
        invariant
            list@ == before,
            all == words_views(before),
            model == lora_model(*lora),
            i <= list.len(),
            forall|j: int| 0 <= j < i ==> !same_lora(#[trigger] all[j], model),
        decreases list.len() - i,
    {
        assert(all[i as int] == list@[i as int]@);
        i = i + 1;
    }
    proof {
        if i < all.len() {
            assert(all[i as int] == before[i as int]@);
        }
        lemma_with_lora_at(all, model, i as int);
    }
    let words = words_of(lora);
    if i < list.len() {
        list.set(i, words);
        assert(words_views(list@) =~= all.update(i as int, model));
    } else {
        list.push(words);
        assert(words_views(list@) =~= all.push(model));
    }
}

fn holds_lowered(list: &Vec<String>, lower: &str) -> (r: bool)
    ensures
        r == lowered(views(list@)).contains(lower@),
{
    let ghost all = lowered(views(list@));
    for i in 0..list.len()
        invariant
            all == lowered(views(list@)),
            forall|k: int| 0 <= k < i ==> #[trigger] all[k] != lower@,
    {
        assert(all[i as int] == lower_case(list@[i as int]@));
        if same(lower_case_str(list[i].as_str()).as_str(), lower) {
            return true;
        }
    }
    false
}

fn push_keywords(list: &mut Vec<String>, keywords: &Vec<String>)
    ensures
        views(final(list)@) == add_keywords(views(old(list)@), views(keywords@)),
{
    let ghost before = views(list@);
    let ghost all = views(keywords@);
    for i in 0..keywords.len()
        invariant
            all == views(keywords@),
            views(list@) == add_keywords(before, all.take(i as int)),
    {
        broadcast use views_push;

        assert(all.take(i + 1).drop_last() =~= all.take(i as int));
        assert(all.take(i + 1).last() == keywords@[i as int]@);
        if let Some(s) = present_str(keywords[i].as_str()) {
            if !holds_lowered(list, lower_case_str(s).as_str()) {
                list.push(s.to_string());
            }
        }
    }
    assert(all.take(all.len() as int) =~= all);
}

/// The words of a model's adaptations and of a request's, each once. An adaptation of the request
/// overrides one of the model with the same file and the same noise level.
pub fn merged_lora_keywords(base: Option<&Vec<ImageLora>>, request: Option<&Vec<ImageLora>>) -> (r:
    Vec<String>)
    ensures
        views(r@) == keywords_of(with_loras(optional_loras(base), optional_loras(request))),
{
    let mut active: Vec<LoraWords> = Vec::new();
    assert(words_views(active@) =~= Seq::empty());
    if let Some(list) = base {
        let ghost all = lora_models(list@);
        for i in 0..list.len()
            invariant
                all == lora_models(list@),
                words_views(active@) == all.take(i as int),
        {
            let ghost before = active@;
            let words = words_of(&list[i]);
            active.push(words);
            assert(words_views(active@) =~= words_views(before).push(words@));
            assert(all.take(i + 1) =~= all.take(i as int).push(all[i as int]));
        }
        assert(all.take(all.len() as int) =~= all);
    }
    let ghost start = words_views(active@);
    if let Some(list) = request {
        let ghost all = lora_models(list@);
        for i in 0..list.len()
            invariant
                all == lora_models(list@),
                words_views(active@) == with_loras(start, all.take(i as int)),
        {
            assert(all.take(i + 1).drop_last() =~= all.take(i as int));
            assert(all.take(i + 1).last() == lora_model(list@[i as int]));
            override_lora(&mut active, &list[i]);
        }
        assert(all.take(all.len() as int) =~= all);
    }
    let ghost all = words_views(active@);
    let mut keywords: Vec<String> = Vec::new();
    assert(views(keywords@) =~= Seq::empty());
    for i in 0..active.len()
        invariant
            all == words_views(active@),
            views(keywords@) == keywords_of(all.take(i as int)),
    {
        assert(all.take(i + 1).drop_last() =~= all.take(i as int));
        assert(all.take(i + 1).last() == active@[i as int]@);
        push_keywords(&mut keywords, &active[i].keywords);
    }
    assert(all.take(all.len() as int) =~= all);
    keywords
}

pub open spec fn active_keywords(request: ImageGenerationRequest) -> Seq<Seq<char>> {
    let base = match request.advanced_model_settings {
        Some(s) => match s.sd_base_loras {
            Some(list) => lora_models(list@),
            None => Seq::empty(),
        },
        None => Seq::empty(),
    };
    let own = match request.loras {
        Some(list) => lora_models(list@),
        None => Seq::empty(),
    };
    keywords_of(with_loras(base, own))
}

/// The words of the adaptations of a request.
pub fn active_lora_keywords(request: &ImageGenerationRequest) -> (r: Vec<String>)
    ensures
        views(r@) == active_keywords(*request),
{
    let base = match &request.advanced_model_settings {
        Some(s) => match &s.sd_base_loras {
            Some(list) => Some(list),
            None => None,
        },
        None => None,
    };
    let own = match &request.loras {
        Some(list) => Some(list),
        None => None,
    };
    merged_lora_keywords(base, own)
}

// ---------------------------------------------------------------------------
// The prompt
// ---------------------------------------------------------------------------

pub open spec fn one_part(s: Seq<char>) -> Seq<Seq<char>> {
    match present(s) {
        Some(t) => seq![t],
        None => Seq::empty(),
    }
}

pub open spec fn optional_part(label: Seq<char>, value: Option<Seq<char>>) -> Seq<Seq<char>> {
    match value {
        Some(s) => one_part(label + s),
        None => Seq::empty(),
    }
}

/// What is known of a character, as a prompt.
pub open spec fn character_prompt(c: ImageCharacterContext) -> Seq<char> {
    join(
        optional_part("Character: "@, opt_view(c.name)) + optional_part(
            "Character appearance: "@,
            opt_view(c.appearance),
        ) + optional_part("Character description: "@, opt_view(c.description)) + optional_part(
            "Character personality and expression guidance: "@,
            opt_view(c.personality),
        ),
        ", "@,
    )
}

/// The visual prompt of a scene or else its description. The negative prompt is left to the
/// providers.
pub open spec fn scene_prompt(scene: ImageSceneContext) -> Seq<char> {
    let part = match scene.visual_prompt {
        Some(s) => one_part(s@),
        None => match scene.description {
            Some(s) => one_part(s@),
            None => Seq::empty(),
        },
    };
    join(part, ", "@)
}

pub open spec fn optional_character_prompt(request: ImageGenerationRequest) -> Option<Seq<char>> {
    match request.character_context {
        Some(c) => Some(character_prompt(c)),
        None => None,
    }
}

pub open spec fn optional_scene_prompt(request: ImageGenerationRequest) -> Option<Seq<char>> {
    match request.scene_context {
        Some(s) => Some(scene_prompt(s)),
        None => None,
    }
}

pub open spec fn line(s: Option<Seq<char>>) -> Seq<char> {
    match s {
        Some(t) => t + "\n"@,
        None => Seq::empty(),
    }
}

/// All that a prompt says before any words are added to it.
pub open spec fn plain_text(request: ImageGenerationRequest) -> Seq<char> {
    line(optional_character_prompt(request)) + line(optional_scene_prompt(request)) + trim(
        request.prompt@,
    )
}

/// The words of a list that a text, in lower case, does not hold yet.
pub open spec fn missing_keywords(keywords: Seq<Seq<char>>, lower: Seq<char>) -> Seq<Seq<char>>
    decreases keywords.len(),
{
    if keywords.len() == 0 {
        Seq::empty()
    } else {
        let before = missing_keywords(keywords.drop_last(), lower);
        match present(keywords.last()) {
            Some(s) => if contains(lower, lower_case(s)) {
                before
            } else {
                before.push(s)
            },
            None => before,
        }
    }
}

pub open spec fn nonempty_part(s: Option<Seq<char>>) -> Seq<Seq<char>> {
    match s {
        Some(t) => if t.len() > 0 {
            seq![t]
        } else {
            Seq::empty()
        },
        None => Seq::empty(),
    }
}

/// The complete prompt: what stands before every prompt, the words that are missing, the
/// character, the scene, and the request's own prompt.
pub open spec fn complete_prompt(
    request: ImageGenerationRequest,
    pre_prompt: Option<Seq<char>>,
    keywords: Seq<Seq<char>>,
) -> Seq<char> {
    let head = match pre_prompt {
        Some(s) => one_part(s),
        None => Seq::empty(),
    };
    join(
        head + missing_keywords(keywords, lower_case(plain_text(request))) + nonempty_part(
            optional_character_prompt(request),
        ) + nonempty_part(optional_scene_prompt(request)) + one_part(request.prompt@),
        ", "@,
    )
}

fn append_prompt_part(parts: &mut Vec<String>, value: &str)
    ensures
        views(final(parts)@) == views(old(parts)@) + one_part(value@),
{
    broadcast use views_push;

    let ghost before = views(parts@);
    if let Some(s) = present_str(value) {
        parts.push(s.to_string());
    }
    assert(views(parts@) =~= before + one_part(value@));
}

fn append_labelled_part(parts: &mut Vec<String>, label: &str, value: &Option<String>)
    ensures
        views(final(parts)@) == views(old(parts)@) + optional_part(label@, opt_view(*value)),
{
    let ghost before = views(parts@);
    if let Some(s) = value {
        let mut part = label.to_string();
        part.append(s.as_str());
        append_prompt_part(parts, part.as_str());
    } else {
        assert(before + Seq::<Seq<char>>::empty() =~= before);
    }
}

fn compose_character_context_prompt(character: &ImageCharacterContext) -> (r: String)
    ensures
        r@ == character_prompt(*character),
{
    let mut parts: Vec<String> = Vec::new();
    append_labelled_part(&mut parts, "Character: ", &character.name);
    append_labelled_part(&mut parts, "Character appearance: ", &character.appearance);
    append_labelled_part(&mut parts, "Character description: ", &character.description);
    append_labelled_part(
        &mut parts,
        "Character personality and expression guidance: ",
        &character.personality,
    );
    assert(views(parts@) =~= optional_part("Character: "@, opt_view(character.name))
        + optional_part("Character appearance: "@, opt_view(character.appearance))
        + optional_part("Character description: "@, opt_view(character.description))
        + optional_part(
        "Character personality and expression guidance: "@,
        opt_view(character.personality),
    ));
    join_strs(&parts, ", ")
}

fn compose_scene_context_prompt(scene: &ImageSceneContext) -> (r: String)
    ensures
        r@ == scene_prompt(*scene),
{
    let mut parts: Vec<String> = Vec::new();
    assert(views(parts@) =~= Seq::empty());
    match &scene.visual_prompt {
        Some(s) => {
            append_prompt_part(&mut parts, s.as_str());
            assert(views(parts@) =~= one_part(s@));
        },
        None => {
            if let Some(s) = &scene.description {
                append_prompt_part(&mut parts, s.as_str());
                assert(views(parts@) =~= one_part(s@));
            }
        },
    }
    join_strs(&parts, ", ")
}

fn append_missing_keywords(parts: &mut Vec<String>, keywords: &Vec<String>, lower: &str)
    ensures
        views(final(parts)@) == views(old(parts)@) + missing_keywords(views(keywords@), lower@),
{
    let ghost before = views(parts@);
    let ghost all = views(keywords@);
    assert(before + missing_keywords(all.take(0), lower@) =~= before);
    for i in 0..keywords.len()
        invariant
            all == views(keywords@),
            views(parts@) == before + missing_keywords(all.take(i as int), lower@),
    {
        broadcast use views_push;

        assert(all.take(i + 1).drop_last() =~= all.take(i as int));
        assert(all.take(i + 1).last() == keywords@[i as int]@);
        let ghost sofar = missing_keywords(all.take(i as int), lower@);
        if let Some(s) = present_str(keywords[i].as_str()) {
            if !contains_str(lower, lower_case_str(s).as_str()) {
                parts.push(s.to_string());
                assert(views(parts@) =~= before + sofar.push(s@));
            }
        }
    }
    assert(all.take(all.len() as int) =~= all);
}

fn append_nonempty(parts: &mut Vec<String>, s: &Option<String>)
    ensures
        views(final(parts)@) == views(old(parts)@) + nonempty_part(opt_view(*s)),
{
    broadcast use views_push;

    let ghost before = views(parts@);
    if let Some(t) = s {
        if !t.as_str().is_empty() {
            parts.push(t.clone());
        }
    }
    assert(views(parts@) =~= before + nonempty_part(opt_view(*s)));
}

/// Composes the prompt of a generation.
pub fn compose_scene_image_prompt(
    request: &ImageGenerationRequest,
    pre_prompt: Option<&str>,
    lora_keywords: &Vec<String>,
) -> (r: String)
    ensures
        r@ == complete_prompt(*request, opt_str_view(pre_prompt), views(lora_keywords@)),
{
    let character: Option<String> = match &request.character_context {
        Some(c) => Some(compose_character_context_prompt(c)),
        None => None,
    };
    let scene: Option<String> = match &request.scene_context {
        Some(s) => Some(compose_scene_context_prompt(s)),
        None => None,
    };
    let mut existing = String::new();
    if let Some(s) = &character {
        existing.append(s.as_str());
        existing.append("\n");
    }
    assert(existing@ =~= line(optional_character_prompt(*request)));
    let ghost first = existing@;
    if let Some(s) = &scene {
        existing.append(s.as_str());
        existing.append("\n");
    }
    assert(existing@ =~= first + line(optional_scene_prompt(*request)));
    existing.append(trim_str(request.prompt.as_str()));
    assert(existing@ =~= plain_text(*request));
    let lower = lower_case_str(existing.as_str());
    let mut parts: Vec<String> = Vec::new();
    assert(views(parts@) =~= Seq::empty());
    if let Some(s) = pre_prompt {
        append_prompt_part(&mut parts, s);
        assert(views(parts@) =~= one_part(s@));
    }
    append_missing_keywords(&mut parts, lora_keywords, lower.as_str());
    append_nonempty(&mut parts, &character);
    append_nonempty(&mut parts, &scene);
    append_prompt_part(&mut parts, request.prompt.as_str());
    join_strs(&parts, ", ")
}

// ---------------------------------------------------------------------------
// Reference images
// ---------------------------------------------------------------------------

/// The reference images of the character: those of the request, then those of the context.
pub open spec fn character_references(request: ImageGenerationRequest) -> Seq<Seq<char>> {
    let own = add_images(
        add_optional(Seq::empty(), opt_view(request.character_reference_image)),
        views(request.character_reference_images@),
    );
    match request.character_context {
        Some(c) => add_images(
            add_optional(own, opt_view(c.reference_image)),
            views(c.reference_images@),
        ),
        None => own,
    }
}

/// The list with those images of another list that it does not hold.
pub open spec fn with_missing(list: Seq<Seq<char>>, images: Seq<Seq<char>>) -> Seq<Seq<char>>
    decreases images.len(),
{
    if images.len() == 0 {
        list
    } else {
        let before = with_missing(list, images.drop_last());
        if before.contains(images.last()) {
            before
        } else {
            before.push(images.last())
        }
    }
}

/// The input images of a request together with the reference images of its character.
pub open spec fn promoted_inputs(request: ImageGenerationRequest) -> Option<Seq<Seq<char>>> {
    let references = character_references(request);
    if references.len() == 0 {
        crate::text::opt_views(request.input_images)
    } else {
        Some(with_missing(request.input_views(), references))
    }
}

/// Makes the reference images of the character input images, so that a provider needs to look
/// only there.
pub fn promote_character_reference_images(request: &mut ImageGenerationRequest)
    ensures
        crate::text::opt_views(final(request).input_images) == promoted_inputs(*old(request)),
        *final(request) == (ImageGenerationRequest {
            input_images: final(request).input_images,
            ..*old(request)
        }),
{
    broadcast use views_len;

    let ghost before = *request;
    let mut references: Vec<String> = Vec::new();
    assert(views(references@) =~= Seq::empty());
    if let Some(image) = &request.character_reference_image {
        super::types::push_image(&mut references, image.as_str());
    }
    super::types::push_images(&mut references, &request.character_reference_images);
    if let Some(character) = &request.character_context {
        if let Some(image) = &character.reference_image {
            super::types::push_image(&mut references, image.as_str());
        }
        super::types::push_images(&mut references, &character.reference_images);
    }
    if references.len() == 0 {
        return;
    }
    let mut inputs: Vec<String> = match &request.input_images {
        Some(images) => copy_texts(images),
        None => Vec::new(),
    };
    assert(views(inputs@) =~= before.input_views());
    let ghost start = views(inputs@);
    let ghost all = views(references@);
    for i in 0..references.len()
        invariant
            all == views(references@),
            views(inputs@) == with_missing(start, all.take(i as int)),
    {
        broadcast use views_push;

        assert(all.take(i + 1).drop_last() =~= all.take(i as int));
        assert(all.take(i + 1).last() == references@[i as int]@);
        if !holds(&inputs, references[i].as_str()) {
            inputs.push(references[i].clone());
        }
    }
    assert(all.take(all.len() as int) =~= all);
    request.input_images = Some(inputs);
}

/// Every reference image of the character is among the input images afterwards, and the input
/// images that were there before still stand first.
pub proof fn law_references_are_inputs(request: ImageGenerationRequest)
    ensures
        ({
            let inputs = match promoted_inputs(request) {
                Some(images) => images,
                None => Seq::empty(),
            };
            &&& request.input_views().is_prefix_of(inputs)
            &&& forall|i: int|
                0 <= i < character_references(request).len() ==> inputs.contains(
                    #[trigger] character_references(request)[i],
                )
        }),
{
    lemma_with_missing(request.input_views(), character_references(request));
}

proof fn lemma_with_missing(list: Seq<Seq<char>>, images: Seq<Seq<char>>)
    ensures
        list.is_prefix_of(with_missing(list, images)),
        forall|i: int|
            0 <= i < images.len() ==> with_missing(list, images).contains(#[trigger] images[i]),
    decreases images.len(),
{
    if images.len() > 0 {
        let front = images.drop_last();
        lemma_with_missing(list, front);
        let before = with_missing(list, front);
        let after = with_missing(list, images);
        assert forall|i: int| 0 <= i < images.len() implies after.contains(
            #[trigger] images[i],
        ) by {
            if i < front.len() {
                assert(before.contains(front[i]));
                let k = choose|k: int| 0 <= k < before.len() && before[k] == front[i];
                assert(after[k] == images[i]);
            } else if !before.contains(images.last()) {
                assert(after[after.len() - 1] == images[i]);
            }
        }
    }
}

/// Prepares a request for its provider: the reference images of the character become input
/// images, and the prompt is completed.
pub fn prepare_request(request: &mut ImageGenerationRequest)
    ensures
        crate::text::opt_views(final(request).input_images) == promoted_inputs(*old(request)),
        final(request).prompt@ == complete_prompt(
            *old(request),
            match old(request).advanced_model_settings {
                Some(s) => opt_view(s.sd_extra_prompt),
                None => None,
            },
            active_keywords(*old(request)),
        ),
        *final(request) == (ImageGenerationRequest {
            input_images: final(request).input_images,
            prompt: final(request).prompt,
            ..*old(request)
        }),
{
    promote_character_reference_images(request);
    let keywords = active_lora_keywords(request);
    let pre_prompt: Option<&str> = match &request.advanced_model_settings {
        Some(s) => match &s.sd_extra_prompt {
            Some(t) => Some(t.as_str()),
            None => None,
        },
        None => None,
    };
    let prompt = compose_scene_image_prompt(request, pre_prompt, &keywords);
    request.prompt = prompt;
}

/// The negative prompt of a request's scene.
pub fn scene_negative_prompt(request: &ImageGenerationRequest) -> (r: Option<String>)
    ensures
        opt_view(r) == request.scene_negative_prompt(),
{
    match request.negative_prompt() {
        Some(s) => Some(s.to_string()),
        None => None,
    }
}

// ---------------------------------------------------------------------------
// Laws of the words
// ---------------------------------------------------------------------------

proof fn lemma_lowered_push(list: Seq<Seq<char>>, s: Seq<char>)
    ensures
        lowered(list.push(s)) == lowered(list).push(lower_case(s)),
{
    assert(lowered(list.push(s)) =~= lowered(list).push(lower_case(s)));
}

proof fn lemma_add_keywords(list: Seq<Seq<char>>, keywords: Seq<Seq<char>>)
    requires
        lowered(list).no_duplicates(),
    ensures
        lowered(add_keywords(list, keywords)).no_duplicates(),
        list.is_prefix_of(add_keywords(list, keywords)),
        forall|i: int|
            0 <= i < keywords.len() && present(#[trigger] keywords[i]) is Some ==> lowered(
                add_keywords(list, keywords),
            ).contains(lower_case(present(keywords[i])->0)),
    decreases keywords.len(),
{
    if keywords.len() > 0 {
        let front = keywords.drop_last();
        lemma_add_keywords(list, front);
        let before = add_keywords(list, front);
        let after = add_keywords(list, keywords);
        if let Some(s) = present(keywords.last()) {
            lemma_lowered_push(before, s);
        }
        assert(before.is_prefix_of(after));
        assert forall|i: int|
            0 <= i < keywords.len() && present(#[trigger] keywords[i]) is Some implies lowered(
            after,
        ).contains(lower_case(present(keywords[i])->0)) by {
            if i < front.len() {
                assert(front[i] == keywords[i]);
                let low = lower_case(present(front[i])->0);
                assert(lowered(before).contains(low));
                let k = choose|k: int| 0 <= k < lowered(before).len() && lowered(before)[k] == low;
                assert(lowered(after)[k] == low);
            } else if after != before {
                assert(lowered(after)[after.len() - 1] == lower_case(
                    present(keywords[i])->0,
                ));
            }
        }
    }
}

/// No word is taken twice, whatever its case, and none that an adaptation gives is left out.
pub proof fn law_keywords_once(loras: Seq<LoraModel>)
    ensures
        lowered(keywords_of(loras)).no_duplicates(),
        forall|i: int, j: int|
            #![trigger loras[i].keywords[j]]
            0 <= i < loras.len() && 0 <= j < loras[i].keywords.len() && present(
                loras[i].keywords[j],
            ) is Some ==> lowered(keywords_of(loras)).contains(
                lower_case(present(loras[i].keywords[j])->0),
            ),
    decreases loras.len(),
{
    if loras.len() > 0 {
        let front = loras.drop_last();
        let before = keywords_of(front);
        let after = keywords_of(loras);
        law_keywords_once(front);
        lemma_add_keywords(before, loras.last().keywords);
        assert forall|i: int, j: int|
            #![trigger loras[i].keywords[j]]
            0 <= i < loras.len() && 0 <= j < loras[i].keywords.len() && present(
                loras[i].keywords[j],
            ) is Some implies lowered(after).contains(
            lower_case(present(loras[i].keywords[j])->0),
        ) by {
            let low = lower_case(present(loras[i].keywords[j])->0);
            if i < front.len() {
                assert(front[i].keywords[j] == loras[i].keywords[j]);
                assert(lowered(before).contains(low));
                let k = choose|k: int| 0 <= k < lowered(before).len() && lowered(before)[k] == low;
                assert(lowered(after)[k] == low);
            }
        }
    }
}

proof fn lemma_with_lora(list: Seq<LoraModel>, lora: LoraModel)
    ensures
        with_lora(list, lora).contains(lora),
        forall|x: LoraModel| #[trigger]
            list.contains(x) && !same_lora(x, lora) ==> with_lora(list, lora).contains(x),
    decreases list.len(),
{
    let after = with_lora(list, lora);
    if list.len() == 0 {
        assert(after[0] == lora);
    } else if same_lora(list[0], lora) {
        assert(after[0] == lora);
        assert forall|x: LoraModel| #[trigger] list.contains(x) && !same_lora(x, lora) implies after.contains(
        x) by {
            let k = choose|k: int| 0 <= k < list.len() && list[k] == x;
            assert(after[k] == x);
        }
    } else {
        let rest = list.drop_first();
        let rest_after = with_lora(rest, lora);
        lemma_with_lora(rest, lora);
        let k = choose|k: int| 0 <= k < rest_after.len() && rest_after[k] == lora;
        assert(after[k + 1] == lora);
        assert forall|x: LoraModel| #[trigger] list.contains(x) && !same_lora(x, lora) implies after.contains(
        x) by {
            let m = choose|m: int| 0 <= m < list.len() && list[m] == x;
            if m == 0 {
                assert(after[0] == x);
            } else {
                assert(rest[m - 1] == x);
                assert(rest.contains(x));
                let n = choose|n: int| 0 <= n < rest_after.len() && rest_after[n] == x;
                assert(after[n + 1] == x);
            }
        }
    }
}

/// An adaptation of the request takes the place of the one of the settings with the same path
/// and noise: the last one of the request is the one that counts.
pub proof fn law_request_overrides(base: Seq<LoraModel>, asked: Seq<LoraModel>, i: int)
    requires
        0 <= i < asked.len(),
        forall|j: int| i < j < asked.len() ==> !same_lora(#[trigger] asked[j], asked[i]),
    ensures
        with_loras(base, asked).contains(asked[i]),
    decreases asked.len(),
{
    let front = asked.drop_last();
    lemma_with_lora(with_loras(base, front), asked.last());
    if i < front.len() {
        assert forall|j: int| i < j < front.len() implies !same_lora(
            #[trigger] front[j],
            front[i],
        ) by {
            assert(asked[j] == front[j]);
        }
        law_request_overrides(base, front, i);
        assert(!same_lora(asked[asked.len() - 1], asked[i]));
        assert(with_loras(base, front).contains(asked[i]));
    }
}

// ---------------------------------------------------------------------------
// What a prompt says
// ---------------------------------------------------------------------------

/// A label with its value, where there is one.
pub open spec fn labelled_value(label: Seq<char>, value: Option<String>) -> Seq<char> {
    match value {
        Some(s) => trim(label + s@),
        None => Seq::empty(),
    }
}

/// The text of the character of a request.
pub open spec fn text_of_character(request: ImageGenerationRequest) -> Seq<char> {
    match request.character_context {
        Some(c) => glued(
            glued(
                glued(
                    labelled_value("Character: "@, c.name),
                    ", "@,
                    labelled_value("Character appearance: "@, c.appearance),
                ),
                ", "@,
                labelled_value("Character description: "@, c.description),
            ),
            ", "@,
            labelled_value("Character personality and expression guidance: "@, c.personality),
        ),
        None => Seq::empty(),
    }
}

/// The text of the scene of a request: its visual prompt, or where it has none its description.
pub open spec fn text_of_scene(request: ImageGenerationRequest) -> Seq<char> {
    match request.scene_context {
        Some(scene) => match (scene.visual_prompt, scene.description) {
            (Some(s), _) => trim(s@),
            (None, Some(s)) => trim(s@),
            (None, None) => Seq::empty(),
        },
        None => Seq::empty(),
    }
}

proof fn lemma_one_part(s: Seq<char>)
    ensures
        none_empty(one_part(s)),
        join(one_part(s), ", "@) == trim(s),
{
    law_join(Seq::empty(), Seq::empty(), ", "@, trim(s));
    if trim(s).len() == 0 {
        assert(trim(s) =~= Seq::empty());
    }
}

proof fn lemma_character_text(request: ImageGenerationRequest)
    ensures
        match optional_character_prompt(request) {
            Some(s) => s == text_of_character(request),
            None => text_of_character(request).len() == 0 && request.character_context is None,
        },
{
    if let Some(c) = request.character_context {
        let a = optional_part("Character: "@, opt_view(c.name));
        let b = optional_part("Character appearance: "@, opt_view(c.appearance));
        let d = optional_part("Character description: "@, opt_view(c.description));
        let e = optional_part(
            "Character personality and expression guidance: "@,
            opt_view(c.personality),
        );
        lemma_optional_part("Character: "@, c.name);
        lemma_optional_part("Character appearance: "@, c.appearance);
        lemma_optional_part("Character description: "@, c.description);
        lemma_optional_part("Character personality and expression guidance: "@, c.personality);
        lemma_join_glued(a, b, ", "@);
        lemma_join_glued(a + b, d, ", "@);
        lemma_join_glued(a + b + d, e, ", "@);
    }
}

proof fn lemma_optional_part(label: Seq<char>, value: Option<String>)
    ensures
        none_empty(optional_part(label, opt_view(value))),
        join(optional_part(label, opt_view(value)), ", "@) == labelled_value(label, value),
{
    match value {
        Some(s) => lemma_one_part(label + s@),
        None => {
            law_join(Seq::empty(), Seq::empty(), ", "@, Seq::empty());
            assert(join(Seq::empty(), ", "@) =~= Seq::empty());
        },
    }
}

proof fn lemma_scene_text(request: ImageGenerationRequest)
    ensures
        match optional_scene_prompt(request) {
            Some(s) => s == text_of_scene(request),
            None => text_of_scene(request).len() == 0 && request.scene_context is None,
        },
{
    if let Some(scene) = request.scene_context {
        law_join(Seq::empty(), Seq::empty(), ", "@, Seq::empty());
        assert(join(Seq::empty(), ", "@) =~= Seq::empty());
        match (scene.visual_prompt, scene.description) {
            (Some(s), _) => lemma_one_part(s@),
            (None, Some(s)) => lemma_one_part(s@),
            (None, None) => {},
        }
    }
}

proof fn lemma_nonempty_part(s: Option<Seq<char>>)
    ensures
        none_empty(nonempty_part(s)),
        join(nonempty_part(s), ", "@) == (match s {
            Some(t) => t,
            None => Seq::empty(),
        }),
{
    let t = match s {
        Some(t) => t,
        None => Seq::empty(),
    };
    law_join(Seq::empty(), Seq::empty(), ", "@, t);
    if t.len() == 0 {
        assert(join(nonempty_part(s), ", "@) =~= t);
    }
}

proof fn lemma_missing_keywords(keywords: Seq<Seq<char>>, lower: Seq<char>)
    ensures
        none_empty(missing_keywords(keywords, lower)),
        forall|s: Seq<char>|
            missing_keywords(keywords, lower).contains(s) ==> !contains(lower, lower_case(s)),
        forall|i: int|
            0 <= i < keywords.len() && trim(#[trigger] keywords[i]).len() > 0 && !contains(
                lower,
                lower_case(trim(keywords[i])),
            ) ==> missing_keywords(keywords, lower).contains(trim(keywords[i])),
        forall|s: Seq<char>|
            missing_keywords(keywords, lower).contains(s) ==> exists|i: int|
                0 <= i < keywords.len() && trim(#[trigger] keywords[i]) == s,
    decreases keywords.len(),
{
    if keywords.len() > 0 {
        let front = keywords.drop_last();
        let before = missing_keywords(front, lower);
        let all = missing_keywords(keywords, lower);
        lemma_missing_keywords(front, lower);
        let last = trim(keywords.last());
        assert(forall|s: Seq<char>| before.contains(s) ==> all.contains(s)) by {
            assert forall|s: Seq<char>| before.contains(s) implies all.contains(s) by {
                let k = choose|k: int| 0 <= k < before.len() && before[k] == s;
                assert(all[k] == s);
            }
        }
        if last.len() > 0 && !contains(lower, lower_case(last)) {
            assert(all[all.len() - 1] == last);
        }
        assert forall|i: int|
            0 <= i < keywords.len() && trim(#[trigger] keywords[i]).len() > 0 && !contains(
                lower,
                lower_case(trim(keywords[i])),
            ) implies all.contains(trim(keywords[i])) by {
            if i < front.len() {
                assert(front[i] == keywords[i]);
            }
        }
        assert forall|s: Seq<char>| all.contains(s) implies !contains(lower, lower_case(s))
            && exists|i: int| 0 <= i < keywords.len() && trim(#[trigger] keywords[i]) == s by {
            if before.contains(s) {
                let i = choose|i: int| 0 <= i < front.len() && trim(#[trigger] front[i]) == s;
                assert(trim(keywords[i]) == s);
            } else {
                let k = choose|k: int| 0 <= k < all.len() && all[k] == s;
                if k < before.len() {
                    assert(before[k] == s);
                }
                assert(trim(keywords[keywords.len() - 1]) == s);
            }
        }
    }
}

/// The words that a prompt gets are joined to one text: a word that is not blank is among them
/// unless the text of the character, the scene or the request says it already, whatever its case,
/// and no other word is.
pub open spec fn is_word_list(
    words: Seq<Seq<char>>,
    request: ImageGenerationRequest,
    keywords: Seq<Seq<char>>,
) -> bool {
    let said = (if request.character_context is Some {
        text_of_character(request) + "\n"@
    } else {
        Seq::empty()
    }) + (if request.scene_context is Some {
        text_of_scene(request) + "\n"@
    } else {
        Seq::empty()
    }) + trim(request.prompt@);
    &&& forall|i: int|
        0 <= i < keywords.len() && trim(#[trigger] keywords[i]).len() > 0 && !contains(
            lower_case(said),
            lower_case(trim(keywords[i])),
        ) ==> words.contains(trim(keywords[i]))
    &&& forall|s: Seq<char>| #[trigger]
        words.contains(s) ==> s.len() > 0 && !contains(lower_case(said), lower_case(s)) && exists|
            i: int,
        |
            0 <= i < keywords.len() && trim(#[trigger] keywords[i]) == s
}

/// A prompt says, in this order and with commas between: what stands before every prompt, the words
/// that nothing else says, the character, the scene, and the request's own prompt.
pub proof fn law_prompt_says_it_all(
    request: ImageGenerationRequest,
    pre_prompt: Option<Seq<char>>,
    keywords: Seq<Seq<char>>,
) -> (words: Seq<Seq<char>>)
    ensures
        is_word_list(words, request, keywords),
        complete_prompt(request, pre_prompt, keywords) == glued(
            glued(
                glued(
                    glued(
                        match pre_prompt {
                            Some(s) => trim(s),
                            None => Seq::empty(),
                        },
                        ", "@,
                        join(words, ", "@),
                    ),
                    ", "@,
                    text_of_character(request),
                ),
                ", "@,
                text_of_scene(request),
            ),
            ", "@,
            trim(request.prompt@),
        ),
{
    let head = match pre_prompt {
        Some(s) => one_part(s),
        None => Seq::empty(),
    };
    let words = missing_keywords(keywords, lower_case(plain_text(request)));
    let character = nonempty_part(optional_character_prompt(request));
    let scene = nonempty_part(optional_scene_prompt(request));
    let own = one_part(request.prompt@);
    law_join(Seq::empty(), Seq::empty(), ", "@, Seq::empty());
    assert(join(Seq::empty(), ", "@) =~= Seq::empty());
    if let Some(s) = pre_prompt {
        lemma_one_part(s);
    }
    lemma_one_part(request.prompt@);
    lemma_character_text(request);
    lemma_scene_text(request);
    lemma_nonempty_part(optional_character_prompt(request));
    lemma_nonempty_part(optional_scene_prompt(request));
    lemma_missing_keywords(keywords, lower_case(plain_text(request)));
    assert(text_of_character(request).len() == 0 ==> text_of_character(request) =~= Seq::empty());
    assert(text_of_scene(request).len() == 0 ==> text_of_scene(request) =~= Seq::empty());
    lemma_join_glued(head, words, ", "@);
    lemma_join_glued(head + words, character, ", "@);
    lemma_join_glued(head + words + character, scene, ", "@);
    lemma_join_glued(head + words + character + scene, own, ", "@);
    assert forall|s: Seq<char>| #[trigger] words.contains(s) implies s.len() > 0 by {
        let k = choose|k: int| 0 <= k < words.len() && words[k] == s;
        assert(words[k].len() > 0);
    }
    words
}

/// A prompt ends with what the request itself asks for, where it asks for anything, whatever else
/// there is to say.
pub proof fn law_own_prompt_stands_last(
    request: ImageGenerationRequest,
    pre_prompt: Option<Seq<char>>,
    keywords: Seq<Seq<char>>,
)
    requires
        trim(request.prompt@).len() > 0,
    ensures
        ({
            let prompt = complete_prompt(request, pre_prompt, keywords);
            let own = trim(request.prompt@);
            prompt == own || ends_with(prompt, ", "@ + own)
        }),
        ends_with(complete_prompt(request, pre_prompt, keywords), trim(request.prompt@)),
{
    let words = law_prompt_says_it_all(request, pre_prompt, keywords);
    let own = trim(request.prompt@);
    let prompt = complete_prompt(request, pre_prompt, keywords);
    if prompt != own {
        assert(prompt.skip(prompt.len() - own.len() - ", "@.len()) =~= ", "@ + own);
    }
    assert(prompt.skip(prompt.len() - own.len()) =~= own);
}

/// A prompt begins with what stands before every prompt, where that says anything.
pub proof fn law_pre_prompt_stands_first(
    request: ImageGenerationRequest,
    pre_prompt: Seq<char>,
    keywords: Seq<Seq<char>>,
)
    requires
        trim(pre_prompt).len() > 0,
    ensures
        ({
            let prompt = complete_prompt(request, Some(pre_prompt), keywords);
            let rest = complete_prompt(request, None, keywords);
            prompt == (if rest.len() == 0 {
                trim(pre_prompt)
            } else {
                trim(pre_prompt) + ", "@ + rest
            })
        }),
{
    let rest = missing_keywords(keywords, lower_case(plain_text(request))) + nonempty_part(
        optional_character_prompt(request),
    ) + nonempty_part(optional_scene_prompt(request)) + one_part(request.prompt@);
    let head = one_part(pre_prompt);
    lemma_one_part(pre_prompt);
    lemma_one_part(request.prompt@);
    lemma_missing_keywords(keywords, lower_case(plain_text(request)));
    lemma_nonempty_part(optional_character_prompt(request));
    lemma_nonempty_part(optional_scene_prompt(request));
    let a = missing_keywords(keywords, lower_case(plain_text(request)));
    let b = nonempty_part(optional_character_prompt(request));
    let c = nonempty_part(optional_scene_prompt(request));
    lemma_join_glued(a, b, ", "@);
    lemma_join_glued(a + b, c, ", "@);
    lemma_join_glued(a + b + c, one_part(request.prompt@), ", "@);
    lemma_join_glued(head, rest, ", "@);
    assert(head + a + b + c + one_part(request.prompt@) =~= head + rest);
    assert(Seq::<Seq<char>>::empty() + a + b + c + one_part(request.prompt@) =~= rest);
}

// ---------------------------------------------------------------------------
// What is handed to a provider
// ---------------------------------------------------------------------------

/// Every image of the character that is not blank is handed to the provider, whichever field of
/// the request names it, and no input image is lost.
pub proof fn law_every_reference_is_an_input(request: ImageGenerationRequest, image: String)
    ensures
        ({
            let inputs = match promoted_inputs(request) {
                Some(images) => images,
                None => Seq::empty(),
            };
            let names = {
                ||| request.character_reference_image == Some(image)
                ||| request.character_reference_images@.contains(image)
                ||| request.character_context matches Some(c) && (c.reference_image == Some(image)
                    || c.reference_images@.contains(image))
            };
            &&& names && trim(image@).len() > 0 ==> inputs.contains(trim(image@))
            &&& request.input_images matches Some(given) ==> given@.contains(image)
                ==> inputs.contains(image@)
        }),
{
    let s = trim(image@);
    let none: Seq<Seq<char>> = Seq::empty();
    let references = character_references(request);
    lemma_with_missing(request.input_views(), references);
    law_references_are_inputs(request);
    if s.len() > 0 {
        let first = add_optional(none, opt_view(request.character_reference_image));
        lemma_optional_keeps(none, opt_view(request.character_reference_image), s);
        lemma_images_keep(first, request.character_reference_images@, image);
        let own = add_images(first, views(request.character_reference_images@));
        if let Some(c) = request.character_context {
            lemma_optional_keeps(own, opt_view(c.reference_image), s);
            lemma_images_keep(
                add_optional(own, opt_view(c.reference_image)),
                c.reference_images@,
                image,
            );
        }
        if references.contains(s) {
            let k = choose|k: int| 0 <= k < references.len() && references[k] == s;
            assert(references[k] == s);
        }
    }
    if let Some(given) = request.input_images {
        if given@.contains(image) {
            let k = choose|k: int| 0 <= k < given@.len() && given@[k] == image;
            assert(request.input_views()[k] == image@);
            match promoted_inputs(request) {
                Some(images) => {
                    assert(images[k] == image@);
                },
                None => {},
            }
        }
    }
}

/// An input image is one that the request gave or one of the character, and none is added twice.
pub proof fn law_no_input_is_made_up(list: Seq<Seq<char>>, images: Seq<Seq<char>>, i: int)
    requires
        0 <= i < with_missing(list, images).len(),
    ensures
        list.contains(with_missing(list, images)[i]) || images.contains(
            with_missing(list, images)[i],
        ),
        list.no_duplicates() ==> with_missing(list, images).no_duplicates(),
    decreases images.len(),
{
    if images.len() == 0 {
        assert(list.contains(list[i]));
    } else {
        let front = images.drop_last();
        let before = with_missing(list, front);
        if i < before.len() {
            law_no_input_is_made_up(list, front, i);
            if front.contains(before[i]) {
                let k = choose|k: int| 0 <= k < front.len() && front[k] == before[i];
                assert(images[k] == before[i]);
            }
        } else {
            assert(images[images.len() - 1] == with_missing(list, images)[i]);
            if before.len() > 0 {
                law_no_input_is_made_up(list, front, 0);
            }
        }
    }
}

/// An adaptation of the settings stays unless the request has one with the same path and noise,
/// and none is there that neither of the two has.
pub proof fn law_settings_stay(base: Seq<LoraModel>, asked: Seq<LoraModel>, x: LoraModel)
    ensures
        base.contains(x) && (forall|j: int|
            0 <= j < asked.len() ==> (#[trigger] asked[j]).path != x.path || asked[j].is_high_noise
                != x.is_high_noise) ==> with_loras(base, asked).contains(x),
        with_loras(base, asked).contains(x) ==> base.contains(x) || asked.contains(x),
    decreases asked.len(),
{
    if asked.len() > 0 {
        let front = asked.drop_last();
        let last = asked.last();
        let before = with_loras(base, front);
        law_settings_stay(base, front, x);
        lemma_with_lora(before, last);
        lemma_with_lora_only(before, last, x);
        if front.contains(x) {
            let k = choose|k: int| 0 <= k < front.len() && front[k] == x;
            assert(asked[k] == x);
        }
        assert(asked.contains(last)) by {
            assert(asked[asked.len() - 1] == last);
        }
        if forall|j: int|
            0 <= j < asked.len() ==> (#[trigger] asked[j]).path != x.path || asked[j].is_high_noise
                != x.is_high_noise {
            assert forall|j: int| 0 <= j < front.len() implies (#[trigger] front[j]).path != x.path
                || front[j].is_high_noise != x.is_high_noise by {
                assert(asked[j] == front[j]);
            }
            assert(asked[asked.len() - 1] == last);
            assert(!same_lora(x, last));
        }
    }
}

proof fn lemma_with_lora_only(list: Seq<LoraModel>, lora: LoraModel, x: LoraModel)
    ensures
        with_lora(list, lora).contains(x) ==> list.contains(x) || x == lora,
    decreases list.len(),
{
    let after = with_lora(list, lora);
    if after.contains(x) {
        let k = choose|k: int| 0 <= k < after.len() && after[k] == x;
        if list.len() == 0 {
        } else if same_lora(list[0], lora) {
            if k > 0 {
                assert(list[k] == x);
            }
        } else if k == 0 {
            assert(list[0] == x);
        } else {
            let rest = list.drop_first();
            assert(with_lora(rest, lora)[k - 1] == x);
            lemma_with_lora_only(rest, lora, x);
            if rest.contains(x) {
                let m = choose|m: int| 0 <= m < rest.len() && rest[m] == x;
                assert(list[m + 1] == x);
            }
        }
    }
}

/// Every word of an adaptation that the request asks for is among the words of the request, in one
/// case or another, unless a later one of the same path and noise overrides it.
pub proof fn law_words_of_a_request(
    request: ImageGenerationRequest,
    loras: Vec<ImageLora>,
    i: int,
    j: int,
)
    requires
        request.loras == Some(loras),
        0 <= i < loras@.len(),
        0 <= j < loras@[i].keywords@.len(),
        trim(loras@[i].keywords@[j]@).len() > 0,
        forall|k: int|
            i < k < loras@.len() ==> (#[trigger] loras@[k]).path@ != loras@[i].path@
                || loras@[k].is_high_noise != loras@[i].is_high_noise,
    ensures
        exists|n: int|
            0 <= n < active_keywords(request).len() && lower_case(
                #[trigger] active_keywords(request)[n],
            ) == lower_case(trim(loras@[i].keywords@[j]@)),
{
    let base = match request.advanced_model_settings {
        Some(s) => match s.sd_base_loras {
            Some(list) => lora_models(list@),
            None => Seq::empty(),
        },
        None => Seq::empty(),
    };
    let asked = lora_models(loras@);
    let all = with_loras(base, asked);
    assert forall|k: int| i < k < asked.len() implies !same_lora(#[trigger] asked[k], asked[i]) by {
        assert(loras@[k].path@ != loras@[i].path@ || loras@[k].is_high_noise
            != loras@[i].is_high_noise);
    }
    law_request_overrides(base, asked, i);
    let at = choose|at: int| 0 <= at < all.len() && all[at] == asked[i];
    law_keywords_once(all);
    let word = loras@[i].keywords@[j]@;
    assert(all[at].keywords[j] == word);
    let words = active_keywords(request);
    assert(lowered(words).contains(lower_case(trim(word))));
    let n = choose|n: int| 0 <= n < lowered(words).len() && lowered(words)[n] == lower_case(
        trim(word),
    );
    assert(lower_case(words[n]) == lower_case(trim(word)));
}

/// Words are taken in the order in which they come, the first form of each, and none is made up.
pub proof fn law_word_is_taken(list: Seq<Seq<char>>, word: Seq<char>)
    ensures
        trim(word).len() > 0 && (forall|i: int|
            0 <= i < list.len() ==> lower_case(#[trigger] list[i]) != lower_case(trim(word)))
            ==> add_keyword(list, word) == list.push(trim(word)),
        trim(word).len() == 0 ==> add_keyword(list, word) == list,
        (exists|i: int|
            0 <= i < list.len() && lower_case(#[trigger] list[i]) == lower_case(trim(word)))
            ==> add_keyword(list, word) == list,
{
    let low = lower_case(trim(word));
    if lowered(list).contains(low) {
        let k = choose|k: int| 0 <= k < lowered(list).len() && lowered(list)[k] == low;
        assert(lower_case(list[k]) == low);
    }
    if exists|i: int| 0 <= i < list.len() && lower_case(#[trigger] list[i]) == low {
        let i = choose|i: int| 0 <= i < list.len() && lower_case(#[trigger] list[i]) == low;
        assert(lowered(list)[i] == low);
    }
}

} // verus!
