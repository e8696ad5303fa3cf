//! Image generation requests and responses.
use vstd::prelude::*;

use crate::chat::AdvancedModelSettings;
use crate::fraction::Fraction;
use crate::text::{
    holds, opt_present, opt_view, present, present_opt, present_str, same_ignoring_case, trim,
    trim_str, views, views_len, views_push,
};

verus! {

// ---------------------------------------------------------------------------
// Lists of reference images
// ---------------------------------------------------------------------------

/// The list with one more image, unless the image is blank or there already.
pub open spec fn add_image(list: Seq<Seq<char>>, image: Seq<char>) -> Seq<Seq<char>> {
    match present(image) {
        Some(s) => if list.contains(s) {
            list
        } else {
            list.push(s)
        },
        None => list,
    }
}

pub open spec fn add_images(list: Seq<Seq<char>>, images: Seq<Seq<char>>) -> Seq<Seq<char>>
    decreases images.len(),
{
    if images.len() == 0 {
        list
    } else {
        add_image(add_images(list, images.drop_last()), images.last())
    }
}

pub open spec fn add_optional(list: Seq<Seq<char>>, image: Option<Seq<char>>) -> Seq<Seq<char>> {
    match image {
        Some(s) => add_image(list, s),
        None => list,
    }
}

/// The first image that is not blank.
pub open spec fn first_present(images: Seq<Seq<char>>) -> Option<Seq<char>>
    decreases images.len(),
{
    if images.len() == 0 {
        None
    } else {
        match present(images[0]) {
            Some(s) => Some(s),
            None => first_present(images.drop_first()),
        }
    }
}

pub(crate) fn push_image(list: &mut Vec<String>, image: &str)
    ensures
        views(final(list)@) == add_image(views(old(list)@), image@),
{
    broadcast use {views_push, views_len};

    match present_str(image) {
        Some(s) => {
            if !holds(list, s) {
                list.push(s.to_string());
            }
        },
        None => {},
    }
}

pub(crate) fn push_images(list: &mut Vec<String>, images: &Vec<String>)
    ensures
        views(final(list)@) == add_images(views(old(list)@), views(images@)),
{
    let ghost before = views(list@);
    let ghost all = views(images@);
    for i in 0..images.len()
        invariant
            all == views(images@),
            views(list@) == add_images(before, all.take(i as int)),
    {
        assert(all.take(i + 1).drop_last() =~= all.take(i as int));
        assert(all.take(i + 1).last() == images@[i as int]@);
        push_image(list, images[i].as_str());
    }
    assert(all.take(all.len() as int) =~= all);
}

fn find_present(images: &Vec<String>) -> (r: Option<&str>)
    ensures
        crate::text::opt_str_view(r) == first_present(views(images@)),
{
    let ghost all = views(images@);
    assert(all.skip(0) =~= all);
    for i in 0..images.len()
        invariant
            all == views(images@),
            first_present(all) == first_present(all.skip(i as int)),
    {
        assert(all.skip(i as int)[0] == images@[i as int]@);
        assert(all.skip(i as int).drop_first() =~= all.skip(i + 1));
        if let Some(s) = present_str(images[i].as_str()) {
            return Some(s);
        }
    }
    None
}

/// A list of images that are not blank, without white space around them and each once.
pub open spec fn is_image_list(list: Seq<Seq<char>>) -> bool {
    &&& list.no_duplicates()
    &&& forall|i: int|
        0 <= i < list.len() ==> (#[trigger] list[i]).len() > 0 && exists|image: Seq<char>|
            present(image) == Some(list[i])
}

/// Adding images to such a list gives such a list again. The images that were there stay at its
/// head, and every image that is not blank is in it.
pub proof fn law_add_images(list: Seq<Seq<char>>, images: Seq<Seq<char>>)
    requires
        is_image_list(list),
    ensures
        is_image_list(add_images(list, images)),
        list.is_prefix_of(add_images(list, images)),
        forall|i: int|
            0 <= i < images.len() && present(images[i]) is Some ==> add_images(
                list,
                images,
            ).contains(#[trigger] present(images[i])->0),
    decreases images.len(),
{
    if images.len() > 0 {
        let front = images.drop_last();
        law_add_images(list, front);
        let before = add_images(list, front);
        let after = add_images(list, images);
        assert(before.is_prefix_of(after));
        assert forall|i: int| 0 <= i < images.len() && present(images[i]) is Some implies
            after.contains(#[trigger] present(images[i])->0) by {
            let s = present(images[i])->0;
            if i < front.len() {
                assert(front[i] == images[i]);
                assert(present(front[i])->0 == s);
                let k = choose|k: int| 0 <= k < before.len() && before[k] == s;
                assert(after[k] == s);
            } else if !before.contains(s) {
                assert(after[after.len() - 1] == s);
            }
        }
        assert forall|i: int| 0 <= i < after.len() implies (#[trigger] after[i]).len() > 0
            && exists|image: Seq<char>| present(image) == Some(after[i]) by {
            if i < before.len() {
                assert(before[i] == after[i]);
            } else {
                assert(present(images.last()) == Some(after[i]));
            }
        }
        assert forall|i: int, j: int|
            0 <= i < after.len() && 0 <= j < after.len() && i != j implies after[i] != after[j] by {
            if i < before.len() && j < before.len() {
                assert(before[i] == after[i] && before[j] == after[j]);
            }
        }
    }
}

// ---------------------------------------------------------------------------
// Characters and scenes
// ---------------------------------------------------------------------------

/// A low-rank adaptation of an image model: its file, its strength and the words that call it.
#[derive(Debug)]
pub struct ImageLora {
    pub path: String,
    pub multiplier: Fraction,
    pub is_high_noise: bool,
    pub keywords: Vec<String>,
}

/// What is known of a character that is to be drawn.
#[derive(Debug)]
pub struct ImageCharacterContext {
    pub name: Option<String>,
    pub description: Option<String>,
    pub appearance: Option<String>,
    pub personality: Option<String>,
    /// The primary reference image.
    pub reference_image: Option<String>,
    pub reference_images: Vec<String>,
}

impl ImageCharacterContext {
    pub open spec fn primary_image(self) -> Option<Seq<char>> {
        opt_present(opt_view(self.reference_image))
    }

    pub open spec fn images(self) -> Seq<Seq<char>> {
        add_images(
            add_optional(Seq::empty(), opt_view(self.reference_image)),
            views(self.reference_images@),
        )
    }

    pub open spec fn says_nothing(self) -> bool {
        &&& opt_present(opt_view(self.name)) is None
        &&& opt_present(opt_view(self.description)) is None
        &&& opt_present(opt_view(self.appearance)) is None
        &&& opt_present(opt_view(self.personality)) is None
        &&& self.images().len() == 0
    }

    /// The primary reference image, where there is one.
    pub fn primary_reference_image(&self) -> (r: Option<&str>)
        ensures
            crate::text::opt_str_view(r) == self.primary_image(),
    {
        present_opt(&self.reference_image)
    }

    /// The primary reference image and the others after it, each once.
    pub fn all_reference_images(&self) -> (r: Vec<String>)
        ensures
            views(r@) == self.images(),
    {
        let mut images: Vec<String> = Vec::new();
        assert(views(images@) =~= Seq::empty());
        if let Some(image) = &self.reference_image {
            push_image(&mut images, image.as_str());
        }
        push_images(&mut images, &self.reference_images);
        images
    }

    /// Whether there is nothing in this context to draw from.
    pub fn is_empty(&self) -> (r: bool)
        ensures
            r == self.says_nothing(),
    {
        broadcast use views_len;

        present_opt(&self.name).is_none() && present_opt(&self.description).is_none()
            && present_opt(&self.appearance).is_none() && present_opt(&self.personality).is_none()
            && self.all_reference_images().len() == 0
    }
}

/// A character in a scene.
#[derive(Debug)]
pub struct ImageSceneCharacter {
    pub character_id: Option<String>,
    pub character: ImageCharacterContext,
    pub scene_role: Option<String>,
    pub action: Option<String>,
}

/// A scene that is to be drawn.
#[derive(Debug)]
pub struct ImageSceneContext {
    pub description: Option<String>,
    /// The finished prompt for the scene.
    pub visual_prompt: Option<String>,
    pub negative_prompt: Option<String>,
    pub characters: Vec<ImageSceneCharacter>,
    pub environment: Option<String>,
    pub lighting: Option<String>,
    pub composition: Option<String>,
    pub pose: Option<String>,
    pub outfit: Option<String>,
    pub visual_style: Option<String>,
}

/// The first of two values that is there.
pub open spec fn either<T>(a: Option<T>, b: Option<T>) -> Option<T> {
    match a {
        Some(_) => a,
        None => b,
    }
}

impl ImageSceneContext {
    pub open spec fn best_prompt(self) -> Option<Seq<char>> {
        either(opt_present(opt_view(self.visual_prompt)), opt_present(opt_view(self.description)))
    }

    /// The visual prompt of the scene, or else its description.
    pub fn effective_visual_prompt(&self) -> (r: Option<&str>)
        ensures
            crate::text::opt_str_view(r) == self.best_prompt(),
    {
        match present_opt(&self.visual_prompt) {
            Some(s) => Some(s),
            None => present_opt(&self.description),
        }
    }
}

// ---------------------------------------------------------------------------
// Requests
// ---------------------------------------------------------------------------

/// A request for images.
#[derive(Debug)]
pub struct ImageGenerationRequest {
    pub prompt: String,
    /// The image model; for AI Horde its exact name there.
    pub model: String,
    pub provider_id: String,
    pub credential_id: String,
    pub advanced_model_settings: Option<AdvancedModelSettings>,
    pub input_images: Option<Vec<String>>,
    pub mask_image: Option<String>,
    pub loras: Option<Vec<ImageLora>>,
    pub character_context: Option<ImageCharacterContext>,
    pub character_reference_image: Option<String>,
    pub character_reference_images: Vec<String>,
    pub scene_context: Option<ImageSceneContext>,
    pub output_modalities: Option<Vec<String>>,
    pub size: Option<String>,
    pub quality: Option<String>,
    pub style: Option<String>,
    /// How many images are asked for.
    pub n: Option<u32>,
    pub session_id: Option<String>,
    pub character_id: Option<String>,
    pub character_name: Option<String>,
    pub usage_source: Option<String>,
}

impl ImageGenerationRequest {
    pub open spec fn input_views(self) -> Seq<Seq<char>> {
        match self.input_images {
            Some(images) => views(images@),
            None => Seq::empty(),
        }
    }

    /// The image that the request names first: its own reference image, those of the character,
    /// the further references, the input images.
    pub open spec fn primary_image(self) -> Option<Seq<char>> {
        let character = match self.character_context {
            Some(c) => either(c.primary_image(), first_present(views(c.reference_images@))),
            None => None,
        };
        either(
            opt_present(opt_view(self.character_reference_image)),
            either(
                character,
                either(
                    first_present(views(self.character_reference_images@)),
                    first_present(self.input_views()),
                ),
            ),
        )
    }

    pub open spec fn images(self) -> Seq<Seq<char>> {
        let own = add_optional(Seq::empty(), opt_view(self.character_reference_image));
        let character = match self.character_context {
            Some(c) => add_images(
                add_optional(own, opt_view(c.reference_image)),
                views(c.reference_images@),
            ),
            None => own,
        };
        let more = add_images(character, views(self.character_reference_images@));
        add_images(more, self.input_views())
    }

    pub open spec fn scene_prompt(self) -> Option<Seq<char>> {
        match self.scene_context {
            Some(scene) => scene.best_prompt(),
            None => None,
        }
    }

    pub open spec fn best_prompt(self) -> Seq<char> {
        match self.scene_prompt() {
            Some(s) => s,
            None => trim(self.prompt@),
        }
    }

    pub open spec fn scene_negative_prompt(self) -> Option<Seq<char>> {
        match self.scene_context {
            Some(scene) => opt_present(opt_view(scene.negative_prompt)),
            None => None,
        }
    }

    pub open spec fn is_scene(self) -> bool {
        ||| self.usage_source is Some && crate::text::lower_ascii(self.usage_source->0@)
            == crate::text::lower_ascii("scene"@)
        ||| self.scene_prompt() is Some
    }

    /// The first reference image of the request.
    pub fn primary_reference_image(&self) -> (r: Option<&str>)
        ensures
            crate::text::opt_str_view(r) == self.primary_image(),
    {
        if let Some(s) = present_opt(&self.character_reference_image) {
            return Some(s);
        }
        if let Some(c) = &self.character_context {
            if let Some(s) = c.primary_reference_image() {
                return Some(s);
            }
            if let Some(s) = find_present(&c.reference_images) {
                return Some(s);
            }
        }
        if let Some(s) = find_present(&self.character_reference_images) {
            return Some(s);
        }
        match &self.input_images {
            Some(images) => find_present(images),
            None => None,
        }
    }

    /// Every reference image of the request, each once, in the order of preference.
    pub fn all_reference_images(&self) -> (r: Vec<String>)
        ensures
            views(r@) == self.images(),
    {
        let mut result: Vec<String> = Vec::new();
        assert(views(result@) =~= Seq::empty());
        if let Some(image) = &self.character_reference_image {
            push_image(&mut result, image.as_str());
        }
        if let Some(context) = &self.character_context {
            if let Some(image) = &context.reference_image {
                push_image(&mut result, image.as_str());
            }
            push_images(&mut result, &context.reference_images);
        }
        push_images(&mut result, &self.character_reference_images);
        if let Some(images) = &self.input_images {
            push_images(&mut result, images);
        }
        result
    }

    /// The prompt of the scene where there is one, else the request's own.
    pub fn effective_prompt(&self) -> (r: &str)
        ensures
            r@ == self.best_prompt(),
    {
        if let Some(scene) = &self.scene_context {
            if let Some(s) = scene.effective_visual_prompt() {
                return s;
            }
        }
        trim_str(self.prompt.as_str())
    }

    /// The negative prompt of the scene.
    pub fn negative_prompt(&self) -> (r: Option<&str>)
        ensures
            crate::text::opt_str_view(r) == self.scene_negative_prompt(),
    {
        match &self.scene_context {
            Some(scene) => present_opt(&scene.negative_prompt),
            None => None,
        }
    }

    /// Whether the image is of a scene.
    pub fn is_scene_generation(&self) -> (r: bool)
        ensures
            r == self.is_scene(),
    {
        if let Some(source) = &self.usage_source {
            if same_ignoring_case(source.as_str(), "scene") {
                return true;
            }
        }
        match &self.scene_context {
            Some(scene) => scene.effective_visual_prompt().is_some(),
            None => false,
        }
    }
}

/// The reference images of a request are each there once and none is blank, and where there are
/// any the first of them is the primary one.
pub proof fn law_request_images(request: ImageGenerationRequest)
    ensures
        is_image_list(request.images()),
        request.primary_image() == (if request.images().len() > 0 {
            Some(request.images()[0])
        } else {
            None
        }),
{
    let none: Seq<Seq<char>> = Seq::empty();
    let own = add_optional(none, opt_view(request.character_reference_image));
    lemma_optional_head(none, opt_view(request.character_reference_image));
    let character = match request.character_context {
        Some(c) => {
            let first = add_optional(own, opt_view(c.reference_image));
            lemma_optional_head(own, opt_view(c.reference_image));
            lemma_head(first, views(c.reference_images@));
            add_images(first, views(c.reference_images@))
        },
        None => own,
    };
    lemma_head(character, views(request.character_reference_images@));
    let more = add_images(character, views(request.character_reference_images@));
    lemma_head(more, request.input_views());
}

proof fn lemma_optional_head(list: Seq<Seq<char>>, image: Option<Seq<char>>)
    requires
        is_image_list(list),
    ensures
        is_image_list(add_optional(list, image)),
        list.len() > 0 ==> add_optional(list, image).len() > 0 && add_optional(list, image)[0]
            == list[0],
        list.len() == 0 ==> (match opt_present(image) {
            Some(s) => add_optional(list, image).len() > 0 && add_optional(list, image)[0] == s,
            None => add_optional(list, image).len() == 0,
        }),
{
    if let Some(s) = image {
        law_add_images(list, seq![s]);
        assert(seq![s].drop_last() =~= Seq::empty());
        assert(add_images(list, Seq::empty()) == list);
        assert(add_images(list, seq![s]) == add_image(list, s));
    }
}

proof fn lemma_head(list: Seq<Seq<char>>, images: Seq<Seq<char>>)
    requires
        is_image_list(list),
    ensures
        is_image_list(add_images(list, images)),
        list.len() > 0 ==> add_images(list, images).len() > 0 && add_images(list, images)[0]
            == list[0],
        list.len() == 0 ==> (match first_present(images) {
            Some(s) => add_images(list, images).len() > 0 && add_images(list, images)[0] == s,
            None => add_images(list, images).len() == 0,
        }),
    decreases images.len(),
{
    law_add_images(list, images);
    if images.len() > 0 {
        lemma_head(list, images.drop_last());
        lemma_first_present_last(images);
    }
}

proof fn lemma_first_present_last(images: Seq<Seq<char>>)
    requires
        images.len() > 0,
    ensures
        first_present(images) == either(
            first_present(images.drop_last()),
            present(images.last()),
        ),
    decreases images.len(),
{
    if images.len() > 1 {
        lemma_first_present_last(images.drop_first());
        assert(images.drop_first().drop_last() =~= images.drop_last().drop_first());
    } else {
        assert(images.drop_first() =~= Seq::empty());
        assert(images.drop_last() =~= Seq::empty());
    }
}

// ---------------------------------------------------------------------------
// Responses
// ---------------------------------------------------------------------------

/// An image that was generated and stored.
#[derive(Debug)]
pub struct GeneratedImage {
    pub asset_id: String,
    pub file_path: String,
    pub mime_type: String,
    pub url: Option<String>,
    pub width: Option<u32>,
    pub height: Option<u32>,
    pub text: Option<String>,
}

#[derive(Debug)]
pub struct ImageGenerationResponse {
    pub images: Vec<GeneratedImage>,
    pub model: String,
    pub provider_id: String,
}

/// No reference image of a request is lost: its own, those of the character, the further ones and
/// the input images are all in the list, unless they are blank.
pub proof fn law_no_reference_is_lost(request: ImageGenerationRequest, image: String)
    requires
        trim(image@).len() > 0,
        ({
            ||| request.character_reference_image == Some(image)
            ||| request.character_reference_images@.contains(image)
            ||| request.input_images matches Some(images) && images@.contains(image)
            ||| request.character_context matches Some(c) && (c.reference_image == Some(image)
                || c.reference_images@.contains(image))
        }),
    ensures
        request.images().contains(trim(image@)),
{
    let s = trim(image@);
    let none: Seq<Seq<char>> = Seq::empty();
    let own = add_optional(none, opt_view(request.character_reference_image));
    lemma_optional_keeps(none, opt_view(request.character_reference_image), s);
    let character = match request.character_context {
        Some(c) => {
            let first = add_optional(own, opt_view(c.reference_image));
            lemma_optional_keeps(own, opt_view(c.reference_image), s);
            lemma_images_keep(first, c.reference_images@, image);
            add_images(first, views(c.reference_images@))
        },
        None => own,
    };
    lemma_images_keep(character, request.character_reference_images@, image);
    let more = add_images(character, views(request.character_reference_images@));
    match request.input_images {
        Some(images) => {
            lemma_images_keep(more, images@, image);
        },
        None => {},
    }
}

pub(crate) proof fn lemma_optional_keeps(list: Seq<Seq<char>>, image: Option<Seq<char>>, s: Seq<char>)
    requires
        is_image_list(list),
    ensures
        is_image_list(add_optional(list, image)),
        list.contains(s) ==> add_optional(list, image).contains(s),
        opt_present(image) == Some(s) ==> add_optional(list, image).contains(s),
{
    lemma_optional_head(list, image);
    if list.contains(s) {
        let k = choose|k: int| 0 <= k < list.len() && list[k] == s;
        assert(add_optional(list, image)[k] == s);
    } else if opt_present(image) == Some(s) {
        let after = add_optional(list, image);
        assert(after[after.len() - 1] == s);
    }
}

pub(crate) proof fn lemma_images_keep(list: Seq<Seq<char>>, images: Seq<String>, image: String)
    requires
        is_image_list(list),
        trim(image@).len() > 0,
    ensures
        is_image_list(add_images(list, views(images))),
        list.contains(trim(image@)) || images.contains(image) ==> add_images(
            list,
            views(images),
        ).contains(trim(image@)),
{
    let s = trim(image@);
    let all = views(images);
    law_add_images(list, all);
    let after = add_images(list, all);
    if list.contains(s) {
        let k = choose|k: int| 0 <= k < list.len() && list[k] == s;
        assert(after[k] == s);
    }
    if images.contains(image) {
        let k = choose|k: int| 0 <= k < images.len() && images[k] == image;
        assert(all[k] == image@);
        assert(present(all[k])->0 == s);
    }
}

/// No reference image of a request is made up: each is one that the request names.
pub proof fn law_no_reference_is_made_up(list: Seq<Seq<char>>, images: Seq<Seq<char>>, i: int)
    requires
        0 <= i < add_images(list, images).len(),
    ensures
        list.contains(add_images(list, images)[i]) || exists|k: int|
            0 <= k < images.len() && trim(#[trigger] images[k]) == add_images(list, images)[i],
    decreases images.len(),
{
    if images.len() == 0 {
        assert(list.contains(list[i]));
    } else {
        let front = images.drop_last();
        let before = add_images(list, front);
        if i < before.len() {
            law_no_reference_is_made_up(list, front, i);
            if !list.contains(before[i]) {
                let k = choose|k: int|
                    0 <= k < front.len() && trim(#[trigger] front[k]) == before[i];
                assert(images[k] == front[k]);
            }
        } else {
            assert(trim(images[images.len() - 1]) == add_images(list, images)[i]);
        }
    }
}

/// Of the reference images the request's own comes first, then that of the character and its
/// others, then the further references, then the input images. Blank ones are passed over.
pub proof fn law_order_of_preference(request: ImageGenerationRequest, s: Seq<char>)
    ensures
        request.character_reference_image matches Some(own) ==> trim(own@).len() > 0
            ==> request.primary_image() == Some(trim(own@)),
        opt_present(opt_view(request.character_reference_image)) is None ==> {
            &&& request.character_context matches Some(c) ==> c.reference_image matches Some(image)
                ==> trim(image@).len() > 0 ==> request.primary_image() == Some(trim(image@))
            &&& request.character_context matches Some(c) ==> opt_present(
                opt_view(c.reference_image),
            ) is None && first_present(views(c.reference_images@)) == Some(s)
                ==> request.primary_image() == Some(s)
            &&& request.character_context is None && first_present(
                views(request.character_reference_images@),
            ) == Some(s) ==> request.primary_image() == Some(s)
            &&& request.character_context is None && first_present(
                views(request.character_reference_images@),
            ) is None ==> request.primary_image() == first_present(request.input_views())
        },
        request.input_images is None ==> request.input_views().len() == 0,
        request.input_images matches Some(images) ==> request.input_views() == views(images@),
{
}

/// The first image of a list is the first that is not blank, wherever it stands.
pub proof fn law_first_image(before: Seq<Seq<char>>, image: Seq<char>, behind: Seq<Seq<char>>)
    requires
        forall|i: int| 0 <= i < before.len() ==> trim(#[trigger] before[i]).len() == 0,
    ensures
        first_present(before) is None,
        trim(image).len() > 0 ==> first_present(before + seq![image] + behind) == Some(trim(image)),
    decreases before.len(),
{
    let all = before + seq![image] + behind;
    if before.len() > 0 {
        let rest = before.drop_first();
        assert(all[0] == before[0]);
        assert(all.drop_first() =~= rest + seq![image] + behind);
        assert forall|i: int| 0 <= i < rest.len() implies trim(#[trigger] rest[i]).len() == 0 by {
            assert(rest[i] == before[i + 1]);
        }
        law_first_image(rest, image, behind);
    } else {
        assert(all[0] == image);
    }
}

/// A scene is drawn from its visual prompt, or else from its description, and only without either
/// from the prompt of the request. It is a scene where it has one of the two or says that it is
/// one, in small letters or large. What is not to be drawn is what the scene says of it.
pub proof fn law_prompt_of_a_scene(request: ImageGenerationRequest)
    ensures
        request.scene_context is None ==> request.best_prompt() == trim(request.prompt@)
            && request.scene_negative_prompt() is None,
        request.scene_context matches Some(scene) ==> {
            let visual = opt_present(opt_view(scene.visual_prompt));
            let said = opt_present(opt_view(scene.description));
            &&& visual is Some ==> request.best_prompt() == visual->0 && request.is_scene()
            &&& visual is None && said is Some ==> request.best_prompt() == said->0
                && request.is_scene()
            &&& visual is None && said is None ==> request.best_prompt() == trim(request.prompt@)
            &&& request.scene_negative_prompt() == opt_present(opt_view(scene.negative_prompt))
        },
        request.usage_source matches Some(source) ==> crate::text::lower_ascii(source@) == "scene"@
            ==> request.is_scene(),
        request.is_scene() && request.scene_prompt() is None ==> (match request.usage_source {
            Some(source) => crate::text::lower_ascii(source@) == "scene"@,
            None => false,
        }),
{
    reveal_strlit("scene");
    assert(crate::text::lower_ascii("scene"@) =~= "scene"@);
}

/// A character says nothing just where neither its name, its description, its appearance nor its
/// personality is known and there is no image of it.
pub proof fn law_unknown_character(c: ImageCharacterContext, image: String)
    ensures
        c.says_nothing() ==> opt_present(opt_view(c.name)) is None && opt_present(
            opt_view(c.description),
        ) is None && opt_present(opt_view(c.appearance)) is None && opt_present(
            opt_view(c.personality),
        ) is None,
        c.says_nothing() && (c.reference_image == Some(image) || c.reference_images@.contains(
            image,
        )) ==> trim(image@).len() == 0,
{
    let none: Seq<Seq<char>> = Seq::empty();
    let first = add_optional(none, opt_view(c.reference_image));
    lemma_optional_keeps(none, opt_view(c.reference_image), trim(image@));
    if trim(image@).len() > 0 {
        lemma_images_keep(first, c.reference_images@, image);
    }
}

} // verus!
