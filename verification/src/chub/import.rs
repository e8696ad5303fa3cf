//! Importing a character.
use vstd::prelude::*;

use super::card::{base64_bytes, encode_base64};
use super::fields::{
    first_text, law_first_text, str_field, string_array_field, texts_of_field, texts_of_items,
};
use super::lorebook::{import_character_book, is_plan_of, LorebookPlan};
use super::search::{clean_path, sanitize_full_path};
use crate::json::{
    group_json_views, int_model, json_views, json_views_push, lemma_first_member, member_views,
    opt_json, push_member, signed, text, text_array, texts, Json, JsonModel,
};
use crate::stamp::{are_uuids, is_uuid, new_id, new_ids, now_millis};
use crate::text::{
    is_blank, is_link, is_link_text, join, join_strs, opt_view, same, starts_with, strs, trim,
    trim_str, views, views_len, views_push,
};

verus! {

// ---------------------------------------------------------------------------
// Characters that are there already
// ---------------------------------------------------------------------------

/// The id of the first character that was imported from a path and has one.
pub open spec fn imported_id(characters: Seq<JsonModel>, path: Seq<char>) -> Option<Seq<char>>
    decreases characters.len(),
{
    if characters.len() == 0 {
        None
    } else {
        match imported_id(characters.drop_last(), path) {
            Some(id) => Some(id),
            None => if characters.last().get_str("sourcePath"@) == Some(path) {
                characters.last().get_str("id"@)
            } else {
                None
            },
        }
    }
}

fn comes_from(character: &Json, path: &str) -> (r: bool)
    ensures
        r == (character@.get_str("sourcePath"@) == Some(path@)),
{
    match character.get_str("sourcePath") {
        Some(s) => same(s, path),
        None => false,
    }
}

/// Finds the character that was imported from a path.
pub fn find_imported_character_id(characters: &Vec<Json>, full_path: &str) -> (r: Option<String>)
    ensures
        opt_view(r) == imported_id(json_views(characters@), full_path@),
{
    let ghost all = json_views(characters@);
    let mut found: Option<String> = None;
    for i in 0..characters.len()
        invariant
            all == json_views(characters@),
            opt_view(found) == imported_id(all.take(i as int), full_path@),
    {
        assert(all.take(i + 1).drop_last() =~= all.take(i as int));
        assert(all.take(i + 1).last() == characters@[i as int]@);
        if found.is_none() && comes_from(&characters[i], full_path) {
            if let Some(id) = characters[i].get_str("id") {
                found = Some(id.to_string());
            }
        }
    }
    assert(all.take(all.len() as int) =~= all);
    found
}

/// The first character with an id.
pub open spec fn character_with_id(characters: Seq<JsonModel>, id: Seq<char>) -> Option<JsonModel>
    decreases characters.len(),
{
    if characters.len() == 0 {
        None
    } else {
        match character_with_id(characters.drop_last(), id) {
            Some(c) => Some(c),
            None => if characters.last().get_str("id"@) == Some(id) {
                Some(characters.last())
            } else {
                None
            },
        }
    }
}

/// Whether a character opens with a scene that says something.
pub open spec fn has_opening(character: JsonModel) -> bool {
    match character.get_array("scenes"@) {
        Some(scenes) => scenes.len() > 0 && match scenes[0].get_str("content"@) {
            Some(s) => trim(s).len() > 0,
            None => false,
        },
        None => false,
    }
}

pub open spec fn has_tags(character: JsonModel) -> bool {
    match character.get_array("tags"@) {
        Some(tags) => tags.len() > 0,
        None => false,
    }
}

/// Whether a character that is there lacks what an import gives it.
pub open spec fn lacks_something(character: JsonModel) -> bool {
    !has_opening(character) || !has_tags(character)
}

fn is_incomplete(character: &Json) -> (r: bool)
    ensures
        r == lacks_something(character@),
{
    let opens = match character.get_array("scenes") {
        Some(scenes) => if scenes.len() > 0 {
            assert(json_views(scenes@)[0] == scenes@[0]@);
            match scenes[0].get_str("content") {
                Some(s) => !is_blank(s),
                None => false,
            }
        } else {
            false
        },
        None => false,
    };
    let tagged = match character.get_array("tags") {
        Some(tags) => tags.len() > 0,
        None => false,
    };
    !opens || !tagged
}

fn find_character<'a>(characters: &'a Vec<Json>, id: &str) -> (r: Option<&'a Json>)
    ensures
        opt_json(r) == character_with_id(json_views(characters@), id@),
{
    let ghost all = json_views(characters@);
    let mut found: Option<&Json> = None;
    for i in 0..characters.len()
        invariant
            all == json_views(characters@),
            opt_json(found) == character_with_id(all.take(i as int), id@),
    {
        assert(all.take(i + 1).drop_last() =~= all.take(i as int));
        assert(all.take(i + 1).last() == characters@[i as int]@);
        let same_id = match characters[i].get_str("id") {
            Some(s) => same(s, id),
            None => false,
        };
        if found.is_none() && same_id {
            found = Some(&characters[i]);
        }
    }
    assert(all.take(all.len() as int) =~= all);
    found
}

/// What an import begins with.
#[derive(Debug)]
pub enum ImportStart {
    /// The character is there and complete.
    Existing(String),
    /// The character is there, and is imported over again under its id.
    Repair(String),
    /// The character is not there.
    Fresh,
}

pub enum ImportStartModel {
    Existing(Seq<char>),
    Repair(Seq<char>),
    Fresh,
}

impl View for ImportStart {
    type V = ImportStartModel;

    open spec fn view(&self) -> ImportStartModel {
        match *self {
            ImportStart::Existing(id) => ImportStartModel::Existing(id@),
            ImportStart::Repair(id) => ImportStartModel::Repair(id@),
            ImportStart::Fresh => ImportStartModel::Fresh,
        }
    }
}

pub open spec fn import_start(characters: Seq<JsonModel>, path: Seq<char>) -> ImportStartModel {
    match imported_id(characters, path) {
        Some(id) => match character_with_id(characters, id) {
            Some(c) => if lacks_something(c) {
                ImportStartModel::Repair(id)
            } else {
                ImportStartModel::Existing(id)
            },
            None => ImportStartModel::Existing(id),
        },
        None => ImportStartModel::Fresh,
    }
}

/// Decides whether a character has to be imported. `characters` is empty where the characters
/// could not be listed.
pub fn start_import(characters: &Vec<Json>, full_path: &str) -> (r: ImportStart)
    ensures
        r@ == import_start(json_views(characters@), full_path@),
{
    match find_imported_character_id(characters, full_path) {
        Some(id) => {
            let incomplete = match find_character(characters, id.as_str()) {
                Some(c) => is_incomplete(c),
                None => false,
            };
            if incomplete {
                ImportStart::Repair(id)
            } else {
                ImportStart::Existing(id)
            }
        },
        None => ImportStart::Fresh,
    }
}

/// What is done about an import: nothing where the character is there, or it is imported under an
/// id.
#[derive(Debug)]
pub enum ImportStep {
    Done(String),
    Import { path: String, character_id: String, is_repair: bool },
}

pub enum ImportStepModel {
    Done(Seq<char>),
    Import { path: Seq<char>, character_id: Seq<char>, is_repair: bool },
}

impl View for ImportStep {
    type V = ImportStepModel;

    open spec fn view(&self) -> ImportStepModel {
        match *self {
            ImportStep::Done(id) => ImportStepModel::Done(id@),
            ImportStep::Import { path, character_id, is_repair } => ImportStepModel::Import {
                path: path@,
                character_id: character_id@,
                is_repair,
            },
        }
    }
}

/// What is done about the character with a path. One that is repaired keeps its id.
pub open spec fn import_step(
    characters: Seq<JsonModel>,
    full_path: Seq<char>,
    fresh_id: Seq<char>,
) -> Result<ImportStepModel, Seq<char>> {
    match clean_path(full_path) {
        Ok(path) => Ok(
            match import_start(characters, path) {
                ImportStartModel::Existing(id) => ImportStepModel::Done(id),
                ImportStartModel::Repair(id) => ImportStepModel::Import {
                    path,
                    character_id: id,
                    is_repair: true,
                },
                ImportStartModel::Fresh => ImportStepModel::Import {
                    path,
                    character_id: fresh_id,
                    is_repair: false,
                },
            },
        ),
        Err(e) => Err(e),
    }
}

pub open spec fn import_step_view(r: Result<ImportStep, String>) -> Result<
    ImportStepModel,
    Seq<char>,
> {
    match r {
        Ok(step) => Ok(step@),
        Err(e) => Err(e@),
    }
}

/// Decides what is done about an import. `fresh_id` is the id for a character that is not there.
pub fn plan_import(characters: &Vec<Json>, full_path: &str, fresh_id: String) -> (r: Result<
    ImportStep,
    String,
>)
    ensures
        import_step_view(r) == import_step(json_views(characters@), full_path@, fresh_id@),
{
    match sanitize_full_path(full_path) {
        Ok(path) => Ok(
            match start_import(characters, path.as_str()) {
                ImportStart::Existing(id) => ImportStep::Done(id),
                ImportStart::Repair(id) => ImportStep::Import {
                    path,
                    character_id: id,
                    is_repair: true,
                },
                ImportStart::Fresh => ImportStep::Import {
                    path,
                    character_id: fresh_id,
                    is_repair: false,
                },
            },
        ),
        Err(e) => Err(e),
    }
}

/// Decides what is done about an import. A character that is not there gets a fresh id.
pub fn begin_import(characters: &Vec<Json>, full_path: &str) -> (r: Result<ImportStep, String>)
    ensures
        exists|fresh_id: Seq<char>| #[trigger]
            is_uuid(fresh_id) && import_step_view(r) == import_step(
                json_views(characters@),
                full_path@,
                fresh_id,
            ),
{
    let fresh_id = new_id();
    let ghost id = fresh_id@;
    let step = plan_import(characters, full_path, fresh_id);
    assert(is_uuid(id));
    step
}

/// The answer to the question whether the character with a path was imported: its id, where the
/// path is one.
pub fn import_status(characters: &Vec<Json>, full_path: &str) -> (r: Result<
    Option<String>,
    String,
>)
    ensures
        match r {
            Ok(id) => clean_path(full_path@) is Ok && opt_view(id) == imported_id(
                json_views(characters@),
                clean_path(full_path@)->Ok_0,
            ),
            Err(e) => clean_path(full_path@) == Err::<Seq<char>, Seq<char>>(e@),
        },
{
    match sanitize_full_path(full_path) {
        Ok(path) => Ok(find_imported_character_id(characters, path.as_str())),
        Err(e) => Err(e),
    }
}

// ---------------------------------------------------------------------------
// What a character consists of
// ---------------------------------------------------------------------------

/// The fields of a character.
#[derive(Debug)]
pub struct CharacterFields {
    pub name: String,
    pub tagline: Option<String>,
    pub description: Option<String>,
    pub personality: Option<String>,
    pub scenario: Option<String>,
    pub first_mes: Option<String>,
    pub mes_example: Option<String>,
    pub creator_notes: Option<String>,
    pub system_prompt: Option<String>,
    pub post_history: Option<String>,
    pub tags: Vec<String>,
    pub alternate_greetings: Vec<String>,
}

#[verifier::ext_equal]
pub struct CharacterModel {
    pub name: Seq<char>,
    pub tagline: Option<Seq<char>>,
    pub description: Option<Seq<char>>,
    pub personality: Option<Seq<char>>,
    pub scenario: Option<Seq<char>>,
    pub first_mes: Option<Seq<char>>,
    pub mes_example: Option<Seq<char>>,
    pub creator_notes: Option<Seq<char>>,
    pub system_prompt: Option<Seq<char>>,
    pub post_history: Option<Seq<char>>,
    pub tags: Seq<Seq<char>>,
    pub alternate_greetings: Seq<Seq<char>>,
}

impl View for CharacterFields {
    type V = CharacterModel;

    open spec fn view(&self) -> CharacterModel {
        CharacterModel {
            name: self.name@,
            tagline: opt_view(self.tagline),
            description: opt_view(self.description),
            personality: opt_view(self.personality),
            scenario: opt_view(self.scenario),
            first_mes: opt_view(self.first_mes),
            mes_example: opt_view(self.mes_example),
            creator_notes: opt_view(self.creator_notes),
            system_prompt: opt_view(self.system_prompt),
            post_history: opt_view(self.post_history),
            tags: views(self.tags@),
            alternate_greetings: views(self.alternate_greetings@),
        }
    }
}

/// The text in one field.
pub open spec fn one_text(v: JsonModel, key: Seq<char>) -> Option<Seq<char>> {
    first_text(v, seq![key])
}

fn one_field(v: &Json, key: &str) -> (r: Option<String>)
    ensures
        opt_view(r) == one_text(v@, key@),
{
    let keys = vec![key];
    assert(strs(keys@) =~= seq![key@]);
    str_field(v, &keys)
}

/// The text in the first of two fields that has one.
pub open spec fn either_text(v: JsonModel, a: Seq<char>, b: Seq<char>) -> Option<Seq<char>> {
    first_text(v, seq![a, b])
}

fn either_field(v: &Json, a: &str, b: &str) -> (r: Option<String>)
    ensures
        opt_view(r) == either_text(v@, a@, b@),
{
    let keys = vec![a, b];
    assert(strs(keys@) =~= seq![a@, b@]);
    str_field(v, &keys)
}

pub open spec fn greeting_of(v: JsonModel) -> Option<Seq<char>> {
    first_text(v, seq!["first_mes"@, "firstMes"@, "greeting"@, "firstMessage"@])
}

fn greeting_field(v: &Json) -> (r: Option<String>)
    ensures
        opt_view(r) == greeting_of(v@),
{
    let keys = vec!["first_mes", "firstMes", "greeting", "firstMessage"];
    assert(strs(keys@) =~= seq!["first_mes"@, "firstMes"@, "greeting"@, "firstMessage"@]);
    str_field(v, &keys)
}

/// The tags of a record, or its topics where it has none.
pub open spec fn tags_or_topics(v: JsonModel) -> Seq<Seq<char>> {
    let tags = texts_of_field(v, "tags"@);
    if tags.len() > 0 {
        tags
    } else {
        texts_of_field(v, "topics"@)
    }
}

fn tags_field(v: &Json) -> (r: Vec<String>)
    ensures
        views(r@) == tags_or_topics(v@),
{
    broadcast use views_len;

    let tags = string_array_field(v, "tags");
    if tags.len() > 0 {
        tags
    } else {
        string_array_field(v, "topics")
    }
}

/// The texts among the items of a list that are not blank.
pub open spec fn said_texts(items: Seq<JsonModel>) -> Seq<Seq<char>>
    decreases items.len(),
{
    if items.len() == 0 {
        Seq::empty()
    } else {
        let before = said_texts(items.drop_last());
        match items.last() {
            JsonModel::Text(s) => if trim(s).len() > 0 {
                before.push(s)
            } else {
                before
            },
            _ => before,
        }
    }
}

pub fn said_items(items: &Vec<Json>) -> (r: Vec<String>)
    ensures
        views(r@) == said_texts(json_views(items@)),
{
    let ghost all = json_views(items@);
    let mut out: Vec<String> = Vec::new();
    assert(views(out@) =~= Seq::empty());
    for i in 0..items.len()
        invariant
            all == json_views(items@),
            views(out@) == said_texts(all.take(i as int)),
    {
        broadcast use views_push;
        broadcast use group_json_views;

        assert(all.take(i + 1).drop_last() =~= all.take(i as int));
        assert(all.take(i + 1).last() == items@[i as int]@);
        if let Some(s) = items[i].as_str() {
            if !is_blank(s) {
                out.push(s.to_string());
            }
        }
    }
    assert(all.take(all.len() as int) =~= all);
    out
}

/// Further greetings of a record.
pub open spec fn further_greetings(v: JsonModel) -> Seq<Seq<char>> {
    let list = match v.get("alternate_greetings"@) {
        Some(x) => Some(x),
        None => v.get("alternateGreetings"@),
    };
    match list {
        Some(JsonModel::Array(items)) => said_texts(items),
        _ => Seq::empty(),
    }
}

fn greetings_field(v: &Json) -> (r: Vec<String>)
    ensures
        views(r@) == further_greetings(v@),
{
    let list = match v.get("alternate_greetings") {
        Some(x) => Some(x),
        None => v.get("alternateGreetings"),
    };
    if let Some(x) = list {
        if let Some(items) = x.as_array() {
            return said_items(items);
        }
    }
    let none: Vec<String> = Vec::new();
    assert(views(none@) =~= Seq::empty());
    none
}

pub const UNNAMED: &'static str = "Unnamed Character";

/// The fields that a record gives.
pub open spec fn fields_of(node: JsonModel) -> CharacterModel {
    CharacterModel {
        name: match one_text(node, "name"@) {
            Some(s) => s,
            None => UNNAMED@,
        },
        tagline: one_text(node, "tagline"@),
        description: one_text(node, "description"@),
        personality: one_text(node, "personality"@),
        scenario: one_text(node, "scenario"@),
        first_mes: greeting_of(node),
        mes_example: first_text(
            node,
            seq!["mes_example"@, "mesExample"@, "example_dialogue"@],
        ),
        creator_notes: either_text(node, "creator_notes"@, "creatorNotes"@),
        system_prompt: either_text(node, "system_prompt"@, "systemPrompt"@),
        post_history: either_text(
            node,
            "post_history_instructions"@,
            "postHistoryInstructions"@,
        ),
        tags: tags_or_topics(node),
        alternate_greetings: further_greetings(node),
    }
}

pub fn fields_of_node(node: &Json) -> (r: CharacterFields)
    ensures
        r@ == fields_of(node@),
{
    let name = match one_field(node, "name") {
        Some(s) => s,
        None => UNNAMED.to_string(),
    };
    let example_keys = vec!["mes_example", "mesExample", "example_dialogue"];
    assert(strs(example_keys@) =~= seq!["mes_example"@, "mesExample"@, "example_dialogue"@]);
    CharacterFields {
        name,
        tagline: one_field(node, "tagline"),
        description: one_field(node, "description"),
        personality: one_field(node, "personality"),
        scenario: one_field(node, "scenario"),
        first_mes: greeting_field(node),
        mes_example: str_field(node, &example_keys),
        creator_notes: either_field(node, "creator_notes", "creatorNotes"),
        system_prompt: either_field(node, "system_prompt", "systemPrompt"),
        post_history: either_field(
            node,
            "post_history_instructions",
            "postHistoryInstructions",
        ),
        tags: tags_field(node),
        alternate_greetings: greetings_field(node),
    }
}

pub open spec fn only_web_link(s: Option<Seq<char>>) -> Option<Seq<char>> {
    match s {
        Some(t) => if is_link(t) {
            Some(t)
        } else {
            None
        },
        None => None,
    }
}

fn keep_web_link(s: Option<String>) -> (r: Option<String>)
    ensures
        opt_view(r) == only_web_link(opt_view(s)),
{
    match s {
        Some(t) => if is_link_text(t.as_str()) {
            Some(t)
        } else {
            None
        },
        None => None,
    }
}

/// Where the card of a character is fetched from, which is done where its greeting or its tags
/// are missing.
pub open spec fn card_to_fetch(node: JsonModel, fields: CharacterModel) -> Option<Seq<char>> {
    if fields.first_mes is None || fields.tags.len() == 0 {
        only_web_link(
            first_text(node, seq!["max_res_url"@, "maxResUrl"@, "max_res_url"@, "charaCardUrl"@]),
        )
    } else {
        None
    }
}

/// Decides whether the card of a character is needed, and where it is.
pub fn card_url(node: &Json, fields: &CharacterFields) -> (r: Option<String>)
    ensures
        opt_view(r) == card_to_fetch(node@, fields@),
{
    broadcast use views_len;

    if fields.first_mes.is_none() || fields.tags.len() == 0 {
        let keys = vec!["max_res_url", "maxResUrl", "max_res_url", "charaCardUrl"];
        assert(strs(keys@) =~= seq![
            "max_res_url"@,
            "maxResUrl"@,
            "max_res_url"@,
            "charaCardUrl"@,
        ]);
        keep_web_link(str_field(node, &keys))
    } else {
        None
    }
}

/// The character in a card: its `data` where it names its `spec`, or all of it.
pub open spec fn data_of(card: JsonModel) -> JsonModel {
    match card.get("data"@) {
        Some(data) => if card.get("spec"@) is Some {
            data
        } else {
            card
        },
        None => card,
    }
}

fn data_of_card<'a>(card: &'a Json) -> (r: &'a Json)
    ensures
        r@ == data_of(card@),
{
    match card.get("data") {
        Some(data) => if card.get("spec").is_some() {
            data
        } else {
            card
        },
        None => card,
    }
}

pub open spec fn or_text(a: Option<Seq<char>>, b: Option<Seq<char>>) -> Option<Seq<char>> {
    match a {
        Some(s) => Some(s),
        None => b,
    }
}

fn or_else_text(a: Option<String>, b: Option<String>) -> (r: Option<String>)
    ensures
        opt_view(r) == or_text(opt_view(a), opt_view(b)),
{
    match a {
        Some(s) => Some(s),
        None => b,
    }
}

/// The fields with what is missing taken from a card.
pub open spec fn filled(fields: CharacterModel, card: JsonModel) -> CharacterModel {
    let data = data_of(card);
    CharacterModel {
        name: if fields.name == UNNAMED@ {
            match one_text(data, "name"@) {
                Some(s) => s,
                None => fields.name,
            }
        } else {
            fields.name
        },
        tagline: or_text(fields.tagline, one_text(data, "tagline"@)),
        description: or_text(fields.description, one_text(data, "description"@)),
        personality: or_text(fields.personality, one_text(data, "personality"@)),
        scenario: or_text(fields.scenario, one_text(data, "scenario"@)),
        first_mes: or_text(fields.first_mes, greeting_of(data)),
        mes_example: or_text(
            fields.mes_example,
            either_text(data, "mes_example"@, "mesExample"@),
        ),
        creator_notes: or_text(
            fields.creator_notes,
            either_text(data, "creator_notes"@, "creatorNotes"@),
        ),
        system_prompt: or_text(
            fields.system_prompt,
            either_text(data, "system_prompt"@, "systemPrompt"@),
        ),
        post_history: or_text(
            fields.post_history,
            either_text(data, "post_history_instructions"@, "postHistoryInstructions"@),
        ),
        tags: if fields.tags.len() > 0 {
            fields.tags
        } else {
            tags_or_topics(data)
        },
        alternate_greetings: if fields.alternate_greetings.len() > 0 {
            fields.alternate_greetings
        } else {
            further_greetings(data)
        },
    }
}

/// Fills in what is missing from the card.
pub fn fill_from_card(fields: CharacterFields, card: &Json) -> (r: CharacterFields)
    ensures
        r@ == filled(fields@, card@),
{
    broadcast use views_len;

    let data = data_of_card(card);
    let name = if same(fields.name.as_str(), UNNAMED) {
        match one_field(data, "name") {
            Some(s) => s,
            None => fields.name,
        }
    } else {
        fields.name
    };
    let tags = if fields.tags.len() > 0 {
        fields.tags
    } else {
        tags_field(data)
    };
    let alternate_greetings = if fields.alternate_greetings.len() > 0 {
        fields.alternate_greetings
    } else {
        greetings_field(data)
    };
    CharacterFields {
        name,
        tagline: or_else_text(fields.tagline, one_field(data, "tagline")),
        description: or_else_text(fields.description, one_field(data, "description")),
        personality: or_else_text(fields.personality, one_field(data, "personality")),
        scenario: or_else_text(fields.scenario, one_field(data, "scenario")),
        first_mes: or_else_text(fields.first_mes, greeting_field(data)),
        mes_example: or_else_text(
            fields.mes_example,
            either_field(data, "mes_example", "mesExample"),
        ),
        creator_notes: or_else_text(
            fields.creator_notes,
            either_field(data, "creator_notes", "creatorNotes"),
        ),
        system_prompt: or_else_text(
            fields.system_prompt,
            either_field(data, "system_prompt", "systemPrompt"),
        ),
        post_history: or_else_text(
            fields.post_history,
            either_field(data, "post_history_instructions", "postHistoryInstructions"),
        ),
        tags,
        alternate_greetings,
    }
}

/// The fields that a record gives, filled in from a card where there is one.
pub open spec fn gathered(node: JsonModel, card: Option<JsonModel>) -> CharacterModel {
    match card {
        Some(c) => filled(fields_of(node), c),
        None => fields_of(node),
    }
}

/// Gathers the fields of a character.
pub fn gather_fields(node: &Json, card: Option<&Json>) -> (r: CharacterFields)
    ensures
        r@ == gathered(node@, opt_json(card)),
{
    let fields = fields_of_node(node);
    match card {
        Some(c) => fill_from_card(fields, c),
        None => fields,
    }
}

pub open spec fn book_of(node: JsonModel, card: Option<JsonModel>) -> Option<JsonModel> {
    match node.get("character_book"@) {
        Some(book) => Some(book),
        None => match card {
            Some(c) => data_of(c).get("character_book"@),
            None => None,
        },
    }
}

/// The book that comes with a character: that of its record, or that of its card.
pub fn book_to_import<'a>(node: &'a Json, card: Option<&'a Json>) -> (r: Option<&'a Json>)
    ensures
        opt_json(r) == book_of(node@, opt_json(card)),
{
    match node.get("character_book") {
        Some(book) => Some(book),
        None => match card {
            Some(c) => data_of_card(c).get("character_book"),
            None => None,
        },
    }
}

// ---------------------------------------------------------------------------
// The picture
// ---------------------------------------------------------------------------

pub open spec fn avatar_of(node: JsonModel) -> Option<Seq<char>> {
    only_web_link(first_text(node, seq!["avatarUrl"@, "avatar_url"@, "avatar"@]))
}

/// Where the picture of a character is fetched from.
pub fn avatar_url(node: &Json) -> (r: Option<String>)
    ensures
        opt_view(r) == avatar_of(node@),
{
    let keys = vec!["avatarUrl", "avatar_url", "avatar"];
    assert(strs(keys@) =~= seq!["avatarUrl"@, "avatar_url"@, "avatar"@]);
    keep_web_link(str_field(node, &keys))
}

/// What the picture of a character is stored under.
pub fn avatar_entity_id(character_id: &str) -> (r: String)
    ensures
        r@ == "character-"@ + character_id@,
{
    let mut id = "character-".to_string();
    id.append(character_id);
    id
}

/// The picture as it is handed to the store, in base 64.
pub fn avatar_upload(bytes: &Vec<u8>) -> (r: String)
    requires
        bytes@.len() / 3 * 4 + 4 <= usize::MAX,
    ensures
        base64_bytes(r@, false, true) == Some(bytes@),
{
    encode_base64(bytes)
}

// ---------------------------------------------------------------------------
// Scenes and the definition
// ---------------------------------------------------------------------------

/// What the scenes of a character say: its greeting, then the further ones.
pub open spec fn openings(fields: CharacterModel) -> Seq<Seq<char>> {
    match fields.first_mes {
        Some(s) => seq![s] + fields.alternate_greetings,
        None => fields.alternate_greetings,
    }
}

pub fn scene_contents(fields: &CharacterFields) -> (r: Vec<String>)
    ensures
        views(r@) == openings(fields@),
{
    let ghost goal = openings(fields@);
    let ghost all = views(fields.alternate_greetings@);
    let mut out: Vec<String> = Vec::new();
    if let Some(s) = &fields.first_mes {
        out.push(s.clone());
    }
    let ghost start = views(out@);
    assert(start + all =~= goal);
    assert(start + all.take(0) =~= start);
    for i in 0..fields.alternate_greetings.len()
        invariant
            all == views(fields.alternate_greetings@),
            views(out@) == start + all.take(i as int),
    {
        broadcast use views_push;

        out.push(fields.alternate_greetings[i].clone());
        assert(start + all.take(i + 1) =~= (start + all.take(i as int)).push(
            fields.alternate_greetings@[i as int]@,
        ));
    }
    assert(all.take(all.len() as int) =~= all);
    out
}

pub open spec fn scene_model(id: Seq<char>, content: Seq<char>, now: i64) -> JsonModel {
    JsonModel::Object(
        seq![
            ("id"@, JsonModel::Text(id)),
            ("content"@, JsonModel::Text(content)),
            ("createdAt"@, int_model(now as int)),
            ("variants"@, JsonModel::Array(Seq::empty())),
        ],
    )
}

/// The scenes that say the given texts, under the given ids.
pub open spec fn scene_models(
    ids: Seq<Seq<char>>,
    contents: Seq<Seq<char>>,
    now: i64,
) -> Seq<JsonModel> {
    Seq::new(contents.len(), |i: int| scene_model(ids[i], contents[i], now))
}

fn empty_list() -> (r: Json)
    ensures
        r@ == JsonModel::Array(Seq::empty()),
{
    broadcast use group_json_views;

    let none: Vec<Json> = Vec::new();
    assert(json_views(none@) =~= Seq::empty());
    Json::Array(none)
}

fn scene(id: &str, content: &str, now: i64) -> (r: Json)
    ensures
        r@ == scene_model(id@, content@, now),
{
    broadcast use group_json_views;

    let mut members: Vec<(String, Json)> = Vec::new();
    push_member(&mut members, "id", text(id));
    push_member(&mut members, "content", text(content));
    push_member(&mut members, "createdAt", signed(now));
    push_member(&mut members, "variants", empty_list());
    assert(member_views(members@) =~= scene_model(id@, content@, now)->Object_0);
    Json::Object(members)
}

fn scenes(ids: &Vec<String>, contents: &Vec<String>, now: i64) -> (r: Vec<Json>)
    requires
        ids@.len() == contents@.len(),
    ensures
        json_views(r@) == scene_models(views(ids@), views(contents@), now),
{
    let ghost goal = scene_models(views(ids@), views(contents@), now);
    let mut out: Vec<Json> = Vec::new();
    assert(json_views(out@) =~= goal.take(0));
    for i in 0..contents.len()
        invariant
            ids@.len() == contents@.len(),
            goal == scene_models(views(ids@), views(contents@), now),
            json_views(out@) == goal.take(i as int),
    {
        broadcast use json_views_push;

        out.push(scene(ids[i].as_str(), contents[i].as_str(), now));
        assert(goal[i as int] == scene_model(ids@[i as int]@, contents@[i as int]@, now));
        assert(goal.take(i + 1) =~= goal.take(i as int).push(goal[i as int]));
    }
    assert(goal.take(goal.len() as int) =~= goal);
    out
}

/// A part of a definition: its heading, where it has one, and what it says, where it says
/// anything.
#[derive(Debug)]
pub struct DefinitionBlock {
    pub label: Option<String>,
    pub content: Option<String>,
}

pub open spec fn block_views(blocks: Seq<DefinitionBlock>) -> Seq<
    (Option<Seq<char>>, Option<Seq<char>>),
> {
    blocks.map_values(|b: DefinitionBlock| (opt_view(b.label), opt_view(b.content)))
}

/// The parts of the definition of a character, in their order.
pub open spec fn definition_of(fields: CharacterModel) -> Seq<
    (Option<Seq<char>>, Option<Seq<char>>),
> {
    seq![
        (None, fields.description),
        (Some("Personality"@), fields.personality),
        (Some("Scenario"@), fields.scenario),
        (Some("System Prompt"@), fields.system_prompt),
        (Some("Post History Instructions"@), fields.post_history),
        (Some("Creator Notes"@), fields.creator_notes),
        (
            None,
            match fields.mes_example {
                Some(s) => Some(
                    "<example_dialogue>\n"@ + trim(s) + "\n</example_dialogue>"@,
                ),
                None => None,
            },
        ),
    ]
}

fn copy_opt(s: &Option<String>) -> (r: Option<String>)
    ensures
        opt_view(r) == opt_view(*s),
{
    match s {
        Some(t) => Some(t.clone()),
        None => None,
    }
}

fn labelled(label: &str, content: &Option<String>) -> (r: DefinitionBlock)
    ensures
        opt_view(r.label) == Some(label@),
        opt_view(r.content) == opt_view(*content),
{
    DefinitionBlock { label: Some(label.to_string()), content: copy_opt(content) }
}

pub fn definition_blocks(fields: &CharacterFields) -> (r: Vec<DefinitionBlock>)
    ensures
        block_views(r@) == definition_of(fields@),
{
    let mut blocks: Vec<DefinitionBlock> = Vec::new();
    blocks.push(DefinitionBlock { label: None, content: copy_opt(&fields.description) });
    blocks.push(labelled("Personality", &fields.personality));
    blocks.push(labelled("Scenario", &fields.scenario));
    blocks.push(labelled("System Prompt", &fields.system_prompt));
    blocks.push(labelled("Post History Instructions", &fields.post_history));
    blocks.push(labelled("Creator Notes", &fields.creator_notes));
    let example = match &fields.mes_example {
        Some(s) => {
            let mut t = "<example_dialogue>\n".to_string();
            t.append(trim_str(s.as_str()));
            t.append("\n</example_dialogue>");
            Some(t)
        },
        None => None,
    };
    blocks.push(DefinitionBlock { label: None, content: example });
    assert(block_views(blocks@) =~= definition_of(fields@));
    blocks
}

pub open spec fn whole_definition(parts: Seq<Seq<char>>) -> Option<Seq<char>> {
    if parts.len() == 0 {
        None
    } else {
        Some(join(parts, "\n\n"@))
    }
}

/// Puts the parts of a definition together.
pub fn join_definition(parts: &Vec<String>) -> (r: Option<String>)
    ensures
        opt_view(r) == whole_definition(views(parts@)),
{
    broadcast use views_len;

    if parts.len() == 0 {
        None
    } else {
        Some(join_strs(parts, "\n\n"))
    }
}

// ---------------------------------------------------------------------------
// The record that is stored
// ---------------------------------------------------------------------------

/// What an import knows of a character besides its fields.
#[derive(Debug)]
pub struct ImportPlan {
    pub character_id: String,
    /// The path, cleaned.
    pub full_path: String,
    pub definition: Option<String>,
    /// Where the picture was stored, if it was.
    pub avatar_path: Option<String>,
    pub dynamic_memory: bool,
}

/// What an import knows of a character besides its fields, with the ids of its scenes and the
/// time.
#[derive(Debug)]
pub struct ImportRecord {
    pub character_id: String,
    /// The path, cleaned.
    pub full_path: String,
    pub definition: Option<String>,
    /// Where the picture was stored, if it was.
    pub avatar_path: Option<String>,
    /// An id for each scene.
    pub scene_ids: Vec<String>,
    pub dynamic_memory: bool,
    /// The time in milliseconds.
    pub now: i64,
}

/// Whether a record is a plan with a fresh id for each of so many scenes, and a time.
pub open spec fn is_stamped(rec: ImportRecord, plan: ImportPlan, scenes: nat) -> bool {
    &&& rec.character_id == plan.character_id
    &&& rec.full_path == plan.full_path
    &&& rec.definition == plan.definition
    &&& rec.avatar_path == plan.avatar_path
    &&& rec.dynamic_memory == plan.dynamic_memory
    &&& rec.scene_ids@.len() == scenes
    &&& are_uuids(rec.scene_ids@)
    &&& rec.now >= 0
}

/// Gives the scenes of a character their ids, and the import its time.
pub fn stamp_import(fields: &CharacterFields, plan: ImportPlan) -> (r: ImportRecord)
    ensures
        is_stamped(r, plan, openings(fields@).len()),
{
    broadcast use views_len;

    let contents = scene_contents(fields);
    ImportRecord {
        character_id: plan.character_id,
        full_path: plan.full_path,
        definition: plan.definition,
        avatar_path: plan.avatar_path,
        scene_ids: new_ids(contents.len()),
        dynamic_memory: plan.dynamic_memory,
        now: now_millis(),
    }
}

pub open spec fn opt_text(s: Option<Seq<char>>) -> JsonModel {
    match s {
        Some(t) => JsonModel::Text(t),
        None => JsonModel::Null,
    }
}

/// The short description of a character: its tagline, or its description.
pub open spec fn blurb(fields: CharacterModel) -> Seq<char> {
    match or_text(fields.tagline, fields.description) {
        Some(s) => s,
        None => Seq::empty(),
    }
}

pub open spec fn memory_type(dynamic_memory: bool) -> Seq<char> {
    if dynamic_memory {
        "dynamic"@
    } else {
        "manual"@
    }
}

/// The record of an imported character.
pub open spec fn character_model(
    fields: CharacterModel,
    project_id: Option<Seq<char>>,
    rec: ImportRecord,
) -> JsonModel {
    let scenes = scene_models(views(rec.scene_ids@), openings(fields), rec.now);
    JsonModel::Object(
        seq![
            ("id"@, JsonModel::Text(rec.character_id@)),
            ("name"@, JsonModel::Text(fields.name)),
            ("description"@, JsonModel::Text(blurb(fields))),
            ("definition"@, opt_text(opt_view(rec.definition))),
            ("avatarPath"@, opt_text(opt_view(rec.avatar_path))),
            ("backgroundImagePath"@, JsonModel::Null),
            ("rules"@, JsonModel::Array(Seq::empty())),
            (
                "defaultSceneId"@,
                if scenes.len() > 0 {
                    JsonModel::Text(rec.scene_ids@[0]@)
                } else {
                    JsonModel::Null
                },
            ),
            ("defaultModelId"@, JsonModel::Null),
            ("memoryType"@, JsonModel::Text(memory_type(rec.dynamic_memory))),
            ("promptTemplateId"@, JsonModel::Null),
            ("voiceConfig"@, JsonModel::Null),
            ("voiceAutoplay"@, JsonModel::Bool(false)),
            ("disableAvatarGradient"@, JsonModel::Bool(rec.avatar_path is None)),
            ("customGradientEnabled"@, JsonModel::Bool(false)),
            ("customGradientColors"@, JsonModel::Null),
            ("customTextColor"@, JsonModel::Null),
            ("customTextSecondary"@, JsonModel::Null),
            ("scenes"@, JsonModel::Array(scenes)),
            ("tags"@, text_array(fields.tags)),
            ("source"@, JsonModel::Text("chub"@)),
            ("sourcePath"@, JsonModel::Text(rec.full_path@)),
            (
                "sourceUrl"@,
                JsonModel::Text("https://chub.ai/characters/"@ + rec.full_path@),
            ),
            ("sourceProjectId"@, opt_text(project_id)),
            ("importedAt"@, int_model(rec.now as int)),
            ("createdAt"@, int_model(rec.now as int)),
            ("updatedAt"@, int_model(rec.now as int)),
        ],
    )
}

fn text_or_null(s: &Option<String>) -> (r: Json)
    ensures
        r@ == opt_text(opt_view(*s)),
{
    match s {
        Some(t) => text(t.as_str()),
        None => Json::Null,
    }
}

/// The members up to the settings of the picture.
fn first_members(fields: &CharacterFields, rec: &ImportRecord, with_scenes: bool) -> (r: Vec<
    (String, Json),
>)
    requires
        with_scenes ==> rec.scene_ids@.len() > 0,
        with_scenes == (openings(fields@).len() > 0),
    ensures
        member_views(r@) == character_model(fields@, None, *rec)->Object_0.take(13),
{
    let blurb_text = match &fields.tagline {
        Some(s) => s.as_str(),
        None => match &fields.description {
            Some(s) => s.as_str(),
            None => "",
        },
    };
    assert(blurb_text@ == blurb(fields@)) by {
        reveal_strlit("");
        assert(""@ =~= Seq::empty());
    }
    let mut members: Vec<(String, Json)> = Vec::new();
    push_member(&mut members, "id", text(rec.character_id.as_str()));
    push_member(&mut members, "name", text(fields.name.as_str()));
    push_member(&mut members, "description", text(blurb_text));
    push_member(&mut members, "definition", text_or_null(&rec.definition));
    push_member(&mut members, "avatarPath", text_or_null(&rec.avatar_path));
    push_member(&mut members, "backgroundImagePath", Json::Null);
    push_member(&mut members, "rules", empty_list());
    let first_scene = if with_scenes {
        text(rec.scene_ids[0].as_str())
    } else {
        Json::Null
    };
    push_member(&mut members, "defaultSceneId", first_scene);
    push_member(&mut members, "defaultModelId", Json::Null);
    let memory = if rec.dynamic_memory {
        "dynamic"
    } else {
        "manual"
    };
    push_member(&mut members, "memoryType", text(memory));
    push_member(&mut members, "promptTemplateId", Json::Null);
    push_member(&mut members, "voiceConfig", Json::Null);
    push_member(&mut members, "voiceAutoplay", Json::Bool(false));
    assert(member_views(members@) =~= character_model(fields@, None, *rec)->Object_0.take(13));
    members
}

/// Makes the record of an imported character.
pub fn character_record(fields: &CharacterFields, node: &Json, rec: &ImportRecord) -> (r: Json)
    requires
        rec.scene_ids@.len() == openings(fields@).len(),
    ensures
        r@ == character_model(fields@, one_text(node@, "id"@), *rec),
{
    broadcast use views_len;
    broadcast use group_json_views;

    let contents = scene_contents(fields);
    let all_scenes = scenes(&rec.scene_ids, &contents, rec.now);
    let mut members = first_members(fields, rec, contents.len() > 0);
    push_member(&mut members, "disableAvatarGradient", Json::Bool(rec.avatar_path.is_none()));
    push_member(&mut members, "customGradientEnabled", Json::Bool(false));
    push_member(&mut members, "customGradientColors", Json::Null);
    push_member(&mut members, "customTextColor", Json::Null);
    push_member(&mut members, "customTextSecondary", Json::Null);
    push_member(&mut members, "scenes", Json::Array(all_scenes));
    push_member(&mut members, "tags", texts(&fields.tags));
    push_member(&mut members, "source", text("chub"));
    push_member(&mut members, "sourcePath", text(rec.full_path.as_str()));
    let mut url = "https://chub.ai/characters/".to_string();
    url.append(rec.full_path.as_str());
    push_member(&mut members, "sourceUrl", Json::Text(url));
    push_member(&mut members, "sourceProjectId", text_or_null(&one_field(node, "id")));
    push_member(&mut members, "importedAt", signed(rec.now));
    push_member(&mut members, "createdAt", signed(rec.now));
    push_member(&mut members, "updatedAt", signed(rec.now));
    assert(member_views(members@) =~= character_model(
        fields@,
        one_text(node@, "id"@),
        *rec,
    )->Object_0);
    Json::Object(members)
}

/// The greeting that goes into the chats of a repaired character that have no message yet.
pub open spec fn backfilled(is_repair: bool, fields: CharacterModel) -> Option<Seq<char>> {
    match fields.first_mes {
        Some(s) => if is_repair && trim(s).len() > 0 {
            Some(s)
        } else {
            None
        },
        None => None,
    }
}

fn greeting_to_backfill(is_repair: bool, fields: &CharacterFields) -> (r: Option<String>)
    ensures
        opt_view(r) == backfilled(is_repair, fields@),
{
    match &fields.first_mes {
        Some(s) => if is_repair && !is_blank(s.as_str()) {
            Some(s.clone())
        } else {
            None
        },
        None => None,
    }
}

/// What an import stores: the character, its book where it has one with entries, and the greeting
/// that goes into its chats that have no message yet.
#[derive(Debug)]
pub struct ImportWork {
    pub character: Json,
    pub lorebook: Option<LorebookPlan>,
    pub greeting: Option<String>,
}

/// Whether this is what is stored of a character with the given record and card.
pub open spec fn is_work_of(
    work: ImportWork,
    node: JsonModel,
    card: Option<JsonModel>,
    rec: ImportRecord,
    is_repair: bool,
) -> bool {
    let fields = gathered(node, card);
    &&& work.character@ == character_model(fields, one_text(node, "id"@), rec)
    &&& match book_of(node, card) {
        Some(book) => is_plan_of(work.lorebook, book, fields.name),
        None => work.lorebook is None,
    }
    &&& opt_view(work.greeting) == backfilled(is_repair, fields)
}

/// Puts together what an import stores, out of the record of a character and its card.
pub fn complete_import(node: &Json, card: Option<&Json>, rec: &ImportRecord, is_repair: bool) -> (r:
    ImportWork)
    requires
        rec.scene_ids@.len() == openings(gathered(node@, opt_json(card))).len(),
    ensures
        is_work_of(r, node@, opt_json(card), *rec, is_repair),
{
    let fields = gather_fields(node, card);
    let lorebook = match book_to_import(node, card) {
        Some(book) => import_character_book(book, fields.name.as_str()),
        None => None,
    };
    ImportWork {
        character: character_record(&fields, node, rec),
        lorebook,
        greeting: greeting_to_backfill(is_repair, &fields),
    }
}

/// Imports a character: gives its scenes their ids and puts together what is stored.
pub fn import_character(node: &Json, card: Option<&Json>, plan: ImportPlan, is_repair: bool) -> (r:
    ImportWork)
    ensures
        exists|rec: ImportRecord| #[trigger]
            is_stamped(rec, plan, openings(gathered(node@, opt_json(card))).len()) && is_work_of(
                r,
                node@,
                opt_json(card),
                rec,
                is_repair,
            ),
{
    let rec = stamp_import(&gather_fields(node, card), plan);
    complete_import(node, card, &rec, is_repair)
}

/// A greeting as the first message of a chat.
#[derive(Debug)]
pub struct GreetingMessage {
    pub id: String,
    pub session_id: String,
    pub content: String,
    pub created_at: i64,
}

/// Makes a greeting the first message of a chat that has none yet.
pub fn greet_session(session_id: &str, message_count: i64, greeting: &str) -> (r: Option<
    GreetingMessage,
>)
    ensures
        match r {
            Some(m) => {
                &&& message_count == 0
                &&& is_uuid(m.id@)
                &&& m.session_id@ == session_id@
                &&& m.content@ == greeting@
                &&& m.created_at >= 0
            },
            None => message_count != 0,
        },
{
    if message_count != 0 {
        return None;
    }
    Some(
        GreetingMessage {
            id: new_id(),
            session_id: session_id.to_string(),
            content: greeting.to_string(),
            created_at: now_millis(),
        },
    )
}

// ---------------------------------------------------------------------------
// Laws
// ---------------------------------------------------------------------------

/// Taking a card never changes a field that the record gave: only what is missing is filled in.
pub proof fn law_card_fills_gaps(fields: CharacterModel, card: JsonModel)
    ensures
        ({
            let after = filled(fields, card);
            &&& fields.name != UNNAMED@ ==> after.name == fields.name
            &&& fields.tagline is Some ==> after.tagline == fields.tagline
            &&& fields.description is Some ==> after.description == fields.description
            &&& fields.personality is Some ==> after.personality == fields.personality
            &&& fields.scenario is Some ==> after.scenario == fields.scenario
            &&& fields.first_mes is Some ==> after.first_mes == fields.first_mes
            &&& fields.mes_example is Some ==> after.mes_example == fields.mes_example
            &&& fields.creator_notes is Some ==> after.creator_notes == fields.creator_notes
            &&& fields.system_prompt is Some ==> after.system_prompt == fields.system_prompt
            &&& fields.post_history is Some ==> after.post_history == fields.post_history
            &&& fields.tags.len() > 0 ==> after.tags == fields.tags
            &&& fields.alternate_greetings.len() > 0 ==> after.alternate_greetings
                == fields.alternate_greetings
        }),
{
}

proof fn lemma_first_members(
    fields: CharacterModel,
    project_id: Option<Seq<char>>,
    rec: ImportRecord,
)
    ensures
        ({
            let c = character_model(fields, project_id, rec);
            let members = c->Object_0;
            &&& c.get("id"@) == Some(members[0].1)
            &&& c.get("name"@) == Some(members[1].1)
            &&& c.get("description"@) == Some(members[2].1)
            &&& c.get("definition"@) == Some(members[3].1)
            &&& c.get("avatarPath"@) == Some(members[4].1)
            &&& c.get("defaultSceneId"@) == Some(members[7].1)
            &&& c.get("memoryType"@) == Some(members[9].1)
            &&& c.get("disableAvatarGradient"@) == Some(members[13].1)
        }),
{
    let members = character_model(fields, project_id, rec)->Object_0;
    reveal_strlit("id");
    reveal_strlit("name");
    reveal_strlit("description");
    reveal_strlit("definition");
    reveal_strlit("avatarPath");
    reveal_strlit("backgroundImagePath");
    reveal_strlit("rules");
    reveal_strlit("defaultSceneId");
    reveal_strlit("defaultModelId");
    reveal_strlit("memoryType");
    reveal_strlit("promptTemplateId");
    reveal_strlit("voiceConfig");
    reveal_strlit("voiceAutoplay");
    reveal_strlit("disableAvatarGradient");
    lemma_first_member(members, 0);
    assert forall|j: int| 0 <= j < 1 implies (#[trigger] members[j]).0 != members[1].0 by {
        assert(members[1].0.len() == 4);
    }
    lemma_first_member(members, 1);
    assert forall|j: int| 0 <= j < 2 implies (#[trigger] members[j]).0 != members[2].0 by {
        assert(members[2].0.len() == 11);
    }
    lemma_first_member(members, 2);
    assert forall|j: int| 0 <= j < 3 implies (#[trigger] members[j]).0 != members[3].0 by {
        assert(members[3].0.len() == 10);
    }
    lemma_first_member(members, 3);
    assert forall|j: int| 0 <= j < 4 implies (#[trigger] members[j]).0 != members[4].0 by {
        assert(members[4].0.len() == 10);
        assert(members[3].0[0] == 'd');
        assert(members[4].0[0] == 'a');
    }
    lemma_first_member(members, 4);
    assert forall|j: int| 0 <= j < 7 implies (#[trigger] members[j]).0 != members[7].0 by {
        assert(members[7].0.len() == 14);
    }
    lemma_first_member(members, 7);
    assert forall|j: int| 0 <= j < 9 implies (#[trigger] members[j]).0 != members[9].0 by {
        assert(members[9].0.len() == 10);
        assert(members[3].0[0] == 'd');
        assert(members[9].0[0] == 'm');
        assert(members[4].0[0] == 'a');
    }
    lemma_first_member(members, 9);
    assert forall|j: int| 0 <= j < 13 implies (#[trigger] members[j]).0 != members[13].0 by {
        assert(members[13].0.len() == 21);
    }
    lemma_first_member(members, 13);
}

proof fn lemma_last_members(
    fields: CharacterModel,
    project_id: Option<Seq<char>>,
    rec: ImportRecord,
)
    ensures
        ({
            let c = character_model(fields, project_id, rec);
            let members = c->Object_0;
            &&& c.get("scenes"@) == Some(members[18].1)
            &&& c.get("tags"@) == Some(members[19].1)
            &&& c.get("source"@) == Some(members[20].1)
            &&& c.get("sourcePath"@) == Some(members[21].1)
            &&& c.get("sourceUrl"@) == Some(members[22].1)
            &&& c.get("sourceProjectId"@) == Some(members[23].1)
            &&& c.get("importedAt"@) == Some(members[24].1)
            &&& c.get("createdAt"@) == Some(members[25].1)
            &&& c.get("updatedAt"@) == Some(members[26].1)
        }),
{
    let members = character_model(fields, project_id, rec)->Object_0;
    reveal_strlit("id");
    reveal_strlit("name");
    reveal_strlit("description");
    reveal_strlit("definition");
    reveal_strlit("avatarPath");
    reveal_strlit("backgroundImagePath");
    reveal_strlit("rules");
    reveal_strlit("defaultSceneId");
    reveal_strlit("defaultModelId");
    reveal_strlit("memoryType");
    reveal_strlit("promptTemplateId");
    reveal_strlit("voiceConfig");
    reveal_strlit("voiceAutoplay");
    reveal_strlit("disableAvatarGradient");
    reveal_strlit("customGradientEnabled");
    reveal_strlit("customGradientColors");
    reveal_strlit("customTextColor");
    reveal_strlit("customTextSecondary");
    reveal_strlit("scenes");
    reveal_strlit("tags");
    reveal_strlit("source");
    reveal_strlit("sourcePath");
    reveal_strlit("sourceUrl");
    reveal_strlit("sourceProjectId");
    reveal_strlit("importedAt");
    reveal_strlit("createdAt");
    reveal_strlit("updatedAt");
    assert forall|j: int| 0 <= j < 18 implies (#[trigger] members[j]).0 != members[18].0 by {
        assert(members[18].0.len() == 6);
    }
    lemma_first_member(members, 18);
    assert forall|j: int| 0 <= j < 19 implies (#[trigger] members[j]).0 != members[19].0 by {
        assert(members[19].0.len() == 4);
        assert(members[1].0[0] == 'n');
        assert(members[19].0[0] == 't');
    }
    lemma_first_member(members, 19);
    assert forall|j: int| 0 <= j < 20 implies (#[trigger] members[j]).0 != members[20].0 by {
        assert(members[20].0.len() == 6);
        assert(members[18].0[1] == 'c');
        assert(members[20].0[1] == 'o');
    }
    lemma_first_member(members, 20);
    assert forall|j: int| 0 <= j < 21 implies (#[trigger] members[j]).0 != members[21].0 by {
        assert(members[21].0.len() == 10);
        assert(members[3].0[0] == 'd');
        assert(members[21].0[0] == 's');
        assert(members[4].0[0] == 'a');
        assert(members[9].0[0] == 'm');
    }
    lemma_first_member(members, 21);
    assert forall|j: int| 0 <= j < 22 implies (#[trigger] members[j]).0 != members[22].0 by {
        assert(members[22].0.len() == 9);
    }
    lemma_first_member(members, 22);
    assert forall|j: int| 0 <= j < 23 implies (#[trigger] members[j]).0 != members[23].0 by {
        assert(members[23].0.len() == 15);
        assert(members[16].0[0] == 'c');
        assert(members[23].0[0] == 's');
    }
    lemma_first_member(members, 23);
    assert forall|j: int| 0 <= j < 24 implies (#[trigger] members[j]).0 != members[24].0 by {
        assert(members[24].0.len() == 10);
        assert(members[3].0[0] == 'd');
        assert(members[24].0[0] == 'i');
        assert(members[4].0[0] == 'a');
        assert(members[9].0[0] == 'm');
        assert(members[21].0[0] == 's');
    }
    lemma_first_member(members, 24);
    assert forall|j: int| 0 <= j < 25 implies (#[trigger] members[j]).0 != members[25].0 by {
        assert(members[25].0.len() == 9);
        assert(members[22].0[0] == 's');
        assert(members[25].0[0] == 'c');
    }
    lemma_first_member(members, 25);
    assert forall|j: int| 0 <= j < 26 implies (#[trigger] members[j]).0 != members[26].0 by {
        assert(members[26].0.len() == 9);
        assert(members[22].0[0] == 's');
        assert(members[26].0[0] == 'u');
        assert(members[25].0[0] == 'c');
    }
    lemma_first_member(members, 26);
}

proof fn lemma_record_members(
    fields: CharacterModel,
    project_id: Option<Seq<char>>,
    rec: ImportRecord,
)
    ensures
        ({
            let c = character_model(fields, project_id, rec);
            &&& c.get("id"@) == Some(JsonModel::Text(rec.character_id@))
            &&& c.get("scenes"@) == Some(
                JsonModel::Array(scene_models(views(rec.scene_ids@), openings(fields), rec.now)),
            )
            &&& c.get("tags"@) == Some(text_array(fields.tags))
            &&& c.get("sourcePath"@) == Some(JsonModel::Text(rec.full_path@))
        }),
{
    lemma_first_members(fields, project_id, rec);
    lemma_last_members(fields, project_id, rec);
}

/// A character that was stored is found again by its path: under its id, unless another one of
/// that path stands before it.
pub proof fn law_import_is_found(
    characters: Seq<JsonModel>,
    fields: CharacterModel,
    project_id: Option<Seq<char>>,
    rec: ImportRecord,
)
    ensures
        imported_id(
            characters.push(character_model(fields, project_id, rec)),
            rec.full_path@,
        ) == or_text(imported_id(characters, rec.full_path@), Some(rec.character_id@)),
{
    lemma_record_members(fields, project_id, rec);
    let after = characters.push(character_model(fields, project_id, rec));
    assert(after.drop_last() =~= characters);
}

/// An import that found a greeting and tags leaves nothing to repair, and one that did not does.
pub proof fn law_complete_import(
    fields: CharacterModel,
    project_id: Option<Seq<char>>,
    rec: ImportRecord,
)
    ensures
        lacks_something(character_model(fields, project_id, rec)) <==> (openings(fields).len() == 0
            || trim(openings(fields)[0]).len() == 0 || fields.tags.len() == 0),
{
    lemma_record_members(fields, project_id, rec);
    let contents = openings(fields);
    if contents.len() > 0 {
        let one = scene_model(views(rec.scene_ids@)[0], contents[0], rec.now);
        let members = one->Object_0;
        assert(scene_models(views(rec.scene_ids@), contents, rec.now)[0] == one);
        assert(members[0].0 != members[1].0) by {
            reveal_strlit("id");
            reveal_strlit("content");
            assert(members[0].0.len() == 2);
            assert(members[1].0.len() == 7);
        }
        lemma_first_member(members, 1);
    }
}

/// An import that found a greeting and tags is not made again; one that did not is repaired under
/// the same id.
pub proof fn law_second_import(
    characters: Seq<JsonModel>,
    full_path: Seq<char>,
    fields: CharacterModel,
    project_id: Option<Seq<char>>,
    rec: ImportRecord,
    other_id: Seq<char>,
)
    requires
        clean_path(full_path) == Ok::<Seq<char>, Seq<char>>(rec.full_path@),
        imported_id(characters, rec.full_path@) is None,
        character_with_id(characters, rec.character_id@) is None,
    ensures
        ({
            let stored = character_model(fields, project_id, rec);
            import_step(characters.push(stored), full_path, other_id) == Ok::<
                ImportStepModel,
                Seq<char>,
            >(
                if lacks_something(stored) {
                    ImportStepModel::Import {
                        path: rec.full_path@,
                        character_id: rec.character_id@,
                        is_repair: true,
                    }
                } else {
                    ImportStepModel::Done(rec.character_id@)
                },
            )
        }),
{
    let stored = character_model(fields, project_id, rec);
    law_import_is_found(characters, fields, project_id, rec);
    lemma_record_members(fields, project_id, rec);
    assert(characters.push(stored).drop_last() =~= characters);
}

proof fn lemma_scene_members(id: Seq<char>, content: Seq<char>, now: i64)
    ensures
        ({
            let scene = scene_model(id, content, now);
            &&& scene.get_str("id"@) == Some(id)
            &&& scene.get_str("content"@) == Some(content)
            &&& scene.get("createdAt"@) == Some(int_model(now as int))
            &&& scene.get_array("variants"@) == Some(Seq::<JsonModel>::empty())
        }),
{
    let members = scene_model(id, content, now)->Object_0;
    reveal_strlit("id");
    reveal_strlit("content");
    reveal_strlit("createdAt");
    reveal_strlit("variants");
    lemma_first_member(members, 0);
    assert forall|j: int| 0 <= j < 1 implies (#[trigger] members[j]).0 != members[1].0 by {
        assert(members[1].0.len() == 7);
    }
    lemma_first_member(members, 1);
    assert forall|j: int| 0 <= j < 2 implies (#[trigger] members[j]).0 != members[2].0 by {
        assert(members[2].0.len() == 9);
    }
    lemma_first_member(members, 2);
    assert forall|j: int| 0 <= j < 3 implies (#[trigger] members[j]).0 != members[3].0 by {
        assert(members[3].0.len() == 8);
    }
    lemma_first_member(members, 3);
}

/// What is stored of a character is what was gathered of it and what the import knows of it: its
/// name, its tagline or else its description, its definition and its picture where it has them, its
/// tags, and a scene for each of its greetings, the first of which it opens with. It is marked with
/// where it comes from and when it came.
pub proof fn law_stored_character(
    node: JsonModel,
    card: Option<JsonModel>,
    plan: ImportPlan,
    rec: ImportRecord,
    is_repair: bool,
    work: ImportWork,
)
    requires
        is_stamped(rec, plan, openings(gathered(node, card)).len()),
        is_work_of(work, node, card, rec, is_repair),
    ensures
        ({
            let c = work.character@;
            let f = gathered(node, card);
            &&& c.get_str("id"@) == Some(plan.character_id@)
            &&& c.get_str("name"@) == Some(f.name)
            &&& match (f.tagline, f.description) {
                (Some(s), _) => c.get_str("description"@) == Some(s),
                (None, Some(s)) => c.get_str("description"@) == Some(s),
                (None, None) => c.get_str("description"@) matches Some(s) && s.len() == 0,
            }
            &&& match plan.definition {
                Some(s) => c.get_str("definition"@) == Some(s@),
                None => c.get("definition"@) == Some(JsonModel::Null),
            }
            &&& match plan.avatar_path {
                Some(s) => c.get_str("avatarPath"@) == Some(s@),
                None => c.get("avatarPath"@) == Some(JsonModel::Null),
            }
            &&& c.get_bool("disableAvatarGradient"@) == Some(plan.avatar_path is None)
            &&& c.get_str("memoryType"@) == Some(
                if plan.dynamic_memory {
                    "dynamic"@
                } else {
                    "manual"@
                },
            )
            &&& c.get_str("source"@) == Some("chub"@)
            &&& c.get_str("sourcePath"@) == Some(plan.full_path@)
            &&& c.get_str("sourceUrl"@) == Some("https://chub.ai/characters/"@ + plan.full_path@)
            &&& c.get("importedAt"@) == Some(int_model(rec.now as int))
            &&& c.get("createdAt"@) == c.get("importedAt"@)
            &&& c.get("updatedAt"@) == c.get("importedAt"@)
        }),
{
    let f = gathered(node, card);
    lemma_first_members(f, one_text(node, "id"@), rec);
    lemma_last_members(f, one_text(node, "id"@), rec);
}

/// The tags of a stored character are those that were gathered, and it has a scene for its greeting,
/// then one for each further greeting, each under an id of its own; the first scene is the one that
/// it opens with.
pub proof fn law_stored_scenes(
    node: JsonModel,
    card: Option<JsonModel>,
    plan: ImportPlan,
    rec: ImportRecord,
    is_repair: bool,
    work: ImportWork,
)
    requires
        is_stamped(rec, plan, openings(gathered(node, card)).len()),
        is_work_of(work, node, card, rec, is_repair),
    ensures
        ({
            let c = work.character@;
            let f = gathered(node, card);
            let shift: int = if f.first_mes is Some {
                1
            } else {
                0
            };
            &&& c.get_array("tags"@) matches Some(tags) && tags.len() == f.tags.len() && forall|i: int|
                0 <= i < tags.len() ==> #[trigger] tags[i] == JsonModel::Text(f.tags[i])
            &&& c.get_array("scenes"@) matches Some(scenes) && {
                &&& scenes.len() == f.alternate_greetings.len() + shift
                &&& f.first_mes matches Some(s) ==> scenes[0].get_str("content"@) == Some(s)
                &&& forall|i: int|
                    shift <= i < scenes.len() ==> (#[trigger] scenes[i]).get_str("content"@)
                        == Some(f.alternate_greetings[i - shift])
                &&& forall|i: int|
                    0 <= i < scenes.len() ==> (#[trigger] scenes[i]).get_str("id"@) == Some(
                        rec.scene_ids@[i]@,
                    ) && scenes[i].get("createdAt"@) == Some(int_model(rec.now as int))
                &&& scenes.len() > 0 ==> c.get("defaultSceneId"@) == scenes[0].get("id"@)
                &&& scenes.len() == 0 ==> c.get("defaultSceneId"@) == Some(JsonModel::Null)
            }
        }),
{
    let f = gathered(node, card);
    let project = one_text(node, "id"@);
    lemma_first_members(f, project, rec);
    lemma_last_members(f, project, rec);
    let all = scene_models(views(rec.scene_ids@), openings(f), rec.now);
    assert forall|i: int| 0 <= i < all.len() implies (#[trigger] all[i]).get_str("content"@)
        == Some(openings(f)[i]) && all[i].get_str("id"@) == Some(rec.scene_ids@[i]@)
        && all[i].get("createdAt"@) == Some(int_model(rec.now as int)) by {
        lemma_scene_members(views(rec.scene_ids@)[i], openings(f)[i], rec.now);
    }
    assert(text_array(f.tags)->Array_0.len() == f.tags.len());
}

/// A repair puts the greeting of the character into its empty chats where it says anything; an
/// import that is none puts nothing there. A book is stored where the record or else the card has
/// one that lists entries.
pub proof fn law_stored_with_a_character(
    node: JsonModel,
    card: Option<JsonModel>,
    rec: ImportRecord,
    is_repair: bool,
    work: ImportWork,
)
    requires
        is_work_of(work, node, card, rec, is_repair),
    ensures
        ({
            let f = gathered(node, card);
            &&& !is_repair ==> work.greeting is None
            &&& match f.first_mes {
                Some(s) => is_repair && trim(s).len() > 0 ==> opt_view(work.greeting) == Some(s),
                None => true,
            }
            &&& f.first_mes is None ==> work.greeting is None
            &&& node.get("character_book"@) is None && card is None ==> work.lorebook is None
            &&& node.get("character_book"@) matches Some(book) ==> (work.lorebook is Some
                <==> (book.get_array("entries"@) matches Some(items) && items.len() > 0))
        }),
{
}

/// What the record of a character says counts, whatever its card says: a text that is not blank is
/// taken as it stands.
pub proof fn law_record_counts(node: JsonModel, card: Option<JsonModel>)
    ensures
        node.get_str("name"@) matches Some(s) ==> trim(s).len() > 0 && s != "Unnamed Character"@
            ==> gathered(node, card).name == s,
        node.get_str("tagline"@) matches Some(s) ==> trim(s).len() > 0 ==> gathered(node, card).tagline == Some(s),
        node.get_str("description"@) matches Some(s) ==> trim(s).len() > 0 ==> gathered(node, card).description == Some(s),
        node.get_str("personality"@) matches Some(s) ==> trim(s).len() > 0 ==> gathered(node, card).personality == Some(s),
        node.get_str("scenario"@) matches Some(s) ==> trim(s).len() > 0 ==> gathered(node, card).scenario == Some(s),
        node.get_str("first_mes"@) matches Some(s) ==> trim(s).len() > 0 ==> gathered(node, card).first_mes == Some(s),
        node.get_str("mes_example"@) matches Some(s) ==> trim(s).len() > 0 ==> gathered(node, card).mes_example == Some(s),
        node.get_str("creator_notes"@) matches Some(s) ==> trim(s).len() > 0 ==> gathered(node, card).creator_notes == Some(s),
        node.get_str("system_prompt"@) matches Some(s) ==> trim(s).len() > 0 ==> gathered(node, card).system_prompt == Some(s),
        node.get_str("post_history_instructions"@) matches Some(s) ==> trim(s).len() > 0 ==> gathered(node, card).post_history == Some(s),
{
    law_first_text(node, seq!["name"@], 0);
    law_first_text(node, seq!["tagline"@], 0);
    law_first_text(node, seq!["description"@], 0);
    law_first_text(node, seq!["personality"@], 0);
    law_first_text(node, seq!["scenario"@], 0);
    law_first_text(node, seq!["first_mes"@, "firstMes"@, "greeting"@, "firstMessage"@], 0);
    law_first_text(node, seq!["mes_example"@, "mesExample"@, "example_dialogue"@], 0);
    law_first_text(node, seq!["creator_notes"@, "creatorNotes"@], 0);
    law_first_text(node, seq!["system_prompt"@, "systemPrompt"@], 0);
    law_first_text(node, seq!["post_history_instructions"@, "postHistoryInstructions"@], 0);
}

proof fn lemma_no_text(v: JsonModel, keys: Seq<Seq<char>>)
    ensures
        (forall|i: int| 0 <= i < keys.len() ==> v.get(#[trigger] keys[i]) is None) ==> first_text(
            v,
            keys,
        ) is None,
    decreases keys.len(),
{
    if keys.len() > 0 {
        let rest = keys.drop_first();
        lemma_no_text(v, rest);
        if forall|i: int| 0 <= i < keys.len() ==> v.get(#[trigger] keys[i]) is None {
            assert(v.get(keys[0]) is None);
            assert forall|i: int| 0 <= i < rest.len() implies v.get(#[trigger] rest[i]) is None by {
                assert(v.get(keys[i + 1]) is None);
            }
        }
    }
}

/// What the record of a character does not say is taken from its card: from the `data` of a card that
/// names its `spec`, or else from the card itself.
pub proof fn law_card_says_the_rest(node: JsonModel, card: JsonModel, data: JsonModel)
    requires
        match card.get("data"@) {
            Some(d) => if card.get("spec"@) is Some {
                data == d
            } else {
                data == card
            },
            None => data == card,
        },
    ensures
        data.get_str("name"@) matches Some(s) ==> trim(s).len() > 0 && node.get("name"@) is None
            ==> gathered(node, Some(card)).name == s,
        data.get_str("tagline"@) matches Some(s) ==> trim(s).len() > 0 && node.get("tagline"@) is None ==> gathered(node, Some(card)).tagline == Some(s),
        data.get_str("description"@) matches Some(s) ==> trim(s).len() > 0 && node.get("description"@) is None ==> gathered(node, Some(card)).description == Some(s),
        data.get_str("personality"@) matches Some(s) ==> trim(s).len() > 0 && node.get("personality"@) is None ==> gathered(node, Some(card)).personality == Some(s),
        data.get_str("scenario"@) matches Some(s) ==> trim(s).len() > 0 && node.get("scenario"@) is None ==> gathered(node, Some(card)).scenario == Some(s),
        data.get_str("first_mes"@) matches Some(s) ==> trim(s).len() > 0 && node.get("first_mes"@) is None && node.get("firstMes"@) is None && node.get("greeting"@) is None && node.get("firstMessage"@) is None ==> gathered(node, Some(card)).first_mes == Some(s),
        data.get_str("mes_example"@) matches Some(s) ==> trim(s).len() > 0 && node.get("mes_example"@) is None && node.get("mesExample"@) is None && node.get("example_dialogue"@) is None ==> gathered(node, Some(card)).mes_example == Some(s),
        data.get_str("creator_notes"@) matches Some(s) ==> trim(s).len() > 0 && node.get("creator_notes"@) is None && node.get("creatorNotes"@) is None ==> gathered(node, Some(card)).creator_notes == Some(s),
        data.get_str("system_prompt"@) matches Some(s) ==> trim(s).len() > 0 && node.get("system_prompt"@) is None && node.get("systemPrompt"@) is None ==> gathered(node, Some(card)).system_prompt == Some(s),
        data.get_str("post_history_instructions"@) matches Some(s) ==> trim(s).len() > 0 && node.get("post_history_instructions"@) is None && node.get("postHistoryInstructions"@) is None ==> gathered(node, Some(card)).post_history == Some(s),
        node.get("tags"@) is None && node.get("topics"@) is None ==> gathered(node, Some(card)).tags
            == gathered(data, None).tags,
{
    lemma_no_text(node, seq!["name"@]);
    law_first_text(data, seq!["name"@], 0);
    lemma_no_text(node, seq!["tagline"@]);
    law_first_text(data, seq!["tagline"@], 0);
    lemma_no_text(node, seq!["description"@]);
    law_first_text(data, seq!["description"@], 0);
    lemma_no_text(node, seq!["personality"@]);
    law_first_text(data, seq!["personality"@], 0);
    lemma_no_text(node, seq!["scenario"@]);
    law_first_text(data, seq!["scenario"@], 0);
    lemma_no_text(node, seq!["first_mes"@, "firstMes"@, "greeting"@, "firstMessage"@]);
    law_first_text(data, seq!["first_mes"@, "firstMes"@, "greeting"@, "firstMessage"@], 0);
    lemma_no_text(node, seq!["mes_example"@, "mesExample"@, "example_dialogue"@]);
    law_first_text(data, seq!["mes_example"@, "mesExample"@], 0);
    lemma_no_text(node, seq!["creator_notes"@, "creatorNotes"@]);
    law_first_text(data, seq!["creator_notes"@, "creatorNotes"@], 0);
    lemma_no_text(node, seq!["system_prompt"@, "systemPrompt"@]);
    law_first_text(data, seq!["system_prompt"@, "systemPrompt"@], 0);
    lemma_no_text(node, seq!["post_history_instructions"@, "postHistoryInstructions"@]);
    law_first_text(data, seq!["post_history_instructions"@, "postHistoryInstructions"@], 0);
}

/// A character that neither record nor card names is unnamed, and what neither says is missing.
pub proof fn law_nothing_is_made_up(node: JsonModel)
    requires
        node == JsonModel::Object(Seq::empty()),
    ensures
        gathered(node, None).name == "Unnamed Character"@,
        gathered(node, None).tagline is None,
        gathered(node, None).description is None,
        gathered(node, None).personality is None,
        gathered(node, None).scenario is None,
        gathered(node, None).first_mes is None,
        gathered(node, None).mes_example is None,
        gathered(node, None).creator_notes is None,
        gathered(node, None).system_prompt is None,
        gathered(node, None).post_history is None,
        gathered(node, None).tags.len() == 0,
        gathered(node, None).alternate_greetings.len() == 0,
{
    reveal_with_fuel(first_text, 5);
}

/// The tags of a character are the texts of the list `tags` of its record, or of `topics` where that
/// list says nothing; its further greetings are the texts that are not blank.
pub proof fn law_tags_and_greetings(node: JsonModel, card: Option<JsonModel>)
    ensures
        node.get_array("tags"@) matches Some(items) ==> texts_of_items(items).len() > 0 ==> gathered(
            node,
            card,
        ).tags == texts_of_items(items),
        node.get("tags"@) is None ==> (node.get_array("topics"@) matches Some(items)
            ==> texts_of_items(items).len() > 0 ==> gathered(node, card).tags == texts_of_items(
            items,
        )),
        node.get_array("alternate_greetings"@) matches Some(items) ==> said_texts(items).len() > 0
            ==> gathered(node, card).alternate_greetings == said_texts(items),
{
}

/// A list of greetings is read item by item: a text that is not blank counts as it stands and nothing
/// else does.
pub proof fn law_said_texts(a: Seq<JsonModel>, b: Seq<JsonModel>, item: JsonModel)
    ensures
        said_texts(Seq::empty()).len() == 0,
        said_texts(a + b) == said_texts(a) + said_texts(b),
        said_texts(seq![item]) == (match item {
            JsonModel::Text(s) => if trim(s).len() > 0 {
                seq![s]
            } else {
                Seq::empty()
            },
            _ => Seq::empty(),
        }),
    decreases b.len(),
{
    reveal_with_fuel(said_texts, 2);
    assert(seq![item].drop_last() =~= Seq::empty());
    if b.len() == 0 {
        assert(a + b =~= a);
        assert(said_texts(a) + said_texts(b) =~= said_texts(a));
    } else {
        law_said_texts(a, b.drop_last(), item);
        assert((a + b).drop_last() =~= a + b.drop_last());
        assert((a + b).last() == b.last());
        assert(said_texts(a + b) =~= said_texts(a) + said_texts(b));
    }
    assert(said_texts(seq![item]) =~= match item {
        JsonModel::Text(s) => if trim(s).len() > 0 {
            seq![s]
        } else {
            Seq::empty()
        },
        _ => Seq::empty(),
    });
}

/// The parts of a definition are what the character says of itself, each under its heading: first the
/// description, which has none, last the example of a dialogue between its marks. Parts that are put
/// together are separated by an empty line, and no parts make no definition.
pub proof fn law_definition(fields: CharacterModel, parts: Seq<Seq<char>>)
    ensures
        ({
            let blocks = definition_of(fields);
            &&& blocks.len() == 7
            &&& blocks[0] == (None::<Seq<char>>, fields.description)
            &&& blocks[1] == (Some("Personality"@), fields.personality)
            &&& blocks[2] == (Some("Scenario"@), fields.scenario)
            &&& blocks[3] == (Some("System Prompt"@), fields.system_prompt)
            &&& blocks[4] == (Some("Post History Instructions"@), fields.post_history)
            &&& blocks[5] == (Some("Creator Notes"@), fields.creator_notes)
            &&& blocks[6].0 is None
            &&& fields.mes_example is None ==> blocks[6].1 is None
            &&& fields.mes_example matches Some(s) ==> blocks[6].1 == Some(
                "<example_dialogue>\n"@ + trim(s) + "\n</example_dialogue>"@,
            )
        }),
        parts.len() == 0 ==> whole_definition(parts) is None,
        parts.len() == 1 ==> whole_definition(parts) == Some(parts[0]),
        parts.len() > 1 ==> (whole_definition(parts.drop_last()) matches Some(d)
            && whole_definition(parts) == Some(d + "\n\n"@ + parts.last())),
{
}

/// The card of a character is fetched only where its greeting or its tags are missing, and only from
/// a link; its picture only from a link.
pub proof fn law_links_to_fetch(node: JsonModel, fields: CharacterModel)
    ensures
        fields.first_mes is Some && fields.tags.len() > 0 ==> card_to_fetch(node, fields) is None,
        card_to_fetch(node, fields) matches Some(s) ==> starts_with(s, "http://"@) || starts_with(
            s,
            "https://"@,
        ),
        node.get_str("max_res_url"@) matches Some(s) ==> trim(s).len() > 0 && is_link(s) && (
        fields.first_mes is None || fields.tags.len() == 0) ==> card_to_fetch(node, fields) == Some(s),
        avatar_of(node) matches Some(s) ==> starts_with(s, "http://"@) || starts_with(s, "https://"@),
        node.get_str("avatarUrl"@) matches Some(s) ==> trim(s).len() > 0 && is_link(s) ==> avatar_of(
            node,
        ) == Some(s),
{
    law_first_text(
        node,
        seq!["max_res_url"@, "maxResUrl"@, "max_res_url"@, "charaCardUrl"@],
        0,
    );
    law_first_text(node, seq!["avatarUrl"@, "avatar_url"@, "avatar"@], 0);
}

/// The book of a character is that of its record, or else that of its card.
pub proof fn law_book_of_a_character(node: JsonModel, card: Option<JsonModel>)
    ensures
        node.get("character_book"@) is Some ==> book_of(node, card) == node.get("character_book"@),
        node.get("character_book"@) is None && card is None ==> book_of(node, card) is None,
        node.get("character_book"@) is None ==> (card matches Some(c) ==> (c.get("data"@) matches Some(d)
            ==> c.get("spec"@) is Some ==> book_of(node, card) == d.get("character_book"@))),
{
}

/// A character is found by the path it was imported from: the first of that path with an id, and no
/// other one.
pub proof fn law_imported_id(characters: Seq<JsonModel>, path: Seq<char>, i: int)
    requires
        0 <= i < characters.len(),
        characters[i].get_str("sourcePath"@) == Some(path),
        characters[i].get_str("id"@) is Some,
        forall|j: int|
            0 <= j < i ==> (#[trigger] characters[j]).get_str("sourcePath"@) != Some(path)
                || characters[j].get_str("id"@) is None,
    ensures
        imported_id(characters, path) == characters[i].get_str("id"@),
    decreases characters.len(),
{
    let front = characters.drop_last();
    if i < front.len() {
        assert(front[i] == characters[i]);
        law_imported_id(front, path, i);
    } else {
        lemma_not_imported(front, path);
    }
}

proof fn lemma_not_imported(characters: Seq<JsonModel>, path: Seq<char>)
    requires
        forall|j: int|
            0 <= j < characters.len() ==> (#[trigger] characters[j]).get_str("sourcePath"@) != Some(
                path,
            ) || characters[j].get_str("id"@) is None,
    ensures
        imported_id(characters, path) is None,
    decreases characters.len(),
{
    if characters.len() > 0 {
        let front = characters.drop_last();
        assert forall|j: int| 0 <= j < front.len() implies (#[trigger] front[j]).get_str(
            "sourcePath"@,
        ) != Some(path) || front[j].get_str("id"@) is None by {
            assert(front[j] == characters[j]);
        }
        lemma_not_imported(front, path);
        assert(characters[characters.len() - 1].get_str("sourcePath"@) != Some(path)
            || characters[characters.len() - 1].get_str("id"@) is None);
    }
}

/// A path that no character with an id comes from is imported under the fresh id.
pub proof fn law_first_import(characters: Seq<JsonModel>, full_path: Seq<char>, fresh_id: Seq<char>)
    requires
        clean_path(full_path) matches Ok(path) && forall|j: int|
            0 <= j < characters.len() ==> (#[trigger] characters[j]).get_str("sourcePath"@) != Some(
                path,
            ) || characters[j].get_str("id"@) is None,
    ensures
        import_step(characters, full_path, fresh_id) == Ok::<ImportStepModel, Seq<char>>(
            ImportStepModel::Import {
                path: clean_path(full_path)->Ok_0,
                character_id: fresh_id,
                is_repair: false,
            },
        ),
{
    lemma_not_imported(characters, clean_path(full_path)->Ok_0);
}

/// A character that is there is complete where its first scene says something and it has a tag.
pub proof fn law_what_is_complete(character: JsonModel)
    ensures
        ({
            let opens = match character.get_array("scenes"@) {
                Some(scenes) if scenes.len() > 0 => match scenes[0].get_str("content"@) {
                    Some(s) => trim(s).len() > 0,
                    None => false,
                },
                _ => false,
            };
            let tagged = match character.get_array("tags"@) {
                Some(tags) => tags.len() > 0,
                None => false,
            };
            lacks_something(character) <==> !(opens && tagged)
        }),
{
}

/// Only a repaired character has its greeting put into the chats that have no message yet, and only
/// a greeting that says something.
pub proof fn law_greeting_of_a_repair(fields: CharacterModel, s: Seq<char>)
    ensures
        backfilled(false, fields) is None,
        fields.first_mes == Some(s) && trim(s).len() > 0 ==> backfilled(true, fields) == Some(s),
        fields.first_mes == Some(s) && trim(s).len() == 0 ==> backfilled(true, fields) is None,
        fields.first_mes is None ==> backfilled(true, fields) is None,
{
}

/// A record may go by the other spellings of its fields: what it says under one of them counts as
/// if it were said under the usual one, where that is missing.
pub proof fn law_other_spellings(
    node: JsonModel,
    card: Option<JsonModel>,
    fields: CharacterModel,
    s: Seq<char>,
)
    requires
        trim(s).len() > 0,
    ensures
        node.get("first_mes"@) is None && node.get_str("firstMes"@) == Some(s) ==> gathered(node, card).first_mes == Some(s),
        node.get("first_mes"@) is None && node.get("firstMes"@) is None && node.get_str("greeting"@) == Some(s) ==> gathered(node, card).first_mes == Some(s),
        node.get("first_mes"@) is None && node.get("firstMes"@) is None && node.get("greeting"@) is None && node.get_str("firstMessage"@) == Some(s) ==> gathered(node, card).first_mes == Some(s),
        node.get("mes_example"@) is None && node.get_str("mesExample"@) == Some(s) ==> gathered(node, card).mes_example == Some(s),
        node.get("mes_example"@) is None && node.get("mesExample"@) is None && node.get_str("example_dialogue"@) == Some(s) ==> gathered(node, card).mes_example == Some(s),
        node.get("creator_notes"@) is None && node.get_str("creatorNotes"@) == Some(s) ==> gathered(node, card).creator_notes == Some(s),
        node.get("system_prompt"@) is None && node.get_str("systemPrompt"@) == Some(s) ==> gathered(node, card).system_prompt == Some(s),
        node.get("post_history_instructions"@) is None && node.get_str("postHistoryInstructions"@) == Some(s) ==> gathered(node, card).post_history == Some(s),
        node.get("avatarUrl"@) is None && node.get_str("avatar_url"@) == Some(s) && is_link(s) ==> avatar_of(node) == Some(s),
        node.get("avatarUrl"@) is None && node.get("avatar_url"@) is None && node.get_str("avatar"@) == Some(s) && is_link(s) ==> avatar_of(node) == Some(s),
        node.get("max_res_url"@) is None && node.get_str("maxResUrl"@) == Some(s) && is_link(s) && (fields.first_mes is None || fields.tags.len() == 0) ==> card_to_fetch(node, fields) == Some(s),
        node.get("max_res_url"@) is None && node.get("maxResUrl"@) is None && node.get_str("charaCardUrl"@) == Some(s) && is_link(s) && (fields.first_mes is None || fields.tags.len() == 0) ==> card_to_fetch(node, fields) == Some(s),
{
    if node.get("first_mes"@) is None {
        law_first_text(node, seq!["first_mes"@, "firstMes"@, "greeting"@, "firstMessage"@], 1);
    }
    if node.get("first_mes"@) is None && node.get("firstMes"@) is None {
        law_first_text(node, seq!["first_mes"@, "firstMes"@, "greeting"@, "firstMessage"@], 2);
    }
    if node.get("first_mes"@) is None && node.get("firstMes"@) is None && node.get("greeting"@) is None {
        law_first_text(node, seq!["first_mes"@, "firstMes"@, "greeting"@, "firstMessage"@], 3);
    }
    if node.get("mes_example"@) is None {
        law_first_text(node, seq!["mes_example"@, "mesExample"@, "example_dialogue"@], 1);
    }
    if node.get("mes_example"@) is None && node.get("mesExample"@) is None {
        law_first_text(node, seq!["mes_example"@, "mesExample"@, "example_dialogue"@], 2);
    }
    if node.get("creator_notes"@) is None {
        law_first_text(node, seq!["creator_notes"@, "creatorNotes"@], 1);
    }
    if node.get("system_prompt"@) is None {
        law_first_text(node, seq!["system_prompt"@, "systemPrompt"@], 1);
    }
    if node.get("post_history_instructions"@) is None {
        law_first_text(node, seq!["post_history_instructions"@, "postHistoryInstructions"@], 1);
    }
    if node.get("avatarUrl"@) is None {
        law_first_text(node, seq!["avatarUrl"@, "avatar_url"@, "avatar"@], 1);
    }
    if node.get("avatarUrl"@) is None && node.get("avatar_url"@) is None {
        law_first_text(node, seq!["avatarUrl"@, "avatar_url"@, "avatar"@], 2);
    }
    if node.get("max_res_url"@) is None {
        law_first_text(node, seq!["max_res_url"@, "maxResUrl"@, "max_res_url"@, "charaCardUrl"@], 1);
    }
    if node.get("max_res_url"@) is None && node.get("maxResUrl"@) is None {
        law_first_text(node, seq!["max_res_url"@, "maxResUrl"@, "max_res_url"@, "charaCardUrl"@], 3);
    }
}

} // verus!
