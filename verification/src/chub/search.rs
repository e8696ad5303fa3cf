//! Searching the Chub catalogue.
use vstd::prelude::*;
use vstd::utf8::encode_utf8;

use super::fields::{first_count, flag_or, law_first_count, u64_field};
use crate::json::{copy, copy_all, group_json_views, json_views, json_views_push, Json, JsonModel};
use crate::text::{
    contains, contains_str, decimal, decimal_u64, is_blank, join, join_strs, law_decimal, law_split,
    law_split_join, lemma_same_back, lemma_same_front, lemma_trim_trimmed, opt_present,
    opt_str_view, opt_view, present, present_opt, present_str, same, split, split_str, strs, trim,
    trim_of, trim_of_str, trim_str, views, views_len, views_push,
};
use crate::text_map::entry_views;

verus! {

pub const CHUB_GATEWAY_BASE: &'static str = "https://gateway.chub.ai";

/// How many seconds a search, a character and the tags are kept.
pub const CHUB_SEARCH_TTL_SECS: i64 = 300;

pub const CHUB_DETAIL_TTL_SECS: i64 = 300;

pub const CHUB_TAG_TTL_SECS: i64 = 3600;

// ---------------------------------------------------------------------------
// The key
// ---------------------------------------------------------------------------

/// Whether a byte may stand in the value of a header field.
pub open spec fn is_field_byte(b: u8) -> bool {
    (b >= 32 && b != 127) || b == 9
}

pub open spec fn is_field_value(s: Seq<char>) -> bool {
    forall|i: int| 0 <= i < encode_utf8(s).len() ==> is_field_byte(#[trigger] encode_utf8(s)[i])
}

/// `reqwest::header::HeaderValue::from_str`: succeeds exactly where every byte of the text is a
/// tab or at least 32 and not 127.
#[verifier::external_body]
fn is_header_value(s: &str) -> (r: bool)
    ensures
        r == is_field_value(s@),
{
    reqwest::header::HeaderValue::from_str(s).is_ok()
}

/// The key that is sent as `X-API-KEY`: one that is not blank and fits into a header field.
pub open spec fn key_to_send(api_key: Option<Seq<char>>) -> Option<Seq<char>> {
    match opt_present(api_key) {
        Some(key) => if is_field_value(key) {
            Some(key)
        } else {
            None
        },
        None => None,
    }
}

/// Finds the key to send along with a request.
pub fn api_key_header(api_key: Option<&str>) -> (r: Option<&str>)
    ensures
        opt_str_view(r) == key_to_send(opt_str_view(api_key)),
{
    match api_key {
        Some(s) => match present_str(s) {
            Some(key) => if is_header_value(key) {
                Some(key)
            } else {
                None
            },
            None => None,
        },
        None => None,
    }
}

pub open spec fn flag_text(b: bool) -> Seq<char> {
    if b {
        "true"@
    } else {
        "false"@
    }
}

pub fn print_flag(b: bool) -> (r: &'static str)
    ensures
        r@ == flag_text(b),
{
    if b {
        "true"
    } else {
        "false"
    }
}

pub fn has_key(api_key: &Option<String>) -> (r: bool)
    ensures
        r == (opt_present(opt_view(*api_key)) is Some),
{
    present_opt(api_key).is_some()
}

/// Whether everything is shown: the mode that keeps unsafe content away has several levels, and
/// is off in one.
pub fn is_pure_mode_off(level: &str) -> (r: bool)
    ensures
        r == (level@ == "off"@),
{
    same(level, "off")
}

// ---------------------------------------------------------------------------
// Paths and errors
// ---------------------------------------------------------------------------

/// Whether a path names an author and a character.
pub open spec fn is_pair_path(s: Seq<char>) -> bool {
    let segments = split(s, '/');
    segments.len() == 2 && trim(segments[0]).len() > 0 && trim(segments[1]).len() > 0
}

/// The path of a character without white space and slashes around it, or why it is refused.
pub open spec fn clean_path(full_path: Seq<char>) -> Result<Seq<char>, Seq<char>> {
    let s = trim_of(trim(full_path), '/');
    if s.len() == 0 || contains(s, ".."@) || contains(s, "://"@) {
        Err("Invalid character path"@)
    } else if !is_pair_path(s) {
        Err("Invalid character path (expected author/character)"@)
    } else {
        Ok(s)
    }
}

/// Cleans the path of a character, `author/character`.
pub fn sanitize_full_path(full_path: &str) -> (r: Result<String, String>)
    ensures
        match r {
            Ok(s) => clean_path(full_path@) == Ok::<Seq<char>, Seq<char>>(s@),
            Err(e) => clean_path(full_path@) == Err::<Seq<char>, Seq<char>>(e@),
        },
{
    broadcast use views_len;

    let s = trim_of_str(trim_str(full_path), '/');
    if s.is_empty() || contains_str(s, "..") || contains_str(s, "://") {
        return Err("Invalid character path".to_string());
    }
    let segments = split_str(s, '/');
    assert(views(segments@) == split(s@, '/'));
    if segments.len() != 2 {
        return Err("Invalid character path (expected author/character)".to_string());
    }
    assert(views(segments@)[0] == segments@[0]@);
    assert(views(segments@)[1] == segments@[1]@);
    if is_blank(segments[0].as_str()) || is_blank(segments[1].as_str()) {
        return Err("Invalid character path (expected author/character)".to_string());
    }
    Ok(s.to_string())
}

pub open spec fn error_of_status(status: u16) -> Seq<char> {
    if status == 429 {
        "Chub rate limit reached. Wait a moment and try again."@
    } else if status == 401 || status == 403 {
        "Chub refused this request. The character may be private or deleted."@
    } else if status == 404 {
        "Character not found on Chub (it may have been deleted or made private)."@
    } else if status == 400 {
        "Chub rejected this request as invalid."@
    } else {
        "Chub request failed ("@ + decimal(status as nat) + "). Please try again later."@
    }
}

/// What the user is told of an error status.
pub fn chub_error_message(status: u16) -> (r: String)
    ensures
        r@ == error_of_status(status),
{
    if status == 429 {
        "Chub rate limit reached. Wait a moment and try again.".to_string()
    } else if status == 401 || status == 403 {
        "Chub refused this request. The character may be private or deleted.".to_string()
    } else if status == 404 {
        "Character not found on Chub (it may have been deleted or made private).".to_string()
    } else if status == 400 {
        "Chub rejected this request as invalid.".to_string()
    } else {
        let mut message = "Chub request failed (".to_string();
        message.append(decimal_u64(status as u64).as_str());
        message.append("). Please try again later.");
        message
    }
}

pub open spec fn search_error_of_status(status: u16, status_text: Seq<char>) -> Seq<char> {
    if status == 429 {
        "Chub rate limit reached. Wait a moment and try again."@
    } else if status == 401 || status == 403 {
        "Chub refused this request. The character may be private or deleted, or the API key may be invalid."@
    } else {
        "Unable to load characters right now ("@ + status_text + "). Please try again."@
    }
}

/// What the user is told of an error status of a search.
pub fn search_error_message(status: u16, status_text: &str) -> (r: String)
    ensures
        r@ == search_error_of_status(status, status_text@),
{
    if status == 429 {
        "Chub rate limit reached. Wait a moment and try again.".to_string()
    } else if status == 401 || status == 403 {
        "Chub refused this request. The character may be private or deleted, or the API key may be invalid.".to_string()
    } else {
        let mut message = "Unable to load characters right now (".to_string();
        message.append(status_text);
        message.append("). Please try again.");
        message
    }
}

// ---------------------------------------------------------------------------
// Records in a reply
// ---------------------------------------------------------------------------

/// The records of a reply: under `nodes`, under `data.nodes`, in `data`, `data` itself where it is
/// one record, or the whole reply.
pub open spec fn nodes_of(body: JsonModel) -> Seq<JsonModel> {
    match body.get_array("nodes"@) {
        Some(items) => items,
        None => {
            let in_data = match body.get("data"@) {
                Some(data) => match data.get_array("nodes"@) {
                    Some(items) => Some(items),
                    None => match data {
                        JsonModel::Array(items) => Some(items),
                        JsonModel::Object(_) => if data.get("id"@) is Some {
                            Some(seq![data])
                        } else {
                            None
                        },
                        _ => None,
                    },
                },
                None => None,
            };
            match in_data {
                Some(items) => items,
                None => match body {
                    JsonModel::Array(items) => items,
                    _ => Seq::empty(),
                },
            }
        },
    }
}

/// Finds the records of a reply.
pub fn extract_nodes(body: &Json) -> (r: Vec<Json>)
    ensures
        json_views(r@) == nodes_of(body@),
{
    broadcast use group_json_views;

    if let Some(items) = body.get_array("nodes") {
        return copy_all(items);
    }
    if let Some(data) = body.get("data") {
        if let Some(items) = data.get_array("nodes") {
            return copy_all(items);
        }
        if let Some(items) = data.as_array() {
            return copy_all(items);
        }
        if data.is_object() && data.get("id").is_some() {
            let mut one: Vec<Json> = Vec::new();
            one.push(copy(data));
            assert(json_views(one@) =~= seq![data@]);
            return one;
        }
    }
    if let Some(items) = body.as_array() {
        return copy_all(items);
    }
    let none: Vec<Json> = Vec::new();
    assert(json_views(none@) =~= Seq::empty());
    none
}

/// A count of a reply, or of its `data`.
pub open spec fn count_in(body: JsonModel, key: Seq<char>) -> Option<u64> {
    match first_count(body, seq![key]) {
        Some(n) => Some(n),
        None => match body.get("data"@) {
            Some(data) => first_count(data, seq![key]),
            None => None,
        },
    }
}

pub open spec fn first_count_in(body: JsonModel, keys: Seq<Seq<char>>) -> Option<u64>
    decreases keys.len(),
{
    if keys.len() == 0 {
        None
    } else {
        match count_in(body, keys[0]) {
            Some(n) => Some(n),
            None => first_count_in(body, keys.drop_first()),
        }
    }
}

/// Finds a count of a reply under the first of a list of names.
pub fn extract_u64(body: &Json, keys: &Vec<&str>) -> (r: Option<u64>)
    ensures
        r == first_count_in(body@, strs(keys@)),
{
    let ghost all = strs(keys@);
    assert(all.skip(0) =~= all);
    for i in 0..keys.len()
        invariant
            all == strs(keys@),
            first_count_in(body@, all) == first_count_in(body@, all.skip(i as int)),
    {
        assert(all.skip(i as int)[0] == keys@[i as int]@);
        assert(all.skip(i as int).drop_first() =~= all.skip(i + 1));
        let mut one: Vec<&str> = Vec::new();
        one.push(keys[i]);
        assert(strs(one@) =~= seq![keys@[i as int]@]);
        if let Some(n) = u64_field(body, &one) {
            return Some(n);
        }
        if let Some(data) = body.get("data") {
            if let Some(n) = u64_field(data, &one) {
                return Some(n);
            }
        }
    }
    None
}

pub open spec fn is_record(v: JsonModel) -> bool {
    v is Object && (v.get("id"@) is Some || v.get("name"@) is Some)
}

/// The full record of a character in a reply: under `node`, under `data`, or the reply itself.
pub open spec fn detail_of(body: JsonModel) -> JsonModel {
    match body.get("node"@) {
        Some(JsonModel::Object(members)) => JsonModel::Object(members),
        _ => match body.get("data"@) {
            Some(data) => if is_record(data) {
                data
            } else if is_record(body) {
                body
            } else {
                JsonModel::Null
            },
            None => if is_record(body) {
                body
            } else {
                JsonModel::Null
            },
        },
    }
}

fn looks_like_record(v: &Json) -> (r: bool)
    ensures
        r == is_record(v@),
{
    v.is_object() && (v.get("id").is_some() || v.get("name").is_some())
}

/// Finds the full record of a character in a reply.
pub fn extract_detail_node(body: &Json) -> (r: Json)
    ensures
        r@ == detail_of(body@),
{
    if let Some(node) = body.get("node") {
        if node.is_object() {
            return copy(node);
        }
    }
    if let Some(data) = body.get("data") {
        if looks_like_record(data) {
            return copy(data);
        }
    }
    if looks_like_record(body) {
        return copy(body);
    }
    Json::Null
}

// ---------------------------------------------------------------------------
// Searching characters
// ---------------------------------------------------------------------------

/// What a user asks of a search.
#[derive(Debug)]
pub struct SearchRequest {
    pub query: Option<String>,
    pub tags: Option<Vec<String>>,
    pub page: Option<u32>,
    pub page_size: Option<u32>,
    pub sort: Option<String>,
    pub api_key: Option<String>,
}

/// The texts of a list that are not blank, without white space around them.
pub open spec fn present_texts(list: Seq<Seq<char>>) -> Seq<Seq<char>>
    decreases list.len(),
{
    if list.len() == 0 {
        Seq::empty()
    } else {
        let before = present_texts(list.drop_last());
        match present(list.last()) {
            Some(s) => before.push(s),
            None => before,
        }
    }
}

impl SearchRequest {
    pub open spec fn asked_query(self) -> Option<Seq<char>> {
        opt_present(opt_view(self.query))
    }

    pub open spec fn asked_tags(self) -> Seq<Seq<char>> {
        match self.tags {
            Some(list) => present_texts(views(list@)),
            None => Seq::empty(),
        }
    }

    /// The page, from 1 on.
    pub open spec fn asked_page(self) -> u32 {
        match self.page {
            Some(n) => if n > 0 {
                n
            } else {
                1
            },
            None => 1,
        }
    }

    /// How many characters a page has: from 1 to 25, and 15 where nothing is said.
    pub open spec fn asked_size(self) -> u32 {
        match self.page_size {
            Some(n) => if n < 1 {
                1
            } else if n > 25 {
                25
            } else {
                n
            },
            None => 15,
        }
    }

    pub open spec fn asked_sort(self) -> Seq<char> {
        match self.sort {
            Some(s) => if trim(s@).len() > 0 {
                s@
            } else {
                "trending"@
            },
            None => "trending"@,
        }
    }

    pub open spec fn has_key(self) -> bool {
        opt_present(opt_view(self.api_key)) is Some
    }
}

fn keep_present(list: &Vec<String>) -> (r: Vec<String>)
    ensures
        views(r@) == present_texts(views(list@)),
{
    let ghost all = views(list@);
    let mut out: Vec<String> = Vec::new();
    assert(views(out@) =~= Seq::empty());
    for i in 0..list.len()
        invariant
            all == views(list@),
            views(out@) == present_texts(all.take(i as int)),
    {
        broadcast use views_push;

        assert(all.take(i + 1).drop_last() =~= all.take(i as int));
        assert(all.take(i + 1).last() == list@[i as int]@);
        if let Some(s) = present_str(list[i].as_str()) {
            out.push(s.to_string());
        }
    }
    assert(all.take(all.len() as int) =~= all);
    out
}

fn query_tags(request: &SearchRequest) -> (r: Vec<String>)
    ensures
        views(r@) == request.asked_tags(),
{
    match &request.tags {
        Some(list) => keep_present(list),
        None => {
            let none: Vec<String> = Vec::new();
            assert(views(none@) =~= Seq::empty());
            none
        },
    }
}

fn query_page(request: &SearchRequest) -> (r: u32)
    ensures
        r == request.asked_page(),
{
    match request.page {
        Some(n) => if n > 0 {
            n
        } else {
            1
        },
        None => 1,
    }
}

fn query_size(request: &SearchRequest) -> (r: u32)
    ensures
        r == request.asked_size(),
{
    match request.page_size {
        Some(n) => if n < 1 {
            1
        } else if n > 25 {
            25
        } else {
            n
        },
        None => 15,
    }
}

fn query_sort(request: &SearchRequest) -> (r: &str)
    ensures
        r@ == request.asked_sort(),
{
    match &request.sort {
        Some(s) => if is_blank(s.as_str()) {
            "trending"
        } else {
            s.as_str()
        },
        None => "trending",
    }
}

/// What a search is kept under.
pub open spec fn search_key(request: SearchRequest) -> Seq<char> {
    let query = match request.asked_query() {
        Some(s) => s,
        None => Seq::empty(),
    };
    "chub:search:"@ + query + ":"@ + join(request.asked_tags(), ","@) + ":"@ + decimal(
        request.asked_page() as nat,
    ) + ":"@ + decimal(request.asked_size() as nat) + ":"@ + request.asked_sort() + ":auth"@
        + flag_text(request.has_key())
}

pub fn search_cache_key(request: &SearchRequest) -> (r: String)
    ensures
        r@ == search_key(*request),
{
    let mut key = "chub:search:".to_string();
    match present_opt(&request.query) {
        Some(s) => {
            key.append(s);
        },
        None => {
            assert(key@ + Seq::<char>::empty() =~= key@);
        },
    }
    key.append(":");
    key.append(join_strs(&query_tags(request), ",").as_str());
    key.append(":");
    key.append(decimal_u64(query_page(request) as u64).as_str());
    key.append(":");
    key.append(decimal_u64(query_size(request) as u64).as_str());
    key.append(":");
    key.append(query_sort(request));
    key.append(":auth");
    key.append(print_flag(has_key(&request.api_key)));
    key
}

/// The parameters of a search. Without pure mode everything is searched.
pub open spec fn search_parameters(request: SearchRequest, pure_mode_off: bool) -> Seq<
    (Seq<char>, Seq<char>),
> {
    let base = seq![
        ("first"@, decimal(request.asked_size() as nat)),
        ("page"@, decimal(request.asked_page() as nat)),
        ("sort"@, request.asked_sort()),
        ("namespace"@, "characters"@),
        ("nsfw"@, flag_text(pure_mode_off)),
        ("nsfw_only"@, "false"@),
        ("nsfl"@, flag_text(pure_mode_off)),
        ("include_forks"@, "true"@),
        ("inclusive_or"@, "false"@),
        ("asc"@, "false"@),
    ];
    let queried = match request.asked_query() {
        Some(s) => base.push(("search"@, s)),
        None => base,
    };
    if request.asked_tags().len() > 0 {
        queried.push(("topics"@, join(request.asked_tags(), ","@)))
    } else {
        queried
    }
}

pub fn push_parameter(params: &mut Vec<(String, String)>, name: &str, value: &str)
    ensures
        entry_views(final(params)@) == entry_views(old(params)@).push((name@, value@)),
{
    let ghost before = params@;
    params.push((name.to_string(), value.to_string()));
    assert(entry_views(params@) =~= entry_views(before).push((name@, value@)));
}

pub fn search_params(request: &SearchRequest, pure_mode_off: bool) -> (r: Vec<(String, String)>)
    ensures
        entry_views(r@) == search_parameters(*request, pure_mode_off),
{
    broadcast use views_len;

    let mut params: Vec<(String, String)> = Vec::new();
    push_parameter(&mut params, "first", decimal_u64(query_size(request) as u64).as_str());
    push_parameter(&mut params, "page", decimal_u64(query_page(request) as u64).as_str());
    push_parameter(&mut params, "sort", query_sort(request));
    push_parameter(&mut params, "namespace", "characters");
    push_parameter(&mut params, "nsfw", print_flag(pure_mode_off));
    push_parameter(&mut params, "nsfw_only", "false");
    push_parameter(&mut params, "nsfl", print_flag(pure_mode_off));
    push_parameter(&mut params, "include_forks", "true");
    push_parameter(&mut params, "inclusive_or", "false");
    push_parameter(&mut params, "asc", "false");
    if let Some(s) = present_opt(&request.query) {
        push_parameter(&mut params, "search", s);
    }
    let tags = query_tags(request);
    if tags.len() > 0 {
        push_parameter(&mut params, "topics", join_strs(&tags, ",").as_str());
    }
    assert(entry_views(params@) =~= search_parameters(*request, pure_mode_off));
    params
}

pub fn search_url() -> (r: String)
    ensures
        r@ == CHUB_GATEWAY_BASE@ + "/search"@,
{
    let mut url = CHUB_GATEWAY_BASE.to_string();
    url.append("/search");
    url
}

/// A page of characters.
#[derive(Debug)]
pub struct ChubSearchResultDto {
    pub nodes: Vec<Json>,
    pub page: u32,
    pub total_pages: Option<u32>,
    pub total_nodes: Option<u64>,
}

pub open spec fn is_nsfw(node: JsonModel) -> bool {
    flag_or(node, "nsfw"@, false)
}

/// The records that pure mode lets through.
pub open spec fn pure_nodes(nodes: Seq<JsonModel>) -> Seq<JsonModel>
    decreases nodes.len(),
{
    if nodes.len() == 0 {
        Seq::empty()
    } else {
        let before = pure_nodes(nodes.drop_last());
        if is_nsfw(nodes.last()) {
            before
        } else {
            before.push(nodes.last())
        }
    }
}

pub open spec fn shown_nodes(body: JsonModel, pure_mode_off: bool) -> Seq<JsonModel> {
    if pure_mode_off {
        nodes_of(body)
    } else {
        pure_nodes(nodes_of(body))
    }
}

pub fn node_is_nsfw(node: &Json) -> (r: bool)
    ensures
        r == is_nsfw(node@),
{
    match node.get_bool("nsfw") {
        Some(b) => b,
        None => false,
    }
}

fn keep_pure(nodes: &Vec<Json>) -> (r: Vec<Json>)
    ensures
        json_views(r@) == pure_nodes(json_views(nodes@)),
{
    let ghost all = json_views(nodes@);
    let mut out: Vec<Json> = Vec::new();
    assert(json_views(out@) =~= Seq::empty());
    for i in 0..nodes.len()
        invariant
            all == json_views(nodes@),
            json_views(out@) == pure_nodes(all.take(i as int)),
    {
        broadcast use json_views_push;

        assert(all.take(i + 1).drop_last() =~= all.take(i as int));
        assert(all.take(i + 1).last() == nodes@[i as int]@);
        if !node_is_nsfw(&nodes[i]) {
            out.push(copy(&nodes[i]));
        }
    }
    assert(all.take(all.len() as int) =~= all);
    out
}

/// Whether a page is the one with the given number that a reply gives.
pub open spec fn is_page(
    found: ChubSearchResultDto,
    body: JsonModel,
    page: u32,
    pure_mode_off: bool,
) -> bool {
    &&& json_views(found.nodes@) == shown_nodes(body, pure_mode_off)
    &&& found.page == page
    &&& found.total_pages == match first_count_in(body, seq!["totalPages"@, "total_pages"@]) {
        Some(n) => Some(n as u32),
        None => None,
    }
    &&& found.total_nodes == first_count_in(
        body,
        seq!["totalNodes"@, "total_nodes"@, "count"@],
    )
}

/// Makes a page out of the reply to a search.
pub fn search_result(body: &Json, page: u32, pure_mode_off: bool) -> (r: ChubSearchResultDto)
    ensures
        is_page(r, body@, page, pure_mode_off),
{
    let all = extract_nodes(body);
    let nodes = if pure_mode_off {
        all
    } else {
        keep_pure(&all)
    };
    let page_keys = vec!["totalPages", "total_pages"];
    assert(strs(page_keys@) =~= seq!["totalPages"@, "total_pages"@]);
    let node_keys = vec!["totalNodes", "total_nodes", "count"];
    assert(strs(node_keys@) =~= seq!["totalNodes"@, "total_nodes"@, "count"@]);
    let total_pages: Option<u32> = match extract_u64(body, &page_keys) {
        Some(n) => Some(n as u32),
        None => None,
    };
    let total_nodes: Option<u64> = extract_u64(body, &node_keys);
    ChubSearchResultDto { nodes, page, total_pages, total_nodes }
}

// ---------------------------------------------------------------------------
// From the request to the page
// ---------------------------------------------------------------------------

/// What came of a request to the catalogue: no reply, a reply with an error status, one that is no
/// JSON, or JSON.
#[derive(Debug)]
pub enum CatalogReply {
    Unsent(String),
    Refused { status: u16, status_text: String },
    Unreadable(String),
    Body(Json),
}

/// How a search is made.
#[derive(Debug)]
pub struct SearchPlan {
    /// What the page is kept under.
    pub cache_key: String,
    /// Whether a page that was kept is good enough.
    pub looks_in_cache: bool,
    pub url: String,
    pub params: Vec<(String, String)>,
    /// What is sent as `X-API-KEY`.
    pub key: Option<String>,
}

/// The key that is sent along with a request, as a text of its own.
pub fn key_of_request(api_key: &Option<String>) -> (r: Option<String>)
    ensures
        opt_view(r) == key_to_send(opt_view(*api_key)),
{
    let key: Option<&str> = match api_key {
        Some(s) => Some(s.as_str()),
        None => None,
    };
    match api_key_header(key) {
        Some(s) => Some(s.to_string()),
        None => None,
    }
}

/// Plans a search.
pub fn plan_search(request: &SearchRequest, bypass_cache: Option<bool>, pure_mode_off: bool) -> (r:
    SearchPlan)
    ensures
        r.cache_key@ == search_key(*request),
        r.looks_in_cache == (bypass_cache != Some(true)),
        r.url@ == CHUB_GATEWAY_BASE@ + "/search"@,
        entry_views(r.params@) == search_parameters(*request, pure_mode_off),
        opt_view(r.key) == key_to_send(opt_view(request.api_key)),
{
    let looks_in_cache = match bypass_cache {
        Some(b) => !b,
        None => true,
    };
    SearchPlan {
        cache_key: search_cache_key(request),
        looks_in_cache,
        url: search_url(),
        params: search_params(request, pure_mode_off),
        key: key_of_request(&request.api_key),
    }
}

/// Makes a page out of what came of a search, or says why there is none.
pub fn conclude_search(reply: CatalogReply, request: &SearchRequest, pure_mode_off: bool) -> (r:
    Result<ChubSearchResultDto, String>)
    ensures
        match reply {
            CatalogReply::Unsent(e) => r == Err::<ChubSearchResultDto, String>(e),
            CatalogReply::Refused { status, status_text } => r matches Err(e) && e@
                == search_error_of_status(status, status_text@),
            CatalogReply::Unreadable(e) => r == Err::<ChubSearchResultDto, String>(e),
            CatalogReply::Body(body) => r matches Ok(found) && is_page(
                found,
                body@,
                request.asked_page(),
                pure_mode_off,
            ),
        },
{
    match reply {
        CatalogReply::Unsent(e) => Err(e),
        CatalogReply::Refused { status, status_text } => Err(
            search_error_message(status, status_text.as_str()),
        ),
        CatalogReply::Unreadable(e) => Err(e),
        CatalogReply::Body(body) => Ok(search_result(&body, query_page(request), pure_mode_off)),
    }
}

// ---------------------------------------------------------------------------
// Laws
// ---------------------------------------------------------------------------

/// A cleaned path names an author and a character and nothing more: it is not empty, neither goes
/// up in a directory nor names a scheme, and has one slash with text before and behind it.
pub proof fn law_clean_path(full_path: Seq<char>)
    ensures
        clean_path(full_path) matches Ok(s) ==> {
            &&& s.len() > 0
            &&& !contains(s, ".."@)
            &&& !contains(s, "://"@)
            &&& exists|author: Seq<char>, name: Seq<char>|
                s == #[trigger] (author + seq!['/'] + name) && !author.contains('/')
                    && !name.contains('/') && trim(author).len() > 0 && trim(name).len() > 0
        },
{
    if let Ok(s) = clean_path(full_path) {
        let pieces = split(s, '/');
        law_split_join(s, '/');
        assert(pieces.drop_last() =~= seq![pieces[0]]);
        assert(join(pieces.drop_last(), seq!['/']) == pieces[0]);
        assert(s == pieces[0] + seq!['/'] + pieces[1]);
        assert(!pieces[0].contains('/') && !pieces[1].contains('/'));
    }
}

/// In pure mode no page shows a record that is marked as unsafe, and what it shows is in the
/// reply.
pub proof fn law_pure_mode_filters(body: JsonModel)
    ensures
        forall|i: int|
            0 <= i < shown_nodes(body, false).len() ==> {
                let node = #[trigger] shown_nodes(body, false)[i];
                !is_nsfw(node) && nodes_of(body).contains(node)
            },
{
    lemma_pure_nodes(nodes_of(body));
}

proof fn lemma_pure_nodes(nodes: Seq<JsonModel>)
    ensures
        forall|i: int|
            0 <= i < pure_nodes(nodes).len() ==> !is_nsfw(#[trigger] pure_nodes(nodes)[i])
                && nodes.contains(pure_nodes(nodes)[i]),
    decreases nodes.len(),
{
    if nodes.len() > 0 {
        let front = nodes.drop_last();
        lemma_pure_nodes(front);
        assert forall|i: int| 0 <= i < pure_nodes(nodes).len() implies !is_nsfw(
            #[trigger] pure_nodes(nodes)[i],
        ) && nodes.contains(pure_nodes(nodes)[i]) by {
            if i < pure_nodes(front).len() {
                let node = pure_nodes(front)[i];
                assert(front.contains(node));
                let k = choose|k: int| 0 <= k < front.len() && front[k] == node;
                assert(nodes[k] == node);
            } else {
                assert(nodes[nodes.len() - 1] == pure_nodes(nodes)[i]);
            }
        }
    }
}

/// A path that names an author and a character is its own cleaned form.
pub proof fn law_good_path_is_kept(author: Seq<char>, name: Seq<char>)
    requires
        !author.contains('/'),
        !name.contains('/'),
        author.len() > 0,
        name.len() > 0,
        trim(author) == author,
        trim(name) == name,
        !contains(author + seq!['/'] + name, ".."@),
        !contains(author + seq!['/'] + name, "://"@),
    ensures
        clean_path(author + seq!['/'] + name) == Ok::<Seq<char>, Seq<char>>(
            author + seq!['/'] + name,
        ),
{
    let s = author + seq!['/'] + name;
    lemma_trim_trimmed(author);
    lemma_trim_trimmed(name);
    assert(s[0] == author[0]);
    assert(s.last() == name.last());
    assert(trim(s) == s);
    if author[0] == '/' {
        assert(author.contains(author[0]));
    }
    if name.last() == '/' {
        assert(name[name.len() - 1] == '/');
    }
    assert(trim_of(s, '/') == s);
    law_split(author, '/', name);
}

/// The records of a reply are the list `nodes`, or the list `nodes` of its `data`, or its `data` where
/// that is a list or one record, or the reply where it is a list.
pub proof fn law_nodes(body: JsonModel)
    ensures
        body.get_array("nodes"@) matches Some(items) ==> nodes_of(body) == items,
        body.get("nodes"@) is None ==> (body.get("data"@) matches Some(data) ==> {
            &&& data.get_array("nodes"@) matches Some(items) ==> nodes_of(body) == items
            &&& data matches JsonModel::Array(items) ==> nodes_of(body) == items
            &&& data is Object && data.get("nodes"@) is None && data.get("id"@) is Some ==> nodes_of(
                body,
            ) == seq![data]
        }),
        body matches JsonModel::Array(items) ==> nodes_of(body) == items,
        body.get("nodes"@) is None && body.get("data"@) is None && !(body is Array) ==> nodes_of(
            body,
        ).len() == 0,
{
}

/// Pure mode keeps a record unless it is marked as unsafe, and looks at each by itself; without it
/// every record is shown.
pub proof fn law_pure_mode_keeps_the_rest(
    body: JsonModel,
    a: Seq<JsonModel>,
    b: Seq<JsonModel>,
    node: JsonModel,
)
    ensures
        shown_nodes(body, true) == nodes_of(body),
        shown_nodes(body, false) == pure_nodes(nodes_of(body)),
        pure_nodes(Seq::empty()).len() == 0,
        pure_nodes(a + b) == pure_nodes(a) + pure_nodes(b),
        node.get_bool("nsfw"@) == Some(true) ==> pure_nodes(seq![node]).len() == 0,
        node.get_bool("nsfw"@) != Some(true) ==> pure_nodes(seq![node]) == seq![node],
    decreases b.len(),
{
    reveal_with_fuel(pure_nodes, 2);
    assert(seq![node].drop_last() =~= Seq::empty());
    assert(node.get_bool("nsfw"@) != Some(true) ==> pure_nodes(seq![node]) =~= seq![node]);
    if b.len() == 0 {
        assert(a + b =~= a);
        assert(pure_nodes(a) + pure_nodes(b) =~= pure_nodes(a));
    } else {
        law_pure_mode_keeps_the_rest(body, a, b.drop_last(), node);
        assert((a + b).drop_last() =~= a + b.drop_last());
        assert((a + b).last() == b.last());
        assert(pure_nodes(a + b) =~= pure_nodes(a) + pure_nodes(b));
    }
}

/// A page has from 1 to 25 characters, 15 where nothing is said; pages are counted from 1; what is not
/// blank is searched for; and the trending characters come first unless another order is asked for.
pub proof fn law_asked_of_a_search(request: SearchRequest)
    ensures
        1 <= request.asked_size() <= 25,
        request.page_size matches Some(n) ==> 1 <= n <= 25 ==> request.asked_size() == n,
        request.page_size matches Some(n) ==> n > 25 ==> request.asked_size() == 25,
        request.page_size is None ==> request.asked_size() == 15,
        request.asked_page() >= 1,
        request.page matches Some(n) ==> n > 0 ==> request.asked_page() == n,
        request.page is None ==> request.asked_page() == 1,
        request.query matches Some(s) ==> trim(s@).len() > 0 ==> request.asked_query() == Some(
            trim(s@),
        ),
        request.query matches Some(s) ==> trim(s@).len() == 0 ==> request.asked_query() is None,
        request.query is None ==> request.asked_query() is None,
        request.sort matches Some(s) ==> trim(s@).len() > 0 ==> request.asked_sort() == s@,
        request.sort is None ==> request.asked_sort() == "trending"@,
        request.tags is None ==> request.asked_tags().len() == 0,
        request.tags matches Some(list) ==> request.asked_tags() == present_texts(views(list@)),
{
}

/// Tags are taken one by one: those that are not blank, without white space around them.
pub proof fn law_present_texts(a: Seq<Seq<char>>, b: Seq<Seq<char>>, s: Seq<char>)
    ensures
        present_texts(Seq::empty()).len() == 0,
        present_texts(a + b) == present_texts(a) + present_texts(b),
        trim(s).len() > 0 ==> present_texts(seq![s]) == seq![trim(s)],
        trim(s).len() == 0 ==> present_texts(seq![s]).len() == 0,
    decreases b.len(),
{
    reveal_with_fuel(present_texts, 2);
    assert(seq![s].drop_last() =~= Seq::empty());
    assert(trim(s).len() > 0 ==> present_texts(seq![s]) =~= seq![trim(s)]);
    if b.len() == 0 {
        assert(a + b =~= a);
        assert(present_texts(a) + present_texts(b) =~= present_texts(a));
    } else {
        law_present_texts(a, b.drop_last(), s);
        assert((a + b).drop_last() =~= a + b.drop_last());
        assert((a + b).last() == b.last());
        assert(present_texts(a + b) =~= present_texts(a) + present_texts(b));
    }
}

/// A search asks for what the user asks for: the page and its size, the order, the text and the tags
/// where there are any; and for unsafe characters exactly where pure mode is off.
pub proof fn law_search_asks(request: SearchRequest, pure_mode_off: bool, m: (Seq<char>, Seq<char>))
    requires
        ({
            let flag = if pure_mode_off {
                "true"@
            } else {
                "false"@
            };
            ||| m == ("first"@, decimal(request.asked_size() as nat))
            ||| m == ("page"@, decimal(request.asked_page() as nat))
            ||| m == ("sort"@, request.asked_sort())
            ||| m == ("namespace"@, "characters"@)
            ||| m == ("nsfw"@, flag)
            ||| m == ("nsfl"@, flag)
            ||| m == ("nsfw_only"@, "false"@)
            ||| m == ("include_forks"@, "true"@)
            ||| m == ("asc"@, "false"@)
            ||| request.asked_query() matches Some(s) && m == ("search"@, s)
            ||| request.asked_tags().len() > 0 && m == ("topics"@, join(request.asked_tags(), ","@))
        }),
    ensures
        search_parameters(request, pure_mode_off).contains(m),
        search_parameters(request, pure_mode_off).len() == 10 + (if request.asked_query() is Some {
            1int
        } else {
            0
        }) + (if request.asked_tags().len() > 0 {
            1int
        } else {
            0
        }),
{
    let p = search_parameters(request, pure_mode_off);
    assert(p.contains(p[0]) && p.contains(p[1]) && p.contains(p[2]) && p.contains(p[3])
        && p.contains(p[4]) && p.contains(p[5]) && p.contains(p[6]) && p.contains(p[7])
        && p.contains(p[8]) && p.contains(p[9]));
    if p.len() > 10 {
        assert(p.contains(p[10]));
        assert(p.contains(p[p.len() - 1]));
    }
}

/// Two searches that are kept under the same name and differ at most in one thing do not differ: not
/// in the page, nor in its size, nor in the text, nor in the order.
pub proof fn law_search_key_tells_searches_apart(a: SearchRequest, b: SearchRequest)
    requires
        search_key(a) == search_key(b),
        a.has_key() == b.has_key(),
        a.asked_tags() == b.asked_tags(),
    ensures
        a.asked_query() == b.asked_query() && a.asked_size() == b.asked_size() && a.asked_sort()
            == b.asked_sort() ==> a.asked_page() == b.asked_page(),
        a.asked_query() == b.asked_query() && a.asked_page() == b.asked_page() && a.asked_sort()
            == b.asked_sort() ==> a.asked_size() == b.asked_size(),
        a.asked_query() == b.asked_query() && a.asked_page() == b.asked_page() && a.asked_size()
            == b.asked_size() ==> a.asked_sort() == b.asked_sort(),
        a.asked_page() == b.asked_page() && a.asked_size() == b.asked_size() && a.asked_sort()
            == b.asked_sort() ==> a.asked_query() == b.asked_query(),
{
    let qa = match a.asked_query() {
        Some(s) => s,
        None => Seq::empty(),
    };
    let qb = match b.asked_query() {
        Some(s) => s,
        None => Seq::empty(),
    };
    let tags = join(a.asked_tags(), ","@);
    let flag = flag_text(a.has_key());
    let pa = decimal(a.asked_page() as nat);
    let pb = decimal(b.asked_page() as nat);
    let na = decimal(a.asked_size() as nat);
    let nb = decimal(b.asked_size() as nat);
    law_decimal(a.asked_page() as nat);
    law_decimal(b.asked_page() as nat);
    law_decimal(a.asked_size() as nat);
    law_decimal(b.asked_size() as nat);
    let ha = "chub:search:"@ + qa + ":"@ + tags + ":"@;
    let hb = "chub:search:"@ + qb + ":"@ + tags + ":"@;
    let ka = ha + pa + ":"@ + na + ":"@;
    let kb = hb + pb + ":"@ + nb + ":"@;
    lemma_same_front(ka + a.asked_sort() + ":auth"@, kb + b.asked_sort() + ":auth"@, flag);
    lemma_same_front(ka + a.asked_sort(), kb + b.asked_sort(), ":auth"@);
    if ka == kb {
        lemma_same_back(ka, a.asked_sort(), b.asked_sort());
    }
    if a.asked_sort() == b.asked_sort() {
        lemma_same_front(ka, kb, a.asked_sort());
        lemma_same_front(ha + pa + ":"@ + na, hb + pb + ":"@ + nb, ":"@);
        if ha == hb && pa == pb {
            lemma_same_back(ha + pa + ":"@, na, nb);
        }
        if na == nb {
            lemma_same_front(ha + pa + ":"@, hb + pb + ":"@, na);
            lemma_same_front(ha + pa, hb + pb, ":"@);
            if ha == hb {
                lemma_same_back(ha, pa, pb);
            }
            if pa == pb {
                lemma_same_front(ha, hb, pa);
                let sa = "chub:search:"@ + qa;
                let sb = "chub:search:"@ + qb;
                lemma_same_front(sa + ":"@ + tags, sb + ":"@ + tags, ":"@);
                lemma_same_front(sa + ":"@, sb + ":"@, tags);
                lemma_same_front(sa, sb, ":"@);
                lemma_same_back("chub:search:"@, qa, qb);
            }
        }
    }
}

/// The totals of a page are those that the reply names, itself or in its `data`.
pub proof fn law_totals(body: JsonModel)
    ensures
        body.get_u64("totalPages"@) matches Some(n) ==> first_count_in(
            body,
            seq!["totalPages"@, "total_pages"@],
        ) == Some(n),
        body.get("totalPages"@) is None ==> (body.get("data"@) matches Some(data) ==> (data.get_u64(
            "totalPages"@,
        ) matches Some(n) ==> first_count_in(body, seq!["totalPages"@, "total_pages"@]) == Some(n))),
        body.get_u64("totalNodes"@) matches Some(n) ==> first_count_in(
            body,
            seq!["totalNodes"@, "total_nodes"@, "count"@],
        ) == Some(n),
{
    reveal_with_fuel(first_count_in, 3);
    law_first_count(body, seq!["totalPages"@], 0);
    law_first_count(body, seq!["totalNodes"@], 0);
    if let Some(data) = body.get("data"@) {
        law_first_count(data, seq!["totalPages"@], 0);
    }
}

/// The record of a character in a reply is its `node`, or its `data` where that has an id or a name, or
/// the reply where that has one; else there is none.
pub proof fn law_detail(body: JsonModel)
    ensures
        body.get("node"@) matches Some(node) ==> node is Object ==> detail_of(body) == node,
        body.get("node"@) is None ==> (body.get("data"@) matches Some(data) ==> data is Object && (
        data.get("id"@) is Some || data.get("name"@) is Some) ==> detail_of(body) == data),
        body.get("node"@) is None && body.get("data"@) is None && body is Object && (body.get(
            "id"@,
        ) is Some || body.get("name"@) is Some) ==> detail_of(body) == body,
        body.get("node"@) is None && body.get("data"@) is None && body.get("id"@) is None
            && body.get("name"@) is None ==> detail_of(body) is Null,
{
}

/// A record is unsafe where it is marked so, and in no other way. Pure mode shows all of a reply but
/// these, and all of it where it is off.
pub proof fn law_unsafe_mark(node: JsonModel, body: JsonModel)
    ensures
        node.get("nsfw"@) == Some(JsonModel::Bool(true)) <==> is_nsfw(node),
        shown_nodes(body, true) == nodes_of(body),
{
}

/// What the user is told of an error status: to wait, that the record may be private, that it is
/// not there, that the request was wrong, or else the status itself.
pub proof fn law_status_is_told(status: u16, status_text: Seq<char>)
    ensures
        status == 429 ==> error_of_status(status)
            == "Chub rate limit reached. Wait a moment and try again."@ && search_error_of_status(
            status,
            status_text,
        ) == error_of_status(status),
        status == 401 || status == 403 ==> error_of_status(status)
            == "Chub refused this request. The character may be private or deleted."@,
        status == 401 || status == 403 ==> search_error_of_status(status, status_text)
            == "Chub refused this request. The character may be private or deleted, or the API key may be invalid."@,
        status == 404 ==> error_of_status(status)
            == "Character not found on Chub (it may have been deleted or made private)."@,
        status == 400 ==> error_of_status(status) == "Chub rejected this request as invalid."@,
        status >= 500 ==> error_of_status(status) == "Chub request failed ("@ + decimal(
            status as nat,
        ) + "). Please try again later."@,
        status >= 500 ==> search_error_of_status(status, status_text)
            == "Unable to load characters right now ("@ + status_text + "). Please try again."@,
{
}

/// A key is sent without the white space about it, unless it is blank or holds a byte that no
/// header field may hold.
pub proof fn law_key_goes_along(key: Seq<char>)
    ensures
        key_to_send(None) is None,
        trim(key).len() == 0 ==> key_to_send(Some(key)) is None,
        trim(key).len() > 0 && (forall|i: int|
            0 <= i < encode_utf8(trim(key)).len() ==> 32 <= #[trigger] encode_utf8(trim(key))[i]
                < 127) ==> key_to_send(Some(key)) == Some(trim(key)),
        (exists|i: int|
            0 <= i < encode_utf8(trim(key)).len() && (#[trigger] encode_utf8(trim(key))[i] == 10
                || encode_utf8(trim(key))[i] == 13)) ==> key_to_send(Some(key)) is None,
{
}

} // verus!
