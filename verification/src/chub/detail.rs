//! The full record of a character.
use vstd::prelude::*;

use super::search::{
    chub_error_message, clean_path, detail_of, error_of_status, extract_detail_node, flag_text,
    has_key, is_nsfw, key_of_request, key_to_send, node_is_nsfw, print_flag, sanitize_full_path,
    CatalogReply, CHUB_GATEWAY_BASE,
};
use crate::json::{Json, JsonModel};
use crate::text::{opt_present, opt_view};

verus! {

/// What a record is kept under.
pub open spec fn detail_key(path: Seq<char>, api_key: Option<Seq<char>>) -> Seq<char> {
    "chub:detail:"@ + path + ":auth"@ + flag_text(opt_present(api_key) is Some)
}

pub fn detail_cache_key(path: &str, api_key: &Option<String>) -> (r: String)
    ensures
        r@ == detail_key(path@, opt_view(*api_key)),
{
    let mut key = "chub:detail:".to_string();
    key.append(path);
    key.append(":auth");
    key.append(print_flag(has_key(api_key)));
    key
}

/// Where the record of the character with the given path stands.
pub fn detail_url(path: &str) -> (r: String)
    ensures
        r@ == detail_place(path@),
{
    let mut url = CHUB_GATEWAY_BASE.to_string();
    url.append("/api/characters/");
    url.append(path);
    url.append("?full=true");
    url
}

/// A record as it is shown: pure mode shows none that is marked as unsafe.
pub open spec fn shown_record(node: JsonModel, pure_mode_off: bool) -> Result<
    JsonModel,
    Seq<char>,
> {
    if !pure_mode_off && is_nsfw(node) {
        Err("NSFW content is blocked in Pure Mode"@)
    } else {
        Ok(node)
    }
}

/// What the reply to a request for a record shows.
pub open spec fn shown_detail(body: JsonModel, pure_mode_off: bool) -> Result<
    JsonModel,
    Seq<char>,
> {
    let node = detail_of(body);
    if node is Null {
        Err("Character not found or unsupported response from Chub."@)
    } else {
        shown_record(node, pure_mode_off)
    }
}

pub open spec fn record_view(r: Result<Json, String>) -> Result<JsonModel, Seq<char>> {
    match r {
        Ok(node) => Ok(node@),
        Err(e) => Err(e@),
    }
}

/// Shows a record that was kept.
pub fn show_record(node: Json, pure_mode_off: bool) -> (r: Result<Json, String>)
    ensures
        record_view(r) == shown_record(node@, pure_mode_off),
{
    if !pure_mode_off && node_is_nsfw(&node) {
        return Err("NSFW content is blocked in Pure Mode".to_string());
    }
    Ok(node)
}

/// Shows the record in a reply.
pub fn read_detail(body: &Json, pure_mode_off: bool) -> (r: Result<Json, String>)
    ensures
        record_view(r) == shown_detail(body@, pure_mode_off),
{
    let node = extract_detail_node(body);
    if node.is_null() {
        return Err("Character not found or unsupported response from Chub.".to_string());
    }
    show_record(node, pure_mode_off)
}

/// How a record is asked for.
#[derive(Debug)]
pub struct DetailPlan {
    /// The path, cleaned.
    pub path: String,
    /// What the record is kept under.
    pub cache_key: String,
    pub url: String,
    /// What is sent as `X-API-KEY`.
    pub key: Option<String>,
}

pub open spec fn detail_place(path: Seq<char>) -> Seq<char> {
    CHUB_GATEWAY_BASE@ + "/api/characters/"@ + path + "?full=true"@
}

/// Plans how the record of a character is asked for.
pub fn plan_detail(full_path: &str, api_key: &Option<String>) -> (r: Result<DetailPlan, String>)
    ensures
        match r {
            Ok(plan) => {
                &&& clean_path(full_path@) == Ok::<Seq<char>, Seq<char>>(plan.path@)
                &&& plan.cache_key@ == detail_key(plan.path@, opt_view(*api_key))
                &&& plan.url@ == detail_place(plan.path@)
                &&& opt_view(plan.key) == key_to_send(opt_view(*api_key))
            },
            Err(e) => clean_path(full_path@) == Err::<Seq<char>, Seq<char>>(e@),
        },
{
    match sanitize_full_path(full_path) {
        Ok(path) => {
            let cache_key = detail_cache_key(path.as_str(), api_key);
            let url = detail_url(path.as_str());
            Ok(DetailPlan { path, cache_key, url, key: key_of_request(api_key) })
        },
        Err(e) => Err(e),
    }
}

/// What came of a request for a record, as it is shown.
pub open spec fn detail_reply(reply: CatalogReply, pure_mode_off: bool) -> Result<
    JsonModel,
    Seq<char>,
> {
    match reply {
        CatalogReply::Unsent(e) => Err(e@),
        CatalogReply::Refused { status, status_text } => Err(error_of_status(status)),
        CatalogReply::Unreadable(e) => Err(e@),
        CatalogReply::Body(body) => shown_detail(body@, pure_mode_off),
    }
}

/// Shows what came of a request for a record, or says why there is none.
pub fn conclude_detail(reply: CatalogReply, pure_mode_off: bool) -> (r: Result<Json, String>)
    ensures
        record_view(r) == detail_reply(reply, pure_mode_off),
{
    match reply {
        CatalogReply::Unsent(e) => Err(e),
        CatalogReply::Refused { status, status_text: _ } => Err(chub_error_message(status)),
        CatalogReply::Unreadable(e) => Err(e),
        CatalogReply::Body(body) => read_detail(&body, pure_mode_off),
    }
}

/// A record that is shown once is shown again when it was kept, and a kept one is never shown in
/// pure mode where it is marked as unsafe.
pub proof fn law_kept_record(body: JsonModel, off_then: bool, off_now: bool)
    ensures
        shown_detail(body, off_then) matches Ok(node) ==> {
            &&& shown_record(node, off_then) == Ok::<JsonModel, Seq<char>>(node)
            &&& shown_record(node, off_now) is Ok <==> off_now || !is_nsfw(node)
        },
{
}

/// The record that a reply holds is shown as it came, unless pure mode is on and it is marked as
/// unsafe. A reply without a record, a refusal and a failed request each say why.
pub proof fn law_record_is_shown(reply: CatalogReply, pure_mode_off: bool)
    ensures
        match reply {
            CatalogReply::Body(body) => {
                let node = detail_of(body@);
                &&& node is Null ==> detail_reply(reply, pure_mode_off) is Err
                &&& node !is Null && (pure_mode_off || !is_nsfw(node)) ==> detail_reply(
                    reply,
                    pure_mode_off,
                ) == Ok::<JsonModel, Seq<char>>(node)
                &&& !pure_mode_off && is_nsfw(node) ==> detail_reply(reply, pure_mode_off) is Err
            },
            CatalogReply::Unsent(e) => detail_reply(reply, pure_mode_off) == Err::<
                JsonModel,
                Seq<char>,
            >(e@),
            CatalogReply::Unreadable(e) => detail_reply(reply, pure_mode_off) == Err::<
                JsonModel,
                Seq<char>,
            >(e@),
            CatalogReply::Refused { status, status_text } => detail_reply(
                reply,
                pure_mode_off,
            ) == Err::<JsonModel, Seq<char>>(error_of_status(status)),
        },
{
}

/// Records of different paths are kept apart, and so are those that were asked for with a key and
/// without one. Which key it was does not matter.
pub proof fn law_records_are_kept_apart(
    a: Seq<char>,
    b: Seq<char>,
    one: Option<Seq<char>>,
    other: Option<Seq<char>>,
)
    ensures
        (opt_present(one) is Some == opt_present(other) is Some) ==> (detail_key(a, one)
            == detail_key(b, other) <==> a == b),
        opt_present(one) is Some && opt_present(other) is None ==> detail_key(a, one) != detail_key(
            a,
            other,
        ),
{
    reveal_strlit("true");
    reveal_strlit("false");
    let tail = ":auth"@ + flag_text(opt_present(one) is Some);
    if detail_key(a, one) == detail_key(b, other) && (opt_present(one) is Some == opt_present(
        other,
    ) is Some) {
        assert(detail_key(a, one) =~= "chub:detail:"@ + (a + tail));
        assert(detail_key(b, other) =~= "chub:detail:"@ + (b + tail));
        crate::text::lemma_same_back("chub:detail:"@, a + tail, b + tail);
        crate::text::lemma_same_front(a, b, tail);
    }
    if opt_present(one) is Some && opt_present(other) is None {
        assert(detail_key(a, one).len() < detail_key(a, other).len());
    }
}

} // verus!
