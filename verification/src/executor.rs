//! One generation: what is sent to the provider and what is made of its reply.
use vstd::prelude::*;

use crate::chat::{Model, ProviderCredential, RequestSettings};
use crate::context_window::{
    capped, context_safety_margin, countable, enforce_context_window, enforcement,
    law_accepted_prompt_fits, less, reasoning_of, safety_margin, ContextEnforcementResult,
    CountSource, EnforcementModel, TokenCounts,
};
use crate::json::{
    get_member, group_json_views, json_views, lemma_member_of_with_member, member, member_views,
    put, unsigned, with_member, Json, JsonModel, NumberModel,
};
use crate::text::{contains_str, decimal, decimal_u64, is_blank, same, trim};

verus! {

/// The context window that is taken where none is configured.
pub const FALLBACK_CONTEXT_LENGTH: u32 = 8192;

/// A generation that failed: the message for the user, and the usage where the provider told it.
#[derive(Debug)]
pub struct ConversationExecutionFailure<U> {
    pub message: String,
    pub usage: Option<U>,
}

impl<U> ConversationExecutionFailure<U> {
    pub fn new(message: &str) -> (r: Self)
        ensures
            r.message@ == message@,
            r.usage is None,
    {
        ConversationExecutionFailure { message: message.to_string(), usage: None }
    }
}

/// A generation that succeeded.
#[derive(Debug)]
pub struct ConversationExecutionOutput<U> {
    pub text: String,
    pub reasoning: Option<String>,
    pub gemini_content: Option<Json>,
    pub usage: Option<U>,
    pub generated_image_data_urls: Vec<String>,
    pub api_key: String,
}

// ---------------------------------------------------------------------------
// Before the request
// ---------------------------------------------------------------------------

/// The settings of a request whose output budget an earlier pass may have cut down.
pub open spec fn budgeted(s: RequestSettings, effective_max_tokens: Option<u32>) -> RequestSettings {
    match effective_max_tokens {
        Some(n) => RequestSettings { max_tokens: n, ..s },
        None => s,
    }
}

/// Applies the budget of an earlier pass and fits the messages into the context window.
pub fn prepare_generation<U>(
    messages: &Vec<Json>,
    counts: &TokenCounts,
    request_settings: &mut RequestSettings,
    effective_max_tokens: Option<u32>,
    model: &Model,
    credential: &ProviderCredential,
) -> (r: Result<ContextEnforcementResult, ConversationExecutionFailure<U>>)
    requires
        counts.counts@.len() == messages@.len(),
        countable(counts.counts@, counts.source),
    ensures
        *final(request_settings) == budgeted(*old(request_settings), effective_max_tokens),
        match r {
            Ok(e) => enforcement(
                json_views(messages@),
                counts.counts@,
                counts.source,
                *final(request_settings),
                model.name@,
            ) == Ok::<EnforcementModel, Seq<char>>(e@),
            Err(f) => f.usage is None && enforcement(
                json_views(messages@),
                counts.counts@,
                counts.source,
                *final(request_settings),
                model.name@,
            ) == Err::<EnforcementModel, Seq<char>>(f.message@),
        },
{
    if let Some(n) = effective_max_tokens {
        request_settings.max_tokens = n;
    }
    match enforce_context_window(messages, counts, request_settings, model, credential, None) {
        Ok(e) => Ok(e),
        Err(message) => Err(ConversationExecutionFailure { message, usage: None }),
    }
}

/// The output budget after a last look at the input: where input, output, margin and reasoning
/// exceed the window, what is left of it, but 16 tokens at least and never more than before.
pub open spec fn final_budget(input: u32, max_tokens: u32, s: RequestSettings) -> u32 {
    let limit = match s.context_length {
        Some(n) => n,
        None => FALLBACK_CONTEXT_LENGTH,
    };
    let margin = safety_margin(limit);
    let needed = capped(capped(capped(input + max_tokens) + margin) + reasoning_of(s));
    if needed > limit {
        let available = less(less(less(limit, input), margin), reasoning_of(s));
        let floored = if available > 16 {
            available
        } else {
            16
        };
        if floored < max_tokens {
            floored
        } else {
            max_tokens
        }
    } else {
        max_tokens
    }
}

pub fn final_output_budget(input: u32, max_tokens: u32, s: &RequestSettings) -> (r: u32)
    ensures
        r == final_budget(input, max_tokens, *s),
{
    let limit: u32 = match s.context_length {
        Some(n) => n,
        None => FALLBACK_CONTEXT_LENGTH,
    };
    let margin: u32 = context_safety_margin(limit);
    let reasoning: u32 = match s.reasoning_budget {
        Some(n) => n,
        None => 0,
    };
    let needed: u32 = input.saturating_add(max_tokens).saturating_add(margin).saturating_add(
        reasoning,
    );
    if needed <= limit {
        return max_tokens;
    }
    let available: u32 = limit.saturating_sub(input).saturating_sub(margin).saturating_sub(
        reasoning,
    );
    let floored: u32 = if available > 16 {
        available
    } else {
        16
    };
    if floored < max_tokens {
        floored
    } else {
        max_tokens
    }
}

/// A member that is there already gets a new value; no member is added.
pub open spec fn with_present(
    members: Seq<(Seq<char>, JsonModel)>,
    key: Seq<char>,
    value: JsonModel,
) -> Seq<(Seq<char>, JsonModel)> {
    if member(members, key) is Some {
        with_member(members, key, value)
    } else {
        members
    }
}

pub open spec fn tokens_value(n: u32) -> JsonModel {
    JsonModel::Number(NumberModel::Unsigned(n as u64))
}

/// The members of a request body with every output budget that it names set to `n`.
pub open spec fn budget_members(members: Seq<(Seq<char>, JsonModel)>, n: u32) -> Seq<
    (Seq<char>, JsonModel),
> {
    let v = tokens_value(n);
    let a = with_present(members, "max_tokens"@, v);
    let b = with_present(a, "max_completion_tokens"@, v);
    let c = with_present(b, "max_output_tokens"@, v);
    let d = with_present(c, "num_predict"@, v);
    let e = with_present(d, "maxTokens"@, v);
    match member(e, "options"@) {
        Some(JsonModel::Object(options)) => if member(options, "num_predict"@) is Some {
            with_member(
                e,
                "options"@,
                JsonModel::Object(with_member(options, "num_predict"@, v)),
            )
        } else {
            e
        },
        _ => e,
    }
}

/// A request body with the output budgets that it names set to `n`.
pub open spec fn budget_body(body: JsonModel, n: u32) -> JsonModel {
    match body {
        JsonModel::Object(members) => JsonModel::Object(budget_members(members, n)),
        _ => body,
    }
}

fn put_present(members: &mut Vec<(String, Json)>, key: &str, n: u32)
    ensures
        member_views(final(members)@) == with_present(
            member_views(old(members)@),
            key@,
            tokens_value(n),
        ),
{
    if get_member(members, key).is_some() {
        put(members, key, unsigned(n as u64));
    }
}

fn options_with_budget(members: &Vec<(String, Json)>, n: u32) -> (r: Option<Json>)
    ensures
        match member(member_views(members@), "options"@) {
            Some(JsonModel::Object(options)) => if member(options, "num_predict"@) is Some {
                r matches Some(j) && j@ == JsonModel::Object(
                    with_member(options, "num_predict"@, tokens_value(n)),
                )
            } else {
                r is None
            },
            _ => r is None,
        },
{
    broadcast use group_json_views;

    match get_member(members, "options") {
        Some(options) => if options.is_object() && options.get("num_predict").is_some() {
            match crate::json::copy(options) {
                Json::Object(mut inner) => {
                    put(&mut inner, "num_predict", unsigned(n as u64));
                    Some(Json::Object(inner))
                },
                _ => None,
            }
        } else {
            None
        },
        None => None,
    }
}

/// Sets the output budgets that a request body names to `n`.
pub fn clamp_request_body(body: Json, n: u32) -> (r: Json)
    ensures
        r@ == budget_body(body@, n),
{
    broadcast use group_json_views;

    match body {
        Json::Object(mut members) => {
            put_present(&mut members, "max_tokens", n);
            put_present(&mut members, "max_completion_tokens", n);
            put_present(&mut members, "max_output_tokens", n);
            put_present(&mut members, "num_predict", n);
            put_present(&mut members, "maxTokens", n);
            if let Some(options) = options_with_budget(&members, n) {
                put(&mut members, "options", options);
            }
            Json::Object(members)
        },
        other => other,
    }
}

/// The last step before a request is sent: cuts the output budget down where the window asks for
/// it, and writes the new budget into the body. Gives back the budget and the body.
pub fn finalize_request(body: Json, input: u32, max_tokens: u32, s: &RequestSettings) -> (r: (
    u32,
    Json,
))
    ensures
        r.0 == final_budget(input, max_tokens, *s),
        r.1@ == (if r.0 < max_tokens {
            budget_body(body@, r.0)
        } else {
            body@
        }),
{
    let n: u32 = final_output_budget(input, max_tokens, s);
    if n < max_tokens {
        (n, clamp_request_body(body, n))
    } else {
        (n, body)
    }
}

// ---------------------------------------------------------------------------
// After the request
// ---------------------------------------------------------------------------

/// A reply of the provider, and what was found in it.
#[derive(Debug)]
pub struct GenerationReply<U> {
    pub status: u16,
    pub ok: bool,
    pub error_message: Option<String>,
    pub usage: Option<U>,
    pub aborted: bool,
    pub text: Option<String>,
    pub reasoning: Option<String>,
    pub gemini_content: Option<Json>,
    pub image_data_urls: Vec<String>,
    pub blocked: bool,
}

/// Whether the data of a reply is a stream of events, to be read line by line for images.
pub fn reads_as_event_stream(data: &Json) -> (r: bool)
    ensures
        r == (data@ matches JsonModel::Text(s) && crate::text::contains(s, "data:"@)),
{
    match data {
        Json::Text(s) => contains_str(s.as_str(), "data:"),
        _ => false,
    }
}

/// The message for a reply with an error status.
pub open spec fn status_message(status: u16, found: Option<Seq<char>>) -> Seq<char> {
    let fallback = "Provider returned status "@ + decimal(status as nat);
    match found {
        Some(message) => if message == fallback {
            message
        } else {
            message + " (status "@ + decimal(status as nat) + ")"@
        },
        None => fallback,
    }
}

pub fn provider_error_message(status: u16, found: &Option<String>) -> (r: String)
    ensures
        r@ == status_message(status, crate::text::opt_view(*found)),
{
    let digits = decimal_u64(status as u64);
    let mut fallback = "Provider returned status ".to_string();
    fallback.append(digits.as_str());
    match found {
        Some(message) => {
            let mut out = message.clone();
            if !same(out.as_str(), fallback.as_str()) {
                out.append(" (status ");
                out.append(digits.as_str());
                out.append(")");
            }
            out
        },
        None => fallback,
    }
}

pub open spec fn text_or_empty(v: Option<String>) -> Seq<char> {
    match v {
        Some(s) => s@,
        None => Seq::empty(),
    }
}

pub open spec fn is_blank_text(s: Seq<char>) -> bool {
    trim(s).len() == 0
}

/// A reply has content when its text is not blank or it brings an image.
pub open spec fn has_content(text: Option<String>, images: Seq<String>) -> bool {
    !is_blank_text(text_or_empty(text)) || images.len() > 0
}

pub fn reply_has_content(text: &Option<String>, images: &Vec<String>) -> (r: bool)
    ensures
        r == has_content(*text, images@),
{
    let blank = match text {
        Some(s) => is_blank(s.as_str()),
        None => true,
    };
    !blank || images.len() > 0
}

/// The message for a reply without content.
pub open spec fn empty_message(reasoning: Option<String>) -> Seq<char> {
    if reasoning is Some && !is_blank_text(reasoning->0@) {
        "Model completed reasoning but generated no response text. This may indicate the model ran out of tokens or encountered an issue during generation."@
    } else {
        "Empty response from provider"@
    }
}

/// Why a reply is a failure, and the usage that goes with it.
pub open spec fn reply_failure<U>(reply: GenerationReply<U>) -> Option<(Seq<char>, Option<U>)> {
    if !reply.ok {
        Some(
            (
                status_message(reply.status, crate::text::opt_view(reply.error_message)),
                reply.usage,
            ),
        )
    } else if reply.aborted {
        Some(("Request aborted by user"@, None))
    } else if !has_content(reply.text, reply.image_data_urls@) {
        Some((empty_message(reply.reasoning), None))
    } else if reply.blocked {
        Some(("Response blocked by Pure Mode. Try rephrasing your message."@, None))
    } else {
        None
    }
}

/// Makes the outcome of a generation out of the provider's reply.
pub fn conclude_generation<U>(reply: GenerationReply<U>, api_key: String) -> (r: Result<
    ConversationExecutionOutput<U>,
    ConversationExecutionFailure<U>,
>)
    ensures
        match r {
            Ok(out) => {
                &&& reply_failure(reply) is None
                &&& out.text@ == text_or_empty(reply.text)
                &&& out.reasoning == reply.reasoning
                &&& out.gemini_content == reply.gemini_content
                &&& out.usage == reply.usage
                &&& out.generated_image_data_urls == reply.image_data_urls
                &&& out.api_key == api_key
            },
            Err(f) => reply_failure(reply) == Some((f.message@, f.usage)),
        },
{
    if !reply.ok {
        let message = provider_error_message(reply.status, &reply.error_message);
        return Err(ConversationExecutionFailure { message, usage: reply.usage });
    }
    if reply.aborted {
        return Err(ConversationExecutionFailure::new("Request aborted by user"));
    }
    if !reply_has_content(&reply.text, &reply.image_data_urls) {
        let reasoned = match &reply.reasoning {
            Some(s) => !is_blank(s.as_str()),
            None => false,
        };
        let message = if reasoned {
            "Model completed reasoning but generated no response text. This may indicate the model ran out of tokens or encountered an issue during generation."
        } else {
            "Empty response from provider"
        };
        return Err(ConversationExecutionFailure::new(message));
    }
    if reply.blocked {
        return Err(
            ConversationExecutionFailure::new(
                "Response blocked by Pure Mode. Try rephrasing your message.",
            ),
        );
    }
    let text = match reply.text {
        Some(s) => s,
        None => String::new(),
    };
    Ok(
        ConversationExecutionOutput {
            text,
            reasoning: reply.reasoning,
            gemini_content: reply.gemini_content,
            usage: reply.usage,
            generated_image_data_urls: reply.image_data_urls,
            api_key,
        },
    )
}

// ---------------------------------------------------------------------------
// Laws
// ---------------------------------------------------------------------------

/// The last look never raises an output budget, and where the window has 16 tokens beside input,
/// margin and reasoning, what it leaves goes into the window, unless that is the largest there is:
/// sums stop there.
pub proof fn law_final_budget_fits(input: u32, max_tokens: u32, s: RequestSettings, limit: u32)
    requires
        s.context_length == Some(limit),
    ensures
        final_budget(input, max_tokens, s) <= max_tokens,
        limit < u32::MAX && input + safety_margin(limit) + reasoning_of(s) + 16 <= limit ==> input
            + final_budget(input, max_tokens, s) + safety_margin(limit) + reasoning_of(s) <= limit,
{
}

/// A prompt that the context window accepted keeps its output budget at the last look.
pub proof fn law_accepted_budget_is_final(
    messages: Seq<JsonModel>,
    counts: Seq<u32>,
    source: CountSource,
    s: RequestSettings,
    model: Seq<char>,
    limit: u32,
)
    requires
        s.context_length == Some(limit),
        limit > 0,
    ensures
        enforcement(messages, counts, source, s, model) matches Ok(e) ==> final_budget(
            e.input_tokens,
            e.final_output_tokens,
            s,
        ) == e.final_output_tokens,
{
    if limit < u32::MAX {
        law_accepted_prompt_fits(messages, counts, source, s, model, limit);
    }
}

proof fn lemma_with_present(
    members: Seq<(Seq<char>, JsonModel)>,
    key: Seq<char>,
    value: JsonModel,
    other: Seq<char>,
)
    ensures
        member(with_present(members, key, value), other) == (if other == key && member(
            members,
            key,
        ) is Some {
            Some(value)
        } else {
            member(members, other)
        }),
{
    lemma_member_of_with_member(members, key, value, other);
}

/// A request body with a new output budget names the budget wherever it named one before, and
/// under no other name. Nothing else of it is touched.
pub proof fn law_budget_is_written(
    members: Seq<(Seq<char>, JsonModel)>,
    n: u32,
    key: Seq<char>,
    inner: Seq<char>,
)
    ensures
        ({
            let before = JsonModel::Object(members);
            let after = budget_body(before, n);
            let budget = JsonModel::Number(NumberModel::Unsigned(n as u64));
            &&& key == "max_tokens"@ || key == "max_completion_tokens"@ || key
                == "max_output_tokens"@ || key == "num_predict"@ || key == "maxTokens"@
                ==> after.get(key) == (if before.get(key) is Some {
                Some(budget)
            } else {
                None
            })
            &&& key != "max_tokens"@ && key != "max_completion_tokens"@ && key
                != "max_output_tokens"@ && key != "num_predict"@ && key != "maxTokens"@ && key
                != "options"@ ==> after.get(key) == before.get(key)
            &&& match before.get("options"@) {
                Some(options) => after.get("options"@) matches Some(set) && (options !is Object
                    ==> set == options) && set.get(inner) == (if inner == "num_predict"@
                    && options.get(inner) is Some {
                    Some(budget)
                } else {
                    options.get(inner)
                }),
                None => after.get("options"@) is None,
            }
        }),
{
    reveal_strlit("max_tokens");
    reveal_strlit("max_completion_tokens");
    reveal_strlit("max_output_tokens");
    reveal_strlit("num_predict");
    reveal_strlit("maxTokens");
    reveal_strlit("options");
    assert("max_tokens"@.len() != "max_completion_tokens"@.len());
    assert("max_tokens"@.len() != "max_output_tokens"@.len());
    assert("max_tokens"@.len() != "num_predict"@.len());
    assert("max_tokens"@.len() != "maxTokens"@.len());
    assert("max_tokens"@.len() != "options"@.len());
    assert("max_completion_tokens"@.len() != "max_output_tokens"@.len());
    assert("max_completion_tokens"@.len() != "num_predict"@.len());
    assert("max_completion_tokens"@.len() != "maxTokens"@.len());
    assert("max_completion_tokens"@.len() != "options"@.len());
    assert("max_output_tokens"@.len() != "num_predict"@.len());
    assert("max_output_tokens"@.len() != "maxTokens"@.len());
    assert("max_output_tokens"@.len() != "options"@.len());
    assert("num_predict"@.len() != "maxTokens"@.len());
    assert("num_predict"@.len() != "options"@.len());
    assert("maxTokens"@.len() != "options"@.len());
    let v = tokens_value(n);
    let a = with_present(members, "max_tokens"@, v);
    let b = with_present(a, "max_completion_tokens"@, v);
    let c = with_present(b, "max_output_tokens"@, v);
    let d = with_present(c, "num_predict"@, v);
    let e = with_present(d, "maxTokens"@, v);
    lemma_five_budgets(members, v, key);
    lemma_five_budgets(members, v, "options"@);
    match member(e, "options"@) {
        Some(JsonModel::Object(options)) => {
            let set = JsonModel::Object(with_member(options, "num_predict"@, v));
            lemma_member_of_with_member(e, "options"@, set, key);
            lemma_member_of_with_member(e, "options"@, set, "options"@);
            lemma_member_of_with_member(options, "num_predict"@, v, inner);
        },
        _ => {},
    }
}

proof fn lemma_five_budgets(
    members: Seq<(Seq<char>, JsonModel)>,
    v: JsonModel,
    key: Seq<char>,
)
    ensures
        ({
            let a = with_present(members, "max_tokens"@, v);
            let b = with_present(a, "max_completion_tokens"@, v);
            let c = with_present(b, "max_output_tokens"@, v);
            let d = with_present(c, "num_predict"@, v);
            let e = with_present(d, "maxTokens"@, v);
            member(e, key) == (if (key == "max_tokens"@ || key == "max_completion_tokens"@ || key
                == "max_output_tokens"@ || key == "num_predict"@ || key == "maxTokens"@) && member(
                members,
                key,
            ) is Some {
                Some(v)
            } else {
                member(members, key)
            })
        }),
{
    let a = with_present(members, "max_tokens"@, v);
    let b = with_present(a, "max_completion_tokens"@, v);
    let c = with_present(b, "max_output_tokens"@, v);
    let d = with_present(c, "num_predict"@, v);
    lemma_with_present(members, "max_tokens"@, v, key);
    lemma_with_present(a, "max_completion_tokens"@, v, key);
    lemma_with_present(b, "max_output_tokens"@, v, key);
    lemma_with_present(c, "num_predict"@, v, key);
    lemma_with_present(d, "maxTokens"@, v, key);
}

/// The output gets what was asked for where the window has room for it beside input, margin and
/// reasoning. Else it gets the room there is, but 16 tokens at least, or what was asked for where
/// that is even less. Where no window is configured it has 8192 tokens.
pub proof fn law_output_gets_the_room(input: u32, max_tokens: u32, s: RequestSettings, limit: u32)
    requires
        s.context_length == Some(limit) || s.context_length is None && limit == 8192,
        limit < u32::MAX,
    ensures
        ({
            let set_aside = match s.reasoning_budget {
                Some(n) => n,
                None => 0,
            };
            let room = limit - input - safety_margin(limit) - set_aside;
            &&& max_tokens <= room ==> final_budget(input, max_tokens, s) == max_tokens
            &&& 16 <= room < max_tokens ==> final_budget(input, max_tokens, s) == room
            &&& room < 16 <= max_tokens ==> final_budget(input, max_tokens, s) == 16
            &&& max_tokens < 16 ==> final_budget(input, max_tokens, s) == max_tokens
        }),
{
}

/// A reply is a success just where its status is good, the user did not abort it, it has a text or
/// an image, and it is not blocked. Of several reasons to fail the first of these is told.
pub proof fn law_good_reply<U>(reply: GenerationReply<U>)
    ensures
        ({
            let said = reply.text matches Some(s) && trim(s@).len() > 0;
            let content = said || reply.image_data_urls@.len() > 0;
            &&& reply_failure(reply) is None <==> reply.ok && !reply.aborted && content
                && !reply.blocked
            &&& !reply.ok ==> (reply_failure(reply)->0).1 == reply.usage
            &&& reply.ok && reply_failure(reply) is Some ==> (reply_failure(reply)->0).1 is None
            &&& reply.ok && reply.aborted ==> (reply_failure(reply)->0).0
                == "Request aborted by user"@
            &&& reply.ok && !reply.aborted && !content ==> (reply_failure(reply)->0).0 == (match reply.reasoning {
                Some(r) if trim(r@).len() > 0 =>
                "Model completed reasoning but generated no response text. This may indicate the model ran out of tokens or encountered an issue during generation."@,
                _ => "Empty response from provider"@,
            })
            &&& reply.ok && !reply.aborted && content && reply.blocked ==> (reply_failure(reply)->0).0
                == "Response blocked by Pure Mode. Try rephrasing your message."@
        }),
{
}

/// The message for a bad status names the status, behind what the reply said of the error where it
/// said something. A message that names the status already is left as it is.
pub proof fn law_bad_status_is_named(status: u16, said: Seq<char>)
    ensures
        status_message(status, None) == "Provider returned status "@ + decimal(status as nat),
        status_message(status, Some(said)) == said || status_message(status, Some(said)) == said
            + " (status "@ + decimal(status as nat) + ")"@,
        status_message(status, Some(said)) == said <==> said == "Provider returned status "@
            + decimal(status as nat),
{
    reveal_strlit(")");
    assert((said + " (status "@ + decimal(status as nat) + ")"@).len() > said.len());
}

/// An earlier pass changes nothing but the output budget, and only where it found one.
pub proof fn law_earlier_budget(s: RequestSettings, n: u32)
    ensures
        budgeted(s, Some(n)).max_tokens == n,
        budgeted(s, Some(n)).context_length == s.context_length,
        budgeted(s, Some(n)).reasoning_budget == s.reasoning_budget,
        budgeted(s, None) == s,
{
}

} // verus!
