//! Keeping a conversation within the context window of a model.
use vstd::prelude::*;

use crate::chat::{Model, ProviderCredential, RequestSettings};
use crate::json::{copy_all, group_json_views, json_views, Json, JsonModel};
use crate::text::{decimal, decimal_u64, same};

verus! {

/// The output budget below which a generation is of little use.
pub const DEFAULT_MIN_GENERATION_TOKENS: u32 = 256;

/// A provider needs at least this many tokens to emit something.
pub const ABSOLUTE_MIN_GENERATION_TOKENS: u32 = 16;

// ---------------------------------------------------------------------------
// Token counting
// ---------------------------------------------------------------------------

/// The text of one part of a message's content.
pub open spec fn part_text(part: JsonModel) -> Option<Seq<char>> {
    if part.get_str("type"@) == Some("text"@) {
        part.get_str("text"@)
    } else {
        None
    }
}

/// The texts of the parts, one per line; no line break stands before the first text that is not
/// empty.
pub open spec fn parts_text(parts: Seq<JsonModel>) -> Seq<char>
    decreases parts.len(),
{
    if parts.len() == 0 {
        Seq::empty()
    } else {
        let before = parts_text(parts.drop_last());
        match part_text(parts.last()) {
            None => before,
            Some(t) => if before.len() == 0 {
                t
            } else {
                before + "\n"@ + t
            },
        }
    }
}

pub open spec fn content_text(content: JsonModel) -> Seq<char> {
    match content {
        JsonModel::Text(s) => s,
        JsonModel::Array(parts) => parts_text(parts),
        _ => Seq::empty(),
    }
}

/// The plain text of a message's content: a string, or an array of text parts.
pub fn extract_text_from_content(content: &Json) -> (r: String)
    ensures
        r@ == content_text(content@),
{
    broadcast use group_json_views;

    match content {
        Json::Text(s) => s.clone(),
        Json::Array(parts) => {
            let ghost all = json_views(parts@);
            let mut out = String::new();
            for i in 0..parts.len()
                invariant
                    all == json_views(parts@),
                    out@ == parts_text(all.take(i as int)),
            {
                assert(all.take(i + 1).drop_last() =~= all.take(i as int));
                assert(all.take(i + 1).last() == parts@[i as int]@);
                if let Some(kind) = parts[i].get_str("type") {
                    if same(kind, "text") {
                        if let Some(t) = parts[i].get_str("text") {
                            if !out.as_str().is_empty() {
                                out.append("\n");
                            }
                            out.append(t);
                            assert(Seq::<char>::empty() + t@ =~= t@);
                        }
                    }
                }
            }
            assert(all.take(all.len() as int) =~= all);
            out
        },
        _ => String::new(),
    }
}

/// The text of a message by which its tokens are counted: the role, a colon and the content.
pub open spec fn counted_text(msg: JsonModel) -> Seq<char> {
    let role = match msg.get_str("role"@) {
        Some(s) => s,
        None => "unknown"@,
    };
    let text = match msg.get("content"@) {
        Some(content) => content_text(content),
        None => Seq::empty(),
    };
    role + ": "@ + text
}

pub fn message_text_for_counting(msg: &Json) -> (r: String)
    ensures
        r@ == counted_text(msg@),
{
    let mut out = match msg.get_str("role") {
        Some(s) => s.to_string(),
        None => "unknown".to_string(),
    };
    out.append(": ");
    match msg.get("content") {
        Some(content) => {
            let text = extract_text_from_content(content);
            out.append(text.as_str());
        },
        None => {
            assert(out@ + Seq::<char>::empty() =~= out@);
        },
    }
    out
}

/// Where the token counts of texts come from.
#[derive(Clone, Copy, PartialEq, Eq, Debug, Structural)]
pub enum CountSource {
    /// A tokenizer.
    Tokenizer,
    /// The lengths of the texts, because there is no tokenizer.
    LengthEstimate,
}

/// The tokens of each of a list of messages.
#[derive(Debug)]
pub struct TokenCounts {
    pub source: CountSource,
    pub counts: Vec<u32>,
}

pub open spec fn at_least_one(n: u32) -> u32 {
    if n == 0 {
        1
    } else {
        n
    }
}

/// What one message weighs: a length estimate is taken as one token at least.
pub open spec fn weight(n: u32, source: CountSource) -> int {
    match source {
        CountSource::Tokenizer => n as int,
        CountSource::LengthEstimate => at_least_one(n) as int,
    }
}

pub open spec fn total(counts: Seq<u32>, source: CountSource) -> int
    decreases counts.len(),
{
    if counts.len() == 0 {
        0
    } else {
        total(counts.drop_last(), source) + weight(counts.last(), source)
    }
}

pub open spec fn capped(n: int) -> u32 {
    if n > u32::MAX {
        u32::MAX
    } else {
        n as u32
    }
}

/// The messages' tokens can be summed up in 32 bits.
pub open spec fn countable(counts: Seq<u32>, source: CountSource) -> bool {
    match source {
        CountSource::Tokenizer => total(counts, source) <= u32::MAX,
        CountSource::LengthEstimate => total(counts, source) + 4 * counts.len() <= u32::MAX,
    }
}

/// The tokens of a prompt made of messages with the given counts: each message costs four more,
/// and a tokenizer's count has two on top.
pub open spec fn prompt_tokens(counts: Seq<u32>, source: CountSource) -> u32 {
    if counts.len() == 0 {
        0
    } else {
        match source {
            CountSource::Tokenizer => capped(
                capped(total(counts, source) + capped(4 * (counts.len() as u32))) + 2,
            ),
            CountSource::LengthEstimate => (total(counts, source) + 4 * counts.len()) as u32,
        }
    }
}

proof fn lemma_total_take(counts: Seq<u32>, source: CountSource, i: int)
    requires
        0 <= i <= counts.len(),
    ensures
        0 <= total(counts.take(i), source) <= total(counts, source),
        source == CountSource::LengthEstimate ==> total(counts, source) >= counts.len(),
    decreases counts.len(),
{
    if counts.len() == 0 {
        assert(counts.take(i) =~= counts);
    } else if i == counts.len() {
        assert(counts.take(i) =~= counts);
        lemma_total_take(counts.drop_last(), source, i - 1);
        assert(counts.drop_last().take(i - 1) =~= counts.drop_last());
    } else {
        lemma_total_take(counts.drop_last(), source, i);
        assert(counts.drop_last().take(i) =~= counts.take(i));
    }
}

/// Estimates the tokens of a prompt from the token counts of its messages.
pub fn estimate_tokens_for_messages(counts: &TokenCounts) -> (r: u32)
    requires
        countable(counts.counts@, counts.source),
    ensures
        r == prompt_tokens(counts.counts@, counts.source),
{
    if counts.counts.len() == 0 {
        return 0;
    }
    let source = counts.source;
    let ghost all = counts.counts@;
    proof {
        lemma_total_take(all, source, 0);
    }
    let mut sum: u32 = 0;
    for i in 0..counts.counts.len()
        invariant
            all == counts.counts@,
            source == counts.source,
            countable(all, source),
            sum == total(all.take(i as int), source),
    {
        proof {
            lemma_total_take(all, source, i + 1);
            assert(all.take(i + 1).drop_last() =~= all.take(i as int));
        }
        let n: u32 = counts.counts[i];
        match source {
            CountSource::Tokenizer => {
                sum = sum + n;
            },
            CountSource::LengthEstimate => {
                if n == 0 {
                    sum = sum + 1;
                } else {
                    sum = sum + n;
                }
            },
        }
    }
    assert(all.take(all.len() as int) =~= all);
    let messages: u32 = counts.counts.len() as u32;
    match source {
        CountSource::Tokenizer => {
            let overhead: u32 = if messages > u32::MAX / 4 {
                u32::MAX
            } else {
                messages * 4
            };
            sum.saturating_add(overhead).saturating_add(2)
        },
        CountSource::LengthEstimate => sum + messages * 4,
    }
}

/// Estimates the tokens of a text from its count: one at least.
pub fn estimate_tokens_for_text(count: u32) -> (r: u32)
    ensures
        r == at_least_one(count),
{
    if count == 0 {
        1
    } else {
        count
    }
}

// ---------------------------------------------------------------------------
// The window and the output budget
// ---------------------------------------------------------------------------

/// The context window that a request has to keep to.
pub fn effective_context_limit(
    request_settings: &RequestSettings,
    _model: &Model,
    _credential: &ProviderCredential,
) -> (r: Option<u32>)
    ensures
        r == request_settings.context_length,
{
    request_settings.context_length
}

/// The part of a window that stays free for what the token counts miss: a twentieth of it, and
/// 256 tokens at least where the window is larger than that.
pub open spec fn safety_margin(limit: u32) -> u32 {
    if limit > 256 && limit / 20 < 256 {
        256
    } else {
        limit / 20
    }
}

pub fn context_safety_margin(context_limit: u32) -> (r: u32)
    ensures
        r == safety_margin(context_limit),
{
    if context_limit > 256 && context_limit / 20 < 256 {
        256
    } else {
        context_limit / 20
    }
}

pub open spec fn less(a: u32, b: u32) -> u32 {
    if a >= b {
        (a - b) as u32
    } else {
        0
    }
}

/// The output budget that a request gets of the available tokens: what it asks for, or all that
/// is available where that is less, but never nothing.
pub open spec fn clamped(requested: u32, available: u32) -> u32 {
    if requested <= available {
        requested
    } else {
        at_least_one(available)
    }
}

fn clamp_output_budget(requested: u32, available: u32) -> (r: u32)
    ensures
        r == clamped(requested, available),
{
    if requested <= available {
        requested
    } else if available == 0 {
        1
    } else {
        available
    }
}

pub open spec fn reasoning_of(s: RequestSettings) -> u32 {
    match s.reasoning_budget {
        Some(n) => n,
        None => 0,
    }
}

fn reasoning_tokens(s: &RequestSettings) -> (r: u32)
    ensures
        r == reasoning_of(*s),
{
    match s.reasoning_budget {
        Some(n) => n,
        None => 0,
    }
}

/// The input, the whole requested output and the margin go into the window together.
pub open spec fn fits(input: u32, s: RequestSettings, limit: u32) -> bool {
    capped(
        capped(input + capped(s.max_tokens + reasoning_of(s))) + safety_margin(limit),
    ) <= limit
}

fn fits_window(input: u32, s: &RequestSettings, limit: u32) -> (r: bool)
    ensures
        r == fits(input, *s, limit),
{
    let requested: u32 = s.max_tokens.saturating_add(reasoning_tokens(s));
    let margin: u32 = context_safety_margin(limit);
    input.saturating_add(requested).saturating_add(margin) <= limit
}

/// What a window leaves for output beside the input and the margin.
pub open spec fn room(input: u32, limit: u32) -> u32 {
    less(less(limit, input), safety_margin(limit))
}

/// The output budget where the whole request fits.
pub open spec fn roomy_output(input: u32, s: RequestSettings, limit: u32) -> u32 {
    clamped(s.max_tokens, less(room(input, limit), reasoning_of(s)))
}

pub open spec fn prompt_too_large(input: u32, limit: u32, model: Seq<char>) -> Seq<char> {
    "Prompt configuration alone requires ~"@ + decimal(input as nat)
        + " tokens, which exceeds the model's context limit of "@ + decimal(limit as nat)
        + " tokens. The character definition, system prompt, lorebook entries, and current message together are too large even after removing all conversation history. Reduce the character definition, remove some lorebook entries, shorten the current message, or increase the model's context length setting. (model: "@
        + model + ", limit: "@ + decimal(limit as nat) + ")"@
}

pub open spec fn too_little_room(input: u32, available: u32, limit: u32, model: Seq<char>) -> Seq<
    char,
> {
    "Prompt requires ~"@ + decimal(input as nat) + " tokens, leaving only "@ + decimal(
        available as nat,
    ) + " tokens for generation (limit "@ + decimal(limit as nat)
        + "). Even after removing all removable history, there is insufficient space for a meaningful response. Shorten the prompt or increase context length. (model: "@
        + model + ")"@
}

pub open spec fn no_room_beside_reasoning(
    input: u32,
    available: u32,
    reasoning: u32,
    limit: u32,
    model: Seq<char>,
) -> Seq<char> {
    "Prompt requires ~"@ + decimal(input as nat) + " tokens, leaving "@ + decimal(available as nat)
        + " tokens, but reasoning budget alone requires "@ + decimal(reasoning as nat)
        + " tokens (limit "@ + decimal(limit as nat)
        + "). Reduce prompt size or lower reasoning budget. (model: "@ + model + ")"@
}

/// The output budget where nothing more can be removed from the input, or why there is none.
pub open spec fn tight_output(
    input: u32,
    s: RequestSettings,
    limit: u32,
    model: Seq<char>,
) -> Result<u32, Seq<char>> {
    let available = room(input, limit);
    if capped(input + safety_margin(limit)) >= limit {
        Err(prompt_too_large(input, limit, model))
    } else if available < ABSOLUTE_MIN_GENERATION_TOKENS {
        Err(too_little_room(input, available, limit, model))
    } else {
        match s.reasoning_budget {
            Some(reasoning) => if available <= reasoning {
                Err(no_room_beside_reasoning(input, available, reasoning, limit, model))
            } else {
                Ok(clamped(s.max_tokens, less(available, reasoning)))
            },
            None => Ok(clamped(s.max_tokens, available)),
        }
    }
}

fn decimal_u32(n: u32) -> (r: String)
    ensures
        r@ == decimal(n as nat),
{
    decimal_u64(n as u64)
}

fn prompt_too_large_message(input: u32, limit: u32, model: &str) -> (r: String)
    ensures
        r@ == prompt_too_large(input, limit, model@),
{
    let limit_text = decimal_u32(limit);
    let mut out = "Prompt configuration alone requires ~".to_string();
    out.append(decimal_u32(input).as_str());
    out.append(" tokens, which exceeds the model's context limit of ");
    out.append(limit_text.as_str());
    out.append(
        " tokens. The character definition, system prompt, lorebook entries, and current message together are too large even after removing all conversation history. Reduce the character definition, remove some lorebook entries, shorten the current message, or increase the model's context length setting. (model: ",
    );
    out.append(model);
    out.append(", limit: ");
    out.append(limit_text.as_str());
    out.append(")");
    out
}

fn too_little_room_message(input: u32, available: u32, limit: u32, model: &str) -> (r: String)
    ensures
        r@ == too_little_room(input, available, limit, model@),
{
    let mut out = "Prompt requires ~".to_string();
    out.append(decimal_u32(input).as_str());
    out.append(" tokens, leaving only ");
    out.append(decimal_u32(available).as_str());
    out.append(" tokens for generation (limit ");
    out.append(decimal_u32(limit).as_str());
    out.append(
        "). Even after removing all removable history, there is insufficient space for a meaningful response. Shorten the prompt or increase context length. (model: ",
    );
    out.append(model);
    out.append(")");
    out
}

fn no_room_beside_reasoning_message(
    input: u32,
    available: u32,
    reasoning: u32,
    limit: u32,
    model: &str,
) -> (r: String)
    ensures
        r@ == no_room_beside_reasoning(input, available, reasoning, limit, model@),
{
    let mut out = "Prompt requires ~".to_string();
    out.append(decimal_u32(input).as_str());
    out.append(" tokens, leaving ");
    out.append(decimal_u32(available).as_str());
    out.append(" tokens, but reasoning budget alone requires ");
    out.append(decimal_u32(reasoning).as_str());
    out.append(" tokens (limit ");
    out.append(decimal_u32(limit).as_str());
    out.append("). Reduce prompt size or lower reasoning budget. (model: ");
    out.append(model);
    out.append(")");
    out
}

fn roomy_output_budget(input: u32, s: &RequestSettings, limit: u32) -> (r: u32)
    ensures
        r == roomy_output(input, *s, limit),
{
    let margin: u32 = context_safety_margin(limit);
    let available: u32 = limit.saturating_sub(input).saturating_sub(margin).saturating_sub(
        reasoning_tokens(s),
    );
    clamp_output_budget(s.max_tokens, available)
}

fn tight_output_budget(input: u32, s: &RequestSettings, limit: u32, model: &str) -> (r: Result<
    u32,
    String,
>)
    ensures
        match r {
            Ok(n) => tight_output(input, *s, limit, model@) == Ok::<u32, Seq<char>>(n),
            Err(e) => tight_output(input, *s, limit, model@) == Err::<u32, Seq<char>>(e@),
        },
{
    let margin: u32 = context_safety_margin(limit);
    if input.saturating_add(margin) >= limit {
        return Err(prompt_too_large_message(input, limit, model));
    }
    let available: u32 = limit.saturating_sub(input).saturating_sub(margin);
    if available < ABSOLUTE_MIN_GENERATION_TOKENS {
        return Err(too_little_room_message(input, available, limit, model));
    }
    match s.reasoning_budget {
        Some(reasoning) => {
            if available <= reasoning {
                return Err(
                    no_room_beside_reasoning_message(input, available, reasoning, limit, model),
                );
            }
            Ok(clamp_output_budget(s.max_tokens, available.saturating_sub(reasoning)))
        },
        None => Ok(clamp_output_budget(s.max_tokens, available)),
    }
}

// ---------------------------------------------------------------------------
// Trimming a list of messages
// ---------------------------------------------------------------------------

/// What the window does to a prompt.
#[derive(Debug)]
pub struct ContextEnforcementResult {
    /// The messages that are left.
    pub messages: Vec<Json>,
    /// The tokens of the messages that are left.
    pub input_tokens: u32,
    /// The tokens of all the messages.
    pub original_input_tokens: u32,
    /// The window, or 0 where none is known.
    pub context_limit: u32,
    pub requested_output_tokens: u32,
    /// The output budget after clamping.
    pub final_output_tokens: u32,
    /// How many messages of the history were removed.
    pub removed_count: usize,
    pub reasoning_budget: Option<u32>,
}

#[verifier::ext_equal]
pub struct EnforcementModel {
    pub messages: Seq<JsonModel>,
    pub input_tokens: u32,
    pub original_input_tokens: u32,
    pub context_limit: u32,
    pub requested_output_tokens: u32,
    pub final_output_tokens: u32,
    pub removed_count: int,
    pub reasoning_budget: Option<u32>,
}

impl View for ContextEnforcementResult {
    type V = EnforcementModel;

    open spec fn view(&self) -> EnforcementModel {
        EnforcementModel {
            messages: json_views(self.messages@),
            input_tokens: self.input_tokens,
            original_input_tokens: self.original_input_tokens,
            context_limit: self.context_limit,
            requested_output_tokens: self.requested_output_tokens,
            final_output_tokens: self.final_output_tokens,
            removed_count: self.removed_count as int,
            reasoning_budget: self.reasoning_budget,
        }
    }
}

/// History: what the user or the assistant said.
pub open spec fn is_history(msg: JsonModel) -> bool {
    msg.get_str("role"@) == Some("user"@) || msg.get_str("role"@) == Some("assistant"@)
}

pub open spec fn first_removable_from(messages: Seq<JsonModel>, i: int) -> Option<int>
    decreases messages.len() - i,
{
    if i + 1 >= messages.len() {
        None
    } else if is_history(messages[i]) {
        Some(i)
    } else {
        first_removable_from(messages, i + 1)
    }
}

/// The oldest message of the history, not counting the last message of all.
pub open spec fn first_removable(messages: Seq<JsonModel>) -> Option<int> {
    first_removable_from(messages, 0)
}

pub proof fn lemma_first_removable(messages: Seq<JsonModel>, i: int)
    requires
        0 <= i,
    ensures
        match first_removable_from(messages, i) {
            Some(k) => {
                &&& i <= k < messages.len() - 1
                &&& is_history(messages[k])
                &&& forall|j: int| i <= j < k ==> !is_history(#[trigger] messages[j])
            },
            None => forall|j: int|
                i <= j < messages.len() - 1 ==> !is_history(#[trigger] messages[j]),
        },
    decreases messages.len() - i,
{
    if i + 1 >= messages.len() {
    } else if is_history(messages[i]) {
    } else {
        lemma_first_removable(messages, i + 1);
    }
}

/// The messages and their counts after the oldest `n` removable messages are gone.
pub open spec fn trimmed(messages: Seq<JsonModel>, counts: Seq<u32>, n: nat) -> (
    Seq<JsonModel>,
    Seq<u32>,
)
    decreases n,
{
    match first_removable(messages) {
        Some(i) if n > 0 => trimmed(messages.remove(i), counts.remove(i), (n - 1) as nat),
        _ => (messages, counts),
    }
}

/// How many messages have to go: the fewest with which the request fits, or all removable ones.
pub open spec fn removals(
    messages: Seq<JsonModel>,
    counts: Seq<u32>,
    source: CountSource,
    s: RequestSettings,
    limit: u32,
) -> nat
    decreases messages.len(),
{
    if fits(prompt_tokens(counts, source), s, limit) {
        0
    } else {
        match first_removable(messages) {
            Some(i) if 0 <= i < messages.len() => 1 + removals(
                messages.remove(i),
                counts.remove(i),
                source,
                s,
                limit,
            ),
            _ => 0,
        }
    }
}

/// The messages stay as they are and the request gets the output that it asks for.
pub open spec fn untouched(
    messages: Seq<JsonModel>,
    input: u32,
    limit: u32,
    s: RequestSettings,
) -> EnforcementModel {
    EnforcementModel {
        messages,
        input_tokens: input,
        original_input_tokens: input,
        context_limit: limit,
        requested_output_tokens: s.max_tokens,
        final_output_tokens: s.max_tokens,
        removed_count: 0,
        reasoning_budget: s.reasoning_budget,
    }
}

/// What comes of an input that is left after `removed` messages are gone.
pub open spec fn settled(
    messages: Seq<JsonModel>,
    input: u32,
    original: u32,
    removed: int,
    limit: u32,
    s: RequestSettings,
    model: Seq<char>,
) -> Result<EnforcementModel, Seq<char>> {
    let output = if fits(input, s, limit) {
        Ok(roomy_output(input, s, limit))
    } else {
        tight_output(input, s, limit, model)
    };
    match output {
        Ok(n) => Ok(
            EnforcementModel {
                messages,
                input_tokens: input,
                original_input_tokens: original,
                context_limit: limit,
                requested_output_tokens: s.max_tokens,
                final_output_tokens: n,
                removed_count: removed,
                reasoning_budget: s.reasoning_budget,
            },
        ),
        Err(e) => Err(e),
    }
}

/// What the window does to a list of messages: it leaves them alone where no window is known or
/// the request fits, and removes the oldest history until it fits otherwise.
pub open spec fn enforcement(
    messages: Seq<JsonModel>,
    counts: Seq<u32>,
    source: CountSource,
    s: RequestSettings,
    model: Seq<char>,
) -> Result<EnforcementModel, Seq<char>> {
    let original = prompt_tokens(counts, source);
    match s.context_length {
        None => Ok(untouched(messages, original, 0, s)),
        Some(limit) => if limit == 0 || fits(original, s, limit) {
            Ok(untouched(messages, original, limit, s))
        } else {
            let n = removals(messages, counts, source, s, limit);
            let left = trimmed(messages, counts, n);
            settled(left.0, prompt_tokens(left.1, source), original, n as int, limit, s, model)
        },
    }
}

pub open spec fn enforcement_view(r: Result<ContextEnforcementResult, String>) -> Result<
    EnforcementModel,
    Seq<char>,
> {
    match r {
        Ok(v) => Ok(v@),
        Err(e) => Err(e@),
    }
}

proof fn lemma_total_remove(counts: Seq<u32>, source: CountSource, i: int)
    requires
        0 <= i < counts.len(),
    ensures
        total(counts.remove(i), source) == total(counts, source) - weight(counts[i], source),
    decreases counts.len(),
{
    if i == counts.len() - 1 {
        assert(counts.remove(i) =~= counts.drop_last());
    } else {
        lemma_total_remove(counts.drop_last(), source, i);
        assert(counts.remove(i).drop_last() =~= counts.drop_last().remove(i));
        assert(counts.remove(i).last() == counts.last());
    }
}

fn role_is_history(msg: &Json) -> (r: bool)
    ensures
        r == is_history(msg@),
{
    match msg.get_str("role") {
        Some(role) => same(role, "user") || same(role, "assistant"),
        None => false,
    }
}

fn find_removable_index(messages: &Vec<Json>) -> (r: Option<usize>)
    ensures
        match r {
            Some(i) => first_removable(json_views(messages@)) == Some(i as int) && i
                < messages@.len(),
            None => first_removable(json_views(messages@)) is None,
        },
{
    let ghost all = json_views(messages@);
    if messages.len() <= 1 {
        return None;
    }
    let last: usize = messages.len() - 1;
    for i in 0..last
        invariant
            all == json_views(messages@),
            last == messages@.len() - 1,
            first_removable(all) == first_removable_from(all, i as int),
    {
        if role_is_history(&messages[i]) {
            return Some(i);
        }
    }
    None
}

/// Fits a list of messages, each with its token count, into the context window.
///
/// System and developer messages stay, and so does the last message, which is the current one.
/// Of the rest the oldest messages of the user and the assistant are removed, as few as will do,
/// and the output budget is cut down to the room that is left.
pub fn enforce_context_window(
    messages: &Vec<Json>,
    counts: &TokenCounts,
    request_settings: &RequestSettings,
    model: &Model,
    credential: &ProviderCredential,
    _min_useful_tokens: Option<u32>,
) -> (r: Result<ContextEnforcementResult, String>)
    requires
        counts.counts@.len() == messages@.len(),
        countable(counts.counts@, counts.source),
    ensures
        enforcement_view(r) == enforcement(
            json_views(messages@),
            counts.counts@,
            counts.source,
            *request_settings,
            model.name@,
        ),
{
    let s = request_settings;
    let original: u32 = estimate_tokens_for_messages(counts);
    let limit: u32 = match effective_context_limit(s, model, credential) {
        None => 0,
        Some(n) => n,
    };
    if limit == 0 || fits_window(original, s, limit) {
        return Ok(
            ContextEnforcementResult {
                messages: copy_all(messages),
                input_tokens: original,
                original_input_tokens: original,
                context_limit: limit,
                requested_output_tokens: s.max_tokens,
                final_output_tokens: s.max_tokens,
                removed_count: 0,
                reasoning_budget: s.reasoning_budget,
            },
        );
    }
    let source = counts.source;
    let ghost all = json_views(messages@);
    let ghost weights = counts.counts@;
    let message_count: usize = messages.len();
    let mut left = copy_all(messages);
    let mut left_counts = TokenCounts { source, counts: copy_counts(&counts.counts) };
    let mut removed: usize = 0;
    loop
        invariant
            s.context_length == Some(limit),
            left_counts.source == source,
            left_counts.counts@.len() == left@.len(),
            removed + left@.len() == all.len(),
            all.len() == message_count,
            s == request_settings,
            countable(left_counts.counts@, source),
            removals(all, weights, source, *s, limit) == removed + removals(
                json_views(left@),
                left_counts.counts@,
                source,
                *s,
                limit,
            ),
            forall|k: nat|
                #![trigger trimmed(json_views(left@), left_counts.counts@, k)]
                trimmed(all, weights, removed as nat + k) == trimmed(
                    json_views(left@),
                    left_counts.counts@,
                    k,
                ),
            all == json_views(messages@),
            weights == counts.counts@,
            source == counts.source,
            original == prompt_tokens(weights, source),
            limit != 0,
            !fits(original, *s, limit),
        decreases left@.len(),
    {
        let input: u32 = estimate_tokens_for_messages(&left_counts);
        assert(trimmed(json_views(left@), left_counts.counts@, 0) == (
            json_views(left@),
            left_counts.counts@,
        ));
        if fits_window(input, s, limit) {
            let output: u32 = roomy_output_budget(input, s, limit);
            return Ok(
                ContextEnforcementResult {
                    messages: left,
                    input_tokens: input,
                    original_input_tokens: original,
                    context_limit: limit,
                    requested_output_tokens: s.max_tokens,
                    final_output_tokens: output,
                    removed_count: removed,
                    reasoning_budget: s.reasoning_budget,
                },
            );
        }
        match find_removable_index(&left) {
            Some(i) => {
                let ghost before = json_views(left@);
                let ghost before_counts = left_counts.counts@;
                proof {
                    lemma_total_remove(before_counts, source, i as int);
                }
                left.remove(i);
                left_counts.counts.remove(i);
                removed = removed + 1;
                proof {
                    assert(json_views(left@) =~= before.remove(i as int));
                    assert forall|k: nat|
                        #![trigger trimmed(json_views(left@), left_counts.counts@, k)]
                        trimmed(all, weights, removed as nat + k) == trimmed(
                            json_views(left@),
                            left_counts.counts@,
                            k,
                        ) by {
                        assert(trimmed(before, before_counts, (k + 1) as nat) == trimmed(
                            json_views(left@),
                            left_counts.counts@,
                            k,
                        ));
                    }
                }
            },
            None => {
                return match tight_output_budget(input, s, limit, model.name.as_str()) {
                    Ok(output) => Ok(
                        ContextEnforcementResult {
                            messages: left,
                            input_tokens: input,
                            original_input_tokens: original,
                            context_limit: limit,
                            requested_output_tokens: s.max_tokens,
                            final_output_tokens: output,
                            removed_count: removed,
                            reasoning_budget: s.reasoning_budget,
                        },
                    ),
                    Err(e) => Err(e),
                };
            },
        }
    }
}

fn copy_counts(counts: &Vec<u32>) -> (r: Vec<u32>)
    ensures
        r@ == counts@,
{
    let mut out: Vec<u32> = Vec::new();
    for i in 0..counts.len()
        invariant
            out@ == counts@.take(i as int),
    {
        out.push(counts[i]);
    }
    out
}

// ---------------------------------------------------------------------------
// Trimming a chat whose first messages are pinned
// ---------------------------------------------------------------------------

/// The prompt that a chat is made into, with the token counts of its messages.
#[derive(Debug)]
pub struct Assembly {
    pub messages: Vec<Json>,
    pub counts: TokenCounts,
}

pub open spec fn assembly_tokens(a: Assembly) -> u32 {
    prompt_tokens(a.counts.counts@, a.counts.source)
}

/// The chat without the `n` oldest messages behind the pinned ones.
pub open spec fn chat_without(chat: Seq<JsonModel>, pinned: int, n: int) -> Seq<JsonModel> {
    if n == 0 {
        chat
    } else {
        chat.take(pinned) + chat.skip(pinned + n)
    }
}

/// How many messages of a chat may be removed: all but the pinned ones and the last.
pub open spec fn removable_in_chat(len: int, pinned: int) -> int {
    if len > pinned + 1 {
        len - pinned - 1
    } else {
        0
    }
}

/// The fewest removals, from `n` on, with which the assembled prompt fits, or all of them.
pub open spec fn chat_removals(
    assemblies: Seq<Assembly>,
    n: int,
    s: RequestSettings,
    limit: u32,
) -> int
    decreases assemblies.len() - n,
{
    if n + 1 >= assemblies.len() || fits(assembly_tokens(assemblies[n]), s, limit) {
        n
    } else {
        chat_removals(assemblies, n + 1, s, limit)
    }
}

/// What the window does to a chat: the messages that stay in the chat, and the prompt.
pub open spec fn chat_enforcement(
    chat: Seq<JsonModel>,
    assemblies: Seq<Assembly>,
    s: RequestSettings,
    model: Seq<char>,
    pinned: int,
) -> Result<(Seq<JsonModel>, EnforcementModel), Seq<char>> {
    let all = assemblies[0];
    let original = assembly_tokens(all);
    match s.context_length {
        None => Ok((chat, untouched(json_views(all.messages@), original, 0, s))),
        Some(limit) => if fits(original, s, limit) {
            Ok((chat, untouched(json_views(all.messages@), original, limit, s)))
        } else {
            let n = chat_removals(assemblies, 0, s, limit);
            let left = assemblies[n];
            match settled(
                json_views(left.messages@),
                assembly_tokens(left),
                original,
                n,
                limit,
                s,
                model,
            ) {
                Ok(e) => Ok((chat_without(chat, pinned, n), e)),
                Err(e) => Err(e),
            }
        },
    }
}

pub open spec fn chat_enforcement_view(
    r: Result<(Vec<Json>, ContextEnforcementResult), String>,
) -> Result<(Seq<JsonModel>, EnforcementModel), Seq<char>> {
    match r {
        Ok(v) => Ok((json_views(v.0@), v.1@)),
        Err(e) => Err(e@),
    }
}

fn copy_chat_without(chat: &Vec<Json>, pinned: usize, n: usize) -> (r: Vec<Json>)
    requires
        n > 0 ==> pinned + n < chat@.len(),
    ensures
        json_views(r@) == chat_without(json_views(chat@), pinned as int, n as int),
{
    let mut out = copy_all(chat);
    if n == 0 {
        return out;
    }
    let ghost all = json_views(chat@);
    for i in 0..n
        invariant
            all == json_views(chat@),
            pinned + n < all.len(),
            out@.len() == all.len() - i,
            json_views(out@) == all.take(pinned as int) + all.skip(pinned + i),
    {
        let ghost before = json_views(out@);
        let _gone = out.remove(pinned);
        assert(json_views(out@) =~= before.remove(pinned as int));
        assert(json_views(out@) =~= all.take(pinned as int) + all.skip(pinned + i + 1));
    }
    out
}

/// Fits a chat into the context window. The first `pinned_count` messages stay, and so does the
/// last one; of the rest the oldest are removed, as few as will do.
///
/// `assemblies` holds the prompts that the chat is made into: the first of the whole chat, each
/// further one of the chat with one more message removed.
pub fn enforce_context_window_for_chat(
    chat_messages: &Vec<Json>,
    assemblies: &Vec<Assembly>,
    request_settings: &RequestSettings,
    model: &Model,
    credential: &ProviderCredential,
    pinned_count: usize,
    _min_useful_tokens: Option<u32>,
) -> (r: Result<(Vec<Json>, ContextEnforcementResult), String>)
    requires
        pinned_count < usize::MAX,
        assemblies@.len() == removable_in_chat(chat_messages@.len() as int, pinned_count as int)
            + 1,
        forall|i: int|
            0 <= i < assemblies@.len() ==> countable(
                (#[trigger] assemblies@[i]).counts.counts@,
                assemblies@[i].counts.source,
            ),
    ensures
        chat_enforcement_view(r) == chat_enforcement(
            json_views(chat_messages@),
            assemblies@,
            *request_settings,
            model.name@,
            pinned_count as int,
        ),
{
    let s = request_settings;
    let original: u32 = estimate_tokens_for_messages(&assemblies[0].counts);
    let known = effective_context_limit(s, model, credential);
    let limit: u32 = match known {
        None => 0,
        Some(n) => n,
    };
    if known.is_none() || fits_window(original, s, limit) {
        let result = ContextEnforcementResult {
            messages: copy_all(&assemblies[0].messages),
            input_tokens: original,
            original_input_tokens: original,
            context_limit: limit,
            requested_output_tokens: s.max_tokens,
            final_output_tokens: s.max_tokens,
            removed_count: 0,
            reasoning_budget: s.reasoning_budget,
        };
        return Ok((copy_all(chat_messages), result));
    }
    let mut n: usize = 0;
    let mut input: u32 = original;
    let mut fitting = false;
    while n < assemblies.len() - 1 && !fitting
        invariant
            n < assemblies@.len(),
            input == assembly_tokens(assemblies@[n as int]),
            fitting ==> fits(input, *s, limit),
            !fitting ==> (n + 1 < assemblies@.len() ==> !fits(input, *s, limit)),
            chat_removals(assemblies@, 0, *s, limit) == chat_removals(
                assemblies@,
                n as int,
                *s,
                limit,
            ),
            forall|i: int|
                0 <= i < assemblies@.len() ==> countable(
                    (#[trigger] assemblies@[i]).counts.counts@,
                    assemblies@[i].counts.source,
                ),
        decreases assemblies@.len() - n,
    {
        n = n + 1;
        input = estimate_tokens_for_messages(&assemblies[n].counts);
        fitting = fits_window(input, s, limit);
    }
    let output: u32 = if fits_window(input, s, limit) {
        roomy_output_budget(input, s, limit)
    } else {
        match tight_output_budget(input, s, limit, model.name.as_str()) {
            Ok(output) => output,
            Err(e) => {
                return Err(e);
            },
        }
    };
    let result = ContextEnforcementResult {
        messages: copy_all(&assemblies[n].messages),
        input_tokens: input,
        original_input_tokens: original,
        context_limit: limit,
        requested_output_tokens: s.max_tokens,
        final_output_tokens: output,
        removed_count: n,
        reasoning_budget: s.reasoning_budget,
    };
    Ok((copy_chat_without(chat_messages, pinned_count, n), result))
}

// ---------------------------------------------------------------------------
// Figures for the log
// ---------------------------------------------------------------------------

#[derive(Debug)]
pub struct DebugContextInfo {
    pub model_name: String,
    pub model_id: String,
    pub provider_id: String,
    pub context_limit: u32,
    pub requested_max_tokens: u32,
    pub reasoning_budget: Option<u32>,
    pub original_input_tokens: u32,
    pub final_input_tokens: u32,
    pub available_output: i64,
    pub final_output_tokens: u32,
    pub removed_count: usize,
    pub final_total_estimate: u32,
}

/// The figures of an enforcement, with the room for output and the tokens in all.
pub fn debug_info_for_enforcement(
    model: &Model,
    credential: &ProviderCredential,
    result: &ContextEnforcementResult,
) -> (r: DebugContextInfo)
    ensures
        r.model_name@ == model.name@,
        r.model_id@ == model.id@,
        r.provider_id@ == credential.provider_id@,
        r.context_limit == result.context_limit,
        r.requested_max_tokens == result.requested_output_tokens,
        r.reasoning_budget == result.reasoning_budget,
        r.original_input_tokens == result.original_input_tokens,
        r.final_input_tokens == result.input_tokens,
        r.available_output == less(result.context_limit, result.input_tokens),
        r.final_output_tokens == result.final_output_tokens,
        r.removed_count == result.removed_count,
        r.final_total_estimate == capped(
            capped(result.input_tokens + result.final_output_tokens) + (
            match result.reasoning_budget {
                Some(n) => n,
                None => 0,
            }),
        ),
{
    let reasoning: u32 = match result.reasoning_budget {
        Some(n) => n,
        None => 0,
    };
    let available: u32 = result.context_limit.saturating_sub(result.input_tokens);
    DebugContextInfo {
        model_name: model.name.clone(),
        model_id: model.id.clone(),
        provider_id: credential.provider_id.clone(),
        context_limit: result.context_limit,
        requested_max_tokens: result.requested_output_tokens,
        reasoning_budget: result.reasoning_budget,
        original_input_tokens: result.original_input_tokens,
        final_input_tokens: result.input_tokens,
        available_output: available as i64,
        final_output_tokens: result.final_output_tokens,
        removed_count: result.removed_count,
        final_total_estimate: result.input_tokens.saturating_add(
            result.final_output_tokens,
        ).saturating_add(reasoning),
    }
}

// ---------------------------------------------------------------------------
// Laws
// ---------------------------------------------------------------------------

/// `part` is `all` with some of it left out, in the same order; `at` tells where each of its
/// items stands in `all`.
pub open spec fn stands_at(part: Seq<JsonModel>, all: Seq<JsonModel>, at: Seq<int>) -> bool {
    &&& at.len() == part.len()
    &&& forall|k: int| 0 <= k < at.len() ==> 0 <= #[trigger] at[k] < all.len()
    &&& forall|k: int| 0 <= k < at.len() ==> part[k] == all[#[trigger] at[k]]
    &&& forall|j: int, k: int| 0 <= j < k < at.len() ==> #[trigger] at[j] < #[trigger] at[k]
}

/// The messages that are no history.
pub open spec fn fixed(messages: Seq<JsonModel>) -> Seq<JsonModel> {
    messages.filter(|m: JsonModel| !is_history(m))
}

proof fn lemma_fixed_without(messages: Seq<JsonModel>, i: int)
    requires
        0 <= i < messages.len(),
        is_history(messages[i]),
    ensures
        fixed(messages.remove(i)) == fixed(messages),
{
    let keep = |m: JsonModel| !is_history(m);
    let front = messages.take(i);
    let gone = seq![messages[i]];
    let back = messages.skip(i + 1);
    assert(messages =~= front + gone + back);
    assert(messages.remove(i) =~= front + back);
    Seq::filter_distributes_over_add(front + gone, back, keep);
    Seq::filter_distributes_over_add(front, gone, keep);
    Seq::filter_distributes_over_add(front, back, keep);
    reveal_with_fuel(Seq::filter, 2);
    assert(gone.drop_last() =~= Seq::empty());
    assert(gone.filter(keep) =~= Seq::empty());
    assert(front.filter(keep) + Seq::empty() =~= front.filter(keep));
}

proof fn lemma_trimmed(messages: Seq<JsonModel>, counts: Seq<u32>, n: nat)
    ensures
        fixed(trimmed(messages, counts, n).0) == fixed(messages),
        messages.len() > 0 ==> {
            &&& trimmed(messages, counts, n).0.len() > 0
            &&& trimmed(messages, counts, n).0.last() == messages.last()
        },
        exists|at: Seq<int>| stands_at(trimmed(messages, counts, n).0, messages, at),
    decreases n,
{
    let left = trimmed(messages, counts, n).0;
    lemma_first_removable(messages, 0);
    match first_removable(messages) {
        Some(i) if n > 0 => {
            let next = messages.remove(i);
            lemma_trimmed(next, counts.remove(i), (n - 1) as nat);
            lemma_fixed_without(messages, i);
            let inner = choose|at: Seq<int>| stands_at(left, next, at);
            let at = Seq::new(
                inner.len(),
                |k: int|
                    if inner[k] < i {
                        inner[k]
                    } else {
                        inner[k] + 1
                    },
            );
            assert(stands_at(left, messages, at));
        },
        _ => {
            let at = Seq::new(messages.len(), |k: int| k);
            assert(stands_at(left, messages, at));
        },
    }
}

/// Whatever the window makes of a prompt, the last message stays the last, every message that is
/// neither the user's nor the assistant's stays, and the messages that stay keep their order.
pub proof fn law_prompt_survives(
    messages: Seq<JsonModel>,
    counts: Seq<u32>,
    source: CountSource,
    s: RequestSettings,
    model: Seq<char>,
)
    ensures
        enforcement(messages, counts, source, s, model) matches Ok(e) ==> {
            &&& messages.len() > 0 ==> e.messages.len() > 0 && e.messages.last()
                == messages.last()
            &&& fixed(e.messages) == fixed(messages)
            &&& exists|at: Seq<int>| stands_at(e.messages, messages, at)
        },
{
    lemma_trimmed(messages, counts, 0);
    assert(trimmed(messages, counts, 0).0 == messages);
    if let Some(limit) = s.context_length {
        let n = removals(messages, counts, source, s, limit);
        lemma_trimmed(messages, counts, n);
        let left = trimmed(messages, counts, n).0;
        if let Ok(e) = enforcement(messages, counts, source, s, model) {
            assert(e.messages == messages || e.messages == left);
        }
    }
}

proof fn lemma_trimmed_len(
    messages: Seq<JsonModel>,
    counts: Seq<u32>,
    source: CountSource,
    s: RequestSettings,
    limit: u32,
)
    requires
        counts.len() == messages.len(),
    ensures
        ({
            let n = removals(messages, counts, source, s, limit);
            let left = trimmed(messages, counts, n);
            &&& left.0.len() + n == messages.len()
            &&& left.1.len() == left.0.len()
            &&& fits(prompt_tokens(left.1, source), s, limit) || first_removable(left.0) is None
            &&& forall|k: nat|
                k < n ==> !fits(
                    prompt_tokens((#[trigger] trimmed(messages, counts, k)).1, source),
                    s,
                    limit,
                )
        }),
    decreases messages.len(),
{
    lemma_first_removable(messages, 0);
    let n = removals(messages, counts, source, s, limit);
    if !fits(prompt_tokens(counts, source), s, limit) {
        if let Some(i) = first_removable(messages) {
            lemma_trimmed_len(messages.remove(i), counts.remove(i), source, s, limit);
            assert forall|k: nat| k < n implies !fits(
                prompt_tokens((#[trigger] trimmed(messages, counts, k)).1, source),
                s,
                limit,
            ) by {
                if k > 0 {
                    assert(trimmed(messages, counts, k) == trimmed(
                        messages.remove(i),
                        counts.remove(i),
                        (k - 1) as nat,
                    ));
                }
            }
        }
    }
}

/// No message is removed in vain: each one that is removed is counted, the request does not fit
/// with fewer removals, and where it does not fit in the end there was nothing left to remove.
pub proof fn law_fewest_removed(
    messages: Seq<JsonModel>,
    counts: Seq<u32>,
    source: CountSource,
    s: RequestSettings,
    model: Seq<char>,
)
    requires
        counts.len() == messages.len(),
    ensures
        enforcement(messages, counts, source, s, model) matches Ok(e) ==> {
            &&& e.messages.len() + e.removed_count == messages.len()
            &&& forall|k: nat|
                k < e.removed_count ==> !fits(
                    prompt_tokens((#[trigger] trimmed(messages, counts, k)).1, source),
                    s,
                    e.context_limit,
                )
            &&& e.context_limit > 0 && !fits(e.input_tokens, s, e.context_limit)
                ==> first_removable(e.messages) is None
        },
{
    if let Some(limit) = s.context_length {
        lemma_trimmed_len(messages, counts, source, s, limit);
    }
}

proof fn lemma_settled_fits(input: u32, s: RequestSettings, limit: u32, model: Seq<char>)
    requires
        0 < limit < u32::MAX,
    ensures
        fits(input, s, limit) ==> {
            &&& roomy_output(input, s, limit) == s.max_tokens
            &&& input + s.max_tokens + reasoning_of(s) + safety_margin(limit) <= limit
        },
        tight_output(input, s, limit, model) matches Ok(n) ==> input + n + reasoning_of(s)
            + safety_margin(limit) <= limit,
{
}

/// Input, output, reasoning and margin of an accepted prompt go into the window together.
pub proof fn law_accepted_prompt_fits(
    messages: Seq<JsonModel>,
    counts: Seq<u32>,
    source: CountSource,
    s: RequestSettings,
    model: Seq<char>,
    limit: u32,
)
    requires
        s.context_length == Some(limit),
        0 < limit < u32::MAX,
    ensures
        enforcement(messages, counts, source, s, model) matches Ok(e) ==> e.input_tokens
            + e.final_output_tokens + reasoning_of(s) + safety_margin(limit) <= limit,
{
    let n = removals(messages, counts, source, s, limit);
    let left = trimmed(messages, counts, n);
    lemma_settled_fits(prompt_tokens(counts, source), s, limit, model);
    lemma_settled_fits(prompt_tokens(left.1, source), s, limit, model);
}

/// The token counts of the messages that the window leaves.
pub open spec fn counts_left(
    messages: Seq<JsonModel>,
    counts: Seq<u32>,
    source: CountSource,
    s: RequestSettings,
) -> Seq<u32> {
    match s.context_length {
        Some(limit) if limit > 0 => trimmed(
            messages,
            counts,
            removals(messages, counts, source, s, limit),
        ).1,
        _ => counts,
    }
}

/// An accepted prompt is accepted again with the output budget that it was given: nothing more is
/// removed and the budget stays.
pub proof fn law_second_pass_changes_nothing(
    messages: Seq<JsonModel>,
    counts: Seq<u32>,
    source: CountSource,
    s: RequestSettings,
    model: Seq<char>,
)
    ensures
        enforcement(messages, counts, source, s, model) matches Ok(e) ==> {
            let again = RequestSettings { max_tokens: e.final_output_tokens, ..s };
            enforcement(e.messages, counts_left(messages, counts, source, s), source, again, model)
                == Ok::<EnforcementModel, Seq<char>>(
                untouched(e.messages, e.input_tokens, e.context_limit, again),
            )
        },
{
    if let Some(limit) = s.context_length {
        if 0 < limit < u32::MAX {
            law_accepted_prompt_fits(messages, counts, source, s, model, limit);
        }
    }
}

proof fn lemma_larger_window(
    messages: Seq<JsonModel>,
    counts: Seq<u32>,
    source: CountSource,
    s: RequestSettings,
    small: u32,
    large: u32,
)
    requires
        small <= large,
        small - safety_margin(small) <= large - safety_margin(large),
    ensures
        removals(messages, counts, source, s, large) <= removals(
            messages,
            counts,
            source,
            s,
            small,
        ),
    decreases messages.len(),
{
    let input = prompt_tokens(counts, source);
    assert(fits(input, s, small) ==> fits(input, s, large));
    lemma_first_removable(messages, 0);
    if !fits(input, s, small) && !fits(input, s, large) {
        if let Some(i) = first_removable(messages) {
            lemma_larger_window(messages.remove(i), counts.remove(i), source, s, small, large);
        }
    }
}

proof fn lemma_other_window(
    messages: Seq<JsonModel>,
    counts: Seq<u32>,
    source: CountSource,
    s: RequestSettings,
    other: RequestSettings,
    limit: u32,
)
    requires
        other.max_tokens == s.max_tokens,
        other.reasoning_budget == s.reasoning_budget,
    ensures
        removals(messages, counts, source, s, limit) == removals(
            messages,
            counts,
            source,
            other,
            limit,
        ),
    decreases messages.len(),
{
    lemma_first_removable(messages, 0);
    if let Some(i) = first_removable(messages) {
        lemma_other_window(messages.remove(i), counts.remove(i), source, s, other, limit);
    }
}

/// A larger window never removes more history, where it has no less room beside its margin than
/// the smaller one.
pub proof fn law_larger_window_removes_no_more(
    messages: Seq<JsonModel>,
    counts: Seq<u32>,
    source: CountSource,
    s: RequestSettings,
    model: Seq<char>,
    small: u32,
    large: u32,
)
    requires
        counts.len() == messages.len(),
        0 < small <= large,
        small - safety_margin(small) <= large - safety_margin(large),
    ensures
        ({
            let in_small = RequestSettings { context_length: Some(small), ..s };
            let in_large = RequestSettings { context_length: Some(large), ..s };
            enforcement(messages, counts, source, in_small, model) matches Ok(a) ==> (enforcement(
                messages,
                counts,
                source,
                in_large,
                model,
            ) matches Ok(b) ==> b.removed_count <= a.removed_count && b.messages.len()
                >= a.messages.len())
        }),
{
    let in_small = RequestSettings { context_length: Some(small), ..s };
    let in_large = RequestSettings { context_length: Some(large), ..s };
    law_fewest_removed(messages, counts, source, in_small, model);
    law_fewest_removed(messages, counts, source, in_large, model);
    lemma_larger_window(messages, counts, source, s, small, large);
    lemma_other_window(messages, counts, source, s, in_small, small);
    lemma_other_window(messages, counts, source, s, in_large, large);
}

proof fn lemma_chat_removals(assemblies: Seq<Assembly>, n: int, s: RequestSettings, limit: u32)
    requires
        0 <= n < assemblies.len(),
    ensures
        n <= chat_removals(assemblies, n, s, limit) < assemblies.len(),
    decreases assemblies.len() - n,
{
    if n + 1 >= assemblies.len() || fits(assembly_tokens(assemblies[n]), s, limit) {
    } else {
        lemma_chat_removals(assemblies, n + 1, s, limit);
    }
}

/// The pinned messages of a chat stay at its head, the current message stays at its end, and
/// every message that is missing is counted.
pub proof fn law_chat_keeps_pinned_and_current(
    chat: Seq<JsonModel>,
    assemblies: Seq<Assembly>,
    s: RequestSettings,
    model: Seq<char>,
    pinned: int,
)
    requires
        0 <= pinned < chat.len(),
        assemblies.len() == removable_in_chat(chat.len() as int, pinned) + 1,
    ensures
        chat_enforcement(chat, assemblies, s, model, pinned) matches Ok((left, e)) ==> {
            &&& left.len() > pinned
            &&& left.take(pinned) == chat.take(pinned)
            &&& left.last() == chat.last()
            &&& left.len() + e.removed_count == chat.len()
        },
{
    if let Some(limit) = s.context_length {
        lemma_chat_removals(assemblies, 0, s, limit);
        let n = chat_removals(assemblies, 0, s, limit);
        let left = chat_without(chat, pinned, n);
        assert(left.take(pinned) =~= chat.take(pinned));
    }
}

// ---------------------------------------------------------------------------
// What a window leaves
// ---------------------------------------------------------------------------

/// Places of a list, from the front to the back, that may be what is left of a prompt: the last
/// message and every message that neither the user nor the assistant wrote are among them, and
/// with a message that one of the two wrote all the later ones.
#[verifier::opaque]
pub open spec fn is_rest(messages: Seq<JsonModel>, at: Seq<int>) -> bool {
    &&& forall|k: int| 0 <= k < at.len() ==> 0 <= #[trigger] at[k] < messages.len()
    &&& forall|j: int, k: int| 0 <= j < k < at.len() ==> #[trigger] at[j] < #[trigger] at[k]
    &&& messages.len() > 0 ==> at.contains(messages.len() - 1)
    &&& forall|p: int|
        0 <= p < messages.len() && (#[trigger] messages[p]).get_str("role"@) != Some("user"@)
            && messages[p].get_str("role"@) != Some("assistant"@) ==> at.contains(p)
    &&& forall|p: int, q: int|
        0 <= p < q < messages.len() && at.contains(p) && ((#[trigger] messages[p]).get_str("role"@)
            == Some("user"@) || messages[p].get_str("role"@) == Some("assistant"@)) && ((
        #[trigger] messages[q]).get_str("role"@) == Some("user"@) || messages[q].get_str("role"@)
            == Some("assistant"@)) ==> at.contains(q)
}

/// The items at the given places.
pub open spec fn picked<A>(items: Seq<A>, at: Seq<int>) -> Seq<A> {
    Seq::new(at.len(), |k: int| items[at[k]])
}

/// The places left where `p` is taken out of a list, by their numbers in the shorter list.
spec fn without_place(at: Seq<int>, p: int) -> Seq<int> {
    Seq::new(
        at.len(),
        |k: int|
            if at[k] < p {
                at[k]
            } else {
                at[k] - 1
            },
    )
}

spec fn with_place(at: Seq<int>, p: int) -> Seq<int> {
    Seq::new(
        at.len(),
        |k: int|
            if at[k] < p {
                at[k]
            } else {
                at[k] + 1
            },
    )
}

/// The places of a whole list are those that are there.
proof fn lemma_sorted_places(at: Seq<int>, n: int)
    requires
        forall|k: int| 0 <= k < at.len() ==> 0 <= #[trigger] at[k] < n,
        forall|j: int, k: int| 0 <= j < k < at.len() ==> #[trigger] at[j] < #[trigger] at[k],
        n >= 0,
    ensures
        at.len() <= n,
        at.len() == n ==> forall|k: int| 0 <= k < n ==> #[trigger] at[k] == k,
    decreases n,
{
    if at.len() > 0 {
        if at.last() == n - 1 {
            let front = at.drop_last();
            assert forall|k: int| 0 <= k < front.len() implies 0 <= #[trigger] front[k] < n - 1 by {
                assert(at[k] < at[at.len() - 1]);
            }
            lemma_sorted_places(front, n - 1);
            if at.len() == n {
                assert forall|k: int| 0 <= k < n implies #[trigger] at[k] == k by {
                    if k < n - 1 {
                        assert(front[k] == k);
                    }
                }
            }
        } else {
            assert forall|k: int| 0 <= k < at.len() implies 0 <= #[trigger] at[k] < n - 1 by {
                if k < at.len() - 1 {
                    assert(at[k] < at[at.len() - 1]);
                }
            }
            lemma_sorted_places(at, n - 1);
        }
    }
}

/// What may be left of a list without its oldest history is left of the list itself too, and the
/// other way round unless everything is left.
proof fn lemma_rest_grows(messages: Seq<JsonModel>, i: int, at: Seq<int>)
    requires
        first_removable(messages) == Some(i),
        is_rest(messages.remove(i), at),
    ensures
        0 <= i < messages.len() - 1,
        is_rest(messages, with_place(at, i)),
        forall|k: int| 0 <= k < at.len() ==> 0 <= #[trigger] at[k] < messages.len() - 1,
{
    reveal(is_rest);
    lemma_first_removable(messages, 0);
    let less = messages.remove(i);
    let more = with_place(at, i);
    assert forall|p: int| 0 <= p < less.len() && at.contains(p) implies more.contains(
        if p < i {
            p
        } else {
            p + 1
        },
    ) by {
        let k = choose|k: int| 0 <= k < at.len() && at[k] == p;
        assert(more[k] == if p < i {
            p
        } else {
            p + 1
        });
    }
    assert(less.len() - 1 >= i);
    assert(more.contains(messages.len() - 1));
    assert forall|p: int|
        0 <= p < messages.len() && (#[trigger] messages[p]).get_str("role"@) != Some("user"@)
            && messages[p].get_str("role"@) != Some("assistant"@) implies more.contains(p) by {
        if p < i {
            assert(less[p] == messages[p]);
        } else {
            assert(less[p - 1] == messages[p]);
        }
    }
    assert forall|p: int, q: int|
        0 <= p < q < messages.len() && more.contains(p) && ((#[trigger] messages[p]).get_str(
            "role"@,
        ) == Some("user"@) || messages[p].get_str("role"@) == Some("assistant"@)) && ((
        #[trigger] messages[q]).get_str("role"@) == Some("user"@) || messages[q].get_str("role"@)
            == Some("assistant"@)) implies more.contains(q) by {
        let k = choose|k: int| 0 <= k < more.len() && more[k] == p;
        assert(is_history(messages[p]));
        assert(p >= i);
        assert(at[k] >= i);
        assert(less[p - 1] == messages[p]);
        assert(less[q - 1] == messages[q]);
        assert(at.contains(p - 1));
    }
}

proof fn lemma_rest_shrinks(messages: Seq<JsonModel>, i: int, at: Seq<int>)
    requires
        first_removable(messages) == Some(i),
        is_rest(messages, at),
        at.len() < messages.len(),
    ensures
        0 <= i < messages.len() - 1,
        is_rest(messages.remove(i), without_place(at, i)),
        with_place(without_place(at, i), i) == at,
        forall|k: int| 0 <= k < at.len() ==> #[trigger] at[k] != i,
{
    reveal(is_rest);
    lemma_first_removable(messages, 0);
    let less = messages.remove(i);
    let fewer = without_place(at, i);
    if at.contains(i) {
        assert forall|p: int| 0 <= p < messages.len() implies at.contains(p) by {
            if is_history(messages[p]) {
                assert(p >= i);
                if p > i {
                    assert(is_history(messages[i]));
                }
            }
        }
        let all = Seq::new(messages.len(), |k: int| k);
        assert forall|p: int| #[trigger] all.contains(p) implies at.contains(p) by {
            assert(0 <= p < messages.len());
        }
        lemma_covers(at, messages.len() as int);
    }
    assert forall|k: int| 0 <= k < at.len() implies at[k] != i by {}
    assert(with_place(fewer, i) =~= at);
    assert forall|j: int, k: int| 0 <= j < k < fewer.len() implies #[trigger] fewer[j]
        < #[trigger] fewer[k] by {
        assert(at[j] < at[k]);
    }
    assert forall|p: int| at.contains(p) && p != i implies fewer.contains(
        if p < i {
            p
        } else {
            p - 1
        },
    ) by {
        let k = choose|k: int| 0 <= k < at.len() && at[k] == p;
        assert(fewer[k] == if p < i {
            p
        } else {
            p - 1
        });
    }
    assert(fewer.contains(less.len() - 1));
    assert forall|p: int|
        0 <= p < less.len() && (#[trigger] less[p]).get_str("role"@) != Some("user"@)
            && less[p].get_str("role"@) != Some("assistant"@) implies fewer.contains(p) by {
        if p < i {
            assert(less[p] == messages[p]);
        } else {
            assert(less[p] == messages[p + 1]);
        }
    }
    assert forall|p: int, q: int|
        0 <= p < q < less.len() && fewer.contains(p) && ((#[trigger] less[p]).get_str("role"@)
            == Some("user"@) || less[p].get_str("role"@) == Some("assistant"@)) && ((
        #[trigger] less[q]).get_str("role"@) == Some("user"@) || less[q].get_str("role"@) == Some(
            "assistant"@,
        )) implies fewer.contains(q) by {
        let k = choose|k: int| 0 <= k < fewer.len() && fewer[k] == p;
        assert(is_history(less[p]));
        if p < i {
            assert(less[p] == messages[p]);
        }
        assert(less[p] == messages[p + 1]);
        assert(less[q] == messages[q + 1]);
        assert(at[k] == p + 1);
        assert(at.contains(p + 1));
    }
}

/// Sorted places that leave out none are as many as there are.
proof fn lemma_covers(at: Seq<int>, n: int)
    requires
        n >= 0,
        forall|k: int| 0 <= k < at.len() ==> 0 <= #[trigger] at[k] < n,
        forall|j: int, k: int| 0 <= j < k < at.len() ==> #[trigger] at[j] < #[trigger] at[k],
        forall|p: int| 0 <= p < n ==> at.contains(p),
    ensures
        at.len() == n,
    decreases n,
{
    if n == 0 {
        if at.len() > 0 {
            assert(at[0] < n);
        }
    } else {
        assert(at.contains(n - 1));
        let k = choose|k: int| 0 <= k < at.len() && at[k] == n - 1;
        if k < at.len() - 1 {
            assert(at[k] < at[at.len() - 1]);
        }
        let front = at.drop_last();
        assert forall|j: int| 0 <= j < front.len() implies 0 <= #[trigger] front[j] < n - 1 by {
            assert(at[j] < at[at.len() - 1]);
        }
        assert forall|p: int| 0 <= p < n - 1 implies front.contains(p) by {
            assert(at.contains(p));
            let j = choose|j: int| 0 <= j < at.len() && at[j] == p;
            assert(front[j] == p);
        }
        lemma_covers(front, n - 1);
    }
}

proof fn lemma_rest_sorted(messages: Seq<JsonModel>, at: Seq<int>)
    requires
        is_rest(messages, at),
    ensures
        at.len() <= messages.len(),
        forall|k: int| 0 <= k < at.len() ==> 0 <= #[trigger] at[k] < messages.len(),
        at.len() == messages.len() ==> forall|k: int| 0 <= k < at.len() ==> #[trigger] at[k] == k,
{
    reveal(is_rest);
    lemma_sorted_places(at, messages.len() as int);
}

proof fn lemma_whole_is_rest(messages: Seq<JsonModel>) -> (at: Seq<int>)
    ensures
        is_rest(messages, at),
        at.len() == messages.len(),
        forall|k: int| 0 <= k < at.len() ==> #[trigger] at[k] == k,
{
    reveal(is_rest);
    let at = Seq::new(messages.len(), |k: int| k);
    assert forall|p: int| 0 <= p < messages.len() implies at.contains(p) by {
        assert(at[p] == p);
    }
    at
}

/// What may be left of a list is what is left when its oldest history goes.
proof fn lemma_rest_is_trimmed(messages: Seq<JsonModel>, counts: Seq<u32>, at: Seq<int>)
    requires
        counts.len() == messages.len(),
        is_rest(messages, at),
    ensures
        at.len() <= messages.len(),
        picked(messages, at) == trimmed(messages, counts, (messages.len() - at.len()) as nat).0,
        picked(counts, at) == trimmed(messages, counts, (messages.len() - at.len()) as nat).1,
    decreases messages.len(),
{
    lemma_rest_sorted(messages, at);
    if at.len() == messages.len() {
        assert(picked(messages, at) =~= messages);
        assert(picked(counts, at) =~= counts);
    } else {
        match first_removable(messages) {
            Some(i) => {
                lemma_rest_shrinks(messages, i, at);
                let fewer = without_place(at, i);
                lemma_rest_is_trimmed(messages.remove(i), counts.remove(i), fewer);
                assert(picked(messages.remove(i), fewer) =~= picked(messages, at));
                assert(picked(counts.remove(i), fewer) =~= picked(counts, at));
            },
            None => {
                lemma_nothing_removable(messages, at);
            },
        }
    }
}

/// The places of what is left when so many messages are removed.
proof fn lemma_trimmed_is_rest(messages: Seq<JsonModel>, counts: Seq<u32>, n: nat) -> (at: Seq<int>)
    requires
        counts.len() == messages.len(),
    ensures
        is_rest(messages, at),
        picked(messages, at) == trimmed(messages, counts, n).0,
        picked(counts, at) == trimmed(messages, counts, n).1,
        at.len() + n >= messages.len(),
        at.len() + n > messages.len() ==> first_removable(trimmed(messages, counts, n).0) is None
            || n == 0,
    decreases n,
{
    lemma_first_removable(messages, 0);
    match first_removable(messages) {
        Some(i) if n > 0 => {
            let inner = lemma_trimmed_is_rest(messages.remove(i), counts.remove(i), (n - 1) as nat);
            lemma_rest_grows(messages, i, inner);
            let at = with_place(inner, i);
            assert(picked(messages, at) =~= picked(messages.remove(i), inner));
            assert(picked(counts, at) =~= picked(counts.remove(i), inner));
            at
        },
        _ => {
            let at = lemma_whole_is_rest(messages);
            assert(picked(messages, at) =~= messages);
            assert(picked(counts, at) =~= counts);
            at
        },
    }
}

/// A list from which nothing may be removed is all that may be left of it.
proof fn lemma_nothing_removable(messages: Seq<JsonModel>, at: Seq<int>)
    requires
        first_removable(messages) is None,
        is_rest(messages, at),
    ensures
        at.len() == messages.len(),
{
    reveal(is_rest);
    lemma_first_removable(messages, 0);
    assert forall|p: int| 0 <= p < messages.len() implies at.contains(p) by {
        if p < messages.len() - 1 {
            assert(!is_history(messages[p]));
        }
    }
    lemma_covers(at, messages.len() as int);
}

/// A message weighs its tokens and four more, a length estimate one token at least, and a tokenizer's
/// prompt has two tokens on top: the first message of a prompt and each further one cost that much,
/// as long as the sum goes into 32 bits.
pub proof fn law_prompt_tokens(counts: Seq<u32>, n: u32, source: CountSource)
    ensures
        prompt_tokens(Seq::empty(), source) == 0,
        n < u32::MAX - 6 ==> prompt_tokens(seq![n], source) == match source {
            CountSource::Tokenizer => n + 6,
            CountSource::LengthEstimate => if n == 0 {
                5
            } else {
                n + 4
            },
        },
        counts.len() > 0 && countable(counts.push(n), source) && total(counts.push(n), source) + 4
            * (counts.len() + 1) + 2 <= u32::MAX ==> prompt_tokens(counts.push(n), source)
            == prompt_tokens(counts, source) + 4 + (if n == 0 && source
            == CountSource::LengthEstimate {
            1
        } else {
            n as int
        }),
{
    reveal_with_fuel(total, 2);
    assert(counts.push(n).drop_last() =~= counts);
    assert(seq![n].drop_last() =~= Seq::empty());
    lemma_total_is_no_debt(counts, source);
}

proof fn lemma_total_is_no_debt(counts: Seq<u32>, source: CountSource)
    ensures
        total(counts, source) >= 0,
    decreases counts.len(),
{
    if counts.len() > 0 {
        lemma_total_is_no_debt(counts.drop_last(), source);
    }
}

/// The margin is a twentieth of the window, but for windows between 257 and 5119 tokens, where it
/// is 256 tokens.
pub proof fn law_margin(limit: u32)
    ensures
        256 < limit < 5120 ==> safety_margin(limit) == 256,
        limit <= 256 || 5120 <= limit ==> 20 * safety_margin(limit) <= limit < 20 * safety_margin(
            limit,
        ) + 20,
{
}

/// What is left of a prompt is the most that may be left of it with room for the output and the
/// reasoning that are asked for, or the least that may be left where nothing has room for them. The
/// output budget is then what the window has left, and a prompt is refused exactly where that is
/// below 16 tokens or nothing beside the reasoning.
pub proof fn law_window_leaves_the_most(
    messages: Seq<JsonModel>,
    counts: Seq<u32>,
    source: CountSource,
    s: RequestSettings,
    model: Seq<char>,
    limit: u32,
    reasoning: int,
    margin: int,
)
    requires
        counts.len() == messages.len(),
        s.context_length == Some(limit),
        0 < limit < u32::MAX,
        match s.reasoning_budget {
            Some(n) => reasoning == n,
            None => reasoning == 0,
        },
        256 < limit < 5120 ==> margin == 256,
        limit <= 256 || 5120 <= limit ==> 20 * margin <= limit < 20 * margin + 20,
    ensures
        exists|at: Seq<int>| #[trigger]
            is_rest(messages, at) && {
                let input = prompt_tokens(picked(counts, at), source);
                let roomy = input + s.max_tokens + reasoning + margin <= limit;
                let tight = input + margin + 16 > limit || (s.reasoning_budget is Some && input
                    + margin + reasoning >= limit);
                &&& forall|other: Seq<int>| #[trigger]
                    is_rest(messages, other) && other.len() > at.len() ==> prompt_tokens(
                        picked(counts, other),
                        source,
                    ) + s.max_tokens + reasoning + margin > limit
                &&& !roomy ==> forall|other: Seq<int>| #[trigger]
                    is_rest(messages, other) ==> other.len() >= at.len()
                &&& match enforcement(messages, counts, source, s, model) {
                    Ok(e) => {
                        &&& roomy || !tight
                        &&& e.messages == picked(messages, at)
                        &&& e.removed_count == messages.len() - at.len()
                        &&& e.input_tokens == input
                        &&& e.original_input_tokens == prompt_tokens(counts, source)
                        &&& e.context_limit == limit
                        &&& e.requested_output_tokens == s.max_tokens
                        &&& e.reasoning_budget == s.reasoning_budget
                        &&& e.final_output_tokens <= s.max_tokens
                        &&& roomy ==> e.final_output_tokens == s.max_tokens
                        &&& !roomy ==> e.final_output_tokens + input + reasoning + margin == limit
                    },
                    Err(_) => !roomy && tight,
                }
            },
{
    law_margin(limit);
    assert(margin == safety_margin(limit));
    assert(reasoning == reasoning_of(s));
    let n = removals(messages, counts, source, s, limit);
    lemma_trimmed_len(messages, counts, source, s, limit);
    let left = trimmed(messages, counts, n);
    let at = lemma_trimmed_is_rest(messages, counts, n);
    assert(at.len() == left.0.len());
    assert(trimmed(messages, counts, 0) == (messages, counts));
    let input = prompt_tokens(picked(counts, at), source);
    assert forall|other: Seq<int>| #[trigger]
        is_rest(messages, other) && other.len() > at.len() implies prompt_tokens(
        picked(counts, other),
        source,
    ) + s.max_tokens + reasoning + margin > limit by {
        lemma_rest_is_trimmed(messages, counts, other);
        let k = (messages.len() - other.len()) as nat;
        assert(k < n);
        assert(!fits(prompt_tokens(trimmed(messages, counts, k).1, source), s, limit));
    }
    if !fits(input, s, limit) {
        assert(first_removable(left.0) is None);
        assert forall|other: Seq<int>| #[trigger] is_rest(messages, other) implies other.len()
            >= at.len() by {
            lemma_shortest(messages, counts, n, at, other);
        }
    }
    lemma_settled_fits(input, s, limit, model);
}

/// Where nothing more may be removed, nothing shorter may be left.
proof fn lemma_shortest(
    messages: Seq<JsonModel>,
    counts: Seq<u32>,
    n: nat,
    at: Seq<int>,
    other: Seq<int>,
)
    requires
        counts.len() == messages.len(),
        first_removable(trimmed(messages, counts, n).0) is None,
        trimmed(messages, counts, n).0.len() == at.len(),
        at.len() + n == messages.len(),
        is_rest(messages, other),
    ensures
        other.len() >= at.len(),
    decreases messages.len(),
{
    lemma_rest_sorted(messages, other);
    match first_removable(messages) {
        Some(i) if n > 0 => {
            lemma_first_removable(messages, 0);
            if other.len() < messages.len() {
                lemma_rest_shrinks(messages, i, other);
                lemma_shortest(
                    messages.remove(i),
                    counts.remove(i),
                    (n - 1) as nat,
                    at,
                    without_place(other, i),
                );
            }
        },
        _ => {
            lemma_nothing_removable(messages, other);
        },
    }
}

/// Without a window nothing is removed and nothing cut off, and neither is it in the largest window
/// there is, where sums stop.
pub proof fn law_no_window_no_limit(
    messages: Seq<JsonModel>,
    counts: Seq<u32>,
    source: CountSource,
    s: RequestSettings,
    model: Seq<char>,
)
    ensures
        s.context_length is None || s.context_length == Some(0u32) || s.context_length == Some(
            u32::MAX,
        ) ==> (enforcement(messages, counts, source, s, model) matches Ok(e) && {
            &&& e.messages == messages
            &&& e.removed_count == 0
            &&& e.final_output_tokens == s.max_tokens
            &&& e.requested_output_tokens == s.max_tokens
            &&& e.input_tokens == prompt_tokens(counts, source)
            &&& e.original_input_tokens == e.input_tokens
            &&& e.reasoning_budget == s.reasoning_budget
            &&& e.context_limit == match s.context_length {
                Some(n) => n,
                None => 0,
            }
        }),
{
}

proof fn lemma_chat_removals_fewest(
    assemblies: Seq<Assembly>,
    n: int,
    s: RequestSettings,
    limit: u32,
)
    requires
        0 <= n < assemblies.len(),
    ensures
        ({
            let m = chat_removals(assemblies, n, s, limit);
            &&& n <= m < assemblies.len()
            &&& forall|k: int|
                n <= k < m ==> !fits(assembly_tokens(#[trigger] assemblies[k]), s, limit)
            &&& fits(assembly_tokens(assemblies[m]), s, limit) || m + 1 == assemblies.len()
        }),
    decreases assemblies.len() - n,
{
    if n + 1 >= assemblies.len() || fits(assembly_tokens(assemblies[n]), s, limit) {
    } else {
        lemma_chat_removals_fewest(assemblies, n + 1, s, limit);
    }
}

/// From a chat go the oldest messages behind the pinned ones, and no more of them than it takes: no
/// fuller prompt has room for the output and the reasoning that are asked for, and where the one
/// that is left has not, only the current message is left behind the pinned ones. The output budget
/// is then what the window has left, and the chat is refused exactly where that is below 16 tokens
/// or nothing beside the reasoning.
#[verifier::rlimit(50)]
pub proof fn law_chat_loses_the_fewest(
    chat: Seq<JsonModel>,
    assemblies: Seq<Assembly>,
    s: RequestSettings,
    model: Seq<char>,
    pinned: int,
    limit: u32,
    reasoning: int,
    margin: int,
)
    requires
        0 <= pinned,
        assemblies.len() == 1 + (if chat.len() > pinned + 1 {
            chat.len() - pinned - 1
        } else {
            0
        }),
        s.context_length == Some(limit),
        0 < limit < u32::MAX,
        match s.reasoning_budget {
            Some(n) => reasoning == n,
            None => reasoning == 0,
        },
        256 < limit < 5120 ==> margin == 256,
        limit <= 256 || 5120 <= limit ==> 20 * margin <= limit < 20 * margin + 20,
    ensures
        exists|n: int|
            0 <= n < assemblies.len() && {
                let prompt = #[trigger] assemblies[n];
                let input = prompt_tokens(prompt.counts.counts@, prompt.counts.source);
                let roomy = input + s.max_tokens + reasoning + margin <= limit;
                let tight = input + margin + 16 > limit || (s.reasoning_budget is Some && input
                    + margin + reasoning >= limit);
                &&& forall|k: int|
                    0 <= k < n ==> prompt_tokens(
                        (#[trigger] assemblies[k]).counts.counts@,
                        assemblies[k].counts.source,
                    ) + s.max_tokens + reasoning + margin > limit
                &&& !roomy ==> n == assemblies.len() - 1
                &&& match chat_enforcement(chat, assemblies, s, model, pinned) {
                    Ok((left, e)) => {
                        &&& roomy || !tight
                        &&& left.len() == chat.len() - n
                        &&& forall|k: int|
                            0 <= k < left.len() ==> #[trigger] left[k] == chat[if k < pinned {
                                k
                            } else {
                                k + n
                            }]
                        &&& e.messages == json_views(prompt.messages@)
                        &&& e.removed_count == n
                        &&& e.input_tokens == input
                        &&& e.original_input_tokens == prompt_tokens(
                            assemblies[0].counts.counts@,
                            assemblies[0].counts.source,
                        )
                        &&& e.context_limit == limit
                        &&& e.requested_output_tokens == s.max_tokens
                        &&& e.reasoning_budget == s.reasoning_budget
                        &&& e.final_output_tokens <= s.max_tokens
                        &&& roomy ==> e.final_output_tokens == s.max_tokens
                        &&& !roomy ==> e.final_output_tokens + input + reasoning + margin == limit
                    },
                    Err(_) => !roomy && tight,
                }
            },
{
    law_margin(limit);
    assert(margin == safety_margin(limit));
    assert(reasoning == reasoning_of(s));
    lemma_chat_removals_fewest(assemblies, 0, s, limit);
    let n = chat_removals(assemblies, 0, s, limit);
    let prompt = assemblies[n];
    lemma_settled_fits(assembly_tokens(prompt), s, limit, model);
    assert forall|k: int| 0 <= k < n implies prompt_tokens(
        (#[trigger] assemblies[k]).counts.counts@,
        assemblies[k].counts.source,
    ) + s.max_tokens + reasoning + margin > limit by {
        assert(!fits(assembly_tokens(assemblies[k]), s, limit));
    }
    if n > 0 {
        assert(!fits(assembly_tokens(assemblies[0]), s, limit));
    }
    let kept = chat_without(chat, pinned, n);
    assert(kept.len() == chat.len() - n);
    assert forall|k: int| 0 <= k < kept.len() implies #[trigger] kept[k] == chat[if k < pinned {
        k
    } else {
        k + n
    }] by {}
    let roomy = assembly_tokens(prompt) + s.max_tokens + reasoning + margin <= limit;
    assert(roomy == fits(assembly_tokens(prompt), s, limit));
    assert(!roomy ==> n == assemblies.len() - 1);
    let outcome = chat_enforcement(chat, assemblies, s, model, pinned);
    assert(outcome matches Ok((left, e)) ==> left == kept && e.messages == json_views(
        prompt.messages@,
    ) && e.removed_count == n);
}

/// A message is counted by its role and all of its text: a content that is a text as it stands, the
/// text parts of one that is a list. Parts of another kind count for nothing.
pub proof fn law_counted_text(
    msg: JsonModel,
    role: Seq<char>,
    s: Seq<char>,
    a: Seq<JsonModel>,
    part: JsonModel,
)
    ensures
        msg.get_str("role"@) == Some(role) && msg.get("content"@) == Some(JsonModel::Text(s))
            ==> counted_text(msg) == role + ": "@ + s,
        msg.get_str("role"@) == Some(role) && msg.get("content"@) == Some(JsonModel::Array(a))
            ==> counted_text(msg) == role + ": "@ + content_text(JsonModel::Array(a)),
        msg.get_str("role"@) is None && msg.get("content"@) == Some(JsonModel::Text(s))
            ==> counted_text(msg) == "unknown"@ + ": "@ + s,
        msg.get_str("role"@) == Some(role) && msg.get("content"@) is None ==> counted_text(msg)
            == role + ": "@,
        part.get_str("type"@) == Some("text"@) && part.get_str("text"@) == Some(s) ==> ({
            let before = content_text(JsonModel::Array(a));
            content_text(JsonModel::Array(a.push(part))) == (if before.len() > 0 {
                before + seq!['\n'] + s
            } else {
                s
            })
        }),
        part.get_str("type"@) != Some("text"@) || part.get_str("text"@) is None ==> content_text(
            JsonModel::Array(a.push(part)),
        ) == content_text(JsonModel::Array(a)),
        content_text(JsonModel::Array(Seq::empty())).len() == 0,
{
    assert(a.push(part).drop_last() =~= a);
    reveal_strlit("\n");
    assert("\n"@ =~= seq!['\n']);
    assert(role + ": "@ + Seq::<char>::empty() =~= role + ": "@);
}

/// A refusal tells how large the input is and why it is refused: because it exceeds the window
/// with its margin, because less than 16 tokens are left, or because reasoning needs what is left.
pub proof fn law_refusal_tells_why(input: u32, s: RequestSettings, limit: u32, model: Seq<char>)
    requires
        limit < u32::MAX,
    ensures
        ({
            let left = limit - input - safety_margin(limit);
            let said = tight_output(input, s, limit, model);
            &&& left <= 0 ==> (said matches Err(e) && ("Prompt configuration alone requires ~"@
                + decimal(input as nat)).is_prefix_of(e))
            &&& 0 < left < 16 ==> (said matches Err(e) && ("Prompt requires ~"@ + decimal(
                input as nat,
            ) + " tokens, leaving only "@ + decimal(left as nat)).is_prefix_of(e))
            &&& left >= 16 && s.reasoning_budget is Some && s.reasoning_budget->0 >= left ==> (said
                matches Err(e) && ("Prompt requires ~"@ + decimal(input as nat)
                + " tokens, leaving "@ + decimal(left as nat)
                + " tokens, but reasoning budget alone requires "@ + decimal(
                s.reasoning_budget->0 as nat,
            )).is_prefix_of(e))
            &&& left >= 16 && (s.reasoning_budget is None || s.reasoning_budget->0 < left)
                ==> said is Ok
        }),
{
}

} // verus!
