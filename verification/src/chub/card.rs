//! Character cards in PNG images.
use base64::Engine;
use std::io::Read;
use vstd::prelude::*;
use vstd::utf8::{decode_utf8, valid_utf8};

use crate::json::{json_parse, parse, Json, JsonModel};
use crate::text::{lower_ascii, opt_view, same, same_ignoring_case, trim, trim_str};

verus! {

// ---------------------------------------------------------------------------
// Bytes and texts
// ---------------------------------------------------------------------------

/// The text that bytes encode in UTF-8, where they do.
pub open spec fn utf8_text(bytes: Seq<u8>) -> Option<Seq<char>> {
    if valid_utf8(bytes) {
        Some(decode_utf8(bytes))
    } else {
        None
    }
}

/// `String::from_utf8`: succeeds exactly on valid UTF-8, and gives the characters that the bytes
/// encode.
#[verifier::external_body]
fn text_of_bytes(bytes: Vec<u8>) -> (r: Option<String>)
    ensures
        opt_view(r) == utf8_text(bytes@),
{
    String::from_utf8(bytes).ok()
}

/// The text that zlib data unpacks to, where it does.
pub uninterp spec fn zlib_text(bytes: Seq<u8>) -> Option<Seq<char>>;

/// `flate2::read::ZlibDecoder`, read to its end as text: the outcome depends on the bytes alone,
/// and `zlib_text` is the name for it. There is none where the data is no zlib stream or the text
/// no UTF-8.
#[verifier::external_body]
fn unpack_text(bytes: &Vec<u8>) -> (r: Option<String>)
    ensures
        opt_view(r) == zlib_text(bytes@),
{
    let mut text = String::new();
    flate2::read::ZlibDecoder::new(bytes.as_slice()).read_to_string(&mut text).ok().map(|_| text)
}

/// The bytes that a Base64 text stands for, where it does: in the standard or in the URL-safe
/// alphabet, with padding or without.
pub uninterp spec fn base64_bytes(text: Seq<char>, url_safe: bool, padded: bool) -> Option<Seq<u8>>;

pub open spec fn opt_bytes(v: Option<Vec<u8>>) -> Option<Seq<u8>> {
    match v {
        Some(bytes) => Some(bytes@),
        None => None,
    }
}

/// `base64::Engine::decode` with the general purpose engines `STANDARD`, `STANDARD_NO_PAD`,
/// `URL_SAFE` and `URL_SAFE_NO_PAD`: the outcome depends on the text and the engine alone, and
/// `base64_bytes` is the name for it.
#[verifier::external_body]
fn decode_base64(text: &str, url_safe: bool, padded: bool) -> (r: Option<Vec<u8>>)
    ensures
        opt_bytes(r) == base64_bytes(text@, url_safe, padded),
{
    let engine = match (url_safe, padded) {
        (false, true) => &base64::engine::general_purpose::STANDARD,
        (false, false) => &base64::engine::general_purpose::STANDARD_NO_PAD,
        (true, true) => &base64::engine::general_purpose::URL_SAFE,
        (true, false) => &base64::engine::general_purpose::URL_SAFE_NO_PAD,
    };
    engine.decode(text).ok()
}

/// `base64::Engine::encode` with the engine `STANDARD`: the text decodes to the same bytes again.
#[verifier::external_body]
pub(crate) fn encode_base64(bytes: &Vec<u8>) -> (r: String)
    requires
        bytes@.len() / 3 * 4 + 4 <= usize::MAX,
    ensures
        base64_bytes(r@, false, true) == Some(bytes@),
{
    base64::engine::general_purpose::STANDARD.encode(bytes)
}

/// A copy of the bytes from the place `from` up to the place `to`.
fn bytes_between(bytes: &Vec<u8>, from: usize, to: usize) -> (r: Vec<u8>)
    requires
        from <= to <= bytes@.len(),
    ensures
        r@ == bytes@.subrange(from as int, to as int),
{
    let mut out: Vec<u8> = Vec::new();
    for i in from..to
        invariant
            from <= to <= bytes@.len(),
            out@ == bytes@.subrange(from as int, i as int),
    {
        out.push(bytes[i]);
        assert(bytes@.subrange(from as int, i + 1) =~= bytes@.subrange(from as int, i as int).push(
            bytes@[i as int],
        ));
    }
    out
}

// ---------------------------------------------------------------------------
// Text chunks
// ---------------------------------------------------------------------------

/// The first place at or after `i` where a zero byte stands.
pub open spec fn zero_from(bytes: Seq<u8>, i: int) -> Option<int>
    decreases bytes.len() - i,
{
    if i >= bytes.len() {
        None
    } else if bytes[i] == 0 {
        Some(i)
    } else {
        zero_from(bytes, i + 1)
    }
}

fn find_zero(bytes: &Vec<u8>, from: usize) -> (r: Option<usize>)
    requires
        from <= bytes@.len(),
    ensures
        match r {
            Some(i) => zero_from(bytes@, from as int) == Some(i as int) && from <= i
                < bytes@.len(),
            None => zero_from(bytes@, from as int) is None,
        },
{
    for i in from..bytes.len()
        invariant
            from <= bytes@.len(),
            zero_from(bytes@, from as int) == zero_from(bytes@, i as int),
    {
        if bytes[i] == 0 {
            return Some(i);
        }
    }
    None
}

pub open spec fn keyword_and_text(keyword: Option<Seq<char>>, text: Option<Seq<char>>) -> Option<
    (Seq<char>, Seq<char>),
> {
    match (keyword, text) {
        (Some(k), Some(t)) => Some((k, t)),
        _ => None,
    }
}

/// A `tEXt` chunk: a keyword, a zero byte and the text.
pub open spec fn plain_chunk(chunk: Seq<u8>) -> Option<(Seq<char>, Seq<char>)> {
    match zero_from(chunk, 0) {
        Some(end) => if end == 0 {
            None
        } else {
            keyword_and_text(utf8_text(chunk.take(end)), utf8_text(chunk.skip(end + 1)))
        },
        None => None,
    }
}

/// A `zTXt` chunk: a keyword, a zero byte, the method, which is zlib, and the packed text.
pub open spec fn packed_chunk(chunk: Seq<u8>) -> Option<(Seq<char>, Seq<char>)> {
    match zero_from(chunk, 0) {
        Some(end) => if end == 0 || end + 2 > chunk.len() || chunk[end + 1] != 0 {
            None
        } else {
            keyword_and_text(utf8_text(chunk.take(end)), zlib_text(chunk.skip(end + 2)))
        },
        None => None,
    }
}

/// Where the text of an `iTXt` chunk starts, given where its language starts: behind the
/// language and the translated keyword, each of which a zero byte ends.
pub open spec fn text_start(chunk: Seq<u8>, language: int) -> Option<int> {
    match zero_from(chunk, language) {
        Some(a) => match zero_from(chunk, a + 1) {
            Some(b) => Some(b + 1),
            None => None,
        },
        None => None,
    }
}

/// An `iTXt` chunk: a keyword, a zero byte, whether the text is packed, the method, the language,
/// the translated keyword and the text.
pub open spec fn international_chunk(chunk: Seq<u8>) -> Option<(Seq<char>, Seq<char>)> {
    match zero_from(chunk, 0) {
        Some(end) => if end == 0 || end + 2 >= chunk.len() {
            None
        } else {
            match text_start(chunk, end + 3) {
                Some(start) => {
                    let text = if chunk[end + 1] == 1 {
                        if chunk[end + 2] == 0 {
                            zlib_text(chunk.skip(start))
                        } else {
                            None
                        }
                    } else {
                        utf8_text(chunk.skip(start))
                    };
                    keyword_and_text(utf8_text(chunk.take(end)), text)
                },
                None => None,
            }
        },
        None => None,
    }
}

/// The keyword and the text of a chunk, where it is a text chunk in good order.
pub open spec fn text_chunk(kind: Seq<char>, chunk: Seq<u8>) -> Option<(Seq<char>, Seq<char>)> {
    if kind == "tEXt"@ {
        plain_chunk(chunk)
    } else if kind == "zTXt"@ {
        packed_chunk(chunk)
    } else if kind == "iTXt"@ {
        international_chunk(chunk)
    } else {
        None
    }
}

pub open spec fn pair_view(v: Option<(String, String)>) -> Option<(Seq<char>, Seq<char>)> {
    match v {
        Some(p) => Some((p.0@, p.1@)),
        None => None,
    }
}

fn decode_plain_chunk(chunk: &Vec<u8>) -> (r: Option<(String, String)>)
    ensures
        pair_view(r) == plain_chunk(chunk@),
{
    let n: usize = chunk.len();
    let end: usize = match find_zero(chunk, 0) {
        Some(i) => i,
        None => {
            return None;
        },
    };
    if end == 0 {
        return None;
    }
    assert(chunk@.take(end as int) =~= chunk@.subrange(0, end as int));
    assert(chunk@.skip(end + 1) =~= chunk@.subrange(end + 1, n as int));
    match (text_of_bytes(bytes_between(chunk, 0, end)), text_of_bytes(
        bytes_between(chunk, end + 1, n),
    )) {
        (Some(k), Some(t)) => Some((k, t)),
        _ => None,
    }
}

fn decode_packed_chunk(chunk: &Vec<u8>) -> (r: Option<(String, String)>)
    ensures
        pair_view(r) == packed_chunk(chunk@),
{
    let n: usize = chunk.len();
    let end: usize = match find_zero(chunk, 0) {
        Some(i) => i,
        None => {
            return None;
        },
    };
    if end == 0 || n - end < 2 || chunk[end + 1] != 0 {
        return None;
    }
    assert(chunk@.take(end as int) =~= chunk@.subrange(0, end as int));
    assert(chunk@.skip(end + 2) =~= chunk@.subrange(end + 2, n as int));
    match (text_of_bytes(bytes_between(chunk, 0, end)), unpack_text(
        &bytes_between(chunk, end + 2, n),
    )) {
        (Some(k), Some(t)) => Some((k, t)),
        _ => None,
    }
}

fn decode_international_chunk(chunk: &Vec<u8>) -> (r: Option<(String, String)>)
    ensures
        pair_view(r) == international_chunk(chunk@),
{
    let n: usize = chunk.len();
    let end: usize = match find_zero(chunk, 0) {
        Some(i) => i,
        None => {
            return None;
        },
    };
    if end == 0 || n - end <= 2 {
        return None;
    }
    let language_end: usize = match find_zero(chunk, end + 3) {
        Some(i) => i,
        None => {
            return None;
        },
    };
    let keyword_end: usize = match find_zero(chunk, language_end + 1) {
        Some(i) => i,
        None => {
            return None;
        },
    };
    let start: usize = keyword_end + 1;
    assert(chunk@.take(end as int) =~= chunk@.subrange(0, end as int));
    assert(chunk@.skip(start as int) =~= chunk@.subrange(start as int, n as int));
    let rest = bytes_between(chunk, start, n);
    let text = if chunk[end + 1] == 1 {
        if chunk[end + 2] == 0 {
            unpack_text(&rest)
        } else {
            None
        }
    } else {
        text_of_bytes(rest)
    };
    match (text_of_bytes(bytes_between(chunk, 0, end)), text) {
        (Some(k), Some(t)) => Some((k, t)),
        _ => None,
    }
}

/// Reads a text chunk.
pub fn decode_png_text_chunk(chunk_type: &str, chunk: &Vec<u8>) -> (r: Option<(String, String)>)
    ensures
        pair_view(r) == text_chunk(chunk_type@, chunk@),
{
    if same(chunk_type, "tEXt") {
        decode_plain_chunk(chunk)
    } else if same(chunk_type, "zTXt") {
        decode_packed_chunk(chunk)
    } else if same(chunk_type, "iTXt") {
        decode_international_chunk(chunk)
    } else {
        None
    }
}

// ---------------------------------------------------------------------------
// The text of a card
// ---------------------------------------------------------------------------

/// A text that may be a card, and whether it reads as JSON.
#[derive(Debug)]
pub struct CardReading {
    pub text: String,
    pub is_json: bool,
}

pub open spec fn reading_views(readings: Seq<CardReading>) -> Seq<(Seq<char>, bool)> {
    readings.map_values(|x: CardReading| (x.text@, x.is_json))
}

/// The first reading of a list that is JSON.
pub open spec fn first_json(readings: Seq<(Seq<char>, bool)>) -> Option<Seq<char>>
    decreases readings.len(),
{
    if readings.len() == 0 {
        None
    } else if readings[0].1 {
        Some(readings[0].0)
    } else {
        first_json(readings.drop_first())
    }
}

/// Chooses the first reading that is JSON.
pub fn choose_card_text(readings: &Vec<CardReading>) -> (r: Option<String>)
    ensures
        opt_view(r) == first_json(reading_views(readings@)),
{
    let ghost all = reading_views(readings@);
    assert(all.skip(0) =~= all);
    for i in 0..readings.len()
        invariant
            all == reading_views(readings@),
            first_json(all) == first_json(all.skip(i as int)),
    {
        assert(all.skip(i as int)[0] == (readings@[i as int].text@, readings@[i as int].is_json));
        assert(all.skip(i as int).drop_first() =~= all.skip(i + 1));
        if readings[i].is_json {
            return Some(readings[i].text.clone());
        }
    }
    None
}

/// The reading of a text in one form of Base64, where it stands for a text.
pub open spec fn base64_reading(s: Seq<char>, url_safe: bool, padded: bool) -> Seq<
    (Seq<char>, bool),
> {
    match base64_bytes(s, url_safe, padded) {
        Some(bytes) => match utf8_text(bytes) {
            Some(t) => seq![(t, json_parse(t) is Ok)],
            None => Seq::empty(),
        },
        None => Seq::empty(),
    }
}

/// The readings of a text: the text itself, and what it stands for in the forms of Base64.
pub open spec fn card_readings(s: Seq<char>) -> Seq<(Seq<char>, bool)> {
    seq![(s, json_parse(s) is Ok)] + base64_reading(s, false, true) + base64_reading(
        s,
        false,
        false,
    ) + base64_reading(s, true, true) + base64_reading(s, true, false)
}

/// The JSON of a card, where a text is one.
pub open spec fn card_json(candidate: Seq<char>) -> Option<Seq<char>> {
    let s = trim(candidate);
    if s.len() == 0 {
        None
    } else {
        first_json(card_readings(s))
    }
}

fn push_reading(readings: &mut Vec<CardReading>, text: String)
    ensures
        reading_views(final(readings)@) == reading_views(old(readings)@).push(
            (text@, json_parse(text@) is Ok),
        ),
{
    let ghost before = readings@;
    let is_json = parse(text.as_str()).is_ok();
    let reading = CardReading { text, is_json };
    readings.push(reading);
    assert(reading_views(readings@) =~= reading_views(before).push((text@, is_json)));
}

fn push_base64_reading(readings: &mut Vec<CardReading>, s: &str, url_safe: bool, padded: bool)
    ensures
        reading_views(final(readings)@) == reading_views(old(readings)@) + base64_reading(
            s@,
            url_safe,
            padded,
        ),
{
    let ghost before = reading_views(readings@);
    if let Some(bytes) = decode_base64(s, url_safe, padded) {
        if let Some(t) = text_of_bytes(bytes) {
            push_reading(readings, t);
        }
    }
    assert(reading_views(readings@) =~= before + base64_reading(s@, url_safe, padded));
}

/// Finds the JSON of a card in a text.
pub fn try_parse_character_json(candidate: &str) -> (r: Option<String>)
    ensures
        opt_view(r) == card_json(candidate@),
{
    let s = trim_str(candidate);
    if s.is_empty() {
        return None;
    }
    let mut readings: Vec<CardReading> = Vec::new();
    push_reading(&mut readings, s.to_string());
    assert(reading_views(readings@) =~= seq![(s@, json_parse(s@) is Ok)]);
    push_base64_reading(&mut readings, s, false, true);
    push_base64_reading(&mut readings, s, false, false);
    push_base64_reading(&mut readings, s, true, true);
    push_base64_reading(&mut readings, s, true, false);
    choose_card_text(&readings)
}

// ---------------------------------------------------------------------------
// The card in an image
// ---------------------------------------------------------------------------

/// The eight bytes with which every PNG image begins.
pub open spec fn png_signature() -> Seq<u8> {
    seq![0x89u8, 0x50, 0x4e, 0x47, 0x0d, 0x0a, 0x1a, 0x0a]
}

/// The number that four bytes stand for, the highest first.
pub open spec fn big_endian(bytes: Seq<u8>, at: int) -> int {
    bytes[at] * 0x100_0000 + bytes[at + 1] * 0x1_0000 + bytes[at + 2] * 0x100 + bytes[at + 3]
}

/// The text chunks of an image from a place on, up to its end. There are none where a chunk does
/// not fit into the image or has no name.
pub open spec fn text_chunks(data: Seq<u8>, at: int) -> Option<Seq<(Seq<char>, Seq<char>)>>
    decreases data.len() - at,
{
    if at < 0 || at + 12 > data.len() {
        Some(Seq::empty())
    } else {
        let length = big_endian(data, at);
        if length < 0 || at + 12 + length > data.len() {
            None
        } else {
            match utf8_text(data.subrange(at + 4, at + 8)) {
                None => None,
                Some(kind) => if kind == "IEND"@ {
                    Some(Seq::empty())
                } else {
                    let here = match text_chunk(
                        kind,
                        data.subrange(at + 8, at + 8 + length),
                    ) {
                        Some(c) => seq![c],
                        None => Seq::empty(),
                    };
                    match text_chunks(data, at + 12 + length) {
                        Some(rest) => Some(here + rest),
                        None => None,
                    }
                },
            }
        }
    }
}

/// A keyword of an image and the card that its text holds, where it holds one.
#[derive(Debug)]
pub struct CardCandidate {
    pub keyword: String,
    pub card: Option<String>,
}

pub open spec fn candidate_views(candidates: Seq<CardCandidate>) -> Seq<
    (Seq<char>, Option<Seq<char>>),
> {
    candidates.map_values(|c: CardCandidate| (c.keyword@, opt_view(c.card)))
}

/// The first card under a keyword, in any case.
pub open spec fn card_under(
    candidates: Seq<(Seq<char>, Option<Seq<char>>)>,
    keyword: Seq<char>,
) -> Option<Seq<char>>
    decreases candidates.len(),
{
    if candidates.len() == 0 {
        None
    } else if lower_ascii(candidates[0].0) == lower_ascii(keyword) && candidates[0].1 is Some {
        candidates[0].1
    } else {
        card_under(candidates.drop_first(), keyword)
    }
}

/// The first card of all.
pub open spec fn any_card(candidates: Seq<(Seq<char>, Option<Seq<char>>)>) -> Option<Seq<char>>
    decreases candidates.len(),
{
    if candidates.len() == 0 {
        None
    } else if candidates[0].1 is Some {
        candidates[0].1
    } else {
        any_card(candidates.drop_first())
    }
}

pub open spec fn or_else(a: Option<Seq<char>>, b: Option<Seq<char>>) -> Option<Seq<char>> {
    match a {
        Some(_) => a,
        None => b,
    }
}

/// The card of an image: under the newest of the usual keywords, or else the first there is.
pub open spec fn preferred_card(candidates: Seq<(Seq<char>, Option<Seq<char>>)>) -> Option<
    Seq<char>,
> {
    or_else(
        card_under(candidates, "ccv3"@),
        or_else(
            card_under(candidates, "chara"@),
            or_else(card_under(candidates, "ccv2"@), any_card(candidates)),
        ),
    )
}

/// The text chunks as candidates for the card.
pub open spec fn candidates_of(chunks: Seq<(Seq<char>, Seq<char>)>) -> Seq<
    (Seq<char>, Option<Seq<char>>),
> {
    chunks.map_values(|c: (Seq<char>, Seq<char>)| (c.0, card_json(c.1)))
}

/// The JSON of the card in an image.
pub open spec fn card_of_png(data: Seq<u8>) -> Result<Seq<char>, Seq<char>> {
    if data.len() < 8 || data.take(8) != png_signature() {
        Err("Invalid PNG file"@)
    } else {
        match text_chunks(data, 8) {
            None => Err("Corrupted PNG metadata"@),
            Some(chunks) => match preferred_card(candidates_of(chunks)) {
                Some(card) => Ok(card),
                None => Err("PNG does not contain a supported character card payload"@),
            },
        }
    }
}

fn find_card_under(candidates: &Vec<CardCandidate>, keyword: &str) -> (r: Option<String>)
    ensures
        opt_view(r) == card_under(candidate_views(candidates@), keyword@),
{
    let ghost all = candidate_views(candidates@);
    assert(all.skip(0) =~= all);
    for i in 0..candidates.len()
        invariant
            all == candidate_views(candidates@),
            card_under(all, keyword@) == card_under(all.skip(i as int), keyword@),
    {
        let ghost c = candidates@[i as int];
        assert(all.skip(i as int)[0] == (c.keyword@, opt_view(c.card)));
        assert(all.skip(i as int).drop_first() =~= all.skip(i + 1));
        if same_ignoring_case(candidates[i].keyword.as_str(), keyword) {
            if let Some(card) = &candidates[i].card {
                return Some(card.clone());
            }
        }
    }
    None
}

fn find_any_card(candidates: &Vec<CardCandidate>) -> (r: Option<String>)
    ensures
        opt_view(r) == any_card(candidate_views(candidates@)),
{
    let ghost all = candidate_views(candidates@);
    assert(all.skip(0) =~= all);
    for i in 0..candidates.len()
        invariant
            all == candidate_views(candidates@),
            any_card(all) == any_card(all.skip(i as int)),
    {
        let ghost c = candidates@[i as int];
        assert(all.skip(i as int)[0] == (c.keyword@, opt_view(c.card)));
        assert(all.skip(i as int).drop_first() =~= all.skip(i + 1));
        if let Some(card) = &candidates[i].card {
            return Some(card.clone());
        }
    }
    None
}

/// Chooses the card among the candidates.
pub fn choose_card(candidates: &Vec<CardCandidate>) -> (r: Option<String>)
    ensures
        opt_view(r) == preferred_card(candidate_views(candidates@)),
{
    if let Some(card) = find_card_under(candidates, "ccv3") {
        return Some(card);
    }
    if let Some(card) = find_card_under(candidates, "chara") {
        return Some(card);
    }
    if let Some(card) = find_card_under(candidates, "ccv2") {
        return Some(card);
    }
    find_any_card(candidates)
}

fn has_signature(data: &Vec<u8>) -> (r: bool)
    ensures
        r == (data@.len() >= 8 && data@.take(8) == png_signature()),
{
    if data.len() < 8 {
        return false;
    }
    let r = data[0] == 0x89 && data[1] == 0x50 && data[2] == 0x4e && data[3] == 0x47 && data[4]
        == 0x0d && data[5] == 0x0a && data[6] == 0x1a && data[7] == 0x0a;
    proof {
        let s = png_signature();
        if r {
            assert(data@.take(8) =~= s);
        } else {
            assert(exists|i: int| 0 <= i < 8 && #[trigger] data@.take(8)[i] != s[i]) by {
                let t = data@.take(8);
                if t[0] == s[0] && t[1] == s[1] && t[2] == s[2] && t[3] == s[3] && t[4] == s[4]
                    && t[5] == s[5] && t[6] == s[6] {
                    assert(t[7] != s[7]);
                }
            }
        }
    }
    r
}

fn read_length(data: &Vec<u8>, at: usize) -> (r: usize)
    requires
        at + 4 <= data@.len(),
    ensures
        r == big_endian(data@, at as int),
{
    let n: usize = data.len();
    assert(at + 4 <= n);
    let a: u32 = data[at] as u32;
    let b: u32 = data[at + 1] as u32;
    let c: u32 = data[at + 2] as u32;
    let d: u32 = data[at + 3] as u32;
    (a * 0x100_0000 + b * 0x1_0000 + c * 0x100 + d) as usize
}

/// Finds the JSON of the card in a PNG image.
pub fn extract_character_json_from_png_bytes(data: &Vec<u8>) -> (r: Result<String, String>)
    ensures
        match r {
            Ok(card) => card_of_png(data@) == Ok::<Seq<char>, Seq<char>>(card@),
            Err(e) => card_of_png(data@) == Err::<Seq<char>, Seq<char>>(e@),
        },
{
    if !has_signature(data) {
        return Err("Invalid PNG file".to_string());
    }
    let n: usize = data.len();
    let mut at: usize = 8;
    let mut candidates: Vec<CardCandidate> = Vec::new();
    let ghost mut found: Seq<(Seq<char>, Seq<char>)> = Seq::empty();
    let mut ended = false;
    assert(candidate_views(candidates@) =~= candidates_of(found));
    proof {
        if let Some(rest) = text_chunks(data@, 8) {
            assert(found + rest =~= rest);
        }
    }
    while !ended && n - at >= 12
        invariant
            n == data@.len(),
            8 <= at <= n,
            data@.take(8) == png_signature(),
            candidate_views(candidates@) == candidates_of(found),
            ended ==> text_chunks(data@, 8) == Some(found),
            !ended ==> text_chunks(data@, 8) == (match text_chunks(data@, at as int) {
                Some(rest) => Some(found + rest),
                None => None,
            }),
        decreases n - at + (if ended {
            0int
        } else {
            1int
        }),
    {
        let length: usize = read_length(data, at);
        if length > n - at - 12 {
            return Err("Corrupted PNG metadata".to_string());
        }
        let kind = match text_of_bytes(bytes_between(data, at + 4, at + 8)) {
            Some(kind) => kind,
            None => {
                return Err("Corrupted PNG metadata".to_string());
            },
        };
        if same(kind.as_str(), "IEND") {
            ended = true;
            proof {
                assert(text_chunks(data@, at as int) == Some(
                    Seq::<(Seq<char>, Seq<char>)>::empty(),
                ));
                assert(found + Seq::<(Seq<char>, Seq<char>)>::empty() =~= found);
            }
        } else {
            let chunk = bytes_between(data, at + 8, at + 8 + length);
            let ghost before = found;
            let ghost place = at as int;
            let ghost next = place + 12 + length;
            if let Some((keyword, text)) = decode_png_text_chunk(kind.as_str(), &chunk) {
                let card = try_parse_character_json(text.as_str());
                let ghost old_candidates = candidates@;
                proof {
                    found = found.push((keyword@, text@));
                }
                let candidate = CardCandidate { keyword, card };
                candidates.push(candidate);
                proof {
                    let c = (keyword@, card_json(text@));
                    assert(candidate_views(candidates@) =~= candidate_views(old_candidates).push(c));
                    assert(candidates_of(found) =~= candidates_of(before).push(c));
                    if let Some(rest) = text_chunks(data@, next) {
                        assert(before + (seq![(keyword@, text@)] + rest) =~= found + rest);
                    }
                }
            } else {
                proof {
                    if let Some(rest) = text_chunks(data@, next) {
                        assert(Seq::<(Seq<char>, Seq<char>)>::empty() + rest =~= rest);
                    }
                }
            }
            at = at + 12 + length;
        }
    }
    proof {
        if !ended {
            assert(text_chunks(data@, at as int) == Some(
                Seq::<(Seq<char>, Seq<char>)>::empty(),
            ));
            assert(found + Seq::<(Seq<char>, Seq<char>)>::empty() =~= found);
        }
    }
    match choose_card(&candidates) {
        Some(card) => Ok(card),
        None => Err("PNG does not contain a supported character card payload".to_string()),
    }
}

/// The card in an image as a value, where there is one.
pub open spec fn card_value(data: Seq<u8>) -> Option<JsonModel> {
    match card_of_png(data) {
        Ok(card) => match json_parse(card) {
            Ok(v) => Some(v),
            Err(_) => None,
        },
        Err(_) => None,
    }
}

/// Reads the card in a PNG image.
pub fn read_card(data: &Vec<u8>) -> (r: Option<Json>)
    ensures
        match r {
            Some(v) => card_value(data@) == Some(v@),
            None => card_value(data@) is None,
        },
{
    match extract_character_json_from_png_bytes(data) {
        Ok(card) => match parse(card.as_str()) {
            Ok(v) => Some(v),
            Err(_) => None,
        },
        Err(_) => None,
    }
}

// ---------------------------------------------------------------------------
// Laws
// ---------------------------------------------------------------------------

proof fn lemma_first_json_holds(readings: Seq<(Seq<char>, bool)>)
    ensures
        first_json(readings) matches Some(t) ==> exists|i: int|
            0 <= i < readings.len() && #[trigger] readings[i] == (t, true),
    decreases readings.len(),
{
    if readings.len() > 0 && !readings[0].1 {
        let rest = readings.drop_first();
        lemma_first_json_holds(rest);
        if let Some(t) = first_json(readings) {
            let i = choose|i: int| 0 <= i < rest.len() && #[trigger] rest[i] == (t, true);
            assert(readings[i + 1] == (t, true));
        }
    } else if readings.len() > 0 {
        assert(readings[0] == (readings[0].0, true));
    }
}

proof fn lemma_readings_are_honest(s: Seq<char>, i: int)
    requires
        0 <= i < card_readings(s).len(),
    ensures
        card_readings(s)[i].1 == (json_parse(card_readings(s)[i].0) is Ok),
{
    let a = base64_reading(s, false, true);
    let b = base64_reading(s, false, false);
    let c = base64_reading(s, true, true);
    let d = base64_reading(s, true, false);
    assert(a.len() <= 1 && b.len() <= 1 && c.len() <= 1 && d.len() <= 1);
}

/// What is taken for a card always reads as JSON.
pub proof fn law_card_is_json(candidate: Seq<char>)
    ensures
        card_json(candidate) matches Some(t) ==> json_parse(t) is Ok,
{
    let s = trim(candidate);
    if let Some(t) = card_json(candidate) {
        lemma_first_json_holds(card_readings(s));
        let i = choose|i: int|
            0 <= i < card_readings(s).len() && #[trigger] card_readings(s)[i] == (t, true);
        lemma_readings_are_honest(s, i);
    }
}

/// The card that is found in an image always reads as JSON.
pub proof fn law_card_of_png_is_json(data: Seq<u8>)
    ensures
        card_of_png(data) matches Ok(t) ==> json_parse(t) is Ok,
{
    if let Some(chunks) = text_chunks(data, 8) {
        let all = candidates_of(chunks);
        lemma_chosen(all, chunks);
    }
}

proof fn lemma_chosen(
    candidates: Seq<(Seq<char>, Option<Seq<char>>)>,
    chunks: Seq<(Seq<char>, Seq<char>)>,
)
    requires
        candidates == candidates_of(chunks),
    ensures
        preferred_card(candidates) matches Some(t) ==> json_parse(t) is Ok,
{
    assert forall|i: int| 0 <= i < candidates.len() implies ((
    #[trigger] candidates[i]).1 matches Some(t) ==> json_parse(t) is Ok) by {
        law_card_is_json(chunks[i].1);
        assert(candidates[i].1 == card_json(chunks[i].1));
    }
    lemma_found(candidates, "ccv3"@);
    lemma_found(candidates, "chara"@);
    lemma_found(candidates, "ccv2"@);
}

proof fn lemma_found(candidates: Seq<(Seq<char>, Option<Seq<char>>)>, keyword: Seq<char>)
    requires
        forall|i: int|
            0 <= i < candidates.len() ==> ((#[trigger] candidates[i]).1 matches Some(t)
                ==> json_parse(t) is Ok),
    ensures
        card_under(candidates, keyword) matches Some(t) ==> json_parse(t) is Ok,
        any_card(candidates) matches Some(t) ==> json_parse(t) is Ok,
    decreases candidates.len(),
{
    if candidates.len() > 0 {
        let rest = candidates.drop_first();
        assert forall|i: int| 0 <= i < rest.len() implies ((
        #[trigger] rest[i]).1 matches Some(t) ==> json_parse(t) is Ok) by {
            assert(rest[i] == candidates[i + 1]);
        }
        assert(candidates[0].1 matches Some(t) ==> json_parse(t) is Ok);
        lemma_found(rest, keyword);
    }
}

/// A text that reads as JSON is its own card, but for the white space around it; one that does not
/// is read as Base64.
pub proof fn law_card_of_a_text(candidate: Seq<char>)
    ensures
        trim(candidate).len() == 0 ==> card_json(candidate) is None,
        trim(candidate).len() > 0 && json_parse(trim(candidate)) is Ok ==> card_json(candidate)
            == Some(trim(candidate)),
        trim(candidate).len() > 0 && json_parse(trim(candidate)) is Err ==> (base64_bytes(
            trim(candidate),
            false,
            true,
        ) matches Some(bytes) ==> (utf8_text(bytes) matches Some(t) ==> json_parse(t) is Ok
            ==> card_json(candidate) == Some(t))),
{
    let s = trim(candidate);
    let all = card_readings(s);
    assert(all[0] == (s, json_parse(s) is Ok));
    reveal_with_fuel(first_json, 3);
    if let Some(bytes) = base64_bytes(s, false, true) {
        if let Some(t) = utf8_text(bytes) {
            assert(all[1] == (t, json_parse(t) is Ok));
            assert(all.drop_first()[0] == all[1]);
        }
    }
}

/// A `tEXt` chunk that is put together of a keyword and a text is read as these.
pub proof fn law_plain_chunk(keyword: Seq<u8>, text: Seq<u8>)
    requires
        keyword.len() > 0,
        forall|i: int| 0 <= i < keyword.len() ==> #[trigger] keyword[i] != 0,
    ensures
        ({
            let read = text_chunk("tEXt"@, keyword + seq![0u8] + text);
            match (utf8_text(keyword), utf8_text(text)) {
                (Some(k), Some(t)) => read == Some((k, t)),
                _ => read is None,
            }
        }),
{
    let chunk = keyword + seq![0u8] + text;
    lemma_zero_behind(chunk, 0, keyword.len() as int);
    assert(chunk.take(keyword.len() as int) =~= keyword);
    assert(chunk.skip(keyword.len() as int + 1) =~= text);
}

proof fn lemma_zero_behind(bytes: Seq<u8>, i: int, end: int)
    requires
        0 <= i <= end < bytes.len(),
        bytes[end] == 0,
        forall|j: int| i <= j < end ==> #[trigger] bytes[j] != 0,
    ensures
        zero_from(bytes, i) == Some(end),
    decreases end - i,
{
    if i < end {
        assert(bytes[i] != 0);
        lemma_zero_behind(bytes, i + 1, end);
    }
}

/// A `zTXt` chunk that is put together of a keyword and a packed text is read as the keyword and the
/// unpacked text.
pub proof fn law_packed_chunk(keyword: Seq<u8>, packed: Seq<u8>)
    requires
        keyword.len() > 0,
        forall|i: int| 0 <= i < keyword.len() ==> #[trigger] keyword[i] != 0,
    ensures
        ({
            let read = text_chunk("zTXt"@, keyword + seq![0u8, 0u8] + packed);
            match (utf8_text(keyword), zlib_text(packed)) {
                (Some(k), Some(t)) => read == Some((k, t)),
                _ => read is None,
            }
        }),
{
    reveal_strlit("tEXt");
    reveal_strlit("zTXt");
    assert("tEXt"@[0] == 't' && "zTXt"@[0] == 'z');
    let chunk = keyword + seq![0u8, 0u8] + packed;
    lemma_zero_behind(chunk, 0, keyword.len() as int);
    assert(chunk.take(keyword.len() as int) =~= keyword);
    assert(chunk.skip(keyword.len() as int + 2) =~= packed);
}

/// An `iTXt` chunk that is put together of a keyword, a language, the keyword in that language and a
/// text is read as the keyword and the text, unpacked where it is packed.
pub proof fn law_international_chunk(
    keyword: Seq<u8>,
    is_packed: bool,
    language: Seq<u8>,
    translated: Seq<u8>,
    text: Seq<u8>,
)
    requires
        keyword.len() > 0,
        forall|i: int| 0 <= i < keyword.len() ==> #[trigger] keyword[i] != 0,
        forall|i: int| 0 <= i < language.len() ==> #[trigger] language[i] != 0,
        forall|i: int| 0 <= i < translated.len() ==> #[trigger] translated[i] != 0,
    ensures
        ({
            let flag: u8 = if is_packed {
                1
            } else {
                0
            };
            let chunk = keyword + seq![0u8, flag, 0u8] + language + seq![0u8] + translated
                + seq![0u8] + text;
            let body = if is_packed {
                zlib_text(text)
            } else {
                utf8_text(text)
            };
            let read = text_chunk("iTXt"@, chunk);
            match (utf8_text(keyword), body) {
                (Some(k), Some(t)) => read == Some((k, t)),
                _ => read is None,
            }
        }),
{
    reveal_strlit("tEXt");
    reveal_strlit("zTXt");
    reveal_strlit("iTXt");
    assert("tEXt"@[0] == 't' && "zTXt"@[0] == 'z' && "iTXt"@[0] == 'i');
    let flag: u8 = if is_packed {
        1
    } else {
        0
    };
    let head = keyword + seq![0u8, flag, 0u8];
    let chunk = head + language + seq![0u8] + translated + seq![0u8] + text;
    let k = keyword.len() as int;
    let a = head.len() + language.len();
    let b = a + 1 + translated.len();
    lemma_zero_behind(chunk, 0, k);
    lemma_zero_behind(chunk, k + 3, a as int);
    lemma_zero_behind(chunk, a as int + 1, b as int);
    assert(chunk.take(k) =~= keyword);
    assert(chunk.skip(b as int + 1) =~= text);
}

/// A chunk of another kind holds no text.
pub proof fn law_other_chunk(kind: Seq<char>, chunk: Seq<u8>)
    ensures
        kind != "tEXt"@ && kind != "zTXt"@ && kind != "iTXt"@ ==> text_chunk(kind, chunk) is None,
{
}

/// The chunks of an image follow one another, each with its length and its name before it and its
/// checksum behind it.
pub proof fn law_chunks_follow(
    before: Seq<u8>,
    length: Seq<u8>,
    kind: Seq<u8>,
    body: Seq<u8>,
    checksum: Seq<u8>,
    behind: Seq<u8>,
)
    requires
        length.len() == 4,
        kind.len() == 4,
        checksum.len() == 4,
        body.len() == length[0] * 0x100_0000 + length[1] * 0x1_0000 + length[2] * 0x100 + length[3],
        utf8_text(kind) is Some,
        utf8_text(kind) != Some("IEND"@),
    ensures
        ({
            let data = before + length + kind + body + checksum + behind;
            let name = utf8_text(kind)->0;
            let rest = text_chunks(data, (before.len() + 12 + body.len()) as int);
            text_chunks(data, before.len() as int) == match rest {
                Some(later) => Some(
                    match text_chunk(name, body) {
                        Some(c) => seq![c] + later,
                        None => later,
                    },
                ),
                None => None,
            }
        }),
{
    let data = before + length + kind + body + checksum + behind;
    let at = before.len() as int;
    assert(big_endian(data, at) == body.len());
    assert(data.subrange(at + 4, at + 8) =~= kind);
    assert(data.subrange(at + 8, at + 8 + body.len()) =~= body);
    if let Some(later) = text_chunks(data, at + 12 + body.len()) {
        assert(Seq::<(Seq<char>, Seq<char>)>::empty() + later =~= later);
    }
}

proof fn lemma_card_under_first(
    candidates: Seq<(Seq<char>, Option<Seq<char>>)>,
    keyword: Seq<char>,
    i: int,
)
    requires
        0 <= i <= candidates.len(),
        forall|j: int|
            0 <= j < i ==> lower_ascii((#[trigger] candidates[j]).0) != lower_ascii(keyword)
                || candidates[j].1 is None,
        i < candidates.len() ==> lower_ascii(candidates[i].0) == lower_ascii(keyword)
            && candidates[i].1 is Some,
    ensures
        card_under(candidates, keyword) == (if i < candidates.len() {
            candidates[i].1
        } else {
            None
        }),
    decreases candidates.len(),
{
    if candidates.len() > 0 && i > 0 {
        let rest = candidates.drop_first();
        assert forall|j: int| 0 <= j < i - 1 implies lower_ascii((#[trigger] rest[j]).0)
            != lower_ascii(keyword) || rest[j].1 is None by {
            assert(rest[j] == candidates[j + 1]);
        }
        assert(lower_ascii(candidates[0].0) != lower_ascii(keyword) || candidates[0].1 is None);
        lemma_card_under_first(rest, keyword, i - 1);
    }
}

/// A card under the keyword `ccv3` goes before one under `chara`, that before one under `ccv2`, and
/// that before any other; of several cards under one keyword the first counts. Keywords are compared
/// in any case.
pub proof fn law_card_preference(candidates: Seq<(Seq<char>, Option<Seq<char>>)>, i: int)
    requires
        0 <= i < candidates.len(),
        candidates[i].1 is Some,
    ensures
        preferred_card(candidates) is Some,
        lower_ascii(candidates[i].0) == lower_ascii("ccv3"@) && (forall|j: int|
            0 <= j < i ==> lower_ascii((#[trigger] candidates[j]).0) != lower_ascii("ccv3"@)
                || candidates[j].1 is None) ==> preferred_card(candidates) == candidates[i].1,
        lower_ascii(candidates[i].0) == lower_ascii("chara"@) && (forall|j: int|
            0 <= j < candidates.len() ==> lower_ascii((#[trigger] candidates[j]).0) != lower_ascii(
                "ccv3"@,
            ) || candidates[j].1 is None) && (forall|j: int|
            0 <= j < i ==> lower_ascii((#[trigger] candidates[j]).0) != lower_ascii("chara"@)
                || candidates[j].1 is None) ==> preferred_card(candidates) == candidates[i].1,
{
    if lower_ascii(candidates[i].0) == lower_ascii("ccv3"@) && forall|j: int|
        0 <= j < i ==> lower_ascii((#[trigger] candidates[j]).0) != lower_ascii("ccv3"@)
            || candidates[j].1 is None {
        lemma_card_under_first(candidates, "ccv3"@, i);
    }
    if forall|j: int|
        0 <= j < candidates.len() ==> lower_ascii((#[trigger] candidates[j]).0) != lower_ascii(
            "ccv3"@,
        ) || candidates[j].1 is None {
        lemma_card_under_first(candidates, "ccv3"@, candidates.len() as int);
    }
    if lower_ascii(candidates[i].0) == lower_ascii("chara"@) && forall|j: int|
        0 <= j < i ==> lower_ascii((#[trigger] candidates[j]).0) != lower_ascii("chara"@)
            || candidates[j].1 is None {
        lemma_card_under_first(candidates, "chara"@, i);
    }
    lemma_any_card(candidates, i);
}

proof fn lemma_any_card(candidates: Seq<(Seq<char>, Option<Seq<char>>)>, i: int)
    requires
        0 <= i < candidates.len(),
        candidates[i].1 is Some,
    ensures
        any_card(candidates) is Some,
    decreases candidates.len(),
{
    if candidates[0].1 is None {
        lemma_any_card(candidates.drop_first(), i - 1);
    }
}

} // verus!
