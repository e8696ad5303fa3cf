use base64::Engine;
use haven_core::chub::card::{
    choose_card, choose_card_text, decode_png_text_chunk, extract_character_json_from_png_bytes,
    read_card, try_parse_character_json, CardCandidate, CardReading,
};
use haven_core::chub::detail::{
    conclude_detail, detail_cache_key, detail_url, plan_detail, read_detail, show_record,
};
use haven_core::chub::fields::{bool_field, str_field, string_array_field, u64_field};
use haven_core::chub::import::{
    avatar_entity_id, avatar_upload, avatar_url, begin_import, book_to_import, card_url,
    character_record, complete_import, definition_blocks, fields_of_node, fill_from_card,
    find_imported_character_id, gather_fields, greet_session, import_character, import_status,
    join_definition, plan_import, scene_contents, stamp_import, start_import, ImportPlan,
    ImportRecord, ImportStart, ImportStep,
};
use haven_core::chub::lorebook::{import_character_book, stamp_lorebook};
use haven_core::chub::search::{
    api_key_header, chub_error_message, conclude_search, extract_detail_node, extract_nodes,
    extract_u64, is_pure_mode_off, plan_search, sanitize_full_path, search_cache_key,
    search_error_message, search_params, search_result, search_url, CatalogReply, SearchRequest,
};
use haven_core::chub::tags::{
    advance_tag_search, catalog_params, conclude_tags, derive_tags, listed_tags, plan_tags,
    tag_params, tag_urls, tags_cache_key, tags_of_body, TagRequest, TagSearch,
};
use haven_core::json::{parse, print, Json};
use haven_core::stamp::new_ids;
use std::io::Write;

fn json(text: &str) -> Json {
    parse(text).unwrap()
}

fn search() -> SearchRequest {
    SearchRequest {
        query: None,
        tags: None,
        page: None,
        page_size: None,
        sort: None,
        api_key: None,
    }
}

fn value_of<'a>(params: &'a Vec<(String, String)>, name: &str) -> Option<&'a str> {
    params.iter().find(|(n, _)| n == name).map(|(_, v)| v.as_str())
}

// Fields

#[test]
fn fields_go_by_several_names() {
    let node = json(r#"{"a":" ","b":5,"c":2.5,"d":true,"e":-1,"t":["x"," ",{"name":"y"},{"name":1},3]}"#);
    assert_eq!(str_field(&node, &vec!["a", "b"]), Some("5".to_string()));
    assert_eq!(str_field(&node, &vec!["a", "z"]), None);
    assert_eq!(u64_field(&node, &vec!["a", "c"]), Some(2));
    assert_eq!(u64_field(&node, &vec!["e"]), None);
    assert_eq!(bool_field(&node, &vec!["b", "d"]), Some(true));
    assert_eq!(string_array_field(&node, "t"), vec!["x", "y"]);
    assert!(string_array_field(&node, "a").is_empty());
}

// Searching

#[test]
fn keys_that_do_not_fit_a_header_are_not_sent() {
    assert_eq!(api_key_header(Some(" abc ")), Some("abc"));
    assert_eq!(api_key_header(Some("a\tb")), Some("a\tb"));
    assert_eq!(api_key_header(Some("a\nb")), None);
    assert_eq!(api_key_header(Some("a\u{7f}b")), None);
    assert_eq!(api_key_header(Some("ä")), Some("ä"));
    assert_eq!(api_key_header(Some("  ")), None);
    assert_eq!(api_key_header(None), None);
}

#[test]
fn paths_are_cleaned() {
    assert_eq!(sanitize_full_path(" /author/name/ "), Ok("author/name".to_string()));
    let bad = Err("Invalid character path".to_string());
    assert_eq!(sanitize_full_path(""), bad);
    assert_eq!(sanitize_full_path("a/../b"), bad);
    assert_eq!(sanitize_full_path("https://a/b"), bad);
    let pair = Err("Invalid character path (expected author/character)".to_string());
    assert_eq!(sanitize_full_path("a"), pair);
    assert_eq!(sanitize_full_path("a/b/c"), pair);
    assert_eq!(sanitize_full_path("a/ "), Err("Invalid character path (expected author/character)".to_string()));
}

#[test]
fn statuses_have_their_messages() {
    assert_eq!(chub_error_message(429), "Chub rate limit reached. Wait a moment and try again.");
    assert_eq!(chub_error_message(401), chub_error_message(403));
    assert!(chub_error_message(404).starts_with("Character not found on Chub"));
    assert_eq!(chub_error_message(400), "Chub rejected this request as invalid.");
    assert_eq!(chub_error_message(500), "Chub request failed (500). Please try again later.");
    assert_eq!(
        search_error_message(500, "500 Internal Server Error"),
        "Unable to load characters right now (500 Internal Server Error). Please try again."
    );
    assert!(search_error_message(403, "403").ends_with("or the API key may be invalid."));
    assert_eq!(search_error_message(429, ""), chub_error_message(429));
}

#[test]
fn a_search_is_asked_for_within_bounds() {
    let mut request = search();
    assert_eq!(search_cache_key(&request), "chub:search:::1:15:trending:authfalse");
    request.query = Some(" cat ".to_string());
    request.tags = Some(vec![" a ".to_string(), " ".to_string(), "b".to_string()]);
    request.page = Some(0);
    request.page_size = Some(100);
    request.sort = Some(" new ".to_string());
    request.api_key = Some("k".to_string());
    assert_eq!(search_cache_key(&request), "chub:search:cat:a,b:1:25: new :authtrue");
    let params = search_params(&request, is_pure_mode_off("off"));
    assert_eq!(params.len(), 12);
    assert_eq!(params[0], ("first".to_string(), "25".to_string()));
    assert_eq!(value_of(&params, "nsfw"), Some("true"));
    assert_eq!(value_of(&params, "search"), Some("cat"));
    assert_eq!(value_of(&params, "topics"), Some("a,b"));
    let pure = search_params(&search(), is_pure_mode_off("standard"));
    assert_eq!(pure.len(), 10);
    assert_eq!(value_of(&pure, "nsfl"), Some("false"));
    assert_eq!(search_url(), "https://gateway.chub.ai/search");
}

#[test]
fn records_are_found_wherever_they_stand() {
    let count = |text: &str| extract_nodes(&json(text)).len();
    assert_eq!(count(r#"{"nodes":[1,2]}"#), 2);
    assert_eq!(count(r#"{"data":{"nodes":[1]}}"#), 1);
    assert_eq!(count(r#"{"data":[1,2,3]}"#), 3);
    assert_eq!(count(r#"{"data":{"id":1}}"#), 1);
    assert_eq!(count("[1]"), 1);
    assert_eq!(count("{}"), 0);
    assert_eq!(extract_u64(&json(r#"{"data":{"b":4},"a":"x"}"#), &vec!["a", "b"]), Some(4));
    assert_eq!(print(&extract_detail_node(&json(r#"{"node":{}}"#))), "{}");
    assert_eq!(print(&extract_detail_node(&json(r#"{"data":{"name":"x"}}"#))), r#"{"name":"x"}"#);
    assert_eq!(print(&extract_detail_node(&json(r#"{"id":3}"#))), r#"{"id":3}"#);
    assert!(extract_detail_node(&json("[]")).is_null());
}

#[test]
fn a_page_is_made_of_a_reply() {
    let body = json(
        r#"{"data":{"nodes":[{"id":1,"nsfw":true},{"id":2},{"id":3,"nsfw":false}],"total_pages":4},"count":9}"#,
    );
    let pure = search_result(&body, 2, false);
    assert_eq!(pure.nodes.len(), 2);
    assert_eq!(pure.page, 2);
    assert_eq!(pure.total_pages, Some(4));
    assert_eq!(pure.total_nodes, Some(9));
    assert_eq!(search_result(&body, 1, true).nodes.len(), 3);
}

fn refused(status: u16) -> CatalogReply {
    CatalogReply::Refused { status, status_text: format!("{} X", status) }
}

#[test]
fn a_search_is_planned_and_concluded() {
    let mut request = search();
    request.page = Some(3);
    request.api_key = Some(" k ".to_string());
    let plan = plan_search(&request, None, false);
    assert_eq!(plan.cache_key, "chub:search:::3:15:trending:authtrue");
    assert!(plan.looks_in_cache);
    assert_eq!(plan.url, "https://gateway.chub.ai/search");
    assert_eq!(value_of(&plan.params, "page"), Some("3"));
    assert_eq!(value_of(&plan.params, "nsfw"), Some("false"));
    assert_eq!(plan.key, Some("k".to_string()));
    assert!(plan_search(&request, Some(false), true).looks_in_cache);
    assert!(!plan_search(&request, Some(true), true).looks_in_cache);
    let found =
        conclude_search(CatalogReply::Body(json(r#"[{"nsfw":true},{}]"#)), &request, false);
    let found = found.unwrap();
    assert_eq!((found.page, found.nodes.len()), (3, 1));
    let failed = |reply| conclude_search(reply, &request, false).unwrap_err();
    assert_eq!(failed(CatalogReply::Unsent("no route".to_string())), "no route");
    assert_eq!(failed(CatalogReply::Unreadable("no json".to_string())), "no json");
    assert_eq!(
        failed(refused(500)),
        "Unable to load characters right now (500 X). Please try again."
    );
}

// Tags

#[test]
fn tags_are_asked_for_within_bounds() {
    let request = TagRequest { search: Some(" x ".to_string()), limit: Some(9999) };
    assert_eq!(tags_cache_key(&request), "chub:tags:x:500");
    let params = tag_params(&request);
    assert_eq!(value_of(&params, "first"), Some("500"));
    assert_eq!(value_of(&params, "search"), Some("x"));
    let plain = TagRequest { search: None, limit: None };
    assert_eq!(tags_cache_key(&plain), "chub:tags::100");
    assert_eq!(tag_params(&plain).len(), 4);
    let urls = tag_urls();
    assert_eq!(urls.len(), 6);
    assert_eq!(urls[0], "https://gateway.chub.ai/api/tags/characters");
    assert_eq!(urls[5], "https://api.chub.ai/api/tags");
    assert_eq!(value_of(&catalog_params(true), "nsfw"), Some("true"));
    assert_eq!(catalog_params(false).len(), 9);
}

#[test]
fn listed_tags_are_read() {
    let body = json(r#"[{"name":"a","count":3},{"label":"b","n_characters":2.9},{"count":1},{"tag":"c"}]"#);
    let tags: Vec<(String, Option<u64>)> =
        tags_of_body(&body).into_iter().map(|t| (t.name, t.count)).collect();
    assert_eq!(
        tags,
        vec![("a".to_string(), Some(3)), ("b".to_string(), Some(2)), ("c".to_string(), None)]
    );
    assert!(listed_tags(&body).is_some());
    assert!(listed_tags(&json("[]")).is_none());
}

#[test]
fn tags_are_counted_and_ordered() {
    let body = json(
        r#"[{"tags":["x"," y "],"topics":["x"]},{"tags":[{"name":"y"},"w"]},{"topics":["z","y"]}]"#,
    );
    let tags: Vec<(String, Option<u64>)> =
        derive_tags(&body).into_iter().map(|t| (t.name, t.count)).collect();
    assert_eq!(
        tags,
        vec![
            ("y".to_string(), Some(3)),
            ("x".to_string(), Some(2)),
            ("w".to_string(), Some(1)),
            ("z".to_string(), Some(1)),
        ]
    );
    let many: Vec<String> = (0..150).map(|i| format!("\"t{:03}\"", i)).collect();
    let catalog = json(&format!("[{{\"tags\":[{}]}}]", many.join(",")));
    let shown = conclude_tags(CatalogReply::Body(catalog)).unwrap();
    assert_eq!(shown.len(), 100);
    assert_eq!(shown[99].name, "t099");
    let none = "No tags available from Chub right now.";
    assert_eq!(conclude_tags(CatalogReply::Body(json("[]"))).unwrap_err(), none);
    assert_eq!(conclude_tags(refused(500)).unwrap_err(), none);
    assert_eq!(conclude_tags(CatalogReply::Unsent("x".to_string())).unwrap_err(), "x");
    assert_eq!(conclude_tags(CatalogReply::Unreadable("y".to_string())).unwrap_err(), "y");
}

#[test]
fn places_are_asked_for_tags_until_one_answers() {
    let plan = plan_tags(&TagRequest { search: None, limit: Some(0) }, Some(true));
    assert_eq!(plan.cache_key, "chub:tags::1");
    assert!(!plan.looks_in_cache);
    assert_eq!(plan.urls.len(), 6);
    assert_eq!(value_of(&plan.params, "first"), Some("1"));
    for place in 0..5 {
        assert!(matches!(advance_tag_search(place, refused(404)), TagSearch::Asking(n) if n == place + 1));
    }
    assert!(matches!(advance_tag_search(5, refused(404)), TagSearch::Counting));
    let empty = CatalogReply::Body(json("{}"));
    assert!(matches!(advance_tag_search(0, empty), TagSearch::Counting));
    let unread = CatalogReply::Unreadable("x".to_string());
    assert!(matches!(advance_tag_search(2, unread), TagSearch::Asking(3)));
    match advance_tag_search(3, CatalogReply::Body(json(r#"[{"name":"a"}]"#))) {
        TagSearch::Found(tags) => assert_eq!(tags[0].name, "a"),
        other => panic!("{:?}", other),
    }
}

// Records

#[test]
fn records_are_shown_unless_pure_mode_forbids() {
    assert_eq!(detail_cache_key("a/b", &None), "chub:detail:a/b:authfalse");
    assert_eq!(detail_cache_key("a/b", &Some("k".to_string())), "chub:detail:a/b:authtrue");
    assert_eq!(detail_url("a/b"), "https://gateway.chub.ai/api/characters/a/b?full=true");
    let unsafe_body = json(r#"{"node":{"id":1,"nsfw":true}}"#);
    assert!(read_detail(&unsafe_body, true).is_ok());
    assert_eq!(
        read_detail(&unsafe_body, false).unwrap_err(),
        "NSFW content is blocked in Pure Mode"
    );
    assert_eq!(
        read_detail(&json("[]"), true).unwrap_err(),
        "Character not found or unsupported response from Chub."
    );
    assert!(show_record(json(r#"{"nsfw":true}"#), false).is_err());
    assert!(show_record(json(r#"{"nsfw":false}"#), false).is_ok());
}

#[test]
fn a_record_is_planned_and_concluded() {
    let plan = plan_detail("/a/b/", &Some("k".to_string())).unwrap();
    assert_eq!(plan.path, "a/b");
    assert_eq!(plan.cache_key, "chub:detail:a/b:authtrue");
    assert_eq!(plan.url, "https://gateway.chub.ai/api/characters/a/b?full=true");
    assert_eq!(plan.key, Some("k".to_string()));
    assert_eq!(plan_detail("a", &None).unwrap_err(), sanitize_full_path("a").unwrap_err());
    let body = CatalogReply::Body(json(r#"{"node":{"id":1}}"#));
    assert_eq!(print(&conclude_detail(body, false).unwrap()), r#"{"id":1}"#);
    let blocked = CatalogReply::Body(json(r#"{"node":{"nsfw":true}}"#));
    assert!(conclude_detail(blocked, false).is_err());
    assert_eq!(conclude_detail(refused(404), true).unwrap_err(), chub_error_message(404));
    assert_eq!(conclude_detail(CatalogReply::Unsent("x".to_string()), true).unwrap_err(), "x");
    assert_eq!(conclude_detail(CatalogReply::Unreadable("y".to_string()), true).unwrap_err(), "y");
}

// Cards

fn chunk(kind: &str, data: &[u8]) -> Vec<u8> {
    let mut out = (data.len() as u32).to_be_bytes().to_vec();
    out.extend_from_slice(kind.as_bytes());
    out.extend_from_slice(data);
    out.extend_from_slice(&[0, 0, 0, 0]);
    out
}

fn png(chunks: Vec<Vec<u8>>) -> Vec<u8> {
    let mut out = vec![0x89, b'P', b'N', b'G', b'\r', b'\n', 0x1a, b'\n'];
    for c in chunks {
        out.extend(c);
    }
    out.extend(chunk("IEND", &[]));
    out
}

fn packed(text: &str) -> Vec<u8> {
    let mut encoder =
        flate2::write::ZlibEncoder::new(Vec::new(), flate2::Compression::default());
    encoder.write_all(text.as_bytes()).unwrap();
    encoder.finish().unwrap()
}

#[test]
fn text_chunks_are_decoded() {
    assert_eq!(
        decode_png_text_chunk("tEXt", &b"chara\0hello".to_vec()),
        Some(("chara".to_string(), "hello".to_string()))
    );
    let mut zipped = b"chara\0\0".to_vec();
    zipped.extend(packed("packed text"));
    assert_eq!(
        decode_png_text_chunk("zTXt", &zipped),
        Some(("chara".to_string(), "packed text".to_string()))
    );
    let mut international = b"ccv3\0\x01\0en\0key\0".to_vec();
    international.extend(packed("\u{e4}"));
    assert_eq!(
        decode_png_text_chunk("iTXt", &international),
        Some(("ccv3".to_string(), "\u{e4}".to_string()))
    );
    assert_eq!(
        decode_png_text_chunk("iTXt", &b"ccv3\0\0\0\0\0plain".to_vec()),
        Some(("ccv3".to_string(), "plain".to_string()))
    );
    assert_eq!(decode_png_text_chunk("tEXt", &b"\0x".to_vec()), None);
    assert_eq!(decode_png_text_chunk("tEXt", &b"none".to_vec()), None);
    assert_eq!(decode_png_text_chunk("zTXt", &b"k\0\x01x".to_vec()), None);
    assert_eq!(decode_png_text_chunk("zTXt", &b"k\0\0nonsense".to_vec()), None);
    assert_eq!(decode_png_text_chunk("tEXt", &b"k\0\xff".to_vec()), None);
    assert_eq!(decode_png_text_chunk("IDAT", &b"k\0x".to_vec()), None);
}

#[test]
fn card_texts_are_json_or_base64_of_it() {
    assert_eq!(try_parse_character_json(" {\"a\":1} "), Some("{\"a\":1}".to_string()));
    let standard = base64::engine::general_purpose::STANDARD.encode("{\"a\": \"??>\"}");
    assert_eq!(try_parse_character_json(&standard), Some("{\"a\": \"??>\"}".to_string()));
    let bare = base64::engine::general_purpose::STANDARD_NO_PAD.encode("{\"b\":12}");
    assert_eq!(try_parse_character_json(&bare), Some("{\"b\":12}".to_string()));
    let url = base64::engine::general_purpose::URL_SAFE_NO_PAD.encode("{\"a\": \"??>??>\"}");
    assert_eq!(try_parse_character_json(&url), Some("{\"a\": \"??>??>\"}".to_string()));
    assert_eq!(try_parse_character_json("  "), None);
    assert_eq!(try_parse_character_json("not json"), None);
}

#[test]
fn readings_are_tried_in_their_order() {
    let reading = |text: &str, is_json: bool| CardReading { text: text.to_string(), is_json };
    let readings = vec![reading("a", false), reading("b", true), reading("c", true)];
    assert_eq!(choose_card_text(&readings), Some("b".to_string()));
    assert_eq!(choose_card_text(&vec![]), None);
    let candidate = |keyword: &str, card: Option<&str>| CardCandidate {
        keyword: keyword.to_string(),
        card: card.map(str::to_string),
    };
    let candidates = vec![
        candidate("other", Some("0")),
        candidate("ccv2", Some("2")),
        candidate("CHARA", Some("1")),
        candidate("ccv3", None),
    ];
    assert_eq!(choose_card(&candidates), Some("1".to_string()));
}

#[test]
fn a_card_is_read_out_of_a_picture() {
    let encoded = base64::engine::general_purpose::STANDARD.encode("{\"name\":\"A\"}");
    let mut chara = b"chara\0".to_vec();
    chara.extend_from_slice(encoded.as_bytes());
    let picture = png(vec![
        chunk("IHDR", &[1, 2, 3]),
        chunk("tEXt", b"note\0{\"name\":\"wrong\"}"),
        chunk("tEXt", &chara),
    ]);
    assert_eq!(
        extract_character_json_from_png_bytes(&picture),
        Ok("{\"name\":\"A\"}".to_string())
    );
    assert_eq!(print(&read_card(&picture).unwrap()), "{\"name\":\"A\"}");
    let fallback = png(vec![chunk("tEXt", b"note\0{\"x\":1}")]);
    assert_eq!(extract_character_json_from_png_bytes(&fallback), Ok("{\"x\":1}".to_string()));
    assert_eq!(
        extract_character_json_from_png_bytes(&png(vec![])),
        Err("PNG does not contain a supported character card payload".to_string())
    );
    assert_eq!(
        extract_character_json_from_png_bytes(&b"GIF89a..".to_vec()),
        Err("Invalid PNG file".to_string())
    );
    let mut broken = png(vec![]);
    broken[8] = 0xff;
    assert_eq!(
        extract_character_json_from_png_bytes(&broken),
        Err("Corrupted PNG metadata".to_string())
    );
    assert!(read_card(&broken).is_none());
}

// Importing

fn record() -> ImportRecord {
    ImportRecord {
        character_id: "id-1".to_string(),
        full_path: "a/b".to_string(),
        definition: None,
        avatar_path: Some("/p".to_string()),
        scene_ids: vec!["s1".to_string(), "s2".to_string()],
        dynamic_memory: true,
        now: 17,
    }
}

#[test]
fn fields_of_a_character_are_read() {
    let fields = fields_of_node(&json(
        r#"{"name":"N","firstMes":"hi","topics":["t"],"alternateGreetings":["x"," ",4],"systemPrompt":"s"}"#,
    ));
    assert_eq!(fields.name, "N");
    assert_eq!(fields.first_mes.as_deref(), Some("hi"));
    assert_eq!(fields.tags, vec!["t"]);
    assert_eq!(fields.alternate_greetings, vec!["x"]);
    assert_eq!(fields.system_prompt.as_deref(), Some("s"));
    assert_eq!(scene_contents(&fields), vec!["hi", "x"]);
    assert_eq!(fields_of_node(&json("{}")).name, "Unnamed Character");
}

#[test]
fn cards_fill_gaps_only() {
    let node = json(r#"{"description":"mine","max_res_url":"https://c/card.png"}"#);
    let fields = fields_of_node(&node);
    assert_eq!(card_url(&node, &fields), Some("https://c/card.png".to_string()));
    let card = json(
        r#"{"spec":"chara_card_v2","data":{"name":"C","description":"theirs","first_mes":"hey","tags":["k"],"character_book":{"entries":[]}}}"#,
    );
    let full = fill_from_card(fields, &card);
    assert_eq!(full.name, "C");
    assert_eq!(full.description.as_deref(), Some("mine"));
    assert_eq!(full.first_mes.as_deref(), Some("hey"));
    assert_eq!(full.tags, vec!["k"]);
    assert!(card_url(&node, &full).is_none());
    assert_eq!(print(book_to_import(&node, Some(&card)).unwrap()), r#"{"entries":[]}"#);
    assert!(book_to_import(&node, None).is_none());
    let local = json(r#"{"maxResUrl":"ftp://c"}"#);
    assert!(card_url(&local, &fields_of_node(&local)).is_none());
    let raw = fill_from_card(fields_of_node(&json("{}")), &json(r#"{"name":"R"}"#));
    assert_eq!(raw.name, "R");
}

#[test]
fn pictures_are_named_and_encoded() {
    assert_eq!(
        avatar_url(&json(r#"{"avatar_url":"http://a/b.webp"}"#)),
        Some("http://a/b.webp".to_string())
    );
    assert_eq!(avatar_url(&json(r#"{"avatar":"b.webp"}"#)), None);
    assert_eq!(avatar_entity_id("7"), "character-7");
    assert_eq!(avatar_upload(&vec![0xff, 0x00, 0x10]), "/wAQ");
    assert_eq!(avatar_upload(&vec![]), "");
}

#[test]
fn a_definition_has_its_parts_in_order() {
    let fields = fields_of_node(&json(
        r#"{"description":"d","personality":"p","mes_example":" e ","creator_notes":"c"}"#,
    ));
    let blocks = definition_blocks(&fields);
    assert_eq!(blocks.len(), 7);
    assert_eq!(blocks[0].label, None);
    assert_eq!(blocks[0].content.as_deref(), Some("d"));
    assert_eq!(blocks[1].label.as_deref(), Some("Personality"));
    assert_eq!(blocks[2].content, None);
    assert_eq!(
        blocks[6].content.as_deref(),
        Some("<example_dialogue>\ne\n</example_dialogue>")
    );
    assert_eq!(join_definition(&vec![]), None);
    let parts = vec!["a".to_string(), "b".to_string()];
    assert_eq!(join_definition(&parts), Some("a\n\nb".to_string()));
}

#[test]
fn an_imported_character_is_found_and_complete() {
    let node = json(r#"{"id":5,"name":"N","tagline":"t","first_mes":"hi","tags":["x"],"alternate_greetings":["yo"]}"#);
    let fields = fields_of_node(&node);
    let stored = character_record(&fields, &node, &record());
    assert_eq!(stored.get_str("id"), Some("id-1"));
    assert_eq!(stored.get_str("description"), Some("t"));
    assert_eq!(stored.get_str("defaultSceneId"), Some("s1"));
    assert_eq!(stored.get_str("memoryType"), Some("dynamic"));
    assert_eq!(stored.get_bool("disableAvatarGradient"), Some(false));
    assert_eq!(stored.get_str("sourceUrl"), Some("https://chub.ai/characters/a/b"));
    assert_eq!(stored.get_str("sourceProjectId"), Some("5"));
    assert_eq!(stored.get_u64("createdAt"), Some(17));
    assert_eq!(
        print(&stored.get_array("scenes").unwrap()[1]),
        r#"{"id":"s2","content":"yo","createdAt":17,"variants":[]}"#
    );
    assert_eq!(stored.as_object().unwrap().len(), 27);
    let list = vec![json(r#"{"sourcePath":"a/b"}"#), stored];
    assert_eq!(find_imported_character_id(&list, "a/b"), Some("id-1".to_string()));
    assert_eq!(import_status(&list, "/a/b/"), Ok(Some("id-1".to_string())));
    assert_eq!(import_status(&list, "a/c"), Ok(None));
    assert!(import_status(&list, "a").is_err());
    match start_import(&list, "a/b") {
        ImportStart::Existing(id) => assert_eq!(id, "id-1"),
        other => panic!("{:?}", other),
    }
    assert!(matches!(start_import(&vec![], "a/b"), ImportStart::Fresh));
}

#[test]
fn incomplete_characters_are_repaired() {
    for text in [
        r#"{"id":"c","sourcePath":"a/b","scenes":[],"tags":["x"]}"#,
        r#"{"id":"c","sourcePath":"a/b","scenes":[{"content":" "}],"tags":["x"]}"#,
        r#"{"id":"c","sourcePath":"a/b","scenes":[{"content":"hi"}],"tags":[]}"#,
        r#"{"id":"c","sourcePath":"a/b","scenes":[{"content":"hi"}]}"#,
    ] {
        match start_import(&vec![json(text)], "a/b") {
            ImportStart::Repair(id) => assert_eq!(id, "c"),
            other => panic!("{:?}", other),
        }
    }
    assert!(greet_session("s", 3, "hi").is_none());
    let message = greet_session("s", 0, "hi").unwrap();
    assert!(is_uuid(&message.id));
    assert_eq!((message.session_id.as_str(), message.content.as_str()), ("s", "hi"));
    assert!(message.created_at > 1_600_000_000_000);
}

#[test]
fn an_import_is_begun_and_completed() {
    let begin = |list: &Vec<Json>| plan_import(list, " a/b ", "new".to_string());
    match begin(&vec![]).unwrap() {
        ImportStep::Import { path, character_id, is_repair } => {
            assert_eq!((path.as_str(), character_id.as_str(), is_repair), ("a/b", "new", false));
        }
        other => panic!("{:?}", other),
    }
    assert!(plan_import(&vec![], "a", "new".to_string()).is_err());
    assert!(begin_import(&vec![], "a").is_err());
    match begin_import(&vec![], "a/b").unwrap() {
        ImportStep::Import { character_id, is_repair, .. } => {
            assert!(is_uuid(&character_id));
            assert!(!is_repair);
        }
        other => panic!("{:?}", other),
    }

    let node = json(r#"{"name":"N","alternate_greetings":["yo"]}"#);
    let card = json(r#"{"first_mes":"hi","tags":["x"],"character_book":{"entries":[{"content":"c"}]}}"#);
    assert_eq!(gather_fields(&node, None).first_mes, None);
    assert_eq!(gather_fields(&node, Some(&card)).first_mes, Some("hi".to_string()));
    let work = complete_import(&node, Some(&card), &record(), true);
    assert_eq!(work.greeting, Some("hi".to_string()));
    assert_eq!(work.lorebook.unwrap().name, "N Lorebook");
    assert_eq!(work.character.get_array("scenes").unwrap().len(), 2);
    let again = complete_import(&node, Some(&card), &record(), false);
    assert_eq!(again.greeting, None);
    match begin(&vec![again.character]).unwrap() {
        ImportStep::Done(id) => assert_eq!(id, "id-1"),
        other => panic!("{:?}", other),
    }

    let bare = json(r#"{"id":"c","sourcePath":"a/b"}"#);
    match begin(&vec![bare]).unwrap() {
        ImportStep::Import { character_id, is_repair, .. } => {
            assert_eq!((character_id.as_str(), is_repair), ("c", true));
        }
        other => panic!("{:?}", other),
    }
}

fn is_uuid(s: &str) -> bool {
    s.len() == 36
        && s.chars().enumerate().all(|(i, c)| match i {
            8 | 13 | 18 | 23 => c == '-',
            14 => c == '4',
            19 => "89ab".contains(c),
            _ => c.is_ascii_digit() || ('a'..='f').contains(&c),
        })
}

#[test]
fn an_import_is_stamped() {
    let ids = new_ids(50);
    assert_eq!(ids.len(), 50);
    assert!(ids.iter().all(|id| is_uuid(id)));
    assert!(ids.iter().skip(1).all(|id| *id != ids[0]));
    let node = json(
        r#"{"name":"N","first_mes":"hi","tags":["x"],"character_book":{"entries":[{"content":"c"},{"content":"d"}]}}"#,
    );
    let plan = || ImportPlan {
        character_id: "id-1".to_string(),
        full_path: "a/b".to_string(),
        definition: None,
        avatar_path: None,
        dynamic_memory: false,
    };
    let record = stamp_import(&gather_fields(&node, None), plan());
    assert_eq!((record.scene_ids.len(), record.character_id.as_str()), (1, "id-1"));
    assert!(record.now > 1_600_000_000_000);
    let work = import_character(&node, None, plan(), false);
    let scene = &work.character.get_array("scenes").unwrap()[0];
    assert!(is_uuid(scene.get_str("id").unwrap()));
    assert_eq!(scene.get_str("content"), Some("hi"));
    assert_eq!(work.character.get_str("memoryType"), Some("manual"));
    let book = stamp_lorebook(work.lorebook.unwrap());
    assert!(is_uuid(&book.id));
    assert_eq!(book.entries.len(), 2);
    for entry in &book.entries {
        assert!(is_uuid(&entry.id));
        assert_eq!(entry.lorebook_id, book.id);
        assert_eq!((entry.priority, entry.created_at), (0, book.created_at));
    }
    assert_eq!(book.entries[1].entry.content, "d");
}

#[test]
fn books_are_read() {
    let book = json(
        r#"{"entries":[
            {"content":"one","keys":["a"," ",5],"constant":true,"insertion_order":7,"enabled":false},
            {"content":" "},
            {"content":"two","keys":"k","comment":"title","insertionOrder":4294967296,"caseSensitive":true},
            {"content":3,"constant":true}
        ]}"#,
    );
    let plan = import_character_book(&book, "Maya").unwrap();
    assert_eq!(plan.name, "Maya Lorebook");
    assert_eq!(plan.entries.len(), 3);
    assert_eq!(plan.entries[0].title, "Entry 1");
    assert_eq!(plan.entries[0].keywords, vec!["a"]);
    assert!(!plan.entries[0].enabled);
    assert!(!plan.entries[0].always_active);
    assert_eq!(plan.entries[0].display_order, 7);
    assert_eq!(plan.entries[1].title, "title");
    assert_eq!(plan.entries[1].keywords, vec!["k"]);
    assert_eq!(plan.entries[1].display_order, 2);
    assert!(plan.entries[1].case_sensitive);
    assert_eq!(plan.entries[2].content, "3");
    assert_eq!(plan.entries[2].title, "Entry 4");
    assert!(plan.entries[2].always_active);
    assert!(import_character_book(&json(r#"{"entries":[]}"#), "x").is_none());
    assert!(import_character_book(&json("{}"), "x").is_none());
    let named = import_character_book(&json(r#"{"name":"B","entries":[{}]}"#), "x").unwrap();
    assert_eq!(named.name, "B");
    assert!(named.entries.is_empty());
}
