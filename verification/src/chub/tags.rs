//! The tags of the Chub catalogue.
use vstd::prelude::*;

use super::fields::{
    first_count, first_text, law_first_count, law_first_text, str_field, string_array_field,
    texts_of_field, texts_of_items, u64_field,
};
use super::search::{
    extract_nodes, flag_text, nodes_of, print_flag, push_parameter, CatalogReply, CHUB_GATEWAY_BASE,
};
use crate::json::{json_views, Json, JsonModel};
use crate::order::{
    arranged, key_after, key_views, law_order, order_of, places, stable_order, text_after, SortKey,
    SortKeyModel,
};
use crate::text::{
    decimal, decimal_u64, law_decimal, lemma_same_back, lemma_same_front, opt_present, opt_view,
    present_opt, same, strs, trim, trim_str, views, views_len, views_push,
};
use crate::text_map::entry_views;

verus! {

/// A tag, and how many characters have it where that is known.
#[derive(Debug)]
pub struct ChubTagInfo {
    pub name: String,
    pub count: Option<u64>,
}

pub struct TagModel {
    pub name: Seq<char>,
    pub count: Option<u64>,
}

impl View for ChubTagInfo {
    type V = TagModel;

    open spec fn view(&self) -> TagModel {
        TagModel { name: self.name@, count: self.count }
    }
}

pub open spec fn tag_views(tags: Seq<ChubTagInfo>) -> Seq<TagModel> {
    tags.map_values(|t: ChubTagInfo| t@)
}

// ---------------------------------------------------------------------------
// Asking for the tags
// ---------------------------------------------------------------------------

/// What a user asks of the list of tags.
#[derive(Debug)]
pub struct TagRequest {
    pub search: Option<String>,
    pub limit: Option<u32>,
}

impl TagRequest {
    pub open spec fn asked_search(self) -> Option<Seq<char>> {
        opt_present(opt_view(self.search))
    }

    /// How many tags are asked for: from 1 to 500, and 100 where nothing is said.
    pub open spec fn asked_limit(self) -> u32 {
        match self.limit {
            Some(n) => if n < 1 {
                1
            } else if n > 500 {
                500
            } else {
                n
            },
            None => 100,
        }
    }
}

fn tag_limit(request: &TagRequest) -> (r: u32)
    ensures
        r == request.asked_limit(),
{
    match request.limit {
        Some(n) => if n < 1 {
            1
        } else if n > 500 {
            500
        } else {
            n
        },
        None => 100,
    }
}

/// What a list of tags is kept under.
pub open spec fn tags_key(request: TagRequest) -> Seq<char> {
    let search = match request.asked_search() {
        Some(s) => s,
        None => Seq::empty(),
    };
    "chub:tags:"@ + search + ":"@ + decimal(request.asked_limit() as nat)
}

pub fn tags_cache_key(request: &TagRequest) -> (r: String)
    ensures
        r@ == tags_key(*request),
{
    let mut key = "chub:tags:".to_string();
    match present_opt(&request.search) {
        Some(s) => {
            key.append(s);
        },
        None => {
            assert(key@ + Seq::<char>::empty() =~= key@);
        },
    }
    key.append(":");
    key.append(decimal_u64(tag_limit(request) as u64).as_str());
    key
}

pub open spec fn tag_parameters(request: TagRequest) -> Seq<(Seq<char>, Seq<char>)> {
    let base = seq![
        ("first"@, decimal(request.asked_limit() as nat)),
        ("page"@, "1"@),
        ("sort"@, "count_desc"@),
        ("namespace"@, "characters"@),
    ];
    match request.asked_search() {
        Some(s) => base.push(("search"@, s)),
        None => base,
    }
}

pub fn tag_params(request: &TagRequest) -> (r: Vec<(String, String)>)
    ensures
        entry_views(r@) == tag_parameters(*request),
{
    let mut params: Vec<(String, String)> = Vec::new();
    push_parameter(&mut params, "first", decimal_u64(tag_limit(request) as u64).as_str());
    push_parameter(&mut params, "page", "1");
    push_parameter(&mut params, "sort", "count_desc");
    push_parameter(&mut params, "namespace", "characters");
    if let Some(s) = present_opt(&request.search) {
        push_parameter(&mut params, "search", s);
    }
    assert(entry_views(params@) =~= tag_parameters(*request));
    params
}

/// Where the tags are asked for, one place after the other until one answers.
pub open spec fn tag_places() -> Seq<Seq<char>> {
    seq![
        CHUB_GATEWAY_BASE@ + "/api/tags/characters"@,
        CHUB_GATEWAY_BASE@ + "/api/tags/character"@,
        CHUB_GATEWAY_BASE@ + "/api/tags"@,
        "https://api.chub.ai/api/tags/characters"@,
        "https://api.chub.ai/api/tags/character"@,
        "https://api.chub.ai/api/tags"@,
    ]
}

fn at_gateway(path: &str) -> (r: String)
    ensures
        r@ == CHUB_GATEWAY_BASE@ + path@,
{
    let mut url = CHUB_GATEWAY_BASE.to_string();
    url.append(path);
    url
}

pub fn tag_urls() -> (r: Vec<String>)
    ensures
        views(r@) == tag_places(),
{
    let mut urls: Vec<String> = Vec::new();
    urls.push(at_gateway("/api/tags/characters"));
    urls.push(at_gateway("/api/tags/character"));
    urls.push(at_gateway("/api/tags"));
    urls.push("https://api.chub.ai/api/tags/characters".to_string());
    urls.push("https://api.chub.ai/api/tags/character".to_string());
    urls.push("https://api.chub.ai/api/tags".to_string());
    assert(views(urls@) =~= tag_places());
    urls
}

/// How the tags are asked for.
#[derive(Debug)]
pub struct TagPlan {
    /// What the tags are kept under.
    pub cache_key: String,
    /// Whether tags that were kept are good enough.
    pub looks_in_cache: bool,
    pub urls: Vec<String>,
    pub params: Vec<(String, String)>,
}

/// Plans how the tags are asked for.
pub fn plan_tags(request: &TagRequest, bypass_cache: Option<bool>) -> (r: TagPlan)
    ensures
        r.cache_key@ == tags_key(*request),
        r.looks_in_cache == (bypass_cache != Some(true)),
        views(r.urls@) == tag_places(),
        entry_views(r.params@) == tag_parameters(*request),
{
    let looks_in_cache = match bypass_cache {
        Some(b) => !b,
        None => true,
    };
    TagPlan {
        cache_key: tags_cache_key(request),
        looks_in_cache,
        urls: tag_urls(),
        params: tag_params(request),
    }
}

// ---------------------------------------------------------------------------
// Tags that Chub lists
// ---------------------------------------------------------------------------

/// The tag that a record stands for, where it has a name.
pub open spec fn tag_of_node(node: JsonModel) -> Option<TagModel> {
    match first_text(node, seq!["name"@, "tag"@, "label"@]) {
        Some(name) => Some(
            TagModel {
                name,
                count: first_count(
                    node,
                    seq!["count"@, "n_characters"@, "usage_count"@, "total"@],
                ),
            },
        ),
        None => None,
    }
}

pub open spec fn tags_of_nodes(nodes: Seq<JsonModel>) -> Seq<TagModel>
    decreases nodes.len(),
{
    if nodes.len() == 0 {
        Seq::empty()
    } else {
        let before = tags_of_nodes(nodes.drop_last());
        match tag_of_node(nodes.last()) {
            Some(tag) => before.push(tag),
            None => before,
        }
    }
}

fn read_tag(node: &Json) -> (r: Option<ChubTagInfo>)
    ensures
        match r {
            Some(tag) => tag_of_node(node@) == Some(tag@),
            None => tag_of_node(node@) is None,
        },
{
    let name_keys = vec!["name", "tag", "label"];
    assert(strs(name_keys@) =~= seq!["name"@, "tag"@, "label"@]);
    let count_keys = vec!["count", "n_characters", "usage_count", "total"];
    assert(strs(count_keys@) =~= seq!["count"@, "n_characters"@, "usage_count"@, "total"@]);
    match str_field(node, &name_keys) {
        Some(name) => {
            let count: Option<u64> = u64_field(node, &count_keys);
            Some(ChubTagInfo { name, count })
        },
        None => None,
    }
}

/// Reads the tags that a reply lists.
pub fn tags_of_body(body: &Json) -> (r: Vec<ChubTagInfo>)
    ensures
        tag_views(r@) == tags_of_nodes(nodes_of(body@)),
{
    let nodes = extract_nodes(body);
    let ghost all = json_views(nodes@);
    let mut out: Vec<ChubTagInfo> = Vec::new();
    assert(tag_views(out@) =~= Seq::empty());
    for i in 0..nodes.len()
        invariant
            all == json_views(nodes@),
            tag_views(out@) == tags_of_nodes(all.take(i as int)),
    {
        assert(all.take(i + 1).drop_last() =~= all.take(i as int));
        assert(all.take(i + 1).last() == nodes@[i as int]@);
        let ghost before = out@;
        if let Some(tag) = read_tag(&nodes[i]) {
            out.push(tag);
            assert(tag_views(out@) =~= tag_views(before).push(tag@));
        }
    }
    assert(all.take(all.len() as int) =~= all);
    out
}

// ---------------------------------------------------------------------------
// Tags counted in the catalogue
// ---------------------------------------------------------------------------

pub open spec fn catalog_parameters(pure_mode_off: bool) -> Seq<(Seq<char>, Seq<char>)> {
    seq![
        ("first"@, "100"@),
        ("page"@, "1"@),
        ("sort"@, "trending"@),
        ("namespace"@, "characters"@),
        ("nsfw"@, flag_text(pure_mode_off)),
        ("nsfw_only"@, "false"@),
        ("include_forks"@, "true"@),
        ("inclusive_or"@, "false"@),
        ("asc"@, "false"@),
    ]
}

/// The parameters of the search whose characters are counted.
pub fn catalog_params(pure_mode_off: bool) -> (r: Vec<(String, String)>)
    ensures
        entry_views(r@) == catalog_parameters(pure_mode_off),
{
    let mut params: Vec<(String, String)> = Vec::new();
    push_parameter(&mut params, "first", "100");
    push_parameter(&mut params, "page", "1");
    push_parameter(&mut params, "sort", "trending");
    push_parameter(&mut params, "namespace", "characters");
    push_parameter(&mut params, "nsfw", print_flag(pure_mode_off));
    push_parameter(&mut params, "nsfw_only", "false");
    push_parameter(&mut params, "include_forks", "true");
    push_parameter(&mut params, "inclusive_or", "false");
    push_parameter(&mut params, "asc", "false");
    assert(entry_views(params@) =~= catalog_parameters(pure_mode_off));
    params
}

/// Texts without white space around them.
pub open spec fn trimmed(list: Seq<Seq<char>>) -> Seq<Seq<char>> {
    list.map_values(|s: Seq<char>| trim(s))
}

/// The tags of a character: its tags, then its topics.
pub open spec fn tags_of_character(node: JsonModel) -> Seq<Seq<char>> {
    trimmed(texts_of_field(node, "tags"@)) + trimmed(texts_of_field(node, "topics"@))
}

/// The tags of all characters, one character after the other.
pub open spec fn all_tags(nodes: Seq<JsonModel>) -> Seq<Seq<char>>
    decreases nodes.len(),
{
    if nodes.len() == 0 {
        Seq::empty()
    } else {
        all_tags(nodes.drop_last()) + tags_of_character(nodes.last())
    }
}

/// How often a tag occurs.
pub open spec fn occurrences(tags: Seq<Seq<char>>, name: Seq<char>) -> nat
    decreases tags.len(),
{
    if tags.len() == 0 {
        0
    } else {
        let before = occurrences(tags.drop_last(), name);
        if tags.last() == name {
            before + 1
        } else {
            before
        }
    }
}

/// The tags that occur, each once, in the order in which they first do.
pub open spec fn different(tags: Seq<Seq<char>>) -> Seq<Seq<char>>
    decreases tags.len(),
{
    if tags.len() == 0 {
        Seq::empty()
    } else {
        let before = different(tags.drop_last());
        if before.contains(tags.last()) {
            before
        } else {
            before.push(tags.last())
        }
    }
}

pub open spec fn counted(tags: Seq<Seq<char>>, name: Seq<char>) -> TagModel {
    TagModel { name, count: Some(occurrences(tags, name) as u64) }
}

pub open spec fn tally(tags: Seq<Seq<char>>) -> Seq<TagModel> {
    different(tags).map_values(|name: Seq<char>| counted(tags, name))
}

/// Frequent tags come first; tags that are equally frequent go by their names.
pub open spec fn tag_key(tag: TagModel) -> SortKeyModel {
    let count = match tag.count {
        Some(n) => n,
        None => 0,
    };
    SortKeyModel { rank: (u64::MAX - count) as u64, text: tag.name }
}

pub open spec fn tag_keys(tags: Seq<TagModel>) -> Seq<SortKeyModel> {
    tags.map_values(|t: TagModel| tag_key(t))
}

pub open spec fn by_frequency(tags: Seq<TagModel>) -> Seq<TagModel> {
    arranged(tags, order_of(tag_keys(tags)))
}

pub open spec fn first_tags(tags: Seq<TagModel>, n: int) -> Seq<TagModel> {
    if tags.len() <= n {
        tags
    } else {
        tags.take(n)
    }
}

/// The hundred most frequent tags of a catalogue.
pub open spec fn frequent_tags(nodes: Seq<JsonModel>) -> Seq<TagModel> {
    first_tags(by_frequency(tally(all_tags(nodes))), 100)
}

proof fn lemma_occurrences_bound(tags: Seq<Seq<char>>, name: Seq<char>)
    ensures
        occurrences(tags, name) <= tags.len(),
    decreases tags.len(),
{
    if tags.len() > 0 {
        lemma_occurrences_bound(tags.drop_last(), name);
    }
}

proof fn lemma_different(tags: Seq<Seq<char>>)
    ensures
        different(tags).no_duplicates(),
        forall|name: Seq<char>|
            #![trigger different(tags).contains(name)]
            #![trigger tags.contains(name)]
            different(tags).contains(name) == tags.contains(name),
    decreases tags.len(),
{
    if tags.len() > 0 {
        let front = tags.drop_last();
        let before = different(front);
        lemma_different(front);
        assert forall|name: Seq<char>| #[trigger] different(tags).contains(name) == tags.contains(
            name,
        ) by {
            assert(tags =~= front.push(tags.last()));
            assert(front.contains(name) ==> tags.contains(name)) by {
                if front.contains(name) {
                    let i = choose|i: int| 0 <= i < front.len() && front[i] == name;
                    assert(tags[i] == name);
                }
            }
            assert(tags[tags.len() - 1] == tags.last());
            assert(before.contains(name) ==> before.push(tags.last()).contains(name)) by {
                if before.contains(name) {
                    let i = choose|i: int| 0 <= i < before.len() && before[i] == name;
                    assert(before.push(tags.last())[i] == name);
                }
            }
            assert(before.push(tags.last())[before.len() as int] == tags.last());
            if tags.contains(name) {
                let i = choose|i: int| 0 <= i < tags.len() && tags[i] == name;
                if i < front.len() {
                    assert(front[i] == name);
                }
            }
            if different(tags).contains(name) {
                let i = choose|i: int|
                    0 <= i < different(tags).len() && different(tags)[i] == name;
                if i < before.len() {
                    assert(before[i] == name);
                }
            }
        }
    }
}

/// A tag that does not occur has no occurrence, and one that does has one.
proof fn lemma_occurs(tags: Seq<Seq<char>>, name: Seq<char>)
    ensures
        tags.contains(name) == (occurrences(tags, name) > 0),
    decreases tags.len(),
{
    if tags.len() > 0 {
        let front = tags.drop_last();
        lemma_occurs(front, name);
        if front.contains(name) {
            let i = choose|i: int| 0 <= i < front.len() && front[i] == name;
            assert(tags[i] == name);
        }
        if tags.last() == name {
            assert(tags[tags.len() - 1] == name);
        }
        if tags.contains(name) {
            let i = choose|i: int| 0 <= i < tags.len() && tags[i] == name;
            if i < front.len() {
                assert(front[i] == name);
            }
        }
    }
}

fn push_trimmed(out: &mut Vec<String>, list: &Vec<String>)
    ensures
        views(final(out)@) == views(old(out)@) + trimmed(views(list@)),
{
    let ghost start = views(out@);
    let ghost goal = trimmed(views(list@));
    assert(start + goal.take(0) =~= start);
    for i in 0..list.len()
        invariant
            goal == trimmed(views(list@)),
            views(out@) == start + goal.take(i as int),
    {
        broadcast use views_push;

        out.push(trim_str(list[i].as_str()).to_string());
        assert(goal[i as int] == trim(list@[i as int]@));
        assert(start + goal.take(i + 1) =~= (start + goal.take(i as int)).push(goal[i as int]));
    }
    assert(goal.take(goal.len() as int) =~= goal);
}

fn collect_tags(nodes: &Vec<Json>) -> (r: Vec<String>)
    ensures
        views(r@) == all_tags(json_views(nodes@)),
{
    let ghost all = json_views(nodes@);
    let mut out: Vec<String> = Vec::new();
    assert(views(out@) =~= Seq::empty());
    for i in 0..nodes.len()
        invariant
            all == json_views(nodes@),
            views(out@) == all_tags(all.take(i as int)),
    {
        assert(all.take(i + 1).drop_last() =~= all.take(i as int));
        assert(all.take(i + 1).last() == nodes@[i as int]@);
        let ghost before = views(out@);
        push_trimmed(&mut out, &string_array_field(&nodes[i], "tags"));
        push_trimmed(&mut out, &string_array_field(&nodes[i], "topics"));
        assert(views(out@) =~= before + tags_of_character(nodes@[i as int]@));
    }
    assert(all.take(all.len() as int) =~= all);
    out
}

fn place_in(list: &Vec<String>, s: &str) -> (r: Option<usize>)
    ensures
        match r {
            Some(i) => i < list@.len() && list@[i as int]@ == s@,
            None => !views(list@).contains(s@),
        },
{
    broadcast use views_len;

    for i in 0..list.len()
        invariant
            forall|k: int| 0 <= k < i ==> (#[trigger] list@[k])@ != s@,
    {
        if same(list[i].as_str(), s) {
            return Some(i);
        }
    }
    proof {
        if views(list@).contains(s@) {
            let k = choose|k: int| 0 <= k < views(list@).len() && views(list@)[k] == s@;
            assert(list@[k]@ == s@);
        }
    }
    None
}

fn count_tags(tags: &Vec<String>) -> (r: Vec<ChubTagInfo>)
    ensures
        tag_views(r@) == tally(views(tags@)),
{
    broadcast use views_len;

    let ghost all = views(tags@);
    let total: usize = tags.len();
    let mut names: Vec<String> = Vec::new();
    let mut counts: Vec<u64> = Vec::new();
    assert(views(names@) =~= different(all.take(0)));
    for i in 0..total
        invariant
            all == views(tags@),
            total == tags@.len(),
            views(names@) == different(all.take(i as int)),
            names@.len() == counts@.len(),
            forall|k: int|
                0 <= k < counts@.len() ==> #[trigger] counts@[k] == occurrences(
                    all.take(i as int),
                    names@[k]@,
                ),
    {
        let ghost seen = all.take(i as int);
        let ghost names_before = names@;
        let ghost counts_before = counts@;
        let ghost tag = tags@[i as int]@;
        assert(all.take(i + 1).drop_last() =~= seen);
        assert(all.take(i + 1).last() == tag);
        proof {
            lemma_different(seen);
        }
        match place_in(&names, tags[i].as_str()) {
            Some(p) => {
                proof {
                    lemma_occurrences_bound(seen, tag);
                    assert(views(names@)[p as int] == tag);
                }
                counts.set(p, counts[p] + 1);
                assert forall|k: int| 0 <= k < counts@.len() implies #[trigger] counts@[k]
                    == occurrences(all.take(i + 1), names@[k]@) by {
                    assert(counts_before[k] == occurrences(seen, names@[k]@));
                    if k != p {
                        assert(views(names@)[k] != views(names@)[p as int]);
                    }
                }
            },
            None => {
                broadcast use views_push;

                proof {
                    lemma_occurs(seen, tag);
                }
                names.push(tags[i].clone());
                counts.push(1);
                assert forall|k: int| 0 <= k < counts@.len() implies #[trigger] counts@[k]
                    == occurrences(all.take(i + 1), names@[k]@) by {
                    if k < counts_before.len() {
                        assert(counts_before[k] == occurrences(seen, names_before[k]@));
                        assert(views(names_before)[k] == names_before[k]@);
                        assert(names_before[k]@ != tag);
                    }
                }
            },
        }
    }
    assert(all.take(all.len() as int) =~= all);
    let ghost goal = tally(all);
    let mut out: Vec<ChubTagInfo> = Vec::new();
    for i in 0..names.len()
        invariant
            all == views(tags@),
            goal == tally(all),
            views(names@) == different(all),
            names@.len() == counts@.len(),
            forall|k: int|
                0 <= k < counts@.len() ==> #[trigger] counts@[k] == occurrences(all, names@[k]@),
            tag_views(out@) == goal.take(i as int),
    {
        let ghost before = out@;
        let tag = ChubTagInfo { name: names[i].clone(), count: Some(counts[i]) };
        assert(views(names@)[i as int] == names@[i as int]@);
        assert(goal[i as int] == tag@);
        out.push(tag);
        assert(tag_views(out@) =~= tag_views(before).push(tag@));
        assert(goal.take(i + 1) =~= goal.take(i as int).push(goal[i as int]));
    }
    assert(goal.take(goal.len() as int) =~= goal);
    out
}

fn sort_tags(tags: &Vec<ChubTagInfo>) -> (r: Vec<ChubTagInfo>)
    ensures
        tag_views(r@) == by_frequency(tag_views(tags@)),
{
    let ghost all = tag_views(tags@);
    let mut keys: Vec<SortKey> = Vec::new();
    for i in 0..tags.len()
        invariant
            all == tag_views(tags@),
            key_views(keys@) == tag_keys(all).take(i as int),
    {
        let ghost before = keys@;
        let count: u64 = match tags[i].count {
            Some(n) => n,
            None => 0,
        };
        let key = SortKey { rank: u64::MAX - count, text: tags[i].name.clone() };
        keys.push(key);
        assert(key_views(keys@) =~= key_views(before).push(key@));
        assert(tag_keys(all).take(i + 1) =~= tag_keys(all).take(i as int).push(
            tag_keys(all)[i as int],
        ));
    }
    assert(tag_keys(all).take(all.len() as int) =~= tag_keys(all));
    let order = stable_order(&keys);
    assert(keys@.len() == tags@.len()) by {
        assert(key_views(keys@).len() == keys@.len());
    }
    let ghost goal = by_frequency(all);
    let mut out: Vec<ChubTagInfo> = Vec::new();
    for i in 0..order.len()
        invariant
            all == tag_views(tags@),
            keys@.len() == tags@.len(),
            order@.len() == tags@.len(),
            forall|k: int| 0 <= k < order@.len() ==> #[trigger] order@[k] < keys@.len(),
            places(order@) == order_of(tag_keys(all)),
            goal == by_frequency(all),
            tag_views(out@) == goal.take(i as int),
    {
        let ghost before = out@;
        let tag = ChubTagInfo { name: tags[order[i]].name.clone(), count: tags[order[i]].count };
        out.push(tag);
        assert(tag_views(out@) =~= tag_views(before).push(tag@));
        assert(places(order@)[i as int] == order@[i as int]);
        assert(goal[i as int] == all[order@[i as int] as int]);
        assert(goal.take(i + 1) =~= goal.take(i as int).push(goal[i as int]));
    }
    assert(goal.take(goal.len() as int) =~= goal);
    out
}

/// Counts the tags of the characters of a reply, for when Chub lists none.
pub fn derive_tags(body: &Json) -> (r: Vec<ChubTagInfo>)
    ensures
        tag_views(r@) == frequent_tags(nodes_of(body@)),
{
    let nodes = extract_nodes(body);
    let tags = collect_tags(&nodes);
    let mut sorted = sort_tags(&count_tags(&tags));
    let ghost whole = sorted@;
    if sorted.len() > 100 {
        sorted.truncate(100);
        assert(tag_views(sorted@) =~= tag_views(whole).take(100));
    }
    sorted
}

/// The tags that a reply lists, unless it lists none.
pub fn listed_tags(body: &Json) -> (r: Option<Vec<ChubTagInfo>>)
    ensures
        match r {
            Some(tags) => tag_views(tags@) == tags_of_nodes(nodes_of(body@)) && tags@.len() > 0,
            None => tags_of_nodes(nodes_of(body@)).len() == 0,
        },
{
    let tags = tags_of_body(body);
    assert(tag_views(tags@).len() == tags@.len());
    if tags.len() > 0 {
        Some(tags)
    } else {
        None
    }
}

/// What the user is told where there are no tags.
pub open spec fn no_tags() -> Seq<char> {
    "No tags available from Chub right now."@
}

/// The tags counted in what came of a request for a part of the catalogue.
pub open spec fn counted_tags(reply: CatalogReply) -> Result<Seq<TagModel>, Seq<char>> {
    match reply {
        CatalogReply::Unsent(e) => Err(e@),
        CatalogReply::Refused { status, status_text } => Err(no_tags()),
        CatalogReply::Unreadable(e) => Err(e@),
        CatalogReply::Body(body) => if frequent_tags(nodes_of(body@)).len() > 0 {
            Ok(frequent_tags(nodes_of(body@)))
        } else {
            Err(no_tags())
        },
    }
}

pub open spec fn tags_view(r: Result<Vec<ChubTagInfo>, String>) -> Result<
    Seq<TagModel>,
    Seq<char>,
> {
    match r {
        Ok(tags) => Ok(tag_views(tags@)),
        Err(e) => Err(e@),
    }
}

/// Counts the tags in what came of a request for a part of the catalogue, or says why there are
/// none.
pub fn conclude_tags(reply: CatalogReply) -> (r: Result<Vec<ChubTagInfo>, String>)
    ensures
        tags_view(r) == counted_tags(reply),
{
    match reply {
        CatalogReply::Unsent(e) => Err(e),
        CatalogReply::Refused { status: _, status_text: _ } => Err(
            "No tags available from Chub right now.".to_string(),
        ),
        CatalogReply::Unreadable(e) => Err(e),
        CatalogReply::Body(body) => {
            let tags = derive_tags(&body);
            assert(tag_views(tags@).len() == tags@.len());
            if tags.len() > 0 {
                Ok(tags)
            } else {
                Err("No tags available from Chub right now.".to_string())
            }
        },
    }
}

/// How far the search for the tags has come: it asks a place, it has found the tags, or it has to
/// count them in the catalogue.
#[derive(Debug)]
pub enum TagSearch {
    Asking(usize),
    Found(Vec<ChubTagInfo>),
    Counting,
}

pub enum TagSearchModel {
    Asking(int),
    Found(Seq<TagModel>),
    Counting,
}

impl View for TagSearch {
    type V = TagSearchModel;

    open spec fn view(&self) -> TagSearchModel {
        match self {
            TagSearch::Asking(place) => TagSearchModel::Asking(*place as int),
            TagSearch::Found(tags) => TagSearchModel::Found(tag_views(tags@)),
            TagSearch::Counting => TagSearchModel::Counting,
        }
    }
}

/// What follows the reply of a place: the first that answers with JSON decides.
pub open spec fn tag_step(place: int, reply: CatalogReply) -> TagSearchModel {
    match reply {
        CatalogReply::Body(body) => if tags_of_nodes(nodes_of(body@)).len() > 0 {
            TagSearchModel::Found(tags_of_nodes(nodes_of(body@)))
        } else {
            TagSearchModel::Counting
        },
        _ => if place + 1 < tag_places().len() {
            TagSearchModel::Asking(place + 1)
        } else {
            TagSearchModel::Counting
        },
    }
}

/// Goes on with the search for the tags after the reply of a place.
pub fn advance_tag_search(place: usize, reply: CatalogReply) -> (r: TagSearch)
    requires
        place < tag_places().len(),
    ensures
        r@ == tag_step(place as int, reply),
{
    match reply {
        CatalogReply::Body(body) => match listed_tags(&body) {
            Some(tags) => TagSearch::Found(tags),
            None => TagSearch::Counting,
        },
        _ => if place + 1 < tag_urls().len() {
            TagSearch::Asking(place + 1)
        } else {
            TagSearch::Counting
        },
    }
}

// ---------------------------------------------------------------------------
// Laws
// ---------------------------------------------------------------------------

/// Whether a tag is more frequent than another one, or as frequent and has no later name.
pub open spec fn goes_before(tags: Seq<Seq<char>>, a: Seq<char>, b: Seq<char>) -> bool {
    &&& occurrences(tags, a) >= occurrences(tags, b)
    &&& occurrences(tags, a) == occurrences(tags, b) ==> !text_after(a, b)
}

/// Of the tags counted in a catalogue none is shown twice, each occurs and is shown with the
/// number of its occurrences, they go from the frequent to the rare and by their names where they
/// are equally frequent, and a tag that is not shown is left out only because a hundred others
/// are, none of which is rarer or, where it is equally frequent, has a later name.
pub proof fn law_frequent_tags(nodes: Seq<JsonModel>)
    requires
        all_tags(nodes).len() <= u64::MAX,
    ensures
        ({
            let tags = all_tags(nodes);
            let shown = frequent_tags(nodes);
            &&& shown.len() <= 100
            &&& forall|i: int|
                0 <= i < shown.len() ==> tags.contains((#[trigger] shown[i]).name)
                    && shown[i].count is Some && shown[i].count->0 == occurrences(
                    tags,
                    shown[i].name,
                )
            &&& forall|i: int, j: int|
                0 <= i < j < shown.len() ==> {
                    &&& (#[trigger] shown[i]).name != (#[trigger] shown[j]).name
                    &&& goes_before(tags, shown[i].name, shown[j].name)
                }
            &&& forall|name: Seq<char>|
                #![trigger tags.contains(name)]
                tags.contains(name) ==> (exists|i: int|
                    0 <= i < shown.len() && (#[trigger] shown[i]).name == name) || (shown.len()
                    == 100 && forall|i: int|
                    0 <= i < 100 ==> goes_before(tags, (#[trigger] shown[i]).name, name))
        }),
{
    let tags = all_tags(nodes);
    let names = different(tags);
    let table = tally(tags);
    let keys = tag_keys(table);
    let at = order_of(keys);
    let sorted = by_frequency(table);
    let shown = frequent_tags(nodes);
    lemma_different(tags);
    law_order(keys);
    assert forall|i: int| 0 <= i < sorted.len() implies (#[trigger] sorted[i]).name
        == names[at[i]] && sorted[i].count == Some(occurrences(tags, sorted[i].name) as u64)
        && occurrences(tags, sorted[i].name) <= u64::MAX && tags.contains(sorted[i].name) by {
        assert(sorted[i] == table[at[i]]);
        assert(table[at[i]] == counted(tags, names[at[i]]));
        lemma_occurrences_bound(tags, sorted[i].name);
        assert(names.contains(names[at[i]]));
    }
    assert forall|i: int, j: int| 0 <= i < j < sorted.len() implies {
        &&& (#[trigger] sorted[i]).name != (#[trigger] sorted[j]).name
        &&& goes_before(tags, sorted[i].name, sorted[j].name)
    } by {
        assert(at[i] != at[j]);
        assert(!key_after(keys[at[i]], keys[at[j]]));
        assert(keys[at[i]] == tag_key(sorted[i]));
        assert(keys[at[j]] == tag_key(sorted[j]));
    }
    assert forall|i: int| 0 <= i < shown.len() implies #[trigger] shown[i] == sorted[i] by {}
    assert forall|name: Seq<char>| #[trigger] tags.contains(name) implies (exists|i: int|
        0 <= i < shown.len() && (#[trigger] shown[i]).name == name) || (shown.len() == 100
        && forall|i: int|
        0 <= i < 100 ==> goes_before(tags, (#[trigger] shown[i]).name, name)) by {
        assert(names.contains(name));
        let k = choose|k: int| 0 <= k < names.len() && names[k] == name;
        lemma_every_place(at, names.len() as int, k);
        let p = choose|p: int| 0 <= p < at.len() && at[p] == k;
        assert(sorted[p].name == name);
        if p < shown.len() {
            assert(shown[p].name == name);
        } else {
            assert forall|i: int| 0 <= i < 100 implies goes_before(
                tags,
                (#[trigger] shown[i]).name,
                name,
            ) by {
                assert(sorted[i].name == shown[i].name);
            }
        }
    }
}

/// A list of `n` different places below `n` names each of them.
proof fn lemma_every_place(at: Seq<int>, n: int, k: int)
    requires
        at.len() == n,
        at.no_duplicates(),
        forall|i: int| 0 <= i < n ==> 0 <= #[trigger] at[i] < n,
        0 <= k < n,
    ensures
        exists|p: int| 0 <= p < at.len() && at[p] == k,
{
    broadcast use vstd::set_lib::group_set_lib_default;

    let all = vstd::set_lib::set_int_range(0, n);
    vstd::set_lib::lemma_int_range(0, n);
    at.unique_seq_to_set();
    assert(at.to_set().subset_of(all)) by {
        assert forall|x: int| #[trigger] at.to_set().contains(x) implies all.contains(x) by {
            let i = choose|i: int| 0 <= i < at.len() && at[i] == x;
            assert(0 <= at[i] < n);
        }
    }
    vstd::set_lib::lemma_subset_equality(at.to_set(), all);
    assert(all.contains(k));
    assert(at.to_set().contains(k));
}

/// How far the search has come after the replies of the places from `place` on.
pub open spec fn tag_run(place: int, replies: Seq<CatalogReply>) -> TagSearchModel
    decreases replies.len(),
{
    if replies.len() == 0 {
        TagSearchModel::Asking(place)
    } else {
        match tag_step(place, replies[0]) {
            TagSearchModel::Asking(next) => tag_run(next, replies.drop_first()),
            done => done,
        }
    }
}

proof fn lemma_tag_run(place: int, replies: Seq<CatalogReply>)
    requires
        0 <= place < tag_places().len(),
        place + replies.len() <= tag_places().len(),
    ensures
        tag_run(place, replies) matches TagSearchModel::Asking(next) ==> next == place
            + replies.len() && next < tag_places().len(),
    decreases replies.len(),
{
    if replies.len() > 0 {
        if let TagSearchModel::Asking(next) = tag_step(place, replies[0]) {
            lemma_tag_run(next, replies.drop_first());
        }
    }
}

/// The search asks no place twice and none that is not there, and is over once all have replied.
pub proof fn law_tag_search_ends(replies: Seq<CatalogReply>)
    requires
        replies.len() <= tag_places().len(),
    ensures
        tag_run(0, replies) matches TagSearchModel::Asking(next) ==> next == replies.len() && next
            < tag_places().len(),
{
    lemma_tag_run(0, replies);
}

proof fn lemma_first_json_decides(place: int, replies: Seq<CatalogReply>, body: Json)
    requires
        0 <= place,
        place + replies.len() < tag_places().len(),
        forall|i: int| 0 <= i < replies.len() ==> !((#[trigger] replies[i]) is Body),
    ensures
        tag_run(place, replies.push(CatalogReply::Body(body))) == tag_step(
            place + replies.len(),
            CatalogReply::Body(body),
        ),
    decreases replies.len(),
{
    let all = replies.push(CatalogReply::Body(body));
    if replies.len() > 0 {
        assert(!(replies[0] is Body));
        assert(all.drop_first() =~= replies.drop_first().push(CatalogReply::Body(body)));
        lemma_first_json_decides(place + 1, replies.drop_first(), body);
    }
}

/// The first place that answers with JSON decides: its tags are the outcome, and where it has none
/// they are counted.
pub proof fn law_first_answer_decides(replies: Seq<CatalogReply>, body: Json)
    requires
        replies.len() < tag_places().len(),
        forall|i: int| 0 <= i < replies.len() ==> !((#[trigger] replies[i]) is Body),
    ensures
        ({
            let tags = tags_of_nodes(nodes_of(body@));
            tag_run(0, replies.push(CatalogReply::Body(body))) == if tags.len() > 0 {
                TagSearchModel::Found(tags)
            } else {
                TagSearchModel::Counting
            }
        }),
{
    lemma_first_json_decides(0, replies, body);
}

/// Listed tags are read one by one: a record with a name is a tag, with its count where it has one.
pub proof fn law_tags_of_nodes(a: Seq<JsonModel>, b: Seq<JsonModel>, node: JsonModel)
    ensures
        tags_of_nodes(Seq::empty()).len() == 0,
        tags_of_nodes(a + b) == tags_of_nodes(a) + tags_of_nodes(b),
        node.get_str("name"@) matches Some(s) ==> trim(s).len() > 0 ==> tags_of_nodes(
            seq![node],
        ).len() == 1 && tags_of_nodes(seq![node])[0].name == s,
        node.get_str("name"@) matches Some(s) ==> trim(s).len() > 0 ==> (node.get_u64(
            "count"@,
        ) matches Some(n) ==> tags_of_nodes(seq![node])[0].count == Some(n)),
        node.get("name"@) is None && node.get("tag"@) is None && node.get("label"@) is None
            ==> tags_of_nodes(seq![node]).len() == 0,
    decreases b.len(),
{
    reveal_with_fuel(tags_of_nodes, 2);
    reveal_with_fuel(first_text, 4);
    assert(seq![node].drop_last() =~= Seq::empty());
    law_first_text(node, seq!["name"@, "tag"@, "label"@], 0);
    law_first_count(node, seq!["count"@, "n_characters"@, "usage_count"@, "total"@], 0);
    if b.len() == 0 {
        assert(a + b =~= a);
        assert(tags_of_nodes(a) + tags_of_nodes(b) =~= tags_of_nodes(a));
    } else {
        law_tags_of_nodes(a, b.drop_last(), node);
        assert((a + b).drop_last() =~= a + b.drop_last());
        assert((a + b).last() == b.last());
        assert(tags_of_nodes(a + b) =~= tags_of_nodes(a) + tags_of_nodes(b));
    }
}

/// Tags are counted character by character, its tags and its topics, and every occurrence counts.
pub proof fn law_tags_are_counted(
    nodes: Seq<JsonModel>,
    node: JsonModel,
    tags: Seq<Seq<char>>,
    tag: Seq<char>,
    name: Seq<char>,
)
    ensures
        all_tags(nodes.push(node)) == all_tags(nodes) + tags_of_character(node),
        node.get_array("tags"@) matches Some(items) ==> tags_of_character(node).take(
            texts_of_items(items).len() as int,
        ) == trimmed(texts_of_items(items)),
        node.get_array("topics"@) matches Some(items) ==> tags_of_character(node).skip(
            tags_of_character(node).len() - texts_of_items(items).len(),
        ) == trimmed(texts_of_items(items)),
        occurrences(Seq::empty(), name) == 0,
        occurrences(tags.push(tag), name) == occurrences(tags, name) + (if tag == name {
            1int
        } else {
            0
        }),
{
    assert(nodes.push(node).drop_last() =~= nodes);
    assert(tags.push(tag).drop_last() =~= tags);
    if let Some(items) = node.get_array("tags"@) {
        assert(tags_of_character(node).take(texts_of_items(items).len() as int) =~= trimmed(
            texts_of_items(items),
        ));
    }
    if let Some(items) = node.get_array("topics"@) {
        assert(tags_of_character(node).skip(
            tags_of_character(node).len() - texts_of_items(items).len(),
        ) =~= trimmed(texts_of_items(items)));
    }
}

/// From 1 to 500 tags are asked for, 100 where nothing is said, the frequent ones first, and those
/// that match the text where there is one; lists that differ in either are kept apart.
pub proof fn law_asked_of_the_tags(a: TagRequest, b: TagRequest)
    ensures
        1 <= a.asked_limit() <= 500,
        a.limit matches Some(n) ==> 1 <= n <= 500 ==> a.asked_limit() == n,
        a.limit is None ==> a.asked_limit() == 100,
        a.search matches Some(s) ==> trim(s@).len() > 0 ==> a.asked_search() == Some(trim(s@)),
        a.search is None ==> a.asked_search() is None,
        tag_parameters(a).contains(("first"@, decimal(a.asked_limit() as nat))),
        tag_parameters(a).contains(("sort"@, "count_desc"@)),
        tag_parameters(a).contains(("page"@, "1"@)),
        tag_parameters(a).contains(("namespace"@, "characters"@)),
        a.asked_search() matches Some(s) ==> tag_parameters(a).contains(("search"@, s)),
        tags_key(a) == tags_key(b) && a.asked_search() == b.asked_search() ==> a.asked_limit()
            == b.asked_limit(),
        tags_key(a) == tags_key(b) && a.asked_limit() == b.asked_limit() ==> a.asked_search()
            == b.asked_search(),
{
    let p = tag_parameters(a);
    assert(p.contains(p[0]) && p.contains(p[1]) && p.contains(p[2]) && p.contains(p[3]));
    if a.asked_search() is Some {
        assert(p.contains(p[4]));
    }
    let qa = match a.asked_search() {
        Some(s) => s,
        None => Seq::empty(),
    };
    let qb = match b.asked_search() {
        Some(s) => s,
        None => Seq::empty(),
    };
    let na = decimal(a.asked_limit() as nat);
    let nb = decimal(b.asked_limit() as nat);
    law_decimal(a.asked_limit() as nat);
    law_decimal(b.asked_limit() as nat);
    if tags_key(a) == tags_key(b) {
        if qa == qb {
            lemma_same_back("chub:tags:"@ + qa + ":"@, na, nb);
        }
        if na == nb {
            lemma_same_front("chub:tags:"@ + qa + ":"@, "chub:tags:"@ + qb + ":"@, na);
            lemma_same_front("chub:tags:"@ + qa, "chub:tags:"@ + qb, ":"@);
            lemma_same_back("chub:tags:"@, qa, qb);
        }
    }
}

/// Tags are counted in the hundred characters of the moment, the unsafe ones among them only where
/// pure mode is off.
pub proof fn law_asked_of_the_catalogue(pure_mode_off: bool)
    ensures
        catalog_parameters(pure_mode_off).contains(("first"@, "100"@)),
        catalog_parameters(pure_mode_off).contains(("page"@, "1"@)),
        catalog_parameters(pure_mode_off).contains(("sort"@, "trending"@)),
        catalog_parameters(pure_mode_off).contains(("namespace"@, "characters"@)),
        catalog_parameters(true).contains(("nsfw"@, "true"@)),
        catalog_parameters(false).contains(("nsfw"@, "false"@)),
        catalog_parameters(pure_mode_off).contains(("nsfw_only"@, "false"@)),
        catalog_parameters(pure_mode_off).contains(("include_forks"@, "true"@)),
        catalog_parameters(pure_mode_off).contains(("inclusive_or"@, "false"@)),
        catalog_parameters(pure_mode_off).contains(("asc"@, "false"@)),
        catalog_parameters(pure_mode_off).len() == 9,
{
    let p = catalog_parameters(pure_mode_off);
    assert(p.contains(p[0]) && p.contains(p[1]) && p.contains(p[2]) && p.contains(p[3]));
    assert(p.contains(p[5]) && p.contains(p[6]) && p.contains(p[7]) && p.contains(p[8]));
    assert(catalog_parameters(true).contains(catalog_parameters(true)[4]));
    assert(catalog_parameters(false).contains(catalog_parameters(false)[4]));
}

/// The tags that were counted are shown where there are any; else it is told why there are none.
pub proof fn law_counted_or_told(reply: CatalogReply)
    ensures
        match reply {
            CatalogReply::Body(body) => {
                let tags = frequent_tags(nodes_of(body@));
                &&& tags.len() > 0 ==> counted_tags(reply) == Ok::<Seq<TagModel>, Seq<char>>(tags)
                &&& tags.len() == 0 ==> counted_tags(reply) == Err::<Seq<TagModel>, Seq<char>>(
                    "No tags available from Chub right now."@,
                )
            },
            CatalogReply::Unsent(e) => counted_tags(reply) == Err::<Seq<TagModel>, Seq<char>>(e@),
            CatalogReply::Unreadable(e) => counted_tags(reply) == Err::<Seq<TagModel>, Seq<char>>(
                e@,
            ),
            CatalogReply::Refused { status, status_text } => counted_tags(reply) == Err::<
                Seq<TagModel>,
                Seq<char>,
            >("No tags available from Chub right now."@),
        },
{
}

/// Where no place answers with JSON the tags are counted, but only once all six were asked.
pub proof fn law_all_places_are_asked(replies: Seq<CatalogReply>)
    requires
        replies.len() <= 6,
        forall|i: int| 0 <= i < replies.len() ==> !((#[trigger] replies[i]) is Body),
    ensures
        replies.len() < 6 ==> tag_run(0, replies) == TagSearchModel::Asking(replies.len() as int),
        replies.len() == 6 ==> tag_run(0, replies) is Counting,
{
    lemma_places_are_asked(0, replies);
}

proof fn lemma_places_are_asked(place: int, replies: Seq<CatalogReply>)
    requires
        0 <= place < 6,
        place + replies.len() <= 6,
        forall|i: int| 0 <= i < replies.len() ==> !((#[trigger] replies[i]) is Body),
    ensures
        place + replies.len() < 6 ==> tag_run(place, replies) == TagSearchModel::Asking(
            place + replies.len(),
        ),
        place + replies.len() == 6 ==> tag_run(place, replies) is Counting,
    decreases replies.len(),
{
    if replies.len() > 0 {
        assert(!(replies[0] is Body));
        if place + 1 < 6 {
            lemma_places_are_asked(place + 1, replies.drop_first());
        } else {
            assert(replies.drop_first() =~= Seq::empty());
        }
    }
}

/// A tag may be named and counted under other words, where the usual ones are missing.
pub proof fn law_other_words(node: JsonModel, s: Seq<char>, n: u64)
    ensures
        node.get("name"@) is None && node.get_str("tag"@) == Some(s) && trim(s).len() > 0
            ==> tags_of_nodes(seq![node]).len() == 1 && tags_of_nodes(seq![node])[0].name == s,
        node.get("name"@) is None && node.get("tag"@) is None && node.get_str("label"@) == Some(s)
            && trim(s).len() > 0 ==> tags_of_nodes(seq![node]).len() == 1 && tags_of_nodes(
            seq![node],
        )[0].name == s,
        node.get_str("name"@) == Some(s) && trim(s).len() > 0 && node.get("count"@) is None
            && node.get_u64("n_characters"@) == Some(n) ==> tags_of_nodes(seq![node])[0].count
            == Some(n),
        node.get_str("name"@) == Some(s) && trim(s).len() > 0 && node.get("count"@) is None
            && node.get("n_characters"@) is None && node.get_u64("usage_count"@) == Some(n)
            ==> tags_of_nodes(seq![node])[0].count == Some(n),
        node.get_str("name"@) == Some(s) && trim(s).len() > 0 && node.get("count"@) is None
            && node.get("n_characters"@) is None && node.get("usage_count"@) is None
            && node.get_u64("total"@) == Some(n) ==> tags_of_nodes(seq![node])[0].count == Some(n),
{
    reveal_with_fuel(tags_of_nodes, 2);
    assert(seq![node].drop_last() =~= Seq::empty());
    let names = seq!["name"@, "tag"@, "label"@];
    let counts = seq!["count"@, "n_characters"@, "usage_count"@, "total"@];
    law_first_text(node, names, 0);
    if node.get("name"@) is None {
        law_first_text(node, names, 1);
        if node.get("tag"@) is None {
            law_first_text(node, names, 2);
        }
    }
    if node.get("count"@) is None {
        law_first_count(node, counts, 1);
        if node.get("n_characters"@) is None {
            law_first_count(node, counts, 2);
            if node.get("usage_count"@) is None {
                law_first_count(node, counts, 3);
            }
        }
    }
}

} // verus!
