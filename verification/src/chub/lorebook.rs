//! The book that comes with a character.
use vstd::prelude::*;

use super::fields::{
    bool_field, first_count, first_flag, first_text, law_first_count, law_first_flag,
    law_first_text, str_field, u64_field,
};
use super::import::{said_items, said_texts};
use crate::json::{group_json_views, json_views, Json, JsonModel};
use crate::stamp::{is_uuid, new_id, now_millis};
use crate::text::{decimal, decimal_u64, is_blank, strs, trim, views, views_len};

verus! {

/// An entry of a book as it is stored. The words are matched as they stand, and every entry has
/// the priority 0.
#[derive(Debug)]
pub struct LorebookEntryPlan {
    pub title: String,
    pub enabled: bool,
    pub always_active: bool,
    pub keywords: Vec<String>,
    pub case_sensitive: bool,
    pub content: String,
    pub display_order: i32,
}

#[verifier::ext_equal]
pub struct EntryModel {
    pub title: Seq<char>,
    pub enabled: bool,
    pub always_active: bool,
    pub keywords: Seq<Seq<char>>,
    pub case_sensitive: bool,
    pub content: Seq<char>,
    pub display_order: i32,
}

impl View for LorebookEntryPlan {
    type V = EntryModel;

    open spec fn view(&self) -> EntryModel {
        EntryModel {
            title: self.title@,
            enabled: self.enabled,
            always_active: self.always_active,
            keywords: views(self.keywords@),
            case_sensitive: self.case_sensitive,
            content: self.content@,
            display_order: self.display_order,
        }
    }
}

pub open spec fn entry_plans(entries: Seq<LorebookEntryPlan>) -> Seq<EntryModel> {
    entries.map_values(|e: LorebookEntryPlan| e@)
}

/// A book as it is stored.
#[derive(Debug)]
pub struct LorebookPlan {
    pub name: String,
    pub entries: Vec<LorebookEntryPlan>,
}

/// The words of an entry: a list of texts, or one text.
pub open spec fn keywords_of(entry: JsonModel) -> Seq<Seq<char>> {
    match entry.get("keys"@) {
        Some(JsonModel::Array(items)) => said_texts(items),
        Some(JsonModel::Text(s)) => if trim(s).len() > 0 {
            seq![s]
        } else {
            Seq::empty()
        },
        _ => Seq::empty(),
    }
}

fn entry_keywords(entry: &Json) -> (r: Vec<String>)
    ensures
        views(r@) == keywords_of(entry@),
{
    broadcast use group_json_views;

    let mut keys: Vec<String> = Vec::new();
    assert(views(keys@) =~= Seq::empty());
    match entry.get("keys") {
        Some(Json::Array(items)) => {
            return said_items(items);
        },
        Some(Json::Text(s)) => {
            if !is_blank(s.as_str()) {
                keys.push(s.clone());
                assert(views(keys@) =~= seq![s@]);
            }
        },
        _ => {},
    }
    keys
}

/// The place of an entry: the one that it names where that fits, or its place in the list.
pub open spec fn display_order_of(entry: JsonModel, index: int) -> i32 {
    match first_count(entry, seq!["insertion_order"@, "insertionOrder"@]) {
        Some(n) => if n <= i32::MAX {
            n as i32
        } else {
            index as i32
        },
        None => index as i32,
    }
}

pub open spec fn flag_else(entry: JsonModel, key: Seq<char>, default_flag: bool) -> bool {
    match first_flag(entry, seq![key]) {
        Some(b) => b,
        None => default_flag,
    }
}

/// The entry at a place of a list, unless it says nothing.
pub open spec fn entry_of(entry: JsonModel, index: int) -> Option<EntryModel> {
    match first_text(entry, seq!["content"@]) {
        Some(content) => if trim(content).len() == 0 {
            None
        } else {
            Some(
                EntryModel {
                    title: match first_text(entry, seq!["name"@, "comment"@, "title"@]) {
                        Some(s) => s,
                        None => "Entry "@ + decimal((index + 1) as nat),
                    },
                    enabled: flag_else(entry, "enabled"@, true),
                    always_active: flag_else(entry, "constant"@, false) && keywords_of(
                        entry,
                    ).len() == 0,
                    keywords: keywords_of(entry),
                    case_sensitive: match first_flag(
                        entry,
                        seq!["case_sensitive"@, "caseSensitive"@],
                    ) {
                        Some(b) => b,
                        None => false,
                    },
                    content,
                    display_order: display_order_of(entry, index),
                },
            )
        },
        None => None,
    }
}

pub open spec fn entries_of(entries: Seq<JsonModel>) -> Seq<EntryModel>
    decreases entries.len(),
{
    if entries.len() == 0 {
        Seq::empty()
    } else {
        let before = entries_of(entries.drop_last());
        match entry_of(entries.last(), entries.len() - 1) {
            Some(e) => before.push(e),
            None => before,
        }
    }
}

/// The name of a book: its own, or one after the character.
pub open spec fn book_name(book: JsonModel, character_name: Seq<char>) -> Seq<char> {
    match first_text(book, seq!["name"@]) {
        Some(name) => if trim(name).len() > 0 {
            name
        } else {
            character_name + " Lorebook"@
        },
        None => character_name + " Lorebook"@,
    }
}

fn entry_flag(entry: &Json, key: &str, default_flag: bool) -> (r: bool)
    ensures
        r == flag_else(entry@, key@, default_flag),
{
    let keys = vec![key];
    assert(strs(keys@) =~= seq![key@]);
    match bool_field(entry, &keys) {
        Some(b) => b,
        None => default_flag,
    }
}

fn entry_title(entry: &Json, index: usize) -> (r: String)
    requires
        index < usize::MAX,
    ensures
        r@ == (match first_text(entry@, seq!["name"@, "comment"@, "title"@]) {
            Some(s) => s,
            None => "Entry "@ + decimal((index + 1) as nat),
        }),
{
    let keys = vec!["name", "comment", "title"];
    assert(strs(keys@) =~= seq!["name"@, "comment"@, "title"@]);
    match str_field(entry, &keys) {
        Some(s) => s,
        None => {
            let mut title = "Entry ".to_string();
            title.append(decimal_u64(index as u64 + 1).as_str());
            title
        },
    }
}

fn entry_order(entry: &Json, index: usize) -> (r: i32)
    ensures
        r == display_order_of(entry@, index as int),
{
    let keys = vec!["insertion_order", "insertionOrder"];
    assert(strs(keys@) =~= seq!["insertion_order"@, "insertionOrder"@]);
    match u64_field(entry, &keys) {
        Some(n) => if n <= 2147483647 {
            n as i32
        } else {
            index as i32
        },
        None => index as i32,
    }
}

fn plan_entry(entry: &Json, index: usize) -> (r: Option<LorebookEntryPlan>)
    requires
        index < usize::MAX,
    ensures
        match r {
            Some(e) => entry_of(entry@, index as int) == Some(e@),
            None => entry_of(entry@, index as int) is None,
        },
{
    broadcast use views_len;

    let content_keys = vec!["content"];
    assert(strs(content_keys@) =~= seq!["content"@]);
    let content = match str_field(entry, &content_keys) {
        Some(s) => s,
        None => {
            return None;
        },
    };
    if is_blank(content.as_str()) {
        return None;
    }
    let keywords = entry_keywords(entry);
    let case_keys = vec!["case_sensitive", "caseSensitive"];
    assert(strs(case_keys@) =~= seq!["case_sensitive"@, "caseSensitive"@]);
    let case_sensitive = match bool_field(entry, &case_keys) {
        Some(b) => b,
        None => false,
    };
    let always_active = entry_flag(entry, "constant", false) && keywords.len() == 0;
    Some(
        LorebookEntryPlan {
            title: entry_title(entry, index),
            enabled: entry_flag(entry, "enabled", true),
            always_active,
            keywords,
            case_sensitive,
            content,
            display_order: entry_order(entry, index),
        },
    )
}

/// Whether this is what is stored of the book of a character: nothing of a book without entries.
pub open spec fn is_plan_of(
    stored: Option<LorebookPlan>,
    book: JsonModel,
    character_name: Seq<char>,
) -> bool {
    match stored {
        Some(plan) => {
            &&& book.get_array("entries"@) matches Some(items)
            &&& items.len() > 0
            &&& entry_plans(plan.entries@) == entries_of(items)
            &&& plan.name@ == book_name(book, character_name)
        },
        None => book.get_array("entries"@) matches Some(items) ==> items.len() == 0,
    }
}

/// Reads the book of a character. A book without entries is not stored.
pub fn import_character_book(book: &Json, character_name: &str) -> (r: Option<LorebookPlan>)
    ensures
        is_plan_of(r, book@, character_name@),
{
    let items = match book.get_array("entries") {
        Some(items) => items,
        None => {
            return None;
        },
    };
    if items.len() == 0 {
        return None;
    }
    let name_keys = vec!["name"];
    assert(strs(name_keys@) =~= seq!["name"@]);
    let own_name = match str_field(book, &name_keys) {
        Some(s) => if is_blank(s.as_str()) {
            None
        } else {
            Some(s)
        },
        None => None,
    };
    let name = match own_name {
        Some(s) => s,
        None => {
            let mut s = character_name.to_string();
            s.append(" Lorebook");
            s
        },
    };
    let ghost all = json_views(items@);
    let mut entries: Vec<LorebookEntryPlan> = Vec::new();
    assert(entry_plans(entries@) =~= Seq::empty());
    for i in 0..items.len()
        invariant
            all == json_views(items@),
            entry_plans(entries@) == entries_of(all.take(i as int)),
    {
        assert(all.take(i + 1).drop_last() =~= all.take(i as int));
        assert(all.take(i + 1).last() == items@[i as int]@);
        let ghost before = entries@;
        if let Some(entry) = plan_entry(&items[i], i) {
            entries.push(entry);
            assert(entry_plans(entries@) =~= entry_plans(before).push(entry@));
        }
    }
    assert(all.take(all.len() as int) =~= all);
    Some(LorebookPlan { name, entries })
}

/// An entry of a book as it is stored.
#[derive(Debug)]
pub struct LorebookEntryRecord {
    pub id: String,
    pub lorebook_id: String,
    pub entry: LorebookEntryPlan,
    pub priority: i32,
    pub created_at: i64,
    pub updated_at: i64,
}

/// A book as it is stored.
#[derive(Debug)]
pub struct LorebookRecord {
    pub id: String,
    pub name: String,
    pub entries: Vec<LorebookEntryRecord>,
    pub created_at: i64,
    pub updated_at: i64,
}

/// Whether an entry is stored under its book, with an id of its own and the time of the book.
pub open spec fn is_entry_of(
    stored: LorebookEntryRecord,
    entry: LorebookEntryPlan,
    book_id: Seq<char>,
    now: i64,
) -> bool {
    &&& is_uuid(stored.id@)
    &&& stored.lorebook_id@ == book_id
    &&& stored.entry == entry
    &&& stored.priority == 0
    &&& stored.created_at == now
    &&& stored.updated_at == now
}

/// Whether a book is stored with an id and a time of its own, and its entries under it in their
/// order.
pub open spec fn is_stored_book(stored: LorebookRecord, plan: LorebookPlan) -> bool {
    &&& is_uuid(stored.id@)
    &&& stored.name == plan.name
    &&& stored.created_at >= 0
    &&& stored.updated_at == stored.created_at
    &&& stored.entries@.len() == plan.entries@.len()
    &&& forall|i: int|
        0 <= i < stored.entries@.len() ==> is_entry_of(
            #[trigger] stored.entries@[i],
            plan.entries@[i],
            stored.id@,
            stored.created_at,
        )
}

/// Gives a book its id and its time, and each of its entries an id.
pub fn stamp_lorebook(plan: LorebookPlan) -> (r: LorebookRecord)
    ensures
        is_stored_book(r, plan),
{
    let id = new_id();
    let now: i64 = now_millis();
    let ghost all = plan.entries@;
    let mut entries: Vec<LorebookEntryRecord> = Vec::new();
    for entry in it: plan.entries.into_iter()
        invariant
            it.seq() == all,
            entries@.len() == it.index(),
            forall|i: int|
                0 <= i < entries@.len() ==> is_entry_of(
                    #[trigger] entries@[i],
                    all[i],
                    id@,
                    now,
                ),
    {
        let stored = LorebookEntryRecord {
            id: new_id(),
            lorebook_id: id.clone(),
            entry,
            priority: 0,
            created_at: now,
            updated_at: now,
        };
        entries.push(stored);
    }
    LorebookRecord { id, name: plan.name, entries, created_at: now, updated_at: now }
}

/// No stored entry is without content, and one that is always active has no words to be matched.
pub proof fn law_stored_entries(entries: Seq<JsonModel>)
    ensures
        entries_of(entries).len() <= entries.len(),
        forall|i: int|
            0 <= i < entries_of(entries).len() ==> {
                let e = #[trigger] entries_of(entries)[i];
                &&& trim(e.content).len() > 0
                &&& e.always_active ==> e.keywords.len() == 0
            },
    decreases entries.len(),
{
    if entries.len() > 0 {
        law_stored_entries(entries.drop_last());
        let before = entries_of(entries.drop_last());
        assert forall|i: int| 0 <= i < entries_of(entries).len() implies {
            let e = #[trigger] entries_of(entries)[i];
            &&& trim(e.content).len() > 0
            &&& e.always_active ==> e.keywords.len() == 0
        } by {
            if i < before.len() {
                assert(entries_of(entries)[i] == before[i]);
            }
        }
    }
}

proof fn lemma_entries_add(a: Seq<JsonModel>, b: Seq<JsonModel>)
    ensures
        entries_of(a + b).len() >= entries_of(a).len(),
        entries_of(a).is_prefix_of(entries_of(a + b)),
    decreases b.len(),
{
    if b.len() == 0 {
        assert(a + b =~= a);
    } else {
        lemma_entries_add(a, b.drop_last());
        assert((a + b).drop_last() =~= a + b.drop_last());
    }
}

/// Every entry that says something is stored: with its content and its words, in its place, switched
/// on unless it is switched off, and always active where it says so and has no words.
pub proof fn law_entry_is_stored(entries: Seq<JsonModel>, k: int)
    requires
        0 <= k < entries.len(),
        entries[k].get_str("content"@) matches Some(s) && trim(s).len() > 0,
    ensures
        exists|i: int|
            0 <= i < entries_of(entries).len() && {
                let e = #[trigger] entries_of(entries)[i];
                let given = entries[k];
                &&& Some(e.content) == given.get_str("content"@)
                &&& e.keywords == keywords_of(given)
                &&& e.enabled == (given.get_bool("enabled"@) != Some(false))
                &&& e.always_active == (given.get_bool("constant"@) == Some(true)
                    && e.keywords.len() == 0)
                &&& given.get_str("name"@) matches Some(s) ==> trim(s).len() > 0 ==> e.title == s
                &&& given.get("name"@) is None && given.get("comment"@) is None && given.get("title"@) is None
                    ==> e.title == "Entry "@ + decimal((k + 1) as nat)
                &&& given.get_bool("case_sensitive"@) matches Some(b) ==> e.case_sensitive == b
                &&& given.get_u64("insertion_order"@) matches Some(n) ==> n <= i32::MAX
                    ==> e.display_order == n
                &&& given.get("insertion_order"@) is None && given.get("insertionOrder"@) is None
                    ==> e.display_order == k as i32
            },
{
    let front = entries.take(k);
    let upto = entries.take(k + 1);
    let given = entries[k];
    assert(upto.drop_last() =~= front);
    assert(upto.last() == given);
    assert(entries =~= upto + entries.skip(k + 1));
    lemma_entries_add(upto, entries.skip(k + 1));
    law_first_text(given, seq!["content"@], 0);
    law_first_text(given, seq!["name"@, "comment"@, "title"@], 0);
    law_first_flag(given, seq!["enabled"@], 0);
    law_first_flag(given, seq!["constant"@], 0);
    law_first_flag(given, seq!["case_sensitive"@, "caseSensitive"@], 0);
    law_first_count(given, seq!["insertion_order"@, "insertionOrder"@], 0);
    reveal_with_fuel(first_text, 4);
    reveal_with_fuel(first_count, 3);
    let i = entries_of(front).len() as int;
    assert(entries_of(upto)[i] == entry_of(given, k)->0);
    assert(entries_of(entries)[i] == entries_of(upto)[i]);
}

/// The words of an entry are the texts of its list that are not blank, or its one text.
pub proof fn law_entry_keywords(entry: JsonModel)
    ensures
        entry.get_array("keys"@) matches Some(items) ==> keywords_of(entry) == said_texts(items),
        entry.get_str("keys"@) matches Some(s) ==> trim(s).len() > 0 ==> keywords_of(entry) == seq![s],
        entry.get("keys"@) is None ==> keywords_of(entry).len() == 0,
{
}

/// A book goes by its own name, or by that of its character where it has none.
pub proof fn law_book_name(book: JsonModel, character_name: Seq<char>)
    ensures
        book.get_str("name"@) matches Some(s) ==> trim(s).len() > 0 ==> book_name(
            book,
            character_name,
        ) == s,
        book.get("name"@) is None ==> book_name(book, character_name) == character_name
            + " Lorebook"@,
{
    law_first_text(book, seq!["name"@], 0);
}

/// An entry may go by the other spellings of its fields, where the usual ones are missing.
pub proof fn law_other_spellings(entry: JsonModel, index: int, s: Seq<char>, n: u64)
    requires
        entry.get_str("content"@) matches Some(content) && trim(content).len() > 0,
    ensures
        entry.get("name"@) is None && entry.get_str("comment"@) == Some(s) && trim(s).len() > 0
            ==> entry_of(entry, index)->0.title == s,
        entry.get("name"@) is None && entry.get("comment"@) is None && entry.get_str("title"@)
            == Some(s) && trim(s).len() > 0 ==> entry_of(entry, index)->0.title == s,
        entry.get_bool("case_sensitive"@) is None && entry.get_bool("caseSensitive"@) is Some
            ==> Some(entry_of(entry, index)->0.case_sensitive) == entry.get_bool("caseSensitive"@),
        entry.get("insertion_order"@) is None && entry.get_u64("insertionOrder"@) == Some(n) && n
            <= i32::MAX ==> entry_of(entry, index)->0.display_order == n,
        entry.get_bool("case_sensitive"@) is None && entry.get_bool("caseSensitive"@) is None
            ==> !entry_of(entry, index)->0.case_sensitive,
{
    let titles = seq!["name"@, "comment"@, "title"@];
    law_first_text(entry, seq!["content"@], 0);
    if entry.get("name"@) is None {
        law_first_text(entry, titles, 1);
        if entry.get("comment"@) is None {
            law_first_text(entry, titles, 2);
        }
    }
    if entry.get_bool("case_sensitive"@) is None {
        law_first_flag(entry, seq!["case_sensitive"@, "caseSensitive"@], 1);
    }
    if entry.get("insertion_order"@) is None {
        law_first_count(entry, seq!["insertion_order"@, "insertionOrder"@], 1);
    }
}

} // verus!
