//! Reading the fields of Chub's records, which go by several names.
use vstd::prelude::*;

use crate::json::{
    group_json_views, json_views, number_text, print_number, Json, JsonModel, Number, NumberModel,
};
use crate::text::{
    is_blank, opt_str_view, opt_view, same, starts_with, starts_with_str, strs, trim, views,
    views_push,
};

verus! {

/// The text of a field: a text that is not blank, or a number in print.
pub open spec fn text_of_field(v: JsonModel, key: Seq<char>) -> Option<Seq<char>> {
    match v.get(key) {
        Some(JsonModel::Text(s)) => if trim(s).len() > 0 {
            Some(s)
        } else {
            None
        },
        Some(JsonModel::Number(n)) => Some(number_text(n)),
        _ => None,
    }
}

/// The text of the first field of a list that has one.
pub open spec fn first_text(v: JsonModel, keys: Seq<Seq<char>>) -> Option<Seq<char>>
    decreases keys.len(),
{
    if keys.len() == 0 {
        None
    } else {
        match text_of_field(v, keys[0]) {
            Some(s) => Some(s),
            None => first_text(v, keys.drop_first()),
        }
    }
}

/// The count that a number stands for: the number without its fraction, unless it is negative.
pub open spec fn count_of_number(n: NumberModel) -> Option<u64> {
    match n {
        NumberModel::Unsigned(v) => Some(v),
        NumberModel::Negative(v) => if v < 0 {
            None
        } else {
            Some(v as u64)
        },
        NumberModel::Float { text, whole } => if starts_with(text, "-"@) && text != "-0.0"@ {
            None
        } else {
            Some(whole)
        },
    }
}

pub open spec fn count_of_field(v: JsonModel, key: Seq<char>) -> Option<u64> {
    match v.get(key) {
        Some(JsonModel::Number(n)) => count_of_number(n),
        _ => None,
    }
}

/// The count in the first field of a list that has one.
pub open spec fn first_count(v: JsonModel, keys: Seq<Seq<char>>) -> Option<u64>
    decreases keys.len(),
{
    if keys.len() == 0 {
        None
    } else {
        match count_of_field(v, keys[0]) {
            Some(n) => Some(n),
            None => first_count(v, keys.drop_first()),
        }
    }
}

/// The flag in the first field of a list that has one.
pub open spec fn first_flag(v: JsonModel, keys: Seq<Seq<char>>) -> Option<bool>
    decreases keys.len(),
{
    if keys.len() == 0 {
        None
    } else {
        match v.get_bool(keys[0]) {
            Some(b) => Some(b),
            None => first_flag(v, keys.drop_first()),
        }
    }
}

/// The text of an item of a list: the item itself, or its name.
pub open spec fn text_of_item(item: JsonModel) -> Option<Seq<char>> {
    let s = match item {
        JsonModel::Text(s) => Some(s),
        JsonModel::Object(_) => item.get_str("name"@),
        _ => None,
    };
    match s {
        Some(t) => if trim(t).len() > 0 {
            Some(t)
        } else {
            None
        },
        None => None,
    }
}

pub open spec fn texts_of_items(items: Seq<JsonModel>) -> Seq<Seq<char>>
    decreases items.len(),
{
    if items.len() == 0 {
        Seq::empty()
    } else {
        let before = texts_of_items(items.drop_last());
        match text_of_item(items.last()) {
            Some(s) => before.push(s),
            None => before,
        }
    }
}

/// The texts of a field that is a list.
pub open spec fn texts_of_field(v: JsonModel, key: Seq<char>) -> Seq<Seq<char>> {
    match v.get_array(key) {
        Some(items) => texts_of_items(items),
        None => Seq::empty(),
    }
}

fn field_text(value: &Json, key: &str) -> (r: Option<String>)
    ensures
        opt_view(r) == text_of_field(value@, key@),
{
    match value.get(key) {
        Some(Json::Text(s)) => if is_blank(s.as_str()) {
            None
        } else {
            Some(s.clone())
        },
        Some(Json::Number(n)) => Some(print_number(n)),
        _ => None,
    }
}

pub fn str_field(value: &Json, keys: &Vec<&str>) -> (r: Option<String>)
    ensures
        opt_view(r) == first_text(value@, strs(keys@)),
{
    let ghost all = strs(keys@);
    assert(all.skip(0) =~= all);
    for i in 0..keys.len()
        invariant
            all == strs(keys@),
            first_text(value@, all) == first_text(value@, all.skip(i as int)),
    {
        assert(all.skip(i as int)[0] == keys@[i as int]@);
        assert(all.skip(i as int).drop_first() =~= all.skip(i + 1));
        if let Some(s) = field_text(value, keys[i]) {
            return Some(s);
        }
    }
    None
}

fn number_count(n: &Number) -> (r: Option<u64>)
    ensures
        r == count_of_number(n@),
{
    match n {
        Number::Unsigned(v) => Some(*v),
        Number::Negative(v) => if *v < 0 {
            None
        } else {
            Some(*v as u64)
        },
        Number::Float { text, whole } => if starts_with_str(text.as_str(), "-") && !same(
            text.as_str(),
            "-0.0",
        ) {
            None
        } else {
            Some(*whole)
        },
    }
}

pub fn u64_field(value: &Json, keys: &Vec<&str>) -> (r: Option<u64>)
    ensures
        r == first_count(value@, strs(keys@)),
{
    let ghost all = strs(keys@);
    assert(all.skip(0) =~= all);
    for i in 0..keys.len()
        invariant
            all == strs(keys@),
            first_count(value@, all) == first_count(value@, all.skip(i as int)),
    {
        assert(all.skip(i as int)[0] == keys@[i as int]@);
        assert(all.skip(i as int).drop_first() =~= all.skip(i + 1));
        if let Some(Json::Number(n)) = value.get(keys[i]) {
            if let Some(count) = number_count(n) {
                return Some(count);
            }
        }
    }
    None
}

pub fn bool_field(value: &Json, keys: &Vec<&str>) -> (r: Option<bool>)
    ensures
        r == first_flag(value@, strs(keys@)),
{
    let ghost all = strs(keys@);
    assert(all.skip(0) =~= all);
    for i in 0..keys.len()
        invariant
            all == strs(keys@),
            first_flag(value@, all) == first_flag(value@, all.skip(i as int)),
    {
        assert(all.skip(i as int)[0] == keys@[i as int]@);
        assert(all.skip(i as int).drop_first() =~= all.skip(i + 1));
        if let Some(b) = value.get_bool(keys[i]) {
            return Some(b);
        }
    }
    None
}

/// The flag in one field, false where there is none.
pub open spec fn flag_or(v: JsonModel, key: Seq<char>, default_flag: bool) -> bool {
    match v.get_bool(key) {
        Some(b) => b,
        None => default_flag,
    }
}

fn item_text(item: &Json) -> (r: Option<&str>)
    ensures
        opt_str_view(r) == text_of_item(item@),
{
    broadcast use group_json_views;

    let s = match item {
        Json::Text(s) => Some(s.as_str()),
        _ => item.get_str("name"),
    };
    match s {
        Some(t) => if is_blank(t) {
            None
        } else {
            Some(t)
        },
        None => None,
    }
}

pub fn string_array_field(value: &Json, key: &str) -> (r: Vec<String>)
    ensures
        views(r@) == texts_of_field(value@, key@),
{
    let mut out: Vec<String> = Vec::new();
    assert(views(out@) =~= Seq::empty());
    if let Some(items) = value.get_array(key) {
        let ghost all = json_views(items@);
        for i in 0..items.len()
            invariant
                all == json_views(items@),
                views(out@) == texts_of_items(all.take(i as int)),
        {
            broadcast use views_push;

            assert(all.take(i + 1).drop_last() =~= all.take(i as int));
            assert(all.take(i + 1).last() == items@[i as int]@);
            if let Some(s) = item_text(&items[i]) {
                out.push(s.to_string());
            }
        }
        assert(all.take(all.len() as int) =~= all);
    }
    out
}

// ---------------------------------------------------------------------------
// Laws
// ---------------------------------------------------------------------------

/// Of several fields the first that says something counts: a text that is not blank is taken as it
/// stands, a number in print, and fields that say nothing are passed over.
pub proof fn law_first_text(v: JsonModel, keys: Seq<Seq<char>>, i: int)
    requires
        0 <= i < keys.len(),
        forall|j: int|
            0 <= j < i ==> match v.get(#[trigger] keys[j]) {
                Some(JsonModel::Text(s)) => trim(s).len() == 0,
                Some(JsonModel::Number(_)) => false,
                _ => true,
            },
    ensures
        match v.get(keys[i]) {
            Some(JsonModel::Text(s)) => trim(s).len() > 0 ==> first_text(v, keys) == Some(s),
            Some(JsonModel::Number(n)) => first_text(v, keys) == Some(number_text(n)),
            _ => i == keys.len() - 1 ==> first_text(v, keys) is None,
        },
        v.get_str(keys[i]) matches Some(s) ==> trim(s).len() == 0 && i == keys.len() - 1
            ==> first_text(v, keys) is None,
    decreases keys.len(),
{
    reveal_with_fuel(first_text, 2);
    if i > 0 {
        let rest = keys.drop_first();
        assert forall|j: int| 0 <= j < i - 1 implies match v.get(#[trigger] rest[j]) {
            Some(JsonModel::Text(s)) => trim(s).len() == 0,
            Some(JsonModel::Number(_)) => false,
            _ => true,
        } by {
            assert(rest[j] == keys[j + 1]);
        }
        assert(match v.get(keys[0]) {
            Some(JsonModel::Text(s)) => trim(s).len() == 0,
            Some(JsonModel::Number(_)) => false,
            _ => true,
        });
        law_first_text(v, rest, i - 1);
    }
}

/// Of several flags the first that is there counts.
pub proof fn law_first_flag(v: JsonModel, keys: Seq<Seq<char>>, i: int)
    requires
        0 <= i < keys.len(),
        forall|j: int| 0 <= j < i ==> v.get_bool(#[trigger] keys[j]) is None,
    ensures
        v.get_bool(keys[i]) is Some || i == keys.len() - 1 ==> first_flag(v, keys) == v.get_bool(
            keys[i],
        ),
    decreases keys.len(),
{
    reveal_with_fuel(first_flag, 2);
    if i > 0 {
        let rest = keys.drop_first();
        assert forall|j: int| 0 <= j < i - 1 implies v.get_bool(#[trigger] rest[j]) is None by {
            assert(rest[j] == keys[j + 1]);
        }
        assert(v.get_bool(keys[0]) is None);
        law_first_flag(v, rest, i - 1);
    }
}

/// Of several counts the first that is there counts; a whole number is its own count, and what is no
/// number or is negative is none.
pub proof fn law_first_count(v: JsonModel, keys: Seq<Seq<char>>, i: int)
    requires
        0 <= i < keys.len(),
        forall|j: int| 0 <= j < i ==> !(v.get(#[trigger] keys[j]) matches Some(JsonModel::Number(_))),
    ensures
        match v.get(keys[i]) {
            Some(JsonModel::Number(NumberModel::Unsigned(n))) => first_count(v, keys) == Some(n),
            Some(JsonModel::Number(NumberModel::Negative(n))) => n < 0 && i == keys.len() - 1
                ==> first_count(v, keys) is None,
            Some(JsonModel::Number(_)) => true,
            _ => i == keys.len() - 1 ==> first_count(v, keys) is None,
        },
    decreases keys.len(),
{
    reveal_with_fuel(first_count, 2);
    if i > 0 {
        let rest = keys.drop_first();
        assert forall|j: int| 0 <= j < i - 1 implies !(v.get(
            #[trigger] rest[j],
        ) matches Some(JsonModel::Number(_))) by {
            assert(rest[j] == keys[j + 1]);
        }
        assert(!(v.get(keys[0]) matches Some(JsonModel::Number(_))));
        law_first_count(v, rest, i - 1);
    }
}

/// A list is read item by item: a text that is not blank counts as it stands, an object by its name,
/// and nothing else does.
pub proof fn law_texts_of_items(a: Seq<JsonModel>, b: Seq<JsonModel>, item: JsonModel)
    ensures
        texts_of_items(Seq::empty()).len() == 0,
        texts_of_items(a + b) == texts_of_items(a) + texts_of_items(b),
        match item {
            JsonModel::Text(s) => texts_of_items(seq![item]) == (if trim(s).len() > 0 {
                seq![s]
            } else {
                Seq::empty()
            }),
            JsonModel::Object(_) => texts_of_items(seq![item]) == (match item.get_str("name"@) {
                Some(s) => if trim(s).len() > 0 {
                    seq![s]
                } else {
                    Seq::empty()
                },
                None => Seq::empty(),
            }),
            _ => texts_of_items(seq![item]).len() == 0,
        },
    decreases b.len(),
{
    reveal_with_fuel(texts_of_items, 2);
    assert(seq![item].drop_last() =~= Seq::empty());
    if b.len() == 0 {
        assert(a + b =~= a);
        assert(texts_of_items(a) + texts_of_items(b) =~= texts_of_items(a));
    } else {
        law_texts_of_items(a, b.drop_last(), item);
        assert((a + b).drop_last() =~= a + b.drop_last());
        assert((a + b).last() == b.last());
        assert(texts_of_items(a + b) =~= texts_of_items(a) + texts_of_items(b));
    }
    match item {
        JsonModel::Text(s) => {
            assert(texts_of_items(seq![item]) =~= if trim(s).len() > 0 {
                seq![s]
            } else {
                Seq::empty()
            });
        },
        JsonModel::Object(_) => {
            if let Some(s) = item.get_str("name"@) {
                assert(texts_of_items(seq![item]) =~= if trim(s).len() > 0 {
                    seq![s]
                } else {
                    Seq::empty()
                });
            }
        },
        _ => {},
    }
}

} // verus!
