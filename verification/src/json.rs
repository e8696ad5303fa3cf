//! JSON values: reading them, building them, printing them.
use vstd::prelude::*;

use crate::text::{
    chars_of, decimal, decimal_i64, decimal_int, decimal_u64, each_char, join, join_strs,
    lemma_each_char_add, same, views, views_push,
};

verus! {

// ---------------------------------------------------------------------------
// Values and what they say
// ---------------------------------------------------------------------------

/// A JSON number. One that is no integer of 64 bits is held by its text and by its integer
/// part, which is 0 for a negative number and at most `u64::MAX`.
#[derive(Debug)]
pub enum Number {
    Unsigned(u64),
    Negative(i64),
    Float { text: String, whole: u64 },
}

/// A JSON value. The members of an object stand in the order in which the object is walked.
#[derive(Debug)]
pub enum Json {
    Null,
    Bool(bool),
    Number(Number),
    Text(String),
    Array(Vec<Json>),
    Object(Vec<(String, Json)>),
}

pub enum NumberModel {
    Unsigned(u64),
    Negative(i64),
    Float { text: Seq<char>, whole: u64 },
}

/// What a JSON value says.
pub enum JsonModel {
    Null,
    Bool(bool),
    Number(NumberModel),
    Text(Seq<char>),
    Array(Seq<JsonModel>),
    Object(Seq<(Seq<char>, JsonModel)>),
}

impl View for Number {
    type V = NumberModel;

    open spec fn view(&self) -> NumberModel {
        match self {
            Number::Unsigned(n) => NumberModel::Unsigned(*n),
            Number::Negative(n) => NumberModel::Negative(*n),
            Number::Float { text, whole } => NumberModel::Float { text: text@, whole: *whole },
        }
    }
}

pub open spec fn json_view(j: Json) -> JsonModel
    decreases j,
{
    match j {
        Json::Null => JsonModel::Null,
        Json::Bool(b) => JsonModel::Bool(b),
        Json::Number(n) => JsonModel::Number(n@),
        Json::Text(s) => JsonModel::Text(s@),
        Json::Array(items) => JsonModel::Array(
            Seq::new(
                items@.len(),
                |i: int|
                    if 0 <= i < items@.len() {
                        json_view(items@[i])
                    } else {
                        JsonModel::Null
                    },
            ),
        ),
        Json::Object(members) => JsonModel::Object(
            Seq::new(
                members@.len(),
                |i: int|
                    if 0 <= i < members@.len() {
                        (members@[i].0@, json_view(members@[i].1))
                    } else {
                        (Seq::empty(), JsonModel::Null)
                    },
            ),
        ),
    }
}

impl View for Json {
    type V = JsonModel;

    open spec fn view(&self) -> JsonModel {
        json_view(*self)
    }
}

pub open spec fn json_views(items: Seq<Json>) -> Seq<JsonModel> {
    items.map_values(|j: Json| j@)
}

pub open spec fn member_views(members: Seq<(String, Json)>) -> Seq<(Seq<char>, JsonModel)> {
    members.map_values(|m: (String, Json)| (m.0@, m.1@))
}

pub open spec fn opt_json(v: Option<&Json>) -> Option<JsonModel> {
    match v {
        Some(j) => Some(j@),
        None => None,
    }
}

pub broadcast proof fn array_view(items: Vec<Json>)
    ensures
        #[trigger] json_view(Json::Array(items)) == JsonModel::Array(json_views(items@)),
{
    let j = Json::Array(items);
    assert(json_view(j)->Array_0 =~= json_views(items@));
}

pub broadcast proof fn object_view(members: Vec<(String, Json)>)
    ensures
        #[trigger] json_view(Json::Object(members)) == JsonModel::Object(member_views(members@)),
{
    let j = Json::Object(members);
    assert(json_view(j)->Object_0 =~= member_views(members@));
}

pub broadcast proof fn json_views_push(items: Seq<Json>, j: Json)
    ensures
        #[trigger] json_views(items.push(j)) == json_views(items).push(j@),
{
    assert(json_views(items.push(j)) =~= json_views(items).push(j@));
}

pub broadcast proof fn member_views_push(members: Seq<(String, Json)>, m: (String, Json))
    ensures
        #[trigger] member_views(members.push(m)) == member_views(members).push((m.0@, m.1@)),
{
    assert(member_views(members.push(m)) =~= member_views(members).push((m.0@, m.1@)));
}

pub broadcast group group_json_views {
    array_view,
    object_view,
    json_views_push,
    member_views_push,
}

// ---------------------------------------------------------------------------
// Reading
// ---------------------------------------------------------------------------

/// The value of the first member with the given name.
pub open spec fn member(members: Seq<(Seq<char>, JsonModel)>, key: Seq<char>) -> Option<JsonModel>
    decreases members.len(),
{
    if members.len() == 0 {
        None
    } else if members[0].0 == key {
        Some(members[0].1)
    } else {
        member(members.drop_first(), key)
    }
}

pub proof fn lemma_member_at(members: Seq<(Seq<char>, JsonModel)>, key: Seq<char>)
    ensures
        member(members, key) matches Some(v) ==> exists|i: int|
            0 <= i < members.len() && #[trigger] members[i].1 == v && members[i].0 == key,
    decreases members.len(),
{
    if members.len() == 0 {
    } else if members[0].0 == key {
        assert(members[0].1 == member(members, key)->0);
    } else {
        lemma_member_at(members.drop_first(), key);
        if member(members, key) is Some {
            let rest = members.drop_first();
            let i = choose|i: int|
                0 <= i < rest.len() && #[trigger] rest[i].1 == member(rest, key)->0 && rest[i].0
                    == key;
            assert(members[i + 1].1 == member(members, key)->0);
        }
    }
}

/// The first member with a name is the member of that name.
pub proof fn lemma_first_member(members: Seq<(Seq<char>, JsonModel)>, i: int)
    requires
        0 <= i < members.len(),
        forall|j: int| 0 <= j < i ==> (#[trigger] members[j]).0 != members[i].0,
    ensures
        member(members, members[i].0) == Some(members[i].1),
    decreases members.len(),
{
    if i > 0 {
        let rest = members.drop_first();
        assert forall|j: int| 0 <= j < i - 1 implies (#[trigger] rest[j]).0 != rest[i - 1].0 by {
            assert(rest[j] == members[j + 1]);
        }
        lemma_first_member(rest, i - 1);
        assert(members[0].0 != members[i].0);
    }
}

/// The members of a list go before those that are put behind them.
pub proof fn lemma_member_add(
    a: Seq<(Seq<char>, JsonModel)>,
    b: Seq<(Seq<char>, JsonModel)>,
    key: Seq<char>,
)
    ensures
        member(a + b, key) == (match member(a, key) {
            Some(v) => Some(v),
            None => member(b, key),
        }),
    decreases a.len(),
{
    if a.len() == 0 {
        assert(a + b =~= b);
    } else {
        assert((a + b)[0] == a[0]);
        assert((a + b).drop_first() =~= a.drop_first() + b);
        lemma_member_add(a.drop_first(), b, key);
    }
}

/// A name that no member has names no member.
pub proof fn lemma_no_member(members: Seq<(Seq<char>, JsonModel)>, key: Seq<char>)
    requires
        forall|j: int| 0 <= j < members.len() ==> (#[trigger] members[j]).0 != key,
    ensures
        member(members, key) is None,
    decreases members.len(),
{
    if members.len() > 0 {
        let rest = members.drop_first();
        assert forall|j: int| 0 <= j < rest.len() implies (#[trigger] rest[j]).0 != key by {
            assert(rest[j] == members[j + 1]);
        }
        lemma_no_member(rest, key);
        assert(members[0].0 != key);
    }
}

impl JsonModel {
    /// The value of a member of an object; nothing for another value.
    pub open spec fn get(self, key: Seq<char>) -> Option<JsonModel> {
        match self {
            JsonModel::Object(members) => member(members, key),
            _ => None,
        }
    }

    /// The item of an array at a place; nothing for another value.
    pub open spec fn at(self, i: int) -> Option<JsonModel> {
        match self {
            JsonModel::Array(items) => if 0 <= i < items.len() {
                Some(items[i])
            } else {
                None
            },
            _ => None,
        }
    }

    pub open spec fn as_str(self) -> Option<Seq<char>> {
        match self {
            JsonModel::Text(s) => Some(s),
            _ => None,
        }
    }

    pub open spec fn as_bool(self) -> Option<bool> {
        match self {
            JsonModel::Bool(b) => Some(b),
            _ => None,
        }
    }

    pub open spec fn as_u64(self) -> Option<u64> {
        match self {
            JsonModel::Number(NumberModel::Unsigned(n)) => Some(n),
            _ => None,
        }
    }

    /// The text of a member of an object.
    pub open spec fn get_str(self, key: Seq<char>) -> Option<Seq<char>> {
        match self.get(key) {
            Some(v) => v.as_str(),
            None => None,
        }
    }

    pub open spec fn get_bool(self, key: Seq<char>) -> Option<bool> {
        match self.get(key) {
            Some(v) => v.as_bool(),
            None => None,
        }
    }

    pub open spec fn get_u64(self, key: Seq<char>) -> Option<u64> {
        match self.get(key) {
            Some(v) => v.as_u64(),
            None => None,
        }
    }

    pub open spec fn get_array(self, key: Seq<char>) -> Option<Seq<JsonModel>> {
        match self.get(key) {
            Some(JsonModel::Array(items)) => Some(items),
            _ => None,
        }
    }

    pub open spec fn get_object(self, key: Seq<char>) -> Option<Seq<(Seq<char>, JsonModel)>> {
        match self.get(key) {
            Some(JsonModel::Object(members)) => Some(members),
            _ => None,
        }
    }
}

impl Json {
    /// The value of the member `key`, when this is an object that has one.
    pub fn get(&self, key: &str) -> (r: Option<&Json>)
        ensures
            opt_json(r) == self@.get(key@),
    {
        broadcast use group_json_views;

        match self {
            Json::Object(members) => get_member(members, key),
            _ => None,
        }
    }

    /// The item at place `i`, when this is an array that has one.
    pub fn at(&self, i: usize) -> (r: Option<&Json>)
        ensures
            opt_json(r) == self@.at(i as int),
    {
        broadcast use group_json_views;

        match self {
            Json::Array(items) => if i < items.len() {
                Some(&items[i])
            } else {
                None
            },
            _ => None,
        }
    }

    pub fn as_str(&self) -> (r: Option<&str>)
        ensures
            crate::text::opt_str_view(r) == self@.as_str(),
    {
        match self {
            Json::Text(s) => Some(s.as_str()),
            _ => None,
        }
    }

    pub fn as_bool(&self) -> (r: Option<bool>)
        ensures
            r == self@.as_bool(),
    {
        match self {
            Json::Bool(b) => Some(*b),
            _ => None,
        }
    }

    pub fn as_u64(&self) -> (r: Option<u64>)
        ensures
            r == self@.as_u64(),
    {
        match self {
            Json::Number(Number::Unsigned(n)) => Some(*n),
            _ => None,
        }
    }

    pub fn as_array(&self) -> (r: Option<&Vec<Json>>)
        ensures
            r is Some <==> self@ is Array,
            r matches Some(items) ==> self@ == JsonModel::Array(json_views(items@)),
    {
        broadcast use group_json_views;

        match self {
            Json::Array(items) => Some(items),
            _ => None,
        }
    }

    pub fn as_object(&self) -> (r: Option<&Vec<(String, Json)>>)
        ensures
            r is Some <==> self@ is Object,
            r matches Some(members) ==> self@ == JsonModel::Object(member_views(members@)),
    {
        broadcast use group_json_views;

        match self {
            Json::Object(members) => Some(members),
            _ => None,
        }
    }

    pub fn is_object(&self) -> (r: bool)
        ensures
            r == (self@ is Object),
    {
        match self {
            Json::Object(_) => true,
            _ => false,
        }
    }

    pub fn is_null(&self) -> (r: bool)
        ensures
            r == (self@ is Null),
    {
        match self {
            Json::Null => true,
            _ => false,
        }
    }

    pub fn get_str(&self, key: &str) -> (r: Option<&str>)
        ensures
            crate::text::opt_str_view(r) == self@.get_str(key@),
    {
        match self.get(key) {
            Some(v) => v.as_str(),
            None => None,
        }
    }

    pub fn get_bool(&self, key: &str) -> (r: Option<bool>)
        ensures
            r == self@.get_bool(key@),
    {
        match self.get(key) {
            Some(v) => v.as_bool(),
            None => None,
        }
    }

    pub fn get_u64(&self, key: &str) -> (r: Option<u64>)
        ensures
            r == self@.get_u64(key@),
    {
        match self.get(key) {
            Some(v) => v.as_u64(),
            None => None,
        }
    }

    pub fn get_array(&self, key: &str) -> (r: Option<&Vec<Json>>)
        ensures
            match r {
                Some(items) => self@.get_array(key@) == Some(json_views(items@)),
                None => self@.get_array(key@) is None,
            },
    {
        match self.get(key) {
            Some(v) => v.as_array(),
            None => None,
        }
    }

    pub fn get_object(&self, key: &str) -> (r: Option<&Vec<(String, Json)>>)
        ensures
            match r {
                Some(members) => self@.get_object(key@) == Some(member_views(members@)),
                None => self@.get_object(key@) is None,
            },
    {
        match self.get(key) {
            Some(v) => v.as_object(),
            None => None,
        }
    }
}

/// The place of the first member named `key`.
pub fn place_of_member(members: &Vec<(String, Json)>, key: &str) -> (r: Option<usize>)
    ensures
        match r {
            Some(i) => i < members@.len() && member(member_views(members@), key@) == Some(
                members@[i as int].1@,
            ),
            None => member(member_views(members@), key@) is None,
        },
{
    let ghost all = member_views(members@);
    assert(all.skip(0) =~= all);
    for i in 0..members.len()
        invariant
            all == member_views(members@),
            member(all, key@) == member(all.skip(i as int), key@),
    {
        assert(all.skip(i as int)[0] == (members@[i as int].0@, members@[i as int].1@));
        if same(members[i].0.as_str(), key) {
            return Some(i);
        }
        assert(all.skip(i as int).drop_first() =~= all.skip(i + 1));
    }
    None
}

/// The value of the first member named `key`.
pub fn get_member<'a>(members: &'a Vec<(String, Json)>, key: &str) -> (r: Option<&'a Json>)
    ensures
        opt_json(r) == member(member_views(members@), key@),
{
    let ghost all = member_views(members@);
    assert(all.skip(0) =~= all);
    for i in 0..members.len()
        invariant
            all == member_views(members@),
            member(all, key@) == member(all.skip(i as int), key@),
    {
        assert(all[i as int] == (members@[i as int].0@, members@[i as int].1@));
        if same(members[i].0.as_str(), key) {
            return Some(&members[i].1);
        }
        assert(all.skip(i as int).drop_first() =~= all.skip(i + 1));
    }
    None
}

// ---------------------------------------------------------------------------
// Building
// ---------------------------------------------------------------------------

/// The members with `key` set to `value`: in its place when it is there already, at the end
/// when it is not.
pub open spec fn with_member(
    members: Seq<(Seq<char>, JsonModel)>,
    key: Seq<char>,
    value: JsonModel,
) -> Seq<(Seq<char>, JsonModel)>
    decreases members.len(),
{
    if members.len() == 0 {
        seq![(key, value)]
    } else if members[0].0 == key {
        members.update(0, (key, value))
    } else {
        seq![members[0]] + with_member(members.drop_first(), key, value)
    }
}

proof fn lemma_with_member_at(
    members: Seq<(Seq<char>, JsonModel)>,
    key: Seq<char>,
    value: JsonModel,
    i: int,
)
    requires
        0 <= i <= members.len(),
        forall|j: int| 0 <= j < i ==> (#[trigger] members[j]).0 != key,
        i < members.len() ==> members[i].0 == key,
    ensures
        with_member(members, key, value) == (if i < members.len() {
            members.update(i, (key, value))
        } else {
            members.push((key, value))
        }),
    decreases members.len(),
{
    if members.len() == 0 {
        assert(members.push((key, value)) =~= seq![(key, value)]);
    } else if i > 0 {
        let rest = members.drop_first();
        assert forall|j: int| 0 <= j < i - 1 implies (#[trigger] rest[j]).0 != key by {
            assert(rest[j] == members[j + 1]);
        }
        if i < members.len() {
            assert(rest[i - 1] == members[i]);
        }
        lemma_with_member_at(rest, key, value, i - 1);
        if i < members.len() {
            assert(seq![members[0]] + rest.update(i - 1, (key, value)) =~= members.update(
                i,
                (key, value),
            ));
        } else {
            assert(seq![members[0]] + rest.push((key, value)) =~= members.push((key, value)));
        }
    }
}

/// Setting a member gives it the value and leaves the other members as they are.
pub proof fn lemma_member_of_with_member(
    members: Seq<(Seq<char>, JsonModel)>,
    key: Seq<char>,
    value: JsonModel,
    other: Seq<char>,
)
    ensures
        member(with_member(members, key, value), other) == (if other == key {
            Some(value)
        } else {
            member(members, other)
        }),
    decreases members.len(),
{
    reveal_with_fuel(member, 2);
    let after = with_member(members, key, value);
    if members.len() == 0 {
        assert(after.drop_first() =~= Seq::empty());
    } else if members[0].0 == key {
        assert(after.drop_first() =~= members.drop_first());
    } else {
        lemma_member_of_with_member(members.drop_first(), key, value, other);
        assert(after.drop_first() =~= with_member(members.drop_first(), key, value));
    }
}

/// Sets the member `key` to `value`.
pub fn put(members: &mut Vec<(String, Json)>, key: &str, value: Json)
    ensures
        member_views(final(members)@) == with_member(member_views(old(members)@), key@, value@),
{
    let ghost before = members@;
    let ghost all = member_views(before);
    let mut i: usize = 0;
    while i < members.len() && !same(members[i].0.as_str(), key)
        invariant
            members@ == before,
            all == member_views(before),
            i <= members.len(),
            forall|j: int| 0 <= j < i ==> (#[trigger] all[j]).0 != key@,
        decreases members.len() - i,
    {
        assert(all[i as int].0 == members@[i as int].0@);
        i = i + 1;
    }
    proof {
        if i < all.len() {
            assert(all[i as int].0 == before[i as int].0@);
        }
        lemma_with_member_at(all, key@, value@, i as int);
    }
    let entry = (key.to_string(), value);
    if i < members.len() {
        members.set(i, entry);
        assert(member_views(members@) =~= all.update(i as int, (key@, value@)));
    } else {
        members.push(entry);
        assert(member_views(members@) =~= all.push((key@, value@)));
    }
}

/// Adds a member at the end.
pub fn push_member(members: &mut Vec<(String, Json)>, key: &str, value: Json)
    ensures
        member_views(final(members)@) == member_views(old(members)@).push((key@, value@)),
{
    broadcast use group_json_views;

    members.push((key.to_string(), value));
}

/// The JSON text value of a string.
pub fn text(s: &str) -> (r: Json)
    ensures
        r@ == JsonModel::Text(s@),
{
    Json::Text(s.to_string())
}

pub open spec fn number(n: nat) -> JsonModel {
    JsonModel::Number(NumberModel::Unsigned(n as u64))
}

pub fn unsigned(n: u64) -> (r: Json)
    ensures
        r@ == JsonModel::Number(NumberModel::Unsigned(n)),
{
    Json::Number(Number::Unsigned(n))
}

pub open spec fn int_model(n: int) -> JsonModel {
    if n < 0 {
        JsonModel::Number(NumberModel::Negative(n as i64))
    } else {
        JsonModel::Number(NumberModel::Unsigned(n as u64))
    }
}

pub fn signed(n: i64) -> (r: Json)
    ensures
        r@ == int_model(n as int),
{
    if n < 0 {
        Json::Number(Number::Negative(n))
    } else {
        Json::Number(Number::Unsigned(n as u64))
    }
}

/// The JSON array of the given texts.
pub open spec fn text_array(texts: Seq<Seq<char>>) -> JsonModel {
    JsonModel::Array(texts.map_values(|s: Seq<char>| JsonModel::Text(s)))
}

pub fn texts(list: &Vec<String>) -> (r: Json)
    ensures
        r@ == text_array(views(list@)),
{
    broadcast use group_json_views;

    let mut out: Vec<Json> = Vec::new();
    for i in 0..list.len()
        invariant
            json_views(out@) == text_array(views(list@))->Array_0.take(i as int),
    {
        broadcast use group_json_views;

        let ghost goal = text_array(views(list@))->Array_0;
        assert(goal.take(i + 1) =~= goal.take(i as int).push(goal[i as int]));
        out.push(text(list[i].as_str()));
    }
    assert(text_array(views(list@))->Array_0.take(list@.len() as int) =~= text_array(
        views(list@),
    )->Array_0);
    Json::Array(out)
}

/// A copy of a number.
pub fn copy_number(n: &Number) -> (r: Number)
    ensures
        r@ == n@,
{
    match n {
        Number::Unsigned(v) => Number::Unsigned(*v),
        Number::Negative(v) => Number::Negative(*v),
        Number::Float { text, whole } => Number::Float { text: text.clone(), whole: *whole },
    }
}

/// A copy of a value.
pub fn copy(j: &Json) -> (r: Json)
    ensures
        r@ == j@,
    decreases j,
{
    broadcast use group_json_views;

    match j {
        Json::Null => Json::Null,
        Json::Bool(b) => Json::Bool(*b),
        Json::Number(n) => Json::Number(copy_number(n)),
        Json::Text(s) => Json::Text(s.clone()),
        Json::Array(items) => {
            let mut out: Vec<Json> = Vec::new();
            for i in 0..items.len()
                invariant
                    *j == Json::Array(*items),
                    json_views(out@) == json_views(items@).take(i as int),
            {
                broadcast use group_json_views;

                let ghost goal = json_views(items@);
                assert(goal.take(i + 1) =~= goal.take(i as int).push(goal[i as int]));
                assert(decreases_to!(j => j->Array_0));
                assert(decreases_to!(items => items@));
                assert(decreases_to!(items@ => items@[i as int]));
                out.push(copy(&items[i]));
            }
            assert(json_views(items@).take(items@.len() as int) =~= json_views(items@));
            Json::Array(out)
        },
        Json::Object(members) => {
            let mut out: Vec<(String, Json)> = Vec::new();
            for i in 0..members.len()
                invariant
                    *j == Json::Object(*members),
                    member_views(out@) == member_views(members@).take(i as int),
            {
                broadcast use group_json_views;

                let ghost goal = member_views(members@);
                assert(goal.take(i + 1) =~= goal.take(i as int).push(goal[i as int]));
                assert(decreases_to!(j => j->Object_0));
                assert(decreases_to!(members => members@));
                assert(decreases_to!(members@ => members@[i as int]));
                assert(decreases_to!(members@[i as int] => members@[i as int].1));
                out.push((members[i].0.clone(), copy(&members[i].1)));
            }
            assert(member_views(members@).take(members@.len() as int) =~= member_views(members@));
            Json::Object(out)
        },
    }
}

/// A copy of a list of values.
pub fn copy_all(items: &Vec<Json>) -> (r: Vec<Json>)
    ensures
        json_views(r@) == json_views(items@),
{
    let mut out: Vec<Json> = Vec::new();
    for i in 0..items.len()
        invariant
            json_views(out@) == json_views(items@).take(i as int),
    {
        broadcast use group_json_views;

        let ghost goal = json_views(items@);
        assert(goal.take(i + 1) =~= goal.take(i as int).push(goal[i as int]));
        out.push(copy(&items[i]));
    }
    assert(json_views(items@).take(items@.len() as int) =~= json_views(items@));
    out
}

// ---------------------------------------------------------------------------
// Parsing
// ---------------------------------------------------------------------------

/// A JSON value as `serde_json` holds it.
#[verifier::external_type_specification]
#[verifier::external_body]
pub struct ExValue(serde_json::Value);

/// What a `serde_json` value says: its kind, its number, its text, its items or its members in
/// the order in which they are walked.
pub uninterp spec fn value_model(v: serde_json::Value) -> JsonModel;

/// What `serde_json` reads a text as: the value it denotes, or the message of the error.
pub uninterp spec fn json_parse(text: Seq<char>) -> Result<JsonModel, Seq<char>>;

/// One layer of a `serde_json` value.
pub enum Layer {
    Null,
    Bool(bool),
    Number(Number),
    Text(String),
    Items(Vec<serde_json::Value>),
    Members(Vec<(String, serde_json::Value)>),
}

pub open spec fn value_models(items: Seq<serde_json::Value>) -> Seq<JsonModel> {
    items.map_values(|v: serde_json::Value| value_model(v))
}

pub open spec fn named_models(members: Seq<(String, serde_json::Value)>) -> Seq<
    (Seq<char>, JsonModel),
> {
    members.map_values(|m: (String, serde_json::Value)| (m.0@, value_model(m.1)))
}

pub open spec fn layer_model(layer: Layer) -> JsonModel {
    match layer {
        Layer::Null => JsonModel::Null,
        Layer::Bool(b) => JsonModel::Bool(b),
        Layer::Number(n) => JsonModel::Number(n@),
        Layer::Text(s) => JsonModel::Text(s@),
        Layer::Items(items) => JsonModel::Array(value_models(items@)),
        Layer::Members(members) => JsonModel::Object(named_models(members@)),
    }
}

pub open spec fn read_model(r: Result<serde_json::Value, String>) -> Result<JsonModel, Seq<char>> {
    match r {
        Ok(v) => Ok(value_model(v)),
        Err(e) => Err(e@),
    }
}

/// Whether a JSON string was read, and which.
pub open spec fn is_text(read: Result<JsonModel, Seq<char>>, s: Seq<char>) -> bool {
    read == Ok::<JsonModel, Seq<char>>(JsonModel::Text(s))
}

/// `serde_json::from_str` into a `serde_json::Value`: the outcome depends on the text alone, and
/// `json_parse` is the name for it; of a failure the displayed message is kept. A JSON string is
/// read as the text that it quotes.
#[verifier::external_body]
fn parse_value(text: &str) -> (r: Result<serde_json::Value, String>)
    ensures
        read_model(r) == json_parse(text@),
        forall|s: Seq<char>|
            text@ == #[trigger] json_quote(s) ==> is_text(read_model(r), s),
{
    serde_json::from_str::<serde_json::Value>(text).map_err(|e| e.to_string())
}

/// The variants of `serde_json::Value`, moved out one for one. A number is taken by `as_u64`, else
/// by `as_i64`, else by its displayed text and by its value cut off to an unsigned integer.
#[verifier::external_body]
fn open_value(value: serde_json::Value) -> (r: Layer)
    ensures
        layer_model(r) == value_model(value),
{
    match value {
        serde_json::Value::Null => Layer::Null,
        serde_json::Value::Bool(b) => Layer::Bool(b),
        serde_json::Value::Number(n) => Layer::Number(match (n.as_u64(), n.as_i64()) {
            (Some(u), _) => Number::Unsigned(u),
            (None, Some(i)) => Number::Negative(i),
            _ => Number::Float { text: n.to_string(), whole: n.as_f64().map_or(0, |x| x as u64) },
        }),
        serde_json::Value::String(s) => Layer::Text(s),
        serde_json::Value::Array(items) => Layer::Items(items),
        serde_json::Value::Object(members) => Layer::Members(members.into_iter().collect()),
    }
}

/// The library's own form of a `serde_json` value.
pub fn json_of(value: serde_json::Value) -> (r: Json)
    ensures
        r@ == value_model(value),
    decreases value_model(value),
{
    broadcast use group_json_views;

    let ghost model = value_model(value);
    match open_value(value) {
        Layer::Null => Json::Null,
        Layer::Bool(b) => Json::Bool(b),
        Layer::Number(n) => Json::Number(n),
        Layer::Text(s) => Json::Text(s),
        Layer::Items(items) => {
            let ghost all = value_models(items@);
            let mut out: Vec<Json> = Vec::new();
            for item in it: items.into_iter()
                invariant
                    model == JsonModel::Array(all),
                    value_model(value) == model,
                    value_models(it.seq()) == all,
                    json_views(out@) == all.take(it.index() as int),
            {
                broadcast use group_json_views;

                let ghost i = it.index() as int;
                assert(value_models(it.seq())[i] == value_model(item));
                assert(decreases_to!(model => model->Array_0));
                assert(decreases_to!(all => all[i]));
                assert(all.take(i + 1) =~= all.take(i).push(all[i]));
                out.push(json_of(item));
            }
            assert(all.take(all.len() as int) =~= all);
            Json::Array(out)
        },
        Layer::Members(members) => {
            let ghost all = named_models(members@);
            let mut out: Vec<(String, Json)> = Vec::new();
            for entry in it: members.into_iter()
                invariant
                    model == JsonModel::Object(all),
                    value_model(value) == model,
                    named_models(it.seq()) == all,
                    member_views(out@) == all.take(it.index() as int),
            {
                broadcast use group_json_views;

                let ghost i = it.index() as int;
                assert(named_models(it.seq())[i] == (entry.0@, value_model(entry.1)));
                assert(decreases_to!(model => model->Object_0));
                assert(decreases_to!(all => all[i]));
                assert(decreases_to!(all[i] => all[i].1));
                assert(all.take(i + 1) =~= all.take(i).push(all[i]));
                out.push((entry.0, json_of(entry.1)));
            }
            assert(all.take(all.len() as int) =~= all);
            Json::Object(out)
        },
    }
}

pub open spec fn parsed_view(r: Result<Json, String>) -> Result<JsonModel, Seq<char>> {
    match r {
        Ok(j) => Ok(j@),
        Err(e) => Err(e@),
    }
}

/// Reads a text as JSON.
pub fn parse(text: &str) -> (r: Result<Json, String>)
    ensures
        parsed_view(r) == json_parse(text@),
        forall|s: Seq<char>|
            text@ == #[trigger] json_quote(s) ==> is_text(parsed_view(r), s),
{
    match parse_value(text) {
        Ok(value) => Ok(json_of(value)),
        Err(e) => Err(e),
    }
}

// ---------------------------------------------------------------------------
// Members as they are written
// ---------------------------------------------------------------------------

/// The place behind the closing quotation mark of a string, `i` being a place inside it.
pub open spec fn string_end(text: Seq<char>, i: int) -> int
    decreases text.len() - i,
{
    if i >= text.len() {
        text.len() as int
    } else if text[i] == '"' {
        i + 1
    } else if text[i] == '\\' && i + 1 < text.len() {
        string_end(text, i + 2)
    } else {
        string_end(text, i + 1)
    }
}

/// Whether a colon comes next, after any space.
pub open spec fn colon_next(text: Seq<char>, i: int) -> bool
    decreases text.len() - i,
{
    i < text.len() && (text[i] == ':' || ((text[i] == ' ' || text[i] == '\n' || text[i] == '\r'
        || text[i] == '\t') && colon_next(text, i + 1)))
}

/// The names that an object in JSON notation gives its members, each in its quotation marks as it
/// is written, from place `i` on, where `depth` brackets are open.
pub open spec fn names_from(text: Seq<char>, i: int, depth: nat) -> Seq<Seq<char>>
    decreases text.len() - i,
{
    if i >= text.len() {
        Seq::empty()
    } else if text[i] == '"' {
        proof {
            lemma_string_end(text, i + 1);
        }
        let end = string_end(text, i + 1);
        let rest = names_from(text, end, depth);
        if depth == 1 && colon_next(text, end) {
            seq![text.subrange(i, end)] + rest
        } else {
            rest
        }
    } else if text[i] == '{' || text[i] == '[' {
        names_from(text, i + 1, depth + 1)
    } else if (text[i] == '}' || text[i] == ']') && depth > 0 {
        names_from(text, i + 1, (depth - 1) as nat)
    } else {
        names_from(text, i + 1, depth)
    }
}

/// The names that an object in JSON notation gives its members, as they are written.
pub open spec fn written_names(text: Seq<char>) -> Seq<Seq<char>> {
    names_from(text, 0, 0)
}

/// Whether an object in JSON notation has two members of this name. The value that is read from the
/// text does not tell: it keeps the last of them.
pub open spec fn repeats_member(text: Seq<char>, key: Seq<char>) -> bool {
    exists|a: int, b: int|
        0 <= a < b < written_names(text).len() && is_text(
            json_parse(#[trigger] written_names(text)[a]),
            key,
        ) && is_text(json_parse(#[trigger] written_names(text)[b]), key)
}

/// A string ends behind its inside.
pub proof fn lemma_string_end(text: Seq<char>, i: int)
    requires
        i <= text.len(),
    ensures
        i <= string_end(text, i) <= text.len(),
    decreases text.len() - i,
{
    if i < text.len() {
        if text[i] == '\\' && i + 1 < text.len() {
            lemma_string_end(text, i + 2);
        } else if text[i] != '"' {
            lemma_string_end(text, i + 1);
        }
    }
}

fn find_string_end(text: &Vec<char>, from: usize) -> (r: usize)
    requires
        from <= text@.len(),
    ensures
        r == string_end(text@, from as int),
        from <= r <= text@.len(),
{
    let mut i: usize = from;
    while i < text.len()
        invariant
            from <= i <= text@.len(),
            string_end(text@, i as int) == string_end(text@, from as int),
        decreases text@.len() - i,
    {
        if text[i] == '"' {
            return i + 1;
        }
        i = if text[i] == '\\' && i + 1 < text.len() {
            i + 2
        } else {
            i + 1
        };
    }
    i
}

fn is_colon_next(text: &Vec<char>, from: usize) -> (r: bool)
    requires
        from <= text@.len(),
    ensures
        r == colon_next(text@, from as int),
{
    for i in from..text.len()
        invariant
            from <= text@.len(),
            colon_next(text@, i as int) == colon_next(text@, from as int),
    {
        if text[i] == ':' {
            return true;
        }
        if text[i] != ' ' && text[i] != '\n' && text[i] != '\r' && text[i] != '\t' {
            return false;
        }
    }
    false
}

fn part_of(text: &Vec<char>, from: usize, to: usize) -> (r: String)
    requires
        from <= to <= text@.len(),
    ensures
        r@ == text@.subrange(from as int, to as int),
{
    let mut out = String::new();
    assert(out@ =~= text@.subrange(from as int, from as int));
    for i in from..to
        invariant
            from <= to <= text@.len(),
            out@ == text@.subrange(from as int, i as int),
    {
        out.push(text[i]);
        assert(text@.subrange(from as int, i + 1) =~= text@.subrange(from as int, i as int).push(
            text@[i as int],
        ));
    }
    out
}

fn find_names(text: &str) -> (r: Vec<String>)
    ensures
        views(r@) == written_names(text@),
{
    broadcast use views_push;

    let chars = chars_of(text);
    let mut out: Vec<String> = Vec::new();
    let mut i: usize = 0;
    let mut depth: usize = 0;
    assert(views(out@) + names_from(chars@, 0, 0) =~= written_names(text@));
    while i < chars.len()
        invariant
            chars@ == text@,
            depth <= i <= chars@.len(),
            views(out@) + names_from(chars@, i as int, depth as nat) == written_names(text@),
        decreases chars@.len() - i,
    {
        let c = chars[i];
        if c == '"' {
            let end = find_string_end(&chars, i + 1);
            let ghost rest = names_from(chars@, end as int, depth as nat);
            if depth == 1 && is_colon_next(&chars, end) {
                let name = part_of(&chars, i, end);
                let ghost before = views(out@);
                out.push(name);
                assert(before + (seq![name@] + rest) =~= before.push(name@) + rest);
            }
            i = end;
        } else {
            if c == '{' || c == '[' {
                depth = depth + 1;
            } else if (c == '}' || c == ']') && depth > 0 {
                depth = depth - 1;
            }
            i = i + 1;
        }
    }
    assert(views(out@) + Seq::<Seq<char>>::empty() =~= views(out@));
    out
}

/// Whether an object in JSON notation has two members of this name.
pub fn has_member_twice(text: &str, key: &str) -> (r: bool)
    ensures
        r == repeats_member(text@, key@),
{
    let names = find_names(text);
    let ghost all = written_names(text@);
    let mut seen = false;
    for i in 0..names.len()
        invariant
            all == written_names(text@),
            views(names@) == all,
            seen == exists|a: int| 0 <= a < i && is_text(json_parse(#[trigger] all[a]), key@),
            forall|a: int, b: int|
                0 <= a < b < i && is_text(json_parse(#[trigger] all[a]), key@) ==> !is_text(
                    json_parse(#[trigger] all[b]),
                    key@,
                ),
    {
        assert(all[i as int] == names@[i as int]@);
        if let Ok(Json::Text(name)) = parse(names[i].as_str()) {
            if same(name.as_str(), key) {
                if seen {
                    return true;
                }
                seen = true;
            }
        }
    }
    false
}

// ---------------------------------------------------------------------------
// Printing
// ---------------------------------------------------------------------------

/// The lower-case hexadecimal digit of a number below sixteen.
pub open spec fn hex_digit(n: int) -> char {
    if n < 10 {
        (n + '0' as int) as char
    } else {
        (n - 10 + 'a' as int) as char
    }
}

/// A character inside a JSON string: quotation marks, backslashes and control characters are
/// escaped, the rest stands for itself.
pub open spec fn json_char(c: char) -> Seq<char> {
    if c == '"' || c == '\\' {
        seq!['\\', c]
    } else if c == '\n' {
        seq!['\\', 'n']
    } else if c == '\r' {
        seq!['\\', 'r']
    } else if c == '\t' {
        seq!['\\', 't']
    } else if c as int == 8 {
        seq!['\\', 'b']
    } else if c as int == 12 {
        seq!['\\', 'f']
    } else if (c as int) < 32 {
        seq!['\\', 'u', '0', '0', hex_digit(c as int / 16), hex_digit(c as int % 16)]
    } else {
        seq![c]
    }
}

pub open spec fn json_chars() -> spec_fn(char) -> Seq<char> {
    |c: char| json_char(c)
}

/// A text as a JSON string, with its quotation marks and escapes.
pub open spec fn json_quote(s: Seq<char>) -> Seq<char> {
    seq!['"'] + each_char(s, json_chars()) + seq!['"']
}

/// `serde_json::to_string` of a string: the text between quotation marks, every character in it
/// as `json_char` spells it.
#[verifier::external_body]
fn quote(s: &str) -> (r: String)
    ensures
        r@ == json_quote(s@),
{
    serde_json::to_string(s).unwrap_or_default()
}

pub open spec fn number_text(n: NumberModel) -> Seq<char> {
    match n {
        NumberModel::Unsigned(v) => decimal(v as nat),
        NumberModel::Negative(v) => decimal_int(v as int),
        NumberModel::Float { text, whole } => text,
    }
}

/// The value in JSON notation, without any space between its parts.
pub open spec fn json_text(j: JsonModel) -> Seq<char>
    decreases j,
{
    match j {
        JsonModel::Null => "null"@,
        JsonModel::Bool(b) => if b {
            "true"@
        } else {
            "false"@
        },
        JsonModel::Number(n) => number_text(n),
        JsonModel::Text(s) => json_quote(s),
        JsonModel::Array(items) => "["@ + join(item_texts(items), ","@) + "]"@,
        JsonModel::Object(members) => "{"@ + join(member_texts(members), ","@) + "}"@,
    }
}

pub open spec fn item_texts(items: Seq<JsonModel>) -> Seq<Seq<char>>
    decreases items,
{
    Seq::new(
        items.len(),
        |i: int|
            if 0 <= i < items.len() {
                json_text(items[i])
            } else {
                Seq::empty()
            },
    )
}

pub open spec fn member_texts(members: Seq<(Seq<char>, JsonModel)>) -> Seq<Seq<char>>
    decreases members,
{
    Seq::new(
        members.len(),
        |i: int|
            if 0 <= i < members.len() {
                json_quote(members[i].0) + ":"@ + json_text(members[i].1)
            } else {
                Seq::empty()
            },
    )
}

pub fn print_number(n: &Number) -> (r: String)
    ensures
        r@ == number_text(n@),
{
    match n {
        Number::Unsigned(v) => decimal_u64(*v),
        Number::Negative(v) => decimal_i64(*v),
        Number::Float { text, whole } => text.clone(),
    }
}

/// Writes a value in JSON notation.
pub fn print(j: &Json) -> (r: String)
    ensures
        r@ == json_text(j@),
    decreases j,
{
    broadcast use group_json_views;

    match j {
        Json::Null => "null".to_string(),
        Json::Bool(b) => if *b {
            "true".to_string()
        } else {
            "false".to_string()
        },
        Json::Number(n) => print_number(n),
        Json::Text(s) => quote(s.as_str()),
        Json::Array(items) => {
            let mut parts: Vec<String> = Vec::new();
            for i in 0..items.len()
                invariant
                    *j == Json::Array(*items),
                    parts@.len() == i,
                    forall|k: int| 0 <= k < i ==> (#[trigger] parts@[k])@ == json_text(items@[k]@),
            {
                assert(decreases_to!(j => j->Array_0));
                assert(decreases_to!(items => items@));
                assert(decreases_to!(items@ => items@[i as int]));
                parts.push(print(&items[i]));
            }
            let inner = join_strs(&parts, ",");
            assert(views(parts@) =~= item_texts(json_views(items@)));
            let mut out = "[".to_string();
            out.append(inner.as_str());
            out.append("]");
            out
        },
        Json::Object(members) => {
            let mut parts: Vec<String> = Vec::new();
            for i in 0..members.len()
                invariant
                    *j == Json::Object(*members),
                    parts@.len() == i,
                    forall|k: int|
                        0 <= k < i ==> (#[trigger] parts@[k])@ == json_quote(members@[k].0@) + ":"@
                            + json_text(members@[k].1@),
            {
                assert(decreases_to!(j => j->Object_0));
                assert(decreases_to!(members => members@));
                assert(decreases_to!(members@ => members@[i as int]));
                assert(decreases_to!(members@[i as int] => members@[i as int].1));
                let mut part = quote(members[i].0.as_str());
                part.append(":");
                part.append(print(&members[i].1).as_str());
                parts.push(part);
            }
            let inner = join_strs(&parts, ",");
            assert(views(parts@) =~= member_texts(member_views(members@)));
            let mut out = "{".to_string();
            out.append(inner.as_str());
            out.append("}");
            out
        },
    }
}

// ---------------------------------------------------------------------------
// Laws of the notation
// ---------------------------------------------------------------------------

/// A text in JSON notation stands between quotation marks. Its characters follow one another:
/// quotation marks and backslashes behind a backslash, line breaks and tabs by their letters, and
/// any other that is no control character as it is.
pub proof fn law_text_notation(a: Seq<char>, b: Seq<char>, c: char)
    ensures
        json_text(JsonModel::Text(Seq::empty())) == seq!['"', '"'],
        ({
            let inside = |s: Seq<char>| json_text(JsonModel::Text(s)).drop_first().drop_last();
            &&& json_text(JsonModel::Text(a)) == seq!['"'] + inside(a) + seq!['"']
            &&& inside(a + b) == inside(a) + inside(b)
            &&& c == '"' || c == '\\' ==> inside(seq![c]) == seq!['\\', c]
            &&& c as u32 >= 32 && c != '"' && c != '\\' ==> inside(seq![c]) == seq![c]
            &&& inside(seq!['\n']) == seq!['\\', 'n']
            &&& inside(seq!['\r']) == seq!['\\', 'r']
            &&& inside(seq!['\t']) == seq!['\\', 't']
        }),
{
    lemma_each_char_add(a, b, json_chars());
    lemma_inside(Seq::empty());
    lemma_inside(a);
    lemma_inside(b);
    lemma_inside(a + b);
    lemma_inside(seq![c]);
    lemma_inside(seq!['\n']);
    lemma_inside(seq!['\r']);
    lemma_inside(seq!['\t']);
    lemma_one_char(c);
    lemma_one_char('\n');
    lemma_one_char('\r');
    lemma_one_char('\t');
    assert(json_text(JsonModel::Text(Seq::empty())) =~= seq!['"', '"']);
}

proof fn lemma_inside(s: Seq<char>)
    ensures
        json_text(JsonModel::Text(s)).drop_first().drop_last() == each_char(s, json_chars()),
{
    assert(json_text(JsonModel::Text(s)).drop_first().drop_last() =~= each_char(s, json_chars()));
}

proof fn lemma_one_char(c: char)
    ensures
        each_char(seq![c], json_chars()) == json_char(c),
{
    reveal_with_fuel(each_char, 2);
    assert(seq![c].drop_first() =~= Seq::empty());
    assert(each_char(seq![c], json_chars()) =~= json_char(c));
}

/// The other values in JSON notation: a list between brackets and an object between braces, its
/// names as texts before colons, commas between the items and the members. Nothing is left out.
pub proof fn law_value_notation(
    items: Seq<JsonModel>,
    item: JsonModel,
    members: Seq<(Seq<char>, JsonModel)>,
    name: Seq<char>,
    n: u64,
)
    ensures
        json_text(JsonModel::Null) == "null"@,
        json_text(JsonModel::Bool(true)) == "true"@,
        json_text(JsonModel::Bool(false)) == "false"@,
        json_text(JsonModel::Number(NumberModel::Unsigned(n))) == decimal(n as nat),
        json_text(JsonModel::Array(Seq::empty())) == "[]"@,
        json_text(JsonModel::Object(Seq::empty())) == "{}"@,
        json_text(JsonModel::Array(seq![item])) == "["@ + json_text(item) + "]"@,
        json_text(JsonModel::Object(seq![(name, item)])) == "{"@ + (json_text(JsonModel::Text(name))
            + ":"@ + json_text(item)) + "}"@,
        items.len() > 0 ==> json_text(JsonModel::Array(items.push(item))) == json_text(
            JsonModel::Array(items),
        ).drop_last() + ","@ + json_text(item) + "]"@,
        members.len() > 0 ==> json_text(JsonModel::Object(members.push((name, item)))) == json_text(
            JsonModel::Object(members),
        ).drop_last() + ","@ + (json_text(JsonModel::Text(name)) + ":"@ + json_text(item)) + "}"@,
{
    reveal_strlit("[");
    reveal_strlit("]");
    reveal_strlit("[]");
    reveal_strlit("{");
    reveal_strlit("}");
    reveal_strlit("{}");
    let one = json_text(item);
    let pair = json_quote(name) + ":"@ + one;
    assert(item_texts(Seq::empty()) =~= Seq::empty());
    assert(member_texts(Seq::empty()) =~= Seq::empty());
    assert(item_texts(seq![item]) =~= seq![one]);
    assert(member_texts(seq![(name, item)]) =~= seq![pair]);
    assert(item_texts(items.push(item)) =~= item_texts(items) + seq![one]);
    assert(member_texts(members.push((name, item))) =~= member_texts(members) + seq![pair]);
    crate::text::law_join(item_texts(items), seq![one], ","@, one);
    crate::text::law_join(member_texts(members), seq![pair], ","@, pair);
    assert(json_text(JsonModel::Array(Seq::empty())) =~= "[]"@);
    assert(json_text(JsonModel::Object(Seq::empty())) =~= "{}"@);
    if items.len() > 0 {
        assert(json_text(JsonModel::Array(items)).drop_last() =~= "["@ + join(
            item_texts(items),
            ","@,
        ));
        assert(json_text(JsonModel::Array(items.push(item))) =~= json_text(
            JsonModel::Array(items),
        ).drop_last() + ","@ + one + "]"@);
    }
    if members.len() > 0 {
        assert(json_text(JsonModel::Object(members)).drop_last() =~= "{"@ + join(
            member_texts(members),
            ","@,
        ));
        assert(json_text(JsonModel::Object(members.push((name, item)))) =~= json_text(
            JsonModel::Object(members),
        ).drop_last() + ","@ + pair + "}"@);
    }
}

/// A member is found by its name, the first where several have it; setting it changes nothing
/// else.
pub proof fn law_members(
    before: Seq<(Seq<char>, JsonModel)>,
    name: Seq<char>,
    value: JsonModel,
    behind: Seq<(Seq<char>, JsonModel)>,
    other: Seq<char>,
)
    requires
        forall|i: int| 0 <= i < before.len() ==> (#[trigger] before[i]).0 != name,
    ensures
        JsonModel::Object(before + seq![(name, value)] + behind).get(name) == Some(value),
        JsonModel::Object(before).get(name) is None,
        JsonModel::Object(with_member(before, name, value)).get(name) == Some(value),
        other != name ==> JsonModel::Object(with_member(before, name, value)).get(other)
            == JsonModel::Object(before).get(other),
{
    let all = before + seq![(name, value)] + behind;
    let at = before.len() as int;
    assert forall|j: int| 0 <= j < at implies (#[trigger] all[j]).0 != all[at].0 by {
        assert(all[j] == before[j]);
    }
    lemma_first_member(all, at);
    lemma_no_member(before, name);
    lemma_member_of_with_member(before, name, value, name);
    lemma_member_of_with_member(before, name, value, other);
}

/// Whether a text has neither quotation marks nor backslashes in it.
pub open spec fn is_plain_inside(s: Seq<char>) -> bool {
    forall|i: int| 0 <= i < s.len() ==> (#[trigger] s[i]) != '"' && s[i] != '\\'
}

/// Whether a text has no quotation marks, brackets or braces in it.
pub open spec fn is_plain_value(s: Seq<char>) -> bool {
    forall|i: int|
        0 <= i < s.len() ==> {
            &&& (#[trigger] s[i]) != '"'
            &&& s[i] != '{'
            &&& s[i] != '}'
            &&& s[i] != '['
            &&& s[i] != ']'
        }
}

proof fn lemma_string_ends(text: Seq<char>, i: int, n: int)
    requires
        0 <= i <= n < text.len(),
        text[n] == '"',
        forall|j: int| i <= j < n ==> (#[trigger] text[j]) != '"' && text[j] != '\\',
    ensures
        string_end(text, i) == n + 1,
    decreases n - i,
{
    if i < n {
        assert(text[i] != '"' && text[i] != '\\');
        lemma_string_ends(text, i + 1, n);
    }
}

proof fn lemma_no_names(text: Seq<char>, i: int, n: int, depth: nat)
    requires
        0 <= i <= n <= text.len(),
        is_plain_value(text.subrange(i, n)),
    ensures
        names_from(text, i, depth) == names_from(text, n, depth),
    decreases n - i,
{
    if i < n {
        assert(text.subrange(i, n)[0] == text[i]);
        assert forall|j: int| 0 <= j < n - i - 1 implies {
            &&& (#[trigger] text.subrange(i + 1, n)[j]) != '"'
            &&& text.subrange(i + 1, n)[j] != '{'
            &&& text.subrange(i + 1, n)[j] != '}'
            &&& text.subrange(i + 1, n)[j] != '['
            &&& text.subrange(i + 1, n)[j] != ']'
        } by {
            assert(text.subrange(i + 1, n)[j] == text.subrange(i, n)[j + 1]);
        }
        lemma_no_names(text, i + 1, n, depth);
    }
}

proof fn lemma_one_name(text: Seq<char>, i: int, n: int, depth: nat)
    requires
        0 <= i < n < text.len(),
        text[i] == '"',
        text[n] == '"',
        forall|j: int| i < j < n ==> (#[trigger] text[j]) != '"' && text[j] != '\\',
        n + 1 < text.len(),
        text[n + 1] == ':',
    ensures
        names_from(text, i, depth) == (if depth == 1 {
            seq![text.subrange(i, n + 1)]
        } else {
            Seq::empty()
        }) + names_from(text, n + 1, depth),
{
    lemma_string_ends(text, i + 1, n);
    assert(Seq::<Seq<char>>::empty() + names_from(text, n + 1, depth) =~= names_from(
        text,
        n + 1,
        depth,
    ));
}

/// The names of the members of an object are found in the text, in their order, and the names of the
/// members of its members are not among them.
pub proof fn law_names_in_a_text(a: Seq<char>, v: Seq<char>, b: Seq<char>, w: Seq<char>)
    requires
        is_plain_inside(a),
        is_plain_inside(b),
        is_plain_value(v),
        is_plain_value(w),
    ensures
        written_names(
            seq!['{', '"'] + a + seq!['"', ':'] + v + seq![',', '"'] + b + seq!['"', ':'] + w + seq![
                '}',
            ],
        ) == seq![seq!['"'] + a + seq!['"'], seq!['"'] + b + seq!['"']],
        written_names(
            seq!['{', '"'] + a + seq!['"', ':'] + v + seq!['{', '"'] + b + seq!['"', ':'] + w + seq![
                '}',
                '}',
            ],
        ) == seq![seq!['"'] + a + seq!['"']],
{
    lemma_names_in_a_text(a, v, b, w, ',', seq!['}']);
    lemma_names_in_a_text(a, v, b, w, '{', seq!['}', '}']);
}

proof fn lemma_names_in_a_text(
    a: Seq<char>,
    v: Seq<char>,
    b: Seq<char>,
    w: Seq<char>,
    c: char,
    tail: Seq<char>,
)
    requires
        is_plain_inside(a),
        is_plain_inside(b),
        is_plain_value(v),
        is_plain_value(w),
        c == ',' && tail == seq!['}'] || c == '{' && tail == seq!['}', '}'],
    ensures
        written_names(
            seq!['{', '"'] + a + seq!['"', ':'] + v + seq![c, '"'] + b + seq!['"', ':'] + w + tail,
        ) == (if c == ',' {
            seq![seq!['"'] + a + seq!['"'], seq!['"'] + b + seq!['"']]
        } else {
            seq![seq!['"'] + a + seq!['"']]
        }),
{
    let text = seq!['{', '"'] + a + seq!['"', ':'] + v + seq![c, '"'] + b + seq!['"', ':'] + w
        + tail;
    let p = 2 + a.len() as int;
    let q = p + 2 + v.len() as int;
    let r = q + 2 + b.len() as int;
    let z = r + 2 + w.len() as int;
    assert(text.len() == z + tail.len());
    assert(text[0] == '{' && text[1] == '"');
    assert(text.subrange(2, p) =~= a);
    assert(text[p] == '"' && text[p + 1] == ':');
    assert(text.subrange(p + 2, q) =~= v);
    assert(text[q] == c && text[q + 1] == '"');
    assert(text.subrange(q + 2, r) =~= b);
    assert(text[r] == '"' && text[r + 1] == ':');
    assert(text.subrange(r + 2, z) =~= w);
    assert(text.subrange(z, text.len() as int) =~= tail);
    assert(text[z] == '}') by {
        assert(text.subrange(z, text.len() as int)[0] == text[z]);
    }
    assert forall|j: int| 1 < j < p implies (#[trigger] text[j]) != '"' && text[j] != '\\' by {
        assert(text.subrange(2, p)[j - 2] == text[j]);
    }
    assert forall|j: int| q + 1 < j < r implies (#[trigger] text[j]) != '"' && text[j] != '\\' by {
        assert(text.subrange(q + 2, r)[j - q - 2] == text[j]);
    }
    let inner: nat = if c == ',' {
        1
    } else {
        2
    };
    lemma_one_name(text, 1, p, 1);
    lemma_no_names(text, p + 2, q, 1);
    lemma_one_name(text, q + 1, r, inner);
    lemma_no_names(text, r + 2, z, inner);
    assert(names_from(text, 0, 0) == names_from(text, 1, 1));
    assert(names_from(text, p + 1, 1) == names_from(text, p + 2, 1));
    assert(names_from(text, q, 1) == names_from(text, q + 1, inner));
    assert(names_from(text, r + 1, inner) == names_from(text, r + 2, inner));
    assert(names_from(text, z, inner) == names_from(text, z + 1, (inner - 1) as nat));
    if c == '{' {
        assert(text[z + 1] == '}') by {
            assert(text.subrange(z, text.len() as int)[1] == text[z + 1]);
        }
        assert(names_from(text, z + 1, 1) == names_from(text, z + 2, 0));
    }
    assert(names_from(text, text.len() as int, 0) =~= Seq::empty());
    assert(text.subrange(1, p + 1) =~= seq!['"'] + a + seq!['"']);
    assert(text.subrange(q + 1, r + 1) =~= seq!['"'] + b + seq!['"']);
    if c == ',' {
        assert(written_names(text) =~= seq![
            seq!['"'] + a + seq!['"'],
            seq!['"'] + b + seq!['"'],
        ]);
    } else {
        assert(written_names(text) =~= seq![seq!['"'] + a + seq!['"']]);
    }
}

} // verus!
