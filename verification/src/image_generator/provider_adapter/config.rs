//! Reading the configuration of a provider.
use vstd::prelude::*;

use crate::text_map::{overridden, TextMap};
use crate::json::{member_views, opt_json, Json, JsonModel};
use crate::text::{opt_present, opt_str_view, opt_view, present_opt, present_str, strs};

verus! {

/// The text of a setting, unless it is blank.
pub open spec fn setting(config: Option<JsonModel>, key: Seq<char>) -> Option<Seq<char>> {
    match config {
        Some(c) => opt_present(c.get_str(key)),
        None => None,
    }
}

/// The text of the first setting of a list that is there and not blank.
pub open spec fn first_setting(config: Option<JsonModel>, keys: Seq<Seq<char>>) -> Option<Seq<char>>
    decreases keys.len(),
{
    if keys.len() == 0 {
        None
    } else {
        match setting(config, keys[0]) {
            Some(s) => Some(s),
            None => first_setting(config, keys.drop_first()),
        }
    }
}

/// The number of the first setting of a list that is an unsigned integer.
pub open spec fn first_number(config: Option<JsonModel>, keys: Seq<Seq<char>>) -> Option<u64>
    decreases keys.len(),
{
    if keys.len() == 0 {
        None
    } else {
        let here = match config {
            Some(c) => c.get_u64(keys[0]),
            None => None,
        };
        match here {
            Some(n) => Some(n),
            None => first_number(config, keys.drop_first()),
        }
    }
}

pub fn config_str<'a>(config: Option<&'a Json>, key: &str) -> (r: Option<&'a str>)
    ensures
        opt_str_view(r) == setting(opt_json(config), key@),
{
    match config {
        Some(c) => match c.get_str(key) {
            Some(s) => present_str(s),
            None => None,
        },
        None => None,
    }
}

pub fn config_string<'a>(config: Option<&'a Json>, keys: &Vec<&str>) -> (r: Option<&'a str>)
    ensures
        opt_str_view(r) == first_setting(opt_json(config), strs(keys@)),
{
    let ghost all = strs(keys@);
    assert(all.skip(0) =~= all);
    for i in 0..keys.len()
        invariant
            all == strs(keys@),
            first_setting(opt_json(config), all) == first_setting(
                opt_json(config),
                all.skip(i as int),
            ),
    {
        assert(all.skip(i as int)[0] == keys@[i as int]@);
        assert(all.skip(i as int).drop_first() =~= all.skip(i + 1));
        if let Some(s) = config_str(config, keys[i]) {
            return Some(s);
        }
    }
    None
}

pub fn config_number(config: Option<&Json>, keys: &Vec<&str>) -> (r: Option<u64>)
    ensures
        r == first_number(opt_json(config), strs(keys@)),
{
    let ghost all = strs(keys@);
    assert(all.skip(0) =~= all);
    for i in 0..keys.len()
        invariant
            all == strs(keys@),
            first_number(opt_json(config), all) == first_number(
                opt_json(config),
                all.skip(i as int),
            ),
    {
        assert(all.skip(i as int)[0] == keys@[i as int]@);
        assert(all.skip(i as int).drop_first() =~= all.skip(i + 1));
        if let Some(c) = config {
            if let Some(n) = c.get_u64(keys[i]) {
                return Some(n);
            }
        }
    }
    None
}

/// A time limit between 5 and 600 seconds; 120 where none is set.
pub open spec fn bounded_timeout(secs: Option<u64>) -> u64 {
    match secs {
        Some(n) => if n < 5 {
            5
        } else if n > 600 {
            600
        } else {
            n
        },
        None => 120,
    }
}

pub fn clamp_timeout(secs: Option<u64>) -> (r: u64)
    ensures
        r == bounded_timeout(secs),
{
    match secs {
        Some(n) => if n < 5 {
            5
        } else if n > 600 {
            600
        } else {
            n
        },
        None => 120,
    }
}

// ---------------------------------------------------------------------------
// Header fields
// ---------------------------------------------------------------------------

/// The fields with every member that is a text set.
pub open spec fn with_texts(
    fields: Map<Seq<char>, Seq<char>>,
    members: Seq<(Seq<char>, JsonModel)>,
) -> Map<Seq<char>, Seq<char>>
    decreases members.len(),
{
    if members.len() == 0 {
        fields
    } else {
        let before = with_texts(fields, members.drop_last());
        match members.last().1 {
            JsonModel::Text(s) => before.insert(members.last().0, s),
            _ => before,
        }
    }
}

/// The members of an object that a setting holds.
pub open spec fn setting_members(config: Option<JsonModel>, key: Seq<char>) -> Seq<
    (Seq<char>, JsonModel),
> {
    match config {
        Some(c) => match c.get_object(key) {
            Some(members) => members,
            None => Seq::empty(),
        },
        None => Seq::empty(),
    }
}

pub fn insert_bearer(headers: &mut TextMap, name: &str, key: &str)
    ensures
        final(headers)@ == old(headers)@.insert(name@, "Bearer "@ + key@),
{
    let mut value = "Bearer ".to_string();
    value.append(key);
    headers.insert(name, value.as_str());
}

pub fn insert_texts(headers: &mut TextMap, config: Option<&Json>, key: &str)
    ensures
        final(headers)@ == with_texts(old(headers)@, setting_members(opt_json(config), key@)),
{
    let found = match config {
        Some(c) => c.get_object(key),
        None => None,
    };
    if let Some(members) = found {
        let ghost before = headers@;
        let ghost all = member_views(members@);
        for i in 0..members.len()
            invariant
                all == member_views(members@),
                headers@ == with_texts(before, all.take(i as int)),
        {
            assert(all.take(i + 1).drop_last() =~= all.take(i as int));
            assert(all.take(i + 1).last() == (members@[i as int].0@, members@[i as int].1@));
            if let Some(s) = members[i].1.as_str() {
                headers.insert(members[i].0.as_str(), s);
            }
        }
        assert(all.take(all.len() as int) =~= all);
    }
}

pub fn insert_extra(headers: &mut TextMap, extra: Option<&TextMap>)
    ensures
        final(headers)@ == overridden(old(headers)@, extra),
{
    if let Some(h) = extra {
        headers.insert_all(h);
    }
}

/// The first value of a list that is set and not blank.
pub open spec fn first_set(values: Seq<Option<String>>) -> Option<Seq<char>>
    decreases values.len(),
{
    if values.len() == 0 {
        None
    } else {
        match opt_present(opt_view(values[0])) {
            Some(s) => Some(s),
            None => first_set(values.drop_first()),
        }
    }
}

/// The key that the environment holds, given the values of the variables that may hold one.
pub fn env_api_key(values: &Vec<Option<String>>) -> (r: Option<&str>)
    ensures
        opt_str_view(r) == first_set(values@),
{
    assert(values@.skip(0) =~= values@);
    for i in 0..values.len()
        invariant
            first_set(values@) == first_set(values@.skip(i as int)),
    {
        assert(values@.skip(i as int).drop_first() =~= values@.skip(i + 1));
        if let Some(s) = present_opt(&values[i]) {
            return Some(s);
        }
    }
    None
}

// ---------------------------------------------------------------------------
// Laws
// ---------------------------------------------------------------------------

/// The first setting of a list that is there and not blank counts, without the white space about
/// it. Without settings there is none.
pub proof fn law_first_setting_counts(
    config: JsonModel,
    before: Seq<Seq<char>>,
    key: Seq<char>,
    behind: Seq<Seq<char>>,
    s: Seq<char>,
)
    requires
        first_setting(Some(config), before) is None,
        config.get_str(key) == Some(s),
        crate::text::trim(s).len() > 0,
    ensures
        first_setting(Some(config), before + seq![key] + behind) == Some(crate::text::trim(s)),
        first_setting(None, before) is None,
    decreases before.len(),
{
    let all = before + seq![key] + behind;
    if before.len() > 0 {
        assert(all[0] == before[0]);
        assert(all.drop_first() =~= before.drop_first() + seq![key] + behind);
        law_first_setting_counts(config, before.drop_first(), key, behind, s);
    } else {
        assert(all[0] == key);
    }
}

/// The first setting of a list that is a number counts.
pub proof fn law_first_number_counts(
    config: JsonModel,
    before: Seq<Seq<char>>,
    key: Seq<char>,
    behind: Seq<Seq<char>>,
    n: u64,
)
    requires
        first_number(Some(config), before) is None,
        config.get_u64(key) == Some(n),
    ensures
        first_number(Some(config), before + seq![key] + behind) == Some(n),
    decreases before.len(),
{
    let all = before + seq![key] + behind;
    if before.len() > 0 {
        assert(all[0] == before[0]);
        assert(all.drop_first() =~= before.drop_first() + seq![key] + behind);
        law_first_number_counts(config, before.drop_first(), key, behind, n);
    } else {
        assert(all[0] == key);
    }
}

/// A time limit within its bounds is kept, and any other is moved to the bound that it exceeds.
pub proof fn law_time_limit(n: u64)
    ensures
        5 <= n <= 600 ==> bounded_timeout(Some(n)) == n,
        n <= 5 ==> bounded_timeout(Some(n)) == 5,
        n >= 600 ==> bounded_timeout(Some(n)) == 600,
        bounded_timeout(None) == 120,
{
}

/// The texts of a setting become header fields, the last of a name where it has several. What is
/// no text becomes none, and fields that it does not name stay as they are.
pub proof fn law_texts_become_fields(
    fields: Map<Seq<char>, Seq<char>>,
    before: Seq<(Seq<char>, JsonModel)>,
    name: Seq<char>,
    value: JsonModel,
    behind: Seq<(Seq<char>, JsonModel)>,
)
    requires
        forall|i: int| 0 <= i < behind.len() ==> (#[trigger] behind[i]).0 != name,
    ensures
        ({
            let after = with_texts(fields, before + seq![(name, value)] + behind);
            &&& value matches JsonModel::Text(s) ==> after.dom().contains(name) && after[name] == s
            &&& with_texts(fields, behind).dom().contains(name) <==> fields.dom().contains(name)
            &&& fields.dom().contains(name) ==> with_texts(fields, behind)[name] == fields[name]
            &&& value !is Text ==> with_texts(fields, seq![(name, value)]) == fields
        }),
    decreases behind.len(),
{
    reveal_with_fuel(with_texts, 2);
    let one = seq![(name, value)];
    let all = before + one + behind;
    assert(one.drop_last() =~= Seq::empty());
    if behind.len() > 0 {
        let front = behind.drop_last();
        assert forall|i: int| 0 <= i < front.len() implies (#[trigger] front[i]).0 != name by {
            assert(front[i] == behind[i]);
        }
        law_texts_become_fields(fields, before, name, value, front);
        assert(all.drop_last() =~= before + one + front);
        assert(all.last() == behind.last());
        assert(behind[behind.len() - 1].0 != name);
    } else {
        assert(all =~= before + one);
        assert(all.drop_last() =~= before);
        assert(all.last() == (name, value));
    }
}

/// The first variable that is set and not blank holds the key.
pub proof fn law_first_variable_counts(
    before: Seq<Option<String>>,
    value: String,
    behind: Seq<Option<String>>,
)
    requires
        first_set(before) is None,
        crate::text::trim(value@).len() > 0,
    ensures
        first_set(before + seq![Some(value)] + behind) == Some(crate::text::trim(value@)),
    decreases before.len(),
{
    let all = before + seq![Some(value)] + behind;
    if before.len() > 0 {
        assert(all[0] == before[0]);
        assert(all.drop_first() =~= before.drop_first() + seq![Some(value)] + behind);
        law_first_variable_counts(before.drop_first(), value, behind);
    } else {
        assert(all[0] == Some(value));
    }
}

} // verus!
