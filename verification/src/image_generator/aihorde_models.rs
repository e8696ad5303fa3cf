//! The list of AI Horde models that the model picker shows.
use vstd::prelude::*;

use crate::fraction::{copy_fraction, Fraction, FractionModel};
use crate::order::{
    arranged, key_after, key_views, law_order, order_of, places, stable_order, text_after, SortKey,
    SortKeyModel,
};
use crate::text::{opt_present, opt_str_view, present_str};

verus! {

/// A model of AI Horde: its name, how many workers serve it now, how much work waits for it, and
/// how many seconds a job is expected to take.
#[derive(Debug)]
pub struct AIHordeModel {
    pub name: String,
    pub count: u32,
    pub queued: Fraction,
    pub eta: Option<u32>,
}

pub struct PickerModel {
    pub name: Seq<char>,
    pub count: u32,
    pub queued: FractionModel,
    pub eta: Option<u32>,
}

impl View for AIHordeModel {
    type V = PickerModel;

    open spec fn view(&self) -> PickerModel {
        PickerModel { name: self.name@, count: self.count, queued: self.queued@, eta: self.eta }
    }
}

pub open spec fn picker_views(models: Seq<AIHordeModel>) -> Seq<PickerModel> {
    models.map_values(|m: AIHordeModel| m@)
}

pub const AIHORDE_DEFAULT_BASE_URL: &'static str = "https://aihorde.net/api";

/// Where the image models are listed.
pub fn model_list_url() -> (r: String)
    ensures
        r@ == AIHORDE_DEFAULT_BASE_URL@ + "/v2/status/models?type=image"@,
{
    let mut url = AIHORDE_DEFAULT_BASE_URL.to_string();
    url.append("/v2/status/models?type=image");
    url
}

/// The key that is sent along, where there is one.
pub fn model_list_key(api_key: Option<&str>) -> (r: Option<&str>)
    ensures
        opt_str_view(r) == opt_present(opt_str_view(api_key)),
{
    match api_key {
        Some(key) => present_str(key),
        None => None,
    }
}

/// Models with more workers come first; models with equally many go by their names.
pub open spec fn picker_key(m: PickerModel) -> SortKeyModel {
    SortKeyModel { rank: (u32::MAX - m.count) as u64, text: m.name }
}

pub open spec fn picker_keys(models: Seq<PickerModel>) -> Seq<SortKeyModel> {
    models.map_values(|m: PickerModel| picker_key(m))
}

pub open spec fn picker_order(models: Seq<PickerModel>) -> Seq<PickerModel> {
    arranged(models, order_of(picker_keys(models)))
}

fn copy_picker_model(m: &AIHordeModel) -> (r: AIHordeModel)
    ensures
        r@ == m@,
{
    AIHordeModel {
        name: m.name.clone(),
        count: m.count,
        queued: copy_fraction(&m.queued),
        eta: m.eta,
    }
}

/// Puts the models in the order in which the picker shows them.
pub fn sort_models(models: &Vec<AIHordeModel>) -> (r: Vec<AIHordeModel>)
    ensures
        picker_views(r@) == picker_order(picker_views(models@)),
{
    let ghost all = picker_views(models@);
    let mut keys: Vec<SortKey> = Vec::new();
    for i in 0..models.len()
        invariant
            all == picker_views(models@),
            key_views(keys@) == picker_keys(all).take(i as int),
    {
        let ghost before = keys@;
        let key = SortKey {
            rank: (u32::MAX - models[i].count) as u64,
            text: models[i].name.clone(),
        };
        keys.push(key);
        assert(key_views(keys@) =~= key_views(before).push(key@));
        assert(picker_keys(all).take(i + 1) =~= picker_keys(all).take(i as int).push(
            picker_keys(all)[i as int],
        ));
    }
    assert(picker_keys(all).take(all.len() as int) =~= picker_keys(all));
    let order = stable_order(&keys);
    assert(keys@.len() == models@.len()) by {
        assert(key_views(keys@).len() == keys@.len());
    }
    let ghost goal = picker_order(all);
    let mut out: Vec<AIHordeModel> = Vec::new();
    for i in 0..order.len()
        invariant
            all == picker_views(models@),
            keys@.len() == models@.len(),
            order@.len() == models@.len(),
            forall|k: int| 0 <= k < order@.len() ==> #[trigger] order@[k] < keys@.len(),
            places(order@) == order_of(picker_keys(all)),
            goal == picker_order(all),
            picker_views(out@) == goal.take(i as int),
    {
        let ghost before = out@;
        let m = copy_picker_model(&models[order[i]]);
        out.push(m);
        assert(picker_views(out@) =~= picker_views(before).push(m@));
        assert(places(order@)[i as int] == order@[i as int]);
        assert(goal[i as int] == all[order@[i as int] as int]);
        assert(goal.take(i + 1) =~= goal.take(i as int).push(goal[i as int]));
    }
    assert(goal.take(goal.len() as int) =~= goal);
    out
}

/// The names of the models, in the same order.
pub fn model_names(models: &Vec<AIHordeModel>) -> (r: Vec<String>)
    ensures
        crate::text::views(r@) == picker_views(models@).map_values(|m: PickerModel| m.name),
{
    let ghost goal = picker_views(models@).map_values(|m: PickerModel| m.name);
    let mut out: Vec<String> = Vec::new();
    for i in 0..models.len()
        invariant
            goal == picker_views(models@).map_values(|m: PickerModel| m.name),
            crate::text::views(out@) == goal.take(i as int),
    {
        broadcast use crate::text::views_push;

        out.push(models[i].name.clone());
        assert(goal[i as int] == models@[i as int].name@);
        assert(goal.take(i + 1) =~= goal.take(i as int).push(goal[i as int]));
    }
    assert(goal.take(goal.len() as int) =~= goal);
    out
}

/// In the picker no model stands before one with more workers, so those that someone serves come
/// before those that nobody does; models with as many workers go by their names; and none is
/// missing or there twice.
pub proof fn law_picker_order(models: Seq<PickerModel>)
    ensures
        picker_order(models).len() == models.len(),
        forall|j: int, k: int|
            0 <= j < k < models.len() ==> (#[trigger] picker_order(models)[j]).count >= (
            #[trigger] picker_order(models)[k]).count,
        forall|j: int, k: int|
            0 <= j < k < models.len() && (#[trigger] picker_order(models)[j]).count == (
            #[trigger] picker_order(models)[k]).count ==> !text_after(
                picker_order(models)[j].name,
                picker_order(models)[k].name,
            ),
        exists|at: Seq<int>|
            #![trigger arranged(models, at)]
            at.len() == models.len() && at.no_duplicates() && picker_order(models) == arranged(
                models,
                at,
            ) && forall|k: int| 0 <= k < at.len() ==> 0 <= #[trigger] at[k] < models.len(),
{
    let keys = picker_keys(models);
    law_order(keys);
    let at = order_of(keys);
    assert(picker_order(models) == arranged(models, at));
    assert forall|j: int, k: int| 0 <= j < k < models.len() implies {
        let a = #[trigger] picker_order(models)[j];
        let b = #[trigger] picker_order(models)[k];
        a.count >= b.count && (a.count == b.count ==> !text_after(a.name, b.name))
    } by {
        assert(!key_after(keys[at[j]], keys[at[k]]));
    }
}

} // verus!
