//! Texts by name.
use vstd::prelude::*;

use crate::pairs::{distinct, has_key, lemma_keys, lemma_push, lemma_update, lemma_value, map_of};
use crate::text::same;

verus! {

pub open spec fn entry_views(entries: Seq<(String, String)>) -> Seq<(Seq<char>, Seq<char>)> {
    entries.map_values(|e: (String, String)| (e.0@, e.1@))
}

/// Texts by name, such as the header fields of a request. Names are told apart as they are
/// written.
#[derive(Debug)]
pub struct TextMap {
    entries: Vec<(String, String)>,
}

impl View for TextMap {
    type V = Map<Seq<char>, Seq<char>>;

    closed spec fn view(&self) -> Map<Seq<char>, Seq<char>> {
        map_of(entry_views(self.entries@))
    }
}

impl TextMap {
    #[verifier::type_invariant]
    spec fn well_formed(self) -> bool {
        distinct(entry_views(self.entries@))
    }

    pub fn new() -> (r: TextMap)
        ensures
            r@ == Map::<Seq<char>, Seq<char>>::empty(),
    {
        TextMap { entries: Vec::new() }
    }

    /// The entries, each name once.
    pub fn entries(&self) -> (r: &Vec<(String, String)>)
        ensures
            distinct(entry_views(r@)),
            map_of(entry_views(r@)) == self@,
    {
        proof {
            use_type_invariant(self);
        }
        &self.entries
    }

    fn place_of(&self, name: &str) -> (r: Option<usize>)
        ensures
            match r {
                Some(i) => i < self.entries@.len() && self.entries@[i as int].0@ == name@,
                None => !has_key(entry_views(self.entries@), name@),
            },
    {
        let ghost all = entry_views(self.entries@);
        for i in 0..self.entries.len()
            invariant
                all == entry_views(self.entries@),
                forall|j: int| 0 <= j < i ==> (#[trigger] all[j]).0 != name@,
        {
            assert(all[i as int].0 == self.entries@[i as int].0@);
            if same(self.entries[i].0.as_str(), name) {
                return Some(i);
            }
        }
        None
    }

    /// The text under `name`.
    pub fn get(&self, name: &str) -> (r: Option<&String>)
        ensures
            match r {
                Some(v) => self@.dom().contains(name@) && self@[name@] == v@,
                None => !self@.dom().contains(name@),
            },
    {
        let ghost all = entry_views(self.entries@);
        proof {
            use_type_invariant(self);
            lemma_keys(all, name@);
        }
        match self.place_of(name) {
            Some(i) => {
                proof {
                    lemma_value(all, i as int);
                    assert(all[i as int] == (name@, self.entries@[i as int].1@));
                }
                Some(&self.entries[i].1)
            },
            None => None,
        }
    }

    pub fn contains_key(&self, name: &str) -> (r: bool)
        ensures
            r == self@.dom().contains(name@),
    {
        self.get(name).is_some()
    }

    /// Sets the text under `name`.
    pub fn insert(&mut self, name: &str, value: &str)
        ensures
            final(self)@ == old(self)@.insert(name@, value@),
    {
        proof {
            use_type_invariant(&*self);
        }
        let ghost all = entry_views(self.entries@);
        let place = self.place_of(name);
        let mut entries: Vec<(String, String)> = Vec::new();
        std::mem::swap(&mut entries, &mut self.entries);
        let entry = (name.to_string(), value.to_string());
        match place {
            Some(i) => {
                proof {
                    assert(all[i as int].0 == name@);
                    lemma_update(all, i as int, value@);
                }
                entries.set(i, entry);
                assert(entry_views(entries@) =~= all.update(i as int, (name@, value@)));
            },
            None => {
                proof {
                    lemma_push(all, (name@, value@));
                }
                entries.push(entry);
                assert(entry_views(entries@) =~= all.push((name@, value@)));
            },
        }
        self.entries = entries;
    }

    /// Sets every text of `extra`.
    pub fn insert_all(&mut self, extra: &TextMap)
        ensures
            final(self)@ == old(self)@.union_prefer_right(extra@),
    {
        let ghost before = self@;
        let ghost all = entry_views(extra.entries@);
        assert(before.union_prefer_right(map_of(all.take(0))) =~= before);
        for i in 0..extra.entries.len()
            invariant
                all == entry_views(extra.entries@),
                self@ == before.union_prefer_right(map_of(all.take(i as int))),
        {
            assert(all.take(i + 1).drop_last() =~= all.take(i as int));
            assert(all.take(i + 1).last() == (
                extra.entries@[i as int].0@,
                extra.entries@[i as int].1@,
            ));
            self.insert(extra.entries[i].0.as_str(), extra.entries[i].1.as_str());
            assert(self@ =~= before.union_prefer_right(map_of(all.take(i + 1))));
        }
        assert(all.take(all.len() as int) =~= all);
    }
}

/// The texts of `base`, overridden by those of `extra` where there are any.
pub open spec fn overridden(
    base: Map<Seq<char>, Seq<char>>,
    extra: Option<&TextMap>,
) -> Map<Seq<char>, Seq<char>> {
    match extra {
        Some(h) => base.union_prefer_right(h@),
        None => base,
    }
}

/// What the user adds overrides what is there, field by field, and nothing is lost.
pub proof fn law_extra_fields_override(
    base: Map<Seq<char>, Seq<char>>,
    extra: &TextMap,
    name: Seq<char>,
)
    ensures
        extra@.dom().contains(name) ==> overridden(base, Some(extra)).dom().contains(name)
            && overridden(base, Some(extra))[name] == extra@[name],
        !extra@.dom().contains(name) ==> (overridden(base, Some(extra)).dom().contains(name)
            <==> base.dom().contains(name)),
        !extra@.dom().contains(name) && base.dom().contains(name) ==> overridden(
            base,
            Some(extra),
        )[name] == base[name],
        overridden(base, None) == base,
{
}

} // verus!
