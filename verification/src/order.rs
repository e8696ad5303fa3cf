//! Putting a list in order.
use vstd::prelude::*;

use crate::text::chars_of;

verus! {

/// Whether the text `a` comes after the text `b`, character by character from the place `i` on.
pub open spec fn text_after_from(a: Seq<char>, b: Seq<char>, i: int) -> bool
    decreases a.len() - i,
{
    if i >= a.len() {
        false
    } else if i >= b.len() {
        true
    } else if a[i] != b[i] {
        a[i] > b[i]
    } else {
        text_after_from(a, b, i + 1)
    }
}

/// Whether the text `a` comes after the text `b`.
pub open spec fn text_after(a: Seq<char>, b: Seq<char>) -> bool {
    text_after_from(a, b, 0)
}

/// What a list is ordered by: first a rank, the smaller before the larger, then a text.
pub struct SortKey {
    pub rank: u64,
    pub text: String,
}

pub struct SortKeyModel {
    pub rank: u64,
    pub text: Seq<char>,
}

impl View for SortKey {
    type V = SortKeyModel;

    open spec fn view(&self) -> SortKeyModel {
        SortKeyModel { rank: self.rank, text: self.text@ }
    }
}

pub open spec fn key_views(keys: Seq<SortKey>) -> Seq<SortKeyModel> {
    keys.map_values(|k: SortKey| k@)
}

pub open spec fn key_after(a: SortKeyModel, b: SortKeyModel) -> bool {
    a.rank > b.rank || (a.rank == b.rank && text_after(a.text, b.text))
}

/// The first place at or after `i` of an item that comes after item `n`.
pub open spec fn place_for(order: Seq<int>, keys: Seq<SortKeyModel>, n: int, i: int) -> int
    decreases order.len() - i,
{
    if i >= order.len() || key_after(keys[order[i]], keys[n]) {
        i
    } else {
        place_for(order, keys, n, i + 1)
    }
}

/// The places of the first `n` items in their order: each item stands behind those that were there
/// before it and do not come after it.
pub open spec fn order_of_first(keys: Seq<SortKeyModel>, n: int) -> Seq<int>
    decreases n,
{
    if n <= 0 {
        Seq::empty()
    } else {
        let before = order_of_first(keys, n - 1);
        before.insert(place_for(before, keys, n - 1, 0), n - 1)
    }
}

/// The places of the items of a list, in their order.
pub open spec fn order_of(keys: Seq<SortKeyModel>) -> Seq<int> {
    order_of_first(keys, keys.len() as int)
}

/// The items at the given places.
pub open spec fn arranged<T>(items: Seq<T>, order: Seq<int>) -> Seq<T> {
    order.map_values(|i: int| items[i])
}

fn comes_after(a: &SortKey, b: &SortKey) -> (r: bool)
    ensures
        r == key_after(a@, b@),
{
    if a.rank != b.rank {
        return a.rank > b.rank;
    }
    let x = chars_of(a.text.as_str());
    let y = chars_of(b.text.as_str());
    for i in 0..x.len()
        invariant
            x@ == a.text@,
            y@ == b.text@,
            a.rank == b.rank,
            i <= y@.len(),
            text_after(x@, y@) == text_after_from(x@, y@, i as int),
    {
        if i >= y.len() {
            return true;
        }
        if x[i] != y[i] {
            return x[i] > y[i];
        }
    }
    false
}

proof fn lemma_place_for(order: Seq<int>, keys: Seq<SortKeyModel>, n: int, i: int)
    requires
        0 <= i <= order.len(),
    ensures
        i <= place_for(order, keys, n, i) <= order.len(),
        forall|j: int|
            i <= j < place_for(order, keys, n, i) ==> !key_after(
                keys[#[trigger] order[j]],
                keys[n],
            ),
        place_for(order, keys, n, i) < order.len() ==> key_after(
            keys[order[place_for(order, keys, n, i)]],
            keys[n],
        ),
    decreases order.len() - i,
{
    if i < order.len() && !key_after(keys[order[i]], keys[n]) {
        lemma_place_for(order, keys, n, i + 1);
    }
}

/// Each of the first `n` places stands in the order once.
proof fn lemma_order_range(keys: Seq<SortKeyModel>, n: int)
    requires
        0 <= n <= keys.len(),
    ensures
        order_of_first(keys, n).len() == n,
        forall|k: int| 0 <= k < n ==> 0 <= #[trigger] order_of_first(keys, n)[k] < n,
        order_of_first(keys, n).no_duplicates(),
    decreases n,
{
    if n > 0 {
        lemma_order_range(keys, n - 1);
        let before = order_of_first(keys, n - 1);
        lemma_place_for(before, keys, n - 1, 0);
        let at = place_for(before, keys, n - 1, 0);
        let after = order_of_first(keys, n);
        assert(after == before.insert(at, n - 1));
        assert forall|k: int| 0 <= k < n implies 0 <= #[trigger] after[k] < n by {
            if k < at {
                assert(after[k] == before[k]);
            } else if k > at {
                assert(after[k] == before[k - 1]);
            }
        }
        assert forall|j: int, k: int| 0 <= j < n && 0 <= k < n && j != k implies after[j]
            != after[k] by {
            let a = if j < at {
                j
            } else {
                j - 1
            };
            let b = if k < at {
                k
            } else {
                k - 1
            };
            if j != at {
                assert(after[j] == before[a]);
            }
            if k != at {
                assert(after[k] == before[b]);
            }
        }
    }
}

pub open spec fn places(order: Seq<usize>) -> Seq<int> {
    order.map_values(|i: usize| i as int)
}

/// Finds the order of a list. Items with equal keys stay in the order in which they are.
pub fn stable_order(keys: &Vec<SortKey>) -> (r: Vec<usize>)
    ensures
        places(r@) == order_of(key_views(keys@)),
        r@.len() == keys@.len(),
        forall|i: int| 0 <= i < r@.len() ==> #[trigger] r@[i] < keys@.len(),
{
    let ghost all = key_views(keys@);
    let mut order: Vec<usize> = Vec::new();
    assert(places(order@) =~= order_of_first(all, 0));
    for n in 0..keys.len()
        invariant
            all == key_views(keys@),
            places(order@) == order_of_first(all, n as int),
            order@.len() == n,
            forall|i: int| 0 <= i < n ==> #[trigger] order@[i] < n,
    {
        let ghost before = places(order@);
        let mut at: usize = 0;
        while at < order.len() && !comes_after(&keys[order[at]], &keys[n])
            invariant
                all == key_views(keys@),
                before == places(order@),
                order@.len() == n,
                n < keys@.len(),
                at <= n,
                forall|i: int| 0 <= i < n ==> #[trigger] order@[i] < n,
                place_for(before, all, n as int, 0) == place_for(
                    before,
                    all,
                    n as int,
                    at as int,
                ),
            decreases n - at,
        {
            assert(before[at as int] == order@[at as int]);
            at = at + 1;
        }
        proof {
            if at < n {
                assert(before[at as int] == order@[at as int]);
            }
            assert(place_for(before, all, n as int, 0) == at);
        }
        order.insert(at, n);
        assert(places(order@) =~= before.insert(at as int, n as int));
    }
    proof {
        lemma_order_range(all, all.len() as int);
    }
    order
}

// ---------------------------------------------------------------------------
// Laws
// ---------------------------------------------------------------------------

proof fn lemma_text_after(a: Seq<char>, b: Seq<char>, c: Seq<char>, i: int)
    requires
        i >= 0,
    ensures
        !(text_after_from(a, b, i) && text_after_from(b, a, i)),
        text_after_from(a, b, i) && !text_after_from(c, b, i) ==> text_after_from(a, c, i),
        !text_after_from(a, b, i) && !text_after_from(b, c, i) ==> !text_after_from(a, c, i),
    decreases a.len() + b.len() + c.len() - i,
{
    if i < a.len() || i < b.len() || i < c.len() {
        lemma_text_after(a, b, c, i + 1);
    }
}

proof fn lemma_key_after(a: SortKeyModel, b: SortKeyModel, c: SortKeyModel)
    ensures
        !(key_after(a, b) && key_after(b, a)),
        key_after(a, b) && !key_after(c, b) ==> key_after(a, c),
        !key_after(a, b) && !key_after(b, c) ==> !key_after(a, c),
{
    lemma_text_after(a.text, b.text, c.text, 0);
}

/// The order of a list names each place once, no item stands before one that it comes after, and
/// of two items neither of which comes after the other the earlier one stands first.
pub proof fn law_order(keys: Seq<SortKeyModel>)
    ensures
        order_of(keys).len() == keys.len(),
        order_of(keys).no_duplicates(),
        forall|k: int| 0 <= k < keys.len() ==> 0 <= #[trigger] order_of(keys)[k] < keys.len(),
        forall|j: int, k: int|
            0 <= j < k < keys.len() ==> !key_after(
                keys[#[trigger] order_of(keys)[j]],
                keys[#[trigger] order_of(keys)[k]],
            ),
        forall|j: int, k: int|
            0 <= j < k < keys.len() && !key_after(
                keys[#[trigger] order_of(keys)[k]],
                keys[#[trigger] order_of(keys)[j]],
            ) ==> order_of(keys)[j] < order_of(keys)[k],
{
    lemma_order_range(keys, keys.len() as int);
    lemma_ordered(keys, keys.len() as int);
}

proof fn lemma_ordered(keys: Seq<SortKeyModel>, n: int)
    requires
        0 <= n <= keys.len(),
    ensures
        forall|j: int, k: int|
            0 <= j < k < n ==> !key_after(
                keys[#[trigger] order_of_first(keys, n)[j]],
                keys[#[trigger] order_of_first(keys, n)[k]],
            ),
        forall|j: int, k: int|
            0 <= j < k < n && !key_after(
                keys[#[trigger] order_of_first(keys, n)[k]],
                keys[#[trigger] order_of_first(keys, n)[j]],
            ) ==> order_of_first(keys, n)[j] < order_of_first(keys, n)[k],
    decreases n,
{
    if n > 0 {
        lemma_ordered(keys, n - 1);
        lemma_order_range(keys, n - 1);
        let before = order_of_first(keys, n - 1);
        lemma_place_for(before, keys, n - 1, 0);
        let at = place_for(before, keys, n - 1, 0);
        let after = order_of_first(keys, n);
        assert forall|j: int, k: int| 0 <= j < k < n implies !key_after(
            keys[#[trigger] after[j]],
            keys[#[trigger] after[k]],
        ) && (!key_after(keys[after[k]], keys[after[j]]) ==> after[j] < after[k]) by {
            let a = if j < at {
                j
            } else {
                j - 1
            };
            let b = if k < at {
                k
            } else {
                k - 1
            };
            if j != at && k != at {
                assert(after[j] == before[a]);
                assert(after[k] == before[b]);
            } else if k == at {
                assert(after[j] == before[j]);
            } else {
                assert(after[k] == before[b]);
                let first = keys[before[at]];
                lemma_key_after(first, keys[n - 1], keys[before[b]]);
                lemma_key_after(keys[before[b]], keys[n - 1], first);
                if b > at {
                    assert(!key_after(first, keys[before[b]]));
                }
                lemma_key_after(keys[n - 1], keys[before[b]], first);
                lemma_key_after(first, keys[before[b]], keys[n - 1]);
            }
        }
    }
}

/// Texts are ordered like the words of a dictionary, by the first character in which they differ;
/// a text that ends there comes first. No text comes after itself.
pub proof fn law_text_order(same: Seq<char>, x: char, y: char, a: Seq<char>, b: Seq<char>)
    ensures
        x > y ==> text_after(same + seq![x] + a, same + seq![y] + b),
        x < y ==> !text_after(same + seq![x] + a, same + seq![y] + b),
        text_after(same + seq![x] + a, same),
        !text_after(same, same + seq![x] + a),
        !text_after(same, same),
{
    lemma_text_order(same, x, y, a, b, 0);
}

proof fn lemma_text_order(same: Seq<char>, x: char, y: char, a: Seq<char>, b: Seq<char>, i: int)
    requires
        0 <= i <= same.len(),
    ensures
        x > y ==> text_after_from(same + seq![x] + a, same + seq![y] + b, i),
        x < y ==> !text_after_from(same + seq![x] + a, same + seq![y] + b, i),
        text_after_from(same + seq![x] + a, same, i),
        !text_after_from(same, same + seq![x] + a, i),
        !text_after_from(same, same, i),
    decreases same.len() - i,
{
    let p = same + seq![x] + a;
    let q = same + seq![y] + b;
    if i < same.len() {
        assert(p[i] == same[i] && q[i] == same[i]);
        lemma_text_order(same, x, y, a, b, i + 1);
    } else {
        assert(p[i] == x && q[i] == y);
    }
}

/// The smaller rank comes first, and the text decides between equal ranks.
pub proof fn law_rank_before_text(a: SortKeyModel, b: SortKeyModel)
    ensures
        a.rank > b.rank ==> key_after(a, b) && !key_after(b, a),
        a.rank == b.rank ==> key_after(a, b) == text_after(a.text, b.text),
{
}

} // verus!
