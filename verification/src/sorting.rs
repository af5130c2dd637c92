//! Stable sorting by text keys.

use crate::text::{lemma_text_order_total, lemma_text_order_transitive, text_equals, text_less, text_precedes};
use vstd::prelude::*;

verus! {

/// Whether the key `a` stands before the key `b`: by its first part, then by its second.
pub open spec fn key_less(a: (Seq<char>, Seq<char>), b: (Seq<char>, Seq<char>)) -> bool {
    text_less(a.0, b.0) || (a.0 == b.0 && text_less(a.1, b.1))
}

/// The keys of a list.
pub open spec fn key_views(keys: Seq<(String, String)>) -> Seq<(Seq<char>, Seq<char>)> {
    Seq::new(keys.len(), |i: int| (keys[i].0@, keys[i].1@))
}

/// The places `order` with the place `item` added, behind every place whose key is not greater.
pub open spec fn with_place(
    order: Seq<int>,
    keys: Seq<(Seq<char>, Seq<char>)>,
    item: int,
) -> Seq<int>
    decreases order.len(),
{
    if order.len() > 0 && key_less(keys[item], keys[order[order.len() - 1]]) {
        with_place(order.subrange(0, order.len() - 1), keys, item).push(order[order.len() - 1])
    } else {
        order.push(item)
    }
}

/// The places of the first `n` keys in the order of the keys; equal keys keep their order.
pub open spec fn order_of_first(keys: Seq<(Seq<char>, Seq<char>)>, n: nat) -> Seq<int>
    decreases n,
{
    if n == 0 {
        Seq::empty()
    } else {
        with_place(order_of_first(keys, (n - 1) as nat), keys, n - 1)
    }
}

/// The places of the keys in the order of the keys; equal keys keep their order.
pub open spec fn stable_order(keys: Seq<(Seq<char>, Seq<char>)>) -> Seq<int> {
    order_of_first(keys, keys.len())
}

/// Whether the places `order` are sorted by their keys, and equal keys by their places.
pub open spec fn is_stable(order: Seq<int>, keys: Seq<(Seq<char>, Seq<char>)>) -> bool {
    forall|i: int, j: int|
        0 <= i < j < order.len() ==> key_less(keys[#[trigger] order[i]], keys[#[trigger] order[j]])
            || (keys[order[i]] == keys[order[j]] && order[i] < order[j])
}

/// Of two different keys one stands before the other, and not both do.
pub proof fn lemma_key_order_total(a: (Seq<char>, Seq<char>), b: (Seq<char>, Seq<char>))
    ensures
        a != b ==> (key_less(a, b) <==> !key_less(b, a)),
        a == b ==> !key_less(a, b),
{
    lemma_text_order_total(a.0, b.0);
    lemma_text_order_total(a.1, b.1);
}

/// The order of the keys is transitive.
pub proof fn lemma_key_order_transitive(
    a: (Seq<char>, Seq<char>),
    b: (Seq<char>, Seq<char>),
    c: (Seq<char>, Seq<char>),
)
    requires
        key_less(a, b),
        key_less(b, c),
    ensures
        key_less(a, c),
{
    if text_less(a.0, b.0) && text_less(b.0, c.0) {
        lemma_text_order_transitive(a.0, b.0, c.0);
    } else if a.0 == b.0 && b.0 == c.0 {
        lemma_text_order_transitive(a.1, b.1, c.1);
    }
}

proof fn lemma_with_place(order: Seq<int>, keys: Seq<(Seq<char>, Seq<char>)>, item: int)
    requires
        is_stable(order, keys),
        order.no_duplicates(),
        0 <= item < keys.len(),
        forall|i: int| 0 <= i < order.len() ==> 0 <= #[trigger] order[i] < item,
    ensures
        ({
            let result = with_place(order, keys, item);
            &&& is_stable(result, keys)
            &&& result.no_duplicates()
            &&& result.len() == order.len() + 1
            &&& forall|i: int| 0 <= i < result.len() ==> 0 <= #[trigger] result[i] <= item
            &&& forall|i: int|
                0 <= i < result.len() ==> (#[trigger] result[i] == item || order.contains(
                    result[i],
                ))
            &&& result.contains(item)
            &&& forall|x: int| #[trigger] order.contains(x) ==> result.contains(x)
        }),
    decreases order.len(),
{
    let result = with_place(order, keys, item);
    if order.len() > 0 && key_less(keys[item], keys[order[order.len() - 1]]) {
        let last = order[order.len() - 1];
        let init = order.subrange(0, order.len() - 1);
        lemma_with_place(init, keys, item);
        let inner = with_place(init, keys, item);
        assert forall|i: int, j: int| 0 <= i < j < result.len() implies key_less(
            keys[#[trigger] result[i]],
            keys[#[trigger] result[j]],
        ) || (keys[result[i]] == keys[result[j]] && result[i] < result[j]) by {
            if j < inner.len() {
                assert(result[i] == inner[i] && result[j] == inner[j]);
            } else {
                assert(result[j] == last);
                assert(result[i] == inner[i]);
                if inner[i] != item {
                    let k = choose|k: int| 0 <= k < init.len() && init[k] == inner[i];
                    assert(order[k] == inner[i]);
                }
            }
        }
        assert forall|i: int| 0 <= i < result.len() implies (#[trigger] result[i] == item
            || order.contains(result[i])) by {
            if i < inner.len() {
                assert(result[i] == inner[i]);
                if inner[i] != item {
                    let k = choose|k: int| 0 <= k < init.len() && init[k] == inner[i];
                    assert(order[k] == inner[i]);
                }
            } else {
                assert(result[i] == last);
                assert(order.contains(last));
            }
        }
        assert forall|i: int, j: int| 0 <= i < result.len() && 0 <= j < result.len() && i
            != j implies result[i] != result[j] by {
            if i < inner.len() && j < inner.len() {
                assert(result[i] == inner[i] && result[j] == inner[j]);
            } else {
                let k = if i < inner.len() {
                    i
                } else {
                    j
                };
                assert(result[k] == inner[k]);
                if inner[k] != item {
                    let m = choose|m: int| 0 <= m < init.len() && init[m] == inner[k];
                    assert(order[m] == inner[k]);
                    assert(m != order.len() - 1);
                }
            }
        }
        assert(result[result.len() - 1] == last);
        assert forall|x: int| inner.contains(x) implies result.contains(x) by {
            let k = choose|k: int| 0 <= k < inner.len() && inner[k] == x;
            assert(result[k] == x);
        }
        assert forall|x: int| #[trigger] order.contains(x) implies result.contains(x) by {
            let k = choose|k: int| 0 <= k < order.len() && order[k] == x;
            if k < init.len() {
                assert(init[k] == x);
                assert(init.contains(x));
            } else {
                assert(result[result.len() - 1] == x);
            }
        }
        assert(inner.contains(item));
    } else {
        assert(result[order.len() as int] == item);
        assert forall|x: int| #[trigger] order.contains(x) implies result.contains(x) by {
            let k = choose|k: int| 0 <= k < order.len() && order[k] == x;
            assert(result[k] == x);
        }
        assert forall|i: int, j: int| 0 <= i < j < result.len() implies key_less(
            keys[#[trigger] result[i]],
            keys[#[trigger] result[j]],
        ) || (keys[result[i]] == keys[result[j]] && result[i] < result[j]) by {
            if j < order.len() {
                assert(result[i] == order[i] && result[j] == order[j]);
            } else {
                let last = order[order.len() - 1];
                assert(result[j] == item);
                assert(result[i] == order[i]);
                lemma_key_order_total(keys[item], keys[last]);
                if i < order.len() - 1 {
                    assert(key_less(keys[order[i]], keys[last]) || keys[order[i]] == keys[last]);
                    if key_less(keys[order[i]], keys[last]) && key_less(keys[last], keys[item]) {
                        lemma_key_order_transitive(keys[order[i]], keys[last], keys[item]);
                    }
                }
            }
        }
        assert forall|i: int| 0 <= i < result.len() implies (#[trigger] result[i] == item
            || order.contains(result[i])) by {
            if i < order.len() {
                assert(result[i] == order[i]);
            }
        }
    }
}

proof fn lemma_order_of_first(keys: Seq<(Seq<char>, Seq<char>)>, n: nat)
    requires
        n <= keys.len(),
    ensures
        ({
            let order = order_of_first(keys, n);
            &&& is_stable(order, keys)
            &&& order.no_duplicates()
            &&& order.len() == n
            &&& forall|i: int| 0 <= i < order.len() ==> 0 <= #[trigger] order[i] < n
            &&& forall|k: int| 0 <= k < n ==> #[trigger] order.contains(k)
        }),
    decreases n,
{
    if n > 0 {
        let before = order_of_first(keys, (n - 1) as nat);
        lemma_order_of_first(keys, (n - 1) as nat);
        lemma_with_place(before, keys, n - 1);
        let order = order_of_first(keys, n);
        assert forall|k: int| 0 <= k < n implies #[trigger] order.contains(k) by {
            if k < n - 1 {
                assert(before.contains(k));
            }
        }
    }
}

/// The stable order names every place once, sorts the places by their keys, and keeps equal keys
/// in their order.
pub proof fn law_stable_order(keys: Seq<(Seq<char>, Seq<char>)>)
    ensures
        stable_order(keys).len() == keys.len(),
        stable_order(keys).no_duplicates(),
        forall|i: int|
            0 <= i < keys.len() ==> 0 <= #[trigger] stable_order(keys)[i] < keys.len(),
        forall|k: int| 0 <= k < keys.len() ==> #[trigger] stable_order(keys).contains(k),
        is_stable(stable_order(keys), keys),
{
    lemma_order_of_first(keys, keys.len());
}

/// Whether the key `a` stands before the key `b`.
pub fn key_precedes(a: &(String, String), b: &(String, String)) -> (result: bool)
    ensures
        result == key_less((a.0@, a.1@), (b.0@, b.1@)),
{
    text_precedes(a.0.as_str(), b.0.as_str()) || (text_equals(a.0.as_str(), b.0.as_str())
        && text_precedes(a.1.as_str(), b.1.as_str()))
}

/// The places that a list of indices stands for.
pub open spec fn places(order: Seq<usize>) -> Seq<int> {
    Seq::new(order.len(), |i: int| order[i] as int)
}

proof fn lemma_with_place_at(
    order: Seq<int>,
    keys: Seq<(Seq<char>, Seq<char>)>,
    item: int,
    at: int,
)
    requires
        0 <= at <= order.len(),
        forall|j: int| at <= j < order.len() ==> key_less(keys[item], keys[#[trigger] order[j]]),
        at > 0 ==> !key_less(keys[item], keys[order[at - 1]]),
    ensures
        with_place(order, keys, item) == order.insert(at, item),
    decreases order.len(),
{
    if at < order.len() {
        let init = order.subrange(0, order.len() - 1);
        assert forall|j: int| at <= j < init.len() implies key_less(
            keys[item],
            keys[#[trigger] init[j]],
        ) by {
            assert(init[j] == order[j]);
        }
        lemma_with_place_at(init, keys, item, at);
        assert(init.insert(at, item).push(order[order.len() - 1]) =~= order.insert(at, item));
    } else {
        assert(order.push(item) =~= order.insert(at, item));
    }
}

/// The places of the keys in the order of the keys; equal keys keep their order.
pub fn sorted_places(keys: &Vec<(String, String)>) -> (result: Vec<usize>)
    ensures
        places(result@) == stable_order(key_views(keys@)),
        result.len() == keys.len(),
        forall|i: int| 0 <= i < result.len() ==> #[trigger] result@[i] < keys.len(),
{
    let ghost all = key_views(keys@);
    let mut order: Vec<usize> = Vec::new();
    let mut n: usize = 0;
    assert(places(order@) =~= order_of_first(all, 0));
    while n < keys.len()
        invariant
            n <= keys.len(),
            all == key_views(keys@),
            order.len() == n,
            forall|i: int| 0 <= i < order.len() ==> #[trigger] order@[i] < n,
            places(order@) == order_of_first(all, n as nat),
        decreases keys.len() - n,
    {
        let ghost before = places(order@);
        let mut at: usize = order.len();
        while at > 0 && key_precedes(&keys[n], &keys[order[at - 1]])
            invariant
                at <= order.len(),
                n < keys.len(),
                all == key_views(keys@),
                before == places(order@),
                forall|i: int| 0 <= i < order.len() ==> #[trigger] order@[i] < n,
                forall|j: int|
                    at <= j < before.len() ==> key_less(all[n as int], all[#[trigger] before[j]]),
            decreases at,
        {
            assert(before[at - 1] == order@[at - 1]);
            at = at - 1;
        }
        proof {
            if at > 0 {
                assert(before[at - 1] == order@[at - 1]);
            }
            lemma_with_place_at(before, all, n as int, at as int);
        }
        order.insert(at, n);
        assert(places(order@) =~= before.insert(at as int, n as int));
        n = n + 1;
    }
    order
}

} // verus!
