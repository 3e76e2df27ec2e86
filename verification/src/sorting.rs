//! Sorting by name: the places of a list of keys, put in the order of the keys.

use crate::graph::ids;
use crate::text::{le_text, lemma_text_le_total, lemma_text_le_transitive, text_le};
use vstd::prelude::*;

verus! {

/// `places` lists the places of `keys` so that the keys come in order, and keys that are
/// the same come in the order in which `keys` holds them.
pub open spec fn sorts(keys: Seq<Seq<char>>, places: Seq<usize>) -> bool {
    &&& places.len() == keys.len()
    &&& ordered_part(keys, places)
}

/// `places` lists some places of `keys`, none twice, so that the keys come in order, and
/// keys that are the same come in the order in which `keys` holds them.
pub open spec fn ordered_part(keys: Seq<Seq<char>>, places: Seq<usize>) -> bool {
    &&& forall|i: int| 0 <= i < places.len() ==> (#[trigger] places[i]) < keys.len()
    &&& places.no_duplicates()
    &&& forall|i: int, j: int|
        #![trigger places[i], places[j]]
        0 <= i < j < places.len() ==> text_le(keys[places[i] as int], keys[places[j] as int])
    &&& forall|i: int, j: int|
        #![trigger places[i], places[j]]
        0 <= i < j < places.len() && keys[places[i] as int] == keys[places[j] as int]
            ==> places[i] < places[j]
}

/// A text comes before itself.
pub proof fn lemma_text_le_reflexive(a: Seq<char>)
    ensures
        text_le(a, a),
    decreases a.len(),
{
    if a.len() > 0 {
        lemma_text_le_reflexive(a.drop_first());
    }
}

/// The places of `keys` in the order of the keys; keys that are the same keep their
/// order.
pub fn sorted_places(keys: &Vec<String>) -> (places: Vec<usize>)
    ensures
        sorts(ids(keys@), places@),
{
    let ghost ks = ids(keys@);
    let mut places: Vec<usize> = Vec::new();
    let mut i: usize = 0;
    while i < keys.len()
        invariant
            i <= keys.len(),
            ks == ids(keys@),
            places.len() == i,
            ordered_part(ks, places@),
            forall|k: int| 0 <= k < places.len() ==> (#[trigger] places@[k]) < i,
        decreases keys.len() - i,
    {
        let mut p: usize = 0;
        while p < places.len() && le_text(keys[places[p]].as_str(), keys[i].as_str())
            invariant
                p <= places.len(),
                i < keys.len(),
                ks == ids(keys@),
                forall|k: int| 0 <= k < places.len() ==> (#[trigger] places@[k]) < keys.len(),
                forall|k: int| 0 <= k < p ==> text_le(ks[(#[trigger] places@[k]) as int], ks[i as int]),
            decreases places.len() - p,
        {
            p += 1;
        }
        let ghost before = places@;
        proof {
            assert forall|k: int| p <= k < before.len() implies text_le(
                ks[i as int],
                ks[(#[trigger] before[k]) as int],
            ) && ks[i as int] != ks[before[k] as int] by {
                let at_p = ks[before[p as int] as int];
                let at_k = ks[before[k] as int];
                assert(!text_le(at_p, ks[i as int]));
                lemma_text_le_total(at_p, ks[i as int]);
                if k > p {
                    assert(text_le(at_p, at_k));
                } else {
                    lemma_text_le_reflexive(at_p);
                }
                lemma_text_le_transitive(ks[i as int], at_p, at_k);
            }
        }
        places.insert(p, i);
        proof {
            let after = places@;
            assert forall|k: int| 0 <= k < after.len() implies (#[trigger] after[k]) < i + 1 by {
                if k < p {
                    assert(after[k] == before[k]);
                } else if k > p {
                    assert(after[k] == before[k - 1]);
                }
            }
            assert forall|a: int, b: int| 0 <= a < after.len() && 0 <= b < after.len() && a != b implies after[a]
                != after[b] by {
                let x = if a < p { before[a] } else if a == p { i } else { before[a - 1] };
                let y = if b < p { before[b] } else if b == p { i } else { before[b - 1] };
                assert(after[a] == x && after[b] == y);
            }
            assert forall|a: int, b: int|
                #![trigger after[a], after[b]]
                0 <= a < b < after.len() implies text_le(
                ks[after[a] as int],
                ks[after[b] as int],
            ) && (ks[after[a] as int] == ks[after[b] as int] ==> after[a] < after[b]) by {
                if b < p {
                    assert(after[a] == before[a] && after[b] == before[b]);
                } else if b == p {
                    assert(after[a] == before[a]);
                } else if a < p {
                    assert(after[a] == before[a] && after[b] == before[b - 1]);
                } else if a == p {
                    assert(after[b] == before[b - 1]);
                } else {
                    assert(after[a] == before[a - 1] && after[b] == before[b - 1]);
                }
            }
        }
        i += 1;
    }
    places
}

/// `out` holds the items at `places`, in that order.
pub open spec fn follows<T>(items: Seq<T>, places: Seq<usize>, out: Seq<T>) -> bool {
    &&& out.len() == places.len()
    &&& forall|k: int| 0 <= k < out.len() ==> #[trigger] out[k] == items[places[k] as int]
}

/// `out` holds the items in the order of their keys; items whose keys are the same keep
/// their order.
pub open spec fn arranged<T>(items: Seq<T>, keys: Seq<Seq<char>>, out: Seq<T>) -> bool {
    exists|places: Seq<usize>| sorts(keys, places) && #[trigger] follows(items, places, out)
}

/// The items in the order of their keys, where `keys` holds the key of each item at the
/// item's place; items whose keys are the same keep their order.
pub fn sort_by_keys<'a, T>(items: &'a Vec<T>, keys: &Vec<String>) -> (out: Vec<&'a T>)
    requires
        keys.len() == items.len(),
    ensures
        arranged(items@, ids(keys@), out@.unref()),
{
    let places = sorted_places(keys);
    let mut out: Vec<&'a T> = Vec::new();
    let mut k: usize = 0;
    while k < places.len()
        invariant
            k <= places.len(),
            places.len() == items.len(),
            forall|m: int| 0 <= m < places.len() ==> (#[trigger] places@[m]) < items.len(),
            out.len() == k,
            forall|m: int| 0 <= m < k ==> *(#[trigger] out@[m]) == items@[places@[m] as int],
        decreases places.len() - k,
    {
        out.push(&items[places[k]]);
        k += 1;
    }
    assert(follows(items@, places@, out@.unref()));
    out
}

} // verus!
