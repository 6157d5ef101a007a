use vstd::prelude::*;

use crate::error::Error;
use crate::hash::is_index_array;
use crate::materials::by_tag;
use crate::materials::listings;
use crate::order::sorted_by;
use crate::order::sorted_by_keeps_the_texts;
use crate::text::texts;
use crate::FIRST_CATEGORY_SLOT;

verus! {

/// How many of the first `n` categories have assets.
pub open spec fn stocked(categories: Seq<Seq<Seq<char>>>, n: int) -> int
    decreases n,
{
    if n <= 0 {
        0
    } else if categories[n - 1].len() == 0 {
        stocked(categories, n - 1)
    } else {
        stocked(categories, n - 1) + 1
    }
}

/// The slot that the category at `at` is served from: the first category
/// slot for the first category with assets, the next for the next. A
/// category without assets uses none.
pub open spec fn slot_of(categories: Seq<Seq<Seq<char>>>, at: int) -> int {
    FIRST_CATEGORY_SLOT + stocked(categories, at)
}

/// The asset chosen from the category at `at`, which has assets: the one
/// that the index of its slot points at, counting round the assets.
pub open spec fn pick(indices: Seq<i64>, categories: Seq<Seq<Seq<char>>>, at: int) -> Seq<char> {
    let assets = categories[at];
    assets[indices[slot_of(categories, at)] as int % assets.len() as int]
}

/// The assets chosen from the first `n` categories, in the order of the
/// categories: one from each that has assets.
pub open spec fn picks(indices: Seq<i64>, categories: Seq<Seq<Seq<char>>>, n: int) -> Seq<
    Seq<char>,
>
    decreases n,
{
    if n <= 0 {
        Seq::empty()
    } else if categories[n - 1].len() == 0 {
        picks(indices, categories, n - 1)
    } else {
        picks(indices, categories, n - 1).push(pick(indices, categories, n - 1))
    }
}

/// Whether an index array has a slot for each category with assets.
pub open spec fn enough_slots(indices: Seq<i64>, categories: Seq<Seq<Seq<char>>>) -> bool {
    stocked(categories, categories.len() as int) > 0 ==> slot_of(
        categories,
        categories.len() as int,
    ) <= indices.len()
}

/// The assets of an avatar in the order they are layered in.
pub open spec fn selection(indices: Seq<i64>, categories: Seq<Seq<Seq<char>>>) -> Seq<Seq<char>> {
    sorted_by(by_tag(), picks(indices, categories, categories.len() as int))
}

/// The number of categories with assets grows with the categories looked
/// at, and no faster.
pub proof fn stocked_grows(categories: Seq<Seq<Seq<char>>>, a: int, b: int)
    requires
        0 <= a <= b,
    ensures
        0 <= stocked(categories, a) <= stocked(categories, b) <= stocked(categories, a) + (b - a),
    decreases b,
{
    if a < b {
        stocked_grows(categories, a, b - 1);
    } else if a > 0 {
        stocked_grows(categories, a - 1, a - 1);
    }
}

/// Whether the category at `at` has assets and is served from the slot
/// `slot` places behind the first category slot.
pub open spec fn is_source(categories: Seq<Seq<Seq<char>>>, at: int, slot: int) -> bool {
    0 <= at < categories.len() && categories[at].len() > 0 && stocked(categories, at) == slot
}

/// No two categories are served from one slot.
pub proof fn a_slot_has_one_source(categories: Seq<Seq<Seq<char>>>, a: int, b: int, slot: int)
    requires
        is_source(categories, a, slot),
        is_source(categories, b, slot),
    ensures
        a == b,
{
    if a < b {
        assert(stocked(categories, a + 1) == stocked(categories, a) + 1);
        stocked_grows(categories, a + 1, b);
    } else if b < a {
        assert(stocked(categories, b + 1) == stocked(categories, b) + 1);
        stocked_grows(categories, b + 1, a);
    }
}

/// The category among the first `n` that is served from the slot `slot`
/// places behind the first category slot, or 0 where there is none.
pub open spec fn source_of(categories: Seq<Seq<Seq<char>>>, n: int, slot: int) -> int
    decreases n,
{
    if n <= 0 {
        0
    } else if is_source(categories, n - 1, slot) {
        n - 1
    } else {
        source_of(categories, n - 1, slot)
    }
}

/// Whether a catalog lists the asset in one of its categories.
pub open spec fn is_asset_of(categories: Seq<Seq<Seq<char>>>, asset: Seq<char>) -> bool {
    exists|at: int| 0 <= at < categories.len() && (#[trigger] categories[at]).contains(asset)
}

/// Each asset chosen from the first `n` categories is an asset of one of
/// them: the `k`-th comes from the category served from the `k`-th slot.
pub proof fn picks_come_from_their_categories(
    indices: Seq<i64>,
    categories: Seq<Seq<Seq<char>>>,
    n: int,
)
    requires
        0 <= n <= categories.len(),
    ensures
        picks(indices, categories, n).len() == stocked(categories, n),
        stocked(categories, n) <= n,
        forall|k: int|
            0 <= k < picks(indices, categories, n).len() ==> {
                &&& 0 <= #[trigger] source_of(categories, n, k) < n
                &&& is_source(categories, source_of(categories, n, k), k)
                &&& categories[source_of(categories, n, k)].contains(
                    picks(indices, categories, n)[k],
                )
            },
    decreases n,
{
    stocked_grows(categories, 0, n);
    let chosen = picks(indices, categories, n);
    if n > 0 {
        picks_come_from_their_categories(indices, categories, n - 1);
        let before = picks(indices, categories, n - 1);
        assert forall|k: int| 0 <= k < chosen.len() implies {
            &&& 0 <= #[trigger] source_of(categories, n, k) < n
            &&& is_source(categories, source_of(categories, n, k), k)
            &&& categories[source_of(categories, n, k)].contains(chosen[k])
        } by {
            if k < before.len() {
                assert(chosen[k] == before[k]);
                let at = source_of(categories, n - 1, k);
                assert(is_source(categories, at, k));
                if is_source(categories, n - 1, k) {
                    a_slot_has_one_source(categories, at, n - 1, k);
                }
            } else {
                let assets = categories[n - 1];
                let index = indices[slot_of(categories, n - 1)] as int % assets.len() as int;
                assert(assets[index] == chosen[k]);
                assert(is_source(categories, n - 1, k));
            }
        }
    }
}

/// The assets of an avatar cover its categories: there is one asset for
/// each category that has assets and none besides, each asset is an asset
/// of a category of the catalog, and ordering them for layering neither
/// adds nor drops one.
pub proof fn selection_covers_the_categories(indices: Seq<i64>, categories: Seq<Seq<Seq<char>>>)
    ensures
        selection(indices, categories).len() == stocked(categories, categories.len() as int),
        selection(indices, categories).len() <= categories.len(),
        selection(indices, categories).to_multiset() == picks(
            indices,
            categories,
            categories.len() as int,
        ).to_multiset(),
        forall|k: int|
            0 <= k < selection(indices, categories).len() ==> is_asset_of(
                categories,
                #[trigger] selection(indices, categories)[k],
            ),
{
    broadcast use vstd::seq_lib::to_multiset_contains;

    let n = categories.len() as int;
    let chosen = picks(indices, categories, n);
    let ordered = selection(indices, categories);
    picks_come_from_their_categories(indices, categories, n);
    sorted_by_keeps_the_texts(by_tag(), chosen);
    assert forall|k: int| 0 <= k < ordered.len() implies is_asset_of(
        categories,
        #[trigger] ordered[k],
    ) by {
        assert(ordered.contains(ordered[k]));
        assert(ordered.to_multiset().contains(ordered[k]));
        assert(chosen.contains(ordered[k]));
        let j = choose|j: int| 0 <= j < chosen.len() && chosen[j] == ordered[k];
        let at = source_of(categories, n, j);
        assert(categories[at].contains(chosen[j]));
    }
}

/// Chooses one asset from each category that has assets, in the order of
/// the categories. Fails where the index array runs out of slots.
pub fn pick_assets(hash_array: &Vec<i64>, categories: &Vec<Vec<String>>) -> (chosen: Result<
    Vec<String>,
    Error,
>)
    requires
        is_index_array(hash_array@),
    ensures
        match chosen {
            Ok(files) => {
                &&& enough_slots(hash_array@, listings(categories@))
                &&& texts(files@) == picks(
                    hash_array@,
                    listings(categories@),
                    categories.len() as int,
                )
            },
            Err(error) => {
                &&& !enough_slots(hash_array@, listings(categories@))
                &&& error == Error::RoboHashMissingRequiredData
            },
        },
{
    let ghost catalog = listings(categories@);
    let mut files: Vec<String> = Vec::new();
    let mut index: usize = FIRST_CATEGORY_SLOT;
    let mut i: usize = 0;
    assert(texts(files@) =~= picks(hash_array@, catalog, 0));
    while i < categories.len()
        invariant
            i <= categories.len(),
            catalog == listings(categories@),
            is_index_array(hash_array@),
            index == slot_of(catalog, i as int),
            stocked(catalog, i as int) > 0 ==> index <= hash_array.len(),
            texts(files@) == picks(hash_array@, catalog, i as int),
        decreases categories.len() - i,
    {
        let assets = &categories[i];
        assert(catalog[i as int] == texts(assets@));
        if assets.len() > 0 {
            if index >= hash_array.len() {
                proof {
                    assert(stocked(catalog, i + 1) == stocked(catalog, i as int) + 1);
                    stocked_grows(catalog, i as int, i + 1);
                    stocked_grows(catalog, i + 1, categories.len() as int);
                }
                return Err(Error::RoboHashMissingRequiredData);
            }
            let set_index = (hash_array[index] as u64 % assets.len() as u64) as usize;
            files.push(assets[set_index].clone());
            index = index + 1;
            assert(texts(files@) =~= picks(hash_array@, catalog, i + 1));
        }
        i += 1;
    }
    Ok(files)
}

} // verus!
