use vstd::prelude::*;
use vstd::seq_lib::to_multiset_build;

use crate::text::texts;

verus! {

/// Whether `a` comes before `b` in lexical order, looking only at the
/// characters from position `from` on, where the two agree before `from`.
pub open spec fn precedes_from(a: Seq<char>, b: Seq<char>, from: int) -> bool
    decreases b.len() - from,
{
    if from >= b.len() {
        false
    } else if from >= a.len() {
        true
    } else if a[from] != b[from] {
        a[from] < b[from]
    } else {
        precedes_from(a, b, from + 1)
    }
}

/// Whether `a` comes strictly before `b` in lexical order: at the first
/// position where they differ `a` holds the smaller character, or `a` is a
/// proper prefix of `b`.
pub open spec fn precedes(a: Seq<char>, b: Seq<char>) -> bool {
    precedes_from(a, b, 0)
}

/// A rule that gives each text the key it is ordered by.
pub type Key = spec_fn(Seq<char>) -> Seq<char>;

/// Whether no text of a list has a key that precedes the key of a text
/// before it.
pub open spec fn is_sorted_by(key: Key, list: Seq<Seq<char>>) -> bool {
    forall|i: int, j: int|
        0 <= i < j < list.len() ==> !precedes(key(#[trigger] list[j]), key(#[trigger] list[i]))
}

/// A sorted list with one more text, put behind every text whose key does
/// not come after its own.
pub open spec fn insert_by(key: Key, sorted: Seq<Seq<char>>, x: Seq<char>) -> Seq<Seq<char>>
    decreases sorted.len(),
{
    if sorted.len() > 0 && precedes(key(x), key(sorted.last())) {
        insert_by(key, sorted.drop_last(), x).push(sorted.last())
    } else {
        sorted.push(x)
    }
}

/// The texts of a list in the order of their keys, texts of equal keys in
/// the order they had in the list.
pub open spec fn sorted_by(key: Key, list: Seq<Seq<char>>) -> Seq<Seq<char>>
    decreases list.len(),
{
    if list.len() == 0 {
        Seq::empty()
    } else {
        insert_by(key, sorted_by(key, list.drop_last()), list.last())
    }
}

/// Two texts that agree before `from` cannot each precede the other.
proof fn precedes_from_is_asymmetric(a: Seq<char>, b: Seq<char>, from: int)
    requires
        0 <= from,
        precedes_from(a, b, from),
    ensures
        !precedes_from(b, a, from),
    decreases b.len() - from,
{
    if from < b.len() && from < a.len() && a[from] == b[from] {
        precedes_from_is_asymmetric(a, b, from + 1);
    }
}

/// Where `c` precedes `a`, it precedes `b` or `b` precedes `a`, for texts
/// that agree before `from`.
proof fn precedes_from_splits(a: Seq<char>, b: Seq<char>, c: Seq<char>, from: int)
    requires
        0 <= from,
        precedes_from(c, a, from),
    ensures
        precedes_from(c, b, from) || precedes_from(b, a, from),
    decreases a.len() - from,
{
    if from < c.len() && from < b.len() && c[from] == a[from] && b[from] == a[from] {
        precedes_from_splits(a, b, c, from + 1);
    }
}

/// No text precedes itself, and of two texts at most one precedes the
/// other.
pub proof fn precedes_is_asymmetric(a: Seq<char>, b: Seq<char>)
    requires
        precedes(a, b),
    ensures
        !precedes(b, a),
{
    precedes_from_is_asymmetric(a, b, 0);
}

/// "Does not come after" is transitive: where `b` does not precede `a` and
/// `c` does not precede `b`, `c` does not precede `a`.
pub proof fn not_after_is_transitive(a: Seq<char>, b: Seq<char>, c: Seq<char>)
    requires
        !precedes(b, a),
        !precedes(c, b),
    ensures
        !precedes(c, a),
{
    if precedes(c, a) {
        precedes_from_splits(a, b, c, 0);
    }
}

/// Two texts that agree before `from`, neither of which precedes the
/// other, are the same text.
proof fn neither_precedes_from(a: Seq<char>, b: Seq<char>, from: int)
    requires
        0 <= from <= a.len(),
        from <= b.len(),
        forall|i: int| 0 <= i < from ==> a[i] == b[i],
        !precedes_from(a, b, from),
        !precedes_from(b, a, from),
    ensures
        a == b,
    decreases b.len() - from,
{
    if from < b.len() && from < a.len() {
        neither_precedes_from(a, b, from + 1);
    } else {
        assert(a =~= b);
    }
}

/// Of two different texts one precedes the other.
pub proof fn precedes_is_total(a: Seq<char>, b: Seq<char>)
    requires
        !precedes(a, b),
        !precedes(b, a),
    ensures
        a == b,
{
    neither_precedes_from(a, b, 0);
}

/// "Does not come after", as a relation between two texts.
pub open spec fn not_after() -> spec_fn(Seq<char>, Seq<char>) -> bool {
    |a: Seq<char>, b: Seq<char>| !precedes(b, a)
}

/// Texts in lexical order are in one order only: lists that hold the same
/// texts and are sorted by the texts themselves are equal.
pub proof fn texts_have_one_order(first: Seq<Seq<char>>, second: Seq<Seq<char>>)
    requires
        first.to_multiset() == second.to_multiset(),
        forall|i: int, j: int|
            0 <= i < j < first.len() ==> !precedes(#[trigger] first[j], #[trigger] first[i]),
        forall|i: int, j: int|
            0 <= i < j < second.len() ==> !precedes(#[trigger] second[j], #[trigger] second[i]),
    ensures
        first == second,
{
    let leq = not_after();
    assert(vstd::relations::reflexive(leq)) by {
        assert forall|x: Seq<char>| #[trigger] leq(x, x) by {
            if precedes(x, x) {
                precedes_is_asymmetric(x, x);
            }
        }
    }
    assert(vstd::relations::antisymmetric(leq)) by {
        assert forall|x: Seq<char>, y: Seq<char>| #[trigger] leq(x, y) && #[trigger] leq(y, x)
            implies x == y by {
            precedes_is_total(x, y);
        }
    }
    assert(vstd::relations::transitive(leq)) by {
        assert forall|x: Seq<char>, y: Seq<char>, z: Seq<char>| #[trigger] leq(x, y) && #[trigger] leq(
            y,
            z,
        ) implies leq(x, z) by {
            not_after_is_transitive(x, y, z);
        }
    }
    assert(vstd::relations::strongly_connected(leq)) by {
        assert forall|x: Seq<char>, y: Seq<char>| #[trigger] leq(x, y) || #[trigger] leq(y, x) by {
            if precedes(y, x) {
                precedes_is_asymmetric(y, x);
            }
        }
    }
    assert(vstd::relations::sorted_by(first, leq));
    assert(vstd::relations::sorted_by(second, leq));
    vstd::seq_lib::lemma_sorted_unique(first, second, leq);
}

/// Compares two texts in lexical order.
pub fn lex_less(a: &Vec<char>, b: &Vec<char>) -> (less: bool)
    ensures
        less == precedes(a@, b@),
{
    let mut i: usize = 0;
    while i < a.len() && i < b.len()
        invariant
            i <= a.len(),
            i <= b.len(),
            precedes(a@, b@) == precedes_from(a@, b@, i as int),
        decreases a.len() - i,
    {
        if a[i] != b[i] {
            return a[i] < b[i];
        }
        i += 1;
    }
    i < b.len()
}

/// Where a text's key precedes the keys of all texts from `at` on and of
/// none before, inserting it by key puts it at `at`.
proof fn insert_by_lands_at(key: Key, sorted: Seq<Seq<char>>, x: Seq<char>, at: int)
    requires
        0 <= at <= sorted.len(),
        forall|j: int| at <= j < sorted.len() ==> precedes(key(x), key(#[trigger] sorted[j])),
        at > 0 ==> !precedes(key(x), key(sorted[at - 1])),
    ensures
        insert_by(key, sorted, x) == sorted.insert(at, x),
    decreases sorted.len(),
{
    if at == sorted.len() {
        assert(sorted.push(x) =~= sorted.insert(at, x));
    } else {
        let front = sorted.drop_last();
        assert(precedes(key(x), key(sorted[sorted.len() - 1])));
        assert forall|j: int| at <= j < front.len() implies precedes(
            key(x),
            key(#[trigger] front[j]),
        ) by {
            assert(front[j] == sorted[j]);
        }
        insert_by_lands_at(key, front, x, at);
        assert(front.insert(at, x).push(sorted.last()) =~= sorted.insert(at, x));
    }
}

/// Sorts `items` by `keys`, which holds the key of each item at the item's
/// position. The sort is stable.
pub(crate) fn sort_by_keys(items: &Vec<String>, keys: &Vec<Vec<char>>, Ghost(key): Ghost<Key>) -> (sorted:
    Vec<String>)
    requires
        keys.len() == items.len(),
        forall|i: int| 0 <= i < items.len() ==> (#[trigger] keys[i])@ == key(items[i]@),
    ensures
        texts(sorted@) == sorted_by(key, texts(items@)),
{
    let mut sorted: Vec<String> = Vec::new();
    let mut sorted_keys: Vec<Vec<char>> = Vec::new();
    let mut i: usize = 0;
    assert(texts(items@).take(0) =~= Seq::empty());
    assert(texts(sorted@) =~= Seq::empty());
    while i < items.len()
        invariant
            i <= items.len(),
            keys.len() == items.len(),
            forall|k: int| 0 <= k < items.len() ==> (#[trigger] keys[k])@ == key(items[k]@),
            texts(sorted@) == sorted_by(key, texts(items@).take(i as int)),
            sorted_keys.len() == sorted.len(),
            forall|k: int| 0 <= k < sorted.len() ==> (#[trigger] sorted_keys[k])@ == key(sorted[k]@),
        decreases items.len() - i,
    {
        let mut at: usize = sorted.len();
        while at > 0 && lex_less(&keys[i], &sorted_keys[at - 1])
            invariant
                i < items.len(),
                keys.len() == items.len(),
                at <= sorted.len(),
                sorted_keys.len() == sorted.len(),
                forall|k: int|
                    at <= k < sorted.len() ==> precedes(keys[i as int]@, (#[trigger] sorted_keys[k])@),
            decreases at,
        {
            at -= 1;
        }
        let ghost before = texts(sorted@);
        proof {
            let x = items[i as int]@;
            assert(keys[i as int]@ == key(x));
            assert forall|j: int| at <= j < before.len() implies precedes(
                key(x),
                key(#[trigger] before[j]),
            ) by {
                assert(sorted_keys[j]@ == key(sorted[j]@));
            }
            if at > 0 {
                assert(sorted_keys[at - 1]@ == key(sorted[at - 1]@));
            }
            insert_by_lands_at(key, before, x, at as int);
            assert(texts(items@).take(i + 1).drop_last() =~= texts(items@).take(i as int));
            assert(texts(items@).take(i + 1).last() == x);
        }
        let item = items[i].clone();
        let item_key = keys[i].clone();
        assert(item_key@ =~= keys[i as int]@);
        sorted.insert(at, item);
        sorted_keys.insert(at, item_key);
        assert(texts(sorted@) =~= before.insert(at as int, items[i as int]@));
        i += 1;
    }
    assert(texts(items@).take(i as int) =~= texts(items@));
    sorted
}

/// Where a text lands when it is inserted by key: behind the last text
/// whose key does not come after its own.
pub open spec fn landing(key: Key, sorted: Seq<Seq<char>>, x: Seq<char>) -> int
    decreases sorted.len(),
{
    if sorted.len() > 0 && precedes(key(x), key(sorted.last())) {
        landing(key, sorted.drop_last(), x)
    } else {
        sorted.len() as int
    }
}

/// Inserting by key puts the text at its landing place and moves no other
/// text.
pub proof fn insert_by_is_an_insertion(key: Key, sorted: Seq<Seq<char>>, x: Seq<char>)
    ensures
        0 <= landing(key, sorted, x) <= sorted.len(),
        insert_by(key, sorted, x) == sorted.insert(landing(key, sorted, x), x),
        forall|j: int|
            landing(key, sorted, x) <= j < sorted.len() ==> precedes(
                key(x),
                key(#[trigger] sorted[j]),
            ),
        landing(key, sorted, x) > 0 ==> !precedes(
            key(x),
            key(sorted[landing(key, sorted, x) - 1]),
        ),
    decreases sorted.len(),
{
    if sorted.len() > 0 && precedes(key(x), key(sorted.last())) {
        let front = sorted.drop_last();
        insert_by_is_an_insertion(key, front, x);
        let at = landing(key, front, x);
        assert forall|j: int| at <= j < sorted.len() implies precedes(
            key(x),
            key(#[trigger] sorted[j]),
        ) by {
            if j < front.len() {
                assert(front[j] == sorted[j]);
            }
        }
        if at > 0 {
            assert(front[at - 1] == sorted[at - 1]);
        }
        insert_by_lands_at(key, sorted, x, at);
    } else {
        assert(sorted.push(x) =~= sorted.insert(sorted.len() as int, x));
    }
}

/// Inserting by key into a sorted list gives a sorted list.
pub proof fn insert_by_keeps_sorted(key: Key, sorted: Seq<Seq<char>>, x: Seq<char>)
    requires
        is_sorted_by(key, sorted),
    ensures
        is_sorted_by(key, insert_by(key, sorted, x)),
{
    insert_by_is_an_insertion(key, sorted, x);
    let at = landing(key, sorted, x);
    let grown = sorted.insert(at, x);
    assert forall|i: int, j: int| 0 <= i < j < grown.len() implies !precedes(
        key(#[trigger] grown[j]),
        key(#[trigger] grown[i]),
    ) by {
        if i == at {
            assert(grown[j] == sorted[j - 1]);
            precedes_is_asymmetric(key(x), key(sorted[j - 1]));
        } else if j == at {
            assert(grown[i] == sorted[i]);
            if i < at - 1 {
                not_after_is_transitive(key(sorted[i]), key(sorted[at - 1]), key(x));
            }
        } else {
            let a = if i < at { i } else { i - 1 };
            let b = if j < at { j } else { j - 1 };
            assert(grown[i] == sorted[a] && grown[j] == sorted[b]);
        }
    }
}

/// Sorting gives a sorted list.
pub proof fn sorted_by_is_sorted(key: Key, list: Seq<Seq<char>>)
    ensures
        is_sorted_by(key, sorted_by(key, list)),
    decreases list.len(),
{
    if list.len() > 0 {
        sorted_by_is_sorted(key, list.drop_last());
        insert_by_keeps_sorted(key, sorted_by(key, list.drop_last()), list.last());
    }
}

/// Sorting neither adds, drops nor changes a text: the sorted list holds
/// each text as often as the list did.
pub proof fn sorted_by_keeps_the_texts(key: Key, list: Seq<Seq<char>>)
    ensures
        sorted_by(key, list).to_multiset() == list.to_multiset(),
        sorted_by(key, list).len() == list.len(),
    decreases list.len(),
{
    broadcast use vstd::seq_lib::to_multiset_insert;

    if list.len() > 0 {
        let front = list.drop_last();
        sorted_by_keeps_the_texts(key, front);
        insert_by_is_an_insertion(key, sorted_by(key, front), list.last());
        to_multiset_build(front, list.last());
        assert(front.push(list.last()) =~= list);
    } else {
        assert(sorted_by(key, list) =~= list);
    }
}

/// Sorting a list that is sorted already gives the same list.
pub proof fn sorted_by_keeps_a_sorted_list(key: Key, list: Seq<Seq<char>>)
    requires
        is_sorted_by(key, list),
    ensures
        sorted_by(key, list) == list,
    decreases list.len(),
{
    if list.len() > 0 {
        let front = list.drop_last();
        assert forall|i: int, j: int| 0 <= i < j < front.len() implies !precedes(
            key(#[trigger] front[j]),
            key(#[trigger] front[i]),
        ) by {
            assert(front[i] == list[i] && front[j] == list[j]);
        }
        sorted_by_keeps_a_sorted_list(key, front);
        if front.len() > 0 {
            assert(front.last() == list[list.len() - 2]);
            assert(!precedes(key(list[list.len() - 1]), key(list[list.len() - 2])));
        }
        assert(front.push(list.last()) =~= list);
    } else {
        assert(sorted_by(key, list) =~= list);
    }
}

/// Sorting twice gives what sorting once gives.
pub proof fn sorted_by_is_idempotent(key: Key, list: Seq<Seq<char>>)
    ensures
        sorted_by(key, sorted_by(key, list)) == sorted_by(key, list),
{
    sorted_by_is_sorted(key, list);
    sorted_by_keeps_a_sorted_list(key, sorted_by(key, list));
}

/// The rule that holds of exactly the texts with the key `k`.
pub open spec fn has_key(key: Key, k: Seq<char>) -> spec_fn(Seq<char>) -> bool {
    |x: Seq<char>| key(x) == k
}

/// Sorting is stable: the texts of one key stand in the sorted list in the
/// order they had in the list.
pub proof fn sorted_by_is_stable(key: Key, list: Seq<Seq<char>>, k: Seq<char>)
    ensures
        sorted_by(key, list).filter(has_key(key, k)) == list.filter(has_key(key, k)),
    decreases list.len(),
{
    broadcast use Seq::lemma_filter_push;

    let same = has_key(key, k);
    if list.len() > 0 {
        let front = list.drop_last();
        let x = list.last();
        sorted_by_is_stable(key, front, k);
        insert_by_keeps_key_order(key, sorted_by(key, front), x, k);
        assert(front.push(x) =~= list);
    } else {
        assert(sorted_by(key, list) =~= list);
    }
}

/// Inserting by key puts a text behind all texts of its own key and leaves
/// the texts of every other key as they were.
proof fn insert_by_keeps_key_order(key: Key, sorted: Seq<Seq<char>>, x: Seq<char>, k: Seq<char>)
    ensures
        insert_by(key, sorted, x).filter(has_key(key, k)) == if key(x) == k {
            sorted.filter(has_key(key, k)).push(x)
        } else {
            sorted.filter(has_key(key, k))
        },
    decreases sorted.len(),
{
    broadcast use Seq::lemma_filter_push;

    let same = has_key(key, k);
    if sorted.len() > 0 && precedes(key(x), key(sorted.last())) {
        let front = sorted.drop_last();
        insert_by_keeps_key_order(key, front, x, k);
        assert(front.push(sorted.last()) =~= sorted);
        if key(x) == k && key(sorted.last()) == k {
            precedes_is_asymmetric(key(x), key(sorted.last()));
        }
    }
}

} // verus!
