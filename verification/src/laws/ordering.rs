//! What it means to come first, in numbers and in texts.

use vstd::prelude::*;

use crate::order::{text_less, text_lt};
use crate::ranking::{
    directed_less, goes_before, is_sorting, key_less, numbers_less, sorting, texts_less, KeyModel,
};

verus! {

/// Whether the places name each of `n` rows exactly once.
pub open spec fn names_each_once(places: Seq<int>, n: nat) -> bool {
    &&& places.len() == n
    &&& forall|i: int| 0 <= i < n ==> 0 <= #[trigger] places[i] < n
    &&& forall|i: int, j: int| 0 <= i < j < n ==> #[trigger] places[i] != #[trigger] places[j]
    &&& forall|k: int| 0 <= k < n ==> #[trigger] places.contains(k)
}

/// A sorted order names each row once.
pub proof fn lemma_sorting_names_each(keys: Seq<KeyModel>)
    ensures
        is_sorting(sorting(keys), keys),
        names_each_once(sorting(keys), keys.len()),
{
    let order = sorting(keys);
    crate::ranking::law_sorting_exists(keys);
    crate::ranking::law_sorting_is_injective(order, keys);
    assert forall|k: int| 0 <= k < keys.len() implies #[trigger] order.contains(k) by {
        crate::ranking::law_sorting_is_surjective(order, keys, k);
    }
}

/// Of two lists of numbers of one length the lesser has the lesser number at the
/// first place where they differ.
pub proof fn lemma_first_number(a: Seq<i128>, b: Seq<i128>) -> (k: int)
    requires
        a.len() == b.len(),
        numbers_less(a, b),
    ensures
        0 <= k < a.len(),
        a[k] < b[k],
        forall|m: int| 0 <= m < k ==> a[m] == b[m],
    decreases a.len(),
{
    if a[0] != b[0] {
        0
    } else {
        let k = lemma_first_number(a.drop_first(), b.drop_first());
        assert forall|m: int| 0 <= m < k + 1 implies a[m] == b[m] by {
            if m > 0 {
                assert(a.drop_first()[m - 1] == b.drop_first()[m - 1]);
            }
        }
        k + 1
    }
}

/// The same for lists of texts with their directions.
pub proof fn lemma_first_text(a: Seq<(Seq<char>, bool)>, b: Seq<(Seq<char>, bool)>) -> (k: int)
    requires
        a.len() == b.len(),
        texts_less(a, b),
    ensures
        0 <= k < a.len(),
        a[k] != b[k],
        directed_less(a[k], b[k]),
        forall|m: int| 0 <= m < k ==> a[m] == b[m],
    decreases a.len(),
{
    if a[0] != b[0] {
        0
    } else {
        let k = lemma_first_text(a.drop_first(), b.drop_first());
        assert forall|m: int| 0 <= m < k + 1 implies a[m] == b[m] by {
            if m > 0 {
                assert(a.drop_first()[m - 1] == b.drop_first()[m - 1]);
            }
        }
        k + 1
    }
}

/// What a sorted order says of two keys: the numbers decide at the first place where
/// they differ, then the texts.
pub proof fn lemma_key_order(keys: Seq<KeyModel>, i: int, j: int)
    requires
        goes_before(keys, i, j),
        keys[i].numbers.len() == keys[j].numbers.len(),
        keys[i].texts.len() == keys[j].texts.len(),
    ensures
        (exists|k: int|
            0 <= k < keys[i].numbers.len() && (#[trigger] keys[i].numbers[k]) < keys[j].numbers[k]
                && forall|m: int| 0 <= m < k ==> keys[i].numbers[m] == keys[j].numbers[m]) || (
        keys[i].numbers == keys[j].numbers && ((exists|k: int|
            0 <= k < keys[i].texts.len() && directed_less(
                #[trigger] keys[i].texts[k],
                keys[j].texts[k],
            ) && keys[i].texts[k] != keys[j].texts[k] && forall|m: int|
                0 <= m < k ==> keys[i].texts[m] == keys[j].texts[m]) || (keys[i].texts
            == keys[j].texts && i < j))),
{
    let a = keys[i];
    let b = keys[j];
    if key_less(a, b) {
        if a.numbers != b.numbers {
            let k = lemma_first_number(a.numbers, b.numbers);
            assert(a.numbers[k] < b.numbers[k]);
        } else {
            let k = lemma_first_text(a.texts, b.texts);
            assert(directed_less(a.texts[k], b.texts[k]));
        }
    }
}

/// One text stands before another exactly where it is a proper beginning of it, or
/// has the lesser character at the first place where they differ.
pub proof fn law_texts_are_ordered_by_characters(a: &str, b: &str, r: bool)
    requires
        call_ensures(text_lt, (a, b), r),
    ensures
        r <==> exists|k: int|
            0 <= k <= a@.len() && k < b@.len() && #[trigger] a@.take(k) == b@.take(k) && (k
                == a@.len() || a@[k] < b@[k]),
{
    lemma_text_less_means(a@, b@);
}

proof fn lemma_text_less_means(a: Seq<char>, b: Seq<char>)
    ensures
        text_less(a, b) <==> exists|k: int|
            0 <= k <= a.len() && k < b.len() && #[trigger] a.take(k) == b.take(k) && (k == a.len()
                || a[k] < b[k]),
    decreases a.len(),
{
    let meant = |k: int, x: Seq<char>, y: Seq<char>|
        0 <= k <= x.len() && k < y.len() && x.take(k) == y.take(k) && (k == x.len() || x[k] < y[k]);
    if b.len() > 0 && a.len() > 0 && a[0] == b[0] {
        let x = a.drop_first();
        let y = b.drop_first();
        lemma_text_less_means(x, y);
        if text_less(x, y) {
            let k = choose|k: int|
                0 <= k <= x.len() && k < y.len() && #[trigger] x.take(k) == y.take(k) && (k
                    == x.len() || x[k] < y[k]);
            assert(a.take(k + 1) =~= seq![a[0]] + x.take(k));
            assert(b.take(k + 1) =~= seq![b[0]] + y.take(k));
            assert(meant(k + 1, a, b));
        }
        if exists|k: int|
            0 <= k <= a.len() && k < b.len() && #[trigger] a.take(k) == b.take(k) && (k == a.len()
                || a[k] < b[k]) {
            let k = choose|k: int|
                0 <= k <= a.len() && k < b.len() && #[trigger] a.take(k) == b.take(k) && (k
                    == a.len() || a[k] < b[k]);
            assert(k > 0);
            assert(x.take(k - 1) =~= a.take(k).drop_first());
            assert(y.take(k - 1) =~= b.take(k).drop_first());
        }
    } else if b.len() > 0 {
        assert(a.take(0) =~= b.take(0));
        if a.len() > 0 {
            assert forall|k: int|
                0 <= k <= a.len() && k < b.len() && #[trigger] a.take(k) == b.take(k) implies k
                == 0 by {
                if k > 0 {
                    assert(a.take(k)[0] == b.take(k)[0]);
                }
            }
        }
    }
}

} // verus!
