//! Scores, sort keys, and stable sorting by them.

use vstd::prelude::*;

use crate::order::{lemma_less_irreflexive, lemma_less_total, lemma_less_transitive, text_less, text_lt};
use crate::text::text_eq;

verus! {

/// A real score, held by its place in the order of real numbers: a greater key
/// stands for a greater score, and equal keys for equal scores. The place of a
/// score that is not negative is its bit pattern as a double, that of its
/// opposite the opposite place.
#[derive(Debug, Clone, Copy, PartialEq, Eq, Structural)]
pub struct Score {
    /// The place of the score.
    pub key: i64,
}

/// The place of the score one; that of the score zero is zero.
pub const UNIT_SCORE_KEY: i64 = 0x3ff0_0000_0000_0000;

/// The place of the lowest finite score.
pub const LOWEST_SCORE_KEY: i64 = -0x7fef_ffff_ffff_ffff;

/// The place of the infinite score.
pub const INFINITE_SCORE_KEY: i64 = 0x7ff0_0000_0000_0000;

/// The place between the two zeros, which share one place in the order of real
/// numbers: the one with a minus sign comes after the other.
pub open spec fn zero_place(score: Score, negative_zero: bool) -> i128 {
    if score.key == 0 && negative_zero {
        1
    } else {
        0
    }
}

/// The value of [`zero_place`].
pub fn place_of_zero(score: Score, negative_zero: bool) -> (r: i128)
    ensures
        r == zero_place(score, negative_zero),
{
    if score.key == 0 && negative_zero {
        1
    } else {
        0
    }
}

/// Whether a score is a finite number.
pub open spec fn finite(score: Score) -> bool {
    -INFINITE_SCORE_KEY < score.key < INFINITE_SCORE_KEY
}

/// Tests [`finite`].
pub fn is_finite(score: Score) -> (r: bool)
    ensures
        r == finite(score),
{
    -INFINITE_SCORE_KEY < score.key && score.key < INFINITE_SCORE_KEY
}

/// Whether a score is between zero and one.
pub open spec fn in_unit_range(score: Score) -> bool {
    0 <= score.key <= UNIT_SCORE_KEY
}

/// Tests [`in_unit_range`].
pub fn is_in_unit_range(score: Score) -> (r: bool)
    ensures
        r == in_unit_range(score),
{
    0 <= score.key && score.key <= UNIT_SCORE_KEY
}

/// A text in a sort key, with its direction.
pub struct SortText {
    /// The text to sort by.
    pub text: String,
    /// Whether later texts come first.
    pub descending: bool,
}

/// A key to sort by: first the numbers, ascending, then the texts.
pub struct SortKey {
    /// Numbers, the most significant first.
    pub numbers: Vec<i128>,
    /// Texts, the most significant first.
    pub texts: Vec<SortText>,
}

/// The model of a sort key.
pub struct KeyModel {
    /// Numbers, the most significant first.
    pub numbers: Seq<i128>,
    /// Texts with their direction, the most significant first.
    pub texts: Seq<(Seq<char>, bool)>,
}

impl View for SortKey {
    type V = KeyModel;

    open spec fn view(&self) -> KeyModel {
        KeyModel {
            numbers: self.numbers@,
            texts: self.texts@.map_values(|t: SortText| (t.text@, t.descending)),
        }
    }
}

/// Lexicographic order of number lists.
pub open spec fn numbers_less(a: Seq<i128>, b: Seq<i128>) -> bool
    decreases a.len(),
{
    if b.len() == 0 {
        false
    } else if a.len() == 0 {
        true
    } else if a[0] != b[0] {
        a[0] < b[0]
    } else {
        numbers_less(a.drop_first(), b.drop_first())
    }
}

/// Order of one directed text.
pub open spec fn directed_less(a: (Seq<char>, bool), b: (Seq<char>, bool)) -> bool {
    if a.1 != b.1 {
        b.1
    } else if a.1 {
        text_less(b.0, a.0)
    } else {
        text_less(a.0, b.0)
    }
}

/// Lexicographic order of lists of directed texts.
pub open spec fn texts_less(a: Seq<(Seq<char>, bool)>, b: Seq<(Seq<char>, bool)>) -> bool
    decreases a.len(),
{
    if b.len() == 0 {
        false
    } else if a.len() == 0 {
        true
    } else if a[0] != b[0] {
        directed_less(a[0], b[0])
    } else {
        texts_less(a.drop_first(), b.drop_first())
    }
}

/// Order of sort keys.
pub open spec fn key_less(a: KeyModel, b: KeyModel) -> bool {
    if a.numbers != b.numbers {
        numbers_less(a.numbers, b.numbers)
    } else {
        texts_less(a.texts, b.texts)
    }
}

proof fn lemma_numbers_total(a: Seq<i128>, b: Seq<i128>)
    ensures
        numbers_less(a, b) || numbers_less(b, a) || a == b,
        !numbers_less(a, a),
    decreases a.len(),
{
    if a.len() > 0 {
        if b.len() > 0 && a[0] == b[0] {
            lemma_numbers_total(a.drop_first(), b.drop_first());
            if a.drop_first() == b.drop_first() {
                assert(a =~= seq![a[0]] + a.drop_first());
                assert(b =~= seq![b[0]] + b.drop_first());
            }
        } else {
            lemma_numbers_total(a.drop_first(), a.drop_first());
        }
    } else if b.len() == 0 {
        assert(a =~= b);
    }
}

proof fn lemma_numbers_transitive(a: Seq<i128>, b: Seq<i128>, c: Seq<i128>)
    requires
        numbers_less(a, b),
        numbers_less(b, c),
    ensures
        numbers_less(a, c),
    decreases a.len(),
{
    if a.len() > 0 && a[0] == b[0] && b[0] == c[0] {
        lemma_numbers_transitive(a.drop_first(), b.drop_first(), c.drop_first());
    }
}

proof fn lemma_directed(a: (Seq<char>, bool), b: (Seq<char>, bool), c: (Seq<char>, bool))
    ensures
        directed_less(a, b) || directed_less(b, a) || a == b,
        !directed_less(a, a),
        directed_less(a, b) && directed_less(b, c) ==> directed_less(a, c),
{
    lemma_less_total(a.0, b.0);
    lemma_less_irreflexive(a.0);
    if directed_less(a, b) && directed_less(b, c) && a.1 == b.1 && b.1 == c.1 {
        if a.1 {
            lemma_less_transitive(c.0, b.0, a.0);
        } else {
            lemma_less_transitive(a.0, b.0, c.0);
        }
    }
}

proof fn lemma_texts_total(a: Seq<(Seq<char>, bool)>, b: Seq<(Seq<char>, bool)>)
    ensures
        texts_less(a, b) || texts_less(b, a) || a == b,
        !texts_less(a, a),
    decreases a.len(),
{
    if a.len() > 0 {
        lemma_texts_total(a.drop_first(), a.drop_first());
        if b.len() > 0 {
            lemma_directed(a[0], b[0], b[0]);
            if a[0] == b[0] {
                lemma_texts_total(a.drop_first(), b.drop_first());
                if a.drop_first() == b.drop_first() {
                    assert(a =~= seq![a[0]] + a.drop_first());
                    assert(b =~= seq![b[0]] + b.drop_first());
                }
            }
        }
    } else if b.len() == 0 {
        assert(a =~= b);
    }
}

proof fn lemma_texts_transitive(
    a: Seq<(Seq<char>, bool)>,
    b: Seq<(Seq<char>, bool)>,
    c: Seq<(Seq<char>, bool)>,
)
    requires
        texts_less(a, b),
        texts_less(b, c),
    ensures
        texts_less(a, c),
    decreases a.len(),
{
    if a.len() > 0 {
        lemma_directed(a[0], b[0], c[0]);
        lemma_directed(b[0], c[0], a[0]);
        lemma_directed(c[0], a[0], b[0]);
        if a[0] == b[0] && b[0] == c[0] {
            lemma_texts_transitive(a.drop_first(), b.drop_first(), c.drop_first());
        } else if a[0] != b[0] && b[0] != c[0] {
            if a[0] == c[0] {
                assert(directed_less(a[0], a[0]));
            }
        }
    }
}

/// Keys are totally ordered.
pub proof fn lemma_key_total(a: KeyModel, b: KeyModel)
    ensures
        key_less(a, b) || key_less(b, a) || a == b,
        !key_less(a, a),
{
    lemma_numbers_total(a.numbers, b.numbers);
    lemma_texts_total(a.texts, b.texts);
    lemma_numbers_total(a.numbers, a.numbers);
    lemma_texts_total(a.texts, a.texts);
}

/// The order of keys is transitive.
pub proof fn lemma_key_transitive(a: KeyModel, b: KeyModel, c: KeyModel)
    requires
        key_less(a, b),
        key_less(b, c),
    ensures
        key_less(a, c),
{
    lemma_numbers_total(a.numbers, a.numbers);
    if a.numbers != b.numbers && b.numbers != c.numbers {
        lemma_numbers_transitive(a.numbers, b.numbers, c.numbers);
    } else if a.numbers == b.numbers && b.numbers == c.numbers {
        lemma_texts_transitive(a.texts, b.texts, c.texts);
    }
}

/// Whether key `a` stands before key `b`.
pub fn key_lt(a: &SortKey, b: &SortKey) -> (r: bool)
    ensures
        r == key_less(a@, b@),
{
    let mut i: usize = 0;
    proof {
        assert(a.numbers@.skip(0) =~= a.numbers@);
        assert(b.numbers@.skip(0) =~= b.numbers@);
    }
    while i < a.numbers.len() && i < b.numbers.len() && a.numbers[i] == b.numbers[i]
        invariant
            i <= a.numbers.len(),
            i <= b.numbers.len(),
            numbers_less(a.numbers@, b.numbers@) == numbers_less(
                a.numbers@.skip(i as int),
                b.numbers@.skip(i as int),
            ),
            forall|k: int| 0 <= k < i ==> a.numbers@[k] == b.numbers@[k],
        decreases a.numbers.len() - i,
    {
        proof {
            assert(a.numbers@.skip(i as int).drop_first() =~= a.numbers@.skip(i + 1));
            assert(b.numbers@.skip(i as int).drop_first() =~= b.numbers@.skip(i + 1));
        }
        i = i + 1;
    }
    if i < a.numbers.len() || i < b.numbers.len() {
        assert(a.numbers@ != b.numbers@) by {
            if a.numbers@ == b.numbers@ {
                assert(a.numbers@[i as int] == b.numbers@[i as int]);
            }
        }
        if i >= b.numbers.len() {
            return false;
        }
        if i >= a.numbers.len() {
            return true;
        }
        return a.numbers[i] < b.numbers[i];
    }
    assert(a.numbers@ =~= b.numbers@);
    let ghost ta = a@.texts;
    let ghost tb = b@.texts;
    let mut j: usize = 0;
    proof {
        assert(ta.skip(0) =~= ta);
        assert(tb.skip(0) =~= tb);
    }
    while j < a.texts.len() && j < b.texts.len() && a.texts[j].descending == b.texts[j].descending
        && text_eq(a.texts[j].text.as_str(), b.texts[j].text.as_str())
        invariant
            ta == a@.texts,
            tb == b@.texts,
            j <= a.texts.len(),
            j <= b.texts.len(),
            texts_less(ta, tb) == texts_less(ta.skip(j as int), tb.skip(j as int)),
        decreases a.texts.len() - j,
    {
        proof {
            assert(ta.skip(j as int).drop_first() =~= ta.skip(j + 1));
            assert(tb.skip(j as int).drop_first() =~= tb.skip(j + 1));
            assert(ta[j as int] == tb[j as int]);
        }
        j = j + 1;
    }
    if j >= b.texts.len() {
        return false;
    }
    if j >= a.texts.len() {
        return true;
    }
    let left = &a.texts[j];
    let right = &b.texts[j];
    proof {
        assert(ta.skip(j as int)[0] == (left.text@, left.descending));
        assert(tb.skip(j as int)[0] == (right.text@, right.descending));
    }
    if left.descending != right.descending {
        right.descending
    } else if left.descending {
        text_lt(right.text.as_str(), left.text.as_str())
    } else {
        text_lt(left.text.as_str(), right.text.as_str())
    }
}

/// The models of a list of keys.
pub open spec fn key_models(keys: Seq<SortKey>) -> Seq<KeyModel> {
    keys.map_values(|k: SortKey| k@)
}

/// Whether position `i` of the list comes before position `j` when the list is
/// sorted by the keys, equal keys in the order of the list.
pub open spec fn goes_before(keys: Seq<KeyModel>, i: int, j: int) -> bool {
    key_less(keys[i], keys[j]) || (keys[i] == keys[j] && i < j)
}

/// Whether `order` lists each position of `keys` once, in sorted order.
pub open spec fn is_sorting(order: Seq<int>, keys: Seq<KeyModel>) -> bool {
    &&& order.len() == keys.len()
    &&& forall|i: int| 0 <= i < order.len() ==> 0 <= #[trigger] order[i] < keys.len()
    &&& forall|i: int, j: int|
        0 <= i < j < order.len() ==> goes_before(keys, #[trigger] order[i], #[trigger] order[j])
}

proof fn lemma_goes_before_transitive(keys: Seq<KeyModel>, a: int, b: int, c: int)
    requires
        goes_before(keys, a, b),
        goes_before(keys, b, c),
    ensures
        goes_before(keys, a, c),
{
    if key_less(keys[a], keys[b]) && key_less(keys[b], keys[c]) {
        lemma_key_transitive(keys[a], keys[b], keys[c]);
    }
}

proof fn lemma_goes_before_irreflexive(keys: Seq<KeyModel>, a: int)
    ensures
        !goes_before(keys, a, a),
{
    lemma_key_total(keys[a], keys[a]);
}

/// The positions of a list of machine integers.
pub open spec fn positions(order: Seq<usize>) -> Seq<int> {
    order.map_values(|i: usize| i as int)
}

/// The positions of a list in sorted order of its keys, equal keys in the order
/// in which they stand.
pub open spec fn sorting(keys: Seq<KeyModel>) -> Seq<int> {
    choose|order: Seq<int>| is_sorting(order, keys)
}

/// Sorts by keys: the positions of `keys` in sorted order, equal keys in the
/// order in which they stand.
pub fn sort_order(keys: &[SortKey]) -> (r: Vec<usize>)
    ensures
        is_sorting(positions(r@), key_models(keys@)),
        positions(r@) == sorting(key_models(keys@)),
{
    let ghost models = key_models(keys@);
    let mut order: Vec<usize> = Vec::new();
    for n in 0..keys.len()
        invariant
            models == key_models(keys@),
            order@.len() == n,
            forall|i: int| 0 <= i < order@.len() ==> #[trigger] order@[i] < n,
            forall|i: int, j: int|
                0 <= i < j < order@.len() ==> goes_before(
                    models,
                    #[trigger] order@[i] as int,
                    #[trigger] order@[j] as int,
                ),
    {
        let mut at: usize = order.len();
        while at > 0 && key_lt(&keys[n], &keys[order[at - 1]])
            invariant
                at <= order.len(),
                n < keys.len(),
                models == key_models(keys@),
                forall|i: int| 0 <= i < order@.len() ==> #[trigger] order@[i] < n,
                forall|i: int| at <= i < order@.len() ==> key_less(
                    models[n as int],
                    models[#[trigger] order@[i] as int],
                ),
            decreases at,
        {
            at = at - 1;
        }
        let ghost before = order@;
        order.insert(at, n);
        proof {
            let after = order@;
            assert forall|i: int, j: int| 0 <= i < j < after.len() implies goes_before(
                models,
                #[trigger] after[i] as int,
                #[trigger] after[j] as int,
            ) by {
                if j == at {
                    assert(after[i] == before[i]);
                    let last = before[at - 1] as int;
                    lemma_key_total(models[last], models[n as int]);
                    assert(goes_before(models, last, n as int));
                    if i < at - 1 {
                        assert(goes_before(models, before[i] as int, last));
                        lemma_goes_before_transitive(models, before[i] as int, last, n as int);
                    }
                } else if i == at {
                    assert(after[j] == before[j - 1]);
                } else if j < at {
                    assert(goes_before(models, before[i] as int, before[j] as int));
                } else if i < at {
                    assert(goes_before(models, before[i] as int, before[j - 1] as int));
                } else {
                    assert(goes_before(models, before[i - 1] as int, before[j - 1] as int));
                }
            }
            assert forall|i: int| 0 <= i < after.len() implies #[trigger] after[i] < n + 1 by {
                if i < at {
                    assert(after[i] == before[i]);
                } else if i > at {
                    assert(after[i] == before[i - 1]);
                }
            }
        }
    }
    proof {
        assert(is_sorting(positions(order@), models));
        law_sorting_is_unique(positions(order@), sorting(models), models);
    }
    order
}

/// Where position `n` goes among sorted positions, of which those from `at` on
/// come after it.
spec fn insertion_point(order: Seq<int>, keys: Seq<KeyModel>, n: int, at: int) -> int
    decreases at,
{
    if at > 0 && key_less(keys[n], keys[order[at - 1]]) {
        insertion_point(order, keys, n, at - 1)
    } else {
        at
    }
}

proof fn lemma_insertion_point(order: Seq<int>, keys: Seq<KeyModel>, n: int, at: int)
    requires
        0 <= at <= order.len(),
        forall|i: int| at <= i < order.len() ==> key_less(keys[n], keys[#[trigger] order[i]]),
    ensures
        ({
            let p = insertion_point(order, keys, n, at);
            &&& 0 <= p <= at
            &&& forall|i: int| p <= i < order.len() ==> key_less(keys[n], keys[#[trigger] order[i]])
            &&& p > 0 ==> !key_less(keys[n], keys[order[p - 1]])
        }),
    decreases at,
{
    if at > 0 && key_less(keys[n], keys[order[at - 1]]) {
        lemma_insertion_point(order, keys, n, at - 1);
    }
}

/// Every list of keys has a sorting.
pub proof fn law_sorting_exists(keys: Seq<KeyModel>)
    ensures
        is_sorting(sorting(keys), keys),
    decreases keys.len(),
{
    if keys.len() == 0 {
        assert(is_sorting(Seq::empty(), keys));
    } else {
        let rest = keys.drop_last();
        law_sorting_exists(rest);
        let before = sorting(rest);
        let n = keys.len() - 1;
        lemma_insertion_point(before, keys, n, before.len() as int);
        let at = insertion_point(before, keys, n, before.len() as int);
        let after = before.insert(at, n);
        assert forall|i: int| 0 <= i < after.len() implies 0 <= #[trigger] after[i] < keys.len() by {
            if i < at {
                assert(after[i] == before[i]);
            } else if i > at {
                assert(after[i] == before[i - 1]);
            }
        }
        assert forall|i: int, j: int| 0 <= i < j < before.len() implies goes_before(
            keys,
            #[trigger] before[i],
            #[trigger] before[j],
        ) by {
            assert(goes_before(rest, before[i], before[j]));
            assert(rest[before[i]] == keys[before[i]]);
            assert(rest[before[j]] == keys[before[j]]);
        }
        assert forall|i: int, j: int| 0 <= i < j < after.len() implies goes_before(
            keys,
            #[trigger] after[i],
            #[trigger] after[j],
        ) by {
            if j == at {
                assert(after[i] == before[i]);
                let last = before[at - 1];
                lemma_key_total(keys[last], keys[n]);
                assert(goes_before(keys, last, n));
                if i < at - 1 {
                    assert(goes_before(keys, before[i], last));
                    lemma_goes_before_transitive(keys, before[i], last, n);
                }
            } else if i == at {
                assert(after[j] == before[j - 1]);
            } else if j < at {
                assert(goes_before(keys, before[i], before[j]));
            } else if i < at {
                assert(goes_before(keys, before[i], before[j - 1]));
            } else {
                assert(goes_before(keys, before[i - 1], before[j - 1]));
            }
        }
        assert(is_sorting(after, keys));
    }
}

/// A sorting lists no position twice.
pub proof fn law_sorting_is_injective(order: Seq<int>, keys: Seq<KeyModel>)
    requires
        is_sorting(order, keys),
    ensures
        forall|i: int, j: int| 0 <= i < j < order.len() ==> order[i] != order[j],
{
    assert forall|i: int, j: int| 0 <= i < j < order.len() implies order[i] != order[j] by {
        assert(goes_before(keys, order[i], order[j]));
        lemma_goes_before_irreflexive(keys, order[i]);
    }
}

/// Keys determine the sorting: there is no other.
pub proof fn law_sorting_is_unique(a: Seq<int>, b: Seq<int>, keys: Seq<KeyModel>)
    requires
        is_sorting(a, keys),
        is_sorting(b, keys),
    ensures
        a == b,
{
    law_sorting_is_injective(a, keys);
    law_sorting_is_injective(b, keys);
    assert forall|k: int| 0 <= k < a.len() implies a[k] == b[k] by {
        lemma_same_place(a, b, keys, k);
    }
    assert(a =~= b);
}

/// The number of positions that come before position `p`.
spec fn predecessors(keys: Seq<KeyModel>, p: int, n: nat) -> nat
    decreases n,
{
    if n == 0 {
        0
    } else {
        predecessors(keys, p, (n - 1) as nat) + if goes_before(keys, n - 1, p) {
            1nat
        } else {
            0
        }
    }
}

/// How many members of `order[..k]` are below `n`.
spec fn below(order: Seq<int>, k: nat, n: int) -> nat
    decreases k,
{
    if k == 0 {
        0
    } else {
        below(order, (k - 1) as nat, n) + if order[k - 1] < n {
            1nat
        } else {
            0
        }
    }
}

proof fn lemma_same_place(a: Seq<int>, b: Seq<int>, keys: Seq<KeyModel>, k: int)
    requires
        is_sorting(a, keys),
        is_sorting(b, keys),
        0 <= k < a.len(),
        forall|i: int, j: int| 0 <= i < j < a.len() ==> a[i] != a[j],
        forall|i: int, j: int| 0 <= i < j < b.len() ==> b[i] != b[j],
    ensures
        a[k] == b[k],
{
    lemma_place_is_count(a, keys, k);
    lemma_place_is_count(b, keys, k);
    // both places have k predecessors, and different places have different counts
    let p = a[k];
    let q = b[k];
    if p != q {
        lemma_key_total(keys[p], keys[q]);
        if goes_before(keys, p, q) {
            lemma_predecessors_strict(keys, p, q, keys.len());
        } else {
            assert(goes_before(keys, q, p));
            lemma_predecessors_strict(keys, q, p, keys.len());
        }
    }
}

proof fn lemma_predecessors_strict(keys: Seq<KeyModel>, p: int, q: int, n: nat)
    requires
        n <= keys.len(),
        goes_before(keys, p, q),
        0 <= p < keys.len(),
    ensures
        predecessors(keys, p, n) <= predecessors(keys, q, n),
        p < n ==> predecessors(keys, p, n) < predecessors(keys, q, n),
    decreases n,
{
    if n > 0 {
        lemma_predecessors_strict(keys, p, q, (n - 1) as nat);
        let m = n - 1;
        if goes_before(keys, m, p) {
            lemma_goes_before_transitive(keys, m, p, q);
        }
        if m == p {
            lemma_goes_before_irreflexive(keys, p);
        }
    }
}

proof fn lemma_place_is_count(order: Seq<int>, keys: Seq<KeyModel>, k: int)
    requires
        is_sorting(order, keys),
        0 <= k < order.len(),
        forall|i: int, j: int| 0 <= i < j < order.len() ==> order[i] != order[j],
    ensures
        predecessors(keys, order[k], keys.len()) == k,
{
    lemma_count_of_prefix(order, keys, k, keys.len());
    lemma_below_all(order, keys.len() as int, k as nat);
}

proof fn lemma_below_all(order: Seq<int>, n: int, k: nat)
    requires
        k <= order.len(),
        forall|i: int| 0 <= i < order.len() ==> #[trigger] order[i] < n,
    ensures
        below(order, k, n) == k,
    decreases k,
{
    if k > 0 {
        lemma_below_all(order, n, (k - 1) as nat);
        assert(order[k - 1] < n);
    }
}

proof fn lemma_count_of_prefix(order: Seq<int>, keys: Seq<KeyModel>, k: int, n: nat)
    requires
        is_sorting(order, keys),
        0 <= k < order.len(),
        n <= keys.len(),
        forall|i: int, j: int| 0 <= i < j < order.len() ==> order[i] != order[j],
    ensures
        predecessors(keys, order[k], n) == below(order, k as nat, n as int),
    decreases n,
{
    if n == 0 {
        lemma_below_zero(order, keys, k as nat);
    } else {
        let m = n - 1;
        lemma_count_of_prefix(order, keys, k, m as nat);
        lemma_position_of(order, keys, m);
        let at = choose|i: int| 0 <= i < order.len() && order[i] == m;
        lemma_below_step(order, k as nat, m, at);
        if at < k {
            assert(goes_before(keys, order[at], order[k]));
        } else if at == k {
            lemma_goes_before_irreflexive(keys, m);
        } else {
            assert(goes_before(keys, order[k], order[at]));
            if goes_before(keys, m, order[k]) {
                lemma_goes_before_transitive(keys, m, order[k], m);
                lemma_goes_before_irreflexive(keys, m);
            }
        }
    }
}

proof fn lemma_below_zero(order: Seq<int>, keys: Seq<KeyModel>, k: nat)
    requires
        is_sorting(order, keys),
        k <= order.len(),
    ensures
        below(order, k, 0) == 0,
    decreases k,
{
    if k > 0 {
        lemma_below_zero(order, keys, (k - 1) as nat);
        assert(0 <= order[k - 1]);
    }
}

proof fn lemma_below_step(order: Seq<int>, k: nat, m: int, at: int)
    requires
        k <= order.len(),
        0 <= at < order.len(),
        order[at] == m,
        forall|i: int, j: int| 0 <= i < j < order.len() ==> order[i] != order[j],
    ensures
        below(order, k, m + 1) == below(order, k, m) + if at < k {
            1nat
        } else {
            0
        },
    decreases k,
{
    if k > 0 {
        lemma_below_step(order, (k - 1) as nat, m, at);
        if k - 1 < at {
            assert(order[k - 1] != order[at]);
        } else if at < k - 1 {
            assert(order[at] != order[k - 1]);
        }
    }
}

proof fn lemma_position_of(order: Seq<int>, keys: Seq<KeyModel>, m: int)
    requires
        is_sorting(order, keys),
        forall|i: int, j: int| 0 <= i < j < order.len() ==> order[i] != order[j],
        0 <= m < keys.len(),
    ensures
        exists|i: int| 0 <= i < order.len() && order[i] == m,
{
    if forall|i: int| 0 <= i < order.len() ==> order[i] != m {
        // without m there are only len - 1 values for len places
        lemma_pigeonhole(order, order.len() as int, m);
    }
}

proof fn lemma_pigeonhole(order: Seq<int>, n: int, m: int)
    requires
        forall|i: int| 0 <= i < order.len() ==> 0 <= #[trigger] order[i] < n && order[i] != m,
        forall|i: int, j: int| 0 <= i < j < order.len() ==> order[i] != order[j],
        0 <= m < n,
    ensures
        order.len() < n,
{
    let used = order.to_set();
    order.unique_seq_to_set();
    let all = vstd::set_lib::set_int_range(0, n);
    vstd::set_lib::lemma_int_range(0, n);
    assert(used.subset_of(all.remove(m))) by {
        assert forall|x: int| used.contains(x) implies all.remove(m).contains(x) by {
            let i = choose|i: int| 0 <= i < order.len() && order[i] == x;
            assert(0 <= order[i] < n && order[i] != m);
        }
    }
    vstd::set_lib::lemma_len_subset(used, all.remove(m));
}

/// Every position of the keys stands somewhere in a sorting.
pub proof fn law_sorting_is_surjective(order: Seq<int>, keys: Seq<KeyModel>, m: int)
    requires
        is_sorting(order, keys),
        0 <= m < keys.len(),
    ensures
        order.contains(m),
{
    law_sorting_is_injective(order, keys);
    lemma_position_of(order, keys, m);
    let i = choose|i: int| 0 <= i < order.len() && order[i] == m;
    assert(order[i] == m);
}

} // verus!
