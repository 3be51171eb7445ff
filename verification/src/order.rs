//! The lexicographic order of texts, and sets of texts kept in that order.

use vstd::prelude::*;

use crate::text::{chars_of, views};

verus! {

/// Lexicographic order by Unicode scalar value.
pub open spec fn text_less(a: Seq<char>, b: Seq<char>) -> bool
    decreases a.len(),
{
    if b.len() == 0 {
        false
    } else if a.len() == 0 {
        true
    } else if a[0] != b[0] {
        a[0] < b[0]
    } else {
        text_less(a.drop_first(), b.drop_first())
    }
}

/// The order is irreflexive.
pub proof fn lemma_less_irreflexive(a: Seq<char>)
    ensures
        !text_less(a, a),
    decreases a.len(),
{
    if a.len() > 0 {
        lemma_less_irreflexive(a.drop_first());
    }
}

/// The order is transitive.
pub proof fn lemma_less_transitive(a: Seq<char>, b: Seq<char>, c: Seq<char>)
    requires
        text_less(a, b),
        text_less(b, c),
    ensures
        text_less(a, c),
    decreases a.len(),
{
    if a.len() > 0 && a[0] == b[0] && b[0] == c[0] {
        lemma_less_transitive(a.drop_first(), b.drop_first(), c.drop_first());
    }
}

/// Of two different texts one stands before the other.
pub proof fn lemma_less_total(a: Seq<char>, b: Seq<char>)
    ensures
        text_less(a, b) || text_less(b, a) || a == b,
    decreases a.len(),
{
    if a.len() == 0 && b.len() == 0 {
        assert(a =~= b);
    } else if a.len() > 0 && b.len() > 0 && a[0] == b[0] {
        lemma_less_total(a.drop_first(), b.drop_first());
        if a.drop_first() == b.drop_first() {
            assert(a =~= seq![a[0]] + a.drop_first());
            assert(b =~= seq![b[0]] + b.drop_first());
        }
    }
}

/// The order is asymmetric.
pub proof fn lemma_less_asymmetric(a: Seq<char>, b: Seq<char>)
    requires
        text_less(a, b),
    ensures
        !text_less(b, a),
{
    if text_less(b, a) {
        lemma_less_transitive(a, b, a);
        lemma_less_irreflexive(a);
    }
}

/// Texts that agree up to a place compare as what follows it.
pub proof fn lemma_less_at(a: Seq<char>, b: Seq<char>, k: int)
    requires
        0 <= k <= a.len(),
        k <= b.len(),
        forall|i: int| 0 <= i < k ==> a[i] == b[i],
    ensures
        text_less(a, b) == text_less(a.skip(k), b.skip(k)),
    decreases k,
{
    if k == 0 {
        assert(a.skip(0) =~= a);
        assert(b.skip(0) =~= b);
    } else {
        lemma_less_at(a.drop_first(), b.drop_first(), k - 1);
        assert(a.drop_first().skip(k - 1) =~= a.skip(k));
        assert(b.drop_first().skip(k - 1) =~= b.skip(k));
    }
}

/// Whether `a` stands before `b`.
pub fn text_lt(a: &str, b: &str) -> (r: bool)
    ensures
        r == text_less(a@, b@),
{
    let left = chars_of(a);
    let right = chars_of(b);
    let mut k: usize = 0;
    while k < left.len() && k < right.len() && left[k] == right[k]
        invariant
            left@ == a@,
            right@ == b@,
            k <= left.len(),
            k <= right.len(),
            forall|i: int| 0 <= i < k ==> a@[i] == b@[i],
        decreases left.len() - k,
    {
        k = k + 1;
    }
    proof {
        lemma_less_at(a@, b@, k as int);
    }
    if k >= right.len() {
        false
    } else if k >= left.len() {
        true
    } else {
        left[k] < right[k]
    }
}

/// Whether the texts stand in strictly ascending order.
pub open spec fn ascending(list: Seq<Seq<char>>) -> bool {
    forall|i: int, j: int| 0 <= i < j < list.len() ==> text_less(#[trigger] list[i], #[trigger] list[j])
}

/// Two strictly ascending lists with the same members are the same list.
pub proof fn law_ascending_is_canonical(a: Seq<Seq<char>>, b: Seq<Seq<char>>)
    requires
        ascending(a),
        ascending(b),
        forall|t: Seq<char>| a.contains(t) <==> b.contains(t),
    ensures
        a == b,
    decreases a.len(),
{
    if a.len() == 0 {
        if b.len() > 0 {
            assert(b.contains(b[0]));
            assert(a.contains(b[0]));
        }
        assert(a =~= b);
    } else {
        assert(a.contains(a.last()));
        assert(b.contains(a.last()));
        assert(b.contains(b.last()));
        assert(a.contains(b.last()));
        let i = choose|i: int| 0 <= i < b.len() && b[i] == a.last();
        let j = choose|j: int| 0 <= j < a.len() && a[j] == b.last();
        if i < b.len() - 1 {
            assert(text_less(b[i], b[b.len() - 1]));
            if j < a.len() - 1 {
                assert(text_less(a[j], a[a.len() - 1]));
                lemma_less_asymmetric(a.last(), b.last());
            } else {
                lemma_less_irreflexive(a.last());
            }
        }
        assert(a.last() == b.last());
        let a2 = a.drop_last();
        let b2 = b.drop_last();
        assert(ascending(a2));
        assert(ascending(b2));
        lemma_last_not_before(a);
        lemma_last_not_before(b);
        assert forall|t: Seq<char>| a2.contains(t) <==> b2.contains(t) by {
            if a2.contains(t) {
                let m = choose|m: int| 0 <= m < a2.len() && a2[m] == t;
                assert(a[m] == t);
                assert(b.contains(t));
                let n = choose|n: int| 0 <= n < b.len() && b[n] == t;
                assert(n < b2.len());
                assert(b2[n] == t);
            }
            if b2.contains(t) {
                let m = choose|m: int| 0 <= m < b2.len() && b2[m] == t;
                assert(b[m] == t);
                assert(a.contains(t));
                let n = choose|n: int| 0 <= n < a.len() && a[n] == t;
                assert(n < a2.len());
                assert(a2[n] == t);
            }
        }
        law_ascending_is_canonical(a2, b2);
        assert(a =~= a2.push(a.last()));
        assert(b =~= b2.push(b.last()));
    }
}

proof fn lemma_last_not_before(a: Seq<Seq<char>>)
    requires
        ascending(a),
        a.len() > 0,
    ensures
        forall|i: int| 0 <= i < a.len() - 1 ==> a[i] != a.last(),
{
    assert forall|i: int| 0 <= i < a.len() - 1 implies a[i] != a.last() by {
        assert(text_less(a[i], a[a.len() - 1]));
        lemma_less_irreflexive(a.last());
    }
}

/// A set of texts, held as a strictly ascending list.
pub struct TextSet {
    items: Vec<String>,
}

impl View for TextSet {
    type V = Seq<Seq<char>>;

    closed spec fn view(&self) -> Seq<Seq<char>> {
        views(self.items@)
    }
}

impl TextSet {
    /// Whether the list is strictly ascending.
    pub open spec fn wf(&self) -> bool {
        ascending(self@)
    }

    /// The empty set.
    pub fn new() -> (r: Self)
        ensures
            r.wf(),
            r@ == Seq::<Seq<char>>::empty(),
    {
        let items: Vec<String> = Vec::new();
        assert(views(items@) =~= Seq::<Seq<char>>::empty());
        TextSet { items }
    }

    /// The number of members.
    pub fn len(&self) -> (r: usize)
        ensures
            r == self@.len(),
    {
        self.items.len()
    }

    /// The member at position `i` of the ascending list.
    pub fn get(&self, i: usize) -> (r: &str)
        requires
            i < self@.len(),
        ensures
            r@ == self@[i as int],
    {
        self.items[i].as_str()
    }

    /// The first position whose member does not stand before `value`.
    fn position(&self, value: &str) -> (r: usize)
        requires
            self.wf(),
        ensures
            r <= self@.len(),
            forall|i: int| 0 <= i < r ==> text_less(#[trigger] self@[i], value@),
            r < self@.len() ==> !text_less(self@[r as int], value@),
    {
        let mut i: usize = 0;
        while i < self.items.len() && text_lt(self.items[i].as_str(), value)
            invariant
                i <= self.items.len(),
                forall|j: int| 0 <= j < i ==> text_less(#[trigger] self@[j], value@),
            decreases self.items.len() - i,
        {
            i = i + 1;
        }
        i
    }

    /// Whether `value` is a member.
    pub fn contains(&self, value: &str) -> (r: bool)
        requires
            self.wf(),
        ensures
            r == self@.contains(value@),
    {
        crate::text::list_contains(self.items.as_slice(), value)
    }

    /// Adds a member; `false` where it was one already.
    pub fn insert(&mut self, value: String) -> (r: bool)
        requires
            old(self).wf(),
        ensures
            final(self).wf(),
            r == !old(self)@.contains(value@),
            forall|t: Seq<char>|
                #[trigger] final(self)@.contains(t) <==> old(self)@.contains(t) || t == value@,
            final(self)@.len() == old(self)@.len() + if r { 1nat } else { 0 },
            !r ==> final(self)@ == old(self)@,
    {
        let at: usize = self.position(value.as_str());
        let ghost before = self@;
        let ghost v = value@;
        if at < self.items.len() && crate::text::text_eq(self.items[at].as_str(), value.as_str()) {
            assert(before[at as int] == v);
            assert(before.contains(v));
            return false;
        }
        self.items.insert(at, value);
        proof {
            let after = self@;
            assert(after =~= before.insert(at as int, v));
            if at < before.len() {
                lemma_less_total(before[at as int], v);
                assert(text_less(v, before[at as int]));
            }
            assert forall|i: int, j: int| 0 <= i < j < after.len() implies text_less(
                #[trigger] after[i],
                #[trigger] after[j],
            ) by {
                if i < at && j == at {
                    assert(after[i] == before[i]);
                } else if i < at && j < at {
                    assert(text_less(before[i], before[j]));
                } else if i == at {
                    assert(after[j] == before[j - 1]);
                    if j - 1 > at {
                        assert(text_less(before[at as int], before[j - 1]));
                        lemma_less_transitive(v, before[at as int], before[j - 1]);
                    }
                } else if i < at {
                    assert(text_less(before[i], before[j - 1]));
                } else {
                    assert(text_less(before[i - 1], before[j - 1]));
                }
            }
            if before.contains(v) {
                let k = choose|k: int| 0 <= k < before.len() && before[k] == v;
                lemma_less_irreflexive(v);
                if k < at {
                    assert(text_less(before[k], v));
                } else {
                    assert(after[k + 1] == v);
                    assert(text_less(after[at as int], after[k + 1]));
                }
            }
            assert forall|t: Seq<char>| #[trigger] after.contains(t) <==> before.contains(t) || t
                == v by {
                if after.contains(t) {
                    let k = choose|k: int| 0 <= k < after.len() && after[k] == t;
                    if k < at {
                        assert(before[k] == t);
                    } else if k > at {
                        assert(before[k - 1] == t);
                    }
                }
                if before.contains(t) {
                    let k = choose|k: int| 0 <= k < before.len() && before[k] == t;
                    if k < at {
                        assert(after[k] == t);
                    } else {
                        assert(after[k + 1] == t);
                    }
                }
                if t == v {
                    assert(after[at as int] == t);
                }
            }
        }
        true
    }

    /// The members as an ascending list of strings.
    pub fn into_list(self) -> (r: Vec<String>)
        ensures
            views(r@) == self@,
    {
        self.items
    }
}

/// Whether `sorted` is the strictly ascending list of the members of `list`.
pub open spec fn is_sorted_set(sorted: Seq<Seq<char>>, list: Seq<Seq<char>>) -> bool {
    &&& ascending(sorted)
    &&& forall|t: Seq<char>| #[trigger] sorted.contains(t) <==> list.contains(t)
}

/// The members of `list`, each once, in ascending order.
pub open spec fn sorted_set(list: Seq<Seq<char>>) -> Seq<Seq<char>> {
    choose|sorted: Seq<Seq<char>>| is_sorted_set(sorted, list)
}

/// There is no other ascending list with these members.
pub proof fn lemma_sorted_set(sorted: Seq<Seq<char>>, list: Seq<Seq<char>>)
    requires
        is_sorted_set(sorted, list),
    ensures
        sorted_set(list) == sorted,
{
    let other = sorted_set(list);
    assert(is_sorted_set(other, list));
    assert forall|t: Seq<char>| other.contains(t) <==> sorted.contains(t) by {
        assert(other.contains(t) <==> list.contains(t));
        assert(sorted.contains(t) <==> list.contains(t));
    }
    law_ascending_is_canonical(other, sorted);
}

/// The strictly ascending list of the given texts, each once.
pub fn sort_unique(list: &[String]) -> (r: Vec<String>)
    ensures
        views(r@) == sorted_set(views(list@)),
        is_sorted_set(views(r@), views(list@)),
{
    let mut set = TextSet::new();
    for i in 0..list.len()
        invariant
            set.wf(),
            forall|t: Seq<char>| #[trigger]
                set@.contains(t) <==> views(list@).take(i as int).contains(t),
    {
        let ghost before = set@;
        set.insert(list[i].clone());
        proof {
            let models = views(list@);
            assert(models[i as int] == list@[i as int]@);
            assert(models.take(i + 1) =~= models.take(i as int).push(models[i as int]));
            assert forall|t: Seq<char>| #[trigger]
                set@.contains(t) <==> models.take(i + 1).contains(t) by {
                lemma_push_contains(models.take(i as int), models[i as int], t);
                assert(before.contains(t) <==> models.take(i as int).contains(t));
            }
        }
    }
    assert(views(list@).take(list@.len() as int) =~= views(list@));
    proof {
        lemma_sorted_set(set@, views(list@));
    }
    set.into_list()
}

/// What a list holds after one more member was appended.
pub proof fn lemma_push_contains<A>(s: Seq<A>, x: A, t: A)
    ensures
        s.push(x).contains(t) <==> s.contains(t) || t == x,
{
    let p = s.push(x);
    if p.contains(t) {
        let k = choose|k: int| 0 <= k < p.len() && p[k] == t;
        if k < s.len() {
            assert(s[k] == t);
        }
    }
    if s.contains(t) {
        let k = choose|k: int| 0 <= k < s.len() && s[k] == t;
        assert(p[k] == t);
    }
    if t == x {
        assert(p[s.len() as int] == t);
    }
}

} // verus!
