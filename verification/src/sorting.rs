//! Stable sorting and de-duplication by a textual key.

use vstd::prelude::*;

use crate::text;

verus! {

/// A value that is ordered by a list of texts.
pub trait Keyed: Sized {
    /// The texts by which the value is ordered, the most significant first.
    spec fn sort_key(&self) -> Seq<Seq<char>>;
}

/// A [`Keyed`] value that can be compared.
pub trait SortKey: Keyed {
    /// Whether this value comes no later than the other.
    fn key_at_most(&self, other: &Self) -> (r: bool)
        ensures
            r == key_le(self.sort_key(), other.sort_key()),
    ;
}

/// The lexicographic order of keys.
pub open spec fn key_le(a: Seq<Seq<char>>, b: Seq<Seq<char>>) -> bool
    decreases a.len(),
{
    if a.len() == 0 {
        true
    } else if b.len() == 0 {
        false
    } else if a[0] == b[0] {
        key_le(a.skip(1), b.skip(1))
    } else {
        text::text_le(a[0], b[0])
    }
}

/// The order of keys is total.
pub proof fn lemma_key_le_total(a: Seq<Seq<char>>, b: Seq<Seq<char>>)
    ensures
        key_le(a, b) || key_le(b, a),
    decreases a.len(),
{
    if a.len() > 0 && b.len() > 0 {
        text::lemma_text_le_total(a[0], b[0]);
        lemma_key_le_total(a.skip(1), b.skip(1));
    }
}

/// The order of keys is transitive.
pub proof fn lemma_key_le_transitive(a: Seq<Seq<char>>, b: Seq<Seq<char>>, c: Seq<Seq<char>>)
    requires
        key_le(a, b),
        key_le(b, c),
    ensures
        key_le(a, c),
    decreases a.len(),
{
    if a.len() > 0 && b.len() > 0 && c.len() > 0 {
        if a[0] == b[0] && b[0] == c[0] {
            lemma_key_le_transitive(a.skip(1), b.skip(1), c.skip(1));
        } else if a[0] != b[0] && b[0] != c[0] {
            text::lemma_text_le_transitive(a[0], b[0], c[0]);
            if a[0] == c[0] {
                text::lemma_text_le_antisymmetric(a[0], b[0]);
            }
        }
    }
}

/// Two keys that are each at most the other are equal.
pub proof fn lemma_key_le_antisymmetric(a: Seq<Seq<char>>, b: Seq<Seq<char>>)
    requires
        key_le(a, b),
        key_le(b, a),
    ensures
        a == b,
    decreases a.len(),
{
    if a.len() > 0 && b.len() > 0 {
        if a[0] != b[0] {
            text::lemma_text_le_antisymmetric(a[0], b[0]);
        }
        lemma_key_le_antisymmetric(a.skip(1), b.skip(1));
        assert(a =~= seq![a[0]] + a.skip(1));
        assert(b =~= seq![b[0]] + b.skip(1));
    } else {
        assert(a =~= b);
    }
}

/// Every key is at most itself.
pub proof fn lemma_key_le_reflexive(a: Seq<Seq<char>>)
    ensures
        key_le(a, a),
{
    lemma_key_le_total(a, a);
}

/// Compares keys of one text.
pub fn one_text_at_most(a: &str, b: &str) -> (r: bool)
    ensures
        r == key_le(seq![a@], seq![b@]),
{
    let ghost x = seq![a@];
    let ghost y = seq![b@];
    assert(x.skip(1) =~= Seq::empty());
    proof {
        text::lemma_text_le_total(a@, a@);
        assert(key_le(x.skip(1), y.skip(1)));
    }
    text::text_at_most(a, b)
}

/// Compares keys of two texts.
pub fn two_texts_at_most(a0: &str, a1: &str, b0: &str, b1: &str) -> (r: bool)
    ensures
        r == key_le(seq![a0@, a1@], seq![b0@, b1@]),
{
    assert(seq![a0@, a1@].skip(1) =~= seq![a1@]);
    assert(seq![b0@, b1@].skip(1) =~= seq![b1@]);
    if text::same_text(a0, b0) {
        one_text_at_most(a1, b1)
    } else {
        text::text_at_most(a0, b0)
    }
}

/// Compares keys of three texts.
pub fn three_texts_at_most(a0: &str, a1: &str, a2: &str, b0: &str, b1: &str, b2: &str) -> (r: bool)
    ensures
        r == key_le(seq![a0@, a1@, a2@], seq![b0@, b1@, b2@]),
{
    assert(seq![a0@, a1@, a2@].skip(1) =~= seq![a1@, a2@]);
    assert(seq![b0@, b1@, b2@].skip(1) =~= seq![b1@, b2@]);
    if text::same_text(a0, b0) {
        two_texts_at_most(a1, a2, b1, b2)
    } else {
        text::text_at_most(a0, b0)
    }
}

/// Compares keys of any number of texts, from one place on.
pub fn texts_at_most(a: &Vec<String>, b: &Vec<String>, from: usize) -> (r: bool)
    requires
        from <= a@.len(),
        from <= b@.len(),
    ensures
        r == key_le(a.deep_view().skip(from as int), b.deep_view().skip(from as int)),
    decreases a@.len() - from,
{
    let ghost x = a.deep_view().skip(from as int);
    let ghost y = b.deep_view().skip(from as int);
    if from == a.len() {
        return true;
    }
    if from == b.len() {
        return false;
    }
    assert(x[0] == a@[from as int]@ && y[0] == b@[from as int]@);
    assert(x.skip(1) =~= a.deep_view().skip(from + 1));
    assert(y.skip(1) =~= b.deep_view().skip(from + 1));
    if text::same_text(&a[from], &b[from]) {
        texts_at_most(a, b, from + 1)
    } else {
        text::text_at_most(&a[from], &b[from])
    }
}

impl Keyed for String {
    open spec fn sort_key(&self) -> Seq<Seq<char>> {
        seq![self@]
    }
}

impl SortKey for String {
    fn key_at_most(&self, other: &Self) -> (r: bool) {
        one_text_at_most(self.as_str(), other.as_str())
    }
}

// ---------------------------------------------------------------------------
// Sorting
// ---------------------------------------------------------------------------

/// `x` put in front of the first element that it may precede.
pub open spec fn insert_sorted<T: Keyed>(x: T, s: Seq<T>) -> Seq<T>
    decreases s.len(),
{
    if s.len() == 0 || key_le(x.sort_key(), s[0].sort_key()) {
        seq![x] + s
    } else {
        seq![s[0]] + insert_sorted(x, s.skip(1))
    }
}

/// The elements in the order of their keys, equal keys in their first order.
pub open spec fn sorted_by_key<T: Keyed>(s: Seq<T>) -> Seq<T>
    decreases s.len(),
{
    if s.len() == 0 {
        s
    } else {
        insert_sorted(s[0], sorted_by_key(s.skip(1)))
    }
}

/// Whether the keys do not decrease.
pub open spec fn keys_ordered<T: Keyed>(s: Seq<T>) -> bool {
    forall|i: int, j: int|
        #![trigger s[i], s[j]]
        0 <= i <= j < s.len() ==> key_le(s[i].sort_key(), s[j].sort_key())
}

/// Whether no two elements have the same key.
pub open spec fn keys_distinct<T: Keyed>(s: Seq<T>) -> bool {
    forall|i: int, j: int|
        #![trigger s[i], s[j]]
        0 <= i < j < s.len() ==> s[i].sort_key() != s[j].sort_key()
}

proof fn lemma_insert_sorted<T: Keyed>(x: T, s: Seq<T>)
    requires
        keys_ordered(s),
    ensures
        keys_ordered(insert_sorted(x, s)),
        insert_sorted(x, s).to_multiset() =~= s.to_multiset().insert(x),
        insert_sorted(x, s).len() == s.len() + 1,
        insert_sorted(x, s)[0] == x || (s.len() > 0 && insert_sorted(x, s)[0] == s[0]),
    decreases s.len(),
{
    broadcast use vstd::seq_lib::group_to_multiset_ensures;

    let r = insert_sorted(x, s);
    if s.len() == 0 || key_le(x.sort_key(), s[0].sort_key()) {
        assert(r =~= s.insert(0, x));
        assert forall|i: int, j: int|
            #![trigger r[i], r[j]]
            0 <= i <= j < r.len() implies key_le(r[i].sort_key(), r[j].sort_key()) by {
            if i == 0 && j == 0 {
                lemma_key_le_reflexive(x.sort_key());
            } else if i == 0 {
                assert(key_le(s[0].sort_key(), s[j - 1].sort_key()));
                lemma_key_le_transitive(x.sort_key(), s[0].sort_key(), s[j - 1].sort_key());
            } else {
                assert(key_le(s[i - 1].sort_key(), s[j - 1].sort_key()));
            }
        }
    } else {
        let rest = s.skip(1);
        assert(keys_ordered(rest)) by {
            assert forall|i: int, j: int|
                #![trigger rest[i], rest[j]]
                0 <= i <= j < rest.len() implies key_le(rest[i].sort_key(), rest[j].sort_key()) by {
                assert(key_le(s[i + 1].sort_key(), s[j + 1].sort_key()));
            }
        }
        lemma_insert_sorted(x, rest);
        let t = insert_sorted(x, rest);
        lemma_key_le_total(x.sort_key(), s[0].sort_key());
        assert(s =~= rest.insert(0, s[0]));
        assert(r =~= t.insert(0, s[0]));
        assert(r.to_multiset() =~= t.to_multiset().insert(s[0]));
        assert(s.to_multiset() =~= rest.to_multiset().insert(s[0]));
        assert(key_le(s[0].sort_key(), t[0].sort_key())) by {
            if t[0] != x {
                assert(rest[0] == s[1]);
                assert(key_le(s[0].sort_key(), s[1].sort_key()));
            }
        }
        assert forall|i: int, j: int|
            #![trigger r[i], r[j]]
            0 <= i <= j < r.len() implies key_le(r[i].sort_key(), r[j].sort_key()) by {
            if i == 0 && j == 0 {
                lemma_key_le_reflexive(s[0].sort_key());
            } else if i == 0 {
                assert(key_le(t[0].sort_key(), t[j - 1].sort_key()));
                lemma_key_le_transitive(s[0].sort_key(), t[0].sort_key(), t[j - 1].sort_key());
            } else {
                assert(key_le(t[i - 1].sort_key(), t[j - 1].sort_key()));
            }
        }
    }
}

/// Sorting puts the keys in order and keeps exactly the elements.
pub proof fn lemma_sorted_by_key<T: Keyed>(s: Seq<T>)
    ensures
        keys_ordered(sorted_by_key(s)),
        sorted_by_key(s).to_multiset() =~= s.to_multiset(),
        sorted_by_key(s).len() == s.len(),
    decreases s.len(),
{
    broadcast use vstd::seq_lib::group_to_multiset_ensures;

    if s.len() > 0 {
        lemma_sorted_by_key(s.skip(1));
        lemma_insert_sorted(s[0], sorted_by_key(s.skip(1)));
        assert(s =~= s.skip(1).insert(0, s[0]));
    }
}

/// Sorts by key; elements with equal keys keep their order.
pub fn sort_by_key<T: SortKey>(items: Vec<T>) -> (r: Vec<T>)
    ensures
        r@ == sorted_by_key(items@),
        keys_ordered(r@),
{
    let ghost all = items@;
    let mut rest = items;
    let mut out: Vec<T> = Vec::new();
    assert(all.skip(all.len() as int) =~= Seq::empty());
    assert(all.take(all.len() as int) =~= all);
    while rest.len() > 0
        invariant
            rest@.len() <= all.len(),
            rest@ == all.take(rest@.len() as int),
            out@ == sorted_by_key(all.skip(rest@.len() as int)),
        decreases rest@.len(),
    {
        let ghost n = rest@.len() as int;
        let x = rest.pop().unwrap();
        assert(rest@ =~= all.take(n - 1));
        assert(all.skip(n - 1).skip(1) =~= all.skip(n));
        assert(all.skip(n - 1)[0] == x);
        let ghost sorted = out@;
        let mut i: usize = 0;
        assert(sorted.take(0) + insert_sorted(x, sorted.skip(0)) =~= insert_sorted(x, sorted)) by {
            assert(sorted.skip(0) =~= sorted);
        }
        while i < out.len() && !x.key_at_most(&out[i])
            invariant
                i <= out@.len(),
                out@ == sorted,
                sorted.take(i as int) + insert_sorted(x, sorted.skip(i as int)) == insert_sorted(
                    x,
                    sorted,
                ),
            decreases out@.len() - i,
        {
            let ghost tail = sorted.skip(i as int);
            assert(tail.skip(1) =~= sorted.skip(i + 1));
            assert(sorted.take(i + 1) + insert_sorted(x, sorted.skip(i + 1)) =~= sorted.take(
                i as int,
            ) + insert_sorted(x, tail));
            i += 1;
        }
        out.insert(i, x);
        assert(out@ =~= sorted.take(i as int) + (seq![x] + sorted.skip(i as int)));
    }
    assert(all.skip(0) =~= all);
    proof {
        lemma_sorted_by_key(all);
    }
    out
}

/// Whether elements with the same key are the same.
pub open spec fn keys_tell_apart<T: Keyed>(s: Seq<T>) -> bool {
    forall|i: int, j: int|
        #![trigger s[i], s[j]]
        0 <= i < s.len() && 0 <= j < s.len() && s[i].sort_key() == s[j].sort_key() ==> s[i] == s[j]
}

proof fn lemma_ordered_unique<T: Keyed>(a: Seq<T>, b: Seq<T>)
    requires
        keys_ordered(a),
        keys_ordered(b),
        keys_tell_apart(a),
        a.to_multiset() == b.to_multiset(),
    ensures
        a == b,
    decreases a.len(),
{
    broadcast use vstd::seq_lib::group_to_multiset_ensures;

    assert(a.len() == a.to_multiset().len());
    assert(b.len() == b.to_multiset().len());
    if a.len() == 0 {
        assert(a =~= b);
    } else {
        let x = a.last();
        let y = b.last();
        assert(b.contains(b[b.len() - 1]));
        assert(b.to_multiset().count(y) > 0);
        assert(a.contains(y));
        assert(a.contains(a[a.len() - 1]));
        assert(a.to_multiset().count(x) > 0);
        assert(b.contains(x));
        let i = choose|i: int| 0 <= i < a.len() && a[i] == y;
        let j = choose|j: int| 0 <= j < b.len() && b[j] == x;
        assert(key_le(a[i].sort_key(), a[a.len() - 1].sort_key()));
        assert(key_le(b[j].sort_key(), b[b.len() - 1].sort_key()));
        lemma_key_le_antisymmetric(x.sort_key(), y.sort_key());
        assert(a[i] == a[a.len() - 1]);
        let p = a.drop_last();
        let q = b.drop_last();
        assert(p.push(x) =~= a);
        assert(q.push(y) =~= b);
        assert(p.to_multiset().insert(x) == a.to_multiset());
        assert(q.to_multiset().insert(x) == b.to_multiset());
        assert(p.to_multiset() =~= p.to_multiset().insert(x).remove(x));
        assert(q.to_multiset() =~= q.to_multiset().insert(x).remove(x));
        assert forall|m: int, n: int|
            #![trigger p[m], p[n]]
            0 <= m < p.len() && 0 <= n < p.len() implies (m <= n ==> key_le(
            p[m].sort_key(),
            p[n].sort_key(),
        )) && (p[m].sort_key() == p[n].sort_key() ==> p[m] == p[n]) by {
            assert(a[m] == p[m] && a[n] == p[n]);
        }
        assert forall|m: int, n: int|
            #![trigger q[m], q[n]]
            0 <= m <= n < q.len() implies key_le(q[m].sort_key(), q[n].sort_key()) by {
            assert(b[m] == q[m] && b[n] == q[n]);
        }
        lemma_ordered_unique(p, q);
    }
}

/// Where no two elements have the same key, the order in which they are given
/// does not change the sorted sequence.
pub proof fn lemma_sorted_of_permuted<T: Keyed>(a: Seq<T>, b: Seq<T>)
    requires
        a.to_multiset() == b.to_multiset(),
        keys_distinct(a),
    ensures
        sorted_by_key(a) == sorted_by_key(b),
{
    broadcast use vstd::seq_lib::group_to_multiset_ensures;

    let x = sorted_by_key(a);
    lemma_sorted_by_key(a);
    lemma_sorted_by_key(b);
    assert forall|i: int, j: int|
        #![trigger x[i], x[j]]
        0 <= i < x.len() && 0 <= j < x.len() && x[i].sort_key() == x[j].sort_key() implies x[i]
        == x[j] by {
        assert(x.contains(x[i]) && x.contains(x[j]));
        assert(x.to_multiset().count(x[i]) > 0 && x.to_multiset().count(x[j]) > 0);
        assert(a.contains(x[i]) && a.contains(x[j]));
        let m = choose|m: int| 0 <= m < a.len() && a[m] == x[i];
        let n = choose|n: int| 0 <= n < a.len() && a[n] == x[j];
        if m < n {
            assert(a[m].sort_key() != a[n].sort_key());
        } else if n < m {
            assert(a[n].sort_key() != a[m].sort_key());
        }
    }
    lemma_ordered_unique(x, sorted_by_key(b));
}

// ---------------------------------------------------------------------------
// De-duplication
// ---------------------------------------------------------------------------

/// The first element of each run of equal keys.
pub open spec fn dedup_by_key_spec<T: Keyed>(s: Seq<T>) -> Seq<T>
    decreases s.len(),
{
    if s.len() == 0 {
        s
    } else {
        let kept = dedup_by_key_spec(s.drop_last());
        if kept.len() > 0 && kept.last().sort_key() == s.last().sort_key() {
            kept
        } else {
            kept.push(s.last())
        }
    }
}

/// On ordered keys de-duplication leaves distinct ones, keeps every key, and
/// gives only elements that were there.
pub proof fn lemma_dedup_by_key<T: Keyed>(s: Seq<T>)
    requires
        keys_ordered(s),
    ensures
        keys_ordered(dedup_by_key_spec(s)),
        keys_distinct(dedup_by_key_spec(s)),
        forall|i: int|
            0 <= i < dedup_by_key_spec(s).len() ==> s.contains(#[trigger] dedup_by_key_spec(s)[i]),
        forall|i: int|
            0 <= i < s.len() ==> exists|j: int|
                0 <= j < dedup_by_key_spec(s).len() && (#[trigger] dedup_by_key_spec(
                    s,
                )[j]).sort_key() == (#[trigger] s[i]).sort_key(),
        s.len() > 0 ==> dedup_by_key_spec(s).len() > 0 && dedup_by_key_spec(s).last().sort_key()
            == s.last().sort_key(),
    decreases s.len(),
{
    if s.len() > 0 {
        let front = s.drop_last();
        assert(keys_ordered(front)) by {
            assert forall|i: int, j: int|
                #![trigger front[i], front[j]]
                0 <= i <= j < front.len() implies key_le(
                front[i].sort_key(),
                front[j].sort_key(),
            ) by {
                assert(key_le(s[i].sort_key(), s[j].sort_key()));
            }
        }
        lemma_dedup_by_key(front);
        let kept = dedup_by_key_spec(front);
        let r = dedup_by_key_spec(s);
        let x = s.last();
        assert forall|i: int| 0 <= i < kept.len() implies key_le(
            (#[trigger] kept[i]).sort_key(),
            x.sort_key(),
        ) by {
            assert(front.contains(kept[i]));
            let k = choose|k: int| 0 <= k < front.len() && front[k] == kept[i];
            assert(s[k] == kept[i]);
            assert(key_le(s[k].sort_key(), s[s.len() - 1].sort_key()));
        }
        assert forall|i: int| 0 <= i < r.len() implies s.contains(#[trigger] r[i]) by {
            if i < kept.len() {
                assert(front.contains(kept[i]));
                let k = choose|k: int| 0 <= k < front.len() && front[k] == kept[i];
                assert(s[k] == r[i]);
            } else {
                assert(s[s.len() - 1] == r[i]);
            }
        }
        if !(kept.len() > 0 && kept.last().sort_key() == x.sort_key()) {
            assert forall|i: int, j: int|
                #![trigger r[i], r[j]]
                0 <= i <= j < r.len() implies key_le(r[i].sort_key(), r[j].sort_key()) && (i < j
                ==> r[i].sort_key() != r[j].sort_key()) by {
                if j < kept.len() {
                    assert(key_le(kept[i].sort_key(), kept[j].sort_key()));
                } else if i == j {
                    lemma_key_le_reflexive(x.sort_key());
                } else {
                    assert(key_le(kept[i].sort_key(), x.sort_key()));
                    if kept[i].sort_key() == x.sort_key() {
                        let last = kept[kept.len() - 1];
                        assert(key_le(kept[i].sort_key(), last.sort_key()));
                        assert(key_le(last.sort_key(), x.sort_key()));
                        lemma_key_le_antisymmetric(last.sort_key(), x.sort_key());
                    }
                }
            }
        }
        assert forall|i: int| 0 <= i < s.len() implies exists|j: int|
            0 <= j < r.len() && (#[trigger] r[j]).sort_key() == (#[trigger] s[i]).sort_key() by {
            if i < front.len() {
                assert(front[i] == s[i]);
                let j = choose|j: int|
                    0 <= j < kept.len() && (#[trigger] kept[j]).sort_key() == s[i].sort_key();
                assert(r[j] == kept[j]);
            } else {
                assert(r[r.len() - 1].sort_key() == x.sort_key());
            }
        }
    }
}

/// Whether one of the elements has the key.
pub open spec fn has_key<T: Keyed>(s: Seq<T>, key: Seq<Seq<char>>) -> bool {
    exists|i: int| 0 <= i < s.len() && (#[trigger] s[i]).sort_key() == key
}

/// The keys of the elements.
pub open spec fn keys<T: Keyed>(s: Seq<T>) -> Seq<Seq<Seq<char>>> {
    s.map_values(|x: T| x.sort_key())
}

/// Two ordered sequences that hold no key twice and hold the same keys hold
/// them in the same places.
pub proof fn lemma_same_keys<T: Keyed>(a: Seq<T>, b: Seq<T>)
    requires
        keys_ordered(a),
        keys_distinct(a),
        keys_ordered(b),
        keys_distinct(b),
        forall|k: Seq<Seq<char>>| #[trigger] has_key(a, k) <==> has_key(b, k),
    ensures
        keys(a) == keys(b),
    decreases a.len(),
{
    if a.len() == 0 {
        if b.len() > 0 {
            assert(has_key(b, b[0].sort_key()));
            assert(has_key(a, b[0].sort_key()));
        }
    } else {
        let x = a[a.len() - 1].sort_key();
        assert(has_key(a, x));
        assert(has_key(b, x));
        let m = choose|i: int| 0 <= i < b.len() && (#[trigger] b[i]).sort_key() == x;
        let y = b[b.len() - 1].sort_key();
        assert(has_key(b, y));
        assert(has_key(a, y));
        let n = choose|i: int| 0 <= i < a.len() && (#[trigger] a[i]).sort_key() == y;
        assert(key_le(b[m].sort_key(), b[b.len() - 1].sort_key()));
        assert(key_le(a[n].sort_key(), a[a.len() - 1].sort_key()));
        lemma_key_le_antisymmetric(x, y);
        let p = a.drop_last();
        let q = b.drop_last();
        lemma_keys_without_last(a);
        lemma_keys_without_last(b);
        lemma_same_keys(p, q);
        assert(keys(a) =~= keys(p).push(x));
        assert(keys(b) =~= keys(q).push(y));
    }
    assert(keys(a) =~= keys(b));
}

proof fn lemma_keys_without_last<T: Keyed>(s: Seq<T>)
    requires
        s.len() > 0,
        keys_ordered(s),
        keys_distinct(s),
    ensures
        keys_ordered(s.drop_last()),
        keys_distinct(s.drop_last()),
        forall|k: Seq<Seq<char>>| #[trigger]
            has_key(s.drop_last(), k) <==> has_key(s, k) && k != s.last().sort_key(),
{
    let front = s.drop_last();
    assert forall|i: int, j: int|
        #![trigger front[i], front[j]]
        0 <= i <= j < front.len() implies key_le(front[i].sort_key(), front[j].sort_key()) && (i < j
        ==> front[i].sort_key() != front[j].sort_key()) by {
        assert(key_le(s[i].sort_key(), s[j].sort_key()));
    }
    assert forall|k: Seq<Seq<char>>| #[trigger]
        has_key(front, k) <==> has_key(s, k) && k != s.last().sort_key() by {
        if has_key(front, k) {
            let i = choose|i: int| 0 <= i < front.len() && (#[trigger] front[i]).sort_key() == k;
            assert(s[i].sort_key() == k);
            assert(s[i].sort_key() != s[s.len() - 1].sort_key());
        }
        if has_key(s, k) && k != s.last().sort_key() {
            let i = choose|i: int| 0 <= i < s.len() && (#[trigger] s[i]).sort_key() == k;
            assert(front[i].sort_key() == k);
        }
    }
}

/// Sorting and de-duplication keep the keys that are there.
pub proof fn lemma_distinct_keys<T: Keyed>(s: Seq<T>)
    ensures
        forall|k: Seq<Seq<char>>| #[trigger]
            has_key(dedup_by_key_spec(sorted_by_key(s)), k) <==> has_key(s, k),
{
    broadcast use vstd::seq_lib::group_to_multiset_ensures;

    let sorted = sorted_by_key(s);
    let r = dedup_by_key_spec(sorted);
    lemma_sorted_by_key(s);
    lemma_dedup_by_key(sorted);
    assert forall|k: Seq<Seq<char>>| #[trigger] has_key(r, k) <==> has_key(s, k) by {
        if has_key(r, k) {
            let i = choose|i: int| 0 <= i < r.len() && (#[trigger] r[i]).sort_key() == k;
            assert(sorted.contains(r[i]));
            assert(sorted.to_multiset().count(r[i]) > 0);
            assert(s.to_multiset().count(r[i]) > 0);
            assert(s.contains(r[i]));
            let j = choose|j: int| 0 <= j < s.len() && s[j] == r[i];
            assert(s[j].sort_key() == k);
        }
        if has_key(s, k) {
            let i = choose|i: int| 0 <= i < s.len() && (#[trigger] s[i]).sort_key() == k;
            assert(s.contains(s[i]));
            assert(s.to_multiset().count(s[i]) > 0);
            assert(sorted.to_multiset().count(s[i]) > 0);
            assert(sorted.contains(s[i]));
            let j = choose|j: int| 0 <= j < sorted.len() && sorted[j] == s[i];
            let m = choose|m: int|
                0 <= m < r.len() && (#[trigger] r[m]).sort_key() == sorted[j].sort_key();
            assert(r[m].sort_key() == k);
        }
    }
}

/// What comes out of sorting and de-duplication went in.
pub proof fn lemma_distinct_come_from<T: Keyed>(s: Seq<T>)
    ensures
        forall|i: int|
            0 <= i < dedup_by_key_spec(sorted_by_key(s)).len() ==> s.contains(
                #[trigger] dedup_by_key_spec(sorted_by_key(s))[i],
            ),
{
    broadcast use vstd::seq_lib::group_to_multiset_ensures;

    let sorted = sorted_by_key(s);
    let r = dedup_by_key_spec(sorted);
    lemma_sorted_by_key(s);
    lemma_dedup_by_key(sorted);
    assert forall|i: int| 0 <= i < r.len() implies s.contains(#[trigger] r[i]) by {
        assert(sorted.contains(r[i]));
        assert(sorted.to_multiset().count(r[i]) > 0);
        assert(s.to_multiset().count(r[i]) > 0);
    }
}

/// Whether two values have the same key.
pub fn same_key<T: SortKey>(a: &T, b: &T) -> (r: bool)
    ensures
        r == (a.sort_key() == b.sort_key()),
{
    let r = a.key_at_most(b) && b.key_at_most(a);
    proof {
        if r {
            lemma_key_le_antisymmetric(a.sort_key(), b.sort_key());
        }
        if a.sort_key() == b.sort_key() {
            lemma_key_le_reflexive(a.sort_key());
        }
    }
    r
}

/// Keeps the first element of each run of equal keys.
pub fn dedup_by_key<T: SortKey>(items: Vec<T>) -> (r: Vec<T>)
    ensures
        r@ == dedup_by_key_spec(items@),
{
    let ghost all = items@;
    let mut v = items;
    let mut i: usize = 0;
    let ghost mut k: int = 0;
    assert(v@ =~= dedup_by_key_spec(all.take(0)) + all.skip(0));
    while i < v.len()
        invariant
            0 <= k <= all.len(),
            i == dedup_by_key_spec(all.take(k)).len(),
            v@ == dedup_by_key_spec(all.take(k)) + all.skip(k),
        decreases all.len() - k,
    {
        let ghost kept = dedup_by_key_spec(all.take(k));
        assert(all.take(k + 1).drop_last() =~= all.take(k));
        assert(v@[i as int] == all[k]);
        if i > 0 && same_key(&v[i - 1], &v[i]) {
            v.remove(i);
            assert(v@ =~= kept + all.skip(k + 1));
        } else {
            i += 1;
            assert(v@ =~= kept.push(all[k]) + all.skip(k + 1));
        }
        proof {
            k = k + 1;
        }
    }
    assert(k == all.len());
    assert(all.take(k) =~= all);
    assert(v@ =~= dedup_by_key_spec(all));
    v
}

// ---------------------------------------------------------------------------
// Models
// ---------------------------------------------------------------------------

/// The models of a sequence of values.
pub open spec fn models<T: DeepView>(s: Seq<T>) -> Seq<T::V> {
    s.map_values(|x: T| x.deep_view())
}

proof fn lemma_insert_sorted_models<M: Keyed, T: Keyed + DeepView<V = M>>(x: T, s: Seq<T>)
    requires
        forall|y: T| (#[trigger] y.deep_view()).sort_key() == y.sort_key(),
    ensures
        models(insert_sorted(x, s)) == insert_sorted(x.deep_view(), models(s)),
    decreases s.len(),
{
    let m = models(s);
    if s.len() == 0 || key_le(x.sort_key(), s[0].sort_key()) {
        assert(models(seq![x] + s) =~= seq![x.deep_view()] + m);
    } else {
        lemma_insert_sorted_models::<M, T>(x, s.skip(1));
        assert(models(s.skip(1)) =~= m.skip(1));
        assert(models(seq![s[0]] + insert_sorted(x, s.skip(1))) =~= seq![m[0]] + models(
            insert_sorted(x, s.skip(1)),
        ));
    }
}

/// Sorting values sorts their models.
pub proof fn lemma_sorted_models<M: Keyed, T: Keyed + DeepView<V = M>>(s: Seq<T>)
    requires
        forall|y: T| (#[trigger] y.deep_view()).sort_key() == y.sort_key(),
    ensures
        models(sorted_by_key(s)) == sorted_by_key(models(s)),
    decreases s.len(),
{
    if s.len() > 0 {
        lemma_sorted_models::<M, T>(s.skip(1));
        lemma_insert_sorted_models::<M, T>(s[0], sorted_by_key(s.skip(1)));
        assert(models(s.skip(1)) =~= models(s).skip(1));
    } else {
        assert(models(s) =~= Seq::empty());
        assert(sorted_by_key(models(s)) =~= models(sorted_by_key(s)));
    }
}

/// De-duplicating values de-duplicates their models.
pub proof fn lemma_dedup_models<M: Keyed, T: Keyed + DeepView<V = M>>(s: Seq<T>)
    requires
        forall|y: T| (#[trigger] y.deep_view()).sort_key() == y.sort_key(),
    ensures
        models(dedup_by_key_spec(s)) == dedup_by_key_spec(models(s)),
    decreases s.len(),
{
    if s.len() > 0 {
        lemma_dedup_models::<M, T>(s.drop_last());
        let kept = dedup_by_key_spec(s.drop_last());
        assert(models(s.drop_last()) =~= models(s).drop_last());
        assert(models(kept.push(s.last())) =~= models(kept).push(s.last().deep_view()));
        if kept.len() > 0 {
            assert(models(kept).last() == kept.last().deep_view());
        }
    } else {
        assert(models(s) =~= Seq::empty());
        assert(dedup_by_key_spec(models(s)) =~= models(dedup_by_key_spec(s)));
    }
}

impl Keyed for Seq<char> {
    open spec fn sort_key(&self) -> Seq<Seq<char>> {
        seq![*self]
    }
}

/// The texts in order, each once.
pub open spec fn distinct_texts(s: Seq<Seq<char>>) -> Seq<Seq<char>> {
    dedup_by_key_spec(sorted_by_key(s))
}

/// Sorts texts and drops the repeated ones.
pub fn sort_distinct(items: Vec<String>) -> (r: Vec<String>)
    ensures
        r.deep_view() == distinct_texts(items.deep_view()),
{
    let ghost all = items@;
    assert(models(all) =~= items.deep_view());
    proof {
        lemma_sorted_models::<Seq<char>, String>(all);
        lemma_dedup_models::<Seq<char>, String>(sorted_by_key(all));
    }
    let r = dedup_by_key(sort_by_key(items));
    assert(r.deep_view() =~= models(r@));
    r
}

/// What comes out is in order, holds nothing twice, and holds exactly the texts
/// that went in.
pub proof fn law_distinct_texts(s: Seq<Seq<char>>)
    ensures
        keys_ordered(distinct_texts(s)),
        distinct_texts(s).no_duplicates(),
        forall|t: Seq<char>| #[trigger] distinct_texts(s).contains(t) <==> s.contains(t),
{
    broadcast use vstd::seq_lib::group_to_multiset_ensures;

    let sorted = sorted_by_key(s);
    let r = distinct_texts(s);
    lemma_sorted_by_key(s);
    lemma_dedup_by_key(sorted);
    assert forall|i: int, j: int| 0 <= i < j < r.len() implies r[i] != r[j] by {
        assert(r[i].sort_key() != r[j].sort_key());
    }
    assert forall|t: Seq<char>| #[trigger] r.contains(t) <==> s.contains(t) by {
        if r.contains(t) {
            let i = choose|i: int| 0 <= i < r.len() && r[i] == t;
            assert(sorted.contains(r[i]));
            assert(sorted.to_multiset().count(t) > 0);
            assert(s.to_multiset().count(t) > 0);
        }
        if s.contains(t) {
            assert(s.to_multiset().count(t) > 0);
            assert(sorted.to_multiset().count(t) > 0);
            assert(sorted.contains(t));
            let i = choose|i: int| 0 <= i < sorted.len() && sorted[i] == t;
            let j = choose|j: int|
                0 <= j < r.len() && (#[trigger] r[j]).sort_key() == sorted[i].sort_key();
            assert(r[j].sort_key()[0] == r[j]);
            assert(sorted[i].sort_key()[0] == sorted[i]);
            assert(r[j] == t);
        }
    }
}

} // verus!
