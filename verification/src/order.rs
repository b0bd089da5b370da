//! The order of texts, and sorting by it.

use vstd::prelude::*;
use vstd::string::*;

use crate::collections::texts;
use crate::text::chars_of;

verus! {

/// Lexicographic order by character, which is also the order of `String`.
pub open spec fn lex_le(a: Seq<char>, b: Seq<char>) -> bool
    decreases a.len(),
{
    if a.len() == 0 {
        true
    } else if b.len() == 0 {
        false
    } else if a[0] == b[0] {
        lex_le(a.drop_first(), b.drop_first())
    } else {
        a[0] < b[0]
    }
}

pub proof fn lemma_lex_total(a: Seq<char>, b: Seq<char>)
    ensures
        lex_le(a, b) || lex_le(b, a),
    decreases a.len(),
{
    if a.len() > 0 && b.len() > 0 && a[0] == b[0] {
        lemma_lex_total(a.drop_first(), b.drop_first());
    }
}

pub proof fn lemma_lex_antisymmetric(a: Seq<char>, b: Seq<char>)
    requires
        lex_le(a, b),
        lex_le(b, a),
    ensures
        a == b,
    decreases a.len(),
{
    if a.len() > 0 && b.len() > 0 {
        lemma_lex_antisymmetric(a.drop_first(), b.drop_first());
        assert(a =~= seq![a[0]] + a.drop_first());
        assert(b =~= seq![b[0]] + b.drop_first());
    } else {
        assert(a =~= b);
    }
}

pub proof fn lemma_lex_transitive(a: Seq<char>, b: Seq<char>, c: Seq<char>)
    requires
        lex_le(a, b),
        lex_le(b, c),
    ensures
        lex_le(a, c),
    decreases a.len(),
{
    if a.len() > 0 && b.len() > 0 && c.len() > 0 {
        if a[0] == b[0] && b[0] == c[0] {
            lemma_lex_transitive(a.drop_first(), b.drop_first(), c.drop_first());
        }
    }
}

/// Whether no text of `list` is greater than one after it.
pub open spec fn sorted(list: Seq<Seq<char>>) -> bool {
    forall|i: int, j: int|
        0 <= i <= j < list.len() ==> lex_le(#[trigger] list[i], #[trigger] list[j])
}

proof fn lemma_lex_skip(a: Seq<char>, b: Seq<char>, n: int)
    requires
        0 <= n <= a.len(),
        n <= b.len(),
        forall|i: int| 0 <= i < n ==> a[i] == b[i],
    ensures
        lex_le(a, b) == lex_le(a.skip(n), b.skip(n)),
    decreases n,
{
    if n > 0 {
        let ra = a.drop_first();
        let rb = b.drop_first();
        assert forall|i: int| 0 <= i < n - 1 implies ra[i] == rb[i] by {
            assert(a[i + 1] == b[i + 1]);
        }
        lemma_lex_skip(ra, rb, n - 1);
        assert(ra.skip(n - 1) =~= a.skip(n));
        assert(rb.skip(n - 1) =~= b.skip(n));
    } else {
        assert(a.skip(0) =~= a);
        assert(b.skip(0) =~= b);
    }
}

/// Whether `a` comes no later than `b`.
pub fn text_le(a: &str, b: &str) -> (r: bool)
    ensures
        r == lex_le(a@, b@),
{
    let x = chars_of(a);
    let y = chars_of(b);
    let mut i: usize = 0;
    while i < x.len() && i < y.len() && x[i] == y[i]
        invariant
            i <= x@.len(),
            i <= y@.len(),
            forall|j: int| 0 <= j < i ==> x@[j] == y@[j],
        decreases x@.len() - i,
    {
        i += 1;
    }
    proof {
        lemma_lex_skip(x@, y@, i as int);
    }
    if i == x.len() {
        true
    } else if i == y.len() {
        false
    } else {
        x[i] < y[i]
    }
}

/// Where a text goes into a sorted list: behind everything that is no greater.
pub fn place(list: &Vec<String>, item: &str) -> (r: usize)
    requires
        sorted(texts(list@)),
    ensures
        r <= list@.len(),
        sorted(texts(list@).insert(r as int, item@)),
{
    let mut at: usize = list.len();
    while at > 0 && !text_le(list[at - 1].as_str(), item)
        invariant
            at <= list@.len(),
            forall|j: int| at <= j < list@.len() ==> !lex_le(#[trigger] texts(list@)[j], item@),
        decreases at,
    {
        at -= 1;
    }
    proof {
        let before = texts(list@);
        let after = before.insert(at as int, item@);
        assert forall|i: int, j: int| 0 <= i <= j < after.len() implies lex_le(
            #[trigger] after[i],
            #[trigger] after[j],
        ) by {
            if i == at && j == at {
                lemma_lex_total(item@, item@);
            } else if i == at {
                assert(after[j] == before[j - 1]);
                lemma_lex_total(item@, before[j - 1]);
            } else if j == at {
                assert(lex_le(before[at - 1], item@));
                assert(lex_le(before[i], before[at - 1]));
                lemma_lex_transitive(before[i], before[at - 1], item@);
            } else {
                let i0 = if i < at { i } else { i - 1 };
                let j0 = if j < at { j } else { j - 1 };
                assert(lex_le(before[i0], before[j0]));
            }
        }
    }
    at
}

/// The same texts in lexicographic order.
pub fn sort_texts(items: Vec<String>) -> (r: Vec<String>)
    ensures
        sorted(texts(r@)),
        texts(r@).to_multiset() == texts(items@).to_multiset(),
{
    let mut out: Vec<String> = Vec::new();
    let mut i: usize = 0;
    assert(texts(items@).take(0) =~= texts(out@));
    while i < items.len()
        invariant
            i <= items@.len(),
            sorted(texts(out@)),
            texts(out@).to_multiset() == texts(items@).take(i as int).to_multiset(),
        decreases items@.len() - i,
    {
        let at = place(&out, items[i].as_str());
        let ghost before = texts(out@);
        let ghost item = items@[i as int]@;
        out.insert(at, items[i].clone());
        proof {
            assert(texts(out@) =~= before.insert(at as int, item));
            vstd::seq_lib::to_multiset_insert(before, at as int, item);
            let seen = texts(items@).take(i as int);
            assert(texts(items@).take(i + 1) =~= seen.push(item));
            vstd::seq_lib::to_multiset_insert(seen, seen.len() as int, item);
            assert(seen.insert(seen.len() as int, item) =~= seen.push(item));
        }
        i += 1;
    }
    assert(texts(items@).take(i as int) =~= texts(items@));
    out
}

/// The keys under which `m` holds the text `x`.
pub open spec fn keys_of(m: Map<Seq<char>, Seq<char>>, x: Seq<char>) -> Set<Seq<char>> {
    m.dom().filter(|k: Seq<char>| m[k] == x)
}

/// Whether `list` holds every value of `m` in lexicographic order, as often as
/// there are keys for it.
pub open spec fn lists_values(list: Seq<Seq<char>>, m: Map<Seq<char>, Seq<char>>) -> bool {
    &&& sorted(list)
    &&& forall|x: Seq<char>| #[trigger] list.to_multiset().count(x) == keys_of(m, x).len()
}

/// The values of `m` in lexicographic order.
pub open spec fn sorted_values(m: Map<Seq<char>, Seq<char>>) -> Seq<Seq<char>> {
    choose|list: Seq<Seq<char>>| lists_values(list, m)
}

/// Sorting leaves one order only.
pub proof fn lemma_sorted_unique_order(a: Seq<Seq<char>>, b: Seq<Seq<char>>)
    requires
        sorted(a),
        sorted(b),
        a.to_multiset() == b.to_multiset(),
    ensures
        a == b,
{
    let leq = |x: Seq<char>, y: Seq<char>| lex_le(x, y);
    lemma_lex_orders(leq);
    assert(vstd::relations::sorted_by(a, leq));
    assert(vstd::relations::sorted_by(b, leq));
    vstd::seq_lib::lemma_sorted_unique(a, b, leq);
}

pub proof fn lemma_sorted_values(m: Map<Seq<char>, Seq<char>>, list: Seq<Seq<char>>)
    requires
        lists_values(list, m),
    ensures
        sorted_values(m) == list,
{
    let other = sorted_values(m);
    assert(lists_values(other, m));
    assert(other.to_multiset() =~= list.to_multiset());
    lemma_sorted_unique_order(other, list);
}

/// Walking each key of `m` once meets every value as often as it has keys.
pub proof fn lemma_walk_counts(keys: Seq<Seq<char>>, m: Map<Seq<char>, Seq<char>>, x: Seq<char>)
    requires
        keys.no_duplicates(),
        forall|k: Seq<char>| #[trigger] keys.contains(k) <==> m.contains_key(k),
    ensures
        keys.map_values(|k: Seq<char>| m[k]).to_multiset().count(x) == keys_of(m, x).len(),
        keys_of(m, x).finite(),
    decreases keys.len(),
{
    broadcast use vstd::seq_lib::group_to_multiset_ensures;

    let values = keys.map_values(|k: Seq<char>| m[k]);
    if keys.len() == 0 {
        assert forall|k: Seq<char>| !keys_of(m, x).contains(k) by {
            if m.contains_key(k) {
                assert(keys.contains(k));
            }
        }
        assert(keys_of(m, x) =~= Set::<Seq<char>>::empty());
        assert(values =~= Seq::<Seq<char>>::empty());
    } else {
        let last = keys.last();
        let rest = keys.drop_last();
        let less = m.remove(last);
        assert(keys[keys.len() - 1] == last);
        assert forall|k: Seq<char>| #[trigger] rest.contains(k) <==> less.contains_key(k) by {
            if rest.contains(k) {
                let i = rest.index_of(k);
                assert(keys[i] == k);
                assert(keys.contains(k));
            }
            if less.contains_key(k) {
                assert(keys.contains(k));
                let i = keys.index_of(k);
                assert(rest[i] == k);
            }
        }
        lemma_walk_counts(rest, less, x);
        let before = rest.map_values(|k: Seq<char>| less[k]);
        assert(values =~= before.push(m[last]));
        assert(keys.contains(last));
        if m[last] == x {
            assert(keys_of(m, x) =~= keys_of(less, x).insert(last));
        } else {
            assert(keys_of(m, x) =~= keys_of(less, x));
        }
    }
}

/// Texts are ordered by the first character in which they differ; a text that
/// another one begins with comes first.
pub proof fn first_difference_decides(
    start: Seq<char>,
    x: char,
    a: Seq<char>,
    y: char,
    b: Seq<char>,
)
    ensures
        lex_le(start, start + a),
        x < y ==> lex_le(start + seq![x] + a, start + seq![y] + b) && !lex_le(
            start + seq![y] + b,
            start + seq![x] + a,
        ),
    decreases start.len(),
{
    let left = start + seq![x] + a;
    let right = start + seq![y] + b;
    if start.len() > 0 {
        let rest = start.drop_first();
        first_difference_decides(rest, x, a, y, b);
        assert((start + a).drop_first() =~= rest + a);
        assert(left.drop_first() =~= rest + seq![x] + a);
        assert(right.drop_first() =~= rest + seq![y] + b);
    } else {
        assert(left[0] == x && right[0] == y);
    }
}

/// The values of a map with these keys are listed in order, each as often as
/// there are keys for it.
pub proof fn values_are_listed_in_order(m: Map<Seq<char>, Seq<char>>, keys: Seq<Seq<char>>)
    requires
        keys.no_duplicates(),
        forall|k: Seq<char>| #[trigger] keys.contains(k) <==> m.contains_key(k),
    ensures
        sorted(sorted_values(m)),
        forall|x: Seq<char>| #[trigger]
            sorted_values(m).to_multiset().count(x) == m.dom().filter(
                |k: Seq<char>| m[k] == x,
            ).len(),
        forall|k: Seq<char>| #[trigger] m.contains_key(k) ==> sorted_values(m).contains(m[k]),
        forall|x: Seq<char>| #[trigger]
            sorted_values(m).contains(x) ==> exists|k: Seq<char>| #[trigger]
                m.contains_key(k) && m[k] == x,
{
    broadcast use vstd::seq_lib::group_to_multiset_ensures;

    let leq = |x: Seq<char>, y: Seq<char>| lex_le(x, y);
    lemma_lex_orders(leq);
    let values = keys.map_values(|k: Seq<char>| m[k]);
    let list = values.sort_by(leq);
    values.lemma_sort_by_ensures(leq);
    assert(sorted(list)) by {
        assert forall|i: int, j: int| 0 <= i <= j < list.len() implies lex_le(
            #[trigger] list[i],
            #[trigger] list[j],
        ) by {
            if i < j {
                assert(leq(list[i], list[j]));
            } else {
                lemma_lex_total(list[i], list[i]);
            }
        }
    }
    assert forall|x: Seq<char>| #[trigger] list.to_multiset().count(x) == keys_of(m, x).len() by {
        lemma_walk_counts(keys, m, x);
    }
    lemma_sorted_values(m, list);
    assert forall|k: Seq<char>| #[trigger] m.contains_key(k) implies list.contains(m[k]) by {
        assert(keys.contains(k));
        assert(values[keys.index_of(k)] == m[k]);
        assert(values.contains(m[k]));
        assert(values.to_multiset().count(m[k]) > 0);
        assert(list.to_multiset().count(m[k]) > 0);
    }
    assert forall|x: Seq<char>| #[trigger] list.contains(x) implies exists|k: Seq<char>|
        #[trigger] m.contains_key(k) && m[k] == x by {
        assert(list.to_multiset().count(x) > 0);
        assert(values.to_multiset().count(x) > 0);
        assert(values.contains(x));
        let i = values.index_of(x);
        assert(keys.contains(keys[i]));
        assert(m.contains_key(keys[i]));
    }
}

proof fn lemma_lex_orders(leq: spec_fn(Seq<char>, Seq<char>) -> bool)
    requires
        leq == (|x: Seq<char>, y: Seq<char>| lex_le(x, y)),
    ensures
        vstd::relations::total_ordering(leq),
{
    assert forall|x: Seq<char>| #[trigger] leq(x, x) by {
        lemma_lex_total(x, x);
    }
    assert forall|x: Seq<char>, y: Seq<char>| #[trigger]
        leq(x, y) && #[trigger] leq(y, x) implies x == y by {
        lemma_lex_antisymmetric(x, y);
    }
    assert forall|x: Seq<char>, y: Seq<char>, z: Seq<char>| #[trigger]
        leq(x, y) && #[trigger] leq(y, z) implies leq(x, z) by {
        lemma_lex_transitive(x, y, z);
    }
    assert forall|x: Seq<char>, y: Seq<char>| #[trigger] leq(x, y) || #[trigger] leq(y, x) by {
        lemma_lex_total(x, y);
    }
}

} // verus!
