//! Maps and sets of texts, and copies of what holds texts.

use vstd::prelude::*;
use vstd::string::*;

use crate::text::same_text;

verus! {

/// What the texts of a vector hold.
pub open spec fn texts(items: Seq<String>) -> Seq<Seq<char>> {
    items.map_values(|item: String| item@)
}

/// What borrowed texts hold.
pub open spec fn str_texts(items: Seq<&str>) -> Seq<Seq<char>> {
    items.map_values(|item: &str| item@)
}

/// The text that an option holds.
pub open spec fn held(item: Option<String>) -> Option<Seq<char>> {
    match item {
        Some(text) => Some(text@),
        None => None,
    }
}

/// The text that an option borrows.
pub open spec fn lent(item: Option<&str>) -> Option<Seq<char>> {
    match item {
        Some(text) => Some(text@),
        None => None,
    }
}

pub fn copy_option(item: &Option<String>) -> (r: Option<String>)
    ensures
        held(r) == held(*item),
{
    match item {
        Some(text) => Some(text.clone()),
        None => None,
    }
}

/// Borrows every text of a vector.
pub fn borrow_texts<'a>(items: &'a Vec<String>) -> (r: Vec<&'a str>)
    ensures
        str_texts(r@) == texts(items@),
{
    let mut out: Vec<&'a str> = Vec::new();
    let mut i: usize = 0;
    while i < items.len()
        invariant
            i <= items@.len(),
            str_texts(out@) =~= texts(items@).take(i as int),
        decreases items@.len() - i,
    {
        let ghost before = str_texts(out@);
        out.push(items[i].as_str());
        assert(str_texts(out@) =~= before.push(items@[i as int]@));
        i += 1;
    }
    out
}

/// A second vector with the same texts.
pub fn copy_texts(items: &Vec<String>) -> (r: Vec<String>)
    ensures
        texts(r@) == texts(items@),
{
    let mut out: Vec<String> = Vec::new();
    let mut i: usize = 0;
    while i < items.len()
        invariant
            i <= items@.len(),
            texts(out@) =~= texts(items@).take(i as int),
        decreases items@.len() - i,
    {
        let ghost before = texts(out@);
        out.push(items[i].clone());
        assert(texts(out@) =~= before.push(items@[i as int]@));
        i += 1;
    }
    out
}

/// A map keyed by text. Every key occurs once; the entries keep the order in
/// which their keys were first inserted.
#[derive(Debug)]
pub struct StringMap<V> {
    keys: Vec<String>,
    values: Vec<V>,
}

impl<V> StringMap<V> {
    #[verifier::type_invariant]
    spec fn inv(self) -> bool {
        &&& self.keys@.len() == self.values@.len()
        &&& self.order().no_duplicates()
    }

    /// The keys, in the order in which the entries are kept.
    pub closed spec fn order(self) -> Seq<Seq<char>> {
        texts(self.keys@)
    }
}

impl<V: View> View for StringMap<V> {
    type V = Map<Seq<char>, V::V>;

    closed spec fn view(&self) -> Map<Seq<char>, V::V> {
        Map::new(
            |k: Seq<char>| self.order().contains(k),
            |k: Seq<char>| self.values@[self.order().index_of(k)]@,
        )
    }
}

proof fn lemma_order_push(keys: Seq<String>, key: String)
    requires
        texts(keys).no_duplicates(),
        !texts(keys).contains(key@),
    ensures
        texts(keys.push(key)) == texts(keys).push(key@),
        texts(keys.push(key)).no_duplicates(),
{
    let before = texts(keys);
    assert(texts(keys.push(key)) =~= before.push(key@));
    assert forall|i: int, j: int|
        0 <= i < before.push(key@).len() && 0 <= j < before.push(key@).len() && i
            != j implies before.push(key@)[i] != before.push(key@)[j] by {
        if i == before.len() {
            assert(before.contains(before[j]));
        } else if j == before.len() {
            assert(before.contains(before[i]));
        }
    }
}

/// Whether `keys` names every key of `map`, each once.
pub open spec fn lists_keys<V>(keys: Seq<Seq<char>>, map: Map<Seq<char>, V>) -> bool {
    &&& keys.no_duplicates()
    &&& forall|k: Seq<char>| #[trigger] map.contains_key(k) <==> keys.contains(k)
}

impl<V: View> StringMap<V> {
    pub fn new() -> (r: Self)
        ensures
            r@ == Map::<Seq<char>, V::V>::empty(),
    {
        let r: StringMap<V> = StringMap { keys: Vec::new(), values: Vec::new() };
        assert(r@ =~= Map::<Seq<char>, V::V>::empty());
        r
    }

    proof fn lemma_at(self, i: int)
        requires
            self.inv(),
            0 <= i < self.keys@.len(),
        ensures
            self.order()[i] == self.keys@[i]@,
            self.order().index_of(self.keys@[i]@) == i,
            self@.contains_key(self.keys@[i]@),
            self@[self.keys@[i]@] == self.values@[i]@,
    {
        assert(self.order()[i] == self.keys@[i]@);
        assert(self.order().contains(self.keys@[i]@));
    }

    fn position(&self, key: &str) -> (r: Option<usize>)
        ensures
            self.inv(),
            match r {
                Some(i) => {
                    &&& i < self.keys@.len()
                    &&& self.keys@[i as int]@ == key@
                    &&& self.order().index_of(key@) == i
                    &&& self@.contains_key(key@)
                    &&& self@[key@] == self.values@[i as int]@
                },
                None => !self@.contains_key(key@),
            },
    {
        proof {
            use_type_invariant(self);
        }
        let mut i: usize = 0;
        while i < self.keys.len()
            invariant
                i <= self.keys@.len(),
                self.inv(),
                forall|j: int| 0 <= j < i ==> self.order()[j] != key@,
            decreases self.keys@.len() - i,
        {
            if same_text(self.keys[i].as_str(), key) {
                proof {
                    self.lemma_at(i as int);
                }
                return Some(i);
            }
            i += 1;
        }
        None
    }

    /// The number of entries. Together with `key_at` and `value_at` this walks
    /// the entries.
    pub fn len(&self) -> (r: usize)
        ensures
            r == self.order().len(),
            lists_keys(self.order(), self@),
            self@.dom().finite(),
            r == self@.len(),
    {
        proof {
            use_type_invariant(self);
            assert(self@.dom() =~= self.order().to_set());
            self.order().unique_seq_to_set();
        }
        self.keys.len()
    }

    pub fn is_empty(&self) -> (r: bool)
        ensures
            r == (self@ == Map::<Seq<char>, V::V>::empty()),
    {
        let n = self.len();
        proof {
            if n == 0 {
                assert(self@ =~= Map::<Seq<char>, V::V>::empty());
            } else {
                assert(self.order().contains(self.order()[0]));
                assert(self@.contains_key(self.order()[0]));
            }
        }
        n == 0
    }

    pub fn key_at(&self, i: usize) -> (r: &String)
        requires
            i < self.order().len(),
        ensures
            r@ == self.order()[i as int],
            self@.contains_key(r@),
    {
        proof {
            use_type_invariant(self);
            self.lemma_at(i as int);
        }
        &self.keys[i]
    }

    pub fn value_at(&self, i: usize) -> (r: &V)
        requires
            i < self.order().len(),
        ensures
            self@.contains_key(self.order()[i as int]),
            r@ == self@[self.order()[i as int]],
    {
        proof {
            use_type_invariant(self);
            self.lemma_at(i as int);
        }
        &self.values[i]
    }

    pub fn contains_key(&self, key: &str) -> (r: bool)
        ensures
            r == self@.contains_key(key@),
    {
        match self.position(key) {
            Some(_) => true,
            None => false,
        }
    }

    pub fn get(&self, key: &str) -> (r: Option<&V>)
        ensures
            match r {
                Some(value) => self@.contains_key(key@) && value@ == self@[key@],
                None => !self@.contains_key(key@),
            },
    {
        match self.position(key) {
            Some(i) => Some(&self.values[i]),
            None => None,
        }
    }

    pub fn get_mut(&mut self, key: &str) -> (r: Option<&mut V>)
        ensures
            match r {
                Some(value) => {
                    &&& old(self)@.contains_key(key@)
                    &&& (*value)@ == old(self)@[key@]
                    &&& final(self)@ == old(self)@.insert(key@, (*final(value))@)
                    &&& final(self).order() == old(self).order()
                },
                None => !old(self)@.contains_key(key@) && final(self)@ == old(self)@,
            },
    {
        match self.position(key) {
            Some(i) => {
                let r = &mut self.values[i];
                Some(r)
            },
            None => None,
        }
    }

    pub fn value_at_mut(&mut self, i: usize) -> (r: &mut V)
        requires
            i < old(self).order().len(),
        ensures
            old(self)@.contains_key(old(self).order()[i as int]),
            (*r)@ == old(self)@[old(self).order()[i as int]],
            final(self)@ == old(self)@.insert(old(self).order()[i as int], (*final(r))@),
            final(self).order() == old(self).order(),
    {
        proof {
            use_type_invariant(&*self);
            self.lemma_at(i as int);
        }
        &mut self.values[i]
    }

    /// Puts `value` under `key` and hands back what stood there before.
    pub fn insert(&mut self, key: String, value: V) -> (r: Option<V>)
        ensures
            final(self)@ == old(self)@.insert(key@, value@),
            match r {
                Some(before) => old(self)@.contains_key(key@) && before@ == old(self)@[key@],
                None => !old(self)@.contains_key(key@),
            },
    {
        match self.position(key.as_str()) {
            Some(i) => {
                let mut held = value;
                std::mem::swap(&mut self.values[i], &mut held);
                proof {
                    assert(self.order() =~= old(self).order());
                    assert(self@ =~= old(self)@.insert(key@, value@));
                }
                Some(held)
            },
            None => {
                let mut held: StringMap<V> = StringMap::new();
                std::mem::swap(self, &mut held);
                let StringMap { mut keys, mut values } = held;
                keys.push(key);
                values.push(value);
                let ghost before = *old(self);
                proof {
                    lemma_order_push(before.keys@, key);
                }
                *self = StringMap { keys, values };
                proof {
                    assert(self.order() =~= before.order().push(key@));
                    assert forall|k: Seq<char>| #[trigger] self@.contains_key(k) implies self@[k]
                        == before@.insert(key@, value@)[k] by {
                        let i = self.order().index_of(k);
                        self.lemma_at(i);
                        if i < before.keys@.len() {
                            before.lemma_at(i);
                        }
                    }
                    assert forall|k: Seq<char>| before@.insert(key@, value@).contains_key(
                        k,
                    ) implies #[trigger] self@.contains_key(k) by {
                        if k == key@ {
                            assert(self.order().last() == k);
                        } else {
                            let i = before.order().index_of(k);
                            assert(self.order()[i] == k);
                        }
                    }
                    assert(self@ =~= before@.insert(key@, value@));
                }
                None
            },
        }
    }

    /// Takes out the entry of `key`, if there is one.
    pub fn remove(&mut self, key: &str) -> (r: Option<V>)
        ensures
            final(self)@ == old(self)@.remove(key@),
            match r {
                Some(before) => old(self)@.contains_key(key@) && before@ == old(self)@[key@],
                None => !old(self)@.contains_key(key@),
            },
    {
        match self.position(key) {
            Some(i) => {
                let mut held: StringMap<V> = StringMap::new();
                std::mem::swap(self, &mut held);
                let StringMap { mut keys, mut values } = held;
                let ghost before = *old(self);
                let _ = keys.remove(i);
                let value = values.remove(i);
                proof {
                    let order = texts(keys@);
                    assert(order =~= before.order().remove(i as int));
                    assert(order.no_duplicates());
                }
                *self = StringMap { keys, values };
                proof {
                    assert(self.order() =~= before.order().remove(i as int));
                    assert forall|k: Seq<char>| #[trigger]
                        self@.contains_key(k) implies before@.remove(key@).contains_key(k) && self@[k]
                        == before@[k] by {
                        let j = self.order().index_of(k);
                        self.lemma_at(j);
                        let old_j = if j < i { j } else { j + 1 };
                        before.lemma_at(old_j);
                        before.lemma_at(i as int);
                    }
                    assert forall|k: Seq<char>| before@.remove(key@).contains_key(k) implies #[trigger]
                        self@.contains_key(k) by {
                        let j = before.order().index_of(k);
                        before.lemma_at(j);
                        let new_j = if j < i { j } else { j - 1 };
                        assert(self.order()[new_j] == k);
                    }
                    assert(self@ =~= before@.remove(key@));
                }
                Some(value)
            },
            None => {
                assert(self@.remove(key@) =~= self@);
                None
            },
        }
    }

    pub fn clear(&mut self)
        ensures
            final(self)@ == Map::<Seq<char>, V::V>::empty(),
    {
        *self = StringMap::new();
    }
}

impl StringMap<String> {
    /// A second map with the same entries.
    pub fn copy(&self) -> (r: StringMap<String>)
        ensures
            r@ == self@,
    {
        let mut out: StringMap<String> = StringMap::new();
        let n = self.len();
        let mut i: usize = 0;
        while i < n
            invariant
                i <= n,
                n == self.order().len(),
                lists_keys(self.order(), self@),
                forall|k: Seq<char>|
                    #![trigger out@.contains_key(k)]
                    out@.contains_key(k) <==> self.order().take(i as int).contains(k),
                forall|k: Seq<char>| #[trigger] out@.contains_key(k) ==> out@[k] == self@[k],
            decreases n - i,
        {
            let ghost seen = self.order().take(i as int);
            let ghost next = self.order().take(i + 1);
            let _ = out.insert(self.key_at(i).clone(), self.value_at(i).clone());
            proof {
                assert(next =~= seen.push(self.order()[i as int]));
                assert(next[i as int] == self.order()[i as int]);
                assert forall|k: Seq<char>| seen.contains(k) implies next.contains(k) by {
                    let j = seen.index_of(k);
                    assert(next[j] == k);
                }
            }
            i += 1;
        }
        proof {
            assert(self.order().take(n as int) =~= self.order());
            assert(out@ =~= self@);
        }
        out
    }
}

/// A set of texts.
#[derive(Debug)]
pub struct StringSet {
    items: Vec<String>,
}

impl StringSet {
    #[verifier::type_invariant]
    spec fn inv(self) -> bool {
        self.order().no_duplicates()
    }

    /// The members, in the order in which they were inserted.
    pub closed spec fn order(self) -> Seq<Seq<char>> {
        texts(self.items@)
    }
}

impl View for StringSet {
    type V = Set<Seq<char>>;

    closed spec fn view(&self) -> Set<Seq<char>> {
        self.order().to_set()
    }
}

impl StringSet {
    pub fn new() -> (r: Self)
        ensures
            r@ == Set::<Seq<char>>::empty(),
    {
        let r = StringSet { items: Vec::new() };
        assert(r@ =~= Set::<Seq<char>>::empty());
        r
    }

    pub fn contains(&self, item: &str) -> (r: bool)
        ensures
            r == self@.contains(item@),
    {
        let mut i: usize = 0;
        while i < self.items.len()
            invariant
                i <= self.items@.len(),
                forall|j: int| 0 <= j < i ==> self.order()[j] != item@,
            decreases self.items@.len() - i,
        {
            if same_text(self.items[i].as_str(), item) {
                assert(self.order()[i as int] == item@);
                return true;
            }
            i += 1;
        }
        false
    }

    /// Adds `item`, unless it is there already.
    pub fn insert(&mut self, item: String)
        ensures
            final(self)@ == old(self)@.insert(item@),
    {
        if self.contains(item.as_str()) {
            assert(self@.insert(item@) =~= self@);
        } else {
            proof {
                use_type_invariant(&*self);
                lemma_order_push(self.items@, item);
            }
            let mut held = StringSet::new();
            std::mem::swap(self, &mut held);
            let StringSet { mut items } = held;
            items.push(item);
            *self = StringSet { items };
            proof {
                let before = old(self).order();
                assert(self.order() =~= before.push(item@));
                assert(self.order()[before.len() as int] == item@);
                assert forall|k: Seq<char>| before.contains(k) implies self.order().contains(k) by {
                    assert(self.order()[before.index_of(k)] == k);
                }
                assert(self@ =~= old(self)@.insert(item@));
            }
        }
    }

    /// The members, each once.
    pub fn to_vec(&self) -> (r: Vec<String>)
        ensures
            texts(r@).no_duplicates(),
            texts(r@).to_set() == self@,
    {
        proof {
            use_type_invariant(self);
        }
        let mut out: Vec<String> = Vec::new();
        let mut i: usize = 0;
        while i < self.items.len()
            invariant
                i <= self.items@.len(),
                texts(out@) == self.order().take(i as int),
            decreases self.items@.len() - i,
        {
            let ghost before = out@;
            out.push(self.items[i].clone());
            assert(texts(out@) =~= texts(before).push(self.order()[i as int]));
            assert(texts(out@) =~= self.order().take(i + 1));
            i += 1;
        }
        assert(self.order().take(i as int) =~= self.order());
        out
    }
}

} // verus!
