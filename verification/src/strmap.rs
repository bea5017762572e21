//! A string-keyed map kept as an association list with unique keys. It
//! backs headers, query parameters and path parameters; the entry order is
//! the insertion order, which fixes the order of serialized headers.

use vstd::prelude::*;

verus! {

/// The map described by an entry list when later entries win.
pub open spec fn map_of_entries<V>(es: Seq<(Seq<char>, V)>) -> Map<Seq<char>, V>
    decreases es.len(),
{
    if es.len() == 0 {
        Map::empty()
    } else {
        map_of_entries(es.drop_last()).insert(es.last().0, es.last().1)
    }
}

/// No key occurs twice in `es`.
pub open spec fn entries_unique<V>(es: Seq<(Seq<char>, V)>) -> bool {
    forall|i: int, j: int| 0 <= i < j < es.len() ==> es[i].0 != es[j].0
}

pub proof fn lemma_map_of_entries_domain<V>(es: Seq<(Seq<char>, V)>, k: Seq<char>)
    ensures
        map_of_entries(es).contains_key(k) <==> exists|i: int| 0 <= i < es.len() && es[i].0 == k,
    decreases es.len(),
{
    if es.len() > 0 {
        lemma_map_of_entries_domain(es.drop_last(), k);
        if map_of_entries(es).contains_key(k) {
            if es.last().0 != k {
                let i = choose|i: int| 0 <= i < es.drop_last().len() && es.drop_last()[i].0 == k;
                assert(es[i].0 == k);
            }
        }
        if exists|i: int| 0 <= i < es.len() && es[i].0 == k {
            let i = choose|i: int| 0 <= i < es.len() && es[i].0 == k;
            if i < es.len() - 1 {
                assert(es.drop_last()[i].0 == k);
            }
        }
    }
}

pub proof fn lemma_map_of_entries_at<V>(es: Seq<(Seq<char>, V)>, i: int)
    requires
        entries_unique(es),
        0 <= i < es.len(),
    ensures
        map_of_entries(es).contains_key(es[i].0),
        map_of_entries(es)[es[i].0] == es[i].1,
    decreases es.len(),
{
    if i == es.len() - 1 {
    } else {
        assert(es.drop_last()[i] == es[i]);
        lemma_map_of_entries_at(es.drop_last(), i);
        assert(es[i].0 != es.last().0);
    }
}

pub proof fn lemma_map_of_entries_update<V>(es: Seq<(Seq<char>, V)>, i: int, v: V)
    requires
        entries_unique(es),
        0 <= i < es.len(),
    ensures
        map_of_entries(es.update(i, (es[i].0, v))) == map_of_entries(es).insert(es[i].0, v),
    decreases es.len(),
{
    let k = es[i].0;
    let es2 = es.update(i, (k, v));
    if i == es.len() - 1 {
        assert(es2.drop_last() =~= es.drop_last());
        assert(map_of_entries(es2) =~= map_of_entries(es).insert(k, v));
    } else {
        assert(es2.drop_last() =~= es.drop_last().update(i, (k, v)));
        assert(es.drop_last()[i] == es[i]);
        lemma_map_of_entries_update(es.drop_last(), i, v);
        assert(es.last().0 != k);
        assert(es2.last() == es.last());
        assert(map_of_entries(es2) =~= map_of_entries(es.drop_last()).insert(k, v).insert(
            es.last().0,
            es.last().1,
        ));
        assert(map_of_entries(es.drop_last()).insert(k, v).insert(es.last().0, es.last().1)
            =~= map_of_entries(es).insert(k, v));
    }
}

pub proof fn lemma_map_of_entries_singleton<V>(k: Seq<char>, v: V)
    ensures
        map_of_entries(seq![(k, v)]) == Map::<Seq<char>, V>::empty().insert(k, v),
{
    assert(seq![(k, v)].drop_last() =~= Seq::<(Seq<char>, V)>::empty());
    assert(map_of_entries(Seq::<(Seq<char>, V)>::empty()) =~= Map::<Seq<char>, V>::empty());
    assert(map_of_entries(seq![(k, v)]) =~= Map::<Seq<char>, V>::empty().insert(k, v));
}

/// A mapping from strings to strings with insertion-ordered entries and
/// unique keys. Looking a key up yields the most recently inserted value.
pub struct StrMap {
    entries: Vec<(String, String)>,
}

impl View for StrMap {
    type V = Seq<(Seq<char>, Seq<char>)>;

    closed spec fn view(&self) -> Seq<(Seq<char>, Seq<char>)> {
        Seq::new(
            self.entries@.len(),
            |i: int| (self.entries@[i].0@, self.entries@[i].1@),
        )
    }
}

impl StrMap {
    /// The key/value pairs as a mathematical map.
    pub open spec fn map_view(&self) -> Map<Seq<char>, Seq<char>> {
        map_of_entries(self@)
    }

    /// Keys never repeat in the entry list.
    #[verifier::type_invariant]
    spec fn wf(&self) -> bool {
        entries_unique(self@)
    }

    /// An empty map.
    pub fn new() -> (r: StrMap)
        ensures
            r@ == Seq::<(Seq<char>, Seq<char>)>::empty(),
            r.map_view() == Map::<Seq<char>, Seq<char>>::empty(),
    {
        let r = StrMap { entries: Vec::new() };
        proof {
            assert(r@ =~= Seq::<(Seq<char>, Seq<char>)>::empty());
        }
        r
    }

    /// How many distinct keys are present.
    pub fn len(&self) -> (r: usize)
        ensures
            r == self@.len(),
    {
        self.entries.len()
    }

    /// The entry at position `i`, in insertion order.
    pub fn key_at(&self, i: usize) -> (r: &String)
        requires
            i < self@.len(),
        ensures
            r@ == self@[i as int].0,
    {
        &self.entries[i].0
    }

    /// The value at position `i`, in insertion order.
    pub fn value_at(&self, i: usize) -> (r: &String)
        requires
            i < self@.len(),
        ensures
            r@ == self@[i as int].1,
    {
        &self.entries[i].1
    }

    /// Binds `key` to `value`; an existing binding is overwritten in place,
    /// a new one is appended.
    pub fn insert(&mut self, key: &str, value: &str)
        ensures
            final(self).map_view() == old(self).map_view().insert(key@, value@),
            old(self).map_view().contains_key(key@) ==> final(self)@.len() == old(self)@.len(),
            !old(self).map_view().contains_key(key@) ==> final(self)@ == old(self)@.push(
                (key@, value@),
            ),
            final(self)@.len() >= old(self)@.len(),
            forall|i: int|
                0 <= i < final(self)@.len() && final(self)@[i].0 != key@ ==> i < old(self)@.len()
                    && final(self)@[i] == old(self)@[i],
            forall|i: int| 0 <= i < old(self)@.len() ==> final(self)@[i].0 == old(self)@[i].0,
    {
        proof {
            use_type_invariant(&*self);
        }
        let ghost es0 = self@;
        let k = key.to_owned();
        let v = value.to_owned();
        let mut entries: Vec<(String, String)> = Vec::new();
        std::mem::swap(&mut entries, &mut self.entries);
        proof {
            assert(entries_view(entries@) =~= es0);
        }
        match find_key(&entries, key) {
            Some(i) => {
                entries[i] = (k, v);
                proof {
                    assert(entries_view(entries@) =~= es0.update(i as int, (key@, value@)));
                    assert(es0[i as int].0 == key@);
                    lemma_map_of_entries_update(es0, i as int, value@);
                    lemma_map_of_entries_domain(es0, key@);
                    assert(entries_unique(entries_view(entries@)));
                }
            },
            None => {
                entries.push((k, v));
                proof {
                    assert(entries_view(entries@) =~= es0.push((key@, value@)));
                    assert(entries_view(entries@).drop_last() =~= es0);
                    lemma_map_of_entries_domain(es0, key@);
                    assert(entries_unique(entries_view(entries@)));
                }
            },
        }
        self.entries = entries;
    }

    /// The value bound to `key`, if any.
    pub fn get(&self, key: &str) -> (r: Option<&String>)
        ensures
            match r {
                Some(v) => self.map_view().contains_key(key@) && self.map_view()[key@] == v@,
                None => !self.map_view().contains_key(key@),
            },
    {
        proof {
            use_type_invariant(&*self);
        }
        match find_key(&self.entries, key) {
            Some(i) => {
                proof {
                    lemma_map_of_entries_at(self@, i as int);
                }
                Some(&self.entries[i].1)
            },
            None => {
                proof {
                    lemma_map_of_entries_domain(self@, key@);
                }
                None
            },
        }
    }

    /// Surfaces the map's own invariant for proofs: no key repeats in the
    /// entry list. Every value of this type satisfies it by construction.
    pub fn keys_unique(&self) -> (r: bool)
        ensures
            r,
            entries_unique(self@),
    {
        proof {
            use_type_invariant(&*self);
        }
        true
    }

    /// Whether `key` is bound.
    pub fn contains_key(&self, key: &str) -> (r: bool)
        ensures
            r == self.map_view().contains_key(key@),
    {
        match self.get(key) {
            Some(_) => true,
            None => false,
        }
    }
}

/// The entry views of a raw entry list.
spec fn entries_view(es: Seq<(String, String)>) -> Seq<(Seq<char>, Seq<char>)> {
    Seq::new(es.len(), |i: int| (es[i].0@, es[i].1@))
}

/// The position of the first entry bound to `key`, if any.
fn find_key(entries: &Vec<(String, String)>, key: &str) -> (r: Option<usize>)
    ensures
        match r {
            Some(i) => i < entries@.len() && entries@[i as int].0@ == key@ && forall|j: int|
                0 <= j < i ==> entries@[j].0@ != key@,
            None => forall|j: int| 0 <= j < entries@.len() ==> entries@[j].0@ != key@,
        },
{
    let n = entries.len();
    let mut i: usize = 0;
    while i < n
        invariant
            n == entries@.len(),
            i <= n,
            forall|j: int| 0 <= j < i ==> entries@[j].0@ != key@,
        decreases n - i,
    {
        if eq_string_str(&entries[i].0, key) {
            return Some(i);
        }
        i = i + 1;
    }
    None
}

/// Character-wise equality between an owned and a borrowed string.
fn eq_string_str(a: &String, b: &str) -> (r: bool)
    ensures
        r == (a@ == b@),
{
    crate::strutil::eq_str(a.as_str(), b)
}

} // verus!
