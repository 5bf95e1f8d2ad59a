//! Attribute sets: string keys with string values, where a later value for a
//! key replaces the earlier one.
use vstd::prelude::*;

use crate::text::str_eq;

verus! {

/// The map that a list of key-value pairs builds when each pair is inserted
/// in order, a later pair replacing an earlier one with the same key.
pub open spec fn map_of<V>(pairs: Seq<(Seq<char>, V)>) -> Map<Seq<char>, V>
    decreases pairs.len(),
{
    if pairs.len() == 0 {
        Map::empty()
    } else {
        map_of(pairs.drop_last()).insert(pairs.last().0, pairs.last().1)
    }
}

/// No key occurs twice.
pub open spec fn keys_distinct<V>(pairs: Seq<(Seq<char>, V)>) -> bool {
    forall|i: int, j: int| 0 <= i < j < pairs.len() ==> #[trigger] pairs[i].0 != #[trigger] pairs[j].0
}

pub proof fn lemma_map_of_dom<V>(pairs: Seq<(Seq<char>, V)>, k: Seq<char>)
    ensures
        map_of(pairs).contains_key(k) <==> exists|i: int| 0 <= i < pairs.len() && #[trigger] pairs[i].0 == k,
    decreases pairs.len(),
{
    if pairs.len() > 0 {
        let rest = pairs.drop_last();
        lemma_map_of_dom(rest, k);
        if exists|i: int| 0 <= i < rest.len() && #[trigger] rest[i].0 == k {
            let i = choose|i: int| 0 <= i < rest.len() && #[trigger] rest[i].0 == k;
            assert(pairs[i].0 == k);
        }
        if exists|i: int| 0 <= i < pairs.len() && #[trigger] pairs[i].0 == k {
            let i = choose|i: int| 0 <= i < pairs.len() && #[trigger] pairs[i].0 == k;
            if i < rest.len() {
                assert(rest[i].0 == k);
            }
        }
    }
}

pub proof fn lemma_map_of_index<V>(pairs: Seq<(Seq<char>, V)>, i: int)
    requires
        keys_distinct(pairs),
        0 <= i < pairs.len(),
    ensures
        map_of(pairs).contains_key(pairs[i].0),
        map_of(pairs)[pairs[i].0] == pairs[i].1,
    decreases pairs.len(),
{
    let rest = pairs.drop_last();
    if i < pairs.len() - 1 {
        assert(rest[i] == pairs[i]);
        assert(keys_distinct(rest)) by {
            assert forall|a: int, b: int| 0 <= a < b < rest.len() implies #[trigger] rest[a].0 != #[trigger] rest[b].0 by {
                assert(rest[a] == pairs[a] && rest[b] == pairs[b]);
            }
        }
        lemma_map_of_index(rest, i);
        assert(pairs[i].0 != pairs[pairs.len() - 1].0);
    }
}

pub proof fn lemma_map_of_update<V>(pairs: Seq<(Seq<char>, V)>, i: int, v: V)
    requires
        keys_distinct(pairs),
        0 <= i < pairs.len(),
    ensures
        map_of(pairs.update(i, (pairs[i].0, v))) == map_of(pairs).insert(pairs[i].0, v),
    decreases pairs.len(),
{
    let updated = pairs.update(i, (pairs[i].0, v));
    let rest = pairs.drop_last();
    if i == pairs.len() - 1 {
        assert(updated.drop_last() =~= rest);
        assert(map_of(updated) =~= map_of(pairs).insert(pairs[i].0, v));
    } else {
        assert(keys_distinct(rest)) by {
            assert forall|a: int, b: int| 0 <= a < b < rest.len() implies #[trigger] rest[a].0 != #[trigger] rest[b].0 by {
                assert(rest[a] == pairs[a] && rest[b] == pairs[b]);
            }
        }
        lemma_map_of_update(rest, i, v);
        assert(updated.drop_last() =~= rest.update(i, (rest[i].0, v)));
        assert(pairs[i].0 != pairs.last().0);
        assert(map_of(updated) =~= map_of(pairs).insert(pairs[i].0, v));
    }
}

/// A list of pairs builds a finite map.
pub proof fn lemma_map_of_finite<V>(pairs: Seq<(Seq<char>, V)>)
    ensures
        map_of(pairs).dom().finite(),
    decreases pairs.len(),
{
    if pairs.len() > 0 {
        lemma_map_of_finite(pairs.drop_last());
    }
}

/// The value of a key is that of its last pair.
pub proof fn lemma_map_of_last<V>(pairs: Seq<(Seq<char>, V)>, i: int)
    requires
        0 <= i < pairs.len(),
        forall|j: int| i < j < pairs.len() ==> #[trigger] pairs[j].0 != pairs[i].0,
    ensures
        map_of(pairs).contains_key(pairs[i].0),
        map_of(pairs)[pairs[i].0] == pairs[i].1,
    decreases pairs.len(),
{
    let rest = pairs.drop_last();
    if i < pairs.len() - 1 {
        assert(rest[i] == pairs[i]);
        assert forall|j: int| i < j < rest.len() implies #[trigger] rest[j].0 != rest[i].0 by {
            assert(rest[j] == pairs[j]);
        }
        lemma_map_of_last(rest, i);
        assert(pairs[pairs.len() - 1].0 != pairs[i].0);
    }
}

/// Element attributes: each key at most once.
#[derive(Debug)]
pub struct Attrs {
    entries: Vec<(String, String)>,
}

impl Attrs {
    pub closed spec fn pairs(&self) -> Seq<(Seq<char>, Seq<char>)> {
        self.entries.deep_view()
    }

    #[verifier::type_invariant]
    closed spec fn distinct(&self) -> bool {
        keys_distinct(self.pairs())
    }
}

impl View for Attrs {
    type V = Map<Seq<char>, Seq<char>>;

    closed spec fn view(&self) -> Map<Seq<char>, Seq<char>> {
        map_of(self.pairs())
    }
}

impl DeepView for Attrs {
    type V = Map<Seq<char>, Seq<char>>;

    open spec fn deep_view(&self) -> Map<Seq<char>, Seq<char>> {
        self@
    }
}

impl Attrs {
    /// No attributes.
    pub fn new() -> (attrs: Self)
        ensures
            attrs@ == Map::<Seq<char>, Seq<char>>::empty(),
    {
        let attrs = Attrs { entries: Vec::new() };
        assert(attrs.pairs() =~= Seq::<(Seq<char>, Seq<char>)>::empty());
        attrs
    }

    fn position(&self, key: &str) -> (found: Option<usize>)
        ensures
            match found {
                Some(i) => i < self.pairs().len() && self.pairs()[i as int].0 == key@,
                None => forall|i: int| 0 <= i < self.pairs().len() ==> #[trigger] self.pairs()[i].0 != key@,
            },
    {
        let mut i: usize = 0;
        while i < self.entries.len()
            invariant
                i <= self.entries@.len(),
                forall|j: int| 0 <= j < i ==> #[trigger] self.pairs()[j].0 != key@,
            decreases self.entries@.len() - i,
        {
            assert(self.pairs()[i as int] == self.entries@[i as int].deep_view());
            if str_eq(self.entries[i].0.as_str(), key) {
                return Some(i);
            }
            i += 1;
        }
        None
    }

    /// The value of the key, if it is set.
    pub fn get(&self, key: &str) -> (value: Option<&String>)
        ensures
            match value {
                Some(v) => self@.contains_key(key@) && self@[key@] == v@,
                None => !self@.contains_key(key@),
            },
    {
        proof {
            use_type_invariant(self);
            lemma_map_of_dom(self.pairs(), key@);
        }
        match self.position(key) {
            Some(i) => {
                proof {
                    lemma_map_of_index(self.pairs(), i as int);
                }
                assert(self.pairs()[i as int] == self.entries@[i as int].deep_view());
                Some(&self.entries[i].1)
            },
            None => None,
        }
    }

    /// Sets the key to the value, replacing any earlier value.
    pub fn insert(&mut self, key: String, value: String)
        ensures
            final(self)@ == old(self)@.insert(key@, value@),
    {
        proof {
            use_type_invariant(&*self);
        }
        let ghost before = self.pairs();
        match self.position(key.as_str()) {
            Some(i) => {
                let mut entries = Vec::new();
                std::mem::swap(&mut entries, &mut self.entries);
                entries.set(i, (key, value));
                proof {
                    assert(entries.deep_view() =~= before.update(i as int, (before[i as int].0, value@)));
                    lemma_map_of_update(before, i as int, value@);
                    assert(keys_distinct(entries.deep_view())) by {
                        assert forall|a: int, b: int| 0 <= a < b < entries.deep_view().len() implies
                            #[trigger] entries.deep_view()[a].0 != #[trigger] entries.deep_view()[b].0 by {
                            assert(before[a].0 == entries.deep_view()[a].0);
                            assert(before[b].0 == entries.deep_view()[b].0);
                        }
                    }
                }
                self.entries = entries;
            },
            None => {
                let mut entries = Vec::new();
                std::mem::swap(&mut entries, &mut self.entries);
                entries.push((key, value));
                proof {
                    assert(entries.deep_view() =~= before.push((key@, value@)));
                    assert(entries.deep_view().drop_last() =~= before);
                    assert(keys_distinct(entries.deep_view())) by {
                        assert forall|a: int, b: int| 0 <= a < b < entries.deep_view().len() implies
                            #[trigger] entries.deep_view()[a].0 != #[trigger] entries.deep_view()[b].0 by {
                            if b < before.len() {
                                assert(before[a].0 == entries.deep_view()[a].0);
                                assert(before[b].0 == entries.deep_view()[b].0);
                            } else {
                                assert(before[a].0 == entries.deep_view()[a].0);
                            }
                        }
                    }
                }
                self.entries = entries;
            },
        }
    }

    /// Sets every key of `other` to its value there.
    pub fn extend(&mut self, other: &Attrs)
        ensures
            final(self)@ == old(self)@.union_prefer_right(other@),
    {
        proof {
            use_type_invariant(other);
        }
        let ghost start = self@;
        let ghost pairs = other.pairs();
        let mut i: usize = 0;
        while i < other.entries.len()
            invariant
                i <= other.entries@.len(),
                pairs == other.pairs(),
                self@ == start.union_prefer_right(map_of(pairs.take(i as int))),
            decreases other.entries@.len() - i,
        {
            assert(pairs[i as int] == other.entries@[i as int].deep_view());
            let key = other.entries[i].0.clone();
            let value = other.entries[i].1.clone();
            self.insert(key, value);
            assert(pairs.take(i + 1).drop_last() =~= pairs.take(i as int));
            assert(self@ =~= start.union_prefer_right(map_of(pairs.take(i + 1))));
            i += 1;
        }
        assert(pairs.take(other.entries@.len() as int) =~= pairs);
    }

    /// A copy with the same attributes.
    pub fn cloned(&self) -> (copy: Attrs)
        ensures
            copy@ == self@,
    {
        let mut copy = Attrs::new();
        copy.extend(self);
        assert(copy@ =~= self@);
        copy
    }

    /// The key-value pairs, each key once.
    pub fn entries(&self) -> (entries: &Vec<(String, String)>)
        ensures
            map_of(entries.deep_view()) == self@,
    {
        &self.entries
    }
}

impl Clone for Attrs {
    fn clone(&self) -> (copy: Self)
        ensures
            copy@ == self@,
    {
        self.cloned()
    }
}

} // verus!
