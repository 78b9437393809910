//! Field values by field id.

use vstd::prelude::*;
use vstd::string::*;

use crate::text::same_text;

verus! {

/// The map that a list of pairs describes: of two pairs with one key, the
/// later holds.
pub open spec fn map_of(pairs: Seq<(Seq<char>, Seq<char>)>) -> Map<Seq<char>, Seq<char>>
    decreases pairs.len(),
{
    if pairs.len() == 0 {
        Map::empty()
    } else {
        map_of(pairs.drop_last()).insert(pairs.last().0, pairs.last().1)
    }
}

/// The value under a key, or the empty text where there is none.
pub open spec fn value_or_empty(map: Map<Seq<char>, Seq<char>>, key: Seq<char>) -> Seq<char> {
    if map.contains_key(key) {
        map[key]
    } else {
        Seq::empty()
    }
}

/// No two pairs have one key.
pub open spec fn distinct_keys(pairs: Seq<(Seq<char>, Seq<char>)>) -> bool {
    forall|i: int, j: int|
        0 <= i < j < pairs.len() ==> (#[trigger] pairs[i]).0 != (#[trigger] pairs[j]).0
}

/// A map from field ids to field values. Each id occurs once.
#[derive(Debug)]
pub struct FieldMap {
    entries: Vec<(String, String)>,
}

impl View for FieldMap {
    type V = Map<Seq<char>, Seq<char>>;

    closed spec fn view(&self) -> Map<Seq<char>, Seq<char>> {
        map_of(self.pairs())
    }
}

/// The keys and values of a list of entries.
spec fn pairs_of(entries: Seq<(String, String)>) -> Seq<(Seq<char>, Seq<char>)> {
    entries.map_values(|e: (String, String)| (e.0@, e.1@))
}

/// Setting the value of the last pair with a key inserts that value.
proof fn lemma_update_last(pairs: Seq<(Seq<char>, Seq<char>)>, i: int, value: Seq<char>)
    requires
        0 <= i < pairs.len(),
        forall|j: int| i < j < pairs.len() ==> (#[trigger] pairs[j]).0 != pairs[i].0,
    ensures
        map_of(pairs.update(i, (pairs[i].0, value))) == map_of(pairs).insert(pairs[i].0, value),
    decreases pairs.len(),
{
    let updated = pairs.update(i, (pairs[i].0, value));
    if i == pairs.len() - 1 {
        assert(updated.drop_last() =~= pairs.drop_last());
        assert(map_of(updated) =~= map_of(pairs).insert(pairs[i].0, value));
    } else {
        let shorter = pairs.drop_last();
        lemma_update_last(shorter, i, value);
        assert(updated.drop_last() =~= shorter.update(i, (pairs[i].0, value)));
        assert(pairs.last().0 != pairs[i].0);
        assert(map_of(updated) =~= map_of(pairs).insert(pairs[i].0, value));
    }
}

/// A key is in the map if and only if some pair holds it, and the last such
/// pair gives its value.
pub proof fn lemma_last_pair(pairs: Seq<(Seq<char>, Seq<char>)>, key: Seq<char>)
    ensures
        (forall|j: int| 0 <= j < pairs.len() ==> (#[trigger] pairs[j]).0 != key) ==> !map_of(
            pairs,
        ).contains_key(key),
        forall|i: int|
            0 <= i < pairs.len() && (#[trigger] pairs[i]).0 == key && (forall|j: int|
                i < j < pairs.len() ==> (#[trigger] pairs[j]).0 != key) ==> map_of(
                pairs,
            ).contains_key(key) && map_of(pairs)[key] == pairs[i].1,
    decreases pairs.len(),
{
    if pairs.len() > 0 {
        let shorter = pairs.drop_last();
        lemma_last_pair(shorter, key);
        assert forall|i: int|
            0 <= i < pairs.len() && (#[trigger] pairs[i]).0 == key && (forall|j: int|
                i < j < pairs.len() ==> (#[trigger] pairs[j]).0 != key) implies map_of(
            pairs,
        ).contains_key(key) && map_of(pairs)[key] == pairs[i].1 by {
            if i < pairs.len() - 1 {
                assert(shorter[i] == pairs[i]);
                assert forall|j: int| i < j < shorter.len() implies (#[trigger] shorter[j]).0 != key by {
                    assert(shorter[j] == pairs[j]);
                }
                assert(pairs[pairs.len() - 1].0 != key);
            }
        }
        if forall|j: int| 0 <= j < pairs.len() ==> (#[trigger] pairs[j]).0 != key {
            assert forall|j: int| 0 <= j < shorter.len() implies (#[trigger] shorter[j]).0 != key by {
                assert(shorter[j] == pairs[j]);
            }
            assert(pairs[pairs.len() - 1].0 != key);
        }
    }
}

/// Where no two pairs have one key, each pair gives the value of its key.
pub proof fn lemma_distinct_pairs(pairs: Seq<(Seq<char>, Seq<char>)>, i: int)
    requires
        0 <= i < pairs.len(),
        distinct_keys(pairs),
    ensures
        map_of(pairs).contains_key(pairs[i].0),
        map_of(pairs)[pairs[i].0] == pairs[i].1,
{
    lemma_last_pair(pairs, pairs[i].0);
}

/// Where no two pairs have one key, there are as many keys as pairs.
proof fn lemma_distinct_len(pairs: Seq<(Seq<char>, Seq<char>)>)
    requires
        distinct_keys(pairs),
    ensures
        map_of(pairs).dom().finite(),
        map_of(pairs).dom().len() == pairs.len(),
    decreases pairs.len(),
{
    if pairs.len() > 0 {
        let shorter = pairs.drop_last();
        let key = pairs.last().0;
        assert forall|i: int, j: int| 0 <= i < j < shorter.len() implies (
        #[trigger] shorter[i]).0 != (#[trigger] shorter[j]).0 by {
            assert(shorter[i] == pairs[i]);
            assert(shorter[j] == pairs[j]);
        }
        lemma_distinct_len(shorter);
        assert forall|j: int| 0 <= j < shorter.len() implies (#[trigger] shorter[j]).0 != key by {
            assert(shorter[j] == pairs[j]);
            assert(pairs[pairs.len() - 1].0 == key);
        }
        lemma_last_pair(shorter, key);
        assert(map_of(pairs).dom() =~= map_of(shorter).dom().insert(key));
    }
}

/// A key of the map is the key of some pair.
pub proof fn lemma_key_has_pair(pairs: Seq<(Seq<char>, Seq<char>)>, key: Seq<char>)
    requires
        map_of(pairs).contains_key(key),
    ensures
        exists|i: int|
            0 <= i < pairs.len() && (#[trigger] pairs[i]).0 == key && pairs[i].1 == map_of(
                pairs,
            )[key],
    decreases pairs.len(),
{
    if pairs.len() > 0 {
        let last = pairs.len() - 1;
        if pairs[last].0 != key {
            let shorter = pairs.drop_last();
            lemma_key_has_pair(shorter, key);
            let i = choose|i: int|
                0 <= i < shorter.len() && (#[trigger] shorter[i]).0 == key && shorter[i].1
                    == map_of(shorter)[key];
            assert(pairs[i] == shorter[i]);
        } else {
            assert(pairs[last].0 == key);
        }
    }
}

/// The key of each pair is a key of the map.
pub proof fn lemma_pair_has_key(pairs: Seq<(Seq<char>, Seq<char>)>, i: int)
    requires
        0 <= i < pairs.len(),
    ensures
        map_of(pairs).contains_key(pairs[i].0),
    decreases pairs.len(),
{
    if i < pairs.len() - 1 {
        lemma_pair_has_key(pairs.drop_last(), i);
    }
}

impl FieldMap {
    /// The pairs that make up the map, in the order in which their keys came.
    pub closed spec fn pairs(self) -> Seq<(Seq<char>, Seq<char>)> {
        pairs_of(self.entries@)
    }

    /// No key occurs twice.
    #[verifier::type_invariant]
    spec fn distinct(self) -> bool {
        distinct_keys(self.pairs())
    }

    /// A map without fields.
    pub fn new() -> (map: FieldMap)
        ensures
            map@ == Map::<Seq<char>, Seq<char>>::empty(),
    {
        let map = FieldMap { entries: Vec::new() };
        assert(map.pairs() =~= Seq::empty());
        map
    }

    /// The position of the last entry with a key.
    fn find(&self, key: &str) -> (found: Option<usize>)
        ensures
            match found {
                Some(i) => {
                    &&& i < self.pairs().len()
                    &&& self.pairs()[i as int].0 == key@
                    &&& forall|j: int|
                        i < j < self.pairs().len() ==> (#[trigger] self.pairs()[j]).0 != key@
                },
                None => forall|j: int|
                    0 <= j < self.pairs().len() ==> (#[trigger] self.pairs()[j]).0 != key@,
            },
    {
        let mut i: usize = self.entries.len();
        while i > 0
            invariant
                i <= self.entries.len(),
                forall|j: int|
                    i <= j < self.pairs().len() ==> (#[trigger] self.pairs()[j]).0 != key@,
            decreases i,
        {
            i = i - 1;
            if same_text(self.entries[i].0.as_str(), key) {
                return Some(i);
            }
        }
        None
    }

    /// Sets the value of a field.
    pub fn insert(&mut self, key: String, value: String)
        ensures
            final(self)@ == old(self)@.insert(key@, value@),
    {
        proof {
            use_type_invariant(&*self);
        }
        let ghost before = self.pairs();
        let found = self.find(key.as_str());
        let mut entries: Vec<(String, String)> = Vec::new();
        std::mem::swap(&mut entries, &mut self.entries);
        match found {
            Some(i) => {
                proof {
                    lemma_update_last(before, i as int, value@);
                }
                entries[i] = (key, value);
                assert(pairs_of(entries@) =~= before.update(i as int, (key@, value@)));
            },
            None => {
                entries.push((key, value));
                assert(pairs_of(entries@).drop_last() =~= before);
                assert(forall|j: int|
                    0 <= j < before.len() ==> #[trigger] pairs_of(entries@)[j] == before[j]);
            },
        }
        self.entries = entries;
    }

    /// The value of a field, where it has one.
    pub fn get(&self, key: &str) -> (value: Option<String>)
        ensures
            match value {
                Some(v) => self@.contains_key(key@) && self@[key@] == v@,
                None => !self@.contains_key(key@),
            },
    {
        proof {
            lemma_last_pair(self.pairs(), key@);
        }
        match self.find(key) {
            Some(i) => {
                assert(self.pairs()[i as int].1 == self.entries@[i as int].1@);
                Some(self.entries[i].1.clone())
            },
            None => None,
        }
    }

    /// The value of a field, or the empty text where it has none.
    pub fn get_or_empty(&self, key: &str) -> (value: String)
        ensures
            value@ == value_or_empty(self@, key@),
    {
        match self.get(key) {
            Some(v) => v,
            None => String::new(),
        }
    }

    /// The number of entries.
    pub fn len(&self) -> (n: usize)
        ensures
            n == self.pairs().len(),
            n == self@.dom().len(),
            distinct_keys(self.pairs()),
    {
        proof {
            use_type_invariant(self);
            lemma_distinct_len(self.pairs());
        }
        self.entries.len()
    }

    /// The entry at a position: its key and its value.
    pub fn entry(&self, i: usize) -> (e: (String, String))
        requires
            i < self.pairs().len(),
        ensures
            (e.0@, e.1@) == self.pairs()[i as int],
    {
        (self.entries[i].0.clone(), self.entries[i].1.clone())
    }

    /// The map is the one that its pairs describe.
    pub proof fn lemma_pairs(self)
        ensures
            self@ == map_of(self.pairs()),
    {
    }
}

impl Clone for FieldMap {
    fn clone(&self) -> (copy: FieldMap)
        ensures
            copy@ == self@,
    {
        let mut entries: Vec<(String, String)> = Vec::new();
        let mut i: usize = 0;
        while i < self.entries.len()
            invariant
                i <= self.entries.len(),
                entries@ == self.entries@.take(i as int),
            decreases self.entries.len() - i,
        {
            entries.push((self.entries[i].0.clone(), self.entries[i].1.clone()));
            i = i + 1;
        }
        assert(entries@ =~= self.entries@);
        proof {
            use_type_invariant(self);
        }
        FieldMap { entries }
    }
}

/// The value under a key is the one that the map holds, and empty where it
/// holds none.
pub proof fn law_value_or_empty(map: Map<Seq<char>, Seq<char>>, key: Seq<char>)
    ensures
        map.contains_key(key) ==> value_or_empty(map, key) == map[key],
        !map.contains_key(key) ==> value_or_empty(map, key).len() == 0,
{
}

/// A list of pairs describes what inserting them one after another gives.
pub proof fn law_map_of(
    pairs: Seq<(Seq<char>, Seq<char>)>,
    key: Seq<char>,
    value: Seq<char>,
)
    ensures
        map_of(Seq::empty()) == Map::<Seq<char>, Seq<char>>::empty(),
        map_of(pairs.push((key, value))) == map_of(pairs).insert(key, value),
{
    assert(pairs.push((key, value)).drop_last() =~= pairs);
}

} // verus!
