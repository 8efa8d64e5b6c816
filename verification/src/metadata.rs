//! Text values by text keys.

use vstd::prelude::*;

verus! {

/// The value of each key: that of its last entry.
pub open spec fn entries_map(entries: Seq<(Seq<char>, Seq<char>)>) -> Map<Seq<char>, Seq<char>>
    decreases entries.len(),
{
    if entries.len() == 0 {
        Map::empty()
    } else {
        entries_map(entries.drop_last()).insert(entries.last().0, entries.last().1)
    }
}

spec fn entry_texts(entries: Seq<(String, String)>) -> Seq<(Seq<char>, Seq<char>)> {
    entries.map_values(|entry: (String, String)| (entry.0@, entry.1@))
}

/// The key of each entry.
pub open spec fn keys_of(entries: Seq<(String, String)>) -> Seq<Seq<char>> {
    entries.map_values(|entry: (String, String)| entry.0@)
}

/// Whether no later entry has the key of the one at `at`.
spec fn is_last(entries: Seq<(Seq<char>, Seq<char>)>, at: int) -> bool {
    &&& 0 <= at < entries.len()
    &&& forall|i: int| at < i < entries.len() ==> (#[trigger] entries[i]).0 != entries[at].0
}

/// A small map from text to text.
#[derive(Debug, Clone)]
pub struct Metadata {
    entries: Vec<(String, String)>,
}

impl View for Metadata {
    type V = Map<Seq<char>, Seq<char>>;

    closed spec fn view(&self) -> Map<Seq<char>, Seq<char>> {
        entries_map(entry_texts(self.entries@))
    }
}

proof fn lemma_absent(entries: Seq<(Seq<char>, Seq<char>)>, key: Seq<char>)
    requires
        forall|i: int| 0 <= i < entries.len() ==> (#[trigger] entries[i]).0 != key,
    ensures
        !entries_map(entries).contains_key(key),
    decreases entries.len(),
{
    if entries.len() > 0 {
        let earlier = entries.drop_last();
        assert forall|i: int| 0 <= i < earlier.len() implies (#[trigger] earlier[i]).0 != key by {
            assert(entries[i].0 != key);
        }
        lemma_absent(earlier, key);
        assert(entries[entries.len() - 1].0 != key);
    }
}

proof fn lemma_last_entry(entries: Seq<(Seq<char>, Seq<char>)>, at: int)
    requires
        0 <= at < entries.len(),
        forall|i: int| at < i < entries.len() ==> (#[trigger] entries[i]).0 != entries[at].0,
    ensures
        entries_map(entries).contains_key(entries[at].0),
        entries_map(entries)[entries[at].0] == entries[at].1,
    decreases entries.len(),
{
    let earlier = entries.drop_last();
    if at < earlier.len() {
        assert forall|i: int| at < i < earlier.len() implies (#[trigger] earlier[i]).0
            != earlier[at].0 by {
            assert(entries[i].0 != entries[at].0);
        }
        lemma_last_entry(earlier, at);
        assert(entries[entries.len() - 1].0 != entries[at].0);
    }
}

proof fn lemma_has_a_last_entry(entries: Seq<(Seq<char>, Seq<char>)>, key: Seq<char>) -> (at: int)
    requires
        entries_map(entries).contains_key(key),
    ensures
        0 <= at < entries.len(),
        entries[at].0 == key,
        forall|i: int| at < i < entries.len() ==> (#[trigger] entries[i]).0 != key,
    decreases entries.len(),
{
    if entries.last().0 == key {
        entries.len() - 1
    } else {
        let earlier = entries.drop_last();
        let at = lemma_has_a_last_entry(earlier, key);
        assert forall|i: int| at < i < entries.len() implies (#[trigger] entries[i]).0 != key by {
            if i < earlier.len() {
                assert(earlier[i].0 != key);
            }
        }
        at
    }
}

/// The entries before `upto` that are the last of their key.
spec fn last_entries(entries: Seq<(Seq<char>, Seq<char>)>, upto: nat) -> Seq<
    (Seq<char>, Seq<char>),
>
    decreases upto,
{
    if upto == 0 {
        Seq::empty()
    } else {
        let earlier = last_entries(entries, (upto - 1) as nat);
        if is_last(entries, upto - 1) {
            earlier.push(entries[upto - 1])
        } else {
            earlier
        }
    }
}

proof fn lemma_listed(entries: Seq<(Seq<char>, Seq<char>)>, upto: nat, j: int) -> (at: int)
    requires
        0 <= j < last_entries(entries, upto).len(),
    ensures
        0 <= at < upto,
        is_last(entries, at),
        last_entries(entries, upto)[j] == entries[at],
    decreases upto,
{
    let before = (upto - 1) as nat;
    if j < last_entries(entries, before).len() {
        lemma_listed(entries, before, j)
    } else {
        upto - 1
    }
}

proof fn lemma_lists(entries: Seq<(Seq<char>, Seq<char>)>, upto: nat, at: int) -> (j: int)
    requires
        0 <= at < upto,
        is_last(entries, at),
    ensures
        0 <= j < last_entries(entries, upto).len(),
        last_entries(entries, upto)[j] == entries[at],
    decreases upto,
{
    if at < upto - 1 {
        lemma_lists(entries, (upto - 1) as nat, at)
    } else {
        last_entries(entries, upto).len() - 1
    }
}

proof fn lemma_listed_once(entries: Seq<(Seq<char>, Seq<char>)>, upto: nat, j: int, k: int)
    requires
        upto <= entries.len(),
        0 <= j < k < last_entries(entries, upto).len(),
    ensures
        last_entries(entries, upto)[j].0 != last_entries(entries, upto)[k].0,
    decreases upto,
{
    let before = (upto - 1) as nat;
    if k < last_entries(entries, before).len() {
        lemma_listed_once(entries, before, j, k);
    } else {
        let at = lemma_listed(entries, before, j);
        assert(entries[upto - 1].0 != entries[at].0);
    }
}

proof fn lemma_replaced(entries: Seq<(Seq<char>, Seq<char>)>, at: int, value: Seq<char>)
    requires
        0 <= at < entries.len(),
        forall|i: int| at < i < entries.len() ==> (#[trigger] entries[i]).0 != entries[at].0,
    ensures
        entries_map(entries.update(at, (entries[at].0, value))) == entries_map(entries).insert(
            entries[at].0,
            value,
        ),
    decreases entries.len(),
{
    let key = entries[at].0;
    let earlier = entries.drop_last();
    let after = entries.update(at, (key, value));
    if at < earlier.len() {
        assert forall|i: int| at < i < earlier.len() implies (#[trigger] earlier[i]).0
            != earlier[at].0 by {
            assert(entries[i].0 != entries[at].0);
        }
        lemma_replaced(earlier, at, value);
        assert(after.drop_last() =~= earlier.update(at, (key, value)));
        assert(entries[entries.len() - 1].0 != key);
        assert(entries_map(after) =~= entries_map(entries).insert(key, value));
    } else {
        assert(after.drop_last() =~= earlier);
        assert(entries_map(after) =~= entries_map(entries).insert(key, value));
    }
}

impl Metadata {
    /// No entry.
    pub fn new() -> (metadata: Metadata)
        ensures
            metadata@ == Map::<Seq<char>, Seq<char>>::empty(),
    {
        Metadata { entries: Vec::new() }
    }

    fn position(&self, key: &String) -> (at: Option<usize>)
        ensures
            match at {
                Some(at) => {
                    &&& at < self.entries@.len()
                    &&& self.entries@[at as int].0@ == key@
                    &&& forall|i: int|
                        at < i < self.entries@.len() ==> (#[trigger] self.entries@[i]).0@ != key@
                },
                None => forall|i: int|
                    0 <= i < self.entries@.len() ==> (#[trigger] self.entries@[i]).0@ != key@,
            },
    {
        let mut i: usize = self.entries.len();
        while i > 0
            invariant
                i <= self.entries@.len(),
                forall|j: int|
                    i <= j < self.entries@.len() ==> (#[trigger] self.entries@[j]).0@ != key@,
            decreases i,
        {
            i = i - 1;
            if self.entries[i].0 == *key {
                return Some(i);
            }
        }
        None
    }

    /// Gives `key` the value `value`, whether or not it had one.
    pub fn insert(&mut self, key: String, value: String)
        ensures
            final(self)@ == old(self)@.insert(key@, value@),
    {
        let ghost before = entry_texts(self.entries@);
        match self.position(&key) {
            Some(at) => {
                proof {
                    lemma_replaced(before, at as int, value@);
                }
                self.entries.set(at, (key, value));
                assert(entry_texts(self.entries@) =~= before.update(at as int, (key@, value@)));
            },
            None => {
                self.entries.push((key, value));
                assert(entry_texts(self.entries@).drop_last() =~= before);
            },
        }
    }

    /// The value of `key`.
    pub fn get(&self, key: &str) -> (value: Option<&str>)
        ensures
            match value {
                Some(value) => self@.contains_key(key@) && value@ == self@[key@],
                None => !self@.contains_key(key@),
            },
    {
        let ghost texts = entry_texts(self.entries@);
        match self.position(&key.to_owned()) {
            Some(at) => {
                proof {
                    lemma_last_entry(texts, at as int);
                }
                Some(self.entries[at].1.as_str())
            },
            None => {
                proof {
                    lemma_absent(texts, key@);
                }
                None
            },
        }
    }

    /// Every key with its value, each key once.
    pub fn entries(&self) -> (entries: Vec<(String, String)>)
        ensures
            forall|i: int|
                0 <= i < entries@.len() ==> {
                    &&& self@.contains_key((#[trigger] entries@[i]).0@)
                    &&& self@[entries@[i].0@] == entries@[i].1@
                },
            forall|key: Seq<char>| #[trigger]
                self@.contains_key(key) ==> exists|i: int|
                    0 <= i < entries@.len() && (#[trigger] entries@[i]).0@ == key,
            forall|key: Seq<char>|
                self@.contains_key(key) ==> #[trigger] keys_of(entries@).contains(key),
            forall|i: int, j: int|
                0 <= i < j < entries@.len() ==> (#[trigger] entries@[i]).0@ != (
                #[trigger] entries@[j]).0@,
    {
        let ghost texts = entry_texts(self.entries@);
        let mut entries: Vec<(String, String)> = Vec::new();
        let mut i: usize = 0;
        assert(entry_texts(entries@) =~= last_entries(texts, 0));
        while i < self.entries.len()
            invariant
                i <= self.entries@.len(),
                texts == entry_texts(self.entries@),
                entry_texts(entries@) == last_entries(texts, i as nat),
            decreases self.entries@.len() - i,
        {
            let ghost before = entries@;
            let found = self.position(&self.entries[i].0);
            let last = match found {
                Some(at) => at == i,
                None => false,
            };
            assert(last == is_last(texts, i as int)) by {
                if last {
                    assert forall|j: int| i < j < texts.len() implies (#[trigger] texts[j]).0
                        != texts[i as int].0 by {
                        assert(self.entries@[j].0@ != self.entries@[i as int].0@);
                    }
                } else {
                    assert(self.entries@[i as int].0@ == texts[i as int].0);
                    assert(texts[found->0 as int].0 == texts[i as int].0);
                }
            }
            if last {
                entries.push((self.entries[i].0.clone(), self.entries[i].1.clone()));
                assert(entry_texts(entries@) =~= entry_texts(before).push(texts[i as int]));
            }
            i = i + 1;
        }
        proof {
            let listed = entry_texts(entries@);
            assert forall|j: int| 0 <= j < entries@.len() implies {
                &&& self@.contains_key((#[trigger] entries@[j]).0@)
                &&& self@[entries@[j].0@] == entries@[j].1@
            } by {
                let at = lemma_listed(texts, texts.len(), j);
                assert(listed[j] == (entries@[j].0@, entries@[j].1@));
                lemma_last_entry(texts, at);
            }
            assert forall|key: Seq<char>| #[trigger] self@.contains_key(key) implies exists|j: int|
                0 <= j < entries@.len() && (#[trigger] entries@[j]).0@ == key by {
                let at = lemma_has_a_last_entry(texts, key);
                let j = lemma_lists(texts, texts.len(), at);
                assert(listed[j] == (entries@[j].0@, entries@[j].1@));
            }
            assert forall|key: Seq<char>| self@.contains_key(key) implies #[trigger] keys_of(
                entries@,
            ).contains(key) by {
                let j = choose|j: int| 0 <= j < entries@.len() && (#[trigger] entries@[j]).0@ == key;
                assert(keys_of(entries@)[j] == key);
            }
            assert forall|j: int, k: int| 0 <= j < k < entries@.len() implies (
            #[trigger] entries@[j]).0@ != (#[trigger] entries@[k]).0@ by {
                lemma_listed_once(texts, texts.len(), j, k);
                assert(listed[j] == (entries@[j].0@, entries@[j].1@));
                assert(listed[k] == (entries@[k].0@, entries@[k].1@));
            }
        }
        entries
    }
}

/// What was inserted is found, and only the inserted key is touched: a lookup of any other key
/// gives the same as before. Nothing is found in a new map.
pub proof fn lookups_see_the_latest_insertion(
    fresh: Metadata,
    before: &mut Metadata,
    key: String,
    value: String,
    asked: &str,
    in_fresh: Option<&str>,
    earlier: Option<&str>,
    later: Option<&str>,
)
    requires
        call_ensures(Metadata::new, (), fresh),
        call_ensures(Metadata::get, (&fresh, asked), in_fresh),
        call_ensures(Metadata::get, (&*before, asked), earlier),
        call_ensures(Metadata::insert, (before, key, value), ()),
        call_ensures(Metadata::get, (&*final(before), asked), later),
    ensures
        in_fresh is None,
        asked@ == key@ ==> (later matches Some(found) && found@ == value@),
        asked@ != key@ ==> match (earlier, later) {
            (Some(was), Some(found)) => was@ == found@,
            (None, None) => true,
            _ => false,
        },
{
}

/// The list of entries and the lookups agree: a key is found exactly when it is listed, with the
/// value that is listed, and no key is listed twice.
pub proof fn the_list_agrees_with_lookups(
    metadata: Metadata,
    asked: &str,
    found: Option<&str>,
    entries: Vec<(String, String)>,
)
    requires
        call_ensures(Metadata::get, (&metadata, asked), found),
        call_ensures(Metadata::entries, (&metadata,), entries),
    ensures
        found is Some <==> exists|i: int|
            0 <= i < entries@.len() && (#[trigger] entries@[i]).0@ == asked@,
        forall|i: int|
            0 <= i < entries@.len() && (#[trigger] entries@[i]).0@ == asked@ ==> (
            found matches Some(value) && value@ == entries@[i].1@),
        forall|i: int, j: int|
            0 <= i < j < entries@.len() ==> (#[trigger] entries@[i]).0@ != (
            #[trigger] entries@[j]).0@,
{
    if found is Some {
        assert(metadata@.contains_key(asked@));
        let keys = keys_of(entries@);
        assert(keys.contains(asked@));
        let i = choose|i: int| 0 <= i < keys.len() && keys[i] == asked@;
        assert(entries@[i].0@ == asked@);
    }
    if exists|i: int| 0 <= i < entries@.len() && (#[trigger] entries@[i]).0@ == asked@ {
        let i = choose|i: int| 0 <= i < entries@.len() && (#[trigger] entries@[i]).0@ == asked@;
        assert(metadata@.contains_key(entries@[i].0@));
        assert(found is Some);
    }
}

} // verus!
