use vstd::prelude::*;
use vstd::hash_map::StringHashMap;
use vstd::string::*;
use crate::command::InMemStore;
use crate::text::{lowercase, to_lower};

verus! {

/// The in-memory key-value store: keys are stored in lower case.
pub struct Mem {
    store: StringHashMap<String>,
}

impl View for Mem {
    type V = Map<Seq<char>, Seq<char>>;

    /// Each stored key with the text of its value.
    closed spec fn view(&self) -> Map<Seq<char>, Seq<char>> {
        self.store@.map_values(|v: String| v@)
    }
}

impl Mem {
    /// An empty store.
    pub fn new() -> (m: Mem)
        ensures
            m@ == Map::<Seq<char>, Seq<char>>::empty(),
    {
        let m = Mem { store: StringHashMap::new() };
        assert(m@ == Map::<Seq<char>, Seq<char>>::empty());
        m
    }

    /// The value stored under `key`, looked up as given.
    pub fn get(&self, key: &str) -> (r: Option<String>)
        ensures
            match r {
                Some(v) => self@.contains_key(key@) && v@ == self@[key@],
                None => !self@.contains_key(key@),
            },
    {
        match self.store.get(key) {
            Some(v) => Some(v.clone()),
            None => None,
        }
    }

    /// Stores `value` under the lower-case form of `key`.
    pub fn set(&mut self, key: &str, value: &str)
        ensures
            final(self)@ == old(self)@.insert(lowercase(key@), value@),
    {
        let k = to_lower(key);
        let v = String::from_str(value);
        self.store.insert(k, v);
        assert(self@ == old(self)@.insert(lowercase(key@), value@));
    }
}

impl InMemStore for Mem {
    /// Setting stores the value under the lower-case form of the key.
    open spec fn stores(&self, key: Seq<char>, value: Seq<char>, after: Mem) -> bool {
        after@ == self@.insert(lowercase(key), value)
    }

    /// Asking for a key answers the value stored under it, looked up as given.
    open spec fn answers(&self, key: Seq<char>, found: Option<Seq<char>>) -> bool {
        found == (if self@.contains_key(key) {
            Some(self@[key])
        } else {
            None::<Seq<char>>
        })
    }

    /// Stores `value` under the lower-case form of `key`, and returns what was stored there.
    fn set(&mut self, key: String, value: String) -> (previous: Option<String>) {
        let lower = to_lower(key.as_str());
        let previous = Mem::get(self, lower.as_str());
        Mem::set(self, key.as_str(), value.as_str());
        previous
    }

    /// The value stored under `key`, looked up as given.
    fn get(&self, key: String) -> (r: Option<String>) {
        Mem::get(self, key.as_str())
    }
}

/// What a read gives back of a write: once `set(key, value)` has turned the store `before`
/// into `after`, the lower-case key holds `value`, and every other key holds what it held.
pub proof fn law_get_after_set(
    before: Map<Seq<char>, Seq<char>>,
    after: Map<Seq<char>, Seq<char>>,
    key: Seq<char>,
    value: Seq<char>,
    other: Seq<char>,
)
    requires
        after == before.insert(lowercase(key), value),
    ensures
        after.contains_key(lowercase(key)),
        after[lowercase(key)] == value,
        other != lowercase(key) ==> (after.contains_key(other) == before.contains_key(other)),
        other != lowercase(key) && before.contains_key(other) ==> after[other] == before[other],
{
}

/// What a read gives back of a write through a command: when a `SET key value` command has
/// stored into a `Mem` (turning `before` into `after`), looking up the lower-case key in `after`
/// finds `value`.
pub proof fn law_get_after_stored_set(before: Mem, after: Mem, key: Seq<char>, value: Seq<char>)
    requires
        before.stores(key, value, after),
    ensures
        after@.contains_key(lowercase(key)),
        after@[lowercase(key)] == value,
{
}

/// Two `SET` commands on the same key of a `Mem`: the later value is the one stored under the
/// lower-case key, it is what a lookup of that key answers, and every other key holds what it
/// held before both.
pub proof fn law_mem_last_set_wins(
    m0: Mem,
    m1: Mem,
    m2: Mem,
    key: Seq<char>,
    first: Seq<char>,
    second: Seq<char>,
    other: Seq<char>,
    found: Option<Seq<char>>,
)
    requires
        m0.stores(key, first, m1),
        m1.stores(key, second, m2),
    ensures
        m2@.contains_key(lowercase(key)),
        m2@[lowercase(key)] == second,
        m2.answers(lowercase(key), found) ==> found == Some(second),
        other != lowercase(key) ==> (m2@.contains_key(other) == m0@.contains_key(other)),
        other != lowercase(key) && m0@.contains_key(other) ==> m2@[other] == m0@[other],
{
}

} // verus!
