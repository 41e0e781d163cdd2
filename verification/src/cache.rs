//! The cache of translations that the server keeps between requests.

use vstd::prelude::*;
use vstd::hash_map::StringHashMap;

verus! {

/// Translations already fetched, by key: a language code for the translated
/// keywords, a language code followed by an item's JSON text for a translated
/// menu item. Values are JSON texts.
pub struct TranslationCache {
    values: StringHashMap<String>,
}

impl View for TranslationCache {
    type V = Map<Seq<char>, Seq<char>>;

    closed spec fn view(&self) -> Map<Seq<char>, Seq<char>> {
        self.values@.map_values(|v: String| v@)
    }
}

impl TranslationCache {
    /// An empty cache.
    pub fn new() -> (cache: Self)
        ensures
            cache@ == Map::<Seq<char>, Seq<char>>::empty(),
    {
        let cache = TranslationCache { values: StringHashMap::new() };
        assert(cache@ =~= Map::<Seq<char>, Seq<char>>::empty());
        cache
    }

    /// The value cached under `key`, if any.
    pub fn get(&self, key: &str) -> (found: Option<String>)
        ensures
            match found {
                Some(v) => self@.contains_key(key@) && v@ == self@[key@],
                None => !self@.contains_key(key@),
            },
    {
        match self.values.get(key) {
            Some(v) => Some(v.clone()),
            None => None,
        }
    }

    /// Caches `value` under `key`, replacing what was cached there.
    pub fn insert(&mut self, key: String, value: String)
        ensures
            final(self)@ == old(self)@.insert(key@, value@),
    {
        let ghost v = value;
        self.values.insert(key, value);
        assert(self@ =~= old(self)@.insert(key@, v@));
    }
}

/// A lookup after an insert gives back the inserted value under the inserted
/// key, and leaves every other key as it was.
pub proof fn lemma_cache_read_after_write(
    before: Map<Seq<char>, Seq<char>>,
    key: Seq<char>,
    value: Seq<char>,
    other: Seq<char>,
)
    ensures
        before.insert(key, value).contains_key(key),
        before.insert(key, value)[key] == value,
        other != key ==> (before.insert(key, value).contains_key(other) == before.contains_key(other)),
        other != key && before.contains_key(other) ==> before.insert(key, value)[other] == before[other],
{
}

} // verus!
