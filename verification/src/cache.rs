//! Process-lifetime translation memoization.
//!
//! The cache maps exact source-sentence text to translated text. A hit
//! returns the stored value; a successful computation is stored; a failed
//! computation is not cached, so that a later identical sentence can retry,
//! and the source text itself is returned unchanged. Entries are never
//! evicted.

use vstd::prelude::*;
use vstd::hash_map::StringHashMap;

verus! {

/// Law of memoization: once a successful translation is stored for a
/// sentence, the identical sentence is a hit that yields exactly the stored
/// text, and settling the same outcome again leaves the cache as it is. With
/// `translate_unit`'s contract — a hit returns the stored text and touches
/// neither the cache nor the model session — a sentence's translation is
/// computed at most once, and repeated calls return the same text.
pub proof fn lemma_memoization(m: Map<Seq<char>, Seq<char>>, key: Seq<char>, translated: Seq<char>)
    ensures
        m.insert(key, translated).contains_key(key),
        m.insert(key, translated)[key] == translated,
        m.insert(key, translated).insert(key, translated) == m.insert(key, translated),
{
    assert(m.insert(key, translated).insert(key, translated) =~= m.insert(key, translated));
}

/// Memoization table from source sentence text to translated text.
pub struct TranslationCache {
    entries: StringHashMap<String>,
}

impl View for TranslationCache {
    type V = Map<Seq<char>, Seq<char>>;

    closed spec fn view(&self) -> Map<Seq<char>, Seq<char>> {
        self.entries@.map_values(|v: String| v@)
    }
}

impl TranslationCache {
    /// An empty cache.
    pub fn new() -> (r: Self)
        ensures
            r@ == Map::<Seq<char>, Seq<char>>::empty(),
    {
        let entries = StringHashMap::new();
        let r = TranslationCache { entries };
        proof {
            assert(r@ =~= Map::<Seq<char>, Seq<char>>::empty());
        }
        r
    }

    /// The stored translation of `key`, if one is present.
    pub fn lookup(&self, key: &str) -> (r: Option<String>)
        ensures
            match r {
                Some(v) => self@.contains_key(key@) && v@ == self@[key@],
                None => !self@.contains_key(key@),
            },
    {
        match self.entries.get(key) {
            Some(v) => Some(v.clone()),
            None => None,
        }
    }

    /// Settles a cache miss from the outcome of the translation computation:
    /// a successful result is stored and returned; a failure leaves the cache
    /// unchanged and falls back to the source text itself.
    pub fn settle_miss(&mut self, key: &str, outcome: Option<String>) -> (r: String)
        ensures
            match outcome {
                Some(v) => final(self)@ == old(self)@.insert(key@, v@) && r@ == v@,
                None => final(self)@ == old(self)@ && r@ == key@,
            },
    {
        match outcome {
            Some(v) => {
                let r = v.clone();
                self.entries.insert(key.to_owned(), v);
                proof {
                    assert(self@ =~= old(self)@.insert(key@, r@));
                }
                r
            },
            None => key.to_owned(),
        }
    }
}

} // verus!
