//! Decode-time interning of short object keys, per context.
use vstd::prelude::*;
use std::collections::HashMap;

verus! {

broadcast use vstd::std_specs::hash::group_hash_axioms;

/// Keys longer than this many bytes bypass the cache.
pub const MAX_CACHED_KEY_LEN: usize = 64;

/// A key value as the decoder hands it out. `serial` tells apart two values
/// built from the same text: a value taken from the cache keeps its serial.
pub struct PyStr {
    pub text: String,
    pub serial: u64,
}

impl PyStr {
    pub open spec fn view(&self) -> (Seq<char>, u64) {
        (self.text@, self.serial)
    }

    /// A copy that stands for the same shared value.
    pub fn share(&self) -> (r: PyStr)
        ensures
            r@ == self@,
    {
        PyStr { text: self.text.clone(), serial: self.serial }
    }
}

/// What xxh3 (64 bits, default secret, seed 0) gives for these bytes.
pub uninterp spec fn xxh3_64_of(bytes: Seq<u8>) -> u64;

/// The hash under which the key cache files a key with this text.
pub open spec fn text_hash(k: Seq<char>) -> u64 {
    xxh3_64_of(vstd::utf8::encode_utf8(k))
}

/// Every cached value is filed under the hash of its own text.
pub open spec fn faithful(m: Map<u64, (Seq<char>, u64)>) -> bool {
    forall|h: u64| #[trigger] m.contains_key(h) ==> text_hash(m[h].0) == h
}

/// Relies on `xxhash_rust::xxh3::xxh3_64`: a hash of the input bytes alone.
#[verifier::external_body]
pub(crate) fn xxh3_64(input: &[u8]) -> (r: u64)
    ensures
        r == xxh3_64_of(input@),
{
    xxhash_rust::xxh3::xxh3_64(input)
}

/// The key cache of one context: key values by the hash of their text, and
/// the serial that the next key value built gets.
pub struct KeyMap {
    pub map: HashMap<u64, PyStr>,
    pub next_serial: u64,
}

/// The view of a cache: hash to the (text, serial) of the value it holds.
pub open spec fn cache_view(m: Map<u64, PyStr>) -> Map<u64, (Seq<char>, u64)> {
    Map::new(|k: u64| m.contains_key(k), |k: u64| m[k]@)
}

impl KeyMap {
    pub open spec fn view(&self) -> Map<u64, (Seq<char>, u64)> {
        cache_view(self.map@)
    }

    pub fn new() -> (r: KeyMap)
        ensures
            r@ == Map::<u64, (Seq<char>, u64)>::empty(),
            r.next_serial == 0,
            faithful(r@),
    {
        let r = KeyMap { map: HashMap::new(), next_serial: 0 };
        assert(r@ =~= Map::<u64, (Seq<char>, u64)>::empty());
        r
    }

    /// The number of cached keys.
    pub fn len(&self) -> (r: usize)
        ensures
            r == self@.len(),
    {
        assert(self@.dom() =~= self.map@.dom());
        self.map.len()
    }

    /// Builds a new key value from `text`, with the next serial.
    pub fn fresh(&mut self, text: &str) -> (r: PyStr)
        requires
            old(self).next_serial < u64::MAX,
        ensures
            r@ == (text@, old(self).next_serial),
            final(self).next_serial == old(self).next_serial + 1,
            final(self).map@ == old(self).map@,
    {
        let r = PyStr { text: text.to_owned(), serial: self.next_serial };
        self.next_serial = self.next_serial + 1;
        r
    }

    /// The cache step for a key whose text hashes to `hash`: the value cached
    /// under that hash if there is one (whatever its text), else a new value,
    /// which is cached under it.
    pub fn get_or_insert_hashed(&mut self, hash: u64, text: &str) -> (r: PyStr)
        requires
            old(self).next_serial < u64::MAX,
        ensures
            old(self)@.contains_key(hash) ==> {
                &&& r@ == old(self)@[hash]
                &&& final(self)@ == old(self)@
                &&& final(self).next_serial == old(self).next_serial
            },
            !old(self)@.contains_key(hash) ==> {
                &&& r@ == (text@, old(self).next_serial)
                &&& final(self)@ == old(self)@.insert(hash, r@)
                &&& final(self).next_serial == old(self).next_serial + 1
            },
    {
        match self.map.get(&hash) {
            Some(v) => v.share(),
            None => {
                let r = self.fresh(text);
                let ghost before = self.map@;
                self.map.insert(hash, r.share());
                assert(cache_view(self.map@) =~= cache_view(before).insert(hash, r@));
                r
            },
        }
    }
}

} // verus!
