//! Decode-time builders: object keys through the context's key cache, and
//! the scalar values.
use vstd::prelude::*;
use vstd::string::StringSliceAdditionalSpecFns;
use crate::key_cache::{
    KeyMap, PyStr, MAX_CACHED_KEY_LEN, xxh3_64_of, xxh3_64, faithful, text_hash,
};
use vstd::utf8::encode_utf8;
use crate::typeref::TypeRefs;
use crate::value::{PyObject, Payload, Singletons, builtin_type, is_int_object};

verus! {

/// The key value for `key_str`. A key over 64 bytes is built afresh and the
/// cache is left alone; a shorter one is looked up by the xxh3 hash of its
/// bytes alone, so that a key with the same hash as a cached one gets the
/// cached value.
pub fn get_unicode_key(key_str: &str, key_map: &mut KeyMap) -> (r: PyStr)
    requires
        old(key_map).next_serial < u64::MAX,
    ensures
        key_step(
            old(key_map)@,
            old(key_map).next_serial,
            key_str.spec_bytes(),
            key_str@,
            r@,
            final(key_map)@,
            final(key_map).next_serial,
        ),
        faithful(old(key_map)@) ==> faithful(final(key_map)@),
{
    let bytes = key_str.as_bytes();
    if bytes.len() > MAX_CACHED_KEY_LEN {
        let r = key_map.fresh(key_str);
        assert(key_map@ =~= old(key_map)@);
        r
    } else {
        let hash = xxh3_64(bytes);
        key_map.get_or_insert_hashed(hash, key_str)
    }
}

/// The boolean `val`: the context's shared value, handed out by reference
/// and never built anew.
pub fn parse_bool(val: bool, singles: &Singletons) -> (r: &PyObject)
    ensures
        *r == if val {
            singles.true_
        } else {
            singles.false_
        },
{
    if val {
        parse_true(singles)
    } else {
        parse_false(singles)
    }
}

/// The context's shared `true`.
pub fn parse_true(singles: &Singletons) -> (r: &PyObject)
    ensures
        *r == singles.true_,
{
    &singles.true_
}

/// The context's shared `false`.
pub fn parse_false(singles: &Singletons) -> (r: &PyObject)
    ensures
        *r == singles.false_,
{
    &singles.false_
}

pub fn parse_i64(val: i64, types: &TypeRefs) -> (r: PyObject)
    ensures
        is_int_object(&r, types, val as int),
{
    PyObject { ob_type: builtin_type(types.int_type), payload: Payload::Int(val as i128) }
}

pub fn parse_u64(val: u64, types: &TypeRefs) -> (r: PyObject)
    ensures
        is_int_object(&r, types, val as int),
{
    PyObject { ob_type: builtin_type(types.int_type), payload: Payload::Int(val as i128) }
}

/// A float value from the bits of an IEEE 754 double.
pub fn parse_f64(bits: u64, types: &TypeRefs) -> (r: PyObject)
    ensures
        r.ob_type.id == types.float_type,
        r.ob_type.bases@ == Seq::<u64>::empty(),
        r.payload == Payload::Float(bits),
{
    PyObject { ob_type: builtin_type(types.float_type), payload: Payload::Float(bits) }
}

/// The context's shared null value.
pub fn parse_none(singles: &Singletons) -> (r: &PyObject)
    ensures
        *r == singles.none,
{
    &singles.none
}

/// Looking up one key twice in a row gives the same shared value the second
/// time, and leaves the cache as the first lookup left it.
pub proof fn lemma_repeated_key_shared(
    m0: Map<u64, (Seq<char>, u64)>,
    n0: u64,
    key: Seq<u8>,
    text: Seq<char>,
    r1: (Seq<char>, u64),
    m1: Map<u64, (Seq<char>, u64)>,
    n1: u64,
    r2: (Seq<char>, u64),
    m2: Map<u64, (Seq<char>, u64)>,
    n2: u64,
)
    requires
        key.len() <= MAX_CACHED_KEY_LEN,
        key_step(m0, n0, key, text, r1, m1, n1),
        key_step(m1, n1, key, text, r2, m2, n2),
    ensures
        r2 == r1,
        m2 == m1,
        n2 == n1,
        m1.contains_key(xxh3_64_of(key)),
{
}

/// A key over 64 bytes leaves the cache as it was, whatever it held.
pub proof fn lemma_long_key_not_cached(
    m0: Map<u64, (Seq<char>, u64)>,
    n0: u64,
    key: Seq<u8>,
    text: Seq<char>,
    r: (Seq<char>, u64),
    m1: Map<u64, (Seq<char>, u64)>,
    n1: u64,
)
    requires
        key.len() > MAX_CACHED_KEY_LEN,
        key_step(m0, n0, key, text, r, m1, n1),
    ensures
        m1 == m0,
        m1.len() == m0.len(),
        r == (text, n0),
{
}

/// One call of `get_unicode_key` on a key with bytes `key` and text `text`:
/// from cache `m0` and next serial `n0` to result `r`, cache `m1`, serial `n1`.
pub open spec fn key_step(
    m0: Map<u64, (Seq<char>, u64)>,
    n0: u64,
    key: Seq<u8>,
    text: Seq<char>,
    r: (Seq<char>, u64),
    m1: Map<u64, (Seq<char>, u64)>,
    n1: u64,
) -> bool {
    if key.len() > MAX_CACHED_KEY_LEN {
        r == (text, n0) && m1 == m0 && n1 == n0 + 1
    } else {
        let h = xxh3_64_of(key);
        if m0.contains_key(h) {
            r == m0[h] && m1 == m0 && n1 == n0
        } else {
            r == (text, n0) && m1 == m0.insert(h, r) && n1 == n0 + 1
        }
    }
}

/// A cached value is never replaced or dropped by a later key lookup, so a
/// short key looked up again, after any other lookups, gets the value it got
/// the first time.
pub proof fn lemma_entries_persist(
    m0: Map<u64, (Seq<char>, u64)>,
    n0: u64,
    key: Seq<u8>,
    text: Seq<char>,
    r: (Seq<char>, u64),
    m1: Map<u64, (Seq<char>, u64)>,
    n1: u64,
    h: u64,
)
    requires
        key_step(m0, n0, key, text, r, m1, n1),
        m0.contains_key(h),
    ensures
        m1.contains_key(h),
        m1[h] == m0[h],
{
}

/// In a cache that files each value under the hash of its own text, a key
/// lookup gives a value with the key's own text unless a different text with
/// the same hash is already cached; the cache stays that way.
pub proof fn lemma_key_text_kept(
    m0: Map<u64, (Seq<char>, u64)>,
    n0: u64,
    k: Seq<char>,
    r: (Seq<char>, u64),
    m1: Map<u64, (Seq<char>, u64)>,
    n1: u64,
)
    requires
        faithful(m0),
        key_step(m0, n0, encode_utf8(k), k, r, m1, n1),
        encode_utf8(k).len() > MAX_CACHED_KEY_LEN || !m0.contains_key(text_hash(k))
            || m0[text_hash(k)].0 == k,
    ensures
        r.0 == k,
        faithful(m1),
{
}

} // verus!
