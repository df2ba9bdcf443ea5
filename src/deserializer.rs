//! Decoding: from writer tokens back to native values, with object keys
//! interned through the context's key cache.
use vstd::prelude::*;
use vstd::utf8::encode_utf8;
use crate::key_cache::{KeyMap, PyStr, text_hash, faithful};
use crate::pyobject::{
    get_unicode_key, key_step, parse_true, parse_false, parse_none, parse_f64, parse_i64,
    parse_u64,
};
use crate::serializer::{
    Token, TokenV, tokens_view, encoded, items_prefix, entries_prefix, int_in_range, I64_MIN,
    U64_MAX, I64_MAX, n_children,
};
use crate::typeref::{TypeRefs, TypeObject};
use crate::obtype::{ObType, obtype_of};
use crate::value::{PyObject, Payload, Singletons, builtin_type, same_scalar};

verus! {

pub open spec fn key_in(t: Seq<TokenV>, k: Seq<char>) -> bool {
    exists|i: int| 0 <= i < t.len() && t[i] == TokenV::Key(k)
}

/// No two distinct keys of `t`, and no key of `t` and a cached text, share a
/// hash.
pub open spec fn no_collision(m: Map<u64, (Seq<char>, u64)>, t: Seq<TokenV>) -> bool {
    &&& forall|k1: Seq<char>, k2: Seq<char>|
        #![trigger key_in(t, k1), key_in(t, k2)]
        key_in(t, k1) && key_in(t, k2) && text_hash(k1) == text_hash(k2) ==> k1 == k2
    &&& forall|k: Seq<char>, h: u64|
        #![trigger key_in(t, k), m.contains_key(h)]
        key_in(t, k) && m.contains_key(h) && text_hash(k) == h ==> m[h].0 == k
}

/// Where the value that starts at `pos` ends, if a value starts there.
pub open spec fn value_end(t: Seq<TokenV>, pos: int) -> Option<int>
    decreases t.len() - pos, 0int,
{
    if 0 <= pos < t.len() {
        match t[pos] {
            TokenV::Null | TokenV::True | TokenV::False | TokenV::Float(_) | TokenV::Str(_) => Some(
                pos + 1,
            ),
            TokenV::Int(i) => if int_in_range(i) {
                Some(pos + 1)
            } else {
                None
            },
            TokenV::BeginList => items_end(t, pos + 1),
            TokenV::BeginDict => entries_end(t, pos + 1),
            _ => None,
        }
    } else {
        None
    }
}

/// Where the list whose items start at `pos` ends, past its closing token.
pub open spec fn items_end(t: Seq<TokenV>, pos: int) -> Option<int>
    decreases t.len() - pos, 1int,
{
    if 0 <= pos < t.len() {
        if t[pos] is EndList {
            Some(pos + 1)
        } else {
            match value_end(t, pos) {
                Some(p) => if pos < p <= t.len() {
                    items_end(t, p)
                } else {
                    None
                },
                None => None,
            }
        }
    } else {
        None
    }
}

/// Where the mapping whose entries start at `pos` ends, past its closing token.
pub open spec fn entries_end(t: Seq<TokenV>, pos: int) -> Option<int>
    decreases t.len() - pos, 1int,
{
    if 0 <= pos < t.len() {
        if t[pos] is EndDict {
            Some(pos + 1)
        } else if t[pos] is Key {
            match value_end(t, pos + 1) {
                Some(p) => if pos + 1 < p <= t.len() {
                    entries_end(t, p)
                } else {
                    None
                },
                None => None,
            }
        } else {
            None
        }
    } else {
        None
    }
}

/// Why tokens could not be decoded.
#[derive(PartialEq, Eq, Structural, Clone, Copy, Debug)]
pub enum DecodeError {
    Malformed,
}

/// Looking up a key of `t` in a faithful cache without collisions gives a
/// value with that very text, and keeps the cache faithful and collision-free.
proof fn lemma_key_lookup(
    t: Seq<TokenV>,
    k: Seq<char>,
    m0: Map<u64, (Seq<char>, u64)>,
    n0: u64,
    r: (Seq<char>, u64),
    m1: Map<u64, (Seq<char>, u64)>,
    n1: u64,
)
    requires
        key_in(t, k),
        faithful(m0),
        no_collision(m0, t),
        key_step(m0, n0, encode_utf8(k), k, r, m1, n1),
    ensures
        r.0 == k,
        faithful(m1),
        no_collision(m1, t),
        n1 <= n0 + 1,
{
    let h = text_hash(k);
    if encode_utf8(k).len() <= 64 && m0.contains_key(h) {
        assert(m0[h].0 == k);
    }
    assert forall|k2: Seq<char>, h2: u64|
        key_in(t, k2) && m1.contains_key(h2) && text_hash(k2) == h2 implies m1[h2].0 == k2 by {
        if m0.contains_key(h2) {
        } else {
            assert(h2 == h);
        }
    }
}

} // verus!

verus! {

/// The options under which a decoded value is observed: none set.
pub const NO_OPTS: u32 = 0;

proof fn lemma_builtin_tags(t: &TypeObject, types: &TypeRefs, opts: u32)
    requires
        types.wf(),
    ensures
        t.id == types.str_type ==> obtype_of(t, opts, types) == ObType::Str,
        t.id == types.int_type ==> obtype_of(t, opts, types) == ObType::Int,
        t.id == types.bool_type ==> obtype_of(t, opts, types) == ObType::Bool,
        t.id == types.none_type ==> obtype_of(t, opts, types) == ObType::Null,
        t.id == types.float_type ==> obtype_of(t, opts, types) == ObType::Float,
        t.id == types.list_type ==> obtype_of(t, opts, types) == ObType::List,
        t.id == types.dict_type ==> obtype_of(t, opts, types) == ObType::Dict,
{
}

proof fn lemma_items_prefix_ext(o1: PyObject, o2: PyObject, types: TypeRefs, opts: u32, i: nat)
    requires
        o1.payload is List,
        o2.payload is List,
        i <= o1.payload->List_0@.len(),
        i <= o2.payload->List_0@.len(),
        o1.payload->List_0@.subrange(0, i as int) == o2.payload->List_0@.subrange(0, i as int),
    ensures
        items_prefix(o1, types, opts, i) == items_prefix(o2, types, opts, i),
    decreases i,
{
    if i > 0 {
        let v1 = o1.payload->List_0@;
        let v2 = o2.payload->List_0@;
        assert(v1.subrange(0, i - 1) == v1.subrange(0, i as int).subrange(0, i - 1));
        assert(v2.subrange(0, i - 1) == v2.subrange(0, i as int).subrange(0, i - 1));
        assert(v1[i - 1] == v1.subrange(0, i as int)[i - 1]);
        assert(v2[i - 1] == v2.subrange(0, i as int)[i - 1]);
        lemma_items_prefix_ext(o1, o2, types, opts, (i - 1) as nat);
    }
}

proof fn lemma_entries_prefix_ext(o1: PyObject, o2: PyObject, types: TypeRefs, opts: u32, i: nat)
    requires
        o1.payload is Dict,
        o2.payload is Dict,
        i <= o1.payload->Dict_0@.len(),
        i <= o2.payload->Dict_0@.len(),
        o1.payload->Dict_0@.subrange(0, i as int) == o2.payload->Dict_0@.subrange(0, i as int),
    ensures
        entries_prefix(o1, types, opts, i) == entries_prefix(o2, types, opts, i),
    decreases i,
{
    if i > 0 {
        let v1 = o1.payload->Dict_0@;
        let v2 = o2.payload->Dict_0@;
        assert(v1.subrange(0, i - 1) == v1.subrange(0, i as int).subrange(0, i - 1));
        assert(v2.subrange(0, i - 1) == v2.subrange(0, i as int).subrange(0, i - 1));
        assert(v1[i - 1] == v1.subrange(0, i as int)[i - 1]);
        assert(v2[i - 1] == v2.subrange(0, i as int)[i - 1]);
        lemma_entries_prefix_ext(o1, o2, types, opts, (i - 1) as nat);
    }
}

/// Decodes the value that starts at `pos`: it and the position past it, or
/// an error where no value starts there. The value encodes back, under no
/// options, to exactly the tokens it was decoded from.
fn decode_at(
    toks: &Vec<Token>,
    pos: usize,
    types: &TypeRefs,
    singles: &Singletons,
    key_map: &mut KeyMap,
    Ghost(keys_ok): Ghost<bool>,
) -> (r: Result<
    (PyObject, usize),
    DecodeError,
>)
    requires
        types.wf(),
        singles.wf(types),
        pos <= toks@.len(),
        keys_ok ==> faithful(old(key_map)@) && no_collision(old(key_map)@, tokens_view(toks@)),
        old(key_map).next_serial + (toks@.len() - pos) < u64::MAX,
    ensures
        keys_ok ==> faithful(final(key_map)@) && no_collision(final(key_map)@, tokens_view(toks@)),
        match value_end(tokens_view(toks@), pos as int) {
            Some(end) => r matches Ok((o, e)) && e == end && pos < e <= toks@.len() && (keys_ok
                ==> encoded(o, *types, NO_OPTS) == Ok::<Seq<TokenV>, crate::serializer::EncodeError>(
                tokens_view(toks@).subrange(pos as int, end),
            )) && final(key_map).next_serial <= old(key_map).next_serial + (e - pos),
            None => r is Err,
        },
        pos < toks@.len() && toks@[pos as int] is True ==> (
            r matches Ok((o, _)) && same_scalar(&o, &singles.true_)
        ),
        pos < toks@.len() && toks@[pos as int] is False ==> (
            r matches Ok((o, _)) && same_scalar(&o, &singles.false_)
        ),
        pos < toks@.len() && toks@[pos as int] is Null ==> (
            r matches Ok((o, _)) && same_scalar(&o, &singles.none)
        ),
    decreases toks@.len() - pos, 0int,
{
    let ghost t = tokens_view(toks@);
    if pos >= toks.len() {
        return Err(DecodeError::Malformed);
    }
    proof {
        assert(t[pos as int] == toks@[pos as int]@);
    }
    let o = match &toks[pos] {
        Token::Null => parse_none(singles).copy_scalar(),
        Token::True => parse_true(singles).copy_scalar(),
        Token::False => parse_false(singles).copy_scalar(),
        Token::Int(i) => {
            if *i < I64_MIN || *i > U64_MAX {
                return Err(DecodeError::Malformed);
            } else if *i <= I64_MAX {
                parse_i64(*i as i64, types)
            } else {
                parse_u64(*i as u64, types)
            }
        },
        Token::Float(b) => parse_f64(*b, types),
        Token::Str(s) => PyObject {
            ob_type: builtin_type(types.str_type),
            payload: Payload::Str(s.clone()),
        },
        Token::BeginList => {
            return decode_list(toks, pos + 1, types, singles, key_map, Ghost(keys_ok));
        },
        Token::BeginDict => {
            return decode_dict(toks, pos + 1, types, singles, key_map, Ghost(keys_ok));
        },
        _ => {
            return Err(DecodeError::Malformed);
        },
    };
    proof {
        lemma_builtin_tags(&o.ob_type, types, NO_OPTS);
        assert(t.subrange(pos as int, pos + 1) =~= seq![t[pos as int]]);
    }
    Ok((o, pos + 1))
}

fn decode_list(
    toks: &Vec<Token>,
    start: usize,
    types: &TypeRefs,
    singles: &Singletons,
    key_map: &mut KeyMap,
    Ghost(keys_ok): Ghost<bool>,
) -> (r: Result<(PyObject, usize), DecodeError>)
    requires
        types.wf(),
        singles.wf(types),
        1 <= start <= toks@.len(),
        tokens_view(toks@)[start - 1] == TokenV::BeginList,
        keys_ok ==> faithful(old(key_map)@) && no_collision(old(key_map)@, tokens_view(toks@)),
        old(key_map).next_serial + (toks@.len() - start + 1) < u64::MAX,
    ensures
        keys_ok ==> faithful(final(key_map)@) && no_collision(final(key_map)@, tokens_view(toks@)),
        match items_end(tokens_view(toks@), start as int) {
            Some(end) => r matches Ok((o, e)) && e == end && start <= e - 1 && e <= toks@.len() && (
            keys_ok ==> encoded(o, *types, NO_OPTS) == Ok::<Seq<TokenV>, crate::serializer::EncodeError>(
                tokens_view(toks@).subrange(start - 1, end),
            )) && final(key_map).next_serial <= old(key_map).next_serial + (e - start + 1),
            None => r is Err,
        },
    decreases toks@.len() - start, 1int,
{
    let ghost t = tokens_view(toks@);
    let lt_obj = builtin_type(types.list_type);
    let ghost lt = lt_obj;
    let mut acc: Vec<PyObject> = Vec::new();
    let mut pos = start;
    proof {
        assert(items_prefix(PyObject { ob_type: lt, payload: Payload::List(acc) }, *types, NO_OPTS, 0)
            == Ok::<Seq<TokenV>, crate::serializer::EncodeError>(Seq::empty()));
        assert(t.subrange(start as int, start as int) =~= Seq::<TokenV>::empty());
    }
    while pos < toks.len() && !toks[pos].is_end_list()
        invariant
            types.wf(),
            singles.wf(types),
            start <= pos <= toks@.len(),
            t == tokens_view(toks@),
            t[start - 1] == TokenV::BeginList,
            items_end(t, pos as int) == items_end(t, start as int),
            keys_ok ==> items_prefix(
                PyObject { ob_type: lt, payload: Payload::List(acc) },
                *types,
                NO_OPTS,
                acc@.len(),
            ) == Ok::<Seq<TokenV>, crate::serializer::EncodeError>(t.subrange(start as int, pos as int)),
            keys_ok ==> faithful(key_map@) && no_collision(key_map@, t),
            key_map.next_serial <= old(key_map).next_serial + (pos - start),
            old(key_map).next_serial + (toks@.len() - start + 1) < u64::MAX,
        decreases toks@.len() - pos,
    {
        proof {
            assert(t[pos as int] == toks@[pos as int]@);
        }
        match decode_at(toks, pos, types, singles, key_map, Ghost(keys_ok)) {
            Ok((o, p)) => {
                let ghost before = PyObject { ob_type: lt, payload: Payload::List(acc) };
                acc.push(o);
                let ghost after = PyObject { ob_type: lt, payload: Payload::List(acc) };
                proof {
                    assert(acc@.subrange(0, acc@.len() - 1) =~= before.payload->List_0@.subrange(
                        0,
                        acc@.len() - 1,
                    ));
                    lemma_items_prefix_ext(before, after, *types, NO_OPTS, (acc@.len() - 1) as nat);
                    assert(after.payload->List_0@[acc@.len() - 1] == o);
                    assert(t.subrange(start as int, p as int) =~= t.subrange(start as int, pos as int)
                        + t.subrange(pos as int, p as int));
                }
                pos = p;
            },
            Err(e) => {
                return Err(e);
            },
        }
    }
    if pos >= toks.len() {
        return Err(DecodeError::Malformed);
    }
    let o = PyObject { ob_type: lt_obj, payload: Payload::List(acc) };
    proof {
        assert(t[pos as int] == toks@[pos as int]@);
        lemma_builtin_tags(&o.ob_type, types, NO_OPTS);
        assert(o.ob_type == lt);
        assert(t.subrange(start - 1, pos + 1) =~= seq![TokenV::BeginList] + t.subrange(
            start as int,
            pos as int,
        ) + seq![TokenV::EndList]);
    }
    Ok((o, pos + 1))
}

fn decode_dict(
    toks: &Vec<Token>,
    start: usize,
    types: &TypeRefs,
    singles: &Singletons,
    key_map: &mut KeyMap,
    Ghost(keys_ok): Ghost<bool>,
) -> (r: Result<(PyObject, usize), DecodeError>)
    requires
        types.wf(),
        singles.wf(types),
        1 <= start <= toks@.len(),
        tokens_view(toks@)[start - 1] == TokenV::BeginDict,
        keys_ok ==> faithful(old(key_map)@) && no_collision(old(key_map)@, tokens_view(toks@)),
        old(key_map).next_serial + (toks@.len() - start + 1) < u64::MAX,
    ensures
        keys_ok ==> faithful(final(key_map)@) && no_collision(final(key_map)@, tokens_view(toks@)),
        match entries_end(tokens_view(toks@), start as int) {
            Some(end) => r matches Ok((o, e)) && e == end && start <= e - 1 && e <= toks@.len() && (
            keys_ok ==> encoded(o, *types, NO_OPTS) == Ok::<Seq<TokenV>, crate::serializer::EncodeError>(
                tokens_view(toks@).subrange(start - 1, end),
            )) && final(key_map).next_serial <= old(key_map).next_serial + (e - start + 1),
            None => r is Err,
        },
    decreases toks@.len() - start, 1int,
{
    let ghost t = tokens_view(toks@);
    let dt_obj = builtin_type(types.dict_type);
    let ghost dt = dt_obj;
    let mut acc: Vec<(PyStr, PyObject)> = Vec::new();
    let mut pos = start;
    proof {
        assert(entries_prefix(PyObject { ob_type: dt, payload: Payload::Dict(acc) }, *types, NO_OPTS, 0)
            == Ok::<Seq<TokenV>, crate::serializer::EncodeError>(Seq::empty()));
        assert(t.subrange(start as int, start as int) =~= Seq::<TokenV>::empty());
    }
    while pos < toks.len() && !toks[pos].is_end_dict()
        invariant
            types.wf(),
            singles.wf(types),
            start <= pos <= toks@.len(),
            t == tokens_view(toks@),
            t[start - 1] == TokenV::BeginDict,
            entries_end(t, pos as int) == entries_end(t, start as int),
            keys_ok ==> entries_prefix(
                PyObject { ob_type: dt, payload: Payload::Dict(acc) },
                *types,
                NO_OPTS,
                acc@.len(),
            ) == Ok::<Seq<TokenV>, crate::serializer::EncodeError>(t.subrange(start as int, pos as int)),
            keys_ok ==> faithful(key_map@) && no_collision(key_map@, t),
            key_map.next_serial <= old(key_map).next_serial + (pos - start),
            old(key_map).next_serial + (toks@.len() - start + 1) < u64::MAX,
        decreases toks@.len() - pos,
    {
        proof {
            assert(t[pos as int] == toks@[pos as int]@);
        }
        let key = match &toks[pos] {
            Token::Key(s) => {
                let ghost m0 = key_map@;
                let ghost n0 = key_map.next_serial;
                let k = get_unicode_key(s.as_str(), key_map);
                proof {
                    assert(t[pos as int] == TokenV::Key(s@));
                    assert(key_in(t, s@));
                    if keys_ok {
                        lemma_key_lookup(t, s@, m0, n0, k@, key_map@, key_map.next_serial);
                    }
                }
                k
            },
            _ => {
                return Err(DecodeError::Malformed);
            },
        };
        match decode_at(toks, pos + 1, types, singles, key_map, Ghost(keys_ok)) {
            Ok((o, p)) => {
                let ghost before = PyObject { ob_type: dt, payload: Payload::Dict(acc) };
                let ghost kt = key.text@;
                acc.push((key, o));
                let ghost after = PyObject { ob_type: dt, payload: Payload::Dict(acc) };
                proof {
                    assert(acc@.subrange(0, acc@.len() - 1) =~= before.payload->Dict_0@.subrange(
                        0,
                        acc@.len() - 1,
                    ));
                    lemma_entries_prefix_ext(before, after, *types, NO_OPTS, (acc@.len() - 1) as nat);
                    assert(after.payload->Dict_0@[acc@.len() - 1].1 == o);
                    assert(after.payload->Dict_0@[acc@.len() - 1].0.text@ == kt);
                    assert(t.subrange(start as int, p as int) =~= t.subrange(start as int, pos as int)
                        + seq![t[pos as int]] + t.subrange(pos + 1, p as int));
                }
                pos = p;
            },
            Err(e) => {
                return Err(e);
            },
        }
    }
    if pos >= toks.len() {
        return Err(DecodeError::Malformed);
    }
    let o = PyObject { ob_type: dt_obj, payload: Payload::Dict(acc) };
    proof {
        assert(t[pos as int] == toks@[pos as int]@);
        lemma_builtin_tags(&o.ob_type, types, NO_OPTS);
        assert(o.ob_type == dt);
        assert(t.subrange(start - 1, pos + 1) =~= seq![TokenV::BeginDict] + t.subrange(
            start as int,
            pos as int,
        ) + seq![TokenV::EndDict]);
    }
    Ok((o, pos + 1))
}

} // verus!

verus! {

/// Decodes a whole token sequence into one value. It succeeds exactly when
/// the tokens hold one value and nothing after it. Where the key cache files
/// every value under the hash of its own text and no key of the input shares
/// a hash with another key or a cached text, the value encodes back, under
/// no options, to exactly the input, and the cache keeps both properties.
pub fn deserialize(
    toks: &Vec<Token>,
    types: &TypeRefs,
    singles: &Singletons,
    key_map: &mut KeyMap,
) -> (r: Result<PyObject, DecodeError>)
    requires
        types.wf(),
        singles.wf(types),
        old(key_map).next_serial + toks@.len() < u64::MAX,
    ensures
        r is Ok <==> value_end(tokens_view(toks@), 0) == Some(toks@.len() as int),
        r is Err ==> r == Err::<PyObject, DecodeError>(DecodeError::Malformed),
        toks@.len() == 1 && toks@[0] is True ==> (
            r matches Ok(o) && same_scalar(&o, &singles.true_)
        ),
        toks@.len() == 1 && toks@[0] is False ==> (
            r matches Ok(o) && same_scalar(&o, &singles.false_)
        ),
        toks@.len() == 1 && toks@[0] is Null ==> (
            r matches Ok(o) && same_scalar(&o, &singles.none)
        ),
        faithful(old(key_map)@) && no_collision(old(key_map)@, tokens_view(toks@)) ==> {
            &&& faithful(final(key_map)@)
            &&& no_collision(final(key_map)@, tokens_view(toks@))
            &&& r matches Ok(o) ==> encoded(o, *types, NO_OPTS) == Ok::<
                Seq<TokenV>,
                crate::serializer::EncodeError,
            >(tokens_view(toks@))
        },
{
    let ghost keys_ok = faithful(key_map@) && no_collision(key_map@, tokens_view(toks@));
    match decode_at(toks, 0, types, singles, key_map, Ghost(keys_ok)) {
        Ok((o, e)) => {
            if e == toks.len() {
                proof {
                    assert(tokens_view(toks@).subrange(0, e as int) =~= tokens_view(toks@));
                }
                Ok(o)
            } else {
                Err(DecodeError::Malformed)
            }
        },
        Err(_) => Err(DecodeError::Malformed),
    }
}

} // verus!

verus! {

proof fn lemma_value_end_of_encoding(
    v: PyObject,
    types: TypeRefs,
    opts: u32,
    t: Seq<TokenV>,
    pos: int,
)
    requires
        encoded(v, types, opts) is Ok,
        0 <= pos,
        pos + encoded(v, types, opts)->Ok_0.len() <= t.len(),
        t.subrange(pos, pos + encoded(v, types, opts)->Ok_0.len()) == encoded(v, types, opts)->Ok_0,
    ensures
        encoded(v, types, opts)->Ok_0.len() > 0,
        value_end(t, pos) == Some(pos + encoded(v, types, opts)->Ok_0.len()),
    decreases v, n_children(v) + 1,
{
    let e = encoded(v, types, opts)->Ok_0;
    assert(e.len() > 0 ==> t[pos] == t.subrange(pos, pos + e.len())[0]);
    match obtype_of(&v.ob_type, opts, &types) {
        ObType::List | ObType::Tuple => {
            let n = v.payload->List_0@.len();
            let p = items_prefix(v, types, opts, n)->Ok_0;
            assert(e == seq![TokenV::BeginList] + p + seq![TokenV::EndList]);
            assert(t.subrange(pos + 1, pos + 1 + p.len()) == e.subrange(1, 1 + p.len() as int));
            assert(e.subrange(1, 1 + p.len() as int) =~= p);
            lemma_items_end_of_encoding(v, types, opts, t, pos + 1, n);
            assert(t[pos + 1 + p.len()] == e[1 + p.len() as int]);
        },
        ObType::Dict => {
            let n = v.payload->Dict_0@.len();
            let p = entries_prefix(v, types, opts, n)->Ok_0;
            assert(e == seq![TokenV::BeginDict] + p + seq![TokenV::EndDict]);
            assert(t.subrange(pos + 1, pos + 1 + p.len()) == e.subrange(1, 1 + p.len() as int));
            assert(e.subrange(1, 1 + p.len() as int) =~= p);
            lemma_entries_end_of_encoding(v, types, opts, t, pos + 1, n);
            assert(t[pos + 1 + p.len()] == e[1 + p.len() as int]);
        },
        ObType::Enum => {
            lemma_value_end_of_encoding(*v.payload->Member_0, types, opts, t, pos);
        },
        _ => {},
    }
}

proof fn lemma_items_end_of_encoding(
    v: PyObject,
    types: TypeRefs,
    opts: u32,
    t: Seq<TokenV>,
    pos: int,
    i: nat,
)
    requires
        v.payload is List,
        i <= v.payload->List_0@.len(),
        items_prefix(v, types, opts, i) is Ok,
        0 <= pos,
        pos + items_prefix(v, types, opts, i)->Ok_0.len() <= t.len(),
        t.subrange(pos, pos + items_prefix(v, types, opts, i)->Ok_0.len()) == items_prefix(
            v,
            types,
            opts,
            i,
        )->Ok_0,
    ensures
        items_end(t, pos) == items_end(t, pos + items_prefix(v, types, opts, i)->Ok_0.len()),
    decreases v, i,
{
    if i > 0 {
        let item = v.payload->List_0@[i - 1];
        let p0 = items_prefix(v, types, opts, (i - 1) as nat)->Ok_0;
        let e = encoded(item, types, opts)->Ok_0;
        let p = items_prefix(v, types, opts, i)->Ok_0;
        assert(p == p0 + e);
        assert(t.subrange(pos, pos + p0.len()) =~= p.subrange(0, p0.len() as int));
        assert(p.subrange(0, p0.len() as int) =~= p0);
        lemma_items_end_of_encoding(v, types, opts, t, pos, (i - 1) as nat);
        let q = pos + p0.len();
        assert(t.subrange(q, q + e.len()) =~= p.subrange(p0.len() as int, p.len() as int));
        assert(p.subrange(p0.len() as int, p.len() as int) =~= e);
        lemma_value_end_of_encoding(item, types, opts, t, q);
    }
}

proof fn lemma_entries_end_of_encoding(
    v: PyObject,
    types: TypeRefs,
    opts: u32,
    t: Seq<TokenV>,
    pos: int,
    i: nat,
)
    requires
        v.payload is Dict,
        i <= v.payload->Dict_0@.len(),
        entries_prefix(v, types, opts, i) is Ok,
        0 <= pos,
        pos + entries_prefix(v, types, opts, i)->Ok_0.len() <= t.len(),
        t.subrange(pos, pos + entries_prefix(v, types, opts, i)->Ok_0.len()) == entries_prefix(
            v,
            types,
            opts,
            i,
        )->Ok_0,
    ensures
        entries_end(t, pos) == entries_end(t, pos + entries_prefix(v, types, opts, i)->Ok_0.len()),
    decreases v, i,
{
    if i > 0 {
        let entry = v.payload->Dict_0@[i - 1];
        let p0 = entries_prefix(v, types, opts, (i - 1) as nat)->Ok_0;
        let e = encoded(entry.1, types, opts)->Ok_0;
        let p = entries_prefix(v, types, opts, i)->Ok_0;
        assert(p == p0 + seq![TokenV::Key(entry.0.text@)] + e);
        assert(t.subrange(pos, pos + p0.len()) =~= p.subrange(0, p0.len() as int));
        assert(p.subrange(0, p0.len() as int) =~= p0);
        lemma_entries_end_of_encoding(v, types, opts, t, pos, (i - 1) as nat);
        let q = pos + p0.len();
        assert(t[q] == p[p0.len() as int]);
        assert(t.subrange(q + 1, q + 1 + e.len()) =~= p.subrange(p0.len() + 1 as int, p.len() as int));
        assert(p.subrange(p0.len() + 1 as int, p.len() as int) =~= e);
        lemma_value_end_of_encoding(entry.1, types, opts, t, q + 1);
    }
}

/// What the encoder writes for a value is always exactly one whole value to
/// the decoder: `deserialize` succeeds on it, and, where the key cache
/// condition of `deserialize` holds, gives back a value that encodes under
/// no options to the same tokens, so with the same categories, content, list
/// order and key order.
pub proof fn lemma_round_trip(v: PyObject, types: TypeRefs, opts: u32)
    requires
        encoded(v, types, opts) is Ok,
    ensures
        value_end(encoded(v, types, opts)->Ok_0, 0) == Some(
            encoded(v, types, opts)->Ok_0.len() as int,
        ),
{
    let t = encoded(v, types, opts)->Ok_0;
    assert(t.subrange(0, t.len() as int) =~= t);
    lemma_value_end_of_encoding(v, types, opts, t, 0);
}

} // verus!

verus! {

/// The position just past the value that starts at `pos`, if one starts
/// there.
pub fn skip_value(toks: &Vec<Token>, pos: usize) -> (r: Option<usize>)
    ensures
        r matches Some(e) ==> value_end(tokens_view(toks@), pos as int) == Some(e as int),
        r is None ==> value_end(tokens_view(toks@), pos as int) is None,
    decreases toks@.len() - pos, 0int,
{
    let ghost t = tokens_view(toks@);
    if pos >= toks.len() {
        return None;
    }
    proof {
        assert(t[pos as int] == toks@[pos as int]@);
    }
    match &toks[pos] {
        Token::BeginList => skip_items(toks, pos + 1),
        Token::BeginDict => skip_entries(toks, pos + 1),
        Token::EndList | Token::EndDict | Token::Key(_) => None,
        Token::Int(i) => if *i < I64_MIN || *i > U64_MAX {
            None
        } else {
            Some(pos + 1)
        },
        _ => Some(pos + 1),
    }
}

fn skip_items(toks: &Vec<Token>, start: usize) -> (r: Option<usize>)
    requires
        start <= toks@.len(),
    ensures
        r matches Some(e) ==> items_end(tokens_view(toks@), start as int) == Some(e as int),
        r is None ==> items_end(tokens_view(toks@), start as int) is None,
    decreases toks@.len() - start, 1int,
{
    let ghost t = tokens_view(toks@);
    let mut pos = start;
    while pos < toks.len() && !toks[pos].is_end_list()
        invariant
            start <= pos <= toks@.len(),
            t == tokens_view(toks@),
            items_end(t, pos as int) == items_end(t, start as int),
        decreases toks@.len() - pos,
    {
        proof {
            assert(t[pos as int] == toks@[pos as int]@);
        }
        match skip_value(toks, pos) {
            Some(p) => {
                if p <= pos || p > toks.len() {
                    return None;
                }
                pos = p;
            },
            None => {
                return None;
            },
        }
    }
    if pos >= toks.len() {
        return None;
    }
    proof {
        assert(t[pos as int] == toks@[pos as int]@);
    }
    Some(pos + 1)
}

fn skip_entries(toks: &Vec<Token>, start: usize) -> (r: Option<usize>)
    requires
        start <= toks@.len(),
    ensures
        r matches Some(e) ==> entries_end(tokens_view(toks@), start as int) == Some(e as int),
        r is None ==> entries_end(tokens_view(toks@), start as int) is None,
    decreases toks@.len() - start, 1int,
{
    let ghost t = tokens_view(toks@);
    let mut pos = start;
    while pos < toks.len() && !toks[pos].is_end_dict()
        invariant
            start <= pos <= toks@.len(),
            t == tokens_view(toks@),
            entries_end(t, pos as int) == entries_end(t, start as int),
        decreases toks@.len() - pos,
    {
        proof {
            assert(t[pos as int] == toks@[pos as int]@);
        }
        match &toks[pos] {
            Token::Key(_) => {},
            _ => {
                return None;
            },
        }
        match skip_value(toks, pos + 1) {
            Some(p) => {
                if p <= pos + 1 || p > toks.len() {
                    return None;
                }
                pos = p;
            },
            None => {
                return None;
            },
        }
    }
    if pos >= toks.len() {
        return None;
    }
    proof {
        assert(t[pos as int] == toks@[pos as int]@);
    }
    Some(pos + 1)
}

} // verus!
